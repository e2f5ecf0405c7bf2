//! Rank-1 constraint systems over the scalar field: variables, linear
//! combinations, constraints of the form `A * B = C`, and the gadgets that
//! the machine's circuit is built from.

use crate::field::{modulus, FieldElement};
use vstd::prelude::*;

verus! {

/// A variable of a constraint system: a public input or a private
/// auxiliary variable, by position. The input at position 0 is the constant
/// one.
#[derive(Debug, Clone, Copy, PartialEq, Eq, Structural)]
pub enum Variable {
    Input(usize),
    Aux(usize),
}

/// A variable with its coefficient.
#[derive(Debug, Clone, Copy)]
pub struct Term {
    pub coeff: FieldElement,
    pub var: Variable,
}

/// The constraint that the product of the combinations `a` and `b` is the
/// combination `c`.
#[derive(Debug)]
pub struct Constraint {
    pub a: Vec<Term>,
    pub b: Vec<Term>,
    pub c: Vec<Term>,
}

/// A constraint system with the values assigned to its variables, where
/// there are any.
#[derive(Debug)]
pub struct ConstraintSystem {
    pub inputs: Vec<Option<FieldElement>>,
    pub aux: Vec<Option<FieldElement>>,
    pub constraints: Vec<Constraint>,
}

/// The values assigned to the variables of one kind.
pub type Slots = Seq<Option<FieldElement>>;

/// The number in a slot; an empty slot counts as zero.
pub open spec fn slot_value(slot: Option<FieldElement>) -> nat {
    match slot {
        Some(f) => f.value(),
        None => 0,
    }
}

/// The number assigned to a variable; a variable out of range counts as
/// zero.
pub open spec fn var_value(inputs: Slots, aux: Slots, v: Variable) -> nat {
    match v {
        Variable::Input(i) => if i < inputs.len() {
            slot_value(inputs[i as int])
        } else {
            0
        },
        Variable::Aux(i) => if i < aux.len() {
            slot_value(aux[i as int])
        } else {
            0
        },
    }
}

/// Whether a variable is within the range of the variables allocated.
pub open spec fn var_in_range(inputs_len: nat, aux_len: nat, v: Variable) -> bool {
    match v {
        Variable::Input(i) => i < inputs_len,
        Variable::Aux(i) => i < aux_len,
    }
}

pub open spec fn term_value(inputs: Slots, aux: Slots, t: Term) -> nat {
    (t.coeff.value() * var_value(inputs, aux, t.var)) % modulus()
}

/// The value of a linear combination in the field.
pub open spec fn lc_value(inputs: Slots, aux: Slots, terms: Seq<Term>) -> nat
    decreases terms.len(),
{
    if terms.len() == 0 {
        0
    } else {
        (lc_value(inputs, aux, terms.drop_last()) + term_value(inputs, aux, terms.last()))
            % modulus()
    }
}

/// Whether a constraint holds of the values assigned.
pub open spec fn holds(inputs: Slots, aux: Slots, c: Constraint) -> bool {
    (lc_value(inputs, aux, c.a@) * lc_value(inputs, aux, c.b@)) % modulus() == lc_value(
        inputs,
        aux,
        c.c@,
    )
}

pub open spec fn terms_in_range(inputs_len: nat, aux_len: nat, terms: Seq<Term>) -> bool {
    forall|i: int| 0 <= i < terms.len() ==> var_in_range(inputs_len, aux_len, (#[trigger] terms[i]).var)
}

pub open spec fn constraint_in_range(inputs_len: nat, aux_len: nat, c: Constraint) -> bool {
    &&& terms_in_range(inputs_len, aux_len, c.a@)
    &&& terms_in_range(inputs_len, aux_len, c.b@)
    &&& terms_in_range(inputs_len, aux_len, c.c@)
}

/// Every slot that is filled holds a canonical element.
pub open spec fn slots_canonical(slots: Slots) -> bool {
    forall|i: int|
        0 <= i < slots.len() ==> (match #[trigger] slots[i] {
            Some(f) => f.canonical(),
            None => true,
        })
}

/// A term without its bytes: the coefficient as a number, and the variable.
pub type TermView = (nat, Variable);

/// A constraint without its bytes.
pub struct ConstraintView {
    pub a: Seq<TermView>,
    pub b: Seq<TermView>,
    pub c: Seq<TermView>,
}

/// The shape of a constraint system: how many variables of either kind it
/// has, and its constraints. The values assigned are no part of it.
pub struct Skeleton {
    pub inputs: nat,
    pub aux: nat,
    pub constraints: Seq<ConstraintView>,
}

pub open spec fn terms_view(terms: Seq<Term>) -> Seq<TermView> {
    Seq::new(terms.len(), |i: int| (terms[i].coeff.value(), terms[i].var))
}

pub open spec fn constraint_view(c: Constraint) -> ConstraintView {
    ConstraintView { a: terms_view(c.a@), b: terms_view(c.b@), c: terms_view(c.c@) }
}

/// The constant one as a variable.
pub open spec fn unit() -> Variable {
    Variable::Input(0)
}

/// The shape with one more auxiliary variable.
pub open spec fn grown(sk: Skeleton) -> Skeleton {
    Skeleton { aux: sk.aux + 1, ..sk }
}

/// The auxiliary variable that is allocated next.
pub open spec fn fresh(sk: Skeleton) -> Variable {
    Variable::Aux(sk.aux as usize)
}

/// The shape with one more constraint.
pub open spec fn with(sk: Skeleton, c: ConstraintView) -> Skeleton {
    Skeleton { constraints: sk.constraints.push(c), ..sk }
}

/// The shape after the gadget for a constant: a new variable `v` with
/// `v * 1 = c`.
pub open spec fn sk_constant(sk: Skeleton, c: nat) -> Skeleton {
    with(
        grown(sk),
        ConstraintView { a: seq![(1nat, fresh(sk))], b: seq![(1nat, unit())], c: seq![(c, unit())] },
    )
}

/// The shape after the gadget for a sum: a new variable `v` with
/// `(x + y) * 1 = v`.
pub open spec fn sk_sum(sk: Skeleton, x: Variable, y: Variable) -> Skeleton {
    with(
        grown(sk),
        ConstraintView {
            a: seq![(1nat, x), (1nat, y)],
            b: seq![(1nat, unit())],
            c: seq![(1nat, fresh(sk))],
        },
    )
}

/// The shape after the gadget for a product: a new variable `v` with
/// `x * y = v`.
pub open spec fn sk_product(sk: Skeleton, x: Variable, y: Variable) -> Skeleton {
    with(
        grown(sk),
        ConstraintView { a: seq![(1nat, x)], b: seq![(1nat, y)], c: seq![(1nat, fresh(sk))] },
    )
}

/// The shape after the gadget that adds a constant: a new variable `v`
/// with `(x + k) * 1 = v`.
pub open spec fn sk_plus(sk: Skeleton, x: Variable, k: nat) -> Skeleton {
    with(
        grown(sk),
        ConstraintView {
            a: seq![(1nat, x), (k, unit())],
            b: seq![(1nat, unit())],
            c: seq![(1nat, fresh(sk))],
        },
    )
}

/// The shape after the gadget that takes a constant away: a new variable
/// `v` with `(v + k) * 1 = x`.
pub open spec fn sk_minus(sk: Skeleton, x: Variable, k: nat) -> Skeleton {
    with(
        grown(sk),
        ConstraintView {
            a: seq![(1nat, fresh(sk)), (k, unit())],
            b: seq![(1nat, unit())],
            c: seq![(1nat, x)],
        },
    )
}

/// The constraint `x * 1 = y`.
pub open spec fn equality(x: Variable, y: Variable) -> ConstraintView {
    ConstraintView { a: seq![(1nat, x)], b: seq![(1nat, unit())], c: seq![(1nat, y)] }
}

/// The constraint `(x + y) * 1 = z`.
pub open spec fn addition(x: Variable, y: Variable, z: Variable) -> ConstraintView {
    ConstraintView { a: seq![(1nat, x), (1nat, y)], b: seq![(1nat, unit())], c: seq![(1nat, z)] }
}

/// A variable allocated later does not change the value of a combination
/// of variables allocated before.
pub proof fn lemma_lc_frame(inputs: Slots, aux: Slots, inputs2: Slots, aux2: Slots, terms: Seq<Term>)
    requires
        terms_in_range(inputs.len(), aux.len(), terms),
        inputs.len() <= inputs2.len(),
        aux.len() <= aux2.len(),
        forall|i: int| 0 <= i < inputs.len() ==> inputs2[i] == inputs[i],
        forall|i: int| 0 <= i < aux.len() ==> aux2[i] == aux[i],
    ensures
        lc_value(inputs2, aux2, terms) == lc_value(inputs, aux, terms),
    decreases terms.len(),
{
    if terms.len() > 0 {
        lemma_lc_frame(inputs, aux, inputs2, aux2, terms.drop_last());
        let t = terms.last();
        assert(var_in_range(inputs.len(), aux.len(), terms[terms.len() - 1].var));
    }
}

/// The value of a combination of one term.
pub proof fn lemma_lc1(inputs: Slots, aux: Slots, t: Term)
    ensures
        lc_value(inputs, aux, seq![t]) == term_value(inputs, aux, t),
{
    let s = seq![t];
    assert(s.drop_last() =~= Seq::<Term>::empty());
    assert(lc_value(inputs, aux, s.drop_last()) == 0);
    vstd::arithmetic::div_mod::lemma_mod_twice(
        (t.coeff.value() * var_value(inputs, aux, t.var)) as int,
        modulus() as int,
    );
}

/// The value of a combination of two terms.
pub proof fn lemma_lc2(inputs: Slots, aux: Slots, t1: Term, t2: Term)
    ensures
        lc_value(inputs, aux, seq![t1, t2]) == (term_value(inputs, aux, t1) + term_value(
            inputs,
            aux,
            t2,
        )) % modulus(),
{
    let s = seq![t1, t2];
    assert(s.drop_last() =~= seq![t1]);
    lemma_lc1(inputs, aux, t1);
}

impl ConstraintSystem {
    /// The number assigned to a variable.
    pub open spec fn value(&self, v: Variable) -> nat {
        var_value(self.inputs@, self.aux@, v)
    }

    /// Whether a variable has been allocated.
    pub open spec fn has(&self, v: Variable) -> bool {
        var_in_range(self.inputs@.len(), self.aux@.len(), v)
    }

    /// Whether a variable has been allocated and given a value.
    pub open spec fn knows(&self, v: Variable) -> bool {
        match v {
            Variable::Input(i) => i < self.inputs@.len() && self.inputs@[i as int] is Some,
            Variable::Aux(i) => i < self.aux@.len() && self.aux@[i as int] is Some,
        }
    }

    /// The first input is the constant one, every constraint speaks of
    /// allocated variables only, and every value is canonical.
    pub open spec fn wf(&self) -> bool {
        &&& self.inputs@.len() >= 1
        &&& self.inputs@[0] is Some
        &&& self.inputs@[0]->0.value() == 1
        &&& slots_canonical(self.inputs@)
        &&& slots_canonical(self.aux@)
        &&& forall|i: int|
            0 <= i < self.constraints@.len() ==> constraint_in_range(
                self.inputs@.len(),
                self.aux@.len(),
                #[trigger] self.constraints@[i],
            )
    }

    /// Every variable has a value.
    pub open spec fn assigned(&self) -> bool {
        &&& forall|i: int| 0 <= i < self.inputs@.len() ==> (#[trigger] self.inputs@[i]) is Some
        &&& forall|i: int| 0 <= i < self.aux@.len() ==> (#[trigger] self.aux@[i]) is Some
    }

    /// Every constraint holds of the values assigned, an empty slot
    /// counting as zero.
    pub open spec fn holds_all(&self) -> bool {
        forall|i: int|
            0 <= i < self.constraints@.len() ==> holds(
                self.inputs@,
                self.aux@,
                #[trigger] self.constraints@[i],
            )
    }

    /// The system is satisfied: every variable has a value, and every
    /// constraint holds of these values.
    pub open spec fn satisfied(&self) -> bool {
        self.assigned() && self.holds_all()
    }

    /// The shape of the system.
    pub open spec fn skeleton(&self) -> Skeleton {
        Skeleton {
            inputs: self.inputs@.len(),
            aux: self.aux@.len(),
            constraints: Seq::new(
                self.constraints@.len(),
                |i: int| constraint_view(self.constraints@[i]),
            ),
        }
    }

    /// The system `later` is this one with more variables and constraints.
    pub open spec fn extended_by(&self, later: &ConstraintSystem) -> bool {
        &&& self.inputs@.len() <= later.inputs@.len()
        &&& self.aux@.len() <= later.aux@.len()
        &&& self.constraints@.len() <= later.constraints@.len()
        &&& forall|i: int| 0 <= i < self.inputs@.len() ==> later.inputs@[i] == self.inputs@[i]
        &&& forall|i: int| 0 <= i < self.aux@.len() ==> later.aux@[i] == self.aux@[i]
        &&& forall|i: int|
            0 <= i < self.constraints@.len() ==> later.constraints@[i] == self.constraints@[i]
    }

    /// An extension leaves the value of every variable allocated before as
    /// it was.
    pub proof fn lemma_extended_values(&self, later: &ConstraintSystem, v: Variable)
        requires
            self.extended_by(later),
            self.has(v),
        ensures
            later.has(v),
            later.value(v) == self.value(v),
            later.knows(v) == self.knows(v),
    {
    }

    /// Every value of a well-formed system is below the modulus.
    pub proof fn lemma_value_bound(&self, v: Variable)
        requires
            self.wf(),
        ensures
            self.value(v) < modulus(),
    {
        match v {
            Variable::Input(i) => {
                if i < self.inputs@.len() {
                    assert(match self.inputs@[i as int] {
                        Some(f) => f.canonical(),
                        None => true,
                    });
                }
            },
            Variable::Aux(i) => {
                if i < self.aux@.len() {
                    assert(match self.aux@[i as int] {
                        Some(f) => f.canonical(),
                        None => true,
                    });
                }
            },
        }
    }

    /// A system without auxiliary variables or constraints, whose only
    /// input is the constant one.
    pub fn new() -> (cs: Self)
        ensures
            cs.wf(),
            cs.inputs@.len() == 1,
            cs.aux@.len() == 0,
            cs.constraints@.len() == 0,
            cs.assigned(),
            cs.holds_all(),
            cs.skeleton() == (Skeleton { inputs: 1, aux: 0, constraints: Seq::empty() }),
    {
        let mut inputs: Vec<Option<FieldElement>> = Vec::new();
        inputs.push(Some(FieldElement::one()));
        let cs = ConstraintSystem { inputs, aux: Vec::new(), constraints: Vec::new() };
        assert(cs.skeleton().constraints =~= Seq::<ConstraintView>::empty());
        cs
    }

    /// Allocates an auxiliary variable. A value given is reduced to its
    /// canonical form.
    pub fn allocate(&mut self, value: Option<FieldElement>) -> (v: Variable)
        requires
            old(self).wf(),
        ensures
            final(self).wf(),
            old(self).extended_by(final(self)),
            v == Variable::Aux(old(self).aux.len()),
            !old(self).has(v),
            final(self).aux@.len() == old(self).aux@.len() + 1,
            final(self).inputs@ == old(self).inputs@,
            final(self).constraints@ == old(self).constraints@,
            final(self).has(v),
            final(self).knows(v) == (value is Some),
            final(self).value(v) == (match value {
                Some(f) => f.value() % modulus(),
                None => 0,
            }),
            final(self).holds_all() == old(self).holds_all(),
            final(self).assigned() == (old(self).assigned() && value is Some),
            final(self).skeleton() == grown(old(self).skeleton()),
            v == fresh(old(self).skeleton()),
    {
        let slot = match value {
            Some(f) => Some(FieldElement::from_bytes_reduced(f.bytes)),
            None => None,
        };
        let index = self.aux.len();
        self.aux.push(slot);
        proof {
            self.lemma_frame_after(old(self));
            if old(self).assigned() && value is Some {
                assert forall|i: int| 0 <= i < self.aux@.len() implies (
                #[trigger] self.aux@[i]) is Some by {
                    if i < index {
                        assert(self.aux@[i] == old(self).aux@[i]);
                    }
                }
            }
            if self.assigned() {
                assert(self.aux@[index as int] is Some);
                let before = old(self).aux@;
                assert forall|i: int| 0 <= i < before.len() implies (#[trigger] before[i]) is Some by {
                    assert(self.aux@[i] == old(self).aux@[i]);
                }
            }
        }
        Variable::Aux(index)
    }

    /// Allocates a public input. A value given is reduced to its canonical
    /// form.
    pub fn alloc_input(&mut self, value: Option<FieldElement>) -> (v: Variable)
        requires
            old(self).wf(),
        ensures
            final(self).wf(),
            old(self).extended_by(final(self)),
            v == Variable::Input(old(self).inputs.len()),
            !old(self).has(v),
            final(self).inputs@.len() == old(self).inputs@.len() + 1,
            final(self).aux@ == old(self).aux@,
            final(self).constraints@ == old(self).constraints@,
            final(self).has(v),
            final(self).knows(v) == (value is Some),
            final(self).value(v) == (match value {
                Some(f) => f.value() % modulus(),
                None => 0,
            }),
            final(self).holds_all() == old(self).holds_all(),
            final(self).assigned() == (old(self).assigned() && value is Some),
            final(self).skeleton() == (Skeleton {
                inputs: old(self).skeleton().inputs + 1,
                ..old(self).skeleton()
            }),
    {
        let slot = match value {
            Some(f) => Some(FieldElement::from_bytes_reduced(f.bytes)),
            None => None,
        };
        let index = self.inputs.len();
        self.inputs.push(slot);
        proof {
            self.lemma_frame_after(old(self));
            if old(self).assigned() && value is Some {
                assert forall|i: int| 0 <= i < self.inputs@.len() implies (
                #[trigger] self.inputs@[i]) is Some by {
                    if i < index {
                        assert(self.inputs@[i] == old(self).inputs@[i]);
                    }
                }
            }
            if self.assigned() {
                assert(self.inputs@[index as int] is Some);
                let before = old(self).inputs@;
                assert forall|i: int| 0 <= i < before.len() implies (#[trigger] before[i]) is Some by {
                    assert(self.inputs@[i] == old(self).inputs@[i]);
                }
            }
        }
        Variable::Input(index)
    }

    /// After new variables were allocated in a well-formed system, the
    /// constraints hold or fail as they did.
    proof fn lemma_frame_after(&self, before: &ConstraintSystem)
        requires
            before.wf(),
            before.extended_by(self),
            self.constraints@ == before.constraints@,
        ensures
            self.holds_all() == before.holds_all(),
    {
        assert forall|i: int| 0 <= i < self.constraints@.len() implies holds(
            self.inputs@,
            self.aux@,
            #[trigger] self.constraints@[i],
        ) == holds(before.inputs@, before.aux@, before.constraints@[i]) by {
            let c = before.constraints@[i];
            assert(constraint_in_range(before.inputs@.len(), before.aux@.len(), c));
            lemma_lc_frame(before.inputs@, before.aux@, self.inputs@, self.aux@, c.a@);
            lemma_lc_frame(before.inputs@, before.aux@, self.inputs@, self.aux@, c.b@);
            lemma_lc_frame(before.inputs@, before.aux@, self.inputs@, self.aux@, c.c@);
        }
        if before.holds_all() {
            assert(self.holds_all());
        }
        if self.holds_all() {
            assert forall|i: int| 0 <= i < before.constraints@.len() implies holds(
                before.inputs@,
                before.aux@,
                #[trigger] before.constraints@[i],
            ) by {
                assert(holds(self.inputs@, self.aux@, self.constraints@[i]));
            }
        }
    }

    /// Adds the constraint `a * b = c`.
    pub fn enforce(&mut self, a: Vec<Term>, b: Vec<Term>, c: Vec<Term>)
        requires
            old(self).wf(),
            terms_in_range(old(self).inputs@.len(), old(self).aux@.len(), a@),
            terms_in_range(old(self).inputs@.len(), old(self).aux@.len(), b@),
            terms_in_range(old(self).inputs@.len(), old(self).aux@.len(), c@),
        ensures
            final(self).wf(),
            old(self).extended_by(final(self)),
            final(self).inputs@ == old(self).inputs@,
            final(self).aux@ == old(self).aux@,
            final(self).constraints@.len() == old(self).constraints@.len() + 1,
            final(self).constraints@.last().a@ == a@,
            final(self).constraints@.last().b@ == b@,
            final(self).constraints@.last().c@ == c@,
            final(self).skeleton() == with(
                old(self).skeleton(),
                ConstraintView { a: terms_view(a@), b: terms_view(b@), c: terms_view(c@) },
            ),
            final(self).assigned() == old(self).assigned(),
            final(self).holds_all() == (old(self).holds_all() && (lc_value(
                old(self).inputs@,
                old(self).aux@,
                a@,
            ) * lc_value(old(self).inputs@, old(self).aux@, b@)) % modulus() == lc_value(
                old(self).inputs@,
                old(self).aux@,
                c@,
            )),
    {
        let constraint = Constraint { a, b, c };
        self.constraints.push(constraint);
        proof {
            let n = old(self).constraints@.len() as int;
            assert(self.constraints@[n] == constraint);
            assert(self.skeleton().constraints =~= old(self).skeleton().constraints.push(
                constraint_view(constraint),
            ));
            assert forall|i: int| 0 <= i < n implies self.constraints@[i] == old(self).constraints@[i] by {}
            if self.holds_all() {
                assert(holds(self.inputs@, self.aux@, self.constraints@[n]));
                assert forall|i: int| 0 <= i < n implies holds(
                    old(self).inputs@,
                    old(self).aux@,
                    #[trigger] old(self).constraints@[i],
                ) by {
                    assert(holds(self.inputs@, self.aux@, self.constraints@[i]));
                }
            }
            if old(self).holds_all() && holds(self.inputs@, self.aux@, constraint) {
                assert forall|i: int| 0 <= i < self.constraints@.len() implies holds(
                    self.inputs@,
                    self.aux@,
                    #[trigger] self.constraints@[i],
                ) by {
                    if i < n {
                        assert(holds(old(self).inputs@, old(self).aux@, old(self).constraints@[i]));
                    }
                }
            }
        }
    }

    /// The value of a variable, if it has one.
    pub fn value_of(&self, v: Variable) -> (r: Option<FieldElement>)
        requires
            self.wf(),
            self.has(v),
        ensures
            r is Some == self.knows(v),
            r is Some ==> r->0.value() == self.value(v) && r->0.canonical(),
    {
        match v {
            Variable::Input(i) => self.inputs[i],
            Variable::Aux(i) => self.aux[i],
        }
    }

    /// The constant one as a variable.
    pub fn one() -> (v: Variable)
        ensures
            v == Variable::Input(0),
    {
        Variable::Input(0)
    }
}

/// The combination that is `coeff` times the variable `v`.
fn single(coeff: FieldElement, v: Variable) -> (terms: Vec<Term>)
    ensures
        terms@ == seq![Term { coeff, var: v }],
        terms_view(terms@) == seq![(coeff.value(), v)],
{
    let mut terms: Vec<Term> = Vec::new();
    terms.push(Term { coeff, var: v });
    assert(terms@ =~= seq![Term { coeff, var: v }]);
    assert(terms_view(terms@) =~= seq![(coeff.value(), v)]);
    terms
}

/// The combination `c1 * v1 + c2 * v2`.
fn pair(c1: FieldElement, v1: Variable, c2: FieldElement, v2: Variable) -> (terms: Vec<Term>)
    ensures
        terms@ == seq![Term { coeff: c1, var: v1 }, Term { coeff: c2, var: v2 }],
        terms_view(terms@) == seq![(c1.value(), v1), (c2.value(), v2)],
{
    let mut terms: Vec<Term> = Vec::new();
    terms.push(Term { coeff: c1, var: v1 });
    terms.push(Term { coeff: c2, var: v2 });
    assert(terms@ =~= seq![Term { coeff: c1, var: v1 }, Term { coeff: c2, var: v2 }]);
    assert(terms_view(terms@) =~= seq![(c1.value(), v1), (c2.value(), v2)]);
    terms
}

/// `x` less `k` in the field, and `k` more, is `x` again.
proof fn lemma_minus_plus(x: nat, k: nat)
    requires
        x < modulus(),
        k < modulus(),
    ensures
        ((((x - k) % (modulus() as int)) as nat) + k) % modulus() == x,
{
    let q = modulus() as int;
    vstd::arithmetic::div_mod::lemma_small_mod(x, modulus());
    vstd::arithmetic::div_mod::lemma_small_mod(k, modulus());
    vstd::arithmetic::div_mod::lemma_add_mod_noop((x - k) as int, k as int, q);
    vstd::arithmetic::div_mod::lemma_mod_bound((x - k) as int, q);
    assert(((x - k) as int + k as int) == x as int);
}

/// A residue times one is itself.
proof fn lemma_by_one(a: nat, b: nat)
    requires
        a < modulus(),
        b == 1,
    ensures
        (a * b) % modulus() == a,
        (b * a) % modulus() == a,
{
    assert(a * b == a) by (nonlinear_arith)
        requires
            b == 1,
    ;
    assert(b * a == a) by (nonlinear_arith)
        requires
            b == 1,
    ;
    vstd::arithmetic::div_mod::lemma_small_mod(a, modulus());
}

/// The term of a variable with the coefficient one has the variable's
/// value.
proof fn lemma_unit_term(inputs: Slots, aux: Slots, one: FieldElement, v: Variable)
    requires
        one.value() == 1,
        var_value(inputs, aux, v) < modulus(),
    ensures
        term_value(inputs, aux, Term { coeff: one, var: v }) == var_value(inputs, aux, v),
        lc_value(inputs, aux, seq![Term { coeff: one, var: v }]) == var_value(inputs, aux, v),
{
    lemma_by_one(var_value(inputs, aux, v), one.value());
    lemma_lc1(inputs, aux, Term { coeff: one, var: v });
}

/// The term of the constant one with the coefficient `k` has the value of
/// `k`.
proof fn lemma_constant_term(inputs: Slots, aux: Slots, k: FieldElement)
    requires
        k.value() < modulus(),
        var_value(inputs, aux, Variable::Input(0)) == 1,
    ensures
        term_value(inputs, aux, Term { coeff: k, var: Variable::Input(0) }) == k.value(),
        lc_value(inputs, aux, seq![Term { coeff: k, var: Variable::Input(0) }]) == k.value(),
{
    lemma_by_one(k.value(), var_value(inputs, aux, Variable::Input(0)));
    lemma_lc1(inputs, aux, Term { coeff: k, var: Variable::Input(0) });
}

/// A sum of two residues, reduced, and then times one.
proof fn lemma_sum_by_one(a: nat, b: nat, unit: nat)
    requires
        unit == 1,
    ensures
        (a + b) % modulus() < modulus(),
        (((a + b) % modulus()) * unit) % modulus() == (a + b) % modulus(),
{
    vstd::arithmetic::div_mod::lemma_mod_bound((a + b) as int, modulus() as int);
    lemma_by_one((a + b) % modulus(), unit);
}

impl ConstraintSystem {
    /// A new variable constrained to the constant `c`.
    pub fn constant(&mut self, c: u64) -> (v: Variable)
        requires
            old(self).wf(),
        ensures
            final(self).wf(),
            old(self).extended_by(final(self)),
            final(self).inputs@ == old(self).inputs@,
            final(self).has(v),
            !old(self).has(v),
            final(self).knows(v),
            final(self).value(v) == c,
            final(self).holds_all() == old(self).holds_all(),
            final(self).skeleton() == sk_constant(old(self).skeleton(), c as nat),
            v == fresh(old(self).skeleton()),
            final(self).assigned() == old(self).assigned(),
    {
        let element = FieldElement::from_u64(c);
        let one = FieldElement::one();
        let v = self.allocate(Some(element));
        let a = single(one, v);
        let b = single(one, Variable::Input(0));
        let k = single(element, Variable::Input(0));
        proof {
            self.lemma_value_bound(v);
            self.lemma_value_bound(Variable::Input(0));
            assert(self.value(Variable::Input(0)) == 1);
            lemma_unit_term(self.inputs@, self.aux@, one, v);
            lemma_unit_term(self.inputs@, self.aux@, one, Variable::Input(0));
            lemma_constant_term(self.inputs@, self.aux@, element);
            assert(lc_value(self.inputs@, self.aux@, a@) == c);
            assert(lc_value(self.inputs@, self.aux@, b@) == 1);
            assert(lc_value(self.inputs@, self.aux@, k@) == c);
            lemma_by_one(c as nat, 1);
        }
        self.enforce(a, b, k);
        v
    }

    /// A new variable constrained to the constant that `element` stands
    /// for.
    pub fn constant_element(&mut self, element: FieldElement) -> (v: Variable)
        requires
            old(self).wf(),
            element.canonical(),
        ensures
            final(self).wf(),
            old(self).extended_by(final(self)),
            final(self).inputs@ == old(self).inputs@,
            final(self).has(v),
            !old(self).has(v),
            final(self).knows(v),
            final(self).value(v) == element.value(),
            final(self).holds_all() == old(self).holds_all(),
            final(self).skeleton() == sk_constant(old(self).skeleton(), element.value()),
            v == fresh(old(self).skeleton()),
            final(self).assigned() == old(self).assigned(),
    {
        let one = FieldElement::one();
        let v = self.allocate(Some(element));
        let a = single(one, v);
        let b = single(one, Variable::Input(0));
        let k = single(element, Variable::Input(0));
        proof {
            self.lemma_value_bound(v);
            self.lemma_value_bound(Variable::Input(0));
            assert(self.value(Variable::Input(0)) == 1);
            lemma_unit_term(self.inputs@, self.aux@, one, v);
            lemma_unit_term(self.inputs@, self.aux@, one, Variable::Input(0));
            lemma_constant_term(self.inputs@, self.aux@, element);
            assert(lc_value(self.inputs@, self.aux@, a@) == element.value());
            assert(lc_value(self.inputs@, self.aux@, b@) == 1);
            assert(lc_value(self.inputs@, self.aux@, k@) == element.value());
            lemma_by_one(element.value(), 1);
        }
        self.enforce(a, b, k);
        v
    }

    /// A new variable constrained to the sum of `x` and `y`. It has a
    /// value where both have one.
    pub fn sum(&mut self, x: Variable, y: Variable) -> (v: Variable)
        requires
            old(self).wf(),
            old(self).has(x),
            old(self).has(y),
        ensures
            final(self).wf(),
            old(self).extended_by(final(self)),
            final(self).inputs@ == old(self).inputs@,
            final(self).has(v),
            !old(self).has(v),
            final(self).knows(v) == (old(self).knows(x) && old(self).knows(y)),
            final(self).knows(v) ==> final(self).value(v) == (old(self).value(x) + old(self).value(
                y,
            )) % modulus(),
            final(self).knows(v) ==> final(self).holds_all() == old(self).holds_all(),
            final(self).holds_all() == (old(self).holds_all() && (old(self).value(x)
                + old(self).value(y)) % modulus() == final(self).value(v)),
            final(self).skeleton() == sk_sum(old(self).skeleton(), x, y),
            v == fresh(old(self).skeleton()),
            final(self).assigned() == (old(self).assigned() && final(self).knows(v)),
    {
        let value = match (self.value_of(x), self.value_of(y)) {
            (Some(a), Some(b)) => Some(a.add(&b)),
            _ => None,
        };
        let one = FieldElement::one();
        let v = self.allocate(value);
        let a = pair(one, x, one, y);
        let b = single(one, Variable::Input(0));
        let c = single(one, v);
        proof {
            let xv = old(self).value(x);
            let yv = old(self).value(y);
            old(self).lemma_extended_values(self, x);
            old(self).lemma_extended_values(self, y);
            self.lemma_value_bound(x);
            self.lemma_value_bound(y);
            self.lemma_value_bound(v);
            assert(self.value(Variable::Input(0)) == 1);
            lemma_unit_term(self.inputs@, self.aux@, one, x);
            lemma_unit_term(self.inputs@, self.aux@, one, y);
            lemma_unit_term(self.inputs@, self.aux@, one, v);
            lemma_unit_term(self.inputs@, self.aux@, one, Variable::Input(0));
            lemma_lc2(self.inputs@, self.aux@, a@[0], a@[1]);
            assert(lc_value(self.inputs@, self.aux@, a@) == (xv + yv) % modulus());
            assert(lc_value(self.inputs@, self.aux@, b@) == 1);
            assert(lc_value(self.inputs@, self.aux@, c@) == self.value(v));
            lemma_sum_by_one(xv, yv, 1);
        }
        self.enforce(a, b, c);
        v
    }

    /// A new variable constrained to the product of `x` and `y`. It has a
    /// value where both have one.
    pub fn product(&mut self, x: Variable, y: Variable) -> (v: Variable)
        requires
            old(self).wf(),
            old(self).has(x),
            old(self).has(y),
        ensures
            final(self).wf(),
            old(self).extended_by(final(self)),
            final(self).inputs@ == old(self).inputs@,
            final(self).has(v),
            !old(self).has(v),
            final(self).knows(v) == (old(self).knows(x) && old(self).knows(y)),
            final(self).knows(v) ==> final(self).value(v) == (old(self).value(x) * old(self).value(
                y,
            )) % modulus(),
            final(self).knows(v) ==> final(self).holds_all() == old(self).holds_all(),
            final(self).holds_all() == (old(self).holds_all()
                && (old(self).value(x) * old(self).value(y)) % modulus() == final(self).value(v)),
            final(self).skeleton() == sk_product(old(self).skeleton(), x, y),
            v == fresh(old(self).skeleton()),
            final(self).assigned() == (old(self).assigned() && final(self).knows(v)),
    {
        let value = match (self.value_of(x), self.value_of(y)) {
            (Some(a), Some(b)) => Some(a.mul(&b)),
            _ => None,
        };
        let one = FieldElement::one();
        let v = self.allocate(value);
        let a = single(one, x);
        let b = single(one, y);
        let c = single(one, v);
        proof {
            old(self).lemma_extended_values(self, x);
            old(self).lemma_extended_values(self, y);
            self.lemma_value_bound(x);
            self.lemma_value_bound(y);
            self.lemma_value_bound(v);
            lemma_unit_term(self.inputs@, self.aux@, one, x);
            lemma_unit_term(self.inputs@, self.aux@, one, y);
            lemma_unit_term(self.inputs@, self.aux@, one, v);
            assert(lc_value(self.inputs@, self.aux@, a@) == old(self).value(x));
            assert(lc_value(self.inputs@, self.aux@, b@) == old(self).value(y));
            assert(lc_value(self.inputs@, self.aux@, c@) == self.value(v));
        }
        self.enforce(a, b, c);
        v
    }

    /// A new variable constrained to `x` plus the constant `k`. It has a
    /// value where `x` has one.
    pub fn plus(&mut self, x: Variable, k: u64) -> (v: Variable)
        requires
            old(self).wf(),
            old(self).has(x),
        ensures
            final(self).wf(),
            old(self).extended_by(final(self)),
            final(self).inputs@ == old(self).inputs@,
            final(self).has(v),
            !old(self).has(v),
            final(self).knows(v) == old(self).knows(x),
            final(self).knows(v) ==> final(self).value(v) == (old(self).value(x) + k as nat) % modulus(),
            final(self).knows(v) ==> final(self).holds_all() == old(self).holds_all(),
            final(self).holds_all() == (old(self).holds_all() && (old(self).value(x) + k as nat)
                % modulus() == final(self).value(v)),
            final(self).skeleton() == sk_plus(old(self).skeleton(), x, k as nat),
            v == fresh(old(self).skeleton()),
            final(self).assigned() == (old(self).assigned() && final(self).knows(v)),
    {
        let step = FieldElement::from_u64(k);
        let value = match self.value_of(x) {
            Some(a) => Some(a.add(&step)),
            None => None,
        };
        let one = FieldElement::one();
        let v = self.allocate(value);
        let a = pair(one, x, step, Variable::Input(0));
        let b = single(one, Variable::Input(0));
        let c = single(one, v);
        proof {
            let xv = old(self).value(x);
            old(self).lemma_extended_values(self, x);
            self.lemma_value_bound(x);
            self.lemma_value_bound(v);
            assert(self.value(Variable::Input(0)) == 1);
            lemma_unit_term(self.inputs@, self.aux@, one, x);
            lemma_unit_term(self.inputs@, self.aux@, one, v);
            lemma_unit_term(self.inputs@, self.aux@, one, Variable::Input(0));
            lemma_constant_term(self.inputs@, self.aux@, step);
            lemma_lc2(self.inputs@, self.aux@, a@[0], a@[1]);
            assert(lc_value(self.inputs@, self.aux@, a@) == (xv + k as nat) % modulus());
            assert(lc_value(self.inputs@, self.aux@, b@) == 1);
            assert(lc_value(self.inputs@, self.aux@, c@) == self.value(v));
            lemma_sum_by_one(xv, k as nat, 1);
        }
        self.enforce(a, b, c);
        v
    }

    /// A new variable constrained to `x` minus the constant `k`. It has a
    /// value where `x` has one.
    pub fn minus(&mut self, x: Variable, k: u64) -> (v: Variable)
        requires
            old(self).wf(),
            old(self).has(x),
        ensures
            final(self).wf(),
            old(self).extended_by(final(self)),
            final(self).inputs@ == old(self).inputs@,
            final(self).has(v),
            !old(self).has(v),
            final(self).knows(v) == old(self).knows(x),
            final(self).knows(v) ==> final(self).value(v) == (old(self).value(x) - k) % (
            modulus() as int),
            final(self).knows(v) ==> final(self).holds_all() == old(self).holds_all(),
            final(self).holds_all() == (old(self).holds_all() && (final(self).value(v) + k as nat)
                % modulus() == old(self).value(x)),
            final(self).skeleton() == sk_minus(old(self).skeleton(), x, k as nat),
            v == fresh(old(self).skeleton()),
            final(self).assigned() == (old(self).assigned() && final(self).knows(v)),
    {
        let step = FieldElement::from_u64(k);
        let value = match self.value_of(x) {
            Some(a) => Some(a.sub(&step)),
            None => None,
        };
        let one = FieldElement::one();
        let v = self.allocate(value);
        let a = pair(one, v, step, Variable::Input(0));
        let b = single(one, Variable::Input(0));
        let c = single(one, x);
        proof {
            let xv = old(self).value(x);
            let vv = self.value(v);
            old(self).lemma_extended_values(self, x);
            self.lemma_value_bound(x);
            self.lemma_value_bound(v);
            assert(self.value(Variable::Input(0)) == 1);
            lemma_unit_term(self.inputs@, self.aux@, one, x);
            lemma_unit_term(self.inputs@, self.aux@, one, v);
            lemma_unit_term(self.inputs@, self.aux@, one, Variable::Input(0));
            lemma_constant_term(self.inputs@, self.aux@, step);
            lemma_lc2(self.inputs@, self.aux@, a@[0], a@[1]);
            assert(lc_value(self.inputs@, self.aux@, a@) == (vv + k as nat) % modulus());
            assert(lc_value(self.inputs@, self.aux@, b@) == 1);
            assert(lc_value(self.inputs@, self.aux@, c@) == xv);
            lemma_sum_by_one(vv, k as nat, 1);
            lemma_minus_plus(xv, k as nat);
        }
        self.enforce(a, b, c);
        v
    }

    /// Constrains `x` and `y` to be equal.
    pub fn equal(&mut self, x: Variable, y: Variable)
        requires
            old(self).wf(),
            old(self).has(x),
            old(self).has(y),
        ensures
            final(self).wf(),
            old(self).extended_by(final(self)),
            final(self).inputs@ == old(self).inputs@,
            final(self).aux@ == old(self).aux@,
            final(self).skeleton() == with(old(self).skeleton(), equality(x, y)),
            final(self).assigned() == old(self).assigned(),
            final(self).holds_all() == (old(self).holds_all() && old(self).value(x) == old(self).value(y)),
    {
        let one = FieldElement::one();
        let a = single(one, x);
        let b = single(one, Variable::Input(0));
        let c = single(one, y);
        proof {
            self.lemma_value_bound(x);
            self.lemma_value_bound(y);
            assert(self.value(Variable::Input(0)) == 1);
            lemma_unit_term(self.inputs@, self.aux@, one, x);
            lemma_unit_term(self.inputs@, self.aux@, one, y);
            lemma_unit_term(self.inputs@, self.aux@, one, Variable::Input(0));
            assert(lc_value(self.inputs@, self.aux@, a@) == self.value(x));
            assert(lc_value(self.inputs@, self.aux@, b@) == 1);
            assert(lc_value(self.inputs@, self.aux@, c@) == self.value(y));
            lemma_by_one(self.value(x), 1);
        }
        self.enforce(a, b, c);
    }

    /// Constrains `x` plus `y` to be `z`.
    pub fn adds_up(&mut self, x: Variable, y: Variable, z: Variable)
        requires
            old(self).wf(),
            old(self).has(x),
            old(self).has(y),
            old(self).has(z),
        ensures
            final(self).wf(),
            old(self).extended_by(final(self)),
            final(self).inputs@ == old(self).inputs@,
            final(self).aux@ == old(self).aux@,
            final(self).skeleton() == with(old(self).skeleton(), addition(x, y, z)),
            final(self).assigned() == old(self).assigned(),
            final(self).holds_all() == (old(self).holds_all() && (old(self).value(x)
                + old(self).value(y)) % modulus() == old(self).value(z)),
    {
        let one = FieldElement::one();
        let a = pair(one, x, one, y);
        let b = single(one, Variable::Input(0));
        let c = single(one, z);
        proof {
            self.lemma_value_bound(x);
            self.lemma_value_bound(y);
            self.lemma_value_bound(z);
            assert(self.value(Variable::Input(0)) == 1);
            lemma_unit_term(self.inputs@, self.aux@, one, x);
            lemma_unit_term(self.inputs@, self.aux@, one, y);
            lemma_unit_term(self.inputs@, self.aux@, one, z);
            lemma_unit_term(self.inputs@, self.aux@, one, Variable::Input(0));
            lemma_lc2(self.inputs@, self.aux@, a@[0], a@[1]);
            assert(lc_value(self.inputs@, self.aux@, a@) == (self.value(x) + self.value(y))
                % modulus());
            assert(lc_value(self.inputs@, self.aux@, b@) == 1);
            assert(lc_value(self.inputs@, self.aux@, c@) == self.value(z));
            lemma_sum_by_one(self.value(x), self.value(y), 1);
        }
        self.enforce(a, b, c);
    }
}

impl ConstraintSystem {
    /// The value of a linear combination of allocated variables, an empty
    /// slot counting as zero.
    pub fn evaluate(&self, terms: &Vec<Term>) -> (r: FieldElement)
        requires
            self.wf(),
            terms_in_range(self.inputs@.len(), self.aux@.len(), terms@),
        ensures
            r.value() == lc_value(self.inputs@, self.aux@, terms@),
            r.canonical(),
    {
        let mut acc = FieldElement::zero();
        let mut i: usize = 0;
        while i < terms.len()
            invariant
                i <= terms.len(),
                self.wf(),
                terms_in_range(self.inputs@.len(), self.aux@.len(), terms@),
                acc.value() == lc_value(self.inputs@, self.aux@, terms@.take(i as int)),
                acc.canonical(),
            decreases terms.len() - i,
        {
            let t = terms[i];
            assert(var_in_range(self.inputs@.len(), self.aux@.len(), terms@[i as int].var));
            let slot = match t.var {
                Variable::Input(k) => self.inputs[k],
                Variable::Aux(k) => self.aux[k],
            };
            let value = match slot {
                Some(f) => f,
                None => FieldElement::zero(),
            };
            let term = t.coeff.mul(&value);
            acc = acc.add(&term);
            i += 1;
            proof {
                let prefix = terms@.take(i as int);
                assert(prefix.drop_last() =~= terms@.take(i - 1));
                assert(prefix.last() == t);
            }
        }
        assert(terms@.take(terms.len() as int) =~= terms@);
        acc
    }

    /// Whether the system is satisfied by the values assigned.
    pub fn is_satisfied(&self) -> (r: bool)
        requires
            self.wf(),
        ensures
            r == self.satisfied(),
    {
        let mut i: usize = 0;
        while i < self.inputs.len()
            invariant
                i <= self.inputs.len(),
                forall|j: int| 0 <= j < i ==> (#[trigger] self.inputs@[j]) is Some,
            decreases self.inputs.len() - i,
        {
            if self.inputs[i].is_none() {
                return false;
            }
            i += 1;
        }
        let mut i: usize = 0;
        while i < self.aux.len()
            invariant
                i <= self.aux.len(),
                forall|j: int| 0 <= j < self.inputs@.len() ==> (#[trigger] self.inputs@[j]) is Some,
                forall|j: int| 0 <= j < i ==> (#[trigger] self.aux@[j]) is Some,
            decreases self.aux.len() - i,
        {
            if self.aux[i].is_none() {
                return false;
            }
            i += 1;
        }
        let mut i: usize = 0;
        while i < self.constraints.len()
            invariant
                i <= self.constraints.len(),
                self.wf(),
                self.assigned(),
                forall|j: int|
                    0 <= j < i ==> holds(self.inputs@, self.aux@, #[trigger] self.constraints@[j]),
            decreases self.constraints.len() - i,
        {
            let c = &self.constraints[i];
            assert(constraint_in_range(
                self.inputs@.len(),
                self.aux@.len(),
                self.constraints@[i as int],
            ));
            let a = self.evaluate(&c.a);
            let b = self.evaluate(&c.b);
            let k = self.evaluate(&c.c);
            let ab = a.mul(&b);
            proof {
                if ab.value() == k.value() {
                    crate::field::lemma_le_value_injective(ab@, k@);
                }
            }
            if !ab.same(&k) {
                return false;
            }
            i += 1;
        }
        true
    }
}

} // verus!
