//! The arithmetized circuit of the machine: a constraint system, fixed by
//! the program and the step limit, that follows the run of the program
//! instruction by instruction and is satisfied exactly by the encoding of
//! the state in which the run ends.
//!
//! A program has no inputs: the machine starts empty, so every value of the
//! run is fixed by the program, and the circuit carries each value that an
//! instruction leaves on the stack as a constant of its shape.

pub mod agreement;
pub mod r1cs;
pub mod semantics;

use crate::circuit::agreement::{
    after, circuit_run, encoding_of, exact_here, law_step_effect, lemma_residues, pops, pushes,
    residue, store_address,
};
use crate::circuit::r1cs::{
    addition, equality, fresh, sk_constant, sk_minus, sk_product, sk_sum, with, ConstraintSystem,
    ConstraintView, Skeleton, Variable,
};
use crate::circuit::semantics::{FieldState, SynthesisError};
use crate::field::{le_value, modulus, FieldElement};
use crate::hashing::{commit, commitment};
use crate::vm::model::{
    advance, gas_cost, initial_machine, int_at, machine_wf, step, Machine, Progress,
    OP_ADD, OP_BALANCE, OP_CALL, OP_CREATE, OP_EQ, OP_GT, OP_JUMP, OP_JUMPI, OP_LOAD, OP_LT, OP_MUL,
    OP_PUSH, OP_RETURN, OP_SHA3, OP_STORE,
};
use crate::vm::root::{append_bytes, concat, encode_value_into};
use crate::vm::value::{clone_bytes, Value};
use crate::vm::VM;
use vstd::bytes::{spec_u64_to_le_bytes, u64_to_le_bytes};
use vstd::prelude::*;

verus! {

/// A machine state encoded in field elements.
#[derive(Debug)]
pub struct VMState {
    pub stack: Vec<FieldElement>,
    /// The memory cells in use, each with its address before its value,
    /// in the order in which they were first written.
    pub memory: Vec<(FieldElement, FieldElement)>,
    pub storage: Vec<(FieldElement, FieldElement)>,
    pub program_counter: FieldElement,
    pub gas_remaining: FieldElement,
}

impl VMState {
    /// The state as residues.
    pub open spec fn residues(&self) -> FieldState {
        FieldState {
            stack: Seq::new(self.stack@.len(), |i: int| self.stack@[i].residue()),
            memory: Seq::new(
                self.memory@.len(),
                |i: int| (self.memory@[i].0.residue(), self.memory@[i].1.residue()),
            ),
            storage: Seq::new(
                self.storage@.len(),
                |i: int| (self.storage@[i].0.residue(), self.storage@[i].1.residue()),
            ),
            pc: self.program_counter.residue(),
            gas: self.gas_remaining.residue(),
        }
    }

    /// The bytes of the state: the stack, the memory and the storage, each
    /// with its length before it as eight little-endian bytes, then the
    /// program counter and the gas.
    pub open spec fn encoding(&self) -> Seq<u8> {
        spec_u64_to_le_bytes(self.stack@.len() as u64) + concat(
            Seq::new(self.stack@.len(), |i: int| self.stack@[i]@),
        ) + spec_u64_to_le_bytes(self.memory@.len() as u64) + concat(
            Seq::new(self.memory@.len(), |i: int| self.memory@[i].0@ + self.memory@[i].1@),
        ) + spec_u64_to_le_bytes(self.storage@.len() as u64) + concat(
            Seq::new(self.storage@.len(), |i: int| self.storage@[i].0@ + self.storage@[i].1@),
        ) + self.program_counter@ + self.gas_remaining@
    }

    /// The digest of the state as a residue.
    pub open spec fn digest(&self) -> nat {
        le_value(commitment(self.encoding())) % modulus()
    }

    /// Every element of the state is in its canonical form.
    pub open spec fn canonical(&self) -> bool {
        &&& forall|i: int| 0 <= i < self.stack@.len() ==> (#[trigger] self.stack@[i]).canonical()
        &&& forall|i: int|
            0 <= i < self.memory@.len() ==> (#[trigger] self.memory@[i]).0.canonical()
                && self.memory@[i].1.canonical()
        &&& forall|i: int|
            0 <= i < self.storage@.len() ==> (#[trigger] self.storage@[i]).0.canonical()
                && self.storage@[i].1.canonical()
        &&& self.program_counter.canonical()
        &&& self.gas_remaining.canonical()
    }

    /// The bytes of the state.
    pub fn encode(&self) -> (out: Vec<u8>)
        ensures
            out@ == self.encoding(),
    {
        let mut out: Vec<u8> = Vec::new();
        let count = u64_to_le_bytes(self.stack.len() as u64);
        append_bytes(&mut out, count.as_slice());
        let ghost base = out@;
        let ghost stack = Seq::new(self.stack@.len(), |i: int| self.stack@[i]@);
        let mut i: usize = 0;
        while i < self.stack.len()
            invariant
                i <= self.stack.len(),
                stack == Seq::new(self.stack@.len(), |i: int| self.stack@[i]@),
                out@ == base + concat(stack.take(i as int)),
            decreases self.stack.len() - i,
        {
            append_bytes(&mut out, self.stack[i].bytes.as_slice());
            i += 1;
            proof {
                let t = stack.take(i as int);
                assert(t.drop_last() =~= stack.take(i - 1));
                assert(out@ =~= base + concat(t));
            }
        }
        assert(stack.take(self.stack.len() as int) =~= stack);
        let count = u64_to_le_bytes(self.memory.len() as u64);
        append_bytes(&mut out, count.as_slice());
        let ghost base = out@;
        let ghost memory = Seq::new(
            self.memory@.len(),
            |i: int| self.memory@[i].0@ + self.memory@[i].1@,
        );
        let mut i: usize = 0;
        while i < self.memory.len()
            invariant
                i <= self.memory.len(),
                memory == Seq::new(
                    self.memory@.len(),
                    |i: int| self.memory@[i].0@ + self.memory@[i].1@,
                ),
                out@ == base + concat(memory.take(i as int)),
            decreases self.memory.len() - i,
        {
            let ghost before = out@;
            append_bytes(&mut out, self.memory[i].0.bytes.as_slice());
            append_bytes(&mut out, self.memory[i].1.bytes.as_slice());
            i += 1;
            proof {
                let t = memory.take(i as int);
                assert(t.drop_last() =~= memory.take(i - 1));
                assert(out@ =~= before + t.last());
                assert(out@ =~= base + concat(t));
            }
        }
        assert(memory.take(self.memory.len() as int) =~= memory);
        let count = u64_to_le_bytes(self.storage.len() as u64);
        append_bytes(&mut out, count.as_slice());
        let ghost base = out@;
        let ghost storage = Seq::new(
            self.storage@.len(),
            |i: int| self.storage@[i].0@ + self.storage@[i].1@,
        );
        let mut i: usize = 0;
        while i < self.storage.len()
            invariant
                i <= self.storage.len(),
                storage == Seq::new(
                    self.storage@.len(),
                    |i: int| self.storage@[i].0@ + self.storage@[i].1@,
                ),
                out@ == base + concat(storage.take(i as int)),
            decreases self.storage.len() - i,
        {
            let ghost before = out@;
            append_bytes(&mut out, self.storage[i].0.bytes.as_slice());
            append_bytes(&mut out, self.storage[i].1.bytes.as_slice());
            i += 1;
            proof {
                let t = storage.take(i as int);
                assert(t.drop_last() =~= storage.take(i - 1));
                assert(out@ =~= before + t.last());
                assert(out@ =~= base + concat(t));
            }
        }
        assert(storage.take(self.storage.len() as int) =~= storage);
        append_bytes(&mut out, self.program_counter.bytes.as_slice());
        append_bytes(&mut out, self.gas_remaining.bytes.as_slice());
        assert(out@ =~= self.encoding());
        out
    }
}

/// The digest of the data of a machine: that of the state whose elements
/// are the canonical forms of the machine's encoding.
pub open spec fn digest_of(m: Machine) -> nat {
    canonical_state(m).digest()
}

/// A state whose elements are the canonical forms of the encoding of the
/// data of a machine.
pub open spec fn canonical_state(m: Machine) -> VMState {
    choose|st: VMState| #[trigger] st.canonical() && st.residues() == encoding_of(m)
}

/// Canonical elements with one residue have the same bytes.
proof fn lemma_same_bytes(a: FieldElement, b: FieldElement)
    requires
        a.canonical(),
        b.canonical(),
        a.residue() == b.residue(),
    ensures
        a@ == b@,
{
    vstd::arithmetic::div_mod::lemma_small_mod(a.value(), modulus());
    vstd::arithmetic::div_mod::lemma_small_mod(b.value(), modulus());
    crate::field::lemma_le_value_injective(a@, b@);
}

/// Canonical states with the same residues have the same bytes.
proof fn lemma_same_encoding(a: VMState, b: VMState)
    requires
        a.canonical(),
        b.canonical(),
        a.residues() == b.residues(),
    ensures
        a.encoding() == b.encoding(),
{
    let (ra, rb) = (a.residues(), b.residues());
    assert(a.stack@.len() == ra.stack.len() && b.stack@.len() == rb.stack.len());
    assert(a.memory@.len() == ra.memory.len() && b.memory@.len() == rb.memory.len());
    assert(a.storage@.len() == ra.storage.len() && b.storage@.len() == rb.storage.len());
    assert forall|i: int| 0 <= i < a.stack@.len() implies a.stack@[i]@ == b.stack@[i]@ by {
        assert(ra.stack[i] == rb.stack[i]);
        lemma_same_bytes(a.stack@[i], b.stack@[i]);
    }
    assert forall|i: int| 0 <= i < a.memory@.len() implies a.memory@[i].0@ + a.memory@[i].1@
        == b.memory@[i].0@ + b.memory@[i].1@ by {
        assert(ra.memory[i] == rb.memory[i]);
        lemma_same_bytes(a.memory@[i].0, b.memory@[i].0);
        lemma_same_bytes(a.memory@[i].1, b.memory@[i].1);
    }
    assert forall|i: int| 0 <= i < a.storage@.len() implies a.storage@[i].0@ + a.storage@[i].1@
        == b.storage@[i].0@ + b.storage@[i].1@ by {
        assert(ra.storage[i] == rb.storage[i]);
        lemma_same_bytes(a.storage@[i].0, b.storage@[i].0);
        lemma_same_bytes(a.storage@[i].1, b.storage@[i].1);
    }
    lemma_same_bytes(a.program_counter, b.program_counter);
    lemma_same_bytes(a.gas_remaining, b.gas_remaining);
    assert(Seq::new(a.stack@.len(), |i: int| a.stack@[i]@) =~= Seq::new(
        b.stack@.len(),
        |i: int| b.stack@[i]@,
    ));
    assert(Seq::new(a.memory@.len(), |i: int| a.memory@[i].0@ + a.memory@[i].1@) =~= Seq::new(
        b.memory@.len(),
        |i: int| b.memory@[i].0@ + b.memory@[i].1@,
    ));
    assert(Seq::new(a.storage@.len(), |i: int| a.storage@[i].0@ + a.storage@[i].1@) =~= Seq::new(
        b.storage@.len(),
        |i: int| b.storage@[i].0@ + b.storage@[i].1@,
    ));
}

/// The digest of a canonical state that encodes a machine is the digest
/// of the machine's data.
pub proof fn lemma_canonical_digest(st: VMState, m: Machine)
    requires
        st.canonical(),
        st.residues() == encoding_of(m),
    ensures
        st.digest() == digest_of(m),
{
    let other = canonical_state(m);
    assert(st.canonical() && st.residues() == encoding_of(m));
    lemma_same_encoding(st, other);
}

/// The circuit of a program: its shape is fixed by the program and the step
/// limit; the declared states and the state root are its witness.
#[derive(Debug)]
pub struct VMCircuit {
    pub initial_state: Option<VMState>,
    pub final_state: Option<VMState>,
    pub state_root: Option<FieldElement>,
    pub program: Vec<u8>,
    pub max_steps: usize,
}

/// The variables that stand for the machine's state at one point of the
/// run.
struct Trace {
    stack: Vec<Variable>,
    /// The addresses of the memory cells in use, in the order of their
    /// first writes.
    cells: Vec<usize>,
    /// For every cell in use the variable of its address and the variable
    /// of its value.
    addresses: Vec<Variable>,
    memory: Vec<Variable>,
    pc: Variable,
    gas: Variable,
}

/// The addresses of the cells in use, as numbers.
spec fn addresses_of(m: Machine) -> Seq<nat> {
    Seq::new(m.written.len(), |i: int| m.written[i] as nat)
}

/// The values of the cells in use, as residues.
spec fn values_of(m: Machine) -> Seq<nat> {
    Seq::new(m.written.len(), |i: int| residue(m.memory[m.written[i]]))
}

/// The variables `vars` have the values `vals`, one by one.
spec fn holds_values(cs: ConstraintSystem, vars: Seq<Variable>, vals: Seq<nat>) -> bool {
    vars.len() == vals.len() && forall|i: int|
        0 <= i < vars.len() ==> cs.knows(#[trigger] vars[i]) && cs.value(vars[i]) == vals[i]
}

/// The variables of `t` have the values of the machine `m`.
spec fn follows(cs: ConstraintSystem, t: Trace, m: Machine) -> bool {
    &&& holds_values(cs, t.stack@, encoding_of(m).stack)
    &&& t.cells@ == m.written
    &&& holds_values(cs, t.addresses@, addresses_of(m))
    &&& holds_values(cs, t.memory@, values_of(m))
    &&& cs.knows(t.pc) && cs.value(t.pc) == m.pc
    &&& cs.knows(t.gas) && cs.value(t.gas) == m.gas
}

/// Values that variables have in a system, they have in every extension of
/// it.
proof fn lemma_values_extended(
    before: ConstraintSystem,
    later: ConstraintSystem,
    vars: Seq<Variable>,
    vals: Seq<nat>,
)
    requires
        before.extended_by(&later),
        holds_values(before, vars, vals),
    ensures
        holds_values(later, vars, vals),
{
    assert forall|i: int| 0 <= i < vars.len() implies later.knows(#[trigger] vars[i])
        && later.value(vars[i]) == vals[i] by {
        assert(before.knows(vars[i]));
        before.lemma_extended_values(&later, vars[i]);
    }
}

/// The shape of a synthesis under way: the shape of the constraint system
/// and the variables that stand for the machine's state.
struct Blueprint {
    sk: Skeleton,
    stack: Seq<Variable>,
    addresses: Seq<Variable>,
    memory: Seq<Variable>,
    pc: Variable,
    gas: Variable,
}

spec fn blueprint(cs: ConstraintSystem, t: Trace) -> Blueprint {
    Blueprint {
        sk: cs.skeleton(),
        stack: t.stack@,
        addresses: t.addresses@,
        memory: t.memory@,
        pc: t.pc,
        gas: t.gas,
    }
}

/// The place of the address `addr` among the cells in use.
spec fn place_of(written: Seq<usize>, addr: usize) -> int {
    choose|i: int| 0 <= i < written.len() && written[i] == addr
}

/// The blueprint at the start of the run: the program counter is the
/// constant zero, the gas the constant that every run starts with.
spec fn bp_begin() -> Blueprint {
    let sk0 = Skeleton { inputs: 1, aux: 0, constraints: Seq::empty() };
    let sk1 = sk_constant(sk0, 0);
    Blueprint {
        sk: sk_constant(sk1, VM::GAS_LIMIT as nat),
        stack: Seq::empty(),
        addresses: Seq::empty(),
        memory: Seq::empty(),
        pc: fresh(sk0),
        gas: fresh(sk1),
    }
}

/// The blueprint after the variable below the top of the stack was stored
/// in the cell `address` of the machine `m`.
spec fn bp_store(b: Blueprint, m: Machine, address: usize) -> Blueprint {
    let stored = b.stack[m.stack.len() - 2];
    if m.written.contains(address) {
        Blueprint { memory: b.memory.update(place_of(m.written, address), stored), ..b }
    } else {
        Blueprint {
            sk: sk_constant(b.sk, address as nat),
            addresses: b.addresses.push(fresh(b.sk)),
            memory: b.memory.push(stored),
            ..b
        }
    }
}

/// The blueprint after the instruction at the program counter of `m`,
/// where it succeeds: a STORE to a cell in use lets the cell be the
/// variable stored, a STORE to another cell adds the cell, with a new
/// variable constrained to its address; the values taken leave the stack;
/// the
/// result of an addition or a multiplication that stays within 64 bits is a
/// new variable, constrained to the sum or the product of the operands;
/// any other value that the instruction leaves is a new variable,
/// constrained to that value; the gas is a new variable, constrained to the
/// gas before less the cost; and the program counter is a new variable,
/// constrained to where the machine goes on.
spec fn bp_step(program: Seq<u8>, b: Blueprint, m: Machine) -> Blueprint {
    let op = program[m.pc];
    let n = m.stack.len() as int;
    let m2 = after(program, m);
    let kept = n - pops(op);
    let b1 = if op == OP_STORE {
        bp_store(b, m, store_address(m))
    } else {
        b
    };
    let b2 = Blueprint { stack: b1.stack.take(kept), ..b1 };
    let b3 = if pushes(op) >= 1 {
        Blueprint {
            sk: if exact_here(program, m) {
                if op == OP_ADD {
                    sk_sum(b2.sk, b.stack[n - 2], b.stack[n - 1])
                } else {
                    sk_product(b2.sk, b.stack[n - 2], b.stack[n - 1])
                }
            } else {
                sk_constant(b2.sk, residue(m2.stack[kept]))
            },
            stack: b2.stack.push(fresh(b2.sk)),
            ..b2
        }
    } else {
        b2
    };
    let b4 = if pushes(op) >= 2 {
        Blueprint {
            sk: sk_constant(b3.sk, residue(m2.stack[kept + 1])),
            stack: b3.stack.push(fresh(b3.sk)),
            ..b3
        }
    } else {
        b3
    };
    let sk5 = sk_minus(b4.sk, b4.gas, gas_cost(op) as nat);
    Blueprint { sk: sk_constant(sk5, m2.pc as nat), gas: fresh(b4.sk), pc: fresh(sk5), ..b4 }
}

/// The blueprint after the run of at most `steps` instructions from `m`.
spec fn bp_run(program: Seq<u8>, b: Blueprint, m: Machine, steps: nat) -> Blueprint
    decreases steps,
{
    if m.halted || !(0 <= m.pc < program.len()) || steps == 0 {
        b
    } else {
        match advance(program, m) {
            (m2, Progress::Running) => bp_run(
                program,
                bp_step(program, b, m),
                m2,
                (steps - 1) as nat,
            ),
            (m2, Progress::Finished) => bp_step(program, b, m),
            (m2, Progress::Failed(_)) => b,
        }
    }
}

/// `n` auxiliary variables in a row, from the number `base` on.
spec fn row(base: nat, n: nat) -> Seq<Variable> {
    Seq::new(n, |i: int| Variable::Aux((base + i) as usize))
}

/// The shape at the end. After the run come the variables of the declared
/// final state (stack, addresses and values of the memory cells, program
/// counter, gas), those of the declared
/// initial program counter and gas, and the one that says whether the
/// declared states have the sizes of the run's. The final state is bound to
/// the state that the run has reached, the initial program counter and gas
/// to the constants that the run starts with, and the last variable to one.
/// Then come the five public inputs, and the constraint that the gas used
/// and the gas left add up to the gas there was. Last, the digest of the
/// program, the state root and the digests of the declared states are bound
/// to the constants that the program and its run give them.
spec fn bp_finish(b: Blueprint, program_digest: nat, root: nat, first: nat, last: nat) -> Skeleton {
    bp_digests(bp_rooted(b, program_digest, root), first, last)
}

/// The shape with the digests of the declared states bound to the
/// constants `first` and `last`.
spec fn bp_digests(sk: Skeleton, first: nat, last: nat) -> Skeleton {
    let sk2 = with(sk_constant(sk, first), equality(Variable::Input(2), fresh(sk)));
    with(sk_constant(sk2, last), equality(Variable::Input(3), fresh(sk2)))
}

/// The shape with the public inputs, the digest of the program and the
/// state root bound.
spec fn bp_rooted(b: Blueprint, program_digest: nat, root: nat) -> Skeleton {
    let base = b.sk.aux + b.stack.len() + 2 * b.memory.len();
    let sk1 = with(
        Skeleton { inputs: 6, ..bp_declared(b) },
        addition(
            Variable::Input(4),
            Variable::Aux((base + 1) as usize),
            Variable::Aux((base + 3) as usize),
        ),
    );
    let sk2 = with(sk_constant(sk1, program_digest), equality(Variable::Input(1), fresh(sk1)));
    with(sk_constant(sk2, root), equality(Variable::Input(5), fresh(sk2)))
}

/// The shape once the declared states are bound to the run.
spec fn bp_declared(b: Blueprint) -> Skeleton {
    let base = b.sk.aux;
    let n = b.stack.len();
    let k = b.memory.len();
    let final_pc = Variable::Aux((base + n + 2 * k) as usize);
    let final_gas = Variable::Aux((base + n + 2 * k + 1) as usize);
    let initial_pc = Variable::Aux((base + n + 2 * k + 2) as usize);
    let initial_gas = Variable::Aux((base + n + 2 * k + 3) as usize);
    let sized = Variable::Aux((base + n + 2 * k + 4) as usize);
    let sk1 = Skeleton { aux: base + n + 2 * k + 5, ..b.sk };
    let sk2 = with_all(sk1, equalities(b.stack, row(base, n)));
    let sk2a = with_all(sk2, equalities(b.addresses, row(base + n, k)));
    let sk3 = with_all(sk2a, equalities(b.memory, row(base + n + k, k)));
    let sk4 = with(with(sk3, equality(b.pc, final_pc)), equality(b.gas, final_gas));
    let sk5 = with(
        with(sk4, equality(initial_pc, bp_begin().pc)),
        equality(initial_gas, bp_begin().gas),
    );
    with(sk5, equality(sized, Variable::Input(0)))
}

/// The shape of the circuit of `program` with the step limit `max_steps`.
/// It depends on nothing else: the witness has no part in it.
pub closed spec fn shape_of(program: Seq<u8>, max_steps: nat) -> Skeleton {
    let start = initial_machine(VM::GAS_LIMIT as int);
    let end = match circuit_run(program, start, max_steps) {
        Ok(end) => end,
        Err(_) => start,
    };
    bp_finish(
        bp_run(program, bp_begin(), start, max_steps),
        le_value(commitment(program)) % modulus(),
        le_value(end.state_root) % modulus(),
        digest_of(start),
        digest_of(end),
    )
}

/// The field element that stands for a value.
pub fn element_of(v: &Value) -> (f: FieldElement)
    ensures
        f.value() == residue(v@),
        f.canonical(),
{
    match v {
        Value::Int(i) => FieldElement::from_i64(*i),
        Value::Bool(b) => if *b {
            FieldElement::one()
        } else {
            FieldElement::zero()
        },
        _ => {
            let mut bytes: Vec<u8> = Vec::new();
            encode_value_into(v, &mut bytes);
            assert(bytes@ =~= crate::vm::root::encode_value(v@));
            FieldElement::from_bytes_reduced(commit(bytes.as_slice()))
        },
    }
}

/// The numbers of values that an opcode takes from the stack and leaves
/// on it.
fn effect(op: u8) -> (r: (usize, usize))
    ensures
        r.0 == pops(op),
        r.1 == pushes(op),
{
    let taken: usize = if op == OP_ADD || op == OP_MUL || op == OP_EQ || op == OP_LT || op == OP_GT
        || op == OP_STORE || op == OP_JUMPI || op == OP_CREATE || op == OP_RETURN || op == OP_SHA3 {
        2
    } else if op == OP_LOAD || op == OP_JUMP || op == OP_BALANCE {
        1
    } else if op == OP_CALL {
        3
    } else {
        0
    };
    let left: usize = if op == OP_CREATE {
        2
    } else if op == OP_PUSH || op == OP_ADD || op == OP_MUL || op == OP_EQ || op == OP_LT || op
        == OP_GT || op == OP_LOAD || op == OP_SHA3 || op == OP_BALANCE {
        1
    } else {
        0
    };
    (taken, left)
}

/// Allocates `n` variables in a row: with the values of `values` where
/// `given`, else without values.
fn alloc_row(cs: &mut ConstraintSystem, values: &Vec<FieldElement>, n: usize, given: bool) -> (vars:
    Vec<Variable>)
    requires
        old(cs).wf(),
        given ==> values@.len() == n,
    ensures
        final(cs).wf(),
        old(cs).extended_by(final(cs)),
        final(cs).inputs@ == old(cs).inputs@,
        final(cs).constraints@ == old(cs).constraints@,
        final(cs).holds_all() == old(cs).holds_all(),
        final(cs).assigned() == (old(cs).assigned() && (given || n == 0)),
        final(cs).skeleton() == (Skeleton {
            aux: old(cs).skeleton().aux + n as nat,
            ..old(cs).skeleton()
        }),
        vars@ == row(old(cs).skeleton().aux, n as nat),
        forall|i: int| 0 <= i < n ==> final(cs).has(#[trigger] vars@[i]),
        given ==> holds_values(
            *final(cs),
            vars@,
            Seq::new(n as nat, |i: int| values@[i].value() % modulus()),
        ),
{
    let mut vars: Vec<Variable> = Vec::new();
    let mut i: usize = 0;
    let ghost base = cs.skeleton().aux;
    while i < n
        invariant
            i <= n,
            given ==> values@.len() == n,
            cs.wf(),
            old(cs).extended_by(cs),
            cs.inputs@ == old(cs).inputs@,
            cs.constraints@ == old(cs).constraints@,
            cs.holds_all() == old(cs).holds_all(),
            cs.assigned() == (old(cs).assigned() && (given || i == 0)),
            base == old(cs).skeleton().aux,
            cs.skeleton() == (Skeleton { aux: base + i as nat, ..old(cs).skeleton() }),
            vars@ == row(base, i as nat),
            forall|j: int| 0 <= j < i ==> cs.has(#[trigger] vars@[j]),
            given ==> holds_values(
                *cs,
                vars@,
                Seq::new(i as nat, |j: int| values@[j].value() % modulus()),
            ),
        decreases n - i,
    {
        let ghost before = *cs;
        let ghost seen = vars@;
        let value = if given {
            Some(values[i])
        } else {
            None
        };
        let v = cs.allocate(value);
        vars.push(v);
        proof {
            assert(vars@ =~= row(base, (i + 1) as nat));
            assert forall|j: int| 0 <= j < i + 1 implies cs.has(#[trigger] vars@[j]) by {
                if j < i {
                    assert(before.has(seen[j]));
                    before.lemma_extended_values(cs, seen[j]);
                }
            }
            if given {
                let vals = Seq::new(i as nat, |j: int| values@[j].value() % modulus());
                lemma_values_extended(before, *cs, seen, vals);
                assert forall|j: int| 0 <= j < i + 1 implies cs.knows(#[trigger] vars@[j])
                    && cs.value(vars@[j]) == values@[j].value() % modulus() by {
                    if j < i {
                        assert(cs.knows(seen[j]) && cs.value(seen[j]) == vals[j]);
                    }
                }
            }
        }
        i += 1;
    }
    vars
}

/// Whether the sum, for ADD, or the product, for MUL, of `a` and `b` stays
/// within 64 bits.
fn stays_exact(op: u8, a: i64, b: i64) -> (r: bool)
    requires
        op == OP_ADD || op == OP_MUL,
    ensures
        r == ((op == OP_ADD && i64::MIN <= a + b <= i64::MAX) || (op == OP_MUL && i64::MIN <= a * b
            <= i64::MAX)),
{
    if op == OP_ADD {
        let sum: i128 = a as i128 + b as i128;
        -0x8000_0000_0000_0000i128 <= sum && sum <= 0x7fff_ffff_ffff_ffffi128
    } else {
        assert(-0x4000_0000_0000_0000_0000_0000_0000_0000 <= a * b
            <= 0x4000_0000_0000_0000_0000_0000_0000_0000) by (nonlinear_arith)
            requires
                -0x8000_0000_0000_0000 <= a <= 0x7fff_ffff_ffff_ffff,
                -0x8000_0000_0000_0000 <= b <= 0x7fff_ffff_ffff_ffff,
        ;
        let product: i128 = a as i128 * b as i128;
        -0x8000_0000_0000_0000i128 <= product && product <= 0x7fff_ffff_ffff_ffffi128
    }
}

/// The gas that an opcode costs.
fn cost_of(op: u8) -> (c: u64)
    ensures
        c == gas_cost(op),
{
    if op == OP_PUSH || op == OP_EQ || op == OP_LT || op == OP_GT {
        3
    } else if op == OP_ADD || op == OP_MUL || op == OP_RETURN {
        5
    } else if op == OP_STORE || op == OP_LOAD || op == OP_BALANCE {
        20
    } else if op == OP_JUMP {
        8
    } else if op == OP_JUMPI {
        10
    } else if op == OP_CREATE {
        32400
    } else if op == OP_CALL {
        40
    } else if op == OP_SHA3 {
        50
    } else if op == crate::vm::model::OP_STOP {
        0
    } else {
        2
    }
}

/// The place of `address` among `cells`, if it is among them.
fn find_cell(cells: &Vec<usize>, address: usize) -> (r: Option<usize>)
    ensures
        match r {
            Some(i) => i < cells@.len() && cells@[i as int] == address,
            None => !cells@.contains(address),
        },
{
    let mut i: usize = 0;
    while i < cells.len()
        invariant
            i <= cells.len(),
            forall|j: int| 0 <= j < i ==> cells@[j] != address,
        decreases cells.len() - i,
    {
        if cells[i] == address {
            return Some(i);
        }
        i += 1;
    }
    None
}

/// Follows a STORE: the cell `address` becomes the variable below the top
/// of the stack. `m` is the machine before the instruction, `m2` the
/// machine after it.
fn trace_store(
    cs: &mut ConstraintSystem,
    t: &mut Trace,
    address: usize,
    Ghost(m): Ghost<Machine>,
    Ghost(m2): Ghost<Machine>,
)
    requires
        old(cs).wf(),
        old(cs).holds_all(),
        follows(*old(cs), *old(t), m),
        m.stack.len() >= 2,
        crate::vm::model::cells_noted(m.memory, m.written),
        m2.memory == m.memory.insert(address, m.stack[m.stack.len() - 2]),
        m2.written == crate::vm::model::noted(m.written, address),
    ensures
        final(cs).wf(),
        final(cs).holds_all(),
        old(cs).extended_by(final(cs)),
        final(cs).inputs@ == old(cs).inputs@,
        final(cs).assigned() == old(cs).assigned(),
        final(t).stack == old(t).stack,
        final(t).pc == old(t).pc,
        final(t).gas == old(t).gas,
        final(t).cells@ == m2.written,
        holds_values(*final(cs), final(t).addresses@, addresses_of(m2)),
        holds_values(*final(cs), final(t).memory@, values_of(m2)),
        holds_values(*final(cs), final(t).stack@, encoding_of(m).stack),
        final(cs).knows(final(t).pc) && final(cs).value(final(t).pc) == m.pc,
        final(cs).knows(final(t).gas) && final(cs).value(final(t).gas) == m.gas,
        blueprint(*final(cs), *final(t)) == bp_store(blueprint(*old(cs), *old(t)), m, address),
{
    let ghost n = m.stack.len() as int;
    let stored = t.stack[t.stack.len() - 2];
    let ghost was = *cs;
    let ghost before = *t;
    assert(was.knows(stored) && was.value(stored) == encoding_of(m).stack[n - 2]);
    match find_cell(&t.cells, address) {
        Some(i) => {
            t.memory.set(i, stored);
            proof {
                assert(m.written[i as int] == address);
                assert(m.written.contains(address));
                assert(place_of(m.written, address) == i);
                assert forall|j: int| 0 <= j < t.memory@.len() implies cs.knows(
                    #[trigger] t.memory@[j],
                ) && cs.value(t.memory@[j]) == values_of(m2)[j] by {
                    if j != i {
                        assert(m.written[j] != m.written[i as int]);
                        assert(before.memory@[j] == t.memory@[j]);
                        assert(was.value(before.memory@[j]) == values_of(m)[j]);
                    }
                }
                assert(addresses_of(m2) =~= addresses_of(m));
            }
        },
        None => {
            let address_variable = cs.constant(address as u64);
            t.cells.push(address);
            t.addresses.push(address_variable);
            t.memory.push(stored);
            proof {
                let k = m.written.len() as int;
                was.lemma_extended_values(cs, stored);
                was.lemma_extended_values(cs, t.pc);
                was.lemma_extended_values(cs, t.gas);
                lemma_values_extended(was, *cs, before.stack@, encoding_of(m).stack);
                lemma_values_extended(was, *cs, before.addresses@, addresses_of(m));
                lemma_values_extended(was, *cs, before.memory@, values_of(m));
                assert forall|j: int| 0 <= j < t.memory@.len() implies cs.knows(
                    #[trigger] t.memory@[j],
                ) && cs.value(t.memory@[j]) == values_of(m2)[j] by {
                    if j < k {
                        assert(m.written.contains(m.written[j]));
                        assert(before.memory@[j] == t.memory@[j]);
                        assert(cs.value(before.memory@[j]) == values_of(m)[j]);
                    }
                }
                assert forall|j: int| 0 <= j < t.addresses@.len() implies cs.knows(
                    #[trigger] t.addresses@[j],
                ) && cs.value(t.addresses@[j]) == addresses_of(m2)[j] by {
                    if j < k {
                        assert(before.addresses@[j] == t.addresses@[j]);
                        assert(cs.value(before.addresses@[j]) == addresses_of(m)[j]);
                    }
                }
            }
        },
    }
}

/// Follows one instruction that the machine has executed: `m` is the
/// machine before it, `vm` the machine after it, `at` the place of the
/// instruction and `address` the cell that it writes to where it is a
/// STORE.
#[verifier::rlimit(60)]
fn trace_step(
    cs: &mut ConstraintSystem,
    t: &mut Trace,
    program: &Vec<u8>,
    vm: &VM,
    at: usize,
    address: usize,
    exact: bool,
    Ghost(m): Ghost<Machine>,
)
    requires
        old(cs).wf(),
        old(cs).holds_all(),
        follows(*old(cs), *old(t), m),
        exact == exact_here(program@, m),
        machine_wf(program@, m),
        m.pc == at,
        at < program.len(),
        !(step(program@, m) is Fail),
        program@[at as int] == OP_STORE ==> address == store_address(m),
        vm@.stack == after(program@, m).stack,
        vm@.memory == after(program@, m).memory,
        vm@.written == after(program@, m).written,
        vm@.pc == after(program@, m).pc,
        vm@.gas == after(program@, m).gas,
        vm.wf(),
    ensures
        final(cs).wf(),
        final(cs).holds_all(),
        old(cs).extended_by(final(cs)),
        final(cs).inputs@ == old(cs).inputs@,
        final(cs).assigned() == old(cs).assigned(),
        follows(*final(cs), *final(t), vm@),
        blueprint(*final(cs), *final(t)) == bp_step(program@, blueprint(*old(cs), *old(t)), m),
{
    let op = program[at];
    let (taken, left) = effect(op);
    let ghost m2 = after(program@, m);
    let ghost n = m.stack.len() as int;
    let ghost kept = n - pops(op);
    let ghost b0 = blueprint(*cs, *t);
    proof {
        law_step_effect(program@, m);
        vm.lemma_wf_bounds();
    }
    if op == OP_STORE {
        trace_store(cs, t, address, Ghost(m), Ghost(m2));
    }
    assert(t.cells@ == m2.written);
    assert(holds_values(*cs, t.addresses@, addresses_of(m2)));
    assert(holds_values(*cs, t.memory@, values_of(m2)));
    assert(holds_values(*cs, t.stack@, encoding_of(m).stack));
    let ghost full = t.stack@;
    // the operands of an exact addition or multiplication; unused otherwise
    let operands = if exact {
        (t.stack[t.stack.len() - 2], t.stack[t.stack.len() - 1])
    } else {
        (t.pc, t.pc)
    };
    t.stack.truncate(t.stack.len() - taken);
    proof {
        assert(t.stack@ =~= full.take(kept));
        assert forall|i: int| 0 <= i < kept implies cs.knows(#[trigger] t.stack@[i]) && cs.value(
            t.stack@[i],
        ) == residue(m2.stack[i]) by {
            assert(t.stack@[i] == full[i]);
            assert(cs.value(full[i]) == encoding_of(m).stack[i]);
            assert(m2.stack[i] == m.stack[i]);
        }
    }
    let values = vm.get_stack();
    proof {
        assert(crate::vm::values_view(values@).len() == values@.len());
    }
    if left >= 1 {
        let ghost was = *cs;
        let ghost vars = t.stack@;
        let ghost cells = t.memory@;
        let ghost spots = t.addresses@;
        assert(crate::vm::values_view(values@)[kept] == values@[kept]@);
        let v = if exact {
            proof {
                let b = int_at(m.stack, 0)->0;
                let a = int_at(m.stack, 1)->0;
                assert(m.stack[n - 1] == crate::vm::value::ValueView::Int(b));
                assert(m.stack[n - 2] == crate::vm::value::ValueView::Int(a));
                assert(was.value(full[n - 1]) == encoding_of(m).stack[n - 1]);
                assert(was.value(full[n - 2]) == encoding_of(m).stack[n - 2]);
                assert(was.knows(full[n - 1]) && was.knows(full[n - 2]));
                lemma_residues(a as int, b as int);
            }
            if op == OP_ADD {
                cs.sum(operands.0, operands.1)
            } else {
                cs.product(operands.0, operands.1)
            }
        } else {
            let f = element_of(&values[t.stack.len()]);
            cs.constant_element(f)
        };
        t.stack.push(v);
        proof {
            lemma_values_extended(was, *cs, cells, values_of(m2));
            lemma_values_extended(was, *cs, spots, addresses_of(m2));
            assert forall|i: int| 0 <= i < kept + 1 implies cs.knows(#[trigger] t.stack@[i])
                && cs.value(t.stack@[i]) == residue(m2.stack[i]) by {
                if i < kept {
                    assert(was.knows(vars[i]));
                    was.lemma_extended_values(cs, vars[i]);
                }
            }
        }
    }
    if left >= 2 {
        let ghost was = *cs;
        let ghost vars = t.stack@;
        let ghost cells = t.memory@;
        let ghost spots = t.addresses@;
        assert(crate::vm::values_view(values@)[kept + 1] == values@[kept + 1]@);
        let f = element_of(&values[t.stack.len()]);
        let v = cs.constant_element(f);
        t.stack.push(v);
        proof {
            lemma_values_extended(was, *cs, cells, values_of(m2));
            lemma_values_extended(was, *cs, spots, addresses_of(m2));
            assert forall|i: int| 0 <= i < kept + 2 implies cs.knows(#[trigger] t.stack@[i])
                && cs.value(t.stack@[i]) == residue(m2.stack[i]) by {
                if i < kept + 1 {
                    assert(was.knows(vars[i]));
                    was.lemma_extended_values(cs, vars[i]);
                }
            }
        }
    }
    assert(holds_values(*cs, t.stack@, encoding_of(m2).stack));
    let ghost was = *cs;
    proof {
        old(cs).lemma_extended_values(cs, old(t).gas);
        assert(t.gas == old(t).gas);
    }
    let gas = cs.minus(t.gas, cost_of(op));
    let ghost mid = *cs;
    let pc = cs.constant(vm.pc() as u64);
    proof {
        lemma_values_extended(was, mid, t.stack@, encoding_of(m2).stack);
        lemma_values_extended(mid, *cs, t.stack@, encoding_of(m2).stack);
        lemma_values_extended(was, mid, t.memory@, values_of(m2));
        lemma_values_extended(mid, *cs, t.memory@, values_of(m2));
        lemma_values_extended(was, mid, t.addresses@, addresses_of(m2));
        lemma_values_extended(mid, *cs, t.addresses@, addresses_of(m2));
        mid.lemma_extended_values(cs, gas);
        assert(modulus() > 0x1_0000_0000_0000_0000);
        vstd::arithmetic::div_mod::lemma_small_mod(m2.gas as nat, modulus());
        assert(mid.value(gas) == m2.gas);
    }
    t.gas = gas;
    t.pc = pc;
    proof {
        assert(encoding_of(vm@).stack =~= encoding_of(m2).stack);
        assert(addresses_of(vm@) =~= addresses_of(m2));
        assert(values_of(vm@) =~= values_of(m2));
        assert(blueprint(*cs, *t) == bp_step(program@, b0, m));
    }
}

/// The constraints that make the variables `xs` and `ys` equal one by one.
spec fn equalities(xs: Seq<Variable>, ys: Seq<Variable>) -> Seq<ConstraintView> {
    Seq::new(xs.len(), |i: int| equality(xs[i], ys[i]))
}

/// The shape with more constraints.
spec fn with_all(sk: Skeleton, more: Seq<ConstraintView>) -> Skeleton {
    Skeleton { constraints: sk.constraints + more, ..sk }
}

/// The first `n` of the variables `xs` and `ys` agree in value.
spec fn agree(cs: ConstraintSystem, xs: Seq<Variable>, ys: Seq<Variable>, n: int) -> bool {
    forall|i: int| 0 <= i < n ==> cs.value(#[trigger] xs[i]) == cs.value(ys[i])
}

/// Constrains the variables `xs` and `ys` to be equal one by one.
fn bind_all(cs: &mut ConstraintSystem, xs: &Vec<Variable>, ys: &Vec<Variable>, Ghost(w): Ghost<bool>)
    requires
        old(cs).wf(),
        xs@.len() == ys@.len(),
        forall|i: int| 0 <= i < xs@.len() ==> old(cs).has(#[trigger] xs@[i]),
        forall|i: int| 0 <= i < ys@.len() ==> old(cs).has(#[trigger] ys@[i]),
        w ==> forall|i: int| 0 <= i < xs@.len() ==> old(cs).knows(#[trigger] xs@[i]),
        w ==> forall|i: int| 0 <= i < ys@.len() ==> old(cs).knows(#[trigger] ys@[i]),
    ensures
        final(cs).wf(),
        final(cs).inputs@ == old(cs).inputs@,
        final(cs).aux@ == old(cs).aux@,
        final(cs).assigned() == old(cs).assigned(),
        w ==> final(cs).holds_all() == (old(cs).holds_all() && agree(
            *old(cs),
            xs@,
            ys@,
            xs@.len() as int,
        )),
        final(cs).skeleton() == with_all(old(cs).skeleton(), equalities(xs@, ys@)),
{
    let mut i: usize = 0;
    assert(cs.skeleton().constraints =~= with_all(
        old(cs).skeleton(),
        equalities(xs@, ys@).take(0),
    ).constraints);
    while i < xs.len()
        invariant
            i <= xs.len(),
            xs@.len() == ys@.len(),
            cs.skeleton() == with_all(old(cs).skeleton(), equalities(xs@, ys@).take(i as int)),
            cs.wf(),
            cs.inputs@ == old(cs).inputs@,
            cs.aux@ == old(cs).aux@,
            cs.assigned() == old(cs).assigned(),
            forall|i: int| 0 <= i < xs@.len() ==> old(cs).has(#[trigger] xs@[i]),
            forall|i: int| 0 <= i < ys@.len() ==> old(cs).has(#[trigger] ys@[i]),
            w ==> forall|i: int| 0 <= i < xs@.len() ==> old(cs).knows(#[trigger] xs@[i]),
            w ==> forall|i: int| 0 <= i < ys@.len() ==> old(cs).knows(#[trigger] ys@[i]),
            w ==> cs.holds_all() == (old(cs).holds_all() && agree(*old(cs), xs@, ys@, i as int)),
        decreases xs.len() - i,
    {
        assert(old(cs).has(xs@[i as int]) && old(cs).has(ys@[i as int]));
        proof {
            if w {
                assert(old(cs).knows(xs@[i as int]) && old(cs).knows(ys@[i as int]));
            }
        }
        let ghost before = cs.skeleton();
        cs.equal(xs[i], ys[i]);
        i += 1;
        proof {
            let all = equalities(xs@, ys@);
            assert(all.take(i as int) =~= all.take(i - 1).push(equality(xs@[i - 1], ys@[i - 1])));
            assert(cs.skeleton().constraints =~= with_all(
                old(cs).skeleton(),
                all.take(i as int),
            ).constraints);
        }
    }
    assert(equalities(xs@, ys@).take(xs@.len() as int) =~= equalities(xs@, ys@));
}

/// Variables that agree one by one stand for equal sequences of values.
proof fn lemma_agree_means_equal(
    cs: ConstraintSystem,
    xs: Seq<Variable>,
    ys: Seq<Variable>,
    a: Seq<nat>,
    b: Seq<nat>,
)
    requires
        xs.len() == ys.len(),
        xs.len() == a.len(),
        xs.len() == b.len(),
        forall|i: int| 0 <= i < xs.len() ==> cs.value(#[trigger] xs[i]) == a[i],
        forall|i: int| 0 <= i < ys.len() ==> cs.value(#[trigger] ys[i]) == b[i],
    ensures
        agree(cs, xs, ys, xs.len() as int) <==> a == b,
{
    if agree(cs, xs, ys, xs.len() as int) {
        assert forall|i: int| 0 <= i < a.len() implies a[i] == b[i] by {
            assert(cs.value(xs[i]) == cs.value(ys[i]));
        }
        assert(a =~= b);
    }
    if a == b {
        assert forall|i: int| 0 <= i < xs.len() implies cs.value(#[trigger] xs[i]) == cs.value(
            ys[i],
        ) by {
            assert(cs.value(ys[i]) == b[i]);
        }
    }
}
impl VMCircuit {
    /// The circuit of `program` without a witness.
    pub fn new(program: Vec<u8>, max_steps: usize) -> (r: Self)
        ensures
            r.initial_state is None,
            r.final_state is None,
            r.state_root is None,
            r.program == program,
            r.max_steps == max_steps,
    {
        VMCircuit { initial_state: None, final_state: None, state_root: None, program, max_steps }
    }

    /// The circuit of `program` with the declared states as its witness.
    pub fn with_witness(
        program: Vec<u8>,
        max_steps: usize,
        initial_state: VMState,
        final_state: VMState,
    ) -> (r: Self)
        ensures
            r.initial_state == Some(initial_state),
            r.final_state == Some(final_state),
            r.state_root is None,
            r.program == program,
            r.max_steps == max_steps,
    {
        VMCircuit {
            initial_state: Some(initial_state),
            final_state: Some(final_state),
            state_root: None,
            program,
            max_steps,
        }
    }

    /// The same circuit with `root` as the state root that it declares.
    pub fn with_state_root(self, root: FieldElement) -> (r: Self)
        ensures
            r.initial_state == self.initial_state,
            r.final_state == self.final_state,
            r.state_root == Some(root),
            r.program == self.program,
            r.max_steps == self.max_steps,
    {
        VMCircuit { state_root: Some(root), ..self }
    }

    /// The whole witness is there.
    pub open spec fn has_witness(&self) -> bool {
        self.initial_state is Some && self.final_state is Some && self.state_root is Some
    }

    /// The digest of the program as a residue.
    pub open spec fn program_digest(&self) -> nat {
        le_value(commitment(self.program@)) % modulus()
    }
}

/// The numbers that field elements stand for, in order.
pub open spec fn element_values(elements: Seq<FieldElement>) -> Seq<nat> {
    Seq::new(elements.len(), |i: int| elements[i].value())
}

impl VMCircuit {
    /// The five public inputs as numbers, in their fixed order: the digest
    /// of the program, the digests of the declared initial and final states,
    /// the gas used, and the state root.
    pub open spec fn input_values(&self) -> Seq<nat>
        recommends
            self.has_witness(),
    {
        seq![
            self.program_digest(),
            self.initial_state->0.digest(),
            self.final_state->0.digest(),
            ((self.initial_state->0.residues().gas - self.final_state->0.residues().gas) % (
            modulus() as int)) as nat,
            self.state_root->0.residue(),
        ]
    }

    /// The five public inputs, in their fixed order: the digest of the
    /// program, the digests of the declared initial and final states, the
    /// gas used, and the state root. They are there where the whole witness
    /// is.
    pub fn declared_inputs(&self) -> (r: Option<Vec<FieldElement>>)
        ensures
            r is Some == self.has_witness(),
            r matches Some(inputs) ==> {
                &&& inputs@.len() == 5
                &&& element_values(inputs@) == self.input_values()
                &&& forall|i: int| 0 <= i < 5 ==> (#[trigger] inputs@[i]).canonical()
                &&& inputs@[0].value() == self.program_digest()
                &&& inputs@[1].value() == self.initial_state->0.digest()
                &&& inputs@[2].value() == self.final_state->0.digest()
                &&& inputs@[3].value() == (self.initial_state->0.residues().gas
                    - self.final_state->0.residues().gas) % (modulus() as int)
                &&& inputs@[4].value() == self.state_root->0.residue()
            },
    {
        match (&self.initial_state, &self.final_state, &self.state_root) {
            (Some(initial), Some(fin), Some(root)) => {
                let mut inputs: Vec<FieldElement> = Vec::new();
                inputs.push(FieldElement::from_bytes_reduced(commit(self.program.as_slice())));
                inputs.push(
                    FieldElement::from_bytes_reduced(commit(initial.encode().as_slice())),
                );
                inputs.push(FieldElement::from_bytes_reduced(commit(fin.encode().as_slice())));
                let gas_before = FieldElement::from_bytes_reduced(initial.gas_remaining.bytes);
                let gas_after = FieldElement::from_bytes_reduced(fin.gas_remaining.bytes);
                inputs.push(gas_before.sub(&gas_after));
                inputs.push(FieldElement::from_bytes_reduced(root.bytes));
                assert(element_values(inputs@) =~= self.input_values());
                Some(inputs)
            },
            _ => None,
        }
    }
}

impl VMCircuit {
    /// The machine at the end of the run that the circuit follows, or why
    /// the circuit has no such end.
    pub open spec fn outcome(&self) -> Result<Machine, SynthesisError> {
        circuit_run(self.program@, initial_machine(VM::GAS_LIMIT as int), self.max_steps as nat)
    }

    /// The declared states are the encodings of the machine before the run
    /// and of the machine `end`, their digests are the digests of these
    /// machines' data, and the declared state root is the residue of the
    /// state root of `end`.
    pub open spec fn declares(&self, end: Machine) -> bool {
        self.initial_state matches Some(initial) && self.final_state matches Some(last)
            && self.state_root matches Some(root) && initial.residues() == encoding_of(
            initial_machine(VM::GAS_LIMIT as int),
        ) && last.residues() == encoding_of(end) && root.residue() == le_value(end.state_root)
            % modulus() && initial.digest() == digest_of(initial_machine(VM::GAS_LIMIT as int))
            && last.digest() == digest_of(end)
    }

    /// The declared states and the state root are those of the run, but
    /// for the digests of the states.
    pub open spec fn declares_data(&self, end: Machine) -> bool {
        self.initial_state matches Some(initial) && self.final_state matches Some(last)
            && self.state_root matches Some(root) && initial.residues() == encoding_of(
            initial_machine(VM::GAS_LIMIT as int),
        ) && last.residues() == encoding_of(end) && root.residue() == le_value(end.state_root)
            % modulus()
    }

    /// Builds the constraint system of the circuit.
    ///
    /// It fails exactly where the run that the circuit follows has no end,
    /// with the reason for that; the witness has no part in this. The
    /// system built has the constant one and the five public inputs as its
    /// inputs, and its shape is the one that the program and the step limit
    /// fix. With the whole witness every variable has a value, and the
    /// system is satisfied exactly where the declared states are the
    /// encodings of the machine before the run and of the machine at its
    /// end, with the digests of these, and the declared state root is that
    /// of the machine at the end.
    #[verifier::rlimit(100)]
    pub fn synthesize(&self) -> (r: Result<ConstraintSystem, SynthesisError>)
        ensures
            match r {
                Ok(cs) => {
                    &&& cs.wf()
                    &&& cs.inputs@.len() == 6
                    &&& cs.assigned() == self.has_witness()
                    &&& cs.skeleton() == shape_of(self.program@, self.max_steps as nat)
                    &&& self.outcome() is Ok
                    &&& self.has_witness() ==> {
                        &&& cs.satisfied() <==> self.declares(self.outcome()->Ok_0)
                        &&& cs.value(Variable::Input(1)) == self.program_digest()
                        &&& cs.value(Variable::Input(2)) == self.initial_state->0.digest()
                        &&& cs.value(Variable::Input(3)) == self.final_state->0.digest()
                        &&& cs.value(Variable::Input(4)) == (self.initial_state->0.residues().gas
                            - self.final_state->0.residues().gas) % (modulus() as int)
                        &&& cs.value(Variable::Input(5)) == self.state_root->0.residue()
                    }
                },
                Err(e) => self.outcome() == Err::<Machine, SynthesisError>(e),
            },
    {
        let mut cs = ConstraintSystem::new();
        match follow_run(&self.program, self.max_steps, &mut cs) {
            Ok((t, end, constants)) => {
                self.bind_declared(&mut cs, &t, end, constants.0);
                self.bind_digests(&mut cs, end, constants.1, constants.2);
                Ok(cs)
            },
            Err(e) => Err(e),
        }
    }

    /// Allocates the variables of the declared states and binds them to
    /// the run that `t` has followed to the machine `end`: the variables of
    /// the declared final and initial gas.
    #[verifier::rlimit(100)]
    fn declare_states(&self, cs: &mut ConstraintSystem, t: &Trace, Ghost(end): Ghost<Machine>) -> (r:
        (Variable, Variable))
        requires
            old(cs).wf(),
            old(cs).holds_all(),
            old(cs).assigned(),
            old(cs).inputs@.len() == 1,
            follows(*old(cs), *t, end),
            old(cs).knows(bp_begin().pc) && old(cs).value(bp_begin().pc) == 0,
            old(cs).knows(bp_begin().gas) && old(cs).value(bp_begin().gas) == VM::GAS_LIMIT,
        ensures
            final(cs).wf(),
            final(cs).inputs@ == old(cs).inputs@,
            final(cs).assigned() == (self.initial_state is Some && self.final_state is Some),
            final(cs).skeleton() == bp_declared(blueprint(*old(cs), *t)),
            r.0 == Variable::Aux(
                (old(cs).skeleton().aux + t.stack@.len() + 2 * t.memory@.len() + 1) as usize,
            ),
            r.1 == Variable::Aux(
                (old(cs).skeleton().aux + t.stack@.len() + 2 * t.memory@.len() + 3) as usize,
            ),
            final(cs).has(r.0) && final(cs).has(r.1),
            final(cs).knows(r.0) == (self.final_state is Some),
            final(cs).knows(r.1) == (self.initial_state is Some),
            self.final_state matches Some(f) ==> final(cs).value(r.0) == f.residues().gas,
            self.initial_state matches Some(f) ==> final(cs).value(r.1) == f.residues().gas,
            self.initial_state is Some && self.final_state is Some ==> final(cs).holds_all() == (
            self.initial_state->0.residues() == encoding_of(initial_machine(VM::GAS_LIMIT as int))
                && self.final_state->0.residues() == encoding_of(end)),
    {
        let pc0 = Variable::Aux(0);
        let gas0 = Variable::Aux(1);
        let ghost m0 = initial_machine(VM::GAS_LIMIT as int);
        let ghost run_cs = *cs;
        let ghost reach = encoding_of(end);
        let n = t.stack.len();
        let k = t.memory.len();
        let blank: Vec<FieldElement> = Vec::new();
        let stack_fits = match &self.final_state {
            Some(f) => f.stack.len() == n,
            None => true,
        };
        let memory_fits = match &self.final_state {
            Some(f) => f.memory.len() == k,
            None => true,
        };
        let final_stack = match &self.final_state {
            Some(f) => if stack_fits {
                alloc_row(cs, &f.stack, n, true)
            } else {
                let zeros = zeros(n);
                alloc_row(cs, &zeros, n, true)
            },
            None => alloc_row(cs, &blank, n, false),
        };
        let ghost c1 = *cs;
        let declared_cells = match &self.final_state {
            Some(f) => if memory_fits {
                split_cells(&f.memory)
            } else {
                (zeros(k), zeros(k))
            },
            None => (Vec::new(), Vec::new()),
        };
        let ghost given = self.final_state is Some;
        let final_addresses = alloc_row(cs, &declared_cells.0, k, self.final_state.is_some());
        let ghost c1a = *cs;
        let final_memory = alloc_row(cs, &declared_cells.1, k, self.final_state.is_some());
        let ghost c2 = *cs;
        let final_pc = cs.allocate(
            match &self.final_state {
                Some(f) => Some(f.program_counter),
                None => None,
            },
        );
        let final_gas = cs.allocate(
            match &self.final_state {
                Some(f) => Some(f.gas_remaining),
                None => None,
            },
        );
        let initial_pc = cs.allocate(
            match &self.initial_state {
                Some(f) => Some(f.program_counter),
                None => None,
            },
        );
        let initial_gas = cs.allocate(
            match &self.initial_state {
                Some(f) => Some(f.gas_remaining),
                None => None,
            },
        );
        let sizes_fit = match (&self.initial_state, &self.final_state) {
            (Some(i), Some(f)) => Some(
                i.stack.len() == 0 && i.memory.len() == 0 && i.storage.len() == 0 && stack_fits
                    && memory_fits && f.storage.len() == 0,
            ),
            _ => None,
        };
        let sized = cs.allocate(
            match sizes_fit {
                Some(fit) => Some(
                    if fit {
                        FieldElement::one()
                    } else {
                        FieldElement::zero()
                    },
                ),
                None => None,
            },
        );
        let ghost c3 = *cs;
        let ghost fw = self.final_state is Some;
        let ghost w = self.initial_state is Some && self.final_state is Some;
        proof {
            lemma_values_extended(run_cs, c3, t.stack@, reach.stack);
            lemma_values_extended(run_cs, c3, t.memory@, values_of(end));
            lemma_values_extended(run_cs, c3, t.addresses@, addresses_of(end));
            run_cs.lemma_extended_values(&c3, t.pc);
            run_cs.lemma_extended_values(&c3, t.gas);
            run_cs.lemma_extended_values(&c3, pc0);
            run_cs.lemma_extended_values(&c3, gas0);
            assert forall|i: int| 0 <= i < n implies c3.has(#[trigger] final_stack@[i]) && (fw
                ==> c3.knows(final_stack@[i])) by {
                assert(c1.has(final_stack@[i]));
                c1.lemma_extended_values(&c3, final_stack@[i]);
            }
            assert forall|i: int| 0 <= i < k implies c3.has(#[trigger] final_memory@[i]) && (fw
                ==> c3.knows(final_memory@[i])) by {
                assert(c2.has(final_memory@[i]));
                c2.lemma_extended_values(&c3, final_memory@[i]);
            }
            assert forall|i: int| 0 <= i < k implies c3.has(#[trigger] final_addresses@[i]) && (fw
                ==> c3.knows(final_addresses@[i])) by {
                assert(c1a.has(final_addresses@[i]));
                c1a.lemma_extended_values(&c3, final_addresses@[i]);
            }
            assert forall|i: int| 0 <= i < k implies c3.has(#[trigger] t.addresses@[i]) && c3.knows(
                t.addresses@[i],
            ) by {}
            assert forall|i: int| 0 <= i < n implies c3.has(#[trigger] t.stack@[i]) && c3.knows(
                t.stack@[i],
            ) by {}
            assert forall|i: int| 0 <= i < k implies c3.has(#[trigger] t.memory@[i]) && c3.knows(
                t.memory@[i],
            ) by {}
        }
        bind_all(cs, &t.stack, &final_stack, Ghost(fw));
        let ghost c4 = *cs;
        bind_all(cs, &t.addresses, &final_addresses, Ghost(fw));
        let ghost c4a = *cs;
        bind_all(cs, &t.memory, &final_memory, Ghost(fw));
        let ghost c5 = *cs;
        cs.equal(t.pc, final_pc);
        cs.equal(t.gas, final_gas);
        cs.equal(initial_pc, pc0);
        cs.equal(initial_gas, gas0);
        cs.equal(sized, Variable::Input(0));
        let ghost c6 = *cs;
        proof {
            assert(c6.aux@ == c3.aux@ && c6.inputs@ == c3.inputs@);
            assert(c4.aux@ == c3.aux@ && c4.inputs@ == c3.inputs@);
            if w {
                let first = self.initial_state->0;
                let last = self.final_state->0;
                let f = last.residues();
                let g = first.residues();
                let fit = sizes_fit->0;
                let start = encoding_of(m0);
                vstd::arithmetic::div_mod::lemma_small_mod(1, modulus());
                vstd::arithmetic::div_mod::lemma_small_mod(0, modulus());
                assert(start.stack =~= Seq::<nat>::empty());
                assert(start.memory =~= Seq::<(nat, nat)>::empty());
                assert(c3.holds_all());
                assert(c3.value(sized) == (if fit { 1nat } else { 0nat }));
                assert(c3.value(Variable::Input(0)) == 1);
                assert(c3.value(final_pc) == f.pc);
                assert(c3.value(final_gas) == f.gas);
                assert(c3.value(initial_pc) == g.pc);
                assert(c3.value(initial_gas) == g.gas);
                assert(c3.value(t.pc) == reach.pc);
                assert(c3.value(t.gas) == reach.gas);
                assert(c3.value(pc0) == 0);
                assert(c3.value(gas0) == VM::GAS_LIMIT);
                assert(c4a.aux@ == c3.aux@ && c4a.inputs@ == c3.inputs@);
                assert(agree(c4, t.addresses@, final_addresses@, k as int) == agree(
                    c3,
                    t.addresses@,
                    final_addresses@,
                    k as int,
                ));
                assert(agree(c4a, t.memory@, final_memory@, k as int) == agree(
                    c3,
                    t.memory@,
                    final_memory@,
                    k as int,
                ));
                let bound = agree(c3, t.stack@, final_stack@, n as int) && agree(
                    c3,
                    t.addresses@,
                    final_addresses@,
                    k as int,
                ) && agree(c3, t.memory@, final_memory@, k as int) && reach.pc == f.pc && reach.gas
                    == f.gas && g.pc == 0 && g.gas == VM::GAS_LIMIT && fit;
                assert(c6.holds_all() == bound);
                assert(reach.stack.len() == n && reach.memory.len() == k);
                if fit {
                    let spots = Seq::new(k as nat, |i: int| f.memory[i].0);
                    let held = Seq::new(k as nat, |i: int| f.memory[i].1);
                    assert(Seq::new(n as nat, |i: int| last.stack@[i].value() % modulus())
                        =~= f.stack);
                    assert(Seq::new(k as nat, |i: int| declared_cells.0@[i].value() % modulus())
                        =~= spots);
                    assert(Seq::new(k as nat, |i: int| declared_cells.1@[i].value() % modulus())
                        =~= held);
                    lemma_values_extended(c1, c3, final_stack@, f.stack);
                    lemma_values_extended(c1a, c3, final_addresses@, spots);
                    lemma_values_extended(c2, c3, final_memory@, held);
                    lemma_agree_means_equal(c3, t.stack@, final_stack@, reach.stack, f.stack);
                    lemma_agree_means_equal(
                        c3,
                        t.addresses@,
                        final_addresses@,
                        addresses_of(end),
                        spots,
                    );
                    lemma_agree_means_equal(c3, t.memory@, final_memory@, values_of(end), held);
                    assert(f.storage =~= reach.storage);
                    assert(g.stack =~= start.stack);
                    assert(g.memory =~= start.memory);
                    assert(g.storage =~= start.storage);
                    if addresses_of(end) == spots && values_of(end) == held {
                        assert forall|i: int| 0 <= i < k implies f.memory[i] == reach.memory[i] by {
                            assert(addresses_of(end)[i] == spots[i]);
                            assert(values_of(end)[i] == held[i]);
                        }
                        assert(f.memory =~= reach.memory);
                    }
                    if f.memory == reach.memory {
                        assert(addresses_of(end) =~= spots);
                        assert(values_of(end) =~= held);
                    }
                    if bound {
                        assert(f == reach);
                        assert(g == start);
                    }
                    if g == start && f == reach {
                        assert(bound);
                    }
                } else {
                    if g == start && f == reach {
                        assert(g.stack.len() == 0 && g.memory.len() == 0 && g.storage.len() == 0);
                        assert(f.stack.len() == n && f.memory.len() == k && f.storage.len() == 0);
                        assert(false);
                    }
                }
                assert(c6.holds_all() == (g == start && f == reach));
            }
        }
        (final_gas, initial_gas)
    }

    /// Binds the digests of the declared states to the digests `first` and
    /// `last` of the machine before the run and of the machine `end`.
    fn bind_digests(
        &self,
        cs: &mut ConstraintSystem,
        Ghost(end): Ghost<Machine>,
        first: FieldElement,
        last: FieldElement,
    )
        requires
            first.canonical(),
            last.canonical(),
            first.value() == digest_of(initial_machine(VM::GAS_LIMIT as int)),
            last.value() == digest_of(end),
            old(cs).wf(),
            old(cs).inputs@.len() == 6,
            self.has_witness() ==> {
                &&& old(cs).value(Variable::Input(2)) == self.initial_state->0.digest()
                &&& old(cs).value(Variable::Input(3)) == self.final_state->0.digest()
            },
        ensures
            final(cs).wf(),
            final(cs).inputs@ == old(cs).inputs@,
            final(cs).assigned() == old(cs).assigned(),
            final(cs).skeleton() == bp_digests(old(cs).skeleton(), first.value(), last.value()),
            self.has_witness() ==> final(cs).holds_all() == (old(cs).holds_all()
                && self.initial_state->0.digest() == digest_of(
                initial_machine(VM::GAS_LIMIT as int),
            ) && self.final_state->0.digest() == digest_of(end)),
            forall|v: Variable| old(cs).has(v) ==> #[trigger] final(cs).value(v) == old(cs).value(v),
    {
        let first_constant = cs.constant_element(first);
        let ghost e1 = *cs;
        proof {
            old(cs).lemma_extended_values(cs, Variable::Input(2));
            old(cs).lemma_extended_values(cs, Variable::Input(3));
        }
        cs.equal(Variable::Input(2), first_constant);
        let ghost e2 = *cs;
        let last_constant = cs.constant_element(last);
        let ghost e3 = *cs;
        proof {
            e2.lemma_extended_values(cs, Variable::Input(3));
        }
        cs.equal(Variable::Input(3), last_constant);
        proof {
            assert forall|v: Variable| old(cs).has(v) implies #[trigger] cs.value(v) == old(
                cs,
            ).value(v) by {
                old(cs).lemma_extended_values(&e1, v);
                e1.lemma_extended_values(&e2, v);
                e2.lemma_extended_values(&e3, v);
                e3.lemma_extended_values(cs, v);
            }
            assert(e1.value(Variable::Input(2)) == old(cs).value(Variable::Input(2)));
            assert(e3.value(Variable::Input(3)) == old(cs).value(Variable::Input(3)));
            assert(e2.holds_all() == (old(cs).holds_all() && old(cs).value(Variable::Input(2))
                == first.value()));
            assert(cs.holds_all() == (e2.holds_all() && old(cs).value(Variable::Input(3))
                == last.value()));
        }
    }

    /// Binds the declared states and the public inputs to the run that
    /// `t` has followed to the machine `end`, whose state root `root` stands
    /// for.
    fn bind_declared(
        &self,
        cs: &mut ConstraintSystem,
        t: &Trace,
        Ghost(end): Ghost<Machine>,
        root: FieldElement,
    )
        requires
            root.canonical(),
            root.value() == le_value(end.state_root) % modulus(),
            old(cs).wf(),
            old(cs).holds_all(),
            old(cs).assigned(),
            old(cs).inputs@.len() == 1,
            follows(*old(cs), *t, end),
            old(cs).knows(bp_begin().pc) && old(cs).value(bp_begin().pc) == 0,
            old(cs).knows(bp_begin().gas) && old(cs).value(bp_begin().gas) == VM::GAS_LIMIT,
        ensures
            final(cs).wf(),
            final(cs).inputs@.len() == 6,
            final(cs).assigned() == self.has_witness(),
            final(cs).skeleton() == bp_rooted(
                blueprint(*old(cs), *t),
                self.program_digest(),
                root.value(),
            ),
            self.has_witness() ==> {
                &&& final(cs).holds_all() <==> self.declares_data(end)
                &&& final(cs).value(Variable::Input(1)) == self.program_digest()
                &&& final(cs).value(Variable::Input(2)) == self.initial_state->0.digest()
                &&& final(cs).value(Variable::Input(3)) == self.final_state->0.digest()
                &&& final(cs).value(Variable::Input(4)) == (self.initial_state->0.residues().gas
                    - self.final_state->0.residues().gas) % (modulus() as int)
                &&& final(cs).value(Variable::Input(5)) == self.state_root->0.residue()
            },
    {
        let ghost run_cs = *cs;
        let (final_gas, initial_gas) = self.declare_states(cs, t, Ghost(end));
        let ghost c3 = *cs;
        let ghost c6 = *cs;
        let ghost w = self.initial_state is Some && self.final_state is Some;
        let gas_used = match (cs.value_of(initial_gas), cs.value_of(final_gas)) {
            (Some(before), Some(after)) => {
                let used = before.sub(&after);
                proof {
                    lemma_gas_adds_up(before.value(), after.value());
                    vstd::arithmetic::div_mod::lemma_small_mod(used.value(), modulus());
                }
                Some(used)
            },
            _ => None,
        };
        let digest = FieldElement::from_bytes_reduced(commit(self.program.as_slice()));
        let initial_digest = match &self.initial_state {
            Some(v) => Some(FieldElement::from_bytes_reduced(commit(v.encode().as_slice()))),
            None => None,
        };
        let final_digest = match &self.final_state {
            Some(v) => Some(FieldElement::from_bytes_reduced(commit(v.encode().as_slice()))),
            None => None,
        };
        let declared_root = match &self.state_root {
            Some(root) => Some(*root),
            None => None,
        };
        proof {
            vstd::arithmetic::div_mod::lemma_small_mod(digest.value(), modulus());
            if initial_digest is Some {
                vstd::arithmetic::div_mod::lemma_small_mod(initial_digest->0.value(), modulus());
            }
            if final_digest is Some {
                vstd::arithmetic::div_mod::lemma_small_mod(final_digest->0.value(), modulus());
            }
        }
        let in1 = cs.alloc_input(Some(digest));
        let ghost d1 = *cs;
        let in2 = cs.alloc_input(initial_digest);
        let ghost d2 = *cs;
        proof {
            d1.lemma_extended_values(cs, in1);
        }
        let in3 = cs.alloc_input(final_digest);
        let ghost d3 = *cs;
        proof {
            d2.lemma_extended_values(cs, in1);
            d2.lemma_extended_values(cs, in2);
        }
        let in4 = cs.alloc_input(gas_used);
        let ghost d4 = *cs;
        proof {
            d3.lemma_extended_values(cs, in1);
            d3.lemma_extended_values(cs, in2);
            d3.lemma_extended_values(cs, in3);
        }
        let in5 = cs.alloc_input(declared_root);
        let ghost d5 = *cs;
        proof {
            d4.lemma_extended_values(cs, in1);
            d4.lemma_extended_values(cs, in2);
            d4.lemma_extended_values(cs, in3);
            d4.lemma_extended_values(cs, in4);
            assert(cs.aux@ == c3.aux@);
            assert(cs.has(initial_gas) && cs.has(final_gas));
            assert(cs.value(initial_gas) == c6.value(initial_gas));
            assert(cs.value(final_gas) == c6.value(final_gas));
            assert(cs.knows(initial_gas) == c6.knows(initial_gas));
            assert(cs.knows(final_gas) == c6.knows(final_gas));
        }
        cs.adds_up(in4, final_gas, initial_gas);
        let ghost e1 = *cs;
        proof {
            assert(cs.inputs@ == d5.inputs@ && cs.aux@ == d5.aux@);
            if self.has_witness() {
                assert(w);
                assert(d5.holds_all() == c6.holds_all());
                assert(cs.holds_all() == c6.holds_all());
            }
        }
        let program_constant = cs.constant_element(digest);
        let ghost e2 = *cs;
        proof {
            e1.lemma_extended_values(cs, in1);
            e1.lemma_extended_values(cs, in5);
        }
        cs.equal(in1, program_constant);
        let ghost e3 = *cs;
        let root_constant = cs.constant_element(root);
        let ghost e4 = *cs;
        proof {
            e3.lemma_extended_values(cs, in1);
            e3.lemma_extended_values(cs, in2);
            e3.lemma_extended_values(cs, in3);
            e3.lemma_extended_values(cs, in4);
            e3.lemma_extended_values(cs, in5);
        }
        cs.equal(in5, root_constant);
        proof {
            assert(cs.inputs@ == d5.inputs@);
            if self.has_witness() {
                assert(e1.value(in1) == digest.value());
                assert(e2.value(in1) == e2.value(program_constant));
                assert(e3.holds_all() == e1.holds_all());
                assert(e4.value(in5) == self.state_root->0.residue());
                assert(e4.value(root_constant) == root.value());
                assert(cs.holds_all() == (e1.holds_all() && self.state_root->0.residue()
                    == root.value()));
                assert(e1.holds_all() == (self.initial_state->0.residues() == encoding_of(
                    initial_machine(VM::GAS_LIMIT as int),
                ) && self.final_state->0.residues() == encoding_of(end)));
            }
        }
    }
}

/// Follows the run of `program` for at most `max_steps` instructions in a
/// fresh constraint system: the variables that stand for the machine at the
/// end of the run, that machine, and the element that stands for its state
/// root.
fn follow_run(program: &Vec<u8>, max_steps: usize, cs: &mut ConstraintSystem) -> (r: Result<
    (Trace, Ghost<Machine>, (FieldElement, FieldElement, FieldElement)),
    SynthesisError,
>)
    requires
        old(cs).wf(),
        old(cs).holds_all(),
        old(cs).assigned(),
        old(cs).inputs@.len() == 1,
        old(cs).skeleton() == (Skeleton { inputs: 1, aux: 0, constraints: Seq::empty() }),
    ensures
        match r {
            Ok((t, end, constants)) => {
                &&& constants.0.canonical()
                &&& constants.0.value() == le_value(end@.state_root) % modulus()
                &&& constants.1.canonical()
                &&& constants.1.value() == digest_of(initial_machine(VM::GAS_LIMIT as int))
                &&& constants.2.canonical()
                &&& constants.2.value() == digest_of(end@)
                &&& circuit_run(
                    program@,
                    initial_machine(VM::GAS_LIMIT as int),
                    max_steps as nat,
                ) == Ok::<Machine, SynthesisError>(end@)
                &&& final(cs).wf()
                &&& final(cs).holds_all()
                &&& final(cs).assigned()
                &&& final(cs).inputs@.len() == 1
                &&& follows(*final(cs), t, end@)
                &&& final(cs).knows(bp_begin().pc) && final(cs).value(bp_begin().pc) == 0
                &&& final(cs).knows(bp_begin().gas) && final(cs).value(bp_begin().gas)
                    == VM::GAS_LIMIT
                &&& blueprint(*final(cs), t) == bp_run(
                    program@,
                    bp_begin(),
                    initial_machine(VM::GAS_LIMIT as int),
                    max_steps as nat,
                )
            },
            Err(e) => circuit_run(
                program@,
                initial_machine(VM::GAS_LIMIT as int),
                max_steps as nat,
            ) == Err::<Machine, SynthesisError>(e),
        },
{
    {
        let pc0 = cs.constant(0);
        let ghost c0 = *cs;
        let gas0 = cs.constant(VM::GAS_LIMIT);
        let mut t = Trace {
            stack: Vec::new(),
            cells: Vec::new(),
            addresses: Vec::new(),
            memory: Vec::new(),
            pc: pc0,
            gas: gas0,
        };
        let mut vm = VM::new(clone_bytes(program));
        let ghost m0 = vm@;
        let first = state_digest(&vm);
        proof {
            c0.lemma_extended_values(cs, pc0);
            assert(m0.written =~= Seq::<usize>::empty());
            assert(encoding_of(m0).stack =~= Seq::<nat>::empty());
            assert(addresses_of(m0) =~= Seq::<nat>::empty());
            assert(values_of(m0) =~= Seq::<nat>::empty());
            assert(follows(*cs, t, m0));
            assert(blueprint(*cs, t) == bp_begin());
        }
        let mut left = max_steps;
        let mut done = false;
        while !done
            invariant
                cs.wf(),
                cs.holds_all(),
                cs.assigned(),
                cs.inputs@.len() == 1,
                vm.wf(),
                vm.program() == program@,
                follows(*cs, t, vm@),
                m0 == initial_machine(VM::GAS_LIMIT as int),
                cs.knows(pc0) && cs.value(pc0) == 0,
                cs.knows(gas0) && cs.value(gas0) == VM::GAS_LIMIT,
                pc0 == bp_begin().pc,
                gas0 == bp_begin().gas,
                !done ==> circuit_run(program@, vm@, left as nat) == circuit_run(
                    program@,
                    m0,
                    max_steps as nat,
                ),
                !done ==> bp_run(program@, blueprint(*cs, t), vm@, left as nat) == bp_run(
                    program@,
                    bp_begin(),
                    m0,
                    max_steps as nat,
                ),
                done ==> circuit_run(program@, m0, max_steps as nat) == Ok::<Machine, SynthesisError>(
                    vm@,
                ),
                done ==> blueprint(*cs, t) == bp_run(
                    program@,
                    bp_begin(),
                    m0,
                    max_steps as nat,
                ),
            decreases left + (if done { 0int } else { 1int }),
        {
            let pc = vm.pc();
            let ghost m = vm@;
            let ghost before = *cs;
            proof {
                vm.lemma_wf();
                vm.lemma_wf_bounds();
            }
            if vm.is_halted() || pc >= program.len() {
                match vm.step() {
                    Ok(true) => {
                        proof {
                            assert(encoding_of(vm@).stack =~= encoding_of(m).stack);
                            assert(addresses_of(vm@) =~= addresses_of(m));
                            assert(values_of(vm@) =~= values_of(m));
                        }
                        done = true;
                    },
                    _ => {
                        return Err(SynthesisError::Unsatisfiable);
                    },
                }
            } else if left == 0 {
                return Err(SynthesisError::Unsatisfiable);
            } else {
                let op = program[pc];
                let mut address: usize = 0;
                let mut exact = false;
                if op == OP_STORE || op == OP_ADD || op == OP_MUL {
                    let values = vm.get_stack();
                    if values.len() > 0 {
                        assert(crate::vm::values_view(values@)[values@.len() - 1]
                            == values@[values@.len() - 1]@);
                        match &values[values.len() - 1] {
                            Value::Int(top) => {
                                if op == OP_STORE {
                                    address = *top as usize;
                                } else if values.len() > 1 {
                                    assert(crate::vm::values_view(values@)[values@.len() - 2]
                                        == values@[values@.len() - 2]@);
                                    match &values[values.len() - 2] {
                                        Value::Int(below) => {
                                            exact = stays_exact(op, *below, *top);
                                        },
                                        _ => {},
                                    }
                                }
                            },
                            _ => {},
                        }
                    }
                }
                match vm.step() {
                    Ok(finished) => {
                        trace_step(cs, &mut t, program, &vm, pc, address, exact, Ghost(m));
                        proof {
                            before.lemma_extended_values(cs, pc0);
                            before.lemma_extended_values(cs, gas0);
                        }
                        left = left - 1;
                        if finished {
                            done = true;
                        }
                    },
                    Err(_) => {
                        return Err(SynthesisError::Unsatisfiable);
                    },
                }
            }
        }
        let root = FieldElement::from_bytes_reduced(vm.get_state_root());
        let last = state_digest(&vm);
        Ok((t, Ghost(vm@), (root, first, last)))
    }
}

/// The element that stands for the digest of the data of a machine.
fn state_digest(vm: &VM) -> (d: FieldElement)
    requires
        vm.wf(),
    ensures
        d.canonical(),
        d.value() == digest_of(vm@),
{
    let st = crate::field_state(vm);
    proof {
        vm.lemma_wf_bounds();
        crate::circuit::agreement::law_encoding_stands_for(st.residues(), vm@);
        lemma_canonical_digest(st, vm@);
    }
    FieldElement::from_bytes_reduced(commit(st.encode().as_slice()))
}

/// The addresses and the values of memory cells, each in a row.
fn split_cells(cells: &Vec<(FieldElement, FieldElement)>) -> (r: (Vec<FieldElement>, Vec<FieldElement>))
    ensures
        r.0@.len() == cells@.len(),
        r.1@.len() == cells@.len(),
        forall|i: int| 0 <= i < cells@.len() ==> r.0@[i] == cells@[i].0 && r.1@[i] == cells@[i].1,
{
    let mut addresses: Vec<FieldElement> = Vec::new();
    let mut values: Vec<FieldElement> = Vec::new();
    let mut i: usize = 0;
    while i < cells.len()
        invariant
            i <= cells.len(),
            addresses@.len() == i,
            values@.len() == i,
            forall|j: int| 0 <= j < i ==> addresses@[j] == cells@[j].0 && values@[j] == cells@[j].1,
        decreases cells.len() - i,
    {
        addresses.push(cells[i].0);
        values.push(cells[i].1);
        i += 1;
    }
    (addresses, values)
}

/// `n` elements that stand for zero.
fn zeros(n: usize) -> (r: Vec<FieldElement>)
    ensures
        r@.len() == n,
        forall|i: int| 0 <= i < n ==> (#[trigger] r@[i]).value() == 0,
{
    let mut r: Vec<FieldElement> = Vec::new();
    let mut i: usize = 0;
    while i < n
        invariant
            i <= n,
            r@.len() == i,
            forall|j: int| 0 <= j < i ==> (#[trigger] r@[j]).value() == 0,
        decreases n - i,
    {
        r.push(FieldElement::zero());
        i += 1;
    }
    r
}

/// The gas used and the gas left add up to the gas there was.
proof fn lemma_gas_adds_up(before: nat, after: nat)
    requires
        before < modulus(),
        after < modulus(),
    ensures
        ((((before - after) % (modulus() as int)) as nat) + after) % modulus() == before,
{
    let q = modulus() as int;
    vstd::arithmetic::div_mod::lemma_small_mod(before, modulus());
    vstd::arithmetic::div_mod::lemma_small_mod(after, modulus());
    vstd::arithmetic::div_mod::lemma_add_mod_noop((before - after) as int, after as int, q);
    vstd::arithmetic::div_mod::lemma_mod_bound((before - after) as int, q);
    assert(((before - after) as int + after as int) == before as int);
}

} // verus!
