//! The circuit and the interpreter agree: the circuit follows the
//! interpreter's run instruction by instruction, and the final state that it
//! accepts is the encoding of the machine at the end of that run.

use crate::circuit::semantics::{FieldState, SynthesisError};
use crate::field::{embed, le_value, modulus};
use crate::hashing::commitment;
use crate::vm::model::{
    advance, gas_cost, initial_machine, int_at, law_step_debits_cost_and_keeps_bounds,
    machine_wf, noted, run, step, Machine, Outcome, Progress, OP_ADD, OP_BALANCE, OP_CALL, OP_CREATE,
    OP_EQ, OP_GT, OP_JUMP, OP_JUMPI, OP_LOAD, OP_LT, OP_MUL, OP_PUSH, OP_RETURN, OP_SHA3, OP_STORE,
};
use crate::vm::root::encode_value;
use crate::vm::value::ValueView;
use vstd::prelude::*;

verus! {

/// The residue that stands for a value: an integer by its residue, a
/// boolean by one or zero, and any other value by the commitment to its
/// bytes, read as a number and reduced.
pub open spec fn residue(v: ValueView) -> nat {
    match v {
        ValueView::Int(i) => embed(i as int),
        ValueView::Bool(b) => if b {
            1nat
        } else {
            0nat
        },
        _ => le_value(commitment(encode_value(v))) % modulus(),
    }
}

/// The residue that stands for a value; every value has one.
pub open spec fn residue_of(v: ValueView) -> Option<nat> {
    Some(residue(v))
}

/// The memory of a machine as pairs of address and value, in the order in
/// which the cells were first written.
pub open spec fn cells_of(m: Machine) -> Seq<(nat, nat)> {
    Seq::new(m.written.len(), |i: int| (m.written[i] as nat, residue(m.memory[m.written[i]])))
}

/// The encoding of the data of a machine in the field: the stack value by
/// value; the memory as pairs of address and value, in the order in which
/// the cells were first written; no storage; the program counter and the
/// gas.
pub open spec fn encoding_of(m: Machine) -> FieldState {
    FieldState {
        stack: Seq::new(m.stack.len(), |i: int| residue(m.stack[i])),
        memory: cells_of(m),
        storage: Seq::empty(),
        pc: m.pc as nat,
        gas: m.gas as nat,
    }
}

/// The field state `f` is the encoding of the data of the machine `m`,
/// said out element by element.
pub open spec fn stands_for(f: FieldState, m: Machine) -> bool {
    &&& f.stack.len() == m.stack.len()
    &&& forall|i: int| 0 <= i < m.stack.len() ==> residue(#[trigger] m.stack[i]) == f.stack[i]
    &&& f.memory.len() == m.written.len()
    &&& forall|i: int|
        0 <= i < m.written.len() ==> (#[trigger] f.memory[i]) == (
            m.written[i] as nat,
            residue(m.memory[m.written[i]]),
        )
    &&& f.storage.len() == 0
    &&& f.pc == m.pc
    &&& f.gas == m.gas
}

/// The encoding of a machine stands for it, and nothing else does.
pub proof fn law_encoding_stands_for(f: FieldState, m: Machine)
    requires
        m.pc >= 0,
        m.gas >= 0,
    ensures
        stands_for(encoding_of(m), m),
        stands_for(f, m) <==> f == encoding_of(m),
{
    let e = encoding_of(m);
    assert(stands_for(e, m));
    if stands_for(f, m) {
        assert forall|i: int| 0 <= i < f.stack.len() implies f.stack[i] == e.stack[i] by {
            assert(residue(m.stack[i]) == f.stack[i]);
        }
        assert(f.stack =~= e.stack);
        assert(f.memory =~= e.memory);
        assert(f.storage =~= e.storage);
    }
}

/// The number of values that an opcode takes from the stack.
pub open spec fn pops(op: u8) -> nat {
    if op == OP_ADD || op == OP_MUL || op == OP_EQ || op == OP_LT || op == OP_GT || op == OP_STORE
        || op == OP_JUMPI || op == OP_CREATE || op == OP_RETURN || op == OP_SHA3 {
        2
    } else if op == OP_LOAD || op == OP_JUMP || op == OP_BALANCE {
        1
    } else if op == OP_CALL {
        3
    } else {
        0
    }
}

/// The number of values that an opcode leaves on the stack.
pub open spec fn pushes(op: u8) -> nat {
    if op == OP_CREATE {
        2
    } else if op == OP_PUSH || op == OP_ADD || op == OP_MUL || op == OP_EQ || op == OP_LT || op
        == OP_GT || op == OP_LOAD || op == OP_SHA3 || op == OP_BALANCE {
        1
    } else {
        0
    }
}

/// The machine after the instruction at the program counter; the machine
/// as it is where the instruction fails.
pub open spec fn after(program: Seq<u8>, m: Machine) -> Machine {
    match step(program, m) {
        Outcome::Next(m2) => m2,
        Outcome::Halt(m2) => m2,
        Outcome::Fail(_) => m,
    }
}

/// The address that a STORE at the program counter writes to.
pub open spec fn store_address(m: Machine) -> usize {
    match int_at(m.stack, 0) {
        Some(a) => a as usize,
        None => 0,
    }
}

/// What an instruction that succeeds does to the data of the machine: it
/// takes `pops` values from the stack and leaves `pushes` new ones on what
/// stays; STORE writes the value below the top to the cell that the top
/// names and takes note of the cell, and no other instruction touches the
/// memory.
pub proof fn law_step_effect(program: Seq<u8>, m: Machine)
    requires
        machine_wf(program, m),
        0 <= m.pc < program.len(),
        !(step(program, m) is Fail),
    ensures
        ({
            let op = program[m.pc];
            let m2 = after(program, m);
            let n = m.stack.len();
            &&& n >= pops(op)
            &&& m2.stack.len() == n - pops(op) + pushes(op)
            &&& forall|i: int| 0 <= i < n - pops(op) ==> #[trigger] m2.stack[i] == m.stack[i]
            &&& m2.memory == (if op == OP_STORE {
                m.memory.insert(store_address(m), m.stack[n - 2])
            } else {
                m.memory
            })
            &&& m2.written == (if op == OP_STORE {
                noted(m.written, store_address(m))
            } else {
                m.written
            })
            &&& m2.gas == m.gas - gas_cost(op)
            &&& 0 <= m2.gas
            &&& 0 <= m2.pc <= program.len()
        }),
{
    law_step_debits_cost_and_keeps_bounds(program, m);
}

/// The instruction at the program counter adds or multiplies two integers,
/// and the result stays within 64 bits.
pub open spec fn exact_here(program: Seq<u8>, m: Machine) -> bool {
    let op = program[m.pc];
    match (int_at(m.stack, 0), int_at(m.stack, 1)) {
        (Some(b), Some(a)) => (op == OP_ADD && i64::MIN <= a + b <= i64::MAX) || (op == OP_MUL
            && i64::MIN <= a * b <= i64::MAX),
        _ => false,
    }
}

/// Residues add and multiply as the integers do.
pub proof fn lemma_residues(a: int, b: int)
    ensures
        embed(a + b) == (embed(a) + embed(b)) % modulus(),
        embed(a * b) == (embed(a) * embed(b)) % modulus(),
{
    let q = modulus() as int;
    vstd::arithmetic::div_mod::lemma_add_mod_noop(a, b, q);
    vstd::arithmetic::div_mod::lemma_mul_mod_noop(a, b, q);
}

/// The run that the circuit follows: `steps` instructions at most, from
/// the state `m`. It ends with the machine at rest; there is no such end
/// where the interpreter fails or has not come to rest after `steps`
/// instructions.
pub open spec fn circuit_run(program: Seq<u8>, m: Machine, steps: nat) -> Result<
    Machine,
    SynthesisError,
>
    decreases steps,
{
    if m.halted || !(0 <= m.pc < program.len()) {
        match advance(program, m) {
            (m2, Progress::Finished) => Ok(m2),
            _ => Err(SynthesisError::Unsatisfiable),
        }
    } else if steps == 0 {
        Err(SynthesisError::Unsatisfiable)
    } else {
        match advance(program, m) {
            (m2, Progress::Running) => circuit_run(program, m2, (steps - 1) as nat),
            (m2, Progress::Finished) => Ok(m2),
            (m2, Progress::Failed(_)) => Err(SynthesisError::Unsatisfiable),
        }
    }
}

/// The end of the run that the circuit follows is the end of the
/// interpreter's run: where the circuit has an end, the interpreter runs
/// the program to that very state without error.
pub proof fn law_circuit_end_is_the_interpreters(program: Seq<u8>, m: Machine, steps: nat)
    requires
        machine_wf(program, m),
        circuit_run(program, m, steps) is Ok,
    ensures
        run(program, m) == (circuit_run(program, m, steps)->Ok_0, None::<
            crate::vm::model::VMErrorView,
        >),
    decreases steps,
{
    if m.halted || !(0 <= m.pc < program.len()) {
    } else if steps == 0 {
    } else {
        law_step_debits_cost_and_keeps_bounds(program, m);
        match advance(program, m) {
            (m2, Progress::Running) => {
                law_circuit_end_is_the_interpreters(program, m2, (steps - 1) as nat);
            },
            _ => {},
        }
    }
}

/// A run never shortens the trace.
pub proof fn lemma_run_keeps_trace(program: Seq<u8>, m: Machine)
    requires
        machine_wf(program, m),
    ensures
        run(program, m).0.trace.len() >= m.trace.len(),
    decreases m.gas,
{
    if !m.halted && 0 <= m.pc < program.len() {
        law_step_debits_cost_and_keeps_bounds(program, m);
        match step(program, m) {
            Outcome::Next(m2) => {
                lemma_run_keeps_trace(program, m2);
            },
            _ => {},
        }
    }
}

/// The end of the interpreter's run is the end of the run that the circuit
/// follows: where the interpreter runs the program from `m` to its end
/// without error and executes `steps` instructions at most on the way, the
/// circuit has that very end.
pub proof fn law_interpreters_end_is_the_circuits(program: Seq<u8>, m: Machine, steps: nat)
    requires
        machine_wf(program, m),
        run(program, m).1 is None,
        run(program, m).0.trace.len() - m.trace.len() <= steps,
    ensures
        circuit_run(program, m, steps) == Ok::<Machine, SynthesisError>(run(program, m).0),
    decreases steps,
{
    if m.halted || !(0 <= m.pc < program.len()) {
    } else {
        law_step_debits_cost_and_keeps_bounds(program, m);
        match step(program, m) {
            Outcome::Next(m2) => {
                lemma_run_keeps_trace(program, m2);
                assert(m2.trace.len() == m.trace.len() + 1);
                law_interpreters_end_is_the_circuits(program, m2, (steps - 1) as nat);
            },
            Outcome::Halt(m2) => {
                assert(m2.trace.len() == m.trace.len() + 1);
            },
            Outcome::Fail(_) => {},
        }
    }
}

/// What the circuit accepts is the interpreter's end, and nothing else:
/// where the run that the circuit follows from a fresh machine has an end,
/// the interpreter runs the program to that end without error, and a final
/// state stands for the machine at that end exactly where it is the
/// encoding that the circuit binds the declared final state to.
pub proof fn law_accepted_state_is_the_interpreters_end(
    program: Seq<u8>,
    max_steps: nat,
    gas: nat,
    declared: FieldState,
)
    requires
        gas <= u64::MAX,
        program.len() <= usize::MAX,
        circuit_run(program, initial_machine(gas as int), max_steps) is Ok,
    ensures
        ({
            let end = circuit_run(program, initial_machine(gas as int), max_steps)->Ok_0;
            &&& run(program, initial_machine(gas as int)) == (
                end,
                None::<crate::vm::model::VMErrorView>,
            )
            &&& stands_for(declared, end) <==> declared == encoding_of(end)
        }),
{
    let m = initial_machine(gas as int);
    assert(m.written =~= Seq::<usize>::empty());
    let end = circuit_run(program, m, max_steps)->Ok_0;
    law_circuit_end_is_the_interpreters(program, m, max_steps);
    crate::vm::model::law_run_keeps_bounds(program, m);
    law_encoding_stands_for(declared, end);
}

} // verus!
