//! A small stack-based virtual machine with gas-metered, deterministic
//! semantics, the constraint system that mirrors its execution, and the
//! bookkeeping around succinct proofs of that execution.

pub mod circuit;
mod clock;
pub mod crypto;
pub mod debug;
pub mod field;
pub mod hashing;
pub mod memory;
pub mod network;
pub mod proving;
pub mod state;
pub mod vm;

use crate::circuit::agreement::{encoding_of, residue_of, stands_for};
use crate::circuit::r1cs::ConstraintSystem;
use crate::circuit::semantics::SynthesisError;
use crate::circuit::{VMCircuit, VMState as FieldVMState};
use crate::field::FieldElement;
use crate::proving::{all_accepted, ProofData, ProofError, ProofSystem};
use crate::vm::model::{run, Machine, TraceStepView};
use crate::vm::value::{Value, ValueView};
use crate::vm::{memory_view, values_view, TraceStep, VMError, VM};
use std::collections::HashMap;
use vstd::prelude::*;

verus! {

/// The number of steps that the circuit of a machine allows for.
pub const MAX_STEPS: usize = 1000;

/// What went wrong, by the part that failed.
#[derive(Debug)]
pub enum ZKVMError {
    VMError(VMError),
    ProofError(ProofError),
    CircuitError(SynthesisError),
    StateError(String),
}

/// One executed instruction as the machine's summary records it.
#[derive(Debug)]
pub struct ExecutionStep {
    pub opcode: u8,
    pub stack_snapshot: Vec<Value>,
    pub memory_snapshot: HashMap<usize, Value>,
    pub gas_cost: u64,
}

impl ExecutionStep {
    /// Whether this record is the summary of the trace step `t`.
    pub open spec fn summarizes(&self, t: TraceStepView) -> bool {
        &&& self.opcode == t.opcode
        &&& values_view(self.stack_snapshot@) == t.stack_snapshot
        &&& memory_view(self.memory_snapshot@) == t.memory_snapshot
        &&& self.gas_cost == t.gas_cost
    }
}

/// The summary of an execution.
#[derive(Debug)]
pub struct VMState {
    pub gas_used: u64,
    pub execution_trace: Vec<ExecutionStep>,
    pub state_root: [u8; 32],
}

impl Default for VMState {
    fn default() -> (r: Self)
        ensures
            r.gas_used == 0,
            r.execution_trace@.len() == 0,
            r.state_root@ == Seq::new(32, |i: int| 0u8),
    {
        let r = VMState { gas_used: 0, execution_trace: Vec::new(), state_root: [0u8; 32] };
        assert(r.state_root@ =~= Seq::new(32, |i: int| 0u8));
        r
    }
}

/// Whether `steps` summarize `trace`, record by record.
pub open spec fn summarize_all(steps: Seq<ExecutionStep>, trace: Seq<TraceStepView>) -> bool {
    steps.len() == trace.len() && forall|i: int|
        0 <= i < steps.len() ==> (#[trigger] steps[i]).summarizes(trace[i])
}

/// The residue that stands for a value: an integer by its residue, a
/// boolean by one or zero, any other value by the commitment to its bytes.
pub open spec fn value_residue(v: ValueView) -> Option<nat> {
    residue_of(v)
}

/// The field element that stands for `v`.
pub fn encode_value(v: &Value) -> (f: FieldElement)
    ensures
        value_residue(v@) == Some(f.value()),
        f.canonical(),
{
    crate::circuit::element_of(v)
}

/// The field elements that stand for the values of a stack.
pub fn encode_stack(stack: &Vec<Value>) -> (elements: Vec<FieldElement>)
    ensures
        elements@.len() == stack@.len(),
        forall|i: int|
            0 <= i < stack@.len() ==> value_residue(stack@[i]@) == Some(
                (#[trigger] elements@[i]).value(),
            ) && elements@[i].canonical(),
{
    let mut elements: Vec<FieldElement> = Vec::new();
    let mut i: usize = 0;
    while i < stack.len()
        invariant
            i <= stack.len(),
            elements@.len() == i,
            forall|j: int|
                0 <= j < i ==> value_residue(stack@[j]@) == Some((#[trigger] elements@[j]).value())
                    && elements@[j].canonical(),
        decreases stack.len() - i,
    {
        elements.push(encode_value(&stack[i]));
        i += 1;
    }
    elements
}

/// The field-encoded state of a machine: the stack value by value, the
/// memory as pairs of address and value in the order in which the cells
/// were first written, no storage, the program counter and the gas, each
/// element in its canonical form.
pub fn field_state(vm: &VM) -> (st: FieldVMState)
    requires
        vm.wf(),
    ensures
        st.canonical(),
        st.residues() == encoding_of(vm@),
        stands_for(st.residues(), vm@),
{
    proof {
        vm.lemma_wf();
        vm.lemma_wf_bounds();
    }
    let values = vm.get_stack();
    let stack = encode_stack(&values);
    proof {
        assert forall|i: int| 0 <= i < vm@.stack.len() implies value_residue(
            #[trigger] vm@.stack[i],
        ) == Some(stack@[i].value()) by {
            assert(vm@.stack[i] == values_view(values@)[i]);
        }
    }
    let memory = vm.get_memory();
    let written = vm.get_written();
    let mut cells: Vec<(FieldElement, FieldElement)> = Vec::new();
    let mut i: usize = 0;
    while i < written.len()
        invariant
            i <= written.len(),
            written@ == vm@.written,
            memory_view(memory@) == vm@.memory,
            crate::vm::model::cells_noted(vm@.memory, vm@.written),
            cells@.len() == i,
            forall|k: int|
                0 <= k < i ==> (#[trigger] cells@[k]).0.value() == vm@.written[k]
                    && cells@[k].0.canonical() && cells@[k].1.value() == crate::circuit::agreement::residue(
                    vm@.memory[vm@.written[k]],
                ) && cells@[k].1.canonical(),
        decreases written.len() - i,
    {
        broadcast use vstd::std_specs::hash::group_hash_axioms;

        let address = written[i];
        assert(vm@.written.contains(vm@.written[i as int]));
        assert(vm@.memory.contains_key(address));
        assert(memory@.contains_key(address));
        match memory.get(&address) {
            Some(v) => {
                assert(vm@.memory[address] == v@);
                cells.push((FieldElement::from_u64(address as u64), encode_value(v)));
            },
            None => {},
        }
        i += 1;
    }
    let pc = FieldElement::from_u64(vm.pc() as u64);
    let gas = FieldElement::from_u64(vm.get_gas_remaining());
    let st = FieldVMState {
        stack,
        memory: cells,
        storage: Vec::new(),
        program_counter: pc,
        gas_remaining: gas,
    };
    proof {
        let f = st.residues();
        let e = encoding_of(vm@);
        assert forall|i: int| 0 <= i < f.stack.len() implies f.stack[i] == e.stack[i] by {
            vstd::arithmetic::div_mod::lemma_small_mod(st.stack@[i].value(), crate::field::modulus());
        }
        assert(f.stack =~= e.stack);
        assert forall|k: int| 0 <= k < f.memory.len() implies f.memory[k] == e.memory[k] by {
            vstd::arithmetic::div_mod::lemma_small_mod(
                st.memory@[k].0.value(),
                crate::field::modulus(),
            );
            vstd::arithmetic::div_mod::lemma_small_mod(
                st.memory@[k].1.value(),
                crate::field::modulus(),
            );
        }
        assert(f.memory =~= e.memory);
        assert(f.storage =~= e.storage);
        vstd::arithmetic::div_mod::lemma_small_mod(pc.value(), crate::field::modulus());
        vstd::arithmetic::div_mod::lemma_small_mod(gas.value(), crate::field::modulus());
        crate::circuit::agreement::law_encoding_stands_for(f, vm@);
    }
    st
}

/// The machine with the proof system for its executions.
pub struct ZKVM {
    vm: VM,
    proof_system: ProofSystem,
    circuit: Option<VMCircuit>,
    state: VMState,
}

impl ZKVM {
    /// The state of the interpreter.
    pub closed spec fn machine(&self) -> Machine {
        self.vm@
    }

    /// The program.
    pub closed spec fn program(&self) -> Seq<u8> {
        self.vm.program()
    }

    /// The summary of the last execution.
    pub closed spec fn summary(&self) -> VMState {
        self.state
    }

    /// The circuit, until a proof has consumed it.
    pub closed spec fn circuit(&self) -> Option<VMCircuit> {
        self.circuit
    }

    /// The proof system.
    pub closed spec fn prover(&self) -> ProofSystem {
        self.proof_system
    }

    pub closed spec fn wf(&self) -> bool {
        &&& self.vm.wf()
        &&& self.vm@.gas <= VM::GAS_LIMIT
        &&& self.proof_system.wf()
        &&& self.circuit matches Some(c) ==> c.program@ == self.vm.program() && c.max_steps
            == MAX_STEPS
    }

    /// A machine for `program`, with the proof system that the setup for
    /// the program's circuit gave the verifying key for. A setup that failed
    /// is handed on as a proof error.
    pub fn new(program: Vec<u8>, setup: Result<Vec<u8>, ProofError>) -> (r: Result<Self, ZKVMError>)
        ensures
            match (setup, r) {
                (Ok(key), Ok(z)) => {
                    &&& z.wf()
                    &&& z.program() == program@
                    &&& z.machine() == crate::vm::model::initial_machine(VM::GAS_LIMIT as int)
                    &&& z.prover().key() == key@
                    &&& z.prover().cached().len() == 0
                    &&& z.prover().capacity() == crate::proving::DEFAULT_CACHE_SIZE
                    &&& z.circuit() matches Some(c) && c.program@ == program@ && c.max_steps
                        == MAX_STEPS && c.initial_state is None && c.final_state is None
                    &&& z.summary().gas_used == 0 && z.summary().execution_trace@.len() == 0
                    &&& z.summary().state_root@ == Seq::new(32, |i: int| 0u8)
                },
                (Err(e), Err(ZKVMError::ProofError(e2))) => e2 == e,
                _ => false,
            },
    {
        let key = match setup {
            Ok(key) => key,
            Err(e) => { return Err(ZKVMError::ProofError(e)); },
        };
        let circuit = VMCircuit::new(crate::vm::value::clone_bytes(&program), MAX_STEPS);
        let vm = VM::new(program);
        Ok(
            ZKVM {
                vm,
                proof_system: ProofSystem::setup(key),
                circuit: Some(circuit),
                state: VMState::default(),
            },
        )
    }

    /// Runs the program and, where it ends without error, takes down the
    /// summary: the gas used, the state root and the trace. An error of the
    /// interpreter is handed on, and the summary stays as it was.
    pub fn execute(&mut self) -> (r: Result<(), ZKVMError>)
        requires
            old(self).wf(),
        ensures
            final(self).wf(),
            final(self).program() == old(self).program(),
            final(self).prover() == old(self).prover(),
            final(self).machine() == run(old(self).program(), old(self).machine()).0,
            final(self).machine().gas <= VM::GAS_LIMIT,
            r is Err || old(self).circuit() is None ==> final(self).circuit() == old(self).circuit(),
            r is Ok && old(self).circuit() is Some ==> (final(self).circuit() matches Some(c)
                && c.has_witness() && c.declares(final(self).machine())),
            match r {
                Ok(()) => {
                    &&& run(old(self).program(), old(self).machine()).1 is None
                    &&& final(self).summary().gas_used == VM::GAS_LIMIT - final(self).machine().gas
                    &&& final(self).summary().state_root@ == final(self).machine().state_root
                    &&& summarize_all(
                        final(self).summary().execution_trace@,
                        final(self).machine().trace,
                    )
                },
                Err(ZKVMError::VMError(e)) => run(old(self).program(), old(self).machine()).1
                    == Some(e@) && final(self).summary() == old(self).summary(),
                Err(_) => false,
            },
    {
        proof {
            self.vm.lemma_wf();
            crate::vm::model::law_run_keeps_bounds(self.vm.program(), self.vm@);
        }
        match self.vm.execute() {
            Ok(()) => {},
            Err(e) => { return Err(ZKVMError::VMError(e)); },
        }
        let remaining = self.vm.get_gas_remaining();
        self.state.gas_used = VM::GAS_LIMIT - remaining;
        self.state.state_root = self.vm.get_state_root();
        let mut trace: Vec<ExecutionStep> = Vec::new();
        let n = self.vm.trace_len();
        let mut i: usize = 0;
        while i < n
            invariant
                i <= n,
                n == self.vm@.trace.len(),
                summarize_all(trace@, self.vm@.trace.take(i as int)),
            decreases n - i,
        {
            match self.vm.trace_step(i) {
                Some(t) => {
                    let TraceStep { opcode, pc_before: _, stack_snapshot, memory_snapshot, gas_cost } =
                        t;
                    trace.push(ExecutionStep { opcode, stack_snapshot, memory_snapshot, gas_cost });
                },
                None => {},
            }
            i += 1;
        }
        assert(self.vm@.trace.take(n as int) =~= self.vm@.trace);
        self.state.execution_trace = trace;
        if self.circuit.is_some() {
            {
                {
                    let fin = field_state(&self.vm);
                    let initial = FieldVMState {
                        stack: Vec::new(),
                        memory: Vec::new(),
                        storage: Vec::new(),
                        program_counter: FieldElement::zero(),
                        gas_remaining: FieldElement::from_u64(VM::GAS_LIMIT),
                    };
                    proof {
                        let f = initial.residues();
                        let fresh = crate::vm::model::initial_machine(VM::GAS_LIMIT as int);
                        assert(fresh.written =~= Seq::<usize>::empty());
                        let g = encoding_of(fresh);
                        vstd::arithmetic::div_mod::lemma_small_mod(0, crate::field::modulus());
                        vstd::arithmetic::div_mod::lemma_small_mod(
                            VM::GAS_LIMIT as nat,
                            crate::field::modulus(),
                        );
                        assert(f.stack =~= g.stack);
                        assert(f.memory =~= g.memory);
                        assert(f.storage =~= g.storage);
                        assert(initial.canonical());
                        crate::circuit::lemma_canonical_digest(initial, fresh);
                        self.vm.lemma_wf_bounds();
                        assert(stands_for(fin.residues(), self.vm@));
                        crate::circuit::agreement::law_encoding_stands_for(
                            fin.residues(),
                            self.vm@,
                        );
                        crate::circuit::lemma_canonical_digest(fin, self.vm@);
                    }
                    let root = FieldElement::from_bytes_reduced(self.state.state_root);
                    proof {
                        vstd::arithmetic::div_mod::lemma_small_mod(
                            root.value(),
                            crate::field::modulus(),
                        );
                    }
                    self.circuit = Some(
                        VMCircuit::with_witness(self.vm.program_bytes(), MAX_STEPS, initial, fin)
                            .with_state_root(root),
                    );
                }
            }
        }
        Ok(())
    }

    /// The constraint system of the circuit, for the prover to work on.
    /// There is none once a proof has consumed the circuit.
    pub fn constraint_system(&self) -> (r: Result<ConstraintSystem, ZKVMError>)
        requires
            self.wf(),
        ensures
            match r {
                Ok(cs) => self.circuit() is Some && ({
                    let c = self.circuit()->0;
                    &&& cs.wf()
                    &&& cs.inputs@.len() == 6
                    &&& cs.assigned() == c.has_witness()
                    &&& cs.skeleton() == crate::circuit::shape_of(c.program@, c.max_steps as nat)
                    &&& c.outcome() is Ok
                    &&& c.has_witness() ==> (cs.satisfied() <==> c.declares(c.outcome()->Ok_0))
                }),
                Err(ZKVMError::StateError(_)) => self.circuit() is None,
                Err(ZKVMError::CircuitError(e)) => self.circuit() matches Some(c) && c.outcome()
                    == Err::<Machine, SynthesisError>(e),
                Err(_) => false,
            },
    {
        match &self.circuit {
            Some(c) => match c.synthesize() {
                Ok(cs) => Ok(cs),
                Err(e) => Err(ZKVMError::CircuitError(e)),
            },
            None => Err(ZKVMError::StateError("Circuit already consumed".to_string())),
        }
    }

    /// Declares the states that the circuit is to prove: the run leads from
    /// `initial` to `final_state`, and the machine's state root goes with
    /// them as a public input.
    pub fn declare_witness(&mut self, initial: FieldVMState, final_state: FieldVMState)
        requires
            old(self).wf(),
        ensures
            final(self).wf(),
            final(self).program() == old(self).program(),
            final(self).machine() == old(self).machine(),
            final(self).prover() == old(self).prover(),
            final(self).summary() == old(self).summary(),
            final(self).circuit() is Some,
            ({
                let c = final(self).circuit()->0;
                &&& c.initial_state == Some(initial)
                &&& c.final_state == Some(final_state)
                &&& c.state_root is Some
                &&& c.state_root->0.value() == crate::field::le_value(
                    old(self).machine().state_root,
                ) % crate::field::modulus()
                &&& c.state_root->0.canonical()
                &&& c.has_witness()
                &&& c.program@ == old(self).program()
                &&& c.max_steps == MAX_STEPS
            }),
    {
        let program = self.vm.program_bytes();
        let root = FieldElement::from_bytes_reduced(self.vm.get_state_root());
        self.circuit = Some(
            VMCircuit::with_witness(program, MAX_STEPS, initial, final_state).with_state_root(root),
        );
    }

    /// Takes in what the prover generated for the circuit, which is
    /// consumed: the proof is bound to the circuit's public inputs and
    /// cached. Without a circuit, or without its witness, nothing is taken
    /// in.
    pub fn generate_proof(&mut self, generated: Result<Vec<u8>, ProofError>) -> (r: Result<
        ProofData,
        ZKVMError,
    >)
        requires
            old(self).wf(),
        ensures
            final(self).wf(),
            final(self).program() == old(self).program(),
            final(self).machine() == old(self).machine(),
            match r {
                Ok(pd) => {
                    &&& old(self).circuit() matches Some(c) && c.has_witness()
                    &&& generated matches Ok(bytes) && pd@.proof == bytes@
                    &&& pd@.public_inputs.len() == 5
                    &&& ({
                        let c = old(self).circuit()->0;
                        &&& crate::field::le_value(pd@.public_inputs[0]) == c.program_digest()
                        &&& crate::field::le_value(pd@.public_inputs[1])
                            == c.initial_state->0.digest()
                        &&& crate::field::le_value(pd@.public_inputs[2])
                            == c.final_state->0.digest()
                        &&& crate::field::le_value(pd@.public_inputs[3]) == (
                        c.initial_state->0.residues().gas - c.final_state->0.residues().gas) % (
                        crate::field::modulus() as int)
                        &&& crate::field::le_value(pd@.public_inputs[4])
                            == c.state_root->0.residue()
                    })
                    &&& pd@.hash == crate::proving::binding_hash(pd@.proof, pd@.public_inputs)
                    &&& final(self).circuit() is None
                    &&& old(self).prover().capacity() > 0 ==> final(self).prover().accepts(pd@)
                },
                Err(ZKVMError::StateError(_)) => old(self).circuit() is None && final(self).prover()
                    == old(self).prover(),
                Err(ZKVMError::CircuitError(e)) => old(self).circuit() matches Some(c)
                    && !c.has_witness() && e == SynthesisError::AssignmentMissing
                        && final(self).prover() == old(self).prover(),
                Err(ZKVMError::ProofError(e)) => generated == Err::<Vec<u8>, ProofError>(e)
                    && final(self).prover().cached() == old(self).prover().cached(),
                Err(_) => false,
            },
    {
        let inputs = match &self.circuit {
            Some(c) => match c.declared_inputs() {
                Some(inputs) => inputs,
                None => { return Err(ZKVMError::CircuitError(SynthesisError::AssignmentMissing)); },
            },
            None => {
                return Err(ZKVMError::StateError("Circuit already consumed".to_string()));
            },
        };
        match self.proof_system.prove(generated, inputs) {
            Ok(pd) => {
                self.circuit = None;
                Ok(pd)
            },
            Err(e) => Err(ZKVMError::ProofError(e)),
        }
    }

    /// The verdict of the proof system on proof data. It is an error
    /// where the verifier has to be asked and the key is no verifying key.
    pub fn verify_proof(&self, proof_data: &ProofData) -> (r: Result<bool, ZKVMError>)
        requires
            self.wf(),
        ensures
            match r {
                Ok(accepted) => !self.prover().lacks_key(proof_data@) && accepted
                    == self.prover().accepts(proof_data@),
                Err(ZKVMError::ProofError(e)) => self.prover().lacks_key(proof_data@) && e@
                    == crate::proving::ProofErrorView::VerifyError(
                    crate::proving::invalid_key_text(),
                ),
                Err(_) => false,
            },
    {
        match self.proof_system.verify(proof_data) {
            Ok(accepted) => Ok(accepted),
            Err(e) => Err(ZKVMError::ProofError(e)),
        }
    }

    /// The conjunction of the verdicts on every one of `proofs`. It is an
    /// error where verifying one of them is.
    pub fn batch_verify(&self, proofs: &Vec<ProofData>) -> (r: Result<bool, ZKVMError>)
        requires
            self.wf(),
        ensures
            match r {
                Ok(accepted) => accepted == all_accepted(
                    self.prover().cached(),
                    self.prover().key(),
                    proofs@,
                ) && forall|i: int|
                    0 <= i < proofs@.len() ==> !self.prover().lacks_key(#[trigger] proofs@[i]@),
                Err(ZKVMError::ProofError(e)) => e@ == crate::proving::ProofErrorView::VerifyError(
                    crate::proving::invalid_key_text(),
                ) && exists|i: int|
                    0 <= i < proofs@.len() && self.prover().lacks_key(#[trigger] proofs@[i]@),
                Err(_) => false,
            },
    {
        match self.proof_system.batch_verify(proofs) {
            Ok(accepted) => Ok(accepted),
            Err(e) => Err(ZKVMError::ProofError(e)),
        }
    }

    /// A copy of the trace of the last execution.
    pub fn get_execution_trace(&self) -> (r: Vec<ExecutionStep>)
        ensures
            r@.len() == self.summary().execution_trace@.len(),
            forall|i: int|
                0 <= i < r@.len() ==> {
                    let a = #[trigger] r@[i];
                    let b = self.summary().execution_trace@[i];
                    a.opcode == b.opcode && a.gas_cost == b.gas_cost && values_view(
                        a.stack_snapshot@,
                    ) == values_view(b.stack_snapshot@) && memory_view(a.memory_snapshot@)
                        == memory_view(b.memory_snapshot@)
                },
    {
        let mut r: Vec<ExecutionStep> = Vec::new();
        let mut i: usize = 0;
        while i < self.state.execution_trace.len()
            invariant
                i <= self.state.execution_trace.len(),
                r@.len() == i,
                forall|j: int|
                    0 <= j < i ==> {
                        let a = #[trigger] r@[j];
                        let b = self.state.execution_trace@[j];
                        a.opcode == b.opcode && a.gas_cost == b.gas_cost && values_view(
                            a.stack_snapshot@,
                        ) == values_view(b.stack_snapshot@) && memory_view(a.memory_snapshot@)
                            == memory_view(b.memory_snapshot@)
                    },
            decreases self.state.execution_trace.len() - i,
        {
            let step = &self.state.execution_trace[i];
            r.push(
                ExecutionStep {
                    opcode: step.opcode,
                    stack_snapshot: crate::vm::clone_values(&step.stack_snapshot),
                    memory_snapshot: step.memory_snapshot.clone(),
                    gas_cost: step.gas_cost,
                },
            );
            i += 1;
        }
        r
    }

    /// The state root of the last execution.
    pub fn get_state_root(&self) -> (r: [u8; 32])
        ensures
            r == self.summary().state_root,
    {
        self.state.state_root
    }

    /// The gas that the last execution used.
    pub fn get_gas_used(&self) -> (r: u64)
        ensures
            r == self.summary().gas_used,
    {
        self.state.gas_used
    }

    /// The interpreter.
    pub fn vm(&self) -> (r: &VM)
        ensures
            r@ == self.machine(),
            r.program() == self.program(),
            self.wf() ==> r.wf(),
    {
        &self.vm
    }
}

} // verus!
