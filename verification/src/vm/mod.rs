//! The bytecode interpreter: gas-metered, deterministic, and fail-stop.

pub mod model;
pub mod root;
pub mod value;

use crate::vm::model::{
    address_not_found_text, gas_cost, CallFrameView, LogView, Machine, TraceStepView, VMErrorView,
    BASE_GAS, CONTRACT_CREATION_GAS, OP_ADD, OP_BALANCE, OP_CALL, OP_CREATE, OP_EQ, OP_GT, OP_JUMP,
    OP_JUMPI, OP_LOAD, OP_LT, OP_MUL, OP_PUSH, OP_RETURN, OP_SHA3, OP_STOP, OP_STORE, STACK_LIMIT,
};
use crate::vm::value::{Storage, Value, ValueView};
use std::collections::{HashMap, VecDeque};
use vstd::prelude::*;

verus! {

broadcast use vstd::std_specs::hash::group_hash_axioms;

/// Why an execution stopped short.
#[derive(Debug)]
pub enum VMError {
    StackUnderflow,
    StackOverflow,
    InvalidOpcode(u8),
    MemoryError(String),
    ExecutionError(String),
    GasLimitExceeded,
    InvalidJumpDestination,
    ContractCreationError(String),
    InvalidStateTransition(String),
}

impl View for VMError {
    type V = VMErrorView;

    open spec fn view(&self) -> VMErrorView {
        match self {
            VMError::StackUnderflow => VMErrorView::StackUnderflow,
            VMError::StackOverflow => VMErrorView::StackOverflow,
            VMError::InvalidOpcode(op) => VMErrorView::InvalidOpcode(*op),
            VMError::MemoryError(s) => VMErrorView::MemoryError(s@),
            VMError::ExecutionError(s) => VMErrorView::ExecutionError(s@),
            VMError::GasLimitExceeded => VMErrorView::GasLimitExceeded,
            VMError::InvalidJumpDestination => VMErrorView::InvalidJumpDestination,
            VMError::ContractCreationError(s) => VMErrorView::ContractCreationError(s@),
            VMError::InvalidStateTransition(s) => VMErrorView::InvalidStateTransition(s@),
        }
    }
}

/// The price list of the machine.
#[derive(Debug)]
pub struct GasConfig {
    pub base: u64,
    pub op_cost: HashMap<u8, u64>,
    pub memory_expansion: u64,
    pub contract_creation: u64,
}

impl GasConfig {
    /// What this price list charges for `op`: its entry, or the base amount
    /// where it has none, and the creation surcharge on top for CREATE.
    pub open spec fn cost_of(&self, op: u8) -> int {
        (if self.op_cost@.contains_key(op) {
            self.op_cost@[op] as int
        } else {
            self.base as int
        }) + (if op == OP_CREATE {
            self.contract_creation as int
        } else {
            0
        })
    }

    /// This price list charges what the machine's semantics say.
    pub open spec fn is_standard(&self) -> bool {
        forall|op: u8| #[trigger] self.cost_of(op) == gas_cost(op)
    }

    /// The gas to charge for `op`: what the price list says, as far as 64
    /// bits hold it.
    pub fn cost(&self, op: u8) -> (c: u64)
        ensures
            c == (if self.cost_of(op) <= u64::MAX {
                self.cost_of(op)
            } else {
                u64::MAX as int
            }),
            self.is_standard() ==> c == gas_cost(op),
    {
        assert(self.is_standard() ==> self.cost_of(op) == gas_cost(op));
        let entry = match self.op_cost.get(&op) {
            Some(c) => *c,
            None => self.base,
        };
        if op == OP_CREATE {
            if entry <= u64::MAX - self.contract_creation {
                entry + self.contract_creation
            } else {
                u64::MAX
            }
        } else {
            entry
        }
    }
}

impl Default for GasConfig {
    fn default() -> (r: Self)
        ensures
            r.is_standard(),
            r.base == BASE_GAS,
            r.memory_expansion == 3,
            r.contract_creation == CONTRACT_CREATION_GAS,
    {
        let mut op_cost: HashMap<u8, u64> = HashMap::new();
        op_cost.insert(OP_PUSH, 3);
        op_cost.insert(OP_ADD, 5);
        op_cost.insert(OP_MUL, 5);
        op_cost.insert(OP_STORE, 20);
        op_cost.insert(OP_LOAD, 20);
        op_cost.insert(OP_JUMP, 8);
        op_cost.insert(OP_JUMPI, 10);
        op_cost.insert(OP_EQ, 3);
        op_cost.insert(OP_LT, 3);
        op_cost.insert(OP_GT, 3);
        op_cost.insert(OP_CREATE, 400);
        op_cost.insert(OP_CALL, 40);
        op_cost.insert(OP_RETURN, 5);
        op_cost.insert(OP_SHA3, 50);
        op_cost.insert(OP_BALANCE, 20);
        op_cost.insert(OP_STOP, 0);
        let r = GasConfig {
            base: BASE_GAS,
            op_cost,
            memory_expansion: 3,
            contract_creation: CONTRACT_CREATION_GAS,
        };
        assert forall|op: u8| #[trigger] r.cost_of(op) == gas_cost(op) by {}
        r
    }
}

/// One activation of a called contract.
#[derive(Debug)]
pub struct CallFrame {
    pub caller: [u8; 32],
    pub address: [u8; 32],
    pub value: u64,
    pub gas_limit: u64,
    pub code: Vec<u8>,
    pub return_data: Vec<u8>,
}

impl View for CallFrame {
    type V = CallFrameView;

    open spec fn view(&self) -> CallFrameView {
        CallFrameView {
            caller: self.caller@,
            address: self.address@,
            value: self.value,
            gas_limit: self.gas_limit,
            code: self.code@,
            return_data: self.return_data@,
        }
    }
}

impl Clone for CallFrame {
    fn clone(&self) -> (r: Self)
        ensures
            r@ == self@,
    {
        CallFrame {
            caller: self.caller,
            address: self.address,
            value: self.value,
            gas_limit: self.gas_limit,
            code: crate::vm::value::clone_bytes(&self.code),
            return_data: crate::vm::value::clone_bytes(&self.return_data),
        }
    }
}

/// An event that a program wrote.
#[derive(Debug)]
pub struct Log {
    pub address: [u8; 32],
    pub topics: Vec<[u8; 32]>,
    pub data: Vec<u8>,
}

impl View for Log {
    type V = LogView;

    open spec fn view(&self) -> LogView {
        LogView {
            address: self.address@,
            topics: Seq::new(self.topics@.len(), |i: int| self.topics@[i]@),
            data: self.data@,
        }
    }
}

impl Clone for Log {
    fn clone(&self) -> (r: Self)
        ensures
            r@ == self@,
    {
        let mut topics: Vec<[u8; 32]> = Vec::new();
        let mut i: usize = 0;
        while i < self.topics.len()
            invariant
                i <= self.topics.len(),
                topics@ == self.topics@.take(i as int),
            decreases self.topics.len() - i,
        {
            topics.push(self.topics[i]);
            i += 1;
            assert(topics@ =~= self.topics@.take(i as int));
        }
        assert(self.topics@.take(self.topics.len() as int) =~= self.topics@);
        let r = Log {
            address: self.address,
            topics,
            data: crate::vm::value::clone_bytes(&self.data),
        };
        assert(r@.topics =~= self@.topics);
        r
    }
}

/// The record of one executed instruction.
#[derive(Debug)]
pub struct TraceStep {
    pub opcode: u8,
    pub pc_before: usize,
    pub stack_snapshot: Vec<Value>,
    pub memory_snapshot: HashMap<usize, Value>,
    pub gas_cost: u64,
}

impl View for TraceStep {
    type V = TraceStepView;

    open spec fn view(&self) -> TraceStepView {
        TraceStepView {
            opcode: self.opcode,
            pc_before: self.pc_before as int,
            stack_snapshot: values_view(self.stack_snapshot@),
            memory_snapshot: memory_view(self.memory_snapshot@),
            gas_cost: self.gas_cost as int,
        }
    }
}

/// The values of a stack, bottom first.
pub open spec fn values_view(s: Seq<Value>) -> Seq<ValueView> {
    Seq::new(s.len(), |i: int| s[i]@)
}

/// The cells of a memory.
pub open spec fn memory_view(m: Map<usize, Value>) -> Map<usize, ValueView> {
    Map::new(|a: usize| m.contains_key(a), |a: usize| m[a]@)
}

pub open spec fn frames_view(s: Seq<CallFrame>) -> Seq<CallFrameView> {
    Seq::new(s.len(), |i: int| s[i]@)
}

pub open spec fn logs_view(s: Seq<Log>) -> Seq<LogView> {
    Seq::new(s.len(), |i: int| s[i]@)
}

pub open spec fn trace_view(s: Seq<TraceStep>) -> Seq<TraceStepView> {
    Seq::new(s.len(), |i: int| s[i]@)
}

/// A copy of a stack, value for value.
pub fn clone_values(s: &Vec<Value>) -> (r: Vec<Value>)
    ensures
        values_view(r@) == values_view(s@),
{
    let mut r: Vec<Value> = Vec::new();
    let mut i: usize = 0;
    while i < s.len()
        invariant
            i <= s.len(),
            r@.len() == i,
            forall|j: int| 0 <= j < i ==> (#[trigger] r@[j])@ == s@[j]@,
        decreases s.len() - i,
    {
        r.push(s[i].clone());
        i += 1;
    }
    assert(values_view(r@) =~= values_view(s@));
    r
}

/// Formats the report of a load from an empty address with std's `format!`.
/// Trusted: the text is the fixed words followed by the address in decimal
/// digits, as std's `Display` for integers writes it.
#[verifier::external_body]
fn address_not_found(addr: usize) -> (text: String)
    ensures
        text@ == address_not_found_text(addr),
{
    format!("Address not found: {}", addr)
}

/// The interpreter's mutable state.
#[derive(Debug)]
pub struct ExecutionContext {
    stack: Vec<Value>,
    memory: HashMap<usize, Value>,
    written: Vec<usize>,
    storage: Storage,
    program_counter: usize,
    gas_remaining: u64,
    gas_config: GasConfig,
    call_stack: VecDeque<CallFrame>,
    state_root: [u8; 32],
    logs: Vec<Log>,
    halted: bool,
    trace: Vec<TraceStep>,
}

impl View for ExecutionContext {
    type V = Machine;

    closed spec fn view(&self) -> Machine {
        Machine {
            stack: values_view(self.stack@),
            memory: memory_view(self.memory@),
            written: self.written@,
            storage: self.storage@,
            pc: self.program_counter as int,
            gas: self.gas_remaining as int,
            call_stack: frames_view(self.call_stack@),
            state_root: self.state_root@,
            logs: logs_view(self.logs@),
            halted: self.halted,
            trace: trace_view(self.trace@),
        }
    }
}

impl ExecutionContext {
    /// The price list is the standard one, storage holds no key twice,
    /// and the cells in use are exactly the cells taken down as written.
    pub closed spec fn wf(&self) -> bool {
        &&& self.gas_config.is_standard()
        &&& self.storage.wf()
        &&& self.stack@.len() <= STACK_LIMIT
        &&& crate::vm::model::cells_noted(self@.memory, self@.written)
    }

    /// A fresh context with `gas_limit` to spend.
    pub fn new(gas_limit: u64) -> (r: Self)
        ensures
            r.wf(),
            r@ == crate::vm::model::initial_machine(gas_limit as int),
    {
        let r = ExecutionContext {
            stack: Vec::with_capacity(STACK_LIMIT),
            memory: HashMap::new(),
            written: Vec::new(),
            storage: Storage::new(),
            program_counter: 0,
            gas_remaining: gas_limit,
            gas_config: GasConfig::default(),
            call_stack: VecDeque::new(),
            state_root: [0u8; 32],
            logs: Vec::new(),
            halted: false,
            trace: Vec::new(),
        };
        proof {
            let m = crate::vm::model::initial_machine(gas_limit as int);
            assert(r@.stack =~= m.stack);
            assert(r@.memory =~= m.memory);
            assert(r@.written =~= m.written);
            assert(r@.call_stack =~= m.call_stack);
            assert(r@.state_root =~= m.state_root);
            assert(r@.logs =~= m.logs);
            assert(r@.trace =~= m.trace);
        }
        r
    }
}

impl ExecutionContext {
    /// The integer `depth` places below the top of the stack, if there is one.
    fn peek_int(&self, depth: usize) -> (r: Option<i64>)
        ensures
            r == crate::vm::model::int_at(self@.stack, depth as int),
    {
        let n = self.stack.len();
        if depth >= n {
            return None;
        }
        match &self.stack[n - 1 - depth] {
            Value::Int(i) => Some(*i),
            _ => None,
        }
    }

    /// The address `depth` places below the top of the stack, if there is one.
    fn peek_address(&self, depth: usize) -> (r: Option<[u8; 32]>)
        ensures
            match r {
                Some(a) => crate::vm::model::address_at(self@.stack, depth as int) == Some(a@),
                None => crate::vm::model::address_at(self@.stack, depth as int) is None,
            },
    {
        let n = self.stack.len();
        if depth >= n {
            return None;
        }
        match &self.stack[n - 1 - depth] {
            Value::Address(a) => Some(*a),
            _ => None,
        }
    }

    /// The condition `depth` places below the top of the stack, if there is
    /// one.
    fn peek_truth(&self, depth: usize) -> (r: Option<bool>)
        ensures
            r == crate::vm::model::truth_at(self@.stack, depth as int),
    {
        let n = self.stack.len();
        if depth >= n {
            return None;
        }
        match &self.stack[n - 1 - depth] {
            Value::Int(i) => Some(*i != 0),
            Value::Bool(b) => Some(*b),
            _ => None,
        }
    }

    /// Puts `v` on top of the stack.
    fn push_value(&mut self, v: Value)
        requires
            old(self)@.stack.len() < STACK_LIMIT,
        ensures
            final(self)@ == (Machine { stack: old(self)@.stack.push(v@), ..old(self)@ }),
            old(self).wf() ==> final(self).wf(),
    {
        self.stack.push(v);
        assert(self@.stack =~= old(self)@.stack.push(v@));
    }

    /// Takes the top value off the stack.
    fn pop_value(&mut self) -> (v: Value)
        requires
            old(self)@.stack.len() > 0,
        ensures
            final(self)@ == (Machine {
                stack: crate::vm::model::popped(old(self)@.stack, 1),
                ..old(self)@
            }),
            v@ == old(self)@.stack.last(),
            old(self).wf() ==> final(self).wf(),
    {
        let v = self.stack.pop().unwrap();
        assert(self@.stack =~= crate::vm::model::popped(old(self)@.stack, 1));
        v
    }

    /// Drops the top `n` values of the stack.
    fn drop_values(&mut self, n: usize)
        requires
            n <= old(self)@.stack.len(),
        ensures
            final(self)@ == (Machine {
                stack: crate::vm::model::popped(old(self)@.stack, n as int),
                ..old(self)@
            }),
            old(self).wf() ==> final(self).wf(),
    {
        let len = self.stack.len();
        self.stack.truncate(len - n);
        assert(self@.stack =~= crate::vm::model::popped(old(self)@.stack, n as int));
    }

    /// Moves the program counter.
    fn set_pc(&mut self, pc: usize)
        ensures
            final(self)@ == (Machine { pc: pc as int, ..old(self)@ }),
            final(self).wf() == old(self).wf(),
    {
        self.program_counter = pc;
    }

    /// Writes `v` to the memory cell `addr`, and takes note of the cell
    /// where it was not in use before.
    fn store_cell(&mut self, addr: usize, v: Value)
        requires
            old(self).wf(),
        ensures
            final(self)@ == (Machine {
                memory: old(self)@.memory.insert(addr, v@),
                written: crate::vm::model::noted(old(self)@.written, addr),
                ..old(self)@
            }),
            final(self).wf(),
    {
        proof {
            crate::vm::model::lemma_noted(old(self)@.memory, old(self)@.written, addr, v@);
            assert(old(self)@.memory.contains_key(addr) == old(self).memory@.contains_key(addr));
        }
        if !self.memory.contains_key(&addr) {
            self.written.push(addr);
        }
        self.memory.insert(addr, v);
        assert(self@.memory =~= old(self)@.memory.insert(addr, v@));
    }

    /// A copy of what the memory cell `addr` holds, if it holds anything.
    fn load_cell(&self, addr: usize) -> (r: Option<Value>)
        ensures
            match r {
                Some(v) => self@.memory.contains_key(addr) && self@.memory[addr] == v@,
                None => !self@.memory.contains_key(addr),
            },
    {
        match self.memory.get(&addr) {
            Some(v) => Some(v.clone()),
            None => None,
        }
    }

    /// The code and balance of the contract that `address` refers to, if
    /// the memory holds one there.
    fn contract_of(&self, address: &[u8; 32]) -> (r: Option<(Vec<u8>, u64)>)
        ensures
            match r {
                Some((code, balance)) => match crate::vm::model::contract_at(
                    self@.memory,
                    address@,
                ) {
                    Some(c) => c.code == code@ && c.balance == balance,
                    None => false,
                },
                None => crate::vm::model::contract_at(self@.memory, address@) is None,
            },
    {
        let cell = address[0] as usize;
        match self.memory.get(&cell) {
            Some(Value::Contract(c)) => {
                assert(self@.memory[cell] == self.memory@[cell]@);
                Some((crate::vm::value::clone_bytes(&c.code), c.balance))
            },
            Some(_) => {
                assert(self@.memory[cell] == self.memory@[cell]@);
                None
            },
            None => None,
        }
    }

    /// Records the instruction that stood at `pc_before` and debits its gas.
    fn settle(&mut self, program: &Vec<u8>, pc_before: usize)
        requires
            pc_before < program.len(),
            old(self).wf(),
            old(self)@.gas >= gas_cost(program@[pc_before as int]),
        ensures
            final(self).wf(),
            final(self)@ == (Machine {
                gas: old(self)@.gas - gas_cost(program@[pc_before as int]),
                trace: old(self)@.trace.push(
                    TraceStepView {
                        opcode: program@[pc_before as int],
                        pc_before: pc_before as int,
                        stack_snapshot: old(self)@.stack,
                        memory_snapshot: old(self)@.memory,
                        gas_cost: gas_cost(program@[pc_before as int]),
                    },
                ),
                ..old(self)@
            }),
    {
        let opcode = program[pc_before];
        let cost = self.gas_config.cost(opcode);
        let record = TraceStep {
            opcode,
            pc_before,
            stack_snapshot: clone_values(&self.stack),
            memory_snapshot: self.memory.clone(),
            gas_cost: cost,
        };
        self.gas_remaining -= cost;
        self.trace.push(record);
        assert(self@.trace =~= old(self)@.trace.push(record@));
    }
}

/// Whether what an instruction did to a context is what `outcome` says:
/// on success the context is the state that the outcome carries, on failure
/// it is as it was and the error is the outcome's.
pub open spec fn agrees(
    outcome: crate::vm::model::Outcome,
    before: Machine,
    after: Machine,
    r: Result<(), VMError>,
) -> bool {
    match r {
        Ok(()) => outcome == crate::vm::model::Outcome::Next(after),
        Err(e) => outcome == crate::vm::model::Outcome::Fail(e@) && after == before,
    }
}

/// A copy of `program[start..start + len]`.
fn copy_window(program: &Vec<u8>, start: usize, len: usize) -> (r: Vec<u8>)
    requires
        start + len <= program.len(),
    ensures
        r@ == program@.subrange(start as int, start + len),
{
    let mut r: Vec<u8> = Vec::new();
    let mut i: usize = 0;
    while i < len
        invariant
            i <= len,
            start + len <= program.len(),
            r@ == program@.subrange(start as int, start + i),
        decreases len - i,
    {
        r.push(program[start + i]);
        i += 1;
        assert(r@ =~= program@.subrange(start as int, start + i));
    }
    r
}

/// Whether `[offset, offset + size)` lies within a program of length `len`.
fn window_in(len: usize, offset: i64, size: i64) -> (r: bool)
    ensures
        r == (0 <= offset && 0 <= size && offset + size <= len),
{
    if offset < 0 || size < 0 {
        return false;
    }
    let o = offset as u64;
    let z = size as u64;
    match o.checked_add(z) {
        Some(end) => end <= len as u64,
        None => false,
    }
}

impl ExecutionContext {
    fn exec_push(&mut self, program: &Vec<u8>) -> (r: Result<(), VMError>)
        requires
            old(self).wf(),
            old(self)@.pc < program.len(),
            old(self)@.gas >= gas_cost(program@[old(self)@.pc]),
        ensures
            final(self).wf(),
            agrees(crate::vm::model::step_push(program@, old(self)@), old(self)@, final(self)@, r),
    {
        let pc = self.program_counter;
        if pc + 1 >= program.len() {
            return Err(VMError::InvalidStateTransition("Missing operand".to_string()));
        }
        if self.stack.len() >= STACK_LIMIT {
            return Err(VMError::StackOverflow);
        }
        self.push_value(Value::Int(program[pc + 1] as i64));
        self.set_pc(pc + 2);
        self.settle(program, pc);
        Ok(())
    }

    fn exec_binary(&mut self, program: &Vec<u8>) -> (r: Result<(), VMError>)
        requires
            old(self).wf(),
            old(self)@.pc < program.len(),
            old(self)@.gas >= gas_cost(program@[old(self)@.pc]),
        ensures
            final(self).wf(),
            agrees(
                crate::vm::model::step_binary(program@, old(self)@),
                old(self)@,
                final(self)@,
                r,
            ),
    {
        let pc = self.program_counter;
        let op = program[pc];
        let (a, b) = match (self.peek_int(1), self.peek_int(0)) {
            (Some(a), Some(b)) => (a, b),
            _ => { return Err(VMError::StackUnderflow); },
        };
        let result = if op == OP_ADD {
            Value::Int(a.wrapping_add(b))
        } else if op == OP_MUL {
            Value::Int(a.wrapping_mul(b))
        } else if op == OP_EQ {
            Value::Bool(a == b)
        } else if op == OP_LT {
            Value::Bool(a < b)
        } else {
            Value::Bool(a > b)
        };
        self.drop_values(2);
        self.push_value(result);
        self.set_pc(pc + 1);
        self.settle(program, pc);
        Ok(())
    }

    fn exec_store(&mut self, program: &Vec<u8>) -> (r: Result<(), VMError>)
        requires
            old(self).wf(),
            old(self)@.pc < program.len(),
            old(self)@.gas >= gas_cost(program@[old(self)@.pc]),
        ensures
            final(self).wf(),
            agrees(crate::vm::model::step_store(program@, old(self)@), old(self)@, final(self)@, r),
    {
        let pc = self.program_counter;
        let addr = match self.peek_int(0) {
            Some(addr) => addr,
            None => { return Err(VMError::StackUnderflow); },
        };
        if self.stack.len() < 2 {
            return Err(VMError::StackUnderflow);
        }
        self.drop_values(1);
        let v = self.pop_value();
        assert(self@.stack =~= crate::vm::model::popped(old(self)@.stack, 2));
        self.store_cell(addr as usize, v);
        self.set_pc(pc + 1);
        self.settle(program, pc);
        Ok(())
    }

    fn exec_load(&mut self, program: &Vec<u8>) -> (r: Result<(), VMError>)
        requires
            old(self).wf(),
            old(self)@.pc < program.len(),
            old(self)@.gas >= gas_cost(program@[old(self)@.pc]),
        ensures
            final(self).wf(),
            agrees(crate::vm::model::step_load(program@, old(self)@), old(self)@, final(self)@, r),
    {
        let pc = self.program_counter;
        let addr = match self.peek_int(0) {
            Some(addr) => addr,
            None => { return Err(VMError::StackUnderflow); },
        };
        let v = match self.load_cell(addr as usize) {
            Some(v) => v,
            None => { return Err(VMError::MemoryError(address_not_found(addr as usize))); },
        };
        self.drop_values(1);
        self.push_value(v);
        self.set_pc(pc + 1);
        self.settle(program, pc);
        Ok(())
    }

    fn exec_jump(&mut self, program: &Vec<u8>) -> (r: Result<(), VMError>)
        requires
            old(self).wf(),
            old(self)@.pc < program.len(),
            old(self)@.gas >= gas_cost(program@[old(self)@.pc]),
        ensures
            final(self).wf(),
            agrees(crate::vm::model::step_jump(program@, old(self)@), old(self)@, final(self)@, r),
    {
        let pc = self.program_counter;
        let dst = match self.peek_int(0) {
            Some(dst) => dst,
            None => { return Err(VMError::StackUnderflow); },
        };
        if dst < 0 || dst as u64 >= program.len() as u64 {
            return Err(VMError::InvalidJumpDestination);
        }
        self.drop_values(1);
        self.set_pc(dst as usize);
        self.settle(program, pc);
        Ok(())
    }

    fn exec_jumpi(&mut self, program: &Vec<u8>) -> (r: Result<(), VMError>)
        requires
            old(self).wf(),
            old(self)@.pc < program.len(),
            old(self)@.gas >= gas_cost(program@[old(self)@.pc]),
        ensures
            final(self).wf(),
            agrees(crate::vm::model::step_jumpi(program@, old(self)@), old(self)@, final(self)@, r),
    {
        let pc = self.program_counter;
        let (dst, cond) = match (self.peek_int(0), self.peek_truth(1)) {
            (Some(dst), Some(cond)) => (dst, cond),
            _ => { return Err(VMError::StackUnderflow); },
        };
        let target = if !cond {
            pc + 1
        } else if dst < 0 || dst as u64 >= program.len() as u64 {
            return Err(VMError::InvalidJumpDestination);
        } else {
            dst as usize
        };
        self.drop_values(2);
        self.set_pc(target);
        self.settle(program, pc);
        Ok(())
    }

    fn exec_create(&mut self, program: &Vec<u8>) -> (r: Result<(), VMError>)
        requires
            old(self).wf(),
            old(self)@.pc < program.len(),
            old(self)@.gas >= gas_cost(program@[old(self)@.pc]),
        ensures
            final(self).wf(),
            agrees(
                crate::vm::model::step_create(program@, old(self)@),
                old(self)@,
                final(self)@,
                r,
            ),
    {
        let pc = self.program_counter;
        let (code_size, balance) = match (self.peek_int(0), self.peek_int(1)) {
            (Some(code_size), Some(balance)) => (code_size, balance),
            _ => { return Err(VMError::StackUnderflow); },
        };
        if code_size < 0 || code_size as u64 > (program.len() - (pc + 1)) as u64 {
            return Err(
                VMError::ContractCreationError("Contract code out of bounds".to_string()),
            );
        }
        let size = code_size as usize;
        let code = copy_window(program, pc + 1, size);
        let address = crate::hashing::commit(code.as_slice());
        let contract = crate::vm::value::ContractData {
            code,
            storage: Storage::new(),
            balance: balance as u64,
        };
        self.drop_values(2);
        self.push_value(Value::Address(address));
        self.push_value(Value::Contract(contract));
        self.set_pc(pc + 1 + size);
        self.settle(program, pc);
        Ok(())
    }

    fn exec_call(&mut self, program: &Vec<u8>) -> (r: Result<(), VMError>)
        requires
            old(self).wf(),
            old(self)@.pc < program.len(),
            old(self)@.gas >= gas_cost(program@[old(self)@.pc]),
        ensures
            final(self).wf(),
            agrees(crate::vm::model::step_call(program@, old(self)@), old(self)@, final(self)@, r),
    {
        let pc = self.program_counter;
        let (address, value, gas_limit) = match (
            self.peek_address(0),
            self.peek_int(1),
            self.peek_int(2),
        ) {
            (Some(address), Some(value), Some(gas_limit)) => (address, value, gas_limit),
            _ => { return Err(VMError::StackUnderflow); },
        };
        let code = match self.contract_of(&address) {
            Some((code, _)) => code,
            None => { return Err(VMError::ExecutionError("Contract not found".to_string())); },
        };
        let frame = CallFrame {
            caller: [0u8; 32],
            address,
            value: value as u64,
            gas_limit: gas_limit as u64,
            code,
            return_data: Vec::new(),
        };
        assert(frame@.caller =~= Seq::new(32, |i: int| 0u8));
        assert(frame@.return_data =~= Seq::<u8>::empty());
        self.drop_values(3);
        self.call_stack.push_back(frame);
        assert(self@.call_stack =~= old(self)@.call_stack.push(frame@));
        self.set_pc(pc + 1);
        self.settle(program, pc);
        Ok(())
    }

    fn exec_return(&mut self, program: &Vec<u8>) -> (r: Result<(), VMError>)
        requires
            old(self).wf(),
            old(self)@.pc < program.len(),
            old(self)@.gas >= gas_cost(program@[old(self)@.pc]),
        ensures
            final(self).wf(),
            agrees(
                crate::vm::model::step_return(program@, old(self)@),
                old(self)@,
                final(self)@,
                r,
            ),
    {
        let pc = self.program_counter;
        let (size, offset) = match (self.peek_int(0), self.peek_int(1)) {
            (Some(size), Some(offset)) => (size, offset),
            _ => { return Err(VMError::StackUnderflow); },
        };
        let frames = self.call_stack.len();
        if frames > 0 {
            if !window_in(program.len(), offset, size) {
                return Err(VMError::MemoryError("Window out of bounds".to_string()));
            }
            let data = copy_window(program, offset as usize, size as usize);
            let top = self.call_stack.pop_back().unwrap();
            let frame = CallFrame { return_data: data, ..top };
            self.call_stack.push_back(frame);
            assert(self@.call_stack =~= old(self)@.call_stack.drop_last().push(frame@));
        }
        self.drop_values(2);
        self.set_pc(pc + 1);
        self.settle(program, pc);
        Ok(())
    }

    fn exec_sha3(&mut self, program: &Vec<u8>) -> (r: Result<(), VMError>)
        requires
            old(self).wf(),
            old(self)@.pc < program.len(),
            old(self)@.gas >= gas_cost(program@[old(self)@.pc]),
        ensures
            final(self).wf(),
            agrees(crate::vm::model::step_sha3(program@, old(self)@), old(self)@, final(self)@, r),
    {
        let pc = self.program_counter;
        let (size, offset) = match (self.peek_int(0), self.peek_int(1)) {
            (Some(size), Some(offset)) => (size, offset),
            _ => { return Err(VMError::StackUnderflow); },
        };
        if !window_in(program.len(), offset, size) {
            return Err(VMError::MemoryError("Window out of bounds".to_string()));
        }
        let window = copy_window(program, offset as usize, size as usize);
        let hash = crate::hashing::commit(window.as_slice());
        let mut bytes: Vec<u8> = Vec::new();
        crate::vm::root::append_bytes(&mut bytes, hash.as_slice());
        assert(bytes@ =~= hash@);
        self.drop_values(2);
        self.push_value(Value::Bytes(bytes));
        self.set_pc(pc + 1);
        self.settle(program, pc);
        Ok(())
    }

    fn exec_balance(&mut self, program: &Vec<u8>) -> (r: Result<(), VMError>)
        requires
            old(self).wf(),
            old(self)@.pc < program.len(),
            old(self)@.gas >= gas_cost(program@[old(self)@.pc]),
        ensures
            final(self).wf(),
            agrees(
                crate::vm::model::step_balance(program@, old(self)@),
                old(self)@,
                final(self)@,
                r,
            ),
    {
        let pc = self.program_counter;
        let address = match self.peek_address(0) {
            Some(address) => address,
            None => { return Err(VMError::StackUnderflow); },
        };
        let balance = match self.contract_of(&address) {
            Some((_, balance)) => balance,
            None => { return Err(VMError::ExecutionError("Contract not found".to_string())); },
        };
        self.drop_values(1);
        self.push_value(Value::Int(balance as i64));
        self.set_pc(pc + 1);
        self.settle(program, pc);
        Ok(())
    }
}

/// What a call of `step` reports, as the model's progress.
pub open spec fn progress_of(r: Result<bool, VMError>) -> crate::vm::model::Progress {
    match r {
        Ok(false) => crate::vm::model::Progress::Running,
        Ok(true) => crate::vm::model::Progress::Finished,
        Err(e) => crate::vm::model::Progress::Failed(e@),
    }
}

impl ExecutionContext {
    /// Executes the instruction at the program counter: `Ok(true)` where it
    /// was STOP, `Ok(false)` where the machine goes on.
    fn exec_instruction(&mut self, program: &Vec<u8>) -> (r: Result<bool, VMError>)
        requires
            old(self).wf(),
            old(self)@.pc < program.len(),
        ensures
            final(self).wf(),
            match r {
                Ok(false) => crate::vm::model::step(program@, old(self)@)
                    == crate::vm::model::Outcome::Next(final(self)@),
                Ok(true) => crate::vm::model::step(program@, old(self)@)
                    == crate::vm::model::Outcome::Halt(final(self)@),
                Err(e) => crate::vm::model::step(program@, old(self)@)
                    == crate::vm::model::Outcome::Fail(e@) && final(self)@ == old(self)@,
            },
    {
        let pc = self.program_counter;
        let op = program[pc];
        if self.gas_remaining < self.gas_config.cost(op) {
            return Err(VMError::GasLimitExceeded);
        }
        let done = if op == OP_PUSH {
            self.exec_push(program)
        } else if op == OP_ADD || op == OP_MUL || op == OP_EQ || op == OP_LT || op == OP_GT {
            self.exec_binary(program)
        } else if op == OP_STORE {
            self.exec_store(program)
        } else if op == OP_LOAD {
            self.exec_load(program)
        } else if op == OP_JUMP {
            self.exec_jump(program)
        } else if op == OP_JUMPI {
            self.exec_jumpi(program)
        } else if op == OP_CREATE {
            self.exec_create(program)
        } else if op == OP_CALL {
            self.exec_call(program)
        } else if op == OP_RETURN {
            self.exec_return(program)
        } else if op == OP_SHA3 {
            self.exec_sha3(program)
        } else if op == OP_BALANCE {
            self.exec_balance(program)
        } else if op == OP_STOP {
            self.set_pc(pc + 1);
            self.settle(program, pc);
            return Ok(true);
        } else {
            return Err(VMError::InvalidOpcode(op));
        };
        match done {
            Ok(()) => Ok(false),
            Err(e) => Err(e),
        }
    }

    /// Brings the machine to rest: computes the state root and closes the
    /// context.
    fn compute_state_root(&mut self)
        requires
            old(self).wf(),
        ensures
            final(self).wf(),
            final(self)@ == crate::vm::model::finished(old(self)@),
    {
        self.state_root = crate::vm::root::compute_state_root(&self.storage, &self.logs);
        self.halted = true;
    }
}

/// The interpreter: a program and the context it runs in.
#[derive(Debug)]
pub struct VM {
    context: ExecutionContext,
    program: Vec<u8>,
}

impl View for VM {
    type V = Machine;

    closed spec fn view(&self) -> Machine {
        self.context@
    }
}

impl VM {
    /// The gas that a new machine has to spend.
    pub const GAS_LIMIT: u64 = 1_000_000;

    /// The program of this machine.
    pub closed spec fn program(&self) -> Seq<u8> {
        self.program@
    }

    /// The machine is within its bounds.
    pub closed spec fn wf(&self) -> bool {
        &&& self.context.wf()
        &&& crate::vm::model::machine_wf(self.program@, self.context@)
    }

    /// What `wf` says of the machine's state.
    pub proof fn lemma_wf(&self)
        requires
            self.wf(),
        ensures
            crate::vm::model::machine_wf(self.program(), self@),
    {
    }

    /// The program counter and the gas of a machine fit their types.
    pub proof fn lemma_wf_bounds(&self)
        ensures
            0 <= self@.pc <= usize::MAX,
            0 <= self@.gas <= u64::MAX,
    {
    }

    /// A machine that is about to run `program`.
    pub fn new(program: Vec<u8>) -> (vm: Self)
        ensures
            vm.wf(),
            vm.program() == program@,
            vm@ == crate::vm::model::initial_machine(VM::GAS_LIMIT as int),
    {
        VM { context: ExecutionContext::new(VM::GAS_LIMIT), program }
    }

    /// Makes one move: executes the instruction at the program counter, or
    /// brings the machine to rest where the program counter has left the
    /// program. `Ok(true)` says that the machine came to rest, `Ok(false)`
    /// that it goes on. On an error the machine is as it was.
    pub fn step(&mut self) -> (r: Result<bool, VMError>)
        requires
            old(self).wf(),
        ensures
            final(self).wf(),
            final(self).program() == old(self).program(),
            (final(self)@, progress_of(r)) == crate::vm::model::advance(
                old(self).program(),
                old(self)@,
            ),
    {
        if self.context.halted {
            return Err(VMError::InvalidStateTransition("Execution already finished".to_string()));
        }
        if self.context.program_counter >= self.program.len() {
            self.context.compute_state_root();
            return Ok(true);
        }
        proof {
            crate::vm::model::law_step_debits_cost_and_keeps_bounds(self.program@, self.context@);
        }
        match self.context.exec_instruction(&self.program) {
            Ok(true) => {
                self.context.compute_state_root();
                Ok(true)
            },
            Ok(false) => Ok(false),
            Err(e) => Err(e),
        }
    }

    /// Runs the program until it halts or fails. On success the machine is
    /// at rest, and its state root commits to storage and logs. On an error
    /// the machine is in the state in which the failing instruction found
    /// it.
    pub fn execute(&mut self) -> (r: Result<(), VMError>)
        requires
            old(self).wf(),
        ensures
            final(self).wf(),
            final(self).program() == old(self).program(),
            final(self)@ == crate::vm::model::run(old(self).program(), old(self)@).0,
            match r {
                Ok(()) => crate::vm::model::run(old(self).program(), old(self)@).1 is None,
                Err(e) => crate::vm::model::run(old(self).program(), old(self)@).1 == Some(e@),
            },
    {
        loop
            invariant
                self.wf(),
                self.program() == old(self).program(),
                crate::vm::model::run(self.program(), self@) == crate::vm::model::run(
                    old(self).program(),
                    old(self)@,
                ),
            decreases self.context.gas_remaining,
        {
            let ghost before = self@;
            proof {
                if !before.halted && before.pc < self.program@.len() {
                    crate::vm::model::law_step_debits_cost_and_keeps_bounds(self.program@, before);
                }
            }
            match self.step() {
                Ok(true) => {
                    return Ok(());
                },
                Ok(false) => {},
                Err(e) => {
                    return Err(e);
                },
            }
        }
    }

    /// A copy of the program.
    pub fn program_bytes(&self) -> (r: Vec<u8>)
        ensures
            r@ == self.program(),
    {
        crate::vm::value::clone_bytes(&self.program)
    }

    /// A copy of the operand stack, bottom first.
    pub fn get_stack(&self) -> (r: Vec<Value>)
        ensures
            values_view(r@) == self@.stack,
    {
        clone_values(&self.context.stack)
    }

    /// The addresses of the memory cells in use, in the order in which they
    /// were first written.
    pub fn get_written(&self) -> (r: Vec<usize>)
        ensures
            r@ == self@.written,
    {
        self.context.written.clone()
    }

    /// A copy of the memory.
    pub fn get_memory(&self) -> (r: HashMap<usize, Value>)
        ensures
            memory_view(r@) == self@.memory,
    {
        self.context.memory.clone()
    }

    /// A copy of the storage.
    pub fn get_storage(&self) -> (r: Storage)
        ensures
            r@ == self@.storage,
    {
        self.context.storage.clone()
    }

    /// The state root: all zero until the machine has come to rest.
    pub fn get_state_root(&self) -> (r: [u8; 32])
        ensures
            r@ == self@.state_root,
    {
        self.context.state_root
    }

    /// A copy of the logs, oldest first.
    pub fn get_logs(&self) -> (r: Vec<Log>)
        ensures
            logs_view(r@) == self@.logs,
    {
        let mut r: Vec<Log> = Vec::new();
        let mut i: usize = 0;
        while i < self.context.logs.len()
            invariant
                i <= self.context.logs.len(),
                r@.len() == i,
                forall|j: int| 0 <= j < i ==> (#[trigger] r@[j])@ == self.context.logs@[j]@,
            decreases self.context.logs.len() - i,
        {
            r.push(self.context.logs[i].clone());
            i += 1;
        }
        assert(logs_view(r@) =~= logs_view(self.context.logs@));
        r
    }

    /// The gas that is left.
    pub fn get_gas_remaining(&self) -> (r: u64)
        ensures
            r == self@.gas,
    {
        self.context.gas_remaining
    }

    /// A copy of the call stack, outermost frame first.
    pub fn get_call_frames(&self) -> (r: Vec<CallFrame>)
        ensures
            frames_view(r@) == self@.call_stack,
    {
        let mut r: Vec<CallFrame> = Vec::new();
        let mut i: usize = 0;
        while i < self.context.call_stack.len()
            invariant
                i <= self.context.call_stack.len(),
                r@.len() == i,
                forall|j: int| 0 <= j < i ==> (#[trigger] r@[j])@ == self.context.call_stack@[j]@,
            decreases self.context.call_stack.len() - i,
        {
            r.push(self.context.call_stack[i].clone());
            i += 1;
        }
        assert(frames_view(r@) =~= frames_view(self.context.call_stack@));
        r
    }

    /// The program counter.
    pub fn pc(&self) -> (r: usize)
        ensures
            r == self@.pc,
    {
        self.context.program_counter
    }

    /// The byte at the program counter, or zero where the program counter
    /// has left the program.
    pub fn current_opcode(&self) -> (r: u8)
        ensures
            r == (if 0 <= self@.pc < self.program().len() {
                self.program()[self@.pc]
            } else {
                0u8
            }),
    {
        if self.context.program_counter < self.program.len() {
            self.program[self.context.program_counter]
        } else {
            0
        }
    }

    /// The number of values on the stack.
    pub fn stack_depth(&self) -> (r: usize)
        ensures
            r == self@.stack.len(),
    {
        self.context.stack.len()
    }

    /// Whether the machine has come to rest.
    pub fn is_halted(&self) -> (r: bool)
        ensures
            r == self@.halted,
    {
        self.context.halted
    }

    /// The number of instructions recorded so far.
    pub fn trace_len(&self) -> (n: usize)
        ensures
            n == self@.trace.len(),
    {
        self.context.trace.len()
    }

    /// A copy of the `index`-th record of the trace, if there are that many.
    pub fn trace_step(&self, index: usize) -> (r: Option<TraceStep>)
        ensures
            match r {
                Some(t) => index < self@.trace.len() && t@ == self@.trace[index as int],
                None => index >= self@.trace.len(),
            },
    {
        if index >= self.context.trace.len() {
            return None;
        }
        let t = &self.context.trace[index];
        Some(
            TraceStep {
                opcode: t.opcode,
                pc_before: t.pc_before,
                stack_snapshot: clone_values(&t.stack_snapshot),
                memory_snapshot: t.memory_snapshot.clone(),
                gas_cost: t.gas_cost,
            },
        )
    }
}

} // verus!
