//! The machine as a mathematical object: its state, the effect of each
//! opcode on it, and the meaning of running a program to its end.

use crate::hashing::commitment;
use crate::vm::root::state_root_of;
use crate::vm::value::{ContractView, ValueView};
use vstd::prelude::*;

verus! {

/// The largest number of values the operand stack may hold.
pub const STACK_LIMIT: usize = 1024;

pub const OP_PUSH: u8 = 0x01;

pub const OP_ADD: u8 = 0x02;

pub const OP_MUL: u8 = 0x03;

pub const OP_STORE: u8 = 0x04;

pub const OP_LOAD: u8 = 0x05;

pub const OP_JUMP: u8 = 0x06;

pub const OP_JUMPI: u8 = 0x07;

pub const OP_EQ: u8 = 0x08;

pub const OP_LT: u8 = 0x09;

pub const OP_GT: u8 = 0x0A;

pub const OP_CREATE: u8 = 0x0B;

pub const OP_CALL: u8 = 0x0C;

pub const OP_RETURN: u8 = 0x0D;

pub const OP_SHA3: u8 = 0x0E;

pub const OP_BALANCE: u8 = 0x0F;

pub const OP_STOP: u8 = 0xFF;

/// The gas charged for an opcode that has no entry of its own.
pub const BASE_GAS: u64 = 2;

/// The surcharge for creating a contract, on top of the opcode's own entry.
pub const CONTRACT_CREATION_GAS: u64 = 32000;

/// What an interpreter error is, mathematically.
pub enum VMErrorView {
    StackUnderflow,
    StackOverflow,
    InvalidOpcode(u8),
    MemoryError(Seq<char>),
    ExecutionError(Seq<char>),
    GasLimitExceeded,
    InvalidJumpDestination,
    ContractCreationError(Seq<char>),
    InvalidStateTransition(Seq<char>),
}

pub struct CallFrameView {
    pub caller: Seq<u8>,
    pub address: Seq<u8>,
    pub value: u64,
    pub gas_limit: u64,
    pub code: Seq<u8>,
    pub return_data: Seq<u8>,
}

pub struct LogView {
    pub address: Seq<u8>,
    pub topics: Seq<Seq<u8>>,
    pub data: Seq<u8>,
}

/// The record of one executed instruction. The snapshots show the stack and
/// the memory as the instruction left them.
pub struct TraceStepView {
    pub opcode: u8,
    pub pc_before: int,
    pub stack_snapshot: Seq<ValueView>,
    pub memory_snapshot: Map<usize, ValueView>,
    pub gas_cost: int,
}

/// The whole state of the machine.
pub struct Machine {
    pub stack: Seq<ValueView>,
    pub memory: Map<usize, ValueView>,
    /// The addresses of the memory cells in use, in the order in which they
    /// were first written.
    pub written: Seq<usize>,
    pub storage: Map<Seq<u8>, ValueView>,
    pub pc: int,
    pub gas: int,
    pub call_stack: Seq<CallFrameView>,
    pub state_root: Seq<u8>,
    pub logs: Seq<LogView>,
    pub halted: bool,
    pub trace: Seq<TraceStepView>,
}

/// What one instruction does: it leaves a new state and goes on, it leaves a
/// new state and halts, or it fails and leaves the state as it was.
pub enum Outcome {
    Next(Machine),
    Halt(Machine),
    Fail(VMErrorView),
}

/// The character of a decimal digit.
pub open spec fn digit(d: nat) -> char {
    if d == 0 {
        '0'
    } else if d == 1 {
        '1'
    } else if d == 2 {
        '2'
    } else if d == 3 {
        '3'
    } else if d == 4 {
        '4'
    } else if d == 5 {
        '5'
    } else if d == 6 {
        '6'
    } else if d == 7 {
        '7'
    } else if d == 8 {
        '8'
    } else {
        '9'
    }
}

/// A number in decimal digits, without leading zeros.
pub open spec fn decimal(n: nat) -> Seq<char>
    decreases n,
{
    if n < 10 {
        seq![digit(n)]
    } else {
        decimal(n / 10).push(digit(n % 10))
    }
}

/// The text that reports a load from an address that holds nothing.
pub open spec fn address_not_found_text(addr: usize) -> Seq<char> {
    "Address not found: "@ + decimal(addr as nat)
}

/// The gas that an opcode costs. Creating a contract costs its entry and the
/// creation surcharge; stopping is free; a byte that is no opcode costs the
/// base amount.
pub open spec fn gas_cost(op: u8) -> int {
    if op == OP_PUSH {
        3
    } else if op == OP_ADD {
        5
    } else if op == OP_MUL {
        5
    } else if op == OP_STORE {
        20
    } else if op == OP_LOAD {
        20
    } else if op == OP_JUMP {
        8
    } else if op == OP_JUMPI {
        10
    } else if op == OP_EQ {
        3
    } else if op == OP_LT {
        3
    } else if op == OP_GT {
        3
    } else if op == OP_CREATE {
        400 + CONTRACT_CREATION_GAS
    } else if op == OP_CALL {
        40
    } else if op == OP_RETURN {
        5
    } else if op == OP_SHA3 {
        50
    } else if op == OP_BALANCE {
        20
    } else if op == OP_STOP {
        0
    } else {
        BASE_GAS as int
    }
}

/// The machine before the first instruction, with `gas` to spend.
pub open spec fn initial_machine(gas: int) -> Machine {
    Machine {
        stack: Seq::empty(),
        memory: Map::empty(),
        written: Seq::empty(),
        storage: Map::empty(),
        pc: 0,
        gas,
        call_stack: Seq::empty(),
        state_root: Seq::new(32, |i: int| 0u8),
        logs: Seq::empty(),
        halted: false,
        trace: Seq::empty(),
    }
}

/// What must hold of a machine between instructions of `program`.
pub open spec fn machine_wf(program: Seq<u8>, m: Machine) -> bool {
    &&& m.stack.len() <= STACK_LIMIT
    &&& 0 <= m.pc <= program.len()
    &&& 0 <= m.gas <= u64::MAX
    &&& forall|i: int|
        0 <= i < m.trace.len() ==> (#[trigger] m.trace[i]).stack_snapshot.len() <= STACK_LIMIT
    &&& cells_noted(m.memory, m.written)
}

/// The cells in use are exactly the cells that were written, each taken
/// down once.
pub open spec fn cells_noted(memory: Map<usize, ValueView>, written: Seq<usize>) -> bool {
    &&& written.no_duplicates()
    &&& forall|a: usize| #[trigger] memory.contains_key(a) <==> written.contains(a)
}

/// The addresses in use once the cell `addr` was written: a cell written
/// for the first time joins at the end.
pub open spec fn noted(written: Seq<usize>, addr: usize) -> Seq<usize> {
    if written.contains(addr) {
        written
    } else {
        written.push(addr)
    }
}

/// Writing to a cell keeps the record of the cells in use in order.
pub proof fn lemma_noted(memory: Map<usize, ValueView>, written: Seq<usize>, addr: usize, v: ValueView)
    requires
        cells_noted(memory, written),
    ensures
        cells_noted(memory.insert(addr, v), noted(written, addr)),
        noted(written, addr).contains(addr),
{
    let after = noted(written, addr);
    if written.contains(addr) {
        assert forall|a: usize| #[trigger]
            memory.insert(addr, v).contains_key(a) <==> after.contains(a) by {
            if a != addr {
                assert(memory.contains_key(a) <==> written.contains(a));
            }
        }
    } else {
        assert(after[written.len() as int] == addr);
        assert forall|i: int, j: int| 0 <= i < after.len() && 0 <= j < after.len() && i != j implies
            after[i] != after[j] by {
            if i < written.len() && j < written.len() {
                assert(written[i] != written[j]);
            } else if i < written.len() {
                assert(written.contains(written[i]));
            } else {
                assert(written.contains(written[j]));
            }
        }
        assert forall|a: usize| #[trigger]
            memory.insert(addr, v).contains_key(a) <==> after.contains(a) by {
            if after.contains(a) {
                let i = choose|i: int| 0 <= i < after.len() && after[i] == a;
                if i < written.len() {
                    assert(written[i] == a);
                    assert(written.contains(a));
                    assert(memory.contains_key(a));
                }
            }
            if memory.insert(addr, v).contains_key(a) && a != addr {
                assert(memory.contains_key(a));
                assert(written.contains(a));
                let i = choose|i: int| 0 <= i < written.len() && written[i] == a;
                assert(after[i] == a);
            }
        }
    }
}

/// The value `depth` places below the top of the stack, if the stack is that
/// deep.
pub open spec fn value_at(s: Seq<ValueView>, depth: int) -> Option<ValueView> {
    if 0 <= depth < s.len() {
        Some(s[s.len() - 1 - depth])
    } else {
        None
    }
}

/// The integer `depth` places below the top, if there is an integer there.
pub open spec fn int_at(s: Seq<ValueView>, depth: int) -> Option<i64> {
    match value_at(s, depth) {
        Some(ValueView::Int(i)) => Some(i),
        _ => None,
    }
}

/// The address `depth` places below the top, if there is an address there.
pub open spec fn address_at(s: Seq<ValueView>, depth: int) -> Option<Seq<u8>> {
    match value_at(s, depth) {
        Some(ValueView::Address(a)) => Some(a),
        _ => None,
    }
}

/// The condition `depth` places below the top: a boolean, or an integer
/// read as "not zero".
pub open spec fn truth_at(s: Seq<ValueView>, depth: int) -> Option<bool> {
    match value_at(s, depth) {
        Some(ValueView::Int(i)) => Some(i != 0),
        Some(ValueView::Bool(b)) => Some(b),
        _ => None,
    }
}

/// The stack without its top `n` values.
pub open spec fn popped(s: Seq<ValueView>, n: int) -> Seq<ValueView> {
    s.take(s.len() - n)
}

/// The contract that an address refers to: the one held in the memory cell
/// numbered by the address's first byte.
pub open spec fn contract_at(memory: Map<usize, ValueView>, address: Seq<u8>) -> Option<
    ContractView,
> {
    if address.len() > 0 && memory.contains_key(address[0] as usize) {
        match memory[address[0] as usize] {
            ValueView::Contract(c) => Some(c),
            _ => None,
        }
    } else {
        None
    }
}

/// Whether `[offset, offset + size)` lies within the program.
pub open spec fn window_ok(program: Seq<u8>, offset: int, size: int) -> bool {
    0 <= offset && 0 <= size && offset + size <= program.len()
}

pub open spec fn missing_operand_text() -> Seq<char> {
    "Missing operand"@
}

pub open spec fn contract_not_found_text() -> Seq<char> {
    "Contract not found"@
}

pub open spec fn code_out_of_bounds_text() -> Seq<char> {
    "Contract code out of bounds"@
}

pub open spec fn window_out_of_bounds_text() -> Seq<char> {
    "Window out of bounds"@
}

pub open spec fn already_finished_text() -> Seq<char> {
    "Execution already finished"@
}

/// The state after an instruction that succeeded: `next` carries the new
/// stack, memory, call stack and program counter; the gas is debited and the
/// instruction recorded.
pub open spec fn settled(program: Seq<u8>, m: Machine, next: Machine) -> Machine {
    let op = program[m.pc];
    Machine {
        gas: m.gas - gas_cost(op),
        trace: m.trace.push(
            TraceStepView {
                opcode: op,
                pc_before: m.pc,
                stack_snapshot: next.stack,
                memory_snapshot: next.memory,
                gas_cost: gas_cost(op),
            },
        ),
        ..next
    }
}

pub open spec fn step_push(program: Seq<u8>, m: Machine) -> Outcome {
    if m.pc + 1 >= program.len() {
        Outcome::Fail(VMErrorView::InvalidStateTransition(missing_operand_text()))
    } else if m.stack.len() >= STACK_LIMIT {
        Outcome::Fail(VMErrorView::StackOverflow)
    } else {
        Outcome::Next(
            settled(
                program,
                m,
                Machine {
                    stack: m.stack.push(ValueView::Int(program[m.pc + 1] as i64)),
                    pc: m.pc + 2,
                    ..m
                },
            ),
        )
    }
}

/// The result of a two-operand instruction on integers `a` (below) and `b`
/// (on top).
pub open spec fn binary_result(op: u8, a: i64, b: i64) -> ValueView {
    if op == OP_ADD {
        ValueView::Int(a.wrapping_add(b))
    } else if op == OP_MUL {
        ValueView::Int(a.wrapping_mul(b))
    } else if op == OP_EQ {
        ValueView::Bool(a == b)
    } else if op == OP_LT {
        ValueView::Bool(a < b)
    } else {
        ValueView::Bool(a > b)
    }
}

/// ADD, MUL, EQ, LT and GT.
pub open spec fn step_binary(program: Seq<u8>, m: Machine) -> Outcome {
    match (int_at(m.stack, 0), int_at(m.stack, 1)) {
        (Some(b), Some(a)) => Outcome::Next(
            settled(
                program,
                m,
                Machine {
                    stack: popped(m.stack, 2).push(binary_result(program[m.pc], a, b)),
                    pc: m.pc + 1,
                    ..m
                },
            ),
        ),
        _ => Outcome::Fail(VMErrorView::StackUnderflow),
    }
}

pub open spec fn step_store(program: Seq<u8>, m: Machine) -> Outcome {
    match (int_at(m.stack, 0), value_at(m.stack, 1)) {
        (Some(addr), Some(v)) => Outcome::Next(
            settled(
                program,
                m,
                Machine {
                    stack: popped(m.stack, 2),
                    memory: m.memory.insert(addr as usize, v),
                    written: noted(m.written, addr as usize),
                    pc: m.pc + 1,
                    ..m
                },
            ),
        ),
        _ => Outcome::Fail(VMErrorView::StackUnderflow),
    }
}

pub open spec fn step_load(program: Seq<u8>, m: Machine) -> Outcome {
    match int_at(m.stack, 0) {
        Some(addr) => if m.memory.contains_key(addr as usize) {
            Outcome::Next(
                settled(
                    program,
                    m,
                    Machine {
                        stack: popped(m.stack, 1).push(m.memory[addr as usize]),
                        pc: m.pc + 1,
                        ..m
                    },
                ),
            )
        } else {
            Outcome::Fail(VMErrorView::MemoryError(address_not_found_text(addr as usize)))
        },
        None => Outcome::Fail(VMErrorView::StackUnderflow),
    }
}

/// A jump may land on any byte of the program.
pub open spec fn jump_ok(program: Seq<u8>, dst: i64) -> bool {
    0 <= dst < program.len()
}

pub open spec fn step_jump(program: Seq<u8>, m: Machine) -> Outcome {
    match int_at(m.stack, 0) {
        Some(dst) => if jump_ok(program, dst) {
            Outcome::Next(
                settled(program, m, Machine { stack: popped(m.stack, 1), pc: dst as int, ..m }),
            )
        } else {
            Outcome::Fail(VMErrorView::InvalidJumpDestination)
        },
        None => Outcome::Fail(VMErrorView::StackUnderflow),
    }
}

pub open spec fn step_jumpi(program: Seq<u8>, m: Machine) -> Outcome {
    match (int_at(m.stack, 0), truth_at(m.stack, 1)) {
        (Some(dst), Some(cond)) => if !cond {
            Outcome::Next(
                settled(program, m, Machine { stack: popped(m.stack, 2), pc: m.pc + 1, ..m }),
            )
        } else if jump_ok(program, dst) {
            Outcome::Next(
                settled(program, m, Machine { stack: popped(m.stack, 2), pc: dst as int, ..m }),
            )
        } else {
            Outcome::Fail(VMErrorView::InvalidJumpDestination)
        },
        _ => Outcome::Fail(VMErrorView::StackUnderflow),
    }
}

pub open spec fn step_create(program: Seq<u8>, m: Machine) -> Outcome {
    match (int_at(m.stack, 0), int_at(m.stack, 1)) {
        (Some(code_size), Some(balance)) => if window_ok(program, m.pc + 1, code_size as int) {
            let code = program.subrange(m.pc + 1, m.pc + 1 + code_size);
            let contract = ContractView { code, storage: Map::empty(), balance: balance as u64 };
            Outcome::Next(
                settled(
                    program,
                    m,
                    Machine {
                        stack: popped(m.stack, 2).push(ValueView::Address(commitment(code))).push(
                            ValueView::Contract(contract),
                        ),
                        pc: m.pc + 1 + code_size,
                        ..m
                    },
                ),
            )
        } else {
            Outcome::Fail(VMErrorView::ContractCreationError(code_out_of_bounds_text()))
        },
        _ => Outcome::Fail(VMErrorView::StackUnderflow),
    }
}

pub open spec fn step_call(program: Seq<u8>, m: Machine) -> Outcome {
    match (address_at(m.stack, 0), int_at(m.stack, 1), int_at(m.stack, 2)) {
        (Some(address), Some(value), Some(gas_limit)) => match contract_at(m.memory, address) {
            Some(c) => Outcome::Next(
                settled(
                    program,
                    m,
                    Machine {
                        stack: popped(m.stack, 3),
                        call_stack: m.call_stack.push(
                            CallFrameView {
                                caller: Seq::new(32, |i: int| 0u8),
                                address,
                                value: value as u64,
                                gas_limit: gas_limit as u64,
                                code: c.code,
                                return_data: Seq::empty(),
                            },
                        ),
                        pc: m.pc + 1,
                        ..m
                    },
                ),
            ),
            None => Outcome::Fail(VMErrorView::ExecutionError(contract_not_found_text())),
        },
        _ => Outcome::Fail(VMErrorView::StackUnderflow),
    }
}

pub open spec fn step_return(program: Seq<u8>, m: Machine) -> Outcome {
    match (int_at(m.stack, 0), int_at(m.stack, 1)) {
        (Some(size), Some(offset)) => if m.call_stack.len() == 0 {
            Outcome::Next(
                settled(program, m, Machine { stack: popped(m.stack, 2), pc: m.pc + 1, ..m }),
            )
        } else if window_ok(program, offset as int, size as int) {
            let top = m.call_stack.last();
            Outcome::Next(
                settled(
                    program,
                    m,
                    Machine {
                        stack: popped(m.stack, 2),
                        call_stack: m.call_stack.drop_last().push(
                            CallFrameView {
                                return_data: program.subrange(offset as int, offset + size),
                                ..top
                            },
                        ),
                        pc: m.pc + 1,
                        ..m
                    },
                ),
            )
        } else {
            Outcome::Fail(VMErrorView::MemoryError(window_out_of_bounds_text()))
        },
        _ => Outcome::Fail(VMErrorView::StackUnderflow),
    }
}

pub open spec fn step_sha3(program: Seq<u8>, m: Machine) -> Outcome {
    match (int_at(m.stack, 0), int_at(m.stack, 1)) {
        (Some(size), Some(offset)) => if window_ok(program, offset as int, size as int) {
            Outcome::Next(
                settled(
                    program,
                    m,
                    Machine {
                        stack: popped(m.stack, 2).push(
                            ValueView::Bytes(
                                commitment(program.subrange(offset as int, offset + size)),
                            ),
                        ),
                        pc: m.pc + 1,
                        ..m
                    },
                ),
            )
        } else {
            Outcome::Fail(VMErrorView::MemoryError(window_out_of_bounds_text()))
        },
        _ => Outcome::Fail(VMErrorView::StackUnderflow),
    }
}

pub open spec fn step_balance(program: Seq<u8>, m: Machine) -> Outcome {
    match address_at(m.stack, 0) {
        Some(address) => match contract_at(m.memory, address) {
            Some(c) => Outcome::Next(
                settled(
                    program,
                    m,
                    Machine {
                        stack: popped(m.stack, 1).push(ValueView::Int(c.balance as i64)),
                        pc: m.pc + 1,
                        ..m
                    },
                ),
            ),
            None => Outcome::Fail(VMErrorView::ExecutionError(contract_not_found_text())),
        },
        None => Outcome::Fail(VMErrorView::StackUnderflow),
    }
}

/// The effect of the instruction at the program counter. Gas is checked
/// first: an instruction that cannot be paid for fails before anything else
/// is looked at.
pub open spec fn step(program: Seq<u8>, m: Machine) -> Outcome
    recommends
        0 <= m.pc < program.len(),
{
    let op = program[m.pc];
    if m.gas < gas_cost(op) {
        Outcome::Fail(VMErrorView::GasLimitExceeded)
    } else if op == OP_PUSH {
        step_push(program, m)
    } else if op == OP_ADD || op == OP_MUL || op == OP_EQ || op == OP_LT || op == OP_GT {
        step_binary(program, m)
    } else if op == OP_STORE {
        step_store(program, m)
    } else if op == OP_LOAD {
        step_load(program, m)
    } else if op == OP_JUMP {
        step_jump(program, m)
    } else if op == OP_JUMPI {
        step_jumpi(program, m)
    } else if op == OP_CREATE {
        step_create(program, m)
    } else if op == OP_CALL {
        step_call(program, m)
    } else if op == OP_RETURN {
        step_return(program, m)
    } else if op == OP_SHA3 {
        step_sha3(program, m)
    } else if op == OP_BALANCE {
        step_balance(program, m)
    } else if op == OP_STOP {
        Outcome::Halt(settled(program, m, Machine { pc: m.pc + 1, ..m }))
    } else {
        Outcome::Fail(VMErrorView::InvalidOpcode(op))
    }
}

/// The machine at rest: its state root commits to storage and logs.
pub open spec fn finished(m: Machine) -> Machine {
    Machine { state_root: state_root_of(m.storage, m.logs), halted: true, ..m }
}

/// How far one call of the interpreter's `step` got.
pub enum Progress {
    Running,
    Finished,
    Failed(VMErrorView),
}

/// One move of the interpreter: a machine that already finished refuses; one
/// whose program counter has left the program comes to rest; otherwise the
/// instruction at the program counter is executed, and the machine comes to
/// rest if it was STOP.
pub open spec fn advance(program: Seq<u8>, m: Machine) -> (Machine, Progress) {
    if m.halted {
        (m, Progress::Failed(VMErrorView::InvalidStateTransition(already_finished_text())))
    } else if !(0 <= m.pc < program.len()) {
        (finished(m), Progress::Finished)
    } else {
        match step(program, m) {
            Outcome::Fail(e) => (m, Progress::Failed(e)),
            Outcome::Halt(m2) => (finished(m2), Progress::Finished),
            Outcome::Next(m2) => (m2, Progress::Running),
        }
    }
}

/// Running `program` from state `m` until it halts or fails: the state that
/// is left, and the error if there was one.
pub open spec fn run(program: Seq<u8>, m: Machine) -> (Machine, Option<VMErrorView>)
    decreases m.gas,
{
    match advance(program, m) {
        (m2, Progress::Running) => if 0 <= m2.gas < m.gas {
            run(program, m2)
        } else {
            (m, Some(VMErrorView::GasLimitExceeded))
        },
        (m2, Progress::Finished) => (m2, None),
        (m2, Progress::Failed(e)) => (m2, Some(e)),
    }
}

/// The gas that a trace accounts for.
pub open spec fn trace_cost(trace: Seq<TraceStepView>) -> int
    decreases trace.len(),
{
    if trace.len() == 0 {
        0
    } else {
        trace_cost(trace.drop_last()) + trace.last().gas_cost
    }
}

/// Every instruction that succeeds debits exactly what the price list says
/// for its opcode, records itself with that cost, and leaves at most
/// `STACK_LIMIT` values on the stack. An instruction after which the machine
/// goes on costs more than nothing, so the gas left falls strictly with
/// every such step; only STOP, which ends the run, is free.
pub proof fn law_step_debits_cost_and_keeps_bounds(program: Seq<u8>, m: Machine)
    requires
        machine_wf(program, m),
        m.pc < program.len(),
    ensures
        match step(program, m) {
            Outcome::Next(m2) => {
                &&& machine_wf(program, m2)
                &&& m2.gas == m.gas - gas_cost(program[m.pc])
                &&& m2.gas < m.gas
                &&& m2.trace == m.trace.push(m2.trace.last())
                &&& m2.trace.last().gas_cost == gas_cost(program[m.pc])
                &&& m2.trace.last().stack_snapshot == m2.stack
                &&& m2.storage == m.storage && m2.logs == m.logs && !m2.halted == !m.halted
            },
            Outcome::Halt(m2) => {
                &&& machine_wf(program, m2)
                &&& program[m.pc] == OP_STOP
                &&& m2.gas == m.gas
                &&& m2.trace == m.trace.push(m2.trace.last())
                &&& m2.trace.last().gas_cost == 0
                &&& m2.stack == m.stack
                &&& m2.storage == m.storage && m2.logs == m.logs && !m2.halted == !m.halted
            },
            Outcome::Fail(_) => true,
        },
{
    let op = program[m.pc];
    if op == OP_STORE && step(program, m) is Next {
        lemma_noted(m.memory, m.written, int_at(m.stack, 0)->0 as usize, value_at(m.stack, 1)->0);
    }
    match step(program, m) {
        Outcome::Next(m2) => {
            assert(m2.trace.drop_last() =~= m.trace);
            assert(m2.trace =~= m.trace.push(m2.trace.last()));
            assert forall|i: int| 0 <= i < m2.trace.len() implies (
            #[trigger] m2.trace[i]).stack_snapshot.len() <= STACK_LIMIT by {
                if i < m.trace.len() {
                    assert(m2.trace[i] == m.trace[i]);
                }
            }
        },
        Outcome::Halt(m2) => {
            assert(m2.trace.drop_last() =~= m.trace);
            assert(m2.trace =~= m.trace.push(m2.trace.last()));
            assert forall|i: int| 0 <= i < m2.trace.len() implies (
            #[trigger] m2.trace[i]).stack_snapshot.len() <= STACK_LIMIT by {
                if i < m.trace.len() {
                    assert(m2.trace[i] == m.trace[i]);
                }
            }
        },
        Outcome::Fail(_) => {},
    }
}

/// A run keeps the machine within its bounds: the stack and every stack
/// that the trace shows hold at most `STACK_LIMIT` values. It never gains
/// gas, and what it spent is what its trace accounts for. A run that ends
/// without error leaves the machine at rest, its root committing to storage
/// and logs, and its program counter behind a STOP or at the end of the
/// program; a run that fails does not bring the machine to rest.
pub proof fn law_run_keeps_bounds(program: Seq<u8>, m: Machine)
    requires
        machine_wf(program, m),
    ensures
        machine_wf(program, run(program, m).0),
        run(program, m).0.gas <= m.gas,
        m.gas - run(program, m).0.gas == trace_cost(run(program, m).0.trace) - trace_cost(m.trace),
        run(program, m).1 is None ==> run(program, m).0.halted && run(program, m).0.state_root
            == state_root_of(run(program, m).0.storage, run(program, m).0.logs),
        run(program, m).1 is None ==> run(program, m).0.pc == program.len() || (run(
            program,
            m,
        ).0.pc >= 1 && program[run(program, m).0.pc - 1] == OP_STOP),
        run(program, m).1 is Some ==> run(program, m).0.halted == m.halted,
    decreases m.gas,
{
    if !m.halted && 0 <= m.pc < program.len() {
        law_step_debits_cost_and_keeps_bounds(program, m);
        match step(program, m) {
            Outcome::Next(m2) => {
                assert(m2.trace.drop_last() =~= m.trace);
                law_run_keeps_bounds(program, m2);
            },
            Outcome::Halt(m2) => {
                assert(m2.trace.drop_last() =~= m.trace);
            },
            Outcome::Fail(_) => {},
        }
    }
}

/// Running a program is a function of the program and the state it starts
/// from: two runs that start alike end alike, in the final state with its
/// trace and state root, and in the error if there is one.
pub proof fn law_run_is_deterministic(
    program: Seq<u8>,
    start_a: Machine,
    start_b: Machine,
    end_a: (Machine, Option<VMErrorView>),
    end_b: (Machine, Option<VMErrorView>),
)
    requires
        start_a == start_b,
        end_a == run(program, start_a),
        end_b == run(program, start_b),
    ensures
        end_a == end_b,
        end_a.0.trace == end_b.0.trace,
        end_a.0.state_root == end_b.0.state_root,
{
}

} // verus!
