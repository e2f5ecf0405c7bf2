//! A debugger for the interpreter: breakpoints, single steps, a bounded
//! trace and a profile by opcode.

use crate::clock::{elapsed_ms, start_clock, unix_time};
use crate::memory::{MemoryAddress, MemoryError, MemoryManager};
use crate::vm::model::{
    advance, law_step_debits_cost_and_keeps_bounds, Machine, Progress, VMErrorView,
};
use crate::vm::value::Value;
use crate::vm::{progress_of, VMError, VM};
use std::collections::HashMap;
use vstd::prelude::*;

verus! {

broadcast use vstd::std_specs::hash::group_hash_axioms;

/// A place at which execution stops.
#[derive(Debug)]
pub struct Breakpoint {
    pub address: usize,
    pub condition: Option<String>,
    pub hit_count: usize,
    pub enabled: bool,
}

/// One activation on the debugger's call stack.
#[derive(Debug)]
pub struct StackFrame {
    pub function_name: String,
    pub pc: usize,
    pub locals: Vec<(String, Value)>,
    pub stack: Vec<Value>,
    pub memory: Vec<(MemoryAddress, Vec<u8>)>,
}

/// One step as the debugger recorded it.
#[derive(Debug)]
pub struct TraceEntry {
    pub timestamp: u64,
    pub opcode: u8,
    pub pc: usize,
    pub stack_snapshot: Vec<Value>,
    pub memory_snapshot: HashMap<usize, Value>,
    pub gas_used: u64,
}

/// What the profile knows of one opcode: how often it ran, the gas and the
/// milliseconds it took, and the stack depths after it, added up.
#[derive(Clone, Copy, Debug, PartialEq, Eq, Structural)]
pub struct OpcodeStats {
    pub count: usize,
    pub total_gas: u64,
    pub total_time: u64,
    pub total_stack_depth: u64,
}

/// Memory in numbers.
#[derive(Clone, Copy, Debug, PartialEq, Eq, Structural)]
pub struct MemoryStats {
    pub total_allocations: usize,
    pub total_deallocations: usize,
    pub peak_memory: usize,
    pub current_memory: usize,
}

/// Gas in numbers.
#[derive(Clone, Copy, Debug, PartialEq, Eq, Structural)]
pub struct GasStats {
    pub total_gas_used: u64,
}

/// The profile of an execution.
#[derive(Debug)]
pub struct ProfilingData {
    pub opcode_stats: HashMap<u8, OpcodeStats>,
    pub memory_stats: MemoryStats,
    pub gas_stats: GasStats,
}

/// The number of trace entries that the debugger keeps at most.
pub const TRACE_LIMIT: usize = 10000;

/// The debugger.
pub struct Debugger {
    vm: VM,
    memory: MemoryManager,
    breakpoints: HashMap<usize, Breakpoint>,
    call_stack: Vec<StackFrame>,
    execution_trace: Vec<TraceEntry>,
    profiling_data: ProfilingData,
}

/// The sum of two counters, which stays at the largest value once it is
/// reached.
pub open spec fn capped(a: u64, b: u64) -> u64 {
    if a + b > u64::MAX {
        u64::MAX
    } else {
        (a + b) as u64
    }
}

/// The profile entry after one more run of an opcode that took `gas` gas
/// and `time` milliseconds and left `depth` values on the stack.
pub open spec fn profiled(before: Option<OpcodeStats>, gas: u64, time: u64, depth: u64) -> OpcodeStats {
    let b = match before {
        Some(b) => b,
        None => OpcodeStats { count: 0, total_gas: 0, total_time: 0, total_stack_depth: 0 },
    };
    OpcodeStats {
        count: if b.count < usize::MAX {
            (b.count + 1) as usize
        } else {
            b.count
        },
        total_gas: capped(b.total_gas, gas),
        total_time: capped(b.total_time, time),
        total_stack_depth: capped(b.total_stack_depth, depth),
    }
}

/// How a run under the debugger came to its end.
pub enum Pause {
    AtBreakpoint,
    AtRest,
    Failed(VMErrorView),
}

/// Whether an enabled breakpoint stands at the program counter `pc`.
pub open spec fn stops_at(breakpoints: Map<usize, Breakpoint>, pc: int) -> bool {
    0 <= pc <= usize::MAX && breakpoints.contains_key(pc as usize)
        && breakpoints[pc as usize].enabled
}

/// A breakpoint that was hit once more; the count stays at its largest
/// value once it is reached.
pub open spec fn hit_once_more(b: Breakpoint) -> Breakpoint {
    Breakpoint {
        hit_count: if b.hit_count < usize::MAX {
            (b.hit_count + 1) as usize
        } else {
            b.hit_count
        },
        ..b
    }
}

/// Running `program` from the state `m` under the debugger: a machine that
/// stands at an enabled breakpoint stays where it is; otherwise it makes one
/// move, and goes on like this unless the move brought it to rest or
/// failed. The state that is left, and how the run ended.
pub open spec fn continued(program: Seq<u8>, breakpoints: Map<usize, Breakpoint>, m: Machine) -> (
    Machine,
    Pause,
)
    decreases m.gas,
{
    if stops_at(breakpoints, m.pc) {
        (m, Pause::AtBreakpoint)
    } else {
        match advance(program, m) {
            (m2, Progress::Running) => if 0 <= m2.gas < m.gas {
                continued(program, breakpoints, m2)
            } else {
                (m2, Pause::Failed(VMErrorView::GasLimitExceeded))
            },
            (m2, Progress::Finished) => (m2, Pause::AtRest),
            (m2, Progress::Failed(e)) => (m2, Pause::Failed(e)),
        }
    }
}

impl Debugger {
    /// The state of the machine under the debugger.
    pub closed spec fn machine(&self) -> Machine {
        self.vm@
    }

    pub closed spec fn program(&self) -> Seq<u8> {
        self.vm.program()
    }

    /// The memory manager that the debugger reads through.
    pub closed spec fn manager(&self) -> MemoryManager {
        self.memory
    }

    /// The breakpoints by address.
    pub closed spec fn breakpoints(&self) -> Map<usize, Breakpoint> {
        self.breakpoints@
    }

    /// The number of trace entries kept.
    pub closed spec fn trace_len(&self) -> nat {
        self.execution_trace@.len()
    }

    /// The profile by opcode.
    pub closed spec fn profile(&self) -> Map<u8, OpcodeStats> {
        self.profiling_data.opcode_stats@
    }

    /// The gas that the profile accounts for.
    pub closed spec fn profiled_gas(&self) -> u64 {
        self.profiling_data.gas_stats.total_gas_used
    }

    /// The opcode and the program counter of the newest trace entry.
    pub closed spec fn last_traced(&self) -> (u8, usize) {
        (self.execution_trace@.last().opcode, self.execution_trace@.last().pc)
    }

    /// The frames of the debugger's call stack by name and program
    /// counter.
    pub closed spec fn frames(&self) -> Seq<(Seq<char>, usize)> {
        Seq::new(
            self.call_stack@.len(),
            |i: int| (self.call_stack@[i].function_name@, self.call_stack@[i].pc),
        )
    }

    /// The byte at the machine's program counter, or zero where the
    /// program counter has left the program.
    pub open spec fn opcode_here(&self) -> u8 {
        if 0 <= self.machine().pc < self.program().len() {
            self.program()[self.machine().pc]
        } else {
            0u8
        }
    }

    pub closed spec fn wf(&self) -> bool {
        self.vm.wf() && self.memory.wf() && self.execution_trace@.len() <= TRACE_LIMIT
    }

    /// A debugger for `vm`, without breakpoints.
    pub fn new(vm: VM, memory: MemoryManager) -> (r: Self)
        requires
            vm.wf(),
            memory.wf(),
        ensures
            r.wf(),
            r.machine() == vm@,
            r.program() == vm.program(),
            r.manager() == memory,
            r.breakpoints() == Map::<usize, Breakpoint>::empty(),
            r.trace_len() == 0,
            r.profile() == Map::<u8, OpcodeStats>::empty(),
    {
        Debugger {
            vm,
            memory,
            breakpoints: HashMap::new(),
            call_stack: Vec::new(),
            execution_trace: Vec::new(),
            profiling_data: ProfilingData {
                opcode_stats: HashMap::new(),
                memory_stats: MemoryStats {
                    total_allocations: 0,
                    total_deallocations: 0,
                    peak_memory: 0,
                    current_memory: 0,
                },
                gas_stats: GasStats { total_gas_used: 0 },
            },
        }
    }

    /// Sets an enabled breakpoint at `address`, in place of one that was
    /// there.
    pub fn add_breakpoint(&mut self, address: usize, condition: Option<String>)
        requires
            old(self).wf(),
        ensures
            final(self).wf(),
            final(self).machine() == old(self).machine(),
            final(self).program() == old(self).program(),
            final(self).trace_len() == old(self).trace_len(),
            final(self).profile() == old(self).profile(),
            final(self).breakpoints() == old(self).breakpoints().insert(
                address,
                Breakpoint { address, condition, hit_count: 0, enabled: true },
            ),
    {
        self.breakpoints.insert(
            address,
            Breakpoint { address, condition, hit_count: 0, enabled: true },
        );
    }

    /// Takes the breakpoint at `address` away.
    pub fn remove_breakpoint(&mut self, address: usize)
        requires
            old(self).wf(),
        ensures
            final(self).wf(),
            final(self).machine() == old(self).machine(),
            final(self).program() == old(self).program(),
            final(self).trace_len() == old(self).trace_len(),
            final(self).profile() == old(self).profile(),
            final(self).breakpoints() == old(self).breakpoints().remove(address),
    {
        self.breakpoints.remove(&address);
    }

    /// Breakpoints stop the execution whatever their condition says.
    pub fn check_breakpoint_condition(&self, breakpoint: &Breakpoint) -> (r: bool)
        ensures
            r,
    {
        true
    }

    /// Enters one more run of `opcode` into the profile.
    fn update_profiling(&mut self, opcode: u8, gas: u64, time: u64, depth: u64)
        ensures
            final(self).vm == old(self).vm,
            final(self).memory == old(self).memory,
            final(self).breakpoints == old(self).breakpoints,
            final(self).call_stack == old(self).call_stack,
            final(self).execution_trace == old(self).execution_trace,
            final(self).profiling_data.memory_stats == old(self).profiling_data.memory_stats,
            final(self).profiling_data.gas_stats.total_gas_used == capped(
                old(self).profiling_data.gas_stats.total_gas_used,
                gas,
            ),
            final(self).profiling_data.opcode_stats@ == old(self).profiling_data.opcode_stats@.insert(
                opcode,
                profiled(
                    if old(self).profiling_data.opcode_stats@.contains_key(opcode) {
                        Some(old(self).profiling_data.opcode_stats@[opcode])
                    } else {
                        None
                    },
                    gas,
                    time,
                    depth,
                ),
            ),
    {
        let before = match self.profiling_data.opcode_stats.get(&opcode) {
            Some(b) => *b,
            None => OpcodeStats { count: 0, total_gas: 0, total_time: 0, total_stack_depth: 0 },
        };
        let after = OpcodeStats {
            count: if before.count < usize::MAX {
                before.count + 1
            } else {
                before.count
            },
            total_gas: before.total_gas.saturating_add(gas),
            total_time: before.total_time.saturating_add(time),
            total_stack_depth: before.total_stack_depth.saturating_add(depth),
        };
        self.profiling_data.opcode_stats.insert(opcode, after);
        self.profiling_data.gas_stats.total_gas_used =
            self.profiling_data.gas_stats.total_gas_used.saturating_add(gas);
    }

    /// Records the machine's state in the trace, which keeps the newest
    /// `TRACE_LIMIT` entries.
    fn record_trace(&mut self, opcode: u8)
        requires
            old(self).execution_trace@.len() <= TRACE_LIMIT,
        ensures
            final(self).vm == old(self).vm,
            final(self).memory == old(self).memory,
            final(self).breakpoints == old(self).breakpoints,
            final(self).call_stack == old(self).call_stack,
            final(self).profiling_data == old(self).profiling_data,
            final(self).execution_trace@.len() == (if old(self).execution_trace@.len()
                < TRACE_LIMIT {
                old(self).execution_trace@.len() + 1
            } else {
                TRACE_LIMIT as nat
            }),
            final(self).execution_trace@.last().opcode == opcode,
            final(self).execution_trace@.last().pc == old(self).vm@.pc,
    {
        let remaining = self.vm.get_gas_remaining();
        let entry = TraceEntry {
            timestamp: unix_time(),
            opcode,
            pc: self.vm.pc(),
            stack_snapshot: self.vm.get_stack(),
            memory_snapshot: self.vm.get_memory(),
            gas_used: if remaining <= VM::GAS_LIMIT {
                VM::GAS_LIMIT - remaining
            } else {
                0
            },
        };
        self.execution_trace.push(entry);
        if self.execution_trace.len() > TRACE_LIMIT {
            self.execution_trace.remove(0);
        }
    }

    /// Makes one move of the machine, and enters it into the profile and
    /// the trace. An error of the machine is handed on after that.
    pub fn step(&mut self) -> (r: Result<bool, VMError>)
        requires
            old(self).wf(),
        ensures
            final(self).wf(),
            final(self).program() == old(self).program(),
            final(self).breakpoints() == old(self).breakpoints(),
            (final(self).machine(), progress_of(r)) == advance(
                old(self).program(),
                old(self).machine(),
            ),
            final(self).trace_len() == (if old(self).trace_len() < TRACE_LIMIT {
                old(self).trace_len() + 1
            } else {
                TRACE_LIMIT as nat
            }),
            final(self).last_traced() == (old(self).opcode_here(), final(self).machine().pc as usize),
            final(self).frames() == old(self).frames(),
            final(self).manager() == old(self).manager(),
            ({
                let op = old(self).opcode_here();
                let gas = if old(self).machine().gas >= final(self).machine().gas {
                    (old(self).machine().gas - final(self).machine().gas) as u64
                } else {
                    0u64
                };
                let before = if old(self).profile().contains_key(op) {
                    Some(old(self).profile()[op])
                } else {
                    None
                };
                let after = final(self).profile()[op];
                &&& final(self).profile().dom() == old(self).profile().dom().insert(op)
                &&& forall|other: u8|
                    other != op && old(self).profile().contains_key(other)
                        ==> final(self).profile()[other] == old(self).profile()[other]
                &&& after.count == profiled(before, gas, 0, 0).count
                &&& after.total_gas == profiled(before, gas, 0, 0).total_gas
                &&& after.total_stack_depth == profiled(
                    before,
                    gas,
                    0,
                    final(self).machine().stack.len() as u64,
                ).total_stack_depth
                &&& final(self).profiled_gas() == capped(old(self).profiled_gas(), gas)
            }),
    {
        proof {
            self.vm.lemma_wf_bounds();
        }
        let start = start_clock();
        let gas_before = self.vm.get_gas_remaining();
        let opcode = self.vm.current_opcode();
        let result = self.vm.step();
        let gas_after = self.vm.get_gas_remaining();
        let gas = if gas_before >= gas_after {
            gas_before - gas_after
        } else {
            0
        };
        let depth = self.vm.stack_depth() as u64;
        proof {
            self.vm.lemma_wf_bounds();
        }
        self.update_profiling(opcode, gas, elapsed_ms(&start), depth);
        self.record_trace(opcode);
        result
    }

    /// Runs the machine until it stands at an enabled breakpoint, which
    /// then counts one more hit, or comes to rest. An error of the machine
    /// ends the run and is handed on. The machine is left as `continued`
    /// says; the result is `Ok` where the run ended at a breakpoint or at
    /// rest, and the machine's error where it failed.
    pub fn continue_execution(&mut self) -> (r: Result<(), VMError>)
        requires
            old(self).wf(),
        ensures
            final(self).wf(),
            final(self).program() == old(self).program(),
            final(self).frames() == old(self).frames(),
            final(self).manager() == old(self).manager(),
            ({
                let end = continued(old(self).program(), old(self).breakpoints(), old(self).machine());
                &&& final(self).machine() == end.0
                &&& match r {
                    Ok(()) => end.1 is AtBreakpoint || end.1 is AtRest,
                    Err(e) => end.1 == Pause::Failed(e@),
                }
                &&& final(self).breakpoints() == (if end.1 is AtBreakpoint {
                    old(self).breakpoints().insert(
                        end.0.pc as usize,
                        hit_once_more(old(self).breakpoints()[end.0.pc as usize]),
                    )
                } else {
                    old(self).breakpoints()
                })
            }),
            r is Ok ==> final(self).machine().halted || (final(self).breakpoints().contains_key(
                final(self).machine().pc as usize,
            ) && final(self).breakpoints()[final(self).machine().pc as usize].enabled),
    {
        loop
            invariant
                self.wf(),
                self.program() == old(self).program(),
                self.frames() == old(self).frames(),
                self.manager() == old(self).manager(),
                self.breakpoints() == old(self).breakpoints(),
                continued(self.program(), self.breakpoints(), self.machine()) == continued(
                    old(self).program(),
                    old(self).breakpoints(),
                    old(self).machine(),
                ),
            decreases self.vm@.gas,
        {
            let pc = self.vm.pc();
            let hit = match self.breakpoints.get(&pc) {
                Some(b) => b.enabled,
                None => false,
            };
            if hit {
                let b = self.breakpoints.remove(&pc).unwrap();
                let Breakpoint { address, condition, hit_count, enabled } = b;
                let hit_count = if hit_count < usize::MAX {
                    hit_count + 1
                } else {
                    hit_count
                };
                let b = Breakpoint { address, condition, hit_count, enabled };
                let stop = self.check_breakpoint_condition(&b);
                self.breakpoints.insert(pc, b);
                if stop {
                    proof {
                        self.vm.lemma_wf_bounds();
                        assert(stops_at(old(self).breakpoints(), self.machine().pc));
                        assert(self.breakpoints() =~= old(self).breakpoints().insert(
                            pc,
                            hit_once_more(old(self).breakpoints()[pc]),
                        ));
                    }
                    return Ok(());
                }
            }
            proof {
                self.vm.lemma_wf_bounds();
                assert(!stops_at(self.breakpoints(), self.machine().pc));
            }
            let ghost before = self.vm@;
            proof {
                self.vm.lemma_wf();
                if !before.halted && 0 <= before.pc < self.vm.program().len() {
                    law_step_debits_cost_and_keeps_bounds(self.vm.program(), before);
                }
            }
            match self.step() {
                Ok(true) => {
                    return Ok(());
                },
                Ok(false) => {},
                Err(e) => {
                    return Err(e);
                },
            }
        }
    }

    /// A copy of the debugger's call stack.
    pub fn get_stack_trace(&self) -> (r: Vec<StackFrame>)
        ensures
            r@.len() == self.call_stack_len(),
            forall|i: int|
                0 <= i < r@.len() ==> ((#[trigger] r@[i]).function_name@, r@[i].pc)
                    == self.frames()[i],
    {
        let mut frames: Vec<StackFrame> = Vec::new();
        let mut i: usize = 0;
        while i < self.call_stack.len()
            invariant
                i <= self.call_stack.len(),
                frames@.len() == i,
                forall|j: int|
                    0 <= j < i ==> (#[trigger] frames@[j]).function_name@
                        == self.call_stack@[j].function_name@ && frames@[j].pc
                        == self.call_stack@[j].pc,
            decreases self.call_stack.len() - i,
        {
            frames.push(copy_frame(&self.call_stack[i]));
            i += 1;
        }
        frames
    }

    pub closed spec fn call_stack_len(&self) -> nat {
        self.call_stack@.len()
    }

    /// The local variables of the innermost frame by name; none without a
    /// frame.
    pub closed spec fn innermost_locals(&self) -> Seq<(Seq<char>, crate::vm::value::ValueView)> {
        if self.call_stack@.len() == 0 {
            Seq::empty()
        } else {
            locals_view(self.call_stack@.last().locals@)
        }
    }

    /// Enters a frame on the debugger's call stack.
    pub fn push_frame(&mut self, frame: StackFrame)
        requires
            old(self).wf(),
        ensures
            final(self).wf(),
            final(self).machine() == old(self).machine(),
            final(self).program() == old(self).program(),
            final(self).breakpoints() == old(self).breakpoints(),
            final(self).call_stack_len() == old(self).call_stack_len() + 1,
            final(self).frames() == old(self).frames().push((frame.function_name@, frame.pc)),
    {
        self.call_stack.push(frame);
        assert(self.frames() =~= old(self).frames().push((frame.function_name@, frame.pc)));
    }

    /// The local variables of the innermost frame; none without a frame.
    pub fn get_local_variables(&self) -> (r: Vec<(String, Value)>)
        ensures
            self.call_stack_len() == 0 ==> r@.len() == 0,
            locals_view(r@) == self.innermost_locals(),
    {
        if self.call_stack.len() == 0 {
            let r: Vec<(String, Value)> = Vec::new();
            assert(locals_view(r@) =~= self.innermost_locals());
            return r;
        }
        copy_locals(&self.call_stack[self.call_stack.len() - 1].locals)
    }

    /// Reads `size` bytes at `address` through the memory manager, whose
    /// cache and counters take note of the read. What the manager refuses is
    /// a memory error of the machine, with the text for the refusal. A
    /// manager whose hit or miss counter is at its largest value is not
    /// asked, and stays as it is.
    pub fn inspect_memory(&mut self, address: MemoryAddress, size: usize) -> (r: Result<
        Vec<u8>,
        VMError,
    >)
        requires
            old(self).wf(),
        ensures
            final(self).wf(),
            final(self).machine() == old(self).machine(),
            final(self).program() == old(self).program(),
            final(self).breakpoints() == old(self).breakpoints(),
            final(self).trace_len() == old(self).trace_len(),
            final(self).profile() == old(self).profile(),
            final(self).frames() == old(self).frames(),
            final(self).manager().permissions() == old(self).manager().permissions(),
            final(self).manager().segments() == old(self).manager().segments(),
            final(self).manager().pages() == old(self).manager().pages(),
            if old(self).manager().stats().cache_hits == usize::MAX
                || old(self).manager().stats().cache_misses == usize::MAX {
                &&& r matches Err(e) && e@ == crate::vm::model::VMErrorView::MemoryError(
                    "Counters exhausted"@,
                )
                &&& final(self).manager() == old(self).manager()
            } else {
                &&& match old(self).manager().read_result(address, size) {
                    Ok(bytes) => r matches Ok(found) && found@ == bytes,
                    Err(refusal) => r matches Err(e) && e@
                        == crate::vm::model::VMErrorView::MemoryError(refusal_text(refusal)),
                }
                &&& final(self).manager().cache() == old(self).manager().cache_after_read(
                    address,
                    size,
                )
                &&& final(self).manager().stats() == old(self).manager().stats_after_read(address)
            },
    {
        let stats = self.memory.statistics();
        if stats.cache_hits == usize::MAX || stats.cache_misses == usize::MAX {
            return Err(VMError::MemoryError("Counters exhausted".to_string()));
        }
        match self.memory.read(address, size) {
            Ok(bytes) => Ok(bytes),
            Err(e) => Err(VMError::MemoryError(memory_error_text(e))),
        }
    }

    /// The number of trace entries kept.
    pub fn execution_trace_len(&self) -> (n: usize)
        ensures
            n == self.trace_len(),
    {
        self.execution_trace.len()
    }

    /// Copies of the trace entries from `start` up to `end`, both cut to
    /// the length of the trace.
    pub fn get_execution_trace(&self, start: usize, end: usize) -> (r: Vec<TraceEntry>)
        ensures
            r@.len() == ({
                let n = self.trace_len() as int;
                let s = if start < n { start as int } else { n };
                let e = if end < n { end as int } else { n };
                if s <= e { e - s } else { 0 }
            }),
    {
        let n = self.execution_trace.len();
        let s = if start < n {
            start
        } else {
            n
        };
        let e = if end < n {
            end
        } else {
            n
        };
        let mut r: Vec<TraceEntry> = Vec::new();
        if s > e {
            return r;
        }
        let mut i: usize = s;
        while i < e
            invariant
                s <= i <= e,
                e <= self.execution_trace.len(),
                r@.len() == i - s,
            decreases e - i,
        {
            let t = &self.execution_trace[i];
            r.push(
                TraceEntry {
                    timestamp: t.timestamp,
                    opcode: t.opcode,
                    pc: t.pc,
                    stack_snapshot: crate::vm::clone_values(&t.stack_snapshot),
                    memory_snapshot: t.memory_snapshot.clone(),
                    gas_used: t.gas_used,
                },
            );
            i += 1;
        }
        r
    }

    /// The profile entry of `opcode`, if it ran.
    pub fn opcode_profile(&self, opcode: u8) -> (r: Option<OpcodeStats>)
        ensures
            match r {
                Some(s) => self.profile().contains_key(opcode) && self.profile()[opcode] == s,
                None => !self.profile().contains_key(opcode),
            },
    {
        match self.profiling_data.opcode_stats.get(&opcode) {
            Some(s) => Some(*s),
            None => None,
        }
    }

    /// A copy of the profile.
    pub fn get_profiling_data(&self) -> (r: ProfilingData)
        ensures
            r.opcode_stats@ == self.profile(),
    {
        ProfilingData {
            opcode_stats: self.profiling_data.opcode_stats.clone(),
            memory_stats: self.profiling_data.memory_stats,
            gas_stats: self.profiling_data.gas_stats,
        }
    }

    /// The machine under the debugger.
    pub fn vm(&self) -> (r: &VM)
        ensures
            r@ == self.machine(),
            r.program() == self.program(),
    {
        &self.vm
    }
}

/// The text that reports what the memory manager refused.
pub open spec fn refusal_text(e: MemoryError) -> Seq<char> {
    match e {
        MemoryError::PageFault(_) => "Page fault"@,
        MemoryError::SegmentFault(_) => "Segment fault"@,
        MemoryError::PermissionDenied(_) => "Permission denied"@,
        MemoryError::OutOfMemory => "Out of memory"@,
    }
}

/// The text that reports what the memory manager refused.
fn memory_error_text(e: MemoryError) -> (text: String)
    ensures
        text@ == refusal_text(e),
{
    match e {
        MemoryError::PageFault(_) => "Page fault".to_string(),
        MemoryError::SegmentFault(_) => "Segment fault".to_string(),
        MemoryError::PermissionDenied(_) => "Permission denied".to_string(),
        MemoryError::OutOfMemory => "Out of memory".to_string(),
    }
}

/// Local variables by name and value.
pub open spec fn locals_view(locals: Seq<(String, Value)>) -> Seq<
    (Seq<char>, crate::vm::value::ValueView),
> {
    Seq::new(locals.len(), |i: int| (locals[i].0@, locals[i].1@))
}

/// A copy of local variables.
fn copy_locals(locals: &Vec<(String, Value)>) -> (r: Vec<(String, Value)>)
    ensures
        locals_view(r@) == locals_view(locals@),
        r@.len() == locals@.len(),
        forall|i: int|
            0 <= i < r@.len() ==> (#[trigger] r@[i]).0@ == locals@[i].0@ && r@[i].1@
                == locals@[i].1@,
{
    let mut r: Vec<(String, Value)> = Vec::new();
    let mut i: usize = 0;
    while i < locals.len()
        invariant
            i <= locals.len(),
            r@.len() == i,
            forall|j: int|
                0 <= j < i ==> (#[trigger] r@[j]).0@ == locals@[j].0@ && r@[j].1@ == locals@[j].1@,
        decreases locals.len() - i,
    {
        r.push((locals[i].0.clone(), locals[i].1.clone()));
        i += 1;
    }
    assert(locals_view(r@) =~= locals_view(locals@));
    r
}

/// A copy of a frame.
fn copy_frame(frame: &StackFrame) -> (r: StackFrame)
    ensures
        r.function_name@ == frame.function_name@,
        r.pc == frame.pc,
        crate::vm::values_view(r.stack@) == crate::vm::values_view(frame.stack@),
        r.locals@.len() == frame.locals@.len(),
        r.memory@.len() == frame.memory@.len(),
{
    let mut memory: Vec<(MemoryAddress, Vec<u8>)> = Vec::new();
    let mut i: usize = 0;
    while i < frame.memory.len()
        invariant
            i <= frame.memory.len(),
            memory@.len() == i,
        decreases frame.memory.len() - i,
    {
        memory.push((frame.memory[i].0, crate::vm::value::clone_bytes(&frame.memory[i].1)));
        i += 1;
    }
    StackFrame {
        function_name: frame.function_name.clone(),
        pc: frame.pc,
        locals: copy_locals(&frame.locals),
        stack: crate::vm::clone_values(&frame.stack),
        memory,
    }
}

} // verus!
