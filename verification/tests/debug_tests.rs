use zkvm::debug::{Debugger, StackFrame};
use zkvm::memory::segment::SegmentType;
use zkvm::memory::{MemoryConfig, MemoryManager};
use zkvm::vm::value::Value;
use zkvm::vm::{VMError, VM};

fn debugger(program: Vec<u8>) -> Debugger {
    let memory = MemoryManager::new(MemoryConfig { page_size: 4096, gc_threshold: 1024 * 1024, cache_size: 1000 });
    Debugger::new(VM::new(program), memory)
}

#[test]
fn test_debugger() {
    let mut debugger = debugger(vec![
        0x01, 0x05, // PUSH 5
        0x01, 0x03, // PUSH 3
        0x02, // ADD
        0xFF, // STOP
    ]);

    debugger.add_breakpoint(4, None); // Break at ADD instruction

    debugger.continue_execution().unwrap();
    assert_eq!(debugger.vm().pc(), 4);
    assert_eq!(debugger.vm().get_stack().len(), 2);
    assert!(debugger.opcode_profile(0x02).is_none());

    // Step over ADD instruction
    assert_eq!(debugger.step().ok(), Some(false));

    let profiling = debugger.get_profiling_data();
    assert!(profiling.opcode_stats.contains_key(&0x02)); // ADD opcode
    let add = debugger.opcode_profile(0x02).unwrap();
    assert_eq!(add.count, 1);
    assert_eq!(add.total_gas, 5);
    assert_eq!(add.total_stack_depth, 1);
    let push = debugger.opcode_profile(0x01).unwrap();
    assert_eq!(push.count, 2);
    assert_eq!(push.total_gas, 6);
    assert_eq!(push.total_stack_depth, 3);
    assert_eq!(profiling.gas_stats.total_gas_used, 11);
}

#[test]
fn debugger_runs_to_the_end_without_breakpoints() {
    let mut debugger = debugger(vec![0x01, 0x05, 0x01, 0x03, 0x02, 0xFF]);
    debugger.add_breakpoint(2, None);
    debugger.remove_breakpoint(2);
    debugger.continue_execution().unwrap();
    assert!(debugger.vm().is_halted());
    assert_eq!(debugger.execution_trace_len(), 4);
    let trace = debugger.get_execution_trace(1, 3);
    assert_eq!(trace.len(), 2);
    assert_eq!(trace[0].opcode, 0x01);
    assert_eq!(trace[0].pc, 4);
    assert_eq!(trace[0].gas_used, 6);
    assert_eq!(trace[1].opcode, 0x02);
    assert!(matches!(trace[1].stack_snapshot[0], Value::Int(8)));
    assert_eq!(debugger.get_execution_trace(3, 1).len(), 0);
    assert_eq!(debugger.get_execution_trace(2, 99).len(), 2);
    assert_eq!(debugger.get_execution_trace(50, 99).len(), 0);
    assert!(matches!(debugger.continue_execution(), Err(VMError::InvalidStateTransition(_))));
}

#[test]
fn debugger_hands_errors_on() {
    let mut debugger = debugger(vec![0x01, 0x05, 0x02]);
    assert!(matches!(debugger.continue_execution(), Err(VMError::StackUnderflow)));
    assert_eq!(debugger.vm().pc(), 2);
    assert_eq!(debugger.execution_trace_len(), 2);
}

#[test]
fn debugger_keeps_frames_and_reads_memory() {
    let mut memory = MemoryManager::new(MemoryConfig { page_size: 16, gc_threshold: 1024, cache_size: 4 });
    let address = memory.allocate(8, SegmentType::Data).unwrap();
    memory.write(address, &[7, 8]).unwrap();
    let mut debugger = Debugger::new(VM::new(vec![0xFF]), memory);
    assert!(debugger.get_stack_trace().is_empty());
    assert!(debugger.get_local_variables().is_empty());
    debugger.push_frame(StackFrame {
        function_name: "main".to_string(),
        pc: 0,
        locals: vec![("x".to_string(), Value::Int(4))],
        stack: vec![Value::Bool(true)],
        memory: vec![(address, vec![7, 8])],
    });
    let frames = debugger.get_stack_trace();
    assert_eq!(frames.len(), 1);
    assert_eq!(frames[0].function_name, "main");
    let locals = debugger.get_local_variables();
    assert_eq!(locals.len(), 1);
    assert_eq!(locals[0].0, "x");
    assert!(matches!(locals[0].1, Value::Int(4)));
    assert_eq!(debugger.inspect_memory(address, 3).ok(), Some(vec![7, 8, 0]));
    match debugger.inspect_memory(address, 3) {
        Ok(bytes) => assert_eq!(bytes, vec![7, 8, 0]),
        Err(_) => panic!("Expected a cached read"),
    }
    let elsewhere = zkvm::memory::MemoryAddress::new(5, 5, 5);
    match debugger.inspect_memory(elsewhere, 1) {
        Err(VMError::MemoryError(text)) => assert_eq!(text, "Permission denied"),
        _ => panic!("Expected memory error"),
    }
}
