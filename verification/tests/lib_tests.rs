use zkvm::proving::ProofError;
use zkvm::vm::value::Value;
use zkvm::vm::{VMError, VM};
use zkvm::{ZKVMError, ZKVM};

fn machine(program: Vec<u8>) -> ZKVM {
    ZKVM::new(program, Ok(Vec::new())).unwrap()
}

#[test]
fn integration_tests_test_stack_underflow() {
    let program = vec![
        0x02, // ADD with empty stack
        0xFF,
    ];

    let mut zkvm = machine(program);
    match zkvm.execute() {
        Err(ZKVMError::VMError(VMError::StackUnderflow)) => (),
        _ => panic!("Expected stack underflow error"),
    }
}

#[test]
fn integration_tests_test_invalid_opcode() {
    let program = vec![
        0xFE, // Invalid opcode
        0xFF,
    ];

    let mut zkvm = machine(program);
    match zkvm.execute() {
        Err(ZKVMError::VMError(VMError::InvalidOpcode(_))) => (),
        _ => panic!("Expected invalid opcode error"),
    }
}

#[test]
fn test_arithmetic_operations() {
    let program = vec![
        0x01, 0x05, // PUSH 5
        0x01, 0x03, // PUSH 3
        0x02, // ADD
        0x01, 0x02, // PUSH 2
        0x03, // MUL
        0xFF,
    ];

    let mut zkvm = machine(program);
    zkvm.execute().unwrap();

    let stack = zkvm.vm().get_stack();
    assert_eq!(stack.len(), 1);

    if let Value::Int(value) = &stack[0] {
        assert_eq!(*value, 16); // (5 + 3) * 2 = 16
    } else {
        panic!("Expected integer value");
    }
}

#[test]
fn lib_test_gas_accounting() {
    let program = vec![
        0x01, 0x05, // PUSH 5 (3 gas)
        0x01, 0x03, // PUSH 3 (3 gas)
        0x02, // ADD (5 gas)
        0x01, 0x00, // PUSH 0 (3 gas)
        0x04, // STORE (20 gas)
        0xFF, // STOP (0 gas)
    ];
    let mut zkvm = machine(program);
    assert_eq!(zkvm.get_gas_used(), 0);
    zkvm.execute().unwrap();
    assert_eq!(zkvm.get_gas_used(), 34);
    assert_eq!(zkvm.vm().get_gas_remaining(), VM::GAS_LIMIT - 34);
}

#[test]
fn test_execution_trace() {
    let program = vec![0x01, 0x05, 0x01, 0x03, 0x02, 0xFF];
    let mut zkvm = machine(program);
    assert!(zkvm.get_execution_trace().is_empty());
    zkvm.execute().unwrap();
    let trace = zkvm.get_execution_trace();
    assert_eq!(trace.len(), 4);
    let opcodes: Vec<u8> = trace.iter().map(|s| s.opcode).collect();
    assert_eq!(opcodes, vec![0x01, 0x01, 0x02, 0xFF]);
    let costs: Vec<u64> = trace.iter().map(|s| s.gas_cost).collect();
    assert_eq!(costs, vec![3, 3, 5, 0]);
    let depths: Vec<usize> = trace.iter().map(|s| s.stack_snapshot.len()).collect();
    assert_eq!(depths, vec![1, 2, 1, 1]);
    assert!(matches!(trace[2].stack_snapshot[0], Value::Int(8)));
    assert_eq!(zkvm.get_state_root(), zkvm.vm().get_state_root());
    assert_ne!(zkvm.get_state_root(), [0u8; 32]);
}

#[test]
fn failed_setup_is_a_proof_error() {
    let r = ZKVM::new(vec![0xFF], Err(ProofError::SetupError("no randomness".to_string())));
    match r {
        Err(ZKVMError::ProofError(ProofError::SetupError(text))) => assert_eq!(text, "no randomness"),
        _ => panic!("Expected setup error"),
    }
}

#[test]
fn failed_execution_keeps_the_summary() {
    let mut zkvm = machine(vec![0x01, 0x05, 0x02]);
    assert!(zkvm.execute().is_err());
    assert_eq!(zkvm.get_gas_used(), 0);
    assert!(zkvm.get_execution_trace().is_empty());
    assert_eq!(zkvm.get_state_root(), [0u8; 32]);
    assert_eq!(zkvm.vm().get_gas_remaining(), VM::GAS_LIMIT - 3);
}

#[test]
fn proof_without_witness_is_refused() {
    let mut zkvm = machine(vec![0x01, 0x05, 0xFF]);
    assert!(zkvm.constraint_system().is_ok());
    match zkvm.generate_proof(Ok(vec![0u8; 384])) {
        Err(ZKVMError::CircuitError(_)) => (),
        _ => panic!("Expected circuit error"),
    }
    zkvm.execute().unwrap();
    let data = zkvm.generate_proof(Ok(vec![0u8; 384])).unwrap();
    assert_eq!(data.public_inputs.len(), 5);
    assert_eq!(zkvm.verify_proof(&data).ok(), Some(true));
}

#[test]
fn program_with_a_jump_has_a_constraint_system() {
    let mut zkvm = machine(vec![0x01, 0x03, 0x06, 0xFF]);
    zkvm.execute().unwrap();
    assert_eq!(zkvm.vm().pc(), 4);
    let cs = zkvm.constraint_system().unwrap();
    assert!(cs.is_satisfied());
}

#[test]
fn program_that_fails_has_no_constraint_system() {
    let mut zkvm = machine(vec![0x02, 0xFF]);
    assert!(zkvm.execute().is_err());
    match zkvm.constraint_system() {
        Err(ZKVMError::CircuitError(zkvm::circuit::semantics::SynthesisError::Unsatisfiable)) => (),
        _ => panic!("Expected circuit error"),
    }
}

#[test]
fn integration_tests_test_memory_operations() {
    let program = vec![
        0x01, 0x42, // PUSH 66
        0x04, 0x00, // STORE with one value on the stack
        0x05, 0x00, // LOAD
        0xFF,
    ];

    let mut zkvm = machine(program);
    assert!(matches!(zkvm.execute(), Err(ZKVMError::VMError(VMError::StackUnderflow))));

    let stack = zkvm.vm().get_stack();
    assert_eq!(stack.len(), 1);
    assert!(matches!(stack[0], Value::Int(66)));
    assert_eq!(zkvm.get_gas_used(), 0);
    assert_eq!(zkvm.get_state_root(), [0; 32]);
}
