use blake2::{Blake2b512, Digest};
use zkvm::vm::root::compute_state_root;
use zkvm::vm::value::{Storage, Value};
use zkvm::vm::{Log, VMError, VM};

fn commitment(data: &[u8]) -> [u8; 32] {
    let mut out = [0u8; 32];
    out.copy_from_slice(&Blake2b512::digest(data)[..32]);
    out
}

fn int_at(stack: &[Value], index: usize) -> i64 {
    match &stack[index] {
        Value::Int(i) => *i,
        other => panic!("Expected integer, found {:?}", other),
    }
}

#[test]
fn test_basic_arithmetic() {
    let program = vec![
        0x01, 0x05, // PUSH 5
        0x01, 0x03, // PUSH 3
        0x02, // ADD
        0x01, 0x02, // PUSH 2
        0x03, // MUL
        0xFF, // STOP
    ];

    let mut vm = VM::new(program);
    assert!(vm.execute().is_ok());

    let stack = vm.get_stack();
    assert_eq!(stack.len(), 1);

    if let Value::Int(result) = &stack[0] {
        assert_eq!(*result, 16); // (5 + 3) * 2 = 16
    } else {
        panic!("Expected integer result");
    }
}

#[test]
fn vm_tests_test_stack_underflow() {
    let program = vec![
        0x02, // ADD with empty stack
        0xFF,
    ];

    let mut vm = VM::new(program);
    match vm.execute() {
        Err(VMError::StackUnderflow) => (),
        _ => panic!("Expected stack underflow error"),
    }
}

#[test]
fn test_stack_overflow() {
    let mut program = Vec::new();
    // Push 1025 values (max stack size is 1024)
    for i in 0..1025 {
        program.extend_from_slice(&[0x01, i as u8]);
    }
    program.push(0xFF);

    let mut vm = VM::new(program);
    match vm.execute() {
        Err(VMError::StackOverflow) => (),
        _ => panic!("Expected stack overflow error"),
    }
}

#[test]
fn vm_tests_test_invalid_opcode() {
    let program = vec![
        0xFE, // Invalid opcode
        0xFF,
    ];

    let mut vm = VM::new(program);
    match vm.execute() {
        Err(VMError::InvalidOpcode(_)) => (),
        _ => panic!("Expected invalid opcode error"),
    }
}

#[test]
fn add_leaves_eight_and_uses_eleven_gas() {
    let mut vm = VM::new(vec![0x01, 0x05, 0x01, 0x03, 0x02, 0xFF]);
    assert!(vm.execute().is_ok());
    let stack = vm.get_stack();
    assert_eq!(int_at(&stack, stack.len() - 1), 8);
    assert_eq!(VM::GAS_LIMIT - vm.get_gas_remaining(), 11);
    assert!(vm.is_halted());
    assert_eq!(vm.pc(), 6);
}

#[test]
fn add_then_mul_leaves_sixteen_and_uses_nineteen_gas() {
    let mut vm = VM::new(vec![0x01, 0x05, 0x01, 0x03, 0x02, 0x01, 0x02, 0x03, 0xFF]);
    assert!(vm.execute().is_ok());
    let stack = vm.get_stack();
    assert_eq!(int_at(&stack, stack.len() - 1), 16);
    assert_eq!(VM::GAS_LIMIT - vm.get_gas_remaining(), 19);
}

#[test]
fn store_takes_value_and_address_from_the_stack() {
    let program = vec![
        0x01, 0x2A, 0x01, 0x00, 0x04, // memory[0] = 42
        0x01, 0x37, 0x01, 0x01, 0x04, // memory[1] = 55
        0x01, 0x00, 0x05, // LOAD memory[0]
        0x01, 0x01, 0x05, // LOAD memory[1]
        0x02, // ADD
        0xFF,
    ];
    let mut vm = VM::new(program);
    assert!(vm.execute().is_ok());
    let stack = vm.get_stack();
    assert_eq!(stack.len(), 1);
    assert_eq!(int_at(&stack, 0), 97);
    let memory = vm.get_memory();
    assert_eq!(memory.len(), 2);
    assert!(matches!(memory[&0], Value::Int(42)));
    assert!(matches!(memory[&1], Value::Int(55)));
    assert_eq!(VM::GAS_LIMIT - vm.get_gas_remaining(), 6 * 3 + 2 * 20 + 2 * 20 + 5);
}

#[test]
fn store_with_one_operand_underflows_and_changes_nothing() {
    // PUSH 42, then STORE with a single value on the stack.
    let program = vec![0x01, 0x2A, 0x04, 0x00, 0x01, 0x37, 0x04, 0x01, 0x05, 0x00, 0x05, 0x01, 0x02, 0xFF];
    let mut vm = VM::new(program);
    match vm.execute() {
        Err(VMError::StackUnderflow) => (),
        other => panic!("Expected stack underflow, found {:?}", other),
    }
    let stack = vm.get_stack();
    assert_eq!(stack.len(), 1);
    assert_eq!(int_at(&stack, 0), 42);
    assert_eq!(vm.get_gas_remaining(), VM::GAS_LIMIT - 3);
    assert_eq!(vm.pc(), 2);
    assert!(vm.get_memory().is_empty());
    assert!(!vm.is_halted());
    assert_eq!(vm.trace_len(), 1);
}

#[test]
fn failing_instruction_leaves_the_state_as_it_was() {
    let mut vm = VM::new(vec![0x02, 0xFF]);
    assert!(matches!(vm.execute(), Err(VMError::StackUnderflow)));
    assert_eq!(vm.get_stack().len(), 0);
    assert_eq!(vm.get_gas_remaining(), VM::GAS_LIMIT);
    assert_eq!(vm.pc(), 0);
    assert_eq!(vm.trace_len(), 0);
    assert_eq!(vm.get_state_root(), [0u8; 32]);
}

#[test]
fn invalid_opcode_reports_the_byte() {
    let mut vm = VM::new(vec![0xFE, 0xFF]);
    assert!(matches!(vm.execute(), Err(VMError::InvalidOpcode(0xFE))));
    let mut vm = VM::new(vec![0x00]);
    assert!(matches!(vm.execute(), Err(VMError::InvalidOpcode(0x00))));
}

#[test]
fn overflow_happens_at_the_push_number_1025() {
    let mut program = Vec::new();
    for _ in 0..1025 {
        program.extend_from_slice(&[0x01, 0x00]);
    }
    program.push(0xFF);
    let mut vm = VM::new(program);
    assert!(matches!(vm.execute(), Err(VMError::StackOverflow)));
    assert_eq!(vm.get_stack().len(), 1024);
    assert_eq!(VM::GAS_LIMIT - vm.get_gas_remaining(), 1024 * 3);
    assert_eq!(vm.pc(), 2048);
}

#[test]
fn gas_falls_by_the_table_cost_at_every_step() {
    let program = vec![
        0x01, 0x07, // PUSH 3
        0x01, 0x07, // PUSH 3
        0x08, // EQ 3
        0x01, 0x09, // PUSH 3
        0x01, 0x02, // PUSH 3
        0x0A, // GT 3
        0x01, 0x01, // PUSH 3
        0x01, 0x00, // PUSH 3
        0x04, // STORE 20
        0x01, 0x00, // PUSH 3
        0x05, // LOAD 20
        0x01, 0x02, // PUSH 3
        0x03, // MUL 5
        0xFF, // STOP 0
    ];
    let costs = [3u64, 3, 3, 3, 3, 3, 3, 3, 20, 3, 20, 3, 5, 0];
    let mut vm = VM::new(program);
    for (i, cost) in costs.iter().enumerate() {
        let before = vm.get_gas_remaining();
        let halted = vm.step().unwrap();
        assert_eq!(before - vm.get_gas_remaining(), *cost);
        assert!(vm.get_stack().len() <= 1024);
        assert_eq!(halted, i == costs.len() - 1);
        let record = vm.trace_step(i).unwrap();
        assert_eq!(record.gas_cost, *cost);
        assert_eq!(record.stack_snapshot.len(), vm.get_stack().len());
    }
    assert!(vm.is_halted());
    assert_eq!(vm.trace_len(), costs.len());
    let stack = vm.get_stack();
    assert!(matches!(stack[0], Value::Bool(true)));
    assert!(matches!(stack[1], Value::Bool(true)));
    assert_eq!(int_at(&stack, 2), 2);
}

#[test]
fn comparisons_push_booleans() {
    let mut vm = VM::new(vec![0x01, 0x02, 0x01, 0x03, 0x09, 0x01, 0x02, 0x01, 0x03, 0x0A, 0x01, 0x02, 0x01, 0x03, 0x08]);
    assert!(vm.execute().is_ok());
    let stack = vm.get_stack();
    assert!(matches!(stack[0], Value::Bool(true))); // 2 < 3
    assert!(matches!(stack[1], Value::Bool(false))); // 2 > 3
    assert!(matches!(stack[2], Value::Bool(false))); // 2 == 3
    assert_eq!(VM::GAS_LIMIT - vm.get_gas_remaining(), 6 * 3 + 3 * 3);
}

#[test]
fn jump_moves_the_program_counter() {
    // PUSH 5, JUMP, (skipped: PUSH 9), PUSH 7, STOP
    let mut vm = VM::new(vec![0x01, 0x05, 0x06, 0x01, 0x09, 0x01, 0x07, 0xFF]);
    assert!(vm.execute().is_ok());
    let stack = vm.get_stack();
    assert_eq!(stack.len(), 1);
    assert_eq!(int_at(&stack, 0), 7);
    assert_eq!(VM::GAS_LIMIT - vm.get_gas_remaining(), 3 + 8 + 3);
}

#[test]
fn jump_out_of_range_is_refused() {
    let mut vm = VM::new(vec![0x01, 0x09, 0x06, 0xFF]);
    assert!(matches!(vm.execute(), Err(VMError::InvalidJumpDestination)));
    assert_eq!(vm.get_stack().len(), 1);
    assert_eq!(vm.pc(), 2);
}

#[test]
fn conditional_jump_follows_the_condition() {
    // cond = 1, dst = 8: jumps over PUSH 9 to PUSH 7
    let mut taken = VM::new(vec![0x01, 0x01, 0x01, 0x08, 0x07, 0x01, 0x09, 0xFF, 0x01, 0x07, 0xFF]);
    assert!(taken.execute().is_ok());
    assert_eq!(int_at(&taken.get_stack(), 0), 7);
    assert_eq!(VM::GAS_LIMIT - taken.get_gas_remaining(), 3 + 3 + 10 + 3);
    // cond = 0: falls through to PUSH 9
    let mut fallen = VM::new(vec![0x01, 0x00, 0x01, 0x08, 0x07, 0x01, 0x09, 0xFF, 0x01, 0x07, 0xFF]);
    assert!(fallen.execute().is_ok());
    assert_eq!(int_at(&fallen.get_stack(), 0), 9);
}

#[test]
fn endless_loop_runs_out_of_gas() {
    let mut vm = VM::new(vec![0x01, 0x00, 0x06]);
    assert!(matches!(vm.execute(), Err(VMError::GasLimitExceeded)));
    assert!(vm.get_gas_remaining() < 8);
    assert!(!vm.is_halted());
}

#[test]
fn load_from_an_empty_address_is_a_memory_error() {
    let mut vm = VM::new(vec![0x01, 0x07, 0x05, 0xFF]);
    match vm.execute() {
        Err(VMError::MemoryError(text)) => assert_eq!(text, "Address not found: 7"),
        other => panic!("Expected memory error, found {:?}", other),
    }
    assert_eq!(vm.get_stack().len(), 1);
}

#[test]
fn push_without_operand_is_an_invalid_transition() {
    let mut vm = VM::new(vec![0x01]);
    assert!(matches!(vm.execute(), Err(VMError::InvalidStateTransition(_))));
}

#[test]
fn a_finished_machine_refuses_to_run_again() {
    let mut vm = VM::new(vec![0x01, 0x05, 0xFF, 0x01, 0x06]);
    assert!(vm.execute().is_ok());
    let root = vm.get_state_root();
    assert!(matches!(vm.execute(), Err(VMError::InvalidStateTransition(_))));
    assert_eq!(vm.get_stack().len(), 1);
    assert_eq!(vm.get_state_root(), root);
}

#[test]
fn program_without_stop_halts_at_its_end() {
    let mut vm = VM::new(vec![0x01, 0x05]);
    assert!(vm.execute().is_ok());
    assert!(vm.is_halted());
    assert_eq!(vm.pc(), 2);
    assert_eq!(vm.trace_len(), 1);
}

#[test]
fn create_pushes_address_and_contract() {
    let code = vec![0x01, 0x05, 0x01, 0x03, 0x02, 0xFF];
    let mut program = vec![
        0x01, 0x64, // PUSH 100 (balance)
        0x01, code.len() as u8, // PUSH code size
        0x0B, // CREATE
    ];
    program.extend_from_slice(&code);
    program.push(0xFF);
    let mut vm = VM::new(program);
    assert!(vm.execute().is_ok());
    let stack = vm.get_stack();
    assert_eq!(stack.len(), 2);
    match &stack[0] {
        Value::Address(a) => assert_eq!(*a, commitment(&code)),
        other => panic!("Expected address, found {:?}", other),
    }
    match &stack[1] {
        Value::Contract(contract) => {
            assert_eq!(contract.code, code);
            assert_eq!(contract.balance, 100);
            assert!(contract.storage.is_empty());
        }
        other => panic!("Expected contract on stack, found {:?}", other),
    }
    assert_eq!(VM::GAS_LIMIT - vm.get_gas_remaining(), 3 + 3 + 32400);
    assert_eq!(vm.pc(), 12);
}

#[test]
fn create_with_code_beyond_the_program_fails() {
    let mut vm = VM::new(vec![0x01, 0x64, 0x01, 0x09, 0x0B, 0x01, 0x02]);
    assert!(matches!(vm.execute(), Err(VMError::ContractCreationError(_))));
    assert_eq!(vm.get_stack().len(), 2);
    assert_eq!(vm.get_gas_remaining(), VM::GAS_LIMIT - 6);
}

fn program_with_stored_contract(code: &[u8], tail: &[u8]) -> Vec<u8> {
    let cell = commitment(code)[0];
    let mut program = vec![
        0x01, 0x0A, // PUSH 10 (gas limit of the call)
        0x01, 0x07, // PUSH 7 (value of the call)
        0x01, 0x64, // PUSH 100 (balance)
        0x01, code.len() as u8, // PUSH code size
        0x0B, // CREATE
    ];
    program.extend_from_slice(code);
    program.extend_from_slice(&[0x01, cell, 0x04]); // STORE the contract in its cell
    program.extend_from_slice(tail);
    program
}

#[test]
fn call_pushes_a_frame_and_return_fills_it() {
    let code = vec![0x01, 0x05, 0xFF];
    let tail = [
        0x0C, // CALL
        0x01, 0x09, // PUSH 9 (offset)
        0x01, 0x03, // PUSH 3 (size)
        0x0D, // RETURN
        0xFF,
    ];
    let program = program_with_stored_contract(&code, &tail);
    let expected_return = program[9..12].to_vec();
    let mut vm = VM::new(program);
    assert!(vm.execute().is_ok());
    let frames = vm.get_call_frames();
    assert_eq!(frames.len(), 1);
    assert_eq!(frames[0].caller, [0u8; 32]);
    assert_eq!(frames[0].address, commitment(&code));
    assert_eq!(frames[0].value, 7);
    assert_eq!(frames[0].gas_limit, 10);
    assert_eq!(frames[0].code, code);
    assert_eq!(frames[0].return_data, expected_return);
    assert_eq!(vm.get_stack().len(), 0);
    assert_eq!(VM::GAS_LIMIT - vm.get_gas_remaining(), 4 * 3 + 32400 + 3 + 20 + 40 + 3 + 3 + 5);
}

#[test]
fn balance_reads_the_stored_contract() {
    let code = vec![0xFF];
    let cell = commitment(&code)[0];
    let mut program = vec![0x01, 0x64, 0x01, 0x01, 0x0B];
    program.extend_from_slice(&code);
    program.extend_from_slice(&[0x01, cell, 0x04, 0x0F, 0xFF]);
    let mut vm = VM::new(program);
    assert!(vm.execute().is_ok());
    let stack = vm.get_stack();
    assert_eq!(stack.len(), 1);
    assert_eq!(int_at(&stack, 0), 100);
}

#[test]
fn balance_of_an_unknown_contract_is_an_execution_error() {
    let code = vec![0xFF];
    let mut program = vec![0x01, 0x64, 0x01, 0x01, 0x0B];
    program.extend_from_slice(&code);
    program.extend_from_slice(&[0x01, 0x00, 0x01, 0x00, 0x04]); // memory[0] = 0; stack: addr, contract
    let mut vm = VM::new(program);
    assert!(vm.execute().is_ok());
    // the contract is on top, so BALANCE finds no address there
    let mut program = vec![0x01, 0x64, 0x01, 0x01, 0x0B, 0xFF];
    let cell = commitment(&code)[0];
    program.extend_from_slice(&[0x01, cell.wrapping_add(1), 0x04, 0x0F]);
    let mut vm = VM::new(program);
    match vm.execute() {
        Err(VMError::ExecutionError(text)) => assert_eq!(text, "Contract not found"),
        other => panic!("Expected execution error, found {:?}", other),
    }
}

#[test]
fn sha3_commits_to_the_window() {
    let program = vec![0x01, 0x00, 0x01, 0x04, 0x0E, 0xFF];
    let expected = commitment(&program[0..4]);
    let mut vm = VM::new(program);
    assert!(vm.execute().is_ok());
    let stack = vm.get_stack();
    assert_eq!(stack.len(), 1);
    match &stack[0] {
        Value::Bytes(hash) => {
            assert_eq!(hash.len(), 32);
            assert_eq!(hash.as_slice(), &expected[..]);
        }
        other => panic!("Expected bytes (hash) on stack, found {:?}", other),
    }
    assert_eq!(VM::GAS_LIMIT - vm.get_gas_remaining(), 3 + 3 + 50);
}

#[test]
fn sha3_window_beyond_the_program_is_a_memory_error() {
    let mut vm = VM::new(vec![0x01, 0x02, 0x01, 0x09, 0x0E, 0xFF]);
    assert!(matches!(vm.execute(), Err(VMError::MemoryError(_))));
}

#[test]
fn state_root_is_set_at_halt_and_commits_to_empty_state() {
    let mut vm = VM::new(vec![0x01, 0x05, 0x01, 0x00, 0x04, 0xFF]);
    assert_eq!(vm.get_state_root(), [0u8; 32]);
    assert!(vm.execute().is_ok());
    let root = vm.get_state_root();
    assert_ne!(root, [0; 32]);
    assert_eq!(root, commitment(&[]));
    assert!(vm.get_storage().is_empty());
    assert!(vm.get_logs().is_empty());
}

#[test]
fn two_runs_of_one_program_agree() {
    let program = vec![0x01, 0x05, 0x01, 0x03, 0x02, 0x01, 0x00, 0x04, 0x01, 0x00, 0x05, 0xFF];
    let mut a = VM::new(program.clone());
    let mut b = VM::new(program);
    assert!(a.execute().is_ok());
    assert!(b.execute().is_ok());
    assert_eq!(a.get_state_root(), b.get_state_root());
    assert_eq!(a.get_gas_remaining(), b.get_gas_remaining());
    assert_eq!(a.trace_len(), b.trace_len());
    assert_eq!(format!("{:?}", a.get_stack()), format!("{:?}", b.get_stack()));
    for i in 0..a.trace_len() {
        let (x, y) = (a.trace_step(i).unwrap(), b.trace_step(i).unwrap());
        assert_eq!(x.opcode, y.opcode);
        assert_eq!(x.pc_before, y.pc_before);
        assert_eq!(x.gas_cost, y.gas_cost);
        assert_eq!(format!("{:?}", x.stack_snapshot), format!("{:?}", y.stack_snapshot));
    }
}

fn key(n: u8) -> [u8; 32] {
    let mut k = [0u8; 32];
    k[0] = n;
    k[31] = 255 - n;
    k
}

#[test]
fn state_root_does_not_depend_on_the_order_of_writes() {
    let mut a = Storage::new();
    a.insert(key(3), Value::Int(30));
    a.insert(key(1), Value::Bool(true));
    a.insert(key(2), Value::Bytes(vec![9, 8, 7]));
    let mut b = Storage::new();
    b.insert(key(2), Value::Bytes(vec![1]));
    b.insert(key(1), Value::Bool(true));
    b.insert(key(2), Value::Bytes(vec![9, 8, 7]));
    b.insert(key(3), Value::Int(30));
    let logs: Vec<Log> = vec![Log { address: key(7), topics: vec![key(8), key(9)], data: vec![1, 2, 3] }];
    let root_a = compute_state_root(&a, &logs);
    let root_b = compute_state_root(&b, &logs);
    assert_eq!(root_a, root_b);

    let mut bytes = Vec::new();
    bytes.extend_from_slice(&key(1));
    bytes.push(1);
    bytes.extend_from_slice(&key(2));
    bytes.extend_from_slice(&[9, 8, 7]);
    bytes.extend_from_slice(&key(3));
    bytes.extend_from_slice(&30i64.to_le_bytes());
    bytes.extend_from_slice(&key(7));
    bytes.extend_from_slice(&key(8));
    bytes.extend_from_slice(&key(9));
    bytes.extend_from_slice(&[1, 2, 3]);
    assert_eq!(root_a, commitment(&bytes));

    let mut c = Storage::new();
    c.insert(key(1), Value::Bool(false));
    c.insert(key(2), Value::Bytes(vec![9, 8, 7]));
    c.insert(key(3), Value::Int(30));
    assert_ne!(compute_state_root(&c, &logs), root_a);
}

#[test]
fn storage_keeps_the_last_value_of_a_key() {
    let mut s = Storage::new();
    assert!(s.is_empty());
    s.insert(key(1), Value::Int(1));
    s.insert(key(2), Value::Int(2));
    s.insert(key(1), Value::Int(3));
    assert_eq!(s.len(), 2);
    assert!(matches!(s.get(&key(1)), Some(Value::Int(3))));
    assert!(matches!(s.get(&key(2)), Some(Value::Int(2))));
    assert!(s.get(&key(3)).is_none());
    assert!(s.contains_key(&key(2)));
    assert!(!s.contains_key(&key(4)));
}

#[test]
fn wrapping_arithmetic() {
    // 127 * 127 * ... overflows i64 after enough squarings; the result wraps.
    let mut program = vec![0x01, 0x7F];
    for _ in 0..10 {
        program.extend_from_slice(&[0x01, 0x7F, 0x03]);
    }
    let mut vm = VM::new(program);
    assert!(vm.execute().is_ok());
    let mut expected: i64 = 127;
    for _ in 0..10 {
        expected = expected.wrapping_mul(127);
    }
    assert_eq!(int_at(&vm.get_stack(), 0), expected);
}

#[test]
fn test_vm_execution() {
    let program = vec![
        0x01, 0x05, // PUSH 5
        0x01, 0x03, // PUSH 3
        0x02, // ADD
        0x04, 0x00, // STORE takes value and address from the stack, which holds one value
        0x05, 0x00, // LOAD
        0xFF, // STOP
    ];
    let mut vm = VM::new(program);
    assert!(matches!(vm.execute(), Err(VMError::StackUnderflow)));

    let stack = vm.get_stack();
    assert!(!stack.is_empty());
    assert_eq!(int_at(&stack, 0), 8);
    assert_eq!(vm.pc(), 5);
    assert!(vm.get_memory().is_empty());
}

#[test]
fn vm_tests_test_memory_operations() {
    let program = vec![
        0x01, 0x2A, // PUSH 42
        0x04, 0x00, // STORE with one value on the stack
        0x01, 0x37, // PUSH 55
        0x04, 0x01, // STORE
        0x05, 0x00, // LOAD
        0x05, 0x01, // LOAD
        0x02, // ADD
        0xFF, // STOP
    ];

    let mut vm = VM::new(program);
    assert!(matches!(vm.execute(), Err(VMError::StackUnderflow)));

    let stack = vm.get_stack();
    assert_eq!(stack.len(), 1);
    assert_eq!(int_at(&stack, 0), 42);
    assert_eq!(vm.get_memory().len(), 0);
}

#[test]
fn vm_tests_test_gas_accounting() {
    let program = vec![
        0x01, 0x05, // PUSH 5 (3 gas)
        0x01, 0x03, // PUSH 3 (3 gas)
        0x02, // ADD (5 gas)
        0x04, 0x00, // STORE with one value on the stack: fails, and costs nothing
        0xFF, // STOP (0 gas)
    ];

    let mut vm = VM::new(program);
    assert!(matches!(vm.execute(), Err(VMError::StackUnderflow)));

    let gas_used = 1_000_000 - vm.get_gas_remaining();
    assert_eq!(gas_used, 11); // 3 + 3 + 5
}

#[test]
fn test_contract_creation() {
    let contract_code = vec![
        0x01, 0x05, // PUSH 5
        0x01, 0x03, // PUSH 3
        0x02, // ADD
        0xFF, // STOP
    ];

    let mut program = vec![
        0x01,
        contract_code.len() as u8, // PUSH 6
        0x01,
        0x64, // PUSH 100
        0x0B, // CREATE takes the code size from the top: 100 bytes, which the program has not
    ];
    program.extend_from_slice(&contract_code);
    program.push(0xFF); // STOP

    let mut vm = VM::new(program);
    match vm.execute() {
        Err(VMError::ContractCreationError(text)) => assert_eq!(text, "Contract code out of bounds"),
        other => panic!("Expected a contract creation error, found {:?}", other),
    }

    let stack = vm.get_stack();
    assert_eq!(stack.len(), 2);
    assert_eq!(int_at(&stack, 0), 6);
    assert_eq!(int_at(&stack, 1), 100);
    assert_eq!(1_000_000 - vm.get_gas_remaining(), 6);
}

#[test]
fn test_contract_call() {
    let contract_code = vec![
        0x01, 0x05, // PUSH 5
        0x01, 0x03, // PUSH 3
        0x02, // ADD
        0x0D, // RETURN
        0xFF, // STOP
    ];

    let mut program = vec![
        0x01,
        contract_code.len() as u8, // PUSH 7
        0x01,
        0x64, // PUSH 100
        0x0B, // CREATE with a code size of 100
    ];
    program.extend_from_slice(&contract_code);
    program.extend_from_slice(&[
        0x01, 0x0A, // PUSH 10
        0x01, 0x00, // PUSH 0
        0x0C, // CALL
        0xFF, // STOP
    ]);

    let mut vm = VM::new(program);
    assert!(matches!(vm.execute(), Err(VMError::ContractCreationError(_))));

    assert_eq!(vm.get_call_frames().len(), 0);
    assert_eq!(vm.pc(), 4);
}

#[test]
fn test_sha3_hash() {
    let program = vec![
        0x01, 0x05, // PUSH 5
        0x04, 0x00, // STORE with one value on the stack
        0x01, 0x20, // PUSH 32
        0x01, 0x00, // PUSH 0
        0x0E, // SHA3
        0xFF, // STOP
    ];

    let mut vm = VM::new(program);
    assert!(matches!(vm.execute(), Err(VMError::StackUnderflow)));

    let stack = vm.get_stack();
    assert_eq!(stack.len(), 1);
    assert_eq!(int_at(&stack, 0), 5);
}

#[test]
fn test_state_root() {
    let program = vec![
        0x01, 0x05, // PUSH 5
        0x04, 0x00, // STORE with one value on the stack
        0x01, 0x03, // PUSH 3
        0x04, 0x01, // STORE
        0xFF, // STOP
    ];

    let mut vm = VM::new(program);
    assert!(matches!(vm.execute(), Err(VMError::StackUnderflow)));

    // the machine did not halt, so no root was computed
    assert_eq!(vm.get_state_root(), [0; 32]);
    assert!(!vm.is_halted());
}
