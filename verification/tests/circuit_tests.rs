use zkvm::circuit::r1cs::{ConstraintSystem, Term, Variable};
use zkvm::circuit::semantics::SynthesisError;
use zkvm::circuit::{VMCircuit, VMState};
use zkvm::crypto::ZKCircuit;
use zkvm::field::FieldElement;
use zkvm::vm::value::Value;
use zkvm::vm::VM;

fn fe(x: u64) -> FieldElement {
    FieldElement::from_u64(x)
}

fn state(stack: Vec<u64>, memory: Vec<(u64, u64)>, pc: u64, gas: u64) -> VMState {
    VMState {
        stack: stack.into_iter().map(fe).collect(),
        memory: memory.into_iter().map(|(address, value)| (fe(address), fe(value))).collect(),
        storage: vec![],
        program_counter: fe(pc),
        gas_remaining: fe(gas),
    }
}

/// The element that stands for the state root of a run: no instruction
/// writes to the storage or the logs, so every run that ends has this one.
fn root() -> FieldElement {
    let mut vm = VM::new(vec![0xFF]);
    vm.execute().unwrap();
    FieldElement::from_bytes_reduced(vm.get_state_root())
}

fn circuit(program: Vec<u8>, initial: VMState, fin: VMState) -> VMCircuit {
    VMCircuit::with_witness(program, 32, initial, fin).with_state_root(root())
}

const MODULUS: [u8; 32] = [
    0x01, 0x00, 0x00, 0x00, 0xff, 0xff, 0xff, 0xff, 0xfe, 0x5b, 0xfe, 0xff, 0x02, 0xa4, 0xbd, 0x53, 0x05, 0xd8, 0xa1,
    0x09, 0x08, 0xd8, 0x39, 0x33, 0x48, 0x7d, 0x9d, 0x29, 0x53, 0xa7, 0xed, 0x73,
];

#[test]
fn field_arithmetic_is_modular() {
    assert_eq!(fe(5).add(&fe(7)).bytes, fe(12).bytes);
    assert_eq!(fe(5).mul(&fe(7)).bytes, fe(35).bytes);
    assert_eq!(fe(7).sub(&fe(5)).bytes, fe(2).bytes);
    let minus_two = fe(5).sub(&fe(7));
    let mut expected = MODULUS;
    expected[0] = 0xff;
    expected[1] = 0xff;
    expected[2] = 0xff;
    expected[3] = 0xff;
    expected[4] = 0xfe;
    assert_eq!(minus_two.bytes, expected);
    assert_eq!(minus_two.add(&fe(2)).bytes, fe(0).bytes);
    assert_eq!(FieldElement::from_i64(-2).bytes, minus_two.bytes);
    assert_eq!(FieldElement::from_i64(i64::MIN).add(&fe(1 << 63)).bytes, fe(0).bytes);
    assert_eq!(FieldElement::from_bytes_reduced(MODULUS).bytes, fe(0).bytes);
    let mut above = MODULUS;
    above[0] = 0x03;
    assert_eq!(FieldElement::from_bytes_reduced(above).bytes, fe(2).bytes);
    assert_eq!(FieldElement { bytes: above }.mul(&fe(3)).bytes, fe(6).bytes);
    assert!(fe(3).same(&fe(3)));
    assert!(!fe(3).same(&fe(4)));
    let mut big = [0u8; 32];
    big[8] = 1;
    assert_eq!(fe(u64::MAX).add(&fe(1)).bytes, big);
}

const GAS: u64 = 1_000_000;

fn fresh() -> VMState {
    state(vec![], vec![], 0, GAS)
}

/// The declared states of an honest prover: the fresh machine, and the
/// machine after it ran `program`.
fn honest(program: &[u8]) -> (VMState, VMState) {
    let mut vm = VM::new(program.to_vec());
    vm.execute().unwrap();
    (fresh(), zkvm::field_state(&vm))
}

#[test]
fn honest_witness_satisfies_the_circuit() {
    let program = vec![0x01, 0x05, 0x01, 0x03, 0x02, 0x01, 0x02, 0x03, 0xFF];
    let c = circuit(program, fresh(), state(vec![16], vec![], 9, GAS - 19));
    let cs = c.synthesize().unwrap();
    assert_eq!(cs.inputs.len(), 6);
    assert!(cs.is_satisfied());
    let inputs = c.declared_inputs().unwrap();
    for i in 0..5 {
        assert_eq!(cs.inputs[i + 1].unwrap().bytes, inputs[i].bytes);
    }
    assert_eq!(inputs[3].bytes, fe(19).bytes);
    assert_eq!(inputs[4].bytes, root().bytes);
    // another state root is not the run's
    let program = vec![0x01, 0x05, 0x01, 0x03, 0x02, 0x01, 0x02, 0x03, 0xFF];
    let other = VMCircuit::with_witness(program, 32, fresh(), state(vec![16], vec![], 9, GAS - 19))
        .with_state_root(fe(77));
    assert!(!other.synthesize().unwrap().is_satisfied());
}

#[test]
fn perturbed_final_state_fails_the_circuit() {
    let program = vec![0x01, 0x05, 0x01, 0x03, 0x02, 0x01, 0x02, 0x03, 0xFF];
    let cases = vec![
        state(vec![17], vec![], 9, GAS - 19),
        state(vec![16], vec![], 8, GAS - 19),
        state(vec![16], vec![], 9, GAS - 20),
        // final states of another shape
        state(vec![16, 0], vec![], 9, GAS - 19),
        state(vec![], vec![], 9, GAS - 19),
        state(vec![16], vec![(0, 0)], 9, GAS - 19),
    ];
    for fin in cases {
        let cs = circuit(program.clone(), fresh(), fin).synthesize().unwrap();
        assert!(!cs.is_satisfied());
    }
}

#[test]
fn declared_initial_state_must_be_the_fresh_machine() {
    let program = vec![0x01, 0x05, 0xFF];
    let last = || state(vec![5], vec![], 3, GAS - 3);
    assert!(circuit(program.clone(), fresh(), last()).synthesize().unwrap().is_satisfied());
    let others = vec![
        state(vec![], vec![], 1, GAS),
        state(vec![], vec![], 0, GAS - 1),
        state(vec![3], vec![], 0, GAS),
        state(vec![], vec![(0, 0)], 0, GAS),
    ];
    for initial in others {
        let cs = circuit(program.clone(), initial, last()).synthesize().unwrap();
        assert!(!cs.is_satisfied());
    }
}

#[test]
fn circuit_follows_memory() {
    let program = vec![
        0x01, 0x2A, 0x01, 0x02, 0x04, // memory[2] = 42
        0x01, 0x02, 0x05, // LOAD memory[2]
        0x01, 0x02, 0x05, // LOAD memory[2]
        0x02, // ADD
        0xFF,
    ];
    let gas = 4 * 3 + 3 * 20 + 5;
    let c = circuit(program.clone(), fresh(), state(vec![84], vec![(2, 42)], 13, GAS - gas));
    assert!(c.synthesize().unwrap().is_satisfied());
    // another value, and another address
    let c = circuit(program.clone(), fresh(), state(vec![84], vec![(2, 43)], 13, GAS - gas));
    assert!(!c.synthesize().unwrap().is_satisfied());
    let c = circuit(program, fresh(), state(vec![84], vec![(3, 42)], 13, GAS - gas));
    assert!(!c.synthesize().unwrap().is_satisfied());
    // a cell that was never written holds nothing, as in the interpreter
    let gap = vec![0x01, 0x2A, 0x01, 0x02, 0x04, 0x01, 0x00, 0x05, 0xFF];
    assert_eq!(VMCircuit::new(gap, 32).synthesize().err(), Some(SynthesisError::Unsatisfiable));
    // an address that was computed: 1 + 1
    let computed = vec![0x01, 0x07, 0x01, 0x01, 0x01, 0x01, 0x02, 0x04, 0xFF];
    let (first, last) = honest(&computed);
    assert_eq!(last.memory.len(), 1);
    assert_eq!(last.memory[0].0.bytes, fe(2).bytes);
    assert_eq!(last.memory[0].1.bytes, fe(7).bytes);
    assert!(circuit(computed, first, last).synthesize().unwrap().is_satisfied());
}

#[test]
fn circuit_follows_stores_to_any_cell() {
    // 7 goes to the cell 300, 8 to the cell 3, then 9 to the cell 300 again
    let program = vec![
        0x01, 0x07, 0x01, 0xC8, 0x01, 0x64, 0x02, 0x04, // memory[200 + 100] = 7
        0x01, 0x08, 0x01, 0x03, 0x04, // memory[3] = 8
        0x01, 0x09, 0x01, 0xC8, 0x01, 0x64, 0x02, 0x04, // memory[300] = 9
        0xFF,
    ];
    let mut vm = VM::new(program.clone());
    vm.execute().unwrap();
    assert_eq!(vm.get_written(), vec![300, 3]);
    let (first, last) = honest(&program);
    assert_eq!(last.memory.len(), 2);
    assert_eq!(last.memory[0].0.bytes, fe(300).bytes);
    assert_eq!(last.memory[0].1.bytes, fe(9).bytes);
    assert_eq!(last.memory[1].0.bytes, fe(3).bytes);
    assert_eq!(last.memory[1].1.bytes, fe(8).bytes);
    let shape = VMCircuit::new(program.clone(), 32).synthesize().unwrap();
    let cs = circuit(program.clone(), first, last).synthesize().unwrap();
    assert!(cs.is_satisfied());
    assert_eq!(shape.aux.len(), cs.aux.len());
    assert_eq!(shape.constraints.len(), cs.constraints.len());
    // the cells in another order are not the run's
    let (first, mut last) = honest(&program);
    last.memory.swap(0, 1);
    assert!(!circuit(program.clone(), first, last).synthesize().unwrap().is_satisfied());
    // the value that was overwritten is not the run's
    let (first, mut last) = honest(&program);
    last.memory[0].1 = fe(7);
    assert!(!circuit(program.clone(), first, last).synthesize().unwrap().is_satisfied());
    // the program from the fresh machine to itself is no run
    assert!(!circuit(program, fresh(), fresh()).synthesize().unwrap().is_satisfied());
}

#[test]
fn circuit_without_witness_has_the_same_shape() {
    let program = vec![0x01, 0x05, 0x01, 0x03, 0x02, 0xFF];
    let shape = VMCircuit::new(program.clone(), 32).synthesize().unwrap();
    let full = circuit(program.clone(), fresh(), state(vec![8], vec![], 6, GAS - 11)).synthesize().unwrap();
    // declared states of other sizes change nothing in the shape
    let odd = circuit(program, state(vec![1, 2], vec![(0, 3)], 0, GAS), state(vec![], vec![(4, 5)], 6, 0))
        .synthesize()
        .unwrap();
    for other in [&full, &odd] {
        assert_eq!(shape.inputs.len(), other.inputs.len());
        assert_eq!(shape.aux.len(), other.aux.len());
        assert_eq!(shape.constraints.len(), other.constraints.len());
    }
    assert_eq!(shape.inputs.len(), 6);
    assert!(!shape.is_satisfied());
    assert!(full.is_satisfied());
    assert!(!odd.is_satisfied());
    assert!(VMCircuit::new(vec![0xFF], 1).declared_inputs().is_none());
}

#[test]
fn circuit_has_no_end_where_the_run_has_none() {
    let run = |program: Vec<u8>, steps: usize| VMCircuit::new(program, steps).synthesize().err();
    assert_eq!(run(vec![0x02, 0xFF], 8), Some(SynthesisError::Unsatisfiable));
    assert_eq!(run(vec![0x01], 8), Some(SynthesisError::Unsatisfiable));
    assert_eq!(run(vec![0x06, 0xFF], 8), Some(SynthesisError::Unsatisfiable));
    assert_eq!(run(vec![0x0E, 0xFF], 8), Some(SynthesisError::Unsatisfiable));
    assert_eq!(run(vec![0xFE], 8), Some(SynthesisError::Unsatisfiable));
    assert_eq!(run(vec![0x01, 0x03, 0x05, 0xFF], 8), Some(SynthesisError::Unsatisfiable));
    // a store to the cell 510 is followed like any other
    assert_eq!(run(vec![0x01, 0x05, 0x01, 0xFF, 0x01, 0xFF, 0x02, 0x04, 0xFF], 8), None);
    // three instructions do not fit into two steps
    assert_eq!(run(vec![0x01, 0x01, 0x01, 0x02, 0xFF], 2), Some(SynthesisError::Unsatisfiable));
    assert_eq!(run(vec![0x01, 0x01, 0x01, 0x02, 0xFF], 3), None);
    assert_eq!(run(vec![], 0), None);
    // an endless loop has no end within any number of steps
    assert_eq!(run(vec![0x01, 0x00, 0x06], 100), Some(SynthesisError::Unsatisfiable));
}

#[test]
fn circuit_follows_every_instruction() {
    let programs: Vec<Vec<u8>> = vec![
        vec![0x01, 0x00, 0x01, 0x00, 0x0E, 0xFF],             // SHA3 of an empty window
        vec![0x01, 0x04, 0x01, 0x02, 0x0E, 0xFF],             // SHA3 of two bytes
        vec![0x01, 0x04, 0x06, 0xFE, 0xFF],                   // JUMP over a byte that is no opcode
        vec![0x01, 0x01, 0x01, 0x07, 0x07, 0xFE, 0xFE, 0xFF], // JUMPI that is taken
        vec![0x01, 0x00, 0x01, 0x07, 0x07, 0xFF],             // JUMPI that is not taken
        vec![0x01, 0x03, 0x01, 0x03, 0x08, 0xFF],             // EQ
        vec![0x01, 0x03, 0x01, 0x04, 0x09, 0xFF],             // LT
        vec![0x01, 0x03, 0x01, 0x04, 0x0A, 0xFF],             // GT
        vec![0x01, 0x64, 0x01, 0x02, 0x0B, 0x01, 0x05, 0xFF], // CREATE with two bytes of code
        vec![0x01, 0x05, 0x01, 0x01, 0x0D, 0xFF],             // RETURN without a call frame
    ];
    for program in programs {
        let (first, last) = honest(&program);
        let shape = VMCircuit::new(program.clone(), 32).synthesize().unwrap();
        let cs = circuit(program.clone(), first, last).synthesize().unwrap();
        assert!(cs.is_satisfied(), "program {:?}", program);
        assert_eq!(shape.aux.len(), cs.aux.len());
        assert_eq!(shape.constraints.len(), cs.constraints.len());
        let (first, mut last) = honest(&program);
        last.gas_remaining = last.gas_remaining.add(&fe(1));
        assert!(!circuit(program.clone(), first, last).synthesize().unwrap().is_satisfied());
        let (first, mut last) = honest(&program);
        if !last.stack.is_empty() {
            last.stack[0] = last.stack[0].add(&fe(1));
            assert!(!circuit(program, first, last).synthesize().unwrap().is_satisfied());
        }
    }
}

#[test]
fn arithmetic_that_wraps_is_followed_as_the_interpreter_wraps() {
    // 255 to the eighth power leaves 64 bits with sign
    let mut program = vec![0x01, 0xFF];
    for _ in 0..7 {
        program.extend_from_slice(&[0x01, 0xFF, 0x03]);
    }
    program.push(0xFF);
    let mut vm = VM::new(program.clone());
    vm.execute().unwrap();
    assert!(matches!(vm.get_stack()[0], Value::Int(-568640725896660991)));
    let (first, last) = honest(&program);
    assert_eq!(last.stack[0].bytes, FieldElement::from_i64(-568640725896660991).bytes);
    assert!(circuit(program.clone(), first, last).synthesize().unwrap().is_satisfied());
    // the product in the field is not the machine's result
    let (first, mut last) = honest(&program);
    last.stack[0] = fe(17878103347812890625);
    assert!(!circuit(program, first, last).synthesize().unwrap().is_satisfied());
}

#[test]
fn gadgets_constrain_their_results() {
    let mut cs = ConstraintSystem::new();
    let a = cs.allocate(Some(fe(6)));
    let b = cs.allocate(Some(fe(7)));
    let s = cs.sum(a, b);
    let p = cs.product(a, b);
    let q = cs.plus(p, 8);
    let m = cs.minus(q, 50);
    let k = cs.constant(13);
    assert_eq!(cs.value_of(s).unwrap().bytes, fe(13).bytes);
    assert_eq!(cs.value_of(p).unwrap().bytes, fe(42).bytes);
    assert_eq!(cs.value_of(m).unwrap().bytes, fe(0).bytes);
    cs.equal(s, k);
    cs.adds_up(a, b, s);
    assert!(cs.is_satisfied());
    cs.equal(s, p);
    assert!(!cs.is_satisfied());
}

#[test]
fn hand_made_constraints_are_checked() {
    let mut cs = ConstraintSystem::new();
    let x = cs.allocate(Some(fe(3)));
    let y = cs.alloc_input(Some(fe(9)));
    let one = fe(1);
    // x * x = y
    cs.enforce(
        vec![Term { coeff: one, var: x }],
        vec![Term { coeff: one, var: x }],
        vec![Term { coeff: one, var: y }],
    );
    assert!(cs.is_satisfied());
    // (2x + 1) * 1 = 7
    cs.enforce(
        vec![Term { coeff: fe(2), var: x }, Term { coeff: one, var: Variable::Input(0) }],
        vec![Term { coeff: one, var: ConstraintSystem::one() }],
        vec![Term { coeff: fe(7), var: Variable::Input(0) }],
    );
    assert!(cs.is_satisfied());
    assert_eq!(cs.evaluate(&vec![Term { coeff: fe(2), var: x }, Term { coeff: fe(5), var: y }]).bytes, fe(51).bytes);
    let z = cs.allocate(None);
    assert!(cs.value_of(z).is_none());
    assert!(!cs.is_satisfied());
}

#[test]
fn circuit_tells_public_from_private_inputs() {
    let program = vec![0x01, 0x05, 0xFF];
    let mut initial = state(vec![], vec![(0, 4)], 0, 1000);
    initial.storage.push((fe(1), fe(2)));
    let c = circuit(program.clone(), initial, state(vec![5], vec![(0, 4)], 3, 997));
    let public = ZKCircuit::public_inputs(&c);
    let declared = c.declared_inputs().unwrap();
    assert_eq!(public.len(), 5);
    for i in 0..5 {
        assert_eq!(public[i].bytes, declared[i].bytes);
    }
    assert_eq!(public[3].bytes, fe(3).bytes);
    let private: Vec<[u8; 32]> = ZKCircuit::private_inputs(&c).iter().map(|f| f.bytes).collect();
    let expected: Vec<[u8; 32]> =
        [0u64, 4, 1, 2, 0, 1000, 5, 0, 4, 3, 997].iter().map(|x| fe(*x).bytes).collect();
    assert_eq!(private, expected);
    let bare = VMCircuit::new(program, 32);
    assert!(ZKCircuit::public_inputs(&bare).is_empty());
    assert!(ZKCircuit::private_inputs(&bare).is_empty());
}
