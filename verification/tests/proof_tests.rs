use bellman::groth16::{create_random_proof, generate_random_parameters, Parameters, Proof};
use blake2::{Blake2s256, Digest};
use bls12_381::{Bls12, Scalar};
use rand::thread_rng;
use rayon::iter::{IntoParallelRefIterator, ParallelIterator};
use zkvm::circuit::r1cs::{ConstraintSystem, Term, Variable};
use zkvm::circuit::{VMCircuit, VMState};
use zkvm::field::FieldElement;
use zkvm::proving::{ProofData, ProofError, ProofSystem, ProofSystemBuilder};
use zkvm::vm::value::Value;
use zkvm::vm::{VMError, VM};
use zkvm::{ZKVMError, ZKVM};

struct Replay(ConstraintSystem);

fn scalar(f: &FieldElement) -> Scalar {
    Option::from(Scalar::from_bytes(&f.bytes)).unwrap()
}

fn combination(
    terms: &[Term],
    inputs: &[bellman::Variable],
    aux: &[bellman::Variable],
) -> bellman::LinearCombination<Scalar> {
    let mut lc = bellman::LinearCombination::zero();
    for t in terms {
        let v = match t.var {
            Variable::Input(i) => inputs[i],
            Variable::Aux(i) => aux[i],
        };
        lc = lc + (scalar(&t.coeff), v);
    }
    lc
}

impl bellman::Circuit<Scalar> for Replay {
    fn synthesize<CS: bellman::ConstraintSystem<Scalar>>(self, cs: &mut CS) -> Result<(), bellman::SynthesisError> {
        let mut inputs = vec![CS::one()];
        for slot in self.0.inputs.iter().skip(1) {
            let value = slot.as_ref().map(scalar);
            inputs.push(cs.alloc_input(|| "input", || value.ok_or(bellman::SynthesisError::AssignmentMissing))?);
        }
        let mut aux = Vec::new();
        for slot in self.0.aux.iter() {
            let value = slot.as_ref().map(scalar);
            aux.push(cs.alloc(|| "aux", || value.ok_or(bellman::SynthesisError::AssignmentMissing))?);
        }
        for c in self.0.constraints.iter() {
            let a = combination(&c.a, &inputs, &aux);
            let b = combination(&c.b, &inputs, &aux);
            let k = combination(&c.c, &inputs, &aux);
            cs.enforce(|| "constraint", |_| a, |_| b, |_| k);
        }
        Ok(())
    }
}

fn program() -> Vec<u8> {
    vec![
        0x01, 0x05, // PUSH 5
        0x01, 0x03, // PUSH 3
        0x02, // ADD
        0x01, 0x02, // PUSH 2
        0x03, // MUL
        0xFF, // STOP
    ]
}

fn witness(vm: &VM) -> (VMState, VMState) {
    let initial = VMState {
        stack: vec![],
        memory: vec![],
        storage: vec![],
        program_counter: FieldElement::from_u64(0),
        gas_remaining: FieldElement::from_u64(VM::GAS_LIMIT),
    };
    let stack = zkvm::encode_stack(&vm.get_stack());
    let fin = VMState {
        stack,
        memory: vec![],
        storage: vec![],
        program_counter: FieldElement::from_u64(vm.pc() as u64),
        gas_remaining: FieldElement::from_u64(vm.get_gas_remaining()),
    };
    (initial, fin)
}

fn key_bytes(params: &Parameters<Bls12>) -> Vec<u8> {
    let mut bytes = Vec::new();
    params.vk.write(&mut bytes).unwrap();
    bytes
}

fn proof_bytes(proof: &Proof<Bls12>) -> Vec<u8> {
    let mut bytes = Vec::new();
    bytes.extend_from_slice(&proof.a.to_uncompressed());
    bytes.extend_from_slice(&proof.b.to_uncompressed());
    bytes.extend_from_slice(&proof.c.to_uncompressed());
    bytes
}

/// A machine that ran the program, the parameters of its circuit, and a
/// proof of the run.
fn proved() -> (ZKVM, Vec<u8>, ProofData) {
    let shape = VMCircuit::new(program(), 16).synthesize().unwrap();
    let params = generate_random_parameters::<Bls12, _, _>(Replay(shape), &mut thread_rng()).unwrap();
    let key = key_bytes(&params);
    let mut zkvm = ZKVM::new(program(), Ok(key.clone())).unwrap();
    zkvm.execute().unwrap();
    let cs = zkvm.constraint_system().unwrap();
    assert!(cs.is_satisfied());
    let proof = create_random_proof(Replay(cs), &params, &mut thread_rng()).unwrap();
    let data = zkvm.generate_proof(Ok(proof_bytes(&proof))).unwrap();
    (zkvm, key, data)
}

/// Whether verifying ended because the key is no verifying key.
fn lacked_key(r: Result<bool, ProofError>) -> bool {
    matches!(r, Err(ProofError::VerifyError(text)) if text == "Invalid verifying key")
}

fn copy(data: &ProofData) -> ProofData {
    ProofData::new(data.proof.clone(), data.public_inputs.clone(), data.hash)
}

#[test]
fn test_proof_generation_and_verification() {
    let (zkvm, key, data) = proved();
    assert_eq!(data.proof.len(), 384);
    assert_eq!(data.public_inputs.len(), 5);
    assert_eq!(data.hash, ProofSystem::hash_proof(&data.proof, &data.public_inputs));
    // gas used is the fourth public input
    assert_eq!(data.public_inputs[3].bytes, FieldElement::from_u64(19).bytes);
    // the machine's proof system holds the proof in its cache
    assert_eq!(zkvm.verify_proof(&data).ok(), Some(true));
    // a proof system that never saw the proof checks it
    let fresh = ProofSystem::setup(key);
    assert_eq!(fresh.verify(&data).ok(), Some(true));
    // the circuit is consumed
    let mut zkvm = zkvm;
    assert!(matches!(zkvm.generate_proof(Ok(vec![])), Err(ZKVMError::StateError(_))));
    assert!(matches!(zkvm.constraint_system(), Err(ZKVMError::StateError(_))));
}

#[test]
fn lib_test_batch_verification() {
    let (zkvm, key, data) = proved();
    let mut bad = copy(&data);
    bad.proof[7] ^= 1;
    let good = vec![copy(&data), copy(&data), copy(&data)];
    assert_eq!(zkvm.batch_verify(&good).ok(), Some(true));
    let mixed = vec![copy(&data), bad, copy(&data)];
    assert_eq!(zkvm.batch_verify(&mixed).ok(), Some(false));
    let fresh = ProofSystem::setup(key);
    assert_eq!(fresh.batch_verify(&good).ok(), Some(true));
    assert_eq!(fresh.batch_verify(&mixed).ok(), Some(false));
    assert_eq!(fresh.batch_verify(&Vec::new()).ok(), Some(true));
    for pd in mixed.iter() {
        let single = fresh.verify(pd).unwrap();
        assert_eq!(single, pd.proof == data.proof);
    }
}

#[test]
fn test_proof_system() {
    let (_, key, data) = proved();
    let mut system = ProofSystem::setup(key);
    assert_eq!(system.verify(&data).ok(), Some(true));
    let again = system.prove(Ok(data.proof.clone()), data.public_inputs.clone()).unwrap();
    assert_eq!(again.hash, data.hash);
    assert_eq!(system.verify(&again).ok(), Some(true));
}

#[test]
fn proof_test_batch_verification() {
    let mut system = ProofSystem::setup(Vec::new());
    let a = system.prove(Ok(vec![1u8; 384]), vec![FieldElement::from_u64(1)]).unwrap();
    let b = system.prove(Ok(vec![2u8; 384]), vec![FieldElement::from_u64(2)]).unwrap();
    let unknown = ProofData::new(vec![3u8; 384], vec![], ProofSystem::hash_proof(&vec![3u8; 384], &vec![]));
    assert_eq!(system.batch_verify(&vec![copy(&a), copy(&b)]).ok(), Some(true));
    // the proof that is not cached would need the verifier, which has no key
    assert!(lacked_key(system.batch_verify(&vec![copy(&a), unknown, copy(&b)])));
    // one whose digest does not bind it is rejected without the verifier
    let unbound = ProofData::new(vec![3u8; 384], vec![], [0u8; 32]);
    assert_eq!(system.batch_verify(&vec![copy(&a), unbound, copy(&b)]).ok(), Some(false));
}

#[test]
fn proof_test_proof_caching() {
    let mut system = ProofSystem::setup(Vec::new());
    let data = system.prove(Ok(vec![9u8; 384]), vec![]).unwrap();
    // the verifier has no key that it could check the proof with: only the
    // cache can have accepted it
    assert_eq!(system.verify(&data).ok(), Some(true));
    assert_eq!(system.verify(&data).ok(), Some(true));
}

#[test]
fn tampered_proof_data_is_rejected() {
    let (_, key, data) = proved();
    let fresh = ProofSystem::setup(key);
    assert_eq!(fresh.verify(&data).ok(), Some(true));

    let mut flipped = copy(&data);
    flipped.proof[100] ^= 0x10;
    assert_eq!(fresh.verify(&flipped).ok(), Some(false));

    let mut flipped = copy(&data);
    flipped.public_inputs[3].bytes[0] ^= 1;
    assert_eq!(fresh.verify(&flipped).ok(), Some(false));

    let mut flipped = copy(&data);
    flipped.hash[31] ^= 0x80;
    assert_eq!(fresh.verify(&flipped).ok(), Some(false));

    // with the digest made to fit, the verifier itself rejects
    let mut refit = copy(&data);
    refit.public_inputs[3] = FieldElement::from_u64(20);
    refit.hash = ProofSystem::hash_proof(&refit.proof, &refit.public_inputs);
    assert_eq!(fresh.verify(&refit).ok(), Some(false));

    let mut short = copy(&data);
    short.proof.truncate(383);
    short.hash = ProofSystem::hash_proof(&short.proof, &short.public_inputs);
    assert_eq!(fresh.verify(&short).ok(), Some(false));

    // a key that is no verifying key is an error, not a verdict
    let wrong_key = ProofSystem::setup(vec![1, 2, 3]);
    assert!(lacked_key(wrong_key.verify(&data)));
    // unless the verifier need not be asked
    let mut unbound = copy(&data);
    unbound.hash[0] ^= 1;
    assert_eq!(wrong_key.verify(&unbound).ok(), Some(false));
}

#[test]
fn cached_proof_is_accepted_without_the_verifier() {
    // a proof system whose key is no key at all accepts what it has cached
    let mut system = ProofSystem::setup(Vec::new());
    let inputs = vec![FieldElement::from_u64(1), FieldElement::from_u64(2)];
    let data = system.prove(Ok(vec![7u8; 384]), inputs).unwrap();
    assert_eq!(system.verify(&data).ok(), Some(true));
    // changed inputs under the cached digest and proof are still a cache hit
    let mut changed = copy(&data);
    changed.public_inputs[0] = FieldElement::from_u64(9);
    assert_eq!(system.verify(&changed).ok(), Some(true));
    // a changed proof is not
    let mut changed = copy(&data);
    changed.proof[0] ^= 1;
    assert_eq!(system.verify(&changed).ok(), Some(false));
    // a system that has not cached it would have to ask the verifier
    assert!(lacked_key(ProofSystem::setup(Vec::new()).verify(&data)));
}

#[test]
fn failed_proving_changes_nothing() {
    let mut system = ProofSystem::setup(Vec::new());
    let first = system.prove(Ok(vec![1u8; 384]), vec![]).unwrap();
    match system.prove(Err(ProofError::ProveError("synthesis".to_string())), vec![]) {
        Err(ProofError::ProveError(text)) => assert_eq!(text, "synthesis"),
        _ => panic!("Expected prove error"),
    }
    assert_eq!(system.verify(&first).ok(), Some(true));
}

#[test]
fn cache_evicts_the_proof_used_least_recently() {
    let mut system = ProofSystemBuilder::new().with_cache_size(2).build(Vec::new());
    assert_eq!(system.cache_capacity(), 2);
    let a = system.prove(Ok(vec![1u8; 384]), vec![]).unwrap();
    let b = system.prove(Ok(vec![2u8; 384]), vec![]).unwrap();
    assert_eq!(system.verify(&a).ok(), Some(true));
    assert_eq!(system.verify(&b).ok(), Some(true));
    // putting `a` again moves it to the front, so `b` leaves next
    let a2 = system.prove(Ok(vec![1u8; 384]), vec![]).unwrap();
    assert_eq!(a2.hash, a.hash);
    let c = system.prove(Ok(vec![3u8; 384]), vec![]).unwrap();
    assert_eq!(system.verify(&a).ok(), Some(true));
    assert!(lacked_key(system.verify(&b)));
    assert_eq!(system.verify(&c).ok(), Some(true));
}

#[test]
fn test_proof_system_builder() {
    let builder = ProofSystemBuilder::new()
        .with_cache_size(2000)
        .with_parallel_verification(true)
        .with_verification_batch_size(50);
    assert!(builder.parallel_verification());
    assert_eq!(builder.verification_batch_size(), Some(50));
    let system = builder.build(Vec::new());
    assert_eq!(system.cache_capacity(), 2000);
    assert_eq!(ProofSystemBuilder::new().build(Vec::new()).cache_capacity(), 1000);
    assert_eq!(ProofSystem::setup(Vec::new()).cache_capacity(), 1000);
    let none = ProofSystemBuilder::new().with_cache_size(0).build(Vec::new());
    let mut none = none;
    let data = none.prove(Ok(vec![1u8; 384]), vec![]).unwrap();
    assert!(lacked_key(none.verify(&data)));
}

#[test]
fn binding_digest_is_blake2s_of_proof_and_inputs() {
    let proof = vec![5u8; 384];
    let inputs = vec![FieldElement::from_u64(258), FieldElement::from_u64(1)];
    let mut bytes = proof.clone();
    let mut first = [0u8; 32];
    first[0] = 2;
    first[1] = 1;
    let mut second = [0u8; 32];
    second[0] = 1;
    bytes.extend_from_slice(&first);
    bytes.extend_from_slice(&second);
    let expected: [u8; 32] = Blake2s256::digest(&bytes).into();
    assert_eq!(ProofSystem::hash_proof(&proof, &inputs), expected);
}

#[test]
fn test_proof_serialization() {
    let data = ProofData::new(
        (0..384).map(|i| i as u8).collect(),
        vec![FieldElement::from_u64(7), FieldElement::from_u64(8)],
        [9u8; 32],
    );
    let bytes = data.to_bytes();
    assert_eq!(bytes.len(), 384 + 8 + 64 + 32);
    assert_eq!(&bytes[384..392], &2u64.to_le_bytes());
    assert_eq!(bytes[392], 7);
    assert_eq!(&bytes[bytes.len() - 32..], &[9u8; 32]);
    let back = ProofData::from_bytes(&bytes).unwrap();
    assert_eq!(back.proof, data.proof);
    let (zkvm, _, proved_data) = proved();
    let read_back = ProofData::from_bytes(&proved_data.to_bytes()).unwrap();
    assert!(zkvm.verify_proof(&read_back).unwrap());
    assert_eq!(back.public_inputs.len(), 2);
    assert_eq!(back.public_inputs[1].bytes, data.public_inputs[1].bytes);
    assert_eq!(back.hash, data.hash);
    assert!(ProofData::from_bytes(&bytes[..bytes.len() - 1].to_vec()).is_none());
    let mut longer = bytes.clone();
    longer.push(0);
    assert!(ProofData::from_bytes(&longer).is_none());
    let mut miscounted = bytes.clone();
    miscounted[384] = 3;
    assert!(ProofData::from_bytes(&miscounted).is_none());
    assert!(ProofData::from_bytes(&vec![0u8; 423]).is_none());
    assert!(ProofData::from_bytes(&vec![0u8; 424]).is_some());
}

#[test]
fn declared_witness_replaces_the_derived_one() {
    let mut zkvm = ZKVM::new(program(), Ok(Vec::new())).unwrap();
    zkvm.execute().unwrap();
    assert!(zkvm.constraint_system().unwrap().is_satisfied());
    let (initial, mut fin) = witness(zkvm.vm());
    fin.stack[0] = FieldElement::from_u64(17);
    zkvm.declare_witness(initial, fin);
    assert!(!zkvm.constraint_system().unwrap().is_satisfied());
    let (initial, fin) = witness(zkvm.vm());
    zkvm.declare_witness(initial, fin);
    assert!(zkvm.constraint_system().unwrap().is_satisfied());
}

#[test]
fn machine_state_is_encoded_with_its_memory() {
    let mut vm = VM::new(vec![0x01, 0x2A, 0x01, 0x02, 0x04, 0x01, 0x07, 0xFF]);
    vm.execute().unwrap();
    let state = zkvm::field_state(&vm);
    assert_eq!(state.stack.len(), 1);
    assert_eq!(state.stack[0].bytes, FieldElement::from_u64(7).bytes);
    assert_eq!(state.memory.len(), 1);
    assert_eq!(state.memory[0].0.bytes, FieldElement::from_u64(2).bytes);
    assert_eq!(state.memory[0].1.bytes, FieldElement::from_u64(42).bytes);
    assert!(state.storage.is_empty());
    assert_eq!(state.program_counter.bytes, FieldElement::from_u64(8).bytes);
    assert_eq!(state.gas_remaining.bytes, FieldElement::from_u64(VM::GAS_LIMIT - 29).bytes);
    // a value that is no number stands for the commitment to its bytes
    let mut vm = VM::new(vec![0x01, 0x00, 0x01, 0x01, 0x0E, 0xFF]);
    vm.execute().unwrap();
    let digest = match &vm.get_stack()[0] {
        Value::Bytes(bytes) => bytes.clone(),
        other => panic!("Expected bytes, found {:?}", other),
    };
    let mut commitment = [0u8; 32];
    commitment.copy_from_slice(&blake2::Blake2b512::digest(&digest)[..32]);
    let state = zkvm::field_state(&vm);
    assert_eq!(state.stack[0].bytes, FieldElement::from_bytes_reduced(commitment).bytes);
    // a cell beyond the reach of a byte
    let mut vm = VM::new(vec![0x01, 0x05, 0x01, 0xFF, 0x01, 0xFF, 0x02, 0x04, 0xFF]);
    vm.execute().unwrap();
    assert_eq!(vm.get_memory().len(), 1);
    let state = zkvm::field_state(&vm);
    assert_eq!(state.memory.len(), 1);
    assert_eq!(state.memory[0].0.bytes, FieldElement::from_u64(510).bytes);
    assert_eq!(state.memory[0].1.bytes, FieldElement::from_u64(5).bytes);
}

#[test]
fn stack_values_are_encoded_as_residues() {
    let stack = vec![Value::Int(5), Value::Bool(true), Value::Bool(false), Value::Int(-1)];
    let encoded = zkvm::encode_stack(&stack);
    assert_eq!(encoded[0].bytes, FieldElement::from_u64(5).bytes);
    assert_eq!(encoded[1].bytes, FieldElement::one().bytes);
    assert_eq!(encoded[2].bytes, FieldElement::zero().bytes);
    assert_eq!(encoded[3].bytes, FieldElement::zero().sub(&FieldElement::one()).bytes);
    assert_eq!(encoded[3].bytes, FieldElement::from_i64(-1).bytes);
    let mut commitment = [0u8; 32];
    commitment.copy_from_slice(&blake2::Blake2b512::digest(&[1u8])[..32]);
    let encoded = zkvm::encode_stack(&vec![Value::Bytes(vec![1])]);
    assert_eq!(encoded[0].bytes, FieldElement::from_bytes_reduced(commitment).bytes);
    commitment.copy_from_slice(&blake2::Blake2b512::digest(&[0u8; 32])[..32]);
    let encoded = zkvm::encode_value(&Value::Address([0u8; 32]));
    assert_eq!(encoded.bytes, FieldElement::from_bytes_reduced(commitment).bytes);
}

fn create_test_program() -> Vec<u8> {
    vec![
        0x01, 0x05, // PUSH 5
        0x01, 0x03, // PUSH 3
        0x02, // ADD
        0x01, 0x02, // PUSH 2
        0x03, // MUL
        0x04, 0x00, // STORE with one value on the stack
        0xFF, // STOP
    ]
}

/// A machine for the program whose STORE finds one value on the stack: its
/// run fails there, and leaves no witness to prove.
fn stranded() -> ZKVM {
    let mut zkvm = ZKVM::new(create_test_program(), Ok(Vec::new())).unwrap();
    assert!(matches!(zkvm.execute(), Err(ZKVMError::VMError(VMError::StackUnderflow))));
    assert_eq!(zkvm.vm().get_stack().len(), 1);
    zkvm
}

fn no_proof() -> Result<Vec<u8>, ProofError> {
    Err(ProofError::ProveError("nothing to prove".to_string()))
}

#[test]
fn test_proof_generation() {
    let mut zkvm = stranded();

    match zkvm.generate_proof(no_proof()) {
        Err(ZKVMError::CircuitError(e)) => assert_eq!(e, zkvm::circuit::semantics::SynthesisError::AssignmentMissing),
        other => panic!("Expected a circuit error, found {:?}", other.is_ok()),
    }
}

#[test]
fn test_proof_verification() {
    let mut zkvm = stranded();

    assert!(zkvm.generate_proof(Ok(vec![0u8; 384])).is_err());
    // what was never proved is not accepted: with a verifying key the
    // verifier rejects it
    let made_up = ProofData::new(vec![0u8; 384], vec![], ProofSystem::hash_proof(&vec![0u8; 384], &vec![]));
    let (_, key, proved_data) = proved();
    let checker = ZKVM::new(program(), Ok(key)).unwrap();
    assert!(!checker.verify_proof(&made_up).unwrap());
    assert!(checker.verify_proof(&proved_data).unwrap());
}

#[test]
fn test_invalid_proof_rejection() {
    let mut zkvm = stranded();
    assert!(zkvm.generate_proof(no_proof()).is_err());

    // proof data whose inputs were changed after the digest was taken
    let proof = vec![0u8; 384];
    let inputs = vec![FieldElement::from_u64(3)];
    let hash = ProofSystem::hash_proof(&proof, &inputs);
    let doubled = inputs[0].add(&inputs[0]);
    let proof_data = ProofData::new(proof, vec![doubled], hash);

    assert!(!zkvm.verify_proof(&proof_data).unwrap());
}

#[test]
fn proof_tests_test_batch_verification() {
    let mut zkvm = stranded();

    let mut proofs = Vec::new();
    for _ in 0..5 {
        assert!(zkvm.execute().is_err());
        if let Ok(proof_data) = zkvm.generate_proof(no_proof()) {
            proofs.push(proof_data);
        }
    }
    assert!(proofs.is_empty());
    assert!(zkvm.batch_verify(&proofs).unwrap());

    // five proofs of a program that runs to its end, verified in a batch by
    // a machine that has cached none of them
    let (_, key, proved_data) = proved();
    let checker = ZKVM::new(program(), Ok(key)).unwrap();
    let mut proofs: Vec<ProofData> = (0..5).map(|_| copy(&proved_data)).collect();
    assert!(checker.batch_verify(&proofs).unwrap());
    proofs[3].proof[7] ^= 1;
    assert!(!checker.batch_verify(&proofs).unwrap());
}

#[test]
fn proof_tests_test_proof_caching() {
    let mut zkvm = stranded();
    assert!(zkvm.generate_proof(no_proof()).is_err());

    // the machine that took the proof in finds it in its cache, both times
    let (prover, key, proved_data) = proved();
    assert!(prover.verify_proof(&proved_data).unwrap());
    assert!(prover.verify_proof(&proved_data).unwrap());
    // a machine that has not cached it asks the verifier, with the same answer
    let checker = ZKVM::new(program(), Ok(key)).unwrap();
    assert!(checker.verify_proof(&proved_data).unwrap());
    // only the cache can accept under a key that is no key
    let keyless = ZKVM::new(program(), Ok(Vec::new())).unwrap();
    assert!(keyless.verify_proof(&proved_data).is_err());
}

#[test]
fn test_large_computation_proof() {
    let mut program = Vec::new();
    for i in 0..100 {
        program.extend_from_slice(&[
            0x01,
            i as u8, // PUSH i
            0x01,
            (i + 1) as u8, // PUSH i+1
            0x02, // ADD
            0x04,
            i as u8, // STORE with one value on the stack
        ]);
    }
    program.push(0xFF); // STOP

    let mut zkvm = ZKVM::new(program, Ok(Vec::new())).unwrap();

    assert!(matches!(zkvm.execute(), Err(ZKVMError::VMError(VMError::StackUnderflow))));
    assert_eq!(zkvm.vm().pc(), 5);
    assert!(zkvm.generate_proof(no_proof()).is_err());
}

#[test]
fn test_concurrent_verification() {
    let mut zkvm = stranded();

    let mut proofs = Vec::new();
    for _ in 0..10 {
        assert!(zkvm.execute().is_err());
        if let Ok(proof_data) = zkvm.generate_proof(no_proof()) {
            proofs.push(proof_data);
        }
    }
    assert!(proofs.is_empty());

    // ten proofs of a program that runs to its end, verified side by side
    let (_, key, proved_data) = proved();
    let checker = ZKVM::new(program(), Ok(key)).unwrap();
    let proofs: Vec<ProofData> = (0..10).map(|_| copy(&proved_data)).collect();
    let results: Vec<bool> = proofs.par_iter().map(|proof| checker.verify_proof(proof).unwrap()).collect();

    assert_eq!(results.len(), 10);
    assert!(results.iter().all(|&x| x));
}
