use zkvm::crypto::{CryptoEngine, CryptoError, SymmetricCrypto};
use zkvm::network::message::{Block, BlockHeader, Message, MessageType, Transaction};

#[test]
fn test_block_verification() {
    let block = Block {
        header: BlockHeader {
            parent_hash: zkvm::crypto::Hash::default(),
            timestamp: 0,
            number: 0,
            author: "test".to_string(),
            transactions_root: zkvm::crypto::Hash::default(),
            state_root: zkvm::crypto::Hash::default(),
            receipts_root: zkvm::crypto::Hash::default(),
        },
        transactions: vec![],
        state_root: zkvm::crypto::Hash::default(),
        receipts_root: zkvm::crypto::Hash::default(),
    };

    assert!(block.verify());
}

fn transaction() -> Transaction {
    Transaction {
        nonce: 0,
        from: "sender".to_string(),
        to: "receiver".to_string(),
        value: 100,
        data: vec![],
        signature: None,
    }
}

fn block_of(transactions: Vec<Transaction>) -> Block {
    let mut block = Block {
        header: BlockHeader {
            parent_hash: zkvm::crypto::Hash::default(),
            timestamp: 5,
            number: 1,
            author: "test".to_string(),
            transactions_root: zkvm::crypto::Hash::default(),
            state_root: zkvm::crypto::Hash::default(),
            receipts_root: zkvm::crypto::Hash::default(),
        },
        transactions,
        state_root: zkvm::crypto::Hash::default(),
        receipts_root: zkvm::crypto::Hash::default(),
    };
    block.header.transactions_root = block.compute_transactions_root();
    block
}

#[test]
fn test_transaction_signing() {
    let mut crypto = CryptoEngine::new();
    crypto.generate_keypair().unwrap();

    let mut tx = transaction();

    tx.sign(&crypto.signing_key().unwrap()).unwrap();
    assert!(tx.verify());
    assert!(tx.verify_with_key(&crypto.verifying_key().unwrap()));
    tx.value = 101;
    assert!(tx.verify());
    assert!(!tx.verify_with_key(&crypto.verifying_key().unwrap()));
}

#[test]
fn test_message_signing() {
    let mut crypto = CryptoEngine::new();
    crypto.generate_keypair().unwrap();

    let mut msg = Message::new(MessageType::Ping, "test_sender".to_string());
    let payload = b"ping from test_sender".to_vec();
    assert_eq!(msg.verify(&crypto.verifying_key().unwrap(), &payload), Err(CryptoError::InvalidSignature));

    msg.sign(&crypto.signing_key().unwrap(), &payload).unwrap();
    assert!(msg.verify(&crypto.verifying_key().unwrap(), &payload).unwrap());
    assert!(!msg.verify(&crypto.verifying_key().unwrap(), b"pong").unwrap());
    assert_eq!(msg.sender, "test_sender");
}

#[test]
fn test_signing_and_verification() {
    let mut engine = CryptoEngine::new();
    engine.generate_keypair().unwrap();

    let message = b"test message";
    let signature = engine.sign(message).unwrap();
    assert!(engine.verify(message, &signature).unwrap());
    assert!(!engine.verify(b"another message", &signature).unwrap());
}

#[test]
fn test_symmetric_encryption() {
    let key = [0u8; 32];
    let crypto = SymmetricCrypto::new(&key);

    let plaintext = b"secret message";
    let aad = b"additional data";

    let ciphertext = crypto.encrypt(plaintext, aad).unwrap();
    let decrypted = crypto.decrypt(&ciphertext, aad).unwrap();

    assert_eq!(plaintext, decrypted.as_slice());
    assert_eq!(ciphertext.len(), 12 + plaintext.len() + 16);
    assert_eq!(crypto.decrypt(&ciphertext, b"other data"), Err(CryptoError::DecryptionFailed));
    assert_eq!(crypto.decrypt(&ciphertext[..11], aad), Err(CryptoError::DecryptionFailed));
    let fixed = crypto.encrypt_with_nonce(&[7u8; 12], plaintext, aad).unwrap();
    assert_eq!(&fixed[..12], &[7u8; 12]);
    assert_eq!(crypto.decrypt(&fixed, aad).unwrap(), plaintext.to_vec());
}

#[test]
fn engine_without_keys_refuses() {
    let mut engine = CryptoEngine::new();
    assert_eq!(engine.sign(b"m"), Err(CryptoError::InvalidKey));
    assert_eq!(engine.verify(b"m", &[0u8; 64]), Err(CryptoError::InvalidKey));
    assert_eq!(engine.load_keypair(vec![0u8; 32]), Err(CryptoError::InvalidKey));
    assert!(engine.signing_key().is_none());
    assert_eq!(engine.generate_keypair(), Ok(()));
    assert_eq!(engine.signing_key().unwrap().len(), 32);
    assert_eq!(engine.load_keypair(vec![1u8; 32]), Ok(()));
    assert_eq!(engine.signing_key().unwrap(), vec![1u8; 32]);
    assert_eq!(engine.verifying_key().unwrap().len(), 33);
    let mut tx = transaction();
    assert_eq!(tx.sign(&[0u8; 32]), Err(CryptoError::InvalidKey));
    assert!(!tx.verify());
}

#[test]
fn digests_are_the_known_ones() {
    let engine = CryptoEngine::new();
    assert_eq!(
        engine.hash_blake3(b"").bytes.to_vec(),
        vec![
            0xaf, 0x13, 0x49, 0xb9, 0xf5, 0xf9, 0xa1, 0xa6, 0xa0, 0x40, 0x4d, 0xea, 0x36, 0xdc, 0xc9, 0x49, 0x9b, 0xcb,
            0x25, 0xc9, 0xad, 0xc1, 0x12, 0xb7, 0xcc, 0x9a, 0x93, 0xca, 0xe4, 0x1f, 0x32, 0x62
        ]
    );
    assert_eq!(
        engine.hash_keccak256(b"").to_vec(),
        vec![
            0xc5, 0xd2, 0x46, 0x01, 0x86, 0xf7, 0x23, 0x3c, 0x92, 0x7e, 0x7d, 0xb2, 0xdc, 0xc7, 0x03, 0xc0, 0xe5, 0x00,
            0xb6, 0x53, 0xca, 0x82, 0x27, 0x3b, 0x7b, 0xfa, 0xd8, 0x04, 0x5d, 0x85, 0xa4, 0x70
        ]
    );
    assert_eq!(zkvm::crypto::Hash::default().bytes, engine.hash_blake3(b"").bytes);
}

#[test]
fn block_with_signed_transactions_verifies() {
    let mut crypto = CryptoEngine::new();
    crypto.generate_keypair().unwrap();
    let mut a = transaction();
    a.sign(&crypto.signing_key().unwrap()).unwrap();
    let mut b = transaction();
    b.nonce = 1;
    b.data = vec![1, 2, 3];
    b.sign(&crypto.signing_key().unwrap()).unwrap();
    let mut block = block_of(vec![a, b]);
    assert!(block.verify());
    let id = block.hash();
    block.transactions[1].nonce = 2;
    assert!(!block.verify());
    assert_eq!(block.hash().bytes, id.bytes);
    block.header.number = 2;
    assert_ne!(block.hash().bytes, id.bytes);
}

#[test]
fn block_with_unsigned_transaction_fails() {
    let block = block_of(vec![transaction()]);
    assert!(!block.verify());
}

#[test]
fn transaction_digest_covers_the_encoded_fields() {
    let tx = transaction();
    let mut bytes = Vec::new();
    bytes.extend_from_slice(&0u64.to_le_bytes());
    bytes.extend_from_slice(&6u64.to_le_bytes());
    bytes.extend_from_slice(b"sender");
    bytes.extend_from_slice(&8u64.to_le_bytes());
    bytes.extend_from_slice(b"receiver");
    bytes.extend_from_slice(&100u64.to_le_bytes());
    bytes.extend_from_slice(&0u64.to_le_bytes());
    assert_eq!(tx.hash().bytes, *blake3::hash(&bytes).as_bytes());
    let mut signed = transaction();
    signed.signature = Some(vec![9]);
    assert_eq!(signed.hash().bytes, tx.hash().bytes);
}
