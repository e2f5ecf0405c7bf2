//! The messages that nodes exchange, and the blocks and transactions that
//! they carry.

use crate::clock::unix_time;
use crate::crypto::{ecdsa_accepts, ecdsa_signature, sign_with, verify_with, CryptoError};
use crate::hashing::blake3_hash;
use crate::vm::root::append_bytes;
use vstd::bytes::{spec_u64_to_le_bytes, u64_to_le_bytes};
use vstd::prelude::*;
use vstd::utf8::encode_utf8;

verus! {

/// A length-prefixed byte string: the length as eight little-endian bytes,
/// then the bytes.
pub open spec fn blob(bytes: Seq<u8>) -> Seq<u8> {
    spec_u64_to_le_bytes(bytes.len() as u64) + bytes
}

/// A text as a length-prefixed byte string of its UTF-8 encoding.
pub open spec fn text(s: Seq<char>) -> Seq<u8> {
    blob(encode_utf8(s))
}

/// Appends `x` as eight little-endian bytes.
fn put_u64(out: &mut Vec<u8>, x: u64)
    ensures
        final(out)@ == old(out)@ + spec_u64_to_le_bytes(x),
{
    let le = u64_to_le_bytes(x);
    append_bytes(out, le.as_slice());
}

/// Appends `bytes` with their length before them.
fn put_blob(out: &mut Vec<u8>, bytes: &[u8])
    ensures
        final(out)@ == old(out)@ + blob(bytes@),
{
    put_u64(out, bytes.len() as u64);
    append_bytes(out, bytes);
    assert(out@ =~= old(out)@ + blob(bytes@));
}

/// Appends a text with the length of its encoding before it.
fn put_text(out: &mut Vec<u8>, s: &String)
    ensures
        final(out)@ == old(out)@ + text(s@),
{
    put_blob(out, s.as_str().as_bytes());
}

/// A transfer of value with a payload.
#[derive(Debug)]
pub struct Transaction {
    pub nonce: u64,
    pub from: String,
    pub to: String,
    pub value: u64,
    pub data: Vec<u8>,
    pub signature: Option<Vec<u8>>,
}

pub struct TransactionView {
    pub nonce: u64,
    pub from: Seq<char>,
    pub to: Seq<char>,
    pub value: u64,
    pub data: Seq<u8>,
    pub signature: Option<Seq<u8>>,
}

impl View for Transaction {
    type V = TransactionView;

    open spec fn view(&self) -> TransactionView {
        TransactionView {
            nonce: self.nonce,
            from: self.from@,
            to: self.to@,
            value: self.value,
            data: self.data@,
            signature: match self.signature {
                Some(s) => Some(s@),
                None => None,
            },
        }
    }
}

impl TransactionView {
    /// The bytes that a signature of the transaction covers: nonce,
    /// sender, receiver, value and payload.
    pub open spec fn signing_bytes(self) -> Seq<u8> {
        spec_u64_to_le_bytes(self.nonce) + text(self.from) + text(self.to) + spec_u64_to_le_bytes(
            self.value,
        ) + blob(self.data)
    }

    /// The bytes of the whole transaction: what a signature covers, then a
    /// zero byte where there is no signature, or a one byte and the
    /// signature.
    pub open spec fn encoding(self) -> Seq<u8> {
        self.signing_bytes() + (match self.signature {
            Some(s) => seq![1u8] + blob(s),
            None => seq![0u8],
        })
    }

    /// The digest that identifies the transaction.
    pub open spec fn digest(self) -> Seq<u8> {
        blake3_hash(self.signing_bytes())
    }
}

impl Transaction {
    /// Appends the bytes that a signature covers.
    fn put_signing_bytes(&self, out: &mut Vec<u8>)
        ensures
            final(out)@ == old(out)@ + self@.signing_bytes(),
    {
        put_u64(out, self.nonce);
        put_text(out, &self.from);
        put_text(out, &self.to);
        put_u64(out, self.value);
        put_blob(out, self.data.as_slice());
        assert(out@ =~= old(out)@ + self@.signing_bytes());
    }

    /// Appends the bytes of the whole transaction.
    fn put(&self, out: &mut Vec<u8>)
        ensures
            final(out)@ == old(out)@ + self@.encoding(),
    {
        self.put_signing_bytes(out);
        match &self.signature {
            Some(s) => {
                out.push(1);
                put_blob(out, s.as_slice());
                assert(out@ =~= old(out)@ + self@.encoding());
            },
            None => {
                out.push(0);
                assert(out@ =~= old(out)@ + self@.encoding());
            },
        }
    }

    /// The digest that identifies the transaction: it covers everything
    /// but the signature.
    pub fn hash(&self) -> (r: crate::crypto::Hash)
        ensures
            r@ == self@.digest(),
    {
        let mut bytes: Vec<u8> = Vec::new();
        self.put_signing_bytes(&mut bytes);
        assert(bytes@ =~= self@.signing_bytes());
        crate::crypto::Hash::of(bytes.as_slice())
    }

    /// Signs the transaction's digest with the secret key `key`. Bytes
    /// that are no key are refused, and the transaction stays as it was.
    pub fn sign(&mut self, key: &[u8]) -> (r: Result<(), CryptoError>)
        ensures
            match r {
                Ok(()) => final(self)@ == (TransactionView {
                    signature: ecdsa_signature(key@, old(self)@.digest()),
                    ..old(self)@
                }) && final(self)@.signature is Some,
                Err(e) => e == CryptoError::InvalidKey && ecdsa_signature(
                    key@,
                    old(self)@.digest(),
                ) is None && final(self)@ == old(self)@,
            },
    {
        let hash = self.hash();
        match sign_with(key, hash.bytes.as_slice()) {
            Ok(signature) => {
                self.signature = Some(signature);
                Ok(())
            },
            Err(e) => Err(e),
        }
    }

    /// Whether the transaction carries a signature.
    pub fn verify(&self) -> (r: bool)
        ensures
            r == (self@.signature is Some),
    {
        self.signature.is_some()
    }

    /// Whether the transaction's signature is a valid signature of its
    /// digest under the public key `key`.
    pub fn verify_with_key(&self, key: &[u8]) -> (r: bool)
        ensures
            r == (self@.signature matches Some(s) && ecdsa_accepts(key@, self@.digest(), s)),
    {
        match &self.signature {
            Some(s) => {
                let hash = self.hash();
                verify_with(key, hash.bytes.as_slice(), s.as_slice())
            },
            None => false,
        }
    }
}

/// The head of a block.
#[derive(Debug)]
pub struct BlockHeader {
    pub parent_hash: crate::crypto::Hash,
    pub timestamp: u64,
    pub number: u64,
    pub author: String,
    pub transactions_root: crate::crypto::Hash,
    pub state_root: crate::crypto::Hash,
    pub receipts_root: crate::crypto::Hash,
}

impl BlockHeader {
    /// The bytes of the header: the fields in their order, digests as they
    /// are, numbers as eight little-endian bytes, the author as a text.
    pub open spec fn encoding(&self) -> Seq<u8> {
        self.parent_hash@ + spec_u64_to_le_bytes(self.timestamp) + spec_u64_to_le_bytes(
            self.number,
        ) + text(self.author@) + self.transactions_root@ + self.state_root@ + self.receipts_root@
    }
}

/// A block: its header and its transactions.
#[derive(Debug)]
pub struct Block {
    pub header: BlockHeader,
    pub transactions: Vec<Transaction>,
    pub state_root: crate::crypto::Hash,
    pub receipts_root: crate::crypto::Hash,
}

/// The bytes of the transactions, one after another.
pub open spec fn transactions_bytes(txs: Seq<Transaction>) -> Seq<u8>
    decreases txs.len(),
{
    if txs.len() == 0 {
        Seq::empty()
    } else {
        transactions_bytes(txs.drop_last()) + txs.last()@.encoding()
    }
}

/// The digest that commits to the transactions.
pub open spec fn transactions_root(txs: Seq<Transaction>) -> Seq<u8> {
    blake3_hash(transactions_bytes(txs))
}

/// Every transaction carries a signature.
pub open spec fn all_signed(txs: Seq<Transaction>) -> bool {
    forall|i: int| 0 <= i < txs.len() ==> (#[trigger] txs[i])@.signature is Some
}

/// The digest that commits to `transactions`.
pub fn root_of(transactions: &Vec<Transaction>) -> (r: crate::crypto::Hash)
    ensures
        r@ == transactions_root(transactions@),
{
    let mut bytes: Vec<u8> = Vec::new();
    let mut i: usize = 0;
    while i < transactions.len()
        invariant
            i <= transactions.len(),
            bytes@ == transactions_bytes(transactions@.take(i as int)),
        decreases transactions.len() - i,
    {
        transactions[i].put(&mut bytes);
        i += 1;
        proof {
            let t = transactions@.take(i as int);
            assert(t.drop_last() =~= transactions@.take(i - 1));
        }
    }
    assert(transactions@.take(transactions.len() as int) =~= transactions@);
    crate::crypto::Hash::of(bytes.as_slice())
}

impl Transaction {
    /// The number of bytes of the encoded transaction.
    pub fn encoded_len(&self) -> (n: usize)
        ensures
            n == self@.encoding().len(),
    {
        let mut bytes: Vec<u8> = Vec::new();
        self.put(&mut bytes);
        assert(bytes@ =~= self@.encoding());
        bytes.len()
    }
}

impl Block {
    /// The digest that identifies the block: the digest of its header.
    pub fn hash(&self) -> (r: crate::crypto::Hash)
        ensures
            r@ == blake3_hash(self.header.encoding()),
    {
        let mut bytes: Vec<u8> = Vec::new();
        append_bytes(&mut bytes, self.header.parent_hash.bytes.as_slice());
        put_u64(&mut bytes, self.header.timestamp);
        put_u64(&mut bytes, self.header.number);
        put_text(&mut bytes, &self.header.author);
        append_bytes(&mut bytes, self.header.transactions_root.bytes.as_slice());
        append_bytes(&mut bytes, self.header.state_root.bytes.as_slice());
        append_bytes(&mut bytes, self.header.receipts_root.bytes.as_slice());
        assert(bytes@ =~= self.header.encoding());
        crate::crypto::Hash::of(bytes.as_slice())
    }

    /// The digest that commits to the block's transactions.
    pub fn compute_transactions_root(&self) -> (r: crate::crypto::Hash)
        ensures
            r@ == transactions_root(self.transactions@),
    {
        root_of(&self.transactions)
    }

    /// Whether the block is sound: its header names the root of its
    /// transactions, and every transaction carries a signature.
    pub fn verify(&self) -> (r: bool)
        ensures
            r == (self.header.transactions_root@ == transactions_root(self.transactions@)
                && all_signed(self.transactions@)),
    {
        let root = self.compute_transactions_root();
        if !root.same(&self.header.transactions_root) {
            return false;
        }
        let mut i: usize = 0;
        while i < self.transactions.len()
            invariant
                i <= self.transactions.len(),
                forall|j: int| 0 <= j < i ==> (#[trigger] self.transactions@[j])@.signature is Some,
            decreases self.transactions.len() - i,
        {
            if !self.transactions[i].verify() {
                return false;
            }
            i += 1;
        }
        true
    }
}

/// A request for part of an account's state.
#[derive(Debug)]
pub struct StateRequest {
    pub block_number: u64,
    pub account: String,
    pub storage_keys: Vec<crate::crypto::Hash>,
}

/// The proofs that go with a state response.
#[derive(Debug)]
pub struct StateProof {
    pub account_proof: Vec<Vec<u8>>,
    pub storage_proofs: Vec<Vec<Vec<u8>>>,
}

/// Part of an account's state, with its proof.
#[derive(Debug)]
pub struct StateResponse {
    pub block_number: u64,
    pub account: String,
    pub storage_keys: Vec<crate::crypto::Hash>,
    pub storage: Vec<(crate::crypto::Hash, Vec<u8>)>,
    pub proof: StateProof,
}

/// What a node says of itself when it connects.
#[derive(Debug)]
pub struct HandshakeData {
    pub version: u32,
    pub chain_id: u64,
    pub genesis_hash: crate::crypto::Hash,
    pub head_hash: crate::crypto::Hash,
    pub head_number: u64,
}

/// What a message carries.
#[derive(Debug)]
pub enum MessageType {
    Block(Block),
    Transaction(Transaction),
    StateRequest(StateRequest),
    StateResponse(StateResponse),
    Ping,
    Pong,
    Handshake(HandshakeData),
}

/// A message with its sender, the time it was made, and a signature once
/// it was signed.
#[derive(Debug)]
pub struct Message {
    pub message_type: MessageType,
    pub sender: String,
    pub timestamp: u64,
    pub signature: Option<Vec<u8>>,
}

impl Message {
    /// A message made now, not yet signed.
    pub fn new(message_type: MessageType, sender: String) -> (r: Self)
        ensures
            r.message_type == message_type,
            r.sender == sender,
            r.signature is None,
    {
        Message { message_type, sender, timestamp: unix_time(), signature: None }
    }

    /// Signs `payload`, the serialized content, sender and time of the
    /// message, with the secret key `key`, and attaches the signature. Bytes
    /// that are no key are refused, and the message stays as it was.
    pub fn sign(&mut self, key: &[u8], payload: &[u8]) -> (r: Result<(), CryptoError>)
        ensures
            final(self).message_type == old(self).message_type,
            final(self).sender == old(self).sender,
            final(self).timestamp == old(self).timestamp,
            match r {
                Ok(()) => final(self).signature matches Some(s) && ecdsa_signature(key@, payload@)
                    == Some(s@),
                Err(e) => e == CryptoError::InvalidKey && ecdsa_signature(key@, payload@) is None
                    && final(self).signature == old(self).signature,
            },
    {
        match sign_with(key, payload) {
            Ok(signature) => {
                self.signature = Some(signature);
                Ok(())
            },
            Err(e) => Err(e),
        }
    }

    /// Whether the message's signature is a valid signature of `payload`
    /// under the public key `key`. A message without a signature is an
    /// error.
    pub fn verify(&self, key: &[u8], payload: &[u8]) -> (r: Result<bool, CryptoError>)
        ensures
            match r {
                Ok(ok) => self.signature matches Some(s) && ok == ecdsa_accepts(
                    key@,
                    payload@,
                    s@,
                ),
                Err(e) => e == CryptoError::InvalidSignature && self.signature is None,
            },
    {
        match &self.signature {
            Some(s) => Ok(verify_with(key, payload, s.as_slice())),
            None => Err(CryptoError::InvalidSignature),
        }
    }
}

} // verus!
