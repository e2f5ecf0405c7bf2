//! Signatures, hashes and authenticated encryption.

use crate::circuit::VMCircuit;
use crate::field::{elements_view, FieldElement};
use crate::hashing::{blake3_digest, blake3_hash, keccak256, keccak256_digest};
use crate::proving::{groth16_accepts, groth16_verify, PROOF_LEN};
use crate::vm::root::append_bytes;
use aes_gcm::aead::{Aead, KeyInit, Payload};
use aes_gcm::Aes256Gcm;
use k256::ecdsa::signature::{Signer, Verifier};
use k256::ecdsa::{Signature, SigningKey, VerifyingKey};
use rand::RngCore;
use vstd::prelude::*;

verus! {

/// Why a cryptographic operation failed.
#[derive(Debug, Clone, Copy, PartialEq, Eq, Structural)]
pub enum CryptoError {
    InvalidKey,
    InvalidSignature,
    VerificationFailed,
    EncryptionFailed,
    DecryptionFailed,
}

/// A 32-byte digest.
#[derive(Debug, Clone, Copy)]
pub struct Hash {
    pub bytes: [u8; 32],
}

impl View for Hash {
    type V = Seq<u8>;

    open spec fn view(&self) -> Seq<u8> {
        self.bytes@
    }
}

impl Hash {
    /// Whether two digests hold the same bytes.
    pub fn same(&self, other: &Hash) -> (r: bool)
        ensures
            r == (self@ == other@),
    {
        crate::vm::value::keys_equal(&self.bytes, &other.bytes)
    }

    /// The digest of `data`.
    pub fn of(data: &[u8]) -> (r: Self)
        ensures
            r@ == blake3_hash(data@),
    {
        Hash { bytes: blake3_digest(data) }
    }
}

impl Default for Hash {
    /// The digest of nothing.
    fn default() -> (r: Self)
        ensures
            r@ == blake3_hash(Seq::<u8>::empty()),
    {
        let nothing: Vec<u8> = Vec::new();
        Hash::of(nothing.as_slice())
    }
}

/// The ECDSA signature over secp256k1 of `message` under the secret key
/// `secret`, if these bytes are a secret key.
pub uninterp spec fn ecdsa_signature(secret: Seq<u8>, message: Seq<u8>) -> Option<Seq<u8>>;

/// Whether `signature` is a valid ECDSA signature of `message` under the
/// public key `public`, all given in their byte encodings.
pub uninterp spec fn ecdsa_accepts(public: Seq<u8>, message: Seq<u8>, signature: Seq<u8>) -> bool;

/// The encoded public key that belongs to the secret key `secret`, if these
/// bytes are a secret key.
pub uninterp spec fn ecdsa_public(secret: Seq<u8>) -> Option<Seq<u8>>;

/// What AES-256-GCM makes of `plaintext` with the key, the nonce and the
/// associated data, if it encrypts it at all.
pub uninterp spec fn aes_gcm_sealed(
    key: Seq<u8>,
    nonce: Seq<u8>,
    plaintext: Seq<u8>,
    associated_data: Seq<u8>,
) -> Option<Seq<u8>>;

/// What AES-256-GCM recovers from `ciphertext` with the key, the nonce and
/// the associated data, if it authenticates.
pub uninterp spec fn aes_gcm_opened(
    key: Seq<u8>,
    nonce: Seq<u8>,
    ciphertext: Seq<u8>,
    associated_data: Seq<u8>,
) -> Option<Seq<u8>>;

/// Decodes the secret key with `SigningKey::from_slice` and signs with
/// `try_sign`; the signature is handed out in its fixed-size encoding.
/// Trusted: the result is the one that `ecdsa_signature` names.
#[verifier::external_body]
fn ecdsa_sign(secret: &[u8], message: &[u8]) -> (r: Option<Vec<u8>>)
    ensures
        match r {
            Some(s) => ecdsa_signature(secret@, message@) == Some(s@),
            None => ecdsa_signature(secret@, message@) is None,
        },
{
    let key = SigningKey::from_slice(secret).ok()?;
    let signature: Signature = key.try_sign(message).ok()?;
    Some(signature.to_vec())
}

/// Decodes the public key with `VerifyingKey::from_sec1_bytes` and the
/// signature with `Signature::from_slice`, and calls `verify`. What does not
/// decode is rejected. Trusted: the answer is the one that `ecdsa_accepts`
/// names.
#[verifier::external_body]
fn ecdsa_verify(public: &[u8], message: &[u8], signature: &[u8]) -> (ok: bool)
    ensures
        ok == ecdsa_accepts(public@, message@, signature@),
{
    match (VerifyingKey::from_sec1_bytes(public), Signature::from_slice(signature)) {
        (Ok(key), Ok(s)) => key.verify(message, &s).is_ok(),
        _ => false,
    }
}

/// Decodes the secret key with `SigningKey::from_slice` and encodes its
/// verifying key with `to_sec1_bytes`. Trusted: the result is the one that
/// `ecdsa_public` names.
#[verifier::external_body]
fn ecdsa_public_key(secret: &[u8]) -> (r: Option<Vec<u8>>)
    ensures
        match r {
            Some(p) => ecdsa_public(secret@) == Some(p@),
            None => ecdsa_public(secret@) is None,
        },
{
    let key = SigningKey::from_slice(secret).ok()?;
    Some(key.verifying_key().to_sec1_bytes().to_vec())
}

/// Calls `SigningKey::random` with `rand::thread_rng` and encodes the key.
/// Nothing is promised of the bytes but their number: they are random.
#[verifier::external_body]
fn random_secret() -> (secret: Vec<u8>)
    ensures
        secret@.len() == 32,
{
    SigningKey::random(&mut rand::thread_rng()).to_bytes().to_vec()
}

/// Fills twelve bytes with `RngCore::fill_bytes` of `rand::thread_rng`.
/// Nothing is promised of them: they are random.
#[verifier::external_body]
fn random_nonce() -> [u8; 12] {
    let mut nonce = [0u8; 12];
    rand::thread_rng().fill_bytes(&mut nonce);
    nonce
}

/// Calls `Aes256Gcm::new_from_slice` and `Aead::encrypt`. Trusted: the
/// result is the one that `aes_gcm_sealed` names.
#[verifier::external_body]
fn aes_gcm_seal(key: &[u8; 32], nonce: &[u8; 12], plaintext: &[u8], associated_data: &[u8]) -> (r:
    Option<Vec<u8>>)
    ensures
        match r {
            Some(c) => aes_gcm_sealed(key@, nonce@, plaintext@, associated_data@) == Some(c@),
            None => aes_gcm_sealed(key@, nonce@, plaintext@, associated_data@) is None,
        },
{
    let cipher = Aes256Gcm::new_from_slice(key).ok()?;
    cipher.encrypt(nonce.into(), Payload { msg: plaintext, aad: associated_data }).ok()
}

/// Calls `Aes256Gcm::new_from_slice` and `Aead::decrypt`. Trusted: the
/// result is the one that `aes_gcm_opened` names.
#[verifier::external_body]
fn aes_gcm_open(key: &[u8; 32], nonce: &[u8; 12], ciphertext: &[u8], associated_data: &[u8]) -> (r:
    Option<Vec<u8>>)
    ensures
        match r {
            Some(p) => aes_gcm_opened(key@, nonce@, ciphertext@, associated_data@) == Some(p@),
            None => aes_gcm_opened(key@, nonce@, ciphertext@, associated_data@) is None,
        },
{
    let cipher = Aes256Gcm::new_from_slice(key).ok()?;
    cipher.decrypt(nonce.into(), Payload { msg: ciphertext, aad: associated_data }).ok()
}

/// A signer and verifier: it holds a key pair once one was generated or
/// loaded.
pub struct CryptoEngine {
    signing_key: Option<Vec<u8>>,
    verifying_key: Option<Vec<u8>>,
}

impl CryptoEngine {
    /// The encoded secret key, if there is one.
    pub closed spec fn secret(&self) -> Option<Seq<u8>> {
        match self.signing_key {
            Some(k) => Some(k@),
            None => None,
        }
    }

    /// The encoded public key, if there is one.
    pub closed spec fn public(&self) -> Option<Seq<u8>> {
        match self.verifying_key {
            Some(k) => Some(k@),
            None => None,
        }
    }

    /// An engine without keys.
    pub fn new() -> (r: Self)
        ensures
            r.secret() is None,
            r.public() is None,
    {
        CryptoEngine { signing_key: None, verifying_key: None }
    }

    /// Loads the secret key `secret` and the public key that belongs to
    /// it. Bytes that are no secret key are refused, and the engine stays as
    /// it was.
    pub fn load_keypair(&mut self, secret: Vec<u8>) -> (r: Result<(), CryptoError>)
        ensures
            match r {
                Ok(()) => final(self).secret() == Some(secret@) && final(self).public()
                    == ecdsa_public(secret@) && final(self).public() is Some,
                Err(e) => e == CryptoError::InvalidKey && ecdsa_public(secret@) is None
                    && *final(self) == *old(self),
            },
    {
        match ecdsa_public_key(secret.as_slice()) {
            Some(public) => {
                self.signing_key = Some(secret);
                self.verifying_key = Some(public);
                Ok(())
            },
            None => Err(CryptoError::InvalidKey),
        }
    }

    /// Generates a key pair at random. Where the random bytes happen to be
    /// no secret key, the engine stays as it was.
    pub fn generate_keypair(&mut self) -> (r: Result<(), CryptoError>)
        ensures
            match r {
                Ok(()) => final(self).secret() is Some && final(self).public() == ecdsa_public(
                    final(self).secret()->0,
                ) && final(self).public() is Some,
                Err(e) => e == CryptoError::InvalidKey && *final(self) == *old(self),
            },
    {
        self.load_keypair(random_secret())
    }

    /// The encoded secret key, if there is one.
    pub fn signing_key(&self) -> (r: Option<Vec<u8>>)
        ensures
            match r {
                Some(k) => self.secret() == Some(k@),
                None => self.secret() is None,
            },
    {
        match &self.signing_key {
            Some(k) => Some(crate::vm::value::clone_bytes(k)),
            None => None,
        }
    }

    /// The encoded public key, if there is one.
    pub fn verifying_key(&self) -> (r: Option<Vec<u8>>)
        ensures
            match r {
                Some(k) => self.public() == Some(k@),
                None => self.public() is None,
            },
    {
        match &self.verifying_key {
            Some(k) => Some(crate::vm::value::clone_bytes(k)),
            None => None,
        }
    }

    /// Signs `message` with the engine's secret key. Without a key, or with
    /// one that cannot sign, the key is invalid.
    pub fn sign(&self, message: &[u8]) -> (r: Result<Vec<u8>, CryptoError>)
        ensures
            match r {
                Ok(s) => self.secret() is Some && ecdsa_signature(self.secret()->0, message@)
                    == Some(s@),
                Err(e) => e == CryptoError::InvalidKey && (self.secret() is None || ecdsa_signature(
                    self.secret()->0,
                    message@,
                ) is None),
            },
    {
        let key = match &self.signing_key {
            Some(key) => key,
            None => { return Err(CryptoError::InvalidKey); },
        };
        match ecdsa_sign(key.as_slice(), message) {
            Some(s) => Ok(s),
            None => Err(CryptoError::InvalidKey),
        }
    }

    /// Whether `signature` is a valid signature of `message` under the
    /// engine's public key. Without a key, the key is invalid.
    pub fn verify(&self, message: &[u8], signature: &[u8]) -> (r: Result<bool, CryptoError>)
        ensures
            match r {
                Ok(ok) => self.public() is Some && ok == ecdsa_accepts(
                    self.public()->0,
                    message@,
                    signature@,
                ),
                Err(e) => e == CryptoError::InvalidKey && self.public() is None,
            },
    {
        let key = match &self.verifying_key {
            Some(key) => key,
            None => { return Err(CryptoError::InvalidKey); },
        };
        Ok(ecdsa_verify(key.as_slice(), message, signature))
    }

    /// The Keccak-256 digest of `data`.
    pub fn hash_keccak256(&self, data: &[u8]) -> (r: [u8; 32])
        ensures
            r@ == keccak256(data@),
    {
        keccak256_digest(data)
    }

    /// The BLAKE3 digest of `data`.
    pub fn hash_blake3(&self, data: &[u8]) -> (r: Hash)
        ensures
            r@ == blake3_hash(data@),
    {
        Hash::of(data)
    }
}

/// Signs `message` with the secret key `secret`.
pub fn sign_with(secret: &[u8], message: &[u8]) -> (r: Result<Vec<u8>, CryptoError>)
    ensures
        match r {
            Ok(s) => ecdsa_signature(secret@, message@) == Some(s@),
            Err(e) => e == CryptoError::InvalidKey && ecdsa_signature(secret@, message@) is None,
        },
{
    match ecdsa_sign(secret, message) {
        Some(s) => Ok(s),
        None => Err(CryptoError::InvalidKey),
    }
}

/// Whether `signature` is a valid signature of `message` under the public
/// key `public`.
pub fn verify_with(public: &[u8], message: &[u8], signature: &[u8]) -> (ok: bool)
    ensures
        ok == ecdsa_accepts(public@, message@, signature@),
{
    ecdsa_verify(public, message, signature)
}

/// Authenticated encryption with a fixed key. A ciphertext is the nonce, of
/// twelve bytes, followed by what the cipher made of the plaintext.
pub struct SymmetricCrypto {
    key: [u8; 32],
}

/// The length of a nonce.
pub const NONCE_LEN: usize = 12;

impl SymmetricCrypto {
    pub closed spec fn key(&self) -> Seq<u8> {
        self.key@
    }

    pub fn new(key: &[u8; 32]) -> (r: Self)
        ensures
            r.key() == key@,
    {
        SymmetricCrypto { key: *key }
    }

    /// Encrypts `plaintext` under `nonce`: the result is the nonce followed
    /// by the sealed plaintext.
    pub fn encrypt_with_nonce(
        &self,
        nonce: &[u8; 12],
        plaintext: &[u8],
        associated_data: &[u8],
    ) -> (r: Result<Vec<u8>, CryptoError>)
        ensures
            match r {
                Ok(c) => aes_gcm_sealed(self.key(), nonce@, plaintext@, associated_data@)
                    matches Some(sealed) && c@ == nonce@ + sealed,
                Err(e) => e == CryptoError::EncryptionFailed && aes_gcm_sealed(
                    self.key(),
                    nonce@,
                    plaintext@,
                    associated_data@,
                ) is None,
            },
    {
        match aes_gcm_seal(&self.key, nonce, plaintext, associated_data) {
            Some(sealed) => {
                let mut out: Vec<u8> = Vec::new();
                append_bytes(&mut out, nonce.as_slice());
                append_bytes(&mut out, sealed.as_slice());
                Ok(out)
            },
            None => Err(CryptoError::EncryptionFailed),
        }
    }

    /// Encrypts `plaintext` under a nonce drawn at random: the result is
    /// that nonce followed by the sealed plaintext.
    pub fn encrypt(&self, plaintext: &[u8], associated_data: &[u8]) -> (r: Result<
        Vec<u8>,
        CryptoError,
    >)
        ensures
            match r {
                Ok(c) => c@.len() >= NONCE_LEN && aes_gcm_sealed(
                    self.key(),
                    c@.take(NONCE_LEN as int),
                    plaintext@,
                    associated_data@,
                ) == Some(c@.skip(NONCE_LEN as int)),
                Err(e) => e == CryptoError::EncryptionFailed,
            },
    {
        let nonce = random_nonce();
        let r = self.encrypt_with_nonce(&nonce, plaintext, associated_data);
        proof {
            match &r {
                Ok(c) => {
                    let sealed = aes_gcm_sealed(
                        self.key(),
                        nonce@,
                        plaintext@,
                        associated_data@,
                    )->0;
                    assert(c@.take(NONCE_LEN as int) =~= nonce@);
                    assert(c@.skip(NONCE_LEN as int) =~= sealed);
                },
                Err(_) => {},
            }
        }
        r
    }

    /// Decrypts a ciphertext: its first twelve bytes are the nonce, the
    /// rest is opened with it. A ciphertext too short to hold a nonce, or one
    /// that does not authenticate, fails.
    pub fn decrypt(&self, ciphertext: &[u8], associated_data: &[u8]) -> (r: Result<
        Vec<u8>,
        CryptoError,
    >)
        ensures
            match r {
                Ok(p) => ciphertext@.len() >= NONCE_LEN && aes_gcm_opened(
                    self.key(),
                    ciphertext@.take(NONCE_LEN as int),
                    ciphertext@.skip(NONCE_LEN as int),
                    associated_data@,
                ) == Some(p@),
                Err(e) => e == CryptoError::DecryptionFailed && (ciphertext@.len() < NONCE_LEN
                    || aes_gcm_opened(
                    self.key(),
                    ciphertext@.take(NONCE_LEN as int),
                    ciphertext@.skip(NONCE_LEN as int),
                    associated_data@,
                ) is None),
            },
    {
        if ciphertext.len() < NONCE_LEN {
            return Err(CryptoError::DecryptionFailed);
        }
        let mut nonce = [0u8; 12];
        let mut i: usize = 0;
        while i < NONCE_LEN
            invariant
                i <= NONCE_LEN,
                ciphertext@.len() >= NONCE_LEN,
                forall|j: int| 0 <= j < i ==> nonce@[j] == ciphertext@[j],
            decreases NONCE_LEN - i,
        {
            nonce[i] = ciphertext[i];
            i += 1;
        }
        assert(nonce@ =~= ciphertext@.take(NONCE_LEN as int));
        let rest = vstd::slice::slice_subrange(ciphertext, NONCE_LEN, ciphertext.len());
        assert(rest@ =~= ciphertext@.skip(NONCE_LEN as int));
        match aes_gcm_open(&self.key, &nonce, rest, associated_data) {
            Some(p) => Ok(p),
            None => Err(CryptoError::DecryptionFailed),
        }
    }
}

/// A circuit that can tell its inputs apart: the public ones, which the
/// verifier sees, and the private ones, which only the prover knows.
pub trait ZKCircuit {
    fn public_inputs(&self) -> Vec<FieldElement>;

    fn private_inputs(&self) -> Vec<FieldElement>;
}

impl ZKCircuit for VMCircuit {
    /// The five public inputs of the circuit, in their fixed order and each
    /// in its canonical form; none without its witness.
    fn public_inputs(&self) -> (r: Vec<FieldElement>)
        ensures
            if self.has_witness() {
                &&& r@.len() == 5
                &&& forall|i: int| 0 <= i < 5 ==> (#[trigger] r@[i]).canonical()
                &&& crate::circuit::element_values(r@) == self.input_values()
            } else {
                r@.len() == 0
            },
    {
        match self.declared_inputs() {
            Some(inputs) => inputs,
            None => Vec::new(),
        }
    }

    /// The elements of the declared initial and final states: of each the
    /// stack, the memory, the storage pair by pair, the program counter and
    /// the gas. A state that is not declared gives none.
    fn private_inputs(&self) -> (r: Vec<FieldElement>)
        ensures
            r@ == witness_elements(self),
    {
        let mut out: Vec<FieldElement> = Vec::new();
        match &self.initial_state {
            Some(state) => {
                put_state(&mut out, state);
            },
            None => {},
        }
        match &self.final_state {
            Some(state) => {
                put_state(&mut out, state);
            },
            None => {},
        }
        assert(out@ =~= witness_elements(self));
        out
    }
}

/// Pairs of elements one after another: of each pair the first, then the
/// second.
pub open spec fn pairs_flat(pairs: Seq<(FieldElement, FieldElement)>) -> Seq<FieldElement>
    decreases pairs.len(),
{
    if pairs.len() == 0 {
        Seq::empty()
    } else {
        pairs_flat(pairs.drop_last()).push(pairs.last().0).push(pairs.last().1)
    }
}

/// The elements that a state is made of: the stack, the memory and the
/// storage pair by pair, the program counter and the gas.
pub open spec fn state_elements(state: &crate::circuit::VMState) -> Seq<FieldElement> {
    state.stack@ + pairs_flat(state.memory@) + pairs_flat(state.storage@) + seq![
        state.program_counter,
        state.gas_remaining,
    ]
}

/// The elements of the states that a circuit declares: those of the initial
/// state, then those of the final state.
pub open spec fn witness_elements(circuit: &VMCircuit) -> Seq<FieldElement> {
    (match circuit.initial_state {
        Some(state) => state_elements(&state),
        None => Seq::empty(),
    }) + (match circuit.final_state {
        Some(state) => state_elements(&state),
        None => Seq::empty(),
    })
}

/// Appends the elements of `state` to `out`.
fn put_state(out: &mut Vec<FieldElement>, state: &crate::circuit::VMState)
    ensures
        final(out)@ == old(out)@ + state_elements(state),
{
    let mut i: usize = 0;
    while i < state.stack.len()
        invariant
            i <= state.stack.len(),
            out@ == old(out)@ + state.stack@.take(i as int),
        decreases state.stack.len() - i,
    {
        out.push(state.stack[i]);
        i += 1;
        assert(out@ =~= old(out)@ + state.stack@.take(i as int));
    }
    assert(state.stack@.take(state.stack.len() as int) =~= state.stack@);
    let ghost base = out@;
    let mut i: usize = 0;
    while i < state.memory.len()
        invariant
            i <= state.memory.len(),
            out@ == base + pairs_flat(state.memory@.take(i as int)),
        decreases state.memory.len() - i,
    {
        out.push(state.memory[i].0);
        out.push(state.memory[i].1);
        i += 1;
        proof {
            let taken = state.memory@.take(i as int);
            assert(taken.drop_last() =~= state.memory@.take(i - 1));
            assert(out@ =~= base + pairs_flat(taken));
        }
    }
    assert(state.memory@.take(state.memory.len() as int) =~= state.memory@);
    let ghost base = out@;
    let mut i: usize = 0;
    while i < state.storage.len()
        invariant
            i <= state.storage.len(),
            out@ == base + pairs_flat(state.storage@.take(i as int)),
        decreases state.storage.len() - i,
    {
        out.push(state.storage[i].0);
        out.push(state.storage[i].1);
        i += 1;
        proof {
            let taken = state.storage@.take(i as int);
            assert(taken.drop_last() =~= state.storage@.take(i - 1));
            assert(out@ =~= base + pairs_flat(taken));
        }
    }
    assert(state.storage@.take(state.storage.len() as int) =~= state.storage@);
    out.push(state.program_counter);
    out.push(state.gas_remaining);
    assert(out@ =~= old(out)@ + state_elements(state));
}

/// A verifier for one verifying key.
pub struct ZKProofSystem {
    verifying_key: Vec<u8>,
}

impl ZKProofSystem {
    /// The encoded verifying key.
    pub closed spec fn key(&self) -> Seq<u8> {
        self.verifying_key@
    }

    pub fn new(verifying_key: Vec<u8>) -> (r: Self)
        ensures
            r.key() == verifying_key@,
    {
        ZKProofSystem { verifying_key }
    }

    /// Whether the verifier accepts `proof` for `public_inputs`.
    pub fn verify(&self, proof: &Vec<u8>, public_inputs: &Vec<FieldElement>) -> (ok: bool)
        ensures
            ok == (proof@.len() == PROOF_LEN && groth16_accepts(
                self.key(),
                proof@,
                elements_view(public_inputs@),
            )),
    {
        groth16_verify(&self.verifying_key, proof, public_inputs)
    }
}

} // verus!
