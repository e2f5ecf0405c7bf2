//! Proof bookkeeping: binding a SNARK proof to its public inputs, caching
//! proofs, and verifying them one by one or in batches.

use crate::field::{elements_view, FieldElement};
use crate::hashing::{binding_digest, blake2s256};
use crate::vm::root::{append_bytes, concat};
use crate::vm::value::{clone_bytes, keys_equal};
use bellman::groth16::{prepare_verifying_key, verify_proof, Proof, VerifyingKey};
use bls12_381::{Bls12, G1Affine, G2Affine, Scalar};
use lru::LruCache;
use vstd::bytes::{spec_u64_from_le_bytes, spec_u64_to_le_bytes, u64_from_le_bytes, u64_to_le_bytes};
use vstd::prelude::*;

verus! {

/// The cache of the `lru` crate, carried as an opaque value.
#[verifier::external_type_specification]
#[verifier::external_body]
#[verifier::reject_recursive_types(K)]
#[verifier::reject_recursive_types(V)]
#[verifier::reject_recursive_types(S)]
pub struct ExLruCache<K, V, S>(LruCache<K, V, S>);

/// The hasher that the cache hashes its keys with, carried as an opaque
/// value.
#[verifier::external_type_specification]
#[verifier::external_body]
pub struct ExCacheHasher(lru::DefaultHasher);

/// A cache entry: key bytes and value bytes.
pub type Cached = (Seq<u8>, Seq<u8>);

/// What a cache holds, the entry used last standing first.
pub uninterp spec fn cache_entries(cache: LruCache<[u8; 32], Vec<u8>>) -> Seq<Cached>;

/// The number of entries that a cache was made to hold.
pub uninterp spec fn cache_capacity(cache: LruCache<[u8; 32], Vec<u8>>) -> nat;

/// Whether a Groth16 verifier with the key `vk` accepts `proof` for the
/// public inputs `inputs`, all three given in their byte encodings.
pub uninterp spec fn groth16_accepts(vk: Seq<u8>, proof: Seq<u8>, inputs: Seq<Seq<u8>>) -> bool;

/// Whether the bytes `vk` are the encoding of a Groth16 verifying key.
pub uninterp spec fn groth16_key_decodes(vk: Seq<u8>) -> bool;

/// The length of a proof: two points of G1 and one of G2, uncompressed.
pub const PROOF_LEN: usize = 384;

/// The number of proofs that a cache holds unless told otherwise.
pub const DEFAULT_CACHE_SIZE: usize = 1000;

/// Whether some entry has the key `k`.
pub open spec fn is_cached(entries: Seq<Cached>, k: Seq<u8>) -> bool {
    exists|i: int| 0 <= i < entries.len() && (#[trigger] entries[i]).0 == k
}

/// A position at which `entries` holds the key `k`, where there is one.
pub open spec fn cached_at(entries: Seq<Cached>, k: Seq<u8>) -> int {
    choose|i: int| 0 <= i < entries.len() && (#[trigger] entries[i]).0 == k
}

/// No key is held twice.
pub open spec fn distinct_keys(entries: Seq<Cached>) -> bool {
    forall|i: int, j: int|
        0 <= i < entries.len() && 0 <= j < entries.len() && (#[trigger] entries[i]).0 == (
        #[trigger] entries[j]).0 ==> i == j
}

/// What a cache of capacity `cap` holds after `(k, v)` was put into it: a
/// key already held gets the new value and moves to the front; a new key
/// goes to the front, and where the cache is full the entry at the back
/// leaves; a cache of capacity zero holds nothing.
pub open spec fn entries_after_put(entries: Seq<Cached>, cap: nat, k: Seq<u8>, v: Seq<u8>) -> Seq<
    Cached,
> {
    if is_cached(entries, k) {
        seq![(k, v)] + entries.remove(cached_at(entries, k))
    } else if cap == 0 {
        entries
    } else if entries.len() == cap {
        seq![(k, v)] + entries.drop_last()
    } else {
        seq![(k, v)] + entries
    }
}

/// Calls `LruCache::new`. Trusted: the cache is empty and its capacity is
/// `cap`.
#[verifier::external_body]
fn cache_new(cap: usize) -> (cache: LruCache<[u8; 32], Vec<u8>>)
    ensures
        cache_entries(cache) == Seq::<Cached>::empty(),
        cache_capacity(cache) == cap,
{
    LruCache::new(cap)
}

/// Calls `LruCache::put`. Trusted: the entries change as
/// `entries_after_put` says, and the capacity stays.
#[verifier::external_body]
fn cache_put(cache: &mut LruCache<[u8; 32], Vec<u8>>, key: [u8; 32], value: Vec<u8>)
    ensures
        cache_entries(*final(cache)) == entries_after_put(
            cache_entries(*old(cache)),
            cache_capacity(*old(cache)),
            key@,
            value@,
        ),
        cache_capacity(*final(cache)) == cache_capacity(*old(cache)),
{
    cache.put(key, value);
}

/// Calls `LruCache::peek` and copies the value found. Trusted: a value comes
/// back exactly where some entry has the key, and it is that entry's value.
#[verifier::external_body]
fn cache_peek(cache: &LruCache<[u8; 32], Vec<u8>>, key: &[u8; 32]) -> (found: Option<Vec<u8>>)
    ensures
        match found {
            Some(v) => exists|i: int|
                0 <= i < cache_entries(*cache).len() && #[trigger] cache_entries(*cache)[i] == (
                    key@,
                    v@,
                ),
            None => !is_cached(cache_entries(*cache), key@),
        },
{
    cache.peek(key).cloned()
}

/// Decodes the key with `VerifyingKey::read`, the three points of the proof
/// with `from_uncompressed` and each input with `Scalar::from_bytes`, and
/// calls `verify_proof` on the key that `prepare_verifying_key` made.
/// Whatever does not decode counts as a rejection. Trusted: the answer is
/// the one that `groth16_accepts` names for the key, the three points one
/// after another, and the inputs.
#[verifier::external_body]
fn groth16_check(
    vk: &Vec<u8>,
    a: &[u8; 96],
    b: &[u8; 192],
    c: &[u8; 96],
    inputs: &Vec<FieldElement>,
) -> (ok: bool)
    ensures
        ok == groth16_accepts(vk@, a@ + b@ + c@, elements_view(inputs@)),
{
    let a = G1Affine::from_uncompressed(a).into();
    let b = G2Affine::from_uncompressed(b).into();
    let c = G1Affine::from_uncompressed(c).into();
    let xs = inputs.iter().map(|x| Scalar::from_bytes(&x.bytes).into()).collect();
    match (VerifyingKey::<Bls12>::read(vk.as_slice()), a, b, c, xs) {
        (Ok(k), Some(a), Some(b), Some(c), Some::<Vec<Scalar>>(xs)) => {
            verify_proof(&prepare_verifying_key(&k), &Proof { a, b, c }, &xs).is_ok()
        },
        _ => false,
    }
}

/// Calls `VerifyingKey::read` of bellman on the bytes. Trusted: the answer
/// is whether the bytes decode to a verifying key, as `groth16_key_decodes`
/// names it.
#[verifier::external_body]
fn key_decodes(vk: &Vec<u8>) -> (ok: bool)
    ensures
        ok == groth16_key_decodes(vk@),
{
    VerifyingKey::<Bls12>::read(vk.as_slice()).is_ok()
}

/// The 96 bytes of `bytes` from `start` on.
fn point_g1(bytes: &Vec<u8>, start: usize) -> (r: [u8; 96])
    requires
        start + 96 <= bytes.len(),
    ensures
        r@ == bytes@.subrange(start as int, start + 96),
{
    let mut r = [0u8; 96];
    let mut i: usize = 0;
    while i < 96
        invariant
            i <= 96,
            start + 96 <= bytes.len(),
            forall|j: int| 0 <= j < i ==> r@[j] == bytes@[start + j],
        decreases 96 - i,
    {
        r[i] = bytes[start + i];
        i += 1;
    }
    assert(r@ =~= bytes@.subrange(start as int, start + 96));
    r
}

/// The 192 bytes of `bytes` from `start` on.
fn point_g2(bytes: &Vec<u8>, start: usize) -> (r: [u8; 192])
    requires
        start + 192 <= bytes.len(),
    ensures
        r@ == bytes@.subrange(start as int, start + 192),
{
    let mut r = [0u8; 192];
    let mut i: usize = 0;
    while i < 192
        invariant
            i <= 192,
            start + 192 <= bytes.len(),
            forall|j: int| 0 <= j < i ==> r@[j] == bytes@[start + j],
        decreases 192 - i,
    {
        r[i] = bytes[start + i];
        i += 1;
    }
    assert(r@ =~= bytes@.subrange(start as int, start + 192));
    r
}

/// Whether the Groth16 verifier with the encoded key `vk` accepts `proof`
/// for `inputs`: a proof that has not the length of a proof is rejected.
pub fn groth16_verify(vk: &Vec<u8>, proof: &Vec<u8>, inputs: &Vec<FieldElement>) -> (ok: bool)
    ensures
        ok == (proof@.len() == PROOF_LEN && groth16_accepts(vk@, proof@, elements_view(inputs@))),
{
    if proof.len() != PROOF_LEN {
        return false;
    }
    let a = point_g1(proof, 0);
    let b = point_g2(proof, 96);
    let c = point_g1(proof, 288);
    assert(a@ + b@ + c@ =~= proof@);
    groth16_check(vk, &a, &b, &c, inputs)
}

/// A proof with the public inputs it speaks of and the digest that binds
/// the two.
#[derive(Debug)]
pub struct ProofData {
    pub proof: Vec<u8>,
    pub public_inputs: Vec<FieldElement>,
    pub hash: [u8; 32],
}

pub struct ProofDataView {
    pub proof: Seq<u8>,
    pub public_inputs: Seq<Seq<u8>>,
    pub hash: Seq<u8>,
}

impl View for ProofData {
    type V = ProofDataView;

    open spec fn view(&self) -> ProofDataView {
        ProofDataView {
            proof: self.proof@,
            public_inputs: elements_view(self.public_inputs@),
            hash: self.hash@,
        }
    }
}

/// The bytes that the binding digest is taken of: the proof, then each
/// public input.
pub open spec fn binding_preimage(proof: Seq<u8>, inputs: Seq<Seq<u8>>) -> Seq<u8> {
    proof + concat(inputs)
}

/// The digest that binds a proof to its public inputs.
pub open spec fn binding_hash(proof: Seq<u8>, inputs: Seq<Seq<u8>>) -> Seq<u8> {
    blake2s256(binding_preimage(proof, inputs))
}

/// The byte form of proof data: the proof, the number of public inputs as
/// eight little-endian bytes, the inputs, and the digest.
pub open spec fn serialized(v: ProofDataView) -> Seq<u8> {
    v.proof + spec_u64_to_le_bytes(v.public_inputs.len() as u64) + concat(v.public_inputs) + v.hash
}

/// Whether bytes have the frame of serialized proof data: a proof of
/// `PROOF_LEN` bytes, a count, that many inputs of 32 bytes, and a digest of
/// 32 bytes, and nothing more.
pub open spec fn well_framed(bytes: Seq<u8>) -> bool {
    &&& bytes.len() >= PROOF_LEN + 8 + 32
    &&& bytes.len() == PROOF_LEN + 8 + 32 * spec_u64_from_le_bytes(
        bytes.subrange(PROOF_LEN as int, PROOF_LEN + 8),
    ) + 32
}

/// Cutting `n` pieces of 32 bytes and joining them again gives what was
/// cut.
proof fn lemma_concat_pieces(bytes: Seq<u8>, pieces: Seq<Seq<u8>>)
    requires
        bytes.len() == 32 * pieces.len(),
        forall|i: int|
            0 <= i < pieces.len() ==> #[trigger] pieces[i] == bytes.subrange(32 * i, 32 * i + 32),
    ensures
        concat(pieces) == bytes,
    decreases pieces.len(),
{
    if pieces.len() == 0 {
        assert(bytes =~= Seq::<u8>::empty());
    } else {
        let n = pieces.len() - 1;
        let head = bytes.subrange(0, 32 * n);
        assert forall|i: int| 0 <= i < n implies #[trigger] pieces.drop_last()[i] == head.subrange(
            32 * i,
            32 * i + 32,
        ) by {
            assert(pieces.drop_last()[i] == pieces[i]);
            assert(bytes.subrange(32 * i, 32 * i + 32) =~= head.subrange(32 * i, 32 * i + 32));
        }
        lemma_concat_pieces(head, pieces.drop_last());
        assert(pieces.last() == bytes.subrange(32 * n, 32 * n + 32));
        assert(bytes =~= head + pieces.last());
    }
}

/// The joined bytes of `n` elements of 32 bytes are `32 * n` long.
pub proof fn lemma_concat_len(pieces: Seq<Seq<u8>>)
    requires
        forall|i: int| 0 <= i < pieces.len() ==> (#[trigger] pieces[i]).len() == 32,
    ensures
        concat(pieces).len() == 32 * pieces.len(),
    decreases pieces.len(),
{
    if pieces.len() > 0 {
        lemma_concat_len(pieces.drop_last());
    }
}

impl ProofData {
    pub fn new(proof: Vec<u8>, public_inputs: Vec<FieldElement>, hash: [u8; 32]) -> (r: Self)
        ensures
            r.proof == proof,
            r.public_inputs == public_inputs,
            r.hash == hash,
    {
        ProofData { proof, public_inputs, hash }
    }

    /// The byte form: proof, count of inputs, inputs, digest.
    pub fn to_bytes(&self) -> (out: Vec<u8>)
        ensures
            out@ == serialized(self@),
    {
        let mut out: Vec<u8> = Vec::new();
        append_bytes(&mut out, self.proof.as_slice());
        let count = u64_to_le_bytes(self.public_inputs.len() as u64);
        append_bytes(&mut out, count.as_slice());
        let ghost base = out@;
        let mut i: usize = 0;
        while i < self.public_inputs.len()
            invariant
                i <= self.public_inputs.len(),
                out@ == base + concat(self@.public_inputs.take(i as int)),
            decreases self.public_inputs.len() - i,
        {
            append_bytes(&mut out, self.public_inputs[i].bytes.as_slice());
            i += 1;
            proof {
                let t = self@.public_inputs.take(i as int);
                assert(t.drop_last() =~= self@.public_inputs.take(i - 1));
                assert(out@ =~= base + concat(t));
            }
        }
        assert(self@.public_inputs.take(self.public_inputs.len() as int) =~= self@.public_inputs);
        append_bytes(&mut out, self.hash.as_slice());
        assert(out@ =~= serialized(self@));
        out
    }

    /// Reads proof data from its byte form. Bytes that are well framed give
    /// the proof data that serializes to them; other bytes give nothing.
    pub fn from_bytes(bytes: &Vec<u8>) -> (r: Option<Self>)
        ensures
            r is Some <==> well_framed(bytes@),
            match r {
                Some(pd) => pd@.proof.len() == PROOF_LEN && serialized(pd@) == bytes@,
                None => true,
            },
    {
        let n = bytes.len();
        if n < PROOF_LEN + 8 + 32 {
            return None;
        }
        let count = u64_from_le_bytes(slice_subrange(bytes.as_slice(), PROOF_LEN, PROOF_LEN + 8));
        let room = ((n - (PROOF_LEN + 8 + 32)) / 32) as u64;
        if count != room || (n - (PROOF_LEN + 8 + 32)) % 32 != 0 {
            return None;
        }
        let proof = copy_range(bytes, 0, PROOF_LEN);
        let mut public_inputs: Vec<FieldElement> = Vec::new();
        let start = PROOF_LEN + 8;
        let mut i: usize = 0;
        while i < count as usize
            invariant
                i <= count,
                n == bytes.len(),
                start == PROOF_LEN + 8,
                n == start + 32 * count + 32,
                public_inputs.len() == i,
                forall|j: int|
                    0 <= j < i ==> (#[trigger] public_inputs@[j])@ == bytes@.subrange(
                        start + 32 * j,
                        start + 32 * j + 32,
                    ),
            decreases count - i,
        {
            let piece = copy_range(bytes, start + 32 * i, 32);
            public_inputs.push(FieldElement { bytes: to_array(&piece) });
            i += 1;
        }
        let tail = copy_range(bytes, n - 32, 32);
        let pd = ProofData { proof, public_inputs, hash: to_array(&tail) };
        proof {
            let body = bytes@.subrange(start as int, start + 32 * count);
            assert forall|j: int| 0 <= j < pd@.public_inputs.len() implies #[trigger]
                pd@.public_inputs[j] == body.subrange(32 * j, 32 * j + 32) by {
                assert(pd@.public_inputs[j] == public_inputs@[j]@);
                assert(bytes@.subrange(start + 32 * j, start + 32 * j + 32) =~= body.subrange(
                    32 * j,
                    32 * j + 32,
                ));
            }
            lemma_concat_pieces(body, pd@.public_inputs);
            vstd::bytes::lemma_auto_spec_u64_to_from_le_bytes();
            let prefix = bytes@.subrange(PROOF_LEN as int, PROOF_LEN + 8);
            assert(prefix.len() == 8);
            assert(spec_u64_to_le_bytes(count) == prefix);
            assert(bytes@ =~= pd@.proof + prefix + body + pd@.hash);
        }
        Some(pd)
    }
}

/// The part of `s` from `from` up to `to`.
fn slice_subrange(s: &[u8], from: usize, to: usize) -> (r: &[u8])
    requires
        from <= to <= s@.len(),
    ensures
        r@ == s@.subrange(from as int, to as int),
{
    vstd::slice::slice_subrange(s, from, to)
}

/// A copy of `len` bytes of `bytes` from `start` on.
fn copy_range(bytes: &Vec<u8>, start: usize, len: usize) -> (r: Vec<u8>)
    requires
        start + len <= bytes.len(),
    ensures
        r@ == bytes@.subrange(start as int, start + len),
{
    let mut r: Vec<u8> = Vec::new();
    let mut i: usize = 0;
    while i < len
        invariant
            i <= len,
            start + len <= bytes.len(),
            r@ == bytes@.subrange(start as int, start + i),
        decreases len - i,
    {
        r.push(bytes[start + i]);
        i += 1;
        assert(r@ =~= bytes@.subrange(start as int, start + i));
    }
    r
}

/// The 32 bytes of `bytes` as an array.
fn to_array(bytes: &Vec<u8>) -> (r: [u8; 32])
    requires
        bytes@.len() == 32,
    ensures
        r@ == bytes@,
{
    let r = crate::hashing::first_32(bytes);
    assert(bytes@.subrange(0, 32) =~= bytes@);
    r
}

/// Serializing proof data whose proof has the fixed length gives bytes that
/// are well framed: what `to_bytes` writes, `from_bytes` reads, and it reads
/// back proof data with the same byte form.
pub proof fn law_serialized_is_well_framed(v: ProofDataView)
    requires
        v.proof.len() == PROOF_LEN,
        v.hash.len() == 32,
        v.public_inputs.len() <= (usize::MAX - PROOF_LEN - 40) / 32,
        forall|i: int| 0 <= i < v.public_inputs.len() ==> (#[trigger] v.public_inputs[i]).len()
            == 32,
    ensures
        well_framed(serialized(v)),
{
    lemma_concat_len(v.public_inputs);
    vstd::bytes::lemma_auto_spec_u64_to_from_le_bytes();
    let count = spec_u64_to_le_bytes(v.public_inputs.len() as u64);
    assert(count.len() == 8);
    assert(serialized(v).subrange(PROOF_LEN as int, PROOF_LEN + 8) =~= count);
}

/// Why proving or verifying could not be carried out.
#[derive(Debug)]
pub enum ProofError {
    SetupError(String),
    ProveError(String),
    VerifyError(String),
}

pub enum ProofErrorView {
    SetupError(Seq<char>),
    ProveError(Seq<char>),
    VerifyError(Seq<char>),
}

impl View for ProofError {
    type V = ProofErrorView;

    open spec fn view(&self) -> ProofErrorView {
        match self {
            ProofError::SetupError(s) => ProofErrorView::SetupError(s@),
            ProofError::ProveError(s) => ProofErrorView::ProveError(s@),
            ProofError::VerifyError(s) => ProofErrorView::VerifyError(s@),
        }
    }
}

/// A failure of batch verification: which proof, and why.
#[derive(Debug)]
pub struct BatchVerificationError {
    pub index: usize,
    pub error: ProofError,
}

/// Whether the cache holds `proof` under `hash`.
pub open spec fn cache_hit(entries: Seq<Cached>, hash: Seq<u8>, proof: Seq<u8>) -> bool {
    exists|i: int| 0 <= i < entries.len() && #[trigger] entries[i] == (hash, proof)
}

/// The verdict on proof data: accepted where the cache holds its proof
/// under its digest; otherwise accepted exactly where its digest is the one
/// that binds its proof to its inputs, the proof has the length of a proof,
/// and the verifier accepts it.
pub open spec fn verdict(entries: Seq<Cached>, vk: Seq<u8>, pd: ProofDataView) -> bool {
    cache_hit(entries, pd.hash, pd.proof) || (binding_hash(pd.proof, pd.public_inputs) == pd.hash
        && pd.proof.len() == PROOF_LEN && groth16_accepts(vk, pd.proof, pd.public_inputs))
}

/// The verdict on every one of `proofs`.
pub open spec fn all_accepted(entries: Seq<Cached>, vk: Seq<u8>, proofs: Seq<ProofData>) -> bool {
    forall|i: int| 0 <= i < proofs.len() ==> verdict(entries, vk, (#[trigger] proofs[i])@)
}

/// Putting an entry into a cache with distinct keys leaves the keys
/// distinct and no more entries than the capacity; in a cache that can hold
/// anything at all, the entry put is then held.
pub proof fn lemma_put(entries: Seq<Cached>, cap: nat, k: Seq<u8>, v: Seq<u8>)
    requires
        distinct_keys(entries),
        entries.len() <= cap,
    ensures
        distinct_keys(entries_after_put(entries, cap, k, v)),
        entries_after_put(entries, cap, k, v).len() <= cap,
        cap > 0 ==> cache_hit(entries_after_put(entries, cap, k, v), k, v),
{
    let after = entries_after_put(entries, cap, k, v);
    if is_cached(entries, k) {
        let p = cached_at(entries, k);
        let rest = entries.remove(p);
        assert(after[0] == (k, v));
        assert forall|i: int, j: int|
            0 <= i < after.len() && 0 <= j < after.len() && (#[trigger] after[i]).0 == (
            #[trigger] after[j]).0 implies i == j by {
            let oi = if i == 0 {
                p
            } else if i - 1 < p {
                i - 1
            } else {
                i
            };
            let oj = if j == 0 {
                p
            } else if j - 1 < p {
                j - 1
            } else {
                j
            };
            assert(after[i].0 == entries[oi].0);
            assert(after[j].0 == entries[oj].0);
        }
    } else if cap == 0 {
    } else {
        let rest = if entries.len() == cap {
            entries.drop_last()
        } else {
            entries
        };
        assert(after == seq![(k, v)] + rest);
        assert(after[0] == (k, v));
        assert forall|i: int, j: int|
            0 <= i < after.len() && 0 <= j < after.len() && (#[trigger] after[i]).0 == (
            #[trigger] after[j]).0 implies i == j by {
            if i > 0 {
                assert(after[i] == entries[i - 1]);
            }
            if j > 0 {
                assert(after[j] == entries[j - 1]);
            }
        }
    }
}

/// The verifier's side of the proof system: the verifying key and the cache
/// of proofs.
pub struct ProofSystem {
    verifying_key: Vec<u8>,
    proof_cache: LruCache<[u8; 32], Vec<u8>>,
}

impl ProofSystem {
    /// The encoded verifying key.
    pub closed spec fn key(&self) -> Seq<u8> {
        self.verifying_key@
    }

    /// The cached proofs, the one used last standing first.
    pub closed spec fn cached(&self) -> Seq<Cached> {
        cache_entries(self.proof_cache)
    }

    /// The number of proofs that the cache can hold.
    pub closed spec fn capacity(&self) -> nat {
        cache_capacity(self.proof_cache)
    }

    /// The cache holds no digest twice and no more than its capacity.
    pub open spec fn wf(&self) -> bool {
        distinct_keys(self.cached()) && self.cached().len() <= self.capacity()
    }

    /// The verdict of this proof system on proof data.
    pub open spec fn accepts(&self, pd: ProofDataView) -> bool {
        verdict(self.cached(), self.key(), pd)
    }

    /// The verifier would have to be asked about this proof data, and the
    /// key of this proof system is no verifying key.
    pub open spec fn lacks_key(&self, pd: ProofDataView) -> bool {
        asks_verifier(self.cached(), pd) && !groth16_key_decodes(self.key())
    }

    /// A proof system for the encoded verifying key that a setup produced,
    /// with an empty cache of the default capacity.
    pub fn setup(verifying_key: Vec<u8>) -> (r: Self)
        ensures
            r.wf(),
            r.key() == verifying_key@,
            r.cached() == Seq::<Cached>::empty(),
            r.capacity() == DEFAULT_CACHE_SIZE,
    {
        ProofSystem { verifying_key, proof_cache: cache_new(DEFAULT_CACHE_SIZE) }
    }

    /// The digest that binds `proof` to `public_inputs`.
    pub fn hash_proof(proof: &Vec<u8>, public_inputs: &Vec<FieldElement>) -> (hash: [u8; 32])
        ensures
            hash@ == binding_hash(proof@, elements_view(public_inputs@)),
    {
        let mut bytes: Vec<u8> = Vec::new();
        append_bytes(&mut bytes, proof.as_slice());
        let ghost inputs = elements_view(public_inputs@);
        let mut i: usize = 0;
        while i < public_inputs.len()
            invariant
                i <= public_inputs.len(),
                inputs == elements_view(public_inputs@),
                bytes@ == proof@ + concat(inputs.take(i as int)),
            decreases public_inputs.len() - i,
        {
            append_bytes(&mut bytes, public_inputs[i].bytes.as_slice());
            i += 1;
            proof {
                let t = inputs.take(i as int);
                assert(t.drop_last() =~= inputs.take(i - 1));
                assert(bytes@ =~= proof@ + concat(t));
            }
        }
        assert(inputs.take(public_inputs.len() as int) =~= inputs);
        binding_digest(bytes.as_slice())
    }

    /// Takes in what the prover generated. A generated proof is bound to
    /// its public inputs and put into the cache; where the cache can hold
    /// anything, the proof data returned is accepted from then on for as long
    /// as it stays cached. A failure of the prover is handed on, and the
    /// cache stays as it was.
    pub fn prove(
        &mut self,
        generated: Result<Vec<u8>, ProofError>,
        public_inputs: Vec<FieldElement>,
    ) -> (r: Result<ProofData, ProofError>)
        requires
            old(self).wf(),
        ensures
            final(self).wf(),
            final(self).key() == old(self).key(),
            final(self).capacity() == old(self).capacity(),
            match (generated, r) {
                (Ok(proof), Ok(pd)) => {
                    &&& pd@.proof == proof@
                    &&& pd@.public_inputs == elements_view(public_inputs@)
                    &&& pd@.hash == binding_hash(pd@.proof, pd@.public_inputs)
                    &&& final(self).cached() == entries_after_put(
                        old(self).cached(),
                        old(self).capacity(),
                        pd@.hash,
                        pd@.proof,
                    )
                    &&& old(self).capacity() > 0 ==> final(self).accepts(pd@)
                },
                (Err(e), Err(e2)) => e2 == e && final(self).cached() == old(self).cached(),
                _ => false,
            },
    {
        let proof = match generated {
            Ok(proof) => proof,
            Err(e) => { return Err(e); },
        };
        let hash = ProofSystem::hash_proof(&proof, &public_inputs);
        proof {
            lemma_put(self.cached(), self.capacity(), hash@, proof@);
        }
        cache_put(&mut self.proof_cache, hash, clone_bytes(&proof));
        Ok(ProofData::new(proof, public_inputs, hash))
    }

    /// Whether the cache holds the proof of `proof_data` under its digest.
    fn cache_lookup(&self, proof_data: &ProofData) -> (hit: bool)
        requires
            self.wf(),
        ensures
            hit == cache_hit(self.cached(), proof_data@.hash, proof_data@.proof),
    {
        match cache_peek(&self.proof_cache, &proof_data.hash) {
            Some(cached) => {
                let same = bytes_equal(&cached, &proof_data.proof);
                proof {
                    let entries = self.cached();
                    let i = choose|i: int|
                        0 <= i < entries.len() && #[trigger] entries[i] == (
                            proof_data.hash@,
                            cached@,
                        );
                    if cache_hit(entries, proof_data@.hash, proof_data@.proof) {
                        let j = choose|j: int|
                            0 <= j < entries.len() && #[trigger] entries[j] == (
                                proof_data@.hash,
                                proof_data@.proof,
                            );
                        assert(entries[i].0 == entries[j].0);
                    }
                }
                same
            },
            None => {
                proof {
                    let entries = self.cached();
                    if cache_hit(entries, proof_data@.hash, proof_data@.proof) {
                        let j = choose|j: int|
                            0 <= j < entries.len() && #[trigger] entries[j] == (
                                proof_data@.hash,
                                proof_data@.proof,
                            );
                        assert(entries[j].0 == proof_data.hash@);
                    }
                }
                false
            },
        }
    }

    /// Verifies proof data: a proof that the cache holds under its digest
    /// is accepted; any other is accepted exactly where its digest binds it
    /// to its inputs and the verifier accepts it. Malformed proof data is
    /// rejected, never an error. It is an error where the verifier has to
    /// be asked and the key of this proof system is no verifying key.
    pub fn verify(&self, proof_data: &ProofData) -> (r: Result<bool, ProofError>)
        requires
            self.wf(),
        ensures
            match r {
                Ok(accepted) => !self.lacks_key(proof_data@) && accepted == self.accepts(
                    proof_data@,
                ),
                Err(e) => self.lacks_key(proof_data@) && e@ == ProofErrorView::VerifyError(
                    invalid_key_text(),
                ),
            },
    {
        if self.cache_lookup(proof_data) {
            return Ok(true);
        }
        let hash = ProofSystem::hash_proof(&proof_data.proof, &proof_data.public_inputs);
        if !keys_equal(&hash, &proof_data.hash) {
            return Ok(false);
        }
        if !key_decodes(&self.verifying_key) {
            return Err(ProofError::VerifyError("Invalid verifying key".to_string()));
        }
        Ok(groth16_verify(&self.verifying_key, &proof_data.proof, &proof_data.public_inputs))
    }

    /// Verifies every one of `proofs`: the answer is the conjunction of the
    /// verdicts on each. It is an error where verifying one of them is.
    pub fn batch_verify(&self, proofs: &Vec<ProofData>) -> (r: Result<bool, ProofError>)
        requires
            self.wf(),
        ensures
            match r {
                Ok(accepted) => accepted == all_accepted(self.cached(), self.key(), proofs@)
                    && forall|i: int| 0 <= i < proofs@.len() ==> !self.lacks_key(#[trigger] proofs@[i]@),
                Err(e) => e@ == ProofErrorView::VerifyError(invalid_key_text()) && exists|i: int|
                    0 <= i < proofs@.len() && self.lacks_key(#[trigger] proofs@[i]@),
            },
    {
        let mut all = true;
        let mut i: usize = 0;
        while i < proofs.len()
            invariant
                self.wf(),
                i <= proofs.len(),
                all == all_accepted(self.cached(), self.key(), proofs@.take(i as int)),
                forall|j: int| 0 <= j < i ==> !self.lacks_key(#[trigger] proofs@[j]@),
            decreases proofs.len() - i,
        {
            let accepted = match self.verify(&proofs[i]) {
                Ok(accepted) => accepted,
                Err(e) => {
                    return Err(e);
                },
            };
            proof {
                let before = proofs@.take(i as int);
                let after = proofs@.take(i + 1);
                assert(after[i as int] == proofs@[i as int]);
                assert forall|j: int| 0 <= j < before.len() implies before[j] == after[j] by {}
                if all && accepted {
                    assert forall|j: int| 0 <= j < after.len() implies verdict(
                        self.cached(),
                        self.key(),
                        (#[trigger] after[j])@,
                    ) by {
                        if j < i {
                            assert(before[j] == after[j]);
                        }
                    }
                } else if !accepted {
                    assert(!verdict(self.cached(), self.key(), after[i as int]@));
                } else {
                    let j = choose|j: int|
                        0 <= j < before.len() && !verdict(
                            self.cached(),
                            self.key(),
                            (#[trigger] before[j])@,
                        );
                    assert(after[j] == before[j]);
                }
            }
            all = all && accepted;
            i += 1;
        }
        assert(proofs@.take(proofs.len() as int) =~= proofs@);
        Ok(all)
    }

    /// The number of proofs that the cache can hold.
    pub fn cache_capacity(&self) -> (cap: usize)
        ensures
            cap == self.capacity(),
    {
        cache_cap(&self.proof_cache)
    }
}

/// Calls `LruCache::cap`. Trusted: it is the capacity the cache was made
/// with.
#[verifier::external_body]
fn cache_cap(cache: &LruCache<[u8; 32], Vec<u8>>) -> (cap: usize)
    ensures
        cap == cache_capacity(*cache),
{
    cache.cap()
}

/// The verifier is asked about proof data: the cache does not hold the
/// proof under its digest, and the digest binds the proof to its inputs.
pub open spec fn asks_verifier(entries: Seq<Cached>, pd: ProofDataView) -> bool {
    !cache_hit(entries, pd.hash, pd.proof) && binding_hash(pd.proof, pd.public_inputs) == pd.hash
}

/// The text of the error for a key that is no verifying key.
pub open spec fn invalid_key_text() -> Seq<char> {
    "Invalid verifying key"@
}

/// Whether two byte vectors hold the same bytes.
pub fn bytes_equal(a: &Vec<u8>, b: &Vec<u8>) -> (r: bool)
    ensures
        r == (a@ == b@),
{
    if a.len() != b.len() {
        return false;
    }
    let mut i: usize = 0;
    while i < a.len()
        invariant
            i <= a.len(),
            a.len() == b.len(),
            forall|j: int| 0 <= j < i ==> a@[j] == b@[j],
        decreases a.len() - i,
    {
        if a[i] != b[i] {
            return false;
        }
        i += 1;
    }
    assert(a@ =~= b@);
    true
}

/// Verifying many proofs at once says what verifying them one by one says:
/// the batch is accepted exactly where every single proof is.
pub proof fn law_batch_is_conjunction(entries: Seq<Cached>, vk: Seq<u8>, proofs: Seq<ProofData>)
    ensures
        all_accepted(entries, vk, proofs) <==> (forall|i: int|
            0 <= i < proofs.len() ==> verdict(entries, vk, (#[trigger] proofs[i])@)),
{
}

/// Proof data that the prover's result was just taken in as is accepted:
/// in a cache that can hold anything, the proof put under its digest is
/// found there.
pub proof fn law_proved_is_accepted(
    entries: Seq<Cached>,
    cap: nat,
    vk: Seq<u8>,
    pd: ProofDataView,
)
    requires
        distinct_keys(entries),
        entries.len() <= cap,
        cap > 0,
    ensures
        verdict(entries_after_put(entries, cap, pd.hash, pd.proof), vk, pd),
{
    lemma_put(entries, cap, pd.hash, pd.proof);
}

/// Proof data whose digest is not the one that binds its proof to its
/// inputs is rejected, unless the cache holds that very proof under that
/// very digest. So changing a byte of the proof or of a public input of
/// accepted proof data leads to rejection wherever the change shows in the
/// binding digest and the changed proof is not itself cached.
pub proof fn law_unbound_is_rejected(entries: Seq<Cached>, vk: Seq<u8>, pd: ProofDataView)
    requires
        binding_hash(pd.proof, pd.public_inputs) != pd.hash,
        !cache_hit(entries, pd.hash, pd.proof),
    ensures
        !verdict(entries, vk, pd),
{
}

/// Settings for a proof system.
pub struct ProofSystemBuilder {
    cache_size: Option<usize>,
    parallel_verification: bool,
    verification_batch_size: Option<usize>,
}

impl ProofSystemBuilder {
    pub closed spec fn spec_cache_size(&self) -> Option<usize> {
        self.cache_size
    }

    pub closed spec fn spec_parallel(&self) -> bool {
        self.parallel_verification
    }

    pub closed spec fn spec_batch_size(&self) -> Option<usize> {
        self.verification_batch_size
    }

    /// The usual settings: a cache of 1000 proofs, parallel verification,
    /// batches of 100.
    pub fn new() -> (r: Self)
        ensures
            r.spec_cache_size() == Some(DEFAULT_CACHE_SIZE),
            r.spec_parallel(),
            r.spec_batch_size() == Some(100usize),
    {
        ProofSystemBuilder {
            cache_size: Some(DEFAULT_CACHE_SIZE),
            parallel_verification: true,
            verification_batch_size: Some(100),
        }
    }

    pub fn with_cache_size(self, size: usize) -> (r: Self)
        ensures
            r.spec_cache_size() == Some(size),
            r.spec_parallel() == self.spec_parallel(),
            r.spec_batch_size() == self.spec_batch_size(),
    {
        ProofSystemBuilder { cache_size: Some(size), ..self }
    }

    pub fn with_parallel_verification(self, enabled: bool) -> (r: Self)
        ensures
            r.spec_cache_size() == self.spec_cache_size(),
            r.spec_parallel() == enabled,
            r.spec_batch_size() == self.spec_batch_size(),
    {
        ProofSystemBuilder { parallel_verification: enabled, ..self }
    }

    pub fn with_verification_batch_size(self, size: usize) -> (r: Self)
        ensures
            r.spec_cache_size() == self.spec_cache_size(),
            r.spec_parallel() == self.spec_parallel(),
            r.spec_batch_size() == Some(size),
    {
        ProofSystemBuilder { verification_batch_size: Some(size), ..self }
    }

    /// Whether verification is to be spread over workers.
    pub fn parallel_verification(&self) -> (r: bool)
        ensures
            r == self.spec_parallel(),
    {
        self.parallel_verification
    }

    /// The number of proofs to hand to one worker at a time.
    pub fn verification_batch_size(&self) -> (r: Option<usize>)
        ensures
            r == self.spec_batch_size(),
    {
        self.verification_batch_size
    }

    /// A proof system for the encoded verifying key that a setup produced,
    /// with an empty cache of the size set, or of the default size where
    /// none was set.
    pub fn build(self, verifying_key: Vec<u8>) -> (r: ProofSystem)
        ensures
            r.wf(),
            r.key() == verifying_key@,
            r.cached() == Seq::<Cached>::empty(),
            r.capacity() == (match self.spec_cache_size() {
                Some(size) => size,
                None => DEFAULT_CACHE_SIZE,
            }),
    {
        let size = match self.cache_size {
            Some(size) => size,
            None => DEFAULT_CACHE_SIZE,
        };
        ProofSystem { verifying_key, proof_cache: cache_new(size) }
    }
}

} // verus!
