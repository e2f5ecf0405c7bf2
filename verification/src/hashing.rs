//! Byte hashes used for commitments: BLAKE2b-512 for state roots and contract
//! addresses, BLAKE2s-256 for binding a proof to its public inputs.

use blake2::{Blake2b512, Blake2s256, Digest};
use sha3::Keccak256;
use vstd::prelude::*;

verus! {

/// The BLAKE2b-512 digest of a byte string.
pub uninterp spec fn blake2b512(data: Seq<u8>) -> Seq<u8>;

/// The BLAKE2s-256 digest of a byte string.
pub uninterp spec fn blake2s256(data: Seq<u8>) -> Seq<u8>;

/// The BLAKE3 digest of a byte string.
pub uninterp spec fn blake3_hash(data: Seq<u8>) -> Seq<u8>;

/// The Keccak-256 digest of a byte string.
pub uninterp spec fn keccak256(data: Seq<u8>) -> Seq<u8>;

/// The first 32 bytes of the BLAKE2b-512 digest of `data`: the commitment
/// used for state roots, contract addresses and the hashing opcode.
pub open spec fn commitment(data: Seq<u8>) -> Seq<u8> {
    blake2b512(data).subrange(0, 32)
}

/// Calls `Blake2b512::digest` of the `blake2` crate on `data`. Trusted: the
/// result is the BLAKE2b-512 digest of exactly these bytes, and is 64 bytes
/// long.
#[verifier::external_body]
fn blake2b512_digest(data: &[u8]) -> (out: Vec<u8>)
    ensures
        out@ == blake2b512(data@),
        out@.len() == 64,
{
    Blake2b512::digest(data).to_vec()
}

/// Calls `Blake2s256::digest` of the `blake2` crate on `data`. Trusted: the
/// result is the BLAKE2s-256 digest of exactly these bytes, and is 32 bytes
/// long.
#[verifier::external_body]
fn blake2s256_digest(data: &[u8]) -> (out: Vec<u8>)
    ensures
        out@ == blake2s256(data@),
        out@.len() == 32,
{
    Blake2s256::digest(data).to_vec()
}

/// Copies the first 32 bytes of `bytes` into an array.
pub fn first_32(bytes: &Vec<u8>) -> (out: [u8; 32])
    requires
        bytes@.len() >= 32,
    ensures
        out@ == bytes@.subrange(0, 32),
{
    let mut out = [0u8; 32];
    let mut i: usize = 0;
    while i < 32
        invariant
            i <= 32,
            bytes@.len() >= 32,
            forall|j: int| 0 <= j < i ==> out@[j] == bytes@[j],
        decreases 32 - i,
    {
        out[i] = bytes[i];
        i += 1;
    }
    assert(out@ =~= bytes@.subrange(0, 32));
    out
}

/// The 32-byte commitment to `data`.
pub fn commit(data: &[u8]) -> (out: [u8; 32])
    ensures
        out@ == commitment(data@),
{
    let full = blake2b512_digest(data);
    first_32(&full)
}

/// The 32-byte BLAKE2s-256 digest of `data`.
pub fn binding_digest(data: &[u8]) -> (out: [u8; 32])
    ensures
        out@ == blake2s256(data@),
{
    let full = blake2s256_digest(data);
    let out = first_32(&full);
    assert(full@.subrange(0, 32) =~= full@);
    out
}

/// Calls `blake3::hash` on `data` and copies the digest out. Trusted: the
/// result is the BLAKE3 digest of exactly these bytes.
#[verifier::external_body]
pub(crate) fn blake3_digest(data: &[u8]) -> (out: [u8; 32])
    ensures
        out@ == blake3_hash(data@),
{
    *blake3::hash(data).as_bytes()
}

/// Calls `Keccak256::digest` of the `sha3` crate on `data`. Trusted: the
/// result is the Keccak-256 digest of exactly these bytes.
#[verifier::external_body]
pub(crate) fn keccak256_digest(data: &[u8]) -> (out: [u8; 32])
    ensures
        out@ == keccak256(data@),
{
    Keccak256::digest(data).into()
}

} // verus!
