//! The commitment digest: a 256-bit Blake2b hash of a reveal payload, held as
//! four 64-bit words so that digests compare as plain values. The creator's
//! digest doubles as the game's identifier.

use vstd::prelude::*;

verus! {

/// A 256-bit commitment digest, as four little-endian 64-bit words.
#[derive(Clone, Copy, PartialEq, Eq, Structural, Debug, Hash)]
pub struct Digest {
    pub w0: u64,
    pub w1: u64,
    pub w2: u64,
    pub w3: u64,
}

/// The Blake2b-256 digest of a byte string. Its value is fixed by the hash
/// function alone; nothing here states what it is on any given bytes.
pub uninterp spec fn digest_of(data: Seq<u8>) -> Digest;

/// Relies on sp_core_hashing::blake2_256: the 32-byte Blake2b-256 digest of
/// the input, a function of the input bytes alone.
#[verifier::external_body]
fn blake2_256_words(data: &Vec<u8>) -> (r: Digest)
    ensures
        r == digest_of(data@),
{
    let h = sp_core_hashing::blake2_256(data.as_slice());
    Digest {
        w0: u64::from_le_bytes(h[0..8].try_into().unwrap()),
        w1: u64::from_le_bytes(h[8..16].try_into().unwrap()),
        w2: u64::from_le_bytes(h[16..24].try_into().unwrap()),
        w3: u64::from_le_bytes(h[24..32].try_into().unwrap()),
    }
}

/// The commitment digest of a reveal payload (or of any byte string a player
/// commits to).
pub fn hash_move(data: &Vec<u8>) -> (r: Digest)
    ensures
        r == digest_of(data@),
{
    blake2_256_words(data)
}

} // verus!
