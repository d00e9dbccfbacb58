//! The two strategies that turn a storage key into a fixed 16-byte digest.
use vstd::prelude::*;
use crate::codec::{encode_le, le_bytes, lemma_le_bytes_len};

verus! {

/// The 16-byte BLAKE2b digest of `x`, with no key.
pub uninterp spec fn blake2b_128_of(x: Seq<u8>) -> Seq<u8>;

/// The 64-bit xxHash of `x` under `seed`.
pub uninterp spec fn xxh64_of(seed: u64, x: Seq<u8>) -> u64;

/// Relies on blake2_rfc::blake2b::blake2b with an output length of 16 and an
/// empty key: the digest is a function of the input bytes alone.
#[verifier::external_body]
fn blake2b_128(x: &[u8]) -> (r: [u8; 16])
    ensures
        r@ == blake2b_128_of(x@),
{
    let digest = blake2_rfc::blake2b::blake2b(16, &[], x);
    let mut out = [0u8; 16];
    out.copy_from_slice(digest.as_bytes());
    out
}

/// Relies on twox_hash::XxHash64 (seeded, fed `x` once, then finished): the
/// 64-bit hash is a function of the seed and the input bytes alone.
#[verifier::external_body]
fn xxh64(seed: u64, x: &[u8]) -> (r: u64)
    ensures
        r == xxh64_of(seed, x@),
{
    let mut state = twox_hash::XxHash64::with_seed(seed);
    std::hash::Hasher::write(&mut state, x);
    std::hash::Hasher::finish(&state)
}

/// A way of hashing storage keys to 16 bytes.
pub trait StorageHasher {
    /// The digest of `x`.
    spec fn spec_hash(x: Seq<u8>) -> Seq<u8>;

    fn hash(x: &[u8]) -> (r: [u8; 16])
        ensures
            r@ == Self::spec_hash(x@),
    ;
}

/// Hash storage keys with blake2 128: for keys that outside parties choose.
pub struct Blake2;

impl StorageHasher for Blake2 {
    open spec fn spec_hash(x: Seq<u8>) -> Seq<u8> {
        blake2b_128_of(x)
    }

    fn hash(x: &[u8]) -> (r: [u8; 16]) {
        let r = blake2b_128(x);
        assert(r@ == Self::spec_hash(x@));
        r
    }
}

/// Hash storage keys with twox 128: two 64-bit xxHashes of the key, under
/// seeds 0 and 1, each written little-endian.
pub struct Twox;

/// The twox 128 digest of `x`.
pub open spec fn twox_128_of(x: Seq<u8>) -> Seq<u8> {
    le_bytes(xxh64_of(0, x) as nat, 8) + le_bytes(xxh64_of(1, x) as nat, 8)
}

impl StorageHasher for Twox {
    open spec fn spec_hash(x: Seq<u8>) -> Seq<u8> {
        twox_128_of(x)
    }

    fn hash(x: &[u8]) -> (r: [u8; 16]) {
        let low = encode_le(xxh64(0, x), 8);
        let high = encode_le(xxh64(1, x), 8);
        let ghost both = low@ + high@;
        proof {
            lemma_le_bytes_len(xxh64_of(0, x@) as nat, 8);
            lemma_le_bytes_len(xxh64_of(1, x@) as nat, 8);
        }
        let mut out = [0u8; 16];
        let mut i: usize = 0;
        while i < 16
            invariant
                i <= 16,
                low@.len() == 8,
                high@.len() == 8,
                both == low@ + high@,
                out@.len() == 16,
                forall|j: int| 0 <= j < i ==> out@[j] == both[j],
            decreases 16 - i,
        {
            if i < 8 {
                out[i] = low[i];
            } else {
                out[i] = high[i - 8];
            }
            i = i + 1;
        }
        assert(out@ =~= both);
        out
    }
}

} // verus!
