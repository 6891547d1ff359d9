//! FNV-1a hashing for content-addressed step caching.

use vstd::prelude::*;
use vstd::string::StringSliceAdditionalSpecFns;

verus! {

/// The FNV-1a 64-bit offset basis.
pub const FNV_OFFSET: u64 = 0xcbf29ce484222325;

/// The FNV-1a 64-bit prime.
pub const FNV_PRIME: u64 = 0x100000001b3;

/// One FNV-1a round: xor in the byte, then multiply modulo 2^64.
pub open spec fn fnv1a_round(h: u64, b: u8) -> u64 {
    vstd::wrapping::u64_specs::wrapping_mul(h ^ (b as u64), FNV_PRIME)
}

/// FNV-1a of a byte sequence: the rounds folded from the offset basis.
pub open spec fn fnv1a_spec(data: Seq<u8>) -> u64
    decreases data.len(),
{
    if data.len() == 0 {
        FNV_OFFSET
    } else {
        fnv1a_round(fnv1a_spec(data.drop_last()), data.last())
    }
}

/// FNV-1a 64-bit hash of a byte slice.
pub fn fnv1a_hash(data: &[u8]) -> (h: u64)
    ensures
        h == fnv1a_spec(data@),
{
    let mut hash: u64 = FNV_OFFSET;
    let mut i: usize = 0;
    while i < data.len()
        invariant
            i <= data.len(),
            hash == fnv1a_spec(data@.subrange(0, i as int)),
        decreases data.len() - i,
    {
        let b = data[i];
        hash = (hash ^ (b as u64)).wrapping_mul(FNV_PRIME);
        assert(data@.subrange(0, i + 1).drop_last() =~= data@.subrange(0, i as int));
        i += 1;
    }
    assert(data@.subrange(0, data.len() as int) =~= data@);
    hash
}

/// Hash the serialised form of a parameter value: FNV-1a of its UTF-8 bytes.
pub fn hash_params(json_str: &str) -> (h: u64)
    ensures
        h == fnv1a_spec(json_str.spec_bytes()),
{
    fnv1a_hash(json_str.as_bytes())
}

} // verus!
