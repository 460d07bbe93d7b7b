//! The lab's console: the seed each declared sensor axis draws its noise
//! with.

use vstd::prelude::*;
use vstd::string::StringSliceAdditionalSpecFns;

verus! {

/// FNV-1a's offset basis.
pub const FNV_OFFSET: u64 = 0xcbf2_9ce4_8422_2325;

/// FNV-1a's prime.
pub const FNV_PRIME: u64 = 0x0000_0100_0000_01b3;

/// FNV-1a over `bytes`: each byte folded in by exclusive or, then the hash
/// multiplied by the prime, modulo 2^64.
pub open spec fn fnv1a(bytes: Seq<u8>) -> u64
    decreases bytes.len(),
{
    if bytes.len() == 0 {
        FNV_OFFSET
    } else {
        vstd::wrapping::u64_specs::wrapping_mul(fnv1a(bytes.drop_last()) ^ (bytes.last() as u64), FNV_PRIME)
    }
}

/// The seed a console axis draws its noise with: its sensor's name and its
/// axis, so three axes given one signal are not one axis three times.
pub fn console_seed(name: &str, axis: usize) -> (seed: u64)
    ensures
        seed == fnv1a(name.spec_bytes()) ^ (axis as u64),
{
    let bytes = name.as_bytes();
    let mut hash: u64 = FNV_OFFSET;
    let mut i: usize = 0;
    while i < bytes.len()
        invariant
            i <= bytes.len(),
            bytes@ == name.spec_bytes(),
            hash == fnv1a(bytes@.take(i as int)),
        decreases bytes.len() - i,
    {
        proof {
            assert(bytes@.take(i + 1).drop_last() =~= bytes@.take(i as int));
            assert(bytes@.take(i + 1).last() == bytes@[i as int]);
        }
        hash = hash ^ (bytes[i] as u64);
        hash = hash.wrapping_mul(FNV_PRIME);
        i = i + 1;
    }
    assert(bytes@.take(bytes.len() as int) =~= bytes@);
    hash ^ (axis as u64)
}

} // verus!
