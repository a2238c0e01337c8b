//! The header checksum: 32-bit FNV-1a over the header bytes that precede
//! the checksum field.

use vstd::prelude::*;

verus! {

/// FNV-1a offset basis.
pub const FNV_OFFSET: u32 = 0x811c9dc5;

/// FNV-1a prime.
pub const FNV_PRIME: u32 = 0x01000193;

/// One FNV-1a step: fold a byte into the running hash.
pub open spec fn fnv1a32_step(h: u32, b: u8) -> u32 {
    (h ^ (b as u32)).wrapping_mul(FNV_PRIME)
}

/// The 32-bit FNV-1a hash of a byte sequence.
pub open spec fn fnv1a32(s: Seq<u8>) -> u32
    decreases s.len(),
{
    if s.len() == 0 {
        FNV_OFFSET
    } else {
        fnv1a32_step(fnv1a32(s.drop_last()), s.last())
    }
}

/// Computes the 32-bit FNV-1a hash of `b[start..end]`.
pub fn fnv1a32_range(b: &[u8], start: usize, end: usize) -> (r: u32)
    requires
        start <= end <= b@.len(),
    ensures
        r == fnv1a32(b@.subrange(start as int, end as int)),
{
    let mut h: u32 = FNV_OFFSET;
    let mut i: usize = start;
    assert(b@.subrange(start as int, start as int) =~= Seq::<u8>::empty());
    while i < end
        invariant
            start <= i <= end <= b@.len(),
            h == fnv1a32(b@.subrange(start as int, i as int)),
        decreases end - i,
    {
        let byte = b[i];
        h = (h ^ (byte as u32)).wrapping_mul(FNV_PRIME);
        proof {
            let pre = b@.subrange(start as int, i as int);
            let post = b@.subrange(start as int, i + 1);
            assert(post.drop_last() =~= pre);
            assert(post.last() == b@[i as int]);
        }
        i = i + 1;
    }
    h
}

/// Computes the FNV-1a hash of the whole slice.
pub fn fnv1a32_bytes(b: &[u8]) -> (r: u32)
    ensures
        r == fnv1a32(b@),
{
    let r = fnv1a32_range(b, 0, b.len());
    assert(b@.subrange(0, b@.len() as int) =~= b@);
    r
}

} // verus!
