//! Digest primitives of the chosen cipher suite: MD5 as the keyed-digest
//! building block (through the `md-5` crate), a verified HMAC construction
//! on top of it, and a verified constant-time comparison.

use vstd::prelude::*;

use md5::Digest;
use md5::Md5;

verus! {

/// The 16-byte MD5 digest of a byte sequence. The digest is a function of
/// the input bytes alone; what it is on given bytes is left to the outside
/// implementation.
pub uninterp spec fn md5_of(m: Seq<u8>) -> Seq<u8>;

/// Relies on `md5::Md5` of the md-5 crate: `Digest::digest` returns the
/// 16-byte MD5 hash of the input, a function of the input bytes alone.
#[verifier::external_body]
pub fn md5_digest(m: &[u8]) -> (r: Vec<u8>)
    ensures
        r@ == md5_of(m@),
        r@.len() == 16,
{
    Md5::digest(m).to_vec()
}

/// HMAC block size in bytes (MD5 operates on 64-byte blocks).
pub const HMAC_BLOCK: usize = 64;

/// The key padded to one block and XORed with a pad byte.
pub open spec fn xor_pad(key: Seq<u8>, pad: u8) -> Seq<u8> {
    Seq::new(64, |i: int| if i < key.len() { key[i] ^ pad } else { pad })
}

/// HMAC-MD5 over a key of at most one block, per the standard
/// construction: `H((K ^ opad) || H((K ^ ipad) || m))`.
pub open spec fn hmac_md5_spec(key: Seq<u8>, msg: Seq<u8>) -> Seq<u8> {
    md5_of(xor_pad(key, 0x5c) + md5_of(xor_pad(key, 0x36) + msg))
}

/// Appends `key`, padded to one block, XORed with `pad`.
fn push_xor_pad(out: &mut Vec<u8>, key: &[u8], pad: u8)
    requires
        key@.len() <= 64,
    ensures
        final(out)@ == old(out)@ + xor_pad(key@, pad),
{
    let mut i: usize = 0;
    while i < key.len()
        invariant
            key@.len() <= 64,
            i <= key@.len(),
            out@ == old(out)@ + xor_pad(key@, pad).subrange(0, i as int),
        decreases key@.len() - i,
    {
        out.push(key[i] ^ pad);
        i = i + 1;
        assert(out@ =~= old(out)@ + xor_pad(key@, pad).subrange(0, i as int));
    }
    while i < HMAC_BLOCK
        invariant
            key@.len() <= i <= 64,
            out@ == old(out)@ + xor_pad(key@, pad).subrange(0, i as int),
        decreases 64 - i,
    {
        out.push(pad);
        i = i + 1;
        assert(out@ =~= old(out)@ + xor_pad(key@, pad).subrange(0, i as int));
    }
    assert(out@ =~= old(out)@ + xor_pad(key@, pad));
}

/// HMAC-MD5 of `msg` under `key`.
pub fn hmac_md5(key: &[u8], msg: &[u8]) -> (r: Vec<u8>)
    requires
        key@.len() <= 64,
    ensures
        r@ == hmac_md5_spec(key@, msg@),
        r@.len() == 16,
{
    let mut inner: Vec<u8> = Vec::new();
    push_xor_pad(&mut inner, key, 0x36);
    crate::primitives::extend_bytes(&mut inner, msg);
    let inner_digest = md5_digest(inner.as_slice());

    let mut outer: Vec<u8> = Vec::new();
    push_xor_pad(&mut outer, key, 0x5c);
    crate::primitives::extend_bytes(&mut outer, inner_digest.as_slice());
    let r = md5_digest(outer.as_slice());
    assert(inner@ =~= xor_pad(key@, 0x36) + msg@);
    assert(outer@ =~= xor_pad(key@, 0x5c) + md5_of(xor_pad(key@, 0x36) + msg@));
    r
}

/// Compares two equally long byte strings without an early exit, so that
/// timing leaks nothing about the position of a mismatch.
pub fn ct_eq(a: &[u8], b: &[u8]) -> (r: bool)
    requires
        a@.len() == b@.len(),
    ensures
        r <==> a@ == b@,
{
    let mut acc: u8 = 0;
    let mut i: usize = 0;
    while i < a.len()
        invariant
            a@.len() == b@.len(),
            i <= a@.len(),
            (acc == 0) <==> (forall|j: int| 0 <= j < i ==> a@[j] == b@[j]),
        decreases a@.len() - i,
    {
        let x = a[i];
        let y = b[i];
        let d = x ^ y;
        proof {
            assert((x ^ y == 0) <==> (x == y)) by (bit_vector);
            assert((acc | d == 0) <==> (acc == 0 && d == 0)) by (bit_vector);
        }
        acc = acc | d;
        i = i + 1;
    }
    if acc == 0 {
        proof {
            assert(a@ =~= b@);
        }
        true
    } else {
        false
    }
}

} // verus!
