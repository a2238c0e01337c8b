//! Identity Verifier: validates an inbound authentication tag against the
//! configured secret and a tolerated clock-skew window, and yields the key
//! seed that header decryption is derived from.

use vstd::prelude::*;

use crate::digest::hmac_md5;
use crate::digest::hmac_md5_spec;
use crate::digest::md5_digest;
use crate::digest::md5_of;
use crate::errors::AuthenticationError;
use crate::primitives::be64_bytes;
use crate::primitives::be64_vec;
use crate::primitives::extend_bytes;

verus! {

/// The derivation label appended to the secret when the key seed is built.
pub open spec fn seed_label() -> Seq<u8> {
    seq![0x6bu8, 0x65, 0x79, 0x2d, 0x73, 0x65, 0x65, 0x64]
}

/// The expected authentication tag for one time bucket: HMAC-MD5 of the
/// big-endian timestamp under the configured secret.
pub open spec fn tag_for(secret: Seq<u8>, t: u64) -> Seq<u8> {
    hmac_md5_spec(secret, be64_bytes(t))
}

/// Whether `t` lies in the tolerated window around `now`.
pub open spec fn in_window(now: u64, skew: u64, t: u64) -> bool {
    now - skew <= t <= now + skew
}

/// Whether `tag` equals the expected tag of some bucket in the window.
pub open spec fn tag_matches_window(tag: Seq<u8>, secret: Seq<u8>, now: u64, skew: u64) -> bool {
    exists|t: u64| in_window(now, skew, t) && tag == tag_for(secret, t)
}

/// What the key seed is: the digest of the secret and a fixed label.
pub open spec fn seed_of(secret: Seq<u8>) -> Seq<u8> {
    md5_of(secret + seed_label())
}

/// Key seed material yielded by successful verification; header decryption
/// keys are derived from it.
pub struct KeySeed {
    pub material: Vec<u8>,
}

impl KeySeed {
    /// The seed is the 16-byte digest of the secret plus the fixed label.
    pub open spec fn wf(&self, secret: Seq<u8>) -> bool {
        self.material@ == seed_of(secret) && self.material@.len() == 16
    }
}

/// Builds the key seed for a secret.
pub fn derive_seed(secret: &[u8]) -> (r: KeySeed)
    ensures
        r.wf(secret@),
{
    let mut buf: Vec<u8> = Vec::new();
    extend_bytes(&mut buf, secret);
    buf.push(0x6b);
    buf.push(0x65);
    buf.push(0x79);
    buf.push(0x2d);
    buf.push(0x73);
    buf.push(0x65);
    buf.push(0x65);
    buf.push(0x64);
    assert(buf@ =~= secret@ + seed_label());
    let material = md5_digest(buf.as_slice());
    KeySeed { material }
}

/// Validates `tag` against every time bucket within `skew` seconds of
/// `now`, comparing in constant time per bucket. Succeeds exactly when some
/// bucket's expected tag equals `tag`; on success yields the key seed.
pub fn verify(tag: &[u8], secret: &[u8], now: u64, skew: u64) -> (r: Result<
    KeySeed,
    AuthenticationError,
>)
    requires
        tag@.len() == 16,
        secret@.len() == 16,
        skew <= now,
        now + skew < 0xffff_ffff_ffff_ffff,
    ensures
        r.is_ok() <==> tag_matches_window(tag@, secret@, now, skew),
        r matches Ok(seed) ==> seed.wf(secret@),
{
    let mut t: u64 = now - skew;
    let last: u64 = now + skew;
    while t <= last
        invariant
            now - skew <= t <= last + 1,
            last == now + skew,
            last < 0xffff_ffff_ffff_ffff,
            tag@.len() == 16,
            secret@.len() == 16,
            forall|u: u64| now - skew <= u < t ==> tag@ != tag_for(secret@, u),
        decreases last + 1 - t,
    {
        let stamp = be64_vec(t);
        let expected = hmac_md5(secret, stamp.as_slice());
        if crate::digest::ct_eq(tag, expected.as_slice()) {
            proof {
                assert(in_window(now, skew, t) && tag@ == tag_for(secret@, t));
            }
            return Ok(derive_seed(secret));
        }
        t = t + 1;
    }
    proof {
        assert(forall|u: u64| in_window(now, skew, u) ==> tag@ != tag_for(secret@, u));
    }
    Err(AuthenticationError)
}

/// Law: a tag computed for any bucket inside the tolerated window is
/// accepted at `now`; in particular, with the default tolerance of 120
/// seconds, a tag made for `now` itself or for 60 seconds to either side
/// verifies. (That a tag made far outside the window is rejected holds
/// exactly when it collides with no in-window bucket's tag, which is what
/// `verify`'s contract states.)
pub proof fn lemma_tag_in_window_verifies(secret: Seq<u8>, now: u64, skew: u64, t: u64)
    requires
        now - skew <= t <= now + skew,
    ensures
        tag_matches_window(tag_for(secret, t), secret, now, skew),
{
    assert(in_window(now, skew, t) && tag_for(secret, t) == tag_for(secret, t));
}

} // verus!
