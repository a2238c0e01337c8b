//! Stream Cipher Layer: per-direction, per-frame symmetric protection.
//! Three modes: AEAD (AES-128-GCM, 16-byte tag, deterministic per-index
//! nonce), legacy stream cipher (AES-128-CFB over a checksum-prefixed
//! body, per-frame derived IV), and plaintext passthrough. Nonce and IV
//! state advances deterministically per frame index and is owned by one
//! direction of one session.

use vstd::prelude::*;

use aes_gcm::aead::Aead;
use aes_gcm::Aes128Gcm;
use aes_gcm::KeyInit;
use cfb_mode::cipher::KeyIvInit;

use crate::checksum::fnv1a32;
use crate::digest::md5_digest;
use crate::digest::md5_of;
use crate::errors::FrameIntegrityError;
use crate::header::SecurityMode;
use crate::primitives::be32_bytes;
use crate::primitives::be64_bytes;
use crate::primitives::extend_bytes;
use crate::primitives::get_be32;
use crate::primitives::push_be32;
use crate::primitives::read32;

verus! {

/// Largest plaintext one AEAD frame may carry: the 16-byte tag must still
/// leave the ciphertext within a 16-bit length prefix.
pub const MAX_SEAL_INPUT: usize = 65519;

/// The AES-128-GCM ciphertext (tag appended) of `pt` under `key` and the
/// 12-byte `nonce`; a function of its arguments alone.
pub uninterp spec fn gcm_seal_of(key: Seq<u8>, nonce: Seq<u8>, pt: Seq<u8>) -> Seq<u8>;

/// What AES-128-GCM decryption yields: the plaintext, or nothing when the
/// tag does not verify; a function of its arguments alone.
pub uninterp spec fn gcm_open_of(key: Seq<u8>, nonce: Seq<u8>, ct: Seq<u8>) -> Option<Seq<u8>>;

/// The AES-128-CFB encryption of `data` under `key` and `iv`; a function
/// of its arguments alone.
pub uninterp spec fn cfb_encrypt_of(key: Seq<u8>, iv: Seq<u8>, data: Seq<u8>) -> Seq<u8>;

/// The AES-128-CFB decryption of `data` under `key` and `iv`; a function
/// of its arguments alone.
pub uninterp spec fn cfb_decrypt_of(key: Seq<u8>, iv: Seq<u8>, data: Seq<u8>) -> Seq<u8>;

/// Relies on `aes_gcm::Aes128Gcm` through `aead::Aead::encrypt`: the
/// ciphertext is the plaintext's length plus a 16-byte appended tag, is a
/// function of key, nonce and plaintext alone, and `decrypt` under the
/// same key and nonce yields the plaintext back.
#[verifier::external_body]
fn gcm_seal(key: &[u8], nonce: &[u8], pt: &[u8]) -> (r: Vec<u8>)
    requires
        key@.len() == 16,
        nonce@.len() == 12,
        pt@.len() <= MAX_SEAL_INPUT,
    ensures
        r@ == gcm_seal_of(key@, nonce@, pt@),
        r@.len() == pt@.len() + 16,
        gcm_open_of(key@, nonce@, r@) == Some(pt@),
{
    let cipher = Aes128Gcm::new_from_slice(key).unwrap();
    let nonce_arr = aes_gcm::Nonce::try_from(nonce).unwrap();
    cipher.encrypt(&nonce_arr, pt).unwrap()
}

/// Relies on `aes_gcm::Aes128Gcm` through `aead::Aead::decrypt`: yields
/// the plaintext, 16 bytes shorter than the ciphertext, exactly when the
/// appended tag verifies; the outcome is a function of its arguments
/// alone.
#[verifier::external_body]
fn gcm_open(key: &[u8], nonce: &[u8], ct: &[u8]) -> (r: Option<Vec<u8>>)
    requires
        key@.len() == 16,
        nonce@.len() == 12,
    ensures
        match r {
            Some(p) => gcm_open_of(key@, nonce@, ct@) == Some(p@) && p@.len() + 16 == ct@.len(),
            None => gcm_open_of(key@, nonce@, ct@) is None,
        },
{
    let cipher = Aes128Gcm::new_from_slice(key).unwrap();
    let nonce_arr = aes_gcm::Nonce::try_from(nonce).unwrap();
    match cipher.decrypt(&nonce_arr, ct) {
        Ok(p) => Some(p),
        Err(_) => None,
    }
}

/// Relies on `cfb_mode::Encryptor<aes::Aes128>`: output as long as the
/// input, a function of key, IV and input alone, inverted by
/// `cfb_mode::Decryptor` under the same key and IV.
#[verifier::external_body]
fn cfb_encrypt(key: &[u8], iv: &[u8], data: &[u8]) -> (r: Vec<u8>)
    requires
        key@.len() == 16,
        iv@.len() == 16,
    ensures
        r@ == cfb_encrypt_of(key@, iv@, data@),
        r@.len() == data@.len(),
        cfb_decrypt_of(key@, iv@, r@) == data@,
{
    let k: [u8; 16] = key.try_into().unwrap();
    let i: [u8; 16] = iv.try_into().unwrap();
    let mut buf = data.to_vec();
    cfb_mode::Encryptor::<aes::Aes128>::new(&k.into(), &i.into()).encrypt(&mut buf);
    buf
}

/// Relies on `cfb_mode::Decryptor<aes::Aes128>`: output as long as the
/// input and a function of key, IV and input alone.
#[verifier::external_body]
fn cfb_decrypt(key: &[u8], iv: &[u8], data: &[u8]) -> (r: Vec<u8>)
    requires
        key@.len() == 16,
        iv@.len() == 16,
    ensures
        r@ == cfb_decrypt_of(key@, iv@, data@),
        r@.len() == data@.len(),
{
    let k: [u8; 16] = key.try_into().unwrap();
    let i: [u8; 16] = iv.try_into().unwrap();
    let mut buf = data.to_vec();
    cfb_mode::Decryptor::<aes::Aes128>::new(&k.into(), &i.into()).decrypt(&mut buf);
    buf
}

/// The 12-byte AEAD nonce of frame `count`: the big-endian frame index
/// followed by the first four IV bytes.
pub open spec fn nonce12(iv: Seq<u8>, count: u64) -> Seq<u8> {
    be64_bytes(count) + iv.subrange(0, 4)
}

/// The per-frame legacy IV: the digest of the direction IV and the frame
/// index.
pub open spec fn legacy_iv(iv: Seq<u8>, count: u64) -> Seq<u8> {
    md5_of(iv + be64_bytes(count))
}

/// Bytes a sealed frame gains over its plaintext in each mode.
pub open spec fn overhead(mode: SecurityMode) -> int {
    match mode {
        SecurityMode::Legacy => 4,
        SecurityMode::Aead => 16,
        SecurityMode::Plain => 0,
    }
}

/// What sealing frame number `count` yields.
pub open spec fn seal_spec(
    mode: SecurityMode,
    key: Seq<u8>,
    iv: Seq<u8>,
    count: u64,
    pt: Seq<u8>,
) -> Seq<u8> {
    match mode {
        SecurityMode::Plain => pt,
        SecurityMode::Aead => gcm_seal_of(key, nonce12(iv, count), pt),
        SecurityMode::Legacy => cfb_encrypt_of(
            key,
            legacy_iv(iv, count),
            be32_bytes(fnv1a32(pt)) + pt,
        ),
    }
}

/// What opening frame number `count` yields: the plaintext, or nothing on
/// an integrity failure.
pub open spec fn open_spec(
    mode: SecurityMode,
    key: Seq<u8>,
    iv: Seq<u8>,
    count: u64,
    ct: Seq<u8>,
) -> Option<Seq<u8>> {
    match mode {
        SecurityMode::Plain => Some(ct),
        SecurityMode::Aead => gcm_open_of(key, nonce12(iv, count), ct),
        SecurityMode::Legacy => {
            let inner = cfb_decrypt_of(key, legacy_iv(iv, count), ct);
            if inner.len() < 4 {
                None
            } else if read32(inner[0], inner[1], inner[2], inner[3]) != fnv1a32(inner.skip(4)) {
                None
            } else {
                Some(inner.skip(4))
            }
        },
    }
}

/// One direction's cipher state: key, IV and the monotonically advancing
/// frame counter, owned exclusively by the session that made it.
pub struct DirectionCipher {
    pub mode: SecurityMode,
    pub key: Vec<u8>,
    pub iv: Vec<u8>,
    pub count: u64,
}

impl DirectionCipher {
    /// Key and IV have cipher size.
    pub open spec fn wf(&self) -> bool {
        self.key@.len() == 16 && self.iv@.len() == 16
    }

    /// A fresh direction state starting at frame zero.
    pub fn new(mode: SecurityMode, key: Vec<u8>, iv: Vec<u8>) -> (r: DirectionCipher)
        requires
            key@.len() == 16,
            iv@.len() == 16,
        ensures
            r.wf(),
            r.mode == mode,
            r.key == key,
            r.iv == iv,
            r.count == 0,
    {
        DirectionCipher { mode, key, iv, count: 0 }
    }

    /// Builds the 12-byte nonce of the current frame.
    fn nonce_bytes(&self) -> (r: Vec<u8>)
        requires
            self.wf(),
        ensures
            r@ == nonce12(self.iv@, self.count),
            r@.len() == 12,
    {
        let mut out: Vec<u8> = Vec::new();
        crate::primitives::push_be64(&mut out, self.count);
        let head = crate::primitives::copy_range(self.iv.as_slice(), 0, 4);
        extend_bytes(&mut out, head.as_slice());
        assert(out@ =~= nonce12(self.iv@, self.count));
        out
    }

    /// Builds the per-frame legacy IV of the current frame.
    fn legacy_iv_bytes(&self) -> (r: Vec<u8>)
        requires
            self.wf(),
        ensures
            r@ == legacy_iv(self.iv@, self.count),
            r@.len() == 16,
    {
        let mut buf: Vec<u8> = Vec::new();
        extend_bytes(&mut buf, self.iv.as_slice());
        crate::primitives::push_be64(&mut buf, self.count);
        assert(buf@ =~= self.iv@ + be64_bytes(self.count));
        md5_digest(buf.as_slice())
    }

    /// Seals one frame and advances the counter. The result opens back to
    /// exactly the plaintext under the same state.
    pub fn seal(&mut self, pt: &[u8]) -> (r: Vec<u8>)
        requires
            old(self).wf(),
            pt@.len() <= MAX_SEAL_INPUT,
            old(self).count < 0xffff_ffff_ffff_ffff,
        ensures
            final(self).wf(),
            final(self).mode == old(self).mode,
            final(self).key == old(self).key,
            final(self).iv == old(self).iv,
            final(self).count == old(self).count + 1,
            r@ == seal_spec(old(self).mode, old(self).key@, old(self).iv@, old(self).count, pt@),
            open_spec(old(self).mode, old(self).key@, old(self).iv@, old(self).count, r@)
                == Some(pt@),
            r@.len() == pt@.len() + overhead(old(self).mode),
    {
        let r: Vec<u8> = match self.mode {
            SecurityMode::Plain => crate::primitives::copy_range(pt, 0, pt.len()),
            SecurityMode::Aead => {
                let nonce = self.nonce_bytes();
                gcm_seal(self.key.as_slice(), nonce.as_slice(), pt)
            },
            SecurityMode::Legacy => {
                let fiv = self.legacy_iv_bytes();
                let ck = crate::checksum::fnv1a32_bytes(pt);
                let mut inner: Vec<u8> = Vec::new();
                push_be32(&mut inner, ck);
                extend_bytes(&mut inner, pt);
                assert(inner@ =~= be32_bytes(fnv1a32(pt@)) + pt@);
                let sealed = cfb_encrypt(self.key.as_slice(), fiv.as_slice(), inner.as_slice());
                proof {
                    let dec = cfb_decrypt_of(self.key@, legacy_iv(self.iv@, self.count), sealed@);
                    assert(dec == inner@);
                    assert(dec.skip(4) =~= pt@);
                    crate::primitives::lemma_read32_be32(fnv1a32(pt@));
                    assert(read32(dec[0], dec[1], dec[2], dec[3]) == fnv1a32(pt@));
                }
                sealed
            },
        };
        proof {
            if self.mode is Plain {
                assert(pt@.subrange(0, pt@.len() as int) =~= pt@);
            }
        }
        self.count = self.count + 1;
        r
    }

    /// Opens one frame and advances the counter. Fails, without any
    /// resynchronization, exactly when the mode's integrity check fails.
    pub fn open(&mut self, ct: &[u8]) -> (r: Result<Vec<u8>, FrameIntegrityError>)
        requires
            old(self).wf(),
            old(self).count < 0xffff_ffff_ffff_ffff,
        ensures
            final(self).wf(),
            final(self).mode == old(self).mode,
            final(self).key == old(self).key,
            final(self).iv == old(self).iv,
            final(self).count == old(self).count + 1,
            match r {
                Ok(p) => open_spec(
                    old(self).mode,
                    old(self).key@,
                    old(self).iv@,
                    old(self).count,
                    ct@,
                ) == Some(p@),
                Err(_) => open_spec(
                    old(self).mode,
                    old(self).key@,
                    old(self).iv@,
                    old(self).count,
                    ct@,
                ) is None,
            },
    {
        let r: Result<Vec<u8>, FrameIntegrityError> = match self.mode {
            SecurityMode::Plain => {
                let p = crate::primitives::copy_range(ct, 0, ct.len());
                assert(p@ =~= ct@);
                Ok(p)
            },
            SecurityMode::Aead => {
                let nonce = self.nonce_bytes();
                match gcm_open(self.key.as_slice(), nonce.as_slice(), ct) {
                    Some(p) => Ok(p),
                    None => Err(FrameIntegrityError),
                }
            },
            SecurityMode::Legacy => {
                let fiv = self.legacy_iv_bytes();
                let inner = cfb_decrypt(self.key.as_slice(), fiv.as_slice(), ct);
                if inner.len() < 4 {
                    Err(FrameIntegrityError)
                } else {
                    let stored = get_be32(inner.as_slice(), 0);
                    let computed = crate::checksum::fnv1a32_range(inner.as_slice(), 4, inner.len());
                    proof {
                        assert(inner@.subrange(4, inner@.len() as int) =~= inner@.skip(4));
                    }
                    if stored != computed {
                        Err(FrameIntegrityError)
                    } else {
                        let p = crate::primitives::copy_range(inner.as_slice(), 4, inner.len());
                        assert(p@ =~= inner@.skip(4));
                        Ok(p)
                    }
                }
            },
        };
        self.count = self.count + 1;
        r
    }
}

/// The fixed derivation label of the client-to-server direction.
pub open spec fn label_inbound() -> Seq<u8> {
    seq![0x63u8, 0x32, 0x73]
}

/// The fixed derivation label of the server-to-client direction.
pub open spec fn label_outbound() -> Seq<u8> {
    seq![0x73u8, 0x32, 0x63]
}

/// Derives one direction's key and IV from the header's embedded key and
/// IV plus a fixed per-direction label.
pub fn derive_direction(key: &[u8], iv: &[u8], outbound: bool) -> (r: (Vec<u8>, Vec<u8>))
    ensures
        r.0@ == md5_of(key@ + (if outbound { label_outbound() } else { label_inbound() })),
        r.1@ == md5_of(iv@ + (if outbound { label_outbound() } else { label_inbound() })),
        r.0@.len() == 16,
        r.1@.len() == 16,
{
    let mut kbuf: Vec<u8> = Vec::new();
    extend_bytes(&mut kbuf, key);
    let mut ibuf: Vec<u8> = Vec::new();
    extend_bytes(&mut ibuf, iv);
    if outbound {
        kbuf.push(0x73);
        kbuf.push(0x32);
        kbuf.push(0x63);
        ibuf.push(0x73);
        ibuf.push(0x32);
        ibuf.push(0x63);
        assert(kbuf@ =~= key@ + label_outbound());
        assert(ibuf@ =~= iv@ + label_outbound());
    } else {
        kbuf.push(0x63);
        kbuf.push(0x32);
        kbuf.push(0x73);
        ibuf.push(0x63);
        ibuf.push(0x32);
        ibuf.push(0x73);
        assert(kbuf@ =~= key@ + label_inbound());
        assert(ibuf@ =~= iv@ + label_inbound());
    }
    (md5_digest(kbuf.as_slice()), md5_digest(ibuf.as_slice()))
}

} // verus!
