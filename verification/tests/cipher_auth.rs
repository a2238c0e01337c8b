use tunl::assembler::FrameAssembler;
use tunl::auth::verify;
use tunl::cipher::derive_direction;
use tunl::cipher::DirectionCipher;
use tunl::digest::ct_eq;
use tunl::digest::hmac_md5;
use tunl::digest::md5_digest;
use tunl::header::SecurityMode;
use tunl::primitives::be64_vec;

fn secret() -> Vec<u8> {
    (0x40u8..0x50).collect()
}

#[test]
fn md5_known_digest() {
    // MD5 of the empty input.
    let expected = [
        0xd4u8, 0x1d, 0x8c, 0xd9, 0x8f, 0x00, 0xb2, 0x04, 0xe9, 0x80, 0x09, 0x98, 0xec, 0xf8,
        0x42, 0x7e,
    ];
    assert_eq!(md5_digest(b""), expected.to_vec());
}

#[test]
fn hmac_md5_known_digest() {
    // RFC 2202 test case 1 for HMAC-MD5.
    let key = vec![0x0bu8; 16];
    let expected = [
        0x92u8, 0x94, 0x72, 0x7a, 0x36, 0x38, 0xbb, 0x1c, 0x13, 0xf4, 0x8e, 0xf8, 0x15, 0x8b,
        0xfc, 0x9d,
    ];
    assert_eq!(hmac_md5(&key, b"Hi There"), expected.to_vec());
}

#[test]
fn constant_time_compare() {
    assert!(ct_eq(b"abcdef", b"abcdef"));
    assert!(!ct_eq(b"abcdef", b"abcdeg"));
    assert!(!ct_eq(b"abcdef", b"Xbcdef"));
    assert!(ct_eq(b"", b""));
}

#[test]
fn auth_tag_verifies_within_window_only() {
    let secret = secret();
    let t: u64 = 1_700_000_000;
    let tag = hmac_md5(&secret, &be64_vec(t));
    // A tag for time t verifies at t and 60 seconds to either side...
    assert!(verify(&tag, &secret, t, 120).is_ok());
    assert!(verify(&tag, &secret, t + 60, 120).is_ok());
    assert!(verify(&tag, &secret, t - 60, 120).is_ok());
    // ...at the very edge of the tolerated window...
    assert!(verify(&tag, &secret, t + 120, 120).is_ok());
    // ...and fails 300 seconds away.
    assert!(verify(&tag, &secret, t + 300, 120).is_err());
    assert!(verify(&tag, &secret, t - 300, 120).is_err());
}

#[test]
fn auth_rejects_wrong_secret() {
    let secret = secret();
    let other: Vec<u8> = (0x50u8..0x60).collect();
    let t: u64 = 1_700_000_000;
    let tag = hmac_md5(&secret, &be64_vec(t));
    assert!(verify(&tag, &other, t, 120).is_err());
}

#[test]
fn direction_keys_differ_and_are_deterministic() {
    let key: Vec<u8> = (0u8..16).collect();
    let iv: Vec<u8> = (16u8..32).collect();
    let (ki, ii) = derive_direction(&key, &iv, false);
    let (ko, io) = derive_direction(&key, &iv, true);
    assert_eq!(ki.len(), 16);
    assert_eq!(ii.len(), 16);
    assert_ne!(ki, ko);
    assert_ne!(ii, io);
    assert_ne!(ki, key, "derivation must not hand the key back unchanged");
    let (ki2, ii2) = derive_direction(&key, &iv, false);
    assert_eq!(ki, ki2);
    assert_eq!(ii, ii2);
}

fn cipher(mode: SecurityMode) -> DirectionCipher {
    DirectionCipher::new(mode, (1u8..17).collect(), (17u8..33).collect())
}

#[test]
fn aead_frame_round_trip_and_tamper() {
    let mut enc = cipher(SecurityMode::Aead);
    let mut dec = cipher(SecurityMode::Aead);
    let pt = b"attack at dawn".to_vec();
    let ct = enc.seal(&pt);
    assert_eq!(ct.len(), pt.len() + 16);
    assert_ne!(&ct[..pt.len()], &pt[..], "ciphertext must not echo the plaintext");
    assert_eq!(dec.open(&ct).expect("authentic frame must open"), pt);
    // A tampered frame fails; the counter advanced either way.
    let ct2 = enc.seal(&pt);
    let mut bad = ct2.clone();
    bad[3] ^= 0x80;
    assert!(dec.open(&bad).is_err());
}

#[test]
fn aead_nonce_advances_per_frame() {
    let mut enc = cipher(SecurityMode::Aead);
    let c1 = enc.seal(b"same bytes");
    let c2 = enc.seal(b"same bytes");
    assert_ne!(c1, c2, "equal plaintexts at different frame indices must differ");
    // Opening out of order (wrong frame index) fails.
    let mut dec = cipher(SecurityMode::Aead);
    assert!(dec.open(&c2).is_err());
}

#[test]
fn legacy_frame_round_trip_and_tamper() {
    let mut enc = cipher(SecurityMode::Legacy);
    let mut dec = cipher(SecurityMode::Legacy);
    let pt = b"legacy stream payload".to_vec();
    let ct = enc.seal(&pt);
    assert_eq!(ct.len(), pt.len() + 4);
    assert_ne!(&ct[4..], &pt[..], "ciphertext must not echo the plaintext");
    assert_eq!(dec.open(&ct).expect("intact frame must open"), pt);
    let ct2 = enc.seal(&pt);
    let mut bad = ct2.clone();
    bad[6] ^= 0x01;
    assert!(dec.open(&bad).is_err());
}

#[test]
fn plain_frame_passthrough() {
    let mut enc = cipher(SecurityMode::Plain);
    let mut dec = cipher(SecurityMode::Plain);
    let pt = b"clear".to_vec();
    let ct = enc.seal(&pt);
    assert_eq!(ct, pt);
    assert_eq!(dec.open(&ct).unwrap(), pt);
}

#[test]
fn chunking_invariance_one_write_vs_byte_writes() {
    // Three frames: lengths 3, 0 and 5.
    let stream: Vec<u8> = vec![
        0, 3, 10, 11, 12, // frame one
        0, 0, // empty frame
        0, 5, 1, 2, 3, 4, 5, // frame three
    ];
    let mut one = FrameAssembler::new(64);
    let frames_single: Vec<Vec<u8>> = one.push(&stream).unwrap();

    let mut many = FrameAssembler::new(64);
    let mut frames_bytewise: Vec<Vec<u8>> = Vec::new();
    for b in &stream {
        frames_bytewise.extend(many.push(std::slice::from_ref(b)).unwrap());
    }
    assert_eq!(frames_single, frames_bytewise);
    assert_eq!(frames_single, vec![vec![10, 11, 12], vec![], vec![1, 2, 3, 4, 5]]);
}

#[test]
fn oversized_frame_rejected_without_buffering() {
    let mut a = FrameAssembler::new(16);
    // Declared length 1000 with max 16: rejected as soon as the prefix is
    // seen, body never buffered.
    let r = a.push(&[0x03, 0xe8]);
    assert!(r.is_err());
    assert_eq!(a.buf.len(), 0);
}

#[test]
fn partial_frame_buffer_stays_bounded() {
    let mut a = FrameAssembler::new(8);
    // A valid prefix of an 8-byte frame, delivered byte by byte.
    let frames = a.push(&[0, 8, 1, 2, 3]).unwrap();
    assert!(frames.is_empty());
    assert!(a.buf.len() <= 9);
    let frames = a.push(&[4, 5, 6, 7, 8]).unwrap();
    assert_eq!(frames, vec![vec![1u8, 2, 3, 4, 5, 6, 7, 8]]);
    assert!(a.buf.len() <= 9);
}
