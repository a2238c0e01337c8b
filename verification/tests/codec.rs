use tunl::checksum::fnv1a32_bytes;
use tunl::errors::HeaderDecodeError;
use tunl::header::decode_request;
use tunl::header::encode_request;
use tunl::header::Address;
use tunl::header::Command;
use tunl::header::RequestHeader;
use tunl::header::SecurityMode;

fn sample_header(command: Command, address: Address, security: SecurityMode) -> RequestHeader {
    RequestHeader {
        version: 1,
        auth_digest: (0u8..16).collect(),
        request_iv: (16u8..32).collect(),
        request_key: (32u8..48).collect(),
        response_marker: 0xab,
        options: 0x01,
        security,
        reserved: 0,
        command,
        port: 443,
        address,
        padding: vec![9, 8, 7],
    }
}

fn assert_headers_equal(a: &RequestHeader, b: &RequestHeader) {
    assert_eq!(a.version, b.version);
    assert_eq!(a.auth_digest, b.auth_digest);
    assert_eq!(a.request_iv, b.request_iv);
    assert_eq!(a.request_key, b.request_key);
    assert_eq!(a.response_marker, b.response_marker);
    assert_eq!(a.options, b.options);
    assert_eq!(a.security, b.security);
    assert_eq!(a.reserved, b.reserved);
    assert_eq!(a.command, b.command);
    assert_eq!(a.port, b.port);
    match (&a.address, &b.address) {
        (Address::Ipv4(x), Address::Ipv4(y)) => assert_eq!(x, y),
        (Address::Domain(x), Address::Domain(y)) => assert_eq!(x, y),
        (Address::Ipv6(x), Address::Ipv6(y)) => assert_eq!(x, y),
        _ => panic!("address variants differ"),
    }
    assert_eq!(a.padding, b.padding);
}

#[test]
fn round_trip_all_addresses_and_commands() {
    let addresses = || {
        vec![
            Address::Ipv4(vec![127, 0, 0, 1]),
            Address::Domain(b"example.com".to_vec()),
            Address::Ipv6((0u8..16).collect()),
        ]
    };
    for command in [Command::Tcp, Command::Udp] {
        for security in [SecurityMode::Legacy, SecurityMode::Aead, SecurityMode::Plain] {
            for address in addresses() {
                let h = sample_header(command, address, security);
                let bytes = encode_request(&h);
                let (decoded, used) = decode_request(&bytes).expect("valid header must decode");
                assert_eq!(used, bytes.len());
                assert_headers_equal(&h, &decoded);
            }
        }
    }
}

#[test]
fn round_trip_with_trailing_bytes() {
    let h = sample_header(Command::Tcp, Address::Domain(b"host".to_vec()), SecurityMode::Aead);
    let mut bytes = encode_request(&h);
    let header_len = bytes.len();
    bytes.extend_from_slice(&[1, 2, 3, 4, 5]);
    let (decoded, used) = decode_request(&bytes).expect("header with trailing bytes must decode");
    assert_eq!(used, header_len);
    assert_headers_equal(&h, &decoded);
}

#[test]
fn every_checksum_bit_flip_is_rejected() {
    let h = sample_header(Command::Tcp, Address::Ipv4(vec![10, 0, 0, 2]), SecurityMode::Plain);
    let bytes = encode_request(&h);
    let n = bytes.len();
    for i in n - 4..n {
        for k in 0..8 {
            let mut corrupted = bytes.clone();
            corrupted[i] ^= 1u8 << k;
            match decode_request(&corrupted) {
                Err(HeaderDecodeError::BadChecksum) => {}
                other => panic!("corrupted checksum accepted: {:?}", other),
            }
        }
    }
}

#[test]
fn checksum_byte_alteration_is_rejected() {
    let h = sample_header(Command::Udp, Address::Domain(b"example.com".to_vec()), SecurityMode::Aead);
    let bytes = encode_request(&h);
    let n = bytes.len();
    let mut corrupted = bytes.clone();
    corrupted[n - 2] = corrupted[n - 2].wrapping_add(1);
    assert!(matches!(decode_request(&corrupted), Err(HeaderDecodeError::BadChecksum)));
}

#[test]
fn unsupported_version_is_rejected() {
    let h = sample_header(Command::Tcp, Address::Ipv4(vec![1, 2, 3, 4]), SecurityMode::Plain);
    let mut bytes = encode_request(&h);
    bytes[0] = 2;
    assert!(matches!(decode_request(&bytes), Err(HeaderDecodeError::UnsupportedVersion)));
}

#[test]
fn unsupported_command_is_rejected() {
    let h = sample_header(Command::Tcp, Address::Ipv4(vec![1, 2, 3, 4]), SecurityMode::Plain);
    let mut bytes = encode_request(&h);
    bytes[53] = 9;
    assert!(matches!(decode_request(&bytes), Err(HeaderDecodeError::UnsupportedCommand)));
}

#[test]
fn unsupported_address_type_is_rejected() {
    let h = sample_header(Command::Tcp, Address::Ipv4(vec![1, 2, 3, 4]), SecurityMode::Plain);
    let mut bytes = encode_request(&h);
    bytes[56] = 7;
    assert!(matches!(decode_request(&bytes), Err(HeaderDecodeError::UnsupportedAddressType)));
}

#[test]
fn unsupported_security_mode_is_rejected() {
    let h = sample_header(Command::Tcp, Address::Ipv4(vec![1, 2, 3, 4]), SecurityMode::Plain);
    let mut bytes = encode_request(&h);
    bytes[51] = (bytes[51] & 0xf0) | 0x0f;
    assert!(matches!(decode_request(&bytes), Err(HeaderDecodeError::UnsupportedSecurity)));
}

#[test]
fn short_input_is_truncated() {
    let h = sample_header(Command::Tcp, Address::Domain(b"example.com".to_vec()), SecurityMode::Aead);
    let bytes = encode_request(&h);
    for cut in [0usize, 1, 16, 56, 57, 60, bytes.len() - 1] {
        assert!(
            matches!(decode_request(&bytes[..cut]), Err(HeaderDecodeError::Truncated)),
            "prefix of {} bytes must be truncated",
            cut
        );
    }
}

#[test]
fn fnv1a32_known_values() {
    assert_eq!(fnv1a32_bytes(b""), 0x811c9dc5);
    assert_eq!(fnv1a32_bytes(b"a"), 0xe40c292c);
    assert_eq!(fnv1a32_bytes(b"foobar"), 0xbf9cf968);
}
