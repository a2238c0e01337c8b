use tunl::cipher::derive_direction;
use tunl::cipher::DirectionCipher;
use tunl::digest::hmac_md5;
use tunl::errors::HeaderDecodeError;
use tunl::errors::OutboundConnectError;
use tunl::errors::SessionError;
use tunl::header::encode_request;
use tunl::header::Address;
use tunl::header::Command;
use tunl::header::RequestHeader;
use tunl::header::SecurityMode;
use tunl::pipeline::open_frames;
use tunl::pipeline::seal_payload;
use tunl::primitives::be64_vec;
use tunl::relay::Action;
use tunl::relay::Event;
use tunl::relay::Session;
use tunl::relay::SessionConfig;
use tunl::relay::SessionState;
use tunl::assembler::FrameAssembler;

const NOW: u64 = 1_700_000_000;

fn secret() -> Vec<u8> {
    (0xa0u8..0xb0).collect()
}

fn config(max_frame: u16) -> SessionConfig {
    SessionConfig { secret: secret(), skew: 120, max_frame }
}

fn valid_header(security: SecurityMode) -> RequestHeader {
    RequestHeader {
        version: 1,
        auth_digest: hmac_md5(&secret(), &be64_vec(NOW)),
        request_iv: (64u8..80).collect(),
        request_key: (80u8..96).collect(),
        response_marker: 0x5a,
        options: 0,
        security,
        reserved: 0,
        command: Command::Tcp,
        port: 80,
        address: Address::Domain(b"example.com".to_vec()),
        padding: vec![1, 2, 3, 4],
    }
}

#[test]
fn valid_header_reaches_relaying_with_single_response_first() {
    let mut s = Session::new(config(2048));
    let bytes = encode_request(&valid_header(SecurityMode::Aead));
    let actions = s.step(Event::TransportData(bytes), NOW);
    assert_eq!(s.state, SessionState::Connecting);
    assert_eq!(actions.len(), 1);
    match &actions[0] {
        Action::Dial(Address::Domain(d), port) => {
            assert_eq!(d, b"example.com");
            assert_eq!(*port, 80);
        }
        other => panic!("expected a dial, got {:?}", other),
    }
    let actions = s.step(Event::DialSucceeded, NOW);
    assert_eq!(s.state, SessionState::Relaying);
    // Exactly one response header, emitted before any payload.
    assert_eq!(actions.len(), 1);
    match &actions[0] {
        Action::SendTransport(v) => assert_eq!(v, &vec![0x5a]),
        other => panic!("expected the response header, got {:?}", other),
    }
}

#[test]
fn corrupted_checksum_closes_before_any_dial() {
    let mut s = Session::new(config(2048));
    let mut bytes = encode_request(&valid_header(SecurityMode::Aead));
    let n = bytes.len();
    bytes[n - 3] = bytes[n - 3].wrapping_add(1);
    let actions = s.step(Event::TransportData(bytes), NOW);
    assert_eq!(s.state, SessionState::Closing);
    assert!(matches!(
        s.outcome,
        Some(SessionError::HeaderDecode(HeaderDecodeError::BadChecksum))
    ));
    for a in &actions {
        assert!(!matches!(a, Action::Dial(_, _)), "no outbound dial may be attempted");
    }
    assert!(actions.iter().any(|a| matches!(a, Action::CloseTransport)));
    s.finish();
    assert_eq!(s.state, SessionState::Closed);
    assert!(s.process_result().is_err());
}

#[test]
fn stale_auth_tag_closes_without_dial() {
    let mut s = Session::new(config(2048));
    let mut h = valid_header(SecurityMode::Aead);
    h.auth_digest = hmac_md5(&secret(), &be64_vec(NOW - 300));
    let actions = s.step(Event::TransportData(encode_request(&h)), NOW);
    assert_eq!(s.state, SessionState::Closing);
    assert!(matches!(s.outcome, Some(SessionError::Authentication(_))));
    assert!(actions.iter().all(|a| !matches!(a, Action::Dial(_, _))));
}

#[test]
fn header_can_arrive_byte_by_byte() {
    let mut s = Session::new(config(2048));
    let bytes = encode_request(&valid_header(SecurityMode::Plain));
    let mut dialed = false;
    for b in &bytes {
        let actions = s.step(Event::TransportData(vec![*b]), NOW);
        for a in actions {
            if matches!(a, Action::Dial(_, _)) {
                dialed = true;
            }
        }
    }
    assert!(dialed);
    assert_eq!(s.state, SessionState::Connecting);
}

#[test]
fn dial_failure_closes_without_response() {
    let mut s = Session::new(config(2048));
    let bytes = encode_request(&valid_header(SecurityMode::Aead));
    s.step(Event::TransportData(bytes), NOW);
    let actions = s.step(Event::DialFailed(OutboundConnectError::Refused), NOW);
    assert_eq!(s.state, SessionState::Closing);
    assert!(matches!(
        s.outcome,
        Some(SessionError::OutboundConnect(OutboundConnectError::Refused))
    ));
    assert!(actions.iter().all(|a| !matches!(a, Action::SendTransport(_))));
}

#[test]
fn oversized_frame_is_fatal_and_buffers_nothing() {
    let mut s = Session::new(config(64));
    let bytes = encode_request(&valid_header(SecurityMode::Plain));
    s.step(Event::TransportData(bytes), NOW);
    s.step(Event::DialSucceeded, NOW);
    // Declared length 0x0800 with max 64.
    let actions = s.step(Event::TransportData(vec![0x08, 0x00]), NOW);
    assert_eq!(s.state, SessionState::Closing);
    assert!(matches!(s.outcome, Some(SessionError::FrameTooLarge(_))));
    assert_eq!(s.assembler.buf.len(), 0, "the claimed body must not be buffered");
    assert!(actions.iter().any(|a| matches!(a, Action::CloseTransport)));
}

#[test]
fn tampered_frame_is_fatal() {
    let mut s = Session::new(config(2048));
    let h = valid_header(SecurityMode::Aead);
    let bytes = encode_request(&h);
    s.step(Event::TransportData(bytes), NOW);
    s.step(Event::DialSucceeded, NOW);
    let (ck, ci) = derive_direction(&h.request_key, &h.request_iv, false);
    let mut client = DirectionCipher::new(SecurityMode::Aead, ck, ci);
    let mut frames = seal_payload(&mut client, b"hello destination", 2032);
    let wire = frames.remove(0);
    let mut tampered = wire.clone();
    let last = tampered.len() - 1;
    tampered[last] ^= 0x01;
    let actions = s.step(Event::TransportData(tampered), NOW);
    assert_eq!(s.state, SessionState::Closing);
    assert!(matches!(s.outcome, Some(SessionError::FrameIntegrity(_))));
    assert!(actions.iter().all(|a| !matches!(a, Action::SendDest(_))));
}

#[test]
fn dest_closure_promptly_closes_transport() {
    let mut s = Session::new(config(2048));
    s.step(Event::TransportData(encode_request(&valid_header(SecurityMode::Aead))), NOW);
    s.step(Event::DialSucceeded, NOW);
    let actions = s.step(Event::DestClosed, NOW);
    assert_eq!(s.state, SessionState::Closing);
    assert_eq!(actions.len(), 1);
    assert!(matches!(actions[0], Action::CloseTransport));
    assert!(s.process_result().is_ok(), "normal closure is a normal completion");
}

#[test]
fn transport_closure_promptly_closes_dest() {
    let mut s = Session::new(config(2048));
    s.step(Event::TransportData(encode_request(&valid_header(SecurityMode::Aead))), NOW);
    s.step(Event::DialSucceeded, NOW);
    let actions = s.step(
        Event::TransportEnded(tunl::errors::TransportClosed::Clean),
        NOW,
    );
    assert_eq!(s.state, SessionState::Closing);
    assert!(actions.iter().any(|a| matches!(a, Action::CloseDest)));
}

#[test]
fn echo_relay_preserves_one_hundred_thousand_bytes() {
    let max_frame: u16 = 2048;
    let maxp: usize = 2032;
    let h = valid_header(SecurityMode::Aead);
    let mut s = Session::new(config(max_frame));
    s.step(Event::TransportData(encode_request(&h)), NOW);
    let first = s.step(Event::DialSucceeded, NOW);
    assert!(matches!(first[0], Action::SendTransport(_)));
    assert_eq!(s.state, SessionState::Relaying);

    // The client's two direction ciphers, derived as the server derives
    // them.
    let (ck, ci) = derive_direction(&h.request_key, &h.request_iv, false);
    let mut client_send = DirectionCipher::new(SecurityMode::Aead, ck, ci);
    let (rk, ri) = derive_direction(&h.request_key, &h.request_iv, true);
    let mut client_recv = DirectionCipher::new(SecurityMode::Aead, rk, ri);
    let mut client_asm = FrameAssembler::new(max_frame);

    // 100,000 pattern bytes, sealed in 37 client writes of varying size.
    let total: usize = 100_000;
    let payload: Vec<u8> = (0..total).map(|i| ((i * 31 + 7) % 251) as u8).collect();
    let mut cuts: Vec<usize> = Vec::new();
    let mut acc = 0usize;
    for i in 0..36 {
        let sz = 1 + (i * 613) % 5400;
        acc += sz;
        cuts.push(acc);
    }
    assert!(acc < total);
    cuts.push(total);
    let mut wire: Vec<u8> = Vec::new();
    let mut start = 0usize;
    for cut in cuts {
        for frame in seal_payload(&mut client_send, &payload[start..cut], maxp) {
            wire.extend_from_slice(&frame);
        }
        start = cut;
    }

    // Deliver the wire bytes in arbitrary transport chunks, echo every
    // forwarded byte back through the destination side, and collect what
    // the transport side receives.
    let mut transport_rx: Vec<u8> = Vec::new();
    let mut pos = 0usize;
    let mut chunk_no = 0usize;
    while pos < wire.len() {
        let step_len = 1 + (chunk_no * 977) % 4096;
        chunk_no += 1;
        let end = usize::min(pos + step_len, wire.len());
        let actions = s.step(Event::TransportData(wire[pos..end].to_vec()), NOW);
        pos = end;
        assert_eq!(s.state, SessionState::Relaying);
        for a in actions {
            match a {
                Action::SendDest(forwarded) => {
                    // The destination echoes every byte it receives.
                    let replies = s.step(Event::DestData(forwarded), NOW);
                    for r in replies {
                        match r {
                            Action::SendTransport(v) => transport_rx.extend_from_slice(&v),
                            other => panic!("unexpected action {:?}", other),
                        }
                    }
                }
                other => panic!("unexpected action {:?}", other),
            }
        }
    }

    // The client reassembles and opens what came back.
    let mut echoed: Vec<u8> = Vec::new();
    let frames = client_asm.push(&transport_rx).unwrap();
    echoed.extend(open_frames(&mut client_recv, &frames).unwrap());
    assert_eq!(echoed.len(), total);
    assert_eq!(echoed, payload, "every byte must come back, in order");
}

#[test]
fn relay_is_chunking_invariant_end_to_end() {
    // The same wire bytes, delivered in one write and in single-byte
    // writes, forward the same destination stream.
    let h = valid_header(SecurityMode::Legacy);
    let (ck, ci) = derive_direction(&h.request_key, &h.request_iv, false);

    let mut forwarded_single: Vec<u8> = Vec::new();
    let mut forwarded_bytewise: Vec<u8> = Vec::new();

    for bytewise in [false, true] {
        let mut s = Session::new(config(256));
        s.step(Event::TransportData(encode_request(&h)), NOW);
        s.step(Event::DialSucceeded, NOW);
        let mut client = DirectionCipher::new(SecurityMode::Legacy, ck.clone(), ci.clone());
        let mut wire: Vec<u8> = Vec::new();
        for frame in seal_payload(&mut client, b"the quick brown fox jumps over the lazy dog", 64)
        {
            wire.extend_from_slice(&frame);
        }
        let sink = if bytewise {
            &mut forwarded_bytewise
        } else {
            &mut forwarded_single
        };
        let deliveries: Vec<Vec<u8>> = if bytewise {
            wire.iter().map(|b| vec![*b]).collect()
        } else {
            vec![wire.clone()]
        };
        for d in deliveries {
            for a in s.step(Event::TransportData(d), NOW) {
                match a {
                    Action::SendDest(v) => sink.extend_from_slice(&v),
                    other => panic!("unexpected action {:?}", other),
                }
            }
        }
        assert_eq!(s.state, SessionState::Relaying);
    }
    assert_eq!(forwarded_single, forwarded_bytewise);
    assert_eq!(forwarded_single, b"the quick brown fox jumps over the lazy dog".to_vec());
}

#[test]
fn events_after_closing_are_ignored() {
    let mut s = Session::new(config(2048));
    s.step(Event::TransportData(encode_request(&valid_header(SecurityMode::Aead))), NOW);
    s.step(Event::DialFailed(OutboundConnectError::Timeout), NOW);
    assert_eq!(s.state, SessionState::Closing);
    let actions = s.step(Event::TransportData(vec![1, 2, 3]), NOW);
    assert!(actions.is_empty());
    s.finish();
    s.finish();
    assert_eq!(s.state, SessionState::Closed);
    assert!(matches!(
        s.outcome,
        Some(SessionError::OutboundConnect(OutboundConnectError::Timeout))
    ));
}
