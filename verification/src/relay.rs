//! Relay Engine: one session's state machine. The engine is pure — it maps
//! the current state and one event to the next state and a list of actions
//! — so the embedding runtime owns all I/O: it performs each action
//! (dialing, sending, closing) and hands back the next event.

use vstd::prelude::*;

use crate::assembler::chunks_of;
use crate::assembler::frames_of;
use crate::assembler::FrameAssembler;
use crate::auth::tag_matches_window;
use crate::cipher::derive_direction;
use crate::cipher::label_inbound;
use crate::cipher::label_outbound;
use crate::cipher::overhead;
use crate::cipher::DirectionCipher;
use crate::digest::md5_of;
use crate::errors::AuthenticationError;
use crate::errors::FrameIntegrityError;
use crate::errors::FrameTooLarge;
use crate::errors::HeaderDecodeError;
use crate::errors::OutboundConnectError;
use crate::errors::SessionError;
use crate::errors::TransportClosed;
use crate::header::decode_spec;
use crate::header::Address;
use crate::header::SecurityMode;
use crate::header::MAX_HEADER_ENCODING;
use crate::pipeline::opened_concat;
use crate::pipeline::sealed_cts;
use crate::pipeline::wire_frame;
use crate::primitives::copy_range;
use crate::primitives::extend_bytes;

verus! {

/// The session states of one tunneled connection.
#[derive(Clone, Copy, Debug, PartialEq, Eq, Structural)]
pub enum SessionState {
    AwaitingHeader,
    Connecting,
    Relaying,
    Closing,
    Closed,
}

/// One thing the embedding runtime tells the engine.
#[derive(Debug)]
pub enum Event {
    /// Bytes arrived from the transport.
    TransportData(Vec<u8>),
    /// The transport ended, cleanly or abruptly.
    TransportEnded(TransportClosed),
    /// The outbound dial completed.
    DialSucceeded,
    /// The outbound dial failed.
    DialFailed(OutboundConnectError),
    /// Bytes arrived from the destination connection.
    DestData(Vec<u8>),
    /// The destination connection closed.
    DestClosed,
}

/// One thing the engine tells the embedding runtime to do, in order.
#[derive(Debug)]
pub enum Action {
    /// Open an outbound connection to the destination.
    Dial(Address, u16),
    /// Write these bytes to the transport.
    SendTransport(Vec<u8>),
    /// Write these bytes to the destination connection.
    SendDest(Vec<u8>),
    /// Close the destination connection.
    CloseDest,
    /// Close the transport.
    CloseTransport,
}

/// Per-session configuration, injected at session creation.
pub struct SessionConfig {
    /// The configured identity secret.
    pub secret: Vec<u8>,
    /// Tolerated clock skew of the Identity Verifier, in seconds.
    pub skew: u64,
    /// Largest tolerated declared frame length.
    pub max_frame: u16,
}

/// A frame counter this high closes the session rather than risk nonce
/// reuse; it is unreachable in any real session.
pub const COUNT_LIMIT: u64 = 0xffff_ffff_0000_0000;

/// Largest single event payload the engine accepts.
pub const MAX_EVENT_BYTES: usize = 0x4000_0000;

/// Largest byte count buffered while the dial is in flight; beyond it the
/// session closes instead of growing memory.
pub const MAX_PENDING: usize = 0x7fff_ffff;

/// What one delivery of transport bytes does to the inbound pipeline.
pub enum InboundOutcome {
    /// A frame declared a length above the maximum.
    TooLarge,
    /// A frame failed its integrity check.
    Integrity,
    /// The complete frames opened to this byte stream, in order.
    Forward(Seq<u8>),
}

/// The inbound pipeline, in specification form: feed `bytes` after
/// `hist0`, take the newly completed frames, open them from counter
/// `count0` on.
pub open spec fn inbound_outcome(
    mode: SecurityMode,
    key: Seq<u8>,
    iv: Seq<u8>,
    count0: int,
    hist0: Seq<u8>,
    max: u16,
    bytes: Seq<u8>,
) -> InboundOutcome {
    let fd = frames_of(hist0 + bytes, max);
    if fd.oversized {
        InboundOutcome::TooLarge
    } else {
        let fresh = fd.frames.skip(frames_of(hist0, max).frames.len() as int);
        match opened_concat(mode, key, iv, count0, fresh) {
            None => InboundOutcome::Integrity,
            Some(p) => InboundOutcome::Forward(p),
        }
    }
}

/// How many frames one delivery completes.
pub open spec fn fresh_frame_count(hist0: Seq<u8>, max: u16, bytes: Seq<u8>) -> int {
    frames_of(hist0 + bytes, max).frames.len() - frames_of(hist0, max).frames.len()
}

/// The actions that tear a session down: close whichever sides are still
/// open, destination first.
pub open spec fn close_actions_spec(dest_open: bool, transport_open: bool) -> Seq<Action> {
    (if dest_open {
        seq![Action::CloseDest]
    } else {
        Seq::<Action>::empty()
    }) + (if transport_open {
        seq![Action::CloseTransport]
    } else {
        Seq::<Action>::empty()
    })
}

/// Builds the teardown actions.
fn close_actions(dest_open: bool, transport_open: bool) -> (r: Vec<Action>)
    ensures
        r@ == close_actions_spec(dest_open, transport_open),
{
    let mut out: Vec<Action> = Vec::new();
    if dest_open {
        out.push(Action::CloseDest);
    }
    if transport_open {
        out.push(Action::CloseTransport);
    }
    assert(out@ =~= close_actions_spec(dest_open, transport_open));
    out
}

/// A vector of `n` zero bytes.
fn zero_vec(n: usize) -> (r: Vec<u8>)
    ensures
        r@.len() == n,
{
    let mut out: Vec<u8> = Vec::new();
    let mut i: usize = 0;
    while i < n
        invariant
            i <= n,
            out@.len() == i,
        decreases n - i,
    {
        out.push(0);
        i = i + 1;
    }
    out
}

/// A verified copy of an address value.
fn clone_address(a: &Address) -> (r: Address)
    ensures
        r@ == a@,
{
    match a {
        Address::Ipv4(v) => Address::Ipv4(copy_range(v.as_slice(), 0, v.len())),
        Address::Domain(v) => Address::Domain(copy_range(v.as_slice(), 0, v.len())),
        Address::Ipv6(v) => Address::Ipv6(copy_range(v.as_slice(), 0, v.len())),
    }
}

/// The executable frame overhead of a mode.
fn mode_overhead(mode: SecurityMode) -> (r: usize)
    ensures
        r as int == overhead(mode),
{
    match mode {
        SecurityMode::Legacy => 4,
        SecurityMode::Aead => 16,
        SecurityMode::Plain => 0,
    }
}

/// Largest plaintext one outbound frame carries: the frame bound less the
/// mode's overhead, capped at the cipher layer's input bound.
pub open spec fn max_payload(max_frame: u16, mode: SecurityMode) -> int {
    if max_frame - overhead(mode) <= 65519 {
        max_frame - overhead(mode)
    } else {
        65519
    }
}

/// One tunneled connection, owned by its relay loop for its lifetime.
pub struct Session {
    /// Injected configuration.
    pub config: SessionConfig,
    /// Current state.
    pub state: SessionState,
    /// Raw transport bytes not yet consumed: the partial header while
    /// awaiting it, then frame bytes that arrived before the dial ended.
    pub pending: Vec<u8>,
    /// Cipher state of the client-to-server direction.
    pub inbound: DirectionCipher,
    /// Cipher state of the server-to-client direction.
    pub outbound: DirectionCipher,
    /// Frame reassembly of the client-to-server direction.
    pub assembler: FrameAssembler,
    /// Decoded destination address.
    pub dest: Address,
    /// Decoded destination port.
    pub port: u16,
    /// Response-header marker byte echoed from the request.
    pub marker: u8,
    /// Whether the single response header was emitted.
    pub response_sent: bool,
    /// Whether the transport side is still open.
    pub transport_open: bool,
    /// Whether the destination side is still open.
    pub dest_open: bool,
    /// The one reportable value of the finished session; `None` is normal
    /// completion.
    pub outcome: Option<SessionError>,
}

impl Session {
    /// The state-independent part of the invariant.
    pub open spec fn base_wf(&self) -> bool {
        &&& self.config.secret@.len() == 16
        &&& 17 <= self.config.max_frame
        &&& self.inbound.wf()
        &&& self.outbound.wf()
        &&& self.assembler.wf()
        &&& self.assembler.max == self.config.max_frame
    }

    /// The session invariant. Buffers are bounded in every state.
    pub open spec fn wf(&self) -> bool {
        &&& self.base_wf()
        &&& (self.state == SessionState::Connecting || self.state == SessionState::Relaying
            ==> !self.assembler.failed)
        &&& (self.state == SessionState::AwaitingHeader ==> self.pending@.len()
            <= MAX_HEADER_ENCODING)
        &&& (self.state == SessionState::Connecting ==> self.pending@.len() <= MAX_PENDING)
        &&& (self.state == SessionState::AwaitingHeader || self.state == SessionState::Connecting
            ==> !self.response_sent)
    }

    /// A fresh session in `AwaitingHeader`, created on the first bytes
    /// from the transport.
    pub fn new(config: SessionConfig) -> (r: Session)
        requires
            config.secret@.len() == 16,
            17 <= config.max_frame,
        ensures
            r.wf(),
            r.state == SessionState::AwaitingHeader,
            r.config == config,
            r.pending@ == Seq::<u8>::empty(),
            r.outcome is None,
            !r.response_sent,
            r.transport_open,
    {
        let max = config.max_frame;
        Session {
            config,
            state: SessionState::AwaitingHeader,
            pending: Vec::new(),
            inbound: DirectionCipher::new(SecurityMode::Plain, zero_vec(16), zero_vec(16)),
            outbound: DirectionCipher::new(SecurityMode::Plain, zero_vec(16), zero_vec(16)),
            assembler: FrameAssembler::new(max),
            dest: Address::Ipv4(zero_vec(4)),
            port: 0,
            marker: 0,
            response_sent: false,
            transport_open: true,
            dest_open: false,
            outcome: None,
        }
    }

    /// The single reportable value for the embedding service once the
    /// session has closed; the remote peer sees only the closure itself.
    pub fn process_result(&self) -> (r: Result<(), SessionError>)
        ensures
            match self.outcome {
                None => r is Ok,
                Some(e) => r == Err::<(), SessionError>(e),
            },
    {
        match self.outcome {
            None => Ok(()),
            Some(e) => Err(e),
        }
    }

    /// Tears the session down into `Closing` with `outcome`, handing back
    /// the actions that close whatever is still open.
    fn fail(&mut self, outcome: Option<SessionError>) -> (r: Vec<Action>)
        requires
            old(self).base_wf(),
        ensures
            final(self).wf(),
            final(self).config == old(self).config,
            final(self).state == SessionState::Closing,
            final(self).outcome == outcome,
            !final(self).transport_open,
            !final(self).dest_open,
            final(self).response_sent == old(self).response_sent,
            final(self).inbound == old(self).inbound,
            final(self).outbound == old(self).outbound,
            final(self).assembler == old(self).assembler,
            final(self).pending == old(self).pending,
            final(self).dest == old(self).dest,
            final(self).port == old(self).port,
            final(self).marker == old(self).marker,
            r@ == close_actions_spec(old(self).dest_open, old(self).transport_open),
    {
        let r = close_actions(self.dest_open, self.transport_open);
        self.state = SessionState::Closing;
        self.outcome = outcome;
        self.transport_open = false;
        self.dest_open = false;
        r
    }

    /// Feeds transport bytes to the inbound pipeline while relaying:
    /// reassemble frames, open them in order, forward the stream.
    fn relay_inbound(&mut self, bytes: &[u8]) -> (r: Vec<Action>)
        requires
            old(self).wf(),
            old(self).state == SessionState::Relaying,
            bytes@.len() <= MAX_PENDING,
        ensures
            final(self).wf(),
            final(self).config == old(self).config,
            final(self).outbound == old(self).outbound,
            final(self).inbound.mode == old(self).inbound.mode,
            final(self).inbound.key == old(self).inbound.key,
            final(self).inbound.iv == old(self).inbound.iv,
            final(self).response_sent == old(self).response_sent,
            old(self).inbound.count >= COUNT_LIMIT ==> final(self).state == SessionState::Closing,
            old(self).inbound.count < COUNT_LIMIT ==> match inbound_outcome(
                old(self).inbound.mode,
                old(self).inbound.key@,
                old(self).inbound.iv@,
                old(self).inbound.count as int,
                old(self).assembler.hist@,
                old(self).config.max_frame,
                bytes@,
            ) {
                InboundOutcome::TooLarge => {
                    &&& final(self).state == SessionState::Closing
                    &&& final(self).outcome == Some(SessionError::FrameTooLarge(FrameTooLarge))
                    &&& r@ == close_actions_spec(old(self).dest_open, old(self).transport_open)
                },
                InboundOutcome::Integrity => {
                    &&& final(self).state == SessionState::Closing
                    &&& final(self).outcome == Some(
                        SessionError::FrameIntegrity(FrameIntegrityError),
                    )
                    &&& r@ == close_actions_spec(old(self).dest_open, old(self).transport_open)
                },
                InboundOutcome::Forward(p) => {
                    &&& final(self).state == SessionState::Relaying
                    &&& final(self).outcome == old(self).outcome
                    &&& final(self).assembler.hist@ == old(self).assembler.hist@ + bytes@
                    &&& final(self).inbound.count == old(self).inbound.count + fresh_frame_count(
                        old(self).assembler.hist@,
                        old(self).config.max_frame,
                        bytes@,
                    )
                    &&& (if p.len() > 0 {
                        r@.len() == 1 && (r@[0] matches Action::SendDest(v) && v@ == p)
                    } else {
                        r@.len() == 0
                    })
                    &&& final(self).transport_open == old(self).transport_open
                    &&& final(self).dest_open == old(self).dest_open
                },
            },
    {
        if self.inbound.count >= COUNT_LIMIT {
            return self.fail(Some(SessionError::Transport(TransportClosed::Abrupt)));
        }
        let ghost hist0 = self.assembler.hist@;
        let ghost rest0 = self.assembler.buf@;
        let ghost max = self.config.max_frame;
        match self.assembler.push(bytes) {
            Err(_) => self.fail(Some(SessionError::FrameTooLarge(FrameTooLarge))),
            Ok(fs) => {
                proof {
                    crate::assembler::lemma_frames_count(rest0 + bytes@, max);
                    crate::assembler::lemma_chunking_invariance(hist0, bytes@, max);
                    assert(fs.deep_view().len() == frames_of(rest0 + bytes@, max).frames.len());
                    assert(2 * fs@.len() <= rest0.len() + bytes@.len());
                }
                match crate::pipeline::open_frames(&mut self.inbound, &fs) {
                    Err(_) => self.fail(Some(SessionError::FrameIntegrity(FrameIntegrityError))),
                    Ok(p) => {
                        if p.len() > 0 {
                            let mut out: Vec<Action> = Vec::new();
                            out.push(Action::SendDest(p));
                            out
                        } else {
                            Vec::new()
                        }
                    },
                }
            },
        }
    }

    /// Seals destination bytes into in-order wire frames for the
    /// transport while relaying.
    #[verifier::loop_isolation(false)]
    fn relay_outbound(&mut self, bytes: &[u8]) -> (r: Vec<Action>)
        requires
            old(self).wf(),
            old(self).state == SessionState::Relaying,
            bytes@.len() <= MAX_PENDING,
        ensures
            final(self).wf(),
            final(self).config == old(self).config,
            final(self).inbound == old(self).inbound,
            final(self).assembler == old(self).assembler,
            final(self).outbound.mode == old(self).outbound.mode,
            final(self).outbound.key == old(self).outbound.key,
            final(self).outbound.iv == old(self).outbound.iv,
            final(self).response_sent == old(self).response_sent,
            old(self).outbound.count >= COUNT_LIMIT ==> final(self).state
                == SessionState::Closing,
            old(self).outbound.count < COUNT_LIMIT ==> ({
                let maxp = max_payload(old(self).config.max_frame, old(self).outbound.mode);
                let pieces = chunks_of(bytes@, maxp);
                let cts = sealed_cts(
                    old(self).outbound.mode,
                    old(self).outbound.key@,
                    old(self).outbound.iv@,
                    old(self).outbound.count as int,
                    pieces,
                );
                &&& final(self).state == SessionState::Relaying
                &&& final(self).outcome == old(self).outcome
                &&& final(self).outbound.count == old(self).outbound.count + pieces.len()
                &&& r@.len() == pieces.len()
                &&& (forall|i: int|
                    0 <= i < pieces.len() ==> (#[trigger] r@[i] matches Action::SendTransport(v)
                        && v@ == wire_frame(cts[i])))
                &&& opened_concat(
                    old(self).outbound.mode,
                    old(self).outbound.key@,
                    old(self).outbound.iv@,
                    old(self).outbound.count as int,
                    cts,
                ) == Some(bytes@)
            }),
    {
        if self.outbound.count >= COUNT_LIMIT {
            return self.fail(Some(SessionError::Transport(TransportClosed::Abrupt)));
        }
        let over = mode_overhead(self.outbound.mode);
        let raw = self.config.max_frame as usize - over;
        let maxp: usize = if raw <= 65519 {
            raw
        } else {
            65519
        };
        assert(maxp as int == max_payload(self.config.max_frame, self.outbound.mode));
        let frames = crate::pipeline::seal_payload(&mut self.outbound, bytes, maxp);
        let ghost dvf = frames.deep_view();
        let mut out: Vec<Action> = Vec::new();
        let mut i: usize = 0;
        while i < frames.len()
            invariant
                i <= frames@.len(),
                out@.len() == i,
                forall|j: int|
                    0 <= j < i ==> (#[trigger] out@[j] matches Action::SendTransport(v) && v@
                        == dvf[j]),
            decreases frames@.len() - i,
        {
            let f: &Vec<u8> = &frames[i];
            let v = copy_range(f.as_slice(), 0, f.len());
            proof {
                assert(f.deep_view() =~= f@);
                assert(v@ =~= dvf[i as int]);
            }
            out.push(Action::SendTransport(v));
            i = i + 1;
        }
        out
    }

    /// Accumulates transport bytes until the authentication tag and the
    /// full request header decode; then verifies the client, derives both
    /// directions' keys, and dials out.
    fn on_header_bytes(&mut self, bytes: &[u8], now: u64) -> (r: Vec<Action>)
        requires
            old(self).wf(),
            old(self).state == SessionState::AwaitingHeader,
            old(self).config.skew <= now,
            now + old(self).config.skew < 0xffff_ffff_ffff_ffff,
            bytes@.len() <= MAX_EVENT_BYTES,
        ensures
            final(self).wf(),
            final(self).config == old(self).config,
            final(self).response_sent == old(self).response_sent,
            ({
                let acc = old(self).pending@ + bytes@;
                match decode_spec(acc) {
                    Err(e) => {
                        if e == HeaderDecodeError::Truncated {
                            &&& final(self).state == SessionState::AwaitingHeader
                            &&& final(self).pending@ == acc
                            &&& r@.len() == 0
                        } else {
                            &&& final(self).state == SessionState::Closing
                            &&& final(self).outcome == Some(SessionError::HeaderDecode(e))
                            &&& r@ == close_actions_spec(
                                old(self).dest_open,
                                old(self).transport_open,
                            )
                        }
                    },
                    Ok((h, used)) => {
                        if tag_matches_window(
                            h.auth_digest,
                            old(self).config.secret@,
                            now,
                            old(self).config.skew,
                        ) {
                            &&& final(self).state == SessionState::Connecting
                            &&& final(self).marker == h.response_marker
                            &&& final(self).port == h.port
                            &&& final(self).dest@ == h.address
                            &&& final(self).pending@ == acc.skip(used)
                            &&& final(self).inbound.mode == h.security
                            &&& final(self).inbound.key@ == md5_of(h.request_key + label_inbound())
                            &&& final(self).inbound.iv@ == md5_of(h.request_iv + label_inbound())
                            &&& final(self).inbound.count == 0
                            &&& final(self).outbound.mode == h.security
                            &&& final(self).outbound.key@ == md5_of(
                                h.request_key + label_outbound(),
                            )
                            &&& final(self).outbound.iv@ == md5_of(h.request_iv + label_outbound())
                            &&& final(self).outbound.count == 0
                            &&& final(self).assembler.hist@ == Seq::<u8>::empty()
                            &&& !final(self).response_sent
                            &&& r@.len() == 1
                            &&& (r@[0] matches Action::Dial(a, p) && a@ == h.address && p == h.port)
                        } else {
                            &&& final(self).state == SessionState::Closing
                            &&& final(self).outcome == Some(
                                SessionError::Authentication(AuthenticationError),
                            )
                            &&& r@ == close_actions_spec(
                                old(self).dest_open,
                                old(self).transport_open,
                            )
                        }
                    },
                }
            }),
    {
        extend_bytes(&mut self.pending, bytes);
        let ghost acc = self.pending@;
        let decoded = crate::header::decode_request(self.pending.as_slice());
        match decoded {
            Err(HeaderDecodeError::Truncated) => {
                proof {
                    crate::header::lemma_truncated_bound(acc);
                }
                Vec::new()
            },
            Err(e) => self.fail(Some(SessionError::HeaderDecode(e))),
            Ok((h, used)) => {
                match crate::auth::verify(
                    h.auth_digest.as_slice(),
                    self.config.secret.as_slice(),
                    now,
                    self.config.skew,
                ) {
                    Err(_) => self.fail(Some(SessionError::Authentication(AuthenticationError))),
                    Ok(_seed) => {
                        let (ki, ii) = derive_direction(
                            h.request_key.as_slice(),
                            h.request_iv.as_slice(),
                            false,
                        );
                        let (ko, io) = derive_direction(
                            h.request_key.as_slice(),
                            h.request_iv.as_slice(),
                            true,
                        );
                        self.inbound = DirectionCipher::new(h.security, ki, ii);
                        self.outbound = DirectionCipher::new(h.security, ko, io);
                        self.assembler = FrameAssembler::new(self.config.max_frame);
                        self.marker = h.response_marker;
                        self.port = h.port;
                        let leftover = copy_range(
                            self.pending.as_slice(),
                            used,
                            self.pending.len(),
                        );
                        proof {
                            assert(leftover@ =~= acc.skip(used as int));
                        }
                        self.pending = leftover;
                        self.state = SessionState::Connecting;
                        let addr = clone_address(&h.address);
                        self.dest = h.address;
                        let mut out: Vec<Action> = Vec::new();
                        let port = self.port;
                        out.push(Action::Dial(addr, port));
                        out
                    },
                }
            },
        }
    }

    /// The dial completed: emit the single response header before any
    /// payload frame, enter `Relaying`, then run whatever frame bytes
    /// arrived while connecting through the inbound pipeline.
    #[verifier::loop_isolation(false)]
    fn on_dial_succeeded(&mut self) -> (r: Vec<Action>)
        requires
            old(self).wf(),
            old(self).state == SessionState::Connecting,
        ensures
            final(self).wf(),
            final(self).config == old(self).config,
            final(self).response_sent,
            r@.len() >= 1,
            (r@[0] matches Action::SendTransport(v) && v@ == seq![old(self).marker]),
            old(self).inbound.count < COUNT_LIMIT ==> match inbound_outcome(
                old(self).inbound.mode,
                old(self).inbound.key@,
                old(self).inbound.iv@,
                old(self).inbound.count as int,
                old(self).assembler.hist@,
                old(self).config.max_frame,
                old(self).pending@,
            ) {
                InboundOutcome::TooLarge => final(self).state == SessionState::Closing && final(self).outcome == Some(SessionError::FrameTooLarge(FrameTooLarge)),
                InboundOutcome::Integrity => final(self).state == SessionState::Closing && final(self).outcome == Some(SessionError::FrameIntegrity(FrameIntegrityError)),
                InboundOutcome::Forward(p) => {
                    &&& final(self).state == SessionState::Relaying
                    &&& final(self).outcome == old(self).outcome
                    &&& (if p.len() > 0 {
                        r@.len() == 2 && (r@[1] matches Action::SendDest(v) && v@ == p)
                    } else {
                        r@.len() == 1
                    })
                },
            },
    {
        self.state = SessionState::Relaying;
        self.dest_open = true;
        self.response_sent = true;
        let mut out: Vec<Action> = Vec::new();
        out.push(Action::SendTransport(crate::header::encode_response(self.marker)));
        let ghost out0 = out@;
        let data = copy_range(self.pending.as_slice(), 0, self.pending.len());
        proof {
            assert(data@ =~= old(self).pending@);
        }
        self.pending = Vec::new();
        let mut more = self.relay_inbound(data.as_slice());
        let ghost more0 = more@;
        let more_count: usize = more.len();
        proof {
            assert(more0.skip(0) =~= more0);
        }
        let mut taken: usize = 0;
        while more.len() > 0
            invariant
                taken + more@.len() == more_count,
                more_count == more0.len(),
                more@ == more0.skip(taken as int),
                out@.len() == 1 + taken,
                out@[0] == out0[0],
                forall|j: int| 0 <= j < taken ==> out@[1 + j] == more0[j],
            decreases more@.len(),
        {
            let a = more.remove(0);
            proof {
                assert(more0.skip(taken as int)[0] == more0[taken as int]);
                assert(more@ =~= more0.skip(taken + 1));
            }
            out.push(a);
            taken = taken + 1;
        }
        proof {
            assert(more0.skip(taken as int).len() == 0);
            assert(out@.len() == 1 + more0.len());
        }
        out
    }

    /// Drives the session: one event in, the next actions out, per the
    /// session state machine. A closing or closed session ignores every
    /// event. The engine never reports protocol detail to the remote side;
    /// on any fatal condition it only closes.
    pub fn step(&mut self, ev: Event, now: u64) -> (r: Vec<Action>)
        requires
            old(self).wf(),
            old(self).config.skew <= now,
            now + old(self).config.skew < 0xffff_ffff_ffff_ffff,
            (ev matches Event::TransportData(v) ==> v@.len() <= MAX_EVENT_BYTES),
            (ev matches Event::DestData(v) ==> v@.len() <= MAX_EVENT_BYTES),
        ensures
            final(self).wf(),
            final(self).config == old(self).config,
            old(self).state == SessionState::Closing || old(self).state == SessionState::Closed
                ==> *final(self) == *old(self) && r@.len() == 0,
            old(self).state == SessionState::AwaitingHeader ==> match ev {
                Event::TransportData(v) => ({
                    let acc = old(self).pending@ + v@;
                    match decode_spec(acc) {
                        Err(e) => {
                            if e == HeaderDecodeError::Truncated {
                                final(self).state == SessionState::AwaitingHeader && final(self).pending@ == acc && r@.len() == 0
                            } else {
                                final(self).state == SessionState::Closing && final(self).outcome
                                    == Some(SessionError::HeaderDecode(e)) && r@
                                    == close_actions_spec(
                                    old(self).dest_open,
                                    old(self).transport_open,
                                )
                            }
                        },
                        Ok((h, used)) => {
                            if tag_matches_window(
                                h.auth_digest,
                                old(self).config.secret@,
                                now,
                                old(self).config.skew,
                            ) {
                                &&& final(self).state == SessionState::Connecting
                                &&& final(self).marker == h.response_marker
                                &&& final(self).port == h.port
                                &&& final(self).dest@ == h.address
                                &&& final(self).pending@ == acc.skip(used)
                                &&& final(self).inbound.mode == h.security
                                &&& final(self).inbound.count == 0
                                &&& final(self).outbound.count == 0
                                &&& !final(self).response_sent
                                &&& r@.len() == 1
                                &&& (r@[0] matches Action::Dial(a, p) && a@ == h.address && p
                                    == h.port)
                            } else {
                                final(self).state == SessionState::Closing && final(self).outcome
                                    == Some(SessionError::Authentication(AuthenticationError))
                                    && r@ == close_actions_spec(
                                    old(self).dest_open,
                                    old(self).transport_open,
                                )
                            }
                        },
                    }
                }),
                Event::TransportEnded(tc) => final(self).state == SessionState::Closing && final(self).outcome == Some(SessionError::Transport(tc)),
                _ => *final(self) == *old(self) && r@.len() == 0,
            },
            old(self).state == SessionState::Connecting ==> match ev {
                Event::DialFailed(e) => final(self).state == SessionState::Closing && final(self).outcome == Some(SessionError::OutboundConnect(e)) && r@ == close_actions_spec(
                    old(self).dest_open,
                    old(self).transport_open,
                ),
                Event::DialSucceeded => {
                    &&& final(self).response_sent
                    &&& r@.len() >= 1
                    &&& (r@[0] matches Action::SendTransport(v) && v@ == seq![old(self).marker])
                },
                Event::TransportEnded(tc) => final(self).state == SessionState::Closing && final(self).outcome == Some(SessionError::Transport(tc)),
                Event::TransportData(v) => {
                    if old(self).pending@.len() + v@.len() <= MAX_PENDING {
                        &&& final(self).state == SessionState::Connecting
                        &&& final(self).pending@ == old(self).pending@ + v@
                        &&& r@.len() == 0
                    } else {
                        &&& final(self).state == SessionState::Closing
                        &&& r@ == close_actions_spec(old(self).dest_open, old(self).transport_open)
                    }
                },
                _ => *final(self) == *old(self) && r@.len() == 0,
            },
            old(self).state == SessionState::Relaying ==> match ev {
                Event::TransportData(v) => old(self).inbound.count < COUNT_LIMIT
                    ==> match inbound_outcome(
                    old(self).inbound.mode,
                    old(self).inbound.key@,
                    old(self).inbound.iv@,
                    old(self).inbound.count as int,
                    old(self).assembler.hist@,
                    old(self).config.max_frame,
                    v@,
                ) {
                    InboundOutcome::TooLarge => final(self).state == SessionState::Closing
                        && final(self).outcome == Some(SessionError::FrameTooLarge(FrameTooLarge))
                        && r@ == close_actions_spec(
                        old(self).dest_open,
                        old(self).transport_open,
                    ),
                    InboundOutcome::Integrity => final(self).state == SessionState::Closing
                        && final(self).outcome == Some(
                        SessionError::FrameIntegrity(FrameIntegrityError),
                    ) && r@ == close_actions_spec(old(self).dest_open, old(self).transport_open),
                    InboundOutcome::Forward(p) => {
                        &&& final(self).state == SessionState::Relaying
                        &&& final(self).assembler.hist@ == old(self).assembler.hist@ + v@
                        &&& (if p.len() > 0 {
                            r@.len() == 1 && (r@[0] matches Action::SendDest(w) && w@ == p)
                        } else {
                            r@.len() == 0
                        })
                    },
                },
                Event::DestData(v) => old(self).outbound.count < COUNT_LIMIT ==> ({
                    let maxp = max_payload(old(self).config.max_frame, old(self).outbound.mode);
                    let pieces = chunks_of(v@, maxp);
                    let cts = sealed_cts(
                        old(self).outbound.mode,
                        old(self).outbound.key@,
                        old(self).outbound.iv@,
                        old(self).outbound.count as int,
                        pieces,
                    );
                    &&& final(self).state == SessionState::Relaying
                    &&& r@.len() == pieces.len()
                    &&& (forall|i: int|
                        0 <= i < pieces.len() ==> (#[trigger] r@[i] matches
                            Action::SendTransport(w) && w@ == wire_frame(cts[i])))
                    &&& opened_concat(
                        old(self).outbound.mode,
                        old(self).outbound.key@,
                        old(self).outbound.iv@,
                        old(self).outbound.count as int,
                        cts,
                    ) == Some(v@)
                }),
                Event::DestClosed => {
                    &&& final(self).state == SessionState::Closing
                    &&& final(self).outcome == old(self).outcome
                    &&& r@ == close_actions_spec(false, old(self).transport_open)
                },
                Event::TransportEnded(tc) => {
                    &&& final(self).state == SessionState::Closing
                    &&& (tc == TransportClosed::Clean ==> final(self).outcome == old(
                        self,
                    ).outcome)
                    &&& (tc == TransportClosed::Abrupt ==> final(self).outcome == Some(
                        SessionError::Transport(TransportClosed::Abrupt),
                    ))
                    &&& r@ == close_actions_spec(old(self).dest_open, false)
                },
                _ => *final(self) == *old(self) && r@.len() == 0,
            },
    {
        match self.state {
            SessionState::Closing => Vec::new(),
            SessionState::Closed => Vec::new(),
            SessionState::AwaitingHeader => {
                match ev {
                    Event::TransportData(bytes) => self.on_header_bytes(bytes.as_slice(), now),
                    Event::TransportEnded(tc) => self.fail(Some(SessionError::Transport(tc))),
                    _ => Vec::new(),
                }
            },
            SessionState::Connecting => {
                match ev {
                    Event::TransportData(bytes) => {
                        if bytes.len() > MAX_PENDING || self.pending.len() > MAX_PENDING
                            - bytes.len() {
                            self.fail(Some(SessionError::Transport(TransportClosed::Abrupt)))
                        } else {
                            extend_bytes(&mut self.pending, bytes.as_slice());
                            Vec::new()
                        }
                    },
                    Event::TransportEnded(tc) => self.fail(Some(SessionError::Transport(tc))),
                    Event::DialFailed(e) => self.fail(Some(SessionError::OutboundConnect(e))),
                    Event::DialSucceeded => self.on_dial_succeeded(),
                    _ => Vec::new(),
                }
            },
            SessionState::Relaying => {
                match ev {
                    Event::TransportData(bytes) => self.relay_inbound(bytes.as_slice()),
                    Event::DestData(bytes) => self.relay_outbound(bytes.as_slice()),
                    Event::TransportEnded(tc) => {
                        self.transport_open = false;
                        self.fail(
                            if tc == TransportClosed::Clean {
                                self.outcome
                            } else {
                                Some(SessionError::Transport(TransportClosed::Abrupt))
                            },
                        )
                    },
                    Event::DestClosed => {
                        self.dest_open = false;
                        let keep = self.outcome;
                        self.fail(keep)
                    },
                    _ => Vec::new(),
                }
            },
        }
    }

    /// Releases the session's buffers and reaches the terminal state.
    /// Idempotent: safe to invoke more than once.
    pub fn finish(&mut self)
        requires
            old(self).wf(),
        ensures
            final(self).wf(),
            final(self).config == old(self).config,
            final(self).state == SessionState::Closed,
            final(self).outcome == old(self).outcome,
            final(self).pending@.len() == 0,
            !final(self).transport_open,
            !final(self).dest_open,
    {
        self.pending = Vec::new();
        self.state = SessionState::Closed;
        self.transport_open = false;
        self.dest_open = false;
    }
}

} // verus!
