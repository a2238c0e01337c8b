//! Error taxonomy of the tunnel engine. Every error is terminal to its own
//! session and never propagates as a process-level fault.

use vstd::prelude::*;

verus! {

/// The inbound authentication tag matched no tolerated time bucket.
#[derive(Clone, Copy, Debug, PartialEq, Eq, Structural)]
pub struct AuthenticationError;

/// A request header was malformed. `Truncated` means more bytes are needed
/// before a verdict can be reached; every other variant is final.
#[derive(Clone, Copy, Debug, PartialEq, Eq, Structural)]
pub enum HeaderDecodeError {
    /// Fewer bytes than the header layout requires have arrived so far.
    Truncated,
    /// The version byte differs from the supported value.
    UnsupportedVersion,
    /// The command byte is neither TCP nor UDP.
    UnsupportedCommand,
    /// The address-type byte is not IPv4, domain or IPv6.
    UnsupportedAddressType,
    /// The security-mode nibble names no supported cipher scheme.
    UnsupportedSecurity,
    /// The trailing checksum does not match the preceding header bytes.
    BadChecksum,
}

/// A frame failed its integrity check; the session terminates at once.
#[derive(Clone, Copy, Debug, PartialEq, Eq, Structural)]
pub struct FrameIntegrityError;

/// A frame declared a length above the session's configured maximum.
#[derive(Clone, Copy, Debug, PartialEq, Eq, Structural)]
pub struct FrameTooLarge;

/// The outbound dial to the decoded destination failed.
#[derive(Clone, Copy, Debug, PartialEq, Eq, Structural)]
pub enum OutboundConnectError {
    Timeout,
    Refused,
    Unresolved,
}

/// How the underlying duplex transport ended.
#[derive(Clone, Copy, Debug, PartialEq, Eq, Structural)]
pub enum TransportClosed {
    Clean,
    Abrupt,
}

/// The single reportable value a finished session hands back to the
/// embedding service; the remote peer observes only connection closure.
#[derive(Clone, Copy, Debug, PartialEq, Eq, Structural)]
pub enum SessionError {
    Authentication(AuthenticationError),
    HeaderDecode(HeaderDecodeError),
    FrameIntegrity(FrameIntegrityError),
    FrameTooLarge(FrameTooLarge),
    OutboundConnect(OutboundConnectError),
    Transport(TransportClosed),
}

impl HeaderDecodeError {
    /// A short descriptive name, for the embedding service's logs.
    pub fn describe(&self) -> String {
        match self {
            HeaderDecodeError::Truncated => "truncated header".to_string(),
            HeaderDecodeError::UnsupportedVersion => "unsupported version".to_string(),
            HeaderDecodeError::UnsupportedCommand => "unsupported command".to_string(),
            HeaderDecodeError::UnsupportedAddressType => "unsupported address type".to_string(),
            HeaderDecodeError::UnsupportedSecurity => "unsupported security mode".to_string(),
            HeaderDecodeError::BadChecksum => "checksum mismatch".to_string(),
        }
    }
}

} // verus!
