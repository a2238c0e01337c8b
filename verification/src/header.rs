//! Header Codec: the binary request header (destination, options, key
//! material) and the one-byte response header.
//!
//! Wire layout, big-endian throughout: version (1), auth digest (16),
//! request IV (16), request key (16), response marker (1), options (1),
//! padding-length and security-mode packed into one byte as high and low
//! nibble (1), reserved (1), command (1), port (2), address type (1),
//! address (4, or 1-byte length plus bytes, or 16), random padding (0-15),
//! and a 4-byte FNV-1a checksum over everything before it.

use vstd::prelude::*;

use crate::checksum::fnv1a32;
use crate::checksum::fnv1a32_range;
use crate::errors::HeaderDecodeError;
use crate::primitives::be16_bytes;
use crate::primitives::be32_bytes;
use crate::primitives::copy_range;
use crate::primitives::extend_bytes;
use crate::primitives::get_be16;
use crate::primitives::get_be32;
use crate::primitives::push_be16;
use crate::primitives::push_be32;
use crate::primitives::read16;
use crate::primitives::read32;

verus! {

/// The single supported protocol version.
pub const SUPPORTED_VERSION: u8 = 1;

/// Wire value of the TCP command.
pub const CMD_TCP: u8 = 1;

/// Wire value of the UDP command.
pub const CMD_UDP: u8 = 2;

/// Wire value of the IPv4 address type.
pub const ATYPE_IPV4: u8 = 1;

/// Wire value of the domain address type.
pub const ATYPE_DOMAIN: u8 = 2;

/// Wire value of the IPv6 address type.
pub const ATYPE_IPV6: u8 = 3;

/// Security-mode nibble of the legacy stream cipher.
pub const SEC_LEGACY: u8 = 1;

/// Security-mode nibble of the AEAD scheme.
pub const SEC_AEAD: u8 = 3;

/// Security-mode nibble of plaintext passthrough.
pub const SEC_PLAIN: u8 = 5;

/// Byte offset of the command field.
pub const OFF_COMMAND: usize = 53;

/// Byte offset of the address-type field; the fixed prefix ends here.
pub const OFF_ATYPE: usize = 56;

/// Byte offset of the first address byte.
pub const OFF_ADDRESS: usize = 57;

/// Tunnelled transport protocol.
#[derive(Clone, Copy, Debug, PartialEq, Eq, Structural)]
pub enum Command {
    Tcp,
    Udp,
}

/// The symmetric scheme protecting payload frames.
#[derive(Clone, Copy, Debug, PartialEq, Eq, Structural)]
pub enum SecurityMode {
    /// Per-frame stream cipher with a verified checksum inside each frame.
    Legacy,
    /// Per-frame AEAD with a deterministic per-index nonce.
    Aead,
    /// No encryption and no integrity; framing only.
    Plain,
}

/// Destination address of the tunnel.
#[derive(Clone, Debug)]
pub enum Address {
    Ipv4(Vec<u8>),
    Domain(Vec<u8>),
    Ipv6(Vec<u8>),
}

/// Mathematical model of an address.
#[verifier::ext_equal]
pub enum AddressV {
    Ipv4(Seq<u8>),
    Domain(Seq<u8>),
    Ipv6(Seq<u8>),
}

impl View for Address {
    type V = AddressV;

    open spec fn view(&self) -> AddressV {
        match self {
            Address::Ipv4(v) => AddressV::Ipv4(v@),
            Address::Domain(v) => AddressV::Domain(v@),
            Address::Ipv6(v) => AddressV::Ipv6(v@),
        }
    }
}

/// The decoded request header, immutable once decoded.
#[derive(Clone, Debug)]
pub struct RequestHeader {
    pub version: u8,
    pub auth_digest: Vec<u8>,
    pub request_iv: Vec<u8>,
    pub request_key: Vec<u8>,
    pub response_marker: u8,
    pub options: u8,
    pub security: SecurityMode,
    pub reserved: u8,
    pub command: Command,
    pub port: u16,
    pub address: Address,
    pub padding: Vec<u8>,
}

/// Mathematical model of a request header.
#[verifier::ext_equal]
pub struct HeaderV {
    pub version: u8,
    pub auth_digest: Seq<u8>,
    pub request_iv: Seq<u8>,
    pub request_key: Seq<u8>,
    pub response_marker: u8,
    pub options: u8,
    pub security: SecurityMode,
    pub reserved: u8,
    pub command: Command,
    pub port: u16,
    pub address: AddressV,
    pub padding: Seq<u8>,
}

impl View for RequestHeader {
    type V = HeaderV;

    open spec fn view(&self) -> HeaderV {
        HeaderV {
            version: self.version,
            auth_digest: self.auth_digest@,
            request_iv: self.request_iv@,
            request_key: self.request_key@,
            response_marker: self.response_marker,
            options: self.options,
            security: self.security,
            reserved: self.reserved,
            command: self.command,
            port: self.port,
            address: self.address@,
            padding: self.padding@,
        }
    }
}

/// Wire byte of a command.
pub open spec fn cmd_byte(c: Command) -> u8 {
    match c {
        Command::Tcp => CMD_TCP,
        Command::Udp => CMD_UDP,
    }
}

/// Wire nibble of a security mode.
pub open spec fn sec_nibble(s: SecurityMode) -> u8 {
    match s {
        SecurityMode::Legacy => SEC_LEGACY,
        SecurityMode::Aead => SEC_AEAD,
        SecurityMode::Plain => SEC_PLAIN,
    }
}

/// Wire byte of an address type.
pub open spec fn atype_byte(a: AddressV) -> u8 {
    match a {
        AddressV::Ipv4(_) => ATYPE_IPV4,
        AddressV::Domain(_) => ATYPE_DOMAIN,
        AddressV::Ipv6(_) => ATYPE_IPV6,
    }
}

/// Wire bytes of an address (a domain carries its length first).
pub open spec fn addr_bytes(a: AddressV) -> Seq<u8> {
    match a {
        AddressV::Ipv4(v) => v,
        AddressV::Domain(v) => seq![v.len() as u8] + v,
        AddressV::Ipv6(v) => v,
    }
}

/// Whether an address value is well formed.
pub open spec fn wf_address(a: AddressV) -> bool {
    match a {
        AddressV::Ipv4(v) => v.len() == 4,
        AddressV::Domain(v) => v.len() <= 255,
        AddressV::Ipv6(v) => v.len() == 16,
    }
}

/// Whether a header model is well formed: exactly the headers that encode
/// and decode back.
pub open spec fn wf_header(h: HeaderV) -> bool {
    &&& h.version == SUPPORTED_VERSION
    &&& h.auth_digest.len() == 16
    &&& h.request_iv.len() == 16
    &&& h.request_key.len() == 16
    &&& h.padding.len() <= 15
    &&& wf_address(h.address)
}

/// The packed padding-length/security-mode byte.
pub open spec fn pad_sec_byte(h: HeaderV) -> u8 {
    ((h.padding.len() as u8) << 4) | sec_nibble(h.security)
}

/// Every header byte before the checksum field.
pub open spec fn header_body(h: HeaderV) -> Seq<u8> {
    seq![h.version] + h.auth_digest + h.request_iv + h.request_key
        + seq![h.response_marker, h.options, pad_sec_byte(h), h.reserved, cmd_byte(h.command)]
        + be16_bytes(h.port) + seq![atype_byte(h.address)] + addr_bytes(h.address) + h.padding
}

/// The full encoding: body followed by the 4-byte checksum.
pub open spec fn encode_spec(h: HeaderV) -> Seq<u8> {
    header_body(h) + be32_bytes(fnv1a32(header_body(h)))
}

/// What decoding a byte sequence yields: the header model and the number
/// of bytes consumed, or the exact error. `Truncated` always means that a
/// longer sequence with the same prefix could still decode.
pub open spec fn decode_spec(b: Seq<u8>) -> Result<(HeaderV, int), HeaderDecodeError> {
    if b.len() < 1 {
        Err(HeaderDecodeError::Truncated)
    } else if b[0] != SUPPORTED_VERSION {
        Err(HeaderDecodeError::UnsupportedVersion)
    } else if b.len() < OFF_ADDRESS {
        Err(HeaderDecodeError::Truncated)
    } else if b[OFF_COMMAND as int] != CMD_TCP && b[OFF_COMMAND as int] != CMD_UDP {
        Err(HeaderDecodeError::UnsupportedCommand)
    } else if b[OFF_ATYPE as int] != ATYPE_IPV4 && b[OFF_ATYPE as int] != ATYPE_DOMAIN && b[56]
        != ATYPE_IPV6 {
        Err(HeaderDecodeError::UnsupportedAddressType)
    } else if (b[51] & 0x0f) != SEC_LEGACY && (b[51] & 0x0f) != SEC_AEAD && (b[51] & 0x0f)
        != SEC_PLAIN {
        Err(HeaderDecodeError::UnsupportedSecurity)
    } else if b[OFF_ATYPE as int] == ATYPE_DOMAIN && b.len() < OFF_ADDRESS + 1 {
        Err(HeaderDecodeError::Truncated)
    } else {
        let alen: int = if b[OFF_ATYPE as int] == ATYPE_IPV4 {
            4
        } else if b[OFF_ATYPE as int] == ATYPE_IPV6 {
            16
        } else {
            1 + b[OFF_ADDRESS as int] as int
        };
        let pad: int = (b[51] >> 4) as int;
        let ck: int = OFF_ADDRESS + alen + pad;
        if b.len() < ck + 4 {
            Err(HeaderDecodeError::Truncated)
        } else if read32(b[ck], b[ck + 1], b[ck + 2], b[ck + 3]) != fnv1a32(b.subrange(0, ck)) {
            Err(HeaderDecodeError::BadChecksum)
        } else {
            Ok((decoded_header(b, alen, pad), ck + 4))
        }
    }
}

/// The header model read from `b`, for use once every check has passed.
pub open spec fn decoded_header(b: Seq<u8>, alen: int, pad: int) -> HeaderV {
    HeaderV {
        version: b[0],
        auth_digest: b.subrange(1, 17),
        request_iv: b.subrange(17, 33),
        request_key: b.subrange(33, 49),
        response_marker: b[49],
        options: b[50],
        security: if (b[51] & 0x0f) == SEC_LEGACY {
            SecurityMode::Legacy
        } else if (b[51] & 0x0f) == SEC_AEAD {
            SecurityMode::Aead
        } else {
            SecurityMode::Plain
        },
        reserved: b[52],
        command: if b[OFF_COMMAND as int] == CMD_TCP {
            Command::Tcp
        } else {
            Command::Udp
        },
        port: read16(b[54], b[55]),
        address: if b[OFF_ATYPE as int] == ATYPE_IPV4 {
            AddressV::Ipv4(b.subrange(57, 61))
        } else if b[OFF_ATYPE as int] == ATYPE_IPV6 {
            AddressV::Ipv6(b.subrange(57, 73))
        } else {
            AddressV::Domain(b.subrange(58, 57 + alen))
        },
        padding: b.subrange(57 + alen, 57 + alen + pad),
    }
}

impl RequestHeader {
    /// Whether the executable header is well formed.
    pub open spec fn wf(&self) -> bool {
        wf_header(self@)
    }
}

/// Executable wire byte of a command.
pub fn command_byte(c: Command) -> (r: u8)
    ensures
        r == cmd_byte(c),
{
    match c {
        Command::Tcp => CMD_TCP,
        Command::Udp => CMD_UDP,
    }
}

/// Executable wire nibble of a security mode.
pub fn security_nibble(s: SecurityMode) -> (r: u8)
    ensures
        r == sec_nibble(s),
{
    match s {
        SecurityMode::Legacy => SEC_LEGACY,
        SecurityMode::Aead => SEC_AEAD,
        SecurityMode::Plain => SEC_PLAIN,
    }
}

/// Encodes a request header, checksum included.
pub fn encode_request(h: &RequestHeader) -> (r: Vec<u8>)
    requires
        h.wf(),
    ensures
        r@ == encode_spec(h@),
{
    let mut out: Vec<u8> = Vec::new();
    out.push(h.version);
    extend_bytes(&mut out, h.auth_digest.as_slice());
    extend_bytes(&mut out, h.request_iv.as_slice());
    extend_bytes(&mut out, h.request_key.as_slice());
    out.push(h.response_marker);
    out.push(h.options);
    let plen: u8 = h.padding.len() as u8;
    out.push((plen << 4) | security_nibble(h.security));
    out.push(h.reserved);
    out.push(command_byte(h.command));
    push_be16(&mut out, h.port);
    match &h.address {
        Address::Ipv4(v) => {
            out.push(ATYPE_IPV4);
            extend_bytes(&mut out, v.as_slice());
        },
        Address::Domain(v) => {
            out.push(ATYPE_DOMAIN);
            out.push(v.len() as u8);
            extend_bytes(&mut out, v.as_slice());
        },
        Address::Ipv6(v) => {
            out.push(ATYPE_IPV6);
            extend_bytes(&mut out, v.as_slice());
        },
    }
    extend_bytes(&mut out, h.padding.as_slice());
    assert(out@ =~= header_body(h@));
    let ck = fnv1a32_range(out.as_slice(), 0, out.len());
    assert(out@.subrange(0, out@.len() as int) =~= out@);
    push_be32(&mut out, ck);
    assert(out@ =~= encode_spec(h@));
    out
}

/// Decodes a request header from the front of `b`, returning the header
/// and the number of bytes consumed, or the exact error `decode_spec`
/// names.
pub fn decode_request(b: &[u8]) -> (r: Result<(RequestHeader, usize), HeaderDecodeError>)
    ensures
        match r {
            Ok((h, used)) => decode_spec(b@) == Ok::<(HeaderV, int), HeaderDecodeError>(
                (h@, used as int),
            ),
            Err(e) => decode_spec(b@) == Err::<(HeaderV, int), HeaderDecodeError>(e),
        },
{
    if b.len() < 1 {
        return Err(HeaderDecodeError::Truncated);
    }
    if b[0] != SUPPORTED_VERSION {
        return Err(HeaderDecodeError::UnsupportedVersion);
    }
    if b.len() < OFF_ADDRESS {
        return Err(HeaderDecodeError::Truncated);
    }
    let cmd = b[OFF_COMMAND];
    if cmd != CMD_TCP && cmd != CMD_UDP {
        return Err(HeaderDecodeError::UnsupportedCommand);
    }
    let at = b[OFF_ATYPE];
    if at != ATYPE_IPV4 && at != ATYPE_DOMAIN && at != ATYPE_IPV6 {
        return Err(HeaderDecodeError::UnsupportedAddressType);
    }
    let sec = b[51] & 0x0f;
    if sec != SEC_LEGACY && sec != SEC_AEAD && sec != SEC_PLAIN {
        return Err(HeaderDecodeError::UnsupportedSecurity);
    }
    if at == ATYPE_DOMAIN && b.len() < OFF_ADDRESS + 1 {
        return Err(HeaderDecodeError::Truncated);
    }
    let alen: usize = if at == ATYPE_IPV4 {
        4
    } else if at == ATYPE_IPV6 {
        16
    } else {
        1 + (b[OFF_ADDRESS] as usize)
    };
    let pad: usize = (b[51] >> 4) as usize;
    let ck: usize = OFF_ADDRESS + alen + pad;
    if b.len() < ck + 4 {
        return Err(HeaderDecodeError::Truncated);
    }
    let stored = get_be32(b, ck);
    let computed = fnv1a32_range(b, 0, ck);
    if stored != computed {
        return Err(HeaderDecodeError::BadChecksum);
    }
    let address = if at == ATYPE_IPV4 {
        Address::Ipv4(copy_range(b, 57, 61))
    } else if at == ATYPE_IPV6 {
        Address::Ipv6(copy_range(b, 57, 73))
    } else {
        Address::Domain(copy_range(b, 58, 57 + alen))
    };
    let h = RequestHeader {
        version: b[0],
        auth_digest: copy_range(b, 1, 17),
        request_iv: copy_range(b, 17, 33),
        request_key: copy_range(b, 33, 49),
        response_marker: b[49],
        options: b[50],
        security: if sec == SEC_LEGACY {
            SecurityMode::Legacy
        } else if sec == SEC_AEAD {
            SecurityMode::Aead
        } else {
            SecurityMode::Plain
        },
        reserved: b[52],
        command: if cmd == CMD_TCP {
            Command::Tcp
        } else {
            Command::Udp
        },
        port: get_be16(b, 54),
        address,
        padding: copy_range(b, 57 + alen, 57 + alen + pad),
    };
    proof {
        assert(h@ =~= decoded_header(b@, alen as int, pad as int));
    }
    Ok((h, ck + 4))
}

/// The largest byte count a header that is still `Truncated` can have:
/// once this many bytes are in hand, decoding reaches a verdict.
pub const MAX_HEADER_ENCODING: usize = 332;

/// A `Truncated` verdict can only come from fewer bytes than the largest
/// possible header encoding.
pub proof fn lemma_truncated_bound(b: Seq<u8>)
    requires
        decode_spec(b) == Err::<(HeaderV, int), HeaderDecodeError>(HeaderDecodeError::Truncated),
    ensures
        b.len() < MAX_HEADER_ENCODING,
{
    if b.len() >= 57 {
        let x = b[51];
        assert(x >> 4 < 16) by (bit_vector);
    }
}

/// The packed byte splits back into its two nibbles.
proof fn lemma_pad_sec_split(p: u8, n: u8)
    requires
        p < 16,
        n < 16,
    ensures
        (((p << 4) | n) & 0x0f) == n,
        (((p << 4) | n) >> 4) == p,
{
    assert(p < 16 && n < 16 ==> (((p << 4) | n) & 0x0f) == n && (((p << 4) | n) >> 4) == p)
        by (bit_vector);
}

/// Where every field of a well-formed header lies inside its encoding.
proof fn lemma_encode_layout(h: HeaderV)
    requires
        wf_header(h),
    ensures
        header_body(h).len() == 57 + addr_bytes(h.address).len() + h.padding.len(),
        encode_spec(h).len() == header_body(h).len() + 4,
        encode_spec(h).subrange(0, header_body(h).len() as int) == header_body(h),
        forall|j: int|
            0 <= j < 4 ==> encode_spec(h)[header_body(h).len() + j] == be32_bytes(
                fnv1a32(header_body(h)),
            )[j],
        header_body(h)[0] == h.version,
        header_body(h).subrange(1, 17) == h.auth_digest,
        header_body(h).subrange(17, 33) == h.request_iv,
        header_body(h).subrange(33, 49) == h.request_key,
        header_body(h)[49] == h.response_marker,
        header_body(h)[50] == h.options,
        header_body(h)[51] == pad_sec_byte(h),
        header_body(h)[52] == h.reserved,
        header_body(h)[53] == cmd_byte(h.command),
        header_body(h)[54] == be16_bytes(h.port)[0],
        header_body(h)[55] == be16_bytes(h.port)[1],
        header_body(h)[56] == atype_byte(h.address),
        forall|j: int|
            0 <= j < addr_bytes(h.address).len() ==> header_body(h)[57 + j] == addr_bytes(
                h.address,
            )[j],
        forall|j: int|
            0 <= j < h.padding.len() ==> header_body(h)[57 + addr_bytes(h.address).len() + j]
                == h.padding[j],
{
    let body = header_body(h);
    let e = encode_spec(h);
    assert(body.len() == 57 + addr_bytes(h.address).len() + h.padding.len());
    assert(e.subrange(0, body.len() as int) =~= body);
}

/// Law (round trip): decoding the encoding of any well-formed header, with
/// any bytes following it, yields that header back and consumes exactly
/// the encoding's length.
pub proof fn lemma_round_trip(h: HeaderV, tail: Seq<u8>)
    requires
        wf_header(h),
    ensures
        decode_spec(encode_spec(h) + tail) == Ok::<(HeaderV, int), HeaderDecodeError>(
            (h, encode_spec(h).len() as int),
        ),
{
    lemma_encode_layout(h);
    let body = header_body(h);
    let ckv = fnv1a32(body);
    let e = encode_spec(h) + tail;
    let bl = body.len() as int;
    assert(forall|j: int| 0 <= j < bl ==> e[j] == body[j]);
    assert(forall|j: int| 0 <= j < 4 ==> e[bl + j] == be32_bytes(ckv)[j]);

    let plen: u8 = h.padding.len() as u8;
    let nib: u8 = sec_nibble(h.security);
    lemma_pad_sec_split(plen, nib);
    assert(e[51] == pad_sec_byte(h));
    assert((e[51] & 0x0f) == nib);
    assert(((e[51] >> 4) as int) == h.padding.len());

    // the address length read back equals the real address-bytes length
    let alen: int = if e[OFF_ATYPE as int] == ATYPE_IPV4 {
        4
    } else if e[OFF_ATYPE as int] == ATYPE_IPV6 {
        16
    } else {
        1 + e[OFF_ADDRESS as int] as int
    };
    match h.address {
        AddressV::Ipv4(v) => {
            assert(alen == addr_bytes(h.address).len());
        },
        AddressV::Ipv6(v) => {
            assert(alen == addr_bytes(h.address).len());
        },
        AddressV::Domain(v) => {
            assert(e[OFF_ADDRESS as int] == addr_bytes(h.address)[0]);
            assert(addr_bytes(h.address)[0] == v.len() as u8);
            assert((v.len() as u8) as int == v.len());
            assert(alen == addr_bytes(h.address).len());
        },
    }
    let pad: int = (e[51] >> 4) as int;
    let ck: int = OFF_ADDRESS + alen + pad;
    assert(ck == bl);
    assert(e.len() >= ck + 4);

    // the recomputed checksum equals the stored one
    assert(e.subrange(0, ck) =~= body);
    crate::primitives::lemma_read32_be32(ckv);
    assert(read32(e[ck], e[ck + 1], e[ck + 2], e[ck + 3]) == ckv);

    // the decoded fields equal the encoded ones
    let d = decoded_header(e, alen, pad);
    assert(e.subrange(1, 17) =~= h.auth_digest);
    assert(e.subrange(17, 33) =~= h.request_iv);
    assert(e.subrange(33, 49) =~= h.request_key);
    crate::primitives::lemma_read16_be16(h.port);
    assert(read16(e[54], e[55]) == h.port);
    match h.address {
        AddressV::Ipv4(v) => {
            assert(e.subrange(57, 61) =~= v);
        },
        AddressV::Ipv6(v) => {
            assert(e.subrange(57, 73) =~= v);
        },
        AddressV::Domain(v) => {
            assert(forall|j: int| 0 <= j < v.len() ==> e[58 + j] == v[j]);
            assert(e.subrange(58, 57 + alen) =~= v);
        },
    }
    assert(e.subrange(57 + alen, 57 + alen + pad) =~= h.padding);
    assert(d.security == h.security);
    assert(d.command == h.command);
    assert(d =~~= h);
    assert(decode_spec(e) == Ok::<(HeaderV, int), HeaderDecodeError>(
        (h, encode_spec(h).len() as int),
    ));
}

/// Law (checksum integrity): flipping any single bit inside the checksum
/// field of a valid encoding makes decoding fail with `BadChecksum`.
pub proof fn lemma_checksum_bit_flip(h: HeaderV, i: int, k: u8)
    requires
        wf_header(h),
        header_body(h).len() <= i < encode_spec(h).len(),
        k < 8,
    ensures
        decode_spec(encode_spec(h).update(i, encode_spec(h)[i] ^ (1u8 << k))) == Err::<
            (HeaderV, int),
            HeaderDecodeError,
        >(HeaderDecodeError::BadChecksum),
{
    lemma_encode_layout(h);
    let body = header_body(h);
    let ckv = fnv1a32(body);
    let e0 = encode_spec(h);
    let e = e0.update(i, e0[i] ^ (1u8 << k));
    let bl = body.len() as int;
    assert(e.len() == e0.len());
    assert(forall|j: int| 0 <= j < e0.len() && j != i ==> e[j] == e0[j]);
    assert(forall|j: int| 0 <= j < bl ==> e[j] == body[j]);

    let plen: u8 = h.padding.len() as u8;
    let nib: u8 = sec_nibble(h.security);
    lemma_pad_sec_split(plen, nib);
    assert(e[51] == pad_sec_byte(h));
    assert((e[51] & 0x0f) == nib);
    assert(((e[51] >> 4) as int) == h.padding.len());

    let alen: int = if e[OFF_ATYPE as int] == ATYPE_IPV4 {
        4
    } else if e[OFF_ATYPE as int] == ATYPE_IPV6 {
        16
    } else {
        1 + e[OFF_ADDRESS as int] as int
    };
    match h.address {
        AddressV::Ipv4(v) => {
            assert(alen == addr_bytes(h.address).len());
        },
        AddressV::Ipv6(v) => {
            assert(alen == addr_bytes(h.address).len());
        },
        AddressV::Domain(v) => {
            assert(e[OFF_ADDRESS as int] == addr_bytes(h.address)[0]);
            assert((v.len() as u8) as int == v.len());
            assert(alen == addr_bytes(h.address).len());
        },
    }
    let pad: int = (e[51] >> 4) as int;
    let ck: int = OFF_ADDRESS + alen + pad;
    assert(ck == bl);
    assert(e.subrange(0, ck) =~= body);

    // exactly one of the four stored checksum bytes changed
    let d = i - ck;
    assert(0 <= d < 4);
    crate::primitives::lemma_bit_flip_changes(e0[i], k);
    assert(e[i] != e0[i]);
    crate::primitives::lemma_read32_be32(ckv);
    assert(read32(e0[ck], e0[ck + 1], e0[ck + 2], e0[ck + 3]) == ckv);
    if read32(e[ck], e[ck + 1], e[ck + 2], e[ck + 3]) == ckv {
        crate::primitives::lemma_read32_injective(
            e[ck],
            e[ck + 1],
            e[ck + 2],
            e[ck + 3],
            e0[ck],
            e0[ck + 1],
            e0[ck + 2],
            e0[ck + 3],
        );
        assert(false);
    }
    assert(read32(e[ck], e[ck + 1], e[ck + 2], e[ck + 3]) != fnv1a32(e.subrange(0, ck)));
}

/// Encodes the response header: the confirmation byte echoed from the
/// request, emitted exactly once per session before any payload frame.
pub fn encode_response(marker: u8) -> (r: Vec<u8>)
    ensures
        r@ == seq![marker],
{
    let mut out: Vec<u8> = Vec::new();
    out.push(marker);
    assert(out@ =~= seq![marker]);
    out
}

} // verus!
