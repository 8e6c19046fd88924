//! STUN Binding requests and responses.

use crate::address::{SocketAddress, SocketAddressV4, SocketAddressV6};
use crate::bytes;
use crate::bytes::{array_at, bytes_equal, join16, join32};
use crate::crypto::random_nonzero;
use crate::protocol::result_view;
use crate::text;
use crate::text::{decimal_text, escape_text, hex4_text, utf8_text};
use vstd::prelude::*;
use vstd::slice::slice_subrange;
use vstd::string::StringExecFns;
use vstd::utf8;

verus! {

pub const DEFAULT_STUN_SERVER: &'static str = "stun.cloudflare.com:3478";

pub const MAGIC_COOKIE: u32 = 0x2112_A442;

/// The upper half of the magic cookie, which masks ports.
const MAGIC_PORT: u16 = 0x2112;

const BINDING_SUCCESS: u16 = 0x0101;

const BINDING_ERROR: u16 = 0x0111;

const ATTR_MESSAGE_INTEGRITY: u16 = 0x0008;

const ATTR_ERROR_CODE: u16 = 0x0009;

const ATTR_MESSAGE_INTEGRITY_SHA256: u16 = 0x001c;

const ATTR_XOR_MAPPED_ADDRESS: u16 = 0x0020;

pub type TransactionId = [u8; 12];

/// What a STUN server found out.
#[derive(Clone, Copy, Debug, PartialEq, Eq, Structural)]
pub struct Discovery {
    pub public_address: SocketAddress,
    pub server: SocketAddress,
    /// The round-trip time in nanoseconds.
    pub rtt: u64,
}

/// What a Binding response says.
#[derive(Clone, Debug, PartialEq, Eq)]
pub enum BindingResponse {
    Success(SocketAddress),
    ServerError { code: u16, reason: String },
}

/// The mathematical form of a `BindingResponse`.
pub enum BindingResponseView {
    Success(SocketAddress),
    ServerError { code: u16, reason: Seq<char> },
}

impl View for BindingResponse {
    type V = BindingResponseView;

    open spec fn view(&self) -> BindingResponseView {
        match self {
            BindingResponse::Success(a) => BindingResponseView::Success(*a),
            BindingResponse::ServerError { code, reason } => BindingResponseView::ServerError {
                code: *code,
                reason: reason@,
            },
        }
    }
}

/// Why a packet is not the awaited Binding response.
#[derive(Clone, Debug, PartialEq, Eq)]
pub enum ParseError {
    NotThisTransaction(String),
    Malformed(String),
}

/// The mathematical form of a `ParseError`.
pub enum ParseErrorView {
    NotThisTransaction(Seq<char>),
    Malformed(Seq<char>),
}

impl View for ParseError {
    type V = ParseErrorView;

    open spec fn view(&self) -> ParseErrorView {
        match self {
            ParseError::NotThisTransaction(m) => ParseErrorView::NotThisTransaction(m@),
            ParseError::Malformed(m) => ParseErrorView::Malformed(m@),
        }
    }
}

impl ParseErrorView {
    /// What the error says.
    pub open spec fn message(self) -> Seq<char> {
        match self {
            ParseErrorView::NotThisTransaction(m) => m,
            ParseErrorView::Malformed(m) => m,
        }
    }
}

impl ParseError {
    /// What the error says.
    pub fn message(&self) -> (m: String)
        ensures
            m@ == self@.message(),
    {
        match self {
            ParseError::NotThisTransaction(m) => m.clone(),
            ParseError::Malformed(m) => m.clone(),
        }
    }
}

/// A format error with this message.
pub open spec fn malformed(message: Seq<char>) -> ParseErrorView {
    ParseErrorView::Malformed(message)
}

fn malformed_error(message: &str) -> (e: ParseError)
    ensures
        e@ == malformed(message@),
{
    ParseError::Malformed(message.to_owned())
}

// ---------------------------------------------------------------------------
// Requests
// ---------------------------------------------------------------------------

/// A transaction identifier that is not zero.
pub fn random_transaction_id() -> (id: TransactionId)
    ensures
        !bytes::all_zero(id@),
{
    random_nonzero()
}

/// A STUN header: message type, length of what follows, magic cookie and
/// transaction identifier.
pub open spec fn stun_header(message_type: u16, length: u16, transaction_id: Seq<u8>) -> Seq<u8> {
    bytes::be16_bytes(message_type) + bytes::be16_bytes(length) + bytes::be32_bytes(MAGIC_COOKIE)
        + transaction_id
}

/// A Binding request without attributes.
pub open spec fn binding_request(transaction_id: Seq<u8>) -> Seq<u8> {
    stun_header(0x0001, 0, transaction_id)
}

/// Writes a Binding request without attributes.
pub fn build_binding_request(transaction_id: TransactionId) -> (request: [u8; 20])
    ensures
        request@ == binding_request(transaction_id@),
{
    let mut packet: Vec<u8> = vec![0x00, 0x01, 0x00, 0x00, 0x21, 0x12, 0xa4, 0x42];
    packet.extend_from_slice(transaction_id.as_slice());
    assert(packet@ =~= binding_request(transaction_id@));
    let request: [u8; 20] = array_at(packet.as_slice(), 0);
    assert(request@ =~= packet@);
    request
}

// ---------------------------------------------------------------------------
// Attributes
// ---------------------------------------------------------------------------

/// The bytes that mask an IPv6 address: the magic cookie and the transaction
/// identifier.
pub open spec fn v6_mask(transaction_id: Seq<u8>) -> Seq<u8> {
    bytes::be32_bytes(MAGIC_COOKIE) + transaction_id
}

/// Two sequences of bytes, combined bit by bit.
pub open spec fn xor_bytes(a: Seq<u8>, b: Seq<u8>) -> Seq<u8> {
    Seq::new(a.len(), |i: int| a[i] ^ b[i])
}

/// The address in the value of an XOR-MAPPED-ADDRESS attribute. The first byte
/// is reserved and ignored.
pub open spec fn read_mapped_address(value: Seq<u8>, transaction_id: Seq<u8>) -> Result<
    SocketAddress,
    ParseErrorView,
> {
    if value.len() < 4 {
        Err(malformed("XOR-MAPPED-ADDRESS короче четырёх байт"@))
    } else {
        let port = bytes::be16(value[2], value[3]) ^ 0x2112;
        if port == 0 {
            Err(malformed("STUN вернул нулевой порт"@))
        } else if value[1] == 1 {
            if value.len() != 8 {
                Err(malformed("IPv4 XOR-MAPPED-ADDRESS должен иметь длину 8"@))
            } else {
                let ip = bytes::be32(value[4], value[5], value[6], value[7]) ^ MAGIC_COOKIE;
                Ok(SocketAddress::V4(SocketAddressV4 { ip, port }))
            }
        } else if value[1] == 2 {
            if value.len() != 20 {
                Err(malformed("IPv6 XOR-MAPPED-ADDRESS должен иметь длину 20"@))
            } else {
                let ip = bytes::be_value(
                    xor_bytes(value.subrange(4, 20), v6_mask(transaction_id)),
                ) as u128;
                Ok(SocketAddress::V6(SocketAddressV6 { ip, port, flowinfo: 0, scope_id: 0 }))
            }
        } else {
            Err(
                malformed(
                    "неизвестное семейство XOR-MAPPED-ADDRESS: "@ + text::decimal(value[1] as nat),
                ),
            )
        }
    }
}

/// The code and the printable reason in the value of an ERROR-CODE attribute.
pub open spec fn read_error_code(value: Seq<u8>) -> Result<(u16, Seq<char>), ParseErrorView> {
    if value.len() < 4 {
        Err(malformed("ERROR-CODE короче четырёх байт"@))
    } else if value[0] != 0 || value[1] != 0 || value[2] >= 8 {
        Err(malformed("reserved-биты ERROR-CODE должны быть нулевыми"@))
    } else if !(3 <= value[2] <= 6) || value[3] > 99 {
        Err(malformed("ERROR-CODE class/number вне допустимого диапазона"@))
    } else if !utf8::valid_utf8(value.skip(4)) {
        Err(malformed("ERROR-CODE reason не UTF-8"@))
    } else {
        Ok(
            (
                (value[2] * 100 + value[3]) as u16,
                text::escape(utf8::decode_utf8(value.skip(4))),
            ),
        )
    }
}

/// The comprehension-required attributes that may be met: MAPPED-ADDRESS,
/// USERNAME, MESSAGE-INTEGRITY, ERROR-CODE, UNKNOWN-ATTRIBUTES, REALM, NONCE,
/// MESSAGE-INTEGRITY-SHA256, PASSWORD-ALGORITHM, USERHASH and
/// XOR-MAPPED-ADDRESS.
pub open spec fn is_known_required(kind: u16) -> bool {
    ||| kind == 0x0001
    ||| kind == 0x0006
    ||| kind == 0x0008
    ||| kind == 0x0009
    ||| kind == 0x000a
    ||| kind == 0x0014
    ||| kind == 0x0015
    ||| kind == 0x001c
    ||| kind == 0x001d
    ||| kind == 0x001e
    ||| kind == 0x0020
}

pub fn is_known_required_attribute(kind: u16) -> (r: bool)
    ensures
        r == is_known_required(kind),
{
    kind == 0x0001 || kind == 0x0006 || kind == 0x0008 || kind == 0x0009 || kind == 0x000a || kind
        == 0x0014 || kind == 0x0015 || kind == 0x001c || kind == 0x001d || kind == 0x001e || kind
        == 0x0020
}

/// Reads the value of an ERROR-CODE attribute.
pub fn parse_error_code(value: &[u8]) -> (r: Result<(u16, String), ParseError>)
    ensures
        match r {
            Ok((code, reason)) => read_error_code(value@) == Ok::<_, ParseErrorView>(
                (code, reason@),
            ),
            Err(e) => read_error_code(value@) == Err::<(u16, Seq<char>), _>(e@),
        },
{
    if value.len() < 4 {
        return Err(malformed_error("ERROR-CODE короче четырёх байт"));
    }
    if value[0] != 0 || value[1] != 0 || value[2] >= 8 {
        return Err(malformed_error("reserved-биты ERROR-CODE должны быть нулевыми"));
    }
    let class: u8 = value[2];
    let number: u8 = value[3];
    if !(3 <= class && class <= 6) || number > 99 {
        return Err(malformed_error("ERROR-CODE class/number вне допустимого диапазона"));
    }
    let reason_bytes: &[u8] = slice_subrange(value, 4, value.len());
    assert(reason_bytes@ =~= value@.skip(4));
    match utf8_text(reason_bytes) {
        None => Err(malformed_error("ERROR-CODE reason не UTF-8")),
        Some(reason) => Ok((class as u16 * 100 + number as u16, escape_text(reason))),
    }
}

/// Sixteen masked bytes as one number.
fn unmask_v6(value: &[u8], transaction_id: &TransactionId) -> (ip: u128)
    requires
        value@.len() == 20,
    ensures
        ip == bytes::be_value(xor_bytes(value@.subrange(4, 20), v6_mask(transaction_id@))),
{
    let mut mask: Vec<u8> = vec![0x21, 0x12, 0xa4, 0x42];
    mask.extend_from_slice(transaction_id.as_slice());
    assert(mask@ =~= v6_mask(transaction_id@));
    let ghost all = xor_bytes(value@.subrange(4, 20), mask@);
    let mut ip: u128 = 0;
    let mut i: usize = 0;
    while i < 16
        invariant
            i <= 16,
            value@.len() == 20,
            mask@.len() == 16,
            all == xor_bytes(value@.subrange(4, 20), mask@),
            ip == bytes::be_value(all.take(i as int)),
        decreases 16 - i,
    {
        assert(all.take(i + 1).drop_last() =~= all.take(i as int));
        proof {
            bytes::lemma_be_value_bound(all.take(i as int));
            bytes::lemma_be_limit(i as nat, 15);
            bytes::lemma_be_limit_u128();
        }
        ip = ip * 0x100 + (value[4 + i] ^ mask[i]) as u128;
        i += 1;
    }
    assert(all.take(16) =~= all);
    ip
}

/// Reads the value of an XOR-MAPPED-ADDRESS attribute.
pub fn parse_mapped_address(value: &[u8], transaction_id: TransactionId) -> (r: Result<
    SocketAddress,
    ParseError,
>)
    ensures
        match r {
            Ok(a) => read_mapped_address(value@, transaction_id@) == Ok::<_, ParseErrorView>(a),
            Err(e) => read_mapped_address(value@, transaction_id@) == Err::<SocketAddress, _>(e@),
        },
{
    if value.len() < 4 {
        return Err(malformed_error("XOR-MAPPED-ADDRESS короче четырёх байт"));
    }
    let port: u16 = join16(value[2], value[3]) ^ MAGIC_PORT;
    if port == 0 {
        return Err(malformed_error("STUN вернул нулевой порт"));
    }
    if value[1] == 1 {
        if value.len() != 8 {
            return Err(malformed_error("IPv4 XOR-MAPPED-ADDRESS должен иметь длину 8"));
        }
        let ip: u32 = join32(value[4], value[5], value[6], value[7]) ^ MAGIC_COOKIE;
        Ok(SocketAddress::V4(SocketAddressV4 { ip, port }))
    } else if value[1] == 2 {
        if value.len() != 20 {
            return Err(malformed_error("IPv6 XOR-MAPPED-ADDRESS должен иметь длину 20"));
        }
        let ip: u128 = unmask_v6(value, &transaction_id);
        Ok(SocketAddress::V6(SocketAddressV6 { ip, port, flowinfo: 0, scope_id: 0 }))
    } else {
        let mut m: String = "неизвестное семейство XOR-MAPPED-ADDRESS: ".to_owned();
        m.append(decimal_text(value[1] as u64).as_str());
        Err(ParseError::Malformed(m))
    }
}

// ---------------------------------------------------------------------------
// Responses
// ---------------------------------------------------------------------------

/// What the attributes of a message have said so far.
pub struct ScanView {
    pub xor_mapped: Option<SocketAddress>,
    pub error_code: Option<(u16, Seq<char>)>,
    /// Whether attributes still have a meaning: they lose it after the first
    /// message integrity attribute.
    pub semantic: bool,
}

/// An attribute after which attributes have no meaning.
pub open spec fn is_integrity(kind: u16) -> bool {
    kind == 0x0008 || kind == 0x001c
}

/// What is known after one more attribute that has a meaning.
pub open spec fn understand(
    acc: ScanView,
    message_type: u16,
    kind: u16,
    value: Seq<u8>,
    transaction_id: Seq<u8>,
) -> Result<ScanView, ParseErrorView> {
    if kind == 0x0020 && acc.xor_mapped is None {
        match read_mapped_address(value, transaction_id) {
            Err(e) => Err(e),
            Ok(a) => Ok(ScanView { xor_mapped: Some(a), ..acc }),
        }
    } else if kind == 0x0009 && message_type == 0x0111 {
        match read_error_code(value) {
            Err(e) => Err(e),
            Ok(c) => Ok(ScanView { error_code: Some(c), ..acc }),
        }
    } else if kind < 0x8000 && !is_known_required(kind) {
        Err(malformed("неизвестный обязательный STUN attribute: 0x"@ + text::hex4(kind)))
    } else {
        Ok(acc)
    }
}

/// What is known after one more attribute.
pub open spec fn take_attribute(
    acc: ScanView,
    message_type: u16,
    kind: u16,
    value: Seq<u8>,
    transaction_id: Seq<u8>,
) -> Result<ScanView, ParseErrorView> {
    let understood = if acc.semantic {
        understand(acc, message_type, kind, value, transaction_id)
    } else {
        Ok(acc)
    };
    match understood {
        Err(e) => Err(e),
        Ok(next) => Ok(ScanView { semantic: next.semantic && !is_integrity(kind), ..next }),
    }
}

/// The attributes from `offset` to the end of the packet, each a type, a length,
/// a value and padding to a multiple of four bytes.
pub open spec fn scan(
    packet: Seq<u8>,
    offset: int,
    acc: ScanView,
    message_type: u16,
    transaction_id: Seq<u8>,
) -> Result<ScanView, ParseErrorView>
    decreases packet.len() - offset,
{
    if offset >= packet.len() {
        Ok(acc)
    } else if offset + 4 > packet.len() {
        Err(malformed("обрезанный заголовок STUN attribute"@))
    } else {
        let kind = bytes::be16(packet[offset], packet[offset + 1]);
        let len = bytes::be16(packet[offset + 2], packet[offset + 3]) as int;
        let value_end = offset + 4 + len;
        let next_offset = offset + 4 + (len + 3) / 4 * 4;
        if value_end > packet.len() {
            Err(
                malformed(
                    "STUN attribute 0x"@ + text::hex4(kind) + " выходит за границу message"@,
                ),
            )
        } else {
            match take_attribute(
                acc,
                message_type,
                kind,
                packet.subrange(offset + 4, value_end),
                transaction_id,
            ) {
                Err(e) => Err(e),
                Ok(next) => if next_offset > packet.len() {
                    Err(malformed("обрезанный padding STUN attribute"@))
                } else {
                    scan(packet, next_offset, next, message_type, transaction_id)
                },
            }
        }
    }
}

/// What is wrong with the header of a Binding response, if anything is.
pub open spec fn header_error(packet: Seq<u8>, transaction_id: Seq<u8>) -> Option<ParseErrorView> {
    let message_type = bytes::be16(packet[0], packet[1]);
    let message_len = bytes::be16(packet[2], packet[3]) as nat;
    if packet.len() < 20 {
        Some(malformed("STUN-пакет короче 20-байтного заголовка"@))
    } else if packet[0] >= 0x40 {
        Some(malformed("старшие два бита STUN message type должны быть нулевыми"@))
    } else if message_len % 4 != 0 {
        Some(malformed("длина STUN message не кратна четырём"@))
    } else if 20 + message_len != packet.len() {
        Some(
            malformed(
                "заголовок объявляет "@ + text::decimal(20 + message_len) + " байт, получено "@
                    + text::decimal(packet.len()),
            ),
        )
    } else if bytes::be32(packet[4], packet[5], packet[6], packet[7]) != MAGIC_COOKIE {
        Some(ParseErrorView::NotThisTransaction("неверный STUN magic cookie"@))
    } else if packet.subrange(8, 20) != transaction_id {
        Some(ParseErrorView::NotThisTransaction("STUN transaction ID не совпадает"@))
    } else if message_type != 0x0101 && message_type != 0x0111 {
        Some(malformed("неожиданный STUN message type: 0x"@ + text::hex4(message_type)))
    } else {
        None
    }
}

/// Nothing is known yet and attributes have a meaning.
pub open spec fn scan_start() -> ScanView {
    ScanView { xor_mapped: None, error_code: None, semantic: true }
}

/// What a message means once its attributes are known.
pub open spec fn conclude(message_type: u16, found: ScanView) -> Result<
    BindingResponseView,
    ParseErrorView,
> {
    if message_type == 0x0111 {
        match found.error_code {
            None => Err(malformed("Binding Error не содержит ERROR-CODE"@)),
            Some((code, reason)) => Ok(BindingResponseView::ServerError { code, reason }),
        }
    } else {
        match found.xor_mapped {
            None => Err(malformed("Binding Success не содержит XOR-MAPPED-ADDRESS"@)),
            Some(a) => Ok(BindingResponseView::Success(a)),
        }
    }
}

/// The Binding response in a packet.
pub open spec fn read_binding_response(packet: Seq<u8>, transaction_id: Seq<u8>) -> Result<
    BindingResponseView,
    ParseErrorView,
> {
    let message_type = bytes::be16(packet[0], packet[1]);
    match header_error(packet, transaction_id) {
        Some(e) => Err(e),
        None => match scan(packet, 20, scan_start(), message_type, transaction_id) {
            Err(e) => Err(e),
            Ok(found) => conclude(message_type, found),
        },
    }
}

struct Scan {
    xor_mapped: Option<SocketAddress>,
    error_code: Option<(u16, String)>,
    semantic: bool,
}

impl View for Scan {
    type V = ScanView;

    closed spec fn view(&self) -> ScanView {
        ScanView {
            xor_mapped: self.xor_mapped,
            error_code: match self.error_code {
                Some((code, reason)) => Some((code, reason@)),
                None => None,
            },
            semantic: self.semantic,
        }
    }
}

fn parse_attribute(
    acc: Scan,
    message_type: u16,
    kind: u16,
    value: &[u8],
    transaction_id: &TransactionId,
) -> (r: Result<Scan, ParseError>)
    ensures
        result_view(r) == take_attribute(acc@, message_type, kind, value@, transaction_id@),
{
    let mut next: Scan = acc;
    if next.semantic {
        if kind == ATTR_XOR_MAPPED_ADDRESS && next.xor_mapped.is_none() {
            match parse_mapped_address(value, *transaction_id) {
                Err(e) => {
                    return Err(e);
                },
                Ok(a) => {
                    next.xor_mapped = Some(a);
                },
            }
        } else if kind == ATTR_ERROR_CODE && message_type == BINDING_ERROR {
            match parse_error_code(value) {
                Err(e) => {
                    return Err(e);
                },
                Ok(c) => {
                    next.error_code = Some(c);
                },
            }
        } else if kind < 0x8000 && !is_known_required_attribute(kind) {
            let mut m: String = "неизвестный обязательный STUN attribute: 0x".to_owned();
            m.append(hex4_text(kind).as_str());
            return Err(ParseError::Malformed(m));
        }
    }
    if kind == ATTR_MESSAGE_INTEGRITY || kind == ATTR_MESSAGE_INTEGRITY_SHA256 {
        next.semantic = false;
    }
    Ok(next)
}

fn parse_attributes(packet: &[u8], message_type: u16, transaction_id: &TransactionId) -> (r: Result<
    Scan,
    ParseError,
>)
    requires
        20 <= packet@.len() <= 20 + 0xffff,
    ensures
        result_view(r) == scan(packet@, 20, scan_start(), message_type, transaction_id@),
{
    let end: usize = packet.len();
    let mut offset: usize = 20;
    let mut acc: Scan = Scan { xor_mapped: None, error_code: None, semantic: true };
    while offset < end
        invariant
            end == packet@.len(),
            20 <= offset <= end <= 20 + 0xffff,
            scan(packet@, 20, scan_start(), message_type, transaction_id@) == scan(
                packet@,
                offset as int,
                acc@,
                message_type,
                transaction_id@,
            ),
        decreases end - offset,
    {
        let header_end: usize = offset + 4;
        if header_end > end {
            return Err(malformed_error("обрезанный заголовок STUN attribute"));
        }
        let kind: u16 = join16(packet[offset], packet[offset + 1]);
        let len: usize = join16(packet[offset + 2], packet[offset + 3]) as usize;
        let value_end: usize = header_end + len;
        if value_end > end {
            let mut m: String = "STUN attribute 0x".to_owned();
            m.append(hex4_text(kind).as_str());
            m.append(" выходит за границу message");
            return Err(ParseError::Malformed(m));
        }
        match parse_attribute(
            acc,
            message_type,
            kind,
            slice_subrange(packet, header_end, value_end),
            transaction_id,
        ) {
            Err(e) => {
                return Err(e);
            },
            Ok(next) => {
                acc = next;
            },
        }
        let next_offset: usize = header_end + (len + 3) / 4 * 4;
        if next_offset > end {
            return Err(malformed_error("обрезанный padding STUN attribute"));
        }
        offset = next_offset;
    }
    Ok(acc)
}

fn check_header(packet: &[u8], transaction_id: &TransactionId) -> (r: Result<(), ParseError>)
    ensures
        match r {
            Ok(_) => header_error(packet@, transaction_id@) is None,
            Err(e) => header_error(packet@, transaction_id@) == Some(e@),
        },
{
    if packet.len() < 20 {
        return Err(malformed_error("STUN-пакет короче 20-байтного заголовка"));
    }
    if packet[0] >= 0x40 {
        return Err(malformed_error("старшие два бита STUN message type должны быть нулевыми"));
    }
    let message_type: u16 = join16(packet[0], packet[1]);
    let message_len: usize = join16(packet[2], packet[3]) as usize;
    if message_len % 4 != 0 {
        return Err(malformed_error("длина STUN message не кратна четырём"));
    }
    if 20 + message_len != packet.len() {
        let mut m: String = "заголовок объявляет ".to_owned();
        m.append(decimal_text((20 + message_len) as u64).as_str());
        m.append(" байт, получено ");
        m.append(decimal_text(packet.len() as u64).as_str());
        return Err(ParseError::Malformed(m));
    }
    if join32(packet[4], packet[5], packet[6], packet[7]) != MAGIC_COOKIE {
        return Err(ParseError::NotThisTransaction("неверный STUN magic cookie".to_owned()));
    }
    if !bytes_equal(slice_subrange(packet, 8, 20), transaction_id.as_slice()) {
        return Err(ParseError::NotThisTransaction("STUN transaction ID не совпадает".to_owned()));
    }
    if message_type != BINDING_SUCCESS && message_type != BINDING_ERROR {
        let mut m: String = "неожиданный STUN message type: 0x".to_owned();
        m.append(hex4_text(message_type).as_str());
        return Err(ParseError::Malformed(m));
    }
    Ok(())
}

/// Reads the response to the Binding request with the given transaction
/// identifier.
pub fn parse_binding_response(packet: &[u8], transaction_id: TransactionId) -> (r: Result<
    BindingResponse,
    ParseError,
>)
    ensures
        result_view(r) == read_binding_response(packet@, transaction_id@),
{
    match check_header(packet, &transaction_id) {
        Err(e) => {
            return Err(e);
        },
        Ok(_) => {},
    }
    let message_type: u16 = join16(packet[0], packet[1]);
    let found: Scan = match parse_attributes(packet, message_type, &transaction_id) {
        Err(e) => {
            return Err(e);
        },
        Ok(found) => found,
    };
    if message_type == BINDING_ERROR {
        match found.error_code {
            None => Err(malformed_error("Binding Error не содержит ERROR-CODE")),
            Some((code, reason)) => Ok(BindingResponse::ServerError { code, reason }),
        }
    } else {
        match found.xor_mapped {
            None => Err(malformed_error("Binding Success не содержит XOR-MAPPED-ADDRESS")),
            Some(a) => Ok(BindingResponse::Success(a)),
        }
    }
}

} // verus!
