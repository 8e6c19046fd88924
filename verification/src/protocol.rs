//! Session codes and authenticated control packets of the HP2 protocol.

use crate::address;
use crate::address::{format_address, parse_address, SocketAddress};
use crate::bytes;
use crate::bytes::{array_at, bytes_equal, is_all_zero};
use crate::crypto;
use crate::crypto::{hmac_tag, hmac_verify, random_nonzero, sha256};
use crate::text;
use crate::text::{
    char_to_digit, chars_are, decimal_text, digit_to_char, find_char, find_chars, first_token_len,
    from_chars, join_strings, split_chars, to_chars,
};
use vstd::prelude::*;
use vstd::slice::slice_subrange;
use vstd::string::{StrSliceExecFns, StringExecFns};
use vstd::utf8;

verus! {

pub const SESSION_CODE_VERSION: &'static str = "HP2";

pub const MAX_SESSION_CODE_LEN: usize = 512;

pub const MAX_CANDIDATES: usize = 8;

pub const CONTROL_PACKET_LEN: usize = 84;

const SIGNED_HEADER_LEN: usize = 52;

pub type SessionId = [u8; 16];

pub type SessionKey = [u8; 32];

pub type TransactionId = [u8; 12];

// ---------------------------------------------------------------------------
// Errors
// ---------------------------------------------------------------------------

/// Why a session code or a control packet was refused.
#[derive(Debug, PartialEq, Eq)]
pub enum ProtocolError {
    InvalidDescription(String),
    InvalidPacket(String),
    AuthenticationFailed,
}

/// The mathematical form of a `ProtocolError`.
pub enum ProtocolErrorView {
    InvalidDescription(Seq<char>),
    InvalidPacket(Seq<char>),
    AuthenticationFailed,
}

impl View for ProtocolError {
    type V = ProtocolErrorView;

    open spec fn view(&self) -> ProtocolErrorView {
        match self {
            ProtocolError::InvalidDescription(m) => ProtocolErrorView::InvalidDescription(m@),
            ProtocolError::InvalidPacket(m) => ProtocolErrorView::InvalidPacket(m@),
            ProtocolError::AuthenticationFailed => ProtocolErrorView::AuthenticationFailed,
        }
    }
}

impl ProtocolErrorView {
    /// What the error says.
    pub open spec fn message(self) -> Seq<char> {
        match self {
            ProtocolErrorView::InvalidDescription(m) => m,
            ProtocolErrorView::InvalidPacket(m) => m,
            ProtocolErrorView::AuthenticationFailed => "HMAC authentication failed"@,
        }
    }
}

impl ProtocolError {
    /// What the error says.
    pub fn message(&self) -> (m: String)
        ensures
            m@ == self@.message(),
    {
        match self {
            ProtocolError::InvalidDescription(m) => m.clone(),
            ProtocolError::InvalidPacket(m) => m.clone(),
            ProtocolError::AuthenticationFailed => "HMAC authentication failed".to_owned(),
        }
    }
}

/// A description error with this message.
pub open spec fn bad_description(message: Seq<char>) -> ProtocolErrorView {
    ProtocolErrorView::InvalidDescription(message)
}

/// A packet error with this message.
pub open spec fn bad_packet(message: Seq<char>) -> ProtocolErrorView {
    ProtocolErrorView::InvalidPacket(message)
}

fn description_error(message: &str) -> (e: ProtocolError)
    ensures
        e@ == bad_description(message@),
{
    ProtocolError::InvalidDescription(message.to_owned())
}

fn packet_error(message: &str) -> (e: ProtocolError)
    ensures
        e@ == bad_packet(message@),
{
    ProtocolError::InvalidPacket(message.to_owned())
}

/// The mathematical form of a result.
pub open spec fn result_view<T: View, E: View>(r: Result<T, E>) -> Result<T::V, E::V> {
    match r {
        Ok(v) => Ok(v@),
        Err(e) => Err(e@),
    }
}

// ---------------------------------------------------------------------------
// Candidates
// ---------------------------------------------------------------------------

/// How a candidate address became known.
#[derive(Clone, Copy, Debug, PartialEq, Eq, Hash, Structural)]
pub enum CandidateKind {
    Host,
    ServerReflexive,
    PeerReflexive,
}

impl CandidateKind {
    /// The letter that stands for the kind in a session code.
    pub open spec fn spec_code(self) -> char {
        match self {
            CandidateKind::Host => 'h',
            CandidateKind::ServerReflexive => 's',
            CandidateKind::PeerReflexive => 'p',
        }
    }

    /// The kind that a session code names. Peer-reflexive candidates are learned
    /// on the wire and are never accepted from a pasted code.
    pub open spec fn spec_parse(value: Seq<char>) -> Result<CandidateKind, ProtocolErrorView> {
        if value == seq!['h'] {
            Ok(CandidateKind::Host)
        } else if value == seq!['s'] {
            Ok(CandidateKind::ServerReflexive)
        } else if value == seq!['p'] {
            Err(bad_description("peer-reflexive candidate нельзя объявлять в коде"@))
        } else {
            Err(bad_description("неизвестный тип candidate: "@ + value))
        }
    }

    /// The name of the kind as it is shown to people.
    pub open spec fn spec_label(self) -> Seq<char> {
        match self {
            CandidateKind::Host => "LAN"@,
            CandidateKind::ServerReflexive => "PUBLIC"@,
            CandidateKind::PeerReflexive => "PEER-REFLEXIVE"@,
        }
    }

    /// The letter that stands for the kind in a session code.
    pub fn code(self) -> (c: char)
        ensures
            c == self.spec_code(),
    {
        match self {
            CandidateKind::Host => 'h',
            CandidateKind::ServerReflexive => 's',
            CandidateKind::PeerReflexive => 'p',
        }
    }

    /// The kind that a session code names.
    pub fn parse(value: &[char]) -> (r: Result<CandidateKind, ProtocolError>)
        ensures
            match r {
                Ok(kind) => CandidateKind::spec_parse(value@) == Ok::<_, ProtocolErrorView>(kind),
                Err(e) => CandidateKind::spec_parse(value@) == Err::<CandidateKind, _>(e@),
            },
    {
        if value.len() == 1 {
            assert(value@ =~= seq![value@[0]]);
            if value[0] == 'h' {
                return Ok(CandidateKind::Host);
            }
            if value[0] == 's' {
                assert(value@[0] != seq!['h'][0]);
                return Ok(CandidateKind::ServerReflexive);
            }
            if value[0] == 'p' {
                assert(value@[0] != seq!['h'][0] && value@[0] != seq!['s'][0]);
                return Err(description_error("peer-reflexive candidate нельзя объявлять в коде"));
            }
            assert(value@[0] != seq!['h'][0] && value@[0] != seq!['s'][0] && value@[0] != seq![
                'p',
            ][0]);
        }
        let mut m: String = "неизвестный тип candidate: ".to_owned();
        m.append(from_chars(value).as_str());
        Err(ProtocolError::InvalidDescription(m))
    }

    /// The name of the kind as it is shown to people.
    pub fn label(self) -> (s: &'static str)
        ensures
            s@ == self.spec_label(),
    {
        match self {
            CandidateKind::Host => "LAN",
            CandidateKind::ServerReflexive => "PUBLIC",
            CandidateKind::PeerReflexive => "PEER-REFLEXIVE",
        }
    }
}

/// An address at which a peer may be reachable.
#[derive(Clone, Copy, Debug, PartialEq, Eq, Hash, Structural)]
pub struct Candidate {
    pub kind: CandidateKind,
    pub address: SocketAddress,
}

/// Why an address cannot be a candidate.
pub open spec fn address_error(a: SocketAddress) -> Option<ProtocolErrorView> {
    if a.spec_port() == 0 {
        Some(bad_description("candidate port не может быть нулевым"@))
    } else {
        match a {
            SocketAddress::V4(v4) => if address::v4_is_unspecified(v4.ip)
                || address::v4_is_multicast(v4.ip) || address::v4_is_broadcast(v4.ip) {
                Some(bad_description("unspecified/multicast/broadcast IPv4 candidate запрещён"@))
            } else {
                None
            },
            SocketAddress::V6(_) => Some(
                bad_description("эта итерация HP2 поддерживает только IPv4"@),
            ),
        }
    }
}

fn validate_address(a: SocketAddress) -> (r: Result<(), ProtocolError>)
    ensures
        match r {
            Ok(_) => address_error(a) is None,
            Err(e) => address_error(a) == Some(e@),
        },
{
    if a.port() == 0 {
        return Err(description_error("candidate port не может быть нулевым"));
    }
    match a {
        SocketAddress::V4(v4) => {
            if v4.ip == 0 || (0xe000_0000u32 <= v4.ip && v4.ip <= 0xefff_ffffu32) || v4.ip
                == 0xffff_ffffu32 {
                Err(
                    description_error(
                        "unspecified/multicast/broadcast IPv4 candidate запрещён",
                    ),
                )
            } else {
                Ok(())
            }
        },
        SocketAddress::V6(_) => Err(
            description_error("эта итерация HP2 поддерживает только IPv4"),
        ),
    }
}

/// An earlier candidate than `i` has the address of candidate `i`.
pub open spec fn repeats_earlier(cs: Seq<Candidate>, i: int) -> bool {
    exists|j: int| 0 <= j < i && (#[trigger] cs[j]).address == cs[i].address
}

/// What is wrong with candidate `i` of the list.
pub open spec fn candidate_error(cs: Seq<Candidate>, i: int) -> Option<ProtocolErrorView> {
    match address_error(cs[i].address) {
        Some(e) => Some(e),
        None => if cs[i].kind == CandidateKind::PeerReflexive {
            Some(bad_description("peer-reflexive candidate нельзя объявлять в коде"@))
        } else if repeats_earlier(cs, i) {
            Some(
                bad_description(
                    "candidate "@ + address::address_text(cs[i].address) + " повторяется"@,
                ),
            )
        } else {
            None
        },
    }
}

/// What is wrong with the first bad candidate from index `i` on.
pub open spec fn candidates_error(cs: Seq<Candidate>, i: int) -> Option<ProtocolErrorView>
    decreases cs.len() - i,
{
    if i >= cs.len() {
        None
    } else {
        match candidate_error(cs, i) {
            Some(e) => Some(e),
            None => candidates_error(cs, i + 1),
        }
    }
}

/// What is wrong with a list of candidates: its length, or its first bad member.
pub open spec fn candidate_list_error(cs: Seq<Candidate>) -> Option<ProtocolErrorView> {
    if cs.len() == 0 || cs.len() > MAX_CANDIDATES {
        Some(bad_description("нужно от 1 до 8 candidates"@))
    } else {
        candidates_error(cs, 0)
    }
}

fn is_repeated(cs: &Vec<Candidate>, i: usize) -> (r: bool)
    requires
        i < cs@.len(),
    ensures
        r == repeats_earlier(cs@, i as int),
{
    let mut j: usize = 0;
    while j < i
        invariant
            j <= i < cs@.len(),
            forall|k: int| 0 <= k < j ==> (#[trigger] cs@[k]).address != cs@[i as int].address,
        decreases i - j,
    {
        if cs[j].address == cs[i].address {
            assert(cs@[j as int].address == cs@[i as int].address);
            return true;
        }
        j += 1;
    }
    false
}

fn validate_candidates(cs: &Vec<Candidate>) -> (r: Result<(), ProtocolError>)
    ensures
        match r {
            Ok(_) => candidates_error(cs@, 0) is None,
            Err(e) => candidates_error(cs@, 0) == Some(e@),
        },
{
    let mut i: usize = 0;
    while i < cs.len()
        invariant
            i <= cs@.len(),
            candidates_error(cs@, 0) == candidates_error(cs@, i as int),
        decreases cs@.len() - i,
    {
        let c: Candidate = cs[i];
        match validate_address(c.address) {
            Err(e) => {
                return Err(e);
            },
            Ok(_) => {},
        }
        if c.kind == CandidateKind::PeerReflexive {
            return Err(description_error("peer-reflexive candidate нельзя объявлять в коде"));
        }
        if is_repeated(cs, i) {
            let mut m: String = "candidate ".to_owned();
            m.append(format_address(c.address).as_str());
            m.append(" повторяется");
            return Err(ProtocolError::InvalidDescription(m));
        }
        i += 1;
    }
    Ok(())
}

/// The kind under which the source address was advertised, the first entry
/// deciding, or peer-reflexive where it was not.
pub open spec fn kind_for_source(source: SocketAddress, advertised: Seq<Candidate>) -> CandidateKind
    decreases advertised.len(),
{
    if advertised.len() == 0 {
        CandidateKind::PeerReflexive
    } else if advertised[0].address == source {
        advertised[0].kind
    } else {
        kind_for_source(source, advertised.drop_first())
    }
}

/// The kind under which a source address was advertised.
pub fn candidate_kind_for_source(source: SocketAddress, advertised: &[Candidate]) -> (kind:
    CandidateKind)
    ensures
        kind == kind_for_source(source, advertised@),
{
    let mut i: usize = 0;
    assert(advertised@.skip(0) =~= advertised@);
    while i < advertised.len()
        invariant
            i <= advertised@.len(),
            kind_for_source(source, advertised@.skip(i as int)) == kind_for_source(
                source,
                advertised@,
            ),
        decreases advertised@.len() - i,
    {
        assert(advertised@.skip(i as int).drop_first() =~= advertised@.skip(i + 1));
        if advertised[i].address == source {
            return advertised[i].kind;
        }
        i += 1;
    }
    CandidateKind::PeerReflexive
}

// ---------------------------------------------------------------------------
// Peer descriptions
// ---------------------------------------------------------------------------

/// What one side tells the other in its session code.
#[derive(Clone, Debug, PartialEq, Eq)]
pub struct PeerDescription {
    pub session_id: SessionId,
    pub key: SessionKey,
    pub candidates: Vec<Candidate>,
}

/// The mathematical form of a `PeerDescription`.
#[verifier::ext_equal]
pub struct PeerDescriptionView {
    pub session_id: Seq<u8>,
    pub key: Seq<u8>,
    pub candidates: Seq<Candidate>,
}

impl View for PeerDescription {
    type V = PeerDescriptionView;

    open spec fn view(&self) -> PeerDescriptionView {
        PeerDescriptionView {
            session_id: self.session_id@,
            key: self.key@,
            candidates: self.candidates@,
        }
    }
}

impl PeerDescriptionView {
    /// What is wrong with the description.
    pub open spec fn error(self) -> Option<ProtocolErrorView> {
        if bytes::all_zero(self.session_id) {
            Some(bad_description("session id не может быть нулевым"@))
        } else if bytes::all_zero(self.key) {
            Some(bad_description("session key не может быть нулевым"@))
        } else {
            candidate_list_error(self.candidates)
        }
    }

    /// What is wrong with the description as that of the other side.
    pub open spec fn remote_error(self, local: PeerDescriptionView) -> Option<ProtocolErrorView> {
        match self.error() {
            Some(e) => Some(e),
            None => if self.session_id == local.session_id {
                Some(bad_description("это собственный session code (session id совпадает)"@))
            } else if self.key == local.key {
                Some(bad_description("это собственный session code (session key совпадает)"@))
            } else {
                None
            },
        }
    }

    /// The identifier and the key have their fixed lengths.
    pub open spec fn sized(self) -> bool {
        self.session_id.len() == 16 && self.key.len() == 32
    }
}

/// The first four bytes of the SHA-256 digest of the text.
pub open spec fn spec_checksum(value: Seq<char>) -> Seq<u8> {
    crypto::sha256_digest(utf8::encode_utf8(value))@.take(4)
}

fn checksum(value: &str) -> (sum: [u8; 4])
    ensures
        sum@ == spec_checksum(value@),
{
    let digest: [u8; 32] = sha256(value.as_bytes());
    let sum: [u8; 4] = array_at(digest.as_slice(), 0);
    assert(sum@ =~= digest@.take(4));
    sum
}

// ---------------------------------------------------------------------------
// Hexadecimal
// ---------------------------------------------------------------------------

/// Two lower-case digits for each byte.
pub open spec fn hex_text(value: Seq<u8>) -> Seq<char> {
    Seq::new(
        2 * value.len(),
        |i: int|
            text::digit_char(
                if i % 2 == 0 {
                    (value[i / 2] / 16) as nat
                } else {
                    (value[i / 2] % 16) as nat
                },
            ),
    )
}

/// The byte that two characters stand for: two hexadecimal digits, or a plus
/// sign and one.
pub open spec fn hex_pair(a: char, b: char) -> Option<nat> {
    match text::digit_value(b, 16) {
        None => None,
        Some(lo) => if a == '+' {
            Some(lo)
        } else {
            match text::digit_value(a, 16) {
                None => None,
                Some(hi) => Some(hi * 16 + lo),
            }
        },
    }
}

/// The `n` bytes that a text of `2 * n` characters stands for. The label names
/// the field in the errors.
pub open spec fn hex_bytes(value: Seq<char>, n: nat, label: Seq<char>) -> Result<
    Seq<u8>,
    ProtocolErrorView,
> {
    if value.len() != 2 * n || !utf8::is_ascii_chars(value) {
        Err(
            bad_description(
                label + " должен содержать "@ + text::decimal(2 * n) + " hex-символов"@,
            ),
        )
    } else if exists|i: int|
        0 <= i < n && (#[trigger] hex_pair(value[2 * i], value[2 * i + 1])) is None {
        Err(bad_description(label + " содержит не-hex символ"@))
    } else {
        Ok(Seq::new(n, |i: int| hex_pair(value[2 * i], value[2 * i + 1])->0 as u8))
    }
}

/// Writes bytes in hexadecimal.
pub fn hex_encode(value: &[u8]) -> (s: String)
    ensures
        s@ == hex_text(value@),
{
    let mut s: String = String::new();
    let mut i: usize = 0;
    while i < value.len()
        invariant
            i <= value@.len(),
            s@ =~= hex_text(value@.take(i as int)),
        decreases value@.len() - i,
    {
        let byte: u8 = value[i];
        s.push(digit_to_char(byte / 16));
        s.push(digit_to_char(byte % 16));
        i += 1;
        assert(s@ =~= hex_text(value@.take(i as int)));
    }
    assert(value@.take(i as int) =~= value@);
    s
}

fn is_ascii(value: &[char]) -> (r: bool)
    ensures
        r == utf8::is_ascii_chars(value@),
{
    let mut i: usize = 0;
    while i < value.len()
        invariant
            i <= value@.len(),
            forall|j: int| 0 <= j < i ==> '\0' <= #[trigger] value@[j] <= '\u{7f}',
        decreases value@.len() - i,
    {
        let c: char = value[i];
        if !('\0' <= c && c <= '\u{7f}') {
            return false;
        }
        i += 1;
    }
    true
}

fn parse_hex_pair(a: char, b: char) -> (r: Option<u8>)
    ensures
        match r {
            Some(v) => hex_pair(a, b) == Some(v as nat),
            None => hex_pair(a, b) is None,
        },
{
    match char_to_digit(b, 16) {
        None => None,
        Some(lo) => {
            if a == '+' {
                Some(lo as u8)
            } else {
                match char_to_digit(a, 16) {
                    None => None,
                    Some(hi) => Some((hi * 16 + lo) as u8),
                }
            }
        },
    }
}

/// Reads an array of bytes in hexadecimal, digits in either case.
pub fn hex_decode_array<const N: usize>(value: &[char], label: &str) -> (r: Result<
    [u8; N],
    ProtocolError,
>)
    requires
        2 * N <= usize::MAX,
    ensures
        result_view(r) == hex_bytes(value@, N as nat, label@),
{
    if value.len() != N * 2 || !is_ascii(value) {
        let mut m: String = label.to_owned();
        m.append(" должен содержать ");
        m.append(decimal_text((N * 2) as u64).as_str());
        m.append(" hex-символов");
        return Err(ProtocolError::InvalidDescription(m));
    }
    let mut output: [u8; N] = [0u8; N];
    let mut i: usize = 0;
    while i < N
        invariant
            i <= N,
            2 * N <= usize::MAX,
            value@.len() == 2 * N,
            utf8::is_ascii_chars(value@),
            forall|j: int|
                0 <= j < i ==> hex_pair(value@[2 * j], value@[2 * j + 1]) == Some(
                    #[trigger] output@[j] as nat,
                ),
        decreases N - i,
    {
        match parse_hex_pair(value[2 * i], value[2 * i + 1]) {
            Some(byte) => {
                output[i] = byte;
            },
            None => {
                let mut m: String = label.to_owned();
                m.append(" содержит не-hex символ");
                assert(hex_pair(value@[2 * (i as int)], value@[2 * (i as int) + 1]) is None);
                return Err(ProtocolError::InvalidDescription(m));
            },
        }
        i += 1;
    }
    proof {
        assert forall|j: int| 0 <= j < N implies (#[trigger] hex_pair(
            value@[2 * j],
            value@[2 * j + 1],
        )) is Some by {
            assert(hex_pair(value@[2 * j], value@[2 * j + 1]) == Some(output@[j] as nat));
        }
        assert(output@ =~= Seq::new(
            N as nat,
            |i: int| hex_pair(value@[2 * i], value@[2 * i + 1])->0 as u8,
        ));
    }
    Ok(output)
}

// ---------------------------------------------------------------------------
// Session codes
// ---------------------------------------------------------------------------

/// `kind@address`
pub open spec fn candidate_text(c: Candidate) -> Seq<char> {
    seq![c.kind.spec_code(), '@'] + address::address_text(c.address)
}

/// The candidates with commas between them.
pub open spec fn candidates_text(cs: Seq<Candidate>) -> Seq<char> {
    text::join(cs.map_values(|c: Candidate| candidate_text(c)), seq![','])
}

/// The four fields that the checksum covers.
pub open spec fn code_fields(d: PeerDescriptionView) -> Seq<Seq<char>> {
    seq!["HP2"@, hex_text(d.session_id), hex_text(d.key), candidates_text(d.candidates)]
}

/// The part of the session code that the checksum covers.
pub open spec fn code_prefix(d: PeerDescriptionView) -> Seq<char> {
    text::join(code_fields(d), seq!['|'])
}

/// The session code of a description.
pub open spec fn code_text(d: PeerDescriptionView) -> Seq<char> {
    code_prefix(d) + seq!['|'] + hex_text(spec_checksum(code_prefix(d)))
}

/// The session code in a line of text: from the first `HP2|` up to the next
/// ASCII white space.
pub open spec fn spec_extract_code(input: Seq<char>) -> Result<Seq<char>, ProtocolErrorView> {
    match text::find(input, "HP2|"@) {
        None => Err(bad_description("в строке не найдено начало HP2|"@)),
        Some(start) => Ok(text::first_token(input.skip(start))),
    }
}

/// One candidate of a session code.
pub open spec fn read_candidate(value: Seq<char>) -> Result<Candidate, ProtocolErrorView> {
    match text::find(value, seq!['@']) {
        None => Err(
            bad_description("candidate должен иметь вид type@ip:port: "@ + value),
        ),
        Some(k) => match CandidateKind::spec_parse(value.take(k)) {
            Err(e) => Err(e),
            Ok(kind) => match address::read_address(value.skip(k + 1)) {
                None => Err(
                    bad_description(
                        "некорректный candidate "@ + value.skip(k + 1)
                            + ": invalid socket address syntax"@,
                    ),
                ),
                Some(address) => Ok(Candidate { kind, address }),
            },
        },
    }
}

/// All candidates of a session code, or what is wrong with the first bad one.
pub open spec fn read_candidates(pieces: Seq<Seq<char>>) -> Result<
    Seq<Candidate>,
    ProtocolErrorView,
>
    decreases pieces.len(),
{
    if pieces.len() == 0 {
        Ok(Seq::empty())
    } else {
        match read_candidates(pieces.drop_last()) {
            Err(e) => Err(e),
            Ok(cs) => match read_candidate(pieces.last()) {
                Err(e) => Err(e),
                Ok(c) => Ok(cs.push(c)),
            },
        }
    }
}

/// The description that five fields of a session code give, the checksum
/// having been found right.
pub open spec fn read_fields(parts: Seq<Seq<char>>) -> Result<
    PeerDescriptionView,
    ProtocolErrorView,
> {
    match hex_bytes(parts[1], 16, "session id"@) {
        Err(e) => Err(e),
        Ok(session_id) => match hex_bytes(parts[2], 32, "session key"@) {
            Err(e) => Err(e),
            Ok(key) => {
                let pieces = text::split(parts[3], ',');
                if pieces.len() > MAX_CANDIDATES {
                    Err(bad_description("нужно от 1 до 8 candidates"@))
                } else {
                    match read_candidates(pieces) {
                        Err(e) => Err(e),
                        Ok(candidates) => {
                            let d = PeerDescriptionView { session_id, key, candidates };
                            match d.error() {
                                Some(e) => Err(e),
                                None => Ok(d),
                            }
                        },
                    }
                }
            },
        },
    }
}

/// The description that a session code stands for.
pub open spec fn read_code(code: Seq<char>) -> Result<PeerDescriptionView, ProtocolErrorView> {
    let parts = text::split(code, '|');
    if utf8::encode_utf8(code).len() > MAX_SESSION_CODE_LEN {
        Err(bad_description("код длиннее 512 байт"@))
    } else if parts.len() != 5 || parts[0] != "HP2"@ {
        Err(bad_description("ожидался код HP2 из пяти частей"@))
    } else {
        match hex_bytes(parts[4], 4, "checksum"@) {
            Err(e) => Err(e),
            Ok(expected) => if spec_checksum(text::join(parts.take(4), seq!['|'])) != expected {
                Err(
                    bad_description(
                        "checksum не совпадает: код повреждён или скопирован не полностью"@,
                    ),
                )
            } else {
                read_fields(parts)
            },
        }
    }
}

/// The description in a pasted line of text.
pub open spec fn read_input(input: Seq<char>) -> Result<PeerDescriptionView, ProtocolErrorView> {
    match spec_extract_code(input) {
        Err(e) => Err(e),
        Ok(code) => read_code(code),
    }
}

fn extract_code<'a>(input: &'a str) -> (r: Result<&'a str, ProtocolError>)
    ensures
        match r {
            Ok(code) => spec_extract_code(input@) == Ok::<_, ProtocolErrorView>(code@),
            Err(e) => spec_extract_code(input@) == Err::<Seq<char>, _>(e@),
        },
{
    let chars: Vec<char> = to_chars(input);
    let mark: Vec<char> = to_chars("HP2|");
    match find_chars(chars.as_slice(), mark.as_slice()) {
        None => Err(description_error("в строке не найдено начало HP2|")),
        Some(start) => {
            let rest: &[char] = slice_subrange(chars.as_slice(), start, chars.len());
            assert(rest@ =~= input@.skip(start as int));
            let n: usize = first_token_len(rest);
            let code: &str = input.substring_char(start, start + n);
            assert(code@ =~= rest@.take(n as int));
            Ok(code)
        },
    }
}

fn parse_candidate(value: &[char]) -> (r: Result<Candidate, ProtocolError>)
    ensures
        match r {
            Ok(c) => read_candidate(value@) == Ok::<_, ProtocolErrorView>(c),
            Err(e) => read_candidate(value@) == Err::<Candidate, _>(e@),
        },
{
    match find_char(value, '@') {
        None => {
            let mut m: String = "candidate должен иметь вид type@ip:port: ".to_owned();
            m.append(from_chars(value).as_str());
            Err(ProtocolError::InvalidDescription(m))
        },
        Some(k) => {
            let n: usize = value.len();
            let kind_text: &[char] = slice_subrange(value, 0, k);
            let address_text: &[char] = slice_subrange(value, k + 1, n);
            assert(kind_text@ =~= value@.take(k as int));
            assert(address_text@ =~= value@.skip(k + 1));
            match CandidateKind::parse(kind_text) {
                Err(e) => Err(e),
                Ok(kind) => match parse_address(address_text) {
                    None => {
                        let mut m: String = "некорректный candidate ".to_owned();
                        m.append(from_chars(address_text).as_str());
                        m.append(": invalid socket address syntax");
                        Err(ProtocolError::InvalidDescription(m))
                    },
                    Some(address) => Ok(Candidate { kind, address }),
                },
            }
        },
    }
}

/// A prefix with a bad candidate decides the whole list.
proof fn lemma_read_candidates_prefix(pieces: Seq<Seq<char>>, k: int)
    requires
        0 <= k <= pieces.len(),
        read_candidates(pieces.take(k)) is Err,
    ensures
        read_candidates(pieces) == read_candidates(pieces.take(k)),
    decreases pieces.len() - k,
{
    if k < pieces.len() {
        assert(pieces.take(k + 1).drop_last() =~= pieces.take(k));
        lemma_read_candidates_prefix(pieces, k + 1);
    } else {
        assert(pieces.take(k) =~= pieces);
    }
}

fn parse_candidates(pieces: &Vec<&[char]>) -> (r: Result<Vec<Candidate>, ProtocolError>)
    ensures
        match r {
            Ok(cs) => read_candidates(text::views(pieces@)) == Ok::<_, ProtocolErrorView>(cs@),
            Err(e) => read_candidates(text::views(pieces@)) == Err::<Seq<Candidate>, _>(e@),
        },
{
    let ghost all = text::views(pieces@);
    let mut cs: Vec<Candidate> = Vec::new();
    let mut i: usize = 0;
    assert(all.take(0) =~= Seq::empty());
    while i < pieces.len()
        invariant
            i <= pieces@.len(),
            all == text::views(pieces@),
            read_candidates(all.take(i as int)) == Ok::<_, ProtocolErrorView>(cs@),
        decreases pieces@.len() - i,
    {
        let ghost t = all.take(i + 1);
        assert(t.drop_last() =~= all.take(i as int));
        assert(t.last() == pieces@[i as int]@);
        match parse_candidate(pieces[i]) {
            Err(e) => {
                proof {
                    lemma_read_candidates_prefix(all, i + 1);
                }
                return Err(e);
            },
            Ok(c) => {
                cs.push(c);
            },
        }
        i += 1;
    }
    assert(all.take(i as int) =~= all);
    Ok(cs)
}

fn parse_fields(parts: &Vec<&[char]>) -> (r: Result<PeerDescription, ProtocolError>)
    requires
        parts@.len() == 5,
    ensures
        result_view(r) == read_fields(text::views(parts@)),
{
    let session_id: SessionId = match hex_decode_array::<16>(parts[1], "session id") {
        Err(e) => {
            return Err(e);
        },
        Ok(v) => v,
    };
    let key: SessionKey = match hex_decode_array::<32>(parts[2], "session key") {
        Err(e) => {
            return Err(e);
        },
        Ok(v) => v,
    };
    let pieces: Vec<&[char]> = split_chars(parts[3], ',');
    assert(text::views(pieces@) == text::split(text::views(parts@)[3], ','));
    if pieces.len() > MAX_CANDIDATES {
        return Err(description_error("нужно от 1 до 8 candidates"));
    }
    match parse_candidates(&pieces) {
        Err(e) => Err(e),
        Ok(candidates) => {
            let d: PeerDescription = PeerDescription { session_id, key, candidates };
            match d.validate() {
                Err(e) => Err(e),
                Ok(_) => Ok(d),
            }
        },
    }
}

impl PeerDescription {
    /// Makes a description with a fresh identifier and a fresh key.
    pub fn new(candidates: Vec<Candidate>) -> (r: Result<PeerDescription, ProtocolError>)
        ensures
            match r {
                Ok(d) => d.candidates@ == candidates@ && d@.error() is None,
                Err(e) => candidate_list_error(candidates@) == Some(e@),
            },
            r is Ok <==> candidate_list_error(candidates@) is None,
    {
        let session_id: SessionId = random_nonzero();
        let key: SessionKey = random_nonzero();
        PeerDescription::with_identity(session_id, key, candidates)
    }

    /// Makes a description with the given identifier and key.
    pub fn with_identity(
        session_id: SessionId,
        key: SessionKey,
        candidates: Vec<Candidate>,
    ) -> (r: Result<PeerDescription, ProtocolError>)
        ensures
            ({
                let d = PeerDescriptionView {
                    session_id: session_id@,
                    key: key@,
                    candidates: candidates@,
                };
                match d.error() {
                    Some(e) => result_view(r) == Err::<PeerDescriptionView, _>(e),
                    None => result_view(r) == Ok::<_, ProtocolErrorView>(d),
                }
            }),
    {
        let d: PeerDescription = PeerDescription { session_id, key, candidates };
        match d.validate() {
            Err(e) => Err(e),
            Ok(_) => Ok(d),
        }
    }

    /// Writes the session code.
    pub fn encode(&self) -> (r: Result<String, ProtocolError>)
        ensures
            match self@.error() {
                Some(e) => result_view(r) == Err::<Seq<char>, _>(e),
                None => result_view(r) == Ok::<_, ProtocolErrorView>(code_text(self@)),
            },
    {
        match self.validate() {
            Err(e) => {
                return Err(e);
            },
            Ok(_) => {},
        }
        let mut candidate_texts: Vec<String> = Vec::new();
        let mut i: usize = 0;
        while i < self.candidates.len()
            invariant
                i <= self.candidates@.len(),
                candidate_texts@.len() == i,
                forall|j: int|
                    0 <= j < i ==> (#[trigger] candidate_texts@[j])@ == candidate_text(
                        self.candidates@[j],
                    ),
            decreases self.candidates@.len() - i,
        {
            let c: Candidate = self.candidates[i];
            let mut s: String = String::new();
            s.push(c.kind.code());
            s.push('@');
            s.append(format_address(c.address).as_str());
            assert(s@ =~= candidate_text(c));
            candidate_texts.push(s);
            i += 1;
        }
        proof {
            reveal_strlit(",");
            reveal_strlit("|");
            assert(","@ =~= seq![',']);
            assert("|"@ =~= seq!['|']);
            assert(text::string_views(candidate_texts@) =~= self.candidates@.map_values(
                |c: Candidate| candidate_text(c),
            ));
        }
        let fields: Vec<String> = vec![
            SESSION_CODE_VERSION.to_owned(),
            hex_encode(self.session_id.as_slice()),
            hex_encode(self.key.as_slice()),
            join_strings(&candidate_texts, ","),
        ];
        assert(text::string_views(fields@) =~= code_fields(self@));
        let prefix: String = join_strings(&fields, "|");
        let sum: [u8; 4] = checksum(prefix.as_str());
        let mut code: String = prefix;
        code.push('|');
        code.append(hex_encode(sum.as_slice()).as_str());
        assert(code@ =~= code_text(self@));
        Ok(code)
    }

    /// Reads the session code in a pasted line of text.
    pub fn parse(input: &str) -> (r: Result<PeerDescription, ProtocolError>)
        ensures
            result_view(r) == read_input(input@),
    {
        let code: &str = match extract_code(input) {
            Err(e) => {
                return Err(e);
            },
            Ok(code) => code,
        };
        if code.as_bytes().len() > MAX_SESSION_CODE_LEN {
            return Err(description_error("код длиннее 512 байт"));
        }
        let chars: Vec<char> = to_chars(code);
        let parts: Vec<&[char]> = split_chars(chars.as_slice(), '|');
        let ghost all = text::views(parts@);
        assert(all == text::split(code@, '|'));
        if parts.len() != 5 || !chars_are(parts[0], SESSION_CODE_VERSION) {
            return Err(description_error("ожидался код HP2 из пяти частей"));
        }
        let fields: Vec<String> = vec![
            from_chars(parts[0]),
            from_chars(parts[1]),
            from_chars(parts[2]),
            from_chars(parts[3]),
        ];
        proof {
            reveal_strlit("|");
            assert("|"@ =~= seq!['|']);
            assert(text::string_views(fields@) =~= all.take(4));
        }
        let prefix: String = join_strings(&fields, "|");
        let expected: [u8; 4] = match hex_decode_array::<4>(parts[4], "checksum") {
            Err(e) => {
                return Err(e);
            },
            Ok(v) => v,
        };
        let sum: [u8; 4] = checksum(prefix.as_str());
        if !bytes_equal(sum.as_slice(), expected.as_slice()) {
            return Err(
                description_error(
                    "checksum не совпадает: код повреждён или скопирован не полностью",
                ),
            );
        }
        parse_fields(&parts)
    }

    /// Checks that the description can be that of the other side.
    pub fn validate_remote(&self, local: &PeerDescription) -> (r: Result<(), ProtocolError>)
        ensures
            match r {
                Ok(_) => self@.remote_error(local@) is None,
                Err(e) => self@.remote_error(local@) == Some(e@),
            },
    {
        match self.validate() {
            Err(e) => {
                return Err(e);
            },
            Ok(_) => {},
        }
        if bytes_equal(self.session_id.as_slice(), local.session_id.as_slice()) {
            return Err(description_error("это собственный session code (session id совпадает)"));
        }
        if bytes_equal(self.key.as_slice(), local.key.as_slice()) {
            return Err(description_error("это собственный session code (session key совпадает)"));
        }
        Ok(())
    }

    /// Checks the identifier, the key and the candidates.
    pub fn validate(&self) -> (r: Result<(), ProtocolError>)
        ensures
            match r {
                Ok(_) => self@.error() is None,
                Err(e) => self@.error() == Some(e@),
            },
    {
        if is_all_zero(self.session_id.as_slice()) {
            return Err(description_error("session id не может быть нулевым"));
        }
        if is_all_zero(self.key.as_slice()) {
            return Err(description_error("session key не может быть нулевым"));
        }
        if self.candidates.len() == 0 || self.candidates.len() > MAX_CANDIDATES {
            return Err(description_error("нужно от 1 до 8 candidates"));
        }
        validate_candidates(&self.candidates)
    }
}

// ---------------------------------------------------------------------------
// Control packets
// ---------------------------------------------------------------------------

/// The two control packets: a probe and its answer.
#[derive(Clone, Copy, Debug, PartialEq, Eq, Structural)]
pub enum PacketKind {
    Check,
    CheckOk,
}

impl PacketKind {
    /// The byte that stands for the kind on the wire.
    pub open spec fn spec_byte(self) -> u8 {
        match self {
            PacketKind::Check => 1,
            PacketKind::CheckOk => 2,
        }
    }

    /// The kind that a byte on the wire stands for.
    pub open spec fn spec_from_byte(value: u8) -> Result<PacketKind, ProtocolErrorView> {
        if value == 1 {
            Ok(PacketKind::Check)
        } else if value == 2 {
            Ok(PacketKind::CheckOk)
        } else {
            Err(bad_packet("неизвестный packet kind: "@ + text::decimal(value as nat)))
        }
    }

    /// The byte that stands for the kind on the wire.
    pub fn to_byte(self) -> (b: u8)
        ensures
            b == self.spec_byte(),
    {
        match self {
            PacketKind::Check => 1,
            PacketKind::CheckOk => 2,
        }
    }

    /// The kind that a byte on the wire stands for.
    pub fn from_byte(value: u8) -> (r: Result<PacketKind, ProtocolError>)
        ensures
            match r {
                Ok(kind) => PacketKind::spec_from_byte(value) == Ok::<_, ProtocolErrorView>(kind),
                Err(e) => PacketKind::spec_from_byte(value) == Err::<PacketKind, _>(e@),
            },
    {
        if value == 1 {
            Ok(PacketKind::Check)
        } else if value == 2 {
            Ok(PacketKind::CheckOk)
        } else {
            let mut m: String = "неизвестный packet kind: ".to_owned();
            m.append(decimal_text(value as u64).as_str());
            Err(ProtocolError::InvalidPacket(m))
        }
    }
}

/// What a control packet says.
#[derive(Clone, Copy, Debug, PartialEq, Eq)]
pub struct ControlPacket {
    pub kind: PacketKind,
    pub source_session: SessionId,
    pub destination_session: SessionId,
    pub transaction_id: TransactionId,
}

/// The mathematical form of a `ControlPacket`.
#[verifier::ext_equal]
pub struct ControlPacketView {
    pub kind: PacketKind,
    pub source_session: Seq<u8>,
    pub destination_session: Seq<u8>,
    pub transaction_id: Seq<u8>,
}

impl View for ControlPacket {
    type V = ControlPacketView;

    open spec fn view(&self) -> ControlPacketView {
        ControlPacketView {
            kind: self.kind,
            source_session: self.source_session@,
            destination_session: self.destination_session@,
            transaction_id: self.transaction_id@,
        }
    }
}

/// The first four bytes of every control packet, `HP02`.
pub open spec fn wire_magic() -> Seq<u8> {
    seq![0x48, 0x50, 0x30, 0x32]
}

/// The authenticated part of a control packet: magic, kind, a zero flags byte,
/// two zero reserved bytes, both session identifiers and the transaction
/// identifier.
pub open spec fn signed_header(p: ControlPacketView) -> Seq<u8> {
    wire_magic() + seq![p.kind.spec_byte(), 0, 0, 0] + p.source_session + p.destination_session
        + p.transaction_id
}

/// A control packet on the wire: the header and its HMAC-SHA256 tag.
pub open spec fn control_bytes(p: ControlPacketView, key: Seq<u8>) -> Seq<u8> {
    signed_header(p) + crypto::hmac_sha256(key, signed_header(p))@
}

/// The control packet in a datagram from the expected peer.
pub open spec fn read_control(
    datagram: Seq<u8>,
    expected_source: Seq<u8>,
    expected_destination: Seq<u8>,
    peer_key: Seq<u8>,
) -> Result<ControlPacketView, ProtocolErrorView> {
    if datagram.len() != CONTROL_PACKET_LEN {
        Err(
            bad_packet(
                "control packet должен иметь длину 84, получено "@ + text::decimal(datagram.len()),
            ),
        )
    } else if datagram.subrange(0, 4) != wire_magic() {
        Err(bad_packet("неверная версия/magic control packet"@))
    } else if datagram[5] != 0 || datagram[6] != 0 || datagram[7] != 0 {
        Err(bad_packet("неизвестные flags/reserved control packet"@))
    } else if datagram.subrange(8, 24) != expected_source || datagram.subrange(24, 40)
        != expected_destination {
        Err(bad_packet("session id control packet не совпадает"@))
    } else if bytes::all_zero(datagram.subrange(40, 52)) {
        Err(bad_packet("нулевой transaction id запрещён"@))
    } else if datagram.subrange(52, 84) != crypto::hmac_sha256(
        peer_key,
        datagram.subrange(0, 52),
    )@ {
        Err(ProtocolErrorView::AuthenticationFailed)
    } else {
        match PacketKind::spec_from_byte(datagram[4]) {
            Err(e) => Err(e),
            Ok(kind) => Ok(
                ControlPacketView {
                    kind,
                    source_session: datagram.subrange(8, 24),
                    destination_session: datagram.subrange(24, 40),
                    transaction_id: datagram.subrange(40, 52),
                },
            ),
        }
    }
}

/// A transaction identifier that is not zero.
pub fn random_transaction_id() -> (id: TransactionId)
    ensures
        !bytes::all_zero(id@),
{
    random_nonzero()
}

/// The HMAC-SHA256 tag of a message.
pub fn authentication_tag(key: &SessionKey, message: &[u8]) -> (tag: [u8; 32])
    ensures
        tag == crypto::hmac_sha256(key@, message@),
{
    hmac_tag(key, message)
}

/// Writes a control packet and signs it with the sender's key.
pub fn encode_control(packet: ControlPacket, key: &SessionKey) -> (output: [u8; CONTROL_PACKET_LEN])
    ensures
        output@ == control_bytes(packet@, key@),
{
    let mut header: Vec<u8> = vec![0x48, 0x50, 0x30, 0x32, packet.kind.to_byte(), 0, 0, 0];
    header.extend_from_slice(packet.source_session.as_slice());
    header.extend_from_slice(packet.destination_session.as_slice());
    header.extend_from_slice(packet.transaction_id.as_slice());
    assert(header@ =~= signed_header(packet@));
    let tag: [u8; 32] = authentication_tag(key, header.as_slice());
    header.extend_from_slice(tag.as_slice());
    assert(header@ =~= control_bytes(packet@, key@));
    let output: [u8; CONTROL_PACKET_LEN] = array_at(header.as_slice(), 0);
    assert(output@ =~= header@);
    output
}

/// Reads a control packet and checks that the expected peer signed it.
pub fn decode_control(
    datagram: &[u8],
    expected_source: SessionId,
    expected_destination: SessionId,
    peer_key: &SessionKey,
) -> (r: Result<ControlPacket, ProtocolError>)
    ensures
        result_view(r) == read_control(
            datagram@,
            expected_source@,
            expected_destination@,
            peer_key@,
        ),
{
    if datagram.len() != CONTROL_PACKET_LEN {
        let mut m: String = "control packet должен иметь длину 84, получено ".to_owned();
        m.append(decimal_text(datagram.len() as u64).as_str());
        return Err(ProtocolError::InvalidPacket(m));
    }
    assert(datagram@.subrange(0, 4) =~= seq![
        datagram@[0],
        datagram@[1],
        datagram@[2],
        datagram@[3],
    ]);
    if !(datagram[0] == 0x48 && datagram[1] == 0x50 && datagram[2] == 0x30 && datagram[3] == 0x32) {
        assert(datagram@.subrange(0, 4)[0] != wire_magic()[0] || datagram@.subrange(0, 4)[1]
            != wire_magic()[1] || datagram@.subrange(0, 4)[2] != wire_magic()[2]
            || datagram@.subrange(0, 4)[3] != wire_magic()[3]);
        return Err(packet_error("неверная версия/magic control packet"));
    }
    if datagram[5] != 0 || datagram[6] != 0 || datagram[7] != 0 {
        return Err(packet_error("неизвестные flags/reserved control packet"));
    }
    let source_session: SessionId = array_at(datagram, 8);
    let destination_session: SessionId = array_at(datagram, 24);
    if !bytes_equal(source_session.as_slice(), expected_source.as_slice()) || !bytes_equal(
        destination_session.as_slice(),
        expected_destination.as_slice(),
    ) {
        return Err(packet_error("session id control packet не совпадает"));
    }
    let transaction_id: TransactionId = array_at(datagram, 40);
    if is_all_zero(transaction_id.as_slice()) {
        return Err(packet_error("нулевой transaction id запрещён"));
    }
    if !hmac_verify(
        peer_key,
        slice_subrange(datagram, 0, SIGNED_HEADER_LEN),
        slice_subrange(datagram, SIGNED_HEADER_LEN, CONTROL_PACKET_LEN),
    ) {
        return Err(ProtocolError::AuthenticationFailed);
    }
    match PacketKind::from_byte(datagram[4]) {
        Err(e) => Err(e),
        Ok(kind) => Ok(
            ControlPacket { kind, source_session, destination_session, transaction_id },
        ),
    }
}

} // verus!
