//! What session codes are made of, and what is read out of them.

use crate::address;
use crate::address::{SocketAddress, SocketAddressV4};
use crate::bytes;
use crate::crypto;
use crate::protocol;
use crate::protocol::{
    Candidate, CandidateKind, PeerDescriptionView, ProtocolErrorView,
};
use crate::protocol_laws;
use crate::text;
use crate::text_laws;
use vstd::prelude::*;
use vstd::utf8;

verus! {

// ---------------------------------------------------------------------------
// Candidates
// ---------------------------------------------------------------------------

/// An address can be a candidate exactly when it is an IPv4 address with a port
/// other than 0 and an ip other than 0.0.0.0, 255.255.255.255 and 224.0.0.0 to
/// 239.255.255.255. Otherwise the refusal says what is wrong, the port first.
pub proof fn law_candidate_address(a: SocketAddress)
    ensures
        protocol::address_error(a) == match a {
            SocketAddress::V4(v4) => if v4.port == 0 {
                Some(
                    ProtocolErrorView::InvalidDescription(
                        "candidate port не может быть нулевым"@,
                    ),
                )
            } else if v4.ip == 0 || v4.ip == 0xffff_ffff || 0xe000_0000 <= v4.ip <= 0xefff_ffff {
                Some(
                    ProtocolErrorView::InvalidDescription(
                        "unspecified/multicast/broadcast IPv4 candidate запрещён"@,
                    ),
                )
            } else {
                None
            },
            SocketAddress::V6(v6) => if v6.port == 0 {
                Some(
                    ProtocolErrorView::InvalidDescription(
                        "candidate port не может быть нулевым"@,
                    ),
                )
            } else {
                Some(
                    ProtocolErrorView::InvalidDescription(
                        "эта итерация HP2 поддерживает только IPv4"@,
                    ),
                )
            },
        },
        protocol::address_error(a) is None <==> protocol_laws::advertisable(
            Candidate { kind: CandidateKind::Host, address: a },
        ),
{
}

/// No earlier candidate has the address of candidate `i`.
pub open spec fn is_first(cs: Seq<Candidate>, i: int) -> bool {
    forall|j: int| 0 <= j < i ==> (#[trigger] cs[j]).address != cs[i].address
}

/// A description is refused for its identifier, its key, the number of its
/// candidates, or its first bad candidate: one with a bad address, one that was
/// learned on the wire, or one that repeats an earlier address.
pub proof fn law_description_is_refused_for_the_first_fault(d: PeerDescriptionView, i: int)
    ensures
        bytes::all_zero(d.session_id) ==> d.error() == Some(
            ProtocolErrorView::InvalidDescription("session id не может быть нулевым"@),
        ),
        !bytes::all_zero(d.session_id) && bytes::all_zero(d.key) ==> d.error() == Some(
            ProtocolErrorView::InvalidDescription("session key не может быть нулевым"@),
        ),
        !bytes::all_zero(d.session_id) && !bytes::all_zero(d.key) ==> {
            let cs = d.candidates;
            let n = cs.len();
            &&& n == 0 || n > 8 ==> d.error() == Some(
                ProtocolErrorView::InvalidDescription("нужно от 1 до 8 candidates"@),
            )
            &&& 1 <= n <= 8 && 0 <= i < n && (forall|j: int|
                0 <= j < i ==> protocol_laws::advertisable(#[trigger] cs[j]) && is_first(cs, j))
                ==> {
                let learned = Some(
                    ProtocolErrorView::InvalidDescription(
                        "peer-reflexive candidate нельзя объявлять в коде"@,
                    ),
                );
                let repeated = Some(
                    ProtocolErrorView::InvalidDescription(
                        "candidate "@ + address::address_text(cs[i].address) + " повторяется"@,
                    ),
                );
                &&& protocol::address_error(cs[i].address) is Some ==> d.error()
                    == protocol::address_error(cs[i].address)
                &&& protocol::address_error(cs[i].address) is None && cs[i].kind
                    == CandidateKind::PeerReflexive ==> d.error() == learned
                &&& protocol_laws::advertisable(cs[i]) && !is_first(cs, i) ==> d.error()
                    == repeated
            }
        },
{
    let cs = d.candidates;
    let n = cs.len();
    if 0 <= i < n && (forall|j: int|
        0 <= j < i ==> protocol_laws::advertisable(#[trigger] cs[j]) && is_first(cs, j)) {
        lemma_good_start(cs, i);
        if !is_first(cs, i) {
            let j = choose|j: int| 0 <= j < i && (#[trigger] cs[j]).address == cs[i].address;
            assert(protocol::repeats_earlier(cs, i));
        } else {
            assert(!protocol::repeats_earlier(cs, i));
        }
    }
}

/// Good candidates at the start decide nothing.
proof fn lemma_good_start(cs: Seq<Candidate>, i: int)
    requires
        0 <= i <= cs.len(),
        forall|j: int|
            0 <= j < i ==> protocol_laws::advertisable(#[trigger] cs[j]) && is_first(cs, j),
    ensures
        protocol::candidates_error(cs, 0) == protocol::candidates_error(cs, i),
    decreases i,
{
    if i > 0 {
        lemma_good_start(cs, i - 1);
        assert(protocol_laws::advertisable(cs[i - 1]));
        assert(!protocol::repeats_earlier(cs, i - 1));
    }
}

/// A description can be that of the other side exactly when it is valid and
/// shares neither the identifier nor the key with one's own.
pub proof fn law_other_side(d: PeerDescriptionView, local: PeerDescriptionView)
    ensures
        d.remote_error(local) is None <==> d.error() is None && d.session_id != local.session_id
            && d.key != local.key,
        d.error() is Some ==> d.remote_error(local) == d.error(),
{
}

/// The letters and the names of the kinds of candidates.
pub proof fn law_candidate_kinds(value: Seq<char>, kind: CandidateKind)
    ensures
        CandidateKind::spec_parse(value) == Ok::<CandidateKind, ProtocolErrorView>(kind) <==> (
        value == seq!['h'] && kind == CandidateKind::Host) || (value == seq!['s'] && kind
            == CandidateKind::ServerReflexive),
        kind.spec_code() == (match kind {
            CandidateKind::Host => 'h',
            CandidateKind::ServerReflexive => 's',
            CandidateKind::PeerReflexive => 'p',
        }),
        kind.spec_label() == (match kind {
            CandidateKind::Host => "LAN"@,
            CandidateKind::ServerReflexive => "PUBLIC"@,
            CandidateKind::PeerReflexive => "PEER-REFLEXIVE"@,
        }),
{
    assert(seq!['h'][0] != seq!['s'][0]);
}

// ---------------------------------------------------------------------------
// Hexadecimal
// ---------------------------------------------------------------------------

/// Bytes are written as two lower-case hexadecimal digits each.
pub proof fn law_hex_is_written(value: Seq<u8>)
    ensures
        protocol::hex_text(value).len() == 2 * value.len(),
        forall|i: int|
            0 <= i < value.len() ==> text_laws::digit(protocol::hex_text(value)[2 * i]) * 16
                + text_laws::digit(protocol::hex_text(value)[2 * i + 1]) == #[trigger] value[i],
        forall|i: int|
            0 <= i < 2 * value.len() ==> !('A' <= #[trigger] protocol::hex_text(value)[i] <= 'F'),
{
    let s = protocol::hex_text(value);
    assert forall|i: int| 0 <= i < value.len() implies text_laws::digit(s[2 * i]) * 16
        + text_laws::digit(s[2 * i + 1]) == #[trigger] value[i] by {
        assert((2 * i) / 2 == i && (2 * i) % 2 == 0);
        assert((2 * i + 1) / 2 == i && (2 * i + 1) % 2 == 1);
        text_laws::law_digit_reads_back((value[i] / 16) as nat);
        text_laws::law_digit_reads_back((value[i] % 16) as nat);
    }
}

/// The byte that two characters stand for: the second is a hexadecimal digit, and
/// so is the first unless it is a plus sign, which counts for nothing.
pub open spec fn stands_for(a: char, b: char, byte: u8) -> bool {
    &&& text_laws::digit(b) < 16
    &&& a == '+' || text_laws::digit(a) < 16
    &&& byte == if a == '+' {
        text_laws::digit(b)
    } else {
        16 * text_laws::digit(a) + text_laws::digit(b)
    }
}

/// A text is read as bytes exactly when it has two characters for each of them
/// that stand for it.
pub proof fn law_hex_is_read(value: Seq<char>, n: nat, label: Seq<char>, read: Seq<u8>)
    ensures
        protocol::hex_bytes(value, n, label) == Ok::<Seq<u8>, ProtocolErrorView>(read) <==> {
            &&& value.len() == 2 * n
            &&& read.len() == n
            &&& forall|i: int|
                0 <= i < n ==> stands_for(value[2 * i], value[2 * i + 1], #[trigger] read[i])
        },
{
    if protocol::hex_bytes(value, n, label) == Ok::<Seq<u8>, ProtocolErrorView>(read) {
        assert forall|i: int| 0 <= i < n implies stands_for(
            value[2 * i],
            value[2 * i + 1],
            #[trigger] read[i],
        ) by {
            assert(protocol::hex_pair(value[2 * i], value[2 * i + 1]) is Some);
        }
    }
    if value.len() == 2 * n && read.len() == n && (forall|i: int|
        0 <= i < n ==> stands_for(value[2 * i], value[2 * i + 1], #[trigger] read[i])) {
        assert forall|i: int| 0 <= i < n implies (#[trigger] protocol::hex_pair(
            value[2 * i],
            value[2 * i + 1],
        )) == Some(read[i] as nat) by {
            assert(stands_for(value[2 * i], value[2 * i + 1], read[i]));
        }
        assert forall|k: int| 0 <= k < value.len() implies '\0' <= #[trigger] value[k]
            <= '\u{7f}' by {
            let i = k / 2;
            assert(k == 2 * i || k == 2 * i + 1);
            assert(stands_for(value[2 * i], value[2 * i + 1], read[i]));
        }
        assert(utf8::is_ascii_chars(value));
        assert(Seq::new(n, |i: int| protocol::hex_pair(value[2 * i], value[2 * i + 1])->0 as u8)
            =~= read);
    }
}

/// A text of the wrong length, or with a character that is not ASCII, is refused
/// with the right length; any other refusal says that a character is no digit.
pub proof fn law_hex_refusals(value: Seq<char>, n: nat, label: Seq<char>)
    ensures
        protocol::hex_bytes(value, n, label) matches Err(e) ==> e
            == ProtocolErrorView::InvalidDescription(
            if value.len() != 2 * n || (exists|i: int|
                0 <= i < value.len() && !(0 <= (#[trigger] value[i]) as int <= 127)) {
                label + " должен содержать "@ + text::decimal(2 * n) + " hex-символов"@
            } else {
                label + " содержит не-hex символ"@
            },
        ),
{
    if exists|i: int| 0 <= i < value.len() && !(0 <= (#[trigger] value[i]) as int <= 127) {
        let i = choose|i: int| 0 <= i < value.len() && !(0 <= (#[trigger] value[i]) as int <= 127);
        assert(!('\0' <= value[i] <= '\u{7f}'));
        assert(!utf8::is_ascii_chars(value));
    } else {
        assert forall|i: int| 0 <= i < value.len() implies '\0' <= #[trigger] value[i]
            <= '\u{7f}' by {
            assert(0 <= value[i] as int <= 127);
        }
        assert(utf8::is_ascii_chars(value));
    }
}

// ---------------------------------------------------------------------------
// Addresses
// ---------------------------------------------------------------------------

/// A number of 32 bits has four octets.
proof fn lemma_octets(ip: u32, a: nat, b: nat, c: nat, d: nat)
    requires
        a <= 255,
        b <= 255,
        c <= 255,
        d <= 255,
        ip == a * 0x100_0000 + b * 0x1_0000 + c * 0x100 + d,
    ensures
        ip / 0x100_0000 == a,
        ip / 0x1_0000 % 0x100 == b,
        ip / 0x100 % 0x100 == c,
        ip % 0x100 == d,
{
    let x = a * 0x100 + b;
    let y = x * 0x100 + c;
    assert(ip == y * 0x100 + d);
    assert(ip / 0x100 == y && ip % 0x100 == d);
    assert(y / 0x100 == x && y % 0x100 == c);
    assert(x / 0x100 == a && x % 0x100 == b);
    assert(ip / 0x1_0000 == (ip / 0x100) / 0x100) by (bit_vector);
    assert(ip / 0x100_0000 == (ip / 0x1_0000) / 0x100) by (bit_vector);
}

/// An IPv4 address is written as its four bytes in decimal, with dots, and the
/// port behind a colon.
pub proof fn law_v4_is_written(a: u8, b: u8, c: u8, d: u8, port: u16)
    ensures
        address::address_text(
            SocketAddress::V4(
                SocketAddressV4 {
                    ip: (a * 0x100_0000 + b * 0x1_0000 + c * 0x100 + d) as u32,
                    port,
                },
            ),
        ) == text::decimal(a as nat) + seq!['.'] + text::decimal(b as nat) + seq!['.']
            + text::decimal(c as nat) + seq!['.'] + text::decimal(d as nat) + seq![':']
            + text::decimal(port as nat),
{
    let ip = (a * 0x100_0000 + b * 0x1_0000 + c * 0x100 + d) as u32;
    lemma_octets(ip, a as nat, b as nat, c as nat, d as nat);
    text::lemma_join_four(
        text::decimal(a as nat),
        text::decimal(b as nat),
        text::decimal(c as nat),
        text::decimal(d as nat),
        seq!['.'],
    );
}

/// An octet is read exactly from its decimal numeral.
proof fn lemma_octet(s: Seq<char>, n: nat)
    requires
        address::read_octet(s) == Some(n),
    ensures
        n <= 255,
        s == text::decimal(n),
{
    assert forall|i: int| 0 <= i < s.len() implies '0' <= #[trigger] s[i] <= '9' by {
        assert(text::digit_value(s[i], 10) is Some);
    }
    text_laws::law_numeral_is_the_only_text(s);
}

/// Four octets are read from the dotted form only.
proof fn lemma_dotted(s: Seq<char>, ip: u32)
    requires
        address::read_ipv4(s) == Some(ip as nat),
    ensures
        s == address::ipv4_text(ip),
{
    let p = text::split(s, '.');
    let a = address::read_octet(p[0])->0;
    let b = address::read_octet(p[1])->0;
    let c = address::read_octet(p[2])->0;
    let d = address::read_octet(p[3])->0;
    lemma_octet(p[0], a);
    lemma_octet(p[1], b);
    lemma_octet(p[2], c);
    lemma_octet(p[3], d);
    lemma_octets(ip, a, b, c, d);
    let q = seq![text::decimal(a), text::decimal(b), text::decimal(c), text::decimal(d)];
    assert(p.len() == 4);
    assert(p =~= q);
    assert(text::join(p, seq!['.']) == s) by {
        text_laws::lemma_split(s, '.');
    }
}

/// An IPv4 address is read from its dotted form and from nothing else.
pub proof fn law_dotted_form_is_read(s: Seq<char>, ip: u32)
    ensures
        address::read_ipv4(s) == Some(ip as nat) <==> s == address::ipv4_text(ip),
{
    address::lemma_read_ipv4(ip);
    if address::read_ipv4(s) == Some(ip as nat) {
        lemma_dotted(s, ip);
    }
}

/// A text is read as an IPv4 socket address exactly when it is the dotted form of
/// the ip, a colon, and a decimal number for the port.
pub proof fn law_v4_is_read(s: Seq<char>, a: SocketAddressV4)
    ensures
        address::read_address(s) == Some(SocketAddress::V4(a)) <==> exists|port: Seq<char>|
            s == #[trigger] (address::ipv4_text(a.ip) + seq![':'] + port) && text::read_number(
                port,
                10,
                65535,
            ) == Some(a.port as nat),
{
    let t = address::ipv4_text(a.ip);
    address::lemma_ipv4_text_chars(a.ip);
    assert(!t.contains(':'));
    if address::read_address(s) == Some(SocketAddress::V4(a)) {
        let p = text::split(s, ':');
        text_laws::law_split(s, ':', p);
        let ip = address::read_ipv4(p[0])->0;
        lemma_ipv4_bound(p[0]);
        law_dotted_form_is_read(p[0], a.ip);
        assert(p =~= seq![p[0], p[1]]);
        assert(seq![p[0]].push(p[1]) =~= p);
        text_laws::law_join(seq![p[0]], p[1], seq![':']);
        assert(s == t + seq![':'] + p[1]);
    }
    if exists|port: Seq<char>|
        s == #[trigger] (t + seq![':'] + port) && text::read_number(port, 10, 65535) == Some(
            a.port as nat,
        ) {
        let port = choose|port: Seq<char>|
            s == #[trigger] (t + seq![':'] + port) && text::read_number(port, 10, 65535) == Some(
                a.port as nat,
            );
        address::lemma_read_ipv4(a.ip);
        assert(!port.contains(':')) by {
            if port.contains(':') {
                let i = choose|i: int| 0 <= i < port.len() && port[i] == ':';
                assert(text::digit_value(port[i], 10) is Some);
            }
        }
        text::lemma_split_single(t, ':');
        text::lemma_split_append(t, ':', port);
        assert(s =~= t.push(':') + port);
        assert(seq![t].push(port) =~= seq![t, port]);
    }
}

/// Four octets make a number of 32 bits.
proof fn lemma_ipv4_bound(s: Seq<char>)
    ensures
        address::read_ipv4(s) is Some ==> address::read_ipv4(s)->0 <= 0xffff_ffff,
{
    if address::read_ipv4(s) is Some {
        let p = text::split(s, '.');
        lemma_octet(p[0], address::read_octet(p[0])->0);
        lemma_octet(p[1], address::read_octet(p[1])->0);
        lemma_octet(p[2], address::read_octet(p[2])->0);
        lemma_octet(p[3], address::read_octet(p[3])->0);
    }
}

// ---------------------------------------------------------------------------
// Session codes
// ---------------------------------------------------------------------------

/// A candidate is written as its letter, an at sign and its address.
pub proof fn law_candidate_is_written(c: Candidate)
    ensures
        protocol::candidate_text(c) == seq![
            match c.kind {
                CandidateKind::Host => 'h',
                CandidateKind::ServerReflexive => 's',
                CandidateKind::PeerReflexive => 'p',
            },
            '@',
        ] + address::address_text(c.address),
{
}

/// A candidate is read exactly from the letter `h` or `s`, an at sign, and a text
/// that is read as its address.
pub proof fn law_candidate_is_read(value: Seq<char>, c: Candidate)
    ensures
        protocol::read_candidate(value) == Ok::<Candidate, ProtocolErrorView>(c) <==> {
            &&& value.len() >= 2
            &&& value[0] == 'h' && c.kind == CandidateKind::Host || value[0] == 's' && c.kind
                == CandidateKind::ServerReflexive
            &&& value[1] == '@'
            &&& address::read_address(value.skip(2)) == Some(c.address)
        },
{
    text::lemma_find(value, seq!['@']);
    if let Some(k) = text::find(value, seq!['@']) {
        text::lemma_occurs_char(value, '@', k);
        law_candidate_kinds(value.take(k), c.kind);
        if value.take(k) == seq!['h'] || value.take(k) == seq!['s'] {
            assert(value.take(k).len() == k);
            assert(value.take(k)[0] == value[0]);
        }
    }
    if value.len() >= 2 && (value[0] == 'h' || value[0] == 's') && value[1] == '@' {
        text::lemma_occurs_char(value, '@', 0);
        text::lemma_occurs_char(value, '@', 1);
        text::lemma_find_is(value, seq!['@'], 1);
        assert(value.take(1) =~= seq![value[0]]);
        assert(seq!['h'][0] == 'h' && seq!['s'][0] == 's');
        law_candidate_kinds(value.take(1), c.kind);
    }
}

/// Candidates are read one by one.
proof fn lemma_candidates(pieces: Seq<Seq<char>>, cs: Seq<Candidate>)
    ensures
        protocol::read_candidates(pieces) == Ok::<Seq<Candidate>, ProtocolErrorView>(cs) <==> {
            &&& cs.len() == pieces.len()
            &&& forall|i: int|
                0 <= i < cs.len() ==> protocol::read_candidate(pieces[i]) == Ok::<
                    Candidate,
                    ProtocolErrorView,
                >(#[trigger] cs[i])
        },
    decreases pieces.len(),
{
    if pieces.len() == 0 {
        if cs.len() == 0 {
            assert(cs =~= Seq::empty());
        }
    } else if cs.len() > 0 {
        let front = cs.drop_last();
        lemma_candidates(pieces.drop_last(), front);
        let good = cs.len() == pieces.len() && forall|i: int|
            0 <= i < cs.len() ==> protocol::read_candidate(pieces[i]) == Ok::<
                Candidate,
                ProtocolErrorView,
            >(#[trigger] cs[i]);
        if good {
            assert forall|i: int| 0 <= i < front.len() implies protocol::read_candidate(
                pieces.drop_last()[i],
            ) == Ok::<Candidate, ProtocolErrorView>(#[trigger] front[i]) by {
                assert(front[i] == cs[i]);
            }
            assert(protocol::read_candidate(pieces.last()) == Ok::<Candidate, ProtocolErrorView>(
                cs[cs.len() - 1],
            ));
            assert(front.push(cs.last()) =~= cs);
        }
        if protocol::read_candidates(pieces) == Ok::<Seq<Candidate>, ProtocolErrorView>(cs) {
            let before = protocol::read_candidates(pieces.drop_last())->Ok_0;
            let last = protocol::read_candidate(pieces.last())->Ok_0;
            assert(before.push(last) == cs);
            assert(before.push(last).drop_last() =~= before);
            assert(front == before);
            assert forall|i: int| 0 <= i < cs.len() implies protocol::read_candidate(pieces[i])
                == Ok::<Candidate, ProtocolErrorView>(#[trigger] cs[i]) by {
                if i < front.len() {
                    assert(front[i] == cs[i]);
                    assert(pieces.drop_last()[i] == pieces[i]);
                }
            }
        }
    }
}

/// The first four bytes of the SHA-256 digest of the text in UTF-8.
pub open spec fn digest_start(value: Seq<char>) -> Seq<u8> {
    crypto::sha256_digest(utf8::encode_utf8(value))@.subrange(0, 4)
}

/// A session code stands for a description exactly when it has at most 512 bytes
/// and five fields between bars: `HP2`, the identifier, the key, the candidates
/// between commas, and the start of the digest of the other four. The description
/// must be valid.
pub proof fn law_code_is_read(code: Seq<char>, d: PeerDescriptionView)
    ensures
        protocol::read_code(code) == Ok::<PeerDescriptionView, ProtocolErrorView>(d) <==> {
            let fields = text::split(code, '|');
            let pieces = text::split(fields[3], ',');
            &&& utf8::encode_utf8(code).len() <= 512
            &&& fields.len() == 5
            &&& fields[0] == "HP2"@
            &&& protocol::hex_bytes(fields[1], 16, "session id"@) == Ok::<
                Seq<u8>,
                ProtocolErrorView,
            >(d.session_id)
            &&& protocol::hex_bytes(fields[2], 32, "session key"@) == Ok::<
                Seq<u8>,
                ProtocolErrorView,
            >(d.key)
            &&& pieces.len() == d.candidates.len()
            &&& forall|i: int|
                0 <= i < pieces.len() ==> protocol::read_candidate(pieces[i]) == Ok::<
                    Candidate,
                    ProtocolErrorView,
                >(#[trigger] d.candidates[i])
            &&& protocol::hex_bytes(fields[4], 4, "checksum"@) == Ok::<
                Seq<u8>,
                ProtocolErrorView,
            >(digest_start(text::join(fields.take(4), seq!['|'])))
            &&& d.error() is None
        },
{
    let fields = text::split(code, '|');
    let pieces = text::split(fields[3], ',');
    let covered = text::join(fields.take(4), seq!['|']);
    lemma_candidates(pieces, d.candidates);
    protocol_laws::law_valid_description(d);
    assert(digest_start(covered) =~= protocol::spec_checksum(covered));
    if protocol::read_code(code) == Ok::<PeerDescriptionView, ProtocolErrorView>(d) {
        assert(protocol::read_fields(fields) == Ok::<PeerDescriptionView, ProtocolErrorView>(d));
        assert(protocol::read_candidates(pieces) == Ok::<Seq<Candidate>, ProtocolErrorView>(
            d.candidates,
        ));
    }
}

/// A session code is written as five fields between bars: `HP2`, the identifier,
/// the key, the candidates between commas, and the start of the digest of the
/// other four.
pub proof fn law_code_is_written(d: PeerDescriptionView)
    ensures
        ({
            let covered = "HP2"@ + seq!['|'] + protocol::hex_text(d.session_id) + seq!['|']
                + protocol::hex_text(d.key) + seq!['|'] + text::join(
                d.candidates.map_values(|c: Candidate| protocol::candidate_text(c)),
                seq![','],
            );
            protocol::code_text(d) == covered + seq!['|'] + protocol::hex_text(
                digest_start(covered),
            )
        }),
{
    let candidates = text::join(
        d.candidates.map_values(|c: Candidate| protocol::candidate_text(c)),
        seq![','],
    );
    text::lemma_join_four(
        "HP2"@,
        protocol::hex_text(d.session_id),
        protocol::hex_text(d.key),
        candidates,
        seq!['|'],
    );
    let covered = protocol::code_prefix(d);
    assert(digest_start(covered) =~= protocol::spec_checksum(covered));
}

/// The start mark is found where it first stands.
proof fn lemma_mark(line: Seq<char>, start: int)
    requires
        0 <= start,
        start + 4 <= line.len(),
        line.subrange(start, start + 4) == seq!['H', 'P', '2', '|'],
        forall|j: int|
            0 <= j < start ==> #[trigger] line.subrange(j, j + 4) != seq!['H', 'P', '2', '|'],
    ensures
        text::find(line, "HP2|"@) == Some(start),
{
    let mark = seq!['H', 'P', '2', '|'];
    reveal_strlit("HP2|");
    assert("HP2|"@ =~= mark);
    assert forall|j: int| 0 <= j < start implies !text::occurs_at(line, mark, j) by {
        assert(line.subrange(j, j + 4) != mark);
    }
    text::lemma_find_is(line, mark, start);
}

/// The token from `start` on ends at `end`.
proof fn lemma_token(line: Seq<char>, start: int, end: int)
    requires
        0 <= start <= end <= line.len(),
        forall|i: int| start <= i < end ==> !text::is_ascii_space(#[trigger] line[i]),
        end < line.len() ==> text::is_ascii_space(line[end]),
    ensures
        text::first_token(line.skip(start)) == line.subrange(start, end),
{
    let token = line.subrange(start, end);
    let rest = line.skip(end);
    assert forall|i: int| 0 <= i < token.len() implies !text::is_ascii_space(
        #[trigger] token[i],
    ) by {
        assert(token[i] == line[start + i]);
    }
    text::lemma_first_token(token, rest);
    assert(line.skip(start) =~= token + rest);
}

/// What is read out of a line: the code from the first `HP2|` in it to the next
/// ASCII white space or the end.
pub proof fn law_code_in_a_line(line: Seq<char>, start: int, end: int)
    requires
        0 <= start,
        start + 4 <= end <= line.len(),
        line.subrange(start, start + 4) == seq!['H', 'P', '2', '|'],
        forall|j: int|
            0 <= j < start ==> #[trigger] line.subrange(j, j + 4) != seq!['H', 'P', '2', '|'],
        forall|i: int| start <= i < end ==> !text::is_ascii_space(#[trigger] line[i]),
        end < line.len() ==> text::is_ascii_space(line[end]),
    ensures
        protocol::read_input(line) == protocol::read_code(line.subrange(start, end)),
{
    lemma_mark(line, start);
    lemma_token(line, start, end);
    lemma_read_input(line, start);
}

/// The code is the token at the start mark.
proof fn lemma_read_input(line: Seq<char>, start: int)
    requires
        text::find(line, "HP2|"@) == Some(start),
    ensures
        protocol::read_input(line) == protocol::read_code(text::first_token(line.skip(start))),
{
}

/// A line without `HP2|` is refused.
pub proof fn law_line_without_a_code(line: Seq<char>)
    requires
        forall|j: int|
            0 <= j <= line.len() - 4 ==> #[trigger] line.subrange(j, j + 4) != seq![
                'H',
                'P',
                '2',
                '|',
            ],
    ensures
        protocol::read_input(line) == Err::<PeerDescriptionView, _>(
            ProtocolErrorView::InvalidDescription("в строке не найдено начало HP2|"@),
        ),
{
    reveal_strlit("HP2|");
    assert("HP2|"@ =~= seq!['H', 'P', '2', '|']);
    text::lemma_find(line, "HP2|"@);
    if let Some(k) = text::find(line, "HP2|"@) {
        assert(text::occurs_at(line, "HP2|"@, k));
        assert(line.subrange(k, k + 4) == seq!['H', 'P', '2', '|']);
    }
}

} // verus!
