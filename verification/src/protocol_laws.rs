//! What the session codes and the control packets promise as a whole.

use crate::address;
use crate::address::SocketAddress;
use crate::bytes;
use crate::crypto;
use crate::protocol;
use crate::protocol::{
    Candidate, CandidateKind, ControlPacketView, PeerDescriptionView, ProtocolErrorView,
    CONTROL_PACKET_LEN, MAX_CANDIDATES, MAX_SESSION_CODE_LEN,
};
use crate::text;
use vstd::prelude::*;
use vstd::utf8;

verus! {

// ---------------------------------------------------------------------------
// Hexadecimal
// ---------------------------------------------------------------------------

/// Lower-case hexadecimal digits only.
pub open spec fn hex_chars(s: Seq<char>) -> bool {
    forall|i: int| 0 <= i < s.len() ==> ('0' <= #[trigger] s[i] <= '9' || 'a' <= s[i] <= 'f')
}

proof fn lemma_hex_text_chars(value: Seq<u8>)
    ensures
        hex_chars(protocol::hex_text(value)),
        protocol::hex_text(value).len() == 2 * value.len(),
{
}

/// Bytes written in hexadecimal read back as those bytes.
pub proof fn law_hex_reads_back(value: Seq<u8>, label: Seq<char>)
    ensures
        protocol::hex_bytes(protocol::hex_text(value), value.len(), label) == Ok::<
            Seq<u8>,
            ProtocolErrorView,
        >(value),
{
    let s = protocol::hex_text(value);
    let n = value.len();
    lemma_hex_text_chars(value);
    assert(utf8::is_ascii_chars(s));
    assert forall|i: int| 0 <= i < n implies #[trigger] protocol::hex_pair(
        s[2 * i],
        s[2 * i + 1],
    ) == Some(value[i] as nat) by {
        assert((2 * i) / 2 == i && (2 * i) % 2 == 0);
        assert((2 * i + 1) / 2 == i && (2 * i + 1) % 2 == 1);
        assert(s[2 * i] == text::digit_char((value[i] / 16) as nat));
        assert(s[2 * i + 1] == text::digit_char((value[i] % 16) as nat));
    }
    assert(Seq::new(n, |i: int| protocol::hex_pair(s[2 * i], s[2 * i + 1])->0 as u8) =~= value);
}

/// The lower-case form of a hexadecimal digit; any other character is left alone.
pub open spec fn lower_digit(c: char) -> char {
    if 'A' <= c <= 'F' {
        (c as u32 + 32) as char
    } else {
        c
    }
}

/// The case of hexadecimal digits does not matter, in a text that reads as bytes
/// and in one that does not.
pub proof fn law_hex_ignores_case(value: Seq<char>, n: nat, label: Seq<char>)
    ensures
        protocol::hex_bytes(value.map_values(|c: char| lower_digit(c)), n, label)
            == protocol::hex_bytes(value, n, label),
{
    let lower = value.map_values(|c: char| lower_digit(c));
    assert forall|i: int| 0 <= i < value.len() implies {
        &&& '\0' <= lower[i] <= '\u{7f}' <==> '\0' <= value[i] <= '\u{7f}'
        &&& text::digit_value(lower[i], 16) == text::digit_value(value[i], 16)
        &&& lower[i] == '+' <==> value[i] == '+'
    } by {}
    assert(utf8::is_ascii_chars(lower) == utf8::is_ascii_chars(value));
    if value.len() == 2 * n {
        assert forall|i: int| 0 <= i < n implies #[trigger] protocol::hex_pair(
            lower[2 * i],
            lower[2 * i + 1],
        ) == protocol::hex_pair(value[2 * i], value[2 * i + 1]) by {}
        if exists|i: int|
            0 <= i < n && (#[trigger] protocol::hex_pair(value[2 * i], value[2 * i + 1])) is None {
            let i = choose|i: int|
                0 <= i < n && (#[trigger] protocol::hex_pair(
                    value[2 * i],
                    value[2 * i + 1],
                )) is None;
            assert(protocol::hex_pair(lower[2 * i], lower[2 * i + 1]) is None);
        }
        assert(Seq::new(n, |i: int| protocol::hex_pair(lower[2 * i], lower[2 * i + 1])->0 as u8)
            =~= Seq::new(n, |i: int| protocol::hex_pair(value[2 * i], value[2 * i + 1])->0 as u8));
    }
}

// ---------------------------------------------------------------------------
// Character classes and lengths of session codes
// ---------------------------------------------------------------------------

/// Visible ASCII characters only.
pub open spec fn visible(s: Seq<char>) -> bool {
    forall|i: int| 0 <= i < s.len() ==> '!' <= #[trigger] s[i] <= '~'
}

proof fn lemma_visible_concat(s: Seq<char>, t: Seq<char>)
    requires
        visible(s),
        visible(t),
    ensures
        visible(s + t),
{
}

proof fn lemma_join_visible(pieces: Seq<Seq<char>>, sep: char)
    requires
        forall|i: int| 0 <= i < pieces.len() ==> visible(#[trigger] pieces[i]),
        '!' <= sep <= '~',
    ensures
        visible(text::join(pieces, seq![sep])),
    decreases pieces.len(),
{
    if pieces.len() > 1 {
        let front = pieces.drop_last();
        assert forall|i: int| 0 <= i < front.len() implies visible(#[trigger] front[i]) by {
            assert(front[i] == pieces[i]);
        }
        lemma_join_visible(front, sep);
        lemma_visible_concat(text::join(front, seq![sep]), seq![sep]);
        assert(visible(pieces[pieces.len() - 1]));
        lemma_visible_concat(text::join(front, seq![sep]) + seq![sep], pieces.last());
    } else if pieces.len() == 1 {
        assert(visible(pieces[0]));
    }
}

proof fn lemma_join_excludes(pieces: Seq<Seq<char>>, sep: char, c: char)
    requires
        forall|i: int| 0 <= i < pieces.len() ==> !(#[trigger] pieces[i]).contains(c),
        sep != c,
    ensures
        !text::join(pieces, seq![sep]).contains(c),
    decreases pieces.len(),
{
    if pieces.len() > 1 {
        let front = pieces.drop_last();
        assert forall|i: int| 0 <= i < front.len() implies !(#[trigger] front[i]).contains(c) by {
            assert(front[i] == pieces[i]);
        }
        lemma_join_excludes(front, sep, c);
        let all = text::join(front, seq![sep]) + seq![sep] + pieces.last();
        let j = text::join(front, seq![sep]);
        assert(!pieces[pieces.len() - 1].contains(c));
        assert forall|i: int| 0 <= i < all.len() implies all[i] != c by {
            if i < j.len() {
                assert(all[i] == j[i]);
            } else if i == j.len() {
                assert(all[i] == sep);
            } else {
                assert(all[i] == pieces.last()[i - j.len() - 1]);
            }
        }
    } else if pieces.len() == 1 {
        assert(!pieces[0].contains(c));
    }
}

proof fn lemma_join_len(pieces: Seq<Seq<char>>, sep: char, max: nat)
    requires
        forall|i: int| 0 <= i < pieces.len() ==> (#[trigger] pieces[i]).len() <= max,
    ensures
        pieces.len() > 0 ==> text::join(pieces, seq![sep]).len() + 1 <= pieces.len() * (max + 1),
    decreases pieces.len(),
{
    if pieces.len() > 1 {
        let front = pieces.drop_last();
        assert forall|i: int| 0 <= i < front.len() implies (#[trigger] front[i]).len() <= max by {
            assert(front[i] == pieces[i]);
        }
        lemma_join_len(front, sep, max);
        assert(pieces[pieces.len() - 1].len() <= max);
        assert(pieces.len() * (max + 1) == front.len() * (max + 1) + (max + 1)) by (nonlinear_arith)
            requires
                pieces.len() == front.len() + 1,
        ;
    } else if pieces.len() == 1 {
        assert(pieces[0].len() <= max);
    }
}

// ---------------------------------------------------------------------------
// Candidates
// ---------------------------------------------------------------------------

/// A candidate that may stand in a session code: an IPv4 address with a port,
/// other than 0.0.0.0, 255.255.255.255 and 224.0.0.0 to 239.255.255.255, that was
/// not learned on the wire.
pub open spec fn advertisable(c: Candidate) -> bool {
    &&& c.kind == CandidateKind::Host || c.kind == CandidateKind::ServerReflexive
    &&& c.address is V4
    &&& c.address->V4_0.port != 0
    &&& c.address->V4_0.ip != 0
    &&& c.address->V4_0.ip != 0xffff_ffff
    &&& !(0xe000_0000 <= c.address->V4_0.ip <= 0xefff_ffff)
}

/// The text of an advertisable candidate is visible, has no comma and no bar,
/// and has at most 23 characters.
proof fn lemma_candidate_text(c: Candidate)
    requires
        advertisable(c),
    ensures
        visible(protocol::candidate_text(c)),
        !protocol::candidate_text(c).contains(','),
        !protocol::candidate_text(c).contains('|'),
        protocol::candidate_text(c).len() <= 23,
{
    let a = c.address->V4_0;
    let t = address::ipv4_text(a.ip);
    let u = text::decimal(a.port as nat);
    let s = protocol::candidate_text(c);
    address::lemma_ipv4_text_chars(a.ip);
    address::lemma_decimal_chars(a.port as nat);
    address::lemma_port_len(a.port as nat);
    assert(s =~= seq![c.kind.spec_code(), '@'] + t + seq![':'] + u);
    assert forall|i: int| 0 <= i < s.len() implies '!' <= #[trigger] s[i] <= '~' && s[i] != ','
        && s[i] != '|' by {
        if i < 2 {
        } else if i < 2 + t.len() {
            assert(s[i] == t[i - 2]);
        } else if i == 2 + t.len() {
        } else {
            assert(s[i] == u[i - 3 - t.len()]);
        }
    }
}

/// The text of an advertisable candidate reads back as the candidate.
pub proof fn law_candidate_reads_back(c: Candidate)
    requires
        advertisable(c),
    ensures
        protocol::read_candidate(protocol::candidate_text(c)) == Ok::<
            Candidate,
            ProtocolErrorView,
        >(c),
{
    let s = protocol::candidate_text(c);
    let k = c.kind.spec_code();
    text::lemma_occurs_char(s, '@', 0);
    text::lemma_occurs_char(s, '@', 1);
    text::lemma_find_is(s, seq!['@'], 1);
    assert(s.take(1) =~= seq![k]);
    assert(seq![k][0] == k && seq!['h'][0] == 'h' && seq!['s'][0] == 's');
    assert(s.skip(2) =~= address::address_text(c.address));
    address::law_v4_text_reads_back(c.address->V4_0);
}

proof fn lemma_candidates_read_back(cs: Seq<Candidate>)
    requires
        forall|i: int| 0 <= i < cs.len() ==> advertisable(#[trigger] cs[i]),
    ensures
        protocol::read_candidates(cs.map_values(|c: Candidate| protocol::candidate_text(c))) == Ok::<
            Seq<Candidate>,
            ProtocolErrorView,
        >(cs),
    decreases cs.len(),
{
    let texts = cs.map_values(|c: Candidate| protocol::candidate_text(c));
    if cs.len() > 0 {
        let front = cs.drop_last();
        assert forall|i: int| 0 <= i < front.len() implies advertisable(#[trigger] front[i]) by {
            assert(front[i] == cs[i]);
        }
        lemma_candidates_read_back(front);
        assert(texts.drop_last() =~= front.map_values(
            |c: Candidate| protocol::candidate_text(c),
        ));
        assert(advertisable(cs[cs.len() - 1]));
        law_candidate_reads_back(cs.last());
        assert(front.push(cs.last()) =~= cs);
    } else {
        assert(cs =~= Seq::empty());
    }
}

/// No candidate of a list without errors is bad.
proof fn lemma_no_candidate_error(cs: Seq<Candidate>, i: int, k: int)
    requires
        protocol::candidates_error(cs, i) is None,
        0 <= i <= k < cs.len(),
    ensures
        protocol::candidate_error(cs, k) is None,
    decreases k - i,
{
    if i < k {
        lemma_no_candidate_error(cs, i + 1, k);
    }
}

/// A description is valid exactly when the identifier and the key are not zero
/// and it has one to eight advertisable candidates with different addresses.
pub proof fn law_valid_description(d: PeerDescriptionView)
    ensures
        d.error() is None <==> {
            &&& !bytes::all_zero(d.session_id)
            &&& !bytes::all_zero(d.key)
            &&& 1 <= d.candidates.len() <= 8
            &&& forall|i: int|
                0 <= i < d.candidates.len() ==> advertisable(#[trigger] d.candidates[i])
            &&& forall|i: int, j: int|
                0 <= i < j < d.candidates.len() ==> (#[trigger] d.candidates[i]).address != (
                #[trigger] d.candidates[j]).address
        },
{
    let cs = d.candidates;
    if d.error() is None {
        assert forall|i: int| 0 <= i < cs.len() implies advertisable(#[trigger] cs[i]) by {
            lemma_no_candidate_error(cs, 0, i);
        }
        assert forall|i: int, j: int| 0 <= i < j < cs.len() implies (#[trigger] cs[i]).address != (
        #[trigger] cs[j]).address by {
            lemma_no_candidate_error(cs, 0, j);
            assert(!protocol::repeats_earlier(cs, j));
        }
    } else if !bytes::all_zero(d.session_id) && !bytes::all_zero(d.key) && 1 <= cs.len()
        <= MAX_CANDIDATES {
        lemma_some_candidate_error(cs, 0);
        let k = choose|k: int|
            0 <= k < cs.len() && (#[trigger] protocol::candidate_error(cs, k)) is Some;
        if advertisable(cs[k]) {
            assert(protocol::repeats_earlier(cs, k));
        }
    }
}

/// A list with an error has a bad candidate.
proof fn lemma_some_candidate_error(cs: Seq<Candidate>, i: int)
    requires
        protocol::candidates_error(cs, i) is Some,
        0 <= i <= cs.len(),
    ensures
        exists|k: int| i <= k < cs.len() && (#[trigger] protocol::candidate_error(cs, k)) is Some,
    decreases cs.len() - i,
{
    if protocol::candidate_error(cs, i) is None {
        lemma_some_candidate_error(cs, i + 1);
    }
}

// ---------------------------------------------------------------------------
// Session codes
// ---------------------------------------------------------------------------

/// All five fields of the session code.
spec fn all_fields(d: PeerDescriptionView) -> Seq<Seq<char>> {
    protocol::code_fields(d).push(
        protocol::hex_text(protocol::spec_checksum(protocol::code_prefix(d))),
    )
}

proof fn lemma_candidates_text(cs: Seq<Candidate>)
    requires
        1 <= cs.len() <= MAX_CANDIDATES,
        forall|i: int| 0 <= i < cs.len() ==> advertisable(#[trigger] cs[i]),
    ensures
        visible(protocol::candidates_text(cs)),
        !protocol::candidates_text(cs).contains('|'),
        protocol::candidates_text(cs).len() <= 191,
        text::split(protocol::candidates_text(cs), ',') == cs.map_values(
            |c: Candidate| protocol::candidate_text(c),
        ),
{
    let texts = cs.map_values(|c: Candidate| protocol::candidate_text(c));
    assert forall|i: int| 0 <= i < texts.len() implies visible(#[trigger] texts[i])
        && !texts[i].contains(',') && !texts[i].contains('|') && texts[i].len() <= 23 by {
        assert(advertisable(cs[i]));
        lemma_candidate_text(cs[i]);
    }
    lemma_join_visible(texts, ',');
    lemma_join_excludes(texts, ',', '|');
    lemma_join_len(texts, ',', 23);
    assert(texts.len() * 24 <= 192) by (nonlinear_arith)
        requires
            texts.len() <= 8,
    ;
    text::lemma_split_join(texts, ',');
}

proof fn lemma_hex_excludes(s: Seq<char>)
    requires
        hex_chars(s),
    ensures
        visible(s),
        !s.contains('|'),
{
}

/// The session code of a valid description has visible characters only, and
/// starts with `H`.
pub proof fn lemma_code_is_visible(d: PeerDescriptionView)
    requires
        d.sized(),
        d.error() is None,
    ensures
        visible(protocol::code_text(d)),
        protocol::code_text(d).len() > 0,
        protocol::code_text(d)[0] == 'H',
{
    lemma_code_text(d);
    lemma_code_starts(d);
}

/// The session code of a valid description: five fields, visible characters
/// only, at most 302 of them.
proof fn lemma_code_text(d: PeerDescriptionView)
    requires
        d.sized(),
        d.error() is None,
    ensures
        text::split(protocol::code_text(d), '|') == all_fields(d),
        visible(protocol::code_text(d)),
        protocol::code_text(d).len() <= 302,
{
    law_valid_description(d);
    let sum = protocol::spec_checksum(protocol::code_prefix(d));
    let fields = protocol::code_fields(d);
    let parts = all_fields(d);
    let a = protocol::hex_text(d.session_id);
    let b = protocol::hex_text(d.key);
    let c = protocol::candidates_text(d.candidates);
    let e = protocol::hex_text(sum);
    lemma_hex_text_chars(d.session_id);
    lemma_hex_text_chars(d.key);
    lemma_hex_text_chars(sum);
    lemma_hex_excludes(a);
    lemma_hex_excludes(b);
    lemma_hex_excludes(e);
    lemma_candidates_text(d.candidates);
    reveal_strlit("HP2");
    assert("HP2"@ =~= seq!['H', 'P', '2']);
    assert(parts =~= seq!["HP2"@, a, b, c, e]);
    assert forall|i: int| 0 <= i < parts.len() implies visible(#[trigger] parts[i])
        && !parts[i].contains('|') by {
        assert(i == 0 || i == 1 || i == 2 || i == 3 || i == 4);
    }
    assert(parts.drop_last() =~= fields);
    assert(text::join(parts, seq!['|']) == protocol::code_text(d));
    lemma_join_visible(parts, '|');
    text::lemma_split_join(parts, '|');
    lemma_code_prefix(d);
}

/// The part under the checksum, written out.
proof fn lemma_code_prefix(d: PeerDescriptionView)
    ensures
        protocol::code_prefix(d) == seq!['H', 'P', '2'] + seq!['|'] + protocol::hex_text(
            d.session_id,
        ) + seq!['|'] + protocol::hex_text(d.key) + seq!['|'] + protocol::candidates_text(
            d.candidates,
        ),
{
    reveal_strlit("HP2");
    assert("HP2"@ =~= seq!['H', 'P', '2']);
    text::lemma_join_four(
        "HP2"@,
        protocol::hex_text(d.session_id),
        protocol::hex_text(d.key),
        protocol::candidates_text(d.candidates),
        seq!['|'],
    );
}

/// The candidates of a valid description read back from their text.
proof fn lemma_candidate_field_reads_back(d: PeerDescriptionView)
    requires
        d.error() is None,
    ensures
        ({
            let pieces = text::split(protocol::candidates_text(d.candidates), ',');
            &&& pieces.len() <= MAX_CANDIDATES
            &&& protocol::read_candidates(pieces) == Ok::<Seq<Candidate>, ProtocolErrorView>(
                d.candidates,
            )
        }),
{
    law_valid_description(d);
    lemma_candidates_text(d.candidates);
    lemma_candidates_read_back(d.candidates);
}

/// Fields that read as the parts of a valid description read as it.
proof fn lemma_read_fields(parts: Seq<Seq<char>>, d: PeerDescriptionView)
    requires
        protocol::hex_bytes(parts[1], 16, "session id"@) == Ok::<Seq<u8>, ProtocolErrorView>(
            d.session_id,
        ),
        protocol::hex_bytes(parts[2], 32, "session key"@) == Ok::<Seq<u8>, ProtocolErrorView>(
            d.key,
        ),
        text::split(parts[3], ',').len() <= MAX_CANDIDATES,
        protocol::read_candidates(text::split(parts[3], ',')) == Ok::<
            Seq<Candidate>,
            ProtocolErrorView,
        >(d.candidates),
        d.error() is None,
    ensures
        protocol::read_fields(parts) == Ok::<PeerDescriptionView, ProtocolErrorView>(d),
{
}

/// The identifier and the key read back from their text.
proof fn lemma_secret_fields_read_back(d: PeerDescriptionView)
    requires
        d.sized(),
    ensures
        protocol::hex_bytes(protocol::hex_text(d.session_id), 16, "session id"@) == Ok::<
            Seq<u8>,
            ProtocolErrorView,
        >(d.session_id),
        protocol::hex_bytes(protocol::hex_text(d.key), 32, "session key"@) == Ok::<
            Seq<u8>,
            ProtocolErrorView,
        >(d.key),
{
    law_hex_reads_back(d.session_id, "session id"@);
    law_hex_reads_back(d.key, "session key"@);
}

/// Where the fields of the session code stand.
proof fn lemma_inner_fields(d: PeerDescriptionView)
    ensures
        all_fields(d)[1] == protocol::hex_text(d.session_id),
        all_fields(d)[2] == protocol::hex_text(d.key),
        all_fields(d)[3] == protocol::candidates_text(d.candidates),
{
}

/// The fields of the session code give the description back.
proof fn lemma_fields_read_back(d: PeerDescriptionView)
    requires
        d.sized(),
        d.error() is None,
    ensures
        protocol::read_fields(all_fields(d)) == Ok::<PeerDescriptionView, ProtocolErrorView>(d),
{
    lemma_inner_fields(d);
    lemma_secret_fields_read_back(d);
    lemma_candidate_field_reads_back(d);
    lemma_read_fields(all_fields(d), d);
}

/// The session code of a valid description has at most 302 characters, each of
/// one byte.
pub proof fn law_code_is_short(d: PeerDescriptionView)
    requires
        d.sized(),
        d.error() is None,
    ensures
        protocol::code_text(d).len() <= 302,
        utf8::encode_utf8(protocol::code_text(d)).len() == protocol::code_text(d).len(),
{
    let code = protocol::code_text(d);
    lemma_code_text(d);
    assert(utf8::is_ascii_chars(code));
    utf8::is_ascii_chars_encode_utf8(code);
}

/// A code with five fields and the right checksum is read field by field.
proof fn lemma_read_code(code: Seq<char>, parts: Seq<Seq<char>>, sum: Seq<u8>)
    requires
        utf8::encode_utf8(code).len() <= MAX_SESSION_CODE_LEN,
        text::split(code, '|') == parts,
        parts.len() == 5,
        parts[0] == "HP2"@,
        protocol::hex_bytes(parts[4], 4, "checksum"@) == Ok::<Seq<u8>, ProtocolErrorView>(sum),
        protocol::spec_checksum(text::join(parts.take(4), seq!['|'])) == sum,
    ensures
        protocol::read_code(code) == protocol::read_fields(parts),
{
}

/// The fields of the session code, one by one.
proof fn lemma_all_fields(d: PeerDescriptionView)
    ensures
        all_fields(d).len() == 5,
        all_fields(d)[0] == "HP2"@,
        all_fields(d)[4] == protocol::hex_text(
            protocol::spec_checksum(protocol::code_prefix(d)),
        ),
        text::join(all_fields(d).take(4), seq!['|']) == protocol::code_prefix(d),
{
    assert(all_fields(d).take(4) =~= protocol::code_fields(d));
}

/// The checksum field reads back.
proof fn lemma_checksum_field(d: PeerDescriptionView)
    ensures
        protocol::hex_bytes(
            protocol::hex_text(protocol::spec_checksum(protocol::code_prefix(d))),
            4,
            "checksum"@,
        ) == Ok::<Seq<u8>, ProtocolErrorView>(protocol::spec_checksum(protocol::code_prefix(d))),
{
    law_hex_reads_back(protocol::spec_checksum(protocol::code_prefix(d)), "checksum"@);
}

/// The session code of a valid description reads back as that description.
pub proof fn law_code_reads_back(d: PeerDescriptionView)
    requires
        d.sized(),
        d.error() is None,
    ensures
        protocol::read_code(protocol::code_text(d)) == Ok::<
            PeerDescriptionView,
            ProtocolErrorView,
        >(d),
{
    let sum = protocol::spec_checksum(protocol::code_prefix(d));
    assert(text::split(protocol::code_text(d), '|') == all_fields(d)) by {
        lemma_code_text(d);
    }
    lemma_all_fields(d);
    law_code_is_short(d);
    lemma_fields_read_back(d);
    lemma_checksum_field(d);
    lemma_read_code(protocol::code_text(d), all_fields(d), sum);
}

/// A pasted line reads back as the description whose session code stands in it:
/// whatever is in front does not hold the start mark, and what follows starts
/// with white space.
pub proof fn law_pasted_code_reads_back(
    d: PeerDescriptionView,
    label: Seq<char>,
    rest: Seq<char>,
)
    requires
        d.sized(),
        d.error() is None,
        text::find(label, "HP2|"@) is None,
        rest.len() > 0 ==> text::is_ascii_space(rest[0]),
    ensures
        protocol::read_input(label + protocol::code_text(d) + rest) == Ok::<
            PeerDescriptionView,
            ProtocolErrorView,
        >(d),
{
    lemma_code_text(d);
    lemma_code_starts(d);
    lemma_extract(label, protocol::code_text(d), rest);
    law_code_reads_back(d);
}

/// The code between a label and white space is what is extracted.
proof fn lemma_extract(label: Seq<char>, code: Seq<char>, rest: Seq<char>)
    requires
        text::find(label, "HP2|"@) is None,
        code.len() >= 4,
        code[0] == 'H',
        code[1] == 'P',
        code[2] == '2',
        code[3] == '|',
        visible(code),
        rest.len() > 0 ==> text::is_ascii_space(rest[0]),
    ensures
        protocol::spec_extract_code(label + code + rest) == Ok::<Seq<char>, ProtocolErrorView>(code),
{
    let input = label + code + rest;
    assert(input =~= label + (code + rest));
    lemma_mark_after_label(label, code + rest);
    assert(input.skip(label.len() as int) =~= code + rest);
    assert forall|i: int| 0 <= i < code.len() implies !text::is_ascii_space(#[trigger] code[i]) by {
        assert('!' <= code[i] <= '~');
    }
    text::lemma_first_token(code, rest);
}

/// The first start mark stands where a label without one ends.
proof fn lemma_mark_after_label(label: Seq<char>, body: Seq<char>)
    requires
        text::find(label, "HP2|"@) is None,
        body.len() >= 4,
        body[0] == 'H',
        body[1] == 'P',
        body[2] == '2',
        body[3] == '|',
    ensures
        text::find(label + body, "HP2|"@) == Some(label.len() as int),
{
    let input = label + body;
    let mark = "HP2|"@;
    let n = label.len() as int;
    reveal_strlit("HP2|");
    text::lemma_find(label, mark);
    assert(text::occurs_at(input, mark, n)) by {
        assert(input.subrange(n, n + 4) =~= mark);
    }
    assert forall|j: int| 0 <= j < n implies !text::occurs_at(input, mark, j) by {
        if text::occurs_at(input, mark, j) {
            let s = input.subrange(j, j + 4);
            if j + 4 <= n {
                assert(label.subrange(j, j + 4) =~= s);
                assert(text::occurs_at(label, mark, j));
            } else {
                assert(s[n - j] == input[n]);
                assert(input[n] == body[0]);
            }
        }
    }
    text::lemma_find_is(input, mark, n);
}

/// A session code starts with the mark.
proof fn lemma_code_starts(d: PeerDescriptionView)
    ensures
        protocol::code_text(d).len() >= 4,
        protocol::code_text(d)[0] == 'H',
        protocol::code_text(d)[1] == 'P',
        protocol::code_text(d)[2] == '2',
        protocol::code_text(d)[3] == '|',
{
    lemma_code_prefix(d);
}

/// What is read from a line of text is always a valid description.
pub proof fn law_read_description_is_valid(input: Seq<char>)
    ensures
        protocol::read_input(input) matches Ok(d) ==> d.sized() && d.error() is None,
{
}

/// A session code whose last field is not the checksum of the other four is
/// refused.
pub proof fn law_wrong_checksum_is_refused(code: Seq<char>)
    requires
        ({
            let parts = text::split(code, '|');
            protocol::hex_bytes(parts[4], 4, "checksum"@) != Ok::<Seq<u8>, ProtocolErrorView>(
                protocol::spec_checksum(text::join(parts.take(4), seq!['|'])),
            )
        }),
    ensures
        protocol::read_code(code) is Err,
{
}

/// Nobody accepts their own description, whatever is in it.
pub proof fn law_own_description_is_refused(d: PeerDescriptionView)
    ensures
        d.remote_error(d) is Some,
{
}

/// A description that shares the identifier or the key with one's own is
/// refused.
pub proof fn law_shared_secret_is_refused(d: PeerDescriptionView, local: PeerDescriptionView)
    requires
        d.session_id == local.session_id || d.key == local.key,
    ensures
        d.remote_error(local) is Some,
{
}

/// An address that is not advertised is peer-reflexive; one that is has the kind
/// of the first candidate with that address.
pub proof fn law_kind_for_source(source: SocketAddress, advertised: Seq<Candidate>)
    ensures
        (forall|i: int| 0 <= i < advertised.len() ==> (#[trigger] advertised[i]).address != source)
            ==> protocol::kind_for_source(source, advertised) == CandidateKind::PeerReflexive,
        forall|i: int|
            0 <= i < advertised.len() && (#[trigger] advertised[i]).address == source && (forall|
                j: int,
            |
                0 <= j < i ==> (#[trigger] advertised[j]).address != source) ==> advertised[i].kind
                == protocol::kind_for_source(source, advertised),
    decreases advertised.len(),
{
    if advertised.len() > 0 && advertised[0].address != source {
        let rest = advertised.drop_first();
        law_kind_for_source(source, rest);
        if forall|i: int| 0 <= i < advertised.len() ==> (#[trigger] advertised[i]).address != source {
            assert forall|i: int| 0 <= i < rest.len() implies (#[trigger] rest[i]).address
                != source by {
                assert(rest[i] == advertised[i + 1]);
            }
        }
        assert forall|i: int|
            0 <= i < advertised.len() && (#[trigger] advertised[i]).address == source && (forall|
                j: int,
            |
                0 <= j < i ==> (#[trigger] advertised[j]).address
                    != source) implies advertised[i].kind == protocol::kind_for_source(
            source,
            advertised,
        ) by {
            assert(rest[i - 1] == advertised[i]);
            assert forall|j: int| 0 <= j < i - 1 implies (#[trigger] rest[j]).address != source by {
                assert(rest[j] == advertised[j + 1]);
            }
        }
    }
}

// ---------------------------------------------------------------------------
// Control packets
// ---------------------------------------------------------------------------

/// A control packet whose fields have their fixed lengths and whose transaction
/// identifier is not zero.
pub open spec fn sendable(p: ControlPacketView) -> bool {
    &&& p.source_session.len() == 16
    &&& p.destination_session.len() == 16
    &&& p.transaction_id.len() == 12
    &&& !bytes::all_zero(p.transaction_id)
}

/// A control packet reads back as itself where it was expected, under the key
/// that signed it.
pub proof fn law_control_reads_back(p: ControlPacketView, key: Seq<u8>)
    requires
        sendable(p),
    ensures
        protocol::read_control(
            protocol::control_bytes(p, key),
            p.source_session,
            p.destination_session,
            key,
        ) == Ok::<ControlPacketView, ProtocolErrorView>(p),
{
    let h = protocol::signed_header(p);
    let d = protocol::control_bytes(p, key);
    let tag = crypto::hmac_sha256(key, h)@;
    assert(h.len() == 52);
    assert(d.len() == CONTROL_PACKET_LEN);
    assert(d.subrange(0, 4) =~= protocol::wire_magic());
    assert(d.subrange(8, 24) =~= p.source_session);
    assert(d.subrange(24, 40) =~= p.destination_session);
    assert(d.subrange(40, 52) =~= p.transaction_id);
    assert(d.subrange(0, 52) =~= h);
    assert(d.subrange(52, 84) =~= tag);
}

/// Whatever is accepted as a control packet is, byte for byte, what the holder
/// of the key writes for it, between the expected sessions and with a
/// transaction identifier that is not zero.
pub proof fn law_accepted_control_is_signed(
    datagram: Seq<u8>,
    source: Seq<u8>,
    destination: Seq<u8>,
    key: Seq<u8>,
)
    ensures
        protocol::read_control(datagram, source, destination, key) matches Ok(p) ==> {
            &&& datagram == protocol::control_bytes(p, key)
            &&& p.source_session == source
            &&& p.destination_session == destination
            &&& sendable(p)
        },
{
    if let Ok(p) = protocol::read_control(datagram, source, destination, key) {
        let h = protocol::signed_header(p);
        assert(datagram.subrange(0, 4)[0] == datagram[0]);
        assert(datagram.subrange(0, 52) =~= h) by {
            assert forall|i: int| 0 <= i < 52 implies datagram[i] == h[i] by {
                if i < 4 {
                    assert(datagram.subrange(0, 4)[i] == datagram[i]);
                } else if i < 8 {
                } else if i < 24 {
                    assert(datagram.subrange(8, 24)[i - 8] == datagram[i]);
                } else if i < 40 {
                    assert(datagram.subrange(24, 40)[i - 24] == datagram[i]);
                } else {
                    assert(datagram.subrange(40, 52)[i - 40] == datagram[i]);
                }
            }
        }
        assert(datagram =~= datagram.subrange(0, 52) + datagram.subrange(52, 84));
    }
}

/// A datagram of the right shape fails authentication exactly when its last 32
/// bytes are not the tag of the rest under the key.
pub proof fn law_wrong_tag_fails_authentication(
    p: ControlPacketView,
    tag: Seq<u8>,
    key: Seq<u8>,
)
    requires
        sendable(p),
        tag.len() == 32,
    ensures
        protocol::read_control(
            protocol::signed_header(p) + tag,
            p.source_session,
            p.destination_session,
            key,
        ) == Err::<ControlPacketView, _>(ProtocolErrorView::AuthenticationFailed) <==> tag
            != crypto::hmac_sha256(key, protocol::signed_header(p))@,
{
    let h = protocol::signed_header(p);
    let d = h + tag;
    assert(h.len() == 52);
    assert(d.subrange(0, 4) =~= protocol::wire_magic());
    assert(d.subrange(8, 24) =~= p.source_session);
    assert(d.subrange(24, 40) =~= p.destination_session);
    assert(d.subrange(40, 52) =~= p.transaction_id);
    assert(d.subrange(0, 52) =~= h);
    assert(d.subrange(52, 84) =~= tag);
}

} // verus!
