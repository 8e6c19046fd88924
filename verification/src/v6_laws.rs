//! What holds of IPv6 addresses as text.

use crate::address;
use crate::address::{SocketAddress, SocketAddressV6};
use crate::code_laws;
use crate::text;
use vstd::prelude::*;

verus! {

// ---------------------------------------------------------------------------
// Groups
// ---------------------------------------------------------------------------

/// A hexadecimal digit.
pub open spec fn is_hex(c: char) -> bool {
    '0' <= c <= '9' || 'a' <= c <= 'f' || 'A' <= c <= 'F'
}

/// The numeral of a group is one to four hexadecimal digits that read back.
proof fn lemma_group(g: u16)
    ensures
        ({
            let t = text::numeral(g as nat, 16);
            &&& 0 < t.len() <= 4
            &&& forall|i: int| 0 <= i < t.len() ==> is_hex(#[trigger] t[i])
            &&& address::read_group(t) == Some(g as nat)
            &&& !t.contains(':')
            &&& !t.contains('.')
        }),
{
    let t = text::numeral(g as nat, 16);
    text::lemma_numeral_value(g as nat, 16);
    assert(t.len() <= 4) by {
        reveal_with_fuel(text::numeral, 5);
    }
    assert forall|i: int| 0 <= i < t.len() implies is_hex(#[trigger] t[i]) by {
        assert(text::digit_value(t[i], 16) is Some);
    }
}

/// The texts of the groups.
spec fn group_texts(gs: Seq<u16>) -> Seq<Seq<char>> {
    gs.map_values(|g: u16| text::numeral(g as nat, 16))
}

proof fn lemma_hex_groups(gs: Seq<u16>)
    ensures
        address::read_hex_groups(group_texts(gs)) == Some(address::group_nats(gs)),
    decreases gs.len(),
{
    let pieces = group_texts(gs);
    if gs.len() == 0 {
        assert(address::group_nats(gs) =~= Seq::empty());
    } else {
        let front = gs.drop_last();
        lemma_hex_groups(front);
        lemma_group(gs.last());
        assert(pieces.drop_last() =~= group_texts(front));
        assert(pieces.last() == text::numeral(gs.last() as nat, 16));
        assert(address::group_nats(front).push(gs.last() as nat) =~= address::group_nats(gs));
    }
}

/// The text of groups: hexadecimal digits and single colons between them.
proof fn lemma_groups_text(gs: Seq<u16>)
    ensures
        ({
            let t = address::groups_text(gs);
            &&& gs.len() == 0 ==> t.len() == 0
            &&& gs.len() > 0 ==> t.len() > 0 && is_hex(t[0]) && is_hex(t.last())
            &&& forall|i: int| 0 <= i < t.len() ==> is_hex(#[trigger] t[i]) || t[i] == ':'
            &&& forall|i: int| 0 <= i < t.len() - 1 ==> is_hex(#[trigger] t[i]) || is_hex(t[i + 1])
        }),
    decreases gs.len(),
{
    let t = address::groups_text(gs);
    let pieces = group_texts(gs);
    if gs.len() == 1 {
        lemma_group(gs[0]);
        assert(t == pieces[0]);
    } else if gs.len() > 1 {
        let front = gs.drop_last();
        let u = address::groups_text(front);
        let last = text::numeral(gs.last() as nat, 16);
        lemma_groups_text(front);
        lemma_group(gs.last());
        assert(pieces.drop_last() =~= group_texts(front));
        assert(t =~= u + seq![':'] + last);
        assert forall|i: int| 0 <= i < t.len() implies is_hex(#[trigger] t[i]) || t[i] == ':' by {
            if i < u.len() {
                assert(t[i] == u[i]);
            } else if i > u.len() {
                assert(t[i] == last[i - u.len() - 1]);
            }
        }
        assert forall|i: int| 0 <= i < t.len() - 1 implies is_hex(#[trigger] t[i]) || is_hex(
            t[i + 1],
        ) by {
            if i < u.len() - 1 {
                assert(t[i] == u[i] && t[i + 1] == u[i + 1]);
            } else if i == u.len() - 1 {
                assert(t[i] == u.last());
            } else if i == u.len() {
                assert(t[i + 1] == last[0]);
            } else {
                assert(t[i] == last[i - u.len() - 1]);
            }
        }
    }
}

/// The text of groups reads back as the groups.
proof fn lemma_groups_read(gs: Seq<u16>, v4: bool)
    ensures
        address::read_groups(address::groups_text(gs), v4) == Some(address::group_nats(gs)),
{
    let t = address::groups_text(gs);
    let pieces = group_texts(gs);
    lemma_groups_text(gs);
    if gs.len() == 0 {
        assert(address::group_nats(gs) =~= Seq::empty());
    } else {
        assert forall|i: int| 0 <= i < pieces.len() implies !(#[trigger] pieces[i]).contains(
            ':',
        ) by {
            lemma_group(gs[i]);
        }
        text::lemma_split_join(pieces, ':');
        lemma_hex_groups(gs);
        let last = pieces.last();
        lemma_group(gs.last());
        text::lemma_split_single(last, '.');
    }
}

/// Eight groups make up the number.
proof fn lemma_eight(a: nat, b: nat, c: nat, d: nat, e: nat, f: nat, g: nat, h: nat)
    ensures
        address::groups_value(seq![a, b, c, d, e, f, g, h]) == ((((((a * 0x1_0000 + b) * 0x1_0000
            + c) * 0x1_0000 + d) * 0x1_0000 + e) * 0x1_0000 + f) * 0x1_0000 + g) * 0x1_0000 + h,
{
    let s = seq![a, b, c, d, e, f, g, h];
    assert(s.drop_last() =~= seq![a, b, c, d, e, f, g]);
    assert(seq![a, b, c, d, e, f, g].drop_last() =~= seq![a, b, c, d, e, f]);
    assert(seq![a, b, c, d, e, f].drop_last() =~= seq![a, b, c, d, e]);
    assert(seq![a, b, c, d, e].drop_last() =~= seq![a, b, c, d]);
    assert(seq![a, b, c, d].drop_last() =~= seq![a, b, c]);
    assert(seq![a, b, c].drop_last() =~= seq![a, b]);
    assert(seq![a, b].drop_last() =~= seq![a]);
    assert(seq![a].drop_last() =~= Seq::empty());
    assert(address::groups_value(Seq::empty()) == 0);
    let two = a * 0x1_0000 + b;
    let three = two * 0x1_0000 + c;
    let four = three * 0x1_0000 + d;
    let five = four * 0x1_0000 + e;
    let six = five * 0x1_0000 + f;
    assert(address::groups_value(seq![a]) == a);
    assert(address::groups_value(seq![a, b]) == two);
    assert(address::groups_value(seq![a, b, c]) == three);
    assert(address::groups_value(seq![a, b, c, d]) == four);
    assert(address::groups_value(seq![a, b, c, d, e]) == five);
    assert(address::groups_value(seq![a, b, c, d, e, f]) == six);
    assert(address::groups_value(seq![a, b, c, d, e, f, g]) == six * 0x1_0000 + g);
}

/// Dividing twice by sixteen bits.
proof fn lemma_divide(ip: nat, k: nat)
    requires
        k > 0,
    ensures
        ip / (k * 0x1_0000) == (ip / k) / 0x1_0000,
{
    vstd::arithmetic::div_mod::lemma_div_denominator(ip as int, k as int, 0x1_0000);
}

proof fn lemma_value(ip: u128)
    ensures
        address::groups_value(address::group_nats(address::v6_groups(ip))) == ip,
{
    let x0 = ip as nat;
    let x1 = x0 / 0x1_0000;
    let x2 = x1 / 0x1_0000;
    let x3 = x2 / 0x1_0000;
    let x4 = x3 / 0x1_0000;
    let x5 = x4 / 0x1_0000;
    let x6 = x5 / 0x1_0000;
    let x7 = x6 / 0x1_0000;
    lemma_divide(x0, 0x1_0000);
    lemma_divide(x0, 0x1_0000_0000);
    lemma_divide(x0, 0x1_0000_0000_0000);
    lemma_divide(x0, 0x1_0000_0000_0000_0000);
    lemma_divide(x0, 0x1_0000_0000_0000_0000_0000);
    lemma_divide(x0, 0x1_0000_0000_0000_0000_0000_0000);
    assert(x7 < 0x1_0000);
    let gs = address::group_nats(address::v6_groups(ip));
    assert(gs =~= seq![
        x7,
        x6 % 0x1_0000,
        x5 % 0x1_0000,
        x4 % 0x1_0000,
        x3 % 0x1_0000,
        x2 % 0x1_0000,
        x1 % 0x1_0000,
        x0 % 0x1_0000,
    ]);
    lemma_eight(
        x7,
        x6 % 0x1_0000,
        x5 % 0x1_0000,
        x4 % 0x1_0000,
        x3 % 0x1_0000,
        x2 % 0x1_0000,
        x1 % 0x1_0000,
        x0 % 0x1_0000,
    );
}

// ---------------------------------------------------------------------------
// Zero groups
// ---------------------------------------------------------------------------

/// A run of zero groups ends in front of another group, or with the groups.
pub proof fn law_zero_run(gs: Seq<u16>, i: int)
    requires
        0 <= i <= gs.len(),
    ensures
        i + address::zero_run(gs, i) <= gs.len(),
        forall|j: int| i <= j < i + address::zero_run(gs, i) ==> #[trigger] gs[j] == 0,
        i + address::zero_run(gs, i) < gs.len() ==> gs[i + address::zero_run(gs, i)] != 0,
    decreases gs.len() - i,
{
    if i < gs.len() && gs[i] == 0 {
        law_zero_run(gs, i + 1);
    }
}

/// The run of zero groups that is written as `::` is the longest one, and the
/// first of the longest.
pub proof fn law_longest_zero_run(gs: Seq<u16>, i: int)
    requires
        0 <= i <= gs.len(),
    ensures
        ({
            let run = address::longest_zero_run(gs, i);
            &&& i <= run.0
            &&& run.0 + run.1 <= gs.len()
            &&& forall|j: int| run.0 <= j < run.0 + run.1 ==> #[trigger] gs[j] == 0
            &&& forall|j: int|
                i <= j < gs.len() ==> (#[trigger] address::zero_run(gs, j)) <= run.1 && (j < run.0
                    ==> address::zero_run(gs, j) < run.1)
        }),
    decreases gs.len() - i,
{
    if i < gs.len() {
        law_longest_zero_run(gs, i + 1);
        law_zero_run(gs, i);
    }
}

// ---------------------------------------------------------------------------
// Reading back
// ---------------------------------------------------------------------------

/// The double colon behind groups is the first one.
proof fn lemma_double_colon(gs: Seq<u16>, rest: Seq<char>)
    ensures
        text::find(address::groups_text(gs) + "::"@ + rest, "::"@) == Some(
            address::groups_text(gs).len() as int,
        ),
{
    let t = address::groups_text(gs);
    let s = t + "::"@ + rest;
    let k = t.len() as int;
    reveal_strlit("::");
    lemma_groups_text(gs);
    assert("::"@ =~= seq![':', ':']);
    assert(s.subrange(k, k + 2) =~= "::"@);
    assert forall|j: int| 0 <= j < k implies !text::occurs_at(s, "::"@, j) by {
        if text::occurs_at(s, "::"@, j) {
            let w = s.subrange(j, j + 2);
            assert(w == "::"@);
            assert(w[0] == s[j] && w[1] == s[j + 1]);
            assert("::"@[0] == ':' && "::"@[1] == ':');
            assert(s[j] == t[j]);
            if j + 1 < k {
                assert(s[j + 1] == t[j + 1]);
                assert(is_hex(t[j]) || is_hex(t[j + 1]));
            } else {
                assert(t[j] == t.last());
            }
        }
    }
    text::lemma_find_is(s, "::"@, k);
}

/// There is no double colon among groups.
proof fn lemma_no_double_colon(gs: Seq<u16>)
    ensures
        text::find(address::groups_text(gs), "::"@) is None,
{
    let t = address::groups_text(gs);
    reveal_strlit("::");
    lemma_groups_text(gs);
    assert("::"@ =~= seq![':', ':']);
    text::lemma_find(t, "::"@);
    if let Some(j) = text::find(t, "::"@) {
        let w = t.subrange(j, j + 2);
        assert(w == "::"@);
        assert(w[0] == t[j] && w[1] == t[j + 1]);
        assert("::"@[0] == ':' && "::"@[1] == ':');
        assert(is_hex(t[j]) || is_hex(t[j + 1]));
    }
}

proof fn lemma_plain(ip: u128)
    ensures
        address::read_ipv6(address::groups_text(address::v6_groups(ip))) == Some(ip as nat),
{
    let gs = address::v6_groups(ip);
    lemma_no_double_colon(gs);
    lemma_groups_read(gs, true);
    lemma_value(ip);
}

/// The two sides of a double colon.
proof fn lemma_sides(head: Seq<u16>, tail: Seq<u16>)
    ensures
        ({
            let t = address::groups_text(head);
            let u = address::groups_text(tail);
            let s = t + "::"@ + u;
            &&& text::find(s, "::"@) == Some(t.len() as int)
            &&& s.take(t.len() as int) == t
            &&& s.skip(t.len() as int + 2) == u
        }),
{
    let t = address::groups_text(head);
    let u = address::groups_text(tail);
    let s = t + "::"@ + u;
    reveal_strlit("::");
    assert("::"@.len() == 2);
    lemma_double_colon(head, u);
    assert(s.take(t.len() as int) =~= t);
    assert(s.skip(t.len() as int + 2) =~= u);
}

/// Zero groups between two sides.
proof fn lemma_filled(gs: Seq<u16>, start: int, n: int)
    requires
        gs.len() == 8,
        0 <= start,
        1 <= n,
        start + n <= 8,
        forall|j: int| start <= j < start + n ==> #[trigger] gs[j] == 0,
    ensures
        ({
            let h = address::group_nats(gs.take(start));
            let l = address::group_nats(gs.skip(start + n));
            &&& h.len() + l.len() <= 7
            &&& h + Seq::new((8 - h.len() - l.len()) as nat, |i: int| 0nat) + l
                == address::group_nats(gs)
        }),
{
    let h = address::group_nats(gs.take(start));
    let l = address::group_nats(gs.skip(start + n));
    assert(h + Seq::new((8 - h.len() - l.len()) as nat, |i: int| 0nat) + l =~= address::group_nats(
        gs,
    ));
}

proof fn lemma_shortened(ip: u128, start: int, n: int)
    requires
        0 <= start,
        1 <= n,
        start + n <= 8,
        forall|j: int| start <= j < start + n ==> #[trigger] address::v6_groups(ip)[j] == 0,
    ensures
        ({
            let gs = address::v6_groups(ip);
            address::read_ipv6(
                address::groups_text(gs.take(start)) + "::"@ + address::groups_text(
                    gs.skip(start + n),
                ),
            ) == Some(ip as nat)
        }),
{
    let gs = address::v6_groups(ip);
    lemma_sides(gs.take(start), gs.skip(start + n));
    lemma_groups_read(gs.take(start), false);
    lemma_groups_read(gs.skip(start + n), true);
    lemma_filled(gs, start, n);
    lemma_value(ip);
}

/// Four hexadecimal `f` digits.
proof fn lemma_ffff()
    ensures
        address::read_group(seq!['f', 'f', 'f', 'f']) == Some(0xffffnat),
{
    let s = seq!['f', 'f', 'f', 'f'];
    assert(text::digit_value('f', 16) == Some(15nat));
    assert(s.drop_last() =~= seq!['f', 'f', 'f']);
    assert(seq!['f', 'f', 'f'].drop_last() =~= seq!['f', 'f']);
    assert(seq!['f', 'f'].drop_last() =~= seq!['f']);
    assert(seq!['f'].drop_last() =~= Seq::empty());
    assert(text::digits_value(Seq::empty(), 16) == 0);
    assert(text::digits_value(seq!['f'], 16) == 15);
    assert(text::digits_value(seq!['f', 'f'], 16) == 255);
    assert(text::digits_value(seq!['f', 'f', 'f'], 16) == 4095);
    assert(text::digits_value(s, 16) == 65535);
    assert forall|i: int| 0 <= i < s.len() implies (#[trigger] text::digit_value(s[i], 16)) is Some by {
        assert(s[i] == 'f');
    }
}

/// The groups of the part behind the double colon of a mapped address.
proof fn lemma_mapped_tail(v4: u32)
    ensures
        address::read_groups(seq!['f', 'f', 'f', 'f', ':'] + address::ipv4_text(v4), true) == Some(
            seq![0xffffnat, v4 as nat / 0x1_0000, v4 as nat % 0x1_0000],
        ),
{
    let four = seq!['f', 'f', 'f', 'f'];
    let dotted = address::ipv4_text(v4);
    let tail = seq!['f', 'f', 'f', 'f', ':'] + dotted;
    lemma_ffff();
    address::lemma_read_ipv4(v4);
    address::lemma_ipv4_text_chars(v4);
    assert(!dotted.contains(':'));
    assert(!four.contains(':')) by {
        if four.contains(':') {
            let i = choose|i: int| 0 <= i < four.len() && four[i] == ':';
            assert(four[i] == 'f');
        }
    }
    text::lemma_split_single(four, ':');
    text::lemma_split_append(four, ':', dotted);
    assert(tail =~= four.push(':') + dotted);
    let p = text::split(tail, ':');
    assert(p == seq![four].push(dotted));
    assert(p.drop_last() =~= seq![four]);
    assert(seq![four].drop_last() =~= Seq::empty());
    assert(address::read_hex_groups(Seq::empty()) == Some(Seq::<nat>::empty()));
    assert(address::read_hex_groups(seq![four]) == Some(Seq::<nat>::empty().push(0xffffnat)));
    assert(Seq::<nat>::empty().push(0xffffnat).push(v4 as nat / 0x1_0000).push(
        v4 as nat % 0x1_0000,
    ) =~= seq![0xffffnat, v4 as nat / 0x1_0000, v4 as nat % 0x1_0000]);
}

/// The double colon of a mapped address comes first.
proof fn lemma_mapped_sides(dotted: Seq<char>)
    ensures
        text::find("::ffff:"@ + dotted, "::"@) == Some(0int),
        ("::ffff:"@ + dotted).take(0) == Seq::<char>::empty(),
        ("::ffff:"@ + dotted).skip(2) == seq!['f', 'f', 'f', 'f', ':'] + dotted,
{
    let s = "::ffff:"@ + dotted;
    reveal_strlit("::ffff:");
    reveal_strlit("::");
    assert("::ffff:"@ =~= seq![':', ':', 'f', 'f', 'f', 'f', ':']);
    assert("::"@ =~= seq![':', ':']);
    assert(s.subrange(0, 2) =~= "::"@);
    text::lemma_find_is(s, "::"@, 0);
    assert(s.skip(2) =~= seq!['f', 'f', 'f', 'f', ':'] + dotted);
}

/// The number of a mapped address.
proof fn lemma_mapped_value(hi: nat, lo: nat)
    ensures
        ({
            let l = seq![0xffffnat, hi, lo];
            let h = Seq::<nat>::empty();
            address::groups_value(
                h + Seq::new((8 - h.len() - l.len()) as nat, |i: int| 0nat) + l,
            ) == (0xffff * 0x1_0000 + hi) * 0x1_0000 + lo
        }),
{
    let l = seq![0xffffnat, hi, lo];
    let h = Seq::<nat>::empty();
    let all = h + Seq::new((8 - h.len() - l.len()) as nat, |i: int| 0nat) + l;
    assert(all =~= seq![0nat, 0, 0, 0, 0, 0xffff, hi, lo]);
    lemma_eight(0, 0, 0, 0, 0, 0xffff, hi, lo);
}

proof fn lemma_mapped(ip: u128)
    requires
        ip / 0x1_0000_0000 == 0xffff,
    ensures
        address::read_ipv6("::ffff:"@ + address::ipv4_text((ip % 0x1_0000_0000) as u32)) == Some(
            ip as nat,
        ),
{
    let v4 = (ip % 0x1_0000_0000) as u32;
    let dotted = address::ipv4_text(v4);
    let hi = v4 as nat / 0x1_0000;
    let lo = v4 as nat % 0x1_0000;
    lemma_mapped_sides(dotted);
    lemma_mapped_tail(v4);
    lemma_mapped_value(hi, lo);
    assert(address::read_groups(Seq::empty(), false) == Some(Seq::<nat>::empty()));
}

/// The text of an IPv6 address reads back as the address.
pub proof fn law_ipv6_reads_back(ip: u128)
    ensures
        address::read_ipv6(address::ipv6_text(ip)) == Some(ip as nat),
{
    let gs = address::v6_groups(ip);
    law_longest_zero_run(gs, 0);
    let run = address::longest_zero_run(gs, 0);
    if ip / 0x1_0000_0000 == 0xffff {
        lemma_mapped(ip);
    } else if run.1 > 1 {
        lemma_shortened(ip, run.0, run.1 as int);
    } else {
        lemma_plain(ip);
    }
}

/// The characters of an IPv6 address as text.
proof fn lemma_ipv6_chars(ip: u128)
    ensures
        forall|i: int|
            0 <= i < address::ipv6_text(ip).len() ==> is_hex(#[trigger] address::ipv6_text(ip)[i])
                || address::ipv6_text(ip)[i] == ':' || address::ipv6_text(ip)[i] == '.',
{
    let gs = address::v6_groups(ip);
    let run = address::longest_zero_run(gs, 0);
    let s = address::ipv6_text(ip);
    law_longest_zero_run(gs, 0);
    if ip / 0x1_0000_0000 == 0xffff {
        let dotted = address::ipv4_text((ip % 0x1_0000_0000) as u32);
        address::lemma_ipv4_text_chars((ip % 0x1_0000_0000) as u32);
        reveal_strlit("::ffff:");
        assert("::ffff:"@ =~= seq![':', ':', 'f', 'f', 'f', 'f', ':']);
        assert forall|i: int| 0 <= i < s.len() implies is_hex(#[trigger] s[i]) || s[i] == ':'
            || s[i] == '.' by {
            if i >= 7 {
                assert(s[i] == dotted[i - 7]);
            }
        }
    } else if run.1 > 1 {
        let t = address::groups_text(gs.take(run.0));
        let u = address::groups_text(gs.skip(run.0 + run.1));
        lemma_groups_text(gs.take(run.0));
        lemma_groups_text(gs.skip(run.0 + run.1));
        reveal_strlit("::");
        assert("::"@ =~= seq![':', ':']);
        assert forall|i: int| 0 <= i < s.len() implies is_hex(#[trigger] s[i]) || s[i] == ':'
            || s[i] == '.' by {
            if i < t.len() {
                assert(s[i] == t[i]);
            } else if i >= t.len() + 2 {
                assert(s[i] == u[i - t.len() - 2]);
            }
        }
    } else {
        lemma_groups_text(gs);
    }
}

/// What stands in brackets in front of a port is read as an IPv6 address.
pub proof fn law_v6_is_read_in_brackets(inner: Seq<char>, port: Seq<char>)
    requires
        !inner.contains(']'),
    ensures
        address::read_address(seq!['['] + inner + "]:"@ + port) == match (
            address::read_scoped(inner),
            text::read_number(port, 10, 65535),
        ) {
            (Some((ip, scope)), Some(p)) => Some(
                SocketAddress::V6(
                    SocketAddressV6 {
                        ip: ip as u128,
                        port: p as u16,
                        flowinfo: 0,
                        scope_id: scope as u32,
                    },
                ),
            ),
            _ => None,
        },
{
    let s = seq!['['] + inner + "]:"@ + port;
    let k = 1 + inner.len() as int;
    reveal_strlit("]:");
    assert("]:"@ =~= seq![']', ':']);
    assert(s[0] == '[');
    assert(s[k] == ']' && s[k + 1] == ':');
    assert forall|j: int| 0 <= j < k implies !text::occurs_at(s, seq![']'], j) by {
        text::lemma_occurs_char(s, ']', j);
        if j > 0 {
            assert(s[j] == inner[j - 1]);
            assert(inner.contains(inner[j - 1]));
        }
    }
    text::lemma_occurs_char(s, ']', k);
    text::lemma_find_is(s, seq![']'], k);
    assert(s.subrange(1, k) =~= inner);
    assert(s.skip(k + 2) =~= port);
    if let Some(a) = address::read_v4(s) {
        code_laws::law_v4_is_read(s, a);
        let t = address::ipv4_text(a.ip);
        let port_text = choose|port: Seq<char>|
            s == #[trigger] (t + seq![':'] + port) && text::read_number(port, 10, 65535) == Some(
                a.port as nat,
            );
        address::lemma_ipv4_text_chars(a.ip);
        assert((t + seq![':'] + port_text)[0] == '[');
        if t.len() > 0 {
            assert(t[0] == '[');
        }
    }
}

/// A number's decimal numeral reads back as it.
proof fn lemma_decimal(n: nat, max: nat)
    requires
        n <= max,
    ensures
        text::read_number(text::decimal(n), 10, max) == Some(n),
{
    text::lemma_numeral_value(n, 10);
}

/// An IPv6 address without a scope.
proof fn lemma_unscoped(ip: u128)
    ensures
        address::read_scoped(address::ipv6_text(ip)) == Some((ip as nat, 0nat)),
        !address::ipv6_text(ip).contains(']'),
{
    let t = address::ipv6_text(ip);
    lemma_ipv6_chars(ip);
    text::lemma_find(t, seq!['%']);
    if let Some(k) = text::find(t, seq!['%']) {
        text::lemma_occurs_char(t, '%', k);
    }
    law_ipv6_reads_back(ip);
}

/// An IPv6 address with a scope.
proof fn lemma_scoped(ip: u128, scope_id: u32)
    ensures
        ({
            let inner = address::ipv6_text(ip) + seq!['%'] + text::decimal(scope_id as nat);
            &&& address::read_scoped(inner) == Some((ip as nat, scope_id as nat))
            &&& !inner.contains(']')
        }),
{
    let t = address::ipv6_text(ip);
    let scope = text::decimal(scope_id as nat);
    let inner = t + seq!['%'] + scope;
    let k = t.len() as int;
    lemma_ipv6_chars(ip);
    address::lemma_decimal_chars(scope_id as nat);
    assert(!inner.contains(']')) by {
        if inner.contains(']') {
            let i = choose|i: int| 0 <= i < inner.len() && inner[i] == ']';
            if i < k {
                assert(t[i] == ']');
            } else if i > k {
                assert(scope[i - k - 1] == ']');
            }
        }
    }
    assert forall|j: int| 0 <= j < k implies !text::occurs_at(inner, seq!['%'], j) by {
        text::lemma_occurs_char(inner, '%', j);
        assert(inner[j] == t[j]);
    }
    text::lemma_occurs_char(inner, '%', k);
    text::lemma_find_is(inner, seq!['%'], k);
    assert(inner.take(k) =~= t);
    assert(inner.skip(k + 1) =~= scope);
    law_ipv6_reads_back(ip);
    lemma_decimal(scope_id as nat, 0xffff_ffff);
}

/// An address in brackets, a scope and a port make up a socket address.
proof fn lemma_bracketed(inner: Seq<char>, port: Seq<char>, a: SocketAddressV6)
    requires
        !inner.contains(']'),
        address::read_scoped(inner) == Some((a.ip as nat, a.scope_id as nat)),
        text::read_number(port, 10, 65535) == Some(a.port as nat),
    ensures
        address::read_address(seq!['['] + inner + "]:"@ + port) == Some(
            SocketAddress::V6(SocketAddressV6 { flowinfo: 0, ..a }),
        ),
{
    law_v6_is_read_in_brackets(inner, port);
}

/// What stands in brackets: the address, and its scope where it has one.
spec fn in_brackets(a: SocketAddressV6) -> Seq<char> {
    if a.scope_id == 0 {
        address::ipv6_text(a.ip)
    } else {
        address::ipv6_text(a.ip) + seq!['%'] + text::decimal(a.scope_id as nat)
    }
}

proof fn lemma_in_brackets(a: SocketAddressV6)
    ensures
        address::address_text(SocketAddress::V6(a)) == seq!['['] + in_brackets(a) + "]:"@
            + text::decimal(a.port as nat),
{
    if a.scope_id != 0 {
        let t = address::ipv6_text(a.ip);
        let scope = text::decimal(a.scope_id as nat);
        assert(seq!['['] + t + seq!['%'] + scope =~= seq!['['] + (t + seq!['%'] + scope));
    }
}

/// The text of an IPv6 socket address reads back as that address. The flow
/// information is not written.
pub proof fn law_v6_text_reads_back(a: SocketAddressV6)
    ensures
        address::read_address(address::address_text(SocketAddress::V6(a))) == Some(
            SocketAddress::V6(SocketAddressV6 { flowinfo: 0, ..a }),
        ),
{
    let inner = in_brackets(a);
    let port = text::decimal(a.port as nat);
    assert(text::read_number(port, 10, 65535) == Some(a.port as nat)) by {
        lemma_decimal(a.port as nat, 65535);
    }
    assert(address::read_scoped(inner) == Some((a.ip as nat, a.scope_id as nat)) && !inner.contains(
        ']',
    )) by {
        if a.scope_id == 0 {
            lemma_unscoped(a.ip);
        } else {
            lemma_scoped(a.ip, a.scope_id);
        }
    }
    lemma_bracketed(inner, port, a);
    lemma_in_brackets(a);
}

// ---------------------------------------------------------------------------
// Writing
// ---------------------------------------------------------------------------

/// Groups in hexadecimal, with colons between them.
pub open spec fn written(gs: Seq<u16>) -> Seq<char>
    decreases gs.len(),
{
    if gs.len() == 0 {
        Seq::empty()
    } else if gs.len() == 1 {
        text::numeral(gs[0] as nat, 16)
    } else {
        written(gs.drop_last()) + seq![':'] + text::numeral(gs.last() as nat, 16)
    }
}

proof fn lemma_written(gs: Seq<u16>)
    ensures
        address::groups_text(gs) == written(gs),
    decreases gs.len(),
{
    let pieces = group_texts(gs);
    if gs.len() == 1 {
        assert(pieces[0] == text::numeral(gs[0] as nat, 16));
        assert(address::groups_text(gs) == pieces[0]);
    } else if gs.len() > 1 {
        let front = gs.drop_last();
        lemma_written(front);
        assert(pieces.drop_last() =~= group_texts(front));
        assert(address::groups_text(gs) =~= address::groups_text(front) + seq![':']
            + text::numeral(gs.last() as nat, 16));
    }
}

/// The number that eight groups of sixteen bits make up, the first one on top.
pub open spec fn number_of(gs: Seq<nat>) -> nat {
    ((((((gs[0] * 0x1_0000 + gs[1]) * 0x1_0000 + gs[2]) * 0x1_0000 + gs[3]) * 0x1_0000 + gs[4])
        * 0x1_0000 + gs[5]) * 0x1_0000 + gs[6]) * 0x1_0000 + gs[7]
}

/// Numbers of sixteen bits.
pub open spec fn widened(gs: Seq<u16>) -> Seq<nat> {
    gs.map_values(|g: u16| g as nat)
}

proof fn lemma_groups_of(ip: u128, gs: Seq<u16>)
    requires
        gs.len() == 8,
        ip == number_of(widened(gs)),
    ensures
        address::v6_groups(ip) == gs,
{
    let x0 = ip as nat;
    let x1 = x0 / 0x1_0000;
    let x2 = x1 / 0x1_0000;
    let x3 = x2 / 0x1_0000;
    let x4 = x3 / 0x1_0000;
    let x5 = x4 / 0x1_0000;
    let x6 = x5 / 0x1_0000;
    let y6 = gs[0] as nat * 0x1_0000 + gs[1];
    let y5 = y6 * 0x1_0000 + gs[2];
    let y4 = y5 * 0x1_0000 + gs[3];
    let y3 = y4 * 0x1_0000 + gs[4];
    let y2 = y3 * 0x1_0000 + gs[5];
    let y1 = y2 * 0x1_0000 + gs[6];
    assert(x0 == y1 * 0x1_0000 + gs[7]);
    assert(x1 == y1 && x0 % 0x1_0000 == gs[7]);
    assert(x2 == y2 && x1 % 0x1_0000 == gs[6]);
    assert(x3 == y3 && x2 % 0x1_0000 == gs[5]);
    assert(x4 == y4 && x3 % 0x1_0000 == gs[4]);
    assert(x5 == y5 && x4 % 0x1_0000 == gs[3]);
    assert(x6 == y6 && x5 % 0x1_0000 == gs[2]);
    assert(x6 / 0x1_0000 == gs[0] && x6 % 0x1_0000 == gs[1]);
    lemma_divide(x0, 0x1_0000);
    lemma_divide(x0, 0x1_0000_0000);
    lemma_divide(x0, 0x1_0000_0000_0000);
    lemma_divide(x0, 0x1_0000_0000_0000_0000);
    lemma_divide(x0, 0x1_0000_0000_0000_0000_0000);
    lemma_divide(x0, 0x1_0000_0000_0000_0000_0000_0000);
    assert(address::v6_groups(ip) =~= gs);
}

/// The `n` groups from `start` on are zero.
pub open spec fn are_zero(gs: Seq<u16>, start: int, n: int) -> bool {
    &&& 0 <= start
    &&& start + n <= gs.len()
    &&& forall|j: int| start <= j < start + n ==> #[trigger] gs[j] == 0
}

proof fn lemma_run_reaches(gs: Seq<u16>, start: int, n: int)
    requires
        0 <= n,
        are_zero(gs, start, n),
    ensures
        address::zero_run(gs, start) >= n,
    decreases n,
{
    if n > 0 {
        assert(gs[start] == 0);
        assert forall|j: int| start + 1 <= j < start + n implies #[trigger] gs[j] == 0 by {}
        lemma_run_reaches(gs, start + 1, n - 1);
    }
}

/// An IPv6 address is written as its eight groups, unless two zero groups stand
/// side by side.
pub proof fn law_v6_is_written_in_full(ip: u128, gs: Seq<u16>)
    requires
        gs.len() == 8,
        ip == number_of(widened(gs)),
        ip / 0x1_0000_0000 != 0xffff,
        forall|i: int| !(#[trigger] are_zero(gs, i, 2)),
    ensures
        address::ipv6_text(ip) == written(gs),
{
    lemma_groups_of(ip, gs);
    law_longest_zero_run(gs, 0);
    let run = address::longest_zero_run(gs, 0);
    if run.1 > 1 {
        assert(are_zero(gs, run.0, 2));
    }
    lemma_written(gs);
}

/// The longest run of two or more zero groups, the first one of several, is
/// written as a double colon.
pub proof fn law_v6_is_written_shortened(ip: u128, gs: Seq<u16>, start: int, n: int)
    requires
        gs.len() == 8,
        ip == number_of(widened(gs)),
        ip / 0x1_0000_0000 != 0xffff,
        n >= 2,
        are_zero(gs, start, n),
        forall|i: int, m: int| #[trigger]
            are_zero(gs, i, m) ==> m <= n && (i < start ==> m < n),
    ensures
        address::ipv6_text(ip) == written(gs.take(start)) + "::"@ + written(gs.skip(start + n)),
{
    lemma_groups_of(ip, gs);
    law_longest_zero_run(gs, 0);
    lemma_run_reaches(gs, start, n);
    let run = address::longest_zero_run(gs, 0);
    assert(are_zero(gs, run.0, run.1 as int));
    assert(run.1 == n);
    lemma_written(gs.take(start));
    lemma_written(gs.skip(start + n));
}

/// An IPv4 address that is mapped into IPv6 is written with dots.
pub proof fn law_mapped_v4_is_written(v4: u32)
    ensures
        address::ipv6_text((0xffff_0000_0000 + v4) as u128) == "::ffff:"@ + address::ipv4_text(v4),
{
    let ip = (0xffff_0000_0000 + v4) as u128;
    assert(ip / 0x1_0000_0000 == 0xffff);
    assert(ip % 0x1_0000_0000 == v4);
}

/// The address stands in brackets in front of the port, with its scope where it
/// has one.
pub proof fn law_v6_address_is_written(a: SocketAddressV6)
    ensures
        a.scope_id == 0 ==> address::address_text(SocketAddress::V6(a)) == seq!['[']
            + address::ipv6_text(a.ip) + "]:"@ + text::decimal(a.port as nat),
        a.scope_id != 0 ==> address::address_text(SocketAddress::V6(a)) == seq!['[']
            + address::ipv6_text(a.ip) + seq!['%'] + text::decimal(a.scope_id as nat) + "]:"@
            + text::decimal(a.port as nat),
{
}

// ---------------------------------------------------------------------------
// Reading
// ---------------------------------------------------------------------------

/// A group as text: one to four hexadecimal digits.
pub open spec fn is_group(t: Seq<char>) -> bool {
    &&& 1 <= t.len() <= 4
    &&& forall|i: int| 0 <= i < t.len() ==> is_hex(#[trigger] t[i])
}

proof fn lemma_digits_bound(t: Seq<char>)
    requires
        forall|i: int| 0 <= i < t.len() ==> is_hex(#[trigger] t[i]),
        t.len() <= 4,
    ensures
        t.len() == 0 ==> text::digits_value(t, 16) == 0,
        t.len() == 1 ==> text::digits_value(t, 16) < 0x10,
        t.len() == 2 ==> text::digits_value(t, 16) < 0x100,
        t.len() == 3 ==> text::digits_value(t, 16) < 0x1000,
        t.len() == 4 ==> text::digits_value(t, 16) < 0x1_0000,
    decreases t.len(),
{
    if t.len() > 0 {
        let front = t.drop_last();
        assert forall|i: int| 0 <= i < front.len() implies is_hex(#[trigger] front[i]) by {
            assert(front[i] == t[i]);
        }
        lemma_digits_bound(front);
        assert(is_hex(t[t.len() - 1]));
        assert(text::digit_value(t.last(), 16) is Some);
    }
}

/// A group is read as the number of its digits, and nothing else is read as a
/// group.
pub proof fn law_group_is_read(t: Seq<char>)
    ensures
        is_group(t) ==> address::read_group(t) == Some(text::digits_value(t, 16)),
        !is_group(t) ==> address::read_group(t) is None,
{
    if is_group(t) {
        lemma_digits_bound(t);
        assert forall|i: int| 0 <= i < t.len() implies (#[trigger] text::digit_value(t[i], 16)) is Some by {
            assert(is_hex(t[i]));
        }
    } else if 1 <= t.len() <= 4 {
        let i = choose|i: int| 0 <= i < t.len() && !is_hex(#[trigger] t[i]);
        assert(text::digit_value(t[i], 16) is None);
    }
}

/// All of these are groups.
pub open spec fn are_groups(pieces: Seq<Seq<char>>) -> bool {
    forall|i: int| 0 <= i < pieces.len() ==> is_group(#[trigger] pieces[i])
}

/// The numbers of groups.
pub open spec fn numbers(pieces: Seq<Seq<char>>) -> Seq<nat> {
    pieces.map_values(|t: Seq<char>| text::digits_value(t, 16))
}

proof fn lemma_numbers(pieces: Seq<Seq<char>>)
    ensures
        are_groups(pieces) ==> address::read_hex_groups(pieces) == Some(numbers(pieces)),
        !are_groups(pieces) ==> address::read_hex_groups(pieces) is None,
    decreases pieces.len(),
{
    if pieces.len() == 0 {
        assert(numbers(pieces) =~= Seq::empty());
    } else {
        let front = pieces.drop_last();
        lemma_numbers(front);
        law_group_is_read(pieces.last());
        if are_groups(front) && is_group(pieces.last()) {
            assert forall|i: int| 0 <= i < pieces.len() implies is_group(#[trigger] pieces[i]) by {
                if i < front.len() {
                    assert(front[i] == pieces[i]);
                }
            }
            assert(numbers(pieces) =~= numbers(front).push(text::digits_value(pieces.last(), 16)));
        } else if are_groups(pieces) {
            assert forall|i: int| 0 <= i < front.len() implies is_group(#[trigger] front[i]) by {
                assert(front[i] == pieces[i]);
            }
        }
    }
}

/// The pieces between the colons of one side of an address.
pub open spec fn pieces_of(side: Seq<char>) -> Seq<Seq<char>> {
    if side.len() == 0 {
        Seq::empty()
    } else {
        text::split(side, ':')
    }
}

/// The groups that one side of an address stands for. The last piece of the right
/// side may be an IPv4 address, which makes two groups.
pub open spec fn side_groups(side: Seq<char>, right: bool) -> Option<Seq<nat>> {
    let pieces = pieces_of(side);
    if are_groups(pieces) {
        Some(numbers(pieces))
    } else if right && are_groups(pieces.drop_last()) && address::read_ipv4(pieces.last()) is Some {
        let v4 = address::read_ipv4(pieces.last())->0;
        Some(numbers(pieces.drop_last()) + seq![v4 / 0x1_0000, v4 % 0x1_0000])
    } else {
        None
    }
}

proof fn lemma_side(side: Seq<char>, right: bool)
    ensures
        address::read_groups(side, right) == side_groups(side, right),
{
    let p = text::split(side, ':');
    let pieces = pieces_of(side);
    if side.len() == 0 {
        assert(numbers(pieces) =~= Seq::empty());
    } else {
        text::lemma_split_nonempty(side, ':');
        lemma_numbers(p);
        lemma_numbers(p.drop_last());
        if right && address::read_ipv4(p.last()) is Some {
            let v4 = address::read_ipv4(p.last())->0;
            assert(!is_group(p.last())) by {
                if is_group(p.last()) {
                    let last = p.last();
                    if last.contains('.') {
                        let i = choose|i: int| 0 <= i < last.len() && last[i] == '.';
                        assert(is_hex(last[i]));
                    }
                    text::lemma_split_single(last, '.');
                }
            }
            assert(p.last() == p[p.len() - 1]);
            assert(!are_groups(p));
            assert(numbers(p.drop_last()).push(v4 / 0x1_0000).push(v4 % 0x1_0000) =~= numbers(
                p.drop_last(),
            ) + seq![v4 / 0x1_0000, v4 % 0x1_0000]);
        }
    }
}

proof fn lemma_number_of(gs: Seq<nat>)
    requires
        gs.len() == 8,
    ensures
        address::groups_value(gs) == number_of(gs),
{
    lemma_eight(gs[0], gs[1], gs[2], gs[3], gs[4], gs[5], gs[6], gs[7]);
    assert(gs =~= seq![gs[0], gs[1], gs[2], gs[3], gs[4], gs[5], gs[6], gs[7]]);
}

/// Without a double colon an IPv6 address has eight groups.
pub proof fn law_v6_in_full_is_read(s: Seq<char>)
    requires
        text::find(s, "::"@) is None,
    ensures
        address::read_ipv6(s) == match side_groups(s, true) {
            Some(gs) => if gs.len() == 8 {
                Some(number_of(gs))
            } else {
                None
            },
            None => None,
        },
{
    lemma_side(s, true);
    if let Some(gs) = side_groups(s, true) {
        if gs.len() == 8 {
            lemma_number_of(gs);
        }
    }
}

/// A double colon stands for one or more zero groups between the two sides.
pub proof fn law_shortened_v6_is_read(s: Seq<char>, k: int)
    requires
        text::find(s, "::"@) == Some(k),
    ensures
        address::read_ipv6(s) == match (
            side_groups(s.take(k), false),
            side_groups(s.skip(k + 2), true),
        ) {
            (Some(head), Some(tail)) => if head.len() + tail.len() < 8 {
                let zeros = Seq::new((8 - head.len() - tail.len()) as nat, |i: int| 0nat);
                Some(number_of(head + zeros + tail))
            } else {
                None
            },
            _ => None,
        },
{
    lemma_side(s.take(k), false);
    lemma_side(s.skip(k + 2), true);
    if let (Some(head), Some(tail)) = (
        side_groups(s.take(k), false),
        side_groups(s.skip(k + 2), true),
    ) {
        if head.len() + tail.len() < 8 {
            let zeros = Seq::new((8 - head.len() - tail.len()) as nat, |i: int| 0nat);
            lemma_number_of(head + zeros + tail);
        }
    }
}

/// A scope stands behind a percent sign; without one it is zero.
pub proof fn law_scope_is_read(s: Seq<char>, scope: Seq<char>)
    requires
        !s.contains('%'),
    ensures
        address::read_scoped(s) == match address::read_ipv6(s) {
            Some(ip) => Some((ip, 0nat)),
            None => None,
        },
        address::read_scoped(s + seq!['%'] + scope) == match (
            address::read_ipv6(s),
            text::read_number(scope, 10, 4_294_967_295),
        ) {
            (Some(ip), Some(n)) => Some((ip, n)),
            _ => None,
        },
{
    text::lemma_find(s, seq!['%']);
    if let Some(k) = text::find(s, seq!['%']) {
        text::lemma_occurs_char(s, '%', k);
        assert(s.contains(s[k]));
    }
    let all = s + seq!['%'] + scope;
    let k = s.len() as int;
    assert forall|j: int| 0 <= j < k implies !text::occurs_at(all, seq!['%'], j) by {
        text::lemma_occurs_char(all, '%', j);
        assert(all[j] == s[j]);
        assert(s.contains(s[j]));
    }
    assert(all[k] == '%');
    text::lemma_occurs_char(all, '%', k);
    text::lemma_find_is(all, seq!['%'], k);
    assert(all.take(k) =~= s);
    assert(all.skip(k + 1) =~= scope);
}

/// Where the brackets of an IPv6 socket address stand.
proof fn lemma_brackets(s: Seq<char>) -> (k: int)
    requires
        address::read_address(s) is Some,
        address::read_address(s)->0 is V6,
    ensures
        text::find(s, seq![']']) == Some(k),
        s[0] == '[',
        k + 1 < s.len(),
        s[k + 1] == ':',
{
    assert(address::read_v6(s) is Some);
    text::find(s, seq![']'])->0
}

/// What stands between a bracket and the first closing one.
proof fn lemma_between_brackets(s: Seq<char>, k: int)
    requires
        text::find(s, seq![']']) == Some(k),
        s[0] == '[',
        k + 1 < s.len(),
        s[k + 1] == ':',
    ensures
        s == seq!['['] + s.subrange(1, k) + "]:"@ + s.skip(k + 2),
        !s.subrange(1, k).contains(']'),
{
    let inner = s.subrange(1, k);
    text::lemma_find(s, seq![']']);
    text::lemma_occurs_char(s, ']', k);
    reveal_strlit("]:");
    assert("]:"@ =~= seq![']', ':']);
    assert(s =~= seq!['['] + inner + "]:"@ + s.skip(k + 2));
    if inner.contains(']') {
        let i = choose|i: int| 0 <= i < inner.len() && inner[i] == ']';
        assert(s[i + 1] == ']');
        text::lemma_occurs_char(s, ']', i + 1);
    }
}

/// Only a text in brackets, a colon and a port behind it, is read as an IPv6
/// socket address.
pub proof fn law_v6_needs_brackets(s: Seq<char>) -> (r: (Seq<char>, Seq<char>))
    requires
        address::read_address(s) is Some,
        address::read_address(s)->0 is V6,
    ensures
        s == seq!['['] + r.0 + "]:"@ + r.1,
        !r.0.contains(']'),
{
    let k = lemma_brackets(s);
    lemma_between_brackets(s, k);
    (s.subrange(1, k), s.skip(k + 2))
}

} // verus!
