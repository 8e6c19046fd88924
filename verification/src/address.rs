//! Socket addresses and their text form.

use crate::text;
use crate::text::{
    decimal_text, find_char, find_chars, join_strings, number_value, numeral_text, split_chars,
    to_chars,
};
use vstd::prelude::*;
use vstd::slice::slice_subrange;
use vstd::string::StringExecFns;

verus! {

/// An IPv4 address, as one big-endian number, and a port.
#[derive(Clone, Copy, Debug, PartialEq, Eq, Hash, Structural)]
pub struct SocketAddressV4 {
    pub ip: u32,
    pub port: u16,
}

/// An IPv6 address, as one big-endian number, a port, and the two fields that
/// only IPv6 sockets have.
#[derive(Clone, Copy, Debug, PartialEq, Eq, Hash, Structural)]
pub struct SocketAddressV6 {
    pub ip: u128,
    pub port: u16,
    pub flowinfo: u32,
    pub scope_id: u32,
}

/// The address of a UDP endpoint.
#[derive(Clone, Copy, Debug, PartialEq, Eq, Hash, Structural)]
pub enum SocketAddress {
    V4(SocketAddressV4),
    V6(SocketAddressV6),
}

impl SocketAddress {
    pub open spec fn spec_port(self) -> u16 {
        match self {
            SocketAddress::V4(a) => a.port,
            SocketAddress::V6(a) => a.port,
        }
    }

    /// The UDP port.
    pub fn port(self) -> (port: u16)
        ensures
            port == self.spec_port(),
    {
        match self {
            SocketAddress::V4(a) => a.port,
            SocketAddress::V6(a) => a.port,
        }
    }
}

// ---------------------------------------------------------------------------
// Classes of addresses
// ---------------------------------------------------------------------------

/// `0.0.0.0`
pub open spec fn v4_is_unspecified(ip: u32) -> bool {
    ip == 0
}

/// `224.0.0.0` to `239.255.255.255`
pub open spec fn v4_is_multicast(ip: u32) -> bool {
    0xe000_0000 <= ip <= 0xefff_ffff
}

/// `255.255.255.255`
pub open spec fn v4_is_broadcast(ip: u32) -> bool {
    ip == 0xffff_ffff
}

/// `::`
pub open spec fn v6_is_unspecified(ip: u128) -> bool {
    ip == 0
}

/// `ff00::` and above
pub open spec fn v6_is_multicast(ip: u128) -> bool {
    ip >= 0xff00_0000_0000_0000_0000_0000_0000_0000
}

/// A single host can have this address.
pub open spec fn spec_is_unicast(a: SocketAddress) -> bool {
    match a {
        SocketAddress::V4(a) => !v4_is_unspecified(a.ip) && !v4_is_multicast(a.ip)
            && !v4_is_broadcast(a.ip),
        SocketAddress::V6(a) => !v6_is_unspecified(a.ip) && !v6_is_multicast(a.ip),
    }
}

pub fn is_unicast(a: SocketAddress) -> (r: bool)
    ensures
        r == spec_is_unicast(a),
{
    match a {
        SocketAddress::V4(a) => a.ip != 0 && !(0xe000_0000u32 <= a.ip && a.ip <= 0xefff_ffffu32)
            && a.ip != 0xffff_ffffu32,
        SocketAddress::V6(a) => a.ip != 0 && !(a.ip
            >= 0xff00_0000_0000_0000_0000_0000_0000_0000u128),
    }
}

// ---------------------------------------------------------------------------
// Reading
// ---------------------------------------------------------------------------

/// One decimal octet of an IPv4 address: up to three digits, no leading zero.
pub open spec fn read_octet(s: Seq<char>) -> Option<nat> {
    if s.len() <= 3 && (s.len() > 1 ==> s[0] != '0') {
        text::read_number(s, 10, 255)
    } else {
        None
    }
}

/// Four octets with dots between them.
pub open spec fn read_ipv4(s: Seq<char>) -> Option<nat> {
    let p = text::split(s, '.');
    if p.len() == 4 {
        match (read_octet(p[0]), read_octet(p[1]), read_octet(p[2]), read_octet(p[3])) {
            (Some(a), Some(b), Some(c), Some(d)) => Some(
                a * 0x100_0000 + b * 0x1_0000 + c * 0x100 + d,
            ),
            _ => None,
        }
    } else {
        None
    }
}

/// A decimal port number.
pub open spec fn read_port(s: Seq<char>) -> Option<nat> {
    text::read_number(s, 10, 65535)
}

/// `a.b.c.d:port`
pub open spec fn read_v4(s: Seq<char>) -> Option<SocketAddressV4> {
    let p = text::split(s, ':');
    if p.len() == 2 {
        match (read_ipv4(p[0]), read_port(p[1])) {
            (Some(ip), Some(port)) => Some(SocketAddressV4 { ip: ip as u32, port: port as u16 }),
            _ => None,
        }
    } else {
        None
    }
}

/// One group of an IPv6 address: one to four hexadecimal digits.
pub open spec fn read_group(s: Seq<char>) -> Option<nat> {
    if s.len() <= 4 {
        text::read_number(s, 16, 0xffff)
    } else {
        None
    }
}

/// Every piece as a hexadecimal group.
pub open spec fn read_hex_groups(pieces: Seq<Seq<char>>) -> Option<Seq<nat>>
    decreases pieces.len(),
{
    if pieces.len() == 0 {
        Some(Seq::empty())
    } else {
        match (read_hex_groups(pieces.drop_last()), read_group(pieces.last())) {
            (Some(gs), Some(g)) => Some(gs.push(g)),
            _ => None,
        }
    }
}

/// The groups of a part of an IPv6 address that has no `::`. Where `v4` holds,
/// the last piece may be an IPv4 address, which stands for two groups.
pub open spec fn read_groups(s: Seq<char>, v4: bool) -> Option<Seq<nat>> {
    let p = text::split(s, ':');
    if s.len() == 0 {
        Some(Seq::empty())
    } else if v4 && read_ipv4(p.last()) is Some {
        let ip = read_ipv4(p.last())->0;
        match read_hex_groups(p.drop_last()) {
            Some(gs) => Some(gs.push(ip / 0x1_0000).push(ip % 0x1_0000)),
            None => None,
        }
    } else {
        read_hex_groups(p)
    }
}

/// Groups of sixteen bits as one number, the first group on top.
pub open spec fn groups_value(gs: Seq<nat>) -> nat
    decreases gs.len(),
{
    if gs.len() == 0 {
        0
    } else {
        groups_value(gs.drop_last()) * 0x1_0000 + gs.last()
    }
}

/// Eight groups, or up to seven with `::` in place of the zero groups.
pub open spec fn read_ipv6(s: Seq<char>) -> Option<nat> {
    match text::find(s, "::"@) {
        None => match read_groups(s, true) {
            Some(gs) => if gs.len() == 8 {
                Some(groups_value(gs))
            } else {
                None
            },
            None => None,
        },
        Some(k) => match (read_groups(s.take(k), false), read_groups(s.skip(k + 2), true)) {
            (Some(head), Some(tail)) => if head.len() + tail.len() <= 7 {
                Some(
                    groups_value(
                        head + Seq::new((8 - head.len() - tail.len()) as nat, |i: int| 0nat) + tail,
                    ),
                )
            } else {
                None
            },
            _ => None,
        },
    }
}

/// An IPv6 address with an optional `%scope`.
pub open spec fn read_scoped(s: Seq<char>) -> Option<(nat, nat)> {
    match text::find(s, seq!['%']) {
        None => match read_ipv6(s) {
            Some(ip) => Some((ip, 0)),
            None => None,
        },
        Some(k) => match (read_ipv6(s.take(k)), text::read_number(s.skip(k + 1), 10, 0xffff_ffff)) {
            (Some(ip), Some(scope)) => Some((ip, scope)),
            _ => None,
        },
    }
}

/// `[address]:port` or `[address%scope]:port`
pub open spec fn read_v6(s: Seq<char>) -> Option<SocketAddressV6> {
    match text::find(s, seq![']']) {
        None => None,
        Some(k) => if s[0] == '[' && k + 1 < s.len() && s[k + 1] == ':' {
            match (read_scoped(s.subrange(1, k)), read_port(s.skip(k + 2))) {
                (Some((ip, scope)), Some(port)) => Some(
                    SocketAddressV6 {
                        ip: ip as u128,
                        port: port as u16,
                        flowinfo: 0,
                        scope_id: scope as u32,
                    },
                ),
                _ => None,
            }
        } else {
            None
        },
    }
}

/// The socket address that a text denotes.
pub open spec fn read_address(s: Seq<char>) -> Option<SocketAddress> {
    match read_v4(s) {
        Some(a) => Some(SocketAddress::V4(a)),
        None => match read_v6(s) {
            Some(a) => Some(SocketAddress::V6(a)),
            None => None,
        },
    }
}

fn parse_octet(s: &[char]) -> (r: Option<u32>)
    ensures
        match r {
            Some(v) => read_octet(s@) == Some(v as nat) && v <= 255,
            None => read_octet(s@) is None,
        },
{
    if s.len() > 3 || (s.len() > 1 && s[0] == '0') {
        None
    } else {
        number_value(s, 10, 255)
    }
}

fn parse_ipv4(s: &[char]) -> (r: Option<u32>)
    ensures
        match r {
            Some(v) => read_ipv4(s@) == Some(v as nat),
            None => read_ipv4(s@) is None,
        },
{
    let p: Vec<&[char]> = split_chars(s, '.');
    assert(text::views(p@) == text::split(s@, '.'));
    if p.len() != 4 {
        return None;
    }
    match (parse_octet(p[0]), parse_octet(p[1]), parse_octet(p[2]), parse_octet(p[3])) {
        (Some(a), Some(b), Some(c), Some(d)) => Some(
            a * 0x100_0000 + b * 0x1_0000 + c * 0x100 + d,
        ),
        _ => None,
    }
}

fn parse_port(s: &[char]) -> (r: Option<u16>)
    ensures
        match r {
            Some(v) => read_port(s@) == Some(v as nat),
            None => read_port(s@) is None,
        },
{
    match number_value(s, 10, 65535) {
        Some(v) => Some(v as u16),
        None => None,
    }
}

fn parse_v4(s: &[char]) -> (r: Option<SocketAddressV4>)
    ensures
        r == read_v4(s@),
{
    let p: Vec<&[char]> = split_chars(s, ':');
    assert(text::views(p@) == text::split(s@, ':'));
    if p.len() != 2 {
        return None;
    }
    match (parse_ipv4(p[0]), parse_port(p[1])) {
        (Some(ip), Some(port)) => Some(SocketAddressV4 { ip, port }),
        _ => None,
    }
}

/// The numbers of a vector of groups.
pub open spec fn group_nats(gs: Seq<u16>) -> Seq<nat> {
    gs.map_values(|g: u16| g as nat)
}

fn parse_hex_groups(pieces: &[&[char]]) -> (r: Option<Vec<u16>>)
    ensures
        match r {
            Some(gs) => read_hex_groups(text::views(pieces@)) == Some(group_nats(gs@)) && gs@.len()
                == pieces@.len(),
            None => read_hex_groups(text::views(pieces@)) is None,
        },
{
    let mut gs: Vec<u16> = Vec::new();
    let mut i: usize = 0;
    let ghost all = text::views(pieces@);
    assert(all.take(0) =~= Seq::empty());
    assert(group_nats(gs@) =~= Seq::empty());
    while i < pieces.len()
        invariant
            i <= pieces@.len(),
            all == text::views(pieces@),
            gs@.len() == i,
            read_hex_groups(all.take(i as int)) == Some(group_nats(gs@)),
        decreases pieces@.len() - i,
    {
        let ghost t = all.take(i + 1);
        assert(t.drop_last() =~= all.take(i as int));
        assert(t.last() == pieces@[i as int]@);
        let piece: &[char] = pieces[i];
        let group: Option<u32> = if piece.len() > 4 {
            None
        } else {
            number_value(piece, 16, 0xffff)
        };
        match group {
            Some(g) => {
                let ghost before = gs@;
                gs.push(g as u16);
                assert(group_nats(gs@) =~= group_nats(before).push(g as nat));
            },
            None => {
                proof {
                    lemma_hex_groups_prefix(all, i + 1);
                }
                return None;
            },
        }
        i += 1;
    }
    assert(all.take(i as int) =~= all);
    Some(gs)
}

/// A prefix that is no list of groups cannot be completed to one.
proof fn lemma_hex_groups_prefix(pieces: Seq<Seq<char>>, k: int)
    requires
        0 <= k <= pieces.len(),
        read_hex_groups(pieces.take(k)) is None,
    ensures
        read_hex_groups(pieces) is None,
    decreases pieces.len() - k,
{
    if k < pieces.len() {
        assert(pieces.take(k + 1).drop_last() =~= pieces.take(k));
        lemma_hex_groups_prefix(pieces, k + 1);
    } else {
        assert(pieces.take(k) =~= pieces);
    }
}

fn parse_groups(s: &[char], v4: bool) -> (r: Option<Vec<u16>>)
    ensures
        match r {
            Some(gs) => read_groups(s@, v4) == Some(group_nats(gs@)),
            None => read_groups(s@, v4) is None,
        },
{
    if s.len() == 0 {
        let gs: Vec<u16> = Vec::new();
        assert(group_nats(gs@) =~= Seq::empty());
        return Some(gs);
    }
    let p: Vec<&[char]> = split_chars(s, ':');
    let ghost all = text::views(p@);
    proof {
        text::lemma_split_nonempty(s@, ':');
    }
    assert(all.last() == p@[p@.len() - 1]@);
    if v4 {
        match parse_ipv4(p[p.len() - 1]) {
            Some(ip) => {
                let front: &[&[char]] = slice_subrange(p.as_slice(), 0, p.len() - 1);
                assert(text::views(front@) =~= all.drop_last());
                return match parse_hex_groups(front) {
                    Some(mut gs) => {
                        let ghost before = gs@;
                        gs.push((ip / 0x1_0000) as u16);
                        gs.push((ip % 0x1_0000) as u16);
                        assert(group_nats(gs@) =~= group_nats(before).push(
                            ip as nat / 0x1_0000,
                        ).push(ip as nat % 0x1_0000));
                        Some(gs)
                    },
                    None => None,
                };
            },
            None => {},
        }
    }
    parse_hex_groups(p.as_slice())
}

/// Eight groups as one number.
fn combine_groups(gs: &Vec<u16>) -> (ip: u128)
    requires
        gs@.len() == 8,
    ensures
        ip == groups_value(group_nats(gs@)),
{
    let mut ip: u128 = 0;
    let mut i: usize = 0;
    let mut bound: u128 = 1;
    let ghost all = group_nats(gs@);
    while i < 7
        invariant
            i <= 7,
            gs@.len() == 8,
            all == group_nats(gs@),
            ip == groups_value(all.take(i as int)),
            ip < bound,
            bound <= (if i == 0 { 1u128 } else if i == 1 { 0x1_0000u128 } else if i == 2 { 0x1_0000_0000u128 }
                else if i == 3 { 0x1_0000_0000_0000u128 } else if i == 4 { 0x1_0000_0000_0000_0000u128 }
                else if i == 5 { 0x1_0000_0000_0000_0000_0000u128 }
                else if i == 6 { 0x1_0000_0000_0000_0000_0000_0000u128 }
                else { 0x1_0000_0000_0000_0000_0000_0000_0000u128 }),
        decreases 7 - i,
    {
        assert(all.take(i + 1).drop_last() =~= all.take(i as int));
        ip = ip * 0x1_0000 + gs[i] as u128;
        bound = bound * 0x1_0000;
        i += 1;
    }
    assert(all.drop_last() =~= all.take(7));
    ip * 0x1_0000 + gs[7] as u128
}

fn parse_ipv6(s: &[char]) -> (r: Option<u128>)
    ensures
        match r {
            Some(ip) => read_ipv6(s@) == Some(ip as nat),
            None => read_ipv6(s@) is None,
        },
{
    let mark: Vec<char> = to_chars("::");
    proof {
        reveal_strlit("::");
    }
    match find_chars(s, mark.as_slice()) {
        None => match parse_groups(s, true) {
            Some(gs) => if gs.len() == 8 {
                Some(combine_groups(&gs))
            } else {
                None
            },
            None => None,
        },
        Some(k) => {
            let n: usize = s.len();
            let head_text: &[char] = slice_subrange(s, 0, k);
            let tail_text: &[char] = slice_subrange(s, k + 2, n);
            assert(head_text@ =~= s@.take(k as int));
            assert(tail_text@ =~= s@.skip(k + 2));
            match (parse_groups(head_text, false), parse_groups(tail_text, true)) {
                (Some(head), Some(tail)) => {
                    if head.len() <= 7 && tail.len() <= 7 - head.len() {
                        let mut gs: Vec<u16> = Vec::new();
                        let mut i: usize = 0;
                        while i < 8
                            invariant
                                i <= 8,
                                head@.len() + tail@.len() <= 7,
                                gs@.len() == i,
                                forall|j: int|
                                    0 <= j < i ==> gs@[j] == (if j < head@.len() {
                                        head@[j]
                                    } else if j < 8 - tail@.len() {
                                        0u16
                                    } else {
                                        tail@[j - (8 - tail@.len())]
                                    }),
                            decreases 8 - i,
                        {
                            if i < head.len() {
                                gs.push(head[i]);
                            } else if i < 8 - tail.len() {
                                gs.push(0);
                            } else {
                                gs.push(tail[i - (8 - tail.len())]);
                            }
                            i += 1;
                        }
                        proof {
                            let h = group_nats(head@);
                            let t = group_nats(tail@);
                            assert(group_nats(gs@) =~= h + Seq::new(
                                (8 - h.len() - t.len()) as nat,
                                |i: int| 0nat,
                            ) + t);
                        }
                        Some(combine_groups(&gs))
                    } else {
                        None
                    }
                },
                _ => None,
            }
        },
    }
}

fn parse_scoped(s: &[char]) -> (r: Option<(u128, u32)>)
    ensures
        match r {
            Some((ip, scope)) => read_scoped(s@) == Some((ip as nat, scope as nat)),
            None => read_scoped(s@) is None,
        },
{
    match find_char(s, '%') {
        None => match parse_ipv6(s) {
            Some(ip) => Some((ip, 0)),
            None => None,
        },
        Some(k) => {
            let n: usize = s.len();
            let ip_text: &[char] = slice_subrange(s, 0, k);
            let scope_text: &[char] = slice_subrange(s, k + 1, n);
            assert(ip_text@ =~= s@.take(k as int));
            assert(scope_text@ =~= s@.skip(k + 1));
            match (parse_ipv6(ip_text), number_value(scope_text, 10, 0xffff_ffff)) {
                (Some(ip), Some(scope)) => Some((ip, scope)),
                _ => None,
            }
        },
    }
}

fn parse_v6(s: &[char]) -> (r: Option<SocketAddressV6>)
    ensures
        r == read_v6(s@),
{
    match find_char(s, ']') {
        None => None,
        Some(k) => {
            if s[0] == '[' && k > 0 && k + 1 < s.len() && s[k + 1] == ':' {
                let inner: &[char] = slice_subrange(s, 1, k);
                let port_text: &[char] = slice_subrange(s, k + 2, s.len());
                assert(port_text@ =~= s@.skip(k + 2));
                match (parse_scoped(inner), parse_port(port_text)) {
                    (Some((ip, scope_id)), Some(port)) => Some(
                        SocketAddressV6 { ip, port, flowinfo: 0, scope_id },
                    ),
                    _ => None,
                }
            } else {
                proof {
                    text::lemma_find(s@, seq![']']);
                    text::lemma_occurs_char(s@, ']', k as int);
                }
                None
            }
        },
    }
}

/// Reads a socket address: `a.b.c.d:port`, `[v6]:port` or `[v6%scope]:port`.
pub fn parse_address(s: &[char]) -> (r: Option<SocketAddress>)
    ensures
        r == read_address(s@),
{
    match parse_v4(s) {
        Some(a) => Some(SocketAddress::V4(a)),
        None => match parse_v6(s) {
            Some(a) => Some(SocketAddress::V6(a)),
            None => None,
        },
    }
}

// ---------------------------------------------------------------------------
// Writing
// ---------------------------------------------------------------------------

/// The dotted decimal form of an IPv4 address.
pub open spec fn ipv4_text(ip: u32) -> Seq<char> {
    text::join(
        seq![
            text::decimal((ip / 0x100_0000) as nat),
            text::decimal((ip / 0x1_0000 % 0x100) as nat),
            text::decimal((ip / 0x100 % 0x100) as nat),
            text::decimal((ip % 0x100) as nat),
        ],
        seq!['.'],
    )
}

/// The eight groups of an IPv6 address.
pub open spec fn v6_groups(ip: u128) -> Seq<u16> {
    seq![
        (ip / 0x1_0000_0000_0000_0000_0000_0000_0000) as u16,
        (ip / 0x1_0000_0000_0000_0000_0000_0000 % 0x1_0000) as u16,
        (ip / 0x1_0000_0000_0000_0000_0000 % 0x1_0000) as u16,
        (ip / 0x1_0000_0000_0000_0000 % 0x1_0000) as u16,
        (ip / 0x1_0000_0000_0000 % 0x1_0000) as u16,
        (ip / 0x1_0000_0000 % 0x1_0000) as u16,
        (ip / 0x1_0000 % 0x1_0000) as u16,
        (ip % 0x1_0000) as u16,
    ]
}

/// How many zero groups stand from index `i` on.
pub open spec fn zero_run(gs: Seq<u16>, i: int) -> nat
    decreases gs.len() - i,
{
    if 0 <= i < gs.len() && gs[i] == 0 {
        zero_run(gs, i + 1) + 1
    } else {
        0
    }
}

/// The start and the length of the longest run of zero groups from index `i`
/// on, the first where several are longest.
pub open spec fn longest_zero_run(gs: Seq<u16>, i: int) -> (int, nat)
    decreases gs.len() - i,
{
    if i >= gs.len() {
        (i, 0)
    } else {
        let later = longest_zero_run(gs, i + 1);
        if zero_run(gs, i) >= later.1 {
            (i, zero_run(gs, i))
        } else {
            later
        }
    }
}

/// Groups in hexadecimal with colons between them.
pub open spec fn groups_text(gs: Seq<u16>) -> Seq<char> {
    text::join(gs.map_values(|g: u16| text::numeral(g as nat, 16)), seq![':'])
}

/// The text of an IPv6 address: `::` for the longest run of two or more zero
/// groups, and dotted decimal for an IPv4-mapped address.
pub open spec fn ipv6_text(ip: u128) -> Seq<char> {
    let gs = v6_groups(ip);
    let run = longest_zero_run(gs, 0);
    if ip / 0x1_0000_0000 == 0xffff {
        "::ffff:"@ + ipv4_text((ip % 0x1_0000_0000) as u32)
    } else if run.1 > 1 {
        groups_text(gs.take(run.0)) + "::"@ + groups_text(gs.skip(run.0 + run.1))
    } else {
        groups_text(gs)
    }
}

/// The text of a socket address.
pub open spec fn address_text(a: SocketAddress) -> Seq<char> {
    match a {
        SocketAddress::V4(a) => ipv4_text(a.ip) + seq![':'] + text::decimal(a.port as nat),
        SocketAddress::V6(a) => if a.scope_id == 0 {
            seq!['['] + ipv6_text(a.ip) + "]:"@ + text::decimal(a.port as nat)
        } else {
            seq!['['] + ipv6_text(a.ip) + seq!['%'] + text::decimal(a.scope_id as nat) + "]:"@
                + text::decimal(a.port as nat)
        },
    }
}

fn format_ipv4(ip: u32) -> (s: String)
    ensures
        s@ == ipv4_text(ip),
{
    let mut s: String = decimal_text((ip / 0x100_0000) as u64);
    s.push('.');
    s.append(decimal_text((ip / 0x1_0000 % 0x100) as u64).as_str());
    s.push('.');
    s.append(decimal_text((ip / 0x100 % 0x100) as u64).as_str());
    s.push('.');
    s.append(decimal_text((ip % 0x100) as u64).as_str());
    proof {
        lemma_ipv4_text(ip);
    }
    assert(s@ =~= ipv4_text(ip));
    s
}

/// The dotted form, written out.
proof fn lemma_ipv4_text(ip: u32)
    ensures
        ipv4_text(ip) == text::decimal((ip / 0x100_0000) as nat) + seq!['.'] + text::decimal(
            (ip / 0x1_0000 % 0x100) as nat,
        ) + seq!['.'] + text::decimal((ip / 0x100 % 0x100) as nat) + seq!['.'] + text::decimal(
            (ip % 0x100) as nat,
        ),
{
    text::lemma_join_four(
        text::decimal((ip / 0x100_0000) as nat),
        text::decimal((ip / 0x1_0000 % 0x100) as nat),
        text::decimal((ip / 0x100 % 0x100) as nat),
        text::decimal((ip % 0x100) as nat),
        seq!['.'],
    );
}

fn groups_of(ip: u128) -> (gs: Vec<u16>)
    ensures
        gs@ == v6_groups(ip),
{
    let gs: Vec<u16> = vec![
        (ip / 0x1_0000_0000_0000_0000_0000_0000_0000) as u16,
        (ip / 0x1_0000_0000_0000_0000_0000_0000 % 0x1_0000) as u16,
        (ip / 0x1_0000_0000_0000_0000_0000 % 0x1_0000) as u16,
        (ip / 0x1_0000_0000_0000_0000 % 0x1_0000) as u16,
        (ip / 0x1_0000_0000_0000 % 0x1_0000) as u16,
        (ip / 0x1_0000_0000 % 0x1_0000) as u16,
        (ip / 0x1_0000 % 0x1_0000) as u16,
        (ip % 0x1_0000) as u16,
    ];
    assert(gs@ =~= v6_groups(ip));
    gs
}

fn count_zero_run(gs: &Vec<u16>, i: usize) -> (n: usize)
    requires
        i <= gs@.len(),
    ensures
        n == zero_run(gs@, i as int),
        i + n <= gs@.len(),
    decreases gs@.len() - i,
{
    if i < gs.len() && gs[i] == 0 {
        count_zero_run(gs, i + 1) + 1
    } else {
        0
    }
}

fn find_longest_zero_run(gs: &Vec<u16>, i: usize) -> (run: (usize, usize))
    requires
        i <= gs@.len(),
    ensures
        (run.0 as int, run.1 as nat) == longest_zero_run(gs@, i as int),
        run.0 + run.1 <= gs@.len(),
    decreases gs@.len() - i,
{
    if i >= gs.len() {
        (i, 0)
    } else {
        let later: (usize, usize) = find_longest_zero_run(gs, i + 1);
        let here: usize = count_zero_run(gs, i);
        if here >= later.1 {
            (i, here)
        } else {
            later
        }
    }
}

fn format_groups(gs: &[u16]) -> (s: String)
    ensures
        s@ == groups_text(gs@),
{
    let mut pieces: Vec<String> = Vec::new();
    let mut i: usize = 0;
    while i < gs.len()
        invariant
            i <= gs@.len(),
            pieces@.len() == i,
            forall|j: int| 0 <= j < i ==> (#[trigger] pieces@[j])@ == text::numeral(gs@[j] as nat, 16),
        decreases gs@.len() - i,
    {
        pieces.push(numeral_text(gs[i] as u64, 16));
        i += 1;
    }
    proof {
        reveal_strlit(":");
        assert(":"@ =~= seq![':']);
        assert(text::string_views(pieces@) =~= gs@.map_values(
            |g: u16| text::numeral(g as nat, 16),
        ));
    }
    join_strings(&pieces, ":")
}

fn format_ipv6(ip: u128) -> (s: String)
    ensures
        s@ == ipv6_text(ip),
{
    if ip / 0x1_0000_0000 == 0xffff {
        let mut s: String = "::ffff:".to_owned();
        s.append(format_ipv4((ip % 0x1_0000_0000) as u32).as_str());
        return s;
    }
    let gs: Vec<u16> = groups_of(ip);
    let run: (usize, usize) = find_longest_zero_run(&gs, 0);
    if run.1 > 1 {
        let front: &[u16] = slice_subrange(gs.as_slice(), 0, run.0);
        let back: &[u16] = slice_subrange(gs.as_slice(), run.0 + run.1, gs.len());
        assert(front@ =~= gs@.take(run.0 as int));
        assert(back@ =~= gs@.skip(run.0 + run.1));
        let mut s: String = format_groups(front);
        s.append("::");
        s.append(format_groups(back).as_str());
        s
    } else {
        format_groups(gs.as_slice())
    }
}

/// Writes a socket address as text.
pub fn format_address(a: SocketAddress) -> (s: String)
    ensures
        s@ == address_text(a),
{
    match a {
        SocketAddress::V4(a) => {
            let mut s: String = format_ipv4(a.ip);
            s.push(':');
            s.append(decimal_text(a.port as u64).as_str());
            assert(s@ =~= address_text(SocketAddress::V4(a)));
            s
        },
        SocketAddress::V6(a) => {
            let mut s: String = String::new();
            s.push('[');
            s.append(format_ipv6(a.ip).as_str());
            if a.scope_id != 0 {
                s.push('%');
                s.append(decimal_text(a.scope_id as u64).as_str());
            }
            s.append("]:");
            s.append(decimal_text(a.port as u64).as_str());
            assert(s@ =~= address_text(SocketAddress::V6(a)));
            s
        },
    }
}

// ---------------------------------------------------------------------------
// Reading back
// ---------------------------------------------------------------------------

/// A decimal numeral holds digits only.
pub proof fn lemma_decimal_chars(n: nat)
    ensures
        forall|i: int|
            0 <= i < text::decimal(n).len() ==> '0' <= #[trigger] text::decimal(n)[i] <= '9',
{
    let s = text::decimal(n);
    text::lemma_numeral_value(n, 10);
    assert forall|i: int| 0 <= i < s.len() implies '0' <= #[trigger] s[i] <= '9' by {
        assert(text::digit_value(s[i], 10) is Some);
    }
}

/// The numeral of an octet has at most three digits.
proof fn lemma_octet_len(n: nat)
    requires
        n <= 255,
    ensures
        text::decimal(n).len() <= 3,
{
    reveal_with_fuel(text::numeral, 4);
}

/// A port's numeral has at most five digits.
pub proof fn lemma_port_len(n: nat)
    requires
        n <= 65535,
    ensures
        text::decimal(n).len() <= 5,
{
    reveal_with_fuel(text::numeral, 6);
}

/// An octet's numeral reads back as the octet.
proof fn lemma_read_octet(n: nat)
    requires
        n <= 255,
    ensures
        read_octet(text::decimal(n)) == Some(n),
        !text::decimal(n).contains('.'),
        !text::decimal(n).contains(':'),
{
    text::lemma_numeral_value(n, 10);
    lemma_octet_len(n);
    lemma_decimal_chars(n);
}

/// Digits and dots only.
pub open spec fn dotted_chars(s: Seq<char>) -> bool {
    forall|i: int| 0 <= i < s.len() ==> ('0' <= #[trigger] s[i] <= '9' || s[i] == '.')
}

proof fn lemma_dotted_concat(s: Seq<char>, t: Seq<char>)
    requires
        dotted_chars(s),
        dotted_chars(t),
    ensures
        dotted_chars(s + seq!['.'] + t),
{
}

/// The dotted form holds digits and dots only and has at most fifteen
/// characters.
pub proof fn lemma_ipv4_text_chars(ip: u32)
    ensures
        ipv4_text(ip).len() <= 15,
        dotted_chars(ipv4_text(ip)),
{
    let a = (ip / 0x100_0000) as nat;
    let b = (ip / 0x1_0000 % 0x100) as nat;
    let c = (ip / 0x100 % 0x100) as nat;
    let d = (ip % 0x100) as nat;
    lemma_octet_len(a);
    lemma_octet_len(b);
    lemma_octet_len(c);
    lemma_octet_len(d);
    lemma_decimal_chars(a);
    lemma_decimal_chars(b);
    lemma_decimal_chars(c);
    lemma_decimal_chars(d);
    lemma_ipv4_text(ip);
    let ab = text::decimal(a) + seq!['.'] + text::decimal(b);
    let abc = ab + seq!['.'] + text::decimal(c);
    lemma_dotted_concat(text::decimal(a), text::decimal(b));
    lemma_dotted_concat(ab, text::decimal(c));
    lemma_dotted_concat(abc, text::decimal(d));
}

/// The four octets make up the number.
proof fn lemma_octets_value(ip: u32)
    ensures
        ip == (ip / 0x100_0000) * 0x100_0000 + (ip / 0x1_0000 % 0x100) * 0x1_0000 + (ip / 0x100
            % 0x100) * 0x100 + ip % 0x100,
{
}

/// An IPv4 address in dotted form reads back as itself.
pub proof fn lemma_read_ipv4(ip: u32)
    ensures
        read_ipv4(ipv4_text(ip)) == Some(ip as nat),
{
    let a = (ip / 0x100_0000) as nat;
    let b = (ip / 0x1_0000 % 0x100) as nat;
    let c = (ip / 0x100 % 0x100) as nat;
    let d = (ip % 0x100) as nat;
    let p = seq![text::decimal(a), text::decimal(b), text::decimal(c), text::decimal(d)];
    lemma_read_octet(a);
    lemma_read_octet(b);
    lemma_read_octet(c);
    lemma_read_octet(d);
    assert(text::split(ipv4_text(ip), '.') == p) by {
        assert forall|i: int| 0 <= i < p.len() implies !(#[trigger] p[i]).contains('.') by {
            assert(i == 0 || i == 1 || i == 2 || i == 3);
        }
        text::lemma_split_join(p, '.');
    }
    lemma_octets_value(ip);
    assert(p[0] == text::decimal(a) && p[1] == text::decimal(b) && p[2] == text::decimal(c) && p[3]
        == text::decimal(d));
}

/// The text of an IPv4 socket address reads back as that address.
pub proof fn law_v4_text_reads_back(a: SocketAddressV4)
    ensures
        read_address(address_text(SocketAddress::V4(a))) == Some(SocketAddress::V4(a)),
{
    let t = ipv4_text(a.ip);
    let u = text::decimal(a.port as nat);
    lemma_read_ipv4(a.ip);
    lemma_ipv4_text_chars(a.ip);
    text::lemma_numeral_value(a.port as nat, 10);
    lemma_decimal_chars(a.port as nat);
    assert(!t.contains(':'));
    assert(!u.contains(':'));
    text::lemma_split_single(t, ':');
    text::lemma_split_append(t, ':', u);
    assert(address_text(SocketAddress::V4(a)) =~= t.push(':') + u);
    assert(seq![t].push(u) =~= seq![t, u]);
}

} // verus!
