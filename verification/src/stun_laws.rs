//! What holds of STUN messages as a whole.

use crate::address::{SocketAddress, SocketAddressV4, SocketAddressV6};
use crate::bytes;
use crate::stun;
use crate::stun::{BindingResponseView, ParseErrorView, ScanView, MAGIC_COOKIE};
use vstd::prelude::*;

verus! {

/// The value of an XOR-MAPPED-ADDRESS attribute for an IPv4 address.
pub open spec fn mapped_v4(reserved: u8, a: SocketAddressV4) -> Seq<u8> {
    seq![reserved, 1u8] + bytes::be16_bytes(a.port ^ 0x2112) + bytes::be32_bytes(
        a.ip ^ MAGIC_COOKIE,
    )
}

/// The value of an XOR-MAPPED-ADDRESS attribute for an IPv6 address of the
/// given sixteen bytes.
pub open spec fn mapped_v6(
    reserved: u8,
    octets: Seq<u8>,
    port: u16,
    transaction_id: Seq<u8>,
) -> Seq<u8> {
    seq![reserved, 2u8] + bytes::be16_bytes(port ^ 0x2112) + stun::xor_bytes(
        octets,
        stun::v6_mask(transaction_id),
    )
}

/// An IPv4 address with a port other than zero reads back from its masked form,
/// whatever the reserved byte holds.
pub proof fn law_v4_address_reads_back(reserved: u8, a: SocketAddressV4, transaction_id: Seq<u8>)
    requires
        a.port != 0,
    ensures
        stun::read_mapped_address(mapped_v4(reserved, a), transaction_id) == Ok::<
            SocketAddress,
            ParseErrorView,
        >(SocketAddress::V4(a)),
{
    let port = a.port;
    let ip = a.ip;
    let value = mapped_v4(reserved, a);
    bytes::lemma_be16_bytes(port ^ 0x2112);
    bytes::lemma_be32_bytes(ip ^ MAGIC_COOKIE);
    assert((port ^ 0x2112) ^ 0x2112 == port) by (bit_vector);
    assert((ip ^ 0x2112_A442) ^ 0x2112_A442 == ip) by (bit_vector);
    let p = bytes::be16_bytes(port ^ 0x2112);
    let q = bytes::be32_bytes(ip ^ MAGIC_COOKIE);
    assert(value[2] == p[0] && value[3] == p[1]);
    assert(value[4] == q[0] && value[5] == q[1] && value[6] == q[2] && value[7] == q[3]);
}

/// An IPv6 address with a port other than zero reads back from its masked form,
/// whatever the reserved byte holds.
pub proof fn law_v6_address_reads_back(
    reserved: u8,
    octets: Seq<u8>,
    port: u16,
    transaction_id: Seq<u8>,
)
    requires
        octets.len() == 16,
        port != 0,
        transaction_id.len() == 12,
    ensures
        stun::read_mapped_address(
            mapped_v6(reserved, octets, port, transaction_id),
            transaction_id,
        ) == Ok::<SocketAddress, ParseErrorView>(
            SocketAddress::V6(
                SocketAddressV6 {
                    ip: bytes::be_value(octets) as u128,
                    port,
                    flowinfo: 0,
                    scope_id: 0,
                },
            ),
        ),
{
    let value = mapped_v6(reserved, octets, port, transaction_id);
    let mask = stun::v6_mask(transaction_id);
    bytes::lemma_be16_bytes(port ^ 0x2112);
    assert((port ^ 0x2112) ^ 0x2112 == port) by (bit_vector);
    let p = bytes::be16_bytes(port ^ 0x2112);
    assert(value[2] == p[0] && value[3] == p[1]);
    let masked = stun::xor_bytes(octets, mask);
    assert(value.subrange(4, 20) =~= masked);
    assert forall|i: int| 0 <= i < 16 implies stun::xor_bytes(masked, mask)[i] == octets[i] by {
        let x = octets[i];
        let m = mask[i];
        assert((x ^ m) ^ m == x) by (bit_vector);
    }
    assert(stun::xor_bytes(masked, mask) =~= octets);
}

/// A Binding response that carries one XOR-MAPPED-ADDRESS attribute.
pub open spec fn success_response(value: Seq<u8>, transaction_id: Seq<u8>) -> Seq<u8> {
    stun::stun_header(0x0101, (4 + value.len()) as u16, transaction_id) + bytes::be16_bytes(0x0020)
        + bytes::be16_bytes(value.len() as u16) + value
}

/// A server that answers a request with the masked IPv4 address it sees is
/// understood: the address comes out of the response.
pub proof fn law_response_reads_back(reserved: u8, a: SocketAddressV4, transaction_id: Seq<u8>)
    requires
        a.port != 0,
        transaction_id.len() == 12,
    ensures
        stun::read_binding_response(
            success_response(mapped_v4(reserved, a), transaction_id),
            transaction_id,
        ) == Ok::<BindingResponseView, ParseErrorView>(
            BindingResponseView::Success(SocketAddress::V4(a)),
        ),
{
    let value = mapped_v4(reserved, a);
    let packet = success_response(value, transaction_id);
    bytes::lemma_be16_bytes(0x0101);
    bytes::lemma_be16_bytes(12);
    bytes::lemma_be16_bytes(0x0020);
    bytes::lemma_be16_bytes(8);
    bytes::lemma_be32_bytes(MAGIC_COOKIE);
    law_v4_address_reads_back(reserved, a, transaction_id);
    assert(value.len() == 8);
    assert(packet.len() == 32);
    assert(packet.subrange(8, 20) =~= transaction_id);
    assert(packet.subrange(24, 32) =~= value);
    assert(packet[0] == bytes::be16_bytes(0x0101)[0]);
    assert(packet[20] == bytes::be16_bytes(0x0020)[0] && packet[21] == bytes::be16_bytes(
        0x0020,
    )[1]);
    assert(packet[22] == bytes::be16_bytes(8)[0] && packet[23] == bytes::be16_bytes(8)[1]);
    let acc = stun::take_attribute(stun::scan_start(), 0x0101, 0x0020, value, transaction_id)->Ok_0;
    assert(stun::scan(packet, 32, acc, 0x0101, transaction_id) == Ok::<_, ParseErrorView>(acc));
}

/// Whether a packet's attributes from `offset` on hold one of the given type.
pub open spec fn has_attribute(packet: Seq<u8>, offset: int, kind: u16) -> bool
    decreases packet.len() - offset,
{
    if offset + 4 > packet.len() {
        false
    } else {
        let len = bytes::be16(packet[offset + 2], packet[offset + 3]) as int;
        let next_offset = offset + 4 + (len + 3) / 4 * 4;
        ||| bytes::be16(packet[offset], packet[offset + 1]) == kind
        ||| next_offset <= packet.len() && has_attribute(packet, next_offset, kind)
    }
}

proof fn lemma_no_xor_mapped(
    packet: Seq<u8>,
    offset: int,
    acc: ScanView,
    message_type: u16,
    transaction_id: Seq<u8>,
)
    requires
        !has_attribute(packet, offset, 0x0020),
        acc.xor_mapped is None,
    ensures
        stun::scan(packet, offset, acc, message_type, transaction_id) matches Ok(found)
            ==> found.xor_mapped is None,
    decreases packet.len() - offset,
{
    if offset + 4 <= packet.len() {
        let kind = bytes::be16(packet[offset], packet[offset + 1]);
        let len = bytes::be16(packet[offset + 2], packet[offset + 3]) as int;
        let next_offset = offset + 4 + (len + 3) / 4 * 4;
        if next_offset <= packet.len() {
            let value = packet.subrange(offset + 4, offset + 4 + len);
            match stun::take_attribute(acc, message_type, kind, value, transaction_id) {
                Ok(next) => {
                    lemma_no_xor_mapped(packet, next_offset, next, message_type, transaction_id);
                },
                Err(_) => {},
            }
        }
    }
}

/// Only an XOR-MAPPED-ADDRESS attribute gives an address: a packet without one,
/// plain MAPPED-ADDRESS or not, is no successful response.
pub proof fn law_success_needs_xor_mapped(packet: Seq<u8>, transaction_id: Seq<u8>)
    requires
        !has_attribute(packet, 20, 0x0020),
    ensures
        !(stun::read_binding_response(packet, transaction_id) matches Ok(
            BindingResponseView::Success(_),
        )),
{
    let message_type = bytes::be16(packet[0], packet[1]);
    lemma_no_xor_mapped(packet, 20, stun::scan_start(), message_type, transaction_id);
}

/// Behind a message integrity attribute nothing more is learned.
pub proof fn law_nothing_is_learned_after_integrity(
    packet: Seq<u8>,
    offset: int,
    acc: ScanView,
    message_type: u16,
    transaction_id: Seq<u8>,
)
    requires
        !acc.semantic,
    ensures
        stun::scan(packet, offset, acc, message_type, transaction_id) matches Ok(found) ==> found
            == acc,
    decreases packet.len() - offset,
{
    if offset < packet.len() && offset + 4 <= packet.len() {
        let len = bytes::be16(packet[offset + 2], packet[offset + 3]) as int;
        let next_offset = offset + 4 + (len + 3) / 4 * 4;
        if next_offset <= packet.len() {
            law_nothing_is_learned_after_integrity(
                packet,
                next_offset,
                acc,
                message_type,
                transaction_id,
            );
        }
    }
}

/// A packet whose first attribute is a message integrity gives neither an
/// address nor a server error, whatever follows.
pub proof fn law_integrity_first_gives_nothing(packet: Seq<u8>, transaction_id: Seq<u8>)
    requires
        packet.len() >= 24,
        stun::is_integrity(bytes::be16(packet[20], packet[21])),
    ensures
        stun::read_binding_response(packet, transaction_id) is Err,
{
    let message_type = bytes::be16(packet[0], packet[1]);
    let len = bytes::be16(packet[22], packet[23]) as int;
    let next_offset = 24 + (len + 3) / 4 * 4;
    let acc = ScanView { semantic: false, ..stun::scan_start() };
    law_nothing_is_learned_after_integrity(packet, next_offset, acc, message_type, transaction_id);
    if next_offset <= packet.len() {
        let value = packet.subrange(24, 24 + len);
        assert(value.len() == len);
    }
}

proof fn lemma_scan_error_is_malformed(
    packet: Seq<u8>,
    offset: int,
    acc: ScanView,
    message_type: u16,
    transaction_id: Seq<u8>,
)
    ensures
        stun::scan(packet, offset, acc, message_type, transaction_id) matches Err(e)
            ==> e is Malformed,
    decreases packet.len() - offset,
{
    if offset < packet.len() && offset + 4 <= packet.len() {
        let kind = bytes::be16(packet[offset], packet[offset + 1]);
        let len = bytes::be16(packet[offset + 2], packet[offset + 3]) as int;
        let next_offset = offset + 4 + (len + 3) / 4 * 4;
        if next_offset <= packet.len() {
            let value = packet.subrange(offset + 4, offset + 4 + len);
            match stun::take_attribute(acc, message_type, kind, value, transaction_id) {
                Ok(next) => {
                    lemma_scan_error_is_malformed(
                        packet,
                        next_offset,
                        next,
                        message_type,
                        transaction_id,
                    );
                },
                Err(_) => {},
            }
        }
    }
}

/// A packet that a STUN header frames exactly.
pub open spec fn is_framed(packet: Seq<u8>) -> bool {
    &&& packet.len() >= 20
    &&& packet[0] < 0x40
    &&& bytes::be16(packet[2], packet[3]) % 4 == 0
    &&& 20 + bytes::be16(packet[2], packet[3]) == packet.len()
}

/// A packet belongs to another exchange exactly when it is framed as a STUN
/// message and its magic cookie or its transaction identifier differs.
pub proof fn law_foreign_packets(packet: Seq<u8>, transaction_id: Seq<u8>)
    ensures
        (stun::read_binding_response(packet, transaction_id) matches Err(
            ParseErrorView::NotThisTransaction(_),
        )) <==> (is_framed(packet) && (bytes::be32(packet[4], packet[5], packet[6], packet[7])
            != MAGIC_COOKIE || packet.subrange(8, 20) != transaction_id)),
{
    let message_type = bytes::be16(packet[0], packet[1]);
    lemma_scan_error_is_malformed(packet, 20, stun::scan_start(), message_type, transaction_id);
}

/// A response that is understood answers the request with its transaction
/// identifier.
pub proof fn law_understood_response_answers_the_request(packet: Seq<u8>, transaction_id: Seq<u8>)
    ensures
        stun::read_binding_response(packet, transaction_id) is Ok ==> (packet.len() >= 20
            && packet.subrange(8, 20) == stun::binding_request(transaction_id).skip(8)),
{
    assert(stun::binding_request(transaction_id).skip(8) =~= transaction_id);
}

// ---------------------------------------------------------------------------
// Optional attributes
// ---------------------------------------------------------------------------

/// The walk over the attributes that starts at `from` comes by `offset`.
pub open spec fn is_boundary(packet: Seq<u8>, from: int, offset: int) -> bool
    decreases packet.len() - from,
{
    if from == offset {
        true
    } else if from + 4 > packet.len() {
        false
    } else {
        let len = bytes::be16(packet[from + 2], packet[from + 3]) as int;
        let next = from + 4 + (len + 3) / 4 * 4;
        next <= offset <= packet.len() && is_boundary(packet, next, offset)
    }
}

/// An attribute with its padding.
pub open spec fn attribute(kind: u16, value: Seq<u8>, padding: Seq<u8>) -> Seq<u8> {
    bytes::be16_bytes(kind) + bytes::be16_bytes(value.len() as u16) + value + padding
}

/// The packet with an attribute put in at the offset and the length in the header
/// raised to match.
pub open spec fn with_attribute(packet: Seq<u8>, offset: int, added: Seq<u8>) -> Seq<u8> {
    packet.take(2) + bytes::be16_bytes((packet.len() - 20 + added.len()) as u16)
        + packet.subrange(4, offset) + added + packet.skip(offset)
}

/// What a walk finds depends only on the bytes that are left.
proof fn lemma_scan_rest(
    p: Seq<u8>,
    i: int,
    q: Seq<u8>,
    j: int,
    acc: ScanView,
    message_type: u16,
    transaction_id: Seq<u8>,
)
    requires
        0 <= i <= p.len(),
        0 <= j <= q.len(),
        p.skip(i) == q.skip(j),
    ensures
        stun::scan(p, i, acc, message_type, transaction_id) == stun::scan(
            q,
            j,
            acc,
            message_type,
            transaction_id,
        ),
    decreases p.len() - i,
{
    let rest = p.skip(i);
    assert(p.len() - i == rest.len() && q.len() - j == rest.len());
    if rest.len() >= 4 {
        assert(p[i] == rest[0] && q[j] == rest[0]);
        assert(p[i + 1] == rest[1] && q[j + 1] == rest[1]);
        assert(p[i + 2] == rest[2] && q[j + 2] == rest[2]);
        assert(p[i + 3] == rest[3] && q[j + 3] == rest[3]);
        let kind = bytes::be16(rest[0], rest[1]);
        let len = bytes::be16(rest[2], rest[3]) as int;
        let size = 4 + (len + 3) / 4 * 4;
        if 4 + len <= rest.len() {
            let value = rest.subrange(4, 4 + len);
            assert(p.subrange(i + 4, i + 4 + len) =~= value);
            assert(q.subrange(j + 4, j + 4 + len) =~= value);
            match stun::take_attribute(acc, message_type, kind, value, transaction_id) {
                Ok(next) => {
                    if size <= rest.len() {
                        assert(p.skip(i + size) =~= rest.skip(size));
                        assert(q.skip(j + size) =~= rest.skip(size));
                        lemma_scan_rest(
                            p,
                            i + size,
                            q,
                            j + size,
                            next,
                            message_type,
                            transaction_id,
                        );
                    }
                },
                Err(_) => {},
            }
        }
    }
}

/// Nothing is learned from an attribute of this type.
pub open spec fn is_silent(kind: u16, message_type: u16) -> bool {
    &&& kind >= 0x8000 || stun::is_known_required(kind)
    &&& kind != 0x0020
    &&& kind != 0x0008
    &&& kind != 0x001c
    &&& !(kind == 0x0009 && message_type == 0x0111)
}

/// A walk from `from` on finds the same with the attribute put in.
#[verifier::rlimit(30)]
proof fn lemma_scan_with_attribute(
    packet: Seq<u8>,
    from: int,
    offset: int,
    kind: u16,
    value: Seq<u8>,
    padding: Seq<u8>,
    acc: ScanView,
    message_type: u16,
    transaction_id: Seq<u8>,
)
    requires
        20 <= from <= offset <= packet.len(),
        is_boundary(packet, from, offset),
        is_silent(kind, message_type),
        value.len() <= 0xffff,
        value.len() + padding.len() == (value.len() + 3) / 4 * 4,
    ensures
        stun::scan(
            with_attribute(packet, offset, attribute(kind, value, padding)),
            from,
            acc,
            message_type,
            transaction_id,
        ) == stun::scan(packet, from, acc, message_type, transaction_id),
    decreases offset - from,
{
    let added = attribute(kind, value, padding);
    let longer = with_attribute(packet, offset, added);
    if from == offset {
        let len = value.len() as u16;
        bytes::lemma_be16_bytes(kind);
        bytes::lemma_be16_bytes(len);
        assert(longer[from] == added[0] && added[0] == bytes::be16_bytes(kind)[0]);
        assert(longer[from + 1] == added[1] && added[1] == bytes::be16_bytes(kind)[1]);
        assert(longer[from + 2] == added[2] && added[2] == bytes::be16_bytes(len)[0]);
        assert(longer[from + 3] == added[3] && added[3] == bytes::be16_bytes(len)[1]);
        let found = longer.subrange(from + 4, from + 4 + value.len());
        assert(stun::take_attribute(acc, message_type, kind, found, transaction_id) == Ok::<
            ScanView,
            ParseErrorView,
        >(acc));
        let next = from + added.len();
        assert(longer.skip(next) =~= packet.skip(offset));
        lemma_scan_rest(longer, next, packet, offset, acc, message_type, transaction_id);
    } else {
        let here = bytes::be16(packet[from], packet[from + 1]);
        let len = bytes::be16(packet[from + 2], packet[from + 3]) as int;
        let next = from + 4 + (len + 3) / 4 * 4;
        assert forall|i: int| 4 <= i < offset implies longer[i] == packet[i] by {}
        let found = packet.subrange(from + 4, from + 4 + len);
        assert(longer.subrange(from + 4, from + 4 + len) =~= found);
        match stun::take_attribute(acc, message_type, here, found, transaction_id) {
            Ok(then) => {
                lemma_scan_with_attribute(
                    packet,
                    next,
                    offset,
                    kind,
                    value,
                    padding,
                    then,
                    message_type,
                    transaction_id,
                );
            },
            Err(_) => {},
        }
    }
}

/// The same bytes stand in the headers of two packets, but for the length.
spec fn same_header(p: Seq<u8>, q: Seq<u8>) -> bool {
    &&& p[0] == q[0]
    &&& p[1] == q[1]
    &&& p[4] == q[4]
    &&& p[5] == q[5]
    &&& p[6] == q[6]
    &&& p[7] == q[7]
    &&& p.subrange(8, 20) == q.subrange(8, 20)
}

/// Two framed packets with the same header but for the length are refused for the
/// same reason, if at all.
proof fn lemma_same_header(p: Seq<u8>, q: Seq<u8>, transaction_id: Seq<u8>)
    requires
        is_framed(p),
        is_framed(q),
        same_header(p, q),
    ensures
        stun::header_error(p, transaction_id) == stun::header_error(q, transaction_id),
{
}

/// A message with an attribute put in is framed, and has the same header but for
/// the length.
proof fn lemma_header_with_attribute(packet: Seq<u8>, offset: int, added: Seq<u8>)
    requires
        is_framed(packet),
        20 <= offset <= packet.len(),
        added.len() % 4 == 0,
        packet.len() - 20 + added.len() <= 0xffff,
    ensures
        is_framed(with_attribute(packet, offset, added)),
        same_header(with_attribute(packet, offset, added), packet),
{
    let longer = with_attribute(packet, offset, added);
    let length = (packet.len() - 20 + added.len()) as u16;
    let raised = bytes::be16_bytes(length);
    bytes::lemma_be16_bytes(length);
    assert(raised.len() == 2);
    assert(longer.len() == 20 + length);
    assert(longer[2] == raised[0] && longer[3] == raised[1]);
    assert(longer.subrange(8, 20) =~= packet.subrange(8, 20));
    assert((packet.len() - 20) % 4 == 0);
    assert(length % 4 == 0);
}

/// An attribute from which nothing is learned changes nothing, wherever it is put
/// in.
pub proof fn lemma_silent_attribute(
    packet: Seq<u8>,
    offset: int,
    kind: u16,
    value: Seq<u8>,
    padding: Seq<u8>,
    transaction_id: Seq<u8>,
)
    requires
        is_framed(packet),
        20 <= offset <= packet.len(),
        is_boundary(packet, 20, offset),
        is_silent(kind, bytes::be16(packet[0], packet[1])),
        value.len() + padding.len() == (value.len() + 3) / 4 * 4,
        packet.len() - 20 + attribute(kind, value, padding).len() <= 0xffff,
    ensures
        stun::read_binding_response(
            with_attribute(packet, offset, attribute(kind, value, padding)),
            transaction_id,
        ) == stun::read_binding_response(packet, transaction_id),
{
    let added = attribute(kind, value, padding);
    assert(added.len() == 4 + value.len() + padding.len());
    lemma_header_with_attribute(packet, offset, added);
    lemma_same_header(with_attribute(packet, offset, added), packet, transaction_id);
    lemma_scan_with_attribute(
        packet,
        20,
        offset,
        kind,
        value,
        padding,
        stun::scan_start(),
        bytes::be16(packet[0], packet[1]),
        transaction_id,
    );
}

/// Attributes that need not be understood do not matter: one of a type from
/// 0x8000 on, with any value and any padding, put in between the attributes of a
/// message that its header frames, changes nothing of what the message means.
pub proof fn law_optional_attributes_do_not_matter(
    packet: Seq<u8>,
    offset: int,
    kind: u16,
    value: Seq<u8>,
    padding: Seq<u8>,
    transaction_id: Seq<u8>,
)
    requires
        is_framed(packet),
        20 <= offset <= packet.len(),
        is_boundary(packet, 20, offset),
        kind >= 0x8000,
        value.len() + padding.len() == (value.len() + 3) / 4 * 4,
        packet.len() - 20 + attribute(kind, value, padding).len() <= 0xffff,
    ensures
        stun::read_binding_response(
            with_attribute(packet, offset, attribute(kind, value, padding)),
            transaction_id,
        ) == stun::read_binding_response(packet, transaction_id),
{
    lemma_silent_attribute(packet, offset, kind, value, padding, transaction_id);
}

/// What is understood is framed: a message that is accepted is accepted with the
/// same meaning when an optional attribute is put in.
pub proof fn law_accepted_with_optional_attribute(
    packet: Seq<u8>,
    offset: int,
    kind: u16,
    value: Seq<u8>,
    padding: Seq<u8>,
    transaction_id: Seq<u8>,
    meaning: BindingResponseView,
)
    requires
        stun::read_binding_response(packet, transaction_id) == Ok::<
            BindingResponseView,
            ParseErrorView,
        >(meaning),
        20 <= offset <= packet.len(),
        is_boundary(packet, 20, offset),
        kind >= 0x8000,
        value.len() + padding.len() == (value.len() + 3) / 4 * 4,
        packet.len() - 20 + attribute(kind, value, padding).len() <= 0xffff,
    ensures
        stun::read_binding_response(
            with_attribute(packet, offset, attribute(kind, value, padding)),
            transaction_id,
        ) == Ok::<BindingResponseView, ParseErrorView>(meaning),
{
    law_optional_attributes_do_not_matter(packet, offset, kind, value, padding, transaction_id);
}

} // verus!
