//! What the attributes of a STUN response mean: which of them count, in which
//! order, and what their values say.

use crate::address::{SocketAddress, SocketAddressV4, SocketAddressV6};
use crate::bytes;
use crate::stun;
use crate::stun::{BindingResponseView, ParseErrorView, ScanView};
use crate::stun_laws;
use crate::text;
use vstd::prelude::*;
use vstd::utf8;

verus! {

// ---------------------------------------------------------------------------
// Attributes
// ---------------------------------------------------------------------------

/// One attribute: its type and its value.
pub struct Attribute {
    pub kind: u16,
    pub value: Seq<u8>,
}

/// The number that two bytes stand for.
pub open spec fn number(packet: Seq<u8>, at: int) -> int {
    packet[at] as int * 256 + packet[at + 1] as int
}

/// The attributes from `offset` to the end of the packet, where they fill it
/// exactly: each a type, a length, a value and padding to four bytes.
pub open spec fn attributes(packet: Seq<u8>, offset: int) -> Option<Seq<Attribute>>
    decreases packet.len() - offset,
{
    if offset >= packet.len() {
        Some(Seq::empty())
    } else if offset + 4 > packet.len() {
        None
    } else {
        let len = number(packet, offset + 2);
        let next = offset + 4 + (len + 3) / 4 * 4;
        if next > packet.len() {
            None
        } else {
            match attributes(packet, next) {
                None => None,
                Some(rest) => Some(
                    seq![
                        Attribute {
                            kind: number(packet, offset) as u16,
                            value: packet.subrange(offset + 4, offset + 4 + len),
                        },
                    ] + rest,
                ),
            }
        }
    }
}

/// The attributes before the first MESSAGE-INTEGRITY or MESSAGE-INTEGRITY-SHA256:
/// those that have a meaning.
pub open spec fn meaningful(all: Seq<Attribute>) -> Seq<Attribute>
    decreases all.len(),
{
    if all.len() == 0 || all[0].kind == 0x0008 || all[0].kind == 0x001c {
        Seq::empty()
    } else {
        seq![all[0]] + meaningful(all.drop_first())
    }
}

/// The value of the first attribute of this type.
pub open spec fn first_of(all: Seq<Attribute>, kind: u16) -> Option<Seq<u8>>
    decreases all.len(),
{
    if all.len() == 0 {
        None
    } else if all[0].kind == kind {
        Some(all[0].value)
    } else {
        first_of(all.drop_first(), kind)
    }
}

/// The value of the last attribute of this type.
pub open spec fn last_of(all: Seq<Attribute>, kind: u16) -> Option<Seq<u8>>
    decreases all.len(),
{
    if all.len() == 0 {
        None
    } else if all.last().kind == kind {
        Some(all.last().value)
    } else {
        last_of(all.drop_last(), kind)
    }
}

/// An attribute that need not be understood, or is.
pub open spec fn acceptable(kind: u16) -> bool {
    kind >= 0x8000 || seq![
        0x0001u16,
        0x0006,
        0x0008,
        0x0009,
        0x000a,
        0x0014,
        0x0015,
        0x001c,
        0x001d,
        0x001e,
        0x0020,
    ].contains(kind)
}

/// Every attribute need not be understood, or is.
pub open spec fn all_acceptable(all: Seq<Attribute>) -> bool {
    forall|i: int| 0 <= i < all.len() ==> acceptable((#[trigger] all[i]).kind)
}

/// Every ERROR-CODE can be read.
pub open spec fn errors_readable(all: Seq<Attribute>) -> bool {
    forall|i: int|
        0 <= i < all.len() && (#[trigger] all[i]).kind == 0x0009 ==> stun::read_error_code(
            all[i].value,
        ) is Ok
}

/// Exactly eleven types below 0x8000 are understood.
pub proof fn law_known_attributes(kind: u16)
    ensures
        stun::is_known_required(kind) || kind >= 0x8000 <==> acceptable(kind),
{
    let known = seq![
        0x0001u16,
        0x0006,
        0x0008,
        0x0009,
        0x000a,
        0x0014,
        0x0015,
        0x001c,
        0x001d,
        0x001e,
        0x0020,
    ];
    if stun::is_known_required(kind) {
        assert(known[0] == 0x0001 && known[1] == 0x0006 && known[2] == 0x0008 && known[3] == 0x0009
            && known[4] == 0x000a && known[5] == 0x0014 && known[6] == 0x0015 && known[7] == 0x001c
            && known[8] == 0x001d && known[9] == 0x001e && known[10] == 0x0020);
        let i: int = if kind == 0x0001 {
            0
        } else if kind == 0x0006 {
            1
        } else if kind == 0x0008 {
            2
        } else if kind == 0x0009 {
            3
        } else if kind == 0x000a {
            4
        } else if kind == 0x0014 {
            5
        } else if kind == 0x0015 {
            6
        } else if kind == 0x001c {
            7
        } else if kind == 0x001d {
            8
        } else if kind == 0x001e {
            9
        } else {
            10
        };
        assert(known[i] == kind);
    } else if known.contains(kind) {
        let i = choose|i: int| 0 <= i < known.len() && known[i] == kind;
        assert(0 <= i < 11);
    }
}

// ---------------------------------------------------------------------------
// The walk over the attributes
// ---------------------------------------------------------------------------

/// What is learned from the attributes one by one.
spec fn learn(
    acc: ScanView,
    all: Seq<Attribute>,
    message_type: u16,
    transaction_id: Seq<u8>,
) -> Result<ScanView, ParseErrorView>
    decreases all.len(),
{
    if all.len() == 0 {
        Ok(acc)
    } else {
        match stun::take_attribute(
            acc,
            message_type,
            all[0].kind,
            all[0].value,
            transaction_id,
        ) {
            Err(e) => Err(e),
            Ok(next) => learn(next, all.drop_first(), message_type, transaction_id),
        }
    }
}

proof fn lemma_scan_learns(
    packet: Seq<u8>,
    offset: int,
    acc: ScanView,
    message_type: u16,
    transaction_id: Seq<u8>,
)
    ensures
        match attributes(packet, offset) {
            Some(all) => stun::scan(packet, offset, acc, message_type, transaction_id) == learn(
                acc,
                all,
                message_type,
                transaction_id,
            ),
            None => stun::scan(packet, offset, acc, message_type, transaction_id) is Err,
        },
    decreases packet.len() - offset,
{
    if offset < packet.len() && offset + 4 <= packet.len() {
        let kind = bytes::be16(packet[offset], packet[offset + 1]);
        let len = bytes::be16(packet[offset + 2], packet[offset + 3]) as int;
        let next = offset + 4 + (len + 3) / 4 * 4;
        assert(kind == number(packet, offset) as u16);
        assert(len == number(packet, offset + 2));
        if next <= packet.len() {
            let value = packet.subrange(offset + 4, offset + 4 + len);
            match stun::take_attribute(acc, message_type, kind, value, transaction_id) {
                Ok(then) => {
                    lemma_scan_learns(packet, next, then, message_type, transaction_id);
                },
                Err(_) => {},
            }
            if let Some(rest) = attributes(packet, next) {
                let all = attributes(packet, offset)->0;
                assert(all[0] == Attribute { kind, value });
                assert(all.drop_first() =~= rest);
            }
        }
    }
}

/// The meaningful attributes without the first one.
proof fn lemma_rest(all: Seq<Attribute>)
    requires
        all.len() > 0,
    ensures
        all_acceptable(all) <==> acceptable(all[0].kind) && all_acceptable(all.drop_first()),
        errors_readable(all) <==> (all[0].kind == 0x0009 ==> stun::read_error_code(
            all[0].value,
        ) is Ok) && errors_readable(all.drop_first()),
        last_of(all, 0x0009) == (match last_of(all.drop_first(), 0x0009) {
            Some(v) => Some(v),
            None => if all[0].kind == 0x0009 {
                Some(all[0].value)
            } else {
                None
            },
        }),
    decreases all.len(),
{
    let rest = all.drop_first();
    assert forall|i: int| 0 <= i < rest.len() implies #[trigger] rest[i] == all[i + 1] by {}
    if all_acceptable(all) {
        assert(all[0] == all[0]);
        assert forall|i: int| 0 <= i < rest.len() implies acceptable((#[trigger] rest[i]).kind) by {
            assert(rest[i] == all[i + 1]);
        }
    }
    if acceptable(all[0].kind) && all_acceptable(rest) {
        assert forall|i: int| 0 <= i < all.len() implies acceptable((#[trigger] all[i]).kind) by {
            if i > 0 {
                assert(rest[i - 1] == all[i]);
            }
        }
    }
    if errors_readable(all) {
        assert forall|i: int| 0 <= i < rest.len() && (#[trigger] rest[i]).kind
            == 0x0009 implies stun::read_error_code(rest[i].value) is Ok by {
            assert(rest[i] == all[i + 1]);
        }
    }
    if (all[0].kind == 0x0009 ==> stun::read_error_code(all[0].value) is Ok) && errors_readable(
        rest,
    ) {
        assert forall|i: int| 0 <= i < all.len() && (#[trigger] all[i]).kind
            == 0x0009 implies stun::read_error_code(all[i].value) is Ok by {
            if i > 0 {
                assert(rest[i - 1] == all[i]);
            }
        }
    }
    if all.len() > 1 {
        assert(rest.last() == all.last());
        if all.last().kind != 0x0009 {
            lemma_rest(all.drop_last());
            assert(all.drop_last().drop_first() =~= rest.drop_last());
        }
    } else {
        assert(all.drop_last() =~= Seq::empty());
        assert(rest =~= Seq::empty());
    }
}

/// The address that is known after the attributes, if they are in order.
spec fn known_address(
    acc: ScanView,
    all: Seq<Attribute>,
    transaction_id: Seq<u8>,
) -> Option<Result<SocketAddress, ParseErrorView>> {
    match acc.xor_mapped {
        Some(a) => Some(Ok(a)),
        None => match first_of(all, 0x0020) {
            Some(v) => Some(stun::read_mapped_address(v, transaction_id)),
            None => None,
        },
    }
}

/// What is learned is what the meaningful attributes say.
proof fn lemma_learned(
    acc: ScanView,
    all: Seq<Attribute>,
    message_type: u16,
    transaction_id: Seq<u8>,
)
    requires
        acc.semantic,
    ensures
        ({
            let seen = meaningful(all);
            let address = known_address(acc, seen, transaction_id);
            let learned = learn(acc, all, message_type, transaction_id);
            &&& learned is Ok <==> {
                &&& all_acceptable(seen)
                &&& address is Some ==> address->0 is Ok
                &&& message_type == 0x0111 ==> errors_readable(seen)
            }
            &&& learned matches Ok(found) ==> {
                &&& found.xor_mapped == (if address is Some {
                    Some(address->0->Ok_0)
                } else {
                    None
                })
                &&& found.error_code == (if message_type == 0x0111 && last_of(
                    seen,
                    0x0009,
                ) is Some {
                    Some(stun::read_error_code(last_of(seen, 0x0009)->0)->Ok_0)
                } else {
                    acc.error_code
                })
            }
        }),
    decreases all.len(),
{
    let seen = meaningful(all);
    if all.len() > 0 {
        let kind = all[0].kind;
        let value = all[0].value;
        law_known_attributes(kind);
        if stun::is_integrity(kind) {
            let next = ScanView { semantic: false, ..acc };
            assert(stun::take_attribute(acc, message_type, kind, value, transaction_id) == Ok::<
                ScanView,
                ParseErrorView,
            >(next));
            lemma_nothing_learned(next, all.drop_first(), message_type, transaction_id);
        } else {
            let rest = all.drop_first();
            assert(seen.drop_first() =~= meaningful(rest));
            assert(seen[0] == all[0]);
            lemma_rest(seen);
            match stun::take_attribute(acc, message_type, kind, value, transaction_id) {
                Ok(next) => {
                    lemma_learned(next, rest, message_type, transaction_id);
                },
                Err(_) => {},
            }
        }
    }
}

/// After a message integrity attribute nothing is learned or refused.
proof fn lemma_nothing_learned(
    acc: ScanView,
    all: Seq<Attribute>,
    message_type: u16,
    transaction_id: Seq<u8>,
)
    requires
        !acc.semantic,
    ensures
        learn(acc, all, message_type, transaction_id) == Ok::<ScanView, ParseErrorView>(acc),
    decreases all.len(),
{
    if all.len() > 0 {
        lemma_nothing_learned(acc, all.drop_first(), message_type, transaction_id);
    }
}

// ---------------------------------------------------------------------------
// Responses
// ---------------------------------------------------------------------------

/// The header of a STUN message for the transaction: a type below 0x4000, the
/// exact length, a multiple of four, the magic cookie, and the identifier.
pub open spec fn is_message(packet: Seq<u8>, transaction_id: Seq<u8>) -> bool {
    &&& packet.len() >= 20
    &&& packet[0] < 0x40
    &&& number(packet, 2) % 4 == 0
    &&& packet.len() == 20 + number(packet, 2)
    &&& packet[4] == 0x21
    &&& packet[5] == 0x12
    &&& packet[6] == 0xa4
    &&& packet[7] == 0x42
    &&& packet.subrange(8, 20) == transaction_id
}

proof fn lemma_header(packet: Seq<u8>, transaction_id: Seq<u8>)
    ensures
        stun::header_error(packet, transaction_id) is None <==> is_message(packet, transaction_id)
            && (number(packet, 0) == 0x0101 || number(packet, 0) == 0x0111),
{
    if packet.len() >= 20 {
        assert(bytes::be16(packet[0], packet[1]) == number(packet, 0));
        assert(bytes::be16(packet[2], packet[3]) == number(packet, 2));
    }
}

/// A packet is a successful response with the address exactly when it is a
/// Binding Success (0x0101) for the transaction, its attributes fill it exactly,
/// those before any message integrity are all known or optional, and the first
/// XOR-MAPPED-ADDRESS among these unmasks to the address.
pub proof fn law_success_is_the_first_xor_mapped_address(
    packet: Seq<u8>,
    transaction_id: Seq<u8>,
    address: SocketAddress,
)
    ensures
        stun::read_binding_response(packet, transaction_id) == Ok::<
            BindingResponseView,
            ParseErrorView,
        >(BindingResponseView::Success(address)) <==> {
            &&& is_message(packet, transaction_id)
            &&& number(packet, 0) == 0x0101
            &&& attributes(packet, 20) is Some
            &&& all_acceptable(meaningful(attributes(packet, 20)->0))
            &&& first_of(meaningful(attributes(packet, 20)->0), 0x0020) is Some
            &&& stun::read_mapped_address(
                first_of(meaningful(attributes(packet, 20)->0), 0x0020)->0,
                transaction_id,
            ) == Ok::<SocketAddress, ParseErrorView>(address)
        },
{
    lemma_header(packet, transaction_id);
    if is_message(packet, transaction_id) {
        let message_type = bytes::be16(packet[0], packet[1]);
        assert(message_type == number(packet, 0));
        lemma_scan_learns(packet, 20, stun::scan_start(), message_type, transaction_id);
        if attributes(packet, 20) is Some {
            lemma_learned(
                stun::scan_start(),
                attributes(packet, 20)->0,
                message_type,
                transaction_id,
            );
        }
    }
}

/// A packet is a server error exactly when it is a Binding Error (0x0111) for the
/// transaction, its attributes fill it exactly, those before any message integrity
/// are all known or optional and can be read, and the last ERROR-CODE among these
/// says so.
pub proof fn law_server_error_is_the_last_error_code(
    packet: Seq<u8>,
    transaction_id: Seq<u8>,
    code: u16,
    reason: Seq<char>,
)
    ensures
        stun::read_binding_response(packet, transaction_id) == Ok::<
            BindingResponseView,
            ParseErrorView,
        >(BindingResponseView::ServerError { code, reason }) <==> {
            let seen = meaningful(attributes(packet, 20)->0);
            &&& is_message(packet, transaction_id)
            &&& number(packet, 0) == 0x0111
            &&& attributes(packet, 20) is Some
            &&& all_acceptable(seen)
            &&& first_of(seen, 0x0020) is Some ==> stun::read_mapped_address(
                first_of(seen, 0x0020)->0,
                transaction_id,
            ) is Ok
            &&& errors_readable(seen)
            &&& last_of(seen, 0x0009) is Some
            &&& stun::read_error_code(last_of(seen, 0x0009)->0) == Ok::<
                (u16, Seq<char>),
                ParseErrorView,
            >((code, reason))
        },
{
    lemma_header(packet, transaction_id);
    if is_message(packet, transaction_id) {
        let message_type = bytes::be16(packet[0], packet[1]);
        assert(message_type == number(packet, 0));
        lemma_scan_learns(packet, 20, stun::scan_start(), message_type, transaction_id);
        if attributes(packet, 20) is Some {
            let seen = meaningful(attributes(packet, 20)->0);
            lemma_learned(
                stun::scan_start(),
                attributes(packet, 20)->0,
                message_type,
                transaction_id,
            );
            if errors_readable(seen) && last_of(seen, 0x0009) is Some {
                lemma_last_readable(seen);
            }
        }
    }
}

proof fn lemma_last_readable(all: Seq<Attribute>)
    requires
        errors_readable(all),
        last_of(all, 0x0009) is Some,
    ensures
        stun::read_error_code(last_of(all, 0x0009)->0) is Ok,
    decreases all.len(),
{
    if all.last().kind == 0x0009 {
        assert(all[all.len() - 1] == all.last());
    } else {
        let front = all.drop_last();
        assert forall|i: int| 0 <= i < front.len() && (#[trigger] front[i]).kind
            == 0x0009 implies stun::read_error_code(front[i].value) is Ok by {
            assert(front[i] == all[i]);
        }
        lemma_last_readable(front);
    }
}

// ---------------------------------------------------------------------------
// Values
// ---------------------------------------------------------------------------

/// The value of an XOR-MAPPED-ADDRESS stands for an IPv4 address exactly when it
/// is eight bytes long, of family 1, and holds the port and the ip masked with
/// the magic cookie; the port is not zero.
pub proof fn law_masked_v4(value: Seq<u8>, transaction_id: Seq<u8>, a: SocketAddressV4)
    ensures
        stun::read_mapped_address(value, transaction_id) == Ok::<SocketAddress, ParseErrorView>(
            SocketAddress::V4(a),
        ) <==> {
            &&& value.len() == 8
            &&& value[1] == 1
            &&& a.port != 0
            &&& number(value, 2) == a.port ^ 0x2112
            &&& number(value, 4) * 0x1_0000 + number(value, 6) == a.ip ^ 0x2112_a442
        },
{
    let port = a.port;
    let ip = a.ip;
    assert((port ^ 0x2112) ^ 0x2112 == port) by (bit_vector);
    assert((ip ^ 0x2112_a442) ^ 0x2112_a442 == ip) by (bit_vector);
    if value.len() >= 4 {
        let raw = bytes::be16(value[2], value[3]);
        assert(raw == number(value, 2));
        assert((raw ^ 0x2112) ^ 0x2112 == raw) by (bit_vector);
        if value.len() == 8 {
            let raw_ip = bytes::be32(value[4], value[5], value[6], value[7]);
            assert(raw_ip == number(value, 4) * 0x1_0000 + number(value, 6));
            assert((raw_ip ^ 0x2112_a442) ^ 0x2112_a442 == raw_ip) by (bit_vector);
        }
    }
}

/// The value of an XOR-MAPPED-ADDRESS stands for an IPv6 address exactly when it
/// is twenty bytes long, of family 2, and holds the port masked with the magic
/// cookie and the sixteen bytes of the ip masked with the magic cookie and the
/// transaction identifier; the port is not zero.
pub proof fn law_masked_v6(value: Seq<u8>, transaction_id: Seq<u8>, a: SocketAddressV6)
    ensures
        stun::read_mapped_address(value, transaction_id) == Ok::<SocketAddress, ParseErrorView>(
            SocketAddress::V6(a),
        ) <==> {
            &&& value.len() == 20
            &&& value[1] == 2
            &&& a.port != 0
            &&& number(value, 2) == a.port ^ 0x2112
            &&& a.flowinfo == 0
            &&& a.scope_id == 0
            &&& a.ip == bytes::be_value(
                Seq::new(
                    16,
                    |i: int|
                        value[4 + i] ^ (seq![0x21u8, 0x12, 0xa4, 0x42] + transaction_id)[i],
                ),
            )
        },
{
    let port = a.port;
    assert((port ^ 0x2112) ^ 0x2112 == port) by (bit_vector);
    if value.len() >= 4 {
        let raw = bytes::be16(value[2], value[3]);
        assert(raw == number(value, 2));
        assert((raw ^ 0x2112) ^ 0x2112 == raw) by (bit_vector);
        if value.len() == 20 {
            let mask = seq![0x21u8, 0x12, 0xa4, 0x42] + transaction_id;
            let octets = Seq::new(16, |i: int| value[4 + i] ^ mask[i]);
            assert(stun::v6_mask(transaction_id) =~= mask);
            assert(stun::xor_bytes(value.subrange(4, 20), mask) =~= octets);
            bytes::lemma_be_value_bound(octets);
            bytes::lemma_be_limit_u128();
        }
    }
}

/// The value of an ERROR-CODE can be read exactly when its first two bytes are
/// zero, its class is 3 to 6, its number is at most 99, and its reason is UTF-8.
/// The code is a hundred times the class plus the number.
pub proof fn law_error_code(value: Seq<u8>, code: u16, reason: Seq<char>)
    ensures
        stun::read_error_code(value) == Ok::<(u16, Seq<char>), ParseErrorView>((code, reason))
            <==> {
            &&& value.len() >= 4
            &&& value[0] == 0
            &&& value[1] == 0
            &&& 3 <= value[2] <= 6
            &&& value[3] <= 99
            &&& utf8::valid_utf8(value.skip(4))
            &&& code == 100 * value[2] + value[3]
            &&& reason == text::escape(utf8::decode_utf8(value.skip(4)))
        },
{
}

// ---------------------------------------------------------------------------
// Attributes that say nothing
// ---------------------------------------------------------------------------

/// An attribute that is passed over in a message of this type, wherever it stands:
/// an optional one, or a known one other than XOR-MAPPED-ADDRESS, the message
/// integrities, and ERROR-CODE in a Binding Error.
pub open spec fn passed_over(kind: u16, message_type: int) -> bool {
    &&& acceptable(kind)
    &&& kind != 0x0020
    &&& kind != 0x0008
    &&& kind != 0x001c
    &&& !(kind == 0x0009 && message_type == 0x0111)
}

/// An attribute that is passed over, with any value and any padding, put in
/// between the attributes of a message that its header frames, changes nothing of
/// what the message means: a plain MAPPED-ADDRESS, a USERNAME, a REALM and the
/// like do not matter.
pub proof fn law_passed_over_attributes_do_not_matter(
    packet: Seq<u8>,
    offset: int,
    kind: u16,
    value: Seq<u8>,
    padding: Seq<u8>,
    transaction_id: Seq<u8>,
)
    requires
        stun_laws::is_framed(packet),
        20 <= offset <= packet.len(),
        stun_laws::is_boundary(packet, 20, offset),
        passed_over(kind, number(packet, 0)),
        value.len() + padding.len() == (value.len() + 3) / 4 * 4,
        packet.len() - 20 + stun_laws::attribute(kind, value, padding).len() <= 0xffff,
    ensures
        stun::read_binding_response(
            stun_laws::with_attribute(
                packet,
                offset,
                stun_laws::attribute(kind, value, padding),
            ),
            transaction_id,
        ) == stun::read_binding_response(packet, transaction_id),
{
    law_known_attributes(kind);
    assert(bytes::be16(packet[0], packet[1]) == number(packet, 0));
    stun_laws::lemma_silent_attribute(packet, offset, kind, value, padding, transaction_id);
}

} // verus!
