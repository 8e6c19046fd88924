//! What is said of codes and packets that are refused: the first thing that is
//! wrong with them.

use crate::address;
use crate::attribute_laws;
use crate::bytes;
use crate::code_laws;
use crate::protocol;
use crate::protocol::{Candidate, ControlPacketView, PeerDescriptionView, ProtocolErrorView};
use crate::stun;
use crate::stun::{BindingResponseView, ParseErrorView, ScanView};
use crate::text;
use vstd::prelude::*;
use vstd::utf8;

verus! {

// ---------------------------------------------------------------------------
// Messages
// ---------------------------------------------------------------------------

/// An error says what it was made with; a packet that was not signed by the peer
/// says so.
pub proof fn law_errors_say_what_they_hold(m: Seq<char>)
    ensures
        ProtocolErrorView::InvalidDescription(m).message() == m,
        ProtocolErrorView::InvalidPacket(m).message() == m,
        ProtocolErrorView::AuthenticationFailed.message() == "HMAC authentication failed"@,
        ParseErrorView::Malformed(m).message() == m,
        ParseErrorView::NotThisTransaction(m).message() == m,
{
}

/// A refused description with this message.
pub open spec fn bad_code(m: Seq<char>) -> Result<PeerDescriptionView, ProtocolErrorView> {
    Err(ProtocolErrorView::InvalidDescription(m))
}

/// A refused packet with this message.
pub open spec fn bad_control(m: Seq<char>) -> Result<ControlPacketView, ProtocolErrorView> {
    Err(ProtocolErrorView::InvalidPacket(m))
}

/// A malformed response with this message.
pub open spec fn bad_response(m: Seq<char>) -> Result<BindingResponseView, ParseErrorView> {
    Err(ParseErrorView::Malformed(m))
}

// ---------------------------------------------------------------------------
// Session codes
// ---------------------------------------------------------------------------

/// A session code is refused for its length, its fields, its checksum, its
/// identifier, its key, the number of its candidates, in this order.
pub proof fn law_refused_codes(code: Seq<char>)
    ensures
        ({
            let fields = text::split(code, '|');
            let sum = protocol::hex_bytes(fields[4], 4, "checksum"@);
            let session_id = protocol::hex_bytes(fields[1], 16, "session id"@);
            let key = protocol::hex_bytes(fields[2], 32, "session key"@);
            let covered = text::join(fields.take(4), seq!['|']);
            let read = protocol::read_code(code);
            if utf8::encode_utf8(code).len() > 512 {
                read == bad_code("код длиннее 512 байт"@)
            } else if fields.len() != 5 || fields[0] != "HP2"@ {
                read == bad_code("ожидался код HP2 из пяти частей"@)
            } else if sum is Err {
                read == Err::<PeerDescriptionView, _>(sum->Err_0)
            } else if sum->Ok_0 != code_laws::digest_start(covered) {
                read == bad_code(
                    "checksum не совпадает: код повреждён или скопирован не полностью"@,
                )
            } else if session_id is Err {
                read == Err::<PeerDescriptionView, _>(session_id->Err_0)
            } else if key is Err {
                read == Err::<PeerDescriptionView, _>(key->Err_0)
            } else if text::split(fields[3], ',').len() > 8 {
                read == bad_code("нужно от 1 до 8 candidates"@)
            } else {
                match protocol::read_candidates(text::split(fields[3], ',')) {
                    Err(e) => read == Err::<PeerDescriptionView, _>(e),
                    Ok(candidates) => {
                        let d = PeerDescriptionView {
                            session_id: session_id->Ok_0,
                            key: key->Ok_0,
                            candidates,
                        };
                        d.error() is Some ==> read == Err::<PeerDescriptionView, _>(d.error()->0)
                    },
                }
            }
        }),
{
    let fields = text::split(code, '|');
    let covered = text::join(fields.take(4), seq!['|']);
    assert(code_laws::digest_start(covered) =~= protocol::spec_checksum(covered));
}

/// The first bad candidate of a code decides, whatever follows it.
pub proof fn law_first_bad_candidate(pieces: Seq<Seq<char>>, bad: Seq<char>, more: Seq<Seq<char>>)
    requires
        protocol::read_candidates(pieces) is Ok,
        protocol::read_candidate(bad) is Err,
    ensures
        protocol::read_candidates(pieces.push(bad) + more) == Err::<Seq<Candidate>, _>(
            protocol::read_candidate(bad)->Err_0,
        ),
    decreases more.len(),
{
    let all = pieces.push(bad) + more;
    if more.len() == 0 {
        assert(all =~= pieces.push(bad));
        assert(all.drop_last() =~= pieces);
    } else {
        law_first_bad_candidate(pieces, bad, more.drop_last());
        assert(all.drop_last() =~= pieces.push(bad) + more.drop_last());
    }
}

/// A candidate is refused for a missing at sign, for its kind, or for its
/// address, in this order.
pub proof fn law_refused_candidates(kind: Seq<char>, rest: Seq<char>, value: Seq<char>)
    requires
        !kind.contains('@'),
        !value.contains('@'),
    ensures
        protocol::read_candidate(value) == Err::<Candidate, _>(
            ProtocolErrorView::InvalidDescription(
                "candidate должен иметь вид type@ip:port: "@ + value,
            ),
        ),
        ({
            let read = protocol::read_candidate(kind + seq!['@'] + rest);
            if kind == seq!['p'] {
                read == Err::<Candidate, _>(
                    ProtocolErrorView::InvalidDescription(
                        "peer-reflexive candidate нельзя объявлять в коде"@,
                    ),
                )
            } else if kind != seq!['h'] && kind != seq!['s'] {
                read == Err::<Candidate, _>(
                    ProtocolErrorView::InvalidDescription(
                        "неизвестный тип candidate: "@ + kind,
                    ),
                )
            } else {
                address::read_address(rest) is None ==> read == Err::<Candidate, _>(
                    ProtocolErrorView::InvalidDescription(
                        "некорректный candidate "@ + rest + ": invalid socket address syntax"@,
                    ),
                )
            }
        }),
{
    text::lemma_find(value, seq!['@']);
    if let Some(k) = text::find(value, seq!['@']) {
        text::lemma_occurs_char(value, '@', k);
        assert(value.contains(value[k]));
    }
    let all = kind + seq!['@'] + rest;
    let k = kind.len() as int;
    assert(all[k] == '@');
    assert forall|j: int| 0 <= j < k implies !text::occurs_at(all, seq!['@'], j) by {
        text::lemma_occurs_char(all, '@', j);
        assert(all[j] == kind[j]);
        assert(kind.contains(kind[j]));
    }
    text::lemma_occurs_char(all, '@', k);
    text::lemma_find_is(all, seq!['@'], k);
    assert(all.take(k) =~= kind);
    assert(all.skip(k + 1) =~= rest);
    assert(seq!['p'][0] != seq!['h'][0] && seq!['p'][0] != seq!['s'][0]);
}

// ---------------------------------------------------------------------------
// Control packets
// ---------------------------------------------------------------------------

/// A datagram is refused for its length, its magic, its flags, its sessions, its
/// identifier, its tag and its kind, in this order.
pub proof fn law_refused_control_packets(
    datagram: Seq<u8>,
    from: PeerDescriptionView,
    to: PeerDescriptionView,
)
    ensures
        ({
            let read = protocol::read_control(datagram, from.session_id, to.session_id, from.key);
            if datagram.len() != 84 {
                read == bad_control(
                    "control packet должен иметь длину 84, получено "@ + text::decimal(
                        datagram.len(),
                    ),
                )
            } else if datagram[0] != 0x48 || datagram[1] != 0x50 || datagram[2] != 0x30
                || datagram[3] != 0x32 {
                read == bad_control("неверная версия/magic control packet"@)
            } else if datagram[5] != 0 || datagram[6] != 0 || datagram[7] != 0 {
                read == bad_control("неизвестные flags/reserved control packet"@)
            } else if datagram.subrange(8, 24) != from.session_id || datagram.subrange(24, 40)
                != to.session_id {
                read == bad_control("session id control packet не совпадает"@)
            } else if forall|i: int| 40 <= i < 52 ==> #[trigger] datagram[i] == 0 {
                read == bad_control("нулевой transaction id запрещён"@)
            } else if datagram.subrange(52, 84) != crate::crypto::hmac_sha256(
                from.key,
                datagram.subrange(0, 52),
            )@ {
                read == Err::<ControlPacketView, _>(ProtocolErrorView::AuthenticationFailed)
            } else {
                datagram[4] != 1 && datagram[4] != 2 ==> read == bad_control(
                    "неизвестный packet kind: "@ + text::decimal(datagram[4] as nat),
                )
            }
        }),
{
    if datagram.len() == 84 {
        let magic = datagram.subrange(0, 4);
        assert(magic[0] == datagram[0] && magic[1] == datagram[1] && magic[2] == datagram[2]
            && magic[3] == datagram[3]);
        if datagram[0] == 0x48 && datagram[1] == 0x50 && datagram[2] == 0x30 && datagram[3] == 0x32 {
            assert(magic =~= protocol::wire_magic());
        } else {
            assert(magic[0] != protocol::wire_magic()[0] || magic[1] != protocol::wire_magic()[1]
                || magic[2] != protocol::wire_magic()[2] || magic[3]
                != protocol::wire_magic()[3]);
        }
        let id = datagram.subrange(40, 52);
        if forall|i: int| 40 <= i < 52 ==> #[trigger] datagram[i] == 0 {
            assert(bytes::all_zero(id));
        } else {
            let i = choose|i: int| 40 <= i < 52 && #[trigger] datagram[i] != 0;
            assert(id[i - 40] != 0);
        }
    }
}

// ---------------------------------------------------------------------------
// STUN
// ---------------------------------------------------------------------------

/// A packet is refused for its header: its length, its first two bits, its
/// declared length, its magic cookie, its identifier and its type, in this order.
pub proof fn law_refused_headers(packet: Seq<u8>, transaction_id: Seq<u8>)
    ensures
        ({
            let read = stun::read_binding_response(packet, transaction_id);
            let declared = attribute_laws::number(packet, 2);
            let kind = attribute_laws::number(packet, 0);
            if packet.len() < 20 {
                read == bad_response("STUN-пакет короче 20-байтного заголовка"@)
            } else if packet[0] >= 0x40 {
                read == bad_response("старшие два бита STUN message type должны быть нулевыми"@)
            } else if declared % 4 != 0 {
                read == bad_response("длина STUN message не кратна четырём"@)
            } else if 20 + declared != packet.len() {
                read == bad_response(
                    "заголовок объявляет "@ + text::decimal((20 + declared) as nat)
                        + " байт, получено "@ + text::decimal(packet.len()),
                )
            } else if packet[4] != 0x21 || packet[5] != 0x12 || packet[6] != 0xa4 || packet[7]
                != 0x42 {
                read == Err::<BindingResponseView, _>(
                    ParseErrorView::NotThisTransaction("неверный STUN magic cookie"@),
                )
            } else if packet.subrange(8, 20) != transaction_id {
                read == Err::<BindingResponseView, _>(
                    ParseErrorView::NotThisTransaction("STUN transaction ID не совпадает"@),
                )
            } else {
                kind != 0x0101 && kind != 0x0111 ==> read == bad_response(
                    "неожиданный STUN message type: 0x"@ + text::hex4(kind as u16),
                )
            }
        }),
{
    if packet.len() >= 20 {
        assert(bytes::be16(packet[0], packet[1]) == attribute_laws::number(packet, 0));
        assert(bytes::be16(packet[2], packet[3]) == attribute_laws::number(packet, 2));
    }
}

/// An attribute is refused for a header, a value or a padding that is cut off, and
/// for a type that must be understood and is not, where it has a meaning.
pub proof fn law_refused_attributes(
    packet: Seq<u8>,
    offset: int,
    acc: ScanView,
    message_type: u16,
    transaction_id: Seq<u8>,
)
    requires
        0 <= offset < packet.len(),
    ensures
        ({
            let scanned = stun::scan(packet, offset, acc, message_type, transaction_id);
            let kind = attribute_laws::number(packet, offset) as u16;
            let len = attribute_laws::number(packet, offset + 2);
            if offset + 4 > packet.len() {
                scanned == Err::<ScanView, _>(
                    ParseErrorView::Malformed("обрезанный заголовок STUN attribute"@),
                )
            } else if offset + 4 + len > packet.len() {
                scanned == Err::<ScanView, _>(
                    ParseErrorView::Malformed(
                        "STUN attribute 0x"@ + text::hex4(kind) + " выходит за границу message"@,
                    ),
                )
            } else if acc.semantic && !attribute_laws::acceptable(kind) {
                scanned == Err::<ScanView, _>(
                    ParseErrorView::Malformed(
                        "неизвестный обязательный STUN attribute: 0x"@ + text::hex4(kind),
                    ),
                )
            } else {
                offset + 4 + (len + 3) / 4 * 4 > packet.len() && !acc.semantic ==> scanned == Err::<
                    ScanView,
                    _,
                >(ParseErrorView::Malformed("обрезанный padding STUN attribute"@))
            }
        }),
{
    if offset + 4 <= packet.len() {
        let kind = bytes::be16(packet[offset], packet[offset + 1]);
        assert(kind == attribute_laws::number(packet, offset) as u16);
        assert(bytes::be16(packet[offset + 2], packet[offset + 3]) == attribute_laws::number(
            packet,
            offset + 2,
        ));
        attribute_laws::law_known_attributes(kind);
    }
}

/// A masked address is refused for its length, its port and its family, in this
/// order.
pub proof fn law_refused_addresses(value: Seq<u8>, transaction_id: Seq<u8>)
    ensures
        ({
            let read = stun::read_mapped_address(value, transaction_id);
            let refused = |m: Seq<char>|
                read == Err::<address::SocketAddress, _>(ParseErrorView::Malformed(m));
            if value.len() < 4 {
                refused("XOR-MAPPED-ADDRESS короче четырёх байт"@)
            } else if value[2] == 0x21 && value[3] == 0x12 {
                refused("STUN вернул нулевой порт"@)
            } else if value[1] == 1 {
                value.len() != 8 ==> refused("IPv4 XOR-MAPPED-ADDRESS должен иметь длину 8"@)
            } else if value[1] == 2 {
                value.len() != 20 ==> refused("IPv6 XOR-MAPPED-ADDRESS должен иметь длину 20"@)
            } else {
                refused(
                    "неизвестное семейство XOR-MAPPED-ADDRESS: "@ + text::decimal(
                        value[1] as nat,
                    ),
                )
            }
        }),
{
    if value.len() >= 4 {
        let raw = bytes::be16(value[2], value[3]);
        assert(raw ^ 0x2112 == 0 <==> raw == 0x2112) by (bit_vector);
    }
}

/// An error code is refused for its length, its reserved bits, its range and its
/// reason, in this order.
pub proof fn law_refused_error_codes(value: Seq<u8>)
    ensures
        ({
            let read = stun::read_error_code(value);
            let refused = |m: Seq<char>|
                read == Err::<(u16, Seq<char>), _>(ParseErrorView::Malformed(m));
            if value.len() < 4 {
                refused("ERROR-CODE короче четырёх байт"@)
            } else if value[0] != 0 || value[1] != 0 || value[2] > 7 {
                refused("reserved-биты ERROR-CODE должны быть нулевыми"@)
            } else if value[2] < 3 || value[2] > 6 || value[3] > 99 {
                refused("ERROR-CODE class/number вне допустимого диапазона"@)
            } else {
                !utf8::valid_utf8(value.skip(4)) ==> refused("ERROR-CODE reason не UTF-8"@)
            }
        }),
{
}

/// A message without the attribute that its type calls for is refused.
pub proof fn law_missing_attributes(packet: Seq<u8>, transaction_id: Seq<u8>)
    requires
        attribute_laws::is_message(packet, transaction_id),
        attribute_laws::attributes(packet, 20) is Some,
        attribute_laws::attributes(packet, 20)->0.len() == 0,
    ensures
        attribute_laws::number(packet, 0) == 0x0101 ==> stun::read_binding_response(
            packet,
            transaction_id,
        ) == bad_response("Binding Success не содержит XOR-MAPPED-ADDRESS"@),
        attribute_laws::number(packet, 0) == 0x0111 ==> stun::read_binding_response(
            packet,
            transaction_id,
        ) == bad_response("Binding Error не содержит ERROR-CODE"@),
{
    assert(bytes::be16(packet[0], packet[1]) == attribute_laws::number(packet, 0));
    assert(bytes::be16(packet[2], packet[3]) == attribute_laws::number(packet, 2));
    if packet.len() > 20 {
        let all = attribute_laws::attributes(packet, 20);
        assert(all->0.len() > 0);
    }
}

/// The last time that can be given to a session lies far ahead.
pub proof fn law_last_instant()
    ensures
        crate::session::LAST_INSTANT == 0xffff_fff0_0000_0000,
{
}

} // verus!
