//! What stands on the wire, byte by byte.

use crate::address::SocketAddress;
use crate::bytes;
use crate::crypto;
use crate::pending::{PendingProbe, ProbePurpose};
use crate::protocol;
use crate::protocol::{ControlPacketView, PacketKind, PeerDescriptionView, ProtocolErrorView};
use crate::session::Stats;
use crate::session_model;
use crate::session_model::SessionView;
use crate::stun;
use vstd::prelude::*;

verus! {

/// One more, up to the largest number.
pub open spec fn one_more(n: u64) -> u64 {
    if n == 0xffff_ffff_ffff_ffff {
        n
    } else {
        (n + 1) as u64
    }
}

/// The session with one more probe on its way.
pub open spec fn with_probe(
    s: SessionView,
    probe_id: Seq<u8>,
    target: SocketAddress,
    purpose: ProbePurpose,
    now: u64,
) -> SessionView {
    SessionView {
        pending: s.pending.insert(probe_id, PendingProbe { target, sent_at: now, purpose }),
        stats: Stats { probes_sent: one_more(s.stats.probes_sent), ..s.stats },
        ..s
    }
}

/// A control packet from one side to the other: `HP02`, the kind (1 for a probe,
/// 2 for an answer), three zero bytes, both session identifiers, the transaction
/// identifier, and the tag of all that under the key of the sender.
pub open spec fn packet(
    kind: u8,
    from: PeerDescriptionView,
    to: PeerDescriptionView,
    transaction_id: Seq<u8>,
) -> Seq<u8> {
    let header = seq![0x48u8, 0x50, 0x30, 0x32, kind, 0, 0, 0] + from.session_id + to.session_id
        + transaction_id;
    header + crypto::hmac_sha256(from.key, header)@
}

/// A Binding request: its type, length zero, the magic cookie and the
/// transaction identifier.
pub open spec fn request(transaction_id: Seq<u8>) -> Seq<u8> {
    seq![0u8, 1, 0, 0, 0x21, 0x12, 0xa4, 0x42] + transaction_id
}

/// The two control packets are laid out as described.
pub proof fn lemma_packets(
    from: PeerDescriptionView,
    to: PeerDescriptionView,
    transaction_id: Seq<u8>,
)
    ensures
        session_model::check_packet(from, to, transaction_id) == packet(
            1,
            from,
            to,
            transaction_id,
        ),
        session_model::check_ok_packet(from, to, transaction_id) == packet(
            2,
            from,
            to,
            transaction_id,
        ),
{
    law_control_layout(PacketKind::Check, from, to, transaction_id);
    law_control_layout(PacketKind::CheckOk, from, to, transaction_id);
}

/// A control packet is written byte for byte as described.
pub proof fn law_control_layout(
    kind: PacketKind,
    from: PeerDescriptionView,
    to: PeerDescriptionView,
    transaction_id: Seq<u8>,
)
    ensures
        protocol::control_bytes(
            ControlPacketView {
                kind,
                source_session: from.session_id,
                destination_session: to.session_id,
                transaction_id,
            },
            from.key,
        ) == packet(
            match kind {
                PacketKind::Check => 1,
                PacketKind::CheckOk => 2,
            },
            from,
            to,
            transaction_id,
        ),
{
    let p = ControlPacketView {
        kind,
        source_session: from.session_id,
        destination_session: to.session_id,
        transaction_id,
    };
    let byte: u8 = match kind {
        PacketKind::Check => 1,
        PacketKind::CheckOk => 2,
    };
    let header = seq![0x48u8, 0x50, 0x30, 0x32, byte, 0, 0, 0] + from.session_id + to.session_id
        + transaction_id;
    assert(protocol::signed_header(p) =~= header);
}

/// A datagram is read as a control packet of the peer exactly when it is one:
/// 84 bytes, laid out as described, between the two sessions, signed with the
/// key, and with an identifier that is not all zero.
pub proof fn law_control_is_read(
    datagram: Seq<u8>,
    from: PeerDescriptionView,
    to: PeerDescriptionView,
    kind: PacketKind,
    transaction_id: Seq<u8>,
)
    requires
        from.sized(),
        to.sized(),
    ensures
        protocol::read_control(datagram, from.session_id, to.session_id, from.key) == Ok::<
            ControlPacketView,
            ProtocolErrorView,
        >(
            ControlPacketView {
                kind,
                source_session: from.session_id,
                destination_session: to.session_id,
                transaction_id,
            },
        ) <==> {
            &&& transaction_id.len() == 12
            &&& exists|i: int| 0 <= i < 12 && transaction_id[i] != 0
            &&& datagram == packet(
                match kind {
                    PacketKind::Check => 1,
                    PacketKind::CheckOk => 2,
                },
                from,
                to,
                transaction_id,
            )
        },
{
    let p = ControlPacketView {
        kind,
        source_session: from.session_id,
        destination_session: to.session_id,
        transaction_id,
    };
    law_control_layout(kind, from, to, transaction_id);
    if protocol::read_control(datagram, from.session_id, to.session_id, from.key) == Ok::<
        ControlPacketView,
        ProtocolErrorView,
    >(p) {
        crate::protocol_laws::law_accepted_control_is_signed(
            datagram,
            from.session_id,
            to.session_id,
            from.key,
        );
    }
    if transaction_id.len() == 12 && !bytes::all_zero(transaction_id) && datagram
        == protocol::control_bytes(p, from.key) {
        crate::protocol_laws::law_control_reads_back(p, from.key);
    }
}

/// Whatever is read as a control packet of the peer names the two sessions.
pub proof fn law_read_control_names_the_sessions(
    datagram: Seq<u8>,
    from: PeerDescriptionView,
    to: PeerDescriptionView,
)
    ensures
        protocol::read_control(datagram, from.session_id, to.session_id, from.key) matches Ok(p)
            ==> p.source_session == from.session_id && p.destination_session == to.session_id,
{
}

/// A Binding request is written byte for byte as described.
pub proof fn law_request_layout(transaction_id: Seq<u8>)
    ensures
        stun::binding_request(transaction_id) == request(transaction_id),
{
    assert(stun::binding_request(transaction_id) =~= request(transaction_id));
}

} // verus!
