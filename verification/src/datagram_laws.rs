//! What each datagram does to a session, whoever has sent it.

use crate::address;
use crate::address::SocketAddress;
use crate::command_laws;
use crate::pending::{PendingProbe, ProbePurpose};
use crate::protocol;
use crate::protocol::{CandidateKind, ControlPacketView, PacketKind};
use crate::session::{State, Stats};
use crate::session_model::{
    AwaitingView, EventView, InputView, RequestView, SelectedPathView, SessionView, StepView,
};
use crate::stun;
use crate::stun::BindingResponseView;
use crate::text;
use crate::wire_laws;
use vstd::prelude::*;

verus! {

/// The session has counted one more datagram.
pub open spec fn heard(s: SessionView) -> SessionView {
    SessionView {
        stats: Stats {
            datagrams_received: wire_laws::one_more(s.stats.datagrams_received),
            ..s.stats
        },
        ..s
    }
}

/// The session has counted one more datagram, signed by the peer.
pub open spec fn heard_peer(s: SessionView) -> SessionView {
    SessionView {
        stats: Stats {
            datagrams_received: wire_laws::one_more(s.stats.datagrams_received),
            authenticated: wire_laws::one_more(s.stats.authenticated),
            ..s.stats
        },
        ..s
    }
}

/// The datagram comes from the server of the STUN request that is on its way.
pub open spec fn from_server(s: SessionView, source: SocketAddress) -> bool {
    s.pending_stun is Some && s.pending_stun->0.server == source
}

/// An address that a single host can have: an IPv4 address other than 0.0.0.0,
/// 224.0.0.0 to 239.255.255.255 and 255.255.255.255, or an IPv6 address other
/// than `::` and those whose first byte is 0xff.
pub open spec fn single_host(a: SocketAddress) -> bool {
    match a {
        SocketAddress::V4(a) => a.ip != 0 && a.ip != 0xffff_ffff && !(224 * 0x100_0000 <= a.ip
            < 240 * 0x100_0000),
        SocketAddress::V6(a) => a.ip != 0 && a.ip / 0x100_0000_0000_0000_0000_0000_0000_0000
            != 0xff,
    }
}

/// Whether an address can be that of a single host is decided by its number
/// alone.
pub proof fn law_unicast_addresses(a: SocketAddress)
    ensures
        address::spec_is_unicast(a) <==> single_host(a),
{
}

/// The elapsed time, never less than zero.
pub open spec fn time_between(then: u64, now: u64) -> u64 {
    if then <= now {
        (now - then) as u64
    } else {
        0
    }
}

// ---------------------------------------------------------------------------
// STUN
// ---------------------------------------------------------------------------

/// Whenever the server that was asked answers with an address, that is the public
/// address from then on, and the request is answered. The user is told exactly
/// when it differs from the one before, in the ip or in the port.
pub proof fn law_mapping_follows_the_server(
    s: SessionView,
    bytes: Seq<u8>,
    address: SocketAddress,
    now: u64,
    id: Seq<u8>,
)
    requires
        s.pending_stun is Some,
        stun::read_binding_response(bytes, s.pending_stun->0.transaction_id) == Ok::<
            BindingResponseView,
            stun::ParseErrorView,
        >(BindingResponseView::Success(address)),
    ensures
        ({
            let source = s.pending_stun->0.server;
            let step = s.step(InputView::Datagram { source, bytes }, now, id);
            &&& step.session == (SessionView {
                public_address: address,
                pending_stun: None,
                awaiting: AwaitingView::Command,
                ..heard(s)
            })
            &&& step.request == RequestView::PollCommand
            &&& step.events == if address == s.public_address {
                Seq::empty()
            } else {
                seq![EventView::MappingChanged { address }]
            }
        }),
{
    reveal(SessionView::receive);
    reveal(SessionView::receive_stun);
    let source = s.pending_stun->0.server;
    let step = s.step(InputView::Datagram { source, bytes }, now, id);
    if address != s.public_address {
        assert(step.events =~= seq![EventView::MappingChanged { address }]);
    }
}

/// An error of the server that was asked is told and ends the request; the public
/// address stays.
pub proof fn law_server_error_is_told(
    s: SessionView,
    bytes: Seq<u8>,
    code: u16,
    reason: Seq<char>,
    now: u64,
    id: Seq<u8>,
)
    requires
        s.pending_stun is Some,
        stun::read_binding_response(bytes, s.pending_stun->0.transaction_id) == Ok::<
            BindingResponseView,
            stun::ParseErrorView,
        >(BindingResponseView::ServerError { code, reason }),
    ensures
        s.step(
            InputView::Datagram { source: s.pending_stun->0.server, bytes },
            now,
            id,
        ) == command_laws::only_tells(
            SessionView { pending_stun: None, ..heard(s) },
            EventView::Info(
                "STUN keepalive error "@ + text::decimal(code as nat) + ": "@ + reason,
            ),
        ),
{
    reveal(SessionView::receive);
    reveal(SessionView::receive_stun);
    let step = s.step(
        InputView::Datagram { source: s.pending_stun->0.server, bytes },
        now,
        id,
    );
    assert(step.events =~= seq![
        EventView::Info("STUN keepalive error "@ + text::decimal(code as nat) + ": "@ + reason),
    ]);
}

/// Anything else from the server that was asked is only counted as received; the
/// request is still on its way.
pub proof fn law_other_packets_of_the_server_are_counted(
    s: SessionView,
    bytes: Seq<u8>,
    now: u64,
    id: Seq<u8>,
)
    requires
        s.pending_stun is Some,
        stun::read_binding_response(bytes, s.pending_stun->0.transaction_id) is Err,
    ensures
        s.step(
            InputView::Datagram { source: s.pending_stun->0.server, bytes },
            now,
            id,
        ) == command_laws::only_polls(heard(s)),
{
    reveal(SessionView::receive);
    reveal(SessionView::receive_stun);
}

// ---------------------------------------------------------------------------
// Strangers
// ---------------------------------------------------------------------------

/// Without a peer a datagram is counted as received and nothing more.
pub proof fn law_without_a_peer_datagrams_are_counted(
    s: SessionView,
    source: SocketAddress,
    bytes: Seq<u8>,
    now: u64,
    id: Seq<u8>,
)
    requires
        s.peer is None,
        !from_server(s, source),
    ensures
        s.step(InputView::Datagram { source, bytes }, now, id) == command_laws::only_polls(
            heard(s),
        ),
{
    reveal(SessionView::receive);
    reveal(SessionView::receive_control);
}

/// A datagram that is no probe and no answer of the peer is counted as received
/// and as invalid, and nothing more: no state, path, probe or timer changes.
pub proof fn law_foreign_datagrams_are_counted(
    s: SessionView,
    source: SocketAddress,
    bytes: Seq<u8>,
    now: u64,
    id: Seq<u8>,
)
    requires
        s.consistent(),
        s.peer is Some,
        !from_server(s, source),
        forall|kind: u8, x: Seq<u8>|
            (kind == 1 || kind == 2) && x.len() == 12 && (exists|i: int| 0 <= i < 12 && x[i] != 0)
                ==> bytes != #[trigger] wire_laws::packet(kind, s.peer->0, s.local, x),
    ensures
        s.step(InputView::Datagram { source, bytes }, now, id) == command_laws::only_polls(
            SessionView {
                stats: Stats {
                    datagrams_received: wire_laws::one_more(s.stats.datagrams_received),
                    invalid: wire_laws::one_more(s.stats.invalid),
                    ..s.stats
                },
                ..s
            },
        ),
{
    let remote = s.peer->0;
    let read = protocol::read_control(bytes, remote.session_id, s.local.session_id, remote.key);
    if let Ok(p) = read {
        wire_laws::law_read_control_names_the_sessions(bytes, remote, s.local);
        wire_laws::law_control_is_read(bytes, remote, s.local, p.kind, p.transaction_id);
        assert(p == ControlPacketView {
            kind: p.kind,
            source_session: remote.session_id,
            destination_session: s.local.session_id,
            transaction_id: p.transaction_id,
        });
        assert(bytes == wire_laws::packet(
            match p.kind {
                PacketKind::Check => 1,
                PacketKind::CheckOk => 2,
            },
            remote,
            s.local,
            p.transaction_id,
        ));
    }
    reveal(SessionView::receive);
    reveal(SessionView::receive_control);
}

// ---------------------------------------------------------------------------
// The peer
// ---------------------------------------------------------------------------

/// An identifier as it stands in a packet.
pub open spec fn proper_id(x: Seq<u8>) -> bool {
    x.len() == 12 && exists|i: int| 0 <= i < 12 && x[i] != 0
}

/// What is read of a packet of the peer.
proof fn lemma_read(s: SessionView, kind: PacketKind, x: Seq<u8>)
    requires
        s.consistent(),
        s.peer is Some,
        proper_id(x),
    ensures
        protocol::read_control(
            wire_laws::packet(
                match kind {
                    PacketKind::Check => 1,
                    PacketKind::CheckOk => 2,
                },
                s.peer->0,
                s.local,
                x,
            ),
            s.peer->0.session_id,
            s.local.session_id,
            s.peer->0.key,
        ) == Ok::<ControlPacketView, protocol::ProtocolErrorView>(
            ControlPacketView {
                kind,
                source_session: s.peer->0.session_id,
                destination_session: s.local.session_id,
                transaction_id: x,
            },
        ),
{
    let byte: u8 = match kind {
        PacketKind::Check => 1,
        PacketKind::CheckOk => 2,
    };
    wire_laws::law_control_is_read(
        wire_laws::packet(byte, s.peer->0, s.local, x),
        s.peer->0,
        s.local,
        kind,
        x,
    );
}

/// A probe of the peer from a single host is answered at once, there and under
/// its own identifier, in whatever state the session is. Only the counters
/// change. From any other address it is counted as invalid besides.
pub proof fn law_probes_are_answered(
    s: SessionView,
    source: SocketAddress,
    x: Seq<u8>,
    now: u64,
    id: Seq<u8>,
)
    requires
        s.consistent(),
        s.peer is Some,
        !from_server(s, source),
        proper_id(x),
    ensures
        ({
            let bytes = wire_laws::packet(1, s.peer->0, s.local, x);
            let step = s.step(InputView::Datagram { source, bytes }, now, id);
            if single_host(source) {
                step == StepView {
                    session: SessionView { awaiting: AwaitingView::ReplySent, ..heard_peer(s) },
                    events: Seq::empty(),
                    request: RequestView::Send {
                        datagram: wire_laws::packet(2, s.local, s.peer->0, x),
                        target: source,
                    },
                }
            } else {
                step == command_laws::only_polls(
                    SessionView {
                        stats: Stats {
                            invalid: wire_laws::one_more(s.stats.invalid),
                            ..heard_peer(s).stats
                        },
                        ..s
                    },
                )
            }
        }),
{
    lemma_read(s, PacketKind::Check, x);
    wire_laws::lemma_packets(s.local, s.peer->0, x);
    law_unicast_addresses(source);
    reveal(SessionView::receive);
    reveal(SessionView::receive_control);
}

/// Once an answer is on its way, or could not be sent, the next command is asked
/// for; only the latter is told.
pub proof fn law_answers_leave_no_trace(s: SessionView, error: Seq<char>, now: u64, id: Seq<u8>)
    requires
        s.awaiting == AwaitingView::ReplySent,
    ensures
        s.step(InputView::Sent, now, id) == command_laws::only_polls(s),
        s.step(InputView::SendFailed(error), now, id) == command_laws::only_tells(
            s,
            EventView::Info("не удалось отправить CHECK_OK"@),
        ),
{
    reveal(SessionView::sent);
    reveal(SessionView::send_failed);
    assert(s.step(InputView::SendFailed(error), now, id).events =~= seq![
        EventView::Info("не удалось отправить CHECK_OK"@),
    ]);
}

/// Whether an answer from the source counts for the probe: a connectivity probe
/// may be answered from anywhere that a single host can be, any other only from
/// where it was sent.
pub open spec fn counts_for(probe: PendingProbe, source: SocketAddress) -> bool {
    source == probe.target || (probe.purpose is Connectivity && single_host(source))
}

/// An answer to a probe that does not wait, or from a source that does not count
/// for it, is only counted.
pub proof fn law_idle_answers_are_counted(
    s: SessionView,
    source: SocketAddress,
    x: Seq<u8>,
    now: u64,
    id: Seq<u8>,
)
    requires
        s.consistent(),
        s.peer is Some,
        !from_server(s, source),
        proper_id(x),
        !s.pending.contains_key(x) || !counts_for(s.pending[x], source),
    ensures
        s.step(
            InputView::Datagram { source, bytes: wire_laws::packet(2, s.peer->0, s.local, x) },
            now,
            id,
        ) == command_laws::only_polls(heard_peer(s)),
{
    lemma_read(s, PacketKind::CheckOk, x);
    law_unicast_addresses(source);
    reveal(SessionView::receive);
    reveal(SessionView::receive_control);
    reveal(SessionView::receive_check_ok);
}

/// The kind under which the peer has advertised the source: that of the first
/// candidate with this address, or peer-reflexive.
pub open spec fn advertised_as(s: SessionView, source: SocketAddress, kind: CandidateKind) -> bool {
    let cs = s.peer->0.candidates;
    if exists|i: int| 0 <= i < cs.len() && (#[trigger] cs[i]).address == source {
        exists|i: int|
            0 <= i < cs.len() && (#[trigger] cs[i]).address == source && cs[i].kind == kind && (
            forall|j: int| 0 <= j < i ==> (#[trigger] cs[j]).address != source)
    } else {
        kind == CandidateKind::PeerReflexive
    }
}

proof fn lemma_advertised(s: SessionView, source: SocketAddress)
    ensures
        advertised_as(s, source, protocol::kind_for_source(source, s.peer->0.candidates)),
{
    let cs = s.peer->0.candidates;
    let k = lemma_first_kind(cs, source);
    if k < cs.len() {
        assert(cs[k].address == source);
    }
}

/// Where the source is advertised first, if at all.
proof fn lemma_first_kind(cs: Seq<protocol::Candidate>, source: SocketAddress) -> (k: int)
    ensures
        0 <= k <= cs.len(),
        forall|j: int| 0 <= j < k ==> (#[trigger] cs[j]).address != source,
        k < cs.len() ==> cs[k].address == source && protocol::kind_for_source(source, cs)
            == cs[k].kind,
        k == cs.len() ==> protocol::kind_for_source(source, cs) == CandidateKind::PeerReflexive,
    decreases cs.len(),
{
    if cs.len() == 0 || cs[0].address == source {
        0
    } else {
        let rest = cs.drop_first();
        let k = lemma_first_kind(rest, source);
        assert forall|j: int| 0 <= j < k + 1 implies (#[trigger] cs[j]).address != source by {
            if j > 0 {
                assert(rest[j - 1] == cs[j]);
            }
        }
        k + 1
    }
}

/// The answer to a connectivity probe connects a session that is checking, along
/// the path on which it came, and is told with the kind of that path and the
/// round-trip time. In any other state it only ends the wait.
pub proof fn law_first_answer_selects_the_path(
    s: SessionView,
    source: SocketAddress,
    x: Seq<u8>,
    now: u64,
    id: Seq<u8>,
)
    requires
        s.consistent(),
        s.peer is Some,
        !from_server(s, source),
        proper_id(x),
        s.pending.contains_key(x),
        s.pending[x].purpose == ProbePurpose::Connectivity,
        counts_for(s.pending[x], source),
    ensures
        ({
            let bytes = wire_laws::packet(2, s.peer->0, s.local, x);
            let step = s.step(InputView::Datagram { source, bytes }, now, id);
            let rtt = time_between(s.pending[x].sent_at, now);
            let kind = step.session.selected->0.kind;
            let waited = SessionView { pending: s.pending.remove(x), ..heard_peer(s) };
            if s.state == State::Checking {
                &&& advertised_as(s, source, kind)
                &&& step == command_laws::only_tells(
                    SessionView {
                        state: State::Connected,
                        selected: Some(
                            SelectedPathView {
                                source,
                                kind,
                                last_success: now,
                                consent_pending: None,
                            },
                        ),
                        stats: Stats { selected_rtt: Some(rtt), ..waited.stats },
                        ..waited
                    },
                    EventView::Connected { source, kind, rtt },
                )
            } else {
                step == command_laws::only_polls(waited)
            }
        }),
{
    lemma_read(s, PacketKind::CheckOk, x);
    law_unicast_addresses(source);
    lemma_advertised(s, source);
    reveal(SessionView::receive);
    reveal(SessionView::receive_control);
    reveal(SessionView::receive_check_ok);
    let bytes = wire_laws::packet(2, s.peer->0, s.local, x);
    let step = s.step(InputView::Datagram { source, bytes }, now, id);
    let rtt = time_between(s.pending[x].sent_at, now);
    if s.state == State::Checking {
        assert(step.events =~= seq![
            EventView::Connected { source, kind: step.session.selected->0.kind, rtt },
        ]);
    }
}

/// The answer to a consent check ends the wait. It renews the selected path where
/// it came along it, or from an address that the peer has not advertised.
pub proof fn law_consent_is_renewed(s: SessionView, x: Seq<u8>, now: u64, id: Seq<u8>)
    requires
        s.consistent(),
        s.peer is Some,
        proper_id(x),
        s.pending.contains_key(x),
        s.pending[x].purpose == ProbePurpose::Consent,
        !from_server(s, s.pending[x].target),
    ensures
        ({
            let source = s.pending[x].target;
            let bytes = wire_laws::packet(2, s.peer->0, s.local, x);
            let step = s.step(InputView::Datagram { source, bytes }, now, id);
            let waited = SessionView { pending: s.pending.remove(x), ..heard_peer(s) };
            if s.selected is Some && (s.selected->0.source == source || advertised_as(
                s,
                source,
                CandidateKind::PeerReflexive,
            )) {
                step == command_laws::only_polls(
                    SessionView {
                        selected: Some(
                            SelectedPathView {
                                last_success: now,
                                consent_pending: None,
                                ..s.selected->0
                            },
                        ),
                        ..waited
                    },
                )
            } else {
                step == command_laws::only_polls(waited)
            }
        }),
{
    let source = s.pending[x].target;
    lemma_read(s, PacketKind::CheckOk, x);
    lemma_advertised(s, source);
    lemma_one_kind(s, source);
    reveal(SessionView::receive);
    reveal(SessionView::receive_control);
    reveal(SessionView::receive_check_ok);
    if s.selected is Some {
        assert(s.selected == Some(s.selected->0));
    }
}

/// A source is advertised as one kind only.
proof fn lemma_one_kind(s: SessionView, source: SocketAddress)
    ensures
        forall|a: CandidateKind, b: CandidateKind| #[trigger]
            advertised_as(s, source, a) && #[trigger] advertised_as(s, source, b) ==> a == b,
{
    let cs = s.peer->0.candidates;
    assert forall|a: CandidateKind, b: CandidateKind| #[trigger]
        advertised_as(s, source, a) && #[trigger] advertised_as(s, source, b) implies a == b by {
        if exists|i: int| 0 <= i < cs.len() && (#[trigger] cs[i]).address == source {
            let i = choose|i: int|
                0 <= i < cs.len() && (#[trigger] cs[i]).address == source && cs[i].kind == a && (
                forall|j: int| 0 <= j < i ==> (#[trigger] cs[j]).address != source);
            let k = choose|i: int|
                0 <= i < cs.len() && (#[trigger] cs[i]).address == source && cs[i].kind == b && (
                forall|j: int| 0 <= j < i ==> (#[trigger] cs[j]).address != source);
            assert(i == k) by {
                if i < k {
                    assert(cs[i].address != source);
                } else if k < i {
                    assert(cs[k].address != source);
                }
            }
        }
    }
}

/// The answer to a ping is told with its round-trip time and ends the wait.
pub proof fn law_ping_result_is_told(s: SessionView, x: Seq<u8>, now: u64, id: Seq<u8>)
    requires
        s.consistent(),
        s.peer is Some,
        proper_id(x),
        s.pending.contains_key(x),
        s.pending[x].purpose == ProbePurpose::ManualPing,
        !from_server(s, s.pending[x].target),
    ensures
        s.step(
            InputView::Datagram {
                source: s.pending[x].target,
                bytes: wire_laws::packet(2, s.peer->0, s.local, x),
            },
            now,
            id,
        ) == command_laws::only_tells(
            SessionView { pending: s.pending.remove(x), ..heard_peer(s) },
            EventView::PingResult(time_between(s.pending[x].sent_at, now)),
        ),
{
    lemma_read(s, PacketKind::CheckOk, x);
    reveal(SessionView::receive);
    reveal(SessionView::receive_control);
    reveal(SessionView::receive_check_ok);
    let step = s.step(
        InputView::Datagram {
            source: s.pending[x].target,
            bytes: wire_laws::packet(2, s.peer->0, s.local, x),
        },
        now,
        id,
    );
    assert(step.events =~= seq![
        EventView::PingResult(time_between(s.pending[x].sent_at, now)),
    ]);
}

} // verus!
