//! What holds of peers, probes, answers and the path that they select.

use crate::address;
use crate::address::SocketAddress;
use crate::bytes;
use crate::pending;
use crate::pending::{PendingProbe, ProbePurpose};
use crate::protocol;
use crate::protocol::{ControlPacketView, PacketKind, PeerDescriptionView, ProtocolErrorView};
use crate::protocol_laws;
use crate::session::{State, Stats, LAST_INSTANT};
use crate::session_laws;
use crate::session_model;
use crate::session_model::{
    AwaitingView, CommandView, EventView, InputView, RequestView, SelectedPathView, SessionView,
    StepView,
};
use crate::stun;
use crate::stun::BindingResponseView;
use vstd::prelude::*;

verus! {

// ---------------------------------------------------------------------------
// Commands
// ---------------------------------------------------------------------------

/// A description that cannot be that of the other side is refused: the session
/// stays as it was, nothing is sent, and the user is told why.
pub proof fn law_refused_peer_changes_nothing(
    s: SessionView,
    peer: PeerDescriptionView,
    now: u64,
    id: Seq<u8>,
)
    requires
        s.awaiting == AwaitingView::Command,
        peer.remote_error(s.local) is Some,
    ensures
        s.step(InputView::Command(CommandView::SetPeer(peer)), now, id) == (StepView {
            session: s,
            events: seq![
                EventView::Info("КОД ОТКЛОНЁН: "@ + peer.remote_error(s.local)->0.message()),
            ],
            request: RequestView::PollCommand,
        }),
{
    reveal(SessionView::command);
    let step = s.step(InputView::Command(CommandView::SetPeer(peer)), now, id);
    assert(step.events =~= seq![
        EventView::Info("КОД ОТКЛОНЁН: "@ + peer.remote_error(s.local)->0.message()),
    ]);
}

/// A description that copies the session's own identifier or key never becomes
/// its peer.
pub proof fn law_forged_peer_is_refused(
    s: SessionView,
    peer: PeerDescriptionView,
    now: u64,
    id: Seq<u8>,
)
    requires
        s.awaiting == AwaitingView::Command,
        peer.session_id == s.local.session_id || peer.key == s.local.key,
    ensures
        s.step(InputView::Command(CommandView::SetPeer(peer)), now, id).session == s,
        s.step(InputView::Command(CommandView::SetPeer(peer)), now, id).request is PollCommand,
{
    protocol_laws::law_shared_secret_is_refused(peer, s.local);
    law_refused_peer_changes_nothing(s, peer, now, id);
}

/// An acceptable description starts the checks from nothing: no probe waits, no
/// path is selected, and all counters are zero.
pub proof fn law_accepted_peer_starts_checks(
    s: SessionView,
    peer: PeerDescriptionView,
    now: u64,
    id: Seq<u8>,
)
    requires
        peer.remote_error(s.local) is None,
    ensures
        ({
            let step = s.step(InputView::Command(CommandView::SetPeer(peer)), now, id);
            let t = step.session;
            &&& t.peer == Some(peer)
            &&& t.state == State::Checking
            &&& t.pending == Map::<Seq<u8>, PendingProbe>::empty()
            &&& t.selected is None
            &&& t.stats == session_model::no_stats()
            &&& t.checking_started == Some(now)
            &&& step.events == seq![
                EventView::CheckingStarted { candidates: peer.candidates.len() },
            ]
            &&& step.request is PollCommand
        }),
{
    reveal(SessionView::command);
    let step = s.step(InputView::Command(CommandView::SetPeer(peer)), now, id);
    assert(step.events =~= seq![
        EventView::CheckingStarted { candidates: peer.candidates.len() },
    ]);
}

/// Clearing the peer brings every session back to waiting, with no peer, no
/// path and no probe.
pub proof fn law_clearing_returns_to_waiting(s: SessionView, now: u64, id: Seq<u8>)
    ensures
        ({
            let step = s.step(InputView::Command(CommandView::ClearPeer), now, id);
            let t = step.session;
            &&& t.state == State::Waiting
            &&& t.peer is None
            &&& t.selected is None
            &&& t.pending == Map::<Seq<u8>, PendingProbe>::empty()
            &&& step.request is PollCommand
        }),
{
    reveal(SessionView::command);
}

/// A session that was shut down asks for nothing more and takes no outcome.
pub proof fn law_shutdown_is_final(s: SessionView, now: u64, id: Seq<u8>, input: InputView)
    ensures
        ({
            let step = s.step(InputView::Command(CommandView::Shutdown), now, id);
            &&& step.request is Stop
            &&& !step.session.awaits(input)
        }),
{
    reveal(SessionView::command);
}

// ---------------------------------------------------------------------------
// Datagrams
// ---------------------------------------------------------------------------

/// A datagram from the source does not answer a STUN request.
pub open spec fn not_stun(s: SessionView, source: SocketAddress) -> bool {
    s.pending_stun matches Some(t) ==> t.server != source
}

/// The counters after one more datagram.
pub open spec fn received_one(stats: Stats) -> Stats {
    Stats { datagrams_received: session_model::counted(stats.datagrams_received), ..stats }
}

/// The counters after one more datagram that the peer has signed.
pub open spec fn authenticated_one(stats: Stats) -> Stats {
    Stats {
        authenticated: session_model::counted(stats.authenticated),
        ..received_one(stats)
    }
}

/// A datagram that is no control packet of the peer is counted and has no other
/// effect.
pub proof fn law_unauthenticated_datagram_is_only_counted(
    s: SessionView,
    source: SocketAddress,
    bytes: Seq<u8>,
    now: u64,
    id: Seq<u8>,
)
    requires
        s.peer is Some,
        not_stun(s, source),
        protocol::read_control(
            bytes,
            s.peer->0.session_id,
            s.local.session_id,
            s.peer->0.key,
        ) is Err,
    ensures
        s.step(InputView::Datagram { source, bytes }, now, id) == (SessionView {
            stats: Stats {
                invalid: session_model::counted(s.stats.invalid),
                ..received_one(s.stats)
            },
            ..s
        }).poll(),
{
    reveal(SessionView::receive);
    reveal(SessionView::receive_control);
}

/// A session without a peer counts datagrams from strangers and does nothing
/// else with them.
pub proof fn law_waiting_session_ignores_strangers(
    s: SessionView,
    source: SocketAddress,
    bytes: Seq<u8>,
    now: u64,
    id: Seq<u8>,
)
    requires
        s.peer is None,
        not_stun(s, source),
    ensures
        s.step(InputView::Datagram { source, bytes }, now, id) == (SessionView {
            stats: received_one(s.stats),
            ..s
        }).poll(),
{
    reveal(SessionView::receive);
    reveal(SessionView::receive_control);
}

/// A transaction identifier as it is used on the wire.
pub open spec fn usable_id(id: Seq<u8>) -> bool {
    id.len() == 12 && !bytes::all_zero(id)
}

/// A packet of one side is read by the other as what it is.
pub proof fn lemma_packet_is_understood(
    kind: PacketKind,
    from: PeerDescriptionView,
    to: PeerDescriptionView,
    id: Seq<u8>,
)
    requires
        from.sized(),
        to.sized(),
        usable_id(id),
    ensures
        ({
            let packet = ControlPacketView {
                kind,
                source_session: from.session_id,
                destination_session: to.session_id,
                transaction_id: id,
            };
            protocol::read_control(
                protocol::control_bytes(packet, from.key),
                from.session_id,
                to.session_id,
                from.key,
            ) == Ok::<ControlPacketView, ProtocolErrorView>(packet)
        }),
{
    protocol_laws::law_control_reads_back(
        ControlPacketView {
            kind,
            source_session: from.session_id,
            destination_session: to.session_id,
            transaction_id: id,
        },
        from.key,
    );
}

/// A probe of the peer is answered where it came from, with the same transaction
/// identifier. Nothing changes but the counters.
pub proof fn law_probe_is_answered(
    s: SessionView,
    source: SocketAddress,
    probe_id: Seq<u8>,
    now: u64,
    id: Seq<u8>,
)
    requires
        s.consistent(),
        s.peer is Some,
        not_stun(s, source),
        address::spec_is_unicast(source),
        usable_id(probe_id),
    ensures
        s.step(
            InputView::Datagram {
                source,
                bytes: session_model::check_packet(s.peer->0, s.local, probe_id),
            },
            now,
            id,
        ) == (SessionView { stats: authenticated_one(s.stats), ..s }).send(
            AwaitingView::ReplySent,
            session_model::check_ok_packet(s.local, s.peer->0, probe_id),
            source,
        ),
{
    reveal(SessionView::receive);
    reveal(SessionView::receive_control);
    lemma_packet_is_understood(PacketKind::Check, s.peer->0, s.local, probe_id);
}

/// A probe from an address that is not unicast gets no answer.
pub proof fn law_probe_from_nowhere_is_not_answered(
    s: SessionView,
    source: SocketAddress,
    bytes: Seq<u8>,
    now: u64,
    id: Seq<u8>,
)
    requires
        !address::spec_is_unicast(source),
    ensures
        !(s.step(InputView::Datagram { source, bytes }, now, id).request is Send),
{
    reveal(SessionView::receive);
    reveal(SessionView::receive_control);
    reveal(SessionView::receive_check_ok);
    reveal(SessionView::receive_stun);
}

/// An answer to no probe that waits is counted and has no other effect.
pub proof fn law_unknown_answer_is_only_counted(
    s: SessionView,
    source: SocketAddress,
    probe_id: Seq<u8>,
    now: u64,
    id: Seq<u8>,
)
    requires
        s.consistent(),
        s.peer is Some,
        not_stun(s, source),
        usable_id(probe_id),
        !s.pending.contains_key(probe_id),
    ensures
        s.step(
            InputView::Datagram {
                source,
                bytes: session_model::check_ok_packet(s.peer->0, s.local, probe_id),
            },
            now,
            id,
        ) == (SessionView { stats: authenticated_one(s.stats), ..s }).poll(),
{
    reveal(SessionView::receive);
    reveal(SessionView::receive_control);
    reveal(SessionView::receive_check_ok);
    lemma_packet_is_understood(PacketKind::CheckOk, s.peer->0, s.local, probe_id);
}

/// An answer counts once: the probe it answers waits no longer.
pub proof fn law_answer_is_taken_once(
    s: SessionView,
    source: SocketAddress,
    probe_id: Seq<u8>,
    now: u64,
    id: Seq<u8>,
)
    requires
        s.consistent(),
        s.peer is Some,
        not_stun(s, source),
        usable_id(probe_id),
        s.pending.contains_key(probe_id),
        session_model::source_allowed(s.pending[probe_id], source),
    ensures
        s.step(
            InputView::Datagram {
                source,
                bytes: session_model::check_ok_packet(s.peer->0, s.local, probe_id),
            },
            now,
            id,
        ).session.pending == s.pending.remove(probe_id),
{
    reveal(SessionView::receive);
    reveal(SessionView::receive_control);
    reveal(SessionView::receive_check_ok);
    lemma_packet_is_understood(PacketKind::CheckOk, s.peer->0, s.local, probe_id);
}

// ---------------------------------------------------------------------------
// The path
// ---------------------------------------------------------------------------

/// Two sessions that know each other complete a round trip: the probe of the
/// first is answered by the second, and the answer connects the first along the
/// path on which it came.
pub proof fn law_round_trip_connects(
    a: SessionView,
    b: SessionView,
    a_address: SocketAddress,
    b_address: SocketAddress,
    probe_id: Seq<u8>,
    b_now: u64,
    a_now: u64,
    id: Seq<u8>,
)
    requires
        a.consistent(),
        b.consistent(),
        a.peer == Some(b.local),
        b.peer == Some(a.local),
        a.state == State::Checking,
        usable_id(probe_id),
        a.pending.contains_key(probe_id),
        a.pending[probe_id].purpose == ProbePurpose::Connectivity,
        address::spec_is_unicast(a_address),
        address::spec_is_unicast(b_address),
        not_stun(a, b_address),
        not_stun(b, a_address),
    ensures
        ({
            let probe = session_model::check_packet(a.local, b.local, probe_id);
            let answer = session_model::check_ok_packet(b.local, a.local, probe_id);
            let at_b = b.step(InputView::Datagram { source: a_address, bytes: probe }, b_now, id);
            let at_a = a.step(InputView::Datagram { source: b_address, bytes: answer }, a_now, id);
            let kind = protocol::kind_for_source(b_address, b.local.candidates);
            let rtt = pending::since(a_now, a.pending[probe_id].sent_at);
            &&& at_b.request == (RequestView::Send { datagram: answer, target: a_address })
            &&& at_a.session.state == State::Connected
            &&& at_a.session.selected == Some(
                SelectedPathView {
                    source: b_address,
                    kind,
                    last_success: a_now,
                    consent_pending: None,
                },
            )
            &&& at_a.session.stats.selected_rtt == Some(rtt)
            &&& at_a.events == seq![EventView::Connected { source: b_address, kind, rtt }]
        }),
{
    reveal(SessionView::receive);
    reveal(SessionView::receive_control);
    reveal(SessionView::receive_check_ok);
    law_probe_is_answered(b, a_address, probe_id, b_now, id);
    lemma_packet_is_understood(PacketKind::CheckOk, b.local, a.local, probe_id);
    let answer = session_model::check_ok_packet(b.local, a.local, probe_id);
    let at_a = a.step(InputView::Datagram { source: b_address, bytes: answer }, a_now, id);
    let kind = protocol::kind_for_source(b_address, b.local.candidates);
    let rtt = pending::since(a_now, a.pending[probe_id].sent_at);
    assert(at_a.events =~= seq![EventView::Connected { source: b_address, kind, rtt }]);
}

/// A probe that went out waits for its answer, and the checks go on.
pub proof fn law_sent_probe_waits(
    s: SessionView,
    index: int,
    probe_id: Seq<u8>,
    target: SocketAddress,
    now: u64,
    id: Seq<u8>,
)
    requires
        s.consistent(),
        s.awaiting == (AwaitingView::ProbeSent { index, transaction_id: probe_id, target }),
        now >= s.tick,
    ensures
        ({
            let t = s.step(InputView::Sent, now, id).session;
            &&& t.local == s.local
            &&& t.peer == s.peer
            &&& t.state == State::Checking
            &&& t.pending_stun == s.pending_stun
            &&& t.pending.contains_key(probe_id)
            &&& t.pending[probe_id] == (PendingProbe {
                target,
                sent_at: now,
                purpose: ProbePurpose::Connectivity,
            })
        }),
{
    reveal(SessionView::sent);
    reveal(SessionView::probe);
    reveal(SessionView::progress);
    reveal(SessionView::consent);
}

/// From a probe to a path: once a probe of one session has gone out, its arrival
/// at the other and the arrival of the answer connect the first one.
pub proof fn law_sent_probe_connects(
    a: SessionView,
    b: SessionView,
    index: int,
    probe_id: Seq<u8>,
    target: SocketAddress,
    a_address: SocketAddress,
    b_address: SocketAddress,
    sent_at: u64,
    b_now: u64,
    a_now: u64,
    id: Seq<u8>,
)
    requires
        a.consistent(),
        b.consistent(),
        a.awaiting == (AwaitingView::ProbeSent { index, transaction_id: probe_id, target }),
        a.peer == Some(b.local),
        b.peer == Some(a.local),
        usable_id(probe_id),
        a.tick <= sent_at <= LAST_INSTANT,
        address::spec_is_unicast(a_address),
        address::spec_is_unicast(b_address),
        not_stun(a, b_address),
        not_stun(b, a_address),
    ensures
        ({
            let probe = session_model::check_packet(a.local, b.local, probe_id);
            let answer = session_model::check_ok_packet(b.local, a.local, probe_id);
            let waiting = a.step(InputView::Sent, sent_at, id).session;
            let at_b = b.step(InputView::Datagram { source: a_address, bytes: probe }, b_now, id);
            let at_a = waiting.step(
                InputView::Datagram { source: b_address, bytes: answer },
                a_now,
                id,
            );
            &&& at_b.request == (RequestView::Send { datagram: answer, target: a_address })
            &&& at_a.session.state == State::Connected
            &&& at_a.session.selected is Some
            &&& at_a.session.selected->0.source == b_address
            &&& at_a.session.stats.selected_rtt == Some(pending::since(a_now, sent_at))
        }),
{
    law_sent_probe_waits(a, index, probe_id, target, sent_at, id);
    session_laws::law_session_stays_consistent(a, InputView::Sent, sent_at, id);
    let waiting = a.step(InputView::Sent, sent_at, id).session;
    law_round_trip_connects(waiting, b, a_address, b_address, probe_id, b_now, a_now, id);
}

/// An answer to a manual ping from the address that was pinged gives its
/// round-trip time.
pub proof fn law_ping_is_measured(
    s: SessionView,
    probe_id: Seq<u8>,
    now: u64,
    id: Seq<u8>,
)
    requires
        s.consistent(),
        s.peer is Some,
        usable_id(probe_id),
        s.pending.contains_key(probe_id),
        s.pending[probe_id].purpose == ProbePurpose::ManualPing,
        not_stun(s, s.pending[probe_id].target),
    ensures
        s.step(
            InputView::Datagram {
                source: s.pending[probe_id].target,
                bytes: session_model::check_ok_packet(s.peer->0, s.local, probe_id),
            },
            now,
            id,
        ).events == seq![
            EventView::PingResult(pending::since(now, s.pending[probe_id].sent_at)),
        ],
{
    reveal(SessionView::receive);
    reveal(SessionView::receive_control);
    reveal(SessionView::receive_check_ok);
    lemma_packet_is_understood(PacketKind::CheckOk, s.peer->0, s.local, probe_id);
    let step = s.step(
        InputView::Datagram {
            source: s.pending[probe_id].target,
            bytes: session_model::check_ok_packet(s.peer->0, s.local, probe_id),
        },
        now,
        id,
    );
    assert(step.events =~= seq![
        EventView::PingResult(pending::since(now, s.pending[probe_id].sent_at)),
    ]);
}

/// An answer to a consent check from the selected source renews the path.
pub proof fn law_consent_renews_the_path(
    s: SessionView,
    probe_id: Seq<u8>,
    now: u64,
    id: Seq<u8>,
)
    requires
        s.consistent(),
        s.state == State::Connected,
        usable_id(probe_id),
        s.pending.contains_key(probe_id),
        s.pending[probe_id].purpose == ProbePurpose::Consent,
        s.pending[probe_id].target == s.selected->0.source,
        not_stun(s, s.selected->0.source),
    ensures
        s.step(
            InputView::Datagram {
                source: s.selected->0.source,
                bytes: session_model::check_ok_packet(s.peer->0, s.local, probe_id),
            },
            now,
            id,
        ).session.selected == Some(
            SelectedPathView { last_success: now, consent_pending: None, ..s.selected->0 },
        ),
{
    reveal(SessionView::receive);
    reveal(SessionView::receive_control);
    reveal(SessionView::receive_check_ok);
    lemma_packet_is_understood(PacketKind::CheckOk, s.peer->0, s.local, probe_id);
}

/// What it takes to connect a session: a datagram that the peer has signed with
/// its key, and that answers a connectivity probe which waits.
pub open spec fn confirms(s: SessionView, source: SocketAddress, bytes: Seq<u8>) -> bool {
    exists|packet: ControlPacketView|
        {
            &&& bytes == #[trigger] protocol::control_bytes(packet, s.peer->0.key)
            &&& packet.kind == PacketKind::CheckOk
            &&& packet.source_session == s.peer->0.session_id
            &&& packet.destination_session == s.local.session_id
            &&& s.pending.contains_key(packet.transaction_id)
            &&& s.pending[packet.transaction_id].purpose == ProbePurpose::Connectivity
            &&& session_model::source_allowed(s.pending[packet.transaction_id], source)
        }
}

proof fn lemma_datagram_connects(
    s: SessionView,
    source: SocketAddress,
    bytes: Seq<u8>,
    now: u64,
)
    requires
        s.state != State::Connected,
        s.receive(source, bytes, now).session.state == State::Connected,
    ensures
        s.state == State::Checking,
        s.peer is Some,
        confirms(s, source, bytes),
{
    reveal(SessionView::receive);
    reveal(SessionView::receive_control);
    reveal(SessionView::receive_check_ok);
    reveal(SessionView::receive_stun);
    let remote = s.peer->0;
    protocol_laws::law_accepted_control_is_signed(
        bytes,
        remote.session_id,
        s.local.session_id,
        remote.key,
    );
    let packet = protocol::read_control(
        bytes,
        remote.session_id,
        s.local.session_id,
        remote.key,
    )->Ok_0;
    assert(bytes == protocol::control_bytes(packet, remote.key));
}

/// Only an answer that the peer has signed, to a connectivity probe that still
/// waits, connects a session.
pub proof fn law_only_a_signed_answer_connects(
    s: SessionView,
    input: InputView,
    now: u64,
    id: Seq<u8>,
)
    requires
        s.consistent(),
        s.awaits(input),
        now <= LAST_INSTANT,
        s.state != State::Connected,
        s.step(input, now, id).session.state == State::Connected,
    ensures
        s.state == State::Checking,
        s.peer is Some,
        input matches InputView::Datagram { source, bytes } && confirms(s, source, bytes),
{
    reveal(SessionView::command);
    match input {
        InputView::Datagram { source, bytes } => {
            lemma_datagram_connects(s, source, bytes, now);
        },
        InputView::NoCommand => {
            session_laws::lemma_round(s, input, now, id);
        },
        InputView::Sent => {
            session_laws::lemma_round(s, input, now, id);
        },
        InputView::SendFailed(_) => {
            session_laws::lemma_round(s, input, now, id);
        },
        _ => {},
    }
}

/// The first confirmed path stays selected: while a session is connected, its
/// source and kind do not change.
pub proof fn law_first_path_stays(s: SessionView, input: InputView, now: u64, id: Seq<u8>)
    requires
        s.consistent(),
        s.awaits(input),
        now <= LAST_INSTANT,
        s.state == State::Connected,
        s.step(input, now, id).session.state == State::Connected,
    ensures
        s.step(input, now, id).session.selected is Some,
        s.step(input, now, id).session.selected->0.source == s.selected->0.source,
        s.step(input, now, id).session.selected->0.kind == s.selected->0.kind,
{
    reveal(SessionView::receive);
    reveal(SessionView::receive_control);
    reveal(SessionView::receive_check_ok);
    reveal(SessionView::receive_stun);
    reveal(SessionView::command);
    match input {
        InputView::NoCommand => {
            session_laws::lemma_round(s, input, now, id);
        },
        InputView::Sent => {
            session_laws::lemma_round(s, input, now, id);
        },
        InputView::SendFailed(_) => {
            session_laws::lemma_round(s, input, now, id);
        },
        _ => {},
    }
}

/// The public address changes only by the response of the STUN server that was
/// asked, and the user is told.
pub proof fn law_mapping_changes_by_the_server_alone(
    s: SessionView,
    input: InputView,
    now: u64,
    id: Seq<u8>,
)
    requires
        s.consistent(),
        s.awaits(input),
        now <= LAST_INSTANT,
        s.step(input, now, id).session.public_address != s.public_address,
    ensures
        ({
            let address = s.step(input, now, id).session.public_address;
            &&& s.pending_stun is Some
            &&& input matches InputView::Datagram { source, bytes } && source
                == s.pending_stun->0.server && stun::read_binding_response(
                bytes,
                s.pending_stun->0.transaction_id,
            ) == Ok::<BindingResponseView, stun::ParseErrorView>(
                BindingResponseView::Success(address),
            )
            &&& s.step(input, now, id).events == seq![EventView::MappingChanged { address }]
        }),
{
    reveal(SessionView::receive);
    reveal(SessionView::receive_control);
    reveal(SessionView::receive_check_ok);
    reveal(SessionView::receive_stun);
    reveal(SessionView::command);
    match input {
        InputView::Datagram { source, bytes } => {
            let step = s.step(input, now, id);
            assert(step.events =~= seq![
                EventView::MappingChanged { address: step.session.public_address },
            ]);
        },
        InputView::NoCommand => {
            session_laws::lemma_round(s, input, now, id);
        },
        InputView::Sent => {
            session_laws::lemma_round(s, input, now, id);
        },
        InputView::SendFailed(_) => {
            session_laws::lemma_round(s, input, now, id);
        },
        _ => {},
    }
}

// ---------------------------------------------------------------------------
// Time
// ---------------------------------------------------------------------------

/// After a probe, sent or not, comes the next candidate, while not too many
/// probes wait.
pub proof fn law_every_candidate_is_probed(
    s: SessionView,
    index: int,
    probe_id: Seq<u8>,
    target: SocketAddress,
    now: u64,
    id: Seq<u8>,
)
    requires
        s.consistent(),
        s.awaiting == (AwaitingView::ProbeSent { index, transaction_id: probe_id, target }),
        index + 1 < s.peer->0.candidates.len(),
        s.pending.insert(
            probe_id,
            PendingProbe { target, sent_at: now, purpose: ProbePurpose::Connectivity },
        ).len() < crate::session::MAX_PENDING,
    ensures
        s.step(InputView::Sent, now, id).request == (RequestView::Send {
            datagram: session_model::check_packet(s.local, s.peer->0, id),
            target: s.peer->0.candidates[index + 1].address,
        }),
        s.step(InputView::Sent, now, id).session.pending.contains_key(probe_id),
        s.step(InputView::Sent, now, id).session.pending[probe_id] == (PendingProbe {
            target,
            sent_at: now,
            purpose: ProbePurpose::Connectivity,
        }),
        forall|error: Seq<char>|
            (#[trigger] s.step(InputView::SendFailed(error), now, id)).request
                == (RequestView::Send {
                datagram: session_model::check_packet(s.local, s.peer->0, id),
                target: s.peer->0.candidates[index + 1].address,
            }),
{
    reveal(SessionView::sent);
    reveal(SessionView::send_failed);
    reveal(SessionView::probe);
}

/// The NAT mapping is refreshed when that is due: the next server in turn gets a
/// fresh request.
pub proof fn law_mapping_is_refreshed(s: SessionView, now: u64, id: Seq<u8>)
    requires
        now >= s.next_stun,
        s.pending_stun is None,
        s.stun_servers.len() > 0,
        s.stun_index < usize::MAX,
    ensures
        ({
            let step = s.step(InputView::NoCommand, now, id);
            &&& step.request == (RequestView::Send {
                datagram: stun::binding_request(id),
                target: s.stun_servers[s.stun_index as int % s.stun_servers.len() as int],
            })
            &&& step.session.stun_index == s.stun_index + 1
        }),
{
    reveal(SessionView::begin_round);
}

/// A STUN request without an answer is repeated unchanged, twice at most; after
/// that it is given up.
pub proof fn law_stun_request_is_repeated(s: SessionView, now: u64, id: Seq<u8>)
    requires
        s.consistent(),
        now <= LAST_INSTANT,
        s.pending_stun is Some,
        now >= s.pending_stun->0.deadline,
    ensures
        ({
            let step = s.step(InputView::NoCommand, now, id);
            let t = s.pending_stun->0;
            if t.attempt < 2 {
                step.request == (RequestView::Send {
                    datagram: stun::binding_request(t.transaction_id),
                    target: t.server,
                })
            } else {
                step.session.pending_stun is None
            }
        }),
{
    reveal(SessionView::begin_round);
    reveal(SessionView::retransmit);
    reveal(SessionView::check);
    reveal(SessionView::probe);
    reveal(SessionView::progress);
    reveal(SessionView::consent);
}

} // verus!
