//! What each command of the user does to a session, whatever state it is in.

use crate::address::SocketAddress;
use crate::pass_laws;
use crate::pending::PendingProbe;
use crate::protocol::PeerDescriptionView;
use crate::protocol_laws;
use crate::runs;
use crate::runs::Outcome;
use crate::session::{State, Stats};
use crate::session_laws;
use crate::session_model::{
    AwaitingView, CommandView, EventView, InputView, ReceiveFaultView, RequestView, SessionView,
    StepView,
};
use crate::wire_laws;
use vstd::prelude::*;

verus! {

/// All counters at zero.
pub open spec fn zeroed() -> Stats {
    Stats {
        probes_sent: 0,
        datagrams_received: 0,
        authenticated: 0,
        invalid: 0,
        selected_rtt: None,
    }
}

/// The step that tells the user one thing and asks for the next command.
pub open spec fn only_tells(session: SessionView, event: EventView) -> StepView {
    StepView {
        session: SessionView { awaiting: AwaitingView::Command, ..session },
        events: seq![event],
        request: RequestView::PollCommand,
    }
}

/// The step that tells nothing and asks for the next command.
pub open spec fn only_polls(session: SessionView) -> StepView {
    StepView {
        session: SessionView { awaiting: AwaitingView::Command, ..session },
        events: Seq::empty(),
        request: RequestView::PollCommand,
    }
}

// ---------------------------------------------------------------------------
// The peer
// ---------------------------------------------------------------------------

/// A retry starts the checks afresh in whatever state the session is: the peer
/// stays, the path is given up, no probe waits, the counters are zero, and the
/// candidates are due at once. The user is told so, and nothing else changes.
pub proof fn law_retry_starts_afresh(s: SessionView, now: u64, id: Seq<u8>)
    requires
        s.peer is Some,
    ensures
        s.step(InputView::Command(CommandView::Retry), now, id) == only_tells(
            SessionView {
                state: State::Checking,
                selected: None,
                pending: Map::empty(),
                stats: zeroed(),
                checking_started: Some(now),
                next_probe: now,
                ..s
            },
            EventView::Info("Повторяю candidate checks."@),
        ),
{
    reveal(SessionView::command);
    let step = s.step(InputView::Command(CommandView::Retry), now, id);
    assert(step.events =~= seq![EventView::Info("Повторяю candidate checks."@)]);
}

/// Without a peer there is nothing to retry: the user is told, and nothing
/// changes.
pub proof fn law_retry_needs_a_peer(s: SessionView, now: u64, id: Seq<u8>)
    requires
        s.peer is None,
    ensures
        s.step(InputView::Command(CommandView::Retry), now, id) == only_tells(
            s,
            EventView::Info("Сначала вставьте session code второй машины."@),
        ),
{
    reveal(SessionView::command);
    let step = s.step(InputView::Command(CommandView::Retry), now, id);
    assert(step.events =~= seq![
        EventView::Info("Сначала вставьте session code второй машины."@),
    ]);
}

/// After a retry in any state the next pass within half a minute probes every
/// candidate of the peer, once and in order.
pub proof fn law_retry_probes_every_candidate(
    s: SessionView,
    now: u64,
    id: Seq<u8>,
    pass: Seq<Outcome>,
)
    requires
        s.consistent(),
        s.awaiting == AwaitingView::Command,
        s.peer is Some,
        now <= crate::session::LAST_INSTANT,
        ({
            let t = s.step(InputView::Command(CommandView::Retry), now, id).session;
            pass_laws::is_pass(t, pass)
        }),
        now <= pass[0].now < now + 30_000_000_000,
    ensures
        ({
            let t = s.step(InputView::Command(CommandView::Retry), now, id).session;
            pass_laws::sent_probes(runs::run(t, pass).requests)
                == s.peer->0.candidates.map_values(|c: crate::protocol::Candidate| c.address)
        }),
{
    let input = InputView::Command(CommandView::Retry);
    let t = s.step(input, now, id).session;
    law_retry_starts_afresh(s, now, id);
    session_laws::law_session_stays_consistent(s, input, now, id);
    protocol_laws::law_valid_description(s.peer->0);
    assert(t.pending.len() == 0);
    pass_laws::law_candidates_are_probed(t, pass);
}

/// A description of another side is taken whatever the session did before: the
/// checks start from nothing, and the candidates are due at once.
pub proof fn law_new_peer_starts_afresh(
    s: SessionView,
    peer: PeerDescriptionView,
    now: u64,
    id: Seq<u8>,
)
    requires
        peer.error() is None,
        peer.session_id != s.local.session_id,
        peer.key != s.local.key,
        now <= crate::session::LAST_INSTANT,
    ensures
        s.step(InputView::Command(CommandView::SetPeer(peer)), now, id) == only_tells(
            SessionView {
                peer: Some(peer),
                state: State::Checking,
                selected: None,
                pending: Map::empty(),
                stats: zeroed(),
                checking_started: Some(now),
                next_probe: now,
                next_progress: (now + 5_000_000_000) as u64,
                ..s
            },
            EventView::CheckingStarted { candidates: peer.candidates.len() },
        ),
{
    reveal(SessionView::command);
    let step = s.step(InputView::Command(CommandView::SetPeer(peer)), now, id);
    assert(step.events =~= seq![
        EventView::CheckingStarted { candidates: peer.candidates.len() },
    ]);
}

/// A bad description and one with the session's own identifier or key is
/// refused: the user is told why, and nothing changes.
pub proof fn law_bad_peer_is_refused(
    s: SessionView,
    peer: PeerDescriptionView,
    now: u64,
    id: Seq<u8>,
)
    requires
        peer.error() is Some || peer.session_id == s.local.session_id || peer.key == s.local.key,
    ensures
        s.step(InputView::Command(CommandView::SetPeer(peer)), now, id) == only_tells(
            s,
            EventView::Info(
                "КОД ОТКЛОНЁН: "@ + match peer.error() {
                    Some(e) => e.message(),
                    None => if peer.session_id == s.local.session_id {
                        "это собственный session code (session id совпадает)"@
                    } else {
                        "это собственный session code (session key совпадает)"@
                    },
                },
            ),
        ),
{
    reveal(SessionView::command);
    let step = s.step(InputView::Command(CommandView::SetPeer(peer)), now, id);
    assert(step.events =~= seq![
        EventView::Info("КОД ОТКЛОНЁН: "@ + peer.remote_error(s.local)->0.message()),
    ]);
}

/// The peer is forgotten in whatever state the session is; the counters, the
/// timers and the STUN request stay.
pub proof fn law_peer_is_forgotten(s: SessionView, now: u64, id: Seq<u8>)
    ensures
        s.step(InputView::Command(CommandView::ClearPeer), now, id) == only_tells(
            SessionView {
                peer: None,
                state: State::Waiting,
                selected: None,
                pending: Map::empty(),
                checking_started: None,
                ..s
            },
            EventView::Info("Ожидаю новый session code второй машины."@),
        ),
{
    reveal(SessionView::command);
    let step = s.step(InputView::Command(CommandView::ClearPeer), now, id);
    assert(step.events =~= seq![
        EventView::Info("Ожидаю новый session code второй машины."@),
    ]);
}

// ---------------------------------------------------------------------------
// Ping and status
// ---------------------------------------------------------------------------

/// A ping sends one signed probe along the selected path and changes nothing
/// until it is on its way.
pub proof fn law_ping_goes_along_the_path(s: SessionView, now: u64, id: Seq<u8>)
    requires
        s.selected is Some,
        s.peer is Some,
    ensures
        s.step(InputView::Command(CommandView::Ping), now, id) == (StepView {
            session: SessionView {
                awaiting: AwaitingView::PingSent {
                    transaction_id: id,
                    target: s.selected->0.source,
                },
                ..s
            },
            events: Seq::empty(),
            request: RequestView::Send {
                datagram: wire_laws::packet(1, s.local, s.peer->0, id),
                target: s.selected->0.source,
            },
        }),
{
    reveal(SessionView::command);
    wire_laws::lemma_packets(s.local, s.peer->0, id);
}

/// Without a path there is nothing to ping.
pub proof fn law_ping_needs_a_path(s: SessionView, now: u64, id: Seq<u8>)
    requires
        s.selected is None,
    ensures
        s.step(InputView::Command(CommandView::Ping), now, id) == only_tells(
            s,
            EventView::Info("/ping доступен после подтверждённого round-trip."@),
        ),
{
    reveal(SessionView::command);
    let step = s.step(InputView::Command(CommandView::Ping), now, id);
    assert(step.events =~= seq![
        EventView::Info("/ping доступен после подтверждённого round-trip."@),
    ]);
}

/// A ping that went out waits for its answer from then on and is counted; one
/// that did not leaves no trace. Either way the next command is asked for.
pub proof fn law_ping_waits(
    s: SessionView,
    probe_id: Seq<u8>,
    target: SocketAddress,
    error: Seq<char>,
    now: u64,
    id: Seq<u8>,
)
    requires
        s.awaiting == (AwaitingView::PingSent { transaction_id: probe_id, target }),
    ensures
        s.step(InputView::Sent, now, id) == only_polls(
            wire_laws::with_probe(
                s,
                probe_id,
                target,
                crate::pending::ProbePurpose::ManualPing,
                now,
            ),
        ),
        s.step(InputView::SendFailed(error), now, id) == only_polls(s),
{
    reveal(SessionView::sent);
    reveal(SessionView::send_failed);
    assert(s.step(InputView::Sent, now, id).events =~= Seq::empty());
}

/// The status is told as it is, and nothing changes.
pub proof fn law_status_is_told(s: SessionView, now: u64, id: Seq<u8>)
    ensures
        s.step(InputView::Command(CommandView::Status), now, id) == only_tells(
            s,
            EventView::Status {
                state: match s.state {
                    State::Waiting => "waiting"@,
                    State::Checking => "checking"@,
                    State::Connected => "connected"@,
                    State::Failed => "failed"@,
                },
                peer: if s.selected is Some {
                    Some(s.selected->0.source)
                } else {
                    None
                },
                kind: if s.selected is Some {
                    Some(s.selected->0.kind)
                } else {
                    None
                },
                stats: s.stats,
            },
        ),
{
    reveal(SessionView::command);
    let step = s.step(InputView::Command(CommandView::Status), now, id);
    assert(step.events.len() == 1);
    assert(step.events =~= seq![step.events[0]]);
}

// ---------------------------------------------------------------------------
// The beginning and the end
// ---------------------------------------------------------------------------

/// A session begins with no peer and no timers; they start when the socket is
/// ready, and the NAT mapping is first refreshed after fifteen seconds.
pub proof fn law_session_begins(
    local: PeerDescriptionView,
    public_address: SocketAddress,
    stun_servers: Seq<SocketAddress>,
    now: u64,
    id: Seq<u8>,
)
    requires
        now <= crate::session::LAST_INSTANT,
    ensures
        SessionView::start(local, public_address, stun_servers).step(
            InputView::Configured,
            now,
            id,
        ) == (StepView {
            session: SessionView {
                local,
                public_address,
                stun_servers,
                peer: None,
                state: State::Waiting,
                stats: zeroed(),
                pending: Map::empty(),
                selected: None,
                checking_started: None,
                next_probe: now,
                next_progress: (now + 5_000_000_000) as u64,
                next_stun: (now + 15_000_000_000) as u64,
                pending_stun: None,
                stun_index: 0,
                tick: 0,
                awaiting: AwaitingView::Command,
            },
            events: Seq::empty(),
            request: RequestView::PollCommand,
        }),
        crate::session::TICK == 50_000_000,
{
}

/// A socket that cannot be made ready, one that fails, a shutdown and a user who
/// is gone end the session; a fault of the socket is told. Other faults of
/// receiving change nothing.
pub proof fn law_session_ends(s: SessionView, error: Seq<char>, now: u64, id: Seq<u8>)
    ensures
        ({
            let over = SessionView { awaiting: AwaitingView::Stopped, ..s };
            let silent = StepView {
                session: over,
                events: Seq::empty(),
                request: RequestView::Stop,
            };
            &&& s.step(InputView::Command(CommandView::Shutdown), now, id) == silent
            &&& s.step(InputView::Disconnected, now, id) == silent
            &&& s.step(InputView::ConfigureFailed(error), now, id) == (StepView {
                events: seq![
                    EventView::Fatal("не удалось настроить UDP receive: "@ + error),
                ],
                ..silent
            })
            &&& s.step(
                InputView::ReceiveFailed(ReceiveFaultView::Other(error)),
                now,
                id,
            ) == (StepView {
                events: seq![EventView::Fatal("UDP receive error: "@ + error)],
                ..silent
            })
            &&& s.step(InputView::ReceiveFailed(ReceiveFaultView::WouldBlock), now, id)
                == only_polls(s)
            &&& s.step(InputView::ReceiveFailed(ReceiveFaultView::TimedOut), now, id)
                == only_polls(s)
            &&& s.step(InputView::ReceiveFailed(ReceiveFaultView::ConnectionReset), now, id)
                == only_polls(s)
            &&& s.step(InputView::ReceiveFailed(ReceiveFaultView::ConnectionRefused), now, id)
                == only_polls(s)
        }),
{
    reveal(SessionView::command);
    assert(s.step(InputView::ConfigureFailed(error), now, id).events =~= seq![
        EventView::Fatal("не удалось настроить UDP receive: "@ + error),
    ]);
    assert(s.step(
        InputView::ReceiveFailed(ReceiveFaultView::Other(error)),
        now,
        id,
    ).events =~= seq![EventView::Fatal("UDP receive error: "@ + error)]);
}

/// The outcome that fits a request.
pub open spec fn fits(request: RequestView, input: InputView) -> bool {
    match request {
        RequestView::Configure { .. } => input is Configured || input is ConfigureFailed,
        RequestView::PollCommand => input is Command || input is NoCommand || input
            is Disconnected,
        RequestView::Send { .. } => input is Sent || input is SendFailed,
        RequestView::Receive => input is Datagram || input is ReceiveFailed,
        RequestView::Stop => false,
    }
}

/// A session takes exactly the outcomes that fit its last request.
pub proof fn law_outcomes_fit_the_request(
    s: SessionView,
    input: InputView,
    now: u64,
    id: Seq<u8>,
    next: InputView,
)
    requires
        s.consistent(),
        s.awaits(input),
        now <= crate::session::LAST_INSTANT,
    ensures
        s.step(input, now, id).session.awaits(next) <==> fits(s.step(input, now, id).request, next),
{
    match input {
        InputView::Command(_) => {
            reveal(SessionView::command);
        },
        InputView::Datagram { .. } => {
            reveal(SessionView::receive);
            reveal(SessionView::receive_stun);
            reveal(SessionView::receive_control);
            reveal(SessionView::receive_check_ok);
        },
        InputView::NoCommand => {
            session_laws::lemma_round(s, input, now, id);
        },
        InputView::Sent => {
            session_laws::lemma_round(s, input, now, id);
        },
        InputView::SendFailed(_) => {
            session_laws::lemma_round(s, input, now, id);
        },
        _ => {},
    }
}

/// A session that has just begun takes the outcome of making the socket ready.
pub proof fn law_first_outcome(
    local: PeerDescriptionView,
    public_address: SocketAddress,
    stun_servers: Seq<SocketAddress>,
    next: InputView,
)
    ensures
        SessionView::start(local, public_address, stun_servers).awaits(next) <==> next is Configured
            || next is ConfigureFailed,
        SessionView::start(local, public_address, stun_servers).pending == Map::<
            Seq<u8>,
            PendingProbe,
        >::empty(),
{
}

} // verus!
