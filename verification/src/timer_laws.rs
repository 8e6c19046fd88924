//! What the timers of a session lead to, step by step and in numbers. All times
//! are nanoseconds.

use crate::address::SocketAddress;
use crate::datagram_laws;
use crate::pending;
use crate::pending::{PendingProbe, ProbePurpose};
use crate::session::{State, LAST_INSTANT};
use crate::session_laws;
use crate::session_model;
use crate::session_model::{
    AwaitingView, EventView, InputView, PendingStunView, RequestView, SelectedPathView,
    SessionView, StepView,
};
use crate::wire_laws;
use vstd::prelude::*;

verus! {

// ---------------------------------------------------------------------------
// Words
// ---------------------------------------------------------------------------

/// The probe was sent less than four seconds before.
pub open spec fn is_young(probe: PendingProbe, now: u64) -> bool {
    now < probe.sent_at + 4_000_000_000
}

/// Exactly the young ones of the probes.
pub open spec fn young_of(
    probes: Map<Seq<u8>, PendingProbe>,
    now: u64,
    left: Map<Seq<u8>, PendingProbe>,
) -> bool {
    forall|id: Seq<u8>|
        #![trigger left.contains_key(id)]
        #![trigger probes.contains_key(id)]
        {
            &&& left.contains_key(id) <==> probes.contains_key(id) && is_young(probes[id], now)
            &&& left.contains_key(id) ==> left[id] == probes[id]
        }
}

/// The session `x` at the end of a round: old probes are dropped, and a consent
/// check whose probe is gone is forgotten. Nothing else changes, and a datagram is
/// waited for.
pub open spec fn rests(x: SessionView, step: StepView) -> bool {
    let t = step.session;
    &&& step.request == RequestView::Receive
    &&& young_of(x.pending, x.tick, t.pending)
    &&& t == SessionView {
        pending: t.pending,
        selected: t.selected,
        awaiting: AwaitingView::Datagram,
        ..x
    }
    &&& match x.selected {
        None => t.selected is None,
        Some(path) => t.selected == Some(
            SelectedPathView {
                consent_pending: if path.consent_pending is Some && t.pending.contains_key(
                    path.consent_pending->0,
                ) {
                    path.consent_pending
                } else {
                    None
                },
                ..path
            },
        ),
    }
}

/// The checks of session `x` end their part of a round: progress is told every
/// five seconds, with the time since they started and the counters.
pub open spec fn ends_checks(x: SessionView, told: Seq<EventView>, step: StepView) -> bool {
    let due = x.tick >= x.next_progress;
    &&& step.events == told + if due {
        seq![
            EventView::Progress {
                elapsed: datagram_laws::time_between(x.checking_started->0, x.tick),
                stats: x.stats,
            },
        ]
    } else {
        Seq::empty()
    }
    &&& rests(
        SessionView {
            next_progress: if due {
                (x.tick + 5_000_000_000) as u64
            } else {
                x.next_progress
            },
            ..x
        },
        step,
    )
}

/// No STUN request is to be sent or given up at this time.
pub open spec fn stun_is_quiet(s: SessionView, now: u64) -> bool {
    match s.pending_stun {
        Some(t) => now < t.deadline,
        None => now < s.next_stun || s.stun_servers.len() == 0,
    }
}

/// The session with another STUN request on its way and another time for the
/// next one, about to begin a round.
pub open spec fn with_stun(
    s: SessionView,
    pending_stun: Option<PendingStunView>,
    next_stun: u64,
) -> SessionView {
    SessionView { pending_stun, next_stun, awaiting: AwaitingView::Command, ..s }
}

/// The step with another STUN request on its way and another time for the next
/// one.
pub open spec fn step_with_stun(
    step: StepView,
    pending_stun: Option<PendingStunView>,
    next_stun: u64,
) -> StepView {
    StepView { session: SessionView { pending_stun, next_stun, ..step.session }, ..step }
}

// ---------------------------------------------------------------------------
// What the rest of a round looks at
// ---------------------------------------------------------------------------

/// What STUN does and what was awaited do not matter to the session `x`.
spec fn moved(
    x: SessionView,
    a: AwaitingView,
    pending_stun: Option<PendingStunView>,
    next_stun: u64,
) -> SessionView {
    SessionView { awaiting: a, pending_stun, next_stun, ..x }
}

proof fn lemma_consent_moved(
    x: SessionView,
    a: AwaitingView,
    p: Option<PendingStunView>,
    n: u64,
    id: Seq<u8>,
)
    ensures
        moved(x, a, p, n).consent(id) == step_with_stun(x.consent(id), p, n),
{
    reveal(SessionView::consent);
}

proof fn lemma_progress_moved(
    x: SessionView,
    a: AwaitingView,
    p: Option<PendingStunView>,
    n: u64,
    id: Seq<u8>,
)
    ensures
        moved(x, a, p, n).progress(id) == step_with_stun(x.progress(id), p, n),
{
    reveal(SessionView::progress);
    lemma_consent_moved(x, a, p, n, id);
    let y = SessionView {
        next_progress: session_model::later(x.tick, crate::session::PROGRESS_INTERVAL),
        ..x
    };
    lemma_consent_moved(y, a, p, n, id);
}

proof fn lemma_probe_moved(
    x: SessionView,
    index: int,
    a: AwaitingView,
    p: Option<PendingStunView>,
    n: u64,
    id: Seq<u8>,
)
    ensures
        moved(x, a, p, n).probe(index, id) == step_with_stun(x.probe(index, id), p, n),
{
    reveal(SessionView::probe);
    let y = SessionView {
        next_probe: session_model::later(x.tick, crate::session::PROBE_INTERVAL),
        ..x
    };
    lemma_progress_moved(y, a, p, n, id);
}

proof fn lemma_check_moved(
    x: SessionView,
    a: AwaitingView,
    p: Option<PendingStunView>,
    n: u64,
    id: Seq<u8>,
)
    ensures
        moved(x, a, p, n).check(id) == step_with_stun(x.check(id), p, n),
{
    reveal(SessionView::check);
    lemma_consent_moved(x, a, p, n, id);
    lemma_progress_moved(SessionView { state: State::Failed, ..x }, a, p, n, id);
    lemma_probe_moved(x, 0, a, p, n, id);
    lemma_progress_moved(x, a, p, n, id);
}

/// The checks and the consent leave STUN alone.
proof fn lemma_check_leaves_stun(x: SessionView, id: Seq<u8>)
    ensures
        x.check(id) == step_with_stun(x.check(id), x.pending_stun, x.next_stun),
{
    assert(moved(x, x.awaiting, x.pending_stun, x.next_stun) == x);
    lemma_check_moved(x, x.awaiting, x.pending_stun, x.next_stun, id);
}

/// A round without STUN is the checks and the consent.
proof fn lemma_quiet_round(s: SessionView, now: u64, id: Seq<u8>)
    requires
        stun_is_quiet(s, now),
    ensures
        s.step(InputView::NoCommand, now, id) == (SessionView { tick: now, ..s }).check(id),
{
    reveal(SessionView::begin_round);
    reveal(SessionView::retransmit);
}

proof fn lemma_rests(x: SessionView)
    ensures
        rests(x, x.end_round()),
        x.end_round().events == Seq::<EventView>::empty(),
{
}

proof fn lemma_ends_checks(x: SessionView, id: Seq<u8>)
    requires
        x.selected is None,
        x.checking_started is Some,
    ensures
        ends_checks(x, Seq::empty(), x.progress(id)),
{
    reveal(SessionView::progress);
    reveal(SessionView::consent);
    let y = SessionView {
        next_progress: session_model::later(x.tick, crate::session::PROGRESS_INTERVAL),
        ..x
    };
    lemma_rests(x);
    lemma_rests(y);
    if x.tick >= x.next_progress {
        assert(x.progress(id).events =~= Seq::<EventView>::empty() + seq![
            EventView::Progress {
                elapsed: datagram_laws::time_between(x.checking_started->0, x.tick),
                stats: x.stats,
            },
        ]);
    } else {
        assert(x.progress(id).events =~= Seq::<EventView>::empty() + Seq::<EventView>::empty());
    }
}

// ---------------------------------------------------------------------------
// STUN
// ---------------------------------------------------------------------------

/// When no STUN request is on its way and one is due, a fresh one goes to the
/// servers in turn. Nothing else is done before its fate is known.
pub proof fn law_keepalive_goes_out(s: SessionView, now: u64, id: Seq<u8>)
    requires
        now >= s.next_stun,
        s.pending_stun is None,
        s.stun_servers.len() > 0,
    ensures
        ({
            let server = s.stun_servers[s.stun_index as int % s.stun_servers.len() as int];
            s.step(InputView::NoCommand, now, id) == StepView {
                session: SessionView {
                    tick: now,
                    stun_index: if s.stun_index == usize::MAX {
                        0
                    } else {
                        (s.stun_index + 1) as usize
                    },
                    awaiting: AwaitingView::KeepaliveSent { transaction_id: id, server },
                    ..s
                },
                events: Seq::empty(),
                request: RequestView::Send { datagram: wire_laws::request(id), target: server },
            }
        }),
{
    reveal(SessionView::begin_round);
    wire_laws::law_request_layout(id);
}

/// A STUN request that went out is on its way for half a second at first, and the
/// next one is due after fifteen seconds. The round goes on as one that begins at
/// the same time.
pub proof fn law_keepalive_is_on_its_way(
    s: SessionView,
    transaction_id: Seq<u8>,
    server: SocketAddress,
    now: u64,
    id: Seq<u8>,
)
    requires
        s.consistent(),
        s.awaiting == (AwaitingView::KeepaliveSent { transaction_id, server }),
    ensures
        s.step(InputView::Sent, now, id) == with_stun(
            s,
            Some(
                PendingStunView {
                    server,
                    transaction_id,
                    sent_at: s.tick,
                    deadline: (s.tick + 500_000_000) as u64,
                    attempt: 0,
                },
            ),
            (s.tick + 15_000_000_000) as u64,
        ).step(InputView::NoCommand, s.tick, id),
{
    let x = s.keepalive_sent(server, transaction_id).keepalive_done();
    reveal(SessionView::sent);
    reveal(SessionView::retransmit);
    let y = with_stun(s, x.pending_stun, x.next_stun);
    lemma_quiet_round(y, s.tick, id);
    lemma_check_moved(x, AwaitingView::Command, x.pending_stun, x.next_stun, id);
    lemma_check_leaves_stun(x, id);
    assert(SessionView { tick: s.tick, ..y } == moved(
        x,
        AwaitingView::Command,
        x.pending_stun,
        x.next_stun,
    ));
}

/// A STUN request that could not be sent is told; the next one is due after
/// fifteen seconds. The round goes on as one that begins at the same time.
pub proof fn law_keepalive_that_failed_is_told(
    s: SessionView,
    transaction_id: Seq<u8>,
    server: SocketAddress,
    error: Seq<char>,
    now: u64,
    id: Seq<u8>,
)
    requires
        s.consistent(),
        s.awaiting == (AwaitingView::KeepaliveSent { transaction_id, server }),
        s.pending_stun is None,
    ensures
        ({
            let rest = with_stun(s, None, (s.tick + 15_000_000_000) as u64).step(
                InputView::NoCommand,
                s.tick,
                id,
            );
            s.step(InputView::SendFailed(error), now, id) == StepView {
                events: seq![EventView::Info("STUN keepalive send error: "@ + error)]
                    + rest.events,
                ..rest
            }
        }),
{
    let x = s.keepalive_done();
    reveal(SessionView::send_failed);
    reveal(SessionView::retransmit);
    let y = with_stun(s, None, x.next_stun);
    lemma_quiet_round(y, s.tick, id);
    lemma_check_moved(x, AwaitingView::Command, None, x.next_stun, id);
    lemma_check_leaves_stun(x, id);
    assert(SessionView { tick: s.tick, ..y } == moved(
        x,
        AwaitingView::Command,
        None,
        x.next_stun,
    ));
}

/// A STUN request without an answer in time is sent again, unchanged, up to twice.
pub proof fn law_stun_request_goes_out_again(s: SessionView, now: u64, id: Seq<u8>)
    requires
        s.pending_stun is Some,
        now >= s.pending_stun->0.deadline,
        s.pending_stun->0.attempt < 2,
    ensures
        s.step(InputView::NoCommand, now, id) == (StepView {
            session: SessionView { tick: now, awaiting: AwaitingView::RetransmitSent, ..s },
            events: Seq::empty(),
            request: RequestView::Send {
                datagram: wire_laws::request(s.pending_stun->0.transaction_id),
                target: s.pending_stun->0.server,
            },
        }),
{
    reveal(SessionView::begin_round);
    reveal(SessionView::retransmit);
    wire_laws::law_request_layout(s.pending_stun->0.transaction_id);
}

/// Once sent again it is on its way for a second, and once more for two seconds.
/// The round goes on as one that begins at the same time.
pub proof fn law_repeated_request_is_on_its_way(s: SessionView, now: u64, id: Seq<u8>)
    requires
        s.consistent(),
        s.awaiting == AwaitingView::RetransmitSent,
    ensures
        s.step(InputView::Sent, now, id) == with_stun(
            s,
            Some(
                PendingStunView {
                    deadline: if s.pending_stun->0.attempt == 0 {
                        (s.tick + 1_000_000_000) as u64
                    } else {
                        (s.tick + 2_000_000_000) as u64
                    },
                    attempt: if s.pending_stun->0.attempt == 0 {
                        1
                    } else {
                        2
                    },
                    ..s.pending_stun->0
                },
            ),
            s.next_stun,
        ).step(InputView::NoCommand, s.tick, id),
{
    let x = s.retransmit_sent();
    reveal(SessionView::sent);
    let y = with_stun(s, x.pending_stun, x.next_stun);
    lemma_quiet_round(y, s.tick, id);
    lemma_check_moved(x, AwaitingView::Command, x.pending_stun, x.next_stun, id);
    lemma_check_leaves_stun(x, id);
    assert(SessionView { tick: s.tick, ..y } == moved(
        x,
        AwaitingView::Command,
        x.pending_stun,
        x.next_stun,
    ));
}

/// A STUN request that could not be sent again stays as it is, silently. The
/// round goes on as if no STUN request were there.
pub proof fn law_repeated_request_that_failed(
    s: SessionView,
    error: Seq<char>,
    now: u64,
    id: Seq<u8>,
)
    requires
        s.consistent(),
        s.awaiting == AwaitingView::RetransmitSent,
    ensures
        s.step(InputView::SendFailed(error), now, id) == step_with_stun(
            with_stun(s, None, (s.tick + 1) as u64).step(InputView::NoCommand, s.tick, id),
            s.pending_stun,
            s.next_stun,
        ),
{
    let later = (s.tick + 1) as u64;
    reveal(SessionView::send_failed);
    let y = with_stun(s, None, later);
    lemma_quiet_round(y, s.tick, id);
    lemma_check_moved(s, AwaitingView::Command, None, later, id);
    lemma_check_leaves_stun(s, id);
    assert(SessionView { tick: s.tick, ..y } == moved(s, AwaitingView::Command, None, later));
}

/// A STUN request that was sent three times without an answer is given up. The
/// round goes on as if there were none.
pub proof fn law_stun_request_is_given_up(s: SessionView, now: u64, id: Seq<u8>)
    requires
        now <= LAST_INSTANT,
        s.pending_stun is Some,
        now >= s.pending_stun->0.deadline,
        s.pending_stun->0.attempt >= 2,
    ensures
        s.step(InputView::NoCommand, now, id) == step_with_stun(
            with_stun(s, None, (now + 1) as u64).step(InputView::NoCommand, now, id),
            None,
            s.next_stun,
        ),
{
    let later = (now + 1) as u64;
    let x = SessionView { tick: now, pending_stun: None, ..s };
    reveal(SessionView::begin_round);
    reveal(SessionView::retransmit);
    let y = with_stun(s, None, later);
    assert(s.step(InputView::NoCommand, now, id) == x.check(id));
    assert(y.step(InputView::NoCommand, now, id) == (SessionView { tick: now, ..y }).check(id));
    lemma_check_moved(x, AwaitingView::Command, None, later, id);
    lemma_check_leaves_stun(x, id);
    assert(SessionView { tick: now, ..y } == moved(x, AwaitingView::Command, None, later));
}

// ---------------------------------------------------------------------------
// The checks
// ---------------------------------------------------------------------------

/// Half a minute after the checks started without a confirmed path they fail, and
/// the user is told with the counters.
pub proof fn law_checks_fail(s: SessionView, now: u64, id: Seq<u8>)
    requires
        s.consistent(),
        s.state == State::Checking,
        stun_is_quiet(s, now),
        now >= s.checking_started->0 + 30_000_000_000,
        now <= LAST_INSTANT,
    ensures
        ends_checks(
            SessionView { tick: now, state: State::Failed, ..s },
            seq![EventView::Failed { stats: s.stats }],
            s.step(InputView::NoCommand, now, id),
        ),
{
    let x = SessionView { tick: now, ..s };
    let y = SessionView { state: State::Failed, ..x };
    lemma_quiet_round(s, now, id);
    reveal(SessionView::check);
    lemma_ends_checks(y, id);
    let rest = y.progress(id);
    assert(x.check(id).events =~= seq![EventView::Failed { stats: s.stats }] + rest.events);
    assert(Seq::<EventView>::empty() + rest.events =~= rest.events);
    if now >= s.next_progress {
        assert(x.check(id).events =~= seq![EventView::Failed { stats: s.stats }] + seq![
            EventView::Progress {
                elapsed: datagram_laws::time_between(s.checking_started->0, now),
                stats: s.stats,
            },
        ]);
    } else {
        assert(x.check(id).events =~= seq![EventView::Failed { stats: s.stats }] + Seq::<
            EventView,
        >::empty());
    }
}

/// Until then the candidates are probed when that is due: a signed probe goes to
/// the first one, unless 256 probes wait. Nothing else is done before its fate is
/// known.
pub proof fn law_first_probe_goes_out(s: SessionView, now: u64, id: Seq<u8>)
    requires
        s.consistent(),
        s.state == State::Checking,
        stun_is_quiet(s, now),
        now < s.checking_started->0 + 30_000_000_000,
        now <= LAST_INSTANT,
        now >= s.next_probe,
        s.pending.len() < 256,
    ensures
        s.step(InputView::NoCommand, now, id) == (StepView {
            session: SessionView {
                tick: now,
                awaiting: AwaitingView::ProbeSent {
                    index: 0,
                    transaction_id: id,
                    target: s.peer->0.candidates[0].address,
                },
                ..s
            },
            events: Seq::empty(),
            request: RequestView::Send {
                datagram: wire_laws::packet(1, s.local, s.peer->0, id),
                target: s.peer->0.candidates[0].address,
            },
        }),
{
    lemma_quiet_round(s, now, id);
    reveal(SessionView::check);
    reveal(SessionView::probe);
    wire_laws::lemma_packets(s.local, s.peer->0, id);
}

/// Where 256 probes wait, the round of probes is skipped and the next one is due
/// half a second later; where none is due, its time stays.
pub proof fn law_checks_wait(s: SessionView, now: u64, id: Seq<u8>)
    requires
        s.consistent(),
        s.state == State::Checking,
        stun_is_quiet(s, now),
        now < s.checking_started->0 + 30_000_000_000,
        now <= LAST_INSTANT,
        now < s.next_probe || s.pending.len() >= 256,
    ensures
        ends_checks(
            SessionView {
                tick: now,
                next_probe: if now >= s.next_probe {
                    (now + 500_000_000) as u64
                } else {
                    s.next_probe
                },
                ..s
            },
            Seq::empty(),
            s.step(InputView::NoCommand, now, id),
        ),
{
    let x = SessionView { tick: now, ..s };
    lemma_quiet_round(s, now, id);
    reveal(SessionView::check);
    reveal(SessionView::probe);
    lemma_ends_checks(x, id);
    lemma_ends_checks(SessionView { next_probe: (now + 500_000_000) as u64, ..x }, id);
}

/// A probe that went out waits for its answer and is counted; one that did not
/// leaves no trace. Either way the next candidate is probed, unless it was the
/// last one or 256 probes wait; the next round of probes is then due half a second
/// after this one began.
pub proof fn law_probes_go_on(
    s: SessionView,
    index: int,
    transaction_id: Seq<u8>,
    target: SocketAddress,
    input: InputView,
    now: u64,
    id: Seq<u8>,
)
    requires
        s.consistent(),
        s.awaiting == (AwaitingView::ProbeSent { index, transaction_id, target }),
        input is Sent || input is SendFailed,
    ensures
        ({
            let step = s.step(input, now, id);
            let x = if input is Sent {
                wire_laws::with_probe(s, transaction_id, target, ProbePurpose::Connectivity, now)
            } else {
                s
            };
            if index + 1 < s.peer->0.candidates.len() && x.pending.len() < 256 {
                let next = s.peer->0.candidates[index + 1].address;
                step == StepView {
                    session: SessionView {
                        awaiting: AwaitingView::ProbeSent {
                            index: index + 1,
                            transaction_id: id,
                            target: next,
                        },
                        ..x
                    },
                    events: Seq::empty(),
                    request: RequestView::Send {
                        datagram: wire_laws::packet(1, s.local, s.peer->0, id),
                        target: next,
                    },
                }
            } else {
                ends_checks(
                    SessionView { next_probe: (s.tick + 500_000_000) as u64, ..x },
                    Seq::empty(),
                    step,
                )
            }
        }),
{
    let x = if input is Sent {
        s.add_probe(transaction_id, target, ProbePurpose::Connectivity, now)
    } else {
        s
    };
    reveal(SessionView::sent);
    reveal(SessionView::send_failed);
    reveal(SessionView::probe);
    wire_laws::lemma_packets(s.local, s.peer->0, id);
    lemma_ends_checks(SessionView { next_probe: (s.tick + 500_000_000) as u64, ..x }, id);
}

/// A session that neither checks nor is connected only drops old probes in a
/// round.
pub proof fn law_idle_round_does_nothing(s: SessionView, now: u64, id: Seq<u8>)
    requires
        s.consistent(),
        s.state == State::Waiting || s.state == State::Failed,
        stun_is_quiet(s, now),
    ensures
        rests(SessionView { tick: now, ..s }, s.step(InputView::NoCommand, now, id)),
        s.step(InputView::NoCommand, now, id).events == Seq::<EventView>::empty(),
{
    lemma_quiet_round(s, now, id);
    reveal(SessionView::check);
    reveal(SessionView::consent);
    lemma_rests(SessionView { tick: now, ..s });
}

// ---------------------------------------------------------------------------
// The path
// ---------------------------------------------------------------------------

/// A path that was silent for fifteen seconds is left: the checks start from
/// nothing and are due at once, and the user is told with the counters.
pub proof fn law_silence_ends_the_path(s: SessionView, now: u64, id: Seq<u8>)
    requires
        s.consistent(),
        s.state == State::Connected,
        stun_is_quiet(s, now),
        now >= s.selected->0.last_success + 15_000_000_000,
    ensures
        s.step(InputView::NoCommand, now, id) == (StepView {
            session: SessionView {
                tick: now,
                state: State::Checking,
                checking_started: Some(now),
                selected: None,
                pending: Map::empty(),
                next_probe: now,
                awaiting: AwaitingView::Datagram,
                ..s
            },
            events: seq![
                EventView::Disconnected {
                    reason: "consent checks не получили ответа 15 секунд"@,
                    stats: s.stats,
                },
            ],
            request: RequestView::Receive,
        }),
{
    lemma_quiet_round(s, now, id);
    reveal(SessionView::check);
    reveal(SessionView::consent);
    let step = s.step(InputView::NoCommand, now, id);
    assert(step.session.pending =~= Map::<Seq<u8>, PendingProbe>::empty());
    assert(step.events =~= seq![
        EventView::Disconnected {
            reason: "consent checks не получили ответа 15 секунд"@,
            stats: s.stats,
        },
    ]);
}

/// A path that was silent for five seconds is asked for a sign of life, unless it
/// has been asked already: a signed probe goes along it. Nothing else is done
/// before its fate is known.
pub proof fn law_consent_check_goes_out(s: SessionView, now: u64, id: Seq<u8>)
    requires
        s.consistent(),
        s.state == State::Connected,
        stun_is_quiet(s, now),
        s.selected->0.last_success + 5_000_000_000 <= now < s.selected->0.last_success
            + 15_000_000_000,
        s.selected->0.consent_pending is None,
    ensures
        s.step(InputView::NoCommand, now, id) == (StepView {
            session: SessionView {
                tick: now,
                awaiting: AwaitingView::ConsentSent {
                    transaction_id: id,
                    target: s.selected->0.source,
                },
                ..s
            },
            events: Seq::empty(),
            request: RequestView::Send {
                datagram: wire_laws::packet(1, s.local, s.peer->0, id),
                target: s.selected->0.source,
            },
        }),
{
    lemma_quiet_round(s, now, id);
    reveal(SessionView::check);
    reveal(SessionView::consent);
    wire_laws::lemma_packets(s.local, s.peer->0, id);
}

/// A connected session whose path was heard of within five seconds, or has been
/// asked within fifteen, only drops old probes in a round.
pub proof fn law_connected_round_waits(s: SessionView, now: u64, id: Seq<u8>)
    requires
        s.consistent(),
        s.state == State::Connected,
        stun_is_quiet(s, now),
        now < s.selected->0.last_success + 15_000_000_000,
        now < s.selected->0.last_success + 5_000_000_000
            || s.selected->0.consent_pending is Some,
    ensures
        rests(SessionView { tick: now, ..s }, s.step(InputView::NoCommand, now, id)),
        s.step(InputView::NoCommand, now, id).events == Seq::<EventView>::empty(),
{
    lemma_quiet_round(s, now, id);
    reveal(SessionView::check);
    reveal(SessionView::consent);
    lemma_rests(SessionView { tick: now, ..s });
}

/// A consent check that went out waits for its answer, is counted, and is
/// remembered with the path; one that did not leaves no trace. Either way the
/// round ends.
pub proof fn law_consent_check_waits(
    s: SessionView,
    transaction_id: Seq<u8>,
    target: SocketAddress,
    error: Seq<char>,
    now: u64,
    id: Seq<u8>,
)
    requires
        s.consistent(),
        s.awaiting == (AwaitingView::ConsentSent { transaction_id, target }),
    ensures
        rests(
            SessionView {
                selected: Some(
                    SelectedPathView {
                        consent_pending: Some(transaction_id),
                        ..s.selected->0
                    },
                ),
                ..wire_laws::with_probe(s, transaction_id, target, ProbePurpose::Consent, now)
            },
            s.step(InputView::Sent, now, id),
        ),
        s.step(InputView::Sent, now, id).events == Seq::<EventView>::empty(),
        rests(s, s.step(InputView::SendFailed(error), now, id)),
        s.step(InputView::SendFailed(error), now, id).events == Seq::<EventView>::empty(),
{
    reveal(SessionView::sent);
    reveal(SessionView::send_failed);
    lemma_rests(s);
    lemma_rests(
        s.add_probe(transaction_id, target, ProbePurpose::Consent, now).consent_sent(
            transaction_id,
        ),
    );
}

/// A session has a peer exactly while it does not wait for one, and a path exactly
/// while it is connected. A probe that goes out goes to a candidate of the peer and
/// finds room among the pending ones; a request to a server goes out again at most
/// twice.
pub proof fn law_session_keeps_its_bounds(s: SessionView)
    requires
        s.consistent(),
    ensures
        s.peer is Some <==> s.state != State::Waiting,
        s.checking_started is Some <==> s.state != State::Waiting,
        s.selected is Some <==> s.state == State::Connected,
        s.pending_stun is Some ==> s.pending_stun->0.attempt <= 2,
        s.awaiting is RetransmitSent ==> s.pending_stun is Some && s.pending_stun->0.attempt <= 1,
        s.awaiting is PingSent ==> s.state == State::Connected,
        s.awaiting is ConsentSent ==> s.state == State::Connected,
        s.awaiting matches AwaitingView::ProbeSent { index, .. } ==> s.state == State::Checking
            && 0 <= index < s.peer->0.candidates.len() && s.pending.len() <= 255,
{
}

} // verus!
