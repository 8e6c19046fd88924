//! What a whole pass over the timers does: from the moment at which there is no
//! command until the session waits for a datagram, whatever is sent in between
//! and whatever becomes of it.

use crate::address::SocketAddress;
use crate::bytes;
use crate::pending;
use crate::pending::{PendingProbe, ProbePurpose};
use crate::protocol::Candidate;
use crate::runs;
use crate::runs::{Outcome, RunView};
use crate::session::{
    State, CONSENT_INTERVAL, CONSENT_TIMEOUT, LAST_INSTANT, MAX_PENDING, PROBE_INTERVAL,
    PROGRESS_INTERVAL,
};
use crate::session_laws;
use crate::session_model;
use crate::session_model::{
    AwaitingView, CommandView, EventView, InputView, RequestView, SessionView, StepView,
};
use crate::stun;
use vstd::prelude::*;

verus! {

// ---------------------------------------------------------------------------
// Words
// ---------------------------------------------------------------------------

/// Outcomes that begin a pass: no command, and after that only outcomes of
/// sending.
pub open spec fn begins_pass(s: SessionView, outcomes: Seq<Outcome>) -> bool {
    &&& runs::can_run(s, outcomes)
    &&& outcomes.len() > 0
    &&& outcomes[0].input is NoCommand
    &&& forall|i: int|
        0 < i < outcomes.len() ==> (#[trigger] outcomes[i]).input is Sent || outcomes[i].input
            is SendFailed
}

/// Outcomes that make up a whole pass: at its end a datagram is waited for.
pub open spec fn is_pass(s: SessionView, outcomes: Seq<Outcome>) -> bool {
    begins_pass(s, outcomes) && runs::run(s, outcomes).requests.last() is Receive
}

/// The user is told that the checks have failed.
pub open spec fn tells_failed(events: Seq<EventView>) -> bool {
    exists|i: int| 0 <= i < events.len() && (#[trigger] events[i]) is Failed
}

/// The user is told that the path was lost.
pub open spec fn tells_disconnected(events: Seq<EventView>) -> bool {
    exists|i: int| 0 <= i < events.len() && (#[trigger] events[i]) is Disconnected
}

/// The checks are under way and have used up their time.
pub open spec fn overdue(s: SessionView, now: u64) -> bool {
    s.state == State::Checking && (SessionView { tick: now, ..s }).checks_are_over()
}

/// The selected path has been silent for too long.
pub open spec fn silent(s: SessionView, now: u64) -> bool {
    s.state == State::Connected && pending::since(now, s.selected->0.last_success)
        >= CONSENT_TIMEOUT
}

/// The selected path is to be asked for a sign of life.
pub open spec fn consent_due(s: SessionView, now: u64) -> bool {
    &&& s.state == State::Connected
    &&& CONSENT_INTERVAL <= pending::since(now, s.selected->0.last_success) < CONSENT_TIMEOUT
    &&& s.selected->0.consent_pending is None
}

/// The candidates are to be probed.
pub open spec fn probes_due(s: SessionView, now: u64) -> bool {
    s.state == State::Checking && !overdue(s, now) && now >= s.next_probe
}

/// The addresses of the peer's candidates, in order.
pub open spec fn addresses(s: SessionView) -> Seq<SocketAddress> {
    s.peer->0.candidates.map_values(|c: Candidate| c.address)
}

/// A request to send the probe of the given outcome to the target.
pub open spec fn probe_request(
    s: SessionView,
    outcome: Outcome,
    target: SocketAddress,
) -> RequestView {
    RequestView::Send {
        datagram: session_model::check_packet(s.local, s.peer->0, outcome.transaction_id),
        target,
    }
}

/// A request that sends nothing but a STUN request, if anything.
pub open spec fn at_most_stun(request: RequestView) -> bool {
    request matches RequestView::Send { datagram, .. } ==> exists|x: Seq<u8>|
        datagram == #[trigger] stun::binding_request(x)
}

/// Where anything but STUN requests was sent to, in order.
pub open spec fn sent_probes(requests: Seq<RequestView>) -> Seq<SocketAddress>
    decreases requests.len(),
{
    if requests.len() == 0 {
        Seq::empty()
    } else {
        let before = sent_probes(requests.drop_last());
        if at_most_stun(requests.last()) {
            before
        } else {
            before.push(requests.last()->target)
        }
    }
}

/// Whatever is sent but STUN requests is a probe with the identifier of its own
/// outcome.
pub open spec fn sends_probes(
    s: SessionView,
    outcomes: Seq<Outcome>,
    requests: Seq<RequestView>,
) -> bool {
    forall|i: int|
        0 <= i < requests.len() && !at_most_stun(#[trigger] requests[i]) ==> requests[i]
            == probe_request(s, outcomes[i], requests[i]->target)
}

/// Everything that was sent in the pass went out.
pub open spec fn all_go_out(outcomes: Seq<Outcome>) -> bool {
    forall|i: int| 0 < i < outcomes.len() ==> (#[trigger] outcomes[i]).input is Sent
}

/// A counter after `n` more events; it stops at its largest value.
pub open spec fn counted_by(counter: u64, n: nat) -> u64 {
    if counter + n <= u64::MAX {
        (counter + n) as u64
    } else {
        u64::MAX
    }
}

/// The user is told of a failure at most once, and of a lost path at most once.
pub open spec fn tells_once(events: Seq<EventView>) -> bool {
    &&& forall|i: int, j: int|
        0 <= i < events.len() && 0 <= j < events.len() && (#[trigger] events[i]) is Failed && (
        #[trigger] events[j]) is Failed ==> i == j
    &&& forall|i: int, j: int|
        0 <= i < events.len() && 0 <= j < events.len() && (#[trigger] events[i]) is Disconnected
            && (#[trigger] events[j]) is Disconnected ==> i == j
}

// ---------------------------------------------------------------------------
// One step of a pass
// ---------------------------------------------------------------------------

spec fn quiet(events: Seq<EventView>) -> bool {
    !tells_failed(events) && !tells_disconnected(events)
}

proof fn lemma_quiet(a: Seq<EventView>, b: Seq<EventView>)
    ensures
        tells_failed(a + b) <==> tells_failed(a) || tells_failed(b),
        tells_disconnected(a + b) <==> tells_disconnected(a) || tells_disconnected(b),
{
    let c = a + b;
    if tells_failed(a) {
        let i = choose|i: int| 0 <= i < a.len() && (#[trigger] a[i]) is Failed;
        assert(c[i] == a[i]);
    }
    if tells_failed(b) {
        let i = choose|i: int| 0 <= i < b.len() && (#[trigger] b[i]) is Failed;
        assert(c[a.len() + i] == b[i]);
    }
    if tells_disconnected(a) {
        let i = choose|i: int| 0 <= i < a.len() && (#[trigger] a[i]) is Disconnected;
        assert(c[i] == a[i]);
    }
    if tells_disconnected(b) {
        let i = choose|i: int| 0 <= i < b.len() && (#[trigger] b[i]) is Disconnected;
        assert(c[a.len() + i] == b[i]);
    }
    if tells_failed(c) {
        let i = choose|i: int| 0 <= i < c.len() && (#[trigger] c[i]) is Failed;
        if i < a.len() {
            assert(a[i] == c[i]);
        } else {
            assert(b[i - a.len()] == c[i]);
        }
    }
    if tells_disconnected(c) {
        let i = choose|i: int| 0 <= i < c.len() && (#[trigger] c[i]) is Disconnected;
        if i < a.len() {
            assert(a[i] == c[i]);
        } else {
            assert(b[i - a.len()] == c[i]);
        }
    }
}

/// Nothing is told twice by two lists of which one tells nothing.
proof fn lemma_once(a: Seq<EventView>, b: Seq<EventView>)
    requires
        quiet(a) && tells_once(b) || quiet(b) && a.len() <= 1,
    ensures
        tells_once(a + b),
{
    let c = a + b;
    assert forall|i: int| 0 <= i < c.len() implies #[trigger] c[i] == (if i < a.len() {
        a[i]
    } else {
        b[i - a.len()]
    }) by {}
}

/// Only such an event is told as is right for the session at the start.
spec fn truthful(s: SessionView, events: Seq<EventView>) -> bool {
    forall|i: int|
        #![trigger events[i]]
        0 <= i < events.len() ==> {
            &&& events[i] is Failed ==> events[i] == (EventView::Failed { stats: s.stats })
            &&& events[i] is Disconnected ==> events[i] == (EventView::Disconnected {
                reason: "consent checks не получили ответа 15 секунд"@,
                stats: s.stats,
            })
        }
}

/// What a pass that began with session `s` has come to at its end.
spec fn ended(s: SessionView, now: u64, t: SessionView, events: Seq<EventView>) -> bool {
    &&& tells_failed(events) <==> overdue(s, now)
    &&& tells_disconnected(events) <==> silent(s, now)
    &&& tells_once(events)
    &&& truthful(s, events)
    &&& match s.state {
        State::Checking => if overdue(s, now) {
            t.state == State::Failed
        } else {
            t.state == State::Checking && t.checking_started == s.checking_started
        },
        State::Connected => if silent(s, now) {
            &&& t.state == State::Checking
            &&& t.checking_started == Some(now)
            &&& t.selected is None
            &&& t.pending == Map::<Seq<u8>, PendingProbe>::empty()
            &&& t.next_probe == now
        } else {
            &&& t.state == State::Connected
            &&& t.selected is Some
            &&& t.selected->0.source == s.selected->0.source
            &&& t.selected->0.kind == s.selected->0.kind
            &&& t.selected->0.last_success == s.selected->0.last_success
        },
        _ => t.state == s.state,
    }
}

/// Nothing has changed that the checks look at.
spec fn same_checks(s: SessionView, t: SessionView) -> bool {
    &&& t.state == s.state
    &&& t.checking_started == s.checking_started
    &&& t.selected == s.selected
    &&& t.stats == s.stats
    &&& t.pending == s.pending
    &&& t.next_probe == s.next_probe
}

/// How far a pass that began with session `s` has come.
spec fn leads(s: SessionView, now: u64, t: SessionView, events: Seq<EventView>) -> bool {
    &&& t.tick == now
    &&& t.local == s.local
    &&& t.peer == s.peer
    &&& match t.awaiting {
        AwaitingView::KeepaliveSent { .. } => same_checks(s, t) && quiet(events),
        AwaitingView::RetransmitSent => same_checks(s, t) && quiet(events),
        AwaitingView::ProbeSent { .. } => {
            &&& s.state == State::Checking
            &&& !overdue(s, now)
            &&& t.state == State::Checking
            &&& t.checking_started == s.checking_started
            &&& quiet(events)
        },
        AwaitingView::ConsentSent { .. } => {
            &&& consent_due(s, now)
            &&& t.state == State::Connected
            &&& t.selected == s.selected
            &&& quiet(events)
        },
        AwaitingView::Datagram => ended(s, now, t, events),
        _ => false,
    }
}

proof fn lemma_end_round_leads(x: SessionView)
    requires
        session_laws::settled(x),
        !overdue(x, x.tick),
        !silent(x, x.tick),
    ensures
        leads(x, x.tick, x.end_round().session, x.end_round().events),
{
}

proof fn lemma_consent_leads(x: SessionView, id: Seq<u8>)
    requires
        session_laws::settled(x),
        !overdue(x, x.tick),
    ensures
        leads(x, x.tick, x.consent(id).session, x.consent(id).events),
        x.consent(id).session.awaiting is Datagram ==> !consent_due(x, x.tick),
        x.consent(id).session.awaiting is Datagram || x.consent(id).session.awaiting
            is ConsentSent,
        x.consent(id).session.stats == x.stats,
        !silent(x, x.tick) ==> x.consent(id).session.next_probe == x.next_probe,
{
    reveal(SessionView::consent);
    if silent(x, x.tick) {
        let left = SessionView {
            state: State::Checking,
            checking_started: Some(x.tick),
            selected: None,
            pending: Map::empty(),
            next_probe: x.tick,
            ..x
        };
        let step = x.consent(id);
        let told = EventView::Disconnected {
            reason: "consent checks не получили ответа 15 секунд"@,
            stats: x.stats,
        };
        assert(step.events =~= seq![told]);
        assert(step.events[0] is Disconnected);
        assert(step.session.pending =~= Map::<Seq<u8>, PendingProbe>::empty());
    } else {
        lemma_end_round_leads(x);
    }
}

proof fn lemma_progress_leads(x: SessionView, id: Seq<u8>)
    requires
        session_laws::settled(x),
        !overdue(x, x.tick),
    ensures
        leads(x, x.tick, x.progress(id).session, x.progress(id).events),
        x.progress(id).session.awaiting is Datagram ==> !consent_due(x, x.tick),
        x.progress(id).session.awaiting is Datagram || x.progress(id).session.awaiting
            is ConsentSent,
        x.progress(id).session.stats == x.stats,
        !silent(x, x.tick) ==> x.progress(id).session.next_probe == x.next_probe,
{
    reveal(SessionView::progress);
    lemma_consent_leads(x, id);
    let y = SessionView {
        next_progress: session_model::later(x.tick, PROGRESS_INTERVAL),
        ..x
    };
    lemma_consent_leads(y, id);
    if x.tick >= x.next_progress {
        let step = x.progress(id);
        let told = step.events[0];
        lemma_quiet(seq![told], y.consent(id).events);
        lemma_once(seq![told], y.consent(id).events);
        assert(!(seq![told][0] is Failed) && !(seq![told][0] is Disconnected));
        assert(step.events =~= seq![told] + y.consent(id).events);
    }
}

proof fn lemma_probe_leads(x: SessionView, index: int, id: Seq<u8>)
    requires
        session_laws::settled(x),
        x.state == State::Checking,
        !overdue(x, x.tick),
        index >= 0,
    ensures
        leads(x, x.tick, x.probe(index, id).session, x.probe(index, id).events),
        x.probe(index, id).session.stats == x.stats,
        match x.probe(index, id).session.awaiting {
            AwaitingView::ProbeSent { index: i, .. } => i == index && x.probe(
                index,
                id,
            ).session.pending == x.pending && x.probe(index, id).session.next_probe
                == x.next_probe && index < x.peer->0.candidates.len(),
            AwaitingView::Datagram => (index >= x.peer->0.candidates.len() || x.pending.len()
                >= MAX_PENDING) && x.probe(index, id).session.next_probe == session_model::later(
                x.tick,
                PROBE_INTERVAL,
            ),
            _ => false,
        },
{
    reveal(SessionView::probe);
    let y = SessionView { next_probe: session_model::later(x.tick, PROBE_INTERVAL), ..x };
    lemma_progress_leads(y, id);
}

/// How a pass ends in which no candidate was probed.
spec fn ends_unprobed(x: SessionView, t: SessionView) -> bool {
    if probes_due(x, x.tick) {
        x.pending.len() >= MAX_PENDING && t.next_probe == session_model::later(
            x.tick,
            PROBE_INTERVAL,
        )
    } else {
        x.state == State::Checking ==> t.next_probe == x.next_probe
    }
}

proof fn lemma_check_leads(x: SessionView, id: Seq<u8>)
    requires
        session_laws::settled(x),
    ensures
        leads(x, x.tick, x.check(id).session, x.check(id).events),
        x.check(id).session.stats == x.stats,
        match x.check(id).session.awaiting {
            AwaitingView::ProbeSent { index, .. } => index == 0 && probes_due(x, x.tick)
                && x.check(id).session.pending == x.pending && x.check(id).session.next_probe
                == x.next_probe,
            AwaitingView::Datagram => !consent_due(x, x.tick) && ends_unprobed(
                x,
                x.check(id).session,
            ),
            AwaitingView::ConsentSent { .. } => true,
            _ => false,
        },
{
    reveal(SessionView::check);
    if x.state != State::Checking {
        lemma_consent_leads(x, id);
    } else if x.checks_are_over() {
        let y = SessionView { state: State::Failed, ..x };
        lemma_progress_leads(y, id);
        let told = EventView::Failed { stats: x.stats };
        let rest = y.progress(id).events;
        lemma_quiet(seq![told], rest);
        lemma_once(seq![told], rest);
        assert(seq![told][0] is Failed);
        assert(x.check(id).events =~= seq![told] + rest);
    } else if x.tick >= x.next_probe {
        lemma_probe_leads(x, 0, id);
    } else {
        lemma_progress_leads(x, id);
    }
}

proof fn lemma_retransmit_leads(x: SessionView, id: Seq<u8>)
    requires
        session_laws::settled(x),
    ensures
        leads(x, x.tick, x.retransmit(id).session, x.retransmit(id).events),
        x.retransmit(id).session.stats == x.stats,
        match x.retransmit(id).session.awaiting {
            AwaitingView::ProbeSent { index, .. } => index == 0 && probes_due(x, x.tick)
                && x.retransmit(id).session.pending == x.pending && x.retransmit(id).session.next_probe
                == x.next_probe,
            AwaitingView::Datagram => !consent_due(x, x.tick) && ends_unprobed(
                x,
                x.retransmit(id).session,
            ),
            AwaitingView::ConsentSent { .. } => true,
            AwaitingView::RetransmitSent => true,
            _ => false,
        },
{
    reveal(SessionView::retransmit);
    lemma_check_leads(x, id);
    let y = SessionView { pending_stun: None, ..x };
    lemma_check_leads(y, id);
}

// ---------------------------------------------------------------------------
// The whole pass
// ---------------------------------------------------------------------------

/// All that was due has been sent, and nothing else but STUN requests.
spec fn all_sent(s: SessionView, now: u64, outcomes: Seq<Outcome>, r: RunView) -> bool {
    let targets = sent_probes(r.requests);
    if consent_due(s, now) {
        targets == seq![s.selected->0.source]
    } else if probes_due(s, now) {
        &&& targets.len() <= addresses(s).len()
        &&& targets == addresses(s).take(targets.len() as int)
        &&& targets.len() < addresses(s).len() ==> s.pending.len() + targets.len() >= MAX_PENDING
        &&& r.session.next_probe == session_model::later(now, PROBE_INTERVAL)
        &&& all_go_out(outcomes) ==> r.session.stats.probes_sent == counted_by(
            s.stats.probes_sent,
            targets.len(),
        )
    } else {
        &&& targets == Seq::<SocketAddress>::empty()
        &&& s.state == State::Checking ==> r.session.next_probe == s.next_probe
    }
}

/// How far a pass has come, and what it has sent.
spec fn in_pass(s: SessionView, now: u64, outcomes: Seq<Outcome>, r: RunView) -> bool {
    &&& leads(s, now, r.session, r.events)
    &&& r.requests.len() == outcomes.len()
    &&& sends_probes(s, outcomes, r.requests)
    &&& match r.session.awaiting {
        AwaitingView::KeepaliveSent { .. } => sent_probes(r.requests) == Seq::<
            SocketAddress,
        >::empty(),
        AwaitingView::RetransmitSent => sent_probes(r.requests) == Seq::<SocketAddress>::empty(),
        AwaitingView::ProbeSent { index, .. } => {
            &&& probes_due(s, now)
            &&& 0 <= index < addresses(s).len()
            &&& r.session.pending.len() <= s.pending.len() + index
            &&& r.session.next_probe == s.next_probe
            &&& sent_probes(r.requests) == addresses(s).take(index + 1)
            &&& all_go_out(outcomes) ==> r.session.stats.probes_sent == counted_by(
                s.stats.probes_sent,
                index as nat,
            )
        },
        AwaitingView::ConsentSent { .. } => sent_probes(r.requests) == seq![
            s.selected->0.source,
        ],
        AwaitingView::Datagram => all_sent(s, now, outcomes, r),
        _ => false,
    }
}

/// A pass that goes on from a session in which the checks look as at the start.
proof fn lemma_leads_from_same(
    s: SessionView,
    x: SessionView,
    now: u64,
    t: SessionView,
    before: Seq<EventView>,
    events: Seq<EventView>,
)
    requires
        same_checks(s, x),
        x.local == s.local,
        x.peer == s.peer,
        leads(x, now, t, events),
        quiet(before),
    ensures
        leads(s, now, t, before + events),
{
    lemma_quiet(before, events);
    if t.awaiting is Datagram {
        lemma_once(before, events);
    }
    assert(overdue(x, now) == overdue(s, now));
    assert forall|i: int| #![trigger (before + events)[i]] 0 <= i < (before
        + events).len() implies {
        &&& (before + events)[i] is Failed ==> (i >= before.len() && (before + events)[i]
            == events[i - before.len()])
        &&& (before + events)[i] is Disconnected ==> (i >= before.len() && (before + events)[i]
            == events[i - before.len()])
    } by {
        if i < before.len() {
            assert((before + events)[i] == before[i]);
        }
    }
}

/// A pass that goes on with further probes.
proof fn lemma_leads_from_probe(
    s: SessionView,
    x: SessionView,
    now: u64,
    t: SessionView,
    before: Seq<EventView>,
    events: Seq<EventView>,
)
    requires
        s.state == State::Checking,
        !overdue(s, now),
        x.state == State::Checking,
        x.checking_started == s.checking_started,
        x.local == s.local,
        x.peer == s.peer,
        leads(x, now, t, events),
        quiet(before),
        t.awaiting is ProbeSent || t.awaiting is Datagram,
    ensures
        leads(s, now, t, before + events),
{
    lemma_quiet(before, events);
    assert(!overdue(x, now));
    assert(quiet(before + events));
    if t.awaiting is Datagram {
        lemma_once(before, events);
    }
}

/// A probe is no STUN request.
proof fn lemma_probe_is_no_stun(s: SessionView, o: Outcome, target: SocketAddress)
    ensures
        !at_most_stun(probe_request(s, o, target)),
{
    let datagram = session_model::check_packet(s.local, s.peer->0, o.transaction_id);
    assert(datagram[0] == 0x48);
    assert forall|x: Seq<u8>| datagram != #[trigger] stun::binding_request(x) by {
        bytes::lemma_be16_bytes(0x0001);
        assert(stun::binding_request(x)[0] == bytes::be16_bytes(0x0001)[0]);
        assert(stun::binding_request(x)[0] == 0);
    }
}

/// One more request.
proof fn lemma_one_more(
    s: SessionView,
    outcomes: Seq<Outcome>,
    requests: Seq<RequestView>,
    request: RequestView,
)
    requires
        outcomes.len() > 0,
        requests.len() == outcomes.len() - 1,
        sends_probes(s, outcomes.drop_last(), requests),
        at_most_stun(request) || request == probe_request(s, outcomes.last(), request->target),
    ensures
        sends_probes(s, outcomes, requests.push(request)),
        at_most_stun(request) ==> sent_probes(requests.push(request)) == sent_probes(requests),
        !at_most_stun(request) ==> sent_probes(requests.push(request)) == sent_probes(
            requests,
        ).push(request->target),
{
    let all = requests.push(request);
    assert(all.drop_last() =~= requests);
    assert forall|i: int| 0 <= i < all.len() && !at_most_stun(#[trigger] all[i]) implies all[i]
        == probe_request(s, outcomes[i], all[i]->target) by {
        if i < requests.len() {
            assert(all[i] == requests[i]);
            assert(outcomes.drop_last()[i] == outcomes[i]);
        }
    }
}

/// The requests that a step of a pass can make.
proof fn lemma_pass_request(m: SessionView, o: Outcome)
    requires
        m.consistent(),
        m.awaits(o.input),
        o.now <= LAST_INSTANT,
        o.input is NoCommand || o.input is Sent || o.input is SendFailed,
    ensures
        ({
            let step = m.step(o.input, o.now, o.transaction_id);
            let t = step.session;
            match t.awaiting {
                AwaitingView::KeepaliveSent { .. } => at_most_stun(step.request),
                AwaitingView::RetransmitSent => at_most_stun(step.request),
                AwaitingView::Datagram => at_most_stun(step.request),
                AwaitingView::ProbeSent { index, .. } => step.request == probe_request(
                    t,
                    o,
                    t.peer->0.candidates[index].address,
                ),
                AwaitingView::ConsentSent { .. } => step.request == probe_request(
                    t,
                    o,
                    t.selected->0.source,
                ),
                _ => true,
            }
        }),
        m.step(o.input, o.now, o.transaction_id).request is Receive ==> m.step(
            o.input,
            o.now,
            o.transaction_id,
        ).session.awaiting is Datagram,
{
    session_laws::lemma_round(m, o.input, o.now, o.transaction_id);
}

/// The pass goes on from where only STUN requests were made.
proof fn lemma_pass_from_stun(
    s: SessionView,
    x: SessionView,
    now: u64,
    outcomes: Seq<Outcome>,
    before: RunView,
    step: StepView,
)
    requires
        same_checks(s, x),
        x.local == s.local,
        x.peer == s.peer,
        x.tick == now,
        s.peer is None <==> s.state == State::Waiting,
        s.state == State::Checking ==> s.peer->0.candidates.len() > 0,
        quiet(before.events),
        sends_probes(s, outcomes.drop_last(), before.requests),
        sent_probes(before.requests) == Seq::<SocketAddress>::empty(),
        outcomes.len() > 0,
        before.requests.len() == outcomes.len() - 1,
        leads(x, now, step.session, step.events),
        step.session.stats == x.stats,
        match step.session.awaiting {
            AwaitingView::ProbeSent { index, .. } => index == 0 && probes_due(x, now)
                && step.session.pending == x.pending && step.session.next_probe == x.next_probe
                && step.request == probe_request(
                step.session,
                outcomes.last(),
                step.session.peer->0.candidates[0].address,
            ),
            AwaitingView::ConsentSent { .. } => step.request == probe_request(
                step.session,
                outcomes.last(),
                step.session.selected->0.source,
            ),
            AwaitingView::Datagram => !consent_due(x, now) && ends_unprobed(x, step.session)
                && at_most_stun(step.request),
            _ => at_most_stun(step.request),
        },
    ensures
        in_pass(
            s,
            now,
            outcomes,
            RunView {
                session: step.session,
                events: before.events + step.events,
                requests: before.requests.push(step.request),
            },
        ),
{
    lemma_leads_from_same(s, x, now, step.session, before.events, step.events);
    assert(overdue(x, now) == overdue(s, now));
    let t = step.session;
    lemma_one_more(s, outcomes, before.requests, step.request);
    match t.awaiting {
        AwaitingView::ProbeSent { .. } => {
            let target = s.peer->0.candidates[0].address;
            lemma_probe_is_no_stun(s, outcomes.last(), target);
            assert(addresses(s).take(1) =~= Seq::<SocketAddress>::empty().push(target));
        },
        AwaitingView::ConsentSent { .. } => {
            let target = s.selected->0.source;
            lemma_probe_is_no_stun(s, outcomes.last(), target);
            assert(seq![target] =~= Seq::<SocketAddress>::empty().push(target));
        },
        _ => {
            assert(addresses(s).take(0) =~= Seq::<SocketAddress>::empty());
        },
    }
}

/// The pass goes on after a probe.
proof fn lemma_pass_from_probe(
    s: SessionView,
    x: SessionView,
    index: int,
    now: u64,
    outcomes: Seq<Outcome>,
    before: RunView,
    step: StepView,
)
    requires
        probes_due(s, now),
        x.state == State::Checking,
        x.checking_started == s.checking_started,
        x.local == s.local,
        x.peer == s.peer,
        x.tick == now,
        x.next_probe == s.next_probe,
        x.pending.len() <= s.pending.len() + index,
        0 < index <= addresses(s).len(),
        quiet(before.events),
        outcomes.len() > 0,
        before.requests.len() == outcomes.len() - 1,
        sends_probes(s, outcomes.drop_last(), before.requests),
        sent_probes(before.requests) == addresses(s).take(index),
        all_go_out(outcomes) ==> x.stats.probes_sent == counted_by(
            s.stats.probes_sent,
            index as nat,
        ),
        leads(x, now, step.session, step.events),
        step.session.stats == x.stats,
        match step.session.awaiting {
            AwaitingView::ProbeSent { index: i, .. } => i == index && index
                < x.peer->0.candidates.len() && step.session.pending == x.pending
                && step.session.next_probe == x.next_probe && step.request == probe_request(
                step.session,
                outcomes.last(),
                step.session.peer->0.candidates[index].address,
            ),
            AwaitingView::Datagram => (index >= x.peer->0.candidates.len() || x.pending.len()
                >= MAX_PENDING) && step.session.next_probe == session_model::later(
                now,
                PROBE_INTERVAL,
            ) && at_most_stun(step.request),
            _ => false,
        },
    ensures
        in_pass(
            s,
            now,
            outcomes,
            RunView {
                session: step.session,
                events: before.events + step.events,
                requests: before.requests.push(step.request),
            },
        ),
{
    lemma_leads_from_probe(s, x, now, step.session, before.events, step.events);
    lemma_one_more(s, outcomes, before.requests, step.request);
    if step.session.awaiting is ProbeSent {
        let target = s.peer->0.candidates[index].address;
        lemma_probe_is_no_stun(s, outcomes.last(), target);
        assert(addresses(s).take(index + 1) =~= addresses(s).take(index).push(target));
    }
}

/// Where everything has gone out, everything had gone out before.
proof fn lemma_go_out(outcomes: Seq<Outcome>)
    requires
        outcomes.len() > 1,
    ensures
        all_go_out(outcomes) ==> all_go_out(outcomes.drop_last()) && outcomes.last().input is Sent,
{
    let front = outcomes.drop_last();
    if all_go_out(outcomes) {
        assert forall|i: int| 0 < i < front.len() implies (#[trigger] front[i]).input is Sent by {
            assert(front[i] == outcomes[i]);
        }
        assert(outcomes[outcomes.len() - 1].input is Sent);
    }
}

/// A peer has candidates.
proof fn lemma_candidates(s: SessionView)
    requires
        s.consistent(),
    ensures
        s.peer is Some ==> s.peer->0.candidates.len() > 0,
{
}

/// One more outcome of a pass.
proof fn lemma_pass_step(s: SessionView, now: u64, outcomes: Seq<Outcome>)
    requires
        s.consistent(),
        runs::can_run(s, outcomes),
        outcomes.len() > 1,
        outcomes.last().input is Sent || outcomes.last().input is SendFailed,
        in_pass(s, now, outcomes.drop_last(), runs::run(s, outcomes.drop_last())),
    ensures
        in_pass(s, now, outcomes, runs::run(s, outcomes)),
{
    let before = runs::run(s, outcomes.drop_last());
    let m = before.session;
    let o = outcomes.last();
    let id = o.transaction_id;
    let step = m.step(o.input, o.now, id);
    runs::law_run_stays_consistent(s, outcomes.drop_last());
    lemma_pass_request(m, o);
    lemma_go_out(outcomes);
    lemma_candidates(s);
    let is_sent = o.input is Sent;
    match m.awaiting {
        AwaitingView::KeepaliveSent { transaction_id, server } => {
            let x = if is_sent {
                m.keepalive_sent(server, transaction_id).keepalive_done()
            } else {
                m.keepalive_done()
            };
            lemma_retransmit_leads(x, id);
            reveal(SessionView::sent);
            reveal(SessionView::send_failed);
            if is_sent {
                lemma_pass_from_stun(s, x, now, outcomes, before, step);
            } else {
                let rest = x.retransmit(id);
                let told = step.events[0];
                assert(step.events =~= seq![told] + rest.events);
                assert(!(seq![told][0] is Failed) && !(seq![told][0] is Disconnected));
                assert(quiet(seq![told]));
                lemma_quiet(before.events, seq![told]);
                let then = RunView { events: before.events + seq![told], ..before };
                lemma_pass_from_stun(s, x, now, outcomes, then, rest);
                assert(then.events + rest.events =~= before.events + step.events);
            }
        },
        AwaitingView::RetransmitSent => {
            let x = if is_sent {
                m.retransmit_sent()
            } else {
                m
            };
            lemma_check_leads(x, id);
            reveal(SessionView::sent);
            reveal(SessionView::send_failed);
            lemma_pass_from_stun(s, x, now, outcomes, before, step);
        },
        AwaitingView::ProbeSent { index, transaction_id, target } => {
            let x = if is_sent {
                m.add_probe(transaction_id, target, ProbePurpose::Connectivity, o.now)
            } else {
                m
            };
            lemma_probe_leads(x, index + 1, id);
            reveal(SessionView::sent);
            reveal(SessionView::send_failed);
            lemma_pass_from_probe(s, x, index + 1, now, outcomes, before, step);
        },
        AwaitingView::ConsentSent { transaction_id, target } => {
            let x = if is_sent {
                m.add_probe(transaction_id, target, ProbePurpose::Consent, o.now).consent_sent(
                    transaction_id,
                )
            } else {
                m
            };
            reveal(SessionView::sent);
            reveal(SessionView::send_failed);
            lemma_end_round_leads(x);
            lemma_quiet(before.events, step.events);
            lemma_once(before.events, step.events);
            lemma_one_more(s, outcomes, before.requests, step.request);
        },
        _ => {},
    }
}

/// The first outcome of a pass.
proof fn lemma_pass_start(s: SessionView, o: Outcome)
    requires
        s.consistent(),
        s.awaits(o.input),
        o.input is NoCommand,
        o.now <= LAST_INSTANT,
    ensures
        in_pass(s, o.now, seq![o], runs::run(s, seq![o])),
{
    let step = s.step(o.input, o.now, o.transaction_id);
    let x = SessionView { tick: o.now, ..s };
    let before = RunView { session: s, events: Seq::empty(), requests: Seq::empty() };
    assert(seq![o].drop_last() =~= Seq::<Outcome>::empty());
    assert(runs::run(s, seq![o].drop_last()) == before);
    lemma_pass_request(s, o);
    lemma_candidates(s);
    lemma_retransmit_leads(x, o.transaction_id);
    reveal(SessionView::begin_round);
    lemma_pass_from_stun(s, x, o.now, seq![o], before, step);
}

/// How far the outcomes have brought the pass.
proof fn lemma_in_pass(s: SessionView, outcomes: Seq<Outcome>)
    requires
        s.consistent(),
        begins_pass(s, outcomes),
    ensures
        in_pass(s, outcomes[0].now, outcomes, runs::run(s, outcomes)),
    decreases outcomes.len(),
{
    let front = outcomes.drop_last();
    if outcomes.len() == 1 {
        assert(outcomes =~= seq![outcomes[0]]);
        assert(front =~= Seq::<Outcome>::empty());
        lemma_pass_start(s, outcomes[0]);
    } else {
        assert forall|i: int| 0 < i < front.len() implies (#[trigger] front[i]).input is Sent
            || front[i].input is SendFailed by {
            assert(front[i] == outcomes[i]);
        }
        lemma_in_pass(s, front);
        lemma_pass_step(s, outcomes[0].now, outcomes);
    }
}

proof fn lemma_pass_ends(s: SessionView, outcomes: Seq<Outcome>)
    requires
        s.consistent(),
        is_pass(s, outcomes),
    ensures
        runs::run(s, outcomes).session.awaiting is Datagram,
        runs::run(s, outcomes).session.tick == outcomes[0].now,
        ended(
            s,
            outcomes[0].now,
            runs::run(s, outcomes).session,
            runs::run(s, outcomes).events,
        ),
        all_sent(s, outcomes[0].now, outcomes, runs::run(s, outcomes)),
        sends_probes(s, outcomes, runs::run(s, outcomes).requests),
{
    lemma_in_pass(s, outcomes);
    let o = outcomes.last();
    let m = runs::run(s, outcomes.drop_last()).session;
    runs::law_run_stays_consistent(s, outcomes.drop_last());
    lemma_pass_request(m, o);
    assert(runs::run(s, outcomes).requests.last() == m.step(
        o.input,
        o.now,
        o.transaction_id,
    ).request);
}

/// The checks fail in a pass exactly when they have used up their time at its
/// start. The user is told once, with the counters of that moment, no candidate
/// is probed any more, and no pass leaves checks under way that have used up
/// their time.
pub proof fn law_checks_end_in_time(s: SessionView, outcomes: Seq<Outcome>)
    requires
        s.consistent(),
        is_pass(s, outcomes),
    ensures
        ({
            let now = outcomes[0].now;
            let r = runs::run(s, outcomes);
            &&& tells_failed(r.events) <==> overdue(s, now)
            &&& r.session.state == State::Failed <==> s.state == State::Failed || overdue(s, now)
            &&& forall|i: int|
                0 <= i < r.events.len() && (#[trigger] r.events[i]) is Failed ==> r.events[i] == (
                EventView::Failed { stats: s.stats })
            &&& tells_once(r.events)
            &&& overdue(s, now) ==> sent_probes(r.requests) == Seq::<SocketAddress>::empty()
            &&& !overdue(r.session, now)
        }),
{
    lemma_pass_ends(s, outcomes);
}

/// A pass leaves the selected path exactly when it has been silent for too long
/// at its start. The user is told once, with the counters of that moment, and the
/// checks start again from nothing; otherwise the path stays as it is.
pub proof fn law_silent_path_is_left(s: SessionView, outcomes: Seq<Outcome>)
    requires
        s.consistent(),
        is_pass(s, outcomes),
    ensures
        ({
            let now = outcomes[0].now;
            let r = runs::run(s, outcomes);
            let t = r.session;
            &&& tells_disconnected(r.events) <==> silent(s, now)
            &&& forall|i: int|
                0 <= i < r.events.len() && (#[trigger] r.events[i]) is Disconnected ==> r.events[i]
                    == (EventView::Disconnected {
                    reason: "consent checks не получили ответа 15 секунд"@,
                    stats: s.stats,
                })
            &&& tells_once(r.events)
            &&& silent(s, now) ==> {
                &&& t.state == State::Checking
                &&& t.checking_started == Some(now)
                &&& t.selected is None
                &&& t.pending == Map::<Seq<u8>, PendingProbe>::empty()
                &&& t.next_probe == now
            }
            &&& s.state == State::Connected && !silent(s, now) ==> {
                &&& t.state == State::Connected
                &&& t.selected is Some
                &&& t.selected->0.source == s.selected->0.source
                &&& t.selected->0.kind == s.selected->0.kind
                &&& t.selected->0.last_success == s.selected->0.last_success
            }
            &&& !silent(t, now)
        }),
{
    lemma_pass_ends(s, outcomes);
}

/// A pass asks a quiet path for a sign of life when that is due, once and with
/// the identifier of that step, and sends nothing but STUN requests otherwise.
pub proof fn law_quiet_path_is_probed(s: SessionView, outcomes: Seq<Outcome>)
    requires
        s.consistent(),
        is_pass(s, outcomes),
        s.state == State::Connected,
    ensures
        ({
            let r = runs::run(s, outcomes);
            &&& sends_probes(s, outcomes, r.requests)
            &&& sent_probes(r.requests) == if consent_due(s, outcomes[0].now) {
                seq![s.selected->0.source]
            } else {
                Seq::empty()
            }
        }),
{
    lemma_pass_ends(s, outcomes);
}

/// A pass over checks that are under way sends exactly one probe to each
/// candidate when that is due, in order, each with the identifier of its own
/// step, and nothing but STUN requests besides. It stops early only where too many
/// probes would wait. The next probes are due half a second after the pass began,
/// and where everything goes out the probes are counted. When no probes are due,
/// none are sent and the time for them stays.
pub proof fn law_candidates_are_probed(s: SessionView, outcomes: Seq<Outcome>)
    requires
        s.consistent(),
        is_pass(s, outcomes),
        s.state == State::Checking,
    ensures
        ({
            let now = outcomes[0].now;
            let r = runs::run(s, outcomes);
            let targets = sent_probes(r.requests);
            &&& sends_probes(s, outcomes, r.requests)
            &&& probes_due(s, now) ==> {
                &&& targets.len() <= addresses(s).len()
                &&& targets == addresses(s).take(targets.len() as int)
                &&& s.pending.len() + addresses(s).len() <= MAX_PENDING ==> targets == addresses(s)
                &&& targets.len() < addresses(s).len() ==> s.pending.len() + targets.len()
                    >= MAX_PENDING
                &&& r.session.next_probe == session_model::later(now, PROBE_INTERVAL)
                &&& all_go_out(outcomes) ==> r.session.stats.probes_sent == counted_by(
                    s.stats.probes_sent,
                    targets.len(),
                )
            }
            &&& !probes_due(s, now) ==> {
                &&& targets == Seq::<SocketAddress>::empty()
                &&& r.session.next_probe == s.next_probe
            }
        }),
{
    lemma_pass_ends(s, outcomes);
    assert(addresses(s).take(addresses(s).len() as int) =~= addresses(s));
}

/// A pass of a session that neither checks nor is connected sends nothing but
/// STUN requests.
pub proof fn law_idle_pass_probes_nobody(s: SessionView, outcomes: Seq<Outcome>)
    requires
        s.consistent(),
        is_pass(s, outcomes),
        s.state == State::Waiting || s.state == State::Failed,
    ensures
        sent_probes(runs::run(s, outcomes).requests) == Seq::<SocketAddress>::empty(),
{
    lemma_pass_ends(s, outcomes);
}

/// A single step tells of a failure or of a lost path only where the time for it
/// has come, whatever the outcome that leads to it.
pub proof fn law_nothing_ends_early(s: SessionView, o: Outcome)
    requires
        s.consistent(),
        s.awaits(o.input),
        o.now <= LAST_INSTANT,
    ensures
        ({
            let step = s.step(o.input, o.now, o.transaction_id);
            let t = step.session;
            &&& tells_failed(step.events) || (t.state == State::Failed && s.state != State::Failed)
                ==> overdue(s, t.tick)
            &&& tells_disconnected(step.events) ==> silent(s, t.tick)
        }),
{
    let step = s.step(o.input, o.now, o.transaction_id);
    let id = o.transaction_id;
    match o.input {
        InputView::NoCommand => {
            reveal(SessionView::begin_round);
            lemma_retransmit_leads(SessionView { tick: o.now, ..s }, id);
        },
        InputView::Sent => {
            reveal(SessionView::sent);
            match s.awaiting {
                AwaitingView::KeepaliveSent { transaction_id, server } => {
                    lemma_retransmit_leads(
                        s.keepalive_sent(server, transaction_id).keepalive_done(),
                        id,
                    );
                },
                AwaitingView::RetransmitSent => {
                    lemma_check_leads(s.retransmit_sent(), id);
                },
                AwaitingView::ProbeSent { index, transaction_id, target } => {
                    lemma_probe_leads(
                        s.add_probe(transaction_id, target, ProbePurpose::Connectivity, o.now),
                        index + 1,
                        id,
                    );
                },
                _ => {},
            }
        },
        InputView::SendFailed(_) => {
            reveal(SessionView::send_failed);
            match s.awaiting {
                AwaitingView::KeepaliveSent { .. } => {
                    let rest = s.keepalive_done().retransmit(id);
                    lemma_retransmit_leads(s.keepalive_done(), id);
                    lemma_quiet(seq![step.events[0]], rest.events);
                    assert(step.events =~= seq![step.events[0]] + rest.events);
                    assert(quiet(seq![step.events[0]]));
                },
                AwaitingView::RetransmitSent => {
                    lemma_check_leads(s, id);
                },
                AwaitingView::ProbeSent { index, .. } => {
                    lemma_probe_leads(s, index + 1, id);
                },
                _ => {},
            }
        },
        _ => {
            reveal(SessionView::command);
            reveal(SessionView::receive);
            reveal(SessionView::receive_stun);
            reveal(SessionView::receive_control);
            reveal(SessionView::receive_check_ok);
        },
    }
}

// ---------------------------------------------------------------------------
// The time between rounds of probes
// ---------------------------------------------------------------------------

/// The checks are not started afresh by this outcome.
pub open spec fn starts_nothing_afresh(input: InputView) -> bool {
    match input {
        InputView::Command(CommandView::SetPeer(_)) => false,
        InputView::Command(CommandView::Retry) => false,
        InputView::Configured => false,
        _ => true,
    }
}

/// Outcomes none of which starts the checks afresh.
pub open spec fn start_nothing_afresh(outcomes: Seq<Outcome>) -> bool {
    forall|i: int| 0 <= i < outcomes.len() ==> starts_nothing_afresh((#[trigger] outcomes[i]).input)
}

/// No candidate is probed before the given time.
spec fn holds_back(s: SessionView, until: int) -> bool {
    &&& s.next_probe >= until
    &&& s.awaiting is ProbeSent ==> s.tick >= until
}

proof fn lemma_holds_back(s: SessionView, o: Outcome, until: int)
    requires
        s.consistent(),
        s.awaits(o.input),
        o.now <= LAST_INSTANT,
        starts_nothing_afresh(o.input),
        holds_back(s, until),
        !tells_disconnected(s.step(o.input, o.now, o.transaction_id).events),
    ensures
        holds_back(s.step(o.input, o.now, o.transaction_id).session, until),
{
    let id = o.transaction_id;
    let step = s.step(o.input, o.now, id);
    match o.input {
        InputView::NoCommand => {
            let x = SessionView { tick: o.now, ..s };
            reveal(SessionView::begin_round);
            lemma_retransmit_leads(x, id);
            lemma_retransmit_next(x, id);
        },
        InputView::Sent => {
            reveal(SessionView::sent);
            match s.awaiting {
                AwaitingView::KeepaliveSent { transaction_id, server } => {
                    lemma_retransmit_next(
                        s.keepalive_sent(server, transaction_id).keepalive_done(),
                        id,
                    );
                },
                AwaitingView::RetransmitSent => {
                    lemma_check_next(s.retransmit_sent(), id);
                },
                AwaitingView::ProbeSent { index, transaction_id, target } => {
                    lemma_probe_leads(
                        s.add_probe(transaction_id, target, ProbePurpose::Connectivity, o.now),
                        index + 1,
                        id,
                    );
                },
                _ => {},
            }
        },
        InputView::SendFailed(_) => {
            reveal(SessionView::send_failed);
            match s.awaiting {
                AwaitingView::KeepaliveSent { .. } => {
                    let x = s.keepalive_done();
                    let rest = x.retransmit(id);
                    lemma_retransmit_next(x, id);
                    assert(step.events =~= seq![step.events[0]] + rest.events);
                    lemma_quiet(seq![step.events[0]], rest.events);
                },
                AwaitingView::RetransmitSent => {
                    lemma_check_next(s, id);
                },
                AwaitingView::ProbeSent { index, .. } => {
                    lemma_probe_leads(s, index + 1, id);
                },
                _ => {},
            }
        },
        _ => {
            reveal(SessionView::command);
            reveal(SessionView::receive);
            reveal(SessionView::receive_stun);
            reveal(SessionView::receive_control);
            reveal(SessionView::receive_check_ok);
        },
    }
}

/// When the next probes are due after a round that does not lose the path.
spec fn next_is_right(x: SessionView, step: StepView) -> bool {
    let t = step.session;
    &&& t.awaiting is ProbeSent ==> x.tick >= x.next_probe && t.tick == x.tick
    &&& t.next_probe == x.next_probe || (x.tick >= x.next_probe && t.next_probe
        == session_model::later(x.tick, PROBE_INTERVAL)) || tells_disconnected(step.events)
}

proof fn lemma_check_next(x: SessionView, id: Seq<u8>)
    requires
        session_laws::settled(x),
    ensures
        next_is_right(x, x.check(id)),
{
    reveal(SessionView::check);
    lemma_check_leads(x, id);
    if x.state != State::Checking {
        lemma_consent_leads(x, id);
    } else if x.checks_are_over() {
        let y = SessionView { state: State::Failed, ..x };
        lemma_progress_leads(y, id);
    } else if x.tick >= x.next_probe {
        lemma_probe_leads(x, 0, id);
    } else {
        lemma_progress_leads(x, id);
    }
}

proof fn lemma_retransmit_next(x: SessionView, id: Seq<u8>)
    requires
        session_laws::settled(x),
    ensures
        next_is_right(x, x.retransmit(id)),
{
    reveal(SessionView::retransmit);
    lemma_check_next(x, id);
    lemma_check_next(SessionView { pending_stun: None, ..x }, id);
}

/// Rounds of probes keep their distance: after a pass that probed the candidates,
/// none is probed for half a second, whatever happens, unless the checks are
/// started afresh or a lost path starts them again.
pub proof fn law_rounds_keep_their_distance(
    s: SessionView,
    pass: Seq<Outcome>,
    rest: Seq<Outcome>,
)
    requires
        s.consistent(),
        is_pass(s, pass),
        probes_due(s, pass[0].now),
        runs::can_run(runs::run(s, pass).session, rest),
        start_nothing_afresh(rest),
        !tells_disconnected(runs::run(runs::run(s, pass).session, rest).events),
    ensures
        ({
            let t = runs::run(runs::run(s, pass).session, rest).session;
            t.awaiting is ProbeSent ==> t.tick >= pass[0].now + PROBE_INTERVAL
        }),
{
    law_candidates_are_probed(s, pass);
    lemma_pass_ends(s, pass);
    runs::law_run_stays_consistent(s, pass);
    lemma_first_time(s, pass);
    lemma_holds_back_over(
        runs::run(s, pass).session,
        rest,
        pass[0].now + PROBE_INTERVAL,
    );
}

/// The time at which a run begins is one that can be counted on.
proof fn lemma_first_time(s: SessionView, outcomes: Seq<Outcome>)
    requires
        runs::can_run(s, outcomes),
        outcomes.len() > 0,
    ensures
        outcomes[0].now <= LAST_INSTANT,
    decreases outcomes.len(),
{
    if outcomes.len() > 1 {
        lemma_first_time(s, outcomes.drop_last());
    }
}

proof fn lemma_holds_back_over(s: SessionView, outcomes: Seq<Outcome>, until: int)
    requires
        s.consistent(),
        runs::can_run(s, outcomes),
        start_nothing_afresh(outcomes),
        holds_back(s, until),
        !tells_disconnected(runs::run(s, outcomes).events),
    ensures
        holds_back(runs::run(s, outcomes).session, until),
    decreases outcomes.len(),
{
    if outcomes.len() > 0 {
        let front = outcomes.drop_last();
        let o = outcomes.last();
        let before = runs::run(s, front);
        let step = before.session.step(o.input, o.now, o.transaction_id);
        assert forall|i: int| 0 <= i < front.len() implies starts_nothing_afresh(
            (#[trigger] front[i]).input,
        ) by {
            assert(front[i] == outcomes[i]);
        }
        assert(outcomes[outcomes.len() - 1] == o);
        lemma_quiet(before.events, step.events);
        lemma_holds_back_over(s, front, until);
        runs::law_run_stays_consistent(s, front);
        lemma_holds_back(before.session, o, until);
    }
}

} // verus!
