//! What keeps the selected path alive: no lost consent check costs the path.

use crate::meeting_laws;
use crate::pass_laws;
use crate::pending::ProbePurpose;
use crate::protocol_laws;
use crate::runs;
use crate::runs::Outcome;
use crate::session::{State, LAST_INSTANT};
use crate::session_laws;
use crate::session_model;
use crate::session_model::{AwaitingView, InputView, SessionView, StepView};
use vstd::prelude::*;

verus! {

// ---------------------------------------------------------------------------
// The end of a pass
// ---------------------------------------------------------------------------

/// A consent check is remembered only while its probe waits.
pub open spec fn remembers_what_waits(s: SessionView) -> bool {
    s.selected is Some && s.selected->0.consent_pending is Some ==> s.pending.contains_key(
        s.selected->0.consent_pending->0,
    )
}

spec fn forgets(step: StepView) -> bool {
    step.session.awaiting is Datagram ==> remembers_what_waits(step.session)
}

proof fn lemma_consent_forgets(x: SessionView, id: Seq<u8>)
    ensures
        forgets(x.consent(id)),
{
    reveal(SessionView::consent);
}

proof fn lemma_progress_forgets(x: SessionView, id: Seq<u8>)
    ensures
        forgets(x.progress(id)),
{
    reveal(SessionView::progress);
    lemma_consent_forgets(x, id);
    lemma_consent_forgets(
        SessionView {
            next_progress: session_model::later(x.tick, crate::session::PROGRESS_INTERVAL),
            ..x
        },
        id,
    );
}

proof fn lemma_probe_forgets(x: SessionView, index: int, id: Seq<u8>)
    ensures
        forgets(x.probe(index, id)),
{
    reveal(SessionView::probe);
    lemma_progress_forgets(
        SessionView {
            next_probe: session_model::later(x.tick, crate::session::PROBE_INTERVAL),
            ..x
        },
        id,
    );
}

proof fn lemma_check_forgets(x: SessionView, id: Seq<u8>)
    ensures
        forgets(x.check(id)),
{
    reveal(SessionView::check);
    lemma_consent_forgets(x, id);
    lemma_progress_forgets(SessionView { state: State::Failed, ..x }, id);
    lemma_probe_forgets(x, 0, id);
    lemma_progress_forgets(x, id);
}

proof fn lemma_retransmit_forgets(x: SessionView, id: Seq<u8>)
    ensures
        forgets(x.retransmit(id)),
{
    reveal(SessionView::retransmit);
    lemma_check_forgets(x, id);
    lemma_check_forgets(SessionView { pending_stun: None, ..x }, id);
}

/// Whenever a session waits for a datagram, a consent check is remembered only if
/// its probe still waits.
pub proof fn law_lost_consent_check_is_forgotten(
    s: SessionView,
    input: InputView,
    now: u64,
    id: Seq<u8>,
)
    requires
        s.consistent(),
        s.awaits(input),
        now <= LAST_INSTANT,
        s.step(input, now, id).session.awaiting is Datagram,
    ensures
        remembers_what_waits(s.step(input, now, id).session),
{
    match input {
        InputView::Command(_) => {
            reveal(SessionView::command);
        },
        InputView::NoCommand => {
            reveal(SessionView::begin_round);
            lemma_retransmit_forgets(SessionView { tick: now, ..s }, id);
        },
        InputView::Sent => {
            reveal(SessionView::sent);
            match s.awaiting {
                AwaitingView::KeepaliveSent { transaction_id, server } => {
                    lemma_retransmit_forgets(
                        s.keepalive_sent(server, transaction_id).keepalive_done(),
                        id,
                    );
                },
                AwaitingView::RetransmitSent => {
                    lemma_check_forgets(s.retransmit_sent(), id);
                },
                AwaitingView::ProbeSent { index, transaction_id, target } => {
                    lemma_probe_forgets(
                        s.add_probe(transaction_id, target, ProbePurpose::Connectivity, now),
                        index + 1,
                        id,
                    );
                },
                _ => {},
            }
        },
        InputView::SendFailed(_) => {
            reveal(SessionView::send_failed);
            lemma_retransmit_forgets(s.keepalive_done(), id);
            lemma_check_forgets(s, id);
            if let AwaitingView::ProbeSent { index, .. } = s.awaiting {
                lemma_probe_forgets(s, index + 1, id);
            }
        },
        InputView::Datagram { .. } => {
            reveal(SessionView::receive);
            reveal(SessionView::receive_stun);
            reveal(SessionView::receive_control);
            reveal(SessionView::receive_check_ok);
        },
        _ => {},
    }
}

/// At the end of every pass a consent check is remembered only if its probe still
/// waits, that is, was sent less than four seconds before the pass began.
pub proof fn law_pass_forgets_lost_consent_checks(s: SessionView, pass: Seq<Outcome>)
    requires
        s.consistent(),
        pass_laws::is_pass(s, pass),
    ensures
        ({
            let t = runs::run(s, pass).session;
            &&& remembers_what_waits(t)
            &&& t.selected is Some && t.selected->0.consent_pending is Some
                ==> t.tick < t.pending[t.selected->0.consent_pending->0].sent_at + 4_000_000_000
        }),
{
    let front = pass.drop_last();
    let o = pass.last();
    let m = runs::run(s, front).session;
    runs::law_run_stays_consistent(s, front);
    lemma_receive_waits(m, o);
    law_lost_consent_check_is_forgotten(m, o.input, o.now, o.transaction_id);
    session_laws::law_old_probes_are_dropped(m, o.input, o.now, o.transaction_id);
    assert(runs::run(s, pass).requests.last() == m.step(
        o.input,
        o.now,
        o.transaction_id,
    ).request);
}

/// A session that asks for a datagram waits for one.
proof fn lemma_receive_waits(m: SessionView, o: Outcome)
    requires
        m.consistent(),
        m.awaits(o.input),
        o.now <= LAST_INSTANT,
        m.step(o.input, o.now, o.transaction_id).request is Receive,
    ensures
        m.step(o.input, o.now, o.transaction_id).session.awaiting is Datagram,
{
    crate::command_laws::law_outcomes_fit_the_request(
        m,
        o.input,
        o.now,
        o.transaction_id,
        InputView::ReceiveFailed(crate::session_model::ReceiveFaultView::TimedOut),
    );
    match o.input {
        InputView::Command(_) => {
            reveal(SessionView::command);
        },
        InputView::Datagram { .. } => {
            reveal(SessionView::receive);
            reveal(SessionView::receive_stun);
            reveal(SessionView::receive_control);
            reveal(SessionView::receive_check_ok);
        },
        _ => {},
    }
}

// ---------------------------------------------------------------------------
// Between passes
// ---------------------------------------------------------------------------

/// What is remembered of a consent check is true: its probe waits under that
/// identifier, along the selected path.
pub open spec fn honest(s: SessionView) -> bool {
    &&& s.selected is Some && s.selected->0.consent_pending is Some ==> {
        let x = s.selected->0.consent_pending->0;
        &&& s.pending.contains_key(x)
        &&& s.pending[x].purpose == ProbePurpose::Consent
        &&& s.pending[x].target == s.selected->0.source
        &&& !meeting_laws::about_to_use(s, x)
    }
    &&& s.awaiting is ConsentSent ==> {
        &&& s.selected is Some
        &&& s.selected->0.consent_pending is None
        &&& s.awaiting->ConsentSent_target == s.selected->0.source
    }
}

/// The identifier is not that of the consent check that is remembered.
pub open spec fn is_fresh(s: SessionView, id: Seq<u8>) -> bool {
    s.selected is Some ==> s.selected->0.consent_pending != Some(id)
}

/// Every identifier is fresh when it comes.
pub open spec fn are_fresh(s: SessionView, outcomes: Seq<Outcome>) -> bool
    decreases outcomes.len(),
{
    outcomes.len() > 0 ==> {
        &&& are_fresh(s, outcomes.drop_last())
        &&& is_fresh(
            runs::run(s, outcomes.drop_last()).session,
            outcomes.last().transaction_id,
        )
    }
}

/// The same, whatever is awaited.
spec fn honest_core(x: SessionView) -> bool {
    honest(SessionView { awaiting: AwaitingView::Command, ..x })
}

proof fn lemma_consent_honest(x: SessionView, id: Seq<u8>)
    requires
        honest_core(x),
        is_fresh(x, id),
    ensures
        honest(x.consent(id)
            .session),
{
    reveal(SessionView::consent);
}

proof fn lemma_progress_honest(x: SessionView, id: Seq<u8>)
    requires
        honest_core(x),
        is_fresh(x, id),
    ensures
        honest(x.progress(id).session),
{
    reveal(SessionView::progress);
    lemma_consent_honest(x, id);
    lemma_consent_honest(
        SessionView {
            next_progress: session_model::later(x.tick, crate::session::PROGRESS_INTERVAL),
            ..x
        },
        id,
    );
}

proof fn lemma_probe_honest(x: SessionView, index: int, id: Seq<u8>)
    requires
        honest_core(x),
        is_fresh(x, id),
    ensures
        honest(x.probe(index, id).session),
{
    reveal(SessionView::probe);
    lemma_progress_honest(
        SessionView {
            next_probe: session_model::later(x.tick, crate::session::PROBE_INTERVAL),
            ..x
        },
        id,
    );
}

proof fn lemma_check_honest(x: SessionView, id: Seq<u8>)
    requires
        honest_core(x),
        is_fresh(x, id),
    ensures
        honest(x.check(id).session),
{
    reveal(SessionView::check);
    lemma_consent_honest(x, id);
    lemma_progress_honest(SessionView { state: State::Failed, ..x }, id);
    lemma_probe_honest(x, 0, id);
    lemma_progress_honest(x, id);
}

proof fn lemma_retransmit_honest(x: SessionView, id: Seq<u8>)
    requires
        honest_core(x),
        is_fresh(x, id),
    ensures
        honest(x.retransmit(id).session),
{
    reveal(SessionView::retransmit);
    lemma_check_honest(x, id);
    lemma_check_honest(SessionView { pending_stun: None, ..x }, id);
}

/// What is remembered of a consent check stays true with every step.
pub proof fn law_consent_is_remembered_truly(
    s: SessionView,
    input: InputView,
    now: u64,
    id: Seq<u8>,
)
    requires
        s.consistent(),
        honest(s),
        s.awaits(input),
        is_fresh(s, id),
    ensures
        honest(s.step(input, now, id).session),
{
    match input {
        InputView::Command(_) => {
            reveal(SessionView::command);
        },
        InputView::NoCommand => {
            reveal(SessionView::begin_round);
            lemma_retransmit_honest(SessionView { tick: now, ..s }, id);
        },
        InputView::Sent => {
            reveal(SessionView::sent);
            match s.awaiting {
                AwaitingView::KeepaliveSent { transaction_id, server } => {
                    lemma_retransmit_honest(
                        s.keepalive_sent(server, transaction_id).keepalive_done(),
                        id,
                    );
                },
                AwaitingView::RetransmitSent => {
                    lemma_check_honest(s.retransmit_sent(), id);
                },
                AwaitingView::ProbeSent { index, transaction_id, target } => {
                    lemma_probe_honest(
                        s.add_probe(transaction_id, target, ProbePurpose::Connectivity, now),
                        index + 1,
                        id,
                    );
                },
                _ => {},
            }
        },
        InputView::SendFailed(_) => {
            reveal(SessionView::send_failed);
            lemma_retransmit_honest(s.keepalive_done(), id);
            lemma_check_honest(s, id);
            if let AwaitingView::ProbeSent { index, .. } = s.awaiting {
                lemma_probe_honest(s, index + 1, id);
            }
        },
        InputView::Datagram { bytes, .. } => {
            reveal(SessionView::receive);
            reveal(SessionView::receive_stun);
            reveal(SessionView::receive_control);
            reveal(SessionView::receive_check_ok);
            if s.peer is Some {
                protocol_laws::law_accepted_control_is_signed(
                    bytes,
                    s.peer->0.session_id,
                    s.local.session_id,
                    s.peer->0.key,
                );
            }
        },
        _ => {},
    }
}

/// What is remembered of a consent check stays true over any number of steps.
pub proof fn law_run_stays_honest(s: SessionView, outcomes: Seq<Outcome>)
    requires
        s.consistent(),
        honest(s),
        runs::can_run(s, outcomes),
        are_fresh(s, outcomes),
    ensures
        honest(runs::run(s, outcomes).session),
    decreases outcomes.len(),
{
    if outcomes.len() > 0 {
        let front = outcomes.drop_last();
        let o = outcomes.last();
        law_run_stays_honest(s, front);
        runs::law_run_stays_consistent(s, front);
        law_consent_is_remembered_truly(
            runs::run(s, front).session,
            o.input,
            o.now,
            o.transaction_id,
        );
    }
}

/// No consent check waits for an answer.
pub open spec fn no_consent_waits(s: SessionView) -> bool {
    forall|x: Seq<u8>| #[trigger]
        s.pending.contains_key(x) ==> s.pending[x].purpose != ProbePurpose::Consent
}

/// While a session is connected and its path has been quiet for five to fifteen
/// seconds, a pass that begins when no consent check waits sends one along the
/// path, and nothing else but STUN requests.
pub proof fn law_quiet_path_is_asked(s: SessionView, pass: Seq<Outcome>)
    requires
        s.consistent(),
        honest(s),
        s.state == State::Connected,
        no_consent_waits(s),
        pass_laws::is_pass(s, pass),
        s.selected->0.last_success + 5_000_000_000 <= pass[0].now < s.selected->0.last_success
            + 15_000_000_000,
    ensures
        pass_laws::sent_probes(runs::run(s, pass).requests) == seq![s.selected->0.source],
{
    pass_laws::law_quiet_path_is_probed(s, pass);
}

/// A consent check that gets no answer does not cost the path: whatever happens
/// after it was sent, once it no longer waits the next pass sends another one.
pub proof fn law_lost_consent_check_is_repeated(
    s: SessionView,
    between: Seq<Outcome>,
    pass: Seq<Outcome>,
)
    requires
        s.consistent(),
        honest(s),
        runs::can_run(s, between),
        are_fresh(s, between),
        ({
            let t = runs::run(s, between).session;
            &&& t.state == State::Connected
            &&& no_consent_waits(t)
            &&& pass_laws::is_pass(t, pass)
            &&& t.selected->0.last_success + 5_000_000_000 <= pass[0].now
                < t.selected->0.last_success + 15_000_000_000
        }),
    ensures
        ({
            let t = runs::run(s, between).session;
            pass_laws::sent_probes(runs::run(t, pass).requests) == seq![t.selected->0.source]
        }),
{
    law_run_stays_honest(s, between);
    runs::law_run_stays_consistent(s, between);
    law_quiet_path_is_asked(runs::run(s, between).session, pass);
}

/// A new session remembers nothing.
pub proof fn law_new_session_is_honest(
    local: crate::protocol::PeerDescriptionView,
    public_address: crate::address::SocketAddress,
    stun_servers: Seq<crate::address::SocketAddress>,
)
    ensures
        honest(SessionView::start(local, public_address, stun_servers)),
{
}

} // verus!
