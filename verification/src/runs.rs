//! Sessions over many steps.

use crate::session::LAST_INSTANT;
use crate::session_laws;
use crate::session_model::{EventView, InputView, RequestView, SessionView};
use vstd::prelude::*;

verus! {

/// The outcome of a request, the time at which it came, and the identifier for a
/// transaction that begins with it.
pub struct Outcome {
    pub input: InputView,
    pub now: u64,
    pub transaction_id: Seq<u8>,
}

/// What comes of several outcomes: the session at the end, all events, and the
/// request that followed each outcome.
pub struct RunView {
    pub session: SessionView,
    pub events: Seq<EventView>,
    pub requests: Seq<RequestView>,
}

/// A session that takes the outcomes one by one.
pub open spec fn run(s: SessionView, outcomes: Seq<Outcome>) -> RunView
    decreases outcomes.len(),
{
    if outcomes.len() == 0 {
        RunView { session: s, events: Seq::empty(), requests: Seq::empty() }
    } else {
        let before = run(s, outcomes.drop_last());
        let last = outcomes.last();
        let step = before.session.step(last.input, last.now, last.transaction_id);
        RunView {
            session: step.session,
            events: before.events + step.events,
            requests: before.requests.push(step.request),
        }
    }
}

/// Every outcome is one that the session awaits when it comes.
pub open spec fn can_run(s: SessionView, outcomes: Seq<Outcome>) -> bool
    decreases outcomes.len(),
{
    outcomes.len() > 0 ==> {
        &&& can_run(s, outcomes.drop_last())
        &&& run(s, outcomes.drop_last()).session.awaits(outcomes.last().input)
        &&& session_laws::well_sized(outcomes.last().input)
        &&& outcomes.last().now <= LAST_INSTANT
    }
}

/// A session stays consistent over any number of steps, and every outcome is
/// followed by one request.
pub proof fn law_run_stays_consistent(s: SessionView, outcomes: Seq<Outcome>)
    requires
        s.consistent(),
        can_run(s, outcomes),
    ensures
        run(s, outcomes).session.consistent(),
        run(s, outcomes).requests.len() == outcomes.len(),
    decreases outcomes.len(),
{
    if outcomes.len() > 0 {
        let last = outcomes.last();
        law_run_stays_consistent(s, outcomes.drop_last());
        session_laws::law_session_stays_consistent(
            run(s, outcomes.drop_last()).session,
            last.input,
            last.now,
            last.transaction_id,
        );
    }
}

} // verus!
