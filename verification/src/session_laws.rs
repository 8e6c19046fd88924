//! What holds of a session as a whole.

use crate::address;
use crate::address::SocketAddress;
use crate::pending;
use crate::pending::{PendingProbe, ProbePurpose, PROBE_LIFETIME};
use crate::protocol;
use crate::session::{State, Stats, LAST_INSTANT, PROBE_INTERVAL, PROGRESS_INTERVAL};
use crate::session_model;
use crate::session_model::{
    AwaitingView, CommandView, InputView, RequestView, SessionView, StepView,
};
use crate::stun;
use vstd::prelude::*;

verus! {

/// A description has identifiers and keys of their fixed lengths by its type.
pub open spec fn well_sized(input: InputView) -> bool {
    input matches InputView::Command(CommandView::SetPeer(peer)) ==> peer.sized()
}

/// The part of consistency that does not speak of what is awaited.
pub open spec fn settled(s: SessionView) -> bool {
    SessionView { awaiting: AwaitingView::Command, ..s }.consistent()
}

proof fn lemma_recent_is_finite(probes: Map<Seq<u8>, PendingProbe>, now: u64)
    requires
        probes.dom().finite(),
    ensures
        pending::recent(probes, now).dom().finite(),
{
    assert(pending::recent(probes, now).dom().subset_of(probes.dom()));
    vstd::set_lib::lemma_len_subset(pending::recent(probes, now).dom(), probes.dom());
}

proof fn lemma_end_round(s: SessionView)
    requires
        settled(s),
    ensures
        s.end_round().session.consistent(),
{
    lemma_recent_is_finite(s.pending, s.tick);
}

proof fn lemma_consent(s: SessionView, id: Seq<u8>)
    requires
        settled(s),
    ensures
        s.consent(id).session.consistent(),
{
    reveal(SessionView::consent);
    lemma_end_round(s);
    let left = SessionView {
        state: State::Checking,
        checking_started: Some(s.tick),
        selected: None,
        pending: Map::empty(),
        next_probe: s.tick,
        ..s
    };
    if s.selected is Some {
        lemma_end_round(left);
    }
}

proof fn lemma_progress(s: SessionView, id: Seq<u8>)
    requires
        settled(s),
    ensures
        s.progress(id).session.consistent(),
{
    reveal(SessionView::progress);
    lemma_consent(s, id);
    lemma_consent(SessionView { next_progress: session_model::later(s.tick, PROGRESS_INTERVAL), ..s }, id);
}

proof fn lemma_probe(s: SessionView, index: int, id: Seq<u8>)
    requires
        settled(s),
        s.state == State::Checking,
        !s.checks_are_over(),
        index >= 0,
    ensures
        s.probe(index, id).session.consistent(),
{
    reveal(SessionView::probe);
    lemma_progress(SessionView { next_probe: session_model::later(s.tick, PROBE_INTERVAL), ..s }, id);
}

proof fn lemma_check(s: SessionView, id: Seq<u8>)
    requires
        settled(s),
    ensures
        s.check(id).session.consistent(),
{
    reveal(SessionView::check);
    lemma_consent(s, id);
    if s.state == State::Checking {
        lemma_progress(SessionView { state: State::Failed, ..s }, id);
        if !s.checks_are_over() {
            lemma_probe(s, 0, id);
        }
        lemma_progress(s, id);
    }
}

proof fn lemma_retransmit(s: SessionView, id: Seq<u8>)
    requires
        settled(s),
    ensures
        s.retransmit(id).session.consistent(),
{
    reveal(SessionView::retransmit);
    lemma_check(s, id);
    lemma_check(SessionView { pending_stun: None, ..s }, id);
}

proof fn lemma_command(s: SessionView, command: CommandView, now: u64, id: Seq<u8>)
    requires
        settled(s),
        command matches CommandView::SetPeer(peer) ==> peer.sized(),
    ensures
        s.command(command, now, id).session.consistent(),
{
    reveal(SessionView::command);
}

proof fn lemma_sent(s: SessionView, now: u64, id: Seq<u8>)
    requires
        s.consistent(),
    ensures
        s.sent(now, id).session.consistent(),
{
    reveal(SessionView::sent);
    match s.awaiting {
        AwaitingView::KeepaliveSent { transaction_id, server } => {
            lemma_retransmit(s.keepalive_sent(server, transaction_id).keepalive_done(), id);
        },
        AwaitingView::RetransmitSent => {
            lemma_check(s.retransmit_sent(), id);
        },
        AwaitingView::ProbeSent { index, transaction_id, target } => {
            lemma_probe(
                s.add_probe(transaction_id, target, ProbePurpose::Connectivity, now),
                index + 1,
                id,
            );
        },
        AwaitingView::ConsentSent { transaction_id, target } => {
            lemma_end_round(
                s.add_probe(transaction_id, target, ProbePurpose::Consent, now).consent_sent(
                    transaction_id,
                ),
            );
        },
        _ => {},
    }
}

proof fn lemma_send_failed(s: SessionView, error: Seq<char>, id: Seq<u8>)
    requires
        s.consistent(),
    ensures
        s.send_failed(error, id).session.consistent(),
{
    reveal(SessionView::send_failed);
    match s.awaiting {
        AwaitingView::KeepaliveSent { .. } => {
            lemma_retransmit(s.keepalive_done(), id);
        },
        AwaitingView::RetransmitSent => {
            lemma_check(s, id);
        },
        AwaitingView::ProbeSent { index, .. } => {
            lemma_probe(s, index + 1, id);
        },
        AwaitingView::ConsentSent { .. } => {
            lemma_end_round(s);
        },
        _ => {},
    }
}

proof fn lemma_receive(s: SessionView, source: SocketAddress, bytes: Seq<u8>, now: u64)
    requires
        settled(s),
    ensures
        s.receive(source, bytes, now).session.consistent(),
{
    reveal(SessionView::receive);
    reveal(SessionView::receive_stun);
    reveal(SessionView::receive_control);
    reveal(SessionView::receive_check_ok);
}

/// Every step keeps a session consistent.
pub proof fn law_session_stays_consistent(
    s: SessionView,
    input: InputView,
    now: u64,
    transaction_id: Seq<u8>,
)
    requires
        s.consistent(),
        s.awaits(input),
        well_sized(input),
        now <= LAST_INSTANT,
    ensures
        s.step(input, now, transaction_id).session.consistent(),
{
    reveal(SessionView::begin_round);
    match input {
        InputView::Command(command) => {
            lemma_command(s, command, now, transaction_id);
        },
        InputView::NoCommand => {
            lemma_retransmit(SessionView { tick: now, ..s }, transaction_id);
        },
        InputView::Sent => {
            lemma_sent(s, now, transaction_id);
        },
        InputView::SendFailed(error) => {
            lemma_send_failed(s, error, transaction_id);
        },
        InputView::Datagram { source, bytes } => {
            lemma_receive(s, source, bytes, now);
        },
        _ => {},
    }
}

// ---------------------------------------------------------------------------
// What a session sends, and what a round of timers can do
// ---------------------------------------------------------------------------

/// A datagram that a session sends is the one whose fate it then awaits: a STUN
/// request to a server, a signed probe to a candidate of the peer or along the
/// selected path, or a signed answer.
pub open spec fn sends_what_it_awaits(
    s: SessionView,
    datagram: Seq<u8>,
    target: SocketAddress,
    id: Seq<u8>,
) -> bool {
    match s.awaiting {
        AwaitingView::KeepaliveSent { transaction_id, server } => {
            &&& transaction_id == id
            &&& target == server
            &&& datagram == stun::binding_request(id)
        },
        AwaitingView::RetransmitSent => {
            &&& s.pending_stun is Some
            &&& target == s.pending_stun->0.server
            &&& datagram == stun::binding_request(s.pending_stun->0.transaction_id)
        },
        AwaitingView::ProbeSent { index, transaction_id, target: to } => {
            &&& s.state == State::Checking
            &&& s.peer is Some
            &&& transaction_id == id
            &&& target == to
            &&& target == s.peer->0.candidates[index].address
            &&& datagram == session_model::check_packet(s.local, s.peer->0, id)
        },
        AwaitingView::ConsentSent { transaction_id, target: to } => {
            &&& s.state == State::Connected
            &&& s.peer is Some
            &&& transaction_id == id
            &&& target == to
            &&& target == s.selected->0.source
            &&& datagram == session_model::check_packet(s.local, s.peer->0, id)
        },
        AwaitingView::PingSent { transaction_id, target: to } => {
            &&& s.state == State::Connected
            &&& s.peer is Some
            &&& transaction_id == id
            &&& target == to
            &&& target == s.selected->0.source
            &&& datagram == session_model::check_packet(s.local, s.peer->0, id)
        },
        AwaitingView::ReplySent => {
            &&& s.peer is Some
            &&& address::spec_is_unicast(target)
            &&& exists|x: Seq<u8>|
                datagram == #[trigger] session_model::check_ok_packet(s.local, s.peer->0, x)
        },
        _ => false,
    }
}

/// Every probe that waits has been sent less than its lifetime ago.
pub open spec fn all_recent(s: SessionView) -> bool {
    forall|id: Seq<u8>| #[trigger]
        s.pending.contains_key(id) ==> pending::since(s.tick, s.pending[id].sent_at)
            < PROBE_LIFETIME
}

/// No counter has fallen.
pub open spec fn counters_kept(before: Stats, after: Stats) -> bool {
    &&& before.probes_sent <= after.probes_sent
    &&& before.datagrams_received <= after.datagrams_received
    &&& before.authenticated <= after.authenticated
    &&& before.invalid <= after.invalid
}

/// What a round of timers leaves alone, and what it may ask for.
pub open spec fn goes_on(s: SessionView, id: Seq<u8>, step: StepView) -> bool {
    let t = step.session;
    &&& t.local == s.local
    &&& t.peer == s.peer
    &&& t.public_address == s.public_address
    &&& counters_kept(s.stats, t.stats)
    &&& t.state == State::Connected ==> {
        &&& s.state == State::Connected
        &&& t.selected is Some
        &&& t.selected->0.source == s.selected->0.source
        &&& t.selected->0.kind == s.selected->0.kind
        &&& t.selected->0.last_success == s.selected->0.last_success
    }
    &&& step.request is PollCommand || step.request is Receive || step.request is Send
    &&& step.request is Receive <==> t.awaiting is Datagram
    &&& step.request is PollCommand <==> t.awaiting is Command
    &&& step.request is Receive ==> all_recent(t)
    &&& step.request matches RequestView::Send { datagram, target } ==> sends_what_it_awaits(
        t,
        datagram,
        target,
        id,
    )
}

proof fn lemma_end_round_goes_on(s: SessionView, id: Seq<u8>)
    requires
        settled(s),
    ensures
        goes_on(s, id, s.end_round()),
{
}

proof fn lemma_consent_goes_on(s: SessionView, id: Seq<u8>)
    requires
        settled(s),
    ensures
        goes_on(s, id, s.consent(id)),
{
    reveal(SessionView::consent);
    lemma_end_round_goes_on(s, id);
    if s.state == State::Connected {
        let left = SessionView {
            state: State::Checking,
            checking_started: Some(s.tick),
            selected: None,
            pending: Map::empty(),
            next_probe: s.tick,
            ..s
        };
        lemma_end_round_goes_on(left, id);
    }
}

proof fn lemma_progress_goes_on(s: SessionView, id: Seq<u8>)
    requires
        settled(s),
    ensures
        goes_on(s, id, s.progress(id)),
{
    reveal(SessionView::progress);
    lemma_consent_goes_on(s, id);
    lemma_consent_goes_on(
        SessionView { next_progress: session_model::later(s.tick, PROGRESS_INTERVAL), ..s },
        id,
    );
}

proof fn lemma_probe_goes_on(s: SessionView, index: int, id: Seq<u8>)
    requires
        settled(s),
        s.state == State::Checking,
    ensures
        goes_on(s, id, s.probe(index, id)),
{
    reveal(SessionView::probe);
    lemma_progress_goes_on(
        SessionView { next_probe: session_model::later(s.tick, PROBE_INTERVAL), ..s },
        id,
    );
}

proof fn lemma_check_goes_on(s: SessionView, id: Seq<u8>)
    requires
        settled(s),
    ensures
        goes_on(s, id, s.check(id)),
{
    reveal(SessionView::check);
    lemma_consent_goes_on(s, id);
    if s.state == State::Checking {
        lemma_progress_goes_on(SessionView { state: State::Failed, ..s }, id);
        lemma_probe_goes_on(s, 0, id);
        lemma_progress_goes_on(s, id);
    }
}

proof fn lemma_retransmit_goes_on(s: SessionView, id: Seq<u8>)
    requires
        settled(s),
    ensures
        goes_on(s, id, s.retransmit(id)),
{
    reveal(SessionView::retransmit);
    lemma_check_goes_on(s, id);
    lemma_check_goes_on(SessionView { pending_stun: None, ..s }, id);
}

/// An outcome of sending, and the lack of a command, lead on in a round or back
/// to its start.
pub proof fn lemma_round(s: SessionView, input: InputView, now: u64, id: Seq<u8>)
    requires
        s.consistent(),
        s.awaits(input),
        now <= LAST_INSTANT,
        input is NoCommand || input is Sent || input is SendFailed,
    ensures
        goes_on(s, id, s.step(input, now, id)),
{
    reveal(SessionView::begin_round);
    reveal(SessionView::sent);
    reveal(SessionView::send_failed);
    match input {
        InputView::NoCommand => {
            lemma_retransmit_goes_on(SessionView { tick: now, ..s }, id);
        },
        InputView::Sent => match s.awaiting {
            AwaitingView::KeepaliveSent { transaction_id, server } => {
                lemma_retransmit_goes_on(
                    s.keepalive_sent(server, transaction_id).keepalive_done(),
                    id,
                );
            },
            AwaitingView::RetransmitSent => {
                lemma_check_goes_on(s.retransmit_sent(), id);
            },
            AwaitingView::ProbeSent { index, transaction_id, target } => {
                lemma_probe_goes_on(
                    s.add_probe(transaction_id, target, ProbePurpose::Connectivity, now),
                    index + 1,
                    id,
                );
            },
            AwaitingView::ConsentSent { transaction_id, target } => {
                lemma_end_round_goes_on(
                    s.add_probe(transaction_id, target, ProbePurpose::Consent, now).consent_sent(
                        transaction_id,
                    ),
                    id,
                );
            },
            _ => {},
        },
        _ => match s.awaiting {
            AwaitingView::KeepaliveSent { .. } => {
                lemma_retransmit_goes_on(s.keepalive_done(), id);
            },
            AwaitingView::RetransmitSent => {
                lemma_check_goes_on(s, id);
            },
            AwaitingView::ProbeSent { index, .. } => {
                lemma_probe_goes_on(s, index + 1, id);
            },
            AwaitingView::ConsentSent { .. } => {
                lemma_end_round_goes_on(s, id);
            },
            _ => {},
        },
    }
}

/// What a step may ask for to be sent.
spec fn sends_properly(step: StepView, id: Seq<u8>) -> bool {
    step.request matches RequestView::Send { datagram, target } ==> sends_what_it_awaits(
        step.session,
        datagram,
        target,
        id,
    )
}

proof fn lemma_command_sends_properly(
    s: SessionView,
    command: CommandView,
    now: u64,
    id: Seq<u8>,
)
    requires
        s.consistent(),
    ensures
        sends_properly(s.command(command, now, id), id),
{
    reveal(SessionView::command);
}

proof fn lemma_receive_sends_properly(
    s: SessionView,
    source: SocketAddress,
    bytes: Seq<u8>,
    now: u64,
    id: Seq<u8>,
)
    requires
        s.consistent(),
    ensures
        sends_properly(s.receive(source, bytes, now), id),
{
    reveal(SessionView::receive);
    reveal(SessionView::receive_stun);
    reveal(SessionView::receive_control);
    reveal(SessionView::receive_check_ok);
    let step = s.receive(source, bytes, now);
    if let RequestView::Send { datagram, target } = step.request {
        let remote = s.peer->0;
        let packet = protocol::read_control(
            bytes,
            remote.session_id,
            s.local.session_id,
            remote.key,
        )->Ok_0;
        assert(datagram == session_model::check_ok_packet(
            step.session.local,
            step.session.peer->0,
            packet.transaction_id,
        ));
    }
}

/// Whatever a session sends is what it then awaits the fate of.
pub proof fn law_sends_what_it_awaits(s: SessionView, input: InputView, now: u64, id: Seq<u8>)
    requires
        s.consistent(),
        s.awaits(input),
        now <= LAST_INSTANT,
    ensures
        s.step(input, now, id).request matches RequestView::Send { datagram, target }
            ==> sends_what_it_awaits(s.step(input, now, id).session, datagram, target, id),
{
    match input {
        InputView::Command(command) => {
            lemma_command_sends_properly(s, command, now, id);
            assert(sends_properly(s.step(input, now, id), id));
        },
        InputView::Datagram { source, bytes } => {
            lemma_receive_sends_properly(s, source, bytes, now, id);
            assert(sends_properly(s.step(input, now, id), id));
        },
        InputView::NoCommand => {
            lemma_round(s, input, now, id);
        },
        InputView::Sent => {
            lemma_round(s, input, now, id);
        },
        InputView::SendFailed(_) => {
            lemma_round(s, input, now, id);
        },
        _ => {},
    }
}

/// A session without a peer sends nothing but STUN requests.
pub proof fn law_waiting_session_probes_nobody(
    s: SessionView,
    input: InputView,
    now: u64,
    id: Seq<u8>,
)
    requires
        s.consistent(),
        s.awaits(input),
        well_sized(input),
        now <= LAST_INSTANT,
        s.step(input, now, id).session.state == State::Waiting,
    ensures
        s.step(input, now, id).request matches RequestView::Send { datagram, target } ==> exists|
            x: Seq<u8>,
        |
            datagram == #[trigger] stun::binding_request(x),
{
    law_sends_what_it_awaits(s, input, now, id);
    law_session_stays_consistent(s, input, now, id);
}

/// When a session waits for a datagram, no probe is older than its lifetime.
pub proof fn law_old_probes_are_dropped(s: SessionView, input: InputView, now: u64, id: Seq<u8>)
    requires
        s.consistent(),
        s.awaits(input),
        now <= LAST_INSTANT,
    ensures
        s.step(input, now, id).request is Receive ==> all_recent(s.step(input, now, id).session),
{
    reveal(SessionView::command);
    reveal(SessionView::receive);
    reveal(SessionView::receive_stun);
    reveal(SessionView::receive_control);
    reveal(SessionView::receive_check_ok);
    match input {
        InputView::NoCommand => {
            lemma_round(s, input, now, id);
        },
        InputView::Sent => {
            lemma_round(s, input, now, id);
        },
        InputView::SendFailed(_) => {
            lemma_round(s, input, now, id);
        },
        _ => {},
    }
}

/// Counters never fall, except where the checks start afresh at the user's word.
pub proof fn law_counters_never_fall(s: SessionView, input: InputView, now: u64, id: Seq<u8>)
    requires
        s.consistent(),
        s.awaits(input),
        now <= LAST_INSTANT,
        !(input matches InputView::Command(CommandView::SetPeer(_))),
        input != InputView::Command(CommandView::Retry),
    ensures
        counters_kept(s.stats, s.step(input, now, id).session.stats),
{
    reveal(SessionView::command);
    reveal(SessionView::receive);
    reveal(SessionView::receive_stun);
    reveal(SessionView::receive_control);
    reveal(SessionView::receive_check_ok);
    match input {
        InputView::NoCommand => {
            lemma_round(s, input, now, id);
        },
        InputView::Sent => {
            lemma_round(s, input, now, id);
        },
        InputView::SendFailed(_) => {
            lemma_round(s, input, now, id);
        },
        _ => {},
    }
}

} // verus!
