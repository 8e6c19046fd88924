//! What holds of two sessions that look for each other, whatever else they do
//! meanwhile.

use crate::address;
use crate::address::SocketAddress;
use crate::path_laws;
use crate::pending;
use crate::pending::{PendingProbe, ProbePurpose, PROBE_LIFETIME};
use crate::protocol;
use crate::protocol::{Candidate, CandidateKind, ControlPacketView, PacketKind, PeerDescriptionView};
use crate::protocol_laws;
use crate::runs;
use crate::runs::Outcome;
use crate::session::{
    State, CHECKING_DEADLINE, CONSENT_TIMEOUT, LAST_INSTANT, PROBE_INTERVAL, PROGRESS_INTERVAL,
};
use crate::session_laws;
use crate::session_model;
use crate::session_model::{
    AwaitingView, CommandView, EventView, InputView, RequestView, SessionView, StepView,
};
use vstd::prelude::*;

verus! {

// ---------------------------------------------------------------------------
// A stretch of time
// ---------------------------------------------------------------------------

/// The lifetime of a probe that is sent at `from`, in which a selected path was
/// last heard of at `heard` or later.
pub struct Stretch {
    pub from: u64,
    pub heard: u64,
}

impl Stretch {
    /// A selected path cannot fall silent within the stretch.
    pub open spec fn proper(self) -> bool {
        self.heard <= self.from && self.from + PROBE_LIFETIME <= self.heard + CONSENT_TIMEOUT
    }

    /// A time within the stretch.
    pub open spec fn holds(self, t: u64) -> bool {
        self.from <= t < self.from + PROBE_LIFETIME
    }
}

/// The checks of a session, or its path, last beyond the stretch.
pub open spec fn lasts(s: SessionView, w: Stretch) -> bool {
    &&& s.consistent()
    &&& s.tick < w.from + PROBE_LIFETIME
    &&& match s.state {
        State::Checking => w.from + PROBE_LIFETIME <= s.checking_started->0 + CHECKING_DEADLINE,
        State::Connected => s.selected->0.last_success >= w.heard,
        _ => false,
    }
}

/// No STUN server has this address.
pub open spec fn apart(s: SessionView, source: SocketAddress) -> bool {
    &&& s.pending_stun matches Some(t) ==> t.server != source
    &&& s.awaiting matches AwaitingView::KeepaliveSent { server, .. } ==> server != source
    &&& forall|i: int| 0 <= i < s.stun_servers.len() ==> #[trigger] s.stun_servers[i] != source
}

/// The session is about to use the identifier for a probe.
pub open spec fn about_to_use(s: SessionView, id: Seq<u8>) -> bool {
    match s.awaiting {
        AwaitingView::PingSent { transaction_id, .. } => transaction_id == id,
        AwaitingView::ProbeSent { transaction_id, .. } => transaction_id == id,
        AwaitingView::ConsentSent { transaction_id, .. } => transaction_id == id,
        _ => false,
    }
}

/// The probe waits under the identifier and will not be confused with another.
pub open spec fn waits(s: SessionView, id: Seq<u8>, probe: PendingProbe) -> bool {
    s.pending.contains_key(id) && s.pending[id] == probe && !about_to_use(s, id)
}

/// A command that does not take the peer away or start the checks afresh.
pub open spec fn is_calm(input: InputView) -> bool {
    match input {
        InputView::Command(CommandView::SetPeer(_)) => false,
        InputView::Command(CommandView::ClearPeer) => false,
        InputView::Command(CommandView::Retry) => false,
        _ => true,
    }
}

/// An outcome within the stretch that is calm and begins no transaction with the
/// identifier. A datagram may come from anybody.
pub open spec fn is_ordinary(o: Outcome, w: Stretch, id: Seq<u8>) -> bool {
    &&& is_calm(o.input)
    &&& w.holds(o.now)
    &&& o.transaction_id != id
}

/// Outcomes of which each is ordinary.
pub open spec fn are_ordinary(outcomes: Seq<Outcome>, w: Stretch, id: Seq<u8>) -> bool {
    forall|i: int| 0 <= i < outcomes.len() ==> is_ordinary(#[trigger] outcomes[i], w, id)
}

/// All datagrams come from the one source.
pub open spec fn only_from(outcomes: Seq<Outcome>, source: SocketAddress) -> bool {
    forall|i: int|
        0 <= i < outcomes.len() ==> ((#[trigger] outcomes[i]).input matches InputView::Datagram {
            source: from,
            ..
        } ==> from == source)
}

/// An answer that the peer has signed for this session.
pub open spec fn is_answer(
    bytes: Seq<u8>,
    peer: PeerDescriptionView,
    local: PeerDescriptionView,
) -> bool {
    exists|x: Seq<u8>| bytes == #[trigger] session_model::check_ok_packet(peer, local, x)
}

/// An answer of the peer arrives from the source.
pub open spec fn answered_from(
    outcomes: Seq<Outcome>,
    source: SocketAddress,
    peer: PeerDescriptionView,
    local: PeerDescriptionView,
) -> bool {
    exists|i: int|
        0 <= i < outcomes.len() && ((#[trigger] outcomes[i]).input matches InputView::Datagram {
            source: from,
            bytes,
        } && from == source && is_answer(bytes, peer, local))
}

/// The datagram arrives at some point.
pub open spec fn arrives(outcomes: Seq<Outcome>, source: SocketAddress, bytes: Seq<u8>) -> bool {
    exists|i: int|
        0 <= i < outcomes.len() && (#[trigger] outcomes[i]).input == (InputView::Datagram {
            source,
            bytes,
        })
}

/// The user is told of a connection with this source.
pub open spec fn tells_connected(
    events: Seq<EventView>,
    source: SocketAddress,
    kind: CandidateKind,
) -> bool {
    exists|i: int|
        0 <= i < events.len() && ((#[trigger] events[i]) matches EventView::Connected {
            source: from,
            kind: k,
            ..
        } && from == source && k == kind)
}

/// The user is told the result of a ping.
pub open spec fn tells_ping(events: Seq<EventView>) -> bool {
    exists|i: int| 0 <= i < events.len() && (#[trigger] events[i]) is PingResult
}

// ---------------------------------------------------------------------------
// Rounds
// ---------------------------------------------------------------------------

/// What a round of timers leaves alone while nothing runs out.
spec fn stays(x: SessionView, id: Seq<u8>, step: StepView) -> bool {
    let t = step.session;
    &&& t.local == x.local
    &&& t.peer == x.peer
    &&& t.stun_servers == x.stun_servers
    &&& t.tick == x.tick
    &&& t.pending_stun == x.pending_stun || t.pending_stun is None
    &&& t.state == x.state
    &&& t.checking_started == x.checking_started
    &&& x.state == State::Connected ==> {
        &&& t.selected is Some
        &&& t.selected->0.source == x.selected->0.source
        &&& t.selected->0.kind == x.selected->0.kind
        &&& t.selected->0.last_success == x.selected->0.last_success
    }
    &&& forall|k: Seq<u8>| #[trigger]
        x.pending.contains_key(k) && pending::since(x.tick, x.pending[k].sent_at) < PROBE_LIFETIME
            ==> t.pending.contains_key(k) && t.pending[k] == x.pending[k]
    &&& match t.awaiting {
        AwaitingView::ProbeSent { transaction_id, .. } => transaction_id == id,
        AwaitingView::ConsentSent { transaction_id, .. } => transaction_id == id,
        AwaitingView::KeepaliveSent { .. } => false,
        AwaitingView::PingSent { .. } => false,
        _ => true,
    }
}

/// Nothing runs out at the time of the round.
spec fn in_time(x: SessionView) -> bool {
    &&& session_laws::settled(x)
    &&& x.state == State::Checking ==> !x.checks_are_over()
    &&& x.state == State::Connected ==> pending::since(x.tick, x.selected->0.last_success)
        < CONSENT_TIMEOUT
}

proof fn lemma_end_round_stays(x: SessionView, id: Seq<u8>)
    requires
        in_time(x),
    ensures
        stays(x, id, x.end_round()),
{
}

proof fn lemma_consent_stays(x: SessionView, id: Seq<u8>)
    requires
        in_time(x),
    ensures
        stays(x, id, x.consent(id)),
{
    reveal(SessionView::consent);
    lemma_end_round_stays(x, id);
}

proof fn lemma_progress_stays(x: SessionView, id: Seq<u8>)
    requires
        in_time(x),
    ensures
        stays(x, id, x.progress(id)),
{
    reveal(SessionView::progress);
    lemma_consent_stays(x, id);
    lemma_consent_stays(
        SessionView { next_progress: session_model::later(x.tick, PROGRESS_INTERVAL), ..x },
        id,
    );
}

proof fn lemma_probe_stays(x: SessionView, index: int, id: Seq<u8>)
    requires
        in_time(x),
    ensures
        stays(x, id, x.probe(index, id)),
{
    reveal(SessionView::probe);
    lemma_progress_stays(
        SessionView { next_probe: session_model::later(x.tick, PROBE_INTERVAL), ..x },
        id,
    );
}

proof fn lemma_check_stays(x: SessionView, id: Seq<u8>)
    requires
        in_time(x),
    ensures
        stays(x, id, x.check(id)),
{
    reveal(SessionView::check);
    lemma_consent_stays(x, id);
    lemma_probe_stays(x, 0, id);
    lemma_progress_stays(x, id);
}

proof fn lemma_retransmit_stays(x: SessionView, id: Seq<u8>)
    requires
        in_time(x),
    ensures
        stays(x, id, x.retransmit(id)),
{
    reveal(SessionView::retransmit);
    lemma_check_stays(x, id);
    lemma_check_stays(SessionView { pending_stun: None, ..x }, id);
}

// ---------------------------------------------------------------------------
// One ordinary outcome
// ---------------------------------------------------------------------------

/// What an ordinary outcome leaves alone; a connection may come about, along the
/// path by which an answer of the peer has come.
spec fn carries_on(
    s: SessionView,
    w: Stretch,
    source: SocketAddress,
    input: InputView,
    step: StepView,
) -> bool {
    let t = step.session;
    &&& t.local == s.local
    &&& t.peer == s.peer
    &&& lasts(t, w)
    &&& apart(s, source) ==> apart(t, source)
    &&& s.state == State::Connected ==> {
        &&& t.state == State::Connected
        &&& t.selected->0.source == s.selected->0.source
        &&& t.selected->0.kind == s.selected->0.kind
    }
    &&& s.state == State::Checking && t.state == State::Connected ==> {
        &&& t.selected->0.kind == protocol::kind_for_source(
            t.selected->0.source,
            s.peer->0.candidates,
        )
        &&& tells_connected(step.events, t.selected->0.source, t.selected->0.kind)
        &&& match input {
            InputView::Datagram { source: from, bytes } => {
                from == t.selected->0.source && is_answer(bytes, s.peer->0, s.local)
            },
            _ => false,
        }
    }
}

/// The outcome is an answer that is taken for the answer to the probe.
spec fn answers(input: InputView, probe: PendingProbe, answer: Seq<u8>) -> bool {
    match input {
        InputView::Datagram { source, bytes } => {
            bytes == answer && session_model::source_allowed(probe, source)
        },
        _ => false,
    }
}

/// A probe that is young enough goes on waiting.
proof fn lemma_stays_waiting(
    x: SessionView,
    fresh: Seq<u8>,
    step: StepView,
    id: Seq<u8>,
    probe: PendingProbe,
)
    requires
        stays(x, fresh, step),
        fresh != id,
    ensures
        x.pending.contains_key(id) && x.pending[id] == probe && pending::since(
            x.tick,
            probe.sent_at,
        ) < PROBE_LIFETIME ==> waits(step.session, id, probe),
{
}

proof fn lemma_ordinary_round(
    s: SessionView,
    o: Outcome,
    w: Stretch,
    id: Seq<u8>,
    probe: PendingProbe,
    source: SocketAddress,
)
    requires
        lasts(s, w),
        w.proper(),
        s.awaits(o.input),
        o.now <= LAST_INSTANT,
        is_ordinary(o, w, id),
        o.input is NoCommand || o.input is Sent || o.input is SendFailed,
    ensures
        carries_on(s, w, source, o.input, s.step(o.input, o.now, o.transaction_id)),
        probe.sent_at == w.from && waits(s, id, probe) ==> waits(
            s.step(o.input, o.now, o.transaction_id).session,
            id,
            probe,
        ),
{
    let fresh = o.transaction_id;
    let step = s.step(o.input, o.now, fresh);
    session_laws::law_session_stays_consistent(s, o.input, o.now, fresh);
    match o.input {
        InputView::NoCommand => {
            let x = SessionView { tick: o.now, ..s };
            reveal(SessionView::begin_round);
            lemma_retransmit_stays(x, fresh);
            lemma_stays_waiting(x, fresh, x.retransmit(fresh), id, probe);
        },
        InputView::Sent => {
            reveal(SessionView::sent);
            match s.awaiting {
                AwaitingView::KeepaliveSent { transaction_id, server } => {
                    let x = s.keepalive_sent(server, transaction_id).keepalive_done();
                    lemma_retransmit_stays(x, fresh);
                    lemma_stays_waiting(x, fresh, step, id, probe);
                },
                AwaitingView::RetransmitSent => {
                    let x = s.retransmit_sent();
                    lemma_check_stays(x, fresh);
                    lemma_stays_waiting(x, fresh, step, id, probe);
                },
                AwaitingView::ProbeSent { index, transaction_id, target } => {
                    let x = s.add_probe(
                        transaction_id,
                        target,
                        ProbePurpose::Connectivity,
                        o.now,
                    );
                    lemma_probe_stays(x, index + 1, fresh);
                    lemma_stays_waiting(x, fresh, step, id, probe);
                },
                AwaitingView::ConsentSent { transaction_id, target } => {
                    let x = s.add_probe(
                        transaction_id,
                        target,
                        ProbePurpose::Consent,
                        o.now,
                    ).consent_sent(transaction_id);
                    lemma_end_round_stays(x, fresh);
                    lemma_stays_waiting(x, fresh, step, id, probe);
                },
                _ => {},
            }
        },
        _ => {
            reveal(SessionView::send_failed);
            match s.awaiting {
                AwaitingView::KeepaliveSent { .. } => {
                    let x = s.keepalive_done();
                    lemma_retransmit_stays(x, fresh);
                    lemma_stays_waiting(x, fresh, x.retransmit(fresh), id, probe);
                },
                AwaitingView::RetransmitSent => {
                    lemma_check_stays(s, fresh);
                    lemma_stays_waiting(s, fresh, step, id, probe);
                },
                AwaitingView::ProbeSent { index, .. } => {
                    lemma_probe_stays(s, index + 1, fresh);
                    lemma_stays_waiting(s, fresh, step, id, probe);
                },
                AwaitingView::ConsentSent { .. } => {
                    lemma_end_round_stays(s, fresh);
                    lemma_stays_waiting(s, fresh, step, id, probe);
                },
                _ => {},
            }
        },
    }
}

proof fn lemma_ordinary_datagram(
    s: SessionView,
    from: SocketAddress,
    bytes: Seq<u8>,
    now: u64,
    fresh: Seq<u8>,
    w: Stretch,
    id: Seq<u8>,
    probe: PendingProbe,
    source: SocketAddress,
)
    requires
        lasts(s, w),
        w.proper(),
        s.awaiting is Datagram,
        w.holds(now),
        now <= LAST_INSTANT,
    ensures
        ({
            let input = InputView::Datagram { source: from, bytes };
            let step = s.step(input, now, fresh);
            let answer = session_model::check_ok_packet(s.peer->0, s.local, id);
            &&& carries_on(s, w, source, input, step)
            &&& waits(s, id, probe) && !answers(input, probe, answer) ==> waits(
                step.session,
                id,
                probe,
            )
            &&& waits(s, id, probe) && s.state == State::Checking && probe.purpose
                == ProbePurpose::Connectivity ==> step.session.state == State::Connected || waits(
                step.session,
                id,
                probe,
            )
        }),
{
    let input = InputView::Datagram { source: from, bytes };
    let step = s.step(input, now, fresh);
    let remote = s.peer->0;
    session_laws::law_session_stays_consistent(s, input, now, fresh);
    protocol_laws::law_accepted_control_is_signed(
        bytes,
        remote.session_id,
        s.local.session_id,
        remote.key,
    );
    reveal(SessionView::receive);
    reveal(SessionView::receive_stun);
    reveal(SessionView::receive_control);
    reveal(SessionView::receive_check_ok);
    if let Ok(packet) = protocol::read_control(
        bytes,
        remote.session_id,
        s.local.session_id,
        remote.key,
    ) {
        if packet.kind == PacketKind::CheckOk {
            assert(packet == ControlPacketView {
                kind: PacketKind::CheckOk,
                source_session: remote.session_id,
                destination_session: s.local.session_id,
                transaction_id: packet.transaction_id,
            });
            assert(bytes == session_model::check_ok_packet(
                remote,
                s.local,
                packet.transaction_id,
            ));
        }
    }
    if s.state == State::Checking && step.session.state == State::Connected {
        assert(step.events[0] is Connected);
    }
}

proof fn lemma_ordinary_other(
    s: SessionView,
    o: Outcome,
    w: Stretch,
    id: Seq<u8>,
    probe: PendingProbe,
    source: SocketAddress,
)
    requires
        lasts(s, w),
        s.awaits(o.input),
        o.now <= LAST_INSTANT,
        is_ordinary(o, w, id),
        !(o.input is NoCommand || o.input is Sent || o.input is SendFailed || o.input is Datagram),
    ensures
        carries_on(s, w, source, o.input, s.step(o.input, o.now, o.transaction_id)),
        waits(s, id, probe) ==> waits(
            s.step(o.input, o.now, o.transaction_id).session,
            id,
            probe,
        ),
{
    session_laws::law_session_stays_consistent(s, o.input, o.now, o.transaction_id);
    reveal(SessionView::command);
}

/// One ordinary outcome.
proof fn lemma_ordinary(
    s: SessionView,
    o: Outcome,
    w: Stretch,
    id: Seq<u8>,
    probe: PendingProbe,
    source: SocketAddress,
)
    requires
        lasts(s, w),
        w.proper(),
        s.awaits(o.input),
        o.now <= LAST_INSTANT,
        is_ordinary(o, w, id),
        probe.sent_at == w.from,
    ensures
        carries_on(s, w, source, o.input, s.step(o.input, o.now, o.transaction_id)),
        waits(s, id, probe) && !answers(
            o.input,
            probe,
            session_model::check_ok_packet(s.peer->0, s.local, id),
        ) ==> waits(s.step(o.input, o.now, o.transaction_id).session, id, probe),
        waits(s, id, probe) && s.state == State::Checking && probe.purpose
            == ProbePurpose::Connectivity ==> s.step(
            o.input,
            o.now,
            o.transaction_id,
        ).session.state == State::Connected || waits(
            s.step(o.input, o.now, o.transaction_id).session,
            id,
            probe,
        ),
{
    match o.input {
        InputView::NoCommand => {
            lemma_ordinary_round(s, o, w, id, probe, source);
        },
        InputView::Sent => {
            lemma_ordinary_round(s, o, w, id, probe, source);
        },
        InputView::SendFailed(_) => {
            lemma_ordinary_round(s, o, w, id, probe, source);
        },
        InputView::Datagram { source: from, bytes } => {
            lemma_ordinary_datagram(s, from, bytes, o.now, o.transaction_id, w, id, probe, source);
        },
        _ => {
            lemma_ordinary_other(s, o, w, id, probe, source);
        },
    }
}

// ---------------------------------------------------------------------------
// Runs of ordinary outcomes
// ---------------------------------------------------------------------------

proof fn lemma_tells_concat(
    a: Seq<EventView>,
    b: Seq<EventView>,
    source: SocketAddress,
    kind: CandidateKind,
)
    ensures
        tells_connected(a, source, kind) || tells_connected(b, source, kind) ==> tells_connected(
            a + b,
            source,
            kind,
        ),
        tells_ping(a) || tells_ping(b) ==> tells_ping(a + b),
{
    let c = a + b;
    assert forall|i: int| 0 <= i < a.len() implies #[trigger] a[i] == c[i] by {}
    assert forall|i: int| 0 <= i < b.len() implies #[trigger] b[i] == c[a.len() + i] by {}
}

/// The prefix of ordinary outcomes is ordinary, and so is the last one.
proof fn lemma_ordinary_prefix(outcomes: Seq<Outcome>, w: Stretch, id: Seq<u8>)
    requires
        outcomes.len() > 0,
        are_ordinary(outcomes, w, id),
    ensures
        are_ordinary(outcomes.drop_last(), w, id),
        is_ordinary(outcomes.last(), w, id),
{
    let front = outcomes.drop_last();
    assert forall|i: int| 0 <= i < front.len() implies is_ordinary(#[trigger] front[i], w, id) by {
        assert(front[i] == outcomes[i]);
    }
    assert(outcomes.last() == outcomes[outcomes.len() - 1]);
}

/// Where all datagrams come from one source, those of a prefix do, and so does
/// the last one.
proof fn lemma_only_from_prefix(outcomes: Seq<Outcome>, source: SocketAddress)
    requires
        outcomes.len() > 0,
        only_from(outcomes, source),
    ensures
        only_from(outcomes.drop_last(), source),
        outcomes.last().input matches InputView::Datagram { source: from, .. } ==> from == source,
{
    let front = outcomes.drop_last();
    assert forall|i: int| 0 <= i < front.len() implies ((
    #[trigger] front[i]).input matches InputView::Datagram { source: from, .. } ==> from
        == source) by {
        assert(front[i] == outcomes[i]);
    }
    assert(outcomes.last() == outcomes[outcomes.len() - 1]);
}

/// An answer that has come stays one that has come.
proof fn lemma_answered_longer(
    outcomes: Seq<Outcome>,
    source: SocketAddress,
    peer: PeerDescriptionView,
    local: PeerDescriptionView,
)
    requires
        outcomes.len() > 0,
    ensures
        answered_from(outcomes.drop_last(), source, peer, local) ==> answered_from(
            outcomes,
            source,
            peer,
            local,
        ),
        (outcomes.last().input matches InputView::Datagram { source: from, bytes } && from == source
            && is_answer(bytes, peer, local)) ==> answered_from(outcomes, source, peer, local),
{
    let front = outcomes.drop_last();
    if answered_from(front, source, peer, local) {
        let i = choose|i: int|
            0 <= i < front.len() && ((#[trigger] front[i]).input matches InputView::Datagram {
                source: from,
                bytes,
            } && from == source && is_answer(bytes, peer, local));
        assert(outcomes[i] == front[i]);
    }
    assert(outcomes.last() == outcomes[outcomes.len() - 1]);
}

/// A datagram that arrives does so before the last outcome or with it.
proof fn lemma_arrives(outcomes: Seq<Outcome>, source: SocketAddress, bytes: Seq<u8>)
    requires
        outcomes.len() > 0,
        arrives(outcomes, source, bytes),
    ensures
        arrives(outcomes.drop_last(), source, bytes) || outcomes.last().input == (
        InputView::Datagram { source, bytes }),
{
    let i = choose|i: int|
        0 <= i < outcomes.len() && (#[trigger] outcomes[i]).input == (InputView::Datagram {
            source,
            bytes,
        });
    if i < outcomes.len() - 1 {
        assert(outcomes.drop_last()[i] == outcomes[i]);
    }
}

/// A session connected with the peer, whose path was heard of at the given time
/// or later.
pub open spec fn linked(
    s: SessionView,
    local: PeerDescriptionView,
    peer: PeerDescriptionView,
    heard: u64,
) -> bool {
    &&& s.consistent()
    &&& s.local == local
    &&& s.peer == Some(peer)
    &&& s.state == State::Connected
    &&& s.selected->0.kind == protocol::kind_for_source(s.selected->0.source, peer.candidates)
    &&& s.selected->0.last_success >= heard
}

/// The user is told of the path of a connected session, and an answer of the peer
/// has come along it.
pub open spec fn found_path(
    s: SessionView,
    local: PeerDescriptionView,
    peer: PeerDescriptionView,
    outcomes: Seq<Outcome>,
    events: Seq<EventView>,
) -> bool {
    &&& tells_connected(events, s.selected->0.source, s.selected->0.kind)
    &&& answered_from(outcomes, s.selected->0.source, peer, local)
}

/// A connectivity probe that waits connects the session once its answer arrives
/// within its lifetime, whatever else happens meanwhile and whoever else sends
/// datagrams. The path is the one along which the answer came, or one along which
/// the peer has answered earlier; where nobody else sends, it is the former.
pub proof fn law_answer_in_time_connects(
    s: SessionView,
    outcomes: Seq<Outcome>,
    id: Seq<u8>,
    probe: PendingProbe,
    source: SocketAddress,
)
    requires
        s.consistent(),
        s.state == State::Checking,
        apart(s, source),
        path_laws::usable_id(id),
        waits(s, id, probe),
        probe.purpose == ProbePurpose::Connectivity,
        address::spec_is_unicast(source),
        lasts(s, Stretch { from: probe.sent_at, heard: probe.sent_at }),
        runs::can_run(s, outcomes),
        are_ordinary(outcomes, Stretch { from: probe.sent_at, heard: probe.sent_at }, id),
        arrives(outcomes, source, session_model::check_ok_packet(s.peer->0, s.local, id)),
    ensures
        ({
            let r = runs::run(s, outcomes);
            &&& linked(r.session, s.local, s.peer->0, probe.sent_at)
            &&& apart(r.session, source)
            &&& found_path(r.session, s.local, s.peer->0, outcomes, r.events)
            &&& only_from(outcomes, source) ==> r.session.selected->0.source == source
        }),
{
    lemma_connects(
        s,
        outcomes,
        Stretch { from: probe.sent_at, heard: probe.sent_at },
        id,
        probe,
        source,
    );
}

/// How far a session on its way to a connection has come.
spec fn on_its_way(
    s: SessionView,
    outcomes: Seq<Outcome>,
    w: Stretch,
    id: Seq<u8>,
    probe: PendingProbe,
    source: SocketAddress,
    t: SessionView,
    events: Seq<EventView>,
) -> bool {
    &&& t.local == s.local
    &&& t.peer == s.peer
    &&& lasts(t, w)
    &&& apart(t, source)
    &&& t.state == State::Checking ==> waits(t, id, probe)
    &&& t.state == State::Connected ==> {
        &&& t.selected->0.kind == protocol::kind_for_source(
            t.selected->0.source,
            s.peer->0.candidates,
        )
        &&& found_path(t, s.local, s.peer->0, outcomes, events)
        &&& only_from(outcomes, source) ==> t.selected->0.source == source
    }
}

proof fn lemma_connects(
    s: SessionView,
    outcomes: Seq<Outcome>,
    w: Stretch,
    id: Seq<u8>,
    probe: PendingProbe,
    source: SocketAddress,
)
    requires
        s.state == State::Checking,
        lasts(s, w),
        w.proper(),
        apart(s, source),
        path_laws::usable_id(id),
        waits(s, id, probe),
        probe.sent_at == w.from,
        probe.purpose == ProbePurpose::Connectivity,
        address::spec_is_unicast(source),
        runs::can_run(s, outcomes),
        are_ordinary(outcomes, w, id),
    ensures
        on_its_way(
            s,
            outcomes,
            w,
            id,
            probe,
            source,
            runs::run(s, outcomes).session,
            runs::run(s, outcomes).events,
        ),
        arrives(outcomes, source, session_model::check_ok_packet(s.peer->0, s.local, id))
            ==> runs::run(s, outcomes).session.state == State::Connected,
    decreases outcomes.len(),
{
    if outcomes.len() > 0 {
        let front = outcomes.drop_last();
        let o = outcomes.last();
        let answer = session_model::check_ok_packet(s.peer->0, s.local, id);
        lemma_ordinary_prefix(outcomes, w, id);
        lemma_connects(s, front, w, id, probe, source);
        let before = runs::run(s, front);
        let m = before.session;
        let step = m.step(o.input, o.now, o.transaction_id);
        lemma_ordinary(m, o, w, id, probe, source);
        let path = step.session.selected->0;
        lemma_tells_concat(before.events, step.events, path.source, path.kind);
        lemma_answered_longer(outcomes, path.source, s.peer->0, s.local);
        if only_from(outcomes, source) {
            lemma_only_from_prefix(outcomes, source);
        }
        if o.input == (InputView::Datagram { source, bytes: answer }) && m.state
            == State::Checking {
            lemma_answer_connects(m, source, id, o.now, o.transaction_id);
        }
        if arrives(outcomes, source, answer) {
            lemma_arrives(outcomes, source, answer);
        }
    }
}

/// The answer to a connectivity probe that waits connects the session.
proof fn lemma_answer_connects(
    s: SessionView,
    source: SocketAddress,
    id: Seq<u8>,
    now: u64,
    fresh: Seq<u8>,
)
    requires
        s.consistent(),
        s.state == State::Checking,
        apart(s, source),
        path_laws::usable_id(id),
        s.pending.contains_key(id),
        s.pending[id].purpose == ProbePurpose::Connectivity,
        address::spec_is_unicast(source),
    ensures
        s.step(
            InputView::Datagram {
                source,
                bytes: session_model::check_ok_packet(s.peer->0, s.local, id),
            },
            now,
            fresh,
        ).session.state == State::Connected,
{
    path_laws::lemma_packet_is_understood(PacketKind::CheckOk, s.peer->0, s.local, id);
    reveal(SessionView::receive);
    reveal(SessionView::receive_control);
    reveal(SessionView::receive_check_ok);
}

/// A manual ping that waits gives its result once its answer arrives within its
/// lifetime, whatever else happens meanwhile and whoever else sends datagrams.
pub proof fn law_answered_ping_gives_a_result(
    s: SessionView,
    outcomes: Seq<Outcome>,
    w: Stretch,
    id: Seq<u8>,
    probe: PendingProbe,
    source: SocketAddress,
)
    requires
        s.state == State::Connected,
        lasts(s, w),
        w.proper(),
        apart(s, source),
        path_laws::usable_id(id),
        waits(s, id, probe),
        probe.sent_at == w.from,
        probe.purpose == ProbePurpose::ManualPing,
        probe.target == source,
        runs::can_run(s, outcomes),
        are_ordinary(outcomes, w, id),
    ensures
        ({
            let r = runs::run(s, outcomes);
            &&& r.session.local == s.local
            &&& r.session.peer == s.peer
            &&& r.session.state == State::Connected
            &&& lasts(r.session, w)
            &&& apart(r.session, source)
            &&& waits(r.session, id, probe) || tells_ping(r.events)
            &&& arrives(
                outcomes,
                source,
                session_model::check_ok_packet(s.peer->0, s.local, id),
            ) ==> tells_ping(r.events)
        }),
    decreases outcomes.len(),
{
    if outcomes.len() > 0 {
        let front = outcomes.drop_last();
        let o = outcomes.last();
        let answer = session_model::check_ok_packet(s.peer->0, s.local, id);
        lemma_ordinary_prefix(outcomes, w, id);
        law_answered_ping_gives_a_result(s, front, w, id, probe, source);
        let before = runs::run(s, front);
        let m = before.session;
        let step = m.step(o.input, o.now, o.transaction_id);
        lemma_ordinary(m, o, w, id, probe, source);
        lemma_tells_concat(before.events, step.events, source, CandidateKind::Host);
        if o.input == (InputView::Datagram { source, bytes: answer }) && waits(m, id, probe) {
            path_laws::law_ping_is_measured(m, id, o.now, o.transaction_id);
            assert(step.events[0] is PingResult);
        }
        if arrives(outcomes, source, answer) {
            lemma_arrives(outcomes, source, answer);
        }
    }
}

/// Every probe of the peer that arrives is answered at once where it came from,
/// whatever else happens.
pub proof fn law_every_probe_is_answered(
    s: SessionView,
    outcomes: Seq<Outcome>,
    w: Stretch,
    id: Seq<u8>,
    source: SocketAddress,
    probe_id: Seq<u8>,
)
    requires
        lasts(s, w),
        w.proper(),
        apart(s, source),
        address::spec_is_unicast(source),
        path_laws::usable_id(probe_id),
        runs::can_run(s, outcomes),
        are_ordinary(outcomes, w, id),
    ensures
        runs::run(s, outcomes).requests.len() == outcomes.len(),
        runs::run(s, outcomes).session.local == s.local,
        runs::run(s, outcomes).session.peer == s.peer,
        lasts(runs::run(s, outcomes).session, w),
        apart(runs::run(s, outcomes).session, source),
        forall|j: int|
            0 <= j < outcomes.len() && (#[trigger] outcomes[j]).input == (InputView::Datagram {
                source,
                bytes: session_model::check_packet(s.peer->0, s.local, probe_id),
            }) ==> runs::run(s, outcomes).requests[j] == (RequestView::Send {
                datagram: session_model::check_ok_packet(s.local, s.peer->0, probe_id),
                target: source,
            }),
    decreases outcomes.len(),
{
    if outcomes.len() > 0 {
        let front = outcomes.drop_last();
        let o = outcomes.last();
        let probe = session_model::check_packet(s.peer->0, s.local, probe_id);
        let input = InputView::Datagram { source, bytes: probe };
        lemma_ordinary_prefix(outcomes, w, id);
        law_every_probe_is_answered(s, front, w, id, source, probe_id);
        let before = runs::run(s, front);
        let m = before.session;
        let nothing = PendingProbe {
            target: source,
            sent_at: w.from,
            purpose: ProbePurpose::Connectivity,
        };
        lemma_ordinary(m, o, w, id, nothing, source);
        path_laws::law_probe_is_answered(m, source, probe_id, o.now, o.transaction_id);
        assert forall|j: int|
            0 <= j < outcomes.len() && (#[trigger] outcomes[j]).input
                == input implies runs::run(s, outcomes).requests[j] == (RequestView::Send {
            datagram: session_model::check_ok_packet(s.local, s.peer->0, probe_id),
            target: source,
        }) by {
            if j < front.len() {
                assert(front[j] == outcomes[j]);
                assert(runs::run(s, outcomes).requests[j] == before.requests[j]);
            }
        }
    }
}

// ---------------------------------------------------------------------------
// What never changes
// ---------------------------------------------------------------------------

/// What a round of timers leaves alone at any time.
spec fn keeps_servers(x: SessionView, step: StepView) -> bool {
    let t = step.session;
    &&& t.local == x.local
    &&& t.stun_servers == x.stun_servers
    &&& t.pending_stun == x.pending_stun || t.pending_stun is None
    &&& !(t.awaiting is KeepaliveSent)
}

proof fn lemma_consent_keeps(x: SessionView, id: Seq<u8>)
    ensures
        keeps_servers(x, x.consent(id)),
{
    reveal(SessionView::consent);
}

proof fn lemma_progress_keeps(x: SessionView, id: Seq<u8>)
    ensures
        keeps_servers(x, x.progress(id)),
{
    reveal(SessionView::progress);
    lemma_consent_keeps(x, id);
    lemma_consent_keeps(
        SessionView { next_progress: session_model::later(x.tick, PROGRESS_INTERVAL), ..x },
        id,
    );
}

proof fn lemma_probe_keeps(x: SessionView, index: int, id: Seq<u8>)
    ensures
        keeps_servers(x, x.probe(index, id)),
{
    reveal(SessionView::probe);
    lemma_progress_keeps(
        SessionView { next_probe: session_model::later(x.tick, PROBE_INTERVAL), ..x },
        id,
    );
}

proof fn lemma_check_keeps(x: SessionView, id: Seq<u8>)
    ensures
        keeps_servers(x, x.check(id)),
{
    reveal(SessionView::check);
    lemma_consent_keeps(x, id);
    lemma_progress_keeps(SessionView { state: State::Failed, ..x }, id);
    lemma_probe_keeps(x, 0, id);
    lemma_progress_keeps(x, id);
}

proof fn lemma_retransmit_keeps(x: SessionView, id: Seq<u8>)
    ensures
        keeps_servers(x, x.retransmit(id)),
{
    reveal(SessionView::retransmit);
    lemma_check_keeps(x, id);
    lemma_check_keeps(SessionView { pending_stun: None, ..x }, id);
}

/// No step changes the description of a session, or lets a STUN server have the
/// address of somebody else.
proof fn lemma_step_stays_apart(s: SessionView, o: Outcome, source: SocketAddress)
    requires
        apart(s, source),
    ensures
        s.step(o.input, o.now, o.transaction_id).session.local == s.local,
        apart(s.step(o.input, o.now, o.transaction_id).session, source),
{
    let id = o.transaction_id;
    match o.input {
        InputView::Command(_) => {
            reveal(SessionView::command);
        },
        InputView::NoCommand => {
            reveal(SessionView::begin_round);
            lemma_retransmit_keeps(SessionView { tick: o.now, ..s }, id);
        },
        InputView::Sent => {
            reveal(SessionView::sent);
            match s.awaiting {
                AwaitingView::KeepaliveSent { transaction_id, server } => {
                    lemma_retransmit_keeps(
                        s.keepalive_sent(server, transaction_id).keepalive_done(),
                        id,
                    );
                },
                AwaitingView::RetransmitSent => {
                    lemma_check_keeps(s.retransmit_sent(), id);
                },
                AwaitingView::ProbeSent { index, transaction_id, target } => {
                    lemma_probe_keeps(
                        s.add_probe(transaction_id, target, ProbePurpose::Connectivity, o.now),
                        index + 1,
                        id,
                    );
                },
                _ => {},
            }
        },
        InputView::SendFailed(_) => {
            reveal(SessionView::send_failed);
            lemma_retransmit_keeps(s.keepalive_done(), id);
            lemma_check_keeps(s, id);
            if let AwaitingView::ProbeSent { index, .. } = s.awaiting {
                lemma_probe_keeps(s, index + 1, id);
            }
        },
        InputView::Datagram { .. } => {
            reveal(SessionView::receive);
            reveal(SessionView::receive_stun);
            reveal(SessionView::receive_control);
            reveal(SessionView::receive_check_ok);
        },
        _ => {},
    }
}

/// A session has the same description and the same STUN servers all its life.
pub proof fn law_run_stays_apart(s: SessionView, outcomes: Seq<Outcome>, source: SocketAddress)
    requires
        apart(s, source),
    ensures
        runs::run(s, outcomes).session.local == s.local,
        apart(runs::run(s, outcomes).session, source),
    decreases outcomes.len(),
{
    if outcomes.len() > 0 {
        let front = outcomes.drop_last();
        law_run_stays_apart(s, front, source);
        lemma_step_stays_apart(runs::run(s, front).session, outcomes.last(), source);
    }
}

// ---------------------------------------------------------------------------
// Two sessions
// ---------------------------------------------------------------------------

/// No STUN request goes out at this time.
pub open spec fn no_request_due(s: SessionView, now: u64) -> bool {
    match s.pending_stun {
        Some(t) => now < t.deadline,
        None => now < s.next_stun || s.stun_servers.len() == 0,
    }
}

/// The outcomes of being given the peer and of the first round after that.
pub open spec fn exchange(
    peer: PeerDescriptionView,
    set_at: u64,
    now: u64,
    id: Seq<u8>,
) -> Seq<Outcome> {
    seq![
        Outcome {
            input: InputView::Command(CommandView::SetPeer(peer)),
            now: set_at,
            transaction_id: id,
        },
        Outcome { input: InputView::NoCommand, now, transaction_id: id },
    ]
}

/// A session that is given an acceptable peer probes its first candidate in the
/// next round.
pub proof fn law_new_peer_is_probed(
    s: SessionView,
    peer: PeerDescriptionView,
    set_at: u64,
    now: u64,
    id: Seq<u8>,
)
    requires
        s.consistent(),
        s.awaiting == AwaitingView::Command,
        peer.sized(),
        peer.remote_error(s.local) is None,
        set_at <= now <= LAST_INSTANT,
        now < set_at + CHECKING_DEADLINE,
        no_request_due(s, now),
    ensures
        runs::can_run(s, exchange(peer, set_at, now, id)),
        ({
            let r = runs::run(s, exchange(peer, set_at, now, id));
            let target = peer.candidates[0].address;
            &&& r.requests == seq![
                RequestView::PollCommand,
                RequestView::Send {
                    datagram: session_model::check_packet(s.local, peer, id),
                    target,
                },
            ]
            &&& r.session.awaiting == (AwaitingView::ProbeSent {
                index: 0,
                transaction_id: id,
                target,
            })
            &&& r.session.tick == now
            &&& r.session.peer == Some(peer)
            &&& r.session.checking_started == Some(set_at)
        }),
{
    let outcomes = exchange(peer, set_at, now, id);
    let first = outcomes.drop_last();
    let one = s.step(outcomes[0].input, set_at, id);
    assert(first =~= seq![outcomes[0]]);
    assert(first.drop_last() =~= Seq::<Outcome>::empty());
    assert(runs::run(s, first.drop_last()).session == s);
    assert(runs::run(s, first).session == one.session);
    assert(outcomes.last() == outcomes[1]);
    reveal(SessionView::command);
    assert(one.session.pending.len() == 0);
    reveal(SessionView::begin_round);
    reveal(SessionView::retransmit);
    reveal(SessionView::check);
    reveal(SessionView::probe);
    assert(runs::can_run(s, first.drop_last()));
    assert(runs::can_run(s, first));
    assert(runs::run(s, first).requests =~= seq![RequestView::PollCommand]);
    assert(runs::run(s, outcomes).requests =~= seq![
        RequestView::PollCommand,
        RequestView::Send {
            datagram: session_model::check_packet(s.local, peer, id),
            target: peer.candidates[0].address,
        },
    ]);
}

/// How one side finds the other: everything up to a probe of the peer, the
/// identifier of the probe, its going out, and everything after that.
pub struct Story {
    pub before: Seq<Outcome>,
    pub probe_id: Seq<u8>,
    pub sent: Outcome,
    pub rest: Seq<Outcome>,
}

impl Story {
    /// The lifetime of the probe.
    pub open spec fn stretch(self) -> Stretch {
        Stretch { from: self.sent.now, heard: self.sent.now }
    }
}

/// The session that has just asked for the probe to be sent.
pub open spec fn probing(s: SessionView, story: Story) -> SessionView {
    runs::run(s, story.before).session
}

/// The session whose probe is on its way.
pub open spec fn looking(s: SessionView, story: Story) -> SessionView {
    probing(s, story).step(story.sent.input, story.sent.now, story.sent.transaction_id).session
}

/// The session at the end of the story.
pub open spec fn settled_with(s: SessionView, story: Story) -> SessionView {
    runs::run(looking(s, story), story.rest).session
}

/// The story can happen. Whatever the session did before, it has been given the
/// peer and probes one of its candidates, so early that the answer can come
/// before the checks end. What follows is ordinary, whoever sends datagrams, and
/// among them is the answer of the peer.
pub open spec fn plays_out(
    s: SessionView,
    peer: PeerDescriptionView,
    source: SocketAddress,
    story: Story,
) -> bool {
    let m = probing(s, story);
    &&& s.consistent()
    &&& apart(s, source)
    &&& address::spec_is_unicast(source)
    &&& path_laws::usable_id(story.probe_id)
    &&& runs::can_run(s, story.before)
    &&& m.peer == Some(peer)
    &&& m.awaiting is ProbeSent
    &&& about_to_use(m, story.probe_id)
    &&& story.sent.input is Sent
    &&& story.sent.transaction_id != story.probe_id
    &&& m.tick <= story.sent.now <= LAST_INSTANT
    &&& story.sent.now + PROBE_LIFETIME <= m.checking_started->0 + CHECKING_DEADLINE
    &&& runs::can_run(looking(s, story), story.rest)
    &&& are_ordinary(story.rest, story.stretch(), story.probe_id)
    &&& arrives(story.rest, source, session_model::check_ok_packet(peer, s.local, story.probe_id))
}

/// A probe that goes out waits for its answer.
proof fn lemma_looking(
    s: SessionView,
    peer: PeerDescriptionView,
    source: SocketAddress,
    story: Story,
)
    requires
        plays_out(s, peer, source, story),
    ensures
        ({
            let t = looking(s, story);
            &&& t.local == s.local
            &&& t.peer == Some(peer)
            &&& t.state == State::Checking
            &&& lasts(t, story.stretch())
            &&& apart(t, source)
            &&& waits(
                t,
                story.probe_id,
                PendingProbe {
                    target: probing(s, story).awaiting->ProbeSent_target,
                    sent_at: story.sent.now,
                    purpose: ProbePurpose::Connectivity,
                },
            )
        }),
{
    let m = probing(s, story);
    let o = story.sent;
    let fresh = o.transaction_id;
    runs::law_run_stays_consistent(s, story.before);
    law_run_stays_apart(s, story.before, source);
    lemma_step_stays_apart(m, o, source);
    session_laws::law_session_stays_consistent(m, o.input, o.now, fresh);
    reveal(SessionView::sent);
    if let AwaitingView::ProbeSent { index, transaction_id, target } = m.awaiting {
        let x = m.add_probe(transaction_id, target, ProbePurpose::Connectivity, o.now);
        lemma_probe_stays(x, index + 1, fresh);
        lemma_stays_waiting(
            x,
            fresh,
            x.probe(index + 1, fresh),
            story.probe_id,
            PendingProbe { target, sent_at: o.now, purpose: ProbePurpose::Connectivity },
        );
    }
}

/// A step after which the fate of a probe is awaited has asked for it to be sent.
proof fn lemma_step_asks(m: SessionView, o: Outcome)
    requires
        m.consistent(),
        m.awaits(o.input),
        o.now <= LAST_INSTANT,
        m.step(o.input, o.now, o.transaction_id).session.awaiting is ProbeSent,
    ensures
        m.step(o.input, o.now, o.transaction_id).request is Send,
{
    match o.input {
        InputView::Command(_) => {
            reveal(SessionView::command);
        },
        InputView::Datagram { .. } => {
            reveal(SessionView::receive);
            reveal(SessionView::receive_stun);
            reveal(SessionView::receive_control);
            reveal(SessionView::receive_check_ok);
        },
        InputView::NoCommand => {
            session_laws::lemma_round(m, o.input, o.now, o.transaction_id);
        },
        InputView::Sent => {
            session_laws::lemma_round(m, o.input, o.now, o.transaction_id);
        },
        InputView::SendFailed(_) => {
            session_laws::lemma_round(m, o.input, o.now, o.transaction_id);
        },
        _ => {},
    }
}

/// The request that led to the probe.
proof fn lemma_asked(
    s: SessionView,
    peer: PeerDescriptionView,
    source: SocketAddress,
    story: Story,
)
    requires
        plays_out(s, peer, source, story),
        story.before.len() > 0,
    ensures
        runs::run(s, story.before).requests.last() == (RequestView::Send {
            datagram: session_model::check_packet(s.local, peer, story.probe_id),
            target: peer.candidates[probing(s, story).awaiting->ProbeSent_index].address,
        }),
{
    let front = story.before.drop_last();
    let o = story.before.last();
    let m = runs::run(s, front).session;
    runs::law_run_stays_consistent(s, front);
    law_run_stays_apart(s, story.before, source);
    lemma_step_asks(m, o);
    session_laws::law_sends_what_it_awaits(m, o.input, o.now, o.transaction_id);
}

/// What one side of a meeting comes to.
pub open spec fn connects(
    s: SessionView,
    peer: PeerDescriptionView,
    source: SocketAddress,
    story: Story,
    peer_probe_id: Seq<u8>,
) -> bool {
    let r = runs::run(looking(s, story), story.rest);
    &&& story.before.len() > 0 ==> runs::run(s, story.before).requests.last() == (
    RequestView::Send {
        datagram: session_model::check_packet(s.local, peer, story.probe_id),
        target: peer.candidates[probing(s, story).awaiting->ProbeSent_index].address,
    })
    &&& forall|j: int|
        0 <= j < story.rest.len() && (#[trigger] story.rest[j]).input == (InputView::Datagram {
            source,
            bytes: session_model::check_packet(peer, s.local, peer_probe_id),
        }) ==> r.requests[j] == (RequestView::Send {
            datagram: session_model::check_ok_packet(s.local, peer, peer_probe_id),
            target: source,
        })
    &&& linked(r.session, s.local, peer, story.sent.now)
    &&& apart(r.session, source)
    &&& found_path(r.session, s.local, peer, story.rest, r.events)
    &&& only_from(story.rest, source) ==> r.session.selected->0.source == source
    &&& only_from(story.rest, source) && peer.candidates == seq![
        Candidate { kind: CandidateKind::Host, address: source },
    ] ==> r.session.selected->0.kind == CandidateKind::Host
}

proof fn lemma_one_side_connects(
    s: SessionView,
    peer: PeerDescriptionView,
    source: SocketAddress,
    story: Story,
    peer_probe_id: Seq<u8>,
)
    requires
        path_laws::usable_id(peer_probe_id),
        plays_out(s, peer, source, story),
    ensures
        connects(s, peer, source, story, peer_probe_id),
{
    let t = looking(s, story);
    let probe = PendingProbe {
        target: probing(s, story).awaiting->ProbeSent_target,
        sent_at: story.sent.now,
        purpose: ProbePurpose::Connectivity,
    };
    lemma_looking(s, peer, source, story);
    if story.before.len() > 0 {
        lemma_asked(s, peer, source, story);
    }
    law_answer_in_time_connects(t, story.rest, story.probe_id, probe, source);
    law_every_probe_is_answered(
        t,
        story.rest,
        story.stretch(),
        story.probe_id,
        source,
        peer_probe_id,
    );
    if peer.candidates == seq![Candidate { kind: CandidateKind::Host, address: source }] {
        assert(peer.candidates[0].address == source);
        protocol_laws::law_kind_for_source(source, peer.candidates);
    }
}

/// Two sessions that are given each other both connect. Each probes the other and
/// answers its probes; where the answer to any one probe of each arrives within
/// the lifetime of that probe, in whatever order, whatever either side does
/// besides and whoever else sends datagrams, both users are told of a connection,
/// along a path on which the other side has answered. Where nobody else sends,
/// that is the path of the answer, with the kind of the candidate.
pub proof fn law_two_sessions_meet(
    a: SessionView,
    b: SessionView,
    a_address: SocketAddress,
    b_address: SocketAddress,
    a_story: Story,
    b_story: Story,
)
    requires
        plays_out(a, b.local, b_address, a_story),
        plays_out(b, a.local, a_address, b_story),
    ensures
        connects(a, b.local, b_address, a_story, b_story.probe_id),
        connects(b, a.local, a_address, b_story, a_story.probe_id),
{
    lemma_one_side_connects(a, b.local, b_address, a_story, b_story.probe_id);
    lemma_one_side_connects(b, a.local, a_address, b_story, a_story.probe_id);
}

/// How a ping goes: when it is asked for, its identifier, its going out, and
/// everything after that.
pub struct Ping {
    pub asked_at: u64,
    pub id: Seq<u8>,
    pub sent: Outcome,
    pub rest: Seq<Outcome>,
}

/// The session that has sent the ping.
pub open spec fn pinging(s: SessionView, ping: Ping) -> SessionView {
    s.step(InputView::Command(CommandView::Ping), ping.asked_at, ping.id).session.step(
        ping.sent.input,
        ping.sent.now,
        ping.sent.transaction_id,
    ).session
}

/// The ping can be made on a path that was heard of at the given time: it goes
/// out while the path lasts, what follows is ordinary, whoever sends datagrams,
/// and the answer arrives. The path leads to no STUN server.
pub open spec fn ping_plays_out(
    s: SessionView,
    peer: PeerDescriptionView,
    heard: u64,
    ping: Ping,
) -> bool {
    let w = Stretch { from: ping.sent.now, heard };
    let source = s.selected->0.source;
    &&& s.awaiting == AwaitingView::Command
    &&& apart(s, source)
    &&& ping.sent.input is Sent
    &&& s.tick <= ping.sent.now <= LAST_INSTANT
    &&& ping.asked_at <= LAST_INSTANT
    &&& w.proper()
    &&& path_laws::usable_id(ping.id)
    &&& runs::can_run(pinging(s, ping), ping.rest)
    &&& are_ordinary(ping.rest, w, ping.id)
    &&& arrives(ping.rest, source, session_model::check_ok_packet(peer, s.local, ping.id))
}

/// A connected session that pings sends a probe along its path, and gives the
/// result once the answer arrives.
pub proof fn law_ping_gives_a_result(
    s: SessionView,
    local: PeerDescriptionView,
    peer: PeerDescriptionView,
    heard: u64,
    ping: Ping,
)
    requires
        linked(s, local, peer, heard),
        ping_plays_out(s, peer, heard, ping),
    ensures
        s.step(InputView::Command(CommandView::Ping), ping.asked_at, ping.id).request == (
        RequestView::Send {
            datagram: session_model::check_packet(local, peer, ping.id),
            target: s.selected->0.source,
        }),
        tells_ping(runs::run(pinging(s, ping), ping.rest).events),
{
    let command = InputView::Command(CommandView::Ping);
    let o = ping.sent;
    let one = s.step(command, ping.asked_at, ping.id).session;
    let source = s.selected->0.source;
    let probe = PendingProbe {
        target: source,
        sent_at: o.now,
        purpose: ProbePurpose::ManualPing,
    };
    session_laws::law_session_stays_consistent(s, command, ping.asked_at, ping.id);
    reveal(SessionView::command);
    session_laws::law_session_stays_consistent(one, o.input, o.now, o.transaction_id);
    reveal(SessionView::sent);
    law_answered_ping_gives_a_result(
        pinging(s, ping),
        ping.rest,
        Stretch { from: o.now, heard },
        ping.id,
        probe,
        source,
    );
}

/// From the exchange of descriptions to the result of a ping: two sessions that
/// are given each other both connect, and a ping of the first along its path
/// gives a result once it is answered.
pub proof fn law_two_sessions_meet_and_ping(
    a: SessionView,
    b: SessionView,
    a_address: SocketAddress,
    b_address: SocketAddress,
    a_story: Story,
    b_story: Story,
    ping: Ping,
)
    requires
        plays_out(a, b.local, b_address, a_story),
        plays_out(b, a.local, a_address, b_story),
        ping_plays_out(settled_with(a, a_story), b.local, a_story.sent.now, ping),
    ensures
        connects(a, b.local, b_address, a_story, b_story.probe_id),
        connects(b, a.local, a_address, b_story, a_story.probe_id),
        ({
            let met = settled_with(a, a_story);
            &&& met.step(
                InputView::Command(CommandView::Ping),
                ping.asked_at,
                ping.id,
            ).request == (RequestView::Send {
                datagram: session_model::check_packet(a.local, b.local, ping.id),
                target: met.selected->0.source,
            })
            &&& tells_ping(runs::run(pinging(met, ping), ping.rest).events)
        }),
{
    law_two_sessions_meet(a, b, a_address, b_address, a_story, b_story);
    law_ping_gives_a_result(
        settled_with(a, a_story),
        a.local,
        b.local,
        a_story.sent.now,
        ping,
    );
}

} // verus!
