//! The session: one UDP socket, one peer, and the checks that look for a direct
//! path to it.
//!
//! A `Session` performs no I/O. It hands out requests, and each outcome of a
//! request is given back to it together with the time. Times are nanoseconds
//! from a fixed origin.

use crate::address::{is_unicast, SocketAddress};
use crate::bytes;
use crate::pending::{elapsed, PendingProbe, PendingProbes, ProbePurpose};
use crate::protocol::{
    candidate_kind_for_source, decode_control, encode_control, random_transaction_id,
    CandidateKind, ControlPacket, PacketKind, PeerDescription, TransactionId,
};
use crate::session_laws;
use crate::session_model;
use crate::session_model::{
    AwaitingView, CommandView, EventView, InputView, PendingStunView, ReceiveFaultView,
    RequestView, SelectedPathView, SessionView, StepView,
};
use crate::stun::{build_binding_request, parse_binding_response, BindingResponse};
use crate::text::decimal_text;
use vstd::prelude::*;
use vstd::string::StringExecFns;

verus! {

pub const SECOND: u64 = 1_000_000_000;

/// How long one attempt to receive may take.
pub const TICK: u64 = 50_000_000;

/// The NAT mapping is refreshed at this interval.
pub const STUN_KEEPALIVE: u64 = 15_000_000_000;

/// A STUN request is repeated after this time at first.
pub const STUN_RETRY: u64 = 500_000_000;

/// All candidates are probed at this interval.
pub const PROBE_INTERVAL: u64 = 500_000_000;

/// Progress is reported at this interval.
pub const PROGRESS_INTERVAL: u64 = 5_000_000_000;

/// The checks are given up after this time.
pub const CHECKING_DEADLINE: u64 = 30_000_000_000;

/// A selected path is asked for a sign of life at this interval.
pub const CONSENT_INTERVAL: u64 = 5_000_000_000;

/// A selected path is left after this time of silence.
pub const CONSENT_TIMEOUT: u64 = 15_000_000_000;

/// No connectivity probe is sent while this many probes wait for an answer.
pub const MAX_PENDING: usize = 256;

/// The last time that can be given to a session: every deadline that follows
/// from it can still be counted.
pub const LAST_INSTANT: u64 = 0xffff_fff0_0000_0000;

// ---------------------------------------------------------------------------
// What the user sees
// ---------------------------------------------------------------------------

/// What a session is made of.
#[derive(Clone, Debug)]
pub struct NetworkConfig {
    pub local: PeerDescription,
    pub public_address: SocketAddress,
    pub stun_servers: Vec<SocketAddress>,
}

/// What the user can ask of a session.
#[derive(Debug)]
pub enum Command {
    SetPeer(PeerDescription),
    ClearPeer,
    Retry,
    Ping,
    Status,
    Shutdown,
}

impl View for Command {
    type V = CommandView;

    open spec fn view(&self) -> CommandView {
        match self {
            Command::SetPeer(peer) => CommandView::SetPeer(peer@),
            Command::ClearPeer => CommandView::ClearPeer,
            Command::Retry => CommandView::Retry,
            Command::Ping => CommandView::Ping,
            Command::Status => CommandView::Status,
            Command::Shutdown => CommandView::Shutdown,
        }
    }
}

/// What a session has counted.
#[derive(Clone, Copy, Debug, PartialEq, Eq, Structural)]
pub struct Stats {
    pub probes_sent: u64,
    pub datagrams_received: u64,
    pub authenticated: u64,
    pub invalid: u64,
    /// The round-trip time of the probe that selected the path.
    pub selected_rtt: Option<u64>,
}

impl Default for Stats {
    fn default() -> (stats: Stats)
        ensures
            stats == session_model::no_stats(),
    {
        Stats {
            probes_sent: 0,
            datagrams_received: 0,
            authenticated: 0,
            invalid: 0,
            selected_rtt: None,
        }
    }
}

/// What a session tells the user.
#[derive(Debug, PartialEq, Eq)]
pub enum Event {
    Info(String),
    MappingChanged { address: SocketAddress },
    CheckingStarted { candidates: usize },
    Progress { elapsed: u64, stats: Stats },
    Connected { source: SocketAddress, kind: CandidateKind, rtt: u64 },
    PingResult(u64),
    Disconnected { reason: String, stats: Stats },
    Failed { stats: Stats },
    Status {
        state: &'static str,
        peer: Option<SocketAddress>,
        kind: Option<CandidateKind>,
        stats: Stats,
    },
    Fatal(String),
}

impl View for Event {
    type V = EventView;

    open spec fn view(&self) -> EventView {
        match self {
            Event::Info(message) => EventView::Info(message@),
            Event::MappingChanged { address } => EventView::MappingChanged { address: *address },
            Event::CheckingStarted { candidates } => EventView::CheckingStarted {
                candidates: *candidates as nat,
            },
            Event::Progress { elapsed, stats } => EventView::Progress {
                elapsed: *elapsed,
                stats: *stats,
            },
            Event::Connected { source, kind, rtt } => EventView::Connected {
                source: *source,
                kind: *kind,
                rtt: *rtt,
            },
            Event::PingResult(rtt) => EventView::PingResult(*rtt),
            Event::Disconnected { reason, stats } => EventView::Disconnected {
                reason: reason@,
                stats: *stats,
            },
            Event::Failed { stats } => EventView::Failed { stats: *stats },
            Event::Status { state, peer, kind, stats } => EventView::Status {
                state: state@,
                peer: *peer,
                kind: *kind,
                stats: *stats,
            },
            Event::Fatal(message) => EventView::Fatal(message@),
        }
    }
}

/// Where a session stands.
#[derive(Clone, Copy, Debug, PartialEq, Eq, Structural)]
pub enum State {
    Waiting,
    Checking,
    Connected,
    Failed,
}

impl State {
    pub open spec fn spec_label(self) -> Seq<char> {
        match self {
            State::Waiting => "waiting"@,
            State::Checking => "checking"@,
            State::Connected => "connected"@,
            State::Failed => "failed"@,
        }
    }

    /// The name of the state.
    pub fn label(self) -> (s: &'static str)
        ensures
            s@ == self.spec_label(),
    {
        match self {
            State::Waiting => "waiting",
            State::Checking => "checking",
            State::Connected => "connected",
            State::Failed => "failed",
        }
    }
}

// ---------------------------------------------------------------------------
// Requests and their outcomes
// ---------------------------------------------------------------------------

/// Why no datagram was received.
#[derive(Debug, PartialEq, Eq)]
pub enum ReceiveFault {
    WouldBlock,
    TimedOut,
    ConnectionReset,
    ConnectionRefused,
    Other(String),
}

impl View for ReceiveFault {
    type V = ReceiveFaultView;

    open spec fn view(&self) -> ReceiveFaultView {
        match self {
            ReceiveFault::WouldBlock => ReceiveFaultView::WouldBlock,
            ReceiveFault::TimedOut => ReceiveFaultView::TimedOut,
            ReceiveFault::ConnectionReset => ReceiveFaultView::ConnectionReset,
            ReceiveFault::ConnectionRefused => ReceiveFaultView::ConnectionRefused,
            ReceiveFault::Other(error) => ReceiveFaultView::Other(error@),
        }
    }
}

/// The outcome of a request.
#[derive(Debug)]
pub enum Input {
    Configured,
    ConfigureFailed(String),
    Command(Command),
    NoCommand,
    Disconnected,
    Sent,
    SendFailed(String),
    Datagram { source: SocketAddress, bytes: Vec<u8> },
    ReceiveFailed(ReceiveFault),
}

impl View for Input {
    type V = InputView;

    open spec fn view(&self) -> InputView {
        match self {
            Input::Configured => InputView::Configured,
            Input::ConfigureFailed(error) => InputView::ConfigureFailed(error@),
            Input::Command(command) => InputView::Command(command@),
            Input::NoCommand => InputView::NoCommand,
            Input::Disconnected => InputView::Disconnected,
            Input::Sent => InputView::Sent,
            Input::SendFailed(error) => InputView::SendFailed(error@),
            Input::Datagram { source, bytes } => InputView::Datagram {
                source: *source,
                bytes: bytes@,
            },
            Input::ReceiveFailed(fault) => InputView::ReceiveFailed(fault@),
        }
    }
}

/// What a session wants done.
#[derive(Debug, PartialEq, Eq)]
pub enum Request {
    /// Limit the time of each attempt to receive.
    Configure { read_timeout: u64 },
    /// See whether the user has given a command.
    PollCommand,
    Send { datagram: Vec<u8>, target: SocketAddress },
    Receive,
    /// End the session.
    Stop,
}

impl View for Request {
    type V = RequestView;

    open spec fn view(&self) -> RequestView {
        match self {
            Request::Configure { read_timeout } => RequestView::Configure {
                read_timeout: *read_timeout,
            },
            Request::PollCommand => RequestView::PollCommand,
            Request::Send { datagram, target } => RequestView::Send {
                datagram: datagram@,
                target: *target,
            },
            Request::Receive => RequestView::Receive,
            Request::Stop => RequestView::Stop,
        }
    }
}

/// The mathematical form of a list of events.
pub open spec fn event_views(events: Seq<Event>) -> Seq<EventView> {
    Seq::new(events.len(), |i: int| events[i]@)
}

/// What comes of one outcome: first the events, then the request.
#[derive(Debug, PartialEq, Eq)]
pub struct Output {
    pub events: Vec<Event>,
    pub request: Request,
}

/// Events in the order in which they came about.
struct EventLog {
    events: Vec<Event>,
}

impl View for EventLog {
    type V = Seq<EventView>;

    closed spec fn view(&self) -> Seq<EventView> {
        event_views(self.events@)
    }
}

impl EventLog {
    fn emit(&mut self, event: Event)
        ensures
            final(self)@ == old(self)@.push(event@),
    {
        self.events.push(event);
        assert(self@ =~= old(self)@.push(event@));
    }
}

// ---------------------------------------------------------------------------
// The session
// ---------------------------------------------------------------------------

#[derive(Clone, Copy, Debug)]
enum Awaiting {
    Configured,
    Command,
    PingSent { transaction_id: TransactionId, target: SocketAddress },
    KeepaliveSent { transaction_id: TransactionId, server: SocketAddress },
    RetransmitSent,
    ProbeSent { index: usize, transaction_id: TransactionId, target: SocketAddress },
    ConsentSent { transaction_id: TransactionId, target: SocketAddress },
    Datagram,
    ReplySent,
    Stopped,
}

impl View for Awaiting {
    type V = AwaitingView;

    closed spec fn view(&self) -> AwaitingView {
        match self {
            Awaiting::Configured => AwaitingView::Configured,
            Awaiting::Command => AwaitingView::Command,
            Awaiting::PingSent { transaction_id, target } => AwaitingView::PingSent {
                transaction_id: transaction_id@,
                target: *target,
            },
            Awaiting::KeepaliveSent { transaction_id, server } => AwaitingView::KeepaliveSent {
                transaction_id: transaction_id@,
                server: *server,
            },
            Awaiting::RetransmitSent => AwaitingView::RetransmitSent,
            Awaiting::ProbeSent { index, transaction_id, target } => AwaitingView::ProbeSent {
                index: *index as int,
                transaction_id: transaction_id@,
                target: *target,
            },
            Awaiting::ConsentSent { transaction_id, target } => AwaitingView::ConsentSent {
                transaction_id: transaction_id@,
                target: *target,
            },
            Awaiting::Datagram => AwaitingView::Datagram,
            Awaiting::ReplySent => AwaitingView::ReplySent,
            Awaiting::Stopped => AwaitingView::Stopped,
        }
    }
}

#[derive(Clone, Copy, Debug)]
struct PendingStun {
    server: SocketAddress,
    transaction_id: TransactionId,
    sent_at: u64,
    deadline: u64,
    attempt: u8,
}

impl View for PendingStun {
    type V = PendingStunView;

    closed spec fn view(&self) -> PendingStunView {
        PendingStunView {
            server: self.server,
            transaction_id: self.transaction_id@,
            sent_at: self.sent_at,
            deadline: self.deadline,
            attempt: self.attempt,
        }
    }
}

#[derive(Clone, Copy, Debug)]
struct SelectedPath {
    source: SocketAddress,
    kind: CandidateKind,
    last_success: u64,
    consent_pending: Option<TransactionId>,
}

impl View for SelectedPath {
    type V = SelectedPathView;

    closed spec fn view(&self) -> SelectedPathView {
        SelectedPathView {
            source: self.source,
            kind: self.kind,
            last_success: self.last_success,
            consent_pending: option_view(self.consent_pending),
        }
    }
}

/// The mathematical form of an optional value.
pub open spec fn option_view<T: View>(o: Option<T>) -> Option<T::V> {
    match o {
        Some(x) => Some(x@),
        None => None,
    }
}

/// A session and all that it remembers.
pub struct Session {
    local: PeerDescription,
    public_address: SocketAddress,
    stun_servers: Vec<SocketAddress>,
    peer: Option<PeerDescription>,
    state: State,
    stats: Stats,
    pending: PendingProbes,
    selected: Option<SelectedPath>,
    checking_started: Option<u64>,
    next_probe: u64,
    next_progress: u64,
    next_stun: u64,
    pending_stun: Option<PendingStun>,
    stun_index: usize,
    tick: u64,
    awaiting: Awaiting,
}

impl View for Session {
    type V = SessionView;

    closed spec fn view(&self) -> SessionView {
        SessionView {
            local: self.local@,
            public_address: self.public_address,
            stun_servers: self.stun_servers@,
            peer: option_view(self.peer),
            state: self.state,
            stats: self.stats,
            pending: self.pending@,
            selected: option_view(self.selected),
            checking_started: self.checking_started,
            next_probe: self.next_probe,
            next_progress: self.next_progress,
            next_stun: self.next_stun,
            pending_stun: option_view(self.pending_stun),
            stun_index: self.stun_index,
            tick: self.tick,
            awaiting: self.awaiting@,
        }
    }
}

/// A step was taken: the session, the request and the log are as it says.
spec fn took(
    step: StepView,
    session: SessionView,
    request: RequestView,
    log_before: Seq<EventView>,
    log_after: Seq<EventView>,
) -> bool {
    &&& session == step.session
    &&& request == step.request
    &&& log_after =~= log_before + step.events
}

fn counted(n: u64) -> (r: u64)
    ensures
        r == session_model::counted(n),
{
    if n < u64::MAX {
        n + 1
    } else {
        n
    }
}

fn labelled(label: &str, rest: &str) -> (s: String)
    ensures
        s@ == label@ + rest@,
{
    let mut s: String = label.to_owned();
    s.append(rest);
    s
}

fn check_packet(
    local: &PeerDescription,
    remote: &PeerDescription,
    transaction_id: TransactionId,
) -> (datagram: Vec<u8>)
    ensures
        datagram@ == session_model::check_packet(local@, remote@, transaction_id@),
{
    let packet: ControlPacket = ControlPacket {
        kind: PacketKind::Check,
        source_session: local.session_id,
        destination_session: remote.session_id,
        transaction_id,
    };
    packet_bytes(packet, local)
}

fn check_ok_packet(
    local: &PeerDescription,
    remote: &PeerDescription,
    transaction_id: TransactionId,
) -> (datagram: Vec<u8>)
    ensures
        datagram@ == session_model::check_ok_packet(local@, remote@, transaction_id@),
{
    let packet: ControlPacket = ControlPacket {
        kind: PacketKind::CheckOk,
        source_session: local.session_id,
        destination_session: remote.session_id,
        transaction_id,
    };
    packet_bytes(packet, local)
}

fn packet_bytes(packet: ControlPacket, local: &PeerDescription) -> (datagram: Vec<u8>)
    ensures
        datagram@ == crate::protocol::control_bytes(packet@, local@.key),
{
    let mut datagram: Vec<u8> = Vec::new();
    datagram.extend_from_slice(encode_control(packet, &local.key).as_slice());
    assert(datagram@ =~= crate::protocol::control_bytes(packet@, local@.key));
    datagram
}

fn stun_request(transaction_id: TransactionId) -> (datagram: Vec<u8>)
    ensures
        datagram@ == crate::stun::binding_request(transaction_id@),
{
    let mut datagram: Vec<u8> = Vec::new();
    datagram.extend_from_slice(build_binding_request(transaction_id).as_slice());
    assert(datagram@ =~= crate::stun::binding_request(transaction_id@));
    datagram
}

impl Session {
    /// The probes that wait have distinct identifiers.
    pub closed spec fn wf(&self) -> bool {
        self.pending.wf()
    }

    // -----------------------------------------------------------------------
    // Small changes
    // -----------------------------------------------------------------------

    fn poll(&mut self) -> (request: Request)
        requires
            old(self).wf(),
        ensures
            final(self).wf(),
            final(self)@ == old(self)@.poll().session,
            request@ == old(self)@.poll().request,
    {
        self.awaiting = Awaiting::Command;
        Request::PollCommand
    }

    fn stop(&mut self) -> (request: Request)
        requires
            old(self).wf(),
        ensures
            final(self).wf(),
            final(self)@ == old(self)@.stop().session,
            request@ == old(self)@.stop().request,
    {
        self.awaiting = Awaiting::Stopped;
        Request::Stop
    }

    fn count_invalid(&mut self)
        requires
            old(self).wf(),
        ensures
            final(self).wf(),
            final(self)@ == old(self)@.count_invalid(),
    {
        self.stats = Stats { invalid: counted(self.stats.invalid), ..self.stats };
    }

    fn add_probe(
        &mut self,
        transaction_id: TransactionId,
        target: SocketAddress,
        purpose: ProbePurpose,
        now: u64,
    )
        requires
            old(self).wf(),
        ensures
            final(self).wf(),
            final(self)@ == old(self)@.add_probe(transaction_id@, target, purpose, now),
    {
        self.pending.insert(transaction_id, PendingProbe { target, sent_at: now, purpose });
        self.stats = Stats { probes_sent: counted(self.stats.probes_sent), ..self.stats };
    }

    // -----------------------------------------------------------------------
    // Timers
    // -----------------------------------------------------------------------

    fn expire(&mut self)
        requires
            old(self).wf(),
        ensures
            final(self).wf(),
            final(self)@ == old(self)@.expire(),
    {
        self.pending.retain_recent(self.tick);
        if let Some(path) = self.selected {
            if let Some(id) = path.consent_pending {
                if self.pending.get(&id).is_none() {
                    self.selected = Some(SelectedPath { consent_pending: None, ..path });
                }
            }
        }
    }

    fn end_round(&mut self) -> (request: Request)
        requires
            old(self).wf(),
        ensures
            final(self).wf(),
            final(self)@ == old(self)@.end_round().session,
            request@ == old(self)@.end_round().request,
    {
        self.expire();
        self.awaiting = Awaiting::Datagram;
        Request::Receive
    }

    fn consent(&mut self, transaction_id: TransactionId, log: &mut EventLog) -> (request: Request)
        requires
            old(self).wf(),
        ensures
            final(self).wf(),
            took(
                old(self)@.consent(transaction_id@),
                final(self)@,
                request@,
                old(log)@,
                final(log)@,
            ),
    {
        proof {
            reveal(SessionView::consent);
        }
        let path: SelectedPath = match self.selected {
            Some(path) => path,
            None => {
                return self.end_round();
            },
        };
        if self.state != State::Connected {
            return self.end_round();
        }
        let silence: u64 = elapsed(self.tick, path.last_success);
        if silence >= CONSENT_TIMEOUT {
            self.state = State::Checking;
            self.checking_started = Some(self.tick);
            self.selected = None;
            self.pending = PendingProbes::new();
            self.next_probe = self.tick;
            log.emit(
                Event::Disconnected {
                    reason: "consent checks не получили ответа 15 секунд".to_owned(),
                    stats: self.stats,
                },
            );
            return self.end_round();
        }
        if path.consent_pending.is_none() && silence >= CONSENT_INTERVAL {
            if let Some(remote) = &self.peer {
                let datagram: Vec<u8> = check_packet(&self.local, remote, transaction_id);
                self.awaiting = Awaiting::ConsentSent { transaction_id, target: path.source };
                return Request::Send { datagram, target: path.source };
            }
        }
        self.end_round()
    }

    fn progress(&mut self, transaction_id: TransactionId, log: &mut EventLog) -> (request: Request)
        requires
            old(self).wf(),
            old(self)@.tick <= LAST_INSTANT,
        ensures
            final(self).wf(),
            took(
                old(self)@.progress(transaction_id@),
                final(self)@,
                request@,
                old(log)@,
                final(log)@,
            ),
    {
        proof {
            reveal(SessionView::progress);
        }
        if self.tick >= self.next_progress {
            let time: u64 = match self.checking_started {
                Some(started) => elapsed(self.tick, started),
                None => 0,
            };
            log.emit(Event::Progress { elapsed: time, stats: self.stats });
            self.next_progress = self.tick + PROGRESS_INTERVAL;
        }
        self.consent(transaction_id, log)
    }

    fn probe(
        &mut self,
        index: usize,
        transaction_id: TransactionId,
        log: &mut EventLog,
    ) -> (request: Request)
        requires
            old(self).wf(),
            old(self)@.tick <= LAST_INSTANT,
        ensures
            final(self).wf(),
            took(
                old(self)@.probe(index as int, transaction_id@),
                final(self)@,
                request@,
                old(log)@,
                final(log)@,
            ),
    {
        proof {
            reveal(SessionView::probe);
        }
        if let Some(remote) = &self.peer {
            if index < remote.candidates.len() && self.pending.len() < MAX_PENDING {
                let target: SocketAddress = remote.candidates[index].address;
                let datagram: Vec<u8> = check_packet(&self.local, remote, transaction_id);
                self.awaiting = Awaiting::ProbeSent { index, transaction_id, target };
                return Request::Send { datagram, target };
            }
        }
        self.next_probe = self.tick + PROBE_INTERVAL;
        self.progress(transaction_id, log)
    }

    fn check(&mut self, transaction_id: TransactionId, log: &mut EventLog) -> (request: Request)
        requires
            old(self).wf(),
            old(self)@.tick <= LAST_INSTANT,
        ensures
            final(self).wf(),
            took(
                old(self)@.check(transaction_id@),
                final(self)@,
                request@,
                old(log)@,
                final(log)@,
            ),
    {
        proof {
            reveal(SessionView::check);
        }
        if self.state != State::Checking {
            return self.consent(transaction_id, log);
        }
        let over: bool = match self.checking_started {
            Some(started) => elapsed(self.tick, started) >= CHECKING_DEADLINE,
            None => false,
        };
        if over {
            self.state = State::Failed;
            log.emit(Event::Failed { stats: self.stats });
            self.progress(transaction_id, log)
        } else if self.tick >= self.next_probe {
            self.probe(0, transaction_id, log)
        } else {
            self.progress(transaction_id, log)
        }
    }

    fn retransmit(
        &mut self,
        transaction_id: TransactionId,
        log: &mut EventLog,
    ) -> (request: Request)
        requires
            old(self).wf(),
            old(self)@.tick <= LAST_INSTANT,
        ensures
            final(self).wf(),
            took(
                old(self)@.retransmit(transaction_id@),
                final(self)@,
                request@,
                old(log)@,
                final(log)@,
            ),
    {
        proof {
            reveal(SessionView::retransmit);
        }
        if let Some(t) = self.pending_stun {
            if self.tick >= t.deadline {
                if t.attempt < 2 {
                    self.awaiting = Awaiting::RetransmitSent;
                    return Request::Send {
                        datagram: stun_request(t.transaction_id),
                        target: t.server,
                    };
                }
                self.pending_stun = None;
            }
        }
        self.check(transaction_id, log)
    }

    fn begin_round(
        &mut self,
        now: u64,
        transaction_id: TransactionId,
        log: &mut EventLog,
    ) -> (request: Request)
        requires
            old(self).wf(),
            now <= LAST_INSTANT,
        ensures
            final(self).wf(),
            took(
                old(self)@.begin_round(now, transaction_id@),
                final(self)@,
                request@,
                old(log)@,
                final(log)@,
            ),
    {
        proof {
            reveal(SessionView::begin_round);
        }
        self.tick = now;
        if now >= self.next_stun && self.pending_stun.is_none() && self.stun_servers.len() > 0 {
            let server: SocketAddress =
                self.stun_servers[self.stun_index % self.stun_servers.len()];
            self.stun_index = if self.stun_index < usize::MAX {
                self.stun_index + 1
            } else {
                0
            };
            self.awaiting = Awaiting::KeepaliveSent { transaction_id, server };
            return Request::Send { datagram: stun_request(transaction_id), target: server };
        }
        self.retransmit(transaction_id, log)
    }

    // -----------------------------------------------------------------------
    // Commands
    // -----------------------------------------------------------------------

    fn set_peer(&mut self, peer: PeerDescription, now: u64, log: &mut EventLog) -> (request:
        Request)
        requires
            old(self).wf(),
            now <= LAST_INSTANT,
        ensures
            final(self).wf(),
            took(
                old(self)@.set_peer(peer@, now),
                final(self)@,
                request@,
                old(log)@,
                final(log)@,
            ),
    {
        match peer.validate_remote(&self.local) {
            Err(e) => {
                log.emit(Event::Info(labelled("КОД ОТКЛОНЁН: ", e.message().as_str())));
            },
            Ok(_) => {
                let candidates: usize = peer.candidates.len();
                self.peer = Some(peer);
                self.pending = PendingProbes::new();
                self.selected = None;
                self.stats = Stats::default();
                self.state = State::Checking;
                self.checking_started = Some(now);
                self.next_probe = now;
                self.next_progress = now + PROGRESS_INTERVAL;
                log.emit(Event::CheckingStarted { candidates });
            },
        }
        self.poll()
    }

    fn clear_peer(&mut self, log: &mut EventLog) -> (request: Request)
        requires
            old(self).wf(),
        ensures
            final(self).wf(),
            took(old(self)@.clear_peer(), final(self)@, request@, old(log)@, final(log)@),
    {
        self.peer = None;
        self.pending = PendingProbes::new();
        self.selected = None;
        self.state = State::Waiting;
        self.checking_started = None;
        log.emit(Event::Info("Ожидаю новый session code второй машины.".to_owned()));
        self.poll()
    }

    fn retry(&mut self, now: u64, log: &mut EventLog) -> (request: Request)
        requires
            old(self).wf(),
        ensures
            final(self).wf(),
            took(old(self)@.retry(now), final(self)@, request@, old(log)@, final(log)@),
    {
        if self.peer.is_some() {
            self.pending = PendingProbes::new();
            self.selected = None;
            self.state = State::Checking;
            self.checking_started = Some(now);
            self.next_probe = now;
            self.stats = Stats::default();
            log.emit(Event::Info("Повторяю candidate checks.".to_owned()));
        } else {
            log.emit(Event::Info("Сначала вставьте session code второй машины.".to_owned()));
        }
        self.poll()
    }

    fn ping(&mut self, transaction_id: TransactionId, log: &mut EventLog) -> (request: Request)
        requires
            old(self).wf(),
        ensures
            final(self).wf(),
            took(
                old(self)@.ping(transaction_id@),
                final(self)@,
                request@,
                old(log)@,
                final(log)@,
            ),
    {
        match self.selected {
            None => {
                log.emit(
                    Event::Info("/ping доступен после подтверждённого round-trip.".to_owned()),
                );
            },
            Some(path) => {
                if let Some(remote) = &self.peer {
                    let datagram: Vec<u8> = check_packet(&self.local, remote, transaction_id);
                    self.awaiting = Awaiting::PingSent { transaction_id, target: path.source };
                    return Request::Send { datagram, target: path.source };
                }
            },
        }
        self.poll()
    }

    fn status(&mut self, log: &mut EventLog) -> (request: Request)
        requires
            old(self).wf(),
        ensures
            final(self).wf(),
            took(old(self)@.status(), final(self)@, request@, old(log)@, final(log)@),
    {
        let peer: Option<SocketAddress> = match self.selected {
            Some(path) => Some(path.source),
            None => None,
        };
        let kind: Option<CandidateKind> = match self.selected {
            Some(path) => Some(path.kind),
            None => None,
        };
        log.emit(Event::Status { state: self.state.label(), peer, kind, stats: self.stats });
        self.poll()
    }

    fn command(
        &mut self,
        command: Command,
        now: u64,
        transaction_id: TransactionId,
        log: &mut EventLog,
    ) -> (request: Request)
        requires
            old(self).wf(),
            now <= LAST_INSTANT,
        ensures
            final(self).wf(),
            took(
                old(self)@.command(command@, now, transaction_id@),
                final(self)@,
                request@,
                old(log)@,
                final(log)@,
            ),
    {
        proof {
            reveal(SessionView::command);
        }
        match command {
            Command::SetPeer(peer) => self.set_peer(peer, now, log),
            Command::ClearPeer => self.clear_peer(log),
            Command::Retry => self.retry(now, log),
            Command::Ping => self.ping(transaction_id, log),
            Command::Status => self.status(log),
            Command::Shutdown => self.stop(),
        }
    }

    // -----------------------------------------------------------------------
    // Outcomes of sending
    // -----------------------------------------------------------------------

    fn keepalive_sent(&mut self, server: SocketAddress, transaction_id: TransactionId)
        requires
            old(self).wf(),
            old(self)@.tick <= LAST_INSTANT,
        ensures
            final(self).wf(),
            final(self)@ == old(self)@.keepalive_sent(server, transaction_id@),
    {
        self.pending_stun = Some(
            PendingStun {
                server,
                transaction_id,
                sent_at: self.tick,
                deadline: self.tick + STUN_RETRY,
                attempt: 0,
            },
        );
    }

    fn retransmit_sent(&mut self)
        requires
            old(self).wf(),
            old(self)@.tick <= LAST_INSTANT,
            old(self)@.pending_stun matches Some(t) ==> t.attempt < 2,
        ensures
            final(self).wf(),
            final(self)@ == old(self)@.retransmit_sent(),
    {
        if let Some(t) = self.pending_stun {
            let wait: u64 = if t.attempt == 0 {
                SECOND
            } else {
                2 * SECOND
            };
            self.pending_stun = Some(
                PendingStun { deadline: self.tick + wait, attempt: t.attempt + 1, ..t },
            );
        }
    }

    fn consent_sent(&mut self, transaction_id: TransactionId)
        requires
            old(self).wf(),
        ensures
            final(self).wf(),
            final(self)@ == old(self)@.consent_sent(transaction_id@),
    {
        if let Some(path) = self.selected {
            self.selected = Some(SelectedPath { consent_pending: Some(transaction_id), ..path });
        }
    }

    fn sent(&mut self, now: u64, fresh_id: TransactionId, log: &mut EventLog) -> (request: Request)
        requires
            old(self).wf(),
            old(self)@.consistent(),
            now <= LAST_INSTANT,
        ensures
            final(self).wf(),
            took(
                old(self)@.sent(now, fresh_id@),
                final(self)@,
                request@,
                old(log)@,
                final(log)@,
            ),
    {
        proof {
            reveal(SessionView::sent);
        }
        match self.awaiting {
            Awaiting::PingSent { transaction_id, target } => {
                self.add_probe(transaction_id, target, ProbePurpose::ManualPing, now);
                self.poll()
            },
            Awaiting::KeepaliveSent { transaction_id, server } => {
                self.keepalive_sent(server, transaction_id);
                self.next_stun = self.tick + STUN_KEEPALIVE;
                self.retransmit(fresh_id, log)
            },
            Awaiting::RetransmitSent => {
                self.retransmit_sent();
                self.check(fresh_id, log)
            },
            Awaiting::ProbeSent { index, transaction_id, target } => {
                assert(index < usize::MAX) by {
                    assert(self.peer->0.candidates@.len() == self.peer->0.candidates.len());
                }
                self.add_probe(transaction_id, target, ProbePurpose::Connectivity, now);
                self.probe(index + 1, fresh_id, log)
            },
            Awaiting::ConsentSent { transaction_id, target } => {
                self.add_probe(transaction_id, target, ProbePurpose::Consent, now);
                self.consent_sent(transaction_id);
                self.end_round()
            },
            _ => self.poll(),
        }
    }

    fn send_failed(
        &mut self,
        error: String,
        fresh_id: TransactionId,
        log: &mut EventLog,
    ) -> (request: Request)
        requires
            old(self).wf(),
            old(self)@.consistent(),
        ensures
            final(self).wf(),
            took(
                old(self)@.send_failed(error@, fresh_id@),
                final(self)@,
                request@,
                old(log)@,
                final(log)@,
            ),
    {
        proof {
            reveal(SessionView::send_failed);
        }
        match self.awaiting {
            Awaiting::KeepaliveSent { .. } => {
                log.emit(Event::Info(labelled("STUN keepalive send error: ", error.as_str())));
                self.next_stun = self.tick + STUN_KEEPALIVE;
                self.retransmit(fresh_id, log)
            },
            Awaiting::RetransmitSent => self.check(fresh_id, log),
            Awaiting::ProbeSent { index, .. } => {
                assert(index < usize::MAX) by {
                    assert(self.peer->0.candidates@.len() == self.peer->0.candidates.len());
                }
                self.probe(index + 1, fresh_id, log)
            },
            Awaiting::ConsentSent { .. } => self.end_round(),
            Awaiting::ReplySent => {
                log.emit(Event::Info("не удалось отправить CHECK_OK".to_owned()));
                self.poll()
            },
            _ => self.poll(),
        }
    }

    // -----------------------------------------------------------------------
    // Datagrams
    // -----------------------------------------------------------------------

    fn receive(
        &mut self,
        source: SocketAddress,
        bytes: &[u8],
        now: u64,
        log: &mut EventLog,
    ) -> (request: Request)
        requires
            old(self).wf(),
        ensures
            final(self).wf(),
            took(
                old(self)@.receive(source, bytes@, now),
                final(self)@,
                request@,
                old(log)@,
                final(log)@,
            ),
    {
        proof {
            reveal(SessionView::receive);
        }
        self.stats = Stats {
            datagrams_received: counted(self.stats.datagrams_received),
            ..self.stats
        };
        if let Some(t) = self.pending_stun {
            if source == t.server {
                return self.receive_stun(t.transaction_id, bytes, log);
            }
        }
        self.receive_control(source, bytes, now, log)
    }

    fn receive_stun(
        &mut self,
        transaction_id: TransactionId,
        bytes: &[u8],
        log: &mut EventLog,
    ) -> (request: Request)
        requires
            old(self).wf(),
        ensures
            final(self).wf(),
            took(
                old(self)@.receive_stun(transaction_id@, bytes@),
                final(self)@,
                request@,
                old(log)@,
                final(log)@,
            ),
    {
        proof {
            reveal(SessionView::receive_stun);
        }
        match parse_binding_response(bytes, transaction_id) {
            Ok(BindingResponse::Success(address)) => {
                self.pending_stun = None;
                if address != self.public_address {
                    self.public_address = address;
                    log.emit(Event::MappingChanged { address });
                }
            },
            Ok(BindingResponse::ServerError { code, reason }) => {
                self.pending_stun = None;
                let mut m: String = "STUN keepalive error ".to_owned();
                m.append(decimal_text(code as u64).as_str());
                m.append(": ");
                m.append(reason.as_str());
                log.emit(Event::Info(m));
            },
            Err(_) => {},
        }
        self.poll()
    }

    fn receive_control(
        &mut self,
        source: SocketAddress,
        bytes: &[u8],
        now: u64,
        log: &mut EventLog,
    ) -> (request: Request)
        requires
            old(self).wf(),
        ensures
            final(self).wf(),
            took(
                old(self)@.receive_control(source, bytes@, now),
                final(self)@,
                request@,
                old(log)@,
                final(log)@,
            ),
    {
        proof {
            reveal(SessionView::receive_control);
        }
        let remote: &PeerDescription = match &self.peer {
            Some(remote) => remote,
            None => {
                return self.poll();
            },
        };
        let packet: ControlPacket = match decode_control(
            bytes,
            remote.session_id,
            self.local.session_id,
            &remote.key,
        ) {
            Ok(packet) => packet,
            Err(_) => {
                self.count_invalid();
                return self.poll();
            },
        };
        let kind: CandidateKind = candidate_kind_for_source(source, remote.candidates.as_slice());
        let reply: Vec<u8> = check_ok_packet(&self.local, remote, packet.transaction_id);
        self.stats = Stats { authenticated: counted(self.stats.authenticated), ..self.stats };
        match packet.kind {
            PacketKind::Check => {
                if !is_unicast(source) {
                    self.count_invalid();
                    return self.poll();
                }
                self.awaiting = Awaiting::ReplySent;
                Request::Send { datagram: reply, target: source }
            },
            PacketKind::CheckOk => self.receive_check_ok(
                source,
                kind,
                packet.transaction_id,
                now,
                log,
            ),
        }
    }

    fn receive_check_ok(
        &mut self,
        source: SocketAddress,
        kind: CandidateKind,
        transaction_id: TransactionId,
        now: u64,
        log: &mut EventLog,
    ) -> (request: Request)
        requires
            old(self).wf(),
            old(self)@.peer is Some,
            kind == crate::protocol::kind_for_source(source, old(self)@.peer->0.candidates),
        ensures
            final(self).wf(),
            took(
                old(self)@.receive_check_ok(source, old(self)@.peer->0, transaction_id@, now),
                final(self)@,
                request@,
                old(log)@,
                final(log)@,
            ),
    {
        proof {
            reveal(SessionView::receive_check_ok);
        }
        let probe: PendingProbe = match self.pending.get(&transaction_id) {
            Some(probe) => probe,
            None => {
                return self.poll();
            },
        };
        if source != probe.target && !(probe.purpose == ProbePurpose::Connectivity && is_unicast(
            source,
        )) {
            return self.poll();
        }
        self.pending.remove(&transaction_id);
        let rtt: u64 = elapsed(now, probe.sent_at);
        match probe.purpose {
            ProbePurpose::Connectivity => {
                if self.state == State::Checking {
                    self.state = State::Connected;
                    self.selected = Some(
                        SelectedPath { source, kind, last_success: now, consent_pending: None },
                    );
                    self.stats = Stats { selected_rtt: Some(rtt), ..self.stats };
                    log.emit(Event::Connected { source, kind, rtt });
                }
            },
            ProbePurpose::Consent => {
                if let Some(path) = self.selected {
                    if path.source == source || kind == CandidateKind::PeerReflexive {
                        self.selected = Some(
                            SelectedPath { last_success: now, consent_pending: None, ..path },
                        );
                    }
                }
            },
            ProbePurpose::ManualPing => {
                log.emit(Event::PingResult(rtt));
            },
        }
        self.poll()
    }

    // -----------------------------------------------------------------------
    // One step
    // -----------------------------------------------------------------------

    fn dispatch(
        &mut self,
        input: Input,
        now: u64,
        transaction_id: TransactionId,
        log: &mut EventLog,
    ) -> (request: Request)
        requires
            old(self).wf(),
            old(self)@.consistent(),
            now <= LAST_INSTANT,
        ensures
            final(self).wf(),
            took(
                old(self)@.step(input@, now, transaction_id@),
                final(self)@,
                request@,
                old(log)@,
                final(log)@,
            ),
    {
        match input {
            Input::Configured => {
                self.next_probe = now;
                self.next_progress = now + PROGRESS_INTERVAL;
                self.next_stun = now + STUN_KEEPALIVE;
                self.poll()
            },
            Input::ConfigureFailed(error) => {
                log.emit(
                    Event::Fatal(labelled("не удалось настроить UDP receive: ", error.as_str())),
                );
                self.stop()
            },
            Input::Command(command) => self.command(command, now, transaction_id, log),
            Input::NoCommand => self.begin_round(now, transaction_id, log),
            Input::Disconnected => self.stop(),
            Input::Sent => self.sent(now, transaction_id, log),
            Input::SendFailed(error) => self.send_failed(error, transaction_id, log),
            Input::Datagram { source, bytes } => self.receive(source, bytes.as_slice(), now, log),
            Input::ReceiveFailed(fault) => match fault {
                ReceiveFault::Other(error) => {
                    log.emit(Event::Fatal(labelled("UDP receive error: ", error.as_str())));
                    self.stop()
                },
                _ => self.poll(),
            },
        }
    }

    /// Begins a session that knows no peer yet, and says what it wants done
    /// first.
    pub fn new(config: NetworkConfig) -> (r: (Session, Request))
        ensures
            r.0.wf(),
            r.0@.consistent(),
            r.0@ == SessionView::start(
                config.local@,
                config.public_address,
                config.stun_servers@,
            ),
            r.1@ == (RequestView::Configure { read_timeout: TICK }),
    {
        let session: Session = Session {
            local: config.local,
            public_address: config.public_address,
            stun_servers: config.stun_servers,
            peer: None,
            state: State::Waiting,
            stats: Stats::default(),
            pending: PendingProbes::new(),
            selected: None,
            checking_started: None,
            next_probe: 0,
            next_progress: 0,
            next_stun: 0,
            pending_stun: None,
            stun_index: 0,
            tick: 0,
            awaiting: Awaiting::Configured,
        };
        (session, Request::Configure { read_timeout: TICK })
    }

    /// Whether the input is an outcome of the last request.
    pub fn awaits(&self, input: &Input) -> (r: bool)
        ensures
            r == self@.awaits(input@),
    {
        match self.awaiting {
            Awaiting::Configured => match input {
                Input::Configured => true,
                Input::ConfigureFailed(_) => true,
                _ => false,
            },
            Awaiting::Command => match input {
                Input::Command(_) => true,
                Input::NoCommand => true,
                Input::Disconnected => true,
                _ => false,
            },
            Awaiting::Datagram => match input {
                Input::Datagram { .. } => true,
                Input::ReceiveFailed(_) => true,
                _ => false,
            },
            Awaiting::Stopped => false,
            _ => match input {
                Input::Sent => true,
                Input::SendFailed(_) => true,
                _ => false,
            },
        }
    }

    /// Takes the outcome of the last request. A transaction that begins with
    /// this step gets the given identifier.
    pub fn step_with(
        &mut self,
        input: Input,
        now: u64,
        transaction_id: TransactionId,
    ) -> (output: Output)
        requires
            old(self).wf(),
            old(self)@.consistent(),
            old(self)@.awaits(input@),
            now <= LAST_INSTANT,
        ensures
            final(self).wf(),
            final(self)@.consistent(),
            ({
                let step = old(self)@.step(input@, now, transaction_id@);
                &&& final(self)@ == step.session
                &&& event_views(output.events@) == step.events
                &&& output.request@ == step.request
            }),
    {
        proof {
            session_laws::law_session_stays_consistent(self@, input@, now, transaction_id@);
        }
        let mut log: EventLog = EventLog { events: Vec::new() };
        let request: Request = self.dispatch(input, now, transaction_id, &mut log);
        Output { events: log.events, request }
    }

    /// Takes the outcome of the last request. A transaction that begins with
    /// this step gets a random identifier other than zero.
    pub fn step(&mut self, input: Input, now: u64) -> (output: Output)
        requires
            old(self).wf(),
            old(self)@.consistent(),
            old(self)@.awaits(input@),
            now <= LAST_INSTANT,
        ensures
            final(self).wf(),
            final(self)@.consistent(),
            exists|transaction_id: TransactionId|
                !bytes::all_zero(transaction_id@) && {
                    let step = #[trigger] old(self)@.step(input@, now, transaction_id@);
                    &&& final(self)@ == step.session
                    &&& event_views(output.events@) == step.events
                    &&& output.request@ == step.request
                },
    {
        let transaction_id: TransactionId = random_transaction_id();
        self.step_with(input, now, transaction_id)
    }
}

} // verus!
