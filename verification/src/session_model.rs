//! The session as a mathematical state machine.
//!
//! A session is always waiting for the outcome of its last request. Each outcome
//! leads to the next state, to events for the user and to the next request.

use crate::address;
use crate::address::SocketAddress;
use crate::pending;
use crate::pending::{PendingProbe, ProbePurpose};
use crate::protocol;
use crate::protocol::{CandidateKind, ControlPacketView, PacketKind, PeerDescriptionView};
use crate::session::{
    State, Stats, CHECKING_DEADLINE, CONSENT_INTERVAL, CONSENT_TIMEOUT, LAST_INSTANT, MAX_PENDING,
    PROBE_INTERVAL, PROGRESS_INTERVAL, SECOND, STUN_KEEPALIVE, STUN_RETRY,
};
use crate::stun;
use crate::stun::BindingResponseView;
use crate::text;
use vstd::prelude::*;

verus! {

/// The mathematical form of a `Command`.
pub enum CommandView {
    SetPeer(PeerDescriptionView),
    ClearPeer,
    Retry,
    Ping,
    Status,
    Shutdown,
}

/// The mathematical form of an `Event`.
pub enum EventView {
    Info(Seq<char>),
    MappingChanged { address: SocketAddress },
    CheckingStarted { candidates: nat },
    Progress { elapsed: u64, stats: Stats },
    Connected { source: SocketAddress, kind: CandidateKind, rtt: u64 },
    PingResult(u64),
    Disconnected { reason: Seq<char>, stats: Stats },
    Failed { stats: Stats },
    Status {
        state: Seq<char>,
        peer: Option<SocketAddress>,
        kind: Option<CandidateKind>,
        stats: Stats,
    },
    Fatal(Seq<char>),
}

/// The mathematical form of a `ReceiveFault`.
pub enum ReceiveFaultView {
    WouldBlock,
    TimedOut,
    ConnectionReset,
    ConnectionRefused,
    Other(Seq<char>),
}

/// The mathematical form of an `Input`.
pub enum InputView {
    Configured,
    ConfigureFailed(Seq<char>),
    Command(CommandView),
    NoCommand,
    Disconnected,
    Sent,
    SendFailed(Seq<char>),
    Datagram { source: SocketAddress, bytes: Seq<u8> },
    ReceiveFailed(ReceiveFaultView),
}

/// The mathematical form of a `Request`.
pub enum RequestView {
    Configure { read_timeout: u64 },
    PollCommand,
    Send { datagram: Seq<u8>, target: SocketAddress },
    Receive,
    Stop,
}

/// Which outcome a session is waiting for.
pub enum AwaitingView {
    Configured,
    Command,
    PingSent { transaction_id: Seq<u8>, target: SocketAddress },
    KeepaliveSent { transaction_id: Seq<u8>, server: SocketAddress },
    RetransmitSent,
    ProbeSent { index: int, transaction_id: Seq<u8>, target: SocketAddress },
    ConsentSent { transaction_id: Seq<u8>, target: SocketAddress },
    Datagram,
    ReplySent,
    Stopped,
}

/// A STUN request on its way.
pub struct PendingStunView {
    pub server: SocketAddress,
    pub transaction_id: Seq<u8>,
    pub sent_at: u64,
    pub deadline: u64,
    pub attempt: u8,
}

/// The path on which a round trip was confirmed.
pub struct SelectedPathView {
    pub source: SocketAddress,
    pub kind: CandidateKind,
    pub last_success: u64,
    pub consent_pending: Option<Seq<u8>>,
}

/// The mathematical form of a `Session`.
pub struct SessionView {
    pub local: PeerDescriptionView,
    pub public_address: SocketAddress,
    pub stun_servers: Seq<SocketAddress>,
    pub peer: Option<PeerDescriptionView>,
    pub state: State,
    pub stats: Stats,
    pub pending: Map<Seq<u8>, PendingProbe>,
    pub selected: Option<SelectedPathView>,
    pub checking_started: Option<u64>,
    pub next_probe: u64,
    pub next_progress: u64,
    pub next_stun: u64,
    pub pending_stun: Option<PendingStunView>,
    pub stun_index: usize,
    /// The time at which the current round of timers began.
    pub tick: u64,
    pub awaiting: AwaitingView,
}

/// What comes of one outcome.
pub struct StepView {
    pub session: SessionView,
    pub events: Seq<EventView>,
    pub request: RequestView,
}

impl StepView {
    /// The same step with an event ahead of its own.
    pub open spec fn after(self, event: EventView) -> StepView {
        StepView { events: seq![event] + self.events, ..self }
    }
}

/// The time `d` after `t`.
pub open spec fn later(t: u64, d: u64) -> u64 {
    (t + d) as u64
}

/// A counter that stops at its largest value.
pub open spec fn counted(n: u64) -> u64 {
    if n < u64::MAX {
        (n + 1) as u64
    } else {
        n
    }
}

/// The counters of a session that has just begun.
pub open spec fn no_stats() -> Stats {
    Stats {
        probes_sent: 0,
        datagrams_received: 0,
        authenticated: 0,
        invalid: 0,
        selected_rtt: None,
    }
}

/// The packet by which one side probes the other.
pub open spec fn check_packet(
    local: PeerDescriptionView,
    remote: PeerDescriptionView,
    transaction_id: Seq<u8>,
) -> Seq<u8> {
    protocol::control_bytes(
        ControlPacketView {
            kind: PacketKind::Check,
            source_session: local.session_id,
            destination_session: remote.session_id,
            transaction_id,
        },
        local.key,
    )
}

/// The packet by which one side answers a probe of the other.
pub open spec fn check_ok_packet(
    local: PeerDescriptionView,
    remote: PeerDescriptionView,
    transaction_id: Seq<u8>,
) -> Seq<u8> {
    protocol::control_bytes(
        ControlPacketView {
            kind: PacketKind::CheckOk,
            source_session: local.session_id,
            destination_session: remote.session_id,
            transaction_id,
        },
        local.key,
    )
}

/// Whether an answer from `source` is taken as an answer to the probe.
pub open spec fn source_allowed(probe: PendingProbe, source: SocketAddress) -> bool {
    ||| source == probe.target
    ||| probe.purpose == ProbePurpose::Connectivity && address::spec_is_unicast(source)
}

impl SessionView {
    /// A session that has not been given a peer yet.
    pub open spec fn start(
        local: PeerDescriptionView,
        public_address: SocketAddress,
        stun_servers: Seq<SocketAddress>,
    ) -> SessionView {
        SessionView {
            local,
            public_address,
            stun_servers,
            peer: None,
            state: State::Waiting,
            stats: no_stats(),
            pending: Map::empty(),
            selected: None,
            checking_started: None,
            next_probe: 0,
            next_progress: 0,
            next_stun: 0,
            pending_stun: None,
            stun_index: 0,
            tick: 0,
            awaiting: AwaitingView::Configured,
        }
    }

    /// Whether the input is an outcome of the last request.
    pub open spec fn awaits(self, input: InputView) -> bool {
        match self.awaiting {
            AwaitingView::Configured => input is Configured || input is ConfigureFailed,
            AwaitingView::Command => input is Command || input is NoCommand || input
                is Disconnected,
            AwaitingView::Datagram => input is Datagram || input is ReceiveFailed,
            AwaitingView::Stopped => false,
            _ => input is Sent || input is SendFailed,
        }
    }

    /// What holds of a session at all times.
    pub open spec fn consistent(self) -> bool {
        &&& self.tick <= LAST_INSTANT
        &&& self.local.sized()
        &&& self.pending.dom().finite()
        &&& self.peer is None <==> self.state == State::Waiting
        &&& self.checking_started is None <==> self.state == State::Waiting
        &&& self.selected is Some <==> self.state == State::Connected
        &&& self.peer matches Some(peer) ==> peer.sized() && peer.remote_error(self.local) is None
        &&& self.pending_stun matches Some(t) ==> t.attempt <= 2
        &&& match self.awaiting {
            AwaitingView::PingSent { .. } => self.state == State::Connected,
            AwaitingView::RetransmitSent => self.pending_stun is Some
                && self.pending_stun->0.attempt < 2,
            AwaitingView::ProbeSent { index, .. } => self.state == State::Checking && 0 <= index
                < self.peer->0.candidates.len() && self.pending.len() < MAX_PENDING
                && !self.checks_are_over(),
            AwaitingView::ConsentSent { .. } => self.state == State::Connected,
            _ => true,
        }
    }

    // -----------------------------------------------------------------------
    // Small changes
    // -----------------------------------------------------------------------
    /// Asks for the next command.
    pub open spec fn poll(self) -> StepView {
        StepView {
            session: SessionView { awaiting: AwaitingView::Command, ..self },
            events: Seq::empty(),
            request: RequestView::PollCommand,
        }
    }

    pub open spec fn stop(self) -> StepView {
        StepView {
            session: SessionView { awaiting: AwaitingView::Stopped, ..self },
            events: Seq::empty(),
            request: RequestView::Stop,
        }
    }

    /// Sends a datagram and waits for the outcome.
    pub open spec fn send(
        self,
        awaiting: AwaitingView,
        datagram: Seq<u8>,
        target: SocketAddress,
    ) -> StepView {
        StepView {
            session: SessionView { awaiting, ..self },
            events: Seq::empty(),
            request: RequestView::Send { datagram, target },
        }
    }

    /// One more invalid datagram.
    pub open spec fn count_invalid(self) -> SessionView {
        SessionView {
            stats: Stats { invalid: counted(self.stats.invalid), ..self.stats },
            ..self
        }
    }

    /// One more probe on its way.
    pub open spec fn add_probe(
        self,
        transaction_id: Seq<u8>,
        target: SocketAddress,
        purpose: ProbePurpose,
        now: u64,
    ) -> SessionView {
        SessionView {
            pending: self.pending.insert(
                transaction_id,
                PendingProbe { target, sent_at: now, purpose },
            ),
            stats: Stats { probes_sent: counted(self.stats.probes_sent), ..self.stats },
            ..self
        }
    }

    // -----------------------------------------------------------------------
    // Commands
    // -----------------------------------------------------------------------
    /// Starts to check the candidates of a new peer, or refuses it.
    pub open spec fn set_peer(self, peer: PeerDescriptionView, now: u64) -> StepView {
        match peer.remote_error(self.local) {
            Some(e) => self.poll().after(EventView::Info("КОД ОТКЛОНЁН: "@ + e.message())),
            None => SessionView {
                peer: Some(peer),
                pending: Map::empty(),
                selected: None,
                stats: no_stats(),
                state: State::Checking,
                checking_started: Some(now),
                next_probe: now,
                next_progress: later(now, PROGRESS_INTERVAL),
                ..self
            }.poll().after(EventView::CheckingStarted { candidates: peer.candidates.len() }),
        }
    }

    /// Forgets the peer.
    pub open spec fn clear_peer(self) -> StepView {
        SessionView {
            peer: None,
            pending: Map::empty(),
            selected: None,
            state: State::Waiting,
            checking_started: None,
            ..self
        }.poll().after(EventView::Info("Ожидаю новый session code второй машины."@))
    }

    /// Checks the candidates of the peer afresh.
    pub open spec fn retry(self, now: u64) -> StepView {
        if self.peer is Some {
            SessionView {
                pending: Map::empty(),
                selected: None,
                state: State::Checking,
                checking_started: Some(now),
                next_probe: now,
                stats: no_stats(),
                ..self
            }.poll().after(EventView::Info("Повторяю candidate checks."@))
        } else {
            self.poll().after(
                EventView::Info("Сначала вставьте session code второй машины."@),
            )
        }
    }

    /// Probes the selected path on the user's demand.
    pub open spec fn ping(self, transaction_id: Seq<u8>) -> StepView {
        match self.selected {
            None => self.poll().after(
                EventView::Info("/ping доступен после подтверждённого round-trip."@),
            ),
            Some(path) => match self.peer {
                None => self.poll(),
                Some(remote) => self.send(
                    AwaitingView::PingSent { transaction_id, target: path.source },
                    check_packet(self.local, remote, transaction_id),
                    path.source,
                ),
            },
        }
    }

    /// Reports the state.
    pub open spec fn status(self) -> StepView {
        self.poll().after(
            EventView::Status {
                state: self.state.spec_label(),
                peer: match self.selected {
                    Some(path) => Some(path.source),
                    None => None,
                },
                kind: match self.selected {
                    Some(path) => Some(path.kind),
                    None => None,
                },
                stats: self.stats,
            },
        )
    }

    #[verifier::opaque]
    pub open spec fn command(
        self,
        command: CommandView,
        now: u64,
        transaction_id: Seq<u8>,
    ) -> StepView {
        match command {
            CommandView::SetPeer(peer) => self.set_peer(peer, now),
            CommandView::ClearPeer => self.clear_peer(),
            CommandView::Retry => self.retry(now),
            CommandView::Ping => self.ping(transaction_id),
            CommandView::Status => self.status(),
            CommandView::Shutdown => self.stop(),
        }
    }

    // -----------------------------------------------------------------------
    // Timers, in the order in which a round looks at them
    // -----------------------------------------------------------------------
    /// Begins a round: refreshes the NAT mapping when that is due.
    #[verifier::opaque]
    pub open spec fn begin_round(self, now: u64, transaction_id: Seq<u8>) -> StepView {
        let s = SessionView { tick: now, ..self };
        if now >= s.next_stun && s.pending_stun is None && s.stun_servers.len() > 0 {
            let server = s.stun_servers[s.stun_index as int % s.stun_servers.len() as int];
            SessionView {
                stun_index: if s.stun_index < usize::MAX {
                    (s.stun_index + 1) as usize
                } else {
                    0
                },
                ..s
            }.send(
                AwaitingView::KeepaliveSent { transaction_id, server },
                stun::binding_request(transaction_id),
                server,
            )
        } else {
            s.retransmit(transaction_id)
        }
    }

    /// Repeats a STUN request that got no answer in time, twice at most.
    #[verifier::opaque]
    pub open spec fn retransmit(self, transaction_id: Seq<u8>) -> StepView {
        match self.pending_stun {
            Some(t) => if self.tick >= t.deadline {
                if t.attempt < 2 {
                    self.send(
                        AwaitingView::RetransmitSent,
                        stun::binding_request(t.transaction_id),
                        t.server,
                    )
                } else {
                    SessionView { pending_stun: None, ..self }.check(transaction_id)
                }
            } else {
                self.check(transaction_id)
            },
            None => self.check(transaction_id),
        }
    }

    /// Whether the checks have used up their time.
    pub open spec fn checks_are_over(self) -> bool {
        match self.checking_started {
            Some(started) => pending::since(self.tick, started) >= CHECKING_DEADLINE,
            None => false,
        }
    }

    /// Gives up on the checks, or probes when that is due.
    #[verifier::opaque]
    pub open spec fn check(self, transaction_id: Seq<u8>) -> StepView {
        if self.state != State::Checking {
            self.consent(transaction_id)
        } else if self.checks_are_over() {
            SessionView { state: State::Failed, ..self }.progress(transaction_id).after(
                EventView::Failed { stats: self.stats },
            )
        } else if self.tick >= self.next_probe {
            self.probe(0, transaction_id)
        } else {
            self.progress(transaction_id)
        }
    }

    /// Probes the candidates from `index` on, while not too many probes wait.
    #[verifier::opaque]
    pub open spec fn probe(self, index: int, transaction_id: Seq<u8>) -> StepView {
        match self.peer {
            Some(remote) => if index < remote.candidates.len() && self.pending.len()
                < MAX_PENDING {
                let target = remote.candidates[index].address;
                self.send(
                    AwaitingView::ProbeSent { index, transaction_id, target },
                    check_packet(self.local, remote, transaction_id),
                    target,
                )
            } else {
                self.end_probes(transaction_id)
            },
            None => self.end_probes(transaction_id),
        }
    }

    pub open spec fn end_probes(self, transaction_id: Seq<u8>) -> StepView {
        SessionView { next_probe: later(self.tick, PROBE_INTERVAL), ..self }.progress(
            transaction_id,
        )
    }

    /// Reports progress when that is due.
    #[verifier::opaque]
    pub open spec fn progress(self, transaction_id: Seq<u8>) -> StepView {
        if self.tick >= self.next_progress {
            SessionView {
                next_progress: later(self.tick, PROGRESS_INTERVAL),
                ..self
            }.consent(transaction_id).after(
                EventView::Progress {
                    elapsed: match self.checking_started {
                        Some(started) => pending::since(self.tick, started),
                        None => 0,
                    },
                    stats: self.stats,
                },
            )
        } else {
            self.consent(transaction_id)
        }
    }

    /// Leaves a selected path that has been silent for too long, or asks for a
    /// sign of life when that is due.
    #[verifier::opaque]
    pub open spec fn consent(self, transaction_id: Seq<u8>) -> StepView {
        match self.selected {
            Some(path) => if self.state != State::Connected {
                self.end_round()
            } else if pending::since(self.tick, path.last_success) >= CONSENT_TIMEOUT {
                SessionView {
                    state: State::Checking,
                    checking_started: Some(self.tick),
                    selected: None,
                    pending: Map::empty(),
                    next_probe: self.tick,
                    ..self
                }.end_round().after(
                    EventView::Disconnected {
                        reason: "consent checks не получили ответа 15 секунд"@,
                        stats: self.stats,
                    },
                )
            } else if path.consent_pending is None && pending::since(self.tick, path.last_success)
                >= CONSENT_INTERVAL {
                match self.peer {
                    Some(remote) => self.send(
                        AwaitingView::ConsentSent { transaction_id, target: path.source },
                        check_packet(self.local, remote, transaction_id),
                        path.source,
                    ),
                    None => self.end_round(),
                }
            } else {
                self.end_round()
            },
            None => self.end_round(),
        }
    }

    /// The session without the probes that have waited too long.
    pub open spec fn expire(self) -> SessionView {
        let left = pending::recent(self.pending, self.tick);
        SessionView {
            pending: left,
            selected: match self.selected {
                Some(path) => match path.consent_pending {
                    Some(id) => if left.contains_key(id) {
                        Some(path)
                    } else {
                        Some(SelectedPathView { consent_pending: None, ..path })
                    },
                    None => Some(path),
                },
                None => None,
            },
            ..self
        }
    }

    /// Drops old probes and waits for a datagram.
    pub open spec fn end_round(self) -> StepView {
        StepView {
            session: SessionView { awaiting: AwaitingView::Datagram, ..self.expire() },
            events: Seq::empty(),
            request: RequestView::Receive,
        }
    }

    // -----------------------------------------------------------------------
    // Outcomes of sending
    // -----------------------------------------------------------------------
    /// The STUN request with this transaction identifier is on its way.
    pub open spec fn keepalive_sent(
        self,
        server: SocketAddress,
        transaction_id: Seq<u8>,
    ) -> SessionView {
        SessionView {
            pending_stun: Some(
                PendingStunView {
                    server,
                    transaction_id,
                    sent_at: self.tick,
                    deadline: later(self.tick, STUN_RETRY),
                    attempt: 0,
                },
            ),
            ..self
        }
    }

    /// The STUN request is on its way once more.
    pub open spec fn retransmit_sent(self) -> SessionView {
        SessionView {
            pending_stun: match self.pending_stun {
                Some(t) => Some(
                    PendingStunView {
                        deadline: later(
                            self.tick,
                            if t.attempt == 0 {
                                SECOND
                            } else {
                                (2 * SECOND) as u64
                            },
                        ),
                        attempt: (t.attempt + 1) as u8,
                        ..t
                    },
                ),
                None => None,
            },
            ..self
        }
    }

    /// The next refresh of the NAT mapping is set.
    pub open spec fn keepalive_done(self) -> SessionView {
        SessionView { next_stun: later(self.tick, STUN_KEEPALIVE), ..self }
    }

    /// The selected path waits for the answer to a consent check.
    pub open spec fn consent_sent(self, transaction_id: Seq<u8>) -> SessionView {
        SessionView {
            selected: match self.selected {
                Some(path) => Some(
                    SelectedPathView { consent_pending: Some(transaction_id), ..path },
                ),
                None => None,
            },
            ..self
        }
    }

    #[verifier::opaque]
    pub open spec fn sent(self, now: u64, fresh_id: Seq<u8>) -> StepView {
        match self.awaiting {
            AwaitingView::PingSent { transaction_id, target } => self.add_probe(
                transaction_id,
                target,
                ProbePurpose::ManualPing,
                now,
            ).poll(),
            AwaitingView::KeepaliveSent { transaction_id, server } => self.keepalive_sent(
                server,
                transaction_id,
            ).keepalive_done().retransmit(fresh_id),
            AwaitingView::RetransmitSent => self.retransmit_sent().check(fresh_id),
            AwaitingView::ProbeSent { index, transaction_id, target } => self.add_probe(
                transaction_id,
                target,
                ProbePurpose::Connectivity,
                now,
            ).probe(index + 1, fresh_id),
            AwaitingView::ConsentSent { transaction_id, target } => self.add_probe(
                transaction_id,
                target,
                ProbePurpose::Consent,
                now,
            ).consent_sent(transaction_id).end_round(),
            _ => self.poll(),
        }
    }

    #[verifier::opaque]
    pub open spec fn send_failed(self, error: Seq<char>, fresh_id: Seq<u8>) -> StepView {
        match self.awaiting {
            AwaitingView::KeepaliveSent { .. } => self.keepalive_done().retransmit(fresh_id).after(
                EventView::Info("STUN keepalive send error: "@ + error),
            ),
            AwaitingView::RetransmitSent => self.check(fresh_id),
            AwaitingView::ProbeSent { index, .. } => self.probe(index + 1, fresh_id),
            AwaitingView::ConsentSent { .. } => self.end_round(),
            AwaitingView::ReplySent => self.poll().after(
                EventView::Info("не удалось отправить CHECK_OK"@),
            ),
            _ => self.poll(),
        }
    }

    // -----------------------------------------------------------------------
    // Datagrams
    // -----------------------------------------------------------------------
    #[verifier::opaque]
    pub open spec fn receive(self, source: SocketAddress, bytes: Seq<u8>, now: u64) -> StepView {
        let s = SessionView {
            stats: Stats {
                datagrams_received: counted(self.stats.datagrams_received),
                ..self.stats
            },
            ..self
        };
        match s.pending_stun {
            Some(t) => if source == t.server {
                s.receive_stun(t.transaction_id, bytes)
            } else {
                s.receive_control(source, bytes, now)
            },
            None => s.receive_control(source, bytes, now),
        }
    }

    /// A datagram from the STUN server that was asked.
    #[verifier::opaque]
    pub open spec fn receive_stun(self, transaction_id: Seq<u8>, bytes: Seq<u8>) -> StepView {
        match stun::read_binding_response(bytes, transaction_id) {
            Ok(BindingResponseView::Success(address)) => {
                let s = SessionView { pending_stun: None, ..self };
                if address != s.public_address {
                    SessionView { public_address: address, ..s }.poll().after(
                        EventView::MappingChanged { address },
                    )
                } else {
                    s.poll()
                }
            },
            Ok(BindingResponseView::ServerError { code, reason }) => SessionView {
                pending_stun: None,
                ..self
            }.poll().after(
                EventView::Info(
                    "STUN keepalive error "@ + text::decimal(code as nat) + ": "@ + reason,
                ),
            ),
            Err(_) => self.poll(),
        }
    }

    /// A datagram from anybody else.
    #[verifier::opaque]
    pub open spec fn receive_control(
        self,
        source: SocketAddress,
        bytes: Seq<u8>,
        now: u64,
    ) -> StepView {
        match self.peer {
            None => self.poll(),
            Some(remote) => match protocol::read_control(
                bytes,
                remote.session_id,
                self.local.session_id,
                remote.key,
            ) {
                Err(_) => self.count_invalid().poll(),
                Ok(packet) => {
                    let s = SessionView {
                        stats: Stats {
                            authenticated: counted(self.stats.authenticated),
                            ..self.stats
                        },
                        ..self
                    };
                    match packet.kind {
                        PacketKind::Check => s.receive_check(
                            source,
                            remote,
                            packet.transaction_id,
                        ),
                        PacketKind::CheckOk => s.receive_check_ok(
                            source,
                            remote,
                            packet.transaction_id,
                            now,
                        ),
                    }
                },
            },
        }
    }

    /// A probe of the peer, which is answered where it came from.
    pub open spec fn receive_check(
        self,
        source: SocketAddress,
        remote: PeerDescriptionView,
        transaction_id: Seq<u8>,
    ) -> StepView {
        if !address::spec_is_unicast(source) {
            self.count_invalid().poll()
        } else {
            self.send(
                AwaitingView::ReplySent,
                check_ok_packet(self.local, remote, transaction_id),
                source,
            )
        }
    }

    /// An answer of the peer to one of the probes that wait.
    #[verifier::opaque]
    pub open spec fn receive_check_ok(
        self,
        source: SocketAddress,
        remote: PeerDescriptionView,
        transaction_id: Seq<u8>,
        now: u64,
    ) -> StepView {
        match self.pending.get(transaction_id) {
            None => self.poll(),
            Some(probe) => if !source_allowed(probe, source) {
                self.poll()
            } else {
                let s = SessionView { pending: self.pending.remove(transaction_id), ..self };
                let rtt = pending::since(now, probe.sent_at);
                let kind = protocol::kind_for_source(source, remote.candidates);
                match probe.purpose {
                    ProbePurpose::Connectivity => s.connectivity_confirmed(source, kind, rtt, now),
                    ProbePurpose::Consent => s.consent_confirmed(source, kind, now).poll(),
                    ProbePurpose::ManualPing => s.poll().after(EventView::PingResult(rtt)),
                }
            },
        }
    }

    /// The first confirmed round trip selects the path.
    pub open spec fn connectivity_confirmed(
        self,
        source: SocketAddress,
        kind: CandidateKind,
        rtt: u64,
        now: u64,
    ) -> StepView {
        if self.state == State::Checking {
            SessionView {
                state: State::Connected,
                selected: Some(
                    SelectedPathView { source, kind, last_success: now, consent_pending: None },
                ),
                stats: Stats { selected_rtt: Some(rtt), ..self.stats },
                ..self
            }.poll().after(EventView::Connected { source, kind, rtt })
        } else {
            self.poll()
        }
    }

    /// A sign of life on the selected path.
    pub open spec fn consent_confirmed(
        self,
        source: SocketAddress,
        kind: CandidateKind,
        now: u64,
    ) -> SessionView {
        SessionView {
            selected: match self.selected {
                Some(path) => if path.source == source || kind == CandidateKind::PeerReflexive {
                    Some(SelectedPathView { last_success: now, consent_pending: None, ..path })
                } else {
                    Some(path)
                },
                None => None,
            },
            ..self
        }
    }

    // -----------------------------------------------------------------------
    // One step
    // -----------------------------------------------------------------------
    /// The socket is ready: the timers start.
    pub open spec fn configured(self, now: u64) -> StepView {
        SessionView {
            next_probe: now,
            next_progress: later(now, PROGRESS_INTERVAL),
            next_stun: later(now, STUN_KEEPALIVE),
            ..self
        }.poll()
    }

    pub open spec fn receive_failed(self, fault: ReceiveFaultView) -> StepView {
        match fault {
            ReceiveFaultView::Other(error) => self.stop().after(
                EventView::Fatal("UDP receive error: "@ + error),
            ),
            _ => self.poll(),
        }
    }

    /// What an outcome leads to. The identifier is used where the step begins a
    /// new transaction.
    pub open spec fn step(self, input: InputView, now: u64, transaction_id: Seq<u8>) -> StepView {
        match input {
            InputView::Configured => self.configured(now),
            InputView::ConfigureFailed(error) => self.stop().after(
                EventView::Fatal("не удалось настроить UDP receive: "@ + error),
            ),
            InputView::Command(command) => self.command(command, now, transaction_id),
            InputView::NoCommand => self.begin_round(now, transaction_id),
            InputView::Disconnected => self.stop(),
            InputView::Sent => self.sent(now, transaction_id),
            InputView::SendFailed(error) => self.send_failed(error, transaction_id),
            InputView::Datagram { source, bytes } => self.receive(source, bytes, now),
            InputView::ReceiveFailed(fault) => self.receive_failed(fault),
        }
    }
}

} // verus!
