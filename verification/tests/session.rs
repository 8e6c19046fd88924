use hole_punch::address::{parse_address, SocketAddress};
use hole_punch::protocol::{
    decode_control, encode_control, Candidate, CandidateKind, ControlPacket, PacketKind,
    PeerDescription, TransactionId,
};
use hole_punch::session::{
    Command, Event, Input, NetworkConfig, Output, ReceiveFault, Request, Session, State, Stats,
};
use hole_punch::stun::{build_binding_request, MAGIC_COOKIE};

const MS: u64 = 1_000_000;
const SECOND: u64 = 1_000_000_000;

fn address(text: &str) -> SocketAddress {
    let chars: Vec<char> = text.chars().collect();
    parse_address(&chars).unwrap()
}

fn describe(texts: &[&str]) -> PeerDescription {
    PeerDescription::new(
        texts
            .iter()
            .map(|text| Candidate {
                kind: CandidateKind::Host,
                address: address(text),
            })
            .collect(),
    )
    .unwrap()
}

fn begin(local: &PeerDescription, servers: &[SocketAddress], now: u64) -> Session {
    let (mut session, request) = Session::new(NetworkConfig {
        local: local.clone(),
        public_address: local.candidates[0].address,
        stun_servers: servers.to_vec(),
    });
    assert_eq!(
        request,
        Request::Configure {
            read_timeout: 50 * MS
        }
    );
    quiet(step(&mut session, Input::Configured, now), Request::PollCommand);
    session
}

fn step(session: &mut Session, input: Input, now: u64) -> Output {
    assert!(session.awaits(&input));
    session.step(input, now)
}

fn step_with(session: &mut Session, input: Input, now: u64, id: TransactionId) -> Output {
    assert!(session.awaits(&input));
    session.step_with(input, now, id)
}

fn quiet(output: Output, request: Request) {
    assert_eq!(
        output,
        Output {
            events: Vec::new(),
            request
        }
    );
}

fn told(output: Output, event: Event, request: Request) {
    assert_eq!(
        output,
        Output {
            events: vec![event],
            request
        }
    );
}

fn info(text: &str) -> Event {
    Event::Info(text.to_owned())
}

fn sent(output: Output) -> (Vec<u8>, SocketAddress) {
    match output.request {
        Request::Send { datagram, target } => (datagram, target),
        _ => panic!("a datagram was expected"),
    }
}

fn packet(
    kind: PacketKind,
    from: &PeerDescription,
    to: &PeerDescription,
    id: TransactionId,
) -> Vec<u8> {
    let packet = ControlPacket {
        kind,
        source_session: from.session_id,
        destination_session: to.session_id,
        transaction_id: id,
    };
    encode_control(packet, &from.key).to_vec()
}

fn datagram(source: SocketAddress, bytes: Vec<u8>) -> Input {
    Input::Datagram { source, bytes }
}

fn status(session: &mut Session, now: u64) -> (&'static str, Stats) {
    let output = step(session, Input::Command(Command::Status), now);
    assert_eq!(output.request, Request::PollCommand);
    match &output.events[..] {
        [Event::Status { state, stats, .. }] => (state, *stats),
        _ => panic!("a status was expected"),
    }
}

/// A session that has sent one probe with the identifier and waits for a datagram.
fn probing(local: &PeerDescription, remote: &PeerDescription, id: TransactionId) -> Session {
    let mut session = begin(local, &[], 0);
    step(&mut session, Input::Command(Command::SetPeer(remote.clone())), 0);
    let (bytes, target) = sent(step_with(&mut session, Input::NoCommand, 0, id));
    assert_eq!(bytes, packet(PacketKind::Check, local, remote, id));
    assert_eq!(target, remote.candidates[0].address);
    quiet(step(&mut session, Input::Sent, MS), Request::Receive);
    session
}

fn connected(local: &PeerDescription, remote: &PeerDescription, now: u64) -> Session {
    let mut session = probing(local, remote, [3; 12]);
    let source = remote.candidates[0].address;
    let answer = packet(PacketKind::CheckOk, remote, local, [3; 12]);
    told(
        step(&mut session, datagram(source, answer), now),
        Event::Connected {
            source,
            kind: CandidateKind::Host,
            rtt: now - MS,
        },
        Request::PollCommand,
    );
    session
}

#[test]
fn two_loopback_sessions_complete_authenticated_round_trip() {
    let address_a = address("127.0.0.1:40001");
    let address_b = address("127.0.0.1:40002");
    let description_a = describe(&["127.0.0.1:40001"]);
    let description_b = describe(&["127.0.0.1:40002"]);
    let mut a = begin(&description_a, &[], 0);
    let mut b = begin(&description_b, &[], 0);
    step(&mut a, Input::Command(Command::SetPeer(description_b)), 0);
    step(&mut b, Input::Command(Command::SetPeer(description_a)), 0);

    let (probe_a, to_b) = sent(step(&mut a, Input::NoCommand, 0));
    let (probe_b, to_a) = sent(step(&mut b, Input::NoCommand, 0));
    assert_eq!((to_a, to_b), (address_a, address_b));
    quiet(step(&mut a, Input::Sent, 0), Request::Receive);
    quiet(step(&mut b, Input::Sent, 0), Request::Receive);

    let (answer_a, target) = sent(step(&mut a, datagram(address_b, probe_b), 5 * MS));
    assert_eq!(target, address_b);
    let (answer_b, target) = sent(step(&mut b, datagram(address_a, probe_a), 5 * MS));
    assert_eq!(target, address_a);
    for session in [&mut a, &mut b] {
        quiet(step(session, Input::Sent, 6 * MS), Request::PollCommand);
        quiet(step(session, Input::NoCommand, 7 * MS), Request::Receive);
    }
    for (session, source, answer) in [
        (&mut a, address_b, answer_b),
        (&mut b, address_a, answer_a),
    ] {
        told(
            step(session, datagram(source, answer), 9 * MS),
            Event::Connected {
                source,
                kind: CandidateKind::Host,
                rtt: 9 * MS,
            },
            Request::PollCommand,
        );
    }

    let (ping, target) = sent(step(&mut a, Input::Command(Command::Ping), 10 * MS));
    assert_eq!(target, address_b);
    quiet(step(&mut a, Input::Sent, 10 * MS), Request::PollCommand);
    quiet(step(&mut a, Input::NoCommand, 10 * MS), Request::Receive);
    quiet(step(&mut b, Input::NoCommand, 10 * MS), Request::Receive);
    let (pong, _) = sent(step(&mut b, datagram(address_a, ping), 11 * MS));
    told(
        step(&mut a, datagram(address_b, pong), 13 * MS),
        Event::PingResult(3 * MS),
        Request::PollCommand,
    );

    quiet(step(&mut a, Input::Command(Command::Shutdown), 14 * MS), Request::Stop);
    assert!(!a.awaits(&Input::NoCommand));
}

#[test]
fn forged_session_descriptor_is_rejected_before_probing() {
    let description_a = describe(&["127.0.0.1:40001"]);
    let mut forged_b = describe(&["127.0.0.1:40002"]);
    forged_b.session_id = description_a.session_id;
    let mut session = begin(&description_a, &[], 0);
    let output = step(&mut session, Input::Command(Command::SetPeer(forged_b)), 0);
    assert!(
        matches!(&output.events[..], [Event::Info(message)] if message.contains("КОД ОТКЛОНЁН"))
    );
    assert_eq!(output.request, Request::PollCommand);
    assert_eq!(status(&mut session, 0).0, "waiting");
    quiet(step(&mut session, Input::NoCommand, SECOND), Request::Receive);
}

#[test]
fn clear_peer_returns_worker_to_waiting_state() {
    let local = describe(&["127.0.0.1:40001"]);
    let peer = describe(&["127.0.0.1:9"]);
    let mut session = begin(&local, &[], 0);
    told(
        step(&mut session, Input::Command(Command::SetPeer(peer)), 0),
        Event::CheckingStarted { candidates: 1 },
        Request::PollCommand,
    );
    assert_eq!(status(&mut session, 0).0, "checking");
    let output = step(&mut session, Input::Command(Command::ClearPeer), 0);
    assert!(
        matches!(&output.events[..], [Event::Info(message)] if message.contains("Ожидаю новый"))
    );
    assert_eq!(status(&mut session, 0).0, "waiting");
    quiet(step(&mut session, Input::NoCommand, 0), Request::Receive);
    step(&mut session, Input::ReceiveFailed(ReceiveFault::TimedOut), 0);
    quiet(step(&mut session, Input::Command(Command::Shutdown), 0), Request::Stop);
}

#[test]
fn every_candidate_is_probed_in_turn() {
    let local = describe(&["192.0.2.1:1"]);
    let remote = describe(&["192.0.2.2:2", "192.0.2.3:3"]);
    let mut session = begin(&local, &[], 0);
    step(&mut session, Input::Command(Command::SetPeer(remote.clone())), 0);
    let (first, target) = sent(step(&mut session, Input::NoCommand, 0));
    assert_eq!(target, address("192.0.2.2:2"));
    let failed = Input::SendFailed("no route".to_owned());
    let (second, target) = sent(step(&mut session, failed, 0));
    assert_eq!(target, address("192.0.2.3:3"));
    assert_ne!(first, second);
    for bytes in [first, second] {
        let read = decode_control(&bytes, local.session_id, remote.session_id, &local.key);
        assert_eq!(read.unwrap().kind, PacketKind::Check);
    }
    quiet(step(&mut session, Input::Sent, 0), Request::Receive);
    let fault = Input::ReceiveFailed(ReceiveFault::TimedOut);
    quiet(step(&mut session, fault, 50 * MS), Request::PollCommand);
    assert_eq!(status(&mut session, 50 * MS).1.probes_sent, 1);
    quiet(step(&mut session, Input::NoCommand, 499 * MS), Request::Receive);
    let fault = Input::ReceiveFailed(ReceiveFault::ConnectionReset);
    quiet(step(&mut session, fault, 499 * MS), Request::PollCommand);
    let (_, target) = sent(step(&mut session, Input::NoCommand, 500 * MS));
    assert_eq!(target, address("192.0.2.2:2"));
}

#[test]
fn checks_fail_after_thirty_seconds() {
    let local = describe(&["192.0.2.1:1"]);
    let remote = describe(&["192.0.2.2:2"]);
    let mut session = begin(&local, &[], 0);
    step(&mut session, Input::Command(Command::SetPeer(remote)), 0);
    let output = step(&mut session, Input::NoCommand, 30 * SECOND);
    let stats = Stats::default();
    assert_eq!(
        output,
        Output {
            events: vec![
                Event::Failed { stats },
                Event::Progress {
                    elapsed: 30 * SECOND,
                    stats
                }
            ],
            request: Request::Receive
        }
    );
    let fault = Input::ReceiveFailed(ReceiveFault::WouldBlock);
    step(&mut session, fault, 30 * SECOND);
    assert_eq!(status(&mut session, 30 * SECOND).0, "failed");
    quiet(step(&mut session, Input::NoCommand, 40 * SECOND), Request::Receive);
    let fault = Input::ReceiveFailed(ReceiveFault::ConnectionRefused);
    step(&mut session, fault, 40 * SECOND);
    told(
        step(&mut session, Input::Command(Command::Retry), 40 * SECOND),
        info("Повторяю candidate checks."),
        Request::PollCommand,
    );
    sent(step(&mut session, Input::NoCommand, 40 * SECOND));
}

#[test]
fn strangers_and_broken_packets_are_only_counted() {
    let local = describe(&["192.0.2.1:1"]);
    let remote = describe(&["192.0.2.2:2"]);
    let source = address("192.0.2.2:2");
    let mut session = probing(&local, &remote, [3; 12]);
    let mut broken = packet(PacketKind::CheckOk, &remote, &local, [3; 12]);
    broken[83] ^= 1;
    quiet(step(&mut session, datagram(source, broken), 2 * MS), Request::PollCommand);
    step(&mut session, Input::NoCommand, 2 * MS);
    quiet(step(&mut session, datagram(source, vec![1, 2, 3]), 2 * MS), Request::PollCommand);
    step(&mut session, Input::NoCommand, 2 * MS);
    // An answer to a probe that was never sent.
    let stray = packet(PacketKind::CheckOk, &remote, &local, [4; 12]);
    quiet(step(&mut session, datagram(source, stray), 2 * MS), Request::PollCommand);
    step(&mut session, Input::NoCommand, 2 * MS);
    // A probe from an address that cannot be answered.
    let probe = packet(PacketKind::Check, &remote, &local, [5; 12]);
    let nowhere = address("224.0.0.1:5");
    quiet(step(&mut session, datagram(nowhere, probe), 2 * MS), Request::PollCommand);
    let (state, stats) = status(&mut session, 2 * MS);
    assert_eq!(state, "checking");
    assert_eq!(
        stats,
        Stats {
            probes_sent: 1,
            datagrams_received: 4,
            authenticated: 2,
            invalid: 3,
            selected_rtt: None
        }
    );

    let mut waiting = begin(&local, &[], 0);
    step(&mut waiting, Input::NoCommand, 0);
    quiet(step(&mut waiting, datagram(source, vec![1]), 0), Request::PollCommand);
    let (state, stats) = status(&mut waiting, 0);
    assert_eq!((state, stats.datagrams_received, stats.invalid), ("waiting", 1, 0));
}

#[test]
fn an_answer_counts_once() {
    let local = describe(&["192.0.2.1:1"]);
    let remote = describe(&["192.0.2.2:2"]);
    let mut session = probing(&local, &remote, [3; 12]);
    let source = address("198.51.100.7:7");
    let answer = packet(PacketKind::CheckOk, &remote, &local, [3; 12]);
    told(
        step(&mut session, datagram(source, answer.clone()), 4 * MS),
        Event::Connected {
            source,
            kind: CandidateKind::PeerReflexive,
            rtt: 3 * MS,
        },
        Request::PollCommand,
    );
    step(&mut session, Input::NoCommand, 5 * MS);
    quiet(step(&mut session, datagram(source, answer), 6 * MS), Request::PollCommand);
    let (state, stats) = status(&mut session, 6 * MS);
    assert_eq!(state, "connected");
    assert_eq!(stats.selected_rtt, Some(3 * MS));
}

#[test]
fn old_probes_are_forgotten() {
    let local = describe(&["192.0.2.1:1"]);
    let remote = describe(&["192.0.2.2:2"]);
    let source = address("192.0.2.2:2");
    let mut session = probing(&local, &remote, [3; 12]);
    let fault = Input::ReceiveFailed(ReceiveFault::TimedOut);
    step(&mut session, fault, 4 * SECOND + MS);
    sent(step_with(&mut session, Input::NoCommand, 4 * SECOND + MS, [4; 12]));
    quiet(step(&mut session, Input::Sent, 4 * SECOND + MS), Request::Receive);
    let answer = packet(PacketKind::CheckOk, &remote, &local, [3; 12]);
    quiet(step(&mut session, datagram(source, answer), 5 * SECOND), Request::PollCommand);
    assert_eq!(status(&mut session, 5 * SECOND).0, "checking");
}

#[test]
fn consent_keeps_the_path_and_silence_loses_it() {
    let local = describe(&["192.0.2.1:1"]);
    let remote = describe(&["192.0.2.2:2"]);
    let source = address("192.0.2.2:2");
    let mut session = connected(&local, &remote, 2 * MS);
    quiet(step(&mut session, Input::NoCommand, 3 * SECOND), Request::Receive);
    let fault = Input::ReceiveFailed(ReceiveFault::TimedOut);
    step(&mut session, fault, 5 * SECOND);

    // After five quiet seconds a sign of life is asked for and given.
    let at = 6 * SECOND;
    let (bytes, target) = sent(step_with(&mut session, Input::NoCommand, at, [8; 12]));
    assert_eq!(target, source);
    assert_eq!(bytes, packet(PacketKind::Check, &local, &remote, [8; 12]));
    quiet(step(&mut session, Input::Sent, at), Request::Receive);
    let answer = packet(PacketKind::CheckOk, &remote, &local, [8; 12]);
    let elsewhere = address("192.0.2.9:9");
    quiet(step(&mut session, datagram(elsewhere, answer.clone()), at), Request::PollCommand);
    quiet(step(&mut session, Input::NoCommand, at), Request::Receive);
    quiet(step(&mut session, datagram(source, answer), at), Request::PollCommand);
    quiet(step(&mut session, Input::NoCommand, at + 4 * SECOND), Request::Receive);
    let fault = Input::ReceiveFailed(ReceiveFault::TimedOut);
    step(&mut session, fault, at + 4 * SECOND);

    // After fifteen the path is lost and the checks start again.
    let stats = status(&mut session, at + 15 * SECOND).1;
    told(
        step(&mut session, Input::NoCommand, at + 15 * SECOND),
        Event::Disconnected {
            reason: "consent checks не получили ответа 15 секунд".to_owned(),
            stats,
        },
        Request::Receive,
    );
    let fault = Input::ReceiveFailed(ReceiveFault::TimedOut);
    step(&mut session, fault, at + 15 * SECOND);
    assert_eq!(status(&mut session, at + 15 * SECOND).0, "checking");
    sent(step(&mut session, Input::NoCommand, at + 15 * SECOND));
}

#[test]
fn the_first_path_stays_selected() {
    let local = describe(&["192.0.2.1:1"]);
    let remote = describe(&["192.0.2.2:2", "192.0.2.3:3"]);
    let mut session = begin(&local, &[], 0);
    step(&mut session, Input::Command(Command::SetPeer(remote.clone())), 0);
    sent(step_with(&mut session, Input::NoCommand, 0, [1; 12]));
    sent(step_with(&mut session, Input::Sent, 0, [2; 12]));
    quiet(step(&mut session, Input::Sent, 0), Request::Receive);
    for (id, text) in [([2; 12], "192.0.2.3:3"), ([1; 12], "192.0.2.2:2")] {
        let answer = packet(PacketKind::CheckOk, &remote, &local, id);
        step(&mut session, datagram(address(text), answer), MS);
        step(&mut session, Input::NoCommand, MS);
    }
    step(&mut session, Input::ReceiveFailed(ReceiveFault::TimedOut), MS);
    told(
        step(&mut session, Input::Command(Command::Status), MS),
        Event::Status {
            state: State::Connected.label(),
            peer: Some(address("192.0.2.3:3")),
            kind: Some(CandidateKind::Host),
            stats: Stats {
                probes_sent: 2,
                datagrams_received: 2,
                authenticated: 2,
                invalid: 0,
                selected_rtt: Some(MS),
            },
        },
        Request::PollCommand,
    );
}

#[test]
fn mapping_is_refreshed_and_changes_are_told() {
    let local = describe(&["192.0.2.1:1"]);
    let server = address("203.0.113.1:3478");
    let mut session = begin(&local, &[server], 0);
    quiet(step(&mut session, Input::NoCommand, 14 * SECOND), Request::Receive);
    step(&mut session, Input::ReceiveFailed(ReceiveFault::TimedOut), 15 * SECOND);
    let request = build_binding_request([6; 12]).to_vec();
    let first = sent(step_with(&mut session, Input::NoCommand, 15 * SECOND, [6; 12]));
    assert_eq!(first, (request.clone(), server));
    quiet(step(&mut session, Input::Sent, 15 * SECOND), Request::Receive);
    step(&mut session, Input::ReceiveFailed(ReceiveFault::TimedOut), 15 * SECOND);
    // The same request goes out again after half a second, one and two more.
    for (at, wait) in [(15_500, 1_000), (16_500, 2_000)] {
        let again = sent(step(&mut session, Input::NoCommand, at * MS));
        assert_eq!(again, (request.clone(), server));
        quiet(step(&mut session, Input::Sent, at * MS), Request::Receive);
        step(&mut session, Input::ReceiveFailed(ReceiveFault::TimedOut), at * MS);
        quiet(step(&mut session, Input::NoCommand, (at + wait - 1) * MS), Request::Receive);
        step(&mut session, Input::ReceiveFailed(ReceiveFault::TimedOut), at * MS);
    }
    quiet(step(&mut session, Input::NoCommand, 17 * SECOND), Request::Receive);

    let mut response = build_binding_request([6; 12]).to_vec();
    response[0..2].copy_from_slice(&0x0101_u16.to_be_bytes());
    response[2..4].copy_from_slice(&12_u16.to_be_bytes());
    response.extend_from_slice(&[0, 0x20, 0, 8, 0, 1]);
    response.extend_from_slice(&(4242_u16 ^ (MAGIC_COOKIE >> 16) as u16).to_be_bytes());
    response.extend_from_slice(&(0xc633_6402_u32 ^ MAGIC_COOKIE).to_be_bytes());
    told(
        step(&mut session, datagram(server, response), 17 * SECOND),
        Event::MappingChanged {
            address: address("198.51.100.2:4242"),
        },
        Request::PollCommand,
    );
}

#[test]
fn stun_faults_are_told() {
    let local = describe(&["192.0.2.1:1"]);
    let server = address("203.0.113.1:3478");
    let mut session = begin(&local, &[server], 0);
    sent(step(&mut session, Input::NoCommand, 15 * SECOND));
    told(
        step(&mut session, Input::SendFailed("down".to_owned()), 15 * SECOND),
        info("STUN keepalive send error: down"),
        Request::Receive,
    );
    step(&mut session, Input::ReceiveFailed(ReceiveFault::TimedOut), 30 * SECOND);
    sent(step_with(&mut session, Input::NoCommand, 30 * SECOND, [6; 12]));
    quiet(step(&mut session, Input::Sent, 30 * SECOND), Request::Receive);
    let mut response = build_binding_request([6; 12]).to_vec();
    response[0..2].copy_from_slice(&0x0111_u16.to_be_bytes());
    response[2..4].copy_from_slice(&12_u16.to_be_bytes());
    response.extend_from_slice(&[0, 9, 0, 8, 0, 0, 5, 0, b'b', b'u', b's', b'y']);
    told(
        step(&mut session, datagram(server, response), 30 * SECOND),
        info("STUN keepalive error 500: busy"),
        Request::PollCommand,
    );
}

#[test]
fn commands_out_of_turn_are_answered() {
    let local = describe(&["192.0.2.1:1"]);
    let remote = describe(&["192.0.2.2:2"]);
    let mut session = begin(&local, &[], 0);
    told(
        step(&mut session, Input::Command(Command::Retry), 0),
        info("Сначала вставьте session code второй машины."),
        Request::PollCommand,
    );
    told(
        step(&mut session, Input::Command(Command::Ping), 0),
        info("/ping доступен после подтверждённого round-trip."),
        Request::PollCommand,
    );
    step(&mut session, Input::Command(Command::SetPeer(remote.clone())), 0);
    step(&mut session, Input::NoCommand, 0);
    step(&mut session, Input::Sent, 0);
    let probe = packet(PacketKind::Check, &remote, &local, [5; 12]);
    let (answer, _) = sent(step(&mut session, datagram(address("192.0.2.2:2"), probe), MS));
    assert_eq!(answer, packet(PacketKind::CheckOk, &local, &remote, [5; 12]));
    told(
        step(&mut session, Input::SendFailed("down".to_owned()), MS),
        info("не удалось отправить CHECK_OK"),
        Request::PollCommand,
    );
    quiet(step(&mut session, Input::Disconnected, MS), Request::Stop);
}

#[test]
fn socket_faults_are_fatal() {
    let local = describe(&["192.0.2.1:1"]);
    let (mut session, _) = Session::new(NetworkConfig {
        local: local.clone(),
        public_address: local.candidates[0].address,
        stun_servers: Vec::new(),
    });
    told(
        step(&mut session, Input::ConfigureFailed("odd".to_owned()), 0),
        Event::Fatal("не удалось настроить UDP receive: odd".to_owned()),
        Request::Stop,
    );
    let mut session = begin(&local, &[], 0);
    step(&mut session, Input::NoCommand, 0);
    let fault = Input::ReceiveFailed(ReceiveFault::Other("gone".to_owned()));
    told(
        step(&mut session, fault, 0),
        Event::Fatal("UDP receive error: gone".to_owned()),
        Request::Stop,
    );
}

#[test]
fn progress_is_reported_every_five_seconds() {
    let local = describe(&["192.0.2.1:1"]);
    let remote = describe(&["192.0.2.2:2"]);
    let mut session = begin(&local, &[], 0);
    step(&mut session, Input::Command(Command::SetPeer(remote)), 0);
    sent(step(&mut session, Input::NoCommand, 5 * SECOND));
    let output = step(&mut session, Input::Sent, 5 * SECOND);
    assert!(matches!(
        &output.events[..],
        [Event::Progress {
            elapsed: 5_000_000_000,
            stats: Stats { probes_sent: 1, .. }
        }]
    ));
}

#[test]
fn probes_stop_while_too_many_wait() {
    let local = describe(&["192.0.2.1:1"]);
    let remote = describe(&[
        "192.0.2.2:1", "192.0.2.2:2", "192.0.2.2:3", "192.0.2.2:4", "192.0.2.2:5", "192.0.2.2:6",
        "192.0.2.2:7", "192.0.2.2:8",
    ]);
    let mut session = begin(&local, &[], 0);
    step(&mut session, Input::Command(Command::SetPeer(remote)), 0);
    // The clock of the answers runs ahead, so that no probe grows old.
    let ahead = 1000 * SECOND;
    let mut probes = 0;
    for round in 0..40_u64 {
        let mut output = step(&mut session, Input::NoCommand, round * 500 * MS);
        while let Request::Send { .. } = output.request {
            probes += 1;
            output = step(&mut session, Input::Sent, ahead);
        }
        assert_eq!(output.request, Request::Receive);
        step(&mut session, Input::ReceiveFailed(ReceiveFault::TimedOut), ahead);
    }
    assert_eq!(probes, 256);
}

#[test]
fn deadlines_hold_beside_stun_requests() {
    let local = describe(&["192.0.2.1:1"]);
    let remote = describe(&["192.0.2.2:2"]);
    let server = address("203.0.113.1:3478");
    let mut session = begin(&local, &[server], 0);
    step(&mut session, Input::Command(Command::SetPeer(remote)), 0);

    // Just before the deadline: a STUN request is due, and the checks go on.
    let early = 30 * SECOND - 1;
    let (_, target) = sent(step(&mut session, Input::NoCommand, early));
    assert_eq!(target, server);
    let (_, target) = sent(step(&mut session, Input::Sent, early));
    assert_eq!(target, address("192.0.2.2:2"));
    let output = step(&mut session, Input::Sent, early);
    assert!(!output.events.iter().any(|event| matches!(event, Event::Failed { .. })));
    step(&mut session, Input::ReceiveFailed(ReceiveFault::TimedOut), early);
    assert_eq!(status(&mut session, early).0, "checking");

    // At the deadline: the STUN request is repeated, and the checks have failed.
    let late = early + 500 * MS;
    let (_, target) = sent(step(&mut session, Input::NoCommand, late));
    assert_eq!(target, server);
    let output = step(&mut session, Input::SendFailed("down".to_owned()), late);
    assert!(matches!(&output.events[0], Event::Failed { .. }));
    assert_eq!(output.request, Request::Receive);
}

#[test]
fn a_path_is_not_left_early() {
    let local = describe(&["192.0.2.1:1"]);
    let remote = describe(&["192.0.2.2:2"]);
    let mut session = connected(&local, &remote, 2 * MS);
    let early = 2 * MS + 15 * SECOND - 1;
    let (_, target) = sent(step(&mut session, Input::NoCommand, early));
    assert_eq!(target, address("192.0.2.2:2"));
    quiet(
        step(&mut session, Input::SendFailed("down".to_owned()), early),
        Request::Receive,
    );
    step(&mut session, Input::ReceiveFailed(ReceiveFault::TimedOut), early);
    let output = step(&mut session, Input::NoCommand, early + 1);
    assert!(matches!(&output.events[..], [Event::Disconnected { .. }]));
}

#[test]
fn strangers_do_not_keep_two_sides_apart() {
    let local = describe(&["192.0.2.1:1"]);
    let remote = describe(&["192.0.2.2:2", "192.0.2.3:3"]);
    let stranger = describe(&["192.0.2.9:9"]);
    let mut session = begin(&local, &[], 0);
    step(&mut session, Input::Command(Command::SetPeer(remote.clone())), 0);
    sent(step_with(&mut session, Input::NoCommand, 0, [1; 12]));
    let (_, target) = sent(step_with(&mut session, Input::Sent, 0, [2; 12]));
    assert_eq!(target, address("192.0.2.3:3"));
    quiet(step_with(&mut session, Input::Sent, 0, [3; 12]), Request::Receive);
    // Somebody else sends in between, under the very identifier that waits.
    let forged = packet(PacketKind::CheckOk, &stranger, &local, [2; 12]);
    let from = address("192.0.2.9:9");
    quiet(step(&mut session, datagram(from, forged), MS), Request::PollCommand);
    quiet(step(&mut session, Input::NoCommand, MS), Request::Receive);
    // The second probe is answered, and the first one only after that.
    let source = address("192.0.2.3:3");
    let answer = packet(PacketKind::CheckOk, &remote, &local, [2; 12]);
    told(
        step(&mut session, datagram(source, answer), 3 * SECOND),
        Event::Connected {
            source,
            kind: CandidateKind::Host,
            rtt: 3 * SECOND,
        },
        Request::PollCommand,
    );
    quiet(step(&mut session, Input::NoCommand, 3 * SECOND), Request::Receive);
    let late = packet(PacketKind::CheckOk, &remote, &local, [1; 12]);
    quiet(
        step(&mut session, datagram(address("192.0.2.2:2"), late), 3 * SECOND),
        Request::PollCommand,
    );
    let (_, target) = sent(step(&mut session, Input::Command(Command::Ping), 3 * SECOND));
    assert_eq!(target, source);
}
