use hole_punch::address::{parse_address, SocketAddress};
use hole_punch::console::{
    handle_event, handle_input, handle_input_event, local_candidates, parse_cli, progress_line,
    replace_public_candidate, report, show_code, Cli, Start,
};
use hole_punch::lines::{
    input_event, read_bounded_line, without_returns, Fed, InputEvent, PartialLine,
};
use hole_punch::protocol::{Candidate, CandidateKind, PeerDescription};
use hole_punch::session::{Command, Event, Stats};

fn address(text: &str) -> SocketAddress {
    let chars: Vec<char> = text.chars().collect();
    parse_address(&chars).unwrap()
}

fn description(id: u8) -> PeerDescription {
    PeerDescription {
        session_id: [id; 16],
        key: [id; 32],
        candidates: local_candidates(address("203.0.113.8:50123"), Some(address("10.0.0.2:7"))),
    }
}

fn strings(values: &[&str]) -> Vec<String> {
    values.iter().map(|value| (*value).to_owned()).collect()
}

#[test]
fn bounded_input_drains_oversized_line() {
    let bytes = b"123456789\nnext\n".to_vec();
    let (first, consumed) = read_bounded_line(&bytes, 4).unwrap();
    assert_eq!(first, ("1234".to_owned(), true));
    let (second, _) = read_bounded_line(&bytes[consumed..], 4).unwrap();
    assert_eq!(second, ("next".to_owned(), false));
}

#[test]
fn lines_end_with_the_stream() {
    assert!(read_bounded_line(b"", 4).is_none());
    assert!(read_bounded_line(b"abc", 0).is_none());
    assert_eq!(
        read_bounded_line(b"\n", 4),
        Some(((String::new(), false), 1))
    );
    assert_eq!(
        read_bounded_line(b"abc", 4),
        Some((("abc".to_owned(), false), 3))
    );
    assert_eq!(
        read_bounded_line(b"ab\r\r\nc", 9),
        Some((("ab".to_owned(), false), 5))
    );
    assert_eq!(
        read_bounded_line(b"\xd0\xb9\xff\n", 9),
        Some((("й\u{fffd}".to_owned(), false), 4))
    );
    assert_eq!(without_returns("a\r\r"), "a");
    assert_eq!(without_returns("\ra"), "\ra");
}

#[test]
fn lines_may_come_in_pieces() {
    let mut line = PartialLine::new(5);
    assert!(line.at_end().is_none());
    assert_eq!(
        line.feed(b"abc"),
        Fed {
            consumed: 3,
            complete: false
        }
    );
    assert_eq!(line.at_end(), Some(("abc".to_owned(), false)));
    assert_eq!(
        line.feed(b"defg\nrest"),
        Fed {
            consumed: 5,
            complete: true
        }
    );
    assert_eq!(line.line(), ("abcde".to_owned(), true));
}

#[test]
fn arguments_are_read() {
    let run = |stun_server: &str, stun_only| {
        Ok(Start::Run(Cli {
            stun_server: stun_server.to_owned(),
            stun_only,
        }))
    };
    assert_eq!(parse_cli(&strings(&[])), run("stun.cloudflare.com:3478", false));
    assert_eq!(
        parse_cli(&strings(&["--stun-only", "--stun", "a:1", "--stun", "b:2"])),
        run("b:2", true)
    );
    assert_eq!(parse_cli(&strings(&["-h", "--what"])), Ok(Start::Help));
    assert_eq!(parse_cli(&strings(&["--stun", "a:1", "--help"])), Ok(Start::Help));
    assert_eq!(
        parse_cli(&strings(&["--stun"])),
        Err("после --stun нужен адрес host:port".to_owned())
    );
    assert_eq!(
        parse_cli(&strings(&["--what", "-h"])),
        Err("неизвестный аргумент: --what".to_owned())
    );
}

#[test]
fn own_candidates_are_listed_once() {
    let public = address("203.0.113.8:50123");
    let local = address("10.0.0.2:7");
    let first = Candidate {
        kind: CandidateKind::ServerReflexive,
        address: public,
    };
    let second = Candidate {
        kind: CandidateKind::Host,
        address: local,
    };
    assert_eq!(local_candidates(public, Some(local)), vec![first, second]);
    assert_eq!(local_candidates(public, Some(public)), vec![first]);
    assert_eq!(local_candidates(public, None), vec![first]);
}

#[test]
fn public_candidate_is_replaced() {
    let mut d = description(1);
    d.candidates.swap(0, 1);
    let host = d.candidates[0];
    replace_public_candidate(&mut d, address("198.51.100.1:2"));
    assert_eq!(
        d.candidates,
        vec![
            host,
            Candidate {
                kind: CandidateKind::ServerReflexive,
                address: address("198.51.100.1:2")
            }
        ]
    );
    d.candidates.truncate(1);
    replace_public_candidate(&mut d, address("198.51.100.1:3"));
    assert_eq!(d.candidates, vec![host]);
}

#[test]
fn codes_are_shown() {
    let d = description(1);
    assert_eq!(
        show_code(&d, "X"),
        vec![
            "----- BEGIN X -----".to_owned(),
            d.encode().unwrap(),
            "----- END X -----".to_owned()
        ]
    );
    let mut bad = description(1);
    bad.candidates.clear();
    assert_eq!(
        show_code(&bad, "X"),
        strings(&["[ERROR CODE] не удалось сформировать код: нужно от 1 до 8 candidates"])
    );
}

#[test]
fn words_are_commands() {
    let local = description(1);
    assert!(handle_input(" /quit\t", &local).quit);
    assert!(handle_input("/exit", &local).quit);
    let help = handle_input("/help", &local);
    assert_eq!(
        help.message.unwrap(),
        "Команды: /status, /ping, /retry, /replace-code, /quit"
    );
    assert!(help.command.is_none() && !help.quit);
    assert!(matches!(
        handle_input("/status", &local).command,
        Some(Command::Status)
    ));
    assert!(matches!(
        handle_input("/ping", &local).command,
        Some(Command::Ping)
    ));
    assert!(matches!(
        handle_input("/retry", &local).command,
        Some(Command::Retry)
    ));
    let replace = handle_input("/replace-code", &local);
    assert!(matches!(replace.command, Some(Command::ClearPeer)));
    assert_eq!(
        replace.message.unwrap(),
        "Вставьте актуальный HP2-код второй машины:"
    );
    let nothing = handle_input("  ", &local);
    assert!(nothing.command.is_none() && nothing.message.is_none() && !nothing.quit);
}

#[test]
fn codes_are_commands() {
    let local = description(1);
    let peer = description(2);
    let line = format!("  {} ", peer.encode().unwrap());
    match handle_input(&line, &local).command {
        Some(Command::SetPeer(read)) => assert_eq!(read, peer),
        _ => panic!("a peer was expected"),
    }
    let own = handle_input(&local.encode().unwrap(), &local);
    assert!(own.command.is_none());
    assert_eq!(
        own.message.unwrap(),
        "[ERROR CODE] это собственный session code (session id совпадает)"
    );
    assert_eq!(
        handle_input("what?", &local).message.unwrap(),
        "[ERROR CODE] в строке не найдено начало HP2|"
    );
}

#[test]
fn events_are_reported() {
    let stats = Stats {
        probes_sent: 1,
        datagrams_received: 2,
        authenticated: 3,
        invalid: 4,
        selected_rtt: Some(12_999_999),
    };
    let line = "[STATS +5s] probes sent=1, datagrams received=2, authenticated=3, invalid=4, rtt=Some(\"12ms\")";
    assert_eq!(progress_line(5_999_999_999, stats), line);
    let source = address("192.0.2.1:3478");
    let kind = CandidateKind::ServerReflexive;
    let cases: Vec<(Event, Vec<&str>)> = vec![
        (Event::Info("x".to_owned()), vec!["[INFO] x"]),
        (
            Event::MappingChanged { address: source },
            vec!["[CODE EXPIRED] NAT изменил public mapping на 192.0.2.1:3478."],
        ),
        (
            Event::CheckingStarted { candidates: 2 },
            vec!["[CHECKING] проверяю 2 remote candidates, максимум 30 секунд."],
        ),
        (
            Event::Progress {
                elapsed: 5_000_000_000,
                stats,
            },
            vec![line],
        ),
        (
            Event::Connected {
                source,
                kind,
                rtt: 7_000_000,
            },
            vec!["[OK] Получен ответ на наш probe через PUBLIC (192.0.2.1:3478), RTT 7 ms."],
        ),
        (
            Event::PingResult(8_000_000),
            vec!["[PING] round-trip 8 ms."],
        ),
        (
            Event::Disconnected {
                reason: "x".to_owned(),
                stats: Stats::default(),
            },
            vec![
                "[DISCONNECTED] x",
                "[STATS +0s] probes sent=0, datagrams received=0, authenticated=0, invalid=0, rtt=None",
                "Сессия вернулась в rechecking; данные не передаются.",
            ],
        ),
        (
            Event::Failed {
                stats: Stats::default(),
            },
            vec![
                "[NOT CONNECTED] подтверждённый ответ не получен за 30 секунд.",
                "[STATS +30s] probes sent=0, datagrams received=0, authenticated=0, invalid=0, rtt=None",
                "Команды: /retry, /replace-code, /status, /quit",
            ],
        ),
        (
            Event::Status {
                state: "connected",
                peer: Some(source),
                kind: Some(kind),
                stats: Stats::default(),
            },
            vec![
                "[STATUS] state=connected, selected=Some(192.0.2.1:3478) (Some(ServerReflexive))",
                "[STATS +0s] probes sent=0, datagrams received=0, authenticated=0, invalid=0, rtt=None",
            ],
        ),
        (
            Event::Status {
                state: "waiting",
                peer: None,
                kind: None,
                stats: Stats::default(),
            },
            vec![
                "[STATUS] state=waiting, selected=None (None)",
                "[STATS +0s] probes sent=0, datagrams received=0, authenticated=0, invalid=0, rtt=None",
            ],
        ),
        (Event::Fatal("x".to_owned()), vec!["[ERROR SOCKET] x"]),
    ];
    for (event, lines) in cases {
        assert_eq!(report(&event), strings(&lines));
    }
}

#[test]
fn lines_become_input() {
    assert_eq!(input_event(None), InputEvent::Eof);
    assert_eq!(
        input_event(Some(("ab".to_owned(), true))),
        InputEvent::TooLong
    );
    assert_eq!(
        input_event(Some(("ab".to_owned(), false))),
        InputEvent::Line("ab".to_owned())
    );
}

#[test]
fn input_is_handled() {
    let local = description(1);
    let status = handle_input_event(&InputEvent::Line("/status".to_owned()), &local);
    assert!(matches!(status.command, Some(Command::Status)) && !status.quit);
    let long = handle_input_event(&InputEvent::TooLong, &local);
    assert!(long.command.is_none() && !long.quit);
    assert_eq!(
        long.message.unwrap(),
        "[INPUT] строка длиннее 2048 байт и отброшена."
    );
    let end = handle_input_event(&InputEvent::Eof, &local);
    assert!(end.command.is_none() && end.message.is_none() && end.quit);
}

#[test]
fn events_are_handled() {
    let mut local = description(1);
    let told = handle_event(&Event::Info("x".to_owned()), &mut local);
    assert_eq!((told.lines, told.stop), (strings(&["[INFO] x"]), false));
    assert_eq!(local, description(1));
    let told = handle_event(&Event::Fatal("x".to_owned()), &mut local);
    assert_eq!((told.lines, told.stop), (strings(&["[ERROR SOCKET] x"]), true));
    assert_eq!(local, description(1));

    let public = address("198.51.100.1:2");
    let told = handle_event(&Event::MappingChanged { address: public }, &mut local);
    let mut expected = description(1);
    expected.candidates[0].address = public;
    assert_eq!(local, expected);
    assert!(!told.stop);
    assert_eq!(
        told.lines,
        vec![
            "[CODE EXPIRED] NAT изменил public mapping на 198.51.100.1:2.".to_owned(),
            "----- BEGIN НОВЫЙ SESSION CODE -----".to_owned(),
            expected.encode().unwrap(),
            "----- END НОВЫЙ SESSION CODE -----".to_owned()
        ]
    );
}
