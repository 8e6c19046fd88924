use hole_punch::address::{parse_address, SocketAddress};
use hole_punch::discovery::{
    discover, discover_with, resolve_ipv4_all, Search, SearchError, SearchFault, SearchInput,
    SearchRequest,
};
use hole_punch::stun::{build_binding_request, Discovery, TransactionId, MAGIC_COOKIE};

const MS: u64 = 1_000_000;

fn address(text: &str) -> SocketAddress {
    let chars: Vec<char> = text.chars().collect();
    parse_address(&chars).unwrap()
}

fn response(transaction_id: TransactionId, mapped: SocketAddress) -> Vec<u8> {
    let mapped = match mapped {
        SocketAddress::V4(a) => a,
        _ => unreachable!(),
    };
    let mut response = Vec::new();
    response.extend_from_slice(&0x0101_u16.to_be_bytes());
    response.extend_from_slice(&12_u16.to_be_bytes());
    response.extend_from_slice(&MAGIC_COOKIE.to_be_bytes());
    response.extend_from_slice(&transaction_id);
    response.extend_from_slice(&0x0020_u16.to_be_bytes());
    response.extend_from_slice(&8_u16.to_be_bytes());
    response.extend_from_slice(&[0, 1]);
    response.extend_from_slice(&(mapped.port ^ (MAGIC_COOKIE >> 16) as u16).to_be_bytes());
    response.extend_from_slice(&(mapped.ip ^ MAGIC_COOKIE).to_be_bytes());
    response
}

fn sends(request: SearchRequest, id: TransactionId, to: SocketAddress) {
    assert_eq!(
        request,
        SearchRequest::Send {
            datagram: build_binding_request(id).to_vec(),
            target: to
        }
    );
}

fn step(search: &mut Search, input: SearchInput, now: u64) -> SearchRequest {
    assert!(search.awaits(&input));
    search.step_with(input, now, [9; 12])
}

#[test]
fn local_fake_server_observes_identical_retry_then_succeeds() {
    let server = address("127.0.0.1:3478");
    let expected = address("127.0.0.1:40000");
    let (mut search, first) = discover(vec![server], 0);
    let first_datagram = match first {
        SearchRequest::Send { datagram, target } => {
            assert_eq!(target, server);
            datagram
        }
        _ => panic!("a request was expected"),
    };
    let wait = search.step(SearchInput::Sent, 0);
    assert_eq!(wait, SearchRequest::Receive { timeout: 500 * MS });

    // The first request is lost.
    let second = search.step(
        SearchInput::ReceiveFailed(SearchFault::WouldBlock),
        500 * MS,
    );
    let second_datagram = match second {
        SearchRequest::Send { datagram, target } => {
            assert_eq!(target, server);
            datagram
        }
        _ => panic!("a request was expected"),
    };
    assert_eq!(first_datagram, second_datagram);
    let wait = search.step(SearchInput::Sent, 500 * MS);
    assert_eq!(wait, SearchRequest::Receive { timeout: 1000 * MS });

    let transaction_id: TransactionId = second_datagram[8..20].try_into().unwrap();
    let restore = search.step(
        SearchInput::Datagram {
            source: server,
            bytes: response(transaction_id, expected),
        },
        530 * MS,
    );
    assert_eq!(restore, SearchRequest::Restore);
    let done = search.step(SearchInput::Restored, 531 * MS);
    assert_eq!(
        done,
        SearchRequest::Done(Ok(Discovery {
            public_address: expected,
            server,
            rtt: 30 * MS
        }))
    );
}

#[test]
fn no_servers_are_an_error() {
    let (search, request) = discover_with(Vec::new(), 0, [1; 12]);
    assert_eq!(
        request,
        SearchRequest::Done(Err(SearchError::InvalidInput(
            "список STUN-серверов пуст".to_owned()
        )))
    );
    assert!(!search.awaits(&SearchInput::Sent));
}

#[test]
fn silent_servers_are_all_reported() {
    let a = address("192.0.2.1:3478");
    let b = address("192.0.2.2:3478");
    let (mut search, request) = discover_with(vec![a, b], 0, [1; 12]);
    sends(request, [1; 12], a);
    assert_eq!(
        step(&mut search, SearchInput::Sent, 0),
        SearchRequest::Receive { timeout: 500 * MS }
    );
    // A stranger does not count, and a bad answer is remembered.
    assert_eq!(
        step(
            &mut search,
            SearchInput::Datagram {
                source: b,
                bytes: response([1; 12], a)
            },
            100 * MS
        ),
        SearchRequest::Receive { timeout: 400 * MS }
    );
    assert_eq!(
        step(
            &mut search,
            SearchInput::Datagram {
                source: a,
                bytes: vec![]
            },
            200 * MS
        ),
        SearchRequest::Receive { timeout: 300 * MS }
    );
    let timed_out = SearchInput::ReceiveFailed(SearchFault::TimedOut);
    sends(step(&mut search, timed_out, 500 * MS), [1; 12], a);
    assert_eq!(
        step(&mut search, SearchInput::Sent, 500 * MS),
        SearchRequest::Receive { timeout: 1000 * MS }
    );
    let timed_out = SearchInput::ReceiveFailed(SearchFault::TimedOut);
    sends(step(&mut search, timed_out, 1500 * MS), [1; 12], a);
    assert_eq!(
        step(&mut search, SearchInput::Sent, 1500 * MS),
        SearchRequest::Receive { timeout: 2000 * MS }
    );
    // A datagram after the deadline ends the last attempt.
    assert_eq!(
        step(
            &mut search,
            SearchInput::Datagram {
                source: b,
                bytes: vec![]
            },
            3500 * MS
        ),
        SearchRequest::Describe { elapsed: 3500 * MS }
    );
    let request = step(
        &mut search,
        SearchInput::Described("3.5".to_owned()),
        3500 * MS,
    );
    sends(request, [9; 12], b);
    assert_eq!(
        step(
            &mut search,
            SearchInput::SendFailed("no route".to_owned()),
            3600 * MS
        ),
        SearchRequest::Restore
    );
    assert_eq!(
        step(&mut search, SearchInput::Restored, 3600 * MS),
        SearchRequest::Done(Err(SearchError::TimedOut(
            "ни один STUN IPv4 endpoint не ответил в быстром профиле: \
             192.0.2.1:3478: нет корректного Binding response за 3.5s; \
             последний ответ отклонён: STUN-пакет короче 20-байтного заголовка; \
             192.0.2.2:3478: no route"
                .to_owned()
        )))
    );
}

#[test]
fn server_errors_end_the_server() {
    let a = address("192.0.2.1:3478");
    let (mut search, _) = discover_with(vec![a], 0, [1; 12]);
    step(&mut search, SearchInput::Sent, 0);
    let mut packet = build_binding_request([1; 12]).to_vec();
    packet[0..2].copy_from_slice(&0x0111_u16.to_be_bytes());
    packet[2..4].copy_from_slice(&12_u16.to_be_bytes());
    packet.extend_from_slice(&[0, 9, 0, 8, 0, 0, 4, 0, b'n', b'o', b'p', b'e']);
    let request = step(
        &mut search,
        SearchInput::Datagram {
            source: a,
            bytes: packet,
        },
        MS,
    );
    assert_eq!(request, SearchRequest::Restore);
    assert_eq!(
        step(
            &mut search,
            SearchInput::RestoreFailed("bad socket".to_owned()),
            MS
        ),
        SearchRequest::Done(Err(SearchError::Other("bad socket".to_owned())))
    );
}

#[test]
fn receive_errors_end_the_server() {
    let a = address("192.0.2.1:3478");
    let (mut search, _) = discover_with(vec![a], 0, [1; 12]);
    step(&mut search, SearchInput::Sent, 0);
    let fault = SearchInput::ReceiveFailed(SearchFault::Other("refused".to_owned()));
    assert_eq!(step(&mut search, fault, MS), SearchRequest::Restore);
    assert_eq!(
        step(&mut search, SearchInput::Restored, MS),
        SearchRequest::Done(Err(SearchError::TimedOut(
            "ни один STUN IPv4 endpoint не ответил в быстром профиле: \
             192.0.2.1:3478: refused"
                .to_owned()
        )))
    );
}

#[test]
fn names_resolve_to_distinct_ipv4_addresses() {
    let a = address("192.0.2.1:3478");
    let b = address("192.0.2.2:3478");
    let six = address("[::1]:3478");
    assert_eq!(
        resolve_ipv4_all("name", &[six, b, a, b, six, a]).unwrap(),
        vec![b, a]
    );
    assert_eq!(
        resolve_ipv4_all("example:1", &[six]).unwrap_err(),
        "у example:1 не найден IPv4-адрес"
    );
}

#[test]
fn the_first_server_that_answers_ends_the_search() {
    let a = address("192.0.2.1:3478");
    let b = address("192.0.2.2:3478");
    let c = address("192.0.2.3:3478");
    let public = address("203.0.113.8:50123");
    let (mut search, request) = discover_with(vec![a, b, c], 0, [1; 12]);
    sends(request, [1; 12], a);
    let failed = SearchInput::SendFailed("no route".to_owned());
    sends(step(&mut search, failed, MS), [9; 12], b);
    assert_eq!(
        step(&mut search, SearchInput::Sent, 2 * MS),
        SearchRequest::Receive { timeout: 500 * MS }
    );
    let answer = SearchInput::Datagram {
        source: b,
        bytes: response([9; 12], public),
    };
    assert_eq!(step(&mut search, answer, 9 * MS), SearchRequest::Restore);
    assert_eq!(
        step(&mut search, SearchInput::Restored, 9 * MS),
        SearchRequest::Done(Ok(Discovery {
            public_address: public,
            server: b,
            rtt: 7 * MS
        }))
    );
    assert!(!search.awaits(&SearchInput::Sent));
}
