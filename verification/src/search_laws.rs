//! What each outcome does to a search, in numbers. All times are nanoseconds.

use crate::address;
use crate::address::SocketAddress;
use crate::datagram_laws;
use crate::discovery;
use crate::discovery::{
    SearchErrorView, SearchFaultView, SearchInputView, SearchPhase, SearchRequestView, SearchStep,
    SearchView,
};
use crate::session::LAST_INSTANT;
use crate::stun;
use crate::stun::{BindingResponseView, Discovery, ParseErrorView};
use crate::text;
use crate::wire_laws;
use vstd::prelude::*;

verus! {

/// The time for which the answer to an attempt is awaited: half a second, one
/// second, two seconds.
pub open spec fn patience(attempt: int) -> int {
    if attempt == 0 {
        500_000_000
    } else if attempt == 1 {
        1_000_000_000
    } else {
        2_000_000_000
    }
}

/// The request goes to the server that is asked, under the identifier of the
/// search.
pub open spec fn sends(search: SearchView) -> SearchStep {
    SearchStep {
        search: SearchView { phase: SearchPhase::Sending, ..search },
        request: SearchRequestView::Send {
            datagram: wire_laws::request(search.transaction_id),
            target: search.servers[search.index],
        },
    }
}

/// The server that is asked has failed: its failure is noted, and the next one is
/// asked afresh, under an identifier of its own. After the last one the search
/// gives up with all failures.
pub open spec fn moves_on(s: SearchView, error: Seq<char>, now: u64, id: Seq<u8>) -> SearchStep {
    let failures = s.failures.push(
        address::address_text(s.servers[s.index]) + ": "@ + error,
    );
    if s.index + 1 < s.servers.len() {
        sends(
            SearchView {
                index: s.index + 1,
                transaction_id: id,
                started: now,
                attempt: 0,
                last_error: None,
                failures,
                ..s
            },
        )
    } else {
        SearchStep {
            search: SearchView {
                failures,
                outcome: Some(
                    Err(
                        SearchErrorView::TimedOut(
                            "ни один STUN IPv4 endpoint не ответил в быстром профиле: "@
                                + text::join(failures, "; "@),
                        ),
                    ),
                ),
                phase: SearchPhase::Restoring,
                ..s
            },
            request: SearchRequestView::Restore,
        }
    }
}

/// The attempt is over: the same request goes out again, up to three times in
/// all. After the third the time since the server was first asked is to be
/// written.
pub open spec fn tries_again(s: SearchView, now: u64) -> SearchStep {
    if s.attempt < 2 {
        sends(SearchView { attempt: s.attempt + 1, ..s })
    } else {
        SearchStep {
            search: SearchView { phase: SearchPhase::Describing, ..s },
            request: SearchRequestView::Describe {
                elapsed: datagram_laws::time_between(s.started, now),
            },
        }
    }
}

/// The rest of the attempt's time is waited out.
pub open spec fn keeps_waiting(s: SearchView, now: u64) -> SearchStep {
    if now < s.deadline {
        SearchStep {
            search: SearchView { phase: SearchPhase::Receiving, ..s },
            request: SearchRequestView::Receive { timeout: (s.deadline - now) as u64 },
        }
    } else {
        tries_again(s, now)
    }
}

/// A search asks the first server at once.
pub proof fn law_search_begins(servers: Seq<SocketAddress>, now: u64, id: Seq<u8>)
    requires
        servers.len() > 0,
    ensures
        discovery::first_step(servers, now, id).request == (SearchRequestView::Send {
            datagram: wire_laws::request(id),
            target: servers[0],
        }),
        ({
            let t = discovery::first_step(servers, now, id).search;
            &&& t.servers == servers
            &&& t.index == 0
            &&& t.transaction_id == id
            &&& t.started == now
            &&& t.attempt == 0
            &&& t.last_error is None
            &&& t.failures == Seq::<Seq<char>>::empty()
            &&& t.outcome is None
            &&& t.phase == SearchPhase::Sending
        }),
{
    wire_laws::law_request_layout(id);
}

/// Once the request is on its way its answer is awaited for half a second at
/// first, then for one and for two seconds.
pub proof fn law_answer_is_awaited(s: SearchView, now: u64, id: Seq<u8>)
    requires
        0 <= s.attempt < 3,
        now <= LAST_INSTANT,
    ensures
        s.step(SearchInputView::Sent, now, id) == (SearchStep {
            search: SearchView {
                last_sent: now,
                deadline: (now + patience(s.attempt)) as u64,
                phase: SearchPhase::Receiving,
                ..s
            },
            request: SearchRequestView::Receive { timeout: patience(s.attempt) as u64 },
        }),
{
}

/// A request that could not be sent, and a socket that fails, end the server with
/// that error.
pub proof fn law_faults_end_the_server(s: SearchView, error: Seq<char>, now: u64, id: Seq<u8>)
    ensures
        s.step(SearchInputView::SendFailed(error), now, id) == moves_on(s, error, now, id),
        s.step(
            SearchInputView::ReceiveFailed(SearchFaultView::Other(error)),
            now,
            id,
        ) == moves_on(s, error, now, id),
{
    wire_laws::law_request_layout(id);
}

/// Silence ends the attempt.
pub proof fn law_silence_ends_the_attempt(s: SearchView, now: u64, id: Seq<u8>)
    ensures
        s.step(SearchInputView::ReceiveFailed(SearchFaultView::WouldBlock), now, id)
            == tries_again(s, now),
        s.step(SearchInputView::ReceiveFailed(SearchFaultView::TimedOut), now, id) == tries_again(
            s,
            now,
        ),
{
    wire_laws::law_request_layout(s.transaction_id);
}

/// A datagram from anybody else changes nothing: the attempt goes on as long as
/// its time lasts.
pub proof fn law_other_senders_do_not_count(
    s: SearchView,
    source: SocketAddress,
    bytes: Seq<u8>,
    now: u64,
    id: Seq<u8>,
)
    requires
        source != s.servers[s.index],
    ensures
        s.step(SearchInputView::Datagram { source, bytes }, now, id) == keeps_waiting(s, now),
{
    wire_laws::law_request_layout(s.transaction_id);
}

/// An address from the server that is asked is found, with the time since the
/// request was last sent; it is kept until the socket is as it was.
pub proof fn law_address_is_found(
    s: SearchView,
    bytes: Seq<u8>,
    found: SocketAddress,
    now: u64,
    id: Seq<u8>,
)
    requires
        stun::read_binding_response(bytes, s.transaction_id) == Ok::<
            BindingResponseView,
            ParseErrorView,
        >(BindingResponseView::Success(found)),
    ensures
        s.step(
            SearchInputView::Datagram { source: s.servers[s.index], bytes },
            now,
            id,
        ) == (SearchStep {
            search: SearchView {
                outcome: Some(
                    Ok(
                        Discovery {
                            public_address: found,
                            server: s.servers[s.index],
                            rtt: datagram_laws::time_between(s.last_sent, now),
                        },
                    ),
                ),
                phase: SearchPhase::Restoring,
                ..s
            },
            request: SearchRequestView::Restore,
        }),
{
}

/// An error of the server that is asked ends it.
pub proof fn law_server_error_ends_the_server(
    s: SearchView,
    bytes: Seq<u8>,
    code: u16,
    reason: Seq<char>,
    now: u64,
    id: Seq<u8>,
)
    requires
        stun::read_binding_response(bytes, s.transaction_id) == Ok::<
            BindingResponseView,
            ParseErrorView,
        >(BindingResponseView::ServerError { code, reason }),
    ensures
        s.step(
            SearchInputView::Datagram { source: s.servers[s.index], bytes },
            now,
            id,
        ) == moves_on(
            s,
            "STUN server error "@ + text::decimal(code as nat) + ": "@ + reason,
            now,
            id,
        ),
{
    wire_laws::law_request_layout(id);
}

/// Any other packet of the server that is asked is remembered with what is wrong
/// with it; the attempt goes on as long as its time lasts.
pub proof fn law_bad_answer_is_remembered(s: SearchView, bytes: Seq<u8>, now: u64, id: Seq<u8>)
    requires
        stun::read_binding_response(bytes, s.transaction_id) is Err,
    ensures
        s.step(
            SearchInputView::Datagram { source: s.servers[s.index], bytes },
            now,
            id,
        ) == keeps_waiting(
            SearchView {
                last_error: Some(
                    match stun::read_binding_response(bytes, s.transaction_id)->Err_0 {
                        ParseErrorView::NotThisTransaction(m) => m,
                        ParseErrorView::Malformed(m) => m,
                    },
                ),
                ..s
            },
            now,
        ),
{
    wire_laws::law_request_layout(s.transaction_id);
}

/// A server that was silent ends with the time that it was given, and with what
/// was wrong with its last packet if it sent any.
pub proof fn law_silent_server_is_described(
    s: SearchView,
    seconds: Seq<char>,
    now: u64,
    id: Seq<u8>,
)
    ensures
        s.step(SearchInputView::Described(seconds), now, id) == moves_on(
            s,
            "нет корректного Binding response за "@ + seconds + "s"@ + if s.last_error is Some {
                "; последний ответ отклонён: "@ + s.last_error->0
            } else {
                Seq::empty()
            },
            now,
            id,
        ),
{
    wire_laws::law_request_layout(id);
    let base = "нет корректного Binding response за "@ + seconds + "s"@;
    assert(base + Seq::<char>::empty() =~= base);
}

/// The search ends with its outcome once the socket is as it was, or with the
/// error that kept it from being so.
pub proof fn law_search_ends(s: SearchView, error: Seq<char>, now: u64, id: Seq<u8>)
    requires
        s.outcome is Some,
    ensures
        ({
            let over = SearchView { outcome: None, phase: SearchPhase::Finished, ..s };
            &&& s.step(SearchInputView::Restored, now, id) == SearchStep {
                search: over,
                request: SearchRequestView::Done(s.outcome->0),
            }
            &&& s.step(SearchInputView::RestoreFailed(error), now, id) == SearchStep {
                search: over,
                request: SearchRequestView::Done(Err(SearchErrorView::Other(error))),
            }
        }),
{
}

/// The outcome that fits a request.
pub open spec fn fits(request: SearchRequestView, input: SearchInputView) -> bool {
    match request {
        SearchRequestView::Send { .. } => input is Sent || input is SendFailed,
        SearchRequestView::Receive { .. } => input is Datagram || input is ReceiveFailed,
        SearchRequestView::Describe { .. } => input is Described,
        SearchRequestView::Restore => input is Restored || input is RestoreFailed,
        SearchRequestView::Done(_) => false,
    }
}

/// A search takes exactly the outcomes that fit its last request.
pub proof fn law_outcomes_fit_the_request(
    s: SearchView,
    input: SearchInputView,
    now: u64,
    id: Seq<u8>,
    next: SearchInputView,
)
    ensures
        s.step(input, now, id).search.awaits(next) <==> fits(s.step(input, now, id).request, next),
{
}

/// The addresses of a name: the IPv4 ones, each once, in the order in which they
/// first occur.
pub proof fn law_names_resolve(resolved: Seq<SocketAddress>, next: SocketAddress)
    ensures
        discovery::distinct_v4(Seq::empty()) == Seq::<SocketAddress>::empty(),
        discovery::distinct_v4(resolved.push(next)) == if next is V4 && !resolved.contains(next) {
            discovery::distinct_v4(resolved).push(next)
        } else {
            discovery::distinct_v4(resolved)
        },
{
    assert(resolved.push(next).drop_last() =~= resolved);
    if next is V4 {
        lemma_same_addresses(resolved, next);
    }
}

/// A server without an IPv4 address is named.
pub proof fn law_missing_address_is_named(server: Seq<char>)
    ensures
        discovery::no_address(server) == "у "@ + server + " не найден IPv4-адрес"@,
{
}

/// An IPv4 address is kept exactly when it occurs.
proof fn lemma_same_addresses(resolved: Seq<SocketAddress>, a: SocketAddress)
    requires
        a is V4,
    ensures
        discovery::distinct_v4(resolved).contains(a) <==> resolved.contains(a),
    decreases resolved.len(),
{
    if resolved.len() > 0 {
        let front = resolved.drop_last();
        let before = discovery::distinct_v4(front);
        lemma_same_addresses(front, a);
        assert(resolved =~= front.push(resolved.last()));
        assert(resolved.contains(a) <==> front.contains(a) || resolved.last() == a) by {
            if resolved.contains(a) {
                let i = choose|i: int| 0 <= i < resolved.len() && resolved[i] == a;
                if i < front.len() {
                    assert(front[i] == a);
                }
            }
            if front.contains(a) {
                let i = choose|i: int| 0 <= i < front.len() && front[i] == a;
                assert(resolved[i] == a);
            }
            if resolved.last() == a {
                assert(resolved[resolved.len() - 1] == a);
            }
        }
        let after = before.push(resolved.last());
        assert(after.contains(a) <==> before.contains(a) || resolved.last() == a) by {
            if after.contains(a) {
                let i = choose|i: int| 0 <= i < after.len() && after[i] == a;
                if i < before.len() {
                    assert(before[i] == a);
                }
            }
            if before.contains(a) {
                let i = choose|i: int| 0 <= i < before.len() && before[i] == a;
                assert(after[i] == a);
            }
            assert(after[before.len() as int] == resolved.last());
        }
    }
}

/// A search never makes more than three attempts at a server, and where it works on
/// one, every server before it has failed once.
pub proof fn law_search_keeps_its_bounds(s: SearchView)
    requires
        s.consistent(),
    ensures
        s.attempt == 0 || s.attempt == 1 || s.attempt == 2,
        s.phase == SearchPhase::Sending || s.phase == SearchPhase::Receiving || s.phase
            == SearchPhase::Describing ==> 0 <= s.index < s.servers.len() && s.failures.len()
            == s.index,
        s.outcome is Some ==> s.phase == SearchPhase::Restoring,
{
}

} // verus!
