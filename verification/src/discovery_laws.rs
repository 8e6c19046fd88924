//! What holds of a search as a whole.

use crate::address;
use crate::address::{SocketAddress, SocketAddressV4};
use crate::discovery;
use crate::discovery::{
    SearchErrorView, SearchFaultView, SearchInputView, SearchPhase, SearchRequestView, SearchStep,
    SearchView,
};
use crate::pending;
use crate::stun;
use crate::stun::{BindingResponseView, Discovery, ParseErrorView};
use crate::stun_laws;
use crate::text;
use vstd::prelude::*;

verus! {

/// Every attempt to ask a server sends the same request to it, and another
/// identifier is used only for another server.
pub proof fn law_attempts_repeat_the_request(
    s: SearchView,
    input: SearchInputView,
    now: u64,
    fresh_id: Seq<u8>,
)
    requires
        s.consistent(),
        s.awaits(input),
    ensures
        ({
            let step = s.step(input, now, fresh_id);
            let t = step.search;
            &&& t.index == s.index ==> t.transaction_id == s.transaction_id
            &&& step.request matches SearchRequestView::Send { datagram, target } ==> datagram
                == stun::binding_request(t.transaction_id) && target == t.servers[t.index]
        }),
{
}

/// A server is asked three times and no more: an attempt without an answer is
/// followed by the next one, the third by the end.
pub proof fn law_three_attempts(s: SearchView, fault: SearchFaultView, now: u64, fresh_id: Seq<u8>)
    requires
        s.consistent(),
        s.phase == SearchPhase::Receiving,
        fault is WouldBlock || fault is TimedOut,
    ensures
        ({
            let step = s.step(SearchInputView::ReceiveFailed(fault), now, fresh_id);
            if s.attempt < 2 {
                &&& step.request is Send
                &&& step.search.attempt == s.attempt + 1
                &&& step.search.index == s.index
            } else {
                step.request == (SearchRequestView::Describe {
                    elapsed: pending::since(now, s.started),
                })
            }
        }),
{
}

/// A datagram from anybody but the server that is asked changes nothing but the
/// time that is left.
pub proof fn law_strangers_are_ignored(
    s: SearchView,
    source: SocketAddress,
    bytes: Seq<u8>,
    now: u64,
    fresh_id: Seq<u8>,
)
    requires
        source != s.servers[s.index],
    ensures
        s.step(SearchInputView::Datagram { source, bytes }, now, fresh_id) == s.wait(now),
{
}

/// An address is found only in a successful response of the server that is
/// asked, to the request that it was sent.
pub proof fn law_found_by_the_asked_server_alone(
    s: SearchView,
    input: SearchInputView,
    now: u64,
    fresh_id: Seq<u8>,
    found: Discovery,
)
    requires
        s.consistent(),
        s.awaits(input),
        s.step(input, now, fresh_id).search.outcome == Some(
            Ok::<Discovery, SearchErrorView>(found),
        ),
    ensures
        found.server == s.servers[s.index],
        found.rtt == pending::since(now, s.last_sent),
        input matches SearchInputView::Datagram { source, bytes } && source == found.server
            && stun::read_binding_response(bytes, s.transaction_id) == Ok::<
            BindingResponseView,
            ParseErrorView,
        >(BindingResponseView::Success(found.public_address)),
{
}

/// A server that answers with the masked IPv4 address it sees ends the search:
/// that address is found, with the time since the last attempt.
pub proof fn law_answer_is_found(
    s: SearchView,
    reserved: u8,
    a: SocketAddressV4,
    now: u64,
    fresh_id: Seq<u8>,
)
    requires
        s.consistent(),
        s.phase == SearchPhase::Receiving,
        s.transaction_id.len() == 12,
        a.port != 0,
    ensures
        ({
            let bytes = stun_laws::success_response(
                stun_laws::mapped_v4(reserved, a),
                s.transaction_id,
            );
            let source = s.servers[s.index];
            let step = s.step(SearchInputView::Datagram { source, bytes }, now, fresh_id);
            &&& step.search.outcome == Some(
                Ok::<Discovery, SearchErrorView>(
                    Discovery {
                        public_address: SocketAddress::V4(a),
                        server: source,
                        rtt: pending::since(now, s.last_sent),
                    },
                ),
            )
            &&& step.request is Restore
        }),
{
    stun_laws::law_response_reads_back(reserved, a, s.transaction_id);
}

/// A search that has asked a server ends only after the socket was restored, and
/// it ends with the outcome that it had before unless that failed.
pub proof fn law_socket_is_restored(
    s: SearchView,
    input: SearchInputView,
    now: u64,
    fresh_id: Seq<u8>,
)
    requires
        s.consistent(),
        s.awaits(input),
    ensures
        s.step(input, now, fresh_id).request is Done ==> s.phase == SearchPhase::Restoring,
        input is Restored ==> s.step(input, now, fresh_id).request == SearchRequestView::Done(
            s.outcome->0,
        ),
{
}

/// A search that gives up has a failure to report for every server.
pub proof fn law_every_failure_is_reported(
    s: SearchView,
    input: SearchInputView,
    now: u64,
    fresh_id: Seq<u8>,
)
    requires
        s.consistent(),
        s.awaits(input),
        s.step(input, now, fresh_id).request is Restore,
    ensures
        s.step(input, now, fresh_id).search.outcome->0 is Err ==> s.step(
            input,
            now,
            fresh_id,
        ).search.failures.len() == s.servers.len(),
{
}

// ---------------------------------------------------------------------------
// The whole search
// ---------------------------------------------------------------------------

/// The outcome of a request, the time at which it came, and the identifier for a
/// server that is asked from then on.
pub struct SearchOutcome {
    pub input: SearchInputView,
    pub now: u64,
    pub fresh_id: Seq<u8>,
}

/// The error with which an outcome ends the server that is asked, if it does.
pub open spec fn server_error(s: SearchView, input: SearchInputView) -> Option<Seq<char>> {
    match input {
        SearchInputView::SendFailed(e) => Some(e),
        SearchInputView::ReceiveFailed(SearchFaultView::Other(e)) => Some(e),
        SearchInputView::Described(seconds) => Some(s.silence(seconds)),
        SearchInputView::Datagram { source, bytes } => if source != s.servers[s.index] {
            None
        } else {
            match stun::read_binding_response(bytes, s.transaction_id) {
                Ok(BindingResponseView::ServerError { code, reason }) => Some(
                    "STUN server error "@ + text::decimal(code as nat) + ": "@ + reason,
                ),
                _ => None,
            }
        },
        _ => None,
    }
}

/// A search over several outcomes: where it stands, all its requests, and the
/// errors of the servers that have failed.
pub struct SearchRun {
    pub search: SearchView,
    pub requests: Seq<SearchRequestView>,
    pub errors: Seq<Seq<char>>,
}

/// A search that takes the outcomes one by one after its first step.
pub open spec fn search_run(first: SearchStep, outcomes: Seq<SearchOutcome>) -> SearchRun
    decreases outcomes.len(),
{
    if outcomes.len() == 0 {
        SearchRun { search: first.search, requests: seq![first.request], errors: Seq::empty() }
    } else {
        let before = search_run(first, outcomes.drop_last());
        let last = outcomes.last();
        let step = before.search.step(last.input, last.now, last.fresh_id);
        SearchRun {
            search: step.search,
            requests: before.requests.push(step.request),
            errors: match server_error(before.search, last.input) {
                Some(e) => before.errors.push(e),
                None => before.errors,
            },
        }
    }
}

/// Every outcome is one that the search awaits when it comes.
pub open spec fn can_search(first: SearchStep, outcomes: Seq<SearchOutcome>) -> bool
    decreases outcomes.len(),
{
    outcomes.len() > 0 ==> {
        &&& can_search(first, outcomes.drop_last())
        &&& search_run(first, outcomes.drop_last()).search.awaits(outcomes.last().input)
    }
}

/// The servers with their errors, in order.
pub open spec fn failure_lines(servers: Seq<SocketAddress>, errors: Seq<Seq<char>>) -> Seq<
    Seq<char>,
> {
    Seq::new(
        errors.len(),
        |k: int| address::address_text(servers[k]) + ": "@ + errors[k],
    )
}

/// What is said where no server gave an address.
pub open spec fn all_failed(servers: Seq<SocketAddress>, errors: Seq<Seq<char>>) -> SearchErrorView {
    SearchErrorView::TimedOut(
        "ни один STUN IPv4 endpoint не ответил в быстром профиле: "@ + text::join(
            failure_lines(servers, errors),
            "; "@,
        ),
    )
}

/// Nothing is sent but to the first `n` servers.
pub open spec fn asks_only(
    servers: Seq<SocketAddress>,
    n: int,
    requests: Seq<SearchRequestView>,
) -> bool {
    forall|i: int|
        0 <= i < requests.len() && (#[trigger] requests[i]) is Send ==> exists|k: int|
            0 <= k < n && #[trigger] servers[k] == requests[i]->target
}

spec fn searching(servers: Seq<SocketAddress>, r: SearchRun) -> bool {
    &&& r.search.servers == servers
    &&& r.search.consistent()
    &&& r.search.failures == failure_lines(servers, r.errors)
    &&& 0 <= r.search.index < servers.len()
    &&& asks_only(servers, r.search.index + 1, r.requests)
    &&& match r.search.phase {
        SearchPhase::Restoring => match r.search.outcome->0 {
            Ok(d) => r.errors.len() == r.search.index && d.server == servers[r.search.index],
            Err(e) => r.errors.len() == servers.len() && e == all_failed(servers, r.errors),
        },
        SearchPhase::Finished => true,
        _ => r.errors.len() == r.search.index,
    }
}

proof fn lemma_asks_only_push(
    servers: Seq<SocketAddress>,
    n: int,
    m: int,
    requests: Seq<SearchRequestView>,
    request: SearchRequestView,
)
    requires
        asks_only(servers, n, requests),
        n <= m,
        request is Send ==> m > 0 && request->target == servers[m - 1],
    ensures
        asks_only(servers, m, requests.push(request)),
{
    let all = requests.push(request);
    assert forall|i: int| 0 <= i < all.len() && (#[trigger] all[i]) is Send implies exists|k: int|
        0 <= k < m && #[trigger] servers[k] == all[i]->target by {
        if i < requests.len() {
            assert(all[i] == requests[i]);
            let k = choose|k: int| 0 <= k < n && #[trigger] servers[k] == requests[i]->target;
            assert(servers[k] == all[i]->target);
        } else {
            assert(servers[m - 1] == all[i]->target);
        }
    }
}

proof fn lemma_search_step(
    servers: Seq<SocketAddress>,
    before: SearchRun,
    o: SearchOutcome,
    after: SearchRun,
)
    requires
        searching(servers, before),
        before.search.awaits(o.input),
        after.search == before.search.step(o.input, o.now, o.fresh_id).search,
        after.requests == before.requests.push(
            before.search.step(o.input, o.now, o.fresh_id).request,
        ),
        after.errors == match server_error(before.search, o.input) {
            Some(e) => before.errors.push(e),
            None => before.errors,
        },
    ensures
        searching(servers, after),
{
    let s = before.search;
    let step = s.step(o.input, o.now, o.fresh_id);
    if let Some(e) = server_error(s, o.input) {
        assert(failure_lines(servers, after.errors) =~= failure_lines(servers, before.errors).push(
            address::address_text(servers[s.index]) + ": "@ + e,
        ));
    }
    lemma_asks_only_push(
        servers,
        s.index + 1,
        step.search.index + 1,
        before.requests,
        step.request,
    );
}

proof fn lemma_searching(
    servers: Seq<SocketAddress>,
    now: u64,
    id: Seq<u8>,
    outcomes: Seq<SearchOutcome>,
)
    requires
        servers.len() > 0,
        can_search(discovery::first_step(servers, now, id), outcomes),
    ensures
        searching(servers, search_run(discovery::first_step(servers, now, id), outcomes)),
    decreases outcomes.len(),
{
    let first = discovery::first_step(servers, now, id);
    if outcomes.len() == 0 {
        assert(failure_lines(servers, Seq::empty()) =~= Seq::<Seq<char>>::empty());
        let requests = seq![first.request];
        assert(requests =~= Seq::<SearchRequestView>::empty().push(first.request));
        lemma_asks_only_push(servers, 0, 1, Seq::empty(), first.request);
    } else {
        lemma_searching(servers, now, id, outcomes.drop_last());
        lemma_search_step(
            servers,
            search_run(first, outcomes.drop_last()),
            outcomes.last(),
            search_run(first, outcomes),
        );
    }
}

/// A search without servers is an error at once, and nothing is sent.
pub proof fn law_no_servers(now: u64, id: Seq<u8>)
    ensures
        discovery::first_step(Seq::empty(), now, id).request == SearchRequestView::Done(
            Err::<Discovery, SearchErrorView>(
                SearchErrorView::InvalidInput("список STUN-серверов пуст"@),
            ),
        ),
        discovery::first_step(Seq::empty(), now, id).search.phase == SearchPhase::Finished,
{
}

/// The servers are asked in order and the first one that gives an address ends
/// the search. Over any outcomes, a search that is done has restored the socket or
/// tried to. Where that failed it ends with that error. Where it gives an address,
/// it is from a server before which every other has failed, and the servers behind
/// were sent nothing. Otherwise every server has failed, and the error lists each
/// with its error, in order.
pub proof fn law_whole_search(
    servers: Seq<SocketAddress>,
    now: u64,
    id: Seq<u8>,
    outcomes: Seq<SearchOutcome>,
    result: Result<Discovery, SearchErrorView>,
)
    requires
        servers.len() > 0,
        can_search(discovery::first_step(servers, now, id), outcomes),
        search_run(discovery::first_step(servers, now, id), outcomes).requests.last()
            == SearchRequestView::Done(result),
    ensures
        outcomes.len() > 0,
        ({
            let r = search_run(discovery::first_step(servers, now, id), outcomes);
            match outcomes.last().input {
                SearchInputView::RestoreFailed(e) => result == Err::<Discovery, _>(
                    SearchErrorView::Other(e),
                ),
                SearchInputView::Restored => match result {
                    Ok(d) => {
                        &&& r.errors.len() < servers.len()
                        &&& d.server == servers[r.errors.len() as int]
                        &&& asks_only(servers, r.errors.len() as int + 1, r.requests)
                    },
                    Err(e) => r.errors.len() == servers.len() && e == all_failed(
                        servers,
                        r.errors,
                    ),
                },
                _ => false,
            }
        }),
{
    let first = discovery::first_step(servers, now, id);
    if outcomes.len() > 0 {
        let before = search_run(first, outcomes.drop_last());
        let o = outcomes.last();
        let step = before.search.step(o.input, o.now, o.fresh_id);
        lemma_searching(servers, now, id, outcomes.drop_last());
        assert(search_run(first, outcomes).requests.last() == step.request);
        if o.input is Restored {
            lemma_asks_only_push(
                servers,
                before.search.index + 1,
                before.search.index + 1,
                before.requests,
                step.request,
            );
        }
    }
}

} // verus!
