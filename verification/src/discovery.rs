//! The search for one's own public address among a list of STUN servers.
//!
//! A `Search` performs no I/O. It hands out requests, and each outcome of a
//! request is given back to it together with the time in nanoseconds.

use crate::address;
use crate::address::{format_address, SocketAddress};
use crate::bytes;
use crate::pending;
use crate::pending::elapsed;
use crate::session::{option_view, LAST_INSTANT, SECOND, STUN_RETRY};
use crate::session_model;
use crate::stun;
use crate::stun::{
    build_binding_request, parse_binding_response, random_transaction_id, BindingResponse,
    BindingResponseView, Discovery, TransactionId,
};
use crate::text;
use crate::text::{decimal_text, join_strings};
use vstd::prelude::*;
use vstd::string::StringExecFns;

verus! {

// ---------------------------------------------------------------------------
// Server names
// ---------------------------------------------------------------------------

/// The IPv4 addresses in a list, each where it occurs first.
pub open spec fn distinct_v4(resolved: Seq<SocketAddress>) -> Seq<SocketAddress>
    decreases resolved.len(),
{
    if resolved.len() == 0 {
        Seq::empty()
    } else {
        let before = distinct_v4(resolved.drop_last());
        let last = resolved.last();
        if last is V4 && !before.contains(last) {
            before.push(last)
        } else {
            before
        }
    }
}

/// What is said of a server without an IPv4 address.
pub open spec fn no_address(server: Seq<char>) -> Seq<char> {
    "у "@ + server + " не найден IPv4-адрес"@
}

fn contains_address(addresses: &Vec<SocketAddress>, address: SocketAddress) -> (r: bool)
    ensures
        r == addresses@.contains(address),
{
    let mut i: usize = 0;
    while i < addresses.len()
        invariant
            i <= addresses@.len(),
            forall|j: int| 0 <= j < i ==> addresses@[j] != address,
        decreases addresses@.len() - i,
    {
        if addresses[i] == address {
            return true;
        }
        i += 1;
    }
    false
}

/// Picks the IPv4 addresses of a server out of all addresses that its name
/// resolves to.
pub fn resolve_ipv4_all(server: &str, resolved: &[SocketAddress]) -> (r: Result<
    Vec<SocketAddress>,
    String,
>)
    ensures
        match r {
            Ok(addresses) => addresses@ == distinct_v4(resolved@) && addresses@.len() > 0,
            Err(m) => distinct_v4(resolved@).len() == 0 && m@ == no_address(server@),
        },
{
    let mut addresses: Vec<SocketAddress> = Vec::new();
    let mut i: usize = 0;
    assert(resolved@.take(0) =~= Seq::empty());
    while i < resolved.len()
        invariant
            i <= resolved@.len(),
            addresses@ == distinct_v4(resolved@.take(i as int)),
        decreases resolved@.len() - i,
    {
        let address: SocketAddress = resolved[i];
        assert(resolved@.take(i + 1).drop_last() =~= resolved@.take(i as int));
        let is_v4: bool = match address {
            SocketAddress::V4(_) => true,
            SocketAddress::V6(_) => false,
        };
        if is_v4 && !contains_address(&addresses, address) {
            addresses.push(address);
        }
        i += 1;
    }
    assert(resolved@.take(i as int) =~= resolved@);
    if addresses.len() == 0 {
        let mut m: String = "у ".to_owned();
        m.append(server);
        m.append(" не найден IPv4-адрес");
        return Err(m);
    }
    Ok(addresses)
}

// ---------------------------------------------------------------------------
// Requests and their outcomes
// ---------------------------------------------------------------------------

/// Why no public address was found.
#[derive(Clone, Debug, PartialEq, Eq)]
pub enum SearchError {
    InvalidInput(String),
    TimedOut(String),
    Other(String),
}

/// The mathematical form of a `SearchError`.
pub enum SearchErrorView {
    InvalidInput(Seq<char>),
    TimedOut(Seq<char>),
    Other(Seq<char>),
}

impl View for SearchError {
    type V = SearchErrorView;

    open spec fn view(&self) -> SearchErrorView {
        match self {
            SearchError::InvalidInput(m) => SearchErrorView::InvalidInput(m@),
            SearchError::TimedOut(m) => SearchErrorView::TimedOut(m@),
            SearchError::Other(m) => SearchErrorView::Other(m@),
        }
    }
}

/// The mathematical form of an outcome of a search.
pub open spec fn outcome_view(r: Result<Discovery, SearchError>) -> Result<
    Discovery,
    SearchErrorView,
> {
    match r {
        Ok(d) => Ok(d),
        Err(e) => Err(e@),
    }
}

/// Why no datagram was received.
#[derive(Debug, PartialEq, Eq)]
pub enum SearchFault {
    WouldBlock,
    TimedOut,
    Other(String),
}

/// The mathematical form of a `SearchFault`.
pub enum SearchFaultView {
    WouldBlock,
    TimedOut,
    Other(Seq<char>),
}

impl View for SearchFault {
    type V = SearchFaultView;

    open spec fn view(&self) -> SearchFaultView {
        match self {
            SearchFault::WouldBlock => SearchFaultView::WouldBlock,
            SearchFault::TimedOut => SearchFaultView::TimedOut,
            SearchFault::Other(error) => SearchFaultView::Other(error@),
        }
    }
}

/// The outcome of a request.
#[derive(Debug)]
pub enum SearchInput {
    Sent,
    SendFailed(String),
    Datagram { source: SocketAddress, bytes: Vec<u8> },
    ReceiveFailed(SearchFault),
    /// The time in seconds, as text.
    Described(String),
    Restored,
    RestoreFailed(String),
}

/// The mathematical form of a `SearchInput`.
pub enum SearchInputView {
    Sent,
    SendFailed(Seq<char>),
    Datagram { source: SocketAddress, bytes: Seq<u8> },
    ReceiveFailed(SearchFaultView),
    Described(Seq<char>),
    Restored,
    RestoreFailed(Seq<char>),
}

impl View for SearchInput {
    type V = SearchInputView;

    open spec fn view(&self) -> SearchInputView {
        match self {
            SearchInput::Sent => SearchInputView::Sent,
            SearchInput::SendFailed(e) => SearchInputView::SendFailed(e@),
            SearchInput::Datagram { source, bytes } => SearchInputView::Datagram {
                source: *source,
                bytes: bytes@,
            },
            SearchInput::ReceiveFailed(fault) => SearchInputView::ReceiveFailed(fault@),
            SearchInput::Described(t) => SearchInputView::Described(t@),
            SearchInput::Restored => SearchInputView::Restored,
            SearchInput::RestoreFailed(e) => SearchInputView::RestoreFailed(e@),
        }
    }
}

/// What a search wants done.
#[derive(Debug, PartialEq, Eq)]
pub enum SearchRequest {
    Send { datagram: Vec<u8>, target: SocketAddress },
    /// Wait for a datagram, no longer than this.
    Receive { timeout: u64 },
    /// Write the time in seconds, with one decimal.
    Describe { elapsed: u64 },
    /// Let the socket wait without limit again.
    Restore,
    Done(Result<Discovery, SearchError>),
}

/// The mathematical form of a `SearchRequest`.
pub enum SearchRequestView {
    Send { datagram: Seq<u8>, target: SocketAddress },
    Receive { timeout: u64 },
    Describe { elapsed: u64 },
    Restore,
    Done(Result<Discovery, SearchErrorView>),
}

impl View for SearchRequest {
    type V = SearchRequestView;

    open spec fn view(&self) -> SearchRequestView {
        match self {
            SearchRequest::Send { datagram, target } => SearchRequestView::Send {
                datagram: datagram@,
                target: *target,
            },
            SearchRequest::Receive { timeout } => SearchRequestView::Receive { timeout: *timeout },
            SearchRequest::Describe { elapsed } => SearchRequestView::Describe {
                elapsed: *elapsed,
            },
            SearchRequest::Restore => SearchRequestView::Restore,
            SearchRequest::Done(r) => SearchRequestView::Done(outcome_view(*r)),
        }
    }
}

/// Which outcome a search is waiting for.
#[derive(Clone, Copy, Debug, PartialEq, Eq, Structural)]
pub enum SearchPhase {
    Sending,
    Receiving,
    Describing,
    Restoring,
    Finished,
}

// ---------------------------------------------------------------------------
// The model
// ---------------------------------------------------------------------------

/// How long the answer to each of the three attempts is awaited.
pub open spec fn spec_patience(attempt: int) -> u64 {
    if attempt == 0 {
        STUN_RETRY
    } else if attempt == 1 {
        SECOND
    } else {
        (2 * SECOND) as u64
    }
}

/// The mathematical form of a `Search`.
pub struct SearchView {
    pub servers: Seq<SocketAddress>,
    /// The server that is being asked.
    pub index: int,
    pub transaction_id: Seq<u8>,
    pub started: u64,
    pub last_sent: u64,
    pub deadline: u64,
    pub attempt: int,
    /// Why the last response of this server was refused.
    pub last_error: Option<Seq<char>>,
    /// What became of the servers asked before.
    pub failures: Seq<Seq<char>>,
    pub outcome: Option<Result<Discovery, SearchErrorView>>,
    pub phase: SearchPhase,
}

/// What comes of one outcome.
pub struct SearchStep {
    pub search: SearchView,
    pub request: SearchRequestView,
}

impl SearchView {
    /// The search before the first server is asked.
    pub open spec fn begin(servers: Seq<SocketAddress>) -> SearchView {
        SearchView {
            servers,
            index: 0,
            transaction_id: Seq::empty(),
            started: 0,
            last_sent: 0,
            deadline: 0,
            attempt: 0,
            last_error: None,
            failures: Seq::empty(),
            outcome: None,
            phase: SearchPhase::Finished,
        }
    }

    /// What holds of a search at all times.
    pub open spec fn consistent(self) -> bool {
        &&& 0 <= self.attempt < 3
        &&& self.phase == SearchPhase::Sending || self.phase == SearchPhase::Receiving
            || self.phase == SearchPhase::Describing ==> 0 <= self.index < self.servers.len()
            && self.failures.len() == self.index
        &&& self.phase == SearchPhase::Restoring <==> self.outcome is Some
    }

    /// Whether the input is an outcome of the last request.
    pub open spec fn awaits(self, input: SearchInputView) -> bool {
        match self.phase {
            SearchPhase::Sending => input is Sent || input is SendFailed,
            SearchPhase::Receiving => input is Datagram || input is ReceiveFailed,
            SearchPhase::Describing => input is Described,
            SearchPhase::Restoring => input is Restored || input is RestoreFailed,
            SearchPhase::Finished => false,
        }
    }

    /// Ends without a word to any server.
    pub open spec fn finish(self, r: Result<Discovery, SearchErrorView>) -> SearchStep {
        SearchStep {
            search: SearchView { outcome: None, phase: SearchPhase::Finished, ..self },
            request: SearchRequestView::Done(r),
        }
    }

    /// Keeps the outcome until the socket is as it was.
    pub open spec fn restore(self, r: Result<Discovery, SearchErrorView>) -> SearchStep {
        SearchStep {
            search: SearchView { outcome: Some(r), phase: SearchPhase::Restoring, ..self },
            request: SearchRequestView::Restore,
        }
    }

    /// Sends the request to the current server, the same one each time.
    pub open spec fn send(self) -> SearchStep {
        SearchStep {
            search: SearchView { phase: SearchPhase::Sending, ..self },
            request: SearchRequestView::Send {
                datagram: stun::binding_request(self.transaction_id),
                target: self.servers[self.index],
            },
        }
    }

    /// Begins to ask the server with the given number, or gives up after the last
    /// one.
    pub open spec fn ask(self, index: int, now: u64, fresh_id: Seq<u8>) -> SearchStep {
        if index < self.servers.len() {
            SearchView {
                index,
                transaction_id: fresh_id,
                started: now,
                attempt: 0,
                last_error: None,
                ..self
            }.send()
        } else {
            self.restore(
                Err(
                    SearchErrorView::TimedOut(
                        "ни один STUN IPv4 endpoint не ответил в быстром профиле: "@ + text::join(
                            self.failures,
                            "; "@,
                        ),
                    ),
                ),
            )
        }
    }

    /// The current server has failed.
    pub open spec fn fail(self, error: Seq<char>, now: u64, fresh_id: Seq<u8>) -> SearchStep {
        SearchView {
            failures: self.failures.push(
                address::address_text(self.servers[self.index]) + ": "@ + error,
            ),
            ..self
        }.ask(self.index + 1, now, fresh_id)
    }

    /// Waits for an answer to the current attempt, as long as there is time.
    pub open spec fn wait(self, now: u64) -> SearchStep {
        if now < self.deadline {
            SearchStep {
                search: SearchView { phase: SearchPhase::Receiving, ..self },
                request: SearchRequestView::Receive { timeout: (self.deadline - now) as u64 },
            }
        } else {
            self.attempt_over(now)
        }
    }

    /// The current attempt got no answer.
    pub open spec fn attempt_over(self, now: u64) -> SearchStep {
        if self.attempt < 2 {
            SearchView { attempt: self.attempt + 1, ..self }.send()
        } else {
            SearchStep {
                search: SearchView { phase: SearchPhase::Describing, ..self },
                request: SearchRequestView::Describe {
                    elapsed: pending::since(now, self.started),
                },
            }
        }
    }

    /// What is said of a server that never gave a proper answer.
    pub open spec fn silence(self, seconds: Seq<char>) -> Seq<char> {
        let base = "нет корректного Binding response за "@ + seconds + "s"@;
        match self.last_error {
            Some(e) => base + ("; последний ответ отклонён: "@ + e),
            None => base,
        }
    }

    pub open spec fn receive(
        self,
        source: SocketAddress,
        bytes: Seq<u8>,
        now: u64,
        fresh_id: Seq<u8>,
    ) -> SearchStep {
        if source != self.servers[self.index] {
            self.wait(now)
        } else {
            match stun::read_binding_response(bytes, self.transaction_id) {
                Ok(BindingResponseView::Success(public_address)) => self.restore(
                    Ok(
                        Discovery {
                            public_address,
                            server: source,
                            rtt: pending::since(now, self.last_sent),
                        },
                    ),
                ),
                Ok(BindingResponseView::ServerError { code, reason }) => self.fail(
                    "STUN server error "@ + text::decimal(code as nat) + ": "@ + reason,
                    now,
                    fresh_id,
                ),
                Err(e) => SearchView { last_error: Some(e.message()), ..self }.wait(now),
            }
        }
    }

    /// What an outcome leads to. The identifier is used where the step turns to
    /// another server.
    pub open spec fn step(self, input: SearchInputView, now: u64, fresh_id: Seq<u8>) -> SearchStep {
        match input {
            SearchInputView::Sent => SearchView {
                last_sent: now,
                deadline: session_model::later(now, spec_patience(self.attempt)),
                ..self
            }.wait(now),
            SearchInputView::SendFailed(e) => self.fail(e, now, fresh_id),
            SearchInputView::Datagram { source, bytes } => self.receive(
                source,
                bytes,
                now,
                fresh_id,
            ),
            SearchInputView::ReceiveFailed(fault) => match fault {
                SearchFaultView::WouldBlock => self.attempt_over(now),
                SearchFaultView::TimedOut => self.attempt_over(now),
                SearchFaultView::Other(e) => self.fail(e, now, fresh_id),
            },
            SearchInputView::Described(seconds) => self.fail(
                self.silence(seconds),
                now,
                fresh_id,
            ),
            SearchInputView::Restored => self.finish(self.outcome->0),
            SearchInputView::RestoreFailed(e) => self.finish(Err(SearchErrorView::Other(e))),
        }
    }
}

// ---------------------------------------------------------------------------
// The search
// ---------------------------------------------------------------------------

/// A search and all that it remembers.
pub struct Search {
    servers: Vec<SocketAddress>,
    index: usize,
    transaction_id: Option<TransactionId>,
    started: u64,
    last_sent: u64,
    deadline: u64,
    attempt: u8,
    last_error: Option<String>,
    failures: Vec<String>,
    outcome: Option<Result<Discovery, SearchError>>,
    phase: SearchPhase,
}

impl View for Search {
    type V = SearchView;

    closed spec fn view(&self) -> SearchView {
        SearchView {
            servers: self.servers@,
            index: self.index as int,
            transaction_id: match self.transaction_id {
                Some(id) => id@,
                None => Seq::empty(),
            },
            started: self.started,
            last_sent: self.last_sent,
            deadline: self.deadline,
            attempt: self.attempt as int,
            last_error: option_view(self.last_error),
            failures: text::string_views(self.failures@),
            outcome: match self.outcome {
                Some(r) => Some(outcome_view(r)),
                None => None,
            },
            phase: self.phase,
        }
    }
}

fn patience(attempt: u8) -> (d: u64)
    ensures
        d == spec_patience(attempt as int),
        d <= 2_000_000_000,
{
    if attempt == 0 {
        STUN_RETRY
    } else if attempt == 1 {
        SECOND
    } else {
        2 * SECOND
    }
}

impl Search {
    /// A server that is being asked has been given an identifier.
    pub closed spec fn wf(&self) -> bool {
        self.phase == SearchPhase::Sending || self.phase == SearchPhase::Receiving || self.phase
            == SearchPhase::Describing ==> self.transaction_id is Some
    }

    fn send(&mut self) -> (request: SearchRequest)
        requires
            old(self).transaction_id is Some,
            old(self).index < old(self).servers@.len(),
        ensures
            final(self).wf(),
            final(self)@ == old(self)@.send().search,
            request@ == old(self)@.send().request,
    {
        self.phase = SearchPhase::Sending;
        let id: TransactionId = self.transaction_id.unwrap();
        let mut datagram: Vec<u8> = Vec::new();
        datagram.extend_from_slice(build_binding_request(id).as_slice());
        assert(datagram@ =~= stun::binding_request(id@));
        SearchRequest::Send { datagram, target: self.servers[self.index] }
    }

    fn restore(&mut self, r: Result<Discovery, SearchError>) -> (request: SearchRequest)
        ensures
            final(self).wf(),
            final(self)@ == old(self)@.restore(outcome_view(r)).search,
            request@ == old(self)@.restore(outcome_view(r)).request,
    {
        self.outcome = Some(r);
        self.phase = SearchPhase::Restoring;
        SearchRequest::Restore
    }

    fn ask(&mut self, index: usize, now: u64, fresh_id: TransactionId) -> (request: SearchRequest)
        ensures
            final(self).wf(),
            final(self)@ == old(self)@.ask(index as int, now, fresh_id@).search,
            request@ == old(self)@.ask(index as int, now, fresh_id@).request,
    {
        if index < self.servers.len() {
            self.index = index;
            self.transaction_id = Some(fresh_id);
            self.started = now;
            self.attempt = 0;
            self.last_error = None;
            self.send()
        } else {
            let mut m: String =
                "ни один STUN IPv4 endpoint не ответил в быстром профиле: ".to_owned();
            m.append(join_strings(&self.failures, "; ").as_str());
            self.restore(Err(SearchError::TimedOut(m)))
        }
    }

    fn fail(&mut self, error: &str, now: u64, fresh_id: TransactionId) -> (request: SearchRequest)
        requires
            old(self).index < old(self).servers@.len(),
        ensures
            final(self).wf(),
            final(self)@ == old(self)@.fail(error@, now, fresh_id@).search,
            request@ == old(self)@.fail(error@, now, fresh_id@).request,
    {
        let mut m: String = format_address(self.servers[self.index]);
        m.append(": ");
        m.append(error);
        let ghost before = self.failures@;
        self.failures.push(m);
        assert(text::string_views(self.failures@) =~= text::string_views(before).push(m@));
        assert(self.servers@.len() == self.servers.len());
        self.ask(self.index + 1, now, fresh_id)
    }

    fn attempt_over(&mut self, now: u64) -> (request: SearchRequest)
        requires
            old(self).transaction_id is Some,
            old(self).index < old(self).servers@.len(),
        ensures
            final(self).wf(),
            final(self)@ == old(self)@.attempt_over(now).search,
            request@ == old(self)@.attempt_over(now).request,
    {
        if self.attempt < 2 {
            self.attempt = self.attempt + 1;
            self.send()
        } else {
            self.phase = SearchPhase::Describing;
            SearchRequest::Describe { elapsed: elapsed(now, self.started) }
        }
    }

    fn wait(&mut self, now: u64) -> (request: SearchRequest)
        requires
            old(self).transaction_id is Some,
            old(self).index < old(self).servers@.len(),
        ensures
            final(self).wf(),
            final(self)@ == old(self)@.wait(now).search,
            request@ == old(self)@.wait(now).request,
    {
        if now < self.deadline {
            self.phase = SearchPhase::Receiving;
            SearchRequest::Receive { timeout: self.deadline - now }
        } else {
            self.attempt_over(now)
        }
    }

    fn silence(&self, seconds: &str) -> (m: String)
        ensures
            m@ == self@.silence(seconds@),
    {
        let mut m: String = "нет корректного Binding response за ".to_owned();
        m.append(seconds);
        m.append("s");
        if let Some(e) = &self.last_error {
            let mut detail: String = "; последний ответ отклонён: ".to_owned();
            detail.append(e.as_str());
            m.append(detail.as_str());
        }
        m
    }

    fn receive(
        &mut self,
        source: SocketAddress,
        bytes: &[u8],
        now: u64,
        fresh_id: TransactionId,
    ) -> (request: SearchRequest)
        requires
            old(self).transaction_id is Some,
            old(self).index < old(self).servers@.len(),
        ensures
            final(self).wf(),
            final(self)@ == old(self)@.receive(source, bytes@, now, fresh_id@).search,
            request@ == old(self)@.receive(source, bytes@, now, fresh_id@).request,
    {
        if source != self.servers[self.index] {
            return self.wait(now);
        }
        let id: TransactionId = self.transaction_id.unwrap();
        match parse_binding_response(bytes, id) {
            Ok(BindingResponse::Success(public_address)) => {
                let rtt: u64 = elapsed(now, self.last_sent);
                self.restore(Ok(Discovery { public_address, server: source, rtt }))
            },
            Ok(BindingResponse::ServerError { code, reason }) => {
                let mut m: String = "STUN server error ".to_owned();
                m.append(decimal_text(code as u64).as_str());
                m.append(": ");
                m.append(reason.as_str());
                self.fail(m.as_str(), now, fresh_id)
            },
            Err(e) => {
                self.last_error = Some(e.message());
                self.wait(now)
            },
        }
    }

    /// Whether the input is an outcome of the last request.
    pub fn awaits(&self, input: &SearchInput) -> (r: bool)
        ensures
            r == self@.awaits(input@),
    {
        match self.phase {
            SearchPhase::Sending => match input {
                SearchInput::Sent => true,
                SearchInput::SendFailed(_) => true,
                _ => false,
            },
            SearchPhase::Receiving => match input {
                SearchInput::Datagram { .. } => true,
                SearchInput::ReceiveFailed(_) => true,
                _ => false,
            },
            SearchPhase::Describing => match input {
                SearchInput::Described(_) => true,
                _ => false,
            },
            SearchPhase::Restoring => match input {
                SearchInput::Restored => true,
                SearchInput::RestoreFailed(_) => true,
                _ => false,
            },
            SearchPhase::Finished => false,
        }
    }

    /// Takes the outcome of the last request. A server that is asked from this
    /// step on gets a request with the given identifier.
    #[verifier::rlimit(30)]
    pub fn step_with(
        &mut self,
        input: SearchInput,
        now: u64,
        fresh_id: TransactionId,
    ) -> (request: SearchRequest)
        requires
            old(self).wf(),
            old(self)@.consistent(),
            old(self)@.awaits(input@),
            now <= LAST_INSTANT,
        ensures
            final(self).wf(),
            final(self)@.consistent(),
            final(self)@ == old(self)@.step(input@, now, fresh_id@).search,
            request@ == old(self)@.step(input@, now, fresh_id@).request,
    {
        match input {
            SearchInput::Sent => {
                self.last_sent = now;
                self.deadline = now + patience(self.attempt);
                self.wait(now)
            },
            SearchInput::SendFailed(e) => self.fail(e.as_str(), now, fresh_id),
            SearchInput::Datagram { source, bytes } => self.receive(
                source,
                bytes.as_slice(),
                now,
                fresh_id,
            ),
            SearchInput::ReceiveFailed(fault) => match fault {
                SearchFault::WouldBlock => self.attempt_over(now),
                SearchFault::TimedOut => self.attempt_over(now),
                SearchFault::Other(e) => self.fail(e.as_str(), now, fresh_id),
            },
            SearchInput::Described(seconds) => {
                let m: String = self.silence(seconds.as_str());
                self.fail(m.as_str(), now, fresh_id)
            },
            SearchInput::Restored => {
                self.phase = SearchPhase::Finished;
                let outcome: Result<Discovery, SearchError> = self.outcome.take().unwrap();
                SearchRequest::Done(outcome)
            },
            SearchInput::RestoreFailed(e) => {
                self.phase = SearchPhase::Finished;
                self.outcome = None;
                SearchRequest::Done(Err(SearchError::Other(e)))
            },
        }
    }

    /// Takes the outcome of the last request. A server that is asked from this
    /// step on gets a request with a random identifier other than zero.
    pub fn step(&mut self, input: SearchInput, now: u64) -> (request: SearchRequest)
        requires
            old(self).wf(),
            old(self)@.consistent(),
            old(self)@.awaits(input@),
            now <= LAST_INSTANT,
        ensures
            final(self).wf(),
            final(self)@.consistent(),
            exists|fresh_id: TransactionId|
                !bytes::all_zero(fresh_id@) && {
                    let step = #[trigger] old(self)@.step(input@, now, fresh_id@);
                    final(self)@ == step.search && request@ == step.request
                },
    {
        let fresh_id: TransactionId = random_transaction_id();
        self.step_with(input, now, fresh_id)
    }
}

/// What a search in a list of servers does first.
pub open spec fn first_step(servers: Seq<SocketAddress>, now: u64, id: Seq<u8>) -> SearchStep {
    if servers.len() == 0 {
        SearchView::begin(servers).finish(
            Err(SearchErrorView::InvalidInput("список STUN-серверов пуст"@)),
        )
    } else {
        SearchView::begin(servers).ask(0, now, id)
    }
}

/// Begins to search for the public address. The first server gets a request
/// with the given identifier.
pub fn discover_with(servers: Vec<SocketAddress>, now: u64, id: TransactionId) -> (r: (
    Search,
    SearchRequest,
))
    ensures
        r.0.wf(),
        r.0@.consistent(),
        r.0@ == first_step(servers@, now, id@).search,
        r.1@ == first_step(servers@, now, id@).request,
{
    let empty: bool = servers.len() == 0;
    let mut search: Search = Search {
        servers,
        index: 0,
        transaction_id: None,
        started: 0,
        last_sent: 0,
        deadline: 0,
        attempt: 0,
        last_error: None,
        failures: Vec::new(),
        outcome: None,
        phase: SearchPhase::Finished,
    };
    assert(search@.failures =~= SearchView::begin(servers@).failures);
    if empty {
        let e: SearchError = SearchError::InvalidInput("список STUN-серверов пуст".to_owned());
        (search, SearchRequest::Done(Err(e)))
    } else {
        let request: SearchRequest = search.ask(0, now, id);
        (search, request)
    }
}

/// Begins to search for the public address. The first server gets a request
/// with a random identifier other than zero.
pub fn discover(servers: Vec<SocketAddress>, now: u64) -> (r: (Search, SearchRequest))
    ensures
        r.0.wf(),
        r.0@.consistent(),
        exists|id: TransactionId|
            !bytes::all_zero(id@) && {
                let step = #[trigger] first_step(servers@, now, id@);
                r.0@ == step.search && r.1@ == step.request
            },
{
    let id: TransactionId = random_transaction_id();
    discover_with(servers, now, id)
}

} // verus!
