//! What the command line and the keyboard mean, and what the user is told.

use crate::address;
use crate::address::{format_address, SocketAddress};
use crate::lines::InputEvent;
use crate::protocol;
use crate::protocol::{
    Candidate, CandidateKind, PeerDescription, PeerDescriptionView, ProtocolError,
    ProtocolErrorView,
};
use crate::session::{option_view, Command, Event, Stats};
use crate::session_model::{CommandView, EventView};
use crate::stun::DEFAULT_STUN_SERVER;
use crate::text;
use crate::text::{chars_are, decimal_text, from_chars, to_chars, trim_chars};
use vstd::prelude::*;
use vstd::string::StringExecFns;

verus! {

/// No more bytes of an input line are kept than this.
pub const MAX_INPUT_LINE: usize = 2048;

// ---------------------------------------------------------------------------
// The command line
// ---------------------------------------------------------------------------

/// How the program was started.
#[derive(Debug, PartialEq, Eq)]
pub struct Cli {
    pub stun_server: String,
    pub stun_only: bool,
}

/// The mathematical form of a `Cli`.
pub struct CliView {
    pub stun_server: Seq<char>,
    pub stun_only: bool,
}

impl View for Cli {
    type V = CliView;

    open spec fn view(&self) -> CliView {
        CliView { stun_server: self.stun_server@, stun_only: self.stun_only }
    }
}

/// What the command line asks for.
#[derive(Debug, PartialEq, Eq)]
pub enum Start {
    Run(Cli),
    Help,
}

/// The mathematical form of a `Start`.
pub enum StartView {
    Run(CliView),
    Help,
}

impl View for Start {
    type V = StartView;

    open spec fn view(&self) -> StartView {
        match self {
            Start::Run(cli) => StartView::Run(cli@),
            Start::Help => StartView::Help,
        }
    }
}

/// What the arguments say on top of what is known. The first request for help
/// ends the reading.
pub open spec fn read_cli(args: Seq<Seq<char>>, known: CliView) -> Result<StartView, Seq<char>>
    decreases args.len(),
{
    if args.len() == 0 {
        Ok(StartView::Run(known))
    } else if args[0] == "--stun"@ {
        if args.len() == 1 {
            Err("после --stun нужен адрес host:port"@)
        } else {
            read_cli(args.skip(2), CliView { stun_server: args[1], ..known })
        }
    } else if args[0] == "--stun-only"@ {
        read_cli(args.skip(1), CliView { stun_only: true, ..known })
    } else if args[0] == "-h"@ || args[0] == "--help"@ {
        Ok(StartView::Help)
    } else {
        Err("неизвестный аргумент: "@ + args[0])
    }
}

/// What holds before any argument is read.
pub open spec fn default_cli() -> CliView {
    CliView { stun_server: DEFAULT_STUN_SERVER@, stun_only: false }
}

/// Reads the arguments of the program, without its name.
pub fn parse_cli(args: &Vec<String>) -> (r: Result<Start, String>)
    ensures
        protocol::result_view(r) == read_cli(text::string_views(args@), default_cli()),
{
    let ghost all = text::string_views(args@);
    let mut cli: Cli = Cli { stun_server: DEFAULT_STUN_SERVER.to_owned(), stun_only: false };
    let mut i: usize = 0;
    assert(all.skip(0) =~= all);
    while i < args.len()
        invariant
            i <= args@.len(),
            all == text::string_views(args@),
            read_cli(all, default_cli()) == read_cli(all.skip(i as int), cli@),
        decreases args@.len() - i,
    {
        let arg: Vec<char> = to_chars(args[i].as_str());
        assert(all.skip(i as int)[0] == arg@);
        assert(all.skip(i as int).skip(1) =~= all.skip(i + 1));
        if chars_are(arg.as_slice(), "--stun") {
            if args.len() - i == 1 {
                return Err("после --stun нужен адрес host:port".to_owned());
            }
            assert(all.skip(i as int)[1] == args@[i + 1]@);
            assert(all.skip(i as int).skip(2) =~= all.skip(i + 2));
            cli = Cli { stun_server: args[i + 1].clone(), stun_only: cli.stun_only };
            i += 2;
        } else if chars_are(arg.as_slice(), "--stun-only") {
            cli = Cli { stun_server: cli.stun_server, stun_only: true };
            i += 1;
        } else if chars_are(arg.as_slice(), "-h") || chars_are(arg.as_slice(), "--help") {
            return Ok(Start::Help);
        } else {
            let mut m: String = "неизвестный аргумент: ".to_owned();
            m.append(args[i].as_str());
            return Err(m);
        }
    }
    assert(all.skip(i as int).len() == 0);
    Ok(Start::Run(cli))
}

// ---------------------------------------------------------------------------
// One's own description
// ---------------------------------------------------------------------------

/// The candidates of this side: the public address, and the local one where it
/// is known and different.
pub open spec fn own_candidates(public: SocketAddress, local: Option<SocketAddress>) -> Seq<
    Candidate,
> {
    let first = Candidate { kind: CandidateKind::ServerReflexive, address: public };
    match local {
        Some(a) => if a != public {
            seq![first, Candidate { kind: CandidateKind::Host, address: a }]
        } else {
            seq![first]
        },
        None => seq![first],
    }
}

pub fn local_candidates(public: SocketAddress, local: Option<SocketAddress>) -> (candidates: Vec<
    Candidate,
>)
    ensures
        candidates@ == own_candidates(public, local),
{
    let mut candidates: Vec<Candidate> = Vec::new();
    candidates.push(Candidate { kind: CandidateKind::ServerReflexive, address: public });
    if let Some(a) = local {
        if a != public {
            candidates.push(Candidate { kind: CandidateKind::Host, address: a });
        }
    }
    assert(candidates@ =~= own_candidates(public, local));
    candidates
}

/// The candidates with another address for the first one that a STUN server
/// found, if there is one.
pub open spec fn with_public_address(cs: Seq<Candidate>, address: SocketAddress) -> Seq<Candidate>
    decreases cs.len(),
{
    if cs.len() == 0 {
        cs
    } else if cs[0].kind == CandidateKind::ServerReflexive {
        cs.update(0, Candidate { address, ..cs[0] })
    } else {
        seq![cs[0]] + with_public_address(cs.drop_first(), address)
    }
}

/// Replaces the public address in a description.
pub fn replace_public_candidate(description: &mut PeerDescription, address: SocketAddress)
    ensures
        final(description)@ == (PeerDescriptionView {
            candidates: with_public_address(old(description)@.candidates, address),
            ..old(description)@
        }),
{
    let ghost all = description.candidates@;
    let mut i: usize = 0;
    assert(all.skip(0) =~= all);
    assert(all.take(0) + with_public_address(all, address) =~= with_public_address(all, address));
    while i < description.candidates.len()
        invariant
            i <= all.len(),
            *description == *old(description),
            description.candidates@ == all,
            with_public_address(all, address) == all.take(i as int) + with_public_address(
                all.skip(i as int),
                address,
            ),
        decreases all.len() - i,
    {
        let candidate: Candidate = description.candidates[i];
        if candidate.kind == CandidateKind::ServerReflexive {
            description.candidates.set(i, Candidate { address, ..candidate });
            assert(description.candidates@ =~= with_public_address(all, address));
            return;
        }
        assert(all.skip(i as int).drop_first() =~= all.skip(i + 1));
        assert(all.take(i + 1) + with_public_address(all.skip(i + 1), address) =~= all.take(
            i as int,
        ) + with_public_address(all.skip(i as int), address));
        i += 1;
    }
    assert(all.take(i as int) + all.skip(i as int) =~= all);
    assert(with_public_address(all.skip(i as int), address) =~= all.skip(i as int));
}

/// The lines that show a session code, or say why there is none.
pub open spec fn code_lines(d: PeerDescriptionView, label: Seq<char>) -> Seq<Seq<char>> {
    match d.error() {
        None => seq![
            "----- BEGIN "@ + label + " -----"@,
            protocol::code_text(d),
            "----- END "@ + label + " -----"@,
        ],
        Some(e) => seq!["[ERROR CODE] не удалось сформировать код: "@ + e.message()],
    }
}

pub fn show_code(description: &PeerDescription, label: &str) -> (lines: Vec<String>)
    ensures
        text::string_views(lines@) == code_lines(description@, label@),
{
    let mut lines: Vec<String> = Vec::new();
    match description.encode() {
        Ok(code) => {
            let mut begin: String = "----- BEGIN ".to_owned();
            begin.append(label);
            begin.append(" -----");
            let mut end: String = "----- END ".to_owned();
            end.append(label);
            end.append(" -----");
            lines.push(begin);
            lines.push(code);
            lines.push(end);
        },
        Err(e) => {
            let mut m: String = "[ERROR CODE] не удалось сформировать код: ".to_owned();
            m.append(e.message().as_str());
            lines.push(m);
        },
    }
    assert(text::string_views(lines@) =~= code_lines(description@, label@));
    lines
}

// ---------------------------------------------------------------------------
// The keyboard
// ---------------------------------------------------------------------------

/// What a line from the user leads to: a command to the session, a message to
/// the user, or the end.
#[derive(Debug)]
pub struct Reaction {
    pub command: Option<Command>,
    pub message: Option<String>,
    pub quit: bool,
}

/// The mathematical form of a `Reaction`.
pub struct ReactionView {
    pub command: Option<CommandView>,
    pub message: Option<Seq<char>>,
    pub quit: bool,
}

impl View for Reaction {
    type V = ReactionView;

    open spec fn view(&self) -> ReactionView {
        ReactionView {
            command: option_view(self.command),
            message: option_view(self.message),
            quit: self.quit,
        }
    }
}

pub open spec fn only_command(command: CommandView) -> ReactionView {
    ReactionView { command: Some(command), message: None, quit: false }
}

pub open spec fn only_message(message: Seq<char>) -> ReactionView {
    ReactionView { command: None, message: Some(message), quit: false }
}

/// What a session code that was pasted leads to.
pub open spec fn react_to_code(code: Seq<char>, local: PeerDescriptionView) -> ReactionView {
    match protocol::read_input(code) {
        Ok(peer) => match peer.remote_error(local) {
            Some(e) => only_message("[ERROR CODE] "@ + e.message()),
            None => only_command(CommandView::SetPeer(peer)),
        },
        Err(ProtocolErrorView::InvalidDescription(m)) => only_message("[ERROR CODE] "@ + m),
        Err(ProtocolErrorView::InvalidPacket(m)) => only_message("[ERROR CODE] "@ + m),
        Err(ProtocolErrorView::AuthenticationFailed) => only_message(
            "[ERROR CODE] код не прошёл проверку."@,
        ),
    }
}

/// What a line leads to, without the white space around it.
pub open spec fn react(line: Seq<char>, local: PeerDescriptionView) -> ReactionView {
    let value = text::trim(line);
    if value == "/quit"@ || value == "/exit"@ {
        ReactionView { command: None, message: None, quit: true }
    } else if value == "/help"@ {
        only_message("Команды: /status, /ping, /retry, /replace-code, /quit"@)
    } else if value == "/status"@ {
        only_command(CommandView::Status)
    } else if value == "/ping"@ {
        only_command(CommandView::Ping)
    } else if value == "/retry"@ {
        only_command(CommandView::Retry)
    } else if value == "/replace-code"@ {
        ReactionView {
            command: Some(CommandView::ClearPeer),
            message: Some("Вставьте актуальный HP2-код второй машины:"@),
            quit: false,
        }
    } else if value == ""@ {
        ReactionView { command: None, message: None, quit: false }
    } else {
        react_to_code(value, local)
    }
}

fn send(command: Command) -> (r: Reaction)
    ensures
        r@ == only_command(command@),
{
    Reaction { command: Some(command), message: None, quit: false }
}

fn say(label: &str, rest: &str) -> (r: Reaction)
    ensures
        r@ == only_message(label@ + rest@),
{
    let mut m: String = label.to_owned();
    m.append(rest);
    Reaction { command: None, message: Some(m), quit: false }
}

fn handle_code(code: &str, local: &PeerDescription) -> (r: Reaction)
    ensures
        r@ == react_to_code(code@, local@),
{
    match PeerDescription::parse(code) {
        Ok(peer) => match peer.validate_remote(local) {
            Err(e) => say("[ERROR CODE] ", e.message().as_str()),
            Ok(_) => send(Command::SetPeer(peer)),
        },
        Err(ProtocolError::InvalidDescription(m)) => say("[ERROR CODE] ", m.as_str()),
        Err(ProtocolError::InvalidPacket(m)) => say("[ERROR CODE] ", m.as_str()),
        Err(ProtocolError::AuthenticationFailed) => Reaction {
            command: None,
            message: Some("[ERROR CODE] код не прошёл проверку.".to_owned()),
            quit: false,
        },
    }
}

/// Decides what a line from the user leads to.
pub fn handle_input(line: &str, local: &PeerDescription) -> (r: Reaction)
    ensures
        r@ == react(line@, local@),
{
    let chars: Vec<char> = to_chars(line);
    let value: &[char] = trim_chars(chars.as_slice());
    if chars_are(value, "/quit") || chars_are(value, "/exit") {
        Reaction { command: None, message: None, quit: true }
    } else if chars_are(value, "/help") {
        Reaction {
            command: None,
            message: Some("Команды: /status, /ping, /retry, /replace-code, /quit".to_owned()),
            quit: false,
        }
    } else if chars_are(value, "/status") {
        send(Command::Status)
    } else if chars_are(value, "/ping") {
        send(Command::Ping)
    } else if chars_are(value, "/retry") {
        send(Command::Retry)
    } else if chars_are(value, "/replace-code") {
        Reaction {
            command: Some(Command::ClearPeer),
            message: Some("Вставьте актуальный HP2-код второй машины:".to_owned()),
            quit: false,
        }
    } else if chars_are(value, "") {
        Reaction { command: None, message: None, quit: false }
    } else {
        handle_code(from_chars(value).as_str(), local)
    }
}

/// What the input leads to: a line that was cut is reported, and the end of the
/// input is the end of the program.
pub open spec fn react_to_input(event: InputEvent, local: PeerDescriptionView) -> ReactionView {
    match event {
        InputEvent::Line(line) => react(line@, local),
        InputEvent::TooLong => only_message(
            "[INPUT] строка длиннее "@ + text::decimal(MAX_INPUT_LINE as nat)
                + " байт и отброшена."@,
        ),
        InputEvent::Eof => ReactionView { command: None, message: None, quit: true },
    }
}

/// Decides what the input leads to.
pub fn handle_input_event(event: &InputEvent, local: &PeerDescription) -> (r: Reaction)
    ensures
        r@ == react_to_input(*event, local@),
{
    match event {
        InputEvent::Line(line) => handle_input(line.as_str(), local),
        InputEvent::TooLong => Reaction {
            command: None,
            message: Some(
                around(
                    "[INPUT] строка длиннее ",
                    decimal_text(MAX_INPUT_LINE as u64).as_str(),
                    " байт и отброшена.",
                ),
            ),
            quit: false,
        },
        InputEvent::Eof => Reaction { command: None, message: None, quit: true },
    }
}

// ---------------------------------------------------------------------------
// Events
// ---------------------------------------------------------------------------

/// Whole milliseconds in a time given in nanoseconds.
pub open spec fn millis_text(t: u64) -> Seq<char> {
    text::decimal((t / 1_000_000) as nat)
}

/// The counters after the given time, on one line.
pub open spec fn progress_text(elapsed: u64, stats: Stats) -> Seq<char> {
    "[STATS +"@ + text::decimal((elapsed / 1_000_000_000) as nat) + "s] probes sent="@
        + text::decimal(stats.probes_sent as nat) + ", datagrams received="@ + text::decimal(
        stats.datagrams_received as nat,
    ) + ", authenticated="@ + text::decimal(stats.authenticated as nat) + ", invalid="@
        + text::decimal(stats.invalid as nat) + ", rtt="@ + match stats.selected_rtt {
        Some(rtt) => "Some(\""@ + millis_text(rtt) + "ms\")"@,
        None => "None"@,
    }
}

/// The counters after the given time, on one line.
pub fn progress_line(elapsed: u64, stats: Stats) -> (s: String)
    ensures
        s@ == progress_text(elapsed, stats),
{
    let mut s: String = "[STATS +".to_owned();
    s.append(decimal_text(elapsed / 1_000_000_000).as_str());
    s.append("s] probes sent=");
    s.append(decimal_text(stats.probes_sent).as_str());
    s.append(", datagrams received=");
    s.append(decimal_text(stats.datagrams_received).as_str());
    s.append(", authenticated=");
    s.append(decimal_text(stats.authenticated).as_str());
    s.append(", invalid=");
    s.append(decimal_text(stats.invalid).as_str());
    s.append(", rtt=");
    match stats.selected_rtt {
        Some(rtt) => {
            let mut t: String = "Some(\"".to_owned();
            t.append(decimal_text(rtt / 1_000_000).as_str());
            t.append("ms\")");
            s.append(t.as_str());
        },
        None => {
            s.append("None");
        },
    }
    s
}

/// The name of a kind of candidate in a status line.
pub open spec fn kind_name(kind: CandidateKind) -> Seq<char> {
    match kind {
        CandidateKind::Host => "Host"@,
        CandidateKind::ServerReflexive => "ServerReflexive"@,
        CandidateKind::PeerReflexive => "PeerReflexive"@,
    }
}

fn show_kind(kind: CandidateKind) -> (s: &'static str)
    ensures
        s@ == kind_name(kind),
{
    match kind {
        CandidateKind::Host => "Host",
        CandidateKind::ServerReflexive => "ServerReflexive",
        CandidateKind::PeerReflexive => "PeerReflexive",
    }
}

/// The selected path in a status line.
pub open spec fn status_text(
    state: Seq<char>,
    peer: Option<SocketAddress>,
    kind: Option<CandidateKind>,
) -> Seq<char> {
    "[STATUS] state="@ + state + ", selected="@ + match peer {
        Some(a) => "Some("@ + address::address_text(a) + ")"@,
        None => "None"@,
    } + " ("@ + match kind {
        Some(k) => "Some("@ + kind_name(k) + ")"@,
        None => "None"@,
    } + ")"@
}

fn status_line(state: &str, peer: Option<SocketAddress>, kind: Option<CandidateKind>) -> (s: String)
    ensures
        s@ == status_text(state@, peer, kind),
{
    let mut p: String = String::new();
    match peer {
        Some(a) => {
            p.append("Some(");
            p.append(format_address(a).as_str());
            p.append(")");
        },
        None => {
            p.append("None");
        },
    }
    let mut k: String = String::new();
    match kind {
        Some(x) => {
            k.append("Some(");
            k.append(show_kind(x));
            k.append(")");
        },
        None => {
            k.append("None");
        },
    }
    let mut s: String = "[STATUS] state=".to_owned();
    s.append(state);
    s.append(", selected=");
    s.append(p.as_str());
    s.append(" (");
    s.append(k.as_str());
    s.append(")");
    s
}

/// The lines by which the user is told of an event.
pub open spec fn event_lines(event: EventView) -> Seq<Seq<char>> {
    match event {
        EventView::Info(m) => seq!["[INFO] "@ + m],
        EventView::MappingChanged { address } => seq![
            "[CODE EXPIRED] NAT изменил public mapping на "@ + address::address_text(address)
                + "."@,
        ],
        EventView::CheckingStarted { candidates } => seq![
            "[CHECKING] проверяю "@ + text::decimal(candidates)
                + " remote candidates, максимум 30 секунд."@,
        ],
        EventView::Progress { elapsed, stats } => seq![progress_text(elapsed, stats)],
        EventView::Connected { source, kind, rtt } => seq![
            "[OK] Получен ответ на наш probe через "@ + kind.spec_label() + " ("@
                + address::address_text(source) + "), RTT "@ + millis_text(rtt) + " ms."@,
        ],
        EventView::PingResult(rtt) => seq!["[PING] round-trip "@ + millis_text(rtt) + " ms."@],
        EventView::Disconnected { reason, stats } => seq![
            "[DISCONNECTED] "@ + reason,
            progress_text(0, stats),
            "Сессия вернулась в rechecking; данные не передаются."@,
        ],
        EventView::Failed { stats } => seq![
            "[NOT CONNECTED] подтверждённый ответ не получен за 30 секунд."@,
            progress_text(30_000_000_000, stats),
            "Команды: /retry, /replace-code, /status, /quit"@,
        ],
        EventView::Status { state, peer, kind, stats } => seq![
            status_text(state, peer, kind),
            progress_text(0, stats),
        ],
        EventView::Fatal(m) => seq!["[ERROR SOCKET] "@ + m],
    }
}

fn around(before: &str, middle: &str, after: &str) -> (s: String)
    ensures
        s@ == before@ + middle@ + after@,
{
    let mut s: String = before.to_owned();
    s.append(middle);
    s.append(after);
    s
}

/// The lines by which the user is told of an event.
pub fn report(event: &Event) -> (lines: Vec<String>)
    ensures
        text::string_views(lines@) == event_lines(event@),
{
    let mut lines: Vec<String> = Vec::new();
    match event {
        Event::Info(m) => {
            let mut s: String = "[INFO] ".to_owned();
            s.append(m.as_str());
            lines.push(s);
        },
        Event::MappingChanged { address } => {
            lines.push(
                around(
                    "[CODE EXPIRED] NAT изменил public mapping на ",
                    format_address(*address).as_str(),
                    ".",
                ),
            );
        },
        Event::CheckingStarted { candidates } => {
            lines.push(
                around(
                    "[CHECKING] проверяю ",
                    decimal_text(*candidates as u64).as_str(),
                    " remote candidates, максимум 30 секунд.",
                ),
            );
        },
        Event::Progress { elapsed, stats } => {
            lines.push(progress_line(*elapsed, *stats));
        },
        Event::Connected { source, kind, rtt } => {
            let mut s: String = "[OK] Получен ответ на наш probe через ".to_owned();
            s.append(kind.label());
            s.append(" (");
            s.append(format_address(*source).as_str());
            s.append("), RTT ");
            s.append(decimal_text(*rtt / 1_000_000).as_str());
            s.append(" ms.");
            lines.push(s);
        },
        Event::PingResult(rtt) => {
            lines.push(
                around("[PING] round-trip ", decimal_text(*rtt / 1_000_000).as_str(), " ms."),
            );
        },
        Event::Disconnected { reason, stats } => {
            let mut s: String = "[DISCONNECTED] ".to_owned();
            s.append(reason.as_str());
            lines.push(s);
            lines.push(progress_line(0, *stats));
            lines.push("Сессия вернулась в rechecking; данные не передаются.".to_owned());
        },
        Event::Failed { stats } => {
            lines.push("[NOT CONNECTED] подтверждённый ответ не получен за 30 секунд.".to_owned());
            lines.push(progress_line(30_000_000_000, *stats));
            lines.push("Команды: /retry, /replace-code, /status, /quit".to_owned());
        },
        Event::Status { state, peer, kind, stats } => {
            lines.push(status_line(state, *peer, *kind));
            lines.push(progress_line(0, *stats));
        },
        Event::Fatal(m) => {
            let mut s: String = "[ERROR SOCKET] ".to_owned();
            s.append(m.as_str());
            lines.push(s);
        },
    }
    assert(text::string_views(lines@) =~= event_lines(event@));
    lines
}

/// What an event of the session leads to: what the user is told, and whether the
/// program ends.
#[derive(Debug)]
pub struct Response {
    pub lines: Vec<String>,
    pub stop: bool,
}

/// One's own description after an event: it follows the public address.
pub open spec fn after_event(event: EventView, local: PeerDescriptionView) -> PeerDescriptionView {
    match event {
        EventView::MappingChanged { address } => PeerDescriptionView {
            candidates: with_public_address(local.candidates, address),
            ..local
        },
        _ => local,
    }
}

/// What the user is told: the event, and where the public address has changed
/// the session code that holds from then on.
pub open spec fn response_lines(event: EventView, local: PeerDescriptionView) -> Seq<Seq<char>> {
    if event is MappingChanged {
        event_lines(event) + code_lines(after_event(event, local), "НОВЫЙ SESSION CODE"@)
    } else {
        event_lines(event)
    }
}

/// Whether the program ends with the event: a broken socket ends it.
pub open spec fn ends_program(event: EventView) -> bool {
    event is Fatal
}

/// Decides what an event of the session leads to.
pub fn handle_event(event: &Event, local: &mut PeerDescription) -> (r: Response)
    ensures
        final(local)@ == after_event(event@, old(local)@),
        text::string_views(r.lines@) == response_lines(event@, old(local)@),
        r.stop == ends_program(event@),
{
    let mut lines: Vec<String> = report(event);
    match event {
        Event::MappingChanged { address } => {
            let ghost told = lines@;
            replace_public_candidate(local, *address);
            let mut code: Vec<String> = show_code(local, "НОВЫЙ SESSION CODE");
            let ghost shown = code@;
            lines.append(&mut code);
            assert(text::string_views(lines@) =~= text::string_views(told) + text::string_views(
                shown,
            ));
            Response { lines, stop: false }
        },
        Event::Fatal(_) => Response { lines, stop: true },
        _ => Response { lines, stop: false },
    }
}

} // verus!
