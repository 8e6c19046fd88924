//! What holds of the keyboard and of one's own description.

use crate::address;
use crate::address::SocketAddress;
use crate::console;
use crate::console::{CliView, ReactionView, StartView};
use crate::lines::InputEvent;
use crate::protocol;
use crate::protocol::{Candidate, CandidateKind, PeerDescriptionView, ProtocolErrorView};
use crate::protocol_laws;
use crate::session::Stats;
use crate::session_model::{CommandView, EventView};
use crate::text;
use vstd::prelude::*;

verus! {

/// White space only.
pub open spec fn blank(s: Seq<char>) -> bool {
    forall|i: int| 0 <= i < s.len() ==> text::is_white_space(#[trigger] s[i])
}

proof fn lemma_trim_start(before: Seq<char>, s: Seq<char>)
    requires
        blank(before),
        s.len() > 0,
        !text::is_white_space(s[0]),
    ensures
        text::trim_start(before + s) == s,
    decreases before.len(),
{
    if before.len() == 0 {
        assert(before + s =~= s);
    } else {
        assert((before + s)[0] == before[0]);
        assert((before + s).drop_first() =~= before.drop_first() + s);
        lemma_trim_start(before.drop_first(), s);
    }
}

proof fn lemma_trim_end(s: Seq<char>, after: Seq<char>)
    requires
        blank(after),
        s.len() > 0,
        !text::is_white_space(s.last()),
    ensures
        text::trim_end(s + after) == s,
    decreases after.len(),
{
    if after.len() == 0 {
        assert(s + after =~= s);
    } else {
        assert((s + after).last() == after.last());
        assert((s + after).drop_last() =~= s + after.drop_last());
        lemma_trim_end(s, after.drop_last());
    }
}

/// The session code of a valid description, typed with any white space around
/// it, is understood as that description.
pub proof fn law_typed_code_is_understood(
    d: PeerDescriptionView,
    local: PeerDescriptionView,
    before: Seq<char>,
    after: Seq<char>,
)
    requires
        d.sized(),
        d.error() is None,
        blank(before),
        blank(after),
    ensures
        console::react(before + protocol::code_text(d) + after, local) == match d.remote_error(
            local,
        ) {
            None => console::only_command(CommandView::SetPeer(d)),
            Some(e) => console::only_message("[ERROR CODE] "@ + e.message()),
        },
{
    let code = protocol::code_text(d);
    protocol_laws::lemma_code_is_visible(d);
    assert('!' <= code[0] <= '~' && '!' <= code.last() <= '~');
    assert(before + code + after =~= before + (code + after));
    lemma_trim_start(before, code + after);
    lemma_trim_end(code, after);
    reveal_strlit("/quit");
    reveal_strlit("/exit");
    reveal_strlit("/help");
    reveal_strlit("/status");
    reveal_strlit("/ping");
    reveal_strlit("/retry");
    reveal_strlit("/replace-code");
    reveal_strlit("");
    reveal_strlit("HP2|");
    let none = Seq::<char>::empty();
    assert(text::find(none, "HP2|"@) is None);
    protocol_laws::law_pasted_code_reads_back(d, none, none);
    assert(none + code + none =~= code);
}

/// One's own session code is never taken as that of the other side.
pub proof fn law_own_code_is_refused(d: PeerDescriptionView, before: Seq<char>, after: Seq<char>)
    requires
        d.sized(),
        d.error() is None,
        blank(before),
        blank(after),
    ensures
        console::react(before + protocol::code_text(d) + after, d).command is None,
        console::react(before + protocol::code_text(d) + after, d).message is Some,
{
    law_typed_code_is_understood(d, d, before, after);
    protocol_laws::law_own_description_is_refused(d);
}

/// A blank line leads to nothing.
pub proof fn law_blank_line_leads_to_nothing(line: Seq<char>, local: PeerDescriptionView)
    requires
        blank(line),
    ensures
        console::react(line, local) == (ReactionView { command: None, message: None, quit: false }),
{
    lemma_blank_start(line);
    reveal_strlit("/quit");
    reveal_strlit("/exit");
    reveal_strlit("/help");
    reveal_strlit("/status");
    reveal_strlit("/ping");
    reveal_strlit("/retry");
    reveal_strlit("/replace-code");
    reveal_strlit("");
    assert(text::trim(line) =~= ""@);
}

proof fn lemma_blank_start(line: Seq<char>)
    requires
        blank(line),
    ensures
        text::trim_start(line).len() == 0,
    decreases line.len(),
{
    if line.len() > 0 {
        lemma_blank_start(line.drop_first());
    }
}

/// One's own description follows the public address: only the candidate that the
/// STUN server found changes.
pub proof fn law_own_candidates_follow_the_mapping(
    public: SocketAddress,
    local: Option<SocketAddress>,
    address: SocketAddress,
)
    ensures
        console::with_public_address(console::own_candidates(public, local), address)
            == console::own_candidates(public, local).update(
            0,
            Candidate { kind: CandidateKind::ServerReflexive, address },
        ),
{
}

// ---------------------------------------------------------------------------
// The command line
// ---------------------------------------------------------------------------

/// Arguments are read from left to right. `--stun` takes the next one as the
/// server, the last one counting; `--stun-only` can stand anywhere; the first
/// request for help, or the first unknown argument, ends the reading.
pub proof fn law_arguments(
    known: CliView,
    rest: Seq<Seq<char>>,
    server: Seq<char>,
    unknown: Seq<char>,
)
    requires
        unknown != "--stun"@,
        unknown != "--stun-only"@,
        unknown != "-h"@,
        unknown != "--help"@,
    ensures
        console::read_cli(Seq::empty(), known) == Ok::<StartView, Seq<char>>(
            StartView::Run(known),
        ),
        console::read_cli(seq!["--stun"@, server] + rest, known) == console::read_cli(
            rest,
            CliView { stun_server: server, ..known },
        ),
        console::read_cli(seq!["--stun"@], known) == Err::<StartView, _>(
            "после --stun нужен адрес host:port"@,
        ),
        console::read_cli(seq!["--stun-only"@] + rest, known) == console::read_cli(
            rest,
            CliView { stun_only: true, ..known },
        ),
        console::read_cli(seq!["-h"@] + rest, known) == Ok::<StartView, Seq<char>>(
            StartView::Help,
        ),
        console::read_cli(seq!["--help"@] + rest, known) == Ok::<StartView, Seq<char>>(
            StartView::Help,
        ),
        console::read_cli(seq![unknown] + rest, known) == Err::<StartView, _>(
            "неизвестный аргумент: "@ + unknown,
        ),
        console::default_cli() == (CliView {
            stun_server: "stun.cloudflare.com:3478"@,
            stun_only: false,
        }),
{
    reveal_strlit("--stun");
    reveal_strlit("--stun-only");
    reveal_strlit("-h");
    reveal_strlit("--help");
    assert("--stun"@.len() == 6 && "--stun-only"@.len() == 11 && "-h"@.len() == 2 && "--help"@.len()
        == 6);
    assert("--stun"@[2] == 's' && "--help"@[2] == 'h');
    assert((seq!["--stun"@, server] + rest).skip(2) =~= rest);
    assert((seq!["--stun-only"@] + rest).skip(1) =~= rest);
}

// ---------------------------------------------------------------------------
// The keyboard
// ---------------------------------------------------------------------------

/// The words that are commands, with any white space around them.
pub proof fn law_words(line: Seq<char>, local: PeerDescriptionView)
    ensures
        ({
            let word = text::trim(line);
            let reaction = console::react(line, local);
            &&& word == "/quit"@ || word == "/exit"@ ==> reaction == ReactionView {
                command: None,
                message: None,
                quit: true,
            }
            &&& word == "/help"@ ==> reaction == ReactionView {
                command: None,
                message: Some("Команды: /status, /ping, /retry, /replace-code, /quit"@),
                quit: false,
            }
            &&& word == "/status"@ ==> reaction == ReactionView {
                command: Some(CommandView::Status),
                message: None,
                quit: false,
            }
            &&& word == "/ping"@ ==> reaction == ReactionView {
                command: Some(CommandView::Ping),
                message: None,
                quit: false,
            }
            &&& word == "/retry"@ ==> reaction == ReactionView {
                command: Some(CommandView::Retry),
                message: None,
                quit: false,
            }
            &&& word == "/replace-code"@ ==> reaction == ReactionView {
                command: Some(CommandView::ClearPeer),
                message: Some("Вставьте актуальный HP2-код второй машины:"@),
                quit: false,
            }
        }),
{
    reveal_strlit("/quit");
    reveal_strlit("/exit");
    reveal_strlit("/help");
    reveal_strlit("/status");
    reveal_strlit("/ping");
    reveal_strlit("/retry");
    reveal_strlit("/replace-code");
    assert("/quit"@[1] == 'q' && "/exit"@[1] == 'e' && "/help"@[1] == 'h' && "/status"@[1] == 's'
        && "/ping"@[1] == 'p');
    assert("/retry"@[3] == 't' && "/replace-code"@[3] == 'p');
    assert("/retry"@[1] == 'r' && "/replace-code"@[1] == 'r');
}

/// Any other text is read as a session code: an acceptable description becomes
/// the peer, and anything else is answered with what is wrong with it.
pub proof fn law_other_text_is_a_code(line: Seq<char>, local: PeerDescriptionView)
    requires
        ({
            let word = text::trim(line);
            &&& word != "/quit"@ && word != "/exit"@ && word != "/help"@ && word != "/status"@
            &&& word != "/ping"@ && word != "/retry"@ && word != "/replace-code"@
            &&& word.len() > 0
        }),
    ensures
        console::react(line, local) == match protocol::read_input(text::trim(line)) {
            Ok(peer) => if peer.remote_error(local) is None {
                ReactionView {
                    command: Some(CommandView::SetPeer(peer)),
                    message: None,
                    quit: false,
                }
            } else {
                ReactionView {
                    command: None,
                    message: Some("[ERROR CODE] "@ + peer.remote_error(local)->0.message()),
                    quit: false,
                }
            },
            Err(e) => ReactionView {
                command: None,
                message: Some(
                    match e {
                        ProtocolErrorView::InvalidDescription(m) => "[ERROR CODE] "@ + m,
                        ProtocolErrorView::InvalidPacket(m) => "[ERROR CODE] "@ + m,
                        ProtocolErrorView::AuthenticationFailed => {
                            "[ERROR CODE] код не прошёл проверку."@
                        },
                    },
                ),
                quit: false,
            },
        },
{
    reveal_strlit("");
    assert(""@.len() == 0);
}

/// A line is a command or a code, a line that was cut is only reported, and the
/// end of the input ends the program.
pub proof fn law_input(line: String, local: PeerDescriptionView)
    ensures
        console::react_to_input(InputEvent::Line(line), local) == console::react(line@, local),
        console::react_to_input(InputEvent::TooLong, local) == (ReactionView {
            command: None,
            message: Some(
                "[INPUT] строка длиннее "@ + text::decimal(2048) + " байт и отброшена."@,
            ),
            quit: false,
        }),
        console::react_to_input(InputEvent::Eof, local) == (ReactionView {
            command: None,
            message: None,
            quit: true,
        }),
        console::MAX_INPUT_LINE == 2048,
{
}

// ---------------------------------------------------------------------------
// One's own description
// ---------------------------------------------------------------------------

/// One's own candidates: the public address first, and the local one where it is
/// known and another one.
pub proof fn law_own_candidates(public: SocketAddress, local: SocketAddress)
    ensures
        console::own_candidates(public, None) == seq![
            Candidate { kind: CandidateKind::ServerReflexive, address: public },
        ],
        console::own_candidates(public, Some(public)) == console::own_candidates(public, None),
        local != public ==> console::own_candidates(public, Some(local)) == seq![
            Candidate { kind: CandidateKind::ServerReflexive, address: public },
            Candidate { kind: CandidateKind::Host, address: local },
        ],
{
}

/// A new public address goes into the first candidate that a STUN server found;
/// every other candidate stays, and so does the list where there is none.
pub proof fn law_public_address_is_replaced(cs: Seq<Candidate>, k: int, address: SocketAddress)
    requires
        0 <= k <= cs.len(),
        forall|j: int| 0 <= j < k ==> (#[trigger] cs[j]).kind != CandidateKind::ServerReflexive,
        k < cs.len() ==> cs[k].kind == CandidateKind::ServerReflexive,
    ensures
        console::with_public_address(cs, address) == if k < cs.len() {
            cs.update(k, Candidate { kind: CandidateKind::ServerReflexive, address })
        } else {
            cs
        },
    decreases cs.len(),
{
    if cs.len() > 0 && k > 0 {
        let rest = cs.drop_first();
        assert forall|j: int| 0 <= j < k - 1 implies (#[trigger] rest[j]).kind
            != CandidateKind::ServerReflexive by {
            assert(rest[j] == cs[j + 1]);
        }
        law_public_address_is_replaced(rest, k - 1, address);
        assert(cs[0].kind != CandidateKind::ServerReflexive);
        let replaced = console::with_public_address(rest, address);
        if k < cs.len() {
            assert(seq![cs[0]] + replaced =~= cs.update(
                k,
                Candidate { kind: CandidateKind::ServerReflexive, address },
            ));
        } else {
            assert(seq![cs[0]] + replaced =~= cs);
        }
    }
}

/// A session code is shown between two marks; where there is none, the reason is.
pub proof fn law_code_is_shown(d: PeerDescriptionView, label: Seq<char>)
    ensures
        d.error() is None ==> console::code_lines(d, label) == seq![
            "----- BEGIN "@ + label + " -----"@,
            protocol::code_text(d),
            "----- END "@ + label + " -----"@,
        ],
        d.error() matches Some(e) ==> console::code_lines(d, label) == seq![
            "[ERROR CODE] не удалось сформировать код: "@ + e.message(),
        ],
{
}

/// When the public address has changed, the user is told, and the code that is
/// shown from then on is that of the description with the new address. Nothing
/// else touches the description, and only a broken socket ends the program.
pub proof fn law_new_code_is_shown(
    event: EventView,
    local: PeerDescriptionView,
    address: SocketAddress,
)
    ensures
        ({
            let moved = PeerDescriptionView {
                candidates: console::with_public_address(local.candidates, address),
                ..local
            };
            let changed = EventView::MappingChanged { address };
            &&& console::after_event(changed, local) == moved
            &&& console::response_lines(changed, local) == console::event_lines(changed)
                + console::code_lines(moved, "НОВЫЙ SESSION CODE"@)
        }),
        !(event is MappingChanged) ==> console::after_event(event, local) == local,
        !(event is MappingChanged) ==> console::response_lines(event, local)
            == console::event_lines(event),
        console::ends_program(event) <==> (event matches EventView::Fatal(_)),
{
}

// ---------------------------------------------------------------------------
// Messages
// ---------------------------------------------------------------------------

/// The counters on one line: the time in whole seconds, the round-trip time in
/// whole milliseconds.
pub proof fn law_counters_are_shown(elapsed: u64, stats: Stats)
    ensures
        console::progress_text(elapsed, stats) == "[STATS +"@ + text::decimal(
            elapsed as nat / 1_000_000_000,
        ) + "s] probes sent="@ + text::decimal(stats.probes_sent as nat) + ", datagrams received="@
            + text::decimal(stats.datagrams_received as nat) + ", authenticated="@ + text::decimal(
            stats.authenticated as nat,
        ) + ", invalid="@ + text::decimal(stats.invalid as nat) + ", rtt="@ + if stats.selected_rtt
            is Some {
            "Some(\""@ + text::decimal(stats.selected_rtt->0 as nat / 1_000_000) + "ms\")"@
        } else {
            "None"@
        },
{
}

/// What the user is told of each event.
pub proof fn law_events_are_shown(
    message: Seq<char>,
    address: SocketAddress,
    kind: CandidateKind,
    n: nat,
    t: u64,
    stats: Stats,
)
    ensures
        console::event_lines(EventView::Info(message)) == seq!["[INFO] "@ + message],
        console::event_lines(EventView::Fatal(message)) == seq!["[ERROR SOCKET] "@ + message],
        console::event_lines(EventView::MappingChanged { address }) == seq![
            "[CODE EXPIRED] NAT изменил public mapping на "@ + address::address_text(address)
                + "."@,
        ],
        console::event_lines(EventView::CheckingStarted { candidates: n }) == seq![
            "[CHECKING] проверяю "@ + text::decimal(n)
                + " remote candidates, максимум 30 секунд."@,
        ],
        console::event_lines(EventView::Progress { elapsed: t, stats }) == seq![
            console::progress_text(t, stats),
        ],
        console::event_lines(EventView::Connected { source: address, kind, rtt: t }) == seq![
            "[OK] Получен ответ на наш probe через "@ + match kind {
                CandidateKind::Host => "LAN"@,
                CandidateKind::ServerReflexive => "PUBLIC"@,
                CandidateKind::PeerReflexive => "PEER-REFLEXIVE"@,
            } + " ("@ + address::address_text(address) + "), RTT "@ + text::decimal(
                t as nat / 1_000_000,
            ) + " ms."@,
        ],
        console::event_lines(EventView::PingResult(t)) == seq![
            "[PING] round-trip "@ + text::decimal(t as nat / 1_000_000) + " ms."@,
        ],
        console::event_lines(EventView::Disconnected { reason: message, stats }) == seq![
            "[DISCONNECTED] "@ + message,
            console::progress_text(0, stats),
            "Сессия вернулась в rechecking; данные не передаются."@,
        ],
        console::event_lines(EventView::Failed { stats }) == seq![
            "[NOT CONNECTED] подтверждённый ответ не получен за 30 секунд."@,
            console::progress_text(30_000_000_000, stats),
            "Команды: /retry, /replace-code, /status, /quit"@,
        ],
{
}

/// What the user is told of the status: the state, and the selected path with its
/// kind.
pub proof fn law_status_is_shown(
    state: Seq<char>,
    peer: Option<SocketAddress>,
    kind: Option<CandidateKind>,
    stats: Stats,
)
    ensures
        console::event_lines(EventView::Status { state, peer, kind, stats }) == seq![
            "[STATUS] state="@ + state + ", selected="@ + if peer is Some {
                "Some("@ + address::address_text(peer->0) + ")"@
            } else {
                "None"@
            } + " ("@ + if kind is Some {
                "Some("@ + match kind->0 {
                    CandidateKind::Host => "Host"@,
                    CandidateKind::ServerReflexive => "ServerReflexive"@,
                    CandidateKind::PeerReflexive => "PeerReflexive"@,
                } + ")"@
            } else {
                "None"@
            } + ")"@,
            console::progress_text(0, stats),
        ],
{
}

} // verus!
