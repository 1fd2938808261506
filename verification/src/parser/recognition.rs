//! Line-level recognition of Minecraft client log evidence.
//!
//! Every rule is an ASCII marker matched case-insensitively inside the
//! message body of one decoded line. The specification functions below state
//! the rule table; `recognize_events` is proved to produce exactly its output.

use vstd::prelude::*;

use crate::parser::minecraft_log::{
    CrashMarker, DisconnectKind, EventView, EvidenceRule, MinecraftLogEvent,
};
use crate::text::{
    match_at,
    all_ascii_digits, all_ascii_digits_chars, chars_of, contains, contains_chars, eq_chars,
find, find_chars, first_token, first_token_chars, lemma_find_some,
    lemma_rfind_some, lower_chars, lower_seq, rfind_chars, rsplit_once, slice_chars,
    split_first, starts_with, starts_with_chars, string_from_chars, trim_by, trim_chars,
    trim_end_by, trim_end_chars, trim_start_chars, trim_start_index, trim_start_ws, trim_ws,
    TrimSet,
};

verus! {

/// One recognized event before timestamps and provenance are attached.
pub struct RecognizedEvent {
    pub event: MinecraftLogEvent,
    pub rule: EvidenceRule,
    pub confidence_score: u8,
}

impl View for RecognizedEvent {
    type V = (EventView, EvidenceRule, u8);

    open spec fn view(&self) -> (EventView, EvidenceRule, u8) {
        (self.event@, self.rule, self.confidence_score)
    }
}

pub open spec fn rec(event: EventView, rule: EvidenceRule, score: u8) -> (EventView, EvidenceRule, u8) {
    (event, rule, score)
}

/// Text inside a leading `[...]` group.
pub open spec fn bracket_prefix_spec(line: Seq<char>) -> Option<Seq<char>> {
    if line.len() > 0 && line[0] == '[' {
        match find(line.drop_first(), seq![']']) {
            Some(e) => Some(line.drop_first().take(e as int)),
            None => None,
        }
    } else {
        None
    }
}

/// The message after the last `]: `, or after a leading bracket group.
pub open spec fn message_body_spec(line: Seq<char>) -> Seq<char> {
    match rsplit_once(line, "]: "@) {
        Some((_, message)) => message,
        None => match bracket_prefix_spec(line) {
            Some(p) => trim_start_ws(line.subrange((p.len() + 2) as int, line.len() as int)),
            None => line,
        },
    }
}

/// Text of `message` after `marker` (located in the lowercase copy), if present.
pub open spec fn after_marker(message: Seq<char>, lower: Seq<char>, marker: Seq<char>) -> Option<
    Seq<char>,
> {
    match find(lower, marker) {
        Some(i) => if i + marker.len() <= message.len() {
            Some(message.subrange((i + marker.len()) as int, message.len() as int))
        } else {
            None
        },
        None => None,
    }
}

/// First whitespace-separated token after `marker`, stripped of punctuation.
pub open spec fn version_after_spec(message: Seq<char>, lower: Seq<char>, marker: Seq<char>) -> Option<
    Seq<char>,
> {
    match after_marker(message, lower, marker) {
        Some(rest) => match first_token(trim_start_ws(rest)) {
            Some(token) => {
                let t = trim_by(token, TrimSet::VersionPunctuation);
                if t.len() == 0 {
                    None
                } else {
                    Some(t)
                }
            },
            None => None,
        },
        None => None,
    }
}

pub open spec fn token_address(candidate: Seq<char>) -> Option<Seq<char>> {
    match first_token(candidate) {
        Some(a) => {
            let t = trim_by(a, TrimSet::Quotes);
            if t.len() == 0 {
                None
            } else {
                Some(t)
            }
        },
        None => None,
    }
}

/// Server address after `connecting to `; a `host, port` pair becomes `host:port`.
pub open spec fn server_address_spec(message: Seq<char>, lower: Seq<char>) -> Option<Seq<char>> {
    match after_marker(message, lower, "connecting to "@) {
        Some(rest) => {
            let candidate = trim_ws(rest);
            if candidate.len() == 0 {
                None
            } else {
                let c = trim_end_by(split_first(candidate, " with "@), TrimSet::DotOrSemicolon);
                match rsplit_once(c, seq![',']) {
                    Some((h, p)) => {
                        let host = trim_ws(h);
                        let port = trim_ws(p);
                        if host.len() > 0 && port.len() > 0 && all_ascii_digits(port) {
                            Some(host + seq![':'] + port)
                        } else {
                            token_address(c)
                        }
                    },
                    None => token_address(c),
                }
            }
        },
        None => None,
    }
}

/// A quoted value after `marker`.
pub open spec fn quoted_after_spec(message: Seq<char>, lower: Seq<char>, marker: Seq<char>) -> Option<
    Seq<char>,
> {
    match after_marker(message, lower, marker) {
        Some(rest) => {
            let r = trim_start_ws(rest);
            if r.len() > 0 && (r[0] == '\'' || r[0] == '"') {
                let value = r.drop_first();
                match find(value, seq![r[0]]) {
                    Some(e) => {
                        let v = trim_ws(value.take(e as int));
                        if v.len() == 0 {
                            None
                        } else {
                            Some(v)
                        }
                    },
                    None => None,
                }
            } else {
                None
            }
        },
        None => None,
    }
}

/// Startup and version rules, and whether a startup was emitted.
pub open spec fn start_rules(m: Seq<char>, l: Seq<char>) -> (Seq<(EventView, EvidenceRule, u8)>, bool) {
    if let Some(v) = version_after_spec(m, l, "loading minecraft "@) {
        (
            seq![
                rec(EventView::GameStarted, EvidenceRule::LoadingMinecraft, 94),
                rec(EventView::VersionObserved(v), EvidenceRule::LoadingMinecraft, 98),
            ],
            true,
        )
    } else if let Some(v) = version_after_spec(m, l, "starting minecraft client version "@) {
        (
            seq![
                rec(EventView::GameStarted, EvidenceRule::StartingMinecraftClientVersion, 96),
                rec(EventView::VersionObserved(v), EvidenceRule::StartingMinecraftClientVersion, 99),
            ],
            true,
        )
    } else if version_after_spec(m, l, "for minecraft "@) is Some && contains(
        l,
        "forge mod loader version"@,
    ) {
        (
            seq![
                rec(EventView::GameStarted, EvidenceRule::ForgeForMinecraftVersion, 91),
                rec(
                    EventView::VersionObserved(version_after_spec(m, l, "for minecraft "@)->0),
                    EvidenceRule::ForgeForMinecraftVersion,
                    96,
                ),
            ],
            true,
        )
    } else if let Some(v) = version_after_spec(m, l, "minecraft version: "@) {
        (seq![rec(EventView::VersionObserved(v), EvidenceRule::MinecraftVersionField, 96)], false)
    } else {
        (Seq::empty(), false)
    }
}

pub open spec fn user_rules(l: Seq<char>, emitted_start: bool) -> Seq<(EventView, EvidenceRule, u8)> {
    if !emitted_start && starts_with(l, "setting user:"@) {
        seq![rec(EventView::GameStarted, EvidenceRule::SettingUser, 82)]
    } else if !emitted_start && (starts_with(l, "lwjgl version:"@) || starts_with(
        l,
        "backend library: lwjgl version"@,
    )) {
        seq![rec(EventView::GameStarted, EvidenceRule::LwjglInitialized, 72)]
    } else {
        Seq::empty()
    }
}

pub open spec fn server_rules(m: Seq<char>, l: Seq<char>) -> Seq<(EventView, EvidenceRule, u8)> {
    match server_address_spec(m, l) {
        Some(a) => seq![rec(EventView::ServerJoined(a), EvidenceRule::ConnectingToServer, 95)],
        None => Seq::empty(),
    }
}

pub open spec fn integrated_rules(m: Seq<char>, l: Seq<char>) -> Seq<(EventView, EvidenceRule, u8)> {
    if contains(l, "starting integrated minecraft server"@) {
        seq![
            rec(
                EventView::IntegratedServerStarted(version_after_spec(m, l, "version "@)),
                EvidenceRule::StartingIntegratedServer,
                96,
            ),
        ]
    } else {
        Seq::empty()
    }
}

pub open spec fn world_rules(m: Seq<char>, l: Seq<char>) -> Seq<(EventView, EvidenceRule, u8)> {
    match quoted_after_spec(m, l, "preparing level "@) {
        Some(w) => seq![rec(EventView::WorldLoaded(Some(w)), EvidenceRule::PreparingLevel, 94)],
        None => if contains(l, "preparing start region for dimension"@) {
            seq![rec(EventView::WorldLoaded(None), EvidenceRule::PreparingStartRegion, 80)]
        } else {
            Seq::empty()
        },
    }
}

pub open spec fn disconnect_rules(l: Seq<char>) -> Seq<(EventView, EvidenceRule, u8)> {
    if contains(l, "stopping integrated server"@) {
        seq![
            rec(
                EventView::Disconnected(DisconnectKind::IntegratedServerStopped),
                EvidenceRule::IntegratedServerStopped,
                92,
            ),
        ]
    } else if contains(l, "disconnected from server"@) {
        seq![
            rec(
                EventView::Disconnected(DisconnectKind::Remote),
                EvidenceRule::DisconnectedFromServer,
                92,
            ),
        ]
    } else if contains(l, "network disconnect"@) || contains(l, "client disconnected with reason"@) {
        seq![rec(EventView::Disconnected(DisconnectKind::Network), EvidenceRule::NetworkDisconnect, 88)]
    } else {
        Seq::empty()
    }
}

pub open spec fn stopping_rules(l: Seq<char>) -> Seq<(EventView, EvidenceRule, u8)> {
    if l == "stopping!"@ || starts_with(l, "stopping minecraft"@) {
        seq![rec(EventView::Stopping, EvidenceRule::ClientStopping, 96)]
    } else {
        Seq::empty()
    }
}

pub open spec fn shutdown_rules(l: Seq<char>) -> Seq<(EventView, EvidenceRule, u8)> {
    if starts_with(l, "stopping worker threads"@) || starts_with(l, "soundsystem shutting down"@)
        || starts_with(l, "sound engine shut down"@) || l == "shutdown complete"@ {
        seq![rec(EventView::CleanShutdown, EvidenceRule::ShutdownComplete, 94)]
    } else {
        Seq::empty()
    }
}

pub open spec fn crash_rules(l: Seq<char>, lower_line: Seq<char>) -> Seq<(EventView, EvidenceRule, u8)> {
    if contains(lower_line, "---- minecraft crash report ----"@) {
        seq![rec(EventView::Crash(CrashMarker::CrashReportHeader), EvidenceRule::CrashReportHeader, 100)]
    } else if contains(l, "this crash report has been saved to:"@) {
        seq![rec(EventView::Crash(CrashMarker::CrashReportSaved), EvidenceRule::CrashReportSaved, 100)]
    } else if contains(l, "unreported exception thrown"@) {
        seq![
            rec(EventView::Crash(CrashMarker::UnreportedException), EvidenceRule::UnreportedException, 98),
        ]
    } else if contains(lower_line, "/fatal]"@) || contains(lower_line, "/fatal]:"@) {
        seq![rec(EventView::Crash(CrashMarker::FatalLogLevel), EvidenceRule::FatalLogLevel, 96)]
    } else if contains(l, "minecraft has crashed"@) || contains(l, "the game crashed whilst"@) {
        seq![rec(EventView::Crash(CrashMarker::GameCrashed), EvidenceRule::GameCrashed, 96)]
    } else {
        Seq::empty()
    }
}

proof fn lemma_concat_contains(a: Seq<(EventView, EvidenceRule, u8)>, b: Seq<(EventView, EvidenceRule, u8)>, x: (EventView, EvidenceRule, u8))
    ensures
        (a.contains(x) || b.contains(x)) ==> (a + b).contains(x),
{
    if a.contains(x) {
        let i = choose|i: int| 0 <= i < a.len() && a[i] == x;
        assert((a + b)[i] == x);
    } else if b.contains(x) {
        let i = choose|i: int| 0 <= i < b.len() && b[i] == x;
        assert((a + b)[a.len() + i] == x);
    }
}

/// An event produced by any one rule family is among the line's events.
proof fn lemma_recognized_by_family(line: Seq<char>, x: (EventView, EvidenceRule, u8))
    requires
        ({
            let m = trim_ws(message_body_spec(line));
            let l = lower_seq(m);
            let ll = lower_seq(line);
            ||| start_rules(m, l).0.contains(x)
            ||| user_rules(l, start_rules(m, l).1).contains(x)
            ||| server_rules(m, l).contains(x)
            ||| integrated_rules(m, l).contains(x)
            ||| world_rules(m, l).contains(x)
            ||| disconnect_rules(l).contains(x)
            ||| stopping_rules(l).contains(x)
            ||| shutdown_rules(l).contains(x)
            ||| crash_rules(l, ll).contains(x)
        }),
    ensures
        recognize_spec(line).contains(x),
{
    let m = trim_ws(message_body_spec(line));
    let l = lower_seq(m);
    let ll = lower_seq(line);
    let (start, emitted) = start_rules(m, l);
    let s1 = start + user_rules(l, emitted);
    lemma_concat_contains(start, user_rules(l, emitted), x);
    let s2 = s1 + server_rules(m, l);
    lemma_concat_contains(s1, server_rules(m, l), x);
    let s3 = s2 + integrated_rules(m, l);
    lemma_concat_contains(s2, integrated_rules(m, l), x);
    let s4 = s3 + world_rules(m, l);
    lemma_concat_contains(s3, world_rules(m, l), x);
    let s5 = s4 + disconnect_rules(l);
    lemma_concat_contains(s4, disconnect_rules(l), x);
    let s6 = s5 + stopping_rules(l);
    lemma_concat_contains(s5, stopping_rules(l), x);
    let s7 = s6 + shutdown_rules(l);
    lemma_concat_contains(s6, shutdown_rules(l), x);
    lemma_concat_contains(s7, crash_rules(l, ll), x);
}

/// A line whose message (in any ASCII case) is exactly `Stopping!` or starts
/// with `Stopping Minecraft` is recognized as the client stopping.
pub proof fn law_stopping_is_recognized(line: Seq<char>)
    requires
        ({
            let l = lower_seq(trim_ws(message_body_spec(line)));
            l == "stopping!"@ || starts_with(l, "stopping minecraft"@)
        }),
    ensures
        recognize_spec(line).contains((EventView::Stopping, EvidenceRule::ClientStopping, 96u8)),
{
    let l = lower_seq(trim_ws(message_body_spec(line)));
    assert(stopping_rules(l)[0] == (EventView::Stopping, EvidenceRule::ClientStopping, 96u8));
    lemma_recognized_by_family(line, (EventView::Stopping, EvidenceRule::ClientStopping, 96u8));
}

/// A line whose message (in any ASCII case) starts with `Stopping worker
/// threads`, `SoundSystem shutting down` or `Sound engine shut down`, or is
/// exactly `Shutdown complete`, is recognized as a clean shutdown.
pub proof fn law_clean_shutdown_is_recognized(line: Seq<char>)
    requires
        ({
            let l = lower_seq(trim_ws(message_body_spec(line)));
            ||| starts_with(l, "stopping worker threads"@)
            ||| starts_with(l, "soundsystem shutting down"@)
            ||| starts_with(l, "sound engine shut down"@)
            ||| l == "shutdown complete"@
        }),
    ensures
        recognize_spec(line).contains((EventView::CleanShutdown, EvidenceRule::ShutdownComplete, 94u8)),
{
    let l = lower_seq(trim_ws(message_body_spec(line)));
    assert(shutdown_rules(l)[0] == (EventView::CleanShutdown, EvidenceRule::ShutdownComplete, 94u8));
    lemma_recognized_by_family(line, (EventView::CleanShutdown, EvidenceRule::ShutdownComplete, 94u8));
}

/// A line whose message mentions any of the crash signs (a saved crash
/// report, an unreported exception, `Minecraft has crashed`, `The game
/// crashed whilst`), or whose text holds a FATAL log level or the crash
/// report header, in any ASCII case, ends with a crash event of high
/// confidence.
pub proof fn law_crash_signs_are_crashes(line: Seq<char>)
    requires
        ({
            let l = lower_seq(trim_ws(message_body_spec(line)));
            let ll = lower_seq(line);
            ||| contains(ll, "---- minecraft crash report ----"@)
            ||| contains(l, "this crash report has been saved to:"@)
            ||| contains(l, "unreported exception thrown"@)
            ||| contains(ll, "/fatal]"@)
            ||| contains(l, "minecraft has crashed"@)
            ||| contains(l, "the game crashed whilst"@)
        }),
    ensures
        recognize_spec(line).len() > 0,
        recognize_spec(line).last().0 is Crash,
        recognize_spec(line).last().2 >= 96,
        recognize_spec(line).contains(recognize_spec(line).last()),
{
    let r = recognize_spec(line);
    assert(r.last() == r[r.len() - 1]);
}

/// A line whose message (in any ASCII case) mentions stopping the
/// integrated server, a disconnect from a server, a network disconnect or a
/// client disconnect with a reason, is recognized as a disconnect.
pub proof fn law_disconnects_are_recognized(line: Seq<char>)
    requires
        ({
            let l = lower_seq(trim_ws(message_body_spec(line)));
            ||| contains(l, "stopping integrated server"@)
            ||| contains(l, "disconnected from server"@)
            ||| contains(l, "network disconnect"@)
            ||| contains(l, "client disconnected with reason"@)
        }),
    ensures
        exists|i: int|
            0 <= i < recognize_spec(line).len() && (#[trigger] recognize_spec(line)[i]).0 is Disconnected,
        contains(lower_seq(trim_ws(message_body_spec(line))), "stopping integrated server"@) ==> recognize_spec(
            line,
        ).contains(
            (
                EventView::Disconnected(DisconnectKind::IntegratedServerStopped),
                EvidenceRule::IntegratedServerStopped,
                92u8,
            ),
        ),
{
    let l = lower_seq(trim_ws(message_body_spec(line)));
    let x = disconnect_rules(l)[0];
    assert(disconnect_rules(l).contains(x));
    lemma_recognized_by_family(line, x);
    let r = recognize_spec(line);
    let i = choose|i: int| 0 <= i < r.len() && r[i] == x;
    assert(r[i].0 is Disconnected);
}

/// A line whose message mentions starting the integrated Minecraft server
/// is recognized as a local world being opened.
pub proof fn law_integrated_server_is_recognized(line: Seq<char>)
    requires
        contains(lower_seq(trim_ws(message_body_spec(line))), "starting integrated minecraft server"@),
    ensures
        exists|i: int|
            0 <= i < recognize_spec(line).len() && (#[trigger] recognize_spec(line)[i]).0 is IntegratedServerStarted
                && recognize_spec(line)[i].1 == EvidenceRule::StartingIntegratedServer,
{
    let m = trim_ws(message_body_spec(line));
    let l = lower_seq(m);
    let x = integrated_rules(m, l)[0];
    assert(integrated_rules(m, l).contains(x));
    lemma_recognized_by_family(line, x);
    let r = recognize_spec(line);
    let i = choose|i: int| 0 <= i < r.len() && r[i] == x;
    assert(r[i] == x);
}

/// A line naming a server being connected to is recognized as joining
/// that server.
pub proof fn law_server_join_is_recognized(line: Seq<char>)
    requires
        server_address_spec(trim_ws(message_body_spec(line)), lower_seq(trim_ws(message_body_spec(line)))) is Some,
    ensures
        recognize_spec(line).contains(
            (
                EventView::ServerJoined(
                    server_address_spec(
                        trim_ws(message_body_spec(line)),
                        lower_seq(trim_ws(message_body_spec(line))),
                    )->0,
                ),
                EvidenceRule::ConnectingToServer,
                95u8,
            ),
        ),
{
    let m = trim_ws(message_body_spec(line));
    let l = lower_seq(m);
    let x = server_rules(m, l)[0];
    assert(server_rules(m, l).contains(x));
    lemma_recognized_by_family(line, x);
}

/// A line announcing `Loading Minecraft <version>` is recognized as a game
/// start and as that version being observed.
pub proof fn law_loading_minecraft_starts_the_game(line: Seq<char>)
    requires
        version_after_spec(
            trim_ws(message_body_spec(line)),
            lower_seq(trim_ws(message_body_spec(line))),
            "loading minecraft "@,
        ) is Some,
    ensures
        recognize_spec(line).contains((EventView::GameStarted, EvidenceRule::LoadingMinecraft, 94u8)),
        recognize_spec(line).contains(
            (
                EventView::VersionObserved(
                    version_after_spec(
                        trim_ws(message_body_spec(line)),
                        lower_seq(trim_ws(message_body_spec(line))),
                        "loading minecraft "@,
                    )->0,
                ),
                EvidenceRule::LoadingMinecraft,
                98u8,
            ),
        ),
{
    let m = trim_ws(message_body_spec(line));
    let l = lower_seq(m);
    let s = start_rules(m, l).0;
    assert(s[0] == (EventView::GameStarted, EvidenceRule::LoadingMinecraft, 94u8));
    lemma_recognized_by_family(line, s[0]);
    assert(s.contains(s[1]));
    lemma_recognized_by_family(line, s[1]);
}

/// A line preparing a named level is recognized as that world being loaded.
pub proof fn law_preparing_level_loads_the_world(line: Seq<char>)
    requires
        quoted_after_spec(
            trim_ws(message_body_spec(line)),
            lower_seq(trim_ws(message_body_spec(line))),
            "preparing level "@,
        ) is Some,
    ensures
        recognize_spec(line).contains(
            (
                EventView::WorldLoaded(
                    quoted_after_spec(
                        trim_ws(message_body_spec(line)),
                        lower_seq(trim_ws(message_body_spec(line))),
                        "preparing level "@,
                    ),
                ),
                EvidenceRule::PreparingLevel,
                94u8,
            ),
        ),
{
    let m = trim_ws(message_body_spec(line));
    let l = lower_seq(m);
    assert(world_rules(m, l).contains(world_rules(m, l)[0]));
    lemma_recognized_by_family(line, world_rules(m, l)[0]);
}

/// A line that holds the crash report header, in any ASCII case, is
/// recognized as a crash: its last event is the header marker, by the
/// header rule, with full confidence.
pub proof fn law_crash_report_header_is_a_crash(line: Seq<char>)
    requires
        contains(lower_seq(line), "---- minecraft crash report ----"@),
    ensures
        recognize_spec(line).len() > 0,
        recognize_spec(line).last() == (
            EventView::Crash(CrashMarker::CrashReportHeader),
            EvidenceRule::CrashReportHeader,
            100u8,
        ),
        recognize_spec(line).contains(
            (EventView::Crash(CrashMarker::CrashReportHeader), EvidenceRule::CrashReportHeader, 100u8),
        ),
{
    let r = recognize_spec(line);
    assert(r.last() == r[r.len() - 1]);
}

/// Every event recognized in one decoded line, in emission order.
pub open spec fn recognize_spec(line: Seq<char>) -> Seq<(EventView, EvidenceRule, u8)> {
    let m = trim_ws(message_body_spec(line));
    let l = lower_seq(m);
    let ll = lower_seq(line);
    let (start, emitted) = start_rules(m, l);
    start + user_rules(l, emitted) + server_rules(m, l) + integrated_rules(m, l) + world_rules(m, l)
        + disconnect_rules(l) + stopping_rules(l) + shutdown_rules(l) + crash_rules(l, ll)
}

/// Text inside a leading `[...]` group of `line`.
pub fn bracket_prefix(line: &[char]) -> (r: Option<Vec<char>>)
    ensures
        r matches Some(p) ==> bracket_prefix_spec(line@) == Some(p@),
        r is None ==> bracket_prefix_spec(line@) is None,
        r matches Some(p) ==> p@.len() + 2 <= line@.len(),
{
    if line.len() == 0 || line[0] != '[' {
        return None;
    }
    let rest = slice_chars(line, 1, line.len());
    assert(rest@ =~= line@.drop_first());
    let close = vec![']'];
    assert(close@ =~= seq![']']);
    match find_chars(rest.as_slice(), close.as_slice()) {
        Some(e) => {
            proof {
                lemma_find_some(rest@, close@);
            }
            let p = slice_chars(rest.as_slice(), 0, e);
            assert(p@ =~= rest@.take(e as int));
            Some(p)
        },
        None => None,
    }
}

/// Message text of a log line.
pub fn message_body(line: &[char]) -> (r: Vec<char>)
    ensures
        r@ == message_body_spec(line@),
{
    let sep = chars_of("]: ");
    match rfind_chars(line, sep.as_slice()) {
        Some(i) => {
            proof {
                lemma_rfind_some(line@, sep@);
                assert(match_at(line@, sep@, i as int));
                assert(line@.len() == line.len());
            }
            return slice_chars(line, i + sep.len(), line.len());
        },
        None => {},
    }
    match bracket_prefix(line) {
        Some(p) => {
            proof {
                lemma_find_some(line@.drop_first(), seq![']']);
                assert(line@.len() == line.len());
            }
            let start = trim_start_index(line, p.len() + 2, TrimSet::Whitespace);
            slice_chars(line, start, line.len())
        },
        None => {
            assert(line@.subrange(0, line@.len() as int) =~= line@);
            slice_chars(line, 0, line.len())
        },
    }
}

/// Text after `marker`, located in the lowercase copy.
pub fn marker_rest(message: &[char], lower: &[char], marker: &[char]) -> (r: Option<Vec<char>>)
    ensures
        r matches Some(v) ==> after_marker(message@, lower@, marker@) == Some(v@),
        r is None ==> after_marker(message@, lower@, marker@) is None,
{
    match find_chars(lower, marker) {
        Some(i) => {
            proof {
                lemma_find_some(lower@, marker@);
                assert(match_at(lower@, marker@, i as int));
            }
            if i > message.len() || marker.len() > message.len() - i {
                return None;
            }
            let start = i + marker.len();
            if start <= message.len() {
                Some(slice_chars(message, start, message.len()))
            } else {
                None
            }
        },
        None => None,
    }
}

/// `extract_version_after`: the first token after `marker`, stripped of punctuation.
pub fn extract_version_after(message: &[char], lower: &[char], marker: &[char]) -> (r: Option<Vec<char>>)
    ensures
        r matches Some(v) ==> version_after_spec(message@, lower@, marker@) == Some(v@),
        r is None ==> version_after_spec(message@, lower@, marker@) is None,
{
    let rest = match marker_rest(message, lower, marker) {
        Some(rest) => rest,
        None => return None,
    };
    let candidate = trim_start_chars(rest.as_slice(), TrimSet::Whitespace);
    let token = match first_token_chars(candidate.as_slice()) {
        Some(t) => t,
        None => return None,
    };
    let t = trim_chars(token.as_slice(), TrimSet::VersionPunctuation);
    if t.len() == 0 {
        None
    } else {
        Some(t)
    }
}

fn token_address_exec(candidate: &[char]) -> (r: Option<Vec<char>>)
    ensures
        r matches Some(v) ==> token_address(candidate@) == Some(v@),
        r is None ==> token_address(candidate@) is None,
{
    match first_token_chars(candidate) {
        Some(a) => {
            let t = trim_chars(a.as_slice(), TrimSet::Quotes);
            if t.len() == 0 {
                None
            } else {
                Some(t)
            }
        },
        None => None,
    }
}

/// `extract_server_address`.
pub fn extract_server_address(message: &[char], lower: &[char]) -> (r: Option<Vec<char>>)
    ensures
        r matches Some(v) ==> server_address_spec(message@, lower@) == Some(v@),
        r is None ==> server_address_spec(message@, lower@) is None,
{
    let marker = chars_of("connecting to ");
    let rest = match marker_rest(message, lower, marker.as_slice()) {
        Some(rest) => rest,
        None => return None,
    };
    let candidate = trim_chars(rest.as_slice(), TrimSet::Whitespace);
    if candidate.len() == 0 {
        return None;
    }
    let with = chars_of(" with ");
    let first = match find_chars(candidate.as_slice(), with.as_slice()) {
        Some(i) => {
            proof {
                lemma_find_some(candidate@, with@);
            }
            slice_chars(candidate.as_slice(), 0, i)
        },
        None => candidate,
    };
    let c = trim_end_chars(first.as_slice(), TrimSet::DotOrSemicolon);
    let comma = vec![','];
    assert(comma@ =~= seq![',']);
    match rfind_chars(c.as_slice(), comma.as_slice()) {
        Some(i) => {
            proof {
                lemma_rfind_some(c@, comma@);
                assert(match_at(c@, comma@, i as int));
                assert(c@.len() == c.len());
            }
            let h = slice_chars(c.as_slice(), 0, i);
            let p = slice_chars(c.as_slice(), i + 1, c.len());
            let host = trim_chars(h.as_slice(), TrimSet::Whitespace);
            let port = trim_chars(p.as_slice(), TrimSet::Whitespace);
            if host.len() > 0 && port.len() > 0 && all_ascii_digits_chars(port.as_slice()) {
                let mut out = host;
                out.push(':');
                let mut k: usize = 0;
                let ghost base = out@;
                while k < port.len()
                    invariant
                        k <= port.len(),
                        out@ == base + port@.subrange(0, k as int),
                    decreases port.len() - k,
                {
                    out.push(port[k]);
                    k = k + 1;
                    assert(out@ =~= base + port@.subrange(0, k as int));
                }
                assert(port@.subrange(0, port@.len() as int) =~= port@);
                return Some(out);
            }
        },
        None => {},
    }
    token_address_exec(c.as_slice())
}

/// `extract_quoted_after`.
pub fn extract_quoted_after(message: &[char], lower: &[char], marker: &[char]) -> (r: Option<Vec<char>>)
    ensures
        r matches Some(v) ==> quoted_after_spec(message@, lower@, marker@) == Some(v@),
        r is None ==> quoted_after_spec(message@, lower@, marker@) is None,
{
    let rest = match marker_rest(message, lower, marker) {
        Some(rest) => rest,
        None => return None,
    };
    let r = trim_start_chars(rest.as_slice(), TrimSet::Whitespace);
    if r.len() == 0 {
        return None;
    }
    let quote = r[0];
    if quote != '\'' && quote != '"' {
        return None;
    }
    let value = slice_chars(r.as_slice(), 1, r.len());
    assert(value@ =~= r@.drop_first());
    let q = vec![quote];
    assert(q@ =~= seq![r@[0]]);
    match find_chars(value.as_slice(), q.as_slice()) {
        Some(e) => {
            proof {
                lemma_find_some(value@, q@);
            }
            let head = slice_chars(value.as_slice(), 0, e);
            assert(head@ =~= value@.take(e as int));
            let v = trim_chars(head.as_slice(), TrimSet::Whitespace);
            if v.len() == 0 {
                None
            } else {
                Some(v)
            }
        },
        None => None,
    }
}

fn push_rec(events: &mut Vec<RecognizedEvent>, event: MinecraftLogEvent, rule: EvidenceRule, score: u8)
    ensures
        final(events)@.len() == old(events)@.len() + 1,
        forall|i: int| 0 <= i < old(events)@.len() ==> final(events)@[i] == old(events)@[i],
        final(events)@[old(events)@.len() as int]@ == rec(event@, rule, score),
{
    events.push(RecognizedEvent { event, rule, confidence_score: score });
}

pub open spec fn views(v: Seq<RecognizedEvent>) -> Seq<(EventView, EvidenceRule, u8)> {
    v.map_values(|e: RecognizedEvent| e@)
}

proof fn lemma_views_push(old_v: Seq<RecognizedEvent>, new_v: Seq<RecognizedEvent>, x: (EventView, EvidenceRule, u8))
    requires
        new_v.len() == old_v.len() + 1,
        forall|i: int| 0 <= i < old_v.len() ==> new_v[i] == old_v[i],
        new_v[old_v.len() as int]@ == x,
    ensures
        views(new_v) == views(old_v).push(x),
{
    assert(views(new_v) =~= views(old_v).push(x));
}

/// Appends the startup and version events; returns whether a startup was emitted.
fn add_start_rules(events: &mut Vec<RecognizedEvent>, m: &[char], l: &[char]) -> (emitted: bool)
    ensures
        views(final(events)@) == views(old(events)@) + start_rules(m@, l@).0,
        emitted == start_rules(m@, l@).1,
{
    let ghost s0 = views(events@);
    let loading = chars_of("loading minecraft ");
    let client = chars_of("starting minecraft client version ");
    let forge_marker = chars_of("for minecraft ");
    let forge_loader = chars_of("forge mod loader version");
    let version_field = chars_of("minecraft version: ");
    let mut emitted_start = false;
    if let Some(version) = extract_version_after(m, l, loading.as_slice()) {
        let text = string_from_chars(version.as_slice());
        push_rec(events, MinecraftLogEvent::GameStarted, EvidenceRule::LoadingMinecraft, 94);
        push_rec(events, MinecraftLogEvent::VersionObserved { version: text }, EvidenceRule::LoadingMinecraft, 98);
        emitted_start = true;
    } else if let Some(version) = extract_version_after(m, l, client.as_slice()) {
        let text = string_from_chars(version.as_slice());
        push_rec(events, MinecraftLogEvent::GameStarted, EvidenceRule::StartingMinecraftClientVersion, 96);
        push_rec(events, MinecraftLogEvent::VersionObserved { version: text }, EvidenceRule::StartingMinecraftClientVersion, 99);
        emitted_start = true;
    } else {
        let forge = extract_version_after(m, l, forge_marker.as_slice());
        if forge.is_some() && contains_chars(l, forge_loader.as_slice()) {
            let version = forge.unwrap();
            let text = string_from_chars(version.as_slice());
            push_rec(events, MinecraftLogEvent::GameStarted, EvidenceRule::ForgeForMinecraftVersion, 91);
            push_rec(events, MinecraftLogEvent::VersionObserved { version: text }, EvidenceRule::ForgeForMinecraftVersion, 96);
            emitted_start = true;
        } else if let Some(version) = extract_version_after(m, l, version_field.as_slice()) {
            let text = string_from_chars(version.as_slice());
            push_rec(events, MinecraftLogEvent::VersionObserved { version: text }, EvidenceRule::MinecraftVersionField, 96);
        }
    }
    assert(views(events@) =~= s0 + start_rules(m@, l@).0);
    emitted_start
}

fn add_user_rules(events: &mut Vec<RecognizedEvent>, l: &[char], emitted_start: bool)
    ensures
        views(final(events)@) == views(old(events)@) + user_rules(l@, emitted_start),
{
    let ghost s0 = views(events@);
    let setting_user = chars_of("setting user:");
    let lwjgl = chars_of("lwjgl version:");
    let backend = chars_of("backend library: lwjgl version");
    if !emitted_start && starts_with_chars(l, setting_user.as_slice()) {
        push_rec(events, MinecraftLogEvent::GameStarted, EvidenceRule::SettingUser, 82);
    } else if !emitted_start && (starts_with_chars(l, lwjgl.as_slice())
        || starts_with_chars(l, backend.as_slice())) {
        push_rec(events, MinecraftLogEvent::GameStarted, EvidenceRule::LwjglInitialized, 72);
    }
    assert(views(events@) =~= s0 + user_rules(l@, emitted_start));
}

fn add_destination_rules(events: &mut Vec<RecognizedEvent>, m: &[char], l: &[char])
    ensures
        views(final(events)@) == views(old(events)@) + server_rules(m@, l@) + integrated_rules(m@, l@)
            + world_rules(m@, l@),
{
    let ghost s0 = views(events@);
    if let Some(address) = extract_server_address(m, l) {
        let text = string_from_chars(address.as_slice());
        push_rec(events, MinecraftLogEvent::ServerJoined { address: text }, EvidenceRule::ConnectingToServer, 95);
    }
    assert(views(events@) =~= s0 + server_rules(m@, l@));
    let ghost s1 = views(events@);
    let integrated = chars_of("starting integrated minecraft server");
    let version_marker = chars_of("version ");
    if contains_chars(l, integrated.as_slice()) {
        let version = match extract_version_after(m, l, version_marker.as_slice()) {
            Some(v) => Some(string_from_chars(v.as_slice())),
            None => None,
        };
        push_rec(events, MinecraftLogEvent::IntegratedServerStarted { version }, EvidenceRule::StartingIntegratedServer, 96);
    }
    assert(views(events@) =~= s1 + integrated_rules(m@, l@));
    let ghost s2 = views(events@);
    let preparing_level = chars_of("preparing level ");
    let start_region = chars_of("preparing start region for dimension");
    if let Some(world) = extract_quoted_after(m, l, preparing_level.as_slice()) {
        let text = string_from_chars(world.as_slice());
        push_rec(events, MinecraftLogEvent::WorldLoaded { world_name: Some(text) }, EvidenceRule::PreparingLevel, 94);
    } else if contains_chars(l, start_region.as_slice()) {
        push_rec(events, MinecraftLogEvent::WorldLoaded { world_name: None }, EvidenceRule::PreparingStartRegion, 80);
    }
    assert(views(events@) =~= s2 + world_rules(m@, l@));
}

fn add_lifecycle_rules(events: &mut Vec<RecognizedEvent>, l: &[char])
    ensures
        views(final(events)@) == views(old(events)@) + disconnect_rules(l@) + stopping_rules(l@)
            + shutdown_rules(l@),
{
    let ghost s0 = views(events@);
    let stopping_integrated = chars_of("stopping integrated server");
    let disconnected = chars_of("disconnected from server");
    let network = chars_of("network disconnect");
    let client_reason = chars_of("client disconnected with reason");
    if contains_chars(l, stopping_integrated.as_slice()) {
        push_rec(events, MinecraftLogEvent::Disconnected { disconnect_kind: DisconnectKind::IntegratedServerStopped }, EvidenceRule::IntegratedServerStopped, 92);
    } else if contains_chars(l, disconnected.as_slice()) {
        push_rec(events, MinecraftLogEvent::Disconnected { disconnect_kind: DisconnectKind::Remote }, EvidenceRule::DisconnectedFromServer, 92);
    } else if contains_chars(l, network.as_slice()) || contains_chars(l, client_reason.as_slice()) {
        push_rec(events, MinecraftLogEvent::Disconnected { disconnect_kind: DisconnectKind::Network }, EvidenceRule::NetworkDisconnect, 88);
    }
    assert(views(events@) =~= s0 + disconnect_rules(l@));
    let ghost s1 = views(events@);
    let stopping_bang = chars_of("stopping!");
    let stopping_mc = chars_of("stopping minecraft");
    if eq_chars(l, stopping_bang.as_slice()) || starts_with_chars(l, stopping_mc.as_slice()) {
        push_rec(events, MinecraftLogEvent::Stopping, EvidenceRule::ClientStopping, 96);
    }
    assert(views(events@) =~= s1 + stopping_rules(l@));
    let ghost s2 = views(events@);
    let worker = chars_of("stopping worker threads");
    let soundsystem = chars_of("soundsystem shutting down");
    let sound_engine = chars_of("sound engine shut down");
    let complete = chars_of("shutdown complete");
    if starts_with_chars(l, worker.as_slice()) || starts_with_chars(l, soundsystem.as_slice())
        || starts_with_chars(l, sound_engine.as_slice()) || eq_chars(l, complete.as_slice()) {
        push_rec(events, MinecraftLogEvent::CleanShutdown, EvidenceRule::ShutdownComplete, 94);
    }
    assert(views(events@) =~= s2 + shutdown_rules(l@));
}

fn add_crash_rules(events: &mut Vec<RecognizedEvent>, l: &[char], ll: &[char])
    ensures
        views(final(events)@) == views(old(events)@) + crash_rules(l@, ll@),
{
    let ghost s0 = views(events@);
    let header = chars_of("---- minecraft crash report ----");
    let saved = chars_of("this crash report has been saved to:");
    let unreported = chars_of("unreported exception thrown");
    let fatal = chars_of("/fatal]");
    let fatal_colon = chars_of("/fatal]:");
    let crashed = chars_of("minecraft has crashed");
    let whilst = chars_of("the game crashed whilst");
    if contains_chars(ll, header.as_slice()) {
        push_rec(events, MinecraftLogEvent::Crash { marker: CrashMarker::CrashReportHeader }, EvidenceRule::CrashReportHeader, 100);
    } else if contains_chars(l, saved.as_slice()) {
        push_rec(events, MinecraftLogEvent::Crash { marker: CrashMarker::CrashReportSaved }, EvidenceRule::CrashReportSaved, 100);
    } else if contains_chars(l, unreported.as_slice()) {
        push_rec(events, MinecraftLogEvent::Crash { marker: CrashMarker::UnreportedException }, EvidenceRule::UnreportedException, 98);
    } else if contains_chars(ll, fatal.as_slice()) || contains_chars(ll, fatal_colon.as_slice()) {
        push_rec(events, MinecraftLogEvent::Crash { marker: CrashMarker::FatalLogLevel }, EvidenceRule::FatalLogLevel, 96);
    } else if contains_chars(l, crashed.as_slice()) || contains_chars(l, whilst.as_slice()) {
        push_rec(events, MinecraftLogEvent::Crash { marker: CrashMarker::GameCrashed }, EvidenceRule::GameCrashed, 96);
    }
    assert(views(events@) =~= s0 + crash_rules(l@, ll@));
}

/// Recognize every evidence event in one decoded line.
pub fn recognize_events(line: &[char]) -> (r: Vec<RecognizedEvent>)
    ensures
        views(r@) == recognize_spec(line@),
{
    let body = message_body(line);
    let m = trim_chars(body.as_slice(), TrimSet::Whitespace);
    let l = lower_chars(m.as_slice());
    let ll = lower_chars(line);
    let mut events: Vec<RecognizedEvent> = Vec::new();
    assert(views(events@) =~= Seq::<(EventView, EvidenceRule, u8)>::empty());
    let emitted = add_start_rules(&mut events, m.as_slice(), l.as_slice());
    add_user_rules(&mut events, l.as_slice(), emitted);
    add_destination_rules(&mut events, m.as_slice(), l.as_slice());
    add_lifecycle_rules(&mut events, l.as_slice());
    add_crash_rules(&mut events, l.as_slice(), ll.as_slice());
    assert(views(events@) =~= recognize_spec(line@));
    events
}

} // verus!
