//! The line-by-line state machine of the Minecraft log parser.
//!
//! Reading stays with the caller: it delivers each decoded line, including
//! its line ending, after `check_line_growth` accepted every chunk of it. The
//! parser turns lines into typed, timestamped evidence under resource limits.

use vstd::prelude::*;

use crate::calendar::{
    clock_seconds_between, days_before, millis_of_day, next_day, previous_day, time_lt,
    CalendarDate, LocalDateTime, OffsetDateTime, TimeOfDay,
};
use crate::external::{
    chrono_datetime_parse, chrono_time_parse, decode_utf8_lossy, is_valid_utf8, lossy_utf8,
    parse_naive_datetime, parse_naive_time,
};
use crate::parser::minecraft_log::{
    context_offset, missing_timestamp, timestamp_from_local, timestamp_from_local_spec,
    DateHintBasis, EventView, EvidenceProvenance, EvidenceRule, EvidenceTimestamp, LogEvidence,
    LogParseContext, LogParseDiagnostics, LogParseLimits, ParsedLog, TimestampOrigin,
    MIDNIGHT_ROLLOVER_THRESHOLD_SECONDS, MILLIS_PER_DAY,
};
use crate::parser::recognition::{
    RecognizedEvent, bracket_prefix, bracket_prefix_spec, recognize_events, recognize_spec, views,
};
use crate::parser::session_reconstruction::{lemma_local_timestamp_bounded, log_accepted, seq_ok};
use crate::text::{chars_of, is_ascii_digit, is_ascii_digit_char, string_from_chars};

verus! {

/// Largest line limit under which every counter and day index stays exact,
/// and every time-only sequence value stays within the magnitude that
/// session reconstruction accepts.
pub const MAX_SUPPORTED_LINES: u64 = 10_000_000_000;

/// A resource limit that a log exceeded.
#[derive(Clone, Copy, PartialEq, Eq, Debug, Structural)]
pub enum LogLimitResource {
    LineBytes,
    DecompressedBytes,
    LineCount,
    EvidenceEventCount,
}

/// Why parsing stopped: an exceeded limit with the limit's value.
#[derive(Clone, Copy, PartialEq, Eq, Debug, Structural)]
pub struct LogParseLimitExceeded {
    pub resource: LogLimitResource,
    pub limit: u64,
}

impl LogLimitResource {
    pub fn label(self) -> (r: &'static str)
        ensures
            r@ == resource_label(self),
    {
        match self {
            LogLimitResource::LineBytes => "line bytes",
            LogLimitResource::DecompressedBytes => "decompressed bytes",
            LogLimitResource::LineCount => "line count",
            LogLimitResource::EvidenceEventCount => "evidence event count",
        }
    }
}

pub open spec fn resource_label(r: LogLimitResource) -> Seq<char> {
    match r {
        LogLimitResource::LineBytes => "line bytes"@,
        LogLimitResource::DecompressedBytes => "decompressed bytes"@,
        LogLimitResource::LineCount => "line count"@,
        LogLimitResource::EvidenceEventCount => "evidence event count"@,
    }
}

/// The outcome of adding one read chunk of `chunk_len` bytes to a line that
/// already holds `line_len` bytes, after `decoded_before` bytes of earlier lines.
pub open spec fn line_growth_spec(
    line_len: int,
    chunk_len: int,
    decoded_before: int,
    limits: LogParseLimits,
) -> Option<LogParseLimitExceeded> {
    if line_len + chunk_len > limits.max_line_bytes {
        Some(
            LogParseLimitExceeded {
                resource: LogLimitResource::LineBytes,
                limit: limits.max_line_bytes as u64,
            },
        )
    } else if decoded_before + line_len + chunk_len > limits.max_decompressed_bytes {
        Some(
            LogParseLimitExceeded {
                resource: LogLimitResource::DecompressedBytes,
                limit: limits.max_decompressed_bytes,
            },
        )
    } else {
        None
    }
}

/// Checks a line's growth by one chunk against the line and stream limits.
pub fn check_line_growth(
    line_len: usize,
    chunk_len: usize,
    decoded_before: u64,
    limits: &LogParseLimits,
) -> (r: Result<(), LogParseLimitExceeded>)
    ensures
        r is Ok <==> line_growth_spec(line_len as int, chunk_len as int, decoded_before as int, *limits) is None,
        r matches Err(e) ==> line_growth_spec(
            line_len as int,
            chunk_len as int,
            decoded_before as int,
            *limits,
        ) == Some(e),
{
    let line_bytes = LogParseLimitExceeded {
        resource: LogLimitResource::LineBytes,
        limit: limits.max_line_bytes as u64,
    };
    let decompressed = LogParseLimitExceeded {
        resource: LogLimitResource::DecompressedBytes,
        limit: limits.max_decompressed_bytes,
    };
    if chunk_len > limits.max_line_bytes || line_len > limits.max_line_bytes - chunk_len {
        return Err(line_bytes);
    }
    let next_line_len: u64 = (line_len + chunk_len) as u64;
    if decoded_before > limits.max_decompressed_bytes || next_line_len > limits.max_decompressed_bytes
        - decoded_before {
        return Err(decompressed);
    }
    Ok(())
}

/// Clock state carried from line to line.
#[derive(Clone, Copy, PartialEq, Eq, Debug, Structural)]
pub struct TimestampState {
    pub current_date: Option<CalendarDate>,
    pub last_time: Option<TimeOfDay>,
    pub day_index: i64,
}

impl TimestampState {
    pub open spec fn wf(self) -> bool {
        &&& self.current_date matches Some(d) ==> d.wf()
        &&& self.last_time matches Some(t) ==> t.wf()
        &&& 0 <= self.day_index
    }
}

pub open spec fn full_datetime_spec(p: Seq<char>) -> Option<LocalDateTime> {
    match chrono_datetime_parse(p, "%d%b%Y %H:%M:%S%.f"@) {
        Some(v) => Some(v),
        None => match chrono_datetime_parse(p, "%Y-%m-%d %H:%M:%S%.f"@) {
            Some(v) => Some(v),
            None => chrono_datetime_parse(p, "%Y-%m-%dT%H:%M:%S%.f"@),
        },
    }
}

/// A line prefix written in one of the three date-time formats of Minecraft
/// logs (`06Aug2026 10:00:00.123`, `2026-08-06 10:00:00.123`,
/// `2026-08-06T10:00:00.123`) reads as the date and time chrono reads in it,
/// the formats tried in that order; a prefix in none of them reads as none.
pub proof fn law_full_datetime_formats(p: Seq<char>)
    ensures
        chrono_datetime_parse(p, "%d%b%Y %H:%M:%S%.f"@) matches Some(v) ==> full_datetime_spec(p) == Some(v),
        chrono_datetime_parse(p, "%d%b%Y %H:%M:%S%.f"@) is None ==> (chrono_datetime_parse(
            p,
            "%Y-%m-%d %H:%M:%S%.f"@,
        ) matches Some(v) ==> full_datetime_spec(p) == Some(v)),
        chrono_datetime_parse(p, "%d%b%Y %H:%M:%S%.f"@) is None && chrono_datetime_parse(
            p,
            "%Y-%m-%d %H:%M:%S%.f"@,
        ) is None ==> (chrono_datetime_parse(p, "%Y-%m-%dT%H:%M:%S%.f"@) matches Some(v) ==> full_datetime_spec(p)
            == Some(v)),
        full_datetime_spec(p) is Some <==> (chrono_datetime_parse(p, "%d%b%Y %H:%M:%S%.f"@) is Some
            || chrono_datetime_parse(p, "%Y-%m-%d %H:%M:%S%.f"@) is Some || chrono_datetime_parse(
            p,
            "%Y-%m-%dT%H:%M:%S%.f"@,
        ) is Some),
{
}

pub open spec fn time_spec(p: Seq<char>) -> Option<TimeOfDay> {
    chrono_time_parse(p, "%H:%M:%S%.f"@)
}

/// A full date-time in one of the three log formats.
pub fn parse_full_datetime(prefix: &[char]) -> (r: Option<LocalDateTime>)
    ensures
        r == full_datetime_spec(prefix@),
        r matches Some(v) ==> v.wf(),
{
    let text = string_from_chars(prefix);
    match parse_naive_datetime(text.as_str(), "%d%b%Y %H:%M:%S%.f") {
        Some(v) => return Some(v),
        None => {},
    }
    match parse_naive_datetime(text.as_str(), "%Y-%m-%d %H:%M:%S%.f") {
        Some(v) => return Some(v),
        None => {},
    }
    parse_naive_datetime(text.as_str(), "%Y-%m-%dT%H:%M:%S%.f")
}

/// A clock time `HH:MM:SS` with an optional fraction.
pub fn parse_time(prefix: &[char]) -> (r: Option<TimeOfDay>)
    ensures
        r == time_spec(prefix@),
        r matches Some(v) ==> v.wf(),
{
    let text = string_from_chars(prefix);
    parse_naive_time(text.as_str(), "%H:%M:%S%.f")
}

pub open spec fn with_non_monotonic(d: LogParseDiagnostics) -> LogParseDiagnostics {
    LogParseDiagnostics { non_monotonic_timestamps: (d.non_monotonic_timestamps + 1) as u64, ..d }
}

pub open spec fn with_rollover(d: LogParseDiagnostics) -> LogParseDiagnostics {
    LogParseDiagnostics { midnight_rollovers: (d.midnight_rollovers + 1) as u64, ..d }
}

pub open spec fn with_unparsed_prefix(d: LogParseDiagnostics) -> LogParseDiagnostics {
    LogParseDiagnostics { unparsed_timestamp_prefixes: (d.unparsed_timestamp_prefixes + 1) as u64, ..d }
}

/// The clock update for a time-only line: rollover, regression or neither.
pub open spec fn clock_step(
    t: TimeOfDay,
    st: TimestampState,
    d: LogParseDiagnostics,
) -> (TimestampState, LogParseDiagnostics) {
    match st.last_time {
        Some(prev) => if time_lt(t, prev) {
            if clock_seconds_between(prev, t) > MIDNIGHT_ROLLOVER_THRESHOLD_SECONDS {
                (
                    TimestampState {
                        day_index: (st.day_index + 1) as i64,
                        current_date: match st.current_date {
                            Some(date) => next_day(date),
                            None => None,
                        },
                        ..st
                    },
                    with_rollover(d),
                )
            } else {
                (st, with_non_monotonic(d))
            }
        } else {
            (st, d)
        },
        None => (st, d),
    }
}

/// The timestamp of one sanitized line and the updated clock state and diagnostics.
pub open spec fn parse_timestamp_spec(
    line: Seq<char>,
    offset: Option<i32>,
    hinted: bool,
    st: TimestampState,
    d: LogParseDiagnostics,
) -> (EvidenceTimestamp, TimestampState, LogParseDiagnostics) {
    match bracket_prefix_spec(line) {
        None => (missing_timestamp(), st, d),
        Some(p) => match full_datetime_spec(p) {
            Some(local) => {
                let regress = st.last_time matches Some(prev) && local.date == (match st.current_date {
                    Some(c) => c,
                    None => local.date,
                }) && time_lt(local.time, prev);
                (
                    timestamp_from_local_spec(local, offset, TimestampOrigin::LineDateTime),
                    TimestampState {
                        current_date: Some(local.date),
                        last_time: Some(local.time),
                        day_index: 0,
                    },
                    if regress {
                        with_non_monotonic(d)
                    } else {
                        d
                    },
                )
            },
            None => match time_spec(p) {
                Some(t) => {
                    let (st1, d1) = clock_step(t, st, d);
                    let st2 = TimestampState { last_time: Some(t), ..st1 };
                    match st2.current_date {
                        Some(date) => (
                            timestamp_from_local_spec(
                                LocalDateTime { date, time: t },
                                offset,
                                if hinted {
                                    TimestampOrigin::LineTimeWithDateHint
                                } else {
                                    TimestampOrigin::LineDateTime
                                },
                            ),
                            st2,
                            d1,
                        ),
                        None => (
                            EvidenceTimestamp {
                                observed_local: None,
                                time_of_day: Some(t),
                                occurred_at_utc_ms: None,
                                utc_offset_minutes: None,
                                origin: TimestampOrigin::LineTimeOnly,
                                sequence_millis: Some(
                                    (st2.day_index * MILLIS_PER_DAY + millis_of_day(t)) as i64,
                                ),
                            },
                            st2,
                            d1,
                        ),
                    }
                },
                None => (
                    missing_timestamp(),
                    st,
                    if p.len() > 0 && is_ascii_digit(p[0]) {
                        with_unparsed_prefix(d)
                    } else {
                        d
                    },
                ),
            },
        },
    }
}

/// A line whose leading `[...]` holds a full date and time is stamped with
/// that local date and time, and the clock restarts on that date: the day
/// count goes back to zero and the time becomes the last one seen.
pub proof fn law_full_datetime_sets_the_clock(
    line: Seq<char>,
    offset: Option<i32>,
    hinted: bool,
    st: TimestampState,
    d: LogParseDiagnostics,
    p: Seq<char>,
    local: LocalDateTime,
)
    requires
        bracket_prefix_spec(line) == Some(p),
        full_datetime_spec(p) == Some(local),
    ensures
        parse_timestamp_spec(line, offset, hinted, st, d).0.observed_local == Some(local),
        parse_timestamp_spec(line, offset, hinted, st, d).0.time_of_day == Some(local.time),
        parse_timestamp_spec(line, offset, hinted, st, d).0.origin == TimestampOrigin::LineDateTime,
        parse_timestamp_spec(line, offset, hinted, st, d).1 == (TimestampState {
            current_date: Some(local.date),
            last_time: Some(local.time),
            day_index: 0,
        }),
        parse_timestamp_spec(line, offset, hinted, st, d).2.midnight_rollovers == d.midnight_rollovers,
{
}

/// A time-only line whose time lies more than the rollover threshold before
/// the last time seen has crossed midnight: the day count and the rollover
/// count go up by one, the day moves to the next, and the time becomes the
/// last one seen. A smaller step back is counted as non-monotonic and
/// leaves the day alone; a step forward changes neither count.
pub proof fn law_time_only_lines_follow_the_clock(
    line: Seq<char>,
    offset: Option<i32>,
    hinted: bool,
    st: TimestampState,
    d: LogParseDiagnostics,
    p: Seq<char>,
    t: TimeOfDay,
    prev: TimeOfDay,
)
    requires
        bracket_prefix_spec(line) == Some(p),
        full_datetime_spec(p) is None,
        time_spec(p) == Some(t),
        st.last_time == Some(prev),
        st.day_index < i64::MAX,
        d.midnight_rollovers < u64::MAX,
        d.non_monotonic_timestamps < u64::MAX,
    ensures
        ({
            let (ts, st2, d2) = parse_timestamp_spec(line, offset, hinted, st, d);
            &&& ts.time_of_day == Some(t)
            &&& st2.last_time == Some(t)
            &&& (time_lt(t, prev) && clock_seconds_between(prev, t) > MIDNIGHT_ROLLOVER_THRESHOLD_SECONDS) ==> {
                &&& st2.day_index == st.day_index + 1
                &&& d2.midnight_rollovers == d.midnight_rollovers + 1
                &&& d2.non_monotonic_timestamps == d.non_monotonic_timestamps
                &&& st2.current_date == match st.current_date {
                    Some(c) => next_day(c),
                    None => None,
                }
            }
            &&& (time_lt(t, prev) && clock_seconds_between(prev, t) <= MIDNIGHT_ROLLOVER_THRESHOLD_SECONDS) ==> {
                &&& st2.day_index == st.day_index
                &&& st2.current_date == st.current_date
                &&& d2.midnight_rollovers == d.midnight_rollovers
                &&& d2.non_monotonic_timestamps == d.non_monotonic_timestamps + 1
            }
            &&& !time_lt(t, prev) ==> {
                &&& st2.day_index == st.day_index
                &&& st2.current_date == st.current_date
                &&& d2 == d
            }
            &&& st2.current_date is None ==> {
                &&& ts.origin == TimestampOrigin::LineTimeOnly
                &&& ts.sequence_millis == Some((st2.day_index * MILLIS_PER_DAY + millis_of_day(t)) as i64)
            }
        }),
{
}

/// A line without a leading `[...]` has no timestamp and leaves the clock
/// and the counts as they were.
pub proof fn law_unbracketed_lines_have_no_timestamp(
    line: Seq<char>,
    offset: Option<i32>,
    hinted: bool,
    st: TimestampState,
    d: LogParseDiagnostics,
)
    requires
        bracket_prefix_spec(line) is None,
    ensures
        parse_timestamp_spec(line, offset, hinted, st, d) == (missing_timestamp(), st, d),
{
}

pub proof fn lemma_next_day_wf(d: CalendarDate)
    requires
        d.wf(),
    ensures
        next_day(d) matches Some(n) ==> n.wf(),
{
}

pub proof fn lemma_previous_day_wf(d: CalendarDate)
    requires
        d.wf(),
    ensures
        previous_day(d) matches Some(n) ==> n.wf(),
{
}

pub proof fn lemma_days_before_wf(d: CalendarDate, n: nat)
    requires
        d.wf(),
    ensures
        days_before(d, n) matches Some(x) ==> x.wf(),
    decreases n,
{
    if n > 0 {
        lemma_previous_day_wf(d);
        if let Some(p) = previous_day(d) {
            lemma_days_before_wf(p, (n - 1) as nat);
        }
    }
}

/// Counters stay below this bound while at most `MAX_SUPPORTED_LINES` lines are parsed.
pub open spec fn counters_below(d: LogParseDiagnostics, bound: int) -> bool {
    &&& d.non_monotonic_timestamps <= bound
    &&& d.midnight_rollovers <= bound
    &&& d.unparsed_timestamp_prefixes <= bound
}

/// Timestamp of one sanitized line; updates the clock state and diagnostics.
pub fn parse_timestamp(
    line: &[char],
    offset: Option<i32>,
    hinted: bool,
    state: &mut TimestampState,
    diagnostics: &mut LogParseDiagnostics,
) -> (r: EvidenceTimestamp)
    requires
        old(state).wf(),
        old(state).day_index < MAX_SUPPORTED_LINES,
        counters_below(*old(diagnostics), MAX_SUPPORTED_LINES - 1),
        offset matches Some(o) ==> -86_400 < o < 86_400,
    ensures
        (r, *final(state), *final(diagnostics)) == parse_timestamp_spec(
            line@,
            offset,
            hinted,
            *old(state),
            *old(diagnostics),
        ),
        final(state).wf(),
        final(state).day_index <= old(state).day_index + 1,
        counters_below(*final(diagnostics), MAX_SUPPORTED_LINES as int),
        r.time_of_day matches Some(t) ==> t.wf(),
        r.origin == TimestampOrigin::LineTimeOnly ==> {
            &&& r.time_of_day is Some
            &&& r.sequence_millis matches Some(s) && 0 <= s < (old(state).day_index + 2) * MILLIS_PER_DAY
        },
        seq_ok(r),
{
    let prefix = match bracket_prefix(line) {
        Some(p) => p,
        None => return EvidenceTimestamp::missing(),
    };
    if let Some(local) = parse_full_datetime(prefix.as_slice()) {
        if let Some(previous) = state.last_time {
            let current = match state.current_date {
                Some(c) => c,
                None => local.date,
            };
            if local.date == current && local.time.is_before(previous) {
                diagnostics.non_monotonic_timestamps = diagnostics.non_monotonic_timestamps + 1;
            }
        }
        state.current_date = Some(local.date);
        state.last_time = Some(local.time);
        state.day_index = 0;
        proof {
            lemma_local_timestamp_bounded(local, offset, TimestampOrigin::LineDateTime);
        }
        return timestamp_from_local(local, offset, TimestampOrigin::LineDateTime);
    }
    if let Some(time) = parse_time(prefix.as_slice()) {
        if let Some(previous) = state.last_time {
            if time.is_before(previous) {
                let backwards_seconds = previous.seconds_since(time);
                if backwards_seconds > MIDNIGHT_ROLLOVER_THRESHOLD_SECONDS {
                    state.day_index = state.day_index + 1;
                    diagnostics.midnight_rollovers = diagnostics.midnight_rollovers + 1;
                    if let Some(date) = state.current_date {
                        proof {
                            lemma_next_day_wf(date);
                        }
                        state.current_date = date.succ();
                    }
                } else {
                    diagnostics.non_monotonic_timestamps = diagnostics.non_monotonic_timestamps + 1;
                }
            }
        }
        state.last_time = Some(time);
        if let Some(date) = state.current_date {
            let local = LocalDateTime { date, time };
            let origin = if hinted {
                TimestampOrigin::LineTimeWithDateHint
            } else {
                TimestampOrigin::LineDateTime
            };
            proof {
                lemma_local_timestamp_bounded(local, offset, origin);
            }
            return timestamp_from_local(local, offset, origin);
        }
        let ms = time.millis_of_day_exec();
        assert(ms < 86_401_000);
        return EvidenceTimestamp {
            observed_local: None,
            time_of_day: Some(time),
            occurred_at_utc_ms: None,
            utc_offset_minutes: None,
            origin: TimestampOrigin::LineTimeOnly,
            sequence_millis: Some(state.day_index * MILLIS_PER_DAY + ms),
        };
    }
    if prefix.len() > 0 && is_ascii_digit_char(prefix[0]) {
        diagnostics.unparsed_timestamp_prefixes = diagnostics.unparsed_timestamp_prefixes + 1;
    }
    EvidenceTimestamp::missing()
}


/// The value of a provenance record, its source id as characters.
pub struct ProvenanceView {
    pub source_id: Seq<char>,
    pub source_order: u32,
    pub line_number: u64,
    pub byte_start: u64,
    pub byte_end: u64,
    pub rule: EvidenceRule,
}

/// The value of one evidence record.
pub struct EvidenceView {
    pub event: EventView,
    pub timestamp: EvidenceTimestamp,
    pub confidence_score: u8,
    pub provenance: ProvenanceView,
}

impl View for EvidenceProvenance {
    type V = ProvenanceView;

    open spec fn view(&self) -> ProvenanceView {
        ProvenanceView {
            source_id: self.source_id@,
            source_order: self.source_order,
            line_number: self.line_number,
            byte_start: self.byte_start,
            byte_end: self.byte_end,
            rule: self.rule,
        }
    }
}

impl View for LogEvidence {
    type V = EvidenceView;

    open spec fn view(&self) -> EvidenceView {
        EvidenceView {
            event: self.event@,
            timestamp: self.timestamp,
            confidence_score: self.confidence_score,
            provenance: self.provenance@,
        }
    }
}

pub open spec fn evidence_views(v: Seq<LogEvidence>) -> Seq<EvidenceView> {
    v.map_values(|e: LogEvidence| e@)
}

/// `s` without its NUL characters.
pub open spec fn remove_nul(s: Seq<char>) -> Seq<char>
    decreases s.len(),
{
    if s.len() == 0 {
        s
    } else if s.last() == '\0' {
        remove_nul(s.drop_last())
    } else {
        remove_nul(s.drop_last()).push(s.last())
    }
}

/// Whether a line ends with `\n`, and the bytes before its line ending.
pub open spec fn has_newline(bytes: Seq<u8>) -> bool {
    bytes.len() > 0 && bytes.last() == 10u8
}

pub open spec fn has_crlf(bytes: Seq<u8>) -> bool {
    bytes.len() >= 2 && bytes[bytes.len() - 2] == 13u8 && bytes[bytes.len() - 1] == 10u8
}

pub open spec fn line_content(bytes: Seq<u8>) -> Seq<u8> {
    let a: int = bytes.len() - (if has_newline(bytes) { 1int } else { 0int });
    let b: int = if a < 0 { 0 } else { a };
    let c: int = b - (if has_crlf(bytes) { 1int } else { 0int });
    let e: int = if c < 0 { 0 } else { c };
    bytes.take(e)
}

/// The characters of a line after lossy decoding, NULs removed.
pub open spec fn sanitized_line(bytes: Seq<u8>) -> Seq<char> {
    remove_nul(lossy_utf8(line_content(bytes)))
}

pub open spec fn sat_add(a: u64, b: int) -> u64 {
    if a + b > u64::MAX {
        u64::MAX
    } else {
        (a + b) as u64
    }
}

/// The evidence records of one line.
pub open spec fn line_evidence(
    recs: Seq<(EventView, EvidenceRule, u8)>,
    timestamp: EvidenceTimestamp,
    source_id: Seq<char>,
    source_order: u32,
    line_number: u64,
    byte_start: u64,
    byte_end: u64,
) -> Seq<EvidenceView> {
    recs.map_values(
        |r: (EventView, EvidenceRule, u8)|
            EvidenceView {
                event: r.0,
                timestamp,
                confidence_score: r.2,
                provenance: ProvenanceView {
                    source_id,
                    source_order,
                    line_number,
                    byte_start,
                    byte_end,
                    rule: r.1,
                },
            },
    )
}

/// Parser state: what has been read so far and the evidence it produced.
pub struct LogParser {
    context: LogParseContext,
    limits: LogParseLimits,
    evidence: Vec<LogEvidence>,
    diagnostics: LogParseDiagnostics,
    state: TimestampState,
    byte_offset: u64,
}

/// The result of feeding one line to a parser in the given state.
pub open spec fn feed_spec(
    context: LogParseContext,
    limits: LogParseLimits,
    evidence: Seq<EvidenceView>,
    d: LogParseDiagnostics,
    st: TimestampState,
    byte_offset: u64,
    bytes: Seq<u8>,
) -> Result<(Seq<EvidenceView>, LogParseDiagnostics, TimestampState, u64), LogParseLimitExceeded> {
    if d.total_lines >= limits.max_lines {
        Err(LogParseLimitExceeded { resource: LogLimitResource::LineCount, limit: limits.max_lines })
    } else {
        let line_number = (d.total_lines + 1) as u64;
        let byte_end = (byte_offset + bytes.len()) as u64;
        let content = line_content(bytes);
        let decoded = lossy_utf8(content);
        let sanitized = remove_nul(decoded);
        let d1 = LogParseDiagnostics {
            total_lines: line_number,
            final_line_without_newline: d.final_line_without_newline || !has_newline(bytes),
            malformed_utf8_lines: sat_add(
                d.malformed_utf8_lines,
                if vstd::utf8::valid_utf8(content) { 0int } else { 1int },
            ),
            nul_bytes_removed: sat_add(d.nul_bytes_removed, decoded.len() - sanitized.len()),
            ..d
        };
        let (ts, st2, d2) = parse_timestamp_spec(
            sanitized,
            context_offset(context.utc_offset_minutes),
            context.date_hint is Some,
            st,
            d1,
        );
        let recs = recognize_spec(sanitized);
        let d3 = LogParseDiagnostics {
            recognized_lines: sat_add(d2.recognized_lines, if recs.len() > 0 { 1int } else { 0int }),
            ..d2
        };
        if d3.emitted_evidence + recs.len() > limits.max_evidence_events {
            Err(
                LogParseLimitExceeded {
                    resource: LogLimitResource::EvidenceEventCount,
                    limit: limits.max_evidence_events,
                },
            )
        } else {
            let d4 = LogParseDiagnostics {
                evidence_without_timestamp: sat_add(
                    d3.evidence_without_timestamp,
                    if ts.origin == TimestampOrigin::Missing { recs.len() as int } else { 0int },
                ),
                emitted_evidence: (d3.emitted_evidence + recs.len()) as u64,
                ..d3
            };
            Ok(
                (
                    evidence + line_evidence(
                        recs,
                        ts,
                        context.source_id@,
                        context.source_order,
                        line_number,
                        byte_offset,
                        byte_end,
                    ),
                    d4,
                    st2,
                    byte_end,
                ),
            )
        }
    }
}

pub open spec fn context_wf(context: LogParseContext) -> bool {
    &&& context.date_hint matches Some(d) ==> d.wf()
    &&& context.source_end_hint matches Some(e) ==> e.wf()
}

/// Whether a parse context can be parsed with: its date hint and end hint are valid.
pub fn context_is_valid(context: &LogParseContext) -> (r: bool)
    ensures
        r == context_wf(*context),
{
    let date_ok = match context.date_hint {
        Some(d) => d.is_valid(),
        None => true,
    };
    let end_ok = match context.source_end_hint {
        Some(e) => e.is_valid(),
        None => true,
    };
    date_ok && end_ok
}

/// Time-only evidence carries a bounded, non-negative sequence value and a clock time.
pub open spec fn evidence_wf(e: EvidenceView) -> bool {
    &&& seq_ok(e.timestamp)
    &&& e.timestamp.time_of_day matches Some(t) ==> t.wf()
    &&& e.timestamp.origin == TimestampOrigin::LineTimeOnly ==> {
        &&& e.timestamp.time_of_day is Some
        &&& e.timestamp.sequence_millis matches Some(s) && 0 <= s < (MAX_SUPPORTED_LINES + 2)
            * MILLIS_PER_DAY
    }
}

/// Where an evidence record points: the parser's source, a one-based line
/// among the `total_lines` read, and a non-empty half-open byte range within
/// the first `decoded_bytes` bytes of the decoded stream.
pub open spec fn provenance_within(
    p: ProvenanceView,
    context: LogParseContext,
    total_lines: u64,
    decoded_bytes: u64,
) -> bool {
    &&& p.source_id == context.source_id@
    &&& p.source_order == context.source_order
    &&& 1 <= p.line_number <= total_lines
    &&& p.byte_start < p.byte_end <= decoded_bytes
}

/// What a parsed log states of itself: it carries its context, counts each of
/// its evidence records, stayed within the decompressed-byte limit, and each
/// record's provenance points into the stream that was read.
pub open spec fn parsed_log_sound(p: ParsedLog, context: LogParseContext, limits: LogParseLimits) -> bool {
    &&& p.context == context
    &&& p.diagnostics.emitted_evidence == p.evidence@.len()
    &&& p.diagnostics.decoded_bytes <= limits.max_decompressed_bytes
    &&& forall|i: int|
        0 <= i < p.evidence@.len() ==> provenance_within(
            (#[trigger] p.evidence@[i]).provenance@,
            context,
            p.diagnostics.total_lines,
            p.diagnostics.decoded_bytes,
        )
}

impl LogParser {
    pub closed spec fn wf(&self) -> bool {
        &&& context_wf(self.context)
        &&& self.limits.max_lines <= MAX_SUPPORTED_LINES
        &&& self.diagnostics.total_lines <= self.limits.max_lines
        &&& self.state.wf()
        &&& self.state.day_index <= self.diagnostics.total_lines
        &&& counters_below(self.diagnostics, self.diagnostics.total_lines as int)
        &&& self.diagnostics.emitted_evidence == self.evidence@.len()
        &&& self.diagnostics.emitted_evidence <= self.limits.max_evidence_events
        &&& self.byte_offset <= self.limits.max_decompressed_bytes
        &&& forall|i: int| 0 <= i < self.evidence@.len() ==> evidence_wf(#[trigger] self.evidence@[i]@)
        &&& forall|i: int|
            0 <= i < self.evidence@.len() ==> provenance_within(
                (#[trigger] self.evidence@[i]).provenance@,
                self.context,
                self.diagnostics.total_lines,
                self.byte_offset,
            )
    }

    pub closed spec fn context_view(&self) -> LogParseContext {
        self.context
    }

    pub closed spec fn limits_view(&self) -> LogParseLimits {
        self.limits
    }

    pub closed spec fn evidence_view(&self) -> Seq<EvidenceView> {
        evidence_views(self.evidence@)
    }

    pub closed spec fn diagnostics_view(&self) -> LogParseDiagnostics {
        self.diagnostics
    }

    pub closed spec fn state_view(&self) -> TimestampState {
        self.state
    }

    pub closed spec fn offset_view(&self) -> u64 {
        self.byte_offset
    }

    /// A parser that has read nothing; the clock starts on the first observed day when known.
    pub fn new(context: LogParseContext, limits: LogParseLimits) -> (r: LogParser)
        requires
            context_wf(context),
            limits.max_lines <= MAX_SUPPORTED_LINES,
        ensures
            r.wf(),
            r.context_view() == context,
            r.limits_view() == limits,
            r.evidence_view() == Seq::<EvidenceView>::empty(),
            r.diagnostics_view() == LogParseDiagnostics::zero(),
            r.state_view() == (TimestampState {
                current_date: match context.date_hint_basis {
                    DateHintBasis::FirstObservedDay => context.date_hint,
                    DateHintBasis::FinalObservedDay => None,
                },
                last_time: None,
                day_index: 0,
            }),
            r.offset_view() == 0,
    {
        let initial = context.initial_date();
        let r = LogParser {
            context,
            limits,
            evidence: Vec::new(),
            diagnostics: LogParseDiagnostics::new(),
            state: TimestampState { current_date: initial, last_time: None, day_index: 0 },
            byte_offset: 0,
        };
        assert(evidence_views(r.evidence@) =~= Seq::<EvidenceView>::empty());
        r
    }

    /// The limits the parser enforces.
    pub fn limits_exec(&self) -> (r: LogParseLimits)
        ensures
            r == self.limits_view(),
    {
        self.limits
    }

    /// Bytes consumed so far.
    pub fn decoded_bytes(&self) -> (r: u64)
        ensures
            r == self.offset_view(),
    {
        self.byte_offset
    }
}


/// Copy of the first `n` bytes.
pub fn take_bytes(bytes: &[u8], n: usize) -> (r: Vec<u8>)
    requires
        n <= bytes.len(),
    ensures
        r@ == bytes@.take(n as int),
{
    let mut r: Vec<u8> = Vec::new();
    let mut i: usize = 0;
    while i < n
        invariant
            i <= n <= bytes.len(),
            r@ == bytes@.take(i as int),
        decreases n - i,
    {
        r.push(bytes[i]);
        i = i + 1;
        assert(r@ =~= bytes@.take(i as int));
    }
    r
}

/// `s` without its NUL characters.
pub fn remove_nul_chars(s: &[char]) -> (r: Vec<char>)
    ensures
        r@ == remove_nul(s@),
        r@.len() <= s@.len(),
{
    let mut r: Vec<char> = Vec::new();
    let mut i: usize = 0;
    proof {
        lemma_remove_nul_len(s@.take(0));
    }
    while i < s.len()
        invariant
            i <= s.len(),
            r@ == remove_nul(s@.take(i as int)),
        decreases s.len() - i,
    {
        assert(s@.take(i + 1).drop_last() =~= s@.take(i as int));
        if s[i] != '\0' {
            r.push(s[i]);
        }
        i = i + 1;
    }
    assert(s@.take(s@.len() as int) =~= s@);
    proof {
        lemma_remove_nul_len(s@);
    }
    r
}

pub proof fn lemma_remove_nul_len(s: Seq<char>)
    ensures
        remove_nul(s).len() <= s.len(),
    decreases s.len(),
{
    if s.len() > 0 {
        lemma_remove_nul_len(s.drop_last());
    }
}

pub fn sat_add_exec(a: u64, b: u64) -> (r: u64)
    ensures
        r == sat_add(a, b as int),
{
    if b > u64::MAX - a {
        u64::MAX
    } else {
        a + b
    }
}

/// Lossy-decoded characters of a line's content without NULs, whether the
/// content was valid UTF-8, and the number of removed NULs.
pub fn decode_line(bytes: &[u8]) -> (r: (Vec<char>, bool, u64))
    requires
        bytes@.len() > 0,
    ensures
        r.0@ == sanitized_line(bytes@),
        r.1 == vstd::utf8::valid_utf8(line_content(bytes@)),
        r.2 == lossy_utf8(line_content(bytes@)).len() - sanitized_line(bytes@).len(),
{
    let len = bytes.len();
    let newline = bytes[len - 1] == 10u8;
    let crlf = len >= 2 && bytes[len - 2] == 13u8 && bytes[len - 1] == 10u8;
    let a: usize = if newline { len - 1 } else { len };
    let content_end: usize = if crlf && a > 0 { a - 1 } else { a };
    let content = take_bytes(bytes, content_end);
    assert(content@ == line_content(bytes@));
    let valid = is_valid_utf8(content.as_slice());
    let decoded_text = decode_utf8_lossy(content.as_slice());
    let decoded = chars_of(decoded_text.as_str());
    let sanitized = remove_nul_chars(decoded.as_slice());
    let removed = (decoded.len() - sanitized.len()) as u64;
    (sanitized, valid, removed)
}

/// Appends the evidence records of one line.
fn append_line_evidence(
    evidence: &mut Vec<LogEvidence>,
    recs: &Vec<RecognizedEvent>,
    ts: EvidenceTimestamp,
    source_id: &String,
    source_order: u32,
    line_number: u64,
    byte_start: u64,
    byte_end: u64,
)
    requires
        seq_ok(ts),
        ts.time_of_day matches Some(t) ==> t.wf(),
        ts.origin == TimestampOrigin::LineTimeOnly ==> {
            &&& ts.time_of_day is Some
            &&& ts.sequence_millis matches Some(s) && 0 <= s < (MAX_SUPPORTED_LINES + 2) * MILLIS_PER_DAY
        },
        forall|i: int| 0 <= i < old(evidence)@.len() ==> evidence_wf(#[trigger] old(evidence)@[i]@),
    ensures
        evidence_views(final(evidence)@) == evidence_views(old(evidence)@) + line_evidence(
            views(recs@),
            ts,
            source_id@,
            source_order,
            line_number,
            byte_start,
            byte_end,
        ),
        final(evidence)@.len() == old(evidence)@.len() + recs@.len(),
        forall|i: int| 0 <= i < final(evidence)@.len() ==> evidence_wf(#[trigger] final(evidence)@[i]@),
{
    let ghost old_ev = evidence@;
    let ghost added = line_evidence(
        views(recs@),
        ts,
        source_id@,
        source_order,
        line_number,
        byte_start,
        byte_end,
    );
    let mut i: usize = 0;
    while i < recs.len()
        invariant
            i <= recs@.len(),
            added.len() == recs@.len(),
            added == line_evidence(
                views(recs@),
                ts,
                source_id@,
                source_order,
                line_number,
                byte_start,
                byte_end,
            ),
            seq_ok(ts),
            ts.time_of_day matches Some(t) ==> t.wf(),
            ts.origin == TimestampOrigin::LineTimeOnly ==> {
                &&& ts.time_of_day is Some
                &&& ts.sequence_millis matches Some(s) && 0 <= s < (MAX_SUPPORTED_LINES + 2)
                    * MILLIS_PER_DAY
            },
            evidence@.len() == old_ev.len() + i,
            forall|k: int| 0 <= k < old_ev.len() ==> evidence@[k] == old_ev[k],
            forall|k: int| 0 <= k < i ==> evidence@[old_ev.len() + k]@ == added[k],
            forall|k: int| 0 <= k < old_ev.len() ==> evidence_wf(#[trigger] old_ev[k]@),
        decreases recs@.len() - i,
    {
        assert(views(recs@)[i as int] == recs@[i as int]@);
        let item = LogEvidence {
            event: recs[i].event.copy(),
            timestamp: ts,
            confidence_score: recs[i].confidence_score,
            provenance: EvidenceProvenance {
                source_id: source_id.clone(),
                source_order,
                line_number,
                byte_start,
                byte_end,
                rule: recs[i].rule,
            },
        };
        evidence.push(item);
        i = i + 1;
    }
    proof {
        assert(evidence_views(evidence@) =~= evidence_views(old_ev) + added);
        assert forall|k: int| 0 <= k < evidence@.len() implies evidence_wf(
            #[trigger] evidence@[k]@,
        ) by {
            if k >= old_ev.len() {
                assert(evidence@[k]@ == added[k - old_ev.len()]);
            } else {
                assert(evidence@[k] == old_ev[k]);
            }
        }
    }
}

impl LogParser {
    /// Parses one decoded line, including its line ending.
    ///
    /// The caller has checked every chunk of the line with `check_line_growth`,
    /// which keeps the line within both the line and the stream limit.
    pub fn feed_line(&mut self, bytes: &[u8]) -> (r: Result<(), LogParseLimitExceeded>)
        requires
            old(self).wf(),
            0 < bytes@.len() <= old(self).limits_view().max_line_bytes,
            old(self).offset_view() + bytes@.len() <= old(self).limits_view().max_decompressed_bytes,
        ensures
            final(self).wf(),
            final(self).context_view() == old(self).context_view(),
            final(self).limits_view() == old(self).limits_view(),
            match feed_spec(
                old(self).context_view(),
                old(self).limits_view(),
                old(self).evidence_view(),
                old(self).diagnostics_view(),
                old(self).state_view(),
                old(self).offset_view(),
                bytes@,
            ) {
                Ok((ev, d, st, off)) => {
                    &&& r is Ok
                    &&& final(self).evidence_view() == ev
                    &&& final(self).diagnostics_view() == d
                    &&& final(self).state_view() == st
                    &&& final(self).offset_view() == off
                },
                Err(e) => {
                    &&& r == Err::<(), LogParseLimitExceeded>(e)
                    &&& *final(self) == *old(self)
                },
            },
    {
        if self.diagnostics.total_lines >= self.limits.max_lines {
            return Err(
                LogParseLimitExceeded {
                    resource: LogLimitResource::LineCount,
                    limit: self.limits.max_lines,
                },
            );
        }
        let line_number = self.diagnostics.total_lines + 1;
        let byte_start = self.byte_offset;
        let byte_end = byte_start + bytes.len() as u64;
        let newline = bytes[bytes.len() - 1] == 10u8;
        let (sanitized, valid, removed) = decode_line(bytes);
        let mut d = self.diagnostics;
        d.total_lines = line_number;
        d.final_line_without_newline = d.final_line_without_newline || !newline;
        d.malformed_utf8_lines = sat_add_exec(d.malformed_utf8_lines, if valid { 0 } else { 1 });
        d.nul_bytes_removed = sat_add_exec(d.nul_bytes_removed, removed);
        let mut st = self.state;
        let offset = self.context.fixed_offset();
        let hinted = self.context.date_hint.is_some();
        let ts = parse_timestamp(sanitized.as_slice(), offset, hinted, &mut st, &mut d);
        let recs = recognize_events(sanitized.as_slice());
        d.recognized_lines = sat_add_exec(d.recognized_lines, if recs.len() > 0 { 1 } else { 0 });
        let count = recs.len() as u64;
        if count > self.limits.max_evidence_events - d.emitted_evidence {
            return Err(
                LogParseLimitExceeded {
                    resource: LogLimitResource::EvidenceEventCount,
                    limit: self.limits.max_evidence_events,
                },
            );
        }
        let missing = ts.origin == TimestampOrigin::Missing;
        d.evidence_without_timestamp = sat_add_exec(
            d.evidence_without_timestamp,
            if missing { count } else { 0 },
        );
        d.emitted_evidence = d.emitted_evidence + count;
        append_line_evidence(
            &mut self.evidence,
            &recs,
            ts,
            &self.context.source_id,
            self.context.source_order,
            line_number,
            byte_start,
            byte_end,
        );
        self.diagnostics = d;
        self.state = st;
        self.byte_offset = byte_end;
        proof {
            let n = old(self).evidence@.len();
            let added = line_evidence(
                views(recs@),
                ts,
                self.context.source_id@,
                self.context.source_order,
                line_number,
                byte_start,
                byte_end,
            );
            assert forall|k: int| 0 <= k < self.evidence@.len() implies provenance_within(
                (#[trigger] self.evidence@[k]).provenance@,
                self.context,
                self.diagnostics.total_lines,
                self.byte_offset,
            ) by {
                assert(evidence_views(self.evidence@)[k] == self.evidence@[k]@);
                if k < n {
                    assert(evidence_views(old(self).evidence@)[k] == old(self).evidence@[k]@);
                    assert(provenance_within(
                        old(self).evidence@[k].provenance@,
                        old(self).context,
                        old(self).diagnostics.total_lines,
                        old(self).byte_offset,
                    ));
                } else {
                    assert(self.evidence@[k]@ == added[k - n]);
                }
            }
        }
        Ok(())
    }
}


/// The calendar day that the last line of an undated `latest.log` belongs to.
///
/// A log can be closed just after midnight although its last line was written
/// just before; then the end hint's day is one day too new for the last clock.
pub open spec fn final_anchor_date(context: LogParseContext, st: TimestampState) -> Option<CalendarDate> {
    let first: Option<CalendarDate> = match context.source_end_hint {
        Some(e) => Some(e.local.date),
        None => context.date_hint,
    };
    match first {
        None => None,
        Some(f) => {
            let lead = match (context.source_end_hint, st.last_time) {
                (Some(e), Some(lt)) => clock_seconds_between(lt, e.local.time)
                    > MIDNIGHT_ROLLOVER_THRESHOLD_SECONDS,
                _ => false,
            };
            if lead && previous_day(f) is Some {
                previous_day(f)
            } else {
                Some(f)
            }
        },
    }
}

pub open spec fn clamp_i64(x: int) -> int {
    if x > i64::MAX {
        i64::MAX as int
    } else if x < i64::MIN {
        i64::MIN as int
    } else {
        x
    }
}

/// A time-only timestamp placed on the day that its rollover count implies.
pub open spec fn anchored_timestamp(
    ts: EvidenceTimestamp,
    final_date: CalendarDate,
    final_day_index: int,
    offset: Option<i32>,
) -> EvidenceTimestamp {
    if ts.origin != TimestampOrigin::LineTimeOnly {
        ts
    } else {
        match (ts.sequence_millis, ts.time_of_day) {
            (Some(s), Some(t)) => {
                let n = clamp_i64(final_day_index - s as int / MILLIS_PER_DAY as int);
                if n < 0 {
                    ts
                } else {
                    match days_before(final_date, n as nat) {
                        Some(date) => timestamp_from_local_spec(
                            LocalDateTime { date, time: t },
                            offset,
                            TimestampOrigin::LineTimeWithDateHint,
                        ),
                        None => ts,
                    }
                }
            },
            _ => ts,
        }
    }
}

/// All evidence after anchoring time-only timestamps to the final observed day.
pub open spec fn anchor_spec(
    evidence: Seq<EvidenceView>,
    context: LogParseContext,
    st: TimestampState,
) -> Seq<EvidenceView> {
    if context.date_hint_basis != DateHintBasis::FinalObservedDay {
        evidence
    } else {
        match final_anchor_date(context, st) {
            None => evidence,
            Some(f) => evidence.map_values(
                |e: EvidenceView|
                    EvidenceView {
                        timestamp: anchored_timestamp(
                            e.timestamp,
                            f,
                            if st.day_index < 0 {
                                0
                            } else {
                                st.day_index as int
                            },
                            context_offset(context.utc_offset_minutes),
                        ),
                        ..e
                    },
            ),
        }
    }
}

impl LogEvidence {
    /// A copy of this record with another timestamp.
    pub fn with_timestamp(&self, timestamp: EvidenceTimestamp) -> (r: LogEvidence)
        ensures
            r@ == (EvidenceView { timestamp, ..self@ }),
    {
        LogEvidence {
            event: self.event.copy(),
            timestamp,
            confidence_score: self.confidence_score,
            provenance: EvidenceProvenance {
                source_id: self.provenance.source_id.clone(),
                source_order: self.provenance.source_order,
                line_number: self.provenance.line_number,
                byte_start: self.provenance.byte_start,
                byte_end: self.provenance.byte_end,
                rule: self.provenance.rule,
            },
        }
    }
}

/// `anchored_timestamp`, computed.
pub fn anchor_timestamp(
    ts: EvidenceTimestamp,
    final_date: CalendarDate,
    final_day_index: i64,
    offset: Option<i32>,
) -> (r: EvidenceTimestamp)
    requires
        final_date.wf(),
        0 <= final_day_index <= MAX_SUPPORTED_LINES,
        offset matches Some(o) ==> -86_400 < o < 86_400,
        ts.time_of_day matches Some(t) ==> t.wf(),
        ts.origin == TimestampOrigin::LineTimeOnly ==> {
            &&& ts.sequence_millis matches Some(s) && 0 <= s < (MAX_SUPPORTED_LINES + 2) * MILLIS_PER_DAY
        },
        seq_ok(ts),
    ensures
        r == anchored_timestamp(ts, final_date, final_day_index as int, offset),
        seq_ok(r),
{
    if ts.origin != TimestampOrigin::LineTimeOnly {
        return ts;
    }
    match (ts.sequence_millis, ts.time_of_day) {
        (Some(s), Some(t)) => {
            let event_day = s / MILLIS_PER_DAY;
            if event_day > final_day_index {
                return ts;
            }
            let n = (final_day_index - event_day) as u64;
            match final_date.sub_days(n) {
                Some(date) => {
                    proof {
                        crate::parser::log_parser::lemma_days_before_wf(final_date, n as nat);
                        lemma_local_timestamp_bounded(
                            LocalDateTime { date, time: t },
                            offset,
                            TimestampOrigin::LineTimeWithDateHint,
                        );
                    }
                    timestamp_from_local(
                        LocalDateTime { date, time: t },
                        offset,
                        TimestampOrigin::LineTimeWithDateHint,
                    )
                },
                None => ts,
            }
        },
        _ => ts,
    }
}

impl LogParser {
    /// The parsed log: anchors time-only evidence of an undated log to its
    /// final observed day and records the decoded byte count.
    pub fn finish(self) -> (r: ParsedLog)
        requires
            self.wf(),
        ensures
            r.context == self.context_view(),
            evidence_views(r.evidence@) == anchor_spec(
                self.evidence_view(),
                self.context_view(),
                self.state_view(),
            ),
            r.diagnostics == (LogParseDiagnostics {
                decoded_bytes: self.offset_view(),
                ..self.diagnostics_view()
            }),
            parsed_log_sound(r, self.context_view(), self.limits_view()),
            log_accepted(r),
    {
        proof {
            assert forall|j: int| 0 <= j < self.evidence@.len() implies seq_ok(
                (#[trigger] self.evidence@[j]).timestamp,
            ) by {
                assert(evidence_wf(self.evidence@[j]@));
            }
        }
        let mut diagnostics = self.diagnostics;
        diagnostics.decoded_bytes = self.byte_offset;
        let context = self.context;
        let evidence = self.evidence;
        let state = self.state;
        if context.date_hint_basis != DateHintBasis::FinalObservedDay {
            return ParsedLog { context, evidence, diagnostics };
        }
        let first = match context.source_end_hint {
            Some(e) => Some(e.local.date),
            None => context.date_hint,
        };
        let mut final_date = match first {
            Some(f) => f,
            None => {
                return ParsedLog { context, evidence, diagnostics };
            },
        };
        if let (Some(end), Some(last)) = (context.source_end_hint, state.last_time) {
            let lead = last.seconds_since(end.local.time);
            if lead > MIDNIGHT_ROLLOVER_THRESHOLD_SECONDS {
                proof {
                    lemma_previous_day_wf(final_date);
                }
                if let Some(previous) = final_date.pred() {
                    final_date = previous;
                }
            }
        }
        let final_day_index = if state.day_index < 0 { 0 } else { state.day_index };
        let offset = context.fixed_offset();
        let mut anchored: Vec<LogEvidence> = Vec::new();
        let ghost target = anchor_spec(evidence_views(evidence@), context, state);
        proof {
            assert forall|k: int| 0 <= k < evidence@.len() implies (#[trigger] target[k]).provenance
                == evidence@[k]@.provenance by {
                assert(evidence_views(evidence@)[k] == evidence@[k]@);
            }
        }
        let mut i: usize = 0;
        while i < evidence.len()
            invariant
                i <= evidence@.len(),
                anchored@.len() == i,
                final_date.wf(),
                0 <= final_day_index <= MAX_SUPPORTED_LINES,
                offset == context_offset(context.utc_offset_minutes),
                offset matches Some(o) ==> -86_400 < o < 86_400,
                final_anchor_date(context, state) == Some(final_date),
                final_day_index == (if state.day_index < 0 { 0 } else { state.day_index }),
                context.date_hint_basis == DateHintBasis::FinalObservedDay,
                target == anchor_spec(evidence_views(evidence@), context, state),
                target.len() == evidence@.len(),
                forall|k: int| 0 <= k < evidence@.len() ==> evidence_wf(#[trigger] evidence@[k]@),
                forall|k: int| 0 <= k < i ==> anchored@[k]@ == target[k],
                forall|k: int| 0 <= k < i ==> seq_ok((#[trigger] anchored@[k]).timestamp),
                forall|k: int| 0 <= k < evidence@.len() ==> (#[trigger] target[k]).provenance == evidence@[k]@.provenance,
            decreases evidence@.len() - i,
        {
            assert(evidence_wf(evidence@[i as int]@));
            let ts = anchor_timestamp(evidence[i].timestamp, final_date, final_day_index, offset);
            anchored.push(evidence[i].with_timestamp(ts));
            i = i + 1;
        }
        assert(evidence_views(anchored@) =~= target);
        assert forall|k: int| 0 <= k < anchored@.len() implies provenance_within(
            (#[trigger] anchored@[k]).provenance@,
            context,
            diagnostics.total_lines,
            diagnostics.decoded_bytes,
        ) by {
            assert(anchored@[k]@ == target[k]);
            assert(provenance_within(
                evidence@[k].provenance@,
                self.context,
                self.diagnostics.total_lines,
                self.byte_offset,
            ));
        }
        ParsedLog { context, evidence: anchored, diagnostics }
    }
}

} // verus!
