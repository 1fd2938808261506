//! Typed evidence of Minecraft Java client logs and its timestamps.

use vstd::prelude::*;

use crate::calendar::{
    days_before, millis_of_day, naive_millis, utc_millis, utc_millis_exec, CalendarDate,
    LocalDateTime, OffsetDateTime, TimeOfDay,
};

verus! {

pub const MILLIS_PER_DAY: i64 = 86_400_000;

pub const MIDNIGHT_ROLLOVER_THRESHOLD_SECONDS: i64 = 43_200;

/// Resource limits applied to the decoded stream of one log.
#[derive(Clone, Copy, PartialEq, Eq, Debug, Structural)]
pub struct LogParseLimits {
    /// Maximum bytes accepted after decompression (or directly for plain logs).
    pub max_decompressed_bytes: u64,
    /// Maximum bytes in one decoded line, including its line ending.
    pub max_line_bytes: usize,
    /// Maximum lines parsed from one physical source revision.
    pub max_lines: u64,
    /// Maximum typed evidence events retained for one source revision.
    pub max_evidence_events: u64,
}

impl LogParseLimits {
    /// The production limits.
    pub fn production() -> (r: LogParseLimits)
        ensures
            r.max_decompressed_bytes == 268_435_456,
            r.max_line_bytes == 524_288,
            r.max_lines == 5_000_000,
            r.max_evidence_events == 250_000,
    {
        LogParseLimits {
            max_decompressed_bytes: 268_435_456,
            max_line_bytes: 524_288,
            max_lines: 5_000_000,
            max_evidence_events: 250_000,
        }
    }
}

impl Default for LogParseLimits {
    fn default() -> (r: LogParseLimits)
        ensures
            r.max_decompressed_bytes == 268_435_456,
            r.max_line_bytes == 524_288,
            r.max_lines == 5_000_000,
            r.max_evidence_events == 250_000,
    {
        LogParseLimits::production()
    }
}

/// How a context's date hint relates to the log's observed days.
#[derive(Clone, Copy, PartialEq, Eq, Debug, Structural)]
pub enum DateHintBasis {
    FirstObservedDay,
    FinalObservedDay,
}

/// Context supplied for one physical log revision.
///
/// `source_order` increases from the oldest rotation to the newest. The UTC
/// offset is explicit so that parsing never depends on the host time zone.
#[derive(Clone, PartialEq, Eq, Debug)]
pub struct LogParseContext {
    pub source_id: String,
    pub source_order: u32,
    /// Full fingerprint of the raw source; equal hashes prove byte-identical copies.
    pub source_content_hash: Option<[u8; 32]>,
    pub date_hint: Option<CalendarDate>,
    pub date_hint_basis: DateHintBasis,
    pub utc_offset_minutes: Option<i32>,
    pub source_end_hint: Option<OffsetDateTime>,
}

/// `i32` division by 60 truncating toward zero, as Rust's `/` does.
pub open spec fn div60(s: int) -> int {
    if s >= 0 {
        s / 60
    } else {
        -((-s) / 60)
    }
}

pub fn div60_exec(s: i32) -> (r: i32)
    requires
        -86_400 < s < 86_400,
    ensures
        r == div60(s as int),
{
    if s >= 0 {
        s / 60
    } else {
        -((-s) / 60)
    }
}

/// The offset in seconds of a context (`minutes * 60`, when a valid fixed offset).
pub open spec fn context_offset(minutes: Option<i32>) -> Option<i32> {
    match minutes {
        Some(m) => if -86_400 < m * 60 < 86_400 {
            Some((m * 60) as i32)
        } else {
            None
        },
        None => None,
    }
}

impl LogParseContext {
    pub fn new(source_id: &str, source_order: u32) -> (r: LogParseContext)
        ensures
            r.source_id@ == source_id@,
            r.source_order == source_order,
            r.source_content_hash is None,
            r.date_hint is None,
            r.date_hint_basis == DateHintBasis::FirstObservedDay,
            r.utc_offset_minutes is None,
            r.source_end_hint is None,
    {
        LogParseContext {
            source_id: source_id.to_owned(),
            source_order,
            source_content_hash: None,
            date_hint: None,
            date_hint_basis: DateHintBasis::FirstObservedDay,
            utc_offset_minutes: None,
            source_end_hint: None,
        }
    }

    pub fn with_date_hint(self, date_hint: CalendarDate) -> (r: LogParseContext)
        ensures
            r == (LogParseContext { date_hint: Some(date_hint), ..self }),
    {
        LogParseContext { date_hint: Some(date_hint), ..self }
    }

    pub fn with_source_content_hash(self, hash: [u8; 32]) -> (r: LogParseContext)
        ensures
            r == (LogParseContext { source_content_hash: Some(hash), ..self }),
    {
        LogParseContext { source_content_hash: Some(hash), ..self }
    }

    pub fn with_final_date_hint(self, date_hint: CalendarDate) -> (r: LogParseContext)
        ensures
            r == (LogParseContext {
                date_hint: Some(date_hint),
                date_hint_basis: DateHintBasis::FinalObservedDay,
                ..self
            }),
    {
        LogParseContext {
            date_hint: Some(date_hint),
            date_hint_basis: DateHintBasis::FinalObservedDay,
            ..self
        }
    }

    /// Records a fixed UTC offset given in seconds, as whole minutes.
    pub fn with_utc_offset(self, offset_seconds: i32) -> (r: LogParseContext)
        requires
            -86_400 < offset_seconds < 86_400,
        ensures
            r == (LogParseContext {
                utc_offset_minutes: Some(div60(offset_seconds as int) as i32),
                ..self
            }),
    {
        LogParseContext { utc_offset_minutes: Some(div60_exec(offset_seconds)), ..self }
    }

    pub fn with_source_end_hint(self, hint: OffsetDateTime) -> (r: LogParseContext)
        ensures
            r == (LogParseContext { source_end_hint: Some(hint), ..self }),
    {
        LogParseContext { source_end_hint: Some(hint), ..self }
    }

    /// The context's offset in seconds, when it is a valid fixed offset.
    pub fn fixed_offset(&self) -> (r: Option<i32>)
        ensures
            r == context_offset(self.utc_offset_minutes),
    {
        match self.utc_offset_minutes {
            Some(m) => {
                if m > -1440 && m < 1440 {
                    Some(m * 60)
                } else {
                    None
                }
            },
            None => None,
        }
    }

    /// The date that the first line's clock belongs to, when known.
    pub fn initial_date(&self) -> (r: Option<CalendarDate>)
        ensures
            r == (match self.date_hint_basis {
                DateHintBasis::FirstObservedDay => self.date_hint,
                DateHintBasis::FinalObservedDay => None,
            }),
    {
        match self.date_hint_basis {
            DateHintBasis::FirstObservedDay => self.date_hint,
            DateHintBasis::FinalObservedDay => None,
        }
    }
}

#[derive(Clone, Copy, PartialEq, Eq, Debug, Structural)]
pub enum TimestampOrigin {
    LineDateTime,
    LineTimeWithDateHint,
    LineTimeOnly,
    Missing,
}

/// A timestamp as observed in a log plus the values that its context allows.
#[derive(Clone, Copy, PartialEq, Eq, Debug, Structural)]
pub struct EvidenceTimestamp {
    pub observed_local: Option<LocalDateTime>,
    pub time_of_day: Option<TimeOfDay>,
    pub occurred_at_utc_ms: Option<i64>,
    pub utc_offset_minutes: Option<i32>,
    pub origin: TimestampOrigin,
    /// Deterministic ordering value: UTC milliseconds when an offset exists,
    /// naive epoch milliseconds when a date exists, and rollover-aware
    /// milliseconds from day zero for time-only input.
    pub sequence_millis: Option<i64>,
}

pub open spec fn missing_timestamp() -> EvidenceTimestamp {
    EvidenceTimestamp {
        observed_local: None,
        time_of_day: None,
        occurred_at_utc_ms: None,
        utc_offset_minutes: None,
        origin: TimestampOrigin::Missing,
        sequence_millis: None,
    }
}

/// The timestamp of a local date-time at an optional fixed offset (seconds).
pub open spec fn timestamp_from_local_spec(
    local: LocalDateTime,
    offset: Option<i32>,
    origin: TimestampOrigin,
) -> EvidenceTimestamp {
    let occurred: Option<int> = match offset {
        Some(o) => utc_millis(local, o as int),
        None => None,
    };
    EvidenceTimestamp {
        observed_local: Some(local),
        time_of_day: Some(local.time),
        occurred_at_utc_ms: match occurred {
            Some(v) => Some(v as i64),
            None => None,
        },
        utc_offset_minutes: match offset {
            Some(o) => Some(div60(o as int) as i32),
            None => None,
        },
        origin,
        sequence_millis: Some(
            match occurred {
                Some(v) => v as i64,
                None => naive_millis(local) as i64,
            },
        ),
    }
}

impl EvidenceTimestamp {
    pub fn missing() -> (r: EvidenceTimestamp)
        ensures
            r == missing_timestamp(),
    {
        EvidenceTimestamp {
            observed_local: None,
            time_of_day: None,
            occurred_at_utc_ms: None,
            utc_offset_minutes: None,
            origin: TimestampOrigin::Missing,
            sequence_millis: None,
        }
    }

    /// The timestamp of an offset date-time observed outside a log line.
    pub fn from_datetime(value: OffsetDateTime) -> (r: EvidenceTimestamp)
        requires
            value.wf(),
        ensures
            r == (EvidenceTimestamp {
                origin: TimestampOrigin::LineDateTime,
                ..timestamp_from_local_spec(
                    value.local,
                    Some(value.offset_seconds),
                    TimestampOrigin::LineDateTime,
                )
            }),
            r.occurred_at_utc_ms is Some,
    {
        timestamp_from_local(value.local, Some(value.offset_seconds), TimestampOrigin::LineDateTime)
    }

    /// The value used to order and measure evidence.
    pub fn comparable_millis(&self) -> (r: Option<i64>)
        ensures
            r == self.sequence_millis,
    {
        self.sequence_millis
    }
}

/// `timestamp_from_local`: normalize a local date-time with an optional offset.
pub fn timestamp_from_local(local: LocalDateTime, offset: Option<i32>, origin: TimestampOrigin) -> (r:
    EvidenceTimestamp)
    requires
        local.wf(),
        offset matches Some(o) ==> -86_400 < o < 86_400,
    ensures
        r == timestamp_from_local_spec(local, offset, origin),
{
    let occurred = match offset {
        Some(o) => utc_millis_exec(local, o),
        None => None,
    };
    let naive = local.naive_millis_exec();
    EvidenceTimestamp {
        observed_local: Some(local),
        time_of_day: Some(local.time),
        occurred_at_utc_ms: occurred,
        utc_offset_minutes: match offset {
            Some(o) => Some(div60_exec(o)),
            None => None,
        },
        origin,
        sequence_millis: Some(
            match occurred {
                Some(v) => v,
                None => naive,
            },
        ),
    }
}

#[derive(Clone, Copy, PartialEq, Eq, Debug, Structural)]
pub enum DisconnectKind {
    Remote,
    Network,
    IntegratedServerStopped,
}

#[derive(Clone, Copy, PartialEq, Eq, Debug, Structural)]
pub enum CrashMarker {
    FatalLogLevel,
    UnreportedException,
    CrashReportSaved,
    CrashReportHeader,
    GameCrashed,
}

/// Typed evidence; it never retains an entire raw log line.
#[allow(inconsistent_fields)]
#[derive(Clone, PartialEq, Eq, Debug)]
pub enum MinecraftLogEvent {
    GameStarted,
    VersionObserved { version: String },
    ServerJoined { address: String },
    IntegratedServerStarted { version: Option<String> },
    WorldLoaded { world_name: Option<String> },
    Disconnected { disconnect_kind: DisconnectKind },
    Stopping,
    CleanShutdown,
    Crash { marker: CrashMarker },
}

/// The mathematical value of an event: its text fields as character sequences.
pub enum EventView {
    GameStarted,
    VersionObserved(Seq<char>),
    ServerJoined(Seq<char>),
    IntegratedServerStarted(Option<Seq<char>>),
    WorldLoaded(Option<Seq<char>>),
    Disconnected(DisconnectKind),
    Stopping,
    CleanShutdown,
    Crash(CrashMarker),
}

pub open spec fn opt_view(s: Option<String>) -> Option<Seq<char>> {
    match s {
        Some(v) => Some(v@),
        None => None,
    }
}

impl View for MinecraftLogEvent {
    type V = EventView;

    open spec fn view(&self) -> EventView {
        match self {
            MinecraftLogEvent::GameStarted => EventView::GameStarted,
            MinecraftLogEvent::VersionObserved { version } => EventView::VersionObserved(version@),
            MinecraftLogEvent::ServerJoined { address } => EventView::ServerJoined(address@),
            MinecraftLogEvent::IntegratedServerStarted { version } => EventView::IntegratedServerStarted(
                opt_view(*version),
            ),
            MinecraftLogEvent::WorldLoaded { world_name } => EventView::WorldLoaded(
                opt_view(*world_name),
            ),
            MinecraftLogEvent::Disconnected { disconnect_kind } => EventView::Disconnected(
                *disconnect_kind,
            ),
            MinecraftLogEvent::Stopping => EventView::Stopping,
            MinecraftLogEvent::CleanShutdown => EventView::CleanShutdown,
            MinecraftLogEvent::Crash { marker } => EventView::Crash(*marker),
        }
    }
}

#[derive(Clone, Copy, PartialEq, Eq, Debug, Structural)]
pub enum EvidenceTag {
    GameStarted,
    VersionObserved,
    ServerJoined,
    IntegratedServerStarted,
    WorldLoaded,
    Disconnected,
    Stopping,
    CleanShutdown,
    Crash,
}

pub open spec fn tag_of(e: EventView) -> EvidenceTag {
    match e {
        EventView::GameStarted => EvidenceTag::GameStarted,
        EventView::VersionObserved(_) => EvidenceTag::VersionObserved,
        EventView::ServerJoined(_) => EvidenceTag::ServerJoined,
        EventView::IntegratedServerStarted(_) => EvidenceTag::IntegratedServerStarted,
        EventView::WorldLoaded(_) => EvidenceTag::WorldLoaded,
        EventView::Disconnected(_) => EvidenceTag::Disconnected,
        EventView::Stopping => EvidenceTag::Stopping,
        EventView::CleanShutdown => EvidenceTag::CleanShutdown,
        EventView::Crash(_) => EvidenceTag::Crash,
    }
}

pub fn copy_opt_string(s: &Option<String>) -> (r: Option<String>)
    ensures
        opt_view(r) == opt_view(*s),
{
    match s {
        Some(v) => Some(v.clone()),
        None => None,
    }
}

impl MinecraftLogEvent {
    /// A copy of this event.
    pub fn copy(&self) -> (r: MinecraftLogEvent)
        ensures
            r@ == self@,
    {
        match self {
            MinecraftLogEvent::GameStarted => MinecraftLogEvent::GameStarted,
            MinecraftLogEvent::VersionObserved { version } => MinecraftLogEvent::VersionObserved {
                version: version.clone(),
            },
            MinecraftLogEvent::ServerJoined { address } => MinecraftLogEvent::ServerJoined {
                address: address.clone(),
            },
            MinecraftLogEvent::IntegratedServerStarted { version } => MinecraftLogEvent::IntegratedServerStarted {
                version: copy_opt_string(version),
            },
            MinecraftLogEvent::WorldLoaded { world_name } => MinecraftLogEvent::WorldLoaded {
                world_name: copy_opt_string(world_name),
            },
            MinecraftLogEvent::Disconnected { disconnect_kind } => MinecraftLogEvent::Disconnected {
                disconnect_kind: *disconnect_kind,
            },
            MinecraftLogEvent::Stopping => MinecraftLogEvent::Stopping,
            MinecraftLogEvent::CleanShutdown => MinecraftLogEvent::CleanShutdown,
            MinecraftLogEvent::Crash { marker } => MinecraftLogEvent::Crash { marker: *marker },
        }
    }

    pub fn tag(&self) -> (r: EvidenceTag)
        ensures
            r == tag_of(self@),
    {
        match self {
            MinecraftLogEvent::GameStarted => EvidenceTag::GameStarted,
            MinecraftLogEvent::VersionObserved { .. } => EvidenceTag::VersionObserved,
            MinecraftLogEvent::ServerJoined { .. } => EvidenceTag::ServerJoined,
            MinecraftLogEvent::IntegratedServerStarted { .. } => EvidenceTag::IntegratedServerStarted,
            MinecraftLogEvent::WorldLoaded { .. } => EvidenceTag::WorldLoaded,
            MinecraftLogEvent::Disconnected { .. } => EvidenceTag::Disconnected,
            MinecraftLogEvent::Stopping => EvidenceTag::Stopping,
            MinecraftLogEvent::CleanShutdown => EvidenceTag::CleanShutdown,
            MinecraftLogEvent::Crash { .. } => EvidenceTag::Crash,
        }
    }
}

/// Stable recognition rule identifier for auditability and parser migrations.
#[derive(Clone, Copy, PartialEq, Eq, Debug, Structural)]
pub enum EvidenceRule {
    LoadingMinecraft,
    StartingMinecraftClientVersion,
    ForgeForMinecraftVersion,
    MinecraftVersionField,
    SettingUser,
    LwjglInitialized,
    ConnectingToServer,
    StartingIntegratedServer,
    PreparingLevel,
    PreparingStartRegion,
    DisconnectedFromServer,
    NetworkDisconnect,
    IntegratedServerStopped,
    ClientStopping,
    ShutdownComplete,
    FatalLogLevel,
    UnreportedException,
    CrashReportSaved,
    CrashReportHeader,
    GameCrashed,
}

#[derive(Clone, PartialEq, Eq, Debug)]
pub struct EvidenceProvenance {
    pub source_id: String,
    pub source_order: u32,
    /// One-based line number.
    pub line_number: u64,
    /// Half-open byte range in the decoded source stream.
    pub byte_start: u64,
    pub byte_end: u64,
    pub rule: EvidenceRule,
}

#[derive(Clone, PartialEq, Eq, Debug)]
pub struct LogEvidence {
    pub event: MinecraftLogEvent,
    pub timestamp: EvidenceTimestamp,
    pub confidence_score: u8,
    pub provenance: EvidenceProvenance,
}

#[derive(Clone, Copy, PartialEq, Eq, Debug, Structural)]
pub struct LogParseDiagnostics {
    /// Total bytes consumed from the decoded source stream.
    pub decoded_bytes: u64,
    pub total_lines: u64,
    pub recognized_lines: u64,
    pub emitted_evidence: u64,
    pub malformed_utf8_lines: u64,
    pub nul_bytes_removed: u64,
    pub evidence_without_timestamp: u64,
    pub unparsed_timestamp_prefixes: u64,
    pub non_monotonic_timestamps: u64,
    pub midnight_rollovers: u64,
    pub final_line_without_newline: bool,
}

impl LogParseDiagnostics {
    pub open spec fn zero() -> LogParseDiagnostics {
        LogParseDiagnostics {
            decoded_bytes: 0,
            total_lines: 0,
            recognized_lines: 0,
            emitted_evidence: 0,
            malformed_utf8_lines: 0,
            nul_bytes_removed: 0,
            evidence_without_timestamp: 0,
            unparsed_timestamp_prefixes: 0,
            non_monotonic_timestamps: 0,
            midnight_rollovers: 0,
            final_line_without_newline: false,
        }
    }

    pub fn new() -> (r: LogParseDiagnostics)
        ensures
            r == LogParseDiagnostics::zero(),
    {
        LogParseDiagnostics {
            decoded_bytes: 0,
            total_lines: 0,
            recognized_lines: 0,
            emitted_evidence: 0,
            malformed_utf8_lines: 0,
            nul_bytes_removed: 0,
            evidence_without_timestamp: 0,
            unparsed_timestamp_prefixes: 0,
            non_monotonic_timestamps: 0,
            midnight_rollovers: 0,
            final_line_without_newline: false,
        }
    }
}

#[derive(Clone, PartialEq, Eq, Debug)]
pub struct ParsedLog {
    pub context: LogParseContext,
    pub evidence: Vec<LogEvidence>,
    pub diagnostics: LogParseDiagnostics,
}

} // verus!
