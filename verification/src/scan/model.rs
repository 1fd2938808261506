//! Values of the durable scan lifecycle and of incremental source inventory,
//! with the stored names of each kind and their parsers.

use vstd::prelude::*;

use crate::text::str_eq;

verus! {

#[derive(Clone, Copy, PartialEq, Eq, Debug, Structural)]
pub enum ScanMode {
    Quick,
    Standard,
    Deep,
}

pub open spec fn scan_mode_name(m: ScanMode) -> Seq<char> {
    match m {
        ScanMode::Quick => "quick"@,
        ScanMode::Standard => "standard"@,
        ScanMode::Deep => "deep"@,
    }
}

pub open spec fn parse_scan_mode(s: Seq<char>) -> Option<ScanMode> {
    if s == "quick"@ {
        Some(ScanMode::Quick)
    } else if s == "standard"@ {
        Some(ScanMode::Standard)
    } else if s == "deep"@ {
        Some(ScanMode::Deep)
    } else {
        None
    }
}

impl ScanMode {
    pub fn as_str(self) -> (r: &'static str)
        ensures
            r@ == scan_mode_name(self),
    {
        match self {
            ScanMode::Quick => "quick",
            ScanMode::Standard => "standard",
            ScanMode::Deep => "deep",
        }
    }

    pub fn parse(value: &str) -> (r: Option<ScanMode>)
        ensures
            r == parse_scan_mode(value@),
    {
        if str_eq(value, "quick") {
            Some(ScanMode::Quick)
        } else if str_eq(value, "standard") {
            Some(ScanMode::Standard)
        } else if str_eq(value, "deep") {
            Some(ScanMode::Deep)
        } else {
            None
        }
    }
}

#[derive(Clone, Copy, PartialEq, Eq, Debug, Structural)]
pub enum ScanState {
    Queued,
    Running,
    Paused,
    Completed,
    Cancelled,
    Failed,
    Interrupted,
}

pub open spec fn parse_scan_state(s: Seq<char>) -> Option<ScanState> {
    if s == "queued"@ {
        Some(ScanState::Queued)
    } else if s == "running"@ {
        Some(ScanState::Running)
    } else if s == "paused"@ {
        Some(ScanState::Paused)
    } else if s == "completed"@ {
        Some(ScanState::Completed)
    } else if s == "cancelled"@ {
        Some(ScanState::Cancelled)
    } else if s == "failed"@ {
        Some(ScanState::Failed)
    } else if s == "interrupted"@ {
        Some(ScanState::Interrupted)
    } else {
        None
    }
}

impl ScanState {
    pub fn parse(value: &str) -> (r: Option<ScanState>)
        ensures
            r == parse_scan_state(value@),
    {
        if str_eq(value, "queued") {
            Some(ScanState::Queued)
        } else if str_eq(value, "running") {
            Some(ScanState::Running)
        } else if str_eq(value, "paused") {
            Some(ScanState::Paused)
        } else if str_eq(value, "completed") {
            Some(ScanState::Completed)
        } else if str_eq(value, "cancelled") {
            Some(ScanState::Cancelled)
        } else if str_eq(value, "failed") {
            Some(ScanState::Failed)
        } else if str_eq(value, "interrupted") {
            Some(ScanState::Interrupted)
        } else {
            None
        }
    }
}

#[derive(Clone, Copy, PartialEq, Eq, Debug, Structural)]
pub enum ScanMessageSeverity {
    Warning,
    Error,
}

pub open spec fn severity_name(s: ScanMessageSeverity) -> Seq<char> {
    match s {
        ScanMessageSeverity::Warning => "warning"@,
        ScanMessageSeverity::Error => "error"@,
    }
}

pub open spec fn parse_severity(s: Seq<char>) -> Option<ScanMessageSeverity> {
    if s == "warning"@ {
        Some(ScanMessageSeverity::Warning)
    } else if s == "error"@ {
        Some(ScanMessageSeverity::Error)
    } else {
        None
    }
}

impl ScanMessageSeverity {
    pub fn as_str(self) -> (r: &'static str)
        ensures
            r@ == severity_name(self),
    {
        match self {
            ScanMessageSeverity::Warning => "warning",
            ScanMessageSeverity::Error => "error",
        }
    }

    pub fn parse(value: &str) -> (r: Option<ScanMessageSeverity>)
        ensures
            r == parse_severity(value@),
    {
        if str_eq(value, "warning") {
            Some(ScanMessageSeverity::Warning)
        } else if str_eq(value, "error") {
            Some(ScanMessageSeverity::Error)
        } else {
            None
        }
    }
}

/// A stored scan message, already stripped of private paths.
#[derive(Clone, Debug)]
pub struct StoredScanMessage {
    pub severity: ScanMessageSeverity,
    pub code: String,
    pub entity_ref: Option<String>,
    pub redacted_message: String,
}

/// A scan as the archive recorded it.
#[derive(Clone, Debug)]
pub struct DurableScanSnapshot {
    pub id: String,
    pub mode: ScanMode,
    pub state: ScanState,
    pub counters_json: String,
    pub error_code: Option<String>,
    pub started_at_ms: Option<i64>,
    pub finished_at_ms: Option<i64>,
    pub dataset_revision_before: i64,
    pub dataset_revision_after: Option<i64>,
    pub warning_count: u64,
    pub error_count: u64,
    pub messages: Vec<StoredScanMessage>,
}

#[derive(Clone, Copy, PartialEq, Eq, Debug, Structural)]
pub enum LogFileKind {
    Log,
    CompressedLog,
}

pub open spec fn log_file_kind_name(k: LogFileKind) -> Seq<char> {
    match k {
        LogFileKind::Log => "log"@,
        LogFileKind::CompressedLog => "compressed_log"@,
    }
}

pub open spec fn parse_log_file_kind(s: Seq<char>) -> Option<LogFileKind> {
    if s == "log"@ {
        Some(LogFileKind::Log)
    } else if s == "compressed_log"@ {
        Some(LogFileKind::CompressedLog)
    } else {
        None
    }
}

impl LogFileKind {
    pub fn as_str(self) -> (r: &'static str)
        ensures
            r@ == log_file_kind_name(self),
    {
        match self {
            LogFileKind::Log => "log",
            LogFileKind::CompressedLog => "compressed_log",
        }
    }

    pub fn parse(value: &str) -> (r: Option<LogFileKind>)
        ensures
            r == parse_log_file_kind(value@),
    {
        if str_eq(value, "log") {
            Some(LogFileKind::Log)
        } else if str_eq(value, "compressed_log") {
            Some(LogFileKind::CompressedLog)
        } else {
            None
        }
    }
}

/// A log file found under an approved root. Paths are native path text.
#[derive(Clone, Debug)]
pub struct LogCandidate {
    pub approved_root: String,
    pub absolute_path: String,
    pub relative_path: String,
    pub relative_path_key: Vec<u8>,
    pub kind: LogFileKind,
    pub observed_size_bytes: u64,
}

/// The observed identity of a file generation.
#[derive(Clone, PartialEq, Eq, Debug)]
pub struct FileFingerprint {
    pub size_bytes: u64,
    pub modified_at_ms: i64,
    pub birthtime_ms: Option<i64>,
    pub prefix_hash: [u8; 32],
    pub full_hash: [u8; 32],
    /// Hash of the new file's first `comparison_prefix_len` bytes, where the
    /// length is the previously observed generation size.
    pub comparison_prefix_len: Option<u64>,
    pub comparison_prefix_hash: Option<[u8; 32]>,
}

#[derive(Clone, Debug)]
pub struct FingerprintedLog {
    pub candidate: LogCandidate,
    pub fingerprint: FileFingerprint,
}

/// The parser and revision that produced stored evidence.
#[derive(Clone, Debug)]
pub struct ParserStamp {
    pub name: String,
    pub revision: u32,
}

impl ParserStamp {
    pub fn new(name: String, revision: u32) -> (r: ParserStamp)
        ensures
            r.name == name,
            r.revision == revision,
    {
        ParserStamp { name, revision }
    }
}

#[derive(Clone, Copy, PartialEq, Eq, Debug, Structural)]
pub enum FileDecision {
    New,
    Appended,
    Replaced,
    Unchanged,
    Reparse,
}

pub open spec fn file_decision_name(d: FileDecision) -> Seq<char> {
    match d {
        FileDecision::New => "new"@,
        FileDecision::Appended => "appended"@,
        FileDecision::Replaced => "replaced"@,
        FileDecision::Unchanged => "unchanged"@,
        FileDecision::Reparse => "reparse"@,
    }
}

pub open spec fn parse_file_decision(s: Seq<char>) -> Option<FileDecision> {
    if s == "new"@ {
        Some(FileDecision::New)
    } else if s == "appended"@ {
        Some(FileDecision::Appended)
    } else if s == "replaced"@ {
        Some(FileDecision::Replaced)
    } else if s == "unchanged"@ {
        Some(FileDecision::Unchanged)
    } else if s == "reparse"@ {
        Some(FileDecision::Reparse)
    } else {
        None
    }
}

impl FileDecision {
    pub fn as_str(self) -> (r: &'static str)
        ensures
            r@ == file_decision_name(self),
    {
        match self {
            FileDecision::New => "new",
            FileDecision::Appended => "appended",
            FileDecision::Replaced => "replaced",
            FileDecision::Unchanged => "unchanged",
            FileDecision::Reparse => "reparse",
        }
    }

    /// Every decision but `Unchanged` sends the file to the parser.
    pub fn requires_parse(self) -> (r: bool)
        ensures
            r == (self != FileDecision::Unchanged),
    {
        !matches!(self, FileDecision::Unchanged)
    }

    pub fn parse(value: &str) -> (r: Option<FileDecision>)
        ensures
            r == parse_file_decision(value@),
    {
        if str_eq(value, "new") {
            Some(FileDecision::New)
        } else if str_eq(value, "appended") {
            Some(FileDecision::Appended)
        } else if str_eq(value, "replaced") {
            Some(FileDecision::Replaced)
        } else if str_eq(value, "unchanged") {
            Some(FileDecision::Unchanged)
        } else if str_eq(value, "reparse") {
            Some(FileDecision::Reparse)
        } else {
            None
        }
    }
}

#[derive(Clone, Copy, PartialEq, Eq, Debug, Structural)]
pub enum SourceParseStatus {
    Pending,
    Parsed,
    Warning,
    Failed,
}

pub open spec fn parse_status_name(s: SourceParseStatus) -> Seq<char> {
    match s {
        SourceParseStatus::Pending => "pending"@,
        SourceParseStatus::Parsed => "parsed"@,
        SourceParseStatus::Warning => "warning"@,
        SourceParseStatus::Failed => "failed"@,
    }
}

pub open spec fn parse_parse_status(s: Seq<char>) -> Option<SourceParseStatus> {
    if s == "pending"@ {
        Some(SourceParseStatus::Pending)
    } else if s == "parsed"@ {
        Some(SourceParseStatus::Parsed)
    } else if s == "warning"@ {
        Some(SourceParseStatus::Warning)
    } else if s == "failed"@ {
        Some(SourceParseStatus::Failed)
    } else {
        None
    }
}

impl SourceParseStatus {
    pub fn as_str(self) -> (r: &'static str)
        ensures
            r@ == parse_status_name(self),
    {
        match self {
            SourceParseStatus::Pending => "pending",
            SourceParseStatus::Parsed => "parsed",
            SourceParseStatus::Warning => "warning",
            SourceParseStatus::Failed => "failed",
        }
    }

    pub fn parse(value: &str) -> (r: Option<SourceParseStatus>)
        ensures
            r == parse_parse_status(value@),
    {
        if str_eq(value, "pending") {
            Some(SourceParseStatus::Pending)
        } else if str_eq(value, "parsed") {
            Some(SourceParseStatus::Parsed)
        } else if str_eq(value, "warning") {
            Some(SourceParseStatus::Warning)
        } else if str_eq(value, "failed") {
            Some(SourceParseStatus::Failed)
        } else {
            None
        }
    }
}

/// How many staged files each decision received.
#[derive(Clone, Copy, PartialEq, Eq, Debug, Structural)]
pub struct StageSummary {
    pub new_files: usize,
    pub appended_files: usize,
    pub replaced_files: usize,
    pub reparsed_files: usize,
    pub unchanged_files: usize,
}

impl StageSummary {
    /// The number of staged files; the counts must fit together in a `usize`.
    pub fn total(&self) -> (r: usize)
        requires
            self.new_files + self.appended_files + self.replaced_files + self.reparsed_files
                + self.unchanged_files <= usize::MAX,
        ensures
            r == self.new_files + self.appended_files + self.replaced_files + self.reparsed_files
                + self.unchanged_files,
    {
        self.new_files + self.appended_files + self.replaced_files + self.reparsed_files
            + self.unchanged_files
    }
}

/// Each stored name parses back to the value it names, and only a stored
/// name parses: for scan modes, message severities, log file kinds, file
/// decisions and source parse statuses.
pub proof fn law_stored_names_round_trip(
    m: ScanMode,
    s: ScanMessageSeverity,
    k: LogFileKind,
    d: FileDecision,
    p: SourceParseStatus,
    text: Seq<char>,
)
    ensures
        parse_scan_mode(scan_mode_name(m)) == Some(m),
        parse_severity(severity_name(s)) == Some(s),
        parse_log_file_kind(log_file_kind_name(k)) == Some(k),
        parse_file_decision(file_decision_name(d)) == Some(d),
        parse_parse_status(parse_status_name(p)) == Some(p),
        parse_scan_mode(text) matches Some(x) ==> scan_mode_name(x) == text,
        parse_severity(text) matches Some(x) ==> severity_name(x) == text,
        parse_log_file_kind(text) matches Some(x) ==> log_file_kind_name(x) == text,
        parse_file_decision(text) matches Some(x) ==> file_decision_name(x) == text,
        parse_parse_status(text) matches Some(x) ==> parse_status_name(x) == text,
{
    reveal_strlit("quick");
    reveal_strlit("standard");
    reveal_strlit("deep");
    reveal_strlit("warning");
    reveal_strlit("error");
    reveal_strlit("log");
    reveal_strlit("compressed_log");
    reveal_strlit("new");
    reveal_strlit("appended");
    reveal_strlit("replaced");
    reveal_strlit("unchanged");
    reveal_strlit("reparse");
    reveal_strlit("pending");
    reveal_strlit("parsed");
    reveal_strlit("failed");
    assert("quick"@.len() == 5 && "standard"@.len() == 8 && "deep"@.len() == 4);
    assert("warning"@.len() == 7 && "error"@.len() == 5);
    assert("log"@.len() == 3 && "compressed_log"@.len() == 14);
    assert("new"@.len() == 3 && "appended"@.len() == 8 && "replaced"@.len() == 8);
    assert("unchanged"@.len() == 9 && "reparse"@.len() == 7);
    assert("appended"@[0] != "replaced"@[0]);
    assert("pending"@.len() == 7 && "parsed"@.len() == 6 && "failed"@.len() == 6);
    assert("parsed"@[0] != "failed"@[0] && "pending"@[0] != "warning"@[0]);
}


/// A source revision staged by a scan.
#[derive(Clone, Debug)]
pub struct StagedSource {
    pub instance_id: Option<String>,
    pub source_path_id: String,
    pub source_revision_id: String,
    pub relative_path: String,
    pub kind: LogFileKind,
    pub decision: FileDecision,
    pub generation: i64,
    pub fingerprint: FileFingerprint,
}

} // verus!
