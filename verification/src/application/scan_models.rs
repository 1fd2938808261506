//! The scan status shown to the interface, and its recovery from the archive.

use vstd::prelude::*;

use crate::external::{utc_rfc3339_from_millis, rfc3339_millis};
use crate::parser::minecraft_log::{copy_opt_string, opt_view};
use crate::scan::model::{
    DurableScanSnapshot, ScanMessageSeverity, ScanMode as StoredMode, ScanState as StoredState,
    StoredScanMessage,
};
use crate::text::{chars_of, string_from_chars};

verus! {

/// The most issues a status carries; older ones are dropped first.
pub const MAX_SCAN_ISSUES: usize = 20;

#[derive(Clone, Copy, PartialEq, Eq, Debug, Structural)]
pub enum ScanMode {
    Quick,
    Standard,
    Deep,
}

#[derive(Clone, Copy, PartialEq, Eq, Debug, Structural)]
pub enum ScanState {
    Queued,
    Running,
    Completed,
    Cancelled,
    Failed,
    Interrupted,
}

pub open spec fn terminal_state(s: ScanState) -> bool {
    s == ScanState::Completed || s == ScanState::Cancelled || s == ScanState::Failed || s
        == ScanState::Interrupted
}

impl ScanState {
    /// A scan in this state has stopped for good.
    pub fn is_terminal(self) -> (r: bool)
        ensures
            r == terminal_state(self),
    {
        matches!(
            self,
            ScanState::Completed | ScanState::Cancelled | ScanState::Failed | ScanState::Interrupted
        )
    }
}

#[derive(Clone, Copy, PartialEq, Eq, Debug, Structural)]
pub enum ScanPhase {
    Idle,
    Discovering,
    Indexing,
    Parsing,
    Aggregating,
    Complete,
    Cancelled,
    Failed,
    Interrupted,
}

pub open spec fn phase_name(p: ScanPhase) -> Seq<char> {
    match p {
        ScanPhase::Idle => "idle"@,
        ScanPhase::Discovering => "discovering"@,
        ScanPhase::Indexing => "indexing"@,
        ScanPhase::Parsing => "parsing"@,
        ScanPhase::Aggregating => "aggregating"@,
        ScanPhase::Complete => "complete"@,
        ScanPhase::Cancelled => "cancelled"@,
        ScanPhase::Failed => "failed"@,
        ScanPhase::Interrupted => "interrupted"@,
    }
}

impl ScanPhase {
    pub fn as_str(self) -> (r: &'static str)
        ensures
            r@ == phase_name(self),
    {
        match self {
            ScanPhase::Idle => "idle",
            ScanPhase::Discovering => "discovering",
            ScanPhase::Indexing => "indexing",
            ScanPhase::Parsing => "parsing",
            ScanPhase::Aggregating => "aggregating",
            ScanPhase::Complete => "complete",
            ScanPhase::Cancelled => "cancelled",
            ScanPhase::Failed => "failed",
            ScanPhase::Interrupted => "interrupted",
        }
    }
}

#[derive(Clone, Copy, PartialEq, Eq, Debug, Structural)]
pub enum ScanIssueSeverity {
    Warning,
    Error,
}

#[derive(Clone, Debug)]
pub struct ScanIssue {
    pub severity: ScanIssueSeverity,
    pub code: String,
    pub entity_label: Option<String>,
    pub message: String,
}

pub struct IssueView {
    pub severity: ScanIssueSeverity,
    pub code: Seq<char>,
    pub entity_label: Option<Seq<char>>,
    pub message: Seq<char>,
}

impl View for ScanIssue {
    type V = IssueView;

    open spec fn view(&self) -> IssueView {
        IssueView {
            severity: self.severity,
            code: self.code@,
            entity_label: opt_view(self.entity_label),
            message: self.message@,
        }
    }
}

pub open spec fn issue_views(v: Seq<ScanIssue>) -> Seq<IssueView> {
    v.map_values(|i: ScanIssue| i@)
}

#[derive(Clone, Debug)]
pub struct ScanStatus {
    pub id: String,
    pub mode: ScanMode,
    pub state: ScanState,
    pub phase: ScanPhase,
    pub current: u64,
    pub total: u64,
    pub current_path: Option<String>,
    pub warnings: u64,
    pub errors: u64,
    pub issues: Vec<ScanIssue>,
    pub message: Option<String>,
    pub started_at: Option<String>,
    pub finished_at: Option<String>,
    pub dataset_revision: Option<u64>,
}

pub struct StatusView {
    pub id: Seq<char>,
    pub mode: ScanMode,
    pub state: ScanState,
    pub phase: ScanPhase,
    pub current: u64,
    pub total: u64,
    pub current_path: Option<Seq<char>>,
    pub warnings: u64,
    pub errors: u64,
    pub issues: Seq<IssueView>,
    pub message: Option<Seq<char>>,
    pub started_at: Option<Seq<char>>,
    pub finished_at: Option<Seq<char>>,
    pub dataset_revision: Option<u64>,
}

impl View for ScanStatus {
    type V = StatusView;

    open spec fn view(&self) -> StatusView {
        StatusView {
            id: self.id@,
            mode: self.mode,
            state: self.state,
            phase: self.phase,
            current: self.current,
            total: self.total,
            current_path: opt_view(self.current_path),
            warnings: self.warnings,
            errors: self.errors,
            issues: issue_views(self.issues@),
            message: opt_view(self.message),
            started_at: opt_view(self.started_at),
            finished_at: opt_view(self.finished_at),
            dataset_revision: self.dataset_revision,
        }
    }
}

/// Progress counters stored with a scan; absent fields read as zero.
#[derive(Clone, Copy, PartialEq, Eq, Debug, Structural)]
pub struct DurableCounters {
    pub current: u64,
    pub total: u64,
    pub warnings: u64,
    pub errors: u64,
}

impl DurableCounters {
    pub fn zero() -> (r: DurableCounters)
        ensures
            r == (DurableCounters { current: 0, total: 0, warnings: 0, errors: 0 }),
    {
        DurableCounters { current: 0, total: 0, warnings: 0, errors: 0 }
    }
}

pub open spec fn stored_mode(m: StoredMode) -> ScanMode {
    match m {
        StoredMode::Quick => ScanMode::Quick,
        StoredMode::Standard => ScanMode::Standard,
        StoredMode::Deep => ScanMode::Deep,
    }
}

/// The terminal state, phase and message that a recovered scan shows: a scan
/// that never reached an end is shown as interrupted.
pub open spec fn recovered_state(s: StoredState) -> (ScanState, ScanPhase, Seq<char>) {
    match s {
        StoredState::Completed => (
            ScanState::Completed,
            ScanPhase::Complete,
            "The scan completed and the local archive reflects the available source evidence."@,
        ),
        StoredState::Cancelled => (
            ScanState::Cancelled,
            ScanPhase::Cancelled,
            "The scan was cancelled before promotion; the prior archive remains unchanged."@,
        ),
        StoredState::Failed => (
            ScanState::Failed,
            ScanPhase::Failed,
            "The scan failed before promotion; the prior archive remains unchanged."@,
        ),
        _ => (
            ScanState::Interrupted,
            ScanPhase::Interrupted,
            "The previous scan was interrupted before promotion; the prior archive remains unchanged."@,
        ),
    }
}

pub open spec fn stored_issue(m: StoredScanMessage) -> IssueView {
    IssueView {
        severity: match m.severity {
            ScanMessageSeverity::Warning => ScanIssueSeverity::Warning,
            ScanMessageSeverity::Error => ScanIssueSeverity::Error,
        },
        code: m.code@,
        entity_label: opt_view(m.entity_ref),
        message: m.redacted_message@,
    }
}

pub open spec fn has_error(v: Seq<IssueView>) -> bool {
    exists|i: int| 0 <= i < v.len() && (#[trigger] v[i]).severity == ScanIssueSeverity::Error
}

pub open spec fn failure_issue(error_code: Option<Seq<char>>) -> IssueView {
    IssueView {
        severity: ScanIssueSeverity::Error,
        code: match error_code {
            Some(c) => c,
            None => "scan_failed"@,
        },
        entity_label: None,
        message: "The scan stopped before its reconstruction could be promoted."@,
    }
}

/// The issues of a recovered scan: the stored messages; for a failed scan
/// without an error among them, an error issue is added (dropping the oldest
/// issue when the list is full); then only the newest `MAX_SCAN_ISSUES` stay.
pub open spec fn recovered_issues(
    msgs: Seq<StoredScanMessage>,
    state: ScanState,
    error_code: Option<Seq<char>>,
) -> Seq<IssueView> {
    let base = msgs.map_values(|m: StoredScanMessage| stored_issue(m));
    let with_failure = if state == ScanState::Failed && !has_error(base) {
        let kept = if base.len() == MAX_SCAN_ISSUES {
            base.drop_first()
        } else {
            base
        };
        kept.push(failure_issue(error_code))
    } else {
        base
    };
    if with_failure.len() > MAX_SCAN_ISSUES {
        with_failure.skip(with_failure.len() - MAX_SCAN_ISSUES)
    } else {
        with_failure
    }
}

pub open spec fn count_severity(v: Seq<IssueView>, s: ScanIssueSeverity) -> nat
    decreases v.len(),
{
    if v.len() == 0 {
        0
    } else {
        count_severity(v.drop_last(), s) + if v.last().severity == s { 1nat } else { 0nat }
    }
}

pub open spec fn max3(a: u64, b: u64, c: int) -> int {
    let m = if a >= b { a as int } else { b as int };
    if m >= c { m } else { c }
}

pub open spec fn and_then_rfc3339(v: Option<i64>) -> Option<Seq<char>> {
    match v {
        Some(ms) => utc_rfc3339_from_millis(ms),
        None => None,
    }
}

/// The status that a scan recorded in the archive is shown with.
pub open spec fn from_durable_spec(s: DurableScanSnapshot, c: DurableCounters) -> StatusView {
    let (state, phase, message) = recovered_state(s.state);
    let issues = recovered_issues(s.messages@, state, opt_view(s.error_code));
    let revision = match s.dataset_revision_after {
        Some(r) => r,
        None => s.dataset_revision_before,
    };
    StatusView {
        id: s.id@,
        mode: stored_mode(s.mode),
        state,
        phase,
        current: c.current,
        total: c.total,
        current_path: None,
        warnings: max3(c.warnings, s.warning_count, count_severity(issues, ScanIssueSeverity::Warning) as int) as u64,
        errors: max3(c.errors, s.error_count, count_severity(issues, ScanIssueSeverity::Error) as int) as u64,
        issues,
        message: Some(message),
        started_at: and_then_rfc3339(s.started_at_ms),
        finished_at: and_then_rfc3339(s.finished_at_ms),
        dataset_revision: Some((if revision < 0 { 0 } else { revision }) as u64),
    }
}

proof fn lemma_count_severity_bound(v: Seq<IssueView>, s: ScanIssueSeverity)
    ensures
        count_severity(v, s) <= v.len(),
    decreases v.len(),
{
    if v.len() > 0 {
        lemma_count_severity_bound(v.drop_last(), s);
    }
}

fn count_issues(v: &Vec<ScanIssue>, s: ScanIssueSeverity) -> (r: u64)
    requires
        v@.len() <= MAX_SCAN_ISSUES,
    ensures
        r == count_severity(issue_views(v@), s),
{
    let mut n: u64 = 0;
    let mut i: usize = 0;
    while i < v.len()
        invariant
            i <= v@.len() <= MAX_SCAN_ISSUES,
            n == count_severity(issue_views(v@).take(i as int), s),
            n <= i,
        decreases v@.len() - i,
    {
        assert(issue_views(v@).take(i + 1).drop_last() =~= issue_views(v@).take(i as int));
        if v[i].severity == s {
            n = n + 1;
        }
        i = i + 1;
    }
    assert(issue_views(v@).take(v@.len() as int) =~= issue_views(v@));
    n
}

fn string_of(s: &str) -> (r: String)
    ensures
        r@ == s@,
{
    let c = chars_of(s);
    string_from_chars(c.as_slice())
}

fn recover_issues(
    messages: &Vec<StoredScanMessage>,
    state: ScanState,
    error_code: &Option<String>,
) -> (r: Vec<ScanIssue>)
    ensures
        issue_views(r@) == recovered_issues(messages@, state, opt_view(*error_code)),
        r@.len() <= MAX_SCAN_ISSUES,
{
    let ghost base = messages@.map_values(|m: StoredScanMessage| stored_issue(m));
    let mut issues: Vec<ScanIssue> = Vec::new();
    let mut any_error = false;
    let mut i: usize = 0;
    while i < messages.len()
        invariant
            i <= messages@.len(),
            base == messages@.map_values(|m: StoredScanMessage| stored_issue(m)),
            issue_views(issues@) == base.take(i as int),
            any_error == has_error(base.take(i as int)),
        decreases messages@.len() - i,
    {
        let m = &messages[i];
        let severity = match m.severity {
            ScanMessageSeverity::Warning => ScanIssueSeverity::Warning,
            ScanMessageSeverity::Error => ScanIssueSeverity::Error,
        };
        if severity == ScanIssueSeverity::Error {
            any_error = true;
        }
        issues.push(
            ScanIssue {
                severity,
                code: m.code.clone(),
                entity_label: copy_opt_string(&m.entity_ref),
                message: m.redacted_message.clone(),
            },
        );
        proof {
            let t = base.take(i + 1);
            assert(t =~= base.take(i as int).push(base[i as int]));
            assert(issue_views(issues@) =~= t);
            if has_error(t) {
                let k = choose|k: int| 0 <= k < t.len() && (#[trigger] t[k]).severity
                    == ScanIssueSeverity::Error;
                if k < i {
                    assert(base.take(i as int)[k] == t[k]);
                }
            }
            if any_error {
                if severity == ScanIssueSeverity::Error {
                    assert(t[i as int].severity == ScanIssueSeverity::Error);
                } else {
                    let k = choose|k: int| 0 <= k < i && (#[trigger] base.take(i as int)[k]).severity
                        == ScanIssueSeverity::Error;
                    assert(t[k] == base.take(i as int)[k]);
                }
            }
        }
        i = i + 1;
    }
    assert(base.take(messages@.len() as int) =~= base);
    let ghost after_failure = if state == ScanState::Failed && !has_error(base) {
        (if base.len() == MAX_SCAN_ISSUES {
            base.drop_first()
        } else {
            base
        }).push(failure_issue(opt_view(*error_code)))
    } else {
        base
    };
    if state == ScanState::Failed && !any_error {
        if issues.len() == MAX_SCAN_ISSUES {
            issues.remove(0);
            assert(issue_views(issues@) =~= base.drop_first());
        }
        let code = match error_code {
            Some(c) => c.clone(),
            None => string_of("scan_failed"),
        };
        issues.push(
            ScanIssue {
                severity: ScanIssueSeverity::Error,
                code,
                entity_label: None,
                message: string_of("The scan stopped before its reconstruction could be promoted."),
            },
        );
    }
    assert(issue_views(issues@) =~= after_failure);
    if issues.len() > MAX_SCAN_ISSUES {
        let drop = issues.len() - MAX_SCAN_ISSUES;
        let mut kept: Vec<ScanIssue> = Vec::new();
        let mut j: usize = drop;
        while j < issues.len()
            invariant
                drop <= j <= issues@.len(),
                issue_views(kept@) == issue_views(issues@).subrange(drop as int, j as int),
            decreases issues@.len() - j,
        {
            kept.push(issues[j].clone_issue());
            assert(issue_views(issues@).subrange(drop as int, j + 1) =~= issue_views(issues@).subrange(
                drop as int,
                j as int,
            ).push(issues@[j as int]@));
            assert(issue_views(kept@) =~= issue_views(issues@).subrange(drop as int, j + 1));
            j = j + 1;
        }
        assert(issue_views(issues@).subrange(drop as int, issues@.len() as int) =~= issue_views(
            issues@,
        ).skip(drop as int));
        return kept;
    }
    issues
}

impl ScanIssue {
    pub fn clone_issue(&self) -> (r: ScanIssue)
        ensures
            r@ == self@,
    {
        ScanIssue {
            severity: self.severity,
            code: self.code.clone(),
            entity_label: copy_opt_string(&self.entity_label),
            message: self.message.clone(),
        }
    }
}

fn max_of(a: u64, b: u64) -> (r: u64)
    ensures
        r == (if a >= b { a } else { b }),
{
    if a >= b {
        a
    } else {
        b
    }
}

impl ScanStatus {
    /// The status before any scan has run.
    pub fn idle() -> (r: ScanStatus)
        ensures
            r@.id.len() == 0,
            r.mode == ScanMode::Standard,
            r.state == ScanState::Completed,
            r.phase == ScanPhase::Idle,
            r.current == 0 && r.total == 0 && r.warnings == 0 && r.errors == 0,
            r.current_path is None,
            r.issues@.len() == 0,
            r.message is None && r.started_at is None && r.finished_at is None,
            r.dataset_revision is None,
    {
        ScanStatus {
            id: String::new(),
            mode: ScanMode::Standard,
            state: ScanState::Completed,
            phase: ScanPhase::Idle,
            current: 0,
            total: 0,
            current_path: None,
            warnings: 0,
            errors: 0,
            issues: Vec::new(),
            message: None,
            started_at: None,
            finished_at: None,
            dataset_revision: None,
        }
    }

    /// The status of a scan that was just accepted.
    pub fn queued(id: String, mode: ScanMode) -> (r: ScanStatus)
        ensures
            r.id == id,
            r.mode == mode,
            r.state == ScanState::Queued,
            r.phase == ScanPhase::Discovering,
            r.current == 0 && r.total == 0 && r.warnings == 0 && r.errors == 0,
            r.current_path is None,
            r.issues@.len() == 0,
            r@.message == Some("Preparing approved locations"@),
            r.started_at is None && r.finished_at is None,
            r.dataset_revision is None,
    {
        ScanStatus {
            id,
            mode,
            state: ScanState::Queued,
            phase: ScanPhase::Discovering,
            current: 0,
            total: 0,
            current_path: None,
            warnings: 0,
            errors: 0,
            issues: Vec::new(),
            message: Some(string_of("Preparing approved locations")),
            started_at: None,
            finished_at: None,
            dataset_revision: None,
        }
    }

    /// The status of a scan recorded in the archive, with the counters read
    /// from its stored counters text.
    pub fn from_durable(snapshot: DurableScanSnapshot, counters: DurableCounters) -> (r: ScanStatus)
        ensures
            r@ == from_durable_spec(snapshot, counters),
    {
        let mode = match snapshot.mode {
            StoredMode::Quick => ScanMode::Quick,
            StoredMode::Standard => ScanMode::Standard,
            StoredMode::Deep => ScanMode::Deep,
        };
        let (state, phase, message) = match snapshot.state {
            StoredState::Completed => (
                ScanState::Completed,
                ScanPhase::Complete,
                "The scan completed and the local archive reflects the available source evidence.",
            ),
            StoredState::Cancelled => (
                ScanState::Cancelled,
                ScanPhase::Cancelled,
                "The scan was cancelled before promotion; the prior archive remains unchanged.",
            ),
            StoredState::Failed => (
                ScanState::Failed,
                ScanPhase::Failed,
                "The scan failed before promotion; the prior archive remains unchanged.",
            ),
            _ => (
                ScanState::Interrupted,
                ScanPhase::Interrupted,
                "The previous scan was interrupted before promotion; the prior archive remains unchanged.",
            ),
        };
        let issues = recover_issues(&snapshot.messages, state, &snapshot.error_code);
        let issue_warnings = count_issues(&issues, ScanIssueSeverity::Warning);
        let issue_errors = count_issues(&issues, ScanIssueSeverity::Error);
        let revision = match snapshot.dataset_revision_after {
            Some(r) => r,
            None => snapshot.dataset_revision_before,
        };
        let revision: u64 = if revision < 0 { 0 } else { revision as u64 };
        let started_at = match snapshot.started_at_ms {
            Some(ms) => rfc3339_millis(ms),
            None => None,
        };
        let finished_at = match snapshot.finished_at_ms {
            Some(ms) => rfc3339_millis(ms),
            None => None,
        };
        ScanStatus {
            id: snapshot.id,
            mode,
            state,
            phase,
            current: counters.current,
            total: counters.total,
            current_path: None,
            warnings: max_of(max_of(counters.warnings, snapshot.warning_count), issue_warnings),
            errors: max_of(max_of(counters.errors, snapshot.error_count), issue_errors),
            issues,
            message: Some(string_of(message)),
            started_at,
            finished_at,
            dataset_revision: Some(revision),
        }
    }
}


fn owned_text(s: &str) -> (r: String)
    ensures
        r@ == s@,
{
    s.to_owned()
}

fn owned_opt(s: Option<&str>) -> (r: Option<String>)
    ensures
        opt_view(r) == match s {
            Some(t) => Some(t@),
            None => None,
        },
{
    match s {
        Some(t) => Some(t.to_owned()),
        None => None,
    }
}

/// The issues kept after one more: the oldest is dropped once the list holds
/// `MAX_SCAN_ISSUES`.
pub open spec fn issues_after(issues: Seq<IssueView>, issue: IssueView) -> Seq<IssueView> {
    if issues.len() == MAX_SCAN_ISSUES {
        issues.drop_first().push(issue)
    } else {
        issues.push(issue)
    }
}

impl ScanStatus {
    /// Counts an issue and keeps it among the most recent ones (the part of
    /// recording an issue that is not storing it).
    pub fn note_issue(&mut self, severity: ScanIssueSeverity, code: &str, entity_label: Option<&str>, message: &str)
        ensures
            final(self)@ == (StatusView {
                warnings: if severity == ScanIssueSeverity::Warning {
                    if old(self).warnings == u64::MAX { u64::MAX } else { (old(self).warnings + 1) as u64 }
                } else {
                    old(self).warnings
                },
                errors: if severity == ScanIssueSeverity::Error {
                    if old(self).errors == u64::MAX { u64::MAX } else { (old(self).errors + 1) as u64 }
                } else {
                    old(self).errors
                },
                issues: issues_after(
                    old(self)@.issues,
                    IssueView {
                        severity,
                        code: code@,
                        entity_label: match entity_label {
                            Some(t) => Some(t@),
                            None => None,
                        },
                        message: message@,
                    },
                ),
                ..old(self)@
            }),
    {
        match severity {
            ScanIssueSeverity::Warning => {
                self.warnings = self.warnings.saturating_add(1);
            },
            ScanIssueSeverity::Error => {
                self.errors = self.errors.saturating_add(1);
            },
        }
        let ghost before = issue_views(self.issues@);
        if self.issues.len() == MAX_SCAN_ISSUES {
            self.issues.remove(0);
            assert(issue_views(self.issues@) =~= before.drop_first());
        }
        let ghost kept = issue_views(self.issues@);
        let issue = ScanIssue {
            severity,
            code: owned_text(code),
            entity_label: owned_opt(entity_label),
            message: owned_text(message),
        };
        self.issues.push(issue);
        assert(issue_views(self.issues@) =~= kept.push(issue@));
    }

    /// Moves the scan into a running phase (the part of a phase update that
    /// is not storing it); the start time is set once, to `now`.
    pub fn enter_phase(
        &mut self,
        phase: ScanPhase,
        current: u64,
        total: u64,
        current_path: Option<String>,
        message: &str,
        now: String,
    )
        ensures
            final(self)@ == (StatusView {
                state: ScanState::Running,
                phase,
                current,
                total,
                current_path: opt_view(current_path),
                message: Some(message@),
                started_at: match old(self).started_at {
                    Some(t) => Some(t@),
                    None => Some(now@),
                },
                ..old(self)@
            }),
    {
        self.state = ScanState::Running;
        self.phase = phase;
        self.current = current;
        self.total = total;
        self.current_path = current_path;
        self.message = Some(owned_text(message));
        if self.started_at.is_none() {
            self.started_at = Some(now);
        }
    }
}

/// Recording issues never keeps more than `MAX_SCAN_ISSUES` of them.
pub proof fn law_issue_list_stays_bounded(issues: Seq<IssueView>, issue: IssueView)
    requires
        issues.len() <= MAX_SCAN_ISSUES,
    ensures
        issues_after(issues, issue).len() <= MAX_SCAN_ISSUES,
        issues_after(issues, issue).last() == issue,
{
}

} // verus!
