//! The decisions of the background scan worker: what each instance is planned
//! for, what every parse outcome does to the scan's budgets, which staged
//! sources are marked how, and how a finished run leaves the status.
//!
//! The worker itself reads files and writes the archive; it asks these
//! functions at every step and carries out what they return.

use vstd::prelude::*;

use crate::api::error::BackendError;
use crate::application::archive_budget::{
    retain_payload_spec, retained_view, session_ids_of, CanonicalArchiveBudget, CanonicalArchiveLimits,
};
use crate::application::payload::ReconstructionPayload;
use crate::application::parse_budget::{
    first_evidence_violation, instance_retain_spec, reconstruction_check, scan_reconstruction_spec, scan_retain_spec,
    InstanceParseBudget, InstanceParseLimits, ScanParseBudget, ScanParseLimits,
};
use crate::application::scan_service::{has_parse_warnings, parser_has_warnings};
use crate::parser::log_parser::{evidence_views, LogParseLimitExceeded};
use crate::parser::minecraft_log::ParsedLog;
use crate::parser::session_reconstruction::{session_views, ReconstructedSession};
use crate::application::scan_models::{ScanMode, ScanPhase, ScanState, ScanStatus, StatusView};
use crate::encoding::{decimal_chars, decimal_of};
use crate::domain::location::DiscoveredInstallation;
use crate::scan::model::{FileDecision, FileFingerprint, ScanMode as StoredMode, StagedSource};
use crate::application::instance_groups::{group_view, group_views, GroupView, InstanceGroup};
use crate::text::{append_chars, chars_of, string_from_chars};
use vstd::utf8::encode_utf8;

verus! {

/// `a`, then `b`, then `c`, as one text.
pub fn concat3(a: &str, b: &str, c: &str) -> (r: String)
    ensures
        r@ == a@ + b@ + c@,
{
    let mut v = chars_of(a);
    let bv = chars_of(b);
    let cv = chars_of(c);
    append_chars(&mut v, bv.as_slice());
    append_chars(&mut v, cv.as_slice());
    string_from_chars(v.as_slice())
}

/// `a`, the decimal digits of `n`, then `b`, as one text.
pub fn concat_number(a: &str, n: u64, b: &str) -> (r: String)
    ensures
        r@ == a@ + decimal_of(n as nat) + b@,
{
    let mut v = chars_of(a);
    let d = decimal_chars(n);
    let bv = chars_of(b);
    append_chars(&mut v, d.as_slice());
    append_chars(&mut v, bv.as_slice());
    string_from_chars(v.as_slice())
}

/// The stored name of a scan mode.
pub fn storage_mode(mode: ScanMode) -> (r: StoredMode)
    ensures
        r == match mode {
            ScanMode::Quick => StoredMode::Quick,
            ScanMode::Standard => StoredMode::Standard,
            ScanMode::Deep => StoredMode::Deep,
        },
{
    match mode {
        ScanMode::Quick => StoredMode::Quick,
        ScanMode::Standard => StoredMode::Standard,
        ScanMode::Deep => StoredMode::Deep,
    }
}

// ---------------------------------------------------------------------------
// Inventory

/// Why the inventory skipped an entry.
#[derive(Clone, Copy, PartialEq, Eq, Debug, Structural)]
pub enum InventoryWarningKind {
    SymlinkSkipped,
    DepthLimitReached,
    FileTooLarge,
    UnreadableEntry,
}

pub open spec fn warning_code(kind: InventoryWarningKind) -> Seq<char> {
    match kind {
        InventoryWarningKind::SymlinkSkipped => "inventory_symlink_skipped"@,
        InventoryWarningKind::DepthLimitReached => "inventory_depth_limit_reached"@,
        InventoryWarningKind::FileTooLarge => "inventory_file_too_large"@,
        InventoryWarningKind::UnreadableEntry => "inventory_entry_unreadable"@,
    }
}

pub open spec fn warning_message(kind: InventoryWarningKind) -> Seq<char> {
    match kind {
        InventoryWarningKind::SymlinkSkipped =>
            "A symbolic link was skipped because MineTrace does not follow links."@,
        InventoryWarningKind::DepthLimitReached =>
            "A nested folder was skipped after the safe inventory depth was reached."@,
        InventoryWarningKind::FileTooLarge =>
            "A log was skipped because it exceeds the safe source-file size limit."@,
        InventoryWarningKind::UnreadableEntry => "A folder entry could not be read and was skipped."@,
    }
}

/// The issue code and message recorded for an inventory warning.
pub fn inventory_warning_issue(kind: InventoryWarningKind) -> (r: (&'static str, &'static str))
    ensures
        r.0@ == warning_code(kind),
        r.1@ == warning_message(kind),
{
    proof {
        reveal_strlit("inventory_symlink_skipped");
        reveal_strlit("inventory_depth_limit_reached");
        reveal_strlit("inventory_file_too_large");
        reveal_strlit("inventory_entry_unreadable");
        reveal_strlit("A symbolic link was skipped because MineTrace does not follow links.");
        reveal_strlit("A nested folder was skipped after the safe inventory depth was reached.");
        reveal_strlit("A log was skipped because it exceeds the safe source-file size limit.");
        reveal_strlit("A folder entry could not be read and was skipped.");
    }
    match kind {
        InventoryWarningKind::SymlinkSkipped => (
            "inventory_symlink_skipped",
            "A symbolic link was skipped because MineTrace does not follow links.",
        ),
        InventoryWarningKind::DepthLimitReached => (
            "inventory_depth_limit_reached",
            "A nested folder was skipped after the safe inventory depth was reached.",
        ),
        InventoryWarningKind::FileTooLarge => (
            "inventory_file_too_large",
            "A log was skipped because it exceeds the safe source-file size limit.",
        ),
        InventoryWarningKind::UnreadableEntry => (
            "inventory_entry_unreadable",
            "A folder entry could not be read and was skipped.",
        ),
    }
}

/// The key under which an instance's inventory is staged: a complete scope
/// for standard and deep scans, a partial one for quick scans.
pub fn inventory_scope_key(mode: ScanMode, instance_id: &str) -> (r: String)
    ensures
        r@ == (if mode != ScanMode::Quick { "complete:"@ } else { "quick:"@ }) + instance_id@,
{
    proof {
        reveal_strlit("complete:");
        reveal_strlit("quick:");
        reveal_strlit("");
    }
    if mode != ScanMode::Quick {
        concat3("complete:", instance_id, "")
    } else {
        concat3("quick:", instance_id, "")
    }
}

/// Whether two byte strings are equal.
pub fn bytes_equal(a: &[u8], b: &[u8]) -> (r: bool)
    ensures
        r == (a@ == b@),
{
    if a.len() != b.len() {
        return false;
    }
    let mut i: usize = 0;
    while i < a.len()
        invariant
            i <= a@.len(),
            a@.len() == b@.len(),
            forall|k: int| 0 <= k < i ==> a@[k] == b@[k],
        decreases a@.len() - i,
    {
        if a[i] != b[i] {
            return false;
        }
        i += 1;
    }
    assert(a@ =~= b@);
    true
}

/// The instances stored for a location that this inventory did not see:
/// each is added, in order, with no logs, so that its missing sources are
/// reconciled.
pub open spec fn unobserved_groups(stored: Seq<(Seq<char>, Seq<char>)>, observed: Seq<Seq<char>>) -> Seq<
    GroupView,
>
    decreases stored.len(),
{
    if stored.len() == 0 {
        Seq::empty()
    } else {
        let before = unobserved_groups(stored.drop_last(), observed);
        let (root, name) = stored.last();
        if observed.contains(root) {
            before
        } else {
            before.push(GroupView { root, name, candidates: Seq::empty() })
        }
    }
}

pub open spec fn group_roots(gs: Seq<GroupView>) -> Seq<Seq<char>> {
    gs.map_values(|g: GroupView| g.root)
}

pub open spec fn pair_views(v: Seq<(String, String)>) -> Seq<(Seq<char>, Seq<char>)> {
    v.map_values(|p: (String, String)| (p.0@, p.1@))
}

fn has_root(groups: &Vec<InstanceGroup>, n: usize, root: &String) -> (r: bool)
    requires
        n <= groups@.len(),
    ensures
        r == group_roots(group_views(groups@).take(n as int)).contains(root@),
{
    let ghost roots = group_roots(group_views(groups@).take(n as int));
    let mut i: usize = 0;
    while i < n
        invariant
            i <= n <= groups@.len(),
            roots == group_roots(group_views(groups@).take(n as int)),
            forall|k: int| 0 <= k < i ==> roots[k] != root@,
        decreases n - i,
    {
        assert(roots[i as int] == groups@[i as int].relative_root@);
        if groups[i].relative_root.eq(root) {
            assert(roots[i as int] == root@);
            return true;
        }
        i += 1;
    }
    false
}

/// Adds the stored instances of a location that the inventory did not see
/// (standard and deep scans do this; quick scans look only at what they see).
pub fn add_unobserved_instances(groups: &mut Vec<InstanceGroup>, stored: &Vec<(String, String)>)
    ensures
        group_views(final(groups)@) == group_views(old(groups)@) + unobserved_groups(
            pair_views(stored@),
            group_roots(group_views(old(groups)@)),
        ),
{
    let n = groups.len();
    let ghost original = group_views(groups@);
    let ghost observed = group_roots(original);
    assert(original.take(n as int) =~= original);
    let mut i: usize = 0;
    assert(pair_views(stored@).take(0) =~= Seq::<(Seq<char>, Seq<char>)>::empty());
    assert(group_views(groups@) =~= original + Seq::<GroupView>::empty());
    while i < stored.len()
        invariant
            i <= stored@.len(),
            n <= groups@.len(),
            original == group_views(old(groups)@),
            observed == group_roots(original),
            original.len() == n,
            group_views(groups@).take(n as int) == original,
            group_views(groups@) == original + unobserved_groups(
                pair_views(stored@).take(i as int),
                observed,
            ),
        decreases stored@.len() - i,
    {
        let ghost before = group_views(groups@);
        assert(pair_views(stored@).take(i + 1).drop_last() =~= pair_views(stored@).take(i as int));
        assert(pair_views(stored@).take(i + 1).last() == (stored@[i as int].0@, stored@[i as int].1@));
        if !has_root(groups, n, &stored[i].0) {
            let g = InstanceGroup {
                relative_root: stored[i].0.clone(),
                name: stored[i].1.clone(),
                candidates: Vec::new(),
            };
            groups.push(g);
            assert(group_views(groups@) =~= before.push(group_view(g)));
            assert(group_views(groups@).take(n as int) =~= before.take(n as int));
        }
        i += 1;
    }
    assert(pair_views(stored@).take(stored@.len() as int) =~= pair_views(stored@));
}

pub open spec fn path_key_of(path: Seq<char>) -> Seq<u8> {
    encode_utf8(path)
}

/// The staged source a fingerprinted log belongs to: the last one whose
/// path has the log's key.
pub fn staged_source_for(sources: &[StagedSource], key: &[u8]) -> (r: Option<usize>)
    ensures
        match r {
            Some(i) => i < sources@.len() && path_key_of(sources@[i as int].relative_path@) == key@
                && forall|j: int| i < j < sources@.len() ==> path_key_of(sources@[j].relative_path@) != key@,
            None => forall|j: int| 0 <= j < sources@.len() ==> path_key_of(sources@[j].relative_path@) != key@,
        },
{
    let mut i: usize = sources.len();
    while i > 0
        invariant
            i <= sources@.len(),
            forall|j: int| i <= j < sources@.len() ==> path_key_of(sources@[j].relative_path@) != key@,
        decreases i,
    {
        i -= 1;
        if bytes_equal(sources[i].relative_path.as_str().as_bytes(), key) {
            return Some(i);
        }
    }
    None
}

pub open spec fn candidate_sum(gs: Seq<GroupView>) -> int
    decreases gs.len(),
{
    if gs.len() == 0 {
        0
    } else {
        candidate_sum(gs.drop_last()) + gs.last().candidates.len()
    }
}

/// The scan's running total after an inventory: the logs of every group are
/// added, saturating at `u64::MAX`.
pub fn add_candidate_total(total: u64, groups: &Vec<InstanceGroup>) -> (r: u64)
    ensures
        r == (if total + candidate_sum(group_views(groups@)) > u64::MAX {
            u64::MAX
        } else {
            (total + candidate_sum(group_views(groups@))) as u64
        }),
{
    let ghost gs = group_views(groups@);
    let mut t = total;
    let mut i: usize = 0;
    while i < groups.len()
        invariant
            i <= groups@.len(),
            gs == group_views(groups@),
            0 <= candidate_sum(gs.take(i as int)),
            t == (if total + candidate_sum(gs.take(i as int)) > u64::MAX {
                u64::MAX
            } else {
                (total + candidate_sum(gs.take(i as int))) as u64
            }),
        decreases groups@.len() - i,
    {
        assert(gs.take(i + 1).drop_last() =~= gs.take(i as int));
        assert(gs.take(i + 1).last() == group_view(groups@[i as int]));
        assert(candidate_sum(gs.take(i + 1)) == candidate_sum(gs.take(i as int))
            + groups@[i as int].candidates@.len());
        t = t.saturating_add(groups[i].candidates.len() as u64);
        i += 1;
    }
    assert(gs.take(groups@.len() as int) =~= gs);
    t
}

/// The number of logs the parse phase reads: those of the instances that
/// are rebuilt, saturating at `u64::MAX`.
pub fn files_to_parse(plans: &[InstancePlan], file_counts: &[usize]) -> (r: u64)
    requires
        plans@.len() == file_counts@.len(),
    ensures
        r == (if rebuilt_files(plans@, file_counts@) > u64::MAX {
            u64::MAX
        } else {
            rebuilt_files(plans@, file_counts@) as u64
        }),
{
    let mut t: u64 = 0;
    let mut i: usize = 0;
    while i < plans.len()
        invariant
            i <= plans@.len() == file_counts@.len(),
            0 <= rebuilt_files(plans@.take(i as int), file_counts@.take(i as int)),
            t == (if rebuilt_files(plans@.take(i as int), file_counts@.take(i as int)) > u64::MAX {
                u64::MAX
            } else {
                rebuilt_files(plans@.take(i as int), file_counts@.take(i as int)) as u64
            }),
        decreases plans@.len() - i,
    {
        assert(plans@.take(i + 1).drop_last() =~= plans@.take(i as int));
        assert(file_counts@.take(i + 1).drop_last() =~= file_counts@.take(i as int));
        assert(rebuilt_files(plans@.take(i + 1), file_counts@.take(i + 1)) == rebuilt_files(
            plans@.take(i as int),
            file_counts@.take(i as int),
        ) + if plans@[i as int].should_reconstruct {
            file_counts@[i as int] as int
        } else {
            0
        });
        if plans[i].should_reconstruct {
            t = t.saturating_add(file_counts[i] as u64);
        }
        i += 1;
    }
    assert(plans@.take(plans@.len() as int) =~= plans@);
    assert(file_counts@.take(file_counts@.len() as int) =~= file_counts@);
    t
}

pub open spec fn rebuilt_files(plans: Seq<InstancePlan>, counts: Seq<usize>) -> int
    decreases plans.len(),
{
    if plans.len() == 0 || counts.len() == 0 {
        0
    } else {
        rebuilt_files(plans.drop_last(), counts.drop_last()) + if plans.last().should_reconstruct {
            counts.last() as int
        } else {
            0
        }
    }
}

/// Whether a file observed after parsing is still the generation that was
/// staged: same size, modification time, creation time and full hash.
pub fn snapshot_still_matches(observed: &FileFingerprint, staged: &FileFingerprint) -> (r: bool)
    ensures
        r == (observed.size_bytes == staged.size_bytes && observed.modified_at_ms == staged.modified_at_ms
            && observed.birthtime_ms == staged.birthtime_ms && observed.full_hash@ == staged.full_hash@),
{
    observed.size_bytes == staged.size_bytes && observed.modified_at_ms == staged.modified_at_ms
        && observed.birthtime_ms == staged.birthtime_ms && bytes_equal(
        observed.full_hash.as_slice(),
        staged.full_hash.as_slice(),
    )
}

// ---------------------------------------------------------------------------
// Phases and the issues outside the parse phase

/// What the status says while the worker is in a phase.
pub open spec fn phase_text(phase: ScanPhase) -> Seq<char> {
    match phase {
        ScanPhase::Discovering => "Resolving approved launcher and instance roots."@,
        ScanPhase::Indexing => "Inventorying log files and comparing full-file fingerprints."@,
        ScanPhase::Parsing => "Streaming log evidence and reconstructing session boundaries."@,
        ScanPhase::Aggregating => "Promoting the completed reconstruction in one database transaction."@,
        _ => Seq::empty(),
    }
}

pub fn phase_message(phase: ScanPhase) -> (r: &'static str)
    ensures
        r@ == phase_text(phase),
{
    proof {
        reveal_strlit("Resolving approved launcher and instance roots.");
        reveal_strlit("Inventorying log files and comparing full-file fingerprints.");
        reveal_strlit("Streaming log evidence and reconstructing session boundaries.");
        reveal_strlit("Promoting the completed reconstruction in one database transaction.");
        reveal_strlit("");
    }
    match phase {
        ScanPhase::Discovering => "Resolving approved launcher and instance roots.",
        ScanPhase::Indexing => "Inventorying log files and comparing full-file fingerprints.",
        ScanPhase::Parsing => "Streaming log evidence and reconstructing session boundaries.",
        ScanPhase::Aggregating => "Promoting the completed reconstruction in one database transaction.",
        _ => "",
    }
}

/// An issue the worker records outside the parse verdicts.
#[derive(Clone, Copy, PartialEq, Eq, Debug, Structural)]
pub enum WorkerIssue {
    /// An approved location could not be inventoried.
    LocationInventoryFailed,
    /// A log could not be fingerprinted.
    LogFingerprintFailed,
    /// A log parsed with recovered errors.
    LogParseWarning,
}

pub open spec fn worker_issue_code(i: WorkerIssue) -> Seq<char> {
    match i {
        WorkerIssue::LocationInventoryFailed => "location_inventory_failed"@,
        WorkerIssue::LogFingerprintFailed => "log_fingerprint_failed"@,
        WorkerIssue::LogParseWarning => "log_parse_warning"@,
    }
}

pub open spec fn worker_issue_message(i: WorkerIssue) -> Seq<char> {
    match i {
        WorkerIssue::LocationInventoryFailed =>
            "An approved location became unavailable and was skipped during inventory."@,
        WorkerIssue::LogFingerprintFailed =>
            "A log changed or became unreadable while it was indexed and was skipped."@,
        WorkerIssue::LogParseWarning => "A log contained malformed or incomplete lines; usable evidence was retained."@,
    }
}

/// The issue code and message of a worker issue.
pub fn worker_issue(i: WorkerIssue) -> (r: (&'static str, &'static str))
    ensures
        r.0@ == worker_issue_code(i),
        r.1@ == worker_issue_message(i),
{
    proof {
        reveal_strlit("location_inventory_failed");
        reveal_strlit("log_fingerprint_failed");
        reveal_strlit("log_parse_warning");
        reveal_strlit("An approved location became unavailable and was skipped during inventory.");
        reveal_strlit("A log changed or became unreadable while it was indexed and was skipped.");
        reveal_strlit("A log contained malformed or incomplete lines; usable evidence was retained.");
    }
    match i {
        WorkerIssue::LocationInventoryFailed => (
            "location_inventory_failed",
            "An approved location became unavailable and was skipped during inventory.",
        ),
        WorkerIssue::LogFingerprintFailed => (
            "log_fingerprint_failed",
            "A log changed or became unreadable while it was indexed and was skipped.",
        ),
        WorkerIssue::LogParseWarning => (
            "log_parse_warning",
            "A log contained malformed or incomplete lines; usable evidence was retained.",
        ),
    }
}

/// The installations a scan covers: the enabled ones, in order; none is a
/// failure of the run.
pub fn enabled_installations(all: Vec<DiscoveredInstallation>) -> (r: Result<
    Vec<DiscoveredInstallation>,
    BackendError,
>)
    ensures
        match r {
            Ok(v) => v@.len() > 0 && v@ == all@.filter(|i: DiscoveredInstallation| i.enabled),
            Err(e) => all@.filter(|i: DiscoveredInstallation| i.enabled).len() == 0 && e is BackgroundTask
                && e->BackgroundTask_0@ == "No enabled Minecraft locations are available to scan."@,
        },
{
    let ghost source = all@;
    let mut rest = all;
    let mut kept: Vec<DiscoveredInstallation> = Vec::new();
    let mut n: usize = 0;
    let count = rest.len();
    assert(source.len() == count);
    assert(source.take(0).filter(|i: DiscoveredInstallation| i.enabled) =~= Seq::<DiscoveredInstallation>::empty());
    assert(rest@ =~= source.skip(0));
    while rest.len() > 0
        invariant
            n <= source.len(),
            source.len() <= usize::MAX,
            rest@ == source.skip(n as int),
            kept@ == source.take(n as int).filter(|i: DiscoveredInstallation| i.enabled),
        decreases rest@.len(),
    {
        assert(source.skip(n as int)[0] == source[n as int]);
        let x = rest.remove(0);
        assert(rest@ =~= source.skip(n + 1));
        assert(source.take(n + 1).drop_last() =~= source.take(n as int));
        proof {
            source.take(n as int).lemma_filter_push(x, |i: DiscoveredInstallation| i.enabled);
            assert(source.take(n + 1) =~= source.take(n as int).push(x));
        }
        if x.enabled {
            kept.push(x);
        }
        n += 1;
    }
    assert(source.take(n as int) =~= source);
    proof {
        reveal_strlit("No enabled Minecraft locations are available to scan.");
    }
    if kept.len() == 0 {
        return Err(BackendError::BackgroundTask("No enabled Minecraft locations are available to scan.".to_owned()));
    }
    Ok(kept)
}

pub open spec fn unreadable_text() -> Seq<char> {
    "No approved Minecraft location remained readable when scanning began."@
}

/// The failure of a run whose every location failed its inventory.
pub fn no_readable_location() -> (r: BackendError)
    ensures
        r is BackgroundTask && r->BackgroundTask_0@ == unreadable_text(),
{
    proof {
        reveal_strlit("No approved Minecraft location remained readable when scanning began.");
    }
    BackendError::BackgroundTask("No approved Minecraft location remained readable when scanning began.".to_owned())
}

// ---------------------------------------------------------------------------
// Planning an instance

/// What the worker does with an instance after staging its inventory.
#[derive(Clone, Copy, PartialEq, Eq, Debug, Structural)]
pub struct InstancePlan {
    /// The instance's whole session history is replaced by the new reconstruction.
    pub replace_all: bool,
    /// The instance's logs are parsed and its sessions rebuilt.
    pub should_reconstruct: bool,
}

pub open spec fn decisions_of(sources: Seq<StagedSource>) -> Seq<FileDecision> {
    sources.map_values(|s: StagedSource| s.decision)
}

pub open spec fn any_changed(ds: Seq<FileDecision>) -> bool {
    exists|i: int| 0 <= i < ds.len() && ds[i] != FileDecision::Unchanged
}

pub open spec fn any_replaced(ds: Seq<FileDecision>) -> bool {
    exists|i: int| 0 <= i < ds.len() && ds[i] == FileDecision::Replaced
}

pub open spec fn plan_spec(
    mode: ScanMode,
    file_count: nat,
    ds: Seq<FileDecision>,
    has_missing_sources: bool,
    has_replacement_history: bool,
) -> InstancePlan {
    InstancePlan {
        replace_all: mode != ScanMode::Quick && !has_missing_sources && !any_replaced(ds)
            && !has_replacement_history,
        should_reconstruct: match mode {
            ScanMode::Deep => file_count > 0,
            _ => any_changed(ds),
        },
    }
}

/// Plans an instance: a deep scan rebuilds every instance that has logs, the
/// other modes only those with a changed source; the history is replaced
/// whole only by a complete scan that saw every source and no replaced
/// generation.
pub fn plan_instance(
    mode: ScanMode,
    file_count: usize,
    sources: &[StagedSource],
    has_missing_sources: bool,
    has_replacement_history: bool,
) -> (r: InstancePlan)
    ensures
        r == plan_spec(
            mode,
            file_count as nat,
            decisions_of(sources@),
            has_missing_sources,
            has_replacement_history,
        ),
{
    let ghost ds = decisions_of(sources@);
    let mut changed = false;
    let mut replaced = false;
    let mut i: usize = 0;
    while i < sources.len()
        invariant
            i <= sources@.len(),
            ds == decisions_of(sources@),
            changed == (exists|k: int| 0 <= k < i && ds[k] != FileDecision::Unchanged),
            replaced == (exists|k: int| 0 <= k < i && ds[k] == FileDecision::Replaced),
        decreases sources@.len() - i,
    {
        let d = sources[i].decision;
        assert(ds[i as int] == d);
        if d.requires_parse() {
            changed = true;
        }
        if d == FileDecision::Replaced {
            replaced = true;
        }
        i += 1;
    }
    let should_reconstruct = match mode {
        ScanMode::Deep => file_count > 0,
        _ => changed,
    };
    InstancePlan {
        replace_all: mode != ScanMode::Quick && !has_missing_sources && !replaced
            && !has_replacement_history,
        should_reconstruct,
    }
}

// ---------------------------------------------------------------------------
// Which staged sources get which mark

/// The indices below `n` that satisfy `keep`, in increasing order.
pub open spec fn indices_where(n: nat, keep: spec_fn(int) -> bool) -> Seq<usize>
    decreases n,
{
    if n == 0 {
        Seq::empty()
    } else {
        let before = indices_where((n - 1) as nat, keep);
        if keep(n - 1) {
            before.push((n - 1) as usize)
        } else {
            before
        }
    }
}

pub open spec fn settled_keep(should_reconstruct: bool, sources: Seq<StagedSource>) -> spec_fn(int) -> bool {
    |i: int| !should_reconstruct || sources[i].decision == FileDecision::Unchanged
}

/// The sources marked parsed before any log is read: all of them when the
/// instance is not rebuilt, otherwise the unchanged ones.
pub fn sources_settled_unparsed(should_reconstruct: bool, sources: &[StagedSource]) -> (r: Vec<usize>)
    ensures
        r@ == indices_where(sources@.len(), settled_keep(should_reconstruct, sources@)),
{
    let ghost keep = settled_keep(should_reconstruct, sources@);
    let mut r: Vec<usize> = Vec::new();
    let mut i: usize = 0;
    while i < sources.len()
        invariant
            i <= sources@.len(),
            keep == settled_keep(should_reconstruct, sources@),
            r@ == indices_where(i as nat, keep),
        decreases sources@.len() - i,
    {
        if !should_reconstruct || sources[i].decision == FileDecision::Unchanged {
            r.push(i);
        }
        i += 1;
    }
    r
}

pub open spec fn changed_keep(sources: Seq<StagedSource>) -> spec_fn(int) -> bool {
    |i: int| sources[i].decision != FileDecision::Unchanged
}

/// The sources whose content changed: the ones a deferred or refused
/// instance marks failed.
pub fn changed_sources(sources: &[StagedSource]) -> (r: Vec<usize>)
    ensures
        r@ == indices_where(sources@.len(), changed_keep(sources@)),
{
    let ghost keep = changed_keep(sources@);
    let mut r: Vec<usize> = Vec::new();
    let mut i: usize = 0;
    while i < sources.len()
        invariant
            i <= sources@.len(),
            keep == changed_keep(sources@),
            r@ == indices_where(i as nat, keep),
        decreases sources@.len() - i,
    {
        if sources[i].decision.requires_parse() {
            r.push(i);
        }
        i += 1;
    }
    r
}

pub open spec fn text_views(v: Seq<String>) -> Seq<Seq<char>> {
    v.map_values(|s: String| s@)
}

/// Whether `id` is among `ids`.
pub fn contains_text(ids: &Vec<String>, id: &String) -> (r: bool)
    ensures
        r == text_views(ids@).contains(id@),
{
    let mut i: usize = 0;
    while i < ids.len()
        invariant
            i <= ids@.len(),
            forall|k: int| 0 <= k < i ==> ids@[k]@ != id@,
        decreases ids@.len() - i,
    {
        if ids[i].eq(id) {
            assert(text_views(ids@)[i as int] == id@);
            return true;
        }
        i += 1;
    }
    proof {
        if text_views(ids@).contains(id@) {
            let k = choose|k: int| 0 <= k < text_views(ids@).len() && text_views(ids@)[k] == id@;
            assert(ids@[k]@ == id@);
        }
    }
    false
}

pub open spec fn deferred_keep(sources: Seq<StagedSource>, failed: Seq<Seq<char>>) -> spec_fn(int) -> bool {
    |i: int| sources[i].decision != FileDecision::Unchanged && !failed.contains(sources[i].source_revision_id@)
}

/// The changed sources that did not fail themselves: when one source of an
/// instance failed, these are marked deferred, and the instance keeps its
/// prior sessions.
pub fn sources_deferred_with_instance(sources: &[StagedSource], failed: &Vec<String>) -> (r: Vec<usize>)
    ensures
        r@ == indices_where(sources@.len(), deferred_keep(sources@, text_views(failed@))),
{
    let ghost keep = deferred_keep(sources@, text_views(failed@));
    let mut r: Vec<usize> = Vec::new();
    let mut i: usize = 0;
    while i < sources.len()
        invariant
            i <= sources@.len(),
            keep == deferred_keep(sources@, text_views(failed@)),
            r@ == indices_where(i as nat, keep),
        decreases sources@.len() - i,
    {
        if sources[i].decision.requires_parse() && !contains_text(failed, &sources[i].source_revision_id) {
            r.push(i);
        }
        i += 1;
    }
    r
}

// ---------------------------------------------------------------------------
// The parse phase

/// The scan-wide resource that ran out, and the code that the sources it
/// defers are marked with.
#[derive(Clone, Copy, PartialEq, Eq, Debug)]
pub struct Exhaustion {
    pub resource: &'static str,
    pub code: &'static str,
}

/// What the parse phase carries from one instance to the next.
pub struct ParsePhase {
    pub scan_budget: ScanParseBudget,
    pub exhaustion: Option<Exhaustion>,
    pub parsed_count: u64,
}

pub struct PhaseView {
    pub scan_budget: ScanParseBudget,
    pub exhaustion: Option<(Seq<char>, Seq<char>)>,
    pub parsed_count: u64,
}

pub open spec fn exhaustion_view(e: Option<Exhaustion>) -> Option<(Seq<char>, Seq<char>)> {
    match e {
        Some(x) => Some((x.resource@, x.code@)),
        None => None,
    }
}

impl View for ParsePhase {
    type V = PhaseView;

    open spec fn view(&self) -> PhaseView {
        PhaseView {
            scan_budget: self.scan_budget,
            exhaustion: exhaustion_view(self.exhaustion),
            parsed_count: self.parsed_count,
        }
    }
}

pub open spec fn bump(n: u64) -> u64 {
    if n == u64::MAX { u64::MAX } else { (n + 1) as u64 }
}

impl ParsePhase {
    pub fn new() -> (r: ParsePhase)
        ensures
            r@ == (PhaseView {
                scan_budget: ScanParseBudget {
                    log_files: 0,
                    decompressed_bytes: 0,
                    evidence_events: 0,
                    reconstructed_sessions: 0,
                    contexts: 0,
                },
                exhaustion: None,
                parsed_count: 0,
            }),
    {
        ParsePhase { scan_budget: ScanParseBudget::default(), exhaustion: None, parsed_count: 0 }
    }
}

/// What happens to an instance before its logs are read.
#[derive(Clone, Copy, PartialEq, Eq, Debug)]
pub enum InstanceGate {
    /// It is not rebuilt in this scan.
    Skip,
    /// An earlier instance exhausted the scan; its changed sources are
    /// marked failed with the exhaustion's code.
    Defer(Exhaustion),
    /// It has more logs than one instance may parse; its changed sources are
    /// marked failed.
    TooManyLogs(&'static str),
    /// Its logs are parsed.
    Parse,
}

/// Decides whether an instance's logs are read.
pub fn instance_gate(
    phase: &ParsePhase,
    plan: InstancePlan,
    file_count: usize,
    limits: &InstanceParseLimits,
) -> (r: InstanceGate)
    ensures
        !plan.should_reconstruct ==> r == InstanceGate::Skip,
        plan.should_reconstruct && phase.exhaustion is Some ==> r == InstanceGate::Defer(
            phase.exhaustion.unwrap(),
        ),
        plan.should_reconstruct && phase.exhaustion is None && file_count > limits.max_log_files ==> (
        r is TooManyLogs && r->TooManyLogs_0@ == "log file count"@),
        plan.should_reconstruct && phase.exhaustion is None && file_count <= limits.max_log_files ==> r
            == InstanceGate::Parse,
{
    if !plan.should_reconstruct {
        return InstanceGate::Skip;
    }
    if let Some(e) = phase.exhaustion {
        return InstanceGate::Defer(e);
    }
    match InstanceParseBudget::validate_log_count(file_count, limits) {
        Err(resource) => InstanceGate::TooManyLogs(resource),
        Ok(()) => InstanceGate::Parse,
    }
}

/// What one instance's parse has gathered so far.
pub struct InstanceRound {
    pub budget: InstanceParseBudget,
    pub failed: bool,
    pub failed_sources: Vec<String>,
}

pub struct RoundView {
    pub budget: InstanceParseBudget,
    pub failed: bool,
    pub failed_sources: Seq<Seq<char>>,
}

impl View for InstanceRound {
    type V = RoundView;

    open spec fn view(&self) -> RoundView {
        RoundView { budget: self.budget, failed: self.failed, failed_sources: text_views(self.failed_sources@) }
    }
}

/// What becomes of one parsed log.
#[derive(Clone, Copy, PartialEq, Eq, Debug)]
pub enum FileVerdict {
    /// Its evidence is kept; the source is marked parsed, or parsed with a
    /// warning when the parser recovered from bad input.
    Retained { warning: bool },
    /// The scan ran out of this resource: the source fails and this and all
    /// remaining instances are deferred.
    ScanLimit(&'static str),
    /// The instance ran out of this resource: the source fails and the
    /// instance keeps its prior sessions.
    InstanceLimit(&'static str),
}

pub enum VerdictView {
    Retained(bool),
    ScanLimit(Seq<char>),
    InstanceLimit(Seq<char>),
}

pub open spec fn verdict_view(v: FileVerdict) -> VerdictView {
    match v {
        FileVerdict::Retained { warning } => VerdictView::Retained(warning),
        FileVerdict::ScanLimit(r) => VerdictView::ScanLimit(r@),
        FileVerdict::InstanceLimit(r) => VerdictView::InstanceLimit(r@),
    }
}

pub open spec fn payload_check(log: ParsedLog, l: InstanceParseLimits) -> Result<(), Seq<char>> {
    match first_evidence_violation(evidence_views(log.evidence@), l) {
        Some(e) => Err(e),
        None => Ok(()),
    }
}

pub open spec fn failed_round(round: RoundView, id: Seq<char>) -> RoundView {
    RoundView { failed: true, failed_sources: round.failed_sources.push(id), ..round }
}

/// The step a parsed log takes: the scan budget is charged first, then the
/// log's own evidence and the instance budget are checked.
pub open spec fn parsed_step(
    phase: PhaseView,
    round: RoundView,
    id: Seq<char>,
    log: ParsedLog,
    l: InstanceParseLimits,
    sl: ScanParseLimits,
) -> (PhaseView, RoundView, VerdictView) {
    let decoded = log.diagnostics.decoded_bytes;
    let events = log.evidence@.len() as u64;
    let counted = bump(phase.parsed_count);
    match scan_retain_spec(phase.scan_budget, decoded, events, sl) {
        Err(resource) => (
            PhaseView {
                exhaustion: Some((resource, "scan_resource_limit_exceeded"@)),
                parsed_count: counted,
                ..phase
            },
            failed_round(round, id),
            VerdictView::ScanLimit(resource),
        ),
        Ok(()) => {
            let charged = ScanParseBudget {
                log_files: (phase.scan_budget.log_files + 1) as usize,
                decompressed_bytes: (phase.scan_budget.decompressed_bytes + decoded) as u64,
                evidence_events: (phase.scan_budget.evidence_events + events) as u64,
                ..phase.scan_budget
            };
            let next_phase = PhaseView { scan_budget: charged, parsed_count: counted, ..phase };
            match payload_check(log, l) {
                Err(resource) => (next_phase, failed_round(round, id), VerdictView::InstanceLimit(resource)),
                Ok(()) => match instance_retain_spec(round.budget, decoded, events, l) {
                    Err(resource) => (next_phase, failed_round(round, id), VerdictView::InstanceLimit(resource)),
                    Ok(()) => (
                        next_phase,
                        RoundView {
                            budget: InstanceParseBudget {
                                retained_logs: (round.budget.retained_logs + 1) as usize,
                                decompressed_bytes: (round.budget.decompressed_bytes + decoded) as u64,
                                evidence_events: (round.budget.evidence_events + events) as u64,
                            },
                            ..round
                        },
                        VerdictView::Retained(has_parse_warnings(log.diagnostics)),
                    ),
                },
            }
        },
    }
}

/// How reading a log failed.
#[derive(Clone, Copy, PartialEq, Eq, Debug, Structural)]
pub enum ParseFailure {
    /// The file changed after it was fingerprinted.
    SnapshotChanged,
    /// The log ran over a per-log parsing limit.
    ResourceLimited,
    /// The log could not be read or decoded.
    Unreadable,
}

impl ParseFailure {
    /// How a log read ended that did not give a parsed log: over a parse
    /// limit when the reader reported one, else unreadable.
    pub fn from_read(limit: Option<LogParseLimitExceeded>) -> (r: ParseFailure)
        ensures
            r == (if limit is Some {
                ParseFailure::ResourceLimited
            } else {
                ParseFailure::Unreadable
            }),
    {
        match limit {
            Some(_) => ParseFailure::ResourceLimited,
            None => ParseFailure::Unreadable,
        }
    }
}

pub open spec fn failure_code(f: ParseFailure) -> Seq<char> {
    match f {
        ParseFailure::SnapshotChanged => "source_changed_during_parse"@,
        ParseFailure::ResourceLimited => "log_resource_limit_exceeded"@,
        ParseFailure::Unreadable => "log_read_failed"@,
    }
}

pub open spec fn failure_message(f: ParseFailure) -> Seq<char> {
    match f {
        ParseFailure::SnapshotChanged =>
            "A log changed after indexing, so its parsed evidence was discarded and previous sessions were preserved."@,
        ParseFailure::ResourceLimited =>
            "A log exceeded MineTrace's safe parsing limits; its previous sessions were preserved."@,
        ParseFailure::Unreadable => "A log could not be decoded; its previous sessions were preserved."@,
    }
}

/// The step a log that failed to parse takes: the source fails, and the
/// scan is charged as for a log that used a whole log's limits.
pub open spec fn failed_step(phase: PhaseView, round: RoundView, id: Seq<char>, sl: ScanParseLimits) -> (
    PhaseView,
    RoundView,
) {
    let counted = bump(phase.parsed_count);
    let next_phase = match scan_retain_spec(phase.scan_budget, 268_435_456, 250_000, sl) {
        Err(resource) => PhaseView {
            exhaustion: Some((resource, "scan_resource_limit_exceeded"@)),
            parsed_count: counted,
            ..phase
        },
        Ok(()) => PhaseView {
            scan_budget: ScanParseBudget {
                log_files: (phase.scan_budget.log_files + 1) as usize,
                decompressed_bytes: (phase.scan_budget.decompressed_bytes + 268_435_456) as u64,
                evidence_events: (phase.scan_budget.evidence_events + 250_000) as u64,
                ..phase.scan_budget
            },
            parsed_count: counted,
            ..phase
        },
    };
    (next_phase, failed_round(round, id))
}

impl InstanceRound {
    pub fn new() -> (r: InstanceRound)
        ensures
            r@ == (RoundView {
                budget: InstanceParseBudget { retained_logs: 0, decompressed_bytes: 0, evidence_events: 0 },
                failed: false,
                failed_sources: Seq::empty(),
            }),
    {
        let r = InstanceRound { budget: InstanceParseBudget::default(), failed: false, failed_sources: Vec::new() };
        assert(text_views(r.failed_sources@) =~= Seq::<Seq<char>>::empty());
        r
    }

    fn mark_failed(&mut self, id: &String)
        ensures
            final(self)@ == failed_round(old(self)@, id@),
    {
        self.failed = true;
        let ghost before = text_views(self.failed_sources@);
        self.failed_sources.push(id.clone());
        assert(text_views(self.failed_sources@) =~= before.push(id@));
    }

    /// Charges a parsed log to the scan and to the instance.
    pub fn on_parsed_log(
        &mut self,
        phase: &mut ParsePhase,
        source_revision_id: &String,
        log: &ParsedLog,
        limits: &InstanceParseLimits,
        scan_limits: &ScanParseLimits,
    ) -> (r: FileVerdict)
        ensures
            (final(phase)@, final(self)@, verdict_view(r)) == parsed_step(
                old(phase)@,
                old(self)@,
                source_revision_id@,
                *log,
                *limits,
                *scan_limits,
            ),
    {
        proof {
            reveal_strlit("scan_resource_limit_exceeded");
        }
        let decoded = log.diagnostics.decoded_bytes;
        let events = log.evidence.len() as u64;
        phase.parsed_count = phase.parsed_count.saturating_add(1);
        if let Err(resource) = phase.scan_budget.retain_log(decoded, events, scan_limits) {
            phase.exhaustion = Some(Exhaustion { resource, code: "scan_resource_limit_exceeded" });
            self.mark_failed(source_revision_id);
            return FileVerdict::ScanLimit(resource);
        }
        if let Err(resource) = InstanceParseBudget::validate_parsed_payload(log, limits) {
            self.mark_failed(source_revision_id);
            return FileVerdict::InstanceLimit(resource);
        }
        if let Err(resource) = self.budget.retain(decoded, events, limits) {
            self.mark_failed(source_revision_id);
            return FileVerdict::InstanceLimit(resource);
        }
        FileVerdict::Retained { warning: parser_has_warnings(log) }
    }

    /// Records a log that could not be parsed; returns the issue code and
    /// message, the code also being the source's failure mark.
    pub fn on_failed_log(
        &mut self,
        phase: &mut ParsePhase,
        source_revision_id: &String,
        failure: ParseFailure,
        scan_limits: &ScanParseLimits,
    ) -> (r: (&'static str, &'static str))
        ensures
            (final(phase)@, final(self)@) == failed_step(old(phase)@, old(self)@, source_revision_id@, *scan_limits),
            r.0@ == failure_code(failure),
            r.1@ == failure_message(failure),
    {
        proof {
            reveal_strlit("scan_resource_limit_exceeded");
            reveal_strlit("source_changed_during_parse");
            reveal_strlit("log_resource_limit_exceeded");
            reveal_strlit("log_read_failed");
            reveal_strlit(
                "A log changed after indexing, so its parsed evidence was discarded and previous sessions were preserved.",
            );
            reveal_strlit("A log exceeded MineTrace's safe parsing limits; its previous sessions were preserved.");
            reveal_strlit("A log could not be decoded; its previous sessions were preserved.");
        }
        self.mark_failed(source_revision_id);
        phase.parsed_count = phase.parsed_count.saturating_add(1);
        if let Err(resource) = phase.scan_budget.charge_failed_parse(scan_limits) {
            phase.exhaustion = Some(Exhaustion { resource, code: "scan_resource_limit_exceeded" });
        }
        match failure {
            ParseFailure::SnapshotChanged => (
                "source_changed_during_parse",
                "A log changed after indexing, so its parsed evidence was discarded and previous sessions were preserved.",
            ),
            ParseFailure::ResourceLimited => (
                "log_resource_limit_exceeded",
                "A log exceeded MineTrace's safe parsing limits; its previous sessions were preserved.",
            ),
            ParseFailure::Unreadable => (
                "log_read_failed",
                "A log could not be decoded; its previous sessions were preserved.",
            ),
        }
    }
}

/// Once the scan has run out of a resource it stays out: no later log step
/// clears the exhaustion, so every remaining rebuilt instance is deferred;
/// and once a source of an instance has failed, the instance stays failed
/// and keeps its prior sessions.
pub proof fn law_exhaustion_and_failure_persist(
    phase: PhaseView,
    round: RoundView,
    id: Seq<char>,
    log: ParsedLog,
    l: InstanceParseLimits,
    sl: ScanParseLimits,
)
    ensures
        phase.exhaustion is Some ==> parsed_step(phase, round, id, log, l, sl).0.exhaustion is Some,
        phase.exhaustion is Some ==> failed_step(phase, round, id, sl).0.exhaustion is Some,
        round.failed ==> parsed_step(phase, round, id, log, l, sl).1.failed,
        failed_step(phase, round, id, sl).1.failed,
        failed_step(phase, round, id, sl).1.failed_sources.contains(id),
{
    assert(failed_step(phase, round, id, sl).1.failed_sources.last() == id);
}

// ---------------------------------------------------------------------------
// After the logs of an instance are parsed

/// The contexts (destinations) of all sessions together.
pub open spec fn context_total(ss: Seq<ReconstructedSession>) -> int
    decreases ss.len(),
{
    if ss.len() == 0 {
        0
    } else {
        context_total(ss.drop_last()) + ss.last().destinations@.len()
    }
}

/// The context count charged to the scan: the total, or `usize::MAX` where
/// the total does not fit.
pub open spec fn contexts_counted(ss: Seq<ReconstructedSession>) -> usize {
    if context_total(ss) > usize::MAX { usize::MAX } else { context_total(ss) as usize }
}

proof fn lemma_context_total_grows(ss: Seq<ReconstructedSession>, i: int, j: int)
    requires
        0 <= i <= j <= ss.len(),
    ensures
        context_total(ss.take(i)) <= context_total(ss.take(j)),
    decreases j - i,
{
    if i < j {
        assert(ss.take(j).drop_last() =~= ss.take(j - 1));
        lemma_context_total_grows(ss, i, j - 1);
    }
}

/// Counts the contexts of `sessions`, giving `usize::MAX` on overflow.
pub fn count_contexts(sessions: &[ReconstructedSession]) -> (r: usize)
    ensures
        r == contexts_counted(sessions@),
{
    let mut total: usize = 0;
    let mut i: usize = 0;
    while i < sessions.len()
        invariant
            i <= sessions@.len(),
            total == context_total(sessions@.take(i as int)),
        decreases sessions@.len() - i,
    {
        assert(sessions@.take(i + 1).drop_last() =~= sessions@.take(i as int));
        match total.checked_add(sessions[i].destinations.len()) {
            Some(t) => {
                total = t;
            },
            None => {
                proof {
                    lemma_context_total_grows(sessions@, i + 1, sessions@.len() as int);
                    assert(sessions@.take(sessions@.len() as int) =~= sessions@);
                }
                return usize::MAX;
            },
        }
        i += 1;
    }
    assert(sessions@.take(sessions@.len() as int) =~= sessions@);
    total
}

/// What becomes of an instance's reconstruction before it is framed.
#[derive(Clone, Copy, PartialEq, Eq, Debug)]
pub enum RebuildVerdict {
    /// It goes on to be framed and checked against the archive.
    Stage,
    /// It breaks a per-instance limit; the instance keeps its prior sessions.
    InstanceLimit(&'static str),
    /// It would exhaust the scan; this and all remaining instances are deferred.
    ScanLimit(&'static str),
}

/// Checks an instance's sessions against its own limits, then charges them
/// to the scan.
pub fn check_reconstruction(
    phase: &mut ParsePhase,
    sessions: &[ReconstructedSession],
    limits: &InstanceParseLimits,
    scan_limits: &ScanParseLimits,
) -> (r: RebuildVerdict)
    ensures
        reconstruction_check(session_views(sessions@), *limits) is Err ==> final(phase)@ == old(phase)@
            && r is InstanceLimit && Err::<(), Seq<char>>(r->InstanceLimit_0@) == reconstruction_check(
            session_views(sessions@),
            *limits,
        ),
        reconstruction_check(session_views(sessions@), *limits) is Ok ==> match scan_reconstruction_spec(
            old(phase).scan_budget,
            sessions@.len() as usize,
            contexts_counted(sessions@),
            *scan_limits,
        ) {
            Err(resource) => r is ScanLimit && r->ScanLimit_0@ == resource && final(phase)@ == (PhaseView {
                exhaustion: Some((resource, "scan_resource_limit_exceeded"@)),
                ..old(phase)@
            }),
            Ok(()) => r == RebuildVerdict::Stage && final(phase)@ == (PhaseView {
                scan_budget: ScanParseBudget {
                    reconstructed_sessions: (old(phase).scan_budget.reconstructed_sessions + sessions@.len()) as usize,
                    contexts: (old(phase).scan_budget.contexts + contexts_counted(sessions@)) as usize,
                    ..old(phase).scan_budget
                },
                ..old(phase)@
            }),
        },
{
    proof {
        reveal_strlit("scan_resource_limit_exceeded");
    }
    if let Err(resource) = InstanceParseBudget::validate_reconstruction(sessions, limits) {
        return RebuildVerdict::InstanceLimit(resource);
    }
    let contexts = count_contexts(sessions);
    if let Err(resource) = phase.scan_budget.retain_reconstruction(sessions.len(), contexts, scan_limits) {
        phase.exhaustion = Some(Exhaustion { resource, code: "scan_resource_limit_exceeded" });
        return RebuildVerdict::ScanLimit(resource);
    }
    RebuildVerdict::Stage
}

/// What becomes of a framed payload.
#[derive(Clone, Copy, PartialEq, Eq, Debug)]
pub enum ArchiveVerdict {
    /// It is staged for promotion.
    Stage,
    /// The instance's archive would hold too many sessions; it keeps its
    /// prior sessions.
    InstanceArchiveFull,
    /// The global archive would run over; this and all remaining instances
    /// are deferred.
    GlobalLimit(&'static str),
}

/// Checks a payload against the archive: first the instance's own session
/// limit (as the archive reported it), then the global budget.
pub fn check_archive(
    phase: &mut ParsePhase,
    archive: &mut CanonicalArchiveBudget,
    payload: &ReconstructionPayload,
    within_instance_limit: bool,
    limits: &CanonicalArchiveLimits,
) -> (r: ArchiveVerdict)
    ensures
        !within_instance_limit ==> r == ArchiveVerdict::InstanceArchiveFull && final(phase)@ == old(phase)@
            && final(archive).view_of() == old(archive).view_of(),
        within_instance_limit ==> match retain_payload_spec(
            old(archive).view_of(),
            session_ids_of(payload.sessions@),
            payload.sessions@,
            payload.instance_id@,
            payload.replace_all_instance_evidence,
            *limits,
        ) {
            Err(resource) => r is GlobalLimit && r->GlobalLimit_0@ == resource && final(phase)@ == (PhaseView {
                exhaustion: Some((resource, "global_archive_resource_limit_exceeded"@)),
                ..old(phase)@
            }) && *final(archive) == *old(archive),
            Ok(()) => r == ArchiveVerdict::Stage && final(phase)@ == old(phase)@ && final(archive).view_of()
                == retained_view(
                old(archive).view_of(),
                session_ids_of(payload.sessions@),
                payload.sessions@,
                payload.instance_id@,
                payload.replace_all_instance_evidence,
            ),
        },
{
    proof {
        reveal_strlit("global_archive_resource_limit_exceeded");
    }
    if !within_instance_limit {
        return ArchiveVerdict::InstanceArchiveFull;
    }
    if let Err(resource) = archive.retain_payload(payload, limits) {
        phase.exhaustion = Some(Exhaustion { resource, code: "global_archive_resource_limit_exceeded" });
        return ArchiveVerdict::GlobalLimit(resource);
    }
    ArchiveVerdict::Stage
}

// ---------------------------------------------------------------------------
// Issue messages

/// "The remaining instances were deferred after the safe {resource} limit was reached; ..."
pub fn deferred_message(resource: &str) -> (r: String)
    ensures
        r@ == "The remaining instances were deferred after the safe "@ + resource@
            + " limit was reached; their previous sessions were preserved."@,
{
    concat3(
        "The remaining instances were deferred after the safe ",
        resource,
        " limit was reached; their previous sessions were preserved.",
    )
}

/// "This instance exceeded the safe {resource} limit ({max} logs); ..."
pub fn log_count_message(resource: &str, max_logs: usize) -> (r: String)
    ensures
        r@ == "This instance exceeded the safe "@ + resource@ + " limit ("@ + decimal_of(max_logs as nat)
            + " logs); its previous sessions were preserved."@,
{
    let head = concat3("This instance exceeded the safe ", resource, " limit (");
    concat_number(head.as_str(), max_logs as u64, " logs); its previous sessions were preserved.")
}

/// "The scan reached its safe {resource} limit; ..."
pub fn scan_limit_message(resource: &str) -> (r: String)
    ensures
        r@ == "The scan reached its safe "@ + resource@
            + " limit; this instance and all remaining instances were deferred."@,
{
    concat3(
        "The scan reached its safe ",
        resource,
        " limit; this instance and all remaining instances were deferred.",
    )
}

/// "This instance exceeded the aggregate {resource} limit; ..."
pub fn aggregate_limit_message(resource: &str) -> (r: String)
    ensures
        r@ == "This instance exceeded the aggregate "@ + resource@
            + " limit; its previous sessions were preserved."@,
{
    concat3("This instance exceeded the aggregate ", resource, " limit; its previous sessions were preserved.")
}

/// "This instance exceeded the safe {resource} limit; ..."
pub fn instance_limit_message(resource: &str) -> (r: String)
    ensures
        r@ == "This instance exceeded the safe "@ + resource@ + " limit; its previous sessions were preserved."@,
{
    concat3("This instance exceeded the safe ", resource, " limit; its previous sessions were preserved.")
}

/// "This instance would exceed the safe canonical session archive limit ({max} sessions); ..."
pub fn archive_full_message(max_sessions: usize) -> (r: String)
    ensures
        r@ == "This instance would exceed the safe canonical session archive limit ("@ + decimal_of(
            max_sessions as nat,
        ) + " sessions); its previous sessions were preserved."@,
{
    concat_number(
        "This instance would exceed the safe canonical session archive limit (",
        max_sessions as u64,
        " sessions); its previous sessions were preserved.",
    )
}

/// "The global {resource} limit would be exceeded; ..."
pub fn global_limit_message(resource: &str) -> (r: String)
    ensures
        r@ == "The global "@ + resource@
            + " limit would be exceeded; this instance and all remaining instances were deferred."@,
{
    concat3(
        "The global ",
        resource,
        " limit would be exceeded; this instance and all remaining instances were deferred.",
    )
}

/// The stored progress counters of a status, as the JSON object text that
/// `serde_json` writes for them (keys in sorted order).
pub open spec fn counters_json_spec(current: u64, total: u64, warnings: u64, errors: u64) -> Seq<char> {
    "{\"current\":"@ + decimal_of(current as nat) + ",\"errors\":"@ + decimal_of(errors as nat)
        + ",\"total\":"@ + decimal_of(total as nat) + ",\"warnings\":"@ + decimal_of(warnings as nat) + "}"@
}

pub fn counters_json(status: &ScanStatus) -> (r: String)
    ensures
        r@ == counters_json_spec(status.current, status.total, status.warnings, status.errors),
{
    let a = concat_number("{\"current\":", status.current, ",\"errors\":");
    let b = concat_number(a.as_str(), status.errors, ",\"total\":");
    let c = concat_number(b.as_str(), status.total, ",\"warnings\":");
    concat_number(c.as_str(), status.warnings, "}")
}

// ---------------------------------------------------------------------------
// Ending a run

/// How a worker run ended.
pub enum WorkerOutcome {
    /// The reconstruction was promoted as this dataset revision.
    Promoted(i64),
    /// Cancellation was confirmed before promotion.
    Cancelled,
    /// The run failed; the text is the message shown to the user.
    Failed(String),
}

pub open spec fn failure_text(error: BackendError) -> Seq<char> {
    match error {
        BackendError::InvalidLocation { .. } => "An approved location is no longer a supported Minecraft directory."@,
        BackendError::Io { .. } => "A local file could not be read. The prior archive remains unchanged."@,
        BackendError::Database =>
            "The local archive database could not complete the scan. The prior archive remains unchanged."@,
        BackendError::MigrationChecksum { .. } =>
            "The local archive schema could not be verified. The prior archive remains unchanged."@,
        BackendError::BackgroundTask(_) => "The scan stopped before promotion. The prior archive remains unchanged."@,
    }
}

/// The message shown for a failed scan; it never carries paths or error details.
pub fn user_facing_scan_error(error: &BackendError) -> (r: String)
    ensures
        r@ == failure_text(*error),
{
    let s: &str = match error {
        BackendError::InvalidLocation { .. } => "An approved location is no longer a supported Minecraft directory.",
        BackendError::Io { .. } => "A local file could not be read. The prior archive remains unchanged.",
        BackendError::Database =>
            "The local archive database could not complete the scan. The prior archive remains unchanged.",
        BackendError::MigrationChecksum { .. } =>
            "The local archive schema could not be verified. The prior archive remains unchanged.",
        BackendError::BackgroundTask(_) => "The scan stopped before promotion. The prior archive remains unchanged.",
    };
    proof {
        reveal_strlit("An approved location is no longer a supported Minecraft directory.");
        reveal_strlit("A local file could not be read. The prior archive remains unchanged.");
        reveal_strlit(
            "The local archive database could not complete the scan. The prior archive remains unchanged.",
        );
        reveal_strlit("The local archive schema could not be verified. The prior archive remains unchanged.");
        reveal_strlit("The scan stopped before promotion. The prior archive remains unchanged.");
    }
    s.to_owned()
}

pub open spec fn promoted_text() -> Seq<char> {
    "The local archive was updated from source-backed session evidence."@
}

pub open spec fn cancelled_text() -> Seq<char> {
    "Cancellation confirmed before promotion; the prior archive remains unchanged."@
}

pub open spec fn spawn_failed_text() -> Seq<char> {
    "The local scan worker could not start."@
}

pub open spec fn cancel_pending_text() -> Seq<char> {
    "Cancellation requested; waiting for the current read to stop safely."@
}

pub open spec fn concluded(s: StatusView, outcome: WorkerOutcome, now: Seq<char>) -> StatusView {
    match outcome {
        WorkerOutcome::Promoted(revision) => StatusView {
            state: ScanState::Completed,
            phase: ScanPhase::Complete,
            current: s.total,
            current_path: None,
            message: Some(promoted_text()),
            finished_at: Some(now),
            dataset_revision: Some(if revision < 0 { 0u64 } else { revision as u64 }),
            ..s
        },
        WorkerOutcome::Cancelled => StatusView {
            state: ScanState::Cancelled,
            phase: ScanPhase::Cancelled,
            current_path: None,
            message: Some(cancelled_text()),
            finished_at: Some(now),
            ..s
        },
        WorkerOutcome::Failed(message) => StatusView {
            state: ScanState::Failed,
            phase: ScanPhase::Failed,
            current_path: None,
            message: Some(message@),
            finished_at: Some(now),
            ..s
        },
    }
}

impl ScanStatus {
    /// Leaves the status as a finished run leaves it.
    pub fn conclude(&mut self, outcome: WorkerOutcome, now: String)
        ensures
            final(self)@ == concluded(old(self)@, outcome, now@),
    {
        proof {
            reveal_strlit("The local archive was updated from source-backed session evidence.");
            reveal_strlit("Cancellation confirmed before promotion; the prior archive remains unchanged.");
        }
        match outcome {
            WorkerOutcome::Promoted(revision) => {
                self.state = ScanState::Completed;
                self.phase = ScanPhase::Complete;
                self.current = self.total;
                self.current_path = None;
                self.message = Some(
                    "The local archive was updated from source-backed session evidence.".to_owned(),
                );
                self.finished_at = Some(now);
                self.dataset_revision = Some(if revision < 0 { 0u64 } else { revision as u64 });
            },
            WorkerOutcome::Cancelled => {
                self.state = ScanState::Cancelled;
                self.phase = ScanPhase::Cancelled;
                self.current_path = None;
                self.message = Some(
                    "Cancellation confirmed before promotion; the prior archive remains unchanged.".to_owned(),
                );
                self.finished_at = Some(now);
            },
            WorkerOutcome::Failed(message) => {
                self.state = ScanState::Failed;
                self.phase = ScanPhase::Failed;
                self.current_path = None;
                self.message = Some(message);
                self.finished_at = Some(now);
            },
        }
    }

    /// Leaves the status as a worker that could not be started leaves it;
    /// at least one error is counted.
    pub fn fail_to_start(&mut self, now: String)
        ensures
            final(self)@ == (StatusView {
                state: ScanState::Failed,
                phase: ScanPhase::Failed,
                errors: if old(self).errors == 0 { 1 } else { old(self).errors },
                message: Some(spawn_failed_text()),
                finished_at: Some(now@),
                ..old(self)@
            }),
    {
        proof {
            reveal_strlit("The local scan worker could not start.");
        }
        self.state = ScanState::Failed;
        self.phase = ScanPhase::Failed;
        if self.errors == 0 {
            self.errors = 1;
        }
        self.message = Some("The local scan worker could not start.".to_owned());
        self.finished_at = Some(now);
    }

    /// Notes that cancellation was asked for and has not taken effect yet.
    pub fn note_cancel_pending(&mut self)
        ensures
            final(self)@ == (StatusView { message: Some(cancel_pending_text()), ..old(self)@ }),
    {
        proof {
            reveal_strlit("Cancellation requested; waiting for the current read to stop safely.");
        }
        self.message = Some("Cancellation requested; waiting for the current read to stop safely.".to_owned());
    }

    /// A status that was never started in this process: the last finished
    /// scan in the archive is shown in its place.
    pub fn awaits_restore(&self) -> (r: bool)
        ensures
            r == (self.phase == ScanPhase::Idle && self.id@.len() == 0),
    {
        self.phase == ScanPhase::Idle && self.id.as_str().is_empty()
    }
}

} // verus!
