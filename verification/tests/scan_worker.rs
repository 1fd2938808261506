use minetrace::api::error::BackendError;
use minetrace::application::archive_budget::{CanonicalArchiveBudget, CanonicalArchiveLimits};
use minetrace::application::instance_groups::InstanceGroup;
use minetrace::application::parse_budget::{InstanceParseLimits, ScanParseLimits};
use minetrace::application::payload::{build_payload, StoredInstance};
use minetrace::application::scan_models::{ScanMode, ScanPhase, ScanState, ScanStatus};
use minetrace::application::scan_worker::{
    add_candidate_total, add_unobserved_instances, archive_full_message, changed_sources, check_archive,
    check_reconstruction, counters_json, deferred_message, files_to_parse, global_limit_message, instance_gate,
    inventory_scope_key, inventory_warning_issue, log_count_message, plan_instance, scan_limit_message,
    snapshot_still_matches, sources_deferred_with_instance, sources_settled_unparsed, staged_source_for,
    storage_mode, user_facing_scan_error, ArchiveVerdict, FileVerdict, InstanceGate, InstancePlan,
    InstanceRound, InventoryWarningKind, ParseFailure, ParsePhase, RebuildVerdict, WorkerOutcome,
};
use minetrace::calendar::CalendarDate;
use minetrace::parser::log_reader::LogReader;
use minetrace::parser::minecraft_log::{LogParseContext, LogParseLimits, ParsedLog};
use minetrace::parser::session_reconstruction::reconstruct_sessions;
use minetrace::scan::model::{
    FileDecision, FileFingerprint, LogCandidate, LogFileKind, ScanMode as StoredMode, StagedSource,
};

const CLEAN_LOG: &[u8] = b"[10:00:00] [main/INFO]: Loading Minecraft 1.20.1 with Fabric Loader\n\
[10:00:01] [Render thread/INFO]: Connecting to play.example.net, 25565\n\
[10:30:00] [Render thread/INFO]: Stopping!\n";

fn parse(bytes: &[u8], source_id: &str) -> ParsedLog {
    let context = LogParseContext::new(source_id, 0)
        .with_date_hint(CalendarDate { year: 2026, month: 8, day: 11 })
        .with_utc_offset(0);
    let mut reader = LogReader::new(context, LogParseLimits::default());
    let mut rest = bytes;
    while !rest.is_empty() {
        let taken = reader.push(rest).expect("within limits");
        rest = &rest[taken..];
    }
    reader.finish().expect("parses")
}

fn fingerprint(size: u64) -> FileFingerprint {
    FileFingerprint {
        size_bytes: size,
        modified_at_ms: 1_000,
        birthtime_ms: Some(500),
        prefix_hash: [1; 32],
        full_hash: [2; 32],
        comparison_prefix_len: None,
        comparison_prefix_hash: None,
    }
}

fn source(revision: &str, path: &str, decision: FileDecision) -> StagedSource {
    StagedSource {
        instance_id: Some("inst".to_owned()),
        source_path_id: format!("path-{revision}"),
        source_revision_id: revision.to_owned(),
        relative_path: path.to_owned(),
        kind: LogFileKind::Log,
        decision,
        generation: 1,
        fingerprint: fingerprint(10),
    }
}

fn status() -> ScanStatus {
    let mut s = ScanStatus::queued("scan-1".to_owned(), ScanMode::Standard);
    s.total = 7;
    s.current = 3;
    s.current_path = Some("logs/latest.log".to_owned());
    s
}

fn candidate(path: &str) -> LogCandidate {
    LogCandidate {
        approved_root: "/root".to_owned(),
        absolute_path: format!("/root/{path}"),
        relative_path: path.to_owned(),
        relative_path_key: path.as_bytes().to_vec(),
        kind: LogFileKind::Log,
        observed_size_bytes: 1,
    }
}

#[test]
fn quick_and_standard_rebuild_only_changed_instances_and_deep_rebuilds_any_with_logs() {
    let unchanged = vec![source("a", "logs/a.log", FileDecision::Unchanged)];
    let appended = vec![
        source("a", "logs/a.log", FileDecision::Unchanged),
        source("b", "logs/b.log", FileDecision::Appended),
    ];
    assert!(!plan_instance(ScanMode::Quick, 1, &unchanged, false, false).should_reconstruct);
    assert!(!plan_instance(ScanMode::Standard, 1, &unchanged, false, false).should_reconstruct);
    assert!(plan_instance(ScanMode::Deep, 1, &unchanged, false, false).should_reconstruct);
    assert!(!plan_instance(ScanMode::Deep, 0, &unchanged, false, false).should_reconstruct);
    assert!(plan_instance(ScanMode::Quick, 2, &appended, false, false).should_reconstruct);
}

#[test]
fn history_is_replaced_whole_only_by_a_complete_scan_with_every_source() {
    let clean = vec![source("a", "logs/a.log", FileDecision::New)];
    let replaced = vec![source("a", "logs/a.log", FileDecision::Replaced)];
    assert_eq!(
        plan_instance(ScanMode::Standard, 1, &clean, false, false),
        InstancePlan { replace_all: true, should_reconstruct: true }
    );
    assert!(!plan_instance(ScanMode::Quick, 1, &clean, false, false).replace_all);
    assert!(!plan_instance(ScanMode::Standard, 1, &clean, true, false).replace_all);
    assert!(!plan_instance(ScanMode::Standard, 1, &replaced, false, false).replace_all);
    assert!(!plan_instance(ScanMode::Deep, 1, &clean, false, true).replace_all);
}

#[test]
fn staged_sources_are_marked_by_decision() {
    let sources = vec![
        source("a", "logs/a.log", FileDecision::Unchanged),
        source("b", "logs/b.log", FileDecision::New),
        source("c", "logs/c.log", FileDecision::Replaced),
    ];
    assert_eq!(sources_settled_unparsed(true, &sources), vec![0]);
    assert_eq!(sources_settled_unparsed(false, &sources), vec![0, 1, 2]);
    assert_eq!(changed_sources(&sources), vec![1, 2]);
    assert_eq!(sources_deferred_with_instance(&sources, &vec!["b".to_owned()]), vec![2]);
}

#[test]
fn a_log_is_matched_to_the_last_staged_source_with_its_key() {
    let sources = vec![
        source("a", "logs/a.log", FileDecision::New),
        source("b", "logs/b.log", FileDecision::New),
        source("c", "logs/a.log", FileDecision::New),
    ];
    assert_eq!(staged_source_for(&sources, b"logs/a.log"), Some(2));
    assert_eq!(staged_source_for(&sources, b"logs/b.log"), Some(1));
    assert_eq!(staged_source_for(&sources, b"logs/z.log"), None);
}

#[test]
fn inventory_warnings_and_scope_keys() {
    assert_eq!(
        inventory_warning_issue(InventoryWarningKind::SymlinkSkipped),
        ("inventory_symlink_skipped", "A symbolic link was skipped because MineTrace does not follow links.")
    );
    assert_eq!(inventory_warning_issue(InventoryWarningKind::FileTooLarge).0, "inventory_file_too_large");
    assert_eq!(inventory_scope_key(ScanMode::Quick, "i1"), "quick:i1");
    assert_eq!(inventory_scope_key(ScanMode::Deep, "i1"), "complete:i1");
    assert_eq!(storage_mode(ScanMode::Standard), StoredMode::Standard);
}

#[test]
fn stored_instances_that_were_not_seen_are_added_without_logs() {
    let mut groups = vec![InstanceGroup {
        relative_root: "instances/A".to_owned(),
        name: "A".to_owned(),
        candidates: vec![candidate("instances/A/logs/latest.log")],
    }];
    let stored = vec![
        ("instances/A".to_owned(), "A".to_owned()),
        ("instances/B".to_owned(), "B".to_owned()),
    ];
    add_unobserved_instances(&mut groups, &stored);
    assert_eq!(groups.len(), 2);
    assert_eq!(groups[1].relative_root, "instances/B");
    assert!(groups[1].candidates.is_empty());
    assert_eq!(add_candidate_total(5, &groups), 6);
    assert_eq!(add_candidate_total(u64::MAX, &groups), u64::MAX);
}

#[test]
fn the_parse_total_counts_only_rebuilt_instances() {
    let plans = vec![
        InstancePlan { replace_all: false, should_reconstruct: true },
        InstancePlan { replace_all: false, should_reconstruct: false },
        InstancePlan { replace_all: true, should_reconstruct: true },
    ];
    assert_eq!(files_to_parse(&plans, &[3, 10, 4]), 7);
}

#[test]
fn instance_gate_defers_everything_after_exhaustion() {
    let limits = InstanceParseLimits::default();
    let rebuild = InstancePlan { replace_all: false, should_reconstruct: true };
    let mut phase = ParsePhase::new();
    assert_eq!(instance_gate(&phase, rebuild, 3, &limits), InstanceGate::Parse);
    assert_eq!(
        instance_gate(&phase, InstancePlan { replace_all: false, should_reconstruct: false }, 3, &limits),
        InstanceGate::Skip
    );
    assert_eq!(instance_gate(&phase, rebuild, 4_097, &limits), InstanceGate::TooManyLogs("log file count"));
    let mut round = InstanceRound::new();
    let tight = ScanParseLimits { max_log_files: 0, ..ScanParseLimits::default() };
    let log = parse(CLEAN_LOG, "rev-1");
    let verdict = round.on_parsed_log(&mut phase, &"rev-1".to_owned(), &log, &limits, &tight);
    assert_eq!(verdict, FileVerdict::ScanLimit("scan log file count"));
    assert!(round.failed);
    assert_eq!(round.failed_sources, vec!["rev-1".to_owned()]);
    match instance_gate(&phase, rebuild, 1, &limits) {
        InstanceGate::Defer(e) => {
            assert_eq!(e.resource, "scan log file count");
            assert_eq!(e.code, "scan_resource_limit_exceeded");
        }
        other => panic!("expected deferral, got {other:?}"),
    }
}

#[test]
fn a_parsed_log_is_charged_to_the_scan_and_the_instance() {
    let limits = InstanceParseLimits::default();
    let scan_limits = ScanParseLimits::default();
    let mut phase = ParsePhase::new();
    let mut round = InstanceRound::new();
    let log = parse(CLEAN_LOG, "rev-1");
    let verdict = round.on_parsed_log(&mut phase, &"rev-1".to_owned(), &log, &limits, &scan_limits);
    assert_eq!(verdict, FileVerdict::Retained { warning: false });
    assert_eq!(phase.parsed_count, 1);
    assert_eq!(phase.scan_budget.log_files, 1);
    assert_eq!(phase.scan_budget.decompressed_bytes, CLEAN_LOG.len() as u64);
    assert_eq!(phase.scan_budget.evidence_events, log.evidence.len() as u64);
    assert_eq!(round.budget.retained_logs, 1);
    assert!(!round.failed);

    let small = InstanceParseLimits { max_evidence_events: 1, ..InstanceParseLimits::default() };
    let verdict = round.on_parsed_log(&mut phase, &"rev-2".to_owned(), &log, &small, &scan_limits);
    assert_eq!(verdict, FileVerdict::InstanceLimit("evidence event count"));
    assert_eq!(phase.scan_budget.log_files, 2);
    assert_eq!(round.budget.retained_logs, 1);
    assert!(round.failed);
}

#[test]
fn a_failed_log_is_charged_a_whole_log() {
    let scan_limits = ScanParseLimits::default();
    let mut phase = ParsePhase::new();
    let mut round = InstanceRound::new();
    let (code, message) = round.on_failed_log(&mut phase, &"rev-1".to_owned(), ParseFailure::SnapshotChanged, &scan_limits);
    assert_eq!(code, "source_changed_during_parse");
    assert!(message.starts_with("A log changed after indexing"));
    assert_eq!(phase.scan_budget.decompressed_bytes, 268_435_456);
    assert_eq!(phase.scan_budget.evidence_events, 250_000);
    assert!(phase.exhaustion.is_none());
    let (code, _) = round.on_failed_log(&mut phase, &"rev-2".to_owned(), ParseFailure::ResourceLimited, &scan_limits);
    assert_eq!(code, "log_resource_limit_exceeded");
    let (code, _) = round.on_failed_log(&mut phase, &"rev-3".to_owned(), ParseFailure::Unreadable, &scan_limits);
    assert_eq!(code, "log_read_failed");
    assert_eq!(round.failed_sources.len(), 3);
    assert_eq!(phase.parsed_count, 3);
}

#[test]
fn reconstruction_and_archive_checks() {
    let limits = InstanceParseLimits::default();
    let log = parse(CLEAN_LOG, "rev-1");
    let reconstruction = reconstruct_sessions(std::slice::from_ref(&log));
    let mut phase = ParsePhase::new();
    let verdict = check_reconstruction(&mut phase, &reconstruction.sessions, &limits, &ScanParseLimits::default());
    assert_eq!(verdict, RebuildVerdict::Stage);
    assert_eq!(phase.scan_budget.reconstructed_sessions, reconstruction.sessions.len());
    let none = ScanParseLimits { max_reconstructed_sessions: 0, ..ScanParseLimits::default() };
    let verdict = check_reconstruction(&mut phase, &reconstruction.sessions, &limits, &none);
    assert_eq!(verdict, RebuildVerdict::ScanLimit("scan reconstructed session count"));
    assert!(phase.exhaustion.is_some());

    let instance = StoredInstance { id: "inst".to_owned(), relative_root: String::new(), name: "A".to_owned() };
    let payload = build_payload(&instance, false, &Vec::new(), &vec![log.clone()], &reconstruction.sessions);
    assert_eq!(payload.sessions.len(), 1);
    let mut phase = ParsePhase::new();
    let mut archive = CanonicalArchiveBudget::new();
    let archive_limits = CanonicalArchiveLimits::default();
    assert_eq!(
        check_archive(&mut phase, &mut archive, &payload, false, &archive_limits),
        ArchiveVerdict::InstanceArchiveFull
    );
    assert_eq!(check_archive(&mut phase, &mut archive, &payload, true, &archive_limits), ArchiveVerdict::Stage);
    let full = CanonicalArchiveLimits { max_sessions: 0, ..CanonicalArchiveLimits::default() };
    let mut fresh = CanonicalArchiveBudget::new();
    match check_archive(&mut phase, &mut fresh, &payload, true, &full) {
        ArchiveVerdict::GlobalLimit(_) => {
            assert_eq!(phase.exhaustion.unwrap().code, "global_archive_resource_limit_exceeded");
        }
        other => panic!("expected the global limit, got {other:?}"),
    }
}

#[test]
fn issue_messages_name_the_resource() {
    assert_eq!(
        scan_limit_message("scan log file count"),
        "The scan reached its safe scan log file count limit; this instance and all remaining instances were deferred."
    );
    assert_eq!(
        log_count_message("log file count", 4096),
        "This instance exceeded the safe log file count limit (4096 logs); its previous sessions were preserved."
    );
    assert_eq!(
        archive_full_message(100_000),
        "This instance would exceed the safe canonical session archive limit (100000 sessions); its previous sessions were preserved."
    );
    assert_eq!(
        deferred_message("x"),
        "The remaining instances were deferred after the safe x limit was reached; their previous sessions were preserved."
    );
    assert_eq!(
        global_limit_message("global canonical session count"),
        "The global global canonical session count limit would be exceeded; this instance and all remaining instances were deferred."
    );
}

#[test]
fn a_finished_run_leaves_the_status_terminal() {
    let mut s = status();
    s.conclude(WorkerOutcome::Promoted(-3), "2026-01-01T00:00:00+00:00".to_owned());
    assert_eq!(s.state, ScanState::Completed);
    assert_eq!(s.phase, ScanPhase::Complete);
    assert_eq!(s.current, 7);
    assert_eq!(s.current_path, None);
    assert_eq!(s.dataset_revision, Some(0));
    assert_eq!(s.finished_at.as_deref(), Some("2026-01-01T00:00:00+00:00"));

    let mut s = status();
    s.conclude(WorkerOutcome::Cancelled, "t".to_owned());
    assert_eq!(s.state, ScanState::Cancelled);
    assert_eq!(s.current, 3);
    assert_eq!(
        s.message.as_deref(),
        Some("Cancellation confirmed before promotion; the prior archive remains unchanged.")
    );

    let mut s = status();
    s.conclude(WorkerOutcome::Failed(user_facing_scan_error(&BackendError::Database)), "t".to_owned());
    assert_eq!(s.phase, ScanPhase::Failed);
    assert_eq!(
        s.message.as_deref(),
        Some("The local archive database could not complete the scan. The prior archive remains unchanged.")
    );

    let mut s = status();
    s.fail_to_start("t".to_owned());
    assert_eq!(s.errors, 1);
    assert_eq!(s.state, ScanState::Failed);
    assert_eq!(s.message.as_deref(), Some("The local scan worker could not start."));
}

#[test]
fn status_counters_are_stored_as_sorted_json() {
    let mut s = status();
    s.warnings = 2;
    s.errors = 11;
    assert_eq!(counters_json(&s), r#"{"current":3,"errors":11,"total":7,"warnings":2}"#);
}

#[test]
fn an_unstarted_status_is_restored_from_the_archive() {
    assert!(ScanStatus::idle().awaits_restore());
    assert!(!status().awaits_restore());
    let mut s = status();
    s.note_cancel_pending();
    assert_eq!(
        s.message.as_deref(),
        Some("Cancellation requested; waiting for the current read to stop safely.")
    );
}

#[test]
fn a_snapshot_matches_only_the_same_generation() {
    let staged = fingerprint(10);
    assert!(snapshot_still_matches(&fingerprint(10), &staged));
    assert!(!snapshot_still_matches(&fingerprint(11), &staged));
    let mut changed = fingerprint(10);
    changed.full_hash[31] = 9;
    assert!(!snapshot_still_matches(&changed, &staged));
}
