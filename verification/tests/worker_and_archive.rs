use minetrace::api::error::BackendError;
use minetrace::application::archive_budget::{CanonicalArchiveBudget, CanonicalArchiveLimits};
use minetrace::application::dashboard_accumulator::{empty_archive_state, session_page};
use minetrace::application::dashboard_service::StoredSession;
use minetrace::application::read_models::ArchiveState;
use minetrace::application::scan_models::ScanPhase;
use minetrace::application::scan_worker::{
    enabled_installations, no_readable_location, phase_message, worker_issue, WorkerIssue,
};
use minetrace::domain::confidence::Confidence;
use minetrace::domain::location::{AdapterKind, DiscoveredInstallation, PlatformKind};

fn install(name: &str, enabled: bool) -> DiscoveredInstallation {
    DiscoveredInstallation {
        id: format!("loc_{name}"),
        name: name.to_owned(),
        kind_label: "Custom".to_owned(),
        adapter_kind: AdapterKind::Manual,
        path: format!("/games/{name}"),
        instances: 1,
        confidence: Confidence::Verified,
        validation_score: 90,
        enabled,
        platform: PlatformKind::Linux,
        origin: "custom",
    }
}

fn stored(id: &str) -> StoredSession {
    StoredSession {
        id: id.to_owned(),
        started_at_ms: 1_700_000_000_000,
        ended_at_ms: Some(1_700_000_600_000),
        duration_seconds: Some(600),
        exit_kind: "clean".to_owned(),
        confidence: "verified".to_owned(),
        instance: "Vanilla".to_owned(),
        version: "1.20.1".to_owned(),
        loader: None,
        launcher: "official".to_owned(),
        kind: "singleplayer".to_owned(),
        destination: "World".to_owned(),
        source: "logs/latest.log".to_owned(),
        utc_offset_minutes: Some(0),
        server_destinations: Vec::new(),
        world_destinations: vec!["World".to_owned()],
    }
}

#[test]
fn the_worker_names_each_phase_and_issue() {
    assert_eq!(phase_message(ScanPhase::Discovering), "Resolving approved launcher and instance roots.");
    assert_eq!(
        phase_message(ScanPhase::Aggregating),
        "Promoting the completed reconstruction in one database transaction."
    );
    assert_eq!(worker_issue(WorkerIssue::LogFingerprintFailed).0, "log_fingerprint_failed");
    assert_eq!(
        worker_issue(WorkerIssue::LogParseWarning).1,
        "A log contained malformed or incomplete lines; usable evidence was retained."
    );
}

#[test]
fn a_scan_covers_only_enabled_locations() {
    let kept = enabled_installations(vec![install("a", true), install("b", false), install("c", true)])
        .expect("two enabled locations");
    let names: Vec<_> = kept.iter().map(|i| i.name.as_str()).collect();
    assert_eq!(names, vec!["a", "c"]);
    match enabled_installations(vec![install("b", false)]) {
        Err(BackendError::BackgroundTask(message)) => {
            assert_eq!(message, "No enabled Minecraft locations are available to scan.")
        }
        _ => panic!("expected a failure"),
    }
    match no_readable_location() {
        BackendError::BackgroundTask(message) => {
            assert_eq!(message, "No approved Minecraft location remained readable when scanning began.")
        }
        _ => panic!("expected a background failure"),
    }
}

#[test]
fn the_archive_budget_is_loaded_from_its_rows() {
    let limits = CanonicalArchiveLimits::default();
    let rows = vec![
        ("s1".to_owned(), "i1".to_owned()),
        ("s2".to_owned(), "i2".to_owned()),
        ("s1".to_owned(), "i1".to_owned()),
        ("s3".to_owned(), "i1".to_owned()),
    ];
    let contexts = vec![("i1".to_owned(), 4), ("i2".to_owned(), -3), ("i1".to_owned(), 5)];
    let budget = CanonicalArchiveBudget::from_archive(3, 9, &rows, &contexts, &limits);
    assert!(!budget.already_over_limit);
    assert_eq!(budget.session_ids, vec!["s1".to_owned(), "s2".to_owned(), "s3".to_owned()]);
    assert_eq!(budget.session_ids_by_instance.len(), 2);
    assert_eq!(budget.session_ids_by_instance[0].instance_id, "i1");
    assert_eq!(budget.session_ids_by_instance[0].session_ids, vec!["s1".to_owned(), "s3".to_owned()]);
    assert_eq!(budget.contexts, 9);
    assert_eq!(budget.contexts_by_instance, vec![("i1".to_owned(), 5), ("i2".to_owned(), 0)]);

    let small = CanonicalArchiveLimits { max_sessions: 2, ..CanonicalArchiveLimits::default() };
    let over = CanonicalArchiveBudget::from_archive(3, 9, &rows, &contexts, &small);
    assert!(over.already_over_limit);
    assert!(over.session_ids.is_empty());
    assert_eq!(over.contexts, 9);
}

#[test]
fn the_session_page_reports_truncation_truthfully() {
    let sessions = vec![stored("a"), stored("b")];
    let page = session_page(5, 3, &sessions);
    assert_eq!(page.items.len(), 2);
    assert_eq!(page.items[0].id, "a");
    assert_eq!(page.total, 5);
    assert!(page.truncated);
    let exact = session_page(2, 3, &sessions);
    assert!(!exact.truncated);
    let unpromoted = session_page(0, 0, &sessions);
    assert!(unpromoted.items.is_empty());
    assert!(!unpromoted.truncated);
    assert_eq!(empty_archive_state(true), ArchiveState::ScannedNoEvidence);
    assert_eq!(empty_archive_state(false), ArchiveState::Unscanned);
}
