use minetrace::application::dashboard_service::{
    add_runtime, display_launcher, month_from_index, month_index, months_inclusive, named,
    parse_confidence, session_bounds, top_runtime, weaker_confidence, IntervalUnion, RuntimeTotals,
    StoredSession,
};
use minetrace::application::explorer_service::{collect_bounded, empty_collection, nonnegative, score};
use minetrace::application::parse_budget::{
    InstanceParseBudget, InstanceParseLimits,
};
use minetrace::application::profile_service::{
    availability_rank, folder_name, named_value, normalize_uuid, texture_hash, WorldAvailability,
};
use minetrace::application::scan_models::{
    DurableCounters, ScanIssueSeverity, ScanMode, ScanPhase, ScanState, ScanStatus,
};
use minetrace::application::scan_service::{
    confidence_label, dated_rotation_key, evidence_role, evidence_tag, filename_date,
    format_utc_offset, is_latest_log, reconstructed_exit, redacted_path_label, timestamp_origin,
};
use minetrace::calendar::CalendarDate;
use minetrace::domain::confidence::Confidence;
use minetrace::encoding::{base64_encode, hex_prefix};
use minetrace::parser::minecraft_log::{EvidenceTag, TimestampOrigin};
use minetrace::parser::session_reconstruction::{ReconstructedExitKind, SessionEvidenceRole};
use minetrace::scan::model::{
    DurableScanSnapshot, FileDecision, LogFileKind, ParserStamp, ScanMessageSeverity,
    ScanMode as StoredMode, ScanState as StoredState, SourceParseStatus, StageSummary,
    StoredScanMessage,
};

#[test]
fn durable_interruption_restores_terminal_status_and_redacted_issues() {
    let snapshot = DurableScanSnapshot {
        id: "scan-recovered".to_owned(),
        mode: StoredMode::Standard,
        state: StoredState::Interrupted,
        counters_json: r#"{"current":3,"total":7,"warnings":1,"errors":0}"#.to_owned(),
        error_code: None,
        started_at_ms: Some(1_700_000_000_000),
        finished_at_ms: Some(1_700_000_001_000),
        dataset_revision_before: 4,
        dataset_revision_after: Some(4),
        warning_count: 1,
        error_count: 0,
        messages: vec![StoredScanMessage {
            severity: ScanMessageSeverity::Warning,
            code: "scan_interrupted".to_owned(),
            entity_ref: None,
            redacted_message: "The scan was interrupted before promotion.".to_owned(),
        }],
    };
    let counters = DurableCounters { current: 3, total: 7, warnings: 1, errors: 0 };
    let status = ScanStatus::from_durable(snapshot, counters);

    assert_eq!(status.state, ScanState::Interrupted);
    assert_eq!(status.phase, ScanPhase::Interrupted);
    assert_eq!(status.current, 3);
    assert_eq!(status.total, 7);
    assert_eq!(status.warnings, 1);
    assert_eq!(status.dataset_revision, Some(4));
    assert_eq!(status.issues.len(), 1);
    assert_eq!(status.issues[0].severity, ScanIssueSeverity::Warning);
    assert_eq!(status.issues[0].code, "scan_interrupted");
    assert_eq!(status.started_at.as_deref(), Some("2023-11-14T22:13:20+00:00"));
}

fn failed_snapshot(messages: usize) -> DurableScanSnapshot {
    DurableScanSnapshot {
        id: "scan-failed".to_owned(),
        mode: StoredMode::Quick,
        state: StoredState::Failed,
        counters_json: String::new(),
        error_code: Some("database_busy".to_owned()),
        started_at_ms: None,
        finished_at_ms: None,
        dataset_revision_before: -3,
        dataset_revision_after: None,
        warning_count: 0,
        error_count: 0,
        messages: (0..messages)
            .map(|i| StoredScanMessage {
                severity: ScanMessageSeverity::Warning,
                code: format!("w{i}"),
                entity_ref: Some(format!("logs/{i}.log")),
                redacted_message: "warning".to_owned(),
            })
            .collect(),
    }
}

#[test]
fn a_failed_scan_without_an_error_gains_one_and_keeps_the_newest_issues() {
    let counters = DurableCounters { current: 0, total: 0, warnings: 0, errors: 0 };
    let status = ScanStatus::from_durable(failed_snapshot(20), counters);
    assert_eq!(status.mode, ScanMode::Quick);
    assert_eq!(status.phase, ScanPhase::Failed);
    assert_eq!(status.issues.len(), 20);
    assert_eq!(status.issues[0].code, "w1");
    assert_eq!(status.issues[19].code, "database_busy");
    assert_eq!(status.issues[19].severity, ScanIssueSeverity::Error);
    assert_eq!(status.warnings, 19);
    assert_eq!(status.errors, 1);
    assert_eq!(status.dataset_revision, Some(0));
    assert_eq!(status.started_at, None);

    let many = ScanStatus::from_durable(failed_snapshot(25), counters);
    assert_eq!(many.issues.len(), 20);
    assert_eq!(many.issues[0].code, "w6");
}

#[test]
fn idle_and_queued_statuses() {
    let idle = ScanStatus::idle();
    assert_eq!(idle.phase, ScanPhase::Idle);
    assert!(idle.state.is_terminal());
    let queued = ScanStatus::queued("scan-1".to_owned(), ScanMode::Deep);
    assert_eq!(queued.state, ScanState::Queued);
    assert!(!queued.state.is_terminal());
    assert_eq!(queued.message.as_deref(), Some("Preparing approved locations"));
    assert_eq!(ScanPhase::Aggregating.as_str(), "aggregating");
}

#[test]
fn stored_names_parse_back() {
    for mode in [StoredMode::Quick, StoredMode::Standard, StoredMode::Deep] {
        assert_eq!(StoredMode::parse(mode.as_str()), Some(mode));
    }
    for decision in [
        FileDecision::New,
        FileDecision::Appended,
        FileDecision::Replaced,
        FileDecision::Unchanged,
        FileDecision::Reparse,
    ] {
        assert_eq!(FileDecision::parse(decision.as_str()), Some(decision));
        assert_eq!(decision.requires_parse(), decision != FileDecision::Unchanged);
    }
    for status in [
        SourceParseStatus::Pending,
        SourceParseStatus::Parsed,
        SourceParseStatus::Warning,
        SourceParseStatus::Failed,
    ] {
        assert_eq!(SourceParseStatus::parse(status.as_str()), Some(status));
    }
    assert_eq!(LogFileKind::parse("compressed_log"), Some(LogFileKind::CompressedLog));
    assert_eq!(ScanMessageSeverity::parse("error"), Some(ScanMessageSeverity::Error));
    assert_eq!(StoredState::parse("paused"), Some(StoredState::Paused));
    assert_eq!(StoredState::parse("Paused"), None);
    assert_eq!(StoredMode::parse("fast"), None);
}

#[test]
fn stage_summary_and_parser_stamp() {
    let summary = StageSummary {
        new_files: 1,
        appended_files: 2,
        replaced_files: 3,
        reparsed_files: 4,
        unchanged_files: 5,
    };
    assert_eq!(summary.total(), 15);
    let stamp = ParserStamp::new("minecraft-java-log".to_owned(), 3);
    assert_eq!(stamp.name, "minecraft-java-log");
    assert_eq!(stamp.revision, 3);
}

#[test]
fn instance_budget_bounds_log_count_decompressed_bytes_and_retained_evidence() {
    let limits = InstanceParseLimits {
        max_log_files: 2,
        max_decompressed_bytes: 100,
        max_evidence_events: 3,
        max_reconstructed_sessions: 2,
        max_destinations_per_session: 2,
        max_versions_per_session: 2,
        max_evidence_links_per_session: 3,
        max_destination_utf8_bytes: 512,
        max_version_utf8_bytes: 256,
    };
    assert_eq!(InstanceParseBudget::validate_log_count(3, &limits), Err("log file count"));

    let mut budget = InstanceParseBudget::default();
    budget.retain(60, 2, &limits).expect("first log fits");
    assert_eq!(budget.retain(1, 2, &limits), Err("evidence event count"));
    assert_eq!(budget.retain(41, 1, &limits), Err("decompressed byte count"));
    budget.retain(40, 1, &limits).expect("exact aggregate limits fit");
    assert_eq!(budget.retained_logs, 2);
    assert_eq!(budget.decompressed_bytes, 100);
    assert_eq!(budget.evidence_events, 3);
    assert_eq!(budget.retain(0, 0, &limits), Err("retained log count"));
}

fn stored(started: i64, ended: Option<i64>, duration: Option<u64>) -> StoredSession {
    StoredSession {
        id: "s".to_owned(),
        started_at_ms: started,
        ended_at_ms: ended,
        duration_seconds: duration,
        exit_kind: "clean".to_owned(),
        confidence: "verified".to_owned(),
        instance: "Vanilla".to_owned(),
        version: "1.20.1".to_owned(),
        loader: None,
        launcher: "official".to_owned(),
        kind: "menu".to_owned(),
        destination: String::new(),
        source: "logs/latest.log".to_owned(),
        utc_offset_minutes: Some(120),
        server_destinations: Vec::new(),
        world_destinations: Vec::new(),
    }
}

#[test]
fn session_bounds_drop_implausible_ends_and_durations() {
    let ok = session_bounds(&stored(0, Some(60_000), Some(60)));
    assert!(!ok.implausible);
    assert_eq!(ok.duration_seconds, Some(60));
    let mismatch = session_bounds(&stored(0, Some(60_000), Some(58)));
    assert!(mismatch.implausible);
    assert_eq!(mismatch.ended_at_ms, None);
    let backwards = session_bounds(&stored(10, Some(0), None));
    assert!(backwards.implausible);
    let long = session_bounds(&stored(0, None, Some(31 * 24 * 60 * 60 + 1)));
    assert!(long.implausible);
    assert_eq!(long.duration_seconds, None);
    let open = session_bounds(&stored(0, None, None));
    assert!(!open.implausible);
}

#[test]
fn activity_confidence_uses_the_weakest() {
    assert_eq!(weaker_confidence(Confidence::Verified, Confidence::Partial), Confidence::Partial);
    assert_eq!(weaker_confidence(Confidence::Partial, Confidence::Verified), Confidence::Partial);
    assert_eq!(weaker_confidence(Confidence::Unknown, Confidence::High), Confidence::Unknown);
    assert_eq!(parse_confidence("high"), Confidence::High);
    assert_eq!(parse_confidence("HIGH"), Confidence::Unknown);
}

#[test]
fn unique_playtime_merges_overlapping_sessions() {
    let mut union = IntervalUnion::new();
    union.add(10_000, 20_000);
    union.add(5_000, 12_000);
    union.add(0, 1_000);
    assert_eq!(union.finish(), 16);
}

#[test]
fn month_arithmetic() {
    let first = CalendarDate { year: 2025, month: 11, day: 3 };
    let last = CalendarDate { year: 2026, month: 2, day: 1 };
    assert_eq!(month_index(first), 2025 * 12 + 10);
    assert_eq!(months_inclusive(first, last), 4);
    assert_eq!(months_inclusive(last, first), 0);
    assert_eq!(month_from_index(2026 * 12 + 1), Some(CalendarDate { year: 2026, month: 2, day: 1 }));
    assert_eq!(month_from_index(-1), Some(CalendarDate { year: -1, month: 12, day: 1 }));
}

#[test]
fn top_runtime_prefers_more_time_then_the_smaller_name() {
    let mut totals = RuntimeTotals::new();
    add_runtime(&mut totals, "beta", 600);
    add_runtime(&mut totals, "alpha", 300);
    add_runtime(&mut totals, "alpha", 300);
    add_runtime(&mut totals, "  ", 9_999);
    let top = top_runtime(totals, "No evidence");
    assert_eq!(top.name, "alpha");
    assert_eq!(top.minutes, 10);
    let empty = top_runtime(RuntimeTotals::new(), "No world evidence");
    assert_eq!(empty.name, "No world evidence");
    assert_eq!(empty.minutes, 0);
    assert_eq!(named("x", 3).minutes, 3);
    assert_eq!(display_launcher("prism"), "Prism Launcher");
    assert_eq!(display_launcher("custom"), "custom");
}

#[test]
fn stored_labels() {
    assert_eq!(evidence_tag(EvidenceTag::IntegratedServerStarted), "integrated_server_started");
    assert_eq!(timestamp_origin(TimestampOrigin::LineTimeWithDateHint), "line_time_with_date_hint");
    assert_eq!(evidence_role(SessionEvidenceRole::Supporting), "supporting");
    assert_eq!(reconstructed_exit(ReconstructedExitKind::Crash), "crash");
    assert_eq!(confidence_label(Confidence::Partial), "partial");
    assert_eq!(format_utc_offset(120), "UTC+02:00");
    assert_eq!(format_utc_offset(-330), "UTC-05:30");
    assert_eq!(format_utc_offset(0), "UTC+00:00");
}

#[test]
fn log_names_and_paths() {
    assert!(is_latest_log("logs/LATEST.LOG"));
    assert!(!is_latest_log("logs/latest.log.gz"));
    assert_eq!(
        dated_rotation_key("logs/2026-08-10-2.log.gz"),
        Some((CalendarDate { year: 2026, month: 8, day: 10 }, 2))
    );
    assert_eq!(dated_rotation_key("logs/2026-08-10-x.log"), None);
    assert_eq!(dated_rotation_key("logs/2026-02-30-1.log"), None);
    assert_eq!(filename_date("logs/2026-08-06-1.log.gz"), Some(CalendarDate { year: 2026, month: 8, day: 6 }));
    assert_eq!(filename_date("logs/latest.log"), None);
    assert_eq!(redacted_path_label("/home/alex/.minecraft/logs/latest.log").as_deref(), Some("latest.log"));
    assert_eq!(redacted_path_label("logs/latest.log").as_deref(), Some("logs/latest.log"));
}

#[test]
fn encodings() {
    assert_eq!(hex_prefix(&[0xab, 0x01, 0xff], 4), "ab01");
    assert_eq!(hex_prefix(&[0xab], 10), "ab");
    assert_eq!(base64_encode(b""), "");
    assert_eq!(base64_encode(b"f"), "Zg==");
    assert_eq!(base64_encode(b"fo"), "Zm8=");
    assert_eq!(base64_encode(b"foobar"), "Zm9vYmFy");
}

#[test]
fn profile_helpers() {
    assert_eq!(
        normalize_uuid("12345678-1234-1234-1234-1234567890AB").as_deref(),
        Some("123456781234123412341234567890ab")
    );
    assert_eq!(normalize_uuid("not-a-uuid"), None);
    assert_eq!(
        texture_hash("http://textures.minecraft.net/texture/ABCDEF0123456789ABCDEF0123456789/").as_deref(),
        Some("abcdef0123456789abcdef0123456789")
    );
    assert_eq!(texture_hash("http://textures.minecraft.net/texture/short"), None);
    assert_eq!(named_value("  Alex "), Some("Alex".to_owned()));
    assert_eq!(named_value("Not observed"), None);
    assert_eq!(folder_name("saves/Redstone Lab"), "Redstone Lab");
    assert_eq!(folder_name(""), "Minecraft");
    assert!(availability_rank(WorldAvailability::Available) < availability_rank(WorldAvailability::BackupOnly));
}

#[test]
fn explorer_helpers() {
    assert_eq!(nonnegative(-5), 0);
    assert_eq!(score(140), 100);
    assert_eq!(score(-1), 0);
    let empty = empty_collection::<u8>();
    assert!(!empty.truncated);
    let page = collect_bounded(vec![(1u8, 3), (2u8, 3)]);
    assert_eq!(page.items, vec![1, 2]);
    assert_eq!(page.total, 3);
    assert!(page.truncated);
}
