use chrono::{Datelike, Days, Local, Offset, TimeZone, Timelike};
use minetrace::application::archive_budget::{CanonicalArchiveBudget, CanonicalArchiveLimits};
use minetrace::application::parse_budget::{ScanParseBudget, ScanParseLimits};
use minetrace::application::payload::{
    build_payload, destinations_to_json, event_to_json, evidence_id, le64_bytes, stable_digest, strings_to_json,
    ReconstructionPayload, StagedActivity, StagedSession, StoredInstance,
};
use minetrace::application::dashboard_service::MAX_PLAUSIBLE_SESSION_SECONDS;
use minetrace::application::scan_service::{log_context, log_date_hint};
use minetrace::calendar::{CalendarDate, LocalDateTime, OffsetDateTime, TimeOfDay};
use minetrace::parser::log_reader::LogReader;
use minetrace::parser::minecraft_log::{
    CrashMarker, DisconnectKind, EvidenceProvenance, EvidenceRule, EvidenceTag, LogParseContext, LogParseLimits,
    MinecraftLogEvent, ParsedLog,
};
use minetrace::parser::session_reconstruction::{reconstruct_sessions, SessionDestination, SessionEndBoundary};
use minetrace::scan::model::{FileDecision, FileFingerprint, FingerprintedLog, LogCandidate, LogFileKind, StagedSource};

const CLEAN_LOG: &[u8] = b"[10:00:00] [main/INFO]: Loading Minecraft 1.20.1 with Fabric Loader\n\
[10:00:01] [Render thread/INFO]: Connecting to play.example.net, 25565\n\
[10:30:00] [Render thread/INFO]: Stopping!\n";

fn parse(bytes: &[u8], source_id: &str) -> ParsedLog {
    let context = LogParseContext::new(source_id, 0)
        .with_date_hint(CalendarDate { year: 2026, month: 8, day: 11 })
        .with_utc_offset(2 * 60 * 60);
    let mut reader = LogReader::new(context, LogParseLimits::default());
    let mut rest = bytes;
    while !rest.is_empty() {
        let taken = reader.push(rest).expect("within limits");
        rest = &rest[taken..];
    }
    reader.finish().expect("parses")
}

fn instance(id: &str) -> StoredInstance {
    StoredInstance { id: id.to_owned(), relative_root: String::new(), name: "Archive A".to_owned() }
}

fn payload_of(log: &ParsedLog, instance_id: &str) -> ReconstructionPayload {
    let reconstruction = reconstruct_sessions(std::slice::from_ref(log));
    build_payload(&instance(instance_id), false, &Vec::new(), &vec![log.clone()], &reconstruction.sessions)
}

fn source(path_id: &str, revision_id: &str) -> StagedSource {
    StagedSource {
        instance_id: None,
        source_path_id: path_id.to_owned(),
        source_revision_id: revision_id.to_owned(),
        relative_path: "logs/latest.log".to_owned(),
        kind: LogFileKind::Log,
        decision: FileDecision::New,
        generation: 1,
        fingerprint: FileFingerprint {
            size_bytes: 0,
            modified_at_ms: 0,
            birthtime_ms: None,
            prefix_hash: [0; 32],
            full_hash: [0; 32],
            comparison_prefix_len: None,
            comparison_prefix_hash: None,
        },
    }
}

fn staged_session(id: &str, activities: usize) -> StagedSession {
    StagedSession {
        id: id.to_owned(),
        started_at_utc_ms: 0,
        ended_at_utc_ms: None,
        duration_seconds: None,
        exit_kind: "clean".to_owned(),
        confidence_score: 90,
        confidence_label: "verified".to_owned(),
        reconstruction_revision: 1,
        canonical_key: Vec::new(),
        timezone_id: None,
        minecraft_version: None,
        loader: None,
        utc_offset_minutes: None,
        evidence_links: Vec::new(),
        source_revision_ids: Vec::new(),
        activities: (0..activities)
            .map(|_| StagedActivity::World {
                world_name: "World".to_owned(),
                started_at_utc_ms: None,
                ended_at_utc_ms: None,
                confidence_score: 90,
            })
            .collect(),
    }
}

fn archive_payload(instance_id: &str, replace: bool, sessions: &[(&str, usize)]) -> ReconstructionPayload {
    ReconstructionPayload {
        instance_id: instance_id.to_owned(),
        replace_all_instance_evidence: replace,
        source_path_ids: Vec::new(),
        minecraft_version: None,
        loader: None,
        evidence: Vec::new(),
        sessions: sessions.iter().map(|(id, n)| staged_session(id, *n)).collect(),
    }
}

#[test]
fn scan_and_global_archive_budgets_are_cumulative_and_atomic() {
    let scan_limits = ScanParseLimits {
        max_log_files: 1,
        max_decompressed_bytes: 100,
        max_evidence_events: 2,
        max_reconstructed_sessions: 1,
        max_contexts: 1,
    };
    let mut scan_budget = ScanParseBudget::default();
    scan_budget.retain_log(100, 2, &scan_limits).expect("exact scan log budget");
    assert_eq!(scan_budget.retain_log(0, 0, &scan_limits), Err("scan log file count"));
    scan_budget.retain_reconstruction(1, 1, &scan_limits).expect("exact scan reconstruction budget");
    assert_eq!(scan_budget.retain_reconstruction(1, 0, &scan_limits), Err("scan reconstructed session count"));

    let parsed = parse(CLEAN_LOG, "archive-budget");
    let payload = payload_of(&parsed, "archive-instance-a");
    assert_eq!(payload.sessions.len(), 1);
    let archive_limits = CanonicalArchiveLimits { max_sessions: 1, max_contexts: 1 };
    let mut archive_budget = CanonicalArchiveBudget::default();
    archive_budget.retain_payload(&payload, &archive_limits).expect("first archive payload fits");
    let mut second_payload = payload_of(&parsed, "archive-instance-b");
    second_payload.sessions[0].id = "archive-session-b".to_owned();
    assert_eq!(
        archive_budget.retain_payload(&second_payload, &archive_limits),
        Err("global canonical session count")
    );

    let mut context_budget = CanonicalArchiveBudget::default();
    assert_eq!(
        context_budget.retain_payload(&payload, &CanonicalArchiveLimits { max_sessions: 1, max_contexts: 0 }),
        Err("global canonical context count")
    );
}

#[test]
fn a_failed_parse_is_charged_the_full_scan_allowance() {
    let mut failed = ScanParseBudget::default();
    assert_eq!(failed.charge_failed_parse(&ScanParseLimits::default()), Ok(()));
    assert_eq!(failed.decompressed_bytes, 268_435_456);
    assert_eq!(failed.evidence_events, 250_000);
}

#[test]
fn archive_budget_replacement_frees_the_instance_sessions_and_contexts() {
    let limits = CanonicalArchiveLimits { max_sessions: 2, max_contexts: 3 };
    let mut budget = CanonicalArchiveBudget::default();
    budget
        .retain_payload(&archive_payload("a", false, &[("s1", 1), ("s2", 1), ("s1", 0)]), &limits)
        .expect("two distinct sessions fit");
    assert_eq!(budget.session_ids.len(), 2);
    assert_eq!(budget.contexts, 2);
    assert_eq!(
        budget.retain_payload(&archive_payload("b", false, &[("s3", 0)]), &limits),
        Err("global canonical session count")
    );
    budget
        .retain_payload(&archive_payload("a", true, &[("s4", 3)]), &limits)
        .expect("a replacing payload frees the instance");
    assert_eq!(budget.session_ids, vec!["s4".to_owned()]);
    assert_eq!(budget.contexts, 3);
    assert_eq!(budget.contexts_by_instance, vec![("a".to_owned(), 3)]);
    budget
        .retain_payload(&archive_payload("b", false, &[("s4", 0)]), &limits)
        .expect("a known session adds nothing");
    assert_eq!(budget.session_ids.len(), 1);
    assert_eq!(
        budget.retain_payload(&archive_payload("b", false, &[("s5", 1)]), &limits),
        Err("global canonical context count")
    );
    budget.already_over_limit = true;
    assert_eq!(
        budget.retain_payload(&archive_payload("c", false, &[]), &limits),
        Err("global canonical archive usage")
    );
}

#[test]
fn stable_digests_hash_length_framed_pieces() {
    let digest = stable_digest(&vec![b"abc".to_vec(), Vec::new()]);
    let mut framed = 3u64.to_le_bytes().to_vec();
    framed.extend_from_slice(b"abc");
    framed.extend_from_slice(&0u64.to_le_bytes());
    assert_eq!(digest, blake3::hash(&framed).as_bytes().to_vec());
    assert_ne!(digest, stable_digest(&vec![b"ab".to_vec(), b"c".to_vec()]));
    assert_eq!(le64_bytes(0x0102_0304_0506_0708), vec![8, 7, 6, 5, 4, 3, 2, 1]);
}

#[test]
fn evidence_ids_follow_the_provenance() {
    let provenance = EvidenceProvenance {
        source_id: "source".to_owned(),
        source_order: 0,
        line_number: 3,
        byte_start: 120,
        byte_end: 160,
        rule: EvidenceRule::ConnectingToServer,
    };
    let id = evidence_id(&provenance, EvidenceTag::ServerJoined);
    let mut framed = Vec::new();
    for piece in [
        b"source".as_slice(),
        &3u64.to_le_bytes(),
        &120u64.to_le_bytes(),
        b"ConnectingToServer",
        b"server_joined",
    ] {
        framed.extend_from_slice(&(piece.len() as u64).to_le_bytes());
        framed.extend_from_slice(piece);
    }
    let hex: String = blake3::hash(&framed).as_bytes().iter().map(|b| format!("{b:02x}")).collect();
    assert_eq!(id, format!("evidence_{}", &hex[..24]));
    let other = EvidenceProvenance { line_number: 4, ..provenance.clone() };
    assert_ne!(evidence_id(&other, EvidenceTag::ServerJoined), id);
}

#[test]
fn json_pieces_match_what_serde_writes() {
    assert_eq!(strings_to_json(&vec!["1.20.1".to_owned(), "a\"b".to_owned()]), r#"["1.20.1","a\"b"]"#);
    assert_eq!(strings_to_json(&Vec::new()), "[]");
    assert_eq!(
        destinations_to_json(&vec![
            SessionDestination::Server { address: "play.example.net".to_owned() },
            SessionDestination::LocalWorld { world_name: None },
            SessionDestination::LocalWorld { world_name: Some("Survival".to_owned()) },
        ]),
        r#"[{"kind":"server","address":"play.example.net"},{"kind":"local_world","world_name":null},{"kind":"local_world","world_name":"Survival"}]"#
    );
    assert_eq!(event_to_json(&MinecraftLogEvent::GameStarted), r#"{"kind":"game_started"}"#);
    assert_eq!(
        event_to_json(&MinecraftLogEvent::Disconnected { disconnect_kind: DisconnectKind::IntegratedServerStopped }),
        r#"{"kind":"disconnected","disconnect_kind":"integrated_server_stopped"}"#
    );
    assert_eq!(
        event_to_json(&MinecraftLogEvent::Crash { marker: CrashMarker::CrashReportSaved }),
        r#"{"kind":"crash","marker":"crash_report_saved"}"#
    );
    assert_eq!(
        event_to_json(&MinecraftLogEvent::IntegratedServerStarted { version: Some("1.21".to_owned()) }),
        r#"{"kind":"integrated_server_started","version":"1.21"}"#
    );
}

#[test]
fn payload_stages_evidence_sessions_and_activities() {
    let parsed = parse(CLEAN_LOG, "revision-1");
    let reconstruction = reconstruct_sessions(std::slice::from_ref(&parsed));
    let sources = vec![
        source("path-b", "revision-1"),
        source("path-a", "revision-1"),
        source("path-b", "revision-1"),
        source("path-c", "revision-unparsed"),
    ];
    let payload = build_payload(
        &instance("instance-1"),
        true,
        &sources,
        &vec![parsed.clone()],
        &reconstruction.sessions,
    );

    assert_eq!(payload.instance_id, "instance-1");
    assert!(payload.replace_all_instance_evidence);
    assert_eq!(payload.source_path_ids, vec!["path-a".to_owned(), "path-b".to_owned()]);
    assert_eq!(payload.minecraft_version.as_deref(), Some("1.20.1"));
    assert_eq!(payload.evidence.len(), parsed.evidence.len());
    for (order, row) in payload.evidence.iter().enumerate() {
        assert_eq!(row.event_order, order as u64);
        assert!(row.id.starts_with("evidence_"));
        assert_eq!(row.id.len(), "evidence_".len() + 24);
        assert_eq!(row.source_revision_id, "revision-1");
        assert_eq!(row.event_key.len(), 32);
        assert_eq!(row.id, evidence_id(&parsed.evidence[order].provenance, parsed.evidence[order].event.tag()));
    }
    assert_eq!(payload.evidence[0].observed_local.as_deref(), Some("2026-08-11T10:00:00.000"));
    assert_eq!(payload.evidence[0].timestamp_origin, "line_time_with_date_hint");

    assert_eq!(payload.sessions.len(), 1);
    let session = &payload.sessions[0];
    assert!(session.id.starts_with("session_"));
    assert_eq!(session.id.len(), "session_".len() + 24);
    assert_eq!(session.canonical_key.len(), 32);
    assert_eq!(session.timezone_id.as_deref(), Some("UTC+02:00"));
    assert_eq!(session.minecraft_version.as_deref(), Some("1.20.1"));
    assert_eq!(session.evidence_links.len(), reconstruction.sessions[0].evidence.len());
    assert_eq!(session.activities.len(), 1);
    match &session.activities[0] {
        StagedActivity::Server { id, canonical_address, original_address, started_at_utc_ms, .. } => {
            assert!(id.starts_with("server_"));
            assert_eq!(canonical_address, "play.example.net");
            assert_eq!(original_address, "play.example.net:25565");
            assert_eq!(*started_at_utc_ms, Some(session.started_at_utc_ms));
        },
        StagedActivity::World { .. } => panic!("a server session stages a server activity"),
    }

    let again = build_payload(&instance("instance-1"), true, &sources, &vec![parsed.clone()], &reconstruction.sessions);
    assert_eq!(again.sessions[0].id, session.id);
    let elsewhere = build_payload(&instance("instance-2"), true, &sources, &vec![parsed], &reconstruction.sessions);
    assert_ne!(elsewhere.sessions[0].id, session.id);
}

fn parse_with(bytes: &[u8], context: LogParseContext) -> ParsedLog {
    let mut reader = LogReader::new(context, LogParseLimits::default());
    let mut rest = bytes;
    while !rest.is_empty() {
        let taken = reader.push(rest).expect("within limits");
        rest = &rest[taken..];
    }
    reader.finish().expect("parses")
}

fn named_instance(id: &str, name: &str) -> StoredInstance {
    StoredInstance { id: id.to_owned(), relative_root: String::new(), name: name.to_owned() }
}

#[test]
fn payload_keeps_a_truncated_session_end_and_duration_unknown() {
    let parsed = parse_with(
        b"[10:00:00] [main/INFO]: Loading Minecraft 1.20.1 with Fabric Loader",
        LogParseContext::new("one-line-source", 0)
            .with_date_hint(CalendarDate { year: 2026, month: 8, day: 10 })
            .with_utc_offset(0),
    );
    let reconstruction = reconstruct_sessions(std::slice::from_ref(&parsed));
    assert_eq!(reconstruction.sessions.len(), 1);
    assert_eq!(reconstruction.sessions[0].end_boundary, SessionEndBoundary::TruncatedAtLastEvidence);

    let payload = build_payload(
        &named_instance("instance-one-line", "One line"),
        true,
        &Vec::new(),
        &vec![parsed.clone()],
        &reconstruction.sessions,
    );
    let session = payload.sessions.first().expect("staged session");
    assert_eq!(session.ended_at_utc_ms, None);
    assert_eq!(session.duration_seconds, None);
}

#[test]
fn payload_rejects_implausible_multi_year_runtime_without_inventing_a_cap() {
    let parsed = parse_with(
        b"[0001-01-01 00:00:00] [main/INFO]: Loading Minecraft 1.20.1 with Fabric Loader\n\
[9999-12-31 23:59:59] [Render thread/INFO]: Stopping!\n",
        LogParseContext::new("pathological-duration", 0).with_utc_offset(0),
    );
    let reconstruction = reconstruct_sessions(std::slice::from_ref(&parsed));
    assert_eq!(reconstruction.sessions.len(), 1);
    assert!(reconstruction.sessions[0].duration_seconds > MAX_PLAUSIBLE_SESSION_SECONDS);

    let payload = build_payload(
        &named_instance("instance-pathological-duration", "Pathological duration"),
        true,
        &Vec::new(),
        &vec![parsed.clone()],
        &reconstruction.sessions,
    );
    let session = payload.sessions.first().expect("staged session");
    assert_eq!(session.ended_at_utc_ms, None);
    assert_eq!(session.duration_seconds, None);
    assert_eq!(session.exit_kind, "unknown");
    assert_eq!(session.confidence_label, "partial");
    assert!(session.confidence_score <= 54);
}

#[test]
fn latest_log_context_anchors_an_overnight_session_to_its_mtime_day() {
    let source_end = Local.with_ymd_and_hms(2026, 8, 10, 0, 0, 5).single().expect("unambiguous local source end");
    let candidate = LogCandidate {
        approved_root: "/not-read".to_owned(),
        absolute_path: "/not-read/logs/latest.log".to_owned(),
        relative_path: "logs/latest.log".to_owned(),
        relative_path_key: b"logs/latest.log".to_vec(),
        kind: LogFileKind::Log,
        observed_size_bytes: 128,
    };
    let fingerprint = FileFingerprint {
        size_bytes: 128,
        modified_at_ms: source_end.timestamp_millis(),
        birthtime_ms: None,
        prefix_hash: [1; 32],
        full_hash: [2; 32],
        comparison_prefix_len: None,
        comparison_prefix_hash: None,
    };
    let file = FingerprintedLog { candidate, fingerprint: fingerprint.clone() };
    let source = StagedSource {
        instance_id: Some("instance".to_owned()),
        source_path_id: "source".to_owned(),
        source_revision_id: "revision".to_owned(),
        relative_path: "logs/latest.log".to_owned(),
        kind: LogFileKind::Log,
        decision: FileDecision::New,
        generation: 1,
        fingerprint,
    };
    let end_date = source_end.date_naive();
    let modified_date = CalendarDate { year: end_date.year(), month: end_date.month(), day: end_date.day() };
    let (date_hint, dated) = log_date_hint(&file, modified_date);
    let noon = Local
        .with_ymd_and_hms(date_hint.year, date_hint.month, date_hint.day, 12, 0, 0)
        .single()
        .expect("unambiguous noon");
    let offset_seconds = noon.offset().fix().local_minus_utc();
    let modified = OffsetDateTime {
        local: LocalDateTime {
            date: modified_date,
            time: TimeOfDay {
                hour: source_end.hour(),
                minute: source_end.minute(),
                second: source_end.second(),
                nano: 0,
            },
        },
        offset_seconds: source_end.offset().fix().local_minus_utc(),
    };
    let context = log_context(&source, 0, &file, date_hint, dated, offset_seconds, modified);
    let bytes = b"[23:59:58] [main/INFO]: Loading Minecraft 1.20.1 with Fabric Loader\n\
[00:00:03] [Render thread/INFO]: Stopping!\n";
    let parsed = parse_with(bytes, context);
    let start = parsed.evidence.first().expect("start evidence");
    let end = parsed.evidence.last().expect("end evidence");
    let previous = end_date.checked_sub_days(Days::new(1)).expect("previous day");
    assert_eq!(
        start.timestamp.observed_local.expect("start local").date,
        CalendarDate { year: previous.year(), month: previous.month(), day: previous.day() }
    );
    assert_eq!(end.timestamp.observed_local.expect("end local").date, modified_date);
}

#[test]
fn a_refused_payload_leaves_the_archive_budget_as_it_was() {
    let parsed = parse(CLEAN_LOG, "archive-refusal");
    let payload = payload_of(&parsed, "archive-instance-a");
    let mut budget = CanonicalArchiveBudget::default();
    budget.retain_payload(&payload, &CanonicalArchiveLimits { max_sessions: 10, max_contexts: 10 }).expect("fits");
    let sessions_before = budget.session_ids.clone();
    let contexts_before = budget.contexts;
    let mut second = payload_of(&parsed, "archive-instance-b");
    second.sessions[0].id = "archive-session-b".to_owned();
    assert_eq!(
        budget.retain_payload(&second, &CanonicalArchiveLimits { max_sessions: 10, max_contexts: contexts_before }),
        Err("global canonical context count")
    );
    assert_eq!(budget.session_ids, sessions_before);
    assert_eq!(budget.contexts, contexts_before);
    assert!(!budget.already_over_limit);
    budget.retain_payload(&second, &CanonicalArchiveLimits { max_sessions: 10, max_contexts: 10 }).expect("fits after a refusal");
    assert_eq!(budget.session_ids.len(), sessions_before.len() + 1);
}

#[test]
fn json_strings_escape_backslashes_and_control_characters() {
    let text = "a\\b\u{8}\t\n\u{c}\r\u{1}\u{1f}\u{7f}é".to_owned();
    assert_eq!(strings_to_json(&vec![text]), "[\"a\\\\b\\b\\t\\n\\f\\r\\u0001\\u001f\u{7f}é\"]");
}
