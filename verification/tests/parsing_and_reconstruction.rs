use std::io::{Read, Write};

use chrono::TimeZone;
use minetrace::calendar::{CalendarDate, LocalDateTime, OffsetDateTime, TimeOfDay};
use minetrace::domain::confidence::Confidence;
use minetrace::parser::log_parser::{LogLimitResource, LogParseLimitExceeded};
use minetrace::parser::log_reader::LogReader;
use minetrace::parser::minecraft_log::{
    EvidenceRule, LogParseContext, LogParseLimits, MinecraftLogEvent, ParsedLog,
};
use minetrace::parser::session_reconstruction::{
    reconstruct_sessions, ReconstructedExitKind, SessionDestination, SessionEndBoundary,
};

const OFFSET_SECONDS: i32 = 2 * 60 * 60;

fn date(year: i32, month: u32, day: u32) -> CalendarDate {
    CalendarDate { year, month, day }
}

fn at(day: CalendarDate, hour: u32, minute: u32, second: u32) -> OffsetDateTime {
    OffsetDateTime {
        local: LocalDateTime { date: day, time: TimeOfDay { hour, minute, second, nano: 0 } },
        offset_seconds: OFFSET_SECONDS,
    }
}

fn utc_millis(y: i32, mo: u32, d: u32, h: u32, mi: u32, s: u32) -> i64 {
    chrono::FixedOffset::east_opt(OFFSET_SECONDS)
        .expect("offset")
        .with_ymd_and_hms(y, mo, d, h, mi, s)
        .single()
        .expect("instant")
        .timestamp_millis()
}

fn context(source_id: &str, source_order: u32) -> LogParseContext {
    LogParseContext::new(source_id, source_order)
        .with_date_hint(date(2026, 8, 6))
        .with_utc_offset(OFFSET_SECONDS)
}

/// Feeds `bytes` to a reader in pieces of at most `capacity` bytes, as a
/// buffered reader of that capacity would expose them.
fn parse_in_pieces(
    bytes: &[u8],
    context: LogParseContext,
    limits: LogParseLimits,
    capacity: usize,
) -> Result<ParsedLog, LogParseLimitExceeded> {
    let mut reader = LogReader::new(context, limits);
    let mut rest = bytes;
    while !rest.is_empty() {
        let window = &rest[..rest.len().min(capacity)];
        let taken = reader.push(window)?;
        rest = &rest[taken..];
    }
    reader.finish()
}

fn parse(bytes: &[u8], context: LogParseContext) -> ParsedLog {
    parse_in_pieces(bytes, context, LogParseLimits::default(), 8 * 1024).expect("parses")
}

#[test]
fn rolls_time_only_logs_across_midnight() {
    let bytes = b"[23:59:58] [main/INFO]: Loading Minecraft 1.20.1 with Fabric Loader\n\
[00:00:03] [Render thread/INFO]: Stopping!\n";
    let parsed = parse(bytes, context("midnight", 4));

    assert_eq!(parsed.diagnostics.midnight_rollovers, 1);
    let start = parsed.evidence.first().expect("start evidence");
    let end = parsed.evidence.last().expect("end evidence");
    assert!(
        end.timestamp.comparable_millis().expect("end millis")
            > start.timestamp.comparable_millis().expect("start millis")
    );
}

#[test]
fn final_day_hint_anchors_an_overnight_undated_log_backwards() {
    let bytes = b"[23:59:58] [main/INFO]: Loading Minecraft 1.20.1 with Fabric Loader\n\
[00:00:03] [Render thread/INFO]: Stopping!\n";
    let source_end = at(date(2026, 8, 10), 0, 0, 5);
    let context = LogParseContext::new("latest", 4)
        .with_final_date_hint(source_end.local.date)
        .with_utc_offset(OFFSET_SECONDS)
        .with_source_end_hint(source_end);

    let parsed = parse(bytes, context);

    assert_eq!(parsed.diagnostics.midnight_rollovers, 1);
    let start = parsed.evidence.first().expect("start evidence");
    let end = parsed.evidence.last().expect("end evidence");
    assert_eq!(start.timestamp.observed_local.expect("start local").date, date(2026, 8, 9));
    assert_eq!(end.timestamp.observed_local.expect("end local").date, date(2026, 8, 10));
    assert_eq!(end.timestamp.occurred_at_utc_ms, Some(utc_millis(2026, 8, 10, 0, 0, 3)));
}

#[test]
fn final_day_hint_accounts_for_close_latency_across_midnight() {
    let bytes = b"[23:58:00] [main/INFO]: Loading Minecraft 1.20.1 with Fabric Loader\n\
[23:59:58] [Render thread/INFO]: Stopping!\n";
    let source_end = at(date(2026, 8, 10), 0, 0, 5);
    let context = LogParseContext::new("latest-close-latency", 5)
        .with_final_date_hint(source_end.local.date)
        .with_utc_offset(OFFSET_SECONDS)
        .with_source_end_hint(source_end);

    let parsed = parse(bytes, context);

    assert_eq!(parsed.diagnostics.midnight_rollovers, 0);
    let expected_date = date(2026, 8, 9);
    assert!(parsed
        .evidence
        .iter()
        .all(|item| item.timestamp.observed_local.is_some_and(|local| local.date == expected_date)));
    assert_eq!(
        parsed.evidence.last().expect("end evidence").timestamp.occurred_at_utc_ms,
        Some(utc_millis(2026, 8, 9, 23, 59, 58))
    );
}

#[test]
fn records_source_offsets_and_rule_of_the_first_line() {
    let bytes = b"[10:00:00] [main/INFO]: Loading Minecraft 1.20.1 with Fabric Loader\n";
    let parsed = parse(bytes, context("offsets", 7));
    let first = parsed.evidence.first().expect("evidence");
    assert_eq!(first.provenance.source_order, 7);
    assert_eq!(first.provenance.line_number, 1);
    assert_eq!(first.provenance.byte_start, 0);
    assert_eq!(first.provenance.byte_end, bytes.len() as u64);
    assert_eq!(first.provenance.rule, EvidenceRule::LoadingMinecraft);
    assert_eq!(parsed.diagnostics.decoded_bytes, bytes.len() as u64);
}

#[test]
fn context_end_hint_is_transportable_without_parser_side_effects() {
    let end = at(date(2026, 8, 6), 15, 1, 5);
    let bytes = b"[10:00:00] [main/INFO]: Loading Minecraft 1.20.1 with Fabric Loader\n";
    let parsed = parse(bytes, context("hint", 9).with_source_end_hint(end));
    assert_eq!(parsed.context.source_end_hint, Some(end));
}

#[test]
fn rejects_an_oversized_line_before_growing_the_line_buffer_past_its_limit() {
    let mut input = vec![b'x'; 65];
    input.push(b'\n');
    let limits = LogParseLimits {
        max_decompressed_bytes: 1_024,
        max_line_bytes: 64,
        ..LogParseLimits::default()
    };

    let error = parse_in_pieces(&input, context("oversized-line", 10), limits, 8)
        .expect_err("oversized line must be rejected");

    assert_eq!(error.resource, LogLimitResource::LineBytes);
    assert_eq!(error.resource.label(), "line bytes");
    assert_eq!(error.limit, 64);
}

#[test]
fn caps_gzip_expansion_by_decompressed_bytes() {
    let expanded = vec![b'a'; 16 * 1_024];
    let mut encoder = flate2::write::GzEncoder::new(Vec::new(), flate2::Compression::best());
    encoder.write_all(&expanded).expect("encode repetitive body");
    let compressed = encoder.finish().expect("finish gzip body");
    assert!(compressed.len() < expanded.len());
    let mut decoded = Vec::new();
    flate2::read::GzDecoder::new(&compressed[..]).read_to_end(&mut decoded).expect("decode");

    let limits = LogParseLimits {
        max_decompressed_bytes: 1_024,
        max_line_bytes: 32 * 1_024,
        ..LogParseLimits::default()
    };
    let error = parse_in_pieces(&decoded, context("gzip-expansion", 11), limits, 8 * 1024)
        .expect_err("decompressed body must be capped");

    assert_eq!(error.resource.label(), "decompressed bytes");
}

#[test]
fn caps_evidence_and_line_diagnostic_growth() {
    let input = b"[12:00:00] [main/INFO]: Loading Minecraft 1.20.1\n\
[12:00:01] [main/INFO]: Loading Minecraft 1.20.1\n";
    let evidence_error = parse_in_pieces(
        input,
        context("evidence-cap", 13),
        LogParseLimits { max_evidence_events: 3, ..LogParseLimits::default() },
        8 * 1024,
    )
    .expect_err("two two-event lines must exceed a three-event cap");
    assert_eq!(evidence_error.resource.label(), "evidence event count");

    let line_error = parse_in_pieces(
        b"noise\nnoise\n",
        context("line-cap", 14),
        LogParseLimits { max_lines: 1, ..LogParseLimits::default() },
        8 * 1024,
    )
    .expect_err("line diagnostics must be bounded");
    assert_eq!(line_error.resource.label(), "line count");
}

#[test]
fn output_is_independent_of_reader_chunk_boundaries() {
    let bytes = b"[10:00:00] [main/INFO]: Loading Minecraft 1.20.1 with Fabric Loader\r\n\
[10:00:01] [Render thread/INFO]: Connecting to play.example.net, 25565\n\
noise without a timestamp\n\
[10:30:00] [Render thread/INFO]: Stopping!";
    let whole = parse_in_pieces(bytes, context("chunks", 1), LogParseLimits::default(), 1 << 16)
        .expect("whole");
    for capacity in [1, 2, 3, 7, 16, 64] {
        let pieces = parse_in_pieces(bytes, context("chunks", 1), LogParseLimits::default(), capacity)
            .expect("pieces");
        assert_eq!(pieces, whole);
    }
    assert!(whole.diagnostics.final_line_without_newline);
    assert_eq!(whole.diagnostics.total_lines, 4);
}

#[test]
fn truncated_tail_uses_nearby_source_end_hint() {
    let end_hint = at(date(2026, 8, 6), 10, 30, 30);
    let bytes = b"[10:00:00] [main/INFO]: Loading Minecraft 1.20.1 with Fabric Loader\n\
[10:30:00] [Render thread/INFO]: Connecting to example.net, 25565";
    let parsed = parse(bytes, context("truncated", 1).with_source_end_hint(end_hint));

    let result = reconstruct_sessions(&[parsed]);
    assert_eq!(result.sessions.len(), 1);
    assert_eq!(result.sessions[0].end_boundary, SessionEndBoundary::SourceEndHint);
    assert_eq!(result.sessions[0].duration_seconds, 30 * 60 + 30);
    assert_eq!(result.sessions[0].exit_kind, ReconstructedExitKind::Unknown);
}

#[test]
fn same_second_events_from_distinct_source_content_are_not_deduplicated() {
    let first_bytes = b"[10:00:00] [main/INFO]: Loading Minecraft 1.20.1 with Fabric Loader\n\
[10:00:01] [Render thread/INFO]: Connecting to first.example.net, 25565\n\
[10:05:00] [Render thread/INFO]: Stopping!\n";
    let second_bytes = b"[10:00:00] [main/INFO]: Loading Minecraft 1.20.1 with Fabric Loader\n\
[10:00:01] [Render thread/INFO]: Connecting to second.example.net, 25565\n\
[10:06:00] [Render thread/INFO]: Stopping!\n";
    let first = parse(
        first_bytes,
        context("concurrent-a", 1).with_source_content_hash(*blake3::hash(first_bytes).as_bytes()),
    );
    let second = parse(
        second_bytes,
        context("concurrent-b", 2).with_source_content_hash(*blake3::hash(second_bytes).as_bytes()),
    );

    let result = reconstruct_sessions(&[first, second]);
    assert_eq!(result.sessions.len(), 2);
    assert_eq!(result.diagnostics.duplicate_evidence, 0);
}

#[test]
fn partial_rotation_overlap_deduplicates_a_multi_line_suffix_prefix() {
    let older_bytes = b"[10:00:00] [main/INFO]: Loading Minecraft 1.20.1 with Fabric Loader\n\
[10:05:00] [Render thread/INFO]: Connecting to overlap.example.net, 25565\n\
[10:06:00] [Render thread/INFO]: Disconnected from server\n";
    let newer_bytes = b"[10:05:00] [Render thread/INFO]: Connecting to overlap.example.net, 25565\n\
[10:06:00] [Render thread/INFO]: Disconnected from server\n\
[10:30:00] [Render thread/INFO]: Stopping!\n\
[10:30:01] [Render thread/INFO]: Stopping worker threads\n";
    let older = parse(
        older_bytes,
        context("overlap-older", 1).with_source_content_hash(*blake3::hash(older_bytes).as_bytes()),
    );
    let newer = parse(
        newer_bytes,
        context("overlap-newer", 2).with_source_content_hash(*blake3::hash(newer_bytes).as_bytes()),
    );

    let result = reconstruct_sessions(&[older, newer]);
    assert_eq!(result.sessions.len(), 1);
    assert_eq!(result.diagnostics.duplicate_evidence, 2);
    assert_eq!(
        result.sessions[0].destinations,
        [SessionDestination::Server { address: "overlap.example.net:25565".to_owned() }]
    );
    assert_eq!(result.sessions[0].source_ids, ["overlap-newer", "overlap-older"]);
}

#[test]
fn isolated_identical_same_second_launch_markers_remain_distinct() {
    let bytes = b"[10:00:00] [main/INFO]: Loading Minecraft 1.20.1 with Fabric Loader\n";
    let first = parse(
        bytes,
        context("launch-a", 1).with_source_content_hash(*blake3::hash(b"source-a").as_bytes()),
    );
    let second = parse(
        bytes,
        context("launch-b", 2).with_source_content_hash(*blake3::hash(b"source-b").as_bytes()),
    );

    let result = reconstruct_sessions(&[first, second]);
    assert_eq!(result.sessions.len(), 2);
    assert_eq!(result.diagnostics.duplicate_evidence, 0);
}

#[test]
fn single_start_is_still_a_bounded_zero_duration_partial_session() {
    let parsed = parse(
        b"[10:00:00] [main/INFO]: Loading Minecraft 1.20.1 with Fabric Loader",
        context("one-line", 1),
    );

    let result = reconstruct_sessions(&[parsed]);
    assert_eq!(result.sessions.len(), 1);
    assert_eq!(result.sessions[0].duration_seconds, 0);
    assert_eq!(result.sessions[0].end_boundary, SessionEndBoundary::TruncatedAtLastEvidence);
    assert_eq!(result.sessions[0].confidence_label, Confidence::Partial);
    assert_eq!(result.diagnostics.zero_duration_sessions, 1);
}

#[test]
fn quick_restart_after_stopping_is_not_merged_into_bootstrap() {
    let bytes = b"[10:00:00] [main/INFO]: Loading Minecraft 1.20.1 with Fabric Loader\n\
[10:00:20] [Render thread/INFO]: Stopping!\n\
[10:00:40] [main/INFO]: Loading Minecraft 1.20.1 with Fabric Loader\n\
[10:01:00] [Render thread/INFO]: Stopping!\n";
    let parsed = parse(bytes, context("restart", 1));

    let result = reconstruct_sessions(&[parsed]);
    assert_eq!(result.sessions.len(), 2);
    assert!(result
        .sessions
        .iter()
        .all(|session| session.end_boundary == SessionEndBoundary::ClientStopping));
}

const SESSION_LOG: &[u8] = b"[10:00:00] [main/INFO]: Loading Minecraft 1.20.1 with Fabric Loader\n\
[10:00:05] [Render thread/INFO]: Connecting to play.example.net, 25565\n\
[10:58:58] [Render thread/INFO]: Stopping!\n";

const LATER_LOG: &[u8] = b"[11:00:00] [main/INFO]: Loading Minecraft 1.20.1 with Fabric Loader\n\
[11:47:00] [Render thread/INFO]: Connecting to other.example.net, 25565\n";

#[test]
fn reconstruction_of_a_clean_session_keeps_its_provenance() {
    let parsed = parse(SESSION_LOG, context("clean", 1));
    let result = reconstruct_sessions(&[parsed]);
    assert_eq!(result.sessions.len(), 1);
    let session = &result.sessions[0];
    assert_eq!(session.duration_seconds, 3_538);
    assert_eq!(session.end_boundary, SessionEndBoundary::ClientStopping);
    assert_eq!(session.versions, ["1.20.1"]);
    assert!(session.destinations.contains(&SessionDestination::Server {
        address: "play.example.net:25565".to_owned()
    }));
    assert_eq!(session.source_ids, ["clean"]);
}

#[test]
fn handing_logs_in_another_order_gives_the_same_reconstruction() {
    let older = parse(SESSION_LOG, context("older", 1));
    let newer = parse(LATER_LOG, context("newer", 2));
    let chronological = reconstruct_sessions(&[older.clone(), newer.clone()]);
    let reversed = reconstruct_sessions(&[newer, older]);
    assert_eq!(chronological, reversed);
    assert_eq!(chronological.sessions.len(), 2);
}

#[test]
fn an_identical_copy_adds_no_session() {
    let hash = *blake3::hash(SESSION_LOG).as_bytes();
    let first = parse(SESSION_LOG, context("copy-a", 1).with_source_content_hash(hash));
    let second = parse(SESSION_LOG, context("copy-b", 2).with_source_content_hash(hash));
    let alone = reconstruct_sessions(&[first.clone()]);
    let with_copy = reconstruct_sessions(&[first, second]);
    assert_eq!(with_copy.sessions, alone.sessions);
    assert_eq!(with_copy.sessions.len(), 1);
    assert_eq!(
        with_copy.diagnostics.duplicate_evidence,
        alone.diagnostics.duplicate_evidence + 4
    );
}

#[test]
fn recognised_events_carry_their_text() {
    let parsed = parse(SESSION_LOG, context("events", 1));
    assert!(parsed.evidence.iter().any(|item| matches!(
        item.event,
        MinecraftLogEvent::VersionObserved { ref version } if version == "1.20.1"
    )));
    assert!(parsed.evidence.iter().any(|item| item.event == MinecraftLogEvent::Stopping));
}

#[test]
fn provenance_points_into_the_stream_that_was_read() {
    let bytes = b"[10:00:00] [main/INFO]: Loading Minecraft 1.20.1 with Fabric Loader\n\
[10:00:01] [Render thread/INFO]: Connecting to play.example.net, 25565\n\
[10:30:00] [Render thread/INFO]: Stopping!\n";
    let parsed = parse_in_pieces(bytes, context("provenance", 7), LogParseLimits::default(), 5).expect("parsed");
    assert_eq!(parsed.diagnostics.decoded_bytes, bytes.len() as u64);
    assert_eq!(parsed.diagnostics.emitted_evidence, parsed.evidence.len() as u64);
    assert!(!parsed.evidence.is_empty());
    for evidence in &parsed.evidence {
        let p = &evidence.provenance;
        assert_eq!(p.source_id, "provenance");
        assert_eq!(p.source_order, 7);
        assert!(1 <= p.line_number && p.line_number <= parsed.diagnostics.total_lines);
        assert!(p.byte_start < p.byte_end && p.byte_end <= parsed.diagnostics.decoded_bytes);
    }
    assert_eq!(parsed.evidence[0].provenance.line_number, 1);
    assert_eq!(parsed.evidence[0].provenance.byte_start, 0);
    assert_eq!(parsed.evidence[0].provenance.byte_end, 68);
}
