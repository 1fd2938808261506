use chrono::TimeZone;
use minetrace::application::dashboard_accumulator::{
    accumulate_sessions, calendar_days, calendar_month_window, observed_date, observed_month_count_from_sessions,
    observed_offset, session_day_allocations, session_dto, sort_sessions_newest_first, top_metrics_from_sessions,
    ActiveDayAccumulator, DashboardSummary, MonthAccumulator,
};
use minetrace::application::dashboard_service::{session_bounds, StoredSession};
use minetrace::application::read_models::{
    DailyActivity, DailyCoverage, ExitKind, SessionContextKind, SessionKind, TopMetrics,
};
use minetrace::calendar::CalendarDate;
use minetrace::domain::confidence::Confidence;

fn utc_ms(y: i32, mo: u32, d: u32, h: u32, mi: u32) -> i64 {
    chrono::Utc.with_ymd_and_hms(y, mo, d, h, mi, 0).single().expect("valid UTC time").timestamp_millis()
}

fn date(year: i32, month: u32, day: u32) -> CalendarDate {
    CalendarDate { year, month, day }
}

fn stored_session(id: &str, started_at_ms: i64, duration_seconds: u64, confidence: &str) -> StoredSession {
    StoredSession {
        id: id.to_owned(),
        started_at_ms,
        ended_at_ms: Some(
            started_at_ms.saturating_add(i64::try_from(duration_seconds.saturating_mul(1_000)).unwrap_or(i64::MAX)),
        ),
        duration_seconds: Some(duration_seconds),
        exit_kind: "clean".to_owned(),
        confidence: confidence.to_owned(),
        instance: "Test profile".to_owned(),
        version: "1.20.1".to_owned(),
        loader: None,
        launcher: "manual".to_owned(),
        kind: "menu".to_owned(),
        destination: String::new(),
        source: "logs/latest.log".to_owned(),
        utc_offset_minutes: Some(0),
        server_destinations: Vec::new(),
        world_destinations: Vec::new(),
    }
}

struct Built {
    summary: DashboardSummary,
    top: TopMetrics,
    observed_months: u32,
    monthly: Vec<(CalendarDate, Option<MonthAccumulator>)>,
    daily: Vec<DailyActivity>,
}

fn build(mut sessions: Vec<StoredSession>) -> Built {
    sort_sessions_newest_first(&mut sessions);
    let top = top_metrics_from_sessions(&sessions);
    let observed_months = observed_month_count_from_sessions(&sessions);
    let summary = accumulate_sessions(&sessions).summarize().expect("sessions were added");
    let (first_ms, first_offset) = summary.first_observation;
    let (last_ms, last_offset) = summary.last_observation;
    let first = observed_date(first_ms, observed_offset(first_offset));
    let last = observed_date(last_ms, observed_offset(last_offset));
    let monthly = calendar_month_window(first, last, &summary.monthly);
    let daily = calendar_days(last, &summary.daily);
    Built { summary, top, observed_months, monthly, daily }
}

fn month_of<'a>(built: &'a Built, year: i32, month: u32) -> &'a Option<MonthAccumulator> {
    &built.monthly.iter().find(|(d, _)| d.year == year && d.month == month).expect("month in window").1
}

#[test]
fn observed_offsets_move_a_late_utc_start_to_the_next_local_day() {
    let late_utc = utc_ms(2026, 8, 6, 23, 30);
    assert_eq!(observed_offset(Some(120)), 7_200);
    assert_eq!(observed_date(late_utc, observed_offset(Some(120))), date(2026, 8, 7));
    assert_eq!(observed_date(late_utc, observed_offset(None)), date(2026, 8, 6));
    assert_eq!(observed_offset(Some(24 * 60)), 0);
    assert_eq!(observed_offset(Some(i32::MAX)), 0);
    assert_eq!(observed_offset(Some(-1_439)), -86_340);
}

#[test]
fn runtime_is_split_at_the_observed_local_midnight() {
    let started_at_ms = utc_ms(2026, 7, 31, 21, 30);
    let mut session = stored_session("session-midnight", started_at_ms, 2 * 60 * 60, "verified");
    session.utc_offset_minutes = Some(120);
    let slices = session_day_allocations(&session, session_bounds(&session));
    assert_eq!(slices, vec![(date(2026, 7, 31), 30 * 60), (date(2026, 8, 1), 90 * 60)]);

    let built = build(vec![session]);
    assert_eq!(month_of(&built, 2026, 7).expect("July observed").seconds / 60, 30);
    assert_eq!(month_of(&built, 2026, 8).expect("August observed").seconds / 60, 90);
    assert_eq!(built.summary.totals.active_days, 2);
    assert_eq!(built.summary.totals.playtime_minutes, 120);
    assert_eq!(built.summary.totals.unique_playtime_minutes, 120);
    assert_eq!(built.summary.verified_sessions, 1);
    assert_eq!(built.summary.bounded_sessions, 1);
    assert_eq!(built.observed_months, 2);
}

#[test]
fn zero_duration_gives_one_empty_slice_on_the_start_day() {
    let session = stored_session("instant", utc_ms(2026, 2, 4, 10, 0), 0, "verified");
    let slices = session_day_allocations(&session, session_bounds(&session));
    assert_eq!(slices, vec![(date(2026, 2, 4), 0)]);
}

#[test]
fn monthly_window_is_twelve_contiguous_months_ending_at_the_last_observation() {
    let april = utc_ms(2024, 4, 15, 10, 0);
    let march = utc_ms(2025, 3, 15, 10, 0);
    let built = build(vec![
        stored_session("april", april, 60 * 60, "verified"),
        stored_session("march", march, 30 * 60, "high"),
    ]);

    assert_eq!(built.monthly.len(), 12);
    assert_eq!(built.monthly[0].0, date(2024, 4, 1));
    assert_eq!(built.monthly[11].0, date(2025, 3, 1));
    let april = built.monthly[0].1.expect("April observed");
    assert_eq!(april.seconds / 60, 60);
    assert_eq!(april.sessions, 1);
    assert_eq!(april.confidence, Some(Confidence::Verified));
    assert_eq!(april.estimated_seconds, 0);
    assert_eq!(built.monthly[1].0, date(2024, 5, 1));
    assert_eq!(built.monthly[1].1, None);
    let march = built.monthly[11].1.expect("March observed");
    assert_eq!(march.estimated_seconds, 30 * 60);
    assert_eq!(march.confidence, Some(Confidence::High));
}

#[test]
fn daily_window_is_365_days_ending_at_the_last_observation() {
    let last = utc_ms(2026, 4, 30, 10, 0);
    let built = build(vec![stored_session("last-observation", last, 60, "verified")]);

    assert_eq!(built.daily.len(), 365);
    assert_eq!(built.daily[364].date, "2026-04-30");
    assert_eq!(built.daily[0].date, "2025-05-01");
    assert_eq!(built.daily[364].minutes, Some(1));
    assert_eq!(built.daily[364].coverage, DailyCoverage::Observed);
    assert_eq!(built.daily[0].minutes, None);
    assert_eq!(built.daily[0].coverage, DailyCoverage::Missing);
    assert_eq!(built.daily[0].confidence, Confidence::Unknown);
}

#[test]
fn day_and_month_confidence_is_the_weakest_contributing_session() {
    let morning = utc_ms(2026, 1, 15, 10, 0);
    let afternoon = utc_ms(2026, 1, 15, 14, 0);
    let built = build(vec![
        stored_session("verified", morning, 60 * 60, "verified"),
        stored_session("partial", afternoon, 30 * 60, "partial"),
    ]);

    let day = built.daily.iter().find(|day| day.date == "2026-01-15").expect("mixed-confidence day");
    assert_eq!(day.confidence, Confidence::Partial);
    assert_eq!(day.sessions, Some(2));
    let month = built.monthly.last().expect("January");
    assert_eq!(month.0, date(2026, 1, 1));
    assert_eq!(month.1.expect("January observed").confidence, Some(Confidence::Partial));
    assert_eq!(month.1.expect("January observed").sessions, 2);
}

#[test]
fn an_unknown_boundary_counts_no_time_and_no_bounded_coverage() {
    let started = utc_ms(2026, 2, 4, 10, 0);
    let mut session = stored_session("open", started, 0, "partial");
    session.ended_at_ms = None;
    session.duration_seconds = None;

    let built = build(vec![session]);

    assert_eq!(built.summary.bounded_sessions, 0);
    assert_eq!(built.summary.verified_sessions, 0);
    assert_eq!(built.summary.recent_sessions[0].ended_at, None);
    assert_eq!(built.summary.recent_sessions[0].duration_minutes, None);
    assert_eq!(built.summary.totals.active_days, 0);
    assert_eq!(built.summary.totals.longest_session_minutes, None);
    assert_eq!(built.summary.totals.average_session_minutes, None);
}

#[test]
fn duration_metrics_use_only_known_plausible_durations() {
    let started = utc_ms(2026, 2, 4, 10, 0);
    let known = stored_session("known", started, 60 * 60, "verified");
    let mut unknown = stored_session("unknown", started + 2 * 60 * 60 * 1_000, 0, "partial");
    unknown.ended_at_ms = None;
    unknown.duration_seconds = None;

    let built = build(vec![known, unknown]);

    assert_eq!(built.summary.totals.longest_session_minutes, Some(60));
    assert_eq!(built.summary.totals.average_session_minutes, Some(60));
    assert_eq!(built.summary.totals.sessions, 2);
    assert_eq!(built.summary.recent_sessions[0].id, "unknown");
    assert_eq!(built.summary.recent_sessions[1].id, "known");
}

#[test]
fn an_implausibly_long_session_is_not_allocated_as_runtime() {
    let started = utc_ms(2026, 2, 4, 10, 0);
    let session = stored_session("implausible", started, 32 * 24 * 60 * 60, "verified");

    let built = build(vec![session]);

    assert_eq!(built.summary.totals.playtime_minutes, 0);
    assert_eq!(built.summary.totals.unique_playtime_minutes, 0);
    assert_eq!(built.summary.totals.active_days, 0);
    assert_eq!(built.summary.verified_sessions, 0);
    assert_eq!(built.summary.recent_sessions[0].ended_at, None);
    assert_eq!(built.summary.recent_sessions[0].duration_minutes, None);
    assert_eq!(built.summary.recent_sessions[0].confidence, Confidence::Partial);
    assert_eq!(built.summary.recent_sessions[0].exit_kind, ExitKind::Unknown);
    assert_eq!(built.summary.totals.longest_session_minutes, None);
    assert_eq!(built.summary.totals.average_session_minutes, None);
}

#[test]
fn active_days_are_the_days_with_a_displayed_minute() {
    let first = utc_ms(2026, 2, 4, 10, 0);
    let second = utc_ms(2026, 2, 5, 10, 0);
    let built = build(vec![
        stored_session("sub-minute", first, 59, "verified"),
        stored_session("one-minute", second, 60, "verified"),
    ]);

    assert_eq!(built.summary.totals.active_days, 1);
    let first_day = built.daily.iter().find(|day| day.date == "2026-02-04").expect("sub-minute day");
    assert_eq!(first_day.minutes, Some(0));
    let second_day = built.daily.iter().find(|day| day.date == "2026-02-05").expect("one-minute day");
    assert_eq!(second_day.minutes, Some(1));
}

#[test]
fn mixed_sessions_contribute_each_linked_context() {
    let started = utc_ms(2026, 3, 4, 10, 0);
    let mut session = stored_session("mixed", started, 90 * 60, "verified");
    session.kind = "mixed".to_owned();
    session.destination = "Multiple observed destinations".to_owned();
    session.server_destinations = vec!["play.example.net".to_owned()];
    session.world_destinations = vec!["Survival".to_owned()];

    let built = build(vec![session]);

    assert_eq!(built.top.server.name, "play.example.net");
    assert_eq!(built.top.server.minutes, 90);
    assert_eq!(built.top.world.name, "Survival");
    assert_eq!(built.top.world.minutes, 90);
    assert_eq!(built.top.launcher.name, "Custom location");
    assert_eq!(built.top.version.name, "1.20.1");
    let recent = &built.summary.recent_sessions[0];
    assert_eq!(recent.kind, SessionKind::Mixed);
    assert_eq!(recent.destination.as_deref(), Some("Multiple observed destinations"));
    assert_eq!(recent.contexts.len(), 2);
    assert_eq!(recent.contexts[0].kind, SessionContextKind::Server);
    assert_eq!(recent.contexts[0].name, "play.example.net");
    assert_eq!(recent.contexts[1].kind, SessionContextKind::World);
    assert_eq!(recent.contexts[1].name, "Survival");
}

#[test]
fn top_metrics_without_sessions_name_the_missing_evidence() {
    let top = top_metrics_from_sessions(&Vec::new());
    assert_eq!(top.launcher.name, "No launcher evidence");
    assert_eq!(top.server.name, "No server evidence");
    assert_eq!(top.world.minutes, 0);
}

#[test]
fn session_dto_shows_the_session_at_its_observed_offset() {
    let started = utc_ms(2026, 8, 6, 23, 30);
    let mut session = stored_session("dto", started, 90 * 60, "high");
    session.utc_offset_minutes = Some(120);
    session.launcher = "prism".to_owned();
    session.exit_kind = "crash".to_owned();
    session.kind = "server".to_owned();
    let dto = session_dto(&session);
    assert_eq!(dto.started_at, "2026-08-07T01:30:00+02:00");
    assert_eq!(dto.ended_at.as_deref(), Some("2026-08-07T03:00:00+02:00"));
    assert_eq!(dto.duration_minutes, Some(90));
    assert_eq!(dto.launcher, "Prism Launcher");
    assert_eq!(dto.kind, SessionKind::Server);
    assert_eq!(dto.exit_kind, ExitKind::Crash);
    assert_eq!(dto.confidence, Confidence::High);
    assert_eq!(dto.destination, None);
    assert!(dto.note.is_none());
}

#[test]
fn sessions_sort_newest_first_then_by_id() {
    let mut sessions = vec![
        stored_session("b", 1_000, 1, "verified"),
        stored_session("c", 2_000, 1, "verified"),
        stored_session("a", 1_000, 1, "verified"),
    ];
    sort_sessions_newest_first(&mut sessions);
    let ids: Vec<&str> = sessions.iter().map(|s| s.id.as_str()).collect();
    assert_eq!(ids, vec!["c", "a", "b"]);
}

#[test]
fn settled_active_days_count_once_and_sub_minute_days_never() {
    let mut active = ActiveDayAccumulator::new();
    active.add(date(2026, 3, 10), &vec![(date(2026, 3, 10), 120), (date(2026, 3, 11), 30)]);
    active.add(date(2026, 3, 10), &vec![(date(2026, 3, 11), 30)]);
    assert_eq!(active.pending.len(), 2);
    active.add(date(2026, 1, 1), &vec![(date(2026, 1, 1), 600)]);
    assert_eq!(active.completed, 2);
    assert_eq!(active.pending, vec![(date(2026, 1, 1), 600)]);
    assert_eq!(active.finish(), 3);
}

#[test]
fn session_instants_keep_their_milliseconds_and_negative_offsets() {
    let started = utc_ms(2026, 1, 1, 2, 15) + 250;
    let mut session = stored_session("fraction", started, 60, "high");
    session.utc_offset_minutes = Some(-300);
    let dto = session_dto(&session);
    assert_eq!(dto.started_at, "2025-12-31T21:15:00.250-05:00");
    assert_eq!(dto.ended_at.as_deref(), Some("2025-12-31T21:16:00.250-05:00"));
}
