use minetrace::application::dashboard_accumulator::{
    coverage_quality, gap_months, month_figures, MonthAccumulator, MonthFigures,
};
use minetrace::application::read_models::{CoverageQuality, MonthlyCoverage};
use minetrace::calendar::CalendarDate;
use minetrace::domain::confidence::Confidence;

fn date(year: i32, month: u32, day: u32) -> CalendarDate {
    CalendarDate { year, month, day }
}

#[test]
fn coverage_bands_follow_the_score() {
    assert_eq!(coverage_quality(79), CoverageQuality::Partial);
    assert_eq!(coverage_quality(55), CoverageQuality::Partial);
    assert_eq!(coverage_quality(54), CoverageQuality::Limited);
    assert_eq!(coverage_quality(20), CoverageQuality::Limited);
    assert_eq!(coverage_quality(19), CoverageQuality::Unknown);
    assert_eq!(coverage_quality(0), CoverageQuality::Unknown);
}

#[test]
fn gap_months_count_the_unobserved_months_of_the_span() {
    assert_eq!(gap_months(date(2025, 11, 3), date(2026, 2, 20), 2), 2);
    assert_eq!(gap_months(date(2026, 2, 1), date(2026, 2, 28), 1), 0);
    assert_eq!(gap_months(date(2026, 2, 1), date(2026, 3, 1), 5), 0);
}

#[test]
fn month_figures_show_whole_minutes_or_a_missing_month() {
    let counted = MonthAccumulator { seconds: 3_659, sessions: 3, estimated_seconds: 60, confidence: None };
    assert_eq!(
        month_figures(Some(counted)),
        MonthFigures {
            minutes: Some(60),
            sessions: Some(3),
            confidence: Confidence::Unknown,
            coverage: MonthlyCoverage::Observed,
        }
    );
    let verified = MonthAccumulator { confidence: Some(Confidence::Verified), ..counted };
    assert_eq!(month_figures(Some(verified)).confidence, Confidence::Verified);
    assert_eq!(
        month_figures(None),
        MonthFigures { minutes: None, sessions: None, confidence: Confidence::Unknown, coverage: MonthlyCoverage::Missing }
    );
}
