//! How the dashboard spreads sessions over the calendar: each session's
//! play time is cut at the local midnights of the offset its log was written
//! with, and the slices feed the daily, monthly and active-day totals.

use vstd::prelude::*;

use crate::application::dashboard_service::{
    display_launcher, display_launcher_spec, month_from_index, month_from_index_spec, month_index,
    month_index_spec, parse_confidence, union_finish_spec,
    parse_confidence_spec, sat_add_u64, session_bounds, session_bounds_spec, union_add_spec, weaker_confidence,
    weaker_spec, IntervalUnion, SessionBounds, StoredSession, add_runtime, add_runtime_spec, names_distinct,
    top_runtime, top_runtime_spec, totals_view, RuntimeTotals,
};
use crate::application::read_models::{
    ArchiveState, BoundedCollection, CoverageQuality, DailyActivity, DailyCoverage, DashboardTotals, ExitKind,
    MonthlyCoverage, NamedMinutes, Session, SessionContext, SessionContextKind, SessionKind, TopMetrics,
};
use crate::domain::confidence::Confidence;
use crate::application::scan_service::{confidence_name, exit_name};
use crate::parser::session_reconstruction::ReconstructedExitKind;
use crate::external::{format_ymd, offset_rfc3339, rfc3339_at_offset, ymd_text};
use crate::text::str_eq;
use crate::calendar::{
    days_before, day_of_millis, epoch_day, lemma_epoch_day_at_most_max, lemma_epoch_day_bounds, lemma_epoch_day_next,
    local_date_representable, max_epoch_day, min_epoch_day, next_day, timestamp_in_range, utc_millis_exec,
    CalendarDate, LocalDateTime, TimeOfDay, MAX_YEAR, MIN_YEAR,
};
use crate::external::{chrono_local_date, local_date_at};
use crate::parser::log_parser::lemma_next_day_wf;

verus! {

/// The UTC offset a session is shown at, in seconds: its recorded minutes
/// when they make a valid offset (strictly within a day), else UTC.
pub open spec fn observed_offset_spec(minutes: Option<i32>) -> i32 {
    match minutes {
        Some(m) => if -86_400 < m * 60 < 86_400 {
            (m * 60) as i32
        } else {
            0
        },
        None => 0,
    }
}

/// `observed_offset`: the fixed offset a stored session is displayed at.
pub fn observed_offset(utc_offset_minutes: Option<i32>) -> (r: i32)
    ensures
        r == observed_offset_spec(utc_offset_minutes),
        -86_400 < r < 86_400,
{
    match utc_offset_minutes {
        Some(minutes) => match minutes.checked_mul(60) {
            Some(seconds) => if -86_400 < seconds && seconds < 86_400 {
                seconds
            } else {
                0
            },
            None => 0,
        },
        None => 0,
    }
}

/// The instant a session's time is read at: itself where chrono can
/// represent it, else the Unix epoch.
pub open spec fn representable_or_epoch(ms: int) -> int {
    if timestamp_in_range(ms) {
        ms
    } else {
        0
    }
}

/// The number of the local day of `ms` at `offset` seconds.
pub open spec fn observed_day(ms: int, offset: int) -> int {
    day_of_millis(representable_or_epoch(ms) + offset * 1000)
}

proof fn lemma_epoch_is_representable(offset: int)
    requires
        -86_400 < offset < 86_400,
    ensures
        timestamp_in_range(0),
        local_date_representable(0, offset),
{
    assert(min_epoch_day() == -96465292);
    assert(max_epoch_day() == 95026236);
}

/// The local date of `ms` at `offset` seconds, read at the epoch where
/// chrono cannot represent `ms`.
pub open spec fn observed_date_spec(ms: i64, offset: i32) -> CalendarDate {
    chrono_local_date(representable_or_epoch(ms as int) as i64, offset)
}

/// The local calendar date of the instant `ms` at `offset_seconds`
/// (`observed_datetime(..).date_naive()`).
pub fn observed_date(ms: i64, offset_seconds: i32) -> (r: CalendarDate)
    requires
        -86_400 < offset_seconds < 86_400,
        local_date_representable(ms as int, offset_seconds as int),
    ensures
        r == observed_date_spec(ms, offset_seconds),
        r.wf(),
        epoch_day(r) == observed_day(ms as int, offset_seconds as int),
{
    match local_date_at(ms, offset_seconds) {
        Some(d) => d,
        None => {
            proof {
                lemma_epoch_is_representable(offset_seconds as int);
            }
            local_date_at(0, offset_seconds).unwrap()
        },
    }
}

/// The UTC instant of the local midnight that ends local day `n`, or `end`
/// where chrono cannot place it; the last representable day ends at its own
/// start, as `succ_opt` has no successor for it.
pub open spec fn midnight_after(n: int, offset: int, end: int) -> int {
    let next = if n < max_epoch_day() {
        n + 1
    } else {
        n
    };
    let utc_day = next + if offset > 0 {
        -1int
    } else {
        0int
    };
    if min_epoch_day() <= utc_day <= max_epoch_day() {
        next * 86_400_000 - offset * 1000
    } else {
        end
    }
}

/// The slices of `[cursor, end)`: from each cursor to the next local midnight
/// (at least one millisecond on, at most `end`), each with its local date
/// and its whole seconds.
pub open spec fn day_slices(cursor: int, end: int, offset: i32) -> Seq<(CalendarDate, u64)>
    decreases end - cursor,
{
    if cursor >= end {
        Seq::empty()
    } else {
        let n = observed_day(cursor, offset as int);
        let lower = vstd::math::max(midnight_after(n, offset as int, end), cursor + 1);
        let boundary = vstd::math::min(end, lower);
        seq![(observed_date_spec(cursor as i64, offset), ((boundary - cursor) / 1000) as u64)] + day_slices(
            boundary,
            end,
            offset,
        )
    }
}

/// The end of the span a session's known duration covers (saturating).
pub open spec fn allocation_end(start: i64, duration_seconds: u64) -> int {
    let duration_ms = vstd::math::min(duration_seconds * 1000, i64::MAX as int);
    vstd::math::min(start + duration_ms, i64::MAX as int)
}

/// The instants whose local dates the allocation reads.
pub open spec fn allocation_span_representable(start: i64, duration_seconds: u64, offset: int) -> bool {
    forall|ms: int|
        start <= ms < vstd::math::max(allocation_end(start, duration_seconds), start + 1)
            ==> #[trigger] local_date_representable(ms, offset)
}

/// Local dates and seconds of a session: one zero slice on its start date
/// when its duration is unknown or zero, else its day slices.
pub open spec fn allocations_spec(start: i64, duration_seconds: u64, offset: i32) -> Seq<(CalendarDate, u64)> {
    if duration_seconds == 0 {
        seq![(observed_date_spec(start, offset), 0u64)]
    } else {
        day_slices(start as int, allocation_end(start, duration_seconds), offset)
    }
}

pub open spec fn dates_wf(a: Seq<(CalendarDate, u64)>) -> bool {
    forall|i: int| 0 <= i < a.len() ==> (#[trigger] a[i]).0.wf()
}

/// The UTC instant of the local midnight after `date`, or `end`.
fn midnight_after_exec(date: CalendarDate, offset_seconds: i32, end: i64) -> (r: i64)
    requires
        date.wf(),
        -86_400 < offset_seconds < 86_400,
    ensures
        r == midnight_after(epoch_day(date), offset_seconds as int, end as int),
{
    let next_date = match date.succ() {
        Some(n) => n,
        None => date,
    };
    proof {
        lemma_next_day_wf(date);
        if let Some(n) = next_day(date) {
            lemma_epoch_day_next(date);
            lemma_epoch_day_at_most_max(n);
        }
    }
    let midnight = LocalDateTime { date: next_date, time: TimeOfDay { hour: 0, minute: 0, second: 0, nano: 0 } };
    match utc_millis_exec(midnight, offset_seconds) {
        Some(v) => v,
        None => end,
    }
}

/// `session_day_allocations`: the session's known duration cut at the local
/// midnights of its offset, as (local date, whole seconds) slices.
pub fn session_day_allocations(session: &StoredSession, bounds: SessionBounds) -> (r: Vec<(CalendarDate, u64)>)
    requires
        allocation_span_representable(
            session.started_at_ms,
            match bounds.duration_seconds {
                Some(d) => d,
                None => 0,
            },
            observed_offset_spec(session.utc_offset_minutes) as int,
        ),
    ensures
        dates_wf(r@),
        r@ == allocations_spec(
            session.started_at_ms,
            match bounds.duration_seconds {
                Some(d) => d,
                None => 0,
            },
            observed_offset_spec(session.utc_offset_minutes),
        ),
{
    let start = session.started_at_ms;
    let duration_seconds: u64 = match bounds.duration_seconds {
        Some(d) => d,
        None => 0,
    };
    let offset = observed_offset(session.utc_offset_minutes);
    let ghost off = offset as int;
    assert(local_date_representable(start as int, off));
    let start_date = observed_date(start, offset);
    if duration_seconds == 0 {
        let r = vec![(start_date, 0u64)];
        assert(r@ =~= seq![(start_date, 0u64)]);
        return r;
    }
    let duration_ms: i64 = if duration_seconds <= (i64::MAX as u64) / 1000 {
        (duration_seconds * 1000) as i64
    } else {
        i64::MAX
    };
    let end: i64 = if start <= i64::MAX - duration_ms {
        start + duration_ms
    } else {
        i64::MAX
    };
    assert(end == allocation_end(start, duration_seconds));
    let mut cursor: i64 = start;
    let mut allocations: Vec<(CalendarDate, u64)> = Vec::new();
    while cursor < end
        invariant
            -86_400 < offset < 86_400,
            off == offset as int,
            start <= cursor,
            end == allocation_end(start, duration_seconds),
            allocation_span_representable(start, duration_seconds, off),
            dates_wf(allocations@),
            day_slices(start as int, end as int, offset) == allocations@ + day_slices(
                cursor as int,
                end as int,
                offset,
            ),
        decreases end - cursor,
    {
        assert(local_date_representable(cursor as int, off));
        let date = observed_date(cursor, offset);
        proof {
            lemma_epoch_day_bounds(date);
        }
        let next_midnight = midnight_after_exec(date, offset, end);
        let lower: i64 = if next_midnight > cursor + 1 {
            next_midnight
        } else {
            cursor + 1
        };
        let boundary: i64 = if end < lower {
            end
        } else {
            lower
        };
        let seconds: u64 = ((boundary - cursor) / 1000) as u64;
        let ghost before = allocations@;
        allocations.push((date, seconds));
        proof {
            assert(day_slices(cursor as int, end as int, offset) == seq![(date, seconds)] + day_slices(
                boundary as int,
                end as int,
                offset,
            ));
            assert(before + day_slices(cursor as int, end as int, offset) =~= allocations@ + day_slices(
                boundary as int,
                end as int,
                offset,
            ));
        }
        cursor = boundary;
    }
    assert(day_slices(cursor as int, end as int, offset) =~= Seq::<(CalendarDate, u64)>::empty());
    assert(allocations@ =~= day_slices(start as int, end as int, offset));
    allocations
}

/// The seconds that day slices hand out.
pub open spec fn slice_seconds(s: Seq<(CalendarDate, u64)>) -> int
    decreases s.len(),
{
    if s.len() == 0 {
        0
    } else {
        slice_seconds(s.drop_last()) + s.last().1
    }
}

proof fn lemma_slice_seconds_single(p: (CalendarDate, u64))
    ensures
        slice_seconds(seq![p]) == p.1,
{
    let s = seq![p];
    assert(s.drop_last() =~= Seq::<(CalendarDate, u64)>::empty());
    assert(slice_seconds(s.drop_last()) == 0);
    assert(s.last() == p);
}

proof fn lemma_slice_seconds_append(a: Seq<(CalendarDate, u64)>, b: Seq<(CalendarDate, u64)>)
    ensures
        slice_seconds(a + b) == slice_seconds(a) + slice_seconds(b),
    decreases b.len(),
{
    if b.len() == 0 {
        assert(a + b =~= a);
    } else {
        lemma_slice_seconds_append(a, b.drop_last());
        assert((a + b).drop_last() =~= a + b.drop_last());
    }
}

proof fn lemma_day_slices_seconds(cursor: int, end: int, offset: i32)
    ensures
        cursor <= end ==> 0 <= slice_seconds(day_slices(cursor, end, offset)) <= (end - cursor) / 1000,
    decreases end - cursor,
{
    if cursor < end {
        let n = observed_day(cursor, offset as int);
        let lower = vstd::math::max(midnight_after(n, offset as int, end), cursor + 1);
        let boundary = vstd::math::min(end, lower);
        let first = (observed_date_spec(cursor as i64, offset), ((boundary - cursor) / 1000) as u64);
        lemma_day_slices_seconds(boundary, end, offset);
        lemma_slice_seconds_append(seq![first], day_slices(boundary, end, offset));
        lemma_slice_seconds_single(first);
        assert((boundary - cursor) / 1000 + (end - boundary) / 1000 <= (end - cursor) / 1000) by (nonlinear_arith)
            requires
                cursor < boundary <= end,
        ;
        assert(0 <= (boundary - cursor) / 1000) by (nonlinear_arith)
            requires
                cursor < boundary,
        ;
    }
}

/// The seconds a session is spread over its days never exceed its duration.
pub proof fn law_allocations_never_exceed_duration(start: i64, duration_seconds: u64, offset: i32)
    ensures
        slice_seconds(allocations_spec(start, duration_seconds, offset)) <= duration_seconds,
{
    if duration_seconds == 0 {
        lemma_slice_seconds_single((observed_date_spec(start, offset), 0u64));
    } else {
        let end = allocation_end(start, duration_seconds);
        lemma_day_slices_seconds(start as int, end, offset);
        assert((end - start) / 1000 <= duration_seconds) by (nonlinear_arith)
            requires
                end - start <= duration_seconds * 1000,
        ;
    }
}


/// chrono's order on dates: by year, then month, then day.
pub open spec fn date_le(a: CalendarDate, b: CalendarDate) -> bool {
    a.year < b.year || (a.year == b.year && (a.month < b.month || (a.month == b.month && a.day <= b.day)))
}

pub fn date_le_exec(a: CalendarDate, b: CalendarDate) -> (r: bool)
    ensures
        r == date_le(a, b),
{
    a.year < b.year || (a.year == b.year && (a.month < b.month || (a.month == b.month && a.day <= b.day)))
}

/// The date `n` days later, if representable (`checked_add_days`).
pub open spec fn days_after(d: CalendarDate, n: nat) -> Option<CalendarDate>
    decreases n,
{
    if n == 0 {
        Some(d)
    } else {
        match next_day(d) {
            Some(x) => days_after(x, (n - 1) as nat),
            None => None,
        }
    }
}

pub fn add_days(d: CalendarDate, n: u64) -> (r: Option<CalendarDate>)
    ensures
        r == days_after(d, n as nat),
{
    let mut current = d;
    let mut left = n;
    while left > 0
        invariant
            days_after(d, n as nat) == days_after(current, left as nat),
        decreases left,
    {
        match current.succ() {
            Some(x) => {
                current = x;
                left = left - 1;
            },
            None => {
                return None;
            },
        }
    }
    Some(current)
}

/// The last date chrono can represent (`NaiveDate::MAX`).
pub open spec fn last_date() -> CalendarDate {
    CalendarDate { year: crate::calendar::MAX_YEAR, month: 12, day: 31 }
}

/// The first date chrono can represent (`NaiveDate::MIN`).
pub open spec fn first_date() -> CalendarDate {
    CalendarDate { year: crate::calendar::MIN_YEAR, month: 1, day: 1 }
}

/// Counts days with at least one displayed minute. Sessions arrive newest
/// first, so a pending date more than 33 days after a session's start can no
/// longer grow and is settled.
pub struct ActiveDayAccumulator {
    pub pending: Vec<(CalendarDate, u64)>,
    pub completed: u64,
}

/// No date is pending twice.
pub open spec fn dates_unique(p: Seq<(CalendarDate, u64)>) -> bool {
    forall|i: int, j: int| 0 <= i < p.len() && 0 <= j < p.len() && i != j ==> p[i].0 != p[j].0
}

/// The settling point of a session that starts on `start`.
pub open spec fn settle_after(start: CalendarDate) -> CalendarDate {
    match days_after(start, 33) {
        Some(d) => d,
        None => last_date(),
    }
}

pub open spec fn is_settled(cutoff: CalendarDate, e: (CalendarDate, u64)) -> bool {
    !date_le(e.0, cutoff)
}

pub open spec fn has_a_minute(e: (CalendarDate, u64)) -> bool {
    e.1 / 60 > 0
}

/// The number of entries of `p` that satisfy `f`.
pub open spec fn count_where(p: Seq<(CalendarDate, u64)>, f: spec_fn((CalendarDate, u64)) -> bool) -> nat
    decreases p.len(),
{
    if p.len() == 0 {
        0
    } else {
        count_where(p.drop_last(), f) + if f(p.last()) {
            1nat
        } else {
            0nat
        }
    }
}

/// `p` with `seconds` added (saturating) to the entry of `date`, or with a new entry.
pub open spec fn add_seconds(p: Seq<(CalendarDate, u64)>, date: CalendarDate, seconds: u64) -> Seq<(CalendarDate, u64)> {
    if exists|i: int| 0 <= i < p.len() && p[i].0 == date {
        let i = choose|i: int| 0 <= i < p.len() && p[i].0 == date;
        p.update(i, (date, sat_add_u64(p[i].1, seconds as int)))
    } else {
        p.push((date, seconds))
    }
}

pub open spec fn add_all_seconds(p: Seq<(CalendarDate, u64)>, a: Seq<(CalendarDate, u64)>) -> Seq<(CalendarDate, u64)>
    decreases a.len(),
{
    if a.len() == 0 {
        p
    } else {
        add_seconds(add_all_seconds(p, a.drop_last()), a.last().0, a.last().1)
    }
}

/// The accumulator after a session that starts on `start` and spreads as `a`.
pub open spec fn active_add_spec(
    pending: Seq<(CalendarDate, u64)>,
    completed: u64,
    start: CalendarDate,
    a: Seq<(CalendarDate, u64)>,
) -> (Seq<(CalendarDate, u64)>, u64) {
    let cutoff = settle_after(start);
    let settled = |e: (CalendarDate, u64)| is_settled(cutoff, e) && has_a_minute(e);
    (
        add_all_seconds(pending.filter(|e: (CalendarDate, u64)| !is_settled(cutoff, e)), a),
        sat_add_u64(completed, count_where(pending, settled) as int),
    )
}

proof fn lemma_add_seconds_unique(p: Seq<(CalendarDate, u64)>, date: CalendarDate, seconds: u64)
    requires
        dates_unique(p),
    ensures
        dates_unique(add_seconds(p, date, seconds)),
{
    if !(exists|i: int| 0 <= i < p.len() && p[i].0 == date) {
        let q = p.push((date, seconds));
        assert forall|i: int, j: int| 0 <= i < q.len() && 0 <= j < q.len() && i != j implies q[i].0 != q[j].0 by {
            if i < p.len() && j < p.len() {
            } else if i < p.len() {
                assert(p[i].0 != date);
            } else {
                assert(p[j].0 != date);
            }
        }
    }
}

/// Finds the entry of `date`.
fn find_date<T>(p: &Vec<(CalendarDate, T)>, date: CalendarDate) -> (r: Option<usize>)
    ensures
        match r {
            Some(i) => i < p@.len() && p@[i as int].0 == date,
            None => forall|i: int| 0 <= i < p@.len() ==> p@[i].0 != date,
        },
{
    let mut i: usize = 0;
    while i < p.len()
        invariant
            i <= p@.len(),
            forall|k: int| 0 <= k < i ==> p@[k].0 != date,
        decreases p@.len() - i,
    {
        if p[i].0 == date {
            return Some(i);
        }
        i = i + 1;
    }
    None
}

fn add_seconds_exec(p: &mut Vec<(CalendarDate, u64)>, date: CalendarDate, seconds: u64)
    requires
        dates_unique(old(p)@),
    ensures
        final(p)@ == add_seconds(old(p)@, date, seconds),
        dates_unique(final(p)@),
{
    proof {
        lemma_add_seconds_unique(p@, date, seconds);
    }
    match find_date(p, date) {
        Some(i) => {
            let total = p[i].1.saturating_add(seconds);
            p.set(i, (date, total));
            proof {
                let k = choose|k: int| 0 <= k < old(p)@.len() && old(p)@[k].0 == date;
                assert(k == i as int);
            }
        },
        None => {
            p.push((date, seconds));
        },
    }
}

impl ActiveDayAccumulator {
    pub open spec fn wf(&self) -> bool {
        dates_unique(self.pending@)
    }

    pub fn new() -> (r: ActiveDayAccumulator)
        ensures
            r.pending@ == Seq::<(CalendarDate, u64)>::empty(),
            r.completed == 0,
            r.wf(),
    {
        ActiveDayAccumulator { pending: Vec::new(), completed: 0 }
    }

    /// Settles the dates past the session's reach, then adds its slices.
    pub fn add(&mut self, start_date: CalendarDate, allocations: &Vec<(CalendarDate, u64)>)
        requires
            old(self).wf(),
        ensures
            final(self).wf(),
            (final(self).pending@, final(self).completed) == active_add_spec(
                old(self).pending@,
                old(self).completed,
                start_date,
                allocations@,
            ),
    {
        let cutoff = match add_days(start_date, 33) {
            Some(d) => d,
            None => CalendarDate { year: crate::calendar::MAX_YEAR, month: 12, day: 31 },
        };
        let ghost old_pending = self.pending@;
        let ghost settled = |e: (CalendarDate, u64)| is_settled(cutoff, e) && has_a_minute(e);
        let ghost keep = |e: (CalendarDate, u64)| !is_settled(cutoff, e);
        let mut kept: Vec<(CalendarDate, u64)> = Vec::new();
        let mut completed = self.completed;
        let mut i: usize = 0;
        assert(old_pending.take(0) =~= Seq::<(CalendarDate, u64)>::empty());
        assert(old_pending.take(0).filter(keep) =~= Seq::<(CalendarDate, u64)>::empty()) by {
            reveal_with_fuel(Seq::filter, 1);
        }
        while i < self.pending.len()
            invariant
                i <= old_pending.len(),
                self.pending@ == old_pending,
                dates_unique(old_pending),
                kept@ == old_pending.take(i as int).filter(keep),
                completed == sat_add_u64(self.completed, count_where(old_pending.take(i as int), settled) as int),
                settled == (|e: (CalendarDate, u64)| is_settled(cutoff, e) && has_a_minute(e)),
                keep == (|e: (CalendarDate, u64)| !is_settled(cutoff, e)),
            decreases old_pending.len() - i,
        {
            let entry = self.pending[i];
            assert(old_pending.take(i + 1).drop_last() =~= old_pending.take(i as int));
            assert(old_pending.take(i + 1).last() == entry);
            proof {
                reveal_with_fuel(Seq::filter, 1);
            }
            if date_le_exec(entry.0, cutoff) {
                kept.push(entry);
            } else if entry.1 / 60 > 0 {
                completed = completed.saturating_add(1);
            }
            i = i + 1;
        }
        assert(old_pending.take(old_pending.len() as int) =~= old_pending);
        proof {
            lemma_filter_unique(old_pending, keep);
        }
        let mut j: usize = 0;
        let ghost base = kept@;
        assert(allocations@.take(0) =~= Seq::<(CalendarDate, u64)>::empty());
        while j < allocations.len()
            invariant
                j <= allocations@.len(),
                dates_unique(kept@),
                kept@ == add_all_seconds(base, allocations@.take(j as int)),
            decreases allocations@.len() - j,
        {
            assert(allocations@.take(j + 1).drop_last() =~= allocations@.take(j as int));
            add_seconds_exec(&mut kept, allocations[j].0, allocations[j].1);
            j = j + 1;
        }
        assert(allocations@.take(allocations@.len() as int) =~= allocations@);
        self.pending = kept;
        self.completed = completed;
    }

    /// Settled days plus pending days with at least one minute (saturating).
    pub fn finish(self) -> (r: u64)
        ensures
            r == sat_add_u64(self.completed, count_where(self.pending@, |e: (CalendarDate, u64)| has_a_minute(e)) as int),
    {
        let ghost f = |e: (CalendarDate, u64)| has_a_minute(e);
        let mut count: u64 = 0;
        let mut i: usize = 0;
        assert(self.pending@.take(0) =~= Seq::<(CalendarDate, u64)>::empty());
        while i < self.pending.len()
            invariant
                i <= self.pending@.len(),
                count == count_where(self.pending@.take(i as int), f),
                count <= i,
                f == (|e: (CalendarDate, u64)| has_a_minute(e)),
            decreases self.pending@.len() - i,
        {
            assert(self.pending@.take(i + 1).drop_last() =~= self.pending@.take(i as int));
            if self.pending[i].1 / 60 > 0 {
                count = count + 1;
            }
            i = i + 1;
        }
        assert(self.pending@.take(self.pending@.len() as int) =~= self.pending@);
        self.completed.saturating_add(count)
    }
}

proof fn lemma_filter_unique(p: Seq<(CalendarDate, u64)>, f: spec_fn((CalendarDate, u64)) -> bool)
    requires
        dates_unique(p),
    ensures
        dates_unique(p.filter(f)),
        forall|e: (CalendarDate, u64)| #[trigger] p.filter(f).contains(e) ==> p.contains(e),
    decreases p.len(),
{
    reveal_with_fuel(Seq::filter, 1);
    if p.len() > 0 {
        let q = p.drop_last();
        assert(dates_unique(q));
        lemma_filter_unique(q, f);
        assert(p =~= q.push(p.last()));
        if f(p.last()) {
            let r = q.filter(f).push(p.last());
            assert(p.filter(f) == r);
            assert forall|e: (CalendarDate, u64)| #[trigger] r.contains(e) implies p.contains(e) by {
                if q.filter(f).contains(e) {
                    let k = choose|k: int| 0 <= k < q.len() && q[k] == e;
                    assert(p[k] == e);
                } else {
                    assert(p[p.len() - 1] == e);
                }
            }
            assert forall|i: int, j: int| 0 <= i < r.len() && 0 <= j < r.len() && i != j implies r[i].0 != r[j].0 by {
                if i < r.len() - 1 && j < r.len() - 1 {
                } else if i < r.len() - 1 {
                    assert(q.filter(f).contains(r[i]));
                    let k = choose|k: int| 0 <= k < q.len() && q[k] == r[i];
                    assert(p[k] == r[i]);
                } else {
                    assert(q.filter(f).contains(r[j]));
                    let k = choose|k: int| 0 <= k < q.len() && q[k] == r[j];
                    assert(p[k] == r[j]);
                }
            }
        } else {
            assert(p.filter(f) == q.filter(f));
            assert forall|e: (CalendarDate, u64)| #[trigger] q.filter(f).contains(e) implies p.contains(e) by {
                let k = choose|k: int| 0 <= k < q.len() && q[k] == e;
                assert(p[k] == e);
            }
        }
    }
}


/// The RFC 3339 text a session instant is shown with: the instant at the
/// session's offset, or the epoch where chrono cannot represent it.
pub open spec fn shown_instant(ms: i64, offset: i32) -> Seq<char> {
    match rfc3339_at_offset(ms, offset) {
        Some(t) => t,
        None => match rfc3339_at_offset(0, offset) {
            Some(t) => t,
            None => Seq::empty(),
        },
    }
}

fn shown_instant_exec(ms: i64, offset: i32) -> (r: String)
    requires
        -86_400 < offset < 86_400,
    ensures
        r@ == shown_instant(ms, offset),
{
    match offset_rfc3339(ms, offset) {
        Some(t) => t,
        None => {
            proof {
                lemma_epoch_is_representable(offset as int);
            }
            offset_rfc3339(0, offset).unwrap()
        },
    }
}

/// The confidence a session is shown with: its stored label, at most
/// partial when its bounds are implausible.
pub open spec fn shown_confidence(s: StoredSession) -> Confidence {
    if session_bounds_spec(s.started_at_ms, s.ended_at_ms, s.duration_seconds).implausible {
        weaker_spec(parse_confidence_spec(s.confidence@), Confidence::Partial)
    } else {
        parse_confidence_spec(s.confidence@)
    }
}

pub open spec fn session_kind_spec(kind: Seq<char>) -> SessionKind {
    if kind == "server"@ {
        SessionKind::Server
    } else if kind == "world"@ {
        SessionKind::World
    } else if kind == "mixed"@ {
        SessionKind::Mixed
    } else {
        SessionKind::Menu
    }
}

/// The lower-case name a session kind is written with.
pub open spec fn session_kind_name(k: SessionKind) -> Seq<char> {
    match k {
        SessionKind::Server => "server"@,
        SessionKind::World => "world"@,
        SessionKind::Mixed => "mixed"@,
        SessionKind::Menu => "menu"@,
    }
}

/// A session stored with the name of its kind is shown with that kind:
/// server, world, mixed and menu sessions keep what they were.
pub proof fn law_session_kind_round_trip(k: SessionKind, r: Session, s: StoredSession)
    ensures
        session_kind_spec(session_kind_name(k)) == k,
        dto_matches(r, s) && s.kind@ == session_kind_name(k) ==> r.kind == k,
{
    reveal_strlit("server");
    reveal_strlit("world");
    reveal_strlit("mixed");
    reveal_strlit("menu");
    assert("world"@ != "server"@) by {
        assert("world"@.len() != "server"@.len());
    }
    assert("mixed"@ != "server"@) by {
        assert("mixed"@.len() != "server"@.len());
    }
    assert("menu"@ != "server"@) by {
        assert("menu"@.len() != "server"@.len());
    }
    assert("mixed"@ != "world"@) by {
        assert("mixed"@[0] != "world"@[0]);
    }
    assert("menu"@ != "world"@) by {
        assert("menu"@.len() != "world"@.len());
    }
    assert("menu"@ != "mixed"@) by {
        assert("menu"@.len() != "mixed"@.len());
    }
}

/// How a reconstructed exit is shown.
pub open spec fn shown_exit(e: ReconstructedExitKind) -> ExitKind {
    match e {
        ReconstructedExitKind::Clean => ExitKind::Clean,
        ReconstructedExitKind::Crash => ExitKind::Crash,
        ReconstructedExitKind::Unknown => ExitKind::Unknown,
    }
}

/// The stored names of exits and confidences read back as what was stored:
/// a session stored with a clean, crash or unknown exit is shown with that
/// exit unless its bounds are implausible, and a stored confidence reads
/// back as itself.
pub proof fn law_stored_names_round_trip(e: ReconstructedExitKind, c: Confidence, r: Session, s: StoredSession)
    ensures
        exit_kind_spec(exit_name(e), false) == shown_exit(e),
        exit_kind_spec(exit_name(e), true) == ExitKind::Unknown,
        parse_confidence_spec(confidence_name(c)) == c,
        dto_matches(r, s) && s.exit_kind@ == exit_name(e) && !session_bounds_spec(
            s.started_at_ms,
            s.ended_at_ms,
            s.duration_seconds,
        ).implausible ==> r.exit_kind == shown_exit(e),
{
    reveal_strlit("clean");
    reveal_strlit("crash");
    reveal_strlit("forced");
    reveal_strlit("unknown");
    reveal_strlit("verified");
    reveal_strlit("high");
    reveal_strlit("partial");
    assert("crash"@ != "clean"@) by {
        assert("crash"@[1] != "clean"@[1]);
    }
    assert("unknown"@ != "clean"@) by {
        assert("unknown"@.len() != "clean"@.len());
    }
    assert("unknown"@ != "crash"@) by {
        assert("unknown"@.len() != "crash"@.len());
    }
    assert("unknown"@ != "forced"@) by {
        assert("unknown"@.len() != "forced"@.len());
    }
    assert("high"@ != "verified"@) by {
        assert("high"@.len() != "verified"@.len());
    }
    assert("partial"@ != "verified"@) by {
        assert("partial"@.len() != "verified"@.len());
    }
    assert("partial"@ != "high"@) by {
        assert("partial"@.len() != "high"@.len());
    }
    assert("unknown"@ != "verified"@) by {
        assert("unknown"@.len() != "verified"@.len());
    }
    assert("unknown"@ != "high"@) by {
        assert("unknown"@.len() != "high"@.len());
    }
    assert("unknown"@ != "partial"@) by {
        assert("unknown"@[0] != "partial"@[0]);
    }
}

pub open spec fn exit_kind_spec(exit: Seq<char>, implausible: bool) -> ExitKind {
    if implausible {
        ExitKind::Unknown
    } else if exit == "clean"@ {
        ExitKind::Clean
    } else if exit == "crash"@ {
        ExitKind::Crash
    } else if exit == "forced"@ {
        ExitKind::Forced
    } else {
        ExitKind::Unknown
    }
}

pub open spec fn opt_text(o: Option<String>) -> Option<Seq<char>> {
    match o {
        Some(t) => Some(t@),
        None => None,
    }
}

/// The linked contexts of a session: its servers, then its worlds.
pub open spec fn contexts_match(c: Seq<SessionContext>, servers: Seq<String>, worlds: Seq<String>) -> bool {
    &&& c.len() == servers.len() + worlds.len()
    &&& forall|i: int|
        0 <= i < servers.len() ==> (#[trigger] c[i]).kind == SessionContextKind::Server && c[i].name@ == servers[i]@
    &&& forall|j: int|
        0 <= j < worlds.len() ==> (#[trigger] c[servers.len() + j]).kind == SessionContextKind::World
            && c[servers.len() + j].name@ == worlds[j]@
}

/// What the dashboard shows of a stored session.
pub open spec fn dto_matches(r: Session, s: StoredSession) -> bool {
    let b = session_bounds_spec(s.started_at_ms, s.ended_at_ms, s.duration_seconds);
    let off = observed_offset_spec(s.utc_offset_minutes);
    &&& r.id@ == s.id@
    &&& r.started_at@ == shown_instant(s.started_at_ms, off)
    &&& opt_text(r.ended_at) == match b.ended_at_ms {
        Some(e) => Some(shown_instant(e, off)),
        None => None,
    }
    &&& r.duration_minutes == match b.duration_seconds {
        Some(d) => Some((d / 60) as u64),
        None => None,
    }
    &&& r.launcher@ == display_launcher_spec(s.launcher@)
    &&& r.instance@ == s.instance@
    &&& r.version@ == s.version@
    &&& opt_text(r.loader) == opt_text(s.loader)
    &&& r.kind == session_kind_spec(s.kind@)
    &&& opt_text(r.destination) == if s.destination@.len() == 0 {
        None
    } else {
        Some(s.destination@)
    }
    &&& contexts_match(r.contexts@, s.server_destinations@, s.world_destinations@)
    &&& r.exit_kind == exit_kind_spec(s.exit_kind@, b.implausible)
    &&& r.confidence == shown_confidence(s)
    &&& r.source@ == s.source@
    &&& r.note is None
}

fn clone_opt(o: &Option<String>) -> (r: Option<String>)
    ensures
        opt_text(r) == opt_text(*o),
{
    match o {
        Some(t) => Some(t.clone()),
        None => None,
    }
}

/// `session_dto`: a stored session as the dashboard lists it.
pub fn session_dto(session: &StoredSession) -> (r: Session)
    ensures
        dto_matches(r, *session),
{
    let bounds = session_bounds(session);
    let confidence = if bounds.implausible {
        weaker_confidence(parse_confidence(session.confidence.as_str()), Confidence::Partial)
    } else {
        parse_confidence(session.confidence.as_str())
    };
    let mut contexts: Vec<SessionContext> = Vec::new();
    let servers = &session.server_destinations;
    let worlds = &session.world_destinations;
    let mut i: usize = 0;
    while i < servers.len()
        invariant
            i <= servers@.len(),
            contexts@.len() == i,
            forall|k: int|
                0 <= k < i ==> (#[trigger] contexts@[k]).kind == SessionContextKind::Server && contexts@[k].name@
                    == servers@[k]@,
        decreases servers@.len() - i,
    {
        contexts.push(SessionContext { kind: SessionContextKind::Server, name: servers[i].clone() });
        i = i + 1;
    }
    let mut j: usize = 0;
    while j < worlds.len()
        invariant
            j <= worlds@.len(),
            contexts@.len() == servers@.len() + j,
            forall|k: int|
                0 <= k < servers@.len() ==> (#[trigger] contexts@[k]).kind == SessionContextKind::Server
                    && contexts@[k].name@ == servers@[k]@,
            forall|k: int|
                0 <= k < j ==> (#[trigger] contexts@[servers@.len() + k]).kind == SessionContextKind::World
                    && contexts@[servers@.len() + k].name@ == worlds@[k]@,
        decreases worlds@.len() - j,
    {
        contexts.push(SessionContext { kind: SessionContextKind::World, name: worlds[j].clone() });
        j = j + 1;
    }
    let offset = observed_offset(session.utc_offset_minutes);
    let kind = if str_eq(session.kind.as_str(), "server") {
        SessionKind::Server
    } else if str_eq(session.kind.as_str(), "world") {
        SessionKind::World
    } else if str_eq(session.kind.as_str(), "mixed") {
        SessionKind::Mixed
    } else {
        SessionKind::Menu
    };
    let exit_kind = if bounds.implausible {
        ExitKind::Unknown
    } else if str_eq(session.exit_kind.as_str(), "clean") {
        ExitKind::Clean
    } else if str_eq(session.exit_kind.as_str(), "crash") {
        ExitKind::Crash
    } else if str_eq(session.exit_kind.as_str(), "forced") {
        ExitKind::Forced
    } else {
        ExitKind::Unknown
    };
    let ended_at = match bounds.ended_at_ms {
        Some(e) => Some(shown_instant_exec(e, offset)),
        None => None,
    };
    let duration_minutes = match bounds.duration_seconds {
        Some(d) => Some(d / 60),
        None => None,
    };
    let destination = if session.destination.as_str().is_empty() {
        None
    } else {
        Some(session.destination.clone())
    };
    Session {
        id: session.id.clone(),
        started_at: shown_instant_exec(session.started_at_ms, offset),
        ended_at,
        duration_minutes,
        launcher: display_launcher(session.launcher.as_str()),
        instance: session.instance.clone(),
        version: session.version.clone(),
        loader: clone_opt(&session.loader),
        kind,
        destination,
        contexts,
        exit_kind,
        confidence,
        source: session.source.clone(),
        note: None,
    }
}


/// The first entry whose key is `k`.
pub open spec fn find_key<K, V>(s: Seq<(K, V)>, k: K) -> Option<int>
    decreases s.len(),
{
    if s.len() == 0 {
        None
    } else {
        match find_key(s.drop_last(), k) {
            Some(i) => Some(i),
            None => if s.last().0 == k {
                Some(s.len() - 1)
            } else {
                None
            },
        }
    }
}

/// The value of `k`, or `dflt` where `k` has no entry.
pub open spec fn entry_or<K, V>(s: Seq<(K, V)>, k: K, dflt: V) -> V {
    match find_key(s, k) {
        Some(i) => s[i].1,
        None => dflt,
    }
}

/// `s` with the value of `k` set to `v`, a new entry at the end where `k` had none.
pub open spec fn put_key<K, V>(s: Seq<(K, V)>, k: K, v: V) -> Seq<(K, V)> {
    match find_key(s, k) {
        Some(i) => s.update(i, (k, v)),
        None => s.push((k, v)),
    }
}

proof fn lemma_find_key_facts<K, V>(s: Seq<(K, V)>, k: K)
    ensures
        find_key(s, k) matches Some(i) ==> 0 <= i < s.len() && s[i].0 == k,
        find_key(s, k) is None ==> forall|i: int| 0 <= i < s.len() ==> (#[trigger] s[i]).0 != k,
    decreases s.len(),
{
    if s.len() > 0 {
        lemma_find_key_facts(s.drop_last(), k);
        if find_key(s, k) is None {
            assert forall|i: int| 0 <= i < s.len() implies (#[trigger] s[i]).0 != k by {
                if i < s.len() - 1 {
                    assert(s.drop_last()[i] == s[i]);
                }
            }
        }
    }
}

proof fn lemma_find_key_extends<K, V>(s: Seq<(K, V)>, k: K, n: int)
    requires
        0 < n <= s.len(),
        find_key(s.take(n), k) is Some,
    ensures
        find_key(s, k) == find_key(s.take(n), k),
    decreases s.len() - n,
{
    if n < s.len() {
        assert(s.take(n + 1).drop_last() =~= s.take(n));
        lemma_find_key_extends(s, k, n + 1);
    } else {
        assert(s.take(n) =~= s);
    }
}

/// Monthly totals of play: seconds, sessions, seconds of sessions that are
/// not verified, and the weakest confidence seen.
#[derive(Clone, Copy, PartialEq, Eq, Debug, Structural)]
pub struct MonthAccumulator {
    pub seconds: u64,
    pub sessions: u64,
    pub estimated_seconds: u64,
    pub confidence: Option<Confidence>,
}

/// Daily totals of play: seconds, slices and the weakest confidence seen.
#[derive(Clone, Copy, PartialEq, Eq, Debug, Structural)]
pub struct DayAccumulator {
    pub seconds: u64,
    pub sessions: u64,
    pub confidence: Option<Confidence>,
}

pub open spec fn month_zero() -> MonthAccumulator {
    MonthAccumulator { seconds: 0, sessions: 0, estimated_seconds: 0, confidence: None }
}

pub open spec fn day_zero() -> DayAccumulator {
    DayAccumulator { seconds: 0, sessions: 0, confidence: None }
}

pub open spec fn weaker_or(current: Option<Confidence>, c: Confidence) -> Option<Confidence> {
    Some(
        match current {
            Some(x) => weaker_spec(x, c),
            None => c,
        },
    )
}

pub open spec fn month_after_slice(m: MonthAccumulator, seconds: u64, c: Confidence) -> MonthAccumulator {
    MonthAccumulator {
        seconds: sat_add_u64(m.seconds, seconds as int),
        sessions: m.sessions,
        estimated_seconds: if c != Confidence::Verified {
            sat_add_u64(m.estimated_seconds, seconds as int)
        } else {
            m.estimated_seconds
        },
        confidence: weaker_or(m.confidence, c),
    }
}

pub open spec fn day_after_slice(d: DayAccumulator, seconds: u64, c: Confidence) -> DayAccumulator {
    DayAccumulator {
        seconds: sat_add_u64(d.seconds, seconds as int),
        sessions: sat_add_u64(d.sessions, 1),
        confidence: weaker_or(d.confidence, c),
    }
}

/// The first day of the daily window that ends on `end` (364 days earlier).
pub open spec fn calendar_start(end: CalendarDate) -> CalendarDate {
    match days_before(end, 364) {
        Some(d) => d,
        None => first_date(),
    }
}

pub open spec fn day_in_calendar(end: Option<CalendarDate>, date: CalendarDate) -> bool {
    match end {
        Some(e) => date_le(date, e) && date_le(calendar_start(e), date),
        None => false,
    }
}

/// The monthly window: the month of `end` and the eleven before it.
pub open spec fn month_in_calendar(end: Option<CalendarDate>, m: int) -> bool {
    match end {
        Some(e) => month_index_spec(e) - 11 <= m <= month_index_spec(e),
        None => false,
    }
}

pub open spec fn month_key(date: CalendarDate) -> i32 {
    month_index_spec(date) as i32
}

/// The per-month and per-day totals, and the months a session touched.
pub struct SliceState {
    pub monthly: Seq<(i32, MonthAccumulator)>,
    pub daily: Seq<(CalendarDate, DayAccumulator)>,
    pub months: Seq<i32>,
}

pub open spec fn apply_slice(
    st: SliceState,
    date: CalendarDate,
    seconds: u64,
    c: Confidence,
    end: Option<CalendarDate>,
) -> SliceState {
    let mk = month_key(date);
    let st1 = if month_in_calendar(end, mk as int) {
        SliceState {
            monthly: put_key(st.monthly, mk, month_after_slice(entry_or(st.monthly, mk, month_zero()), seconds, c)),
            daily: st.daily,
            months: if st.months.contains(mk) {
                st.months
            } else {
                st.months.push(mk)
            },
        }
    } else {
        st
    };
    if day_in_calendar(end, date) {
        SliceState {
            daily: put_key(st1.daily, date, day_after_slice(entry_or(st1.daily, date, day_zero()), seconds, c)),
            ..st1
        }
    } else {
        st1
    }
}

pub open spec fn apply_slices(
    st: SliceState,
    a: Seq<(CalendarDate, u64)>,
    c: Confidence,
    end: Option<CalendarDate>,
) -> SliceState
    decreases a.len(),
{
    if a.len() == 0 {
        st
    } else {
        apply_slice(apply_slices(st, a.drop_last(), c, end), a.last().0, a.last().1, c, end)
    }
}

/// One more session for each of the months `ks`.
pub open spec fn count_month_sessions(m: Seq<(i32, MonthAccumulator)>, ks: Seq<i32>) -> Seq<(i32, MonthAccumulator)>
    decreases ks.len(),
{
    if ks.len() == 0 {
        m
    } else {
        let p = count_month_sessions(m, ks.drop_last());
        let k = ks.last();
        match find_key(p, k) {
            Some(i) => p.update(i, (k, MonthAccumulator { sessions: sat_add_u64(p[i].1.sessions, 1), ..p[i].1 })),
            None => p,
        }
    }
}

/// The dashboard's running totals over the sessions added so far.
pub struct DashboardAccumulator {
    pub total_seconds: u64,
    pub longest_seconds: u64,
    pub known_duration_sessions: u64,
    pub session_count: u64,
    pub verified_sessions: u64,
    pub bounded_sessions: u64,
    pub interval_union: IntervalUnion,
    pub active_days: ActiveDayAccumulator,
    pub monthly: Vec<(i32, MonthAccumulator)>,
    pub daily: Vec<(CalendarDate, DayAccumulator)>,
    pub calendar_end: Option<CalendarDate>,
    pub first_observation: Option<(i64, Option<i32>)>,
    pub last_observation: Option<(i64, Option<i32>)>,
    pub recent_sessions: Vec<Session>,
}

/// Everything but the listed sessions, as values.
pub struct DashboardView {
    pub total_seconds: u64,
    pub longest_seconds: u64,
    pub known_duration_sessions: u64,
    pub session_count: u64,
    pub verified_sessions: u64,
    pub bounded_sessions: u64,
    pub interval_union: IntervalUnion,
    pub pending: Seq<(CalendarDate, u64)>,
    pub completed: u64,
    pub monthly: Seq<(i32, MonthAccumulator)>,
    pub daily: Seq<(CalendarDate, DayAccumulator)>,
    pub calendar_end: Option<CalendarDate>,
    pub first_observation: Option<(i64, Option<i32>)>,
    pub last_observation: Option<(i64, Option<i32>)>,
}

/// Where a session's interval ends: its end, else its start plus its known
/// duration (where that fits in milliseconds), else nowhere.
pub open spec fn interval_end(start: i64, b: SessionBounds) -> Option<i64> {
    match b.ended_at_ms {
        Some(e) => Some(e),
        None => match b.duration_seconds {
            Some(d) => if d * 1000 > i64::MAX {
                None
            } else {
                Some(vstd::math::min(start + d * 1000, i64::MAX as int) as i64)
            },
            None => None,
        },
    }
}

pub open spec fn known_duration(b: SessionBounds) -> u64 {
    match b.duration_seconds {
        Some(d) => d,
        None => 0,
    }
}

/// The calendar end and windows once the calendar reaches `date`.
pub open spec fn calendar_after(v: DashboardView, date: CalendarDate) -> DashboardView {
    if v.calendar_end matches Some(c) && date_le(date, c) {
        v
    } else {
        DashboardView {
            calendar_end: Some(date),
            daily: v.daily.filter(|e: (CalendarDate, DayAccumulator)| day_in_calendar(Some(date), e.0)),
            monthly: v.monthly.filter(|e: (i32, MonthAccumulator)| month_in_calendar(Some(date), e.0 as int)),
            ..v
        }
    }
}

/// What a session can be added with: chrono can name the local date of its
/// observed end and of every instant its slices read. An instant outside
/// chrono's range counts as the epoch; one inside it whose local date falls
/// outside chrono's dates is what `date_naive` panics on.
pub open spec fn addable(s: StoredSession) -> bool {
    let b = session_bounds_spec(s.started_at_ms, s.ended_at_ms, s.duration_seconds);
    let off = observed_offset_spec(s.utc_offset_minutes) as int;
    let observed_end = match interval_end(s.started_at_ms, b) {
        Some(e) => e,
        None => s.started_at_ms,
    };
    &&& local_date_representable(observed_end as int, off)
    &&& allocation_span_representable(s.started_at_ms, known_duration(b), off)
}


/// The counters and observations once `s` is counted.
pub open spec fn counted_spec(v: DashboardView, s: StoredSession) -> DashboardView {
    let b = session_bounds_spec(s.started_at_ms, s.ended_at_ms, s.duration_seconds);
    let seconds = known_duration(b);
    let c = shown_confidence(s);
    let start = s.started_at_ms;
    let observed_end = match interval_end(start, b) {
        Some(e) => e,
        None => start,
    };
    DashboardView {
        known_duration_sessions: if b.duration_seconds is Some {
            sat_add_u64(v.known_duration_sessions, 1)
        } else {
            v.known_duration_sessions
        },
        session_count: sat_add_u64(v.session_count, 1),
        total_seconds: sat_add_u64(v.total_seconds, seconds as int),
        longest_seconds: if seconds > v.longest_seconds {
            seconds
        } else {
            v.longest_seconds
        },
        verified_sessions: if c == Confidence::Verified {
            sat_add_u64(v.verified_sessions, 1)
        } else {
            v.verified_sessions
        },
        bounded_sessions: if b.ended_at_ms is Some && b.duration_seconds is Some {
            sat_add_u64(v.bounded_sessions, 1)
        } else {
            v.bounded_sessions
        },
        first_observation: if v.first_observation matches Some(f) && !(start < f.0) {
            v.first_observation
        } else {
            Some((start, s.utc_offset_minutes))
        },
        last_observation: if v.last_observation matches Some(l) && !(observed_end > l.0) {
            v.last_observation
        } else {
            Some((observed_end, s.utc_offset_minutes))
        },
        ..v
    }
}

/// The calendar reaches the session's observed end, and its interval joins the union.
pub open spec fn placed_spec(v: DashboardView, s: StoredSession) -> DashboardView {
    let b = session_bounds_spec(s.started_at_ms, s.ended_at_ms, s.duration_seconds);
    let off = observed_offset_spec(s.utc_offset_minutes);
    let start = s.started_at_ms;
    let ie = interval_end(start, b);
    let observed_end = match ie {
        Some(e) => e,
        None => start,
    };
    let v2 = calendar_after(v, observed_date_spec(observed_end, off));
    DashboardView {
        interval_union: if ie matches Some(e) && e > start {
            union_add_spec(v2.interval_union, start, ie->0)
        } else {
            v2.interval_union
        },
        ..v2
    }
}

/// The session's slices go to its active days, months and days.
pub open spec fn spread_spec(v: DashboardView, s: StoredSession) -> DashboardView {
    let b = session_bounds_spec(s.started_at_ms, s.ended_at_ms, s.duration_seconds);
    let c = shown_confidence(s);
    let off = observed_offset_spec(s.utc_offset_minutes);
    let start = s.started_at_ms;
    let a = allocations_spec(start, known_duration(b), off);
    let active = active_add_spec(v.pending, v.completed, observed_date_spec(start, off), a);
    let st = apply_slices(SliceState { monthly: v.monthly, daily: v.daily, months: Seq::empty() }, a, c, v.calendar_end);
    DashboardView {
        pending: active.0,
        completed: active.1,
        monthly: count_month_sessions(st.monthly, st.months),
        daily: st.daily,
        ..v
    }
}

/// The running totals once `s` is added.
pub open spec fn add_spec(v: DashboardView, s: StoredSession) -> DashboardView {
    spread_spec(placed_spec(counted_spec(v, s), s), s)
}

fn find_month(v: &Vec<(i32, MonthAccumulator)>, k: i32) -> (r: Option<usize>)
    ensures
        match r {
            Some(i) => i < v@.len() && find_key(v@, k) == Some(i as int),
            None => find_key(v@, k) is None,
        },
{
    let mut i: usize = 0;
    assert(v@.take(0) =~= Seq::<(i32, MonthAccumulator)>::empty());
    while i < v.len()
        invariant
            i <= v@.len(),
            find_key(v@.take(i as int), k) is None,
        decreases v@.len() - i,
    {
        assert(v@.take(i + 1).drop_last() =~= v@.take(i as int));
        if v[i].0 == k {
            proof {
                lemma_find_key_extends(v@, k, i + 1);
            }
            return Some(i);
        }
        i = i + 1;
    }
    assert(v@.take(i as int) =~= v@);
    None
}

fn find_day(v: &Vec<(CalendarDate, DayAccumulator)>, k: CalendarDate) -> (r: Option<usize>)
    ensures
        match r {
            Some(i) => i < v@.len() && find_key(v@, k) == Some(i as int),
            None => find_key(v@, k) is None,
        },
{
    let mut i: usize = 0;
    assert(v@.take(0) =~= Seq::<(CalendarDate, DayAccumulator)>::empty());
    while i < v.len()
        invariant
            i <= v@.len(),
            find_key(v@.take(i as int), k) is None,
        decreases v@.len() - i,
    {
        assert(v@.take(i + 1).drop_last() =~= v@.take(i as int));
        if v[i].0 == k {
            proof {
                lemma_find_key_extends(v@, k, i + 1);
            }
            return Some(i);
        }
        i = i + 1;
    }
    assert(v@.take(i as int) =~= v@);
    None
}

fn contains_month(v: &Vec<i32>, k: i32) -> (r: bool)
    ensures
        r == v@.contains(k),
{
    let mut i: usize = 0;
    while i < v.len()
        invariant
            i <= v@.len(),
            forall|j: int| 0 <= j < i ==> v@[j] != k,
        decreases v@.len() - i,
    {
        if v[i] == k {
            assert(v@[i as int] == k);
            return true;
        }
        i = i + 1;
    }
    false
}

fn retain_days(v: &Vec<(CalendarDate, DayAccumulator)>, end: CalendarDate, start: CalendarDate) -> (r: Vec<
    (CalendarDate, DayAccumulator),
>)
    requires
        start == calendar_start(end),
    ensures
        r@ == v@.filter(|e: (CalendarDate, DayAccumulator)| day_in_calendar(Some(end), e.0)),
{
    let ghost keep = |e: (CalendarDate, DayAccumulator)| day_in_calendar(Some(end), e.0);
    let mut r: Vec<(CalendarDate, DayAccumulator)> = Vec::new();
    let mut i: usize = 0;
    assert(v@.take(0).filter(keep) =~= Seq::<(CalendarDate, DayAccumulator)>::empty()) by {
        reveal_with_fuel(Seq::filter, 1);
    }
    while i < v.len()
        invariant
            i <= v@.len(),
            start == calendar_start(end),
            keep == (|e: (CalendarDate, DayAccumulator)| day_in_calendar(Some(end), e.0)),
            r@ == v@.take(i as int).filter(keep),
        decreases v@.len() - i,
    {
        assert(v@.take(i + 1).drop_last() =~= v@.take(i as int));
        assert(v@.take(i + 1).last() == v@[i as int]);
        proof {
            reveal_with_fuel(Seq::filter, 1);
        }
        if date_le_exec(v[i].0, end) && date_le_exec(start, v[i].0) {
            r.push(v[i]);
        }
        i = i + 1;
    }
    assert(v@.take(i as int) =~= v@);
    r
}

fn retain_months(v: &Vec<(i32, MonthAccumulator)>, end: CalendarDate) -> (r: Vec<(i32, MonthAccumulator)>)
    requires
        end.wf(),
    ensures
        r@ == v@.filter(|e: (i32, MonthAccumulator)| month_in_calendar(Some(end), e.0 as int)),
{
    let ghost keep = |e: (i32, MonthAccumulator)| month_in_calendar(Some(end), e.0 as int);
    let latest = month_index(end);
    let earliest = latest - 11;
    let mut r: Vec<(i32, MonthAccumulator)> = Vec::new();
    let mut i: usize = 0;
    assert(v@.take(0).filter(keep) =~= Seq::<(i32, MonthAccumulator)>::empty()) by {
        reveal_with_fuel(Seq::filter, 1);
    }
    while i < v.len()
        invariant
            i <= v@.len(),
            latest == month_index_spec(end),
            earliest == latest - 11,
            keep == (|e: (i32, MonthAccumulator)| month_in_calendar(Some(end), e.0 as int)),
            r@ == v@.take(i as int).filter(keep),
        decreases v@.len() - i,
    {
        assert(v@.take(i + 1).drop_last() =~= v@.take(i as int));
        assert(v@.take(i + 1).last() == v@[i as int]);
        proof {
            reveal_with_fuel(Seq::filter, 1);
        }
        if earliest <= v[i].0 && v[i].0 <= latest {
            r.push(v[i]);
        }
        i = i + 1;
    }
    assert(v@.take(i as int) =~= v@);
    r
}

impl DashboardAccumulator {
    /// The counters, observations and windows as values. The recent
    /// sessions, already shaped for display, are read from the field itself.
    pub open spec fn view_of(&self) -> DashboardView {
        DashboardView {
            total_seconds: self.total_seconds,
            longest_seconds: self.longest_seconds,
            known_duration_sessions: self.known_duration_sessions,
            session_count: self.session_count,
            verified_sessions: self.verified_sessions,
            bounded_sessions: self.bounded_sessions,
            interval_union: self.interval_union,
            pending: self.active_days.pending@,
            completed: self.active_days.completed,
            monthly: self.monthly@,
            daily: self.daily@,
            calendar_end: self.calendar_end,
            first_observation: self.first_observation,
            last_observation: self.last_observation,
        }
    }

    pub open spec fn wf(&self) -> bool {
        &&& self.active_days.wf()
        &&& self.calendar_end matches Some(e) ==> e.wf()
    }

    pub fn new() -> (r: DashboardAccumulator)
        ensures
            r.wf(),
            r.view_of() == (DashboardView {
                total_seconds: 0,
                longest_seconds: 0,
                known_duration_sessions: 0,
                session_count: 0,
                verified_sessions: 0,
                bounded_sessions: 0,
                interval_union: IntervalUnion { current: None, completed_millis: 0 },
                pending: Seq::empty(),
                completed: 0,
                monthly: Seq::empty(),
                daily: Seq::empty(),
                calendar_end: None,
                first_observation: None,
                last_observation: None,
            }),
            r.recent_sessions@.len() == 0,
    {
        DashboardAccumulator {
            total_seconds: 0,
            longest_seconds: 0,
            known_duration_sessions: 0,
            session_count: 0,
            verified_sessions: 0,
            bounded_sessions: 0,
            interval_union: IntervalUnion::new(),
            active_days: ActiveDayAccumulator::new(),
            monthly: Vec::new(),
            daily: Vec::new(),
            calendar_end: None,
            first_observation: None,
            last_observation: None,
            recent_sessions: Vec::new(),
        }
    }

    /// Moves the calendar's end to `date` when it is later, dropping what
    /// falls out of the daily and monthly windows.
    pub fn update_calendar_end(&mut self, date: CalendarDate)
        requires
            old(self).wf(),
            date.wf(),
        ensures
            final(self).wf(),
            final(self).view_of() == calendar_after(old(self).view_of(), date),
            final(self).recent_sessions@ == old(self).recent_sessions@,
    {
        if let Some(current) = self.calendar_end {
            if date_le_exec(date, current) {
                return;
            }
        }
        self.calendar_end = Some(date);
        let earliest = match date.sub_days(364) {
            Some(d) => d,
            None => CalendarDate { year: crate::calendar::MIN_YEAR, month: 1, day: 1 },
        };
        let daily = retain_days(&self.daily, date, earliest);
        self.daily = daily;
        let monthly = retain_months(&self.monthly, date);
        self.monthly = monthly;
    }

    /// Whether `date` lies in the daily window.
    pub fn day_is_in_calendar(&self, date: CalendarDate) -> (r: bool)
        requires
            self.wf(),
        ensures
            r == day_in_calendar(self.calendar_end, date),
    {
        match self.calendar_end {
            Some(end) => {
                let earliest = match end.sub_days(364) {
                    Some(d) => d,
                    None => CalendarDate { year: crate::calendar::MIN_YEAR, month: 1, day: 1 },
                };
                date_le_exec(date, end) && date_le_exec(earliest, date)
            },
            None => false,
        }
    }

    /// Whether month `month` lies in the monthly window.
    pub fn month_is_in_calendar(&self, month: i32) -> (r: bool)
        requires
            self.wf(),
        ensures
            r == month_in_calendar(self.calendar_end, month as int),
    {
        match self.calendar_end {
            Some(end) => {
                let latest = month_index(end);
                month >= latest - 11 && month <= latest
            },
            None => false,
        }
    }
}


fn weaker_or_exec(current: Option<Confidence>, c: Confidence) -> (r: Option<Confidence>)
    ensures
        r == weaker_or(current, c),
{
    Some(
        match current {
            Some(x) => weaker_confidence(x, c),
            None => c,
        },
    )
}

fn bump_month(v: &mut Vec<(i32, MonthAccumulator)>, k: i32, seconds: u64, c: Confidence)
    ensures
        final(v)@ == put_key(
            old(v)@,
            k,
            month_after_slice(entry_or(old(v)@, k, month_zero()), seconds, c),
        ),
{
    let found = find_month(v, k);
    let m = match found {
        Some(i) => v[i].1,
        None => MonthAccumulator { seconds: 0, sessions: 0, estimated_seconds: 0, confidence: None },
    };
    let next = MonthAccumulator {
        seconds: m.seconds.saturating_add(seconds),
        sessions: m.sessions,
        estimated_seconds: if c != Confidence::Verified {
            m.estimated_seconds.saturating_add(seconds)
        } else {
            m.estimated_seconds
        },
        confidence: weaker_or_exec(m.confidence, c),
    };
    match found {
        Some(i) => {
            v.set(i, (k, next));
        },
        None => {
            v.push((k, next));
        },
    }
}

fn bump_day(v: &mut Vec<(CalendarDate, DayAccumulator)>, k: CalendarDate, seconds: u64, c: Confidence)
    ensures
        final(v)@ == put_key(old(v)@, k, day_after_slice(entry_or(old(v)@, k, day_zero()), seconds, c)),
{
    let found = find_day(v, k);
    let d = match found {
        Some(i) => v[i].1,
        None => DayAccumulator { seconds: 0, sessions: 0, confidence: None },
    };
    let next = DayAccumulator {
        seconds: d.seconds.saturating_add(seconds),
        sessions: d.sessions.saturating_add(1),
        confidence: weaker_or_exec(d.confidence, c),
    };
    match found {
        Some(i) => {
            v.set(i, (k, next));
        },
        None => {
            v.push((k, next));
        },
    }
}

fn count_sessions_of_months(v: &mut Vec<(i32, MonthAccumulator)>, ks: &Vec<i32>)
    ensures
        final(v)@ == count_month_sessions(old(v)@, ks@),
{
    let ghost m0 = v@;
    let mut j: usize = 0;
    assert(ks@.take(0) =~= Seq::<i32>::empty());
    while j < ks.len()
        invariant
            j <= ks@.len(),
            v@ == count_month_sessions(m0, ks@.take(j as int)),
        decreases ks@.len() - j,
    {
        assert(ks@.take(j + 1).drop_last() =~= ks@.take(j as int));
        let k = ks[j];
        match find_month(v, k) {
            Some(i) => {
                let m = v[i].1;
                v.set(i, (k, MonthAccumulator { sessions: m.sessions.saturating_add(1), ..m }));
            },
            None => {},
        }
        j = j + 1;
    }
    assert(ks@.take(ks@.len() as int) =~= ks@);
}

impl DashboardAccumulator {
    fn count_session(&mut self, session: &StoredSession, bounds: SessionBounds, confidence: Confidence)
        requires
            bounds == session_bounds_spec(session.started_at_ms, session.ended_at_ms, session.duration_seconds),
            confidence == shown_confidence(*session),
        ensures
            final(self).view_of() == counted_spec(old(self).view_of(), *session),
            final(self).active_days == old(self).active_days,
            final(self).monthly@ == old(self).monthly@,
            final(self).daily@ == old(self).daily@,
            final(self).calendar_end == old(self).calendar_end,
            old(self).recent_sessions@.len() < 24 ==> final(self).recent_sessions@.len() == old(
                self,
            ).recent_sessions@.len() + 1 && final(self).recent_sessions@.take(
                old(self).recent_sessions@.len() as int,
            ) == old(self).recent_sessions@ && dto_matches(final(self).recent_sessions@.last(), *session),
            old(self).recent_sessions@.len() >= 24 ==> final(self).recent_sessions@ == old(self).recent_sessions@,
    {
        let ghost r0 = self.recent_sessions@;
        let seconds: u64 = match bounds.duration_seconds {
            Some(d) => d,
            None => 0,
        };
        if bounds.duration_seconds.is_some() {
            self.known_duration_sessions = self.known_duration_sessions.saturating_add(1);
        }
        self.session_count = self.session_count.saturating_add(1);
        self.total_seconds = self.total_seconds.saturating_add(seconds);
        if seconds > self.longest_seconds {
            self.longest_seconds = seconds;
        }
        if confidence == Confidence::Verified {
            self.verified_sessions = self.verified_sessions.saturating_add(1);
        }
        if bounds.ended_at_ms.is_some() && bounds.duration_seconds.is_some() {
            self.bounded_sessions = self.bounded_sessions.saturating_add(1);
        }
        if self.recent_sessions.len() < 24 {
            self.recent_sessions.push(session_dto(session));
            assert(self.recent_sessions@.take(r0.len() as int) =~= r0);
        }
        let start = session.started_at_ms;
        let replace_first = match self.first_observation {
            Some((first, _)) => start < first,
            None => true,
        };
        if replace_first {
            self.first_observation = Some((start, session.utc_offset_minutes));
        }
        let observed_end = match interval_end_exec(start, bounds) {
            Some(e) => e,
            None => start,
        };
        let replace_last = match self.last_observation {
            Some((last, _)) => observed_end > last,
            None => true,
        };
        if replace_last {
            self.last_observation = Some((observed_end, session.utc_offset_minutes));
        }
    }

    fn place_session(&mut self, session: &StoredSession, bounds: SessionBounds)
        requires
            old(self).wf(),
            bounds == session_bounds_spec(session.started_at_ms, session.ended_at_ms, session.duration_seconds),
            addable(*session),
        ensures
            final(self).wf(),
            final(self).view_of() == placed_spec(old(self).view_of(), *session),
            final(self).recent_sessions@ == old(self).recent_sessions@,
    {
        let start = session.started_at_ms;
        let ie = interval_end_exec(start, bounds);
        let observed_end = match ie {
            Some(e) => e,
            None => start,
        };
        let offset = observed_offset(session.utc_offset_minutes);
        let end_date = observed_date(observed_end, offset);
        self.update_calendar_end(end_date);
        if let Some(e) = ie {
            if e > start {
                self.interval_union.add(start, e);
            }
        }
    }

    #[verifier::rlimit(40)]
    fn spread_session(&mut self, session: &StoredSession, bounds: SessionBounds, confidence: Confidence)
        requires
            old(self).wf(),
            bounds == session_bounds_spec(session.started_at_ms, session.ended_at_ms, session.duration_seconds),
            confidence == shown_confidence(*session),
            addable(*session),
        ensures
            final(self).wf(),
            final(self).view_of() == spread_spec(old(self).view_of(), *session),
            final(self).recent_sessions@ == old(self).recent_sessions@,
    {
        let ghost v3 = self.view_of();
        let ghost r1 = self.recent_sessions@;
        let start = session.started_at_ms;
        let offset = observed_offset(session.utc_offset_minutes);
        let allocations = session_day_allocations(session, bounds);
        assert(local_date_representable(start as int, offset as int));
        let start_date = observed_date(start, offset);
        self.active_days.add(start_date, &allocations);
        let ghost v4 = self.view_of();
        let mut months: Vec<i32> = Vec::new();
        let ghost st0 = SliceState { monthly: v3.monthly, daily: v3.daily, months: Seq::empty() };
        let mut j: usize = 0;
        assert(allocations@.take(0) =~= Seq::<(CalendarDate, u64)>::empty());
        assert(months@ =~= Seq::<i32>::empty());
        while j < allocations.len()
            invariant
                j <= allocations@.len(),
                self.wf(),
                dates_wf(allocations@),
                self.recent_sessions@ == r1,
                self.view_of() == (DashboardView { monthly: self.monthly@, daily: self.daily@, ..v4 }),
                (SliceState { monthly: self.monthly@, daily: self.daily@, months: months@ }) == apply_slices(
                    st0,
                    allocations@.take(j as int),
                    confidence,
                    v4.calendar_end,
                ),
            decreases allocations@.len() - j,
        {
            assert(allocations@.take(j + 1).drop_last() =~= allocations@.take(j as int));
            let (date, slice) = allocations[j];
            assert(date.wf());
            let mk = month_index(date);
            if self.month_is_in_calendar(mk) {
                if !contains_month(&months, mk) {
                    months.push(mk);
                }
                bump_month(&mut self.monthly, mk, slice, confidence);
            }
            if self.day_is_in_calendar(date) {
                bump_day(&mut self.daily, date, slice, confidence);
            }
            j = j + 1;
        }
        assert(allocations@.take(allocations@.len() as int) =~= allocations@);
        count_sessions_of_months(&mut self.monthly, &months);
    }

    /// Adds one session: its counters, its observations, the calendar end,
    /// its interval, its active days and its slices of the windows.
    pub fn add(&mut self, session: &StoredSession)
        requires
            old(self).wf(),
            addable(*session),
        ensures
            final(self).wf(),
            final(self).view_of() == add_spec(old(self).view_of(), *session),
            old(self).recent_sessions@.len() < 24 ==> final(self).recent_sessions@.len() == old(
                self,
            ).recent_sessions@.len() + 1 && final(self).recent_sessions@.take(
                old(self).recent_sessions@.len() as int,
            ) == old(self).recent_sessions@ && dto_matches(final(self).recent_sessions@.last(), *session),
            old(self).recent_sessions@.len() >= 24 ==> final(self).recent_sessions@ == old(self).recent_sessions@,
    {
        let bounds = session_bounds(session);
        let confidence = if bounds.implausible {
            weaker_confidence(parse_confidence(session.confidence.as_str()), Confidence::Partial)
        } else {
            parse_confidence(session.confidence.as_str())
        };
        self.count_session(session, bounds, confidence);
        self.place_session(session, bounds);
        self.spread_session(session, bounds, confidence);
    }
}

/// Where a session's interval ends, computed.
fn interval_end_exec(start: i64, bounds: SessionBounds) -> (r: Option<i64>)
    ensures
        r == interval_end(start, bounds),
{
    match bounds.ended_at_ms {
        Some(e) => Some(e),
        None => match bounds.duration_seconds {
            Some(d) => {
                if d <= (i64::MAX as u64) / 1000 {
                    let ms: u64 = d * 1000;
                    let sum: i128 = start as i128 + ms as i128;
                    Some(
                        if sum > i64::MAX as i128 {
                            i64::MAX
                        } else {
                            sum as i64
                        },
                    )
                } else {
                    None
                }
            },
            None => None,
        },
    }
}


/// The five things the dashboard ranks by play time.
#[derive(Clone, Copy, PartialEq, Eq, Debug, Structural)]
pub enum RuntimeCategory {
    Launcher,
    Instance,
    Version,
    Server,
    World,
}

/// The names a session adds its time to in a category.
pub open spec fn names_for(cat: RuntimeCategory, s: StoredSession) -> Seq<Seq<char>> {
    match cat {
        RuntimeCategory::Launcher => seq![display_launcher_spec(s.launcher@)],
        RuntimeCategory::Instance => seq![s.instance@],
        RuntimeCategory::Version => seq![s.version@],
        RuntimeCategory::Server => s.server_destinations@.map_values(|d: String| d@),
        RuntimeCategory::World => s.world_destinations@.map_values(|d: String| d@),
    }
}

/// The seconds a session counts with: its plausible known duration.
pub open spec fn counted_seconds(s: StoredSession) -> u64 {
    known_duration(session_bounds_spec(s.started_at_ms, s.ended_at_ms, s.duration_seconds))
}

pub open spec fn add_names(t: Seq<(Seq<char>, u64)>, names: Seq<Seq<char>>, seconds: u64) -> Seq<(Seq<char>, u64)>
    decreases names.len(),
{
    if names.len() == 0 {
        t
    } else {
        add_runtime_spec(add_names(t, names.drop_last(), seconds), names.last(), seconds)
    }
}

/// The per-name totals of a category over `sessions`, in first-seen order.
pub open spec fn category_totals(sessions: Seq<StoredSession>, cat: RuntimeCategory) -> Seq<(Seq<char>, u64)>
    decreases sessions.len(),
{
    if sessions.len() == 0 {
        Seq::empty()
    } else {
        add_names(category_totals(sessions.drop_last(), cat), names_for(cat, sessions.last()), counted_seconds(sessions.last()))
    }
}

fn add_destinations(totals: &mut RuntimeTotals, names: &Vec<String>, seconds: u64)
    requires
        names_distinct(totals_view(old(totals).entries@)),
    ensures
        names_distinct(totals_view(final(totals).entries@)),
        totals_view(final(totals).entries@) == add_names(
            totals_view(old(totals).entries@),
            names@.map_values(|d: String| d@),
            seconds,
        ),
{
    let ghost t0 = totals_view(totals.entries@);
    let ghost nv = names@.map_values(|d: String| d@);
    let mut i: usize = 0;
    assert(nv.take(0) =~= Seq::<Seq<char>>::empty());
    while i < names.len()
        invariant
            i <= names@.len(),
            nv == names@.map_values(|d: String| d@),
            names_distinct(totals_view(totals.entries@)),
            totals_view(totals.entries@) == add_names(t0, nv.take(i as int), seconds),
        decreases names@.len() - i,
    {
        assert(nv.take(i + 1).drop_last() =~= nv.take(i as int));
        assert(nv.take(i + 1).last() == names@[i as int]@);
        add_runtime(totals, names[i].as_str(), seconds);
        i = i + 1;
    }
    assert(nv.take(names@.len() as int) =~= nv);
}

fn add_one_name(totals: &mut RuntimeTotals, name: &str, seconds: u64)
    requires
        names_distinct(totals_view(old(totals).entries@)),
    ensures
        names_distinct(totals_view(final(totals).entries@)),
        totals_view(final(totals).entries@) == add_names(totals_view(old(totals).entries@), seq![name@], seconds),
{
    let ghost t0 = totals_view(totals.entries@);
    add_runtime(totals, name, seconds);
    assert(seq![name@].drop_last() =~= Seq::<Seq<char>>::empty());
    assert(seq![name@].last() == name@);
    assert(add_names(t0, Seq::<Seq<char>>::empty(), seconds) == t0);
}

pub open spec fn top_matches(r: NamedMinutes, t: Seq<(Seq<char>, u64)>, empty: Seq<char>) -> bool {
    (r.name@, r.minutes) == top_runtime_spec(t, empty)
}

/// `top_metrics_from_sessions`: the top launcher, instance, version, server
/// and world by play time over `sessions`.
pub fn top_metrics_from_sessions(sessions: &Vec<StoredSession>) -> (r: TopMetrics)
    ensures
        top_matches(r.launcher, category_totals(sessions@, RuntimeCategory::Launcher), "No launcher evidence"@),
        top_matches(r.instance, category_totals(sessions@, RuntimeCategory::Instance), "No instance evidence"@),
        top_matches(r.version, category_totals(sessions@, RuntimeCategory::Version), "No version evidence"@),
        top_matches(r.server, category_totals(sessions@, RuntimeCategory::Server), "No server evidence"@),
        top_matches(r.world, category_totals(sessions@, RuntimeCategory::World), "No world evidence"@),
{
    let mut launchers = RuntimeTotals::new();
    let mut instances = RuntimeTotals::new();
    let mut versions = RuntimeTotals::new();
    let mut servers = RuntimeTotals::new();
    let mut worlds = RuntimeTotals::new();
    let mut i: usize = 0;
    assert(sessions@.take(0) =~= Seq::<StoredSession>::empty());
    assert(totals_view(launchers.entries@) =~= Seq::<(Seq<char>, u64)>::empty());
    assert(totals_view(instances.entries@) =~= Seq::<(Seq<char>, u64)>::empty());
    assert(totals_view(versions.entries@) =~= Seq::<(Seq<char>, u64)>::empty());
    assert(totals_view(servers.entries@) =~= Seq::<(Seq<char>, u64)>::empty());
    assert(totals_view(worlds.entries@) =~= Seq::<(Seq<char>, u64)>::empty());
    while i < sessions.len()
        invariant
            i <= sessions@.len(),
            names_distinct(totals_view(launchers.entries@)),
            names_distinct(totals_view(instances.entries@)),
            names_distinct(totals_view(versions.entries@)),
            names_distinct(totals_view(servers.entries@)),
            names_distinct(totals_view(worlds.entries@)),
            totals_view(launchers.entries@) == category_totals(sessions@.take(i as int), RuntimeCategory::Launcher),
            totals_view(instances.entries@) == category_totals(sessions@.take(i as int), RuntimeCategory::Instance),
            totals_view(versions.entries@) == category_totals(sessions@.take(i as int), RuntimeCategory::Version),
            totals_view(servers.entries@) == category_totals(sessions@.take(i as int), RuntimeCategory::Server),
            totals_view(worlds.entries@) == category_totals(sessions@.take(i as int), RuntimeCategory::World),
        decreases sessions@.len() - i,
    {
        let session = &sessions[i];
        assert(sessions@.take(i + 1).drop_last() =~= sessions@.take(i as int));
        assert(sessions@.take(i + 1).last() == *session);
        let seconds: u64 = match session_bounds(session).duration_seconds {
            Some(d) => d,
            None => 0,
        };
        let launcher = display_launcher(session.launcher.as_str());
        add_one_name(&mut launchers, launcher.as_str(), seconds);
        add_one_name(&mut instances, session.instance.as_str(), seconds);
        add_one_name(&mut versions, session.version.as_str(), seconds);
        add_destinations(&mut servers, &session.server_destinations, seconds);
        add_destinations(&mut worlds, &session.world_destinations, seconds);
        i = i + 1;
    }
    assert(sessions@.take(sessions@.len() as int) =~= sessions@);
    TopMetrics {
        launcher: top_runtime(launchers, "No launcher evidence"),
        instance: top_runtime(instances, "No instance evidence"),
        version: top_runtime(versions, "No version evidence"),
        server: top_runtime(servers, "No server evidence"),
        world: top_runtime(worlds, "No world evidence"),
    }
}


/// `ks` followed by the month keys of `a` it lacks.
pub open spec fn months_seen(ks: Seq<i32>, a: Seq<(CalendarDate, u64)>) -> Seq<i32>
    decreases a.len(),
{
    if a.len() == 0 {
        ks
    } else {
        let p = months_seen(ks, a.drop_last());
        let k = month_key(a.last().0);
        if p.contains(k) {
            p
        } else {
            p.push(k)
        }
    }
}

/// The distinct months over the slices of `sessions`, in first-seen order.
pub open spec fn observed_months(sessions: Seq<StoredSession>) -> Seq<i32>
    decreases sessions.len(),
{
    if sessions.len() == 0 {
        Seq::empty()
    } else {
        let s = sessions.last();
        months_seen(
            observed_months(sessions.drop_last()),
            allocations_spec(s.started_at_ms, counted_seconds(s), observed_offset_spec(s.utc_offset_minutes)),
        )
    }
}

pub open spec fn all_addable(sessions: Seq<StoredSession>) -> bool {
    forall|i: int| 0 <= i < sessions.len() ==> addable(#[trigger] sessions[i])
}

/// `observed_month_count_from_sessions`: how many distinct months the
/// sessions' slices touch (at most `u32::MAX`).
pub fn observed_month_count_from_sessions(sessions: &Vec<StoredSession>) -> (r: u32)
    requires
        all_addable(sessions@),
    ensures
        r == vstd::math::min(observed_months(sessions@).len() as int, u32::MAX as int),
{
    let mut seen: Vec<i32> = Vec::new();
    let mut i: usize = 0;
    assert(sessions@.take(0) =~= Seq::<StoredSession>::empty());
    while i < sessions.len()
        invariant
            i <= sessions@.len(),
            all_addable(sessions@),
            seen@ == observed_months(sessions@.take(i as int)),
        decreases sessions@.len() - i,
    {
        let session = &sessions[i];
        assert(sessions@.take(i + 1).drop_last() =~= sessions@.take(i as int));
        assert(sessions@.take(i + 1).last() == *session);
        assert(addable(sessions@[i as int]));
        let bounds = session_bounds(session);
        let allocations = session_day_allocations(session, bounds);
        let ghost s0 = seen@;
        let mut j: usize = 0;
        assert(allocations@.take(0) =~= Seq::<(CalendarDate, u64)>::empty());
        while j < allocations.len()
            invariant
                j <= allocations@.len(),
                dates_wf(allocations@),
                seen@ == months_seen(s0, allocations@.take(j as int)),
            decreases allocations@.len() - j,
        {
            assert(allocations@.take(j + 1).drop_last() =~= allocations@.take(j as int));
            let date = allocations[j].0;
            assert(date.wf());
            let k = month_index(date);
            if !contains_month(&seen, k) {
                seen.push(k);
            }
            j = j + 1;
        }
        assert(allocations@.take(allocations@.len() as int) =~= allocations@);
        i = i + 1;
    }
    assert(sessions@.take(sessions@.len() as int) =~= sessions@);
    if seen.len() > u32::MAX as usize {
        u32::MAX
    } else {
        seen.len() as u32
    }
}


/// The integer part of the finished dashboard: totals, counters, the first
/// and last observations and the collected windows and sessions.
pub struct DashboardSummary {
    pub totals: DashboardTotals,
    pub session_count: u64,
    pub verified_sessions: u64,
    pub bounded_sessions: u64,
    pub first_observation: (i64, Option<i32>),
    pub last_observation: (i64, Option<i32>),
    pub monthly: Vec<(i32, MonthAccumulator)>,
    pub daily: Vec<(CalendarDate, DayAccumulator)>,
    pub recent_sessions: Vec<Session>,
}

/// The totals of the finished dashboard.
pub open spec fn totals_spec(v: DashboardView) -> DashboardTotals {
    DashboardTotals {
        playtime_minutes: v.total_seconds / 60,
        unique_playtime_minutes: union_finish_spec(v.interval_union) / 60,
        sessions: v.session_count,
        active_days: sat_add_u64(v.completed, count_where(v.pending, |e: (CalendarDate, u64)| has_a_minute(e)) as int),
        longest_session_minutes: if v.known_duration_sessions > 0 {
            Some((v.longest_seconds / 60) as u64)
        } else {
            None
        },
        average_session_minutes: if v.known_duration_sessions == 0 {
            None
        } else {
            Some(((v.total_seconds / v.known_duration_sessions) / 60) as u64)
        },
    }
}

impl DashboardAccumulator {
    /// The integer part of `finish`: nothing when no session was added.
    pub fn summarize(self) -> (r: Option<DashboardSummary>)
        ensures
            r is Some <==> self.first_observation is Some && self.last_observation is Some,
            r matches Some(x) ==> {
                &&& x.totals == totals_spec(self.view_of())
                &&& x.session_count == self.session_count
                &&& x.verified_sessions == self.verified_sessions
                &&& x.bounded_sessions == self.bounded_sessions
                &&& Some(x.first_observation) == self.first_observation
                &&& Some(x.last_observation) == self.last_observation
                &&& x.monthly@ == self.monthly@
                &&& x.daily@ == self.daily@
                &&& x.recent_sessions@ == self.recent_sessions@
            },
    {
        let first = match self.first_observation {
            Some(f) => f,
            None => {
                return None;
            },
        };
        let last = match self.last_observation {
            Some(l) => l,
            None => {
                return None;
            },
        };
        let ghost v = self.view_of();
        let active_days = self.active_days.finish();
        let unique_seconds = self.interval_union.finish();
        let totals = DashboardTotals {
            playtime_minutes: self.total_seconds / 60,
            unique_playtime_minutes: unique_seconds / 60,
            sessions: self.session_count,
            active_days,
            longest_session_minutes: if self.known_duration_sessions > 0 {
                Some(self.longest_seconds / 60)
            } else {
                None
            },
            average_session_minutes: if self.known_duration_sessions == 0 {
                None
            } else {
                Some((self.total_seconds / self.known_duration_sessions) / 60)
            },
        };
        Some(
            DashboardSummary {
                totals,
                session_count: self.session_count,
                verified_sessions: self.verified_sessions,
                bounded_sessions: self.bounded_sessions,
                first_observation: first,
                last_observation: last,
                monthly: self.monthly,
                daily: self.daily,
                recent_sessions: self.recent_sessions,
            },
        )
    }
}

/// The months `idx..=last` that chrono can represent, each with its totals where observed.
pub open spec fn month_window_from(idx: int, last: int, m: Seq<(i32, MonthAccumulator)>) -> Seq<
    (CalendarDate, Option<MonthAccumulator>),
>
    decreases last - idx + 1,
{
    if idx > last || idx < i32::MIN || idx > i32::MAX {
        Seq::empty()
    } else {
        let here = match month_from_index_spec(idx as i32) {
            Some(d) => seq![
                (d, match find_key(m, month_key(d)) {
                    Some(i) => Some(m[i].1),
                    None => None,
                }),
            ],
            None => Seq::empty(),
        };
        here + month_window_from(idx + 1, last, m)
    }
}

/// The first month of the monthly window: the first observed month, or the
/// eleventh before the last, whichever is later.
/// The coverage band of a score: 55 and above is partial, 20 to 54 is
/// limited, below 20 is unknown. No score reaches the verified band.
pub fn coverage_quality(score: u8) -> (r: CoverageQuality)
    ensures
        r == (if score >= 55 {
            CoverageQuality::Partial
        } else if score >= 20 {
            CoverageQuality::Limited
        } else {
            CoverageQuality::Unknown
        }),
{
    if score >= 55 {
        CoverageQuality::Partial
    } else if score >= 20 {
        CoverageQuality::Limited
    } else {
        CoverageQuality::Unknown
    }
}

/// The months from the first to the last observation, both counted, that
/// hold no observed session; none when more months were observed.
pub fn gap_months(first: CalendarDate, last: CalendarDate, observed_months: u32) -> (r: u32)
    requires
        first.wf(),
        last.wf(),
    ensures
        r == vstd::math::max(
            0,
            vstd::math::max(0, month_index_spec(last) - month_index_spec(first) + 1) - observed_months,
        ),
{
    let span = crate::application::dashboard_service::months_inclusive(first, last);
    if span > observed_months {
        span - observed_months
    } else {
        0
    }
}

/// What one month of the activity chart shows, but for its estimated share:
/// whole minutes, sessions, confidence and whether any session was observed.
#[derive(Clone, Copy, PartialEq, Eq, Debug, Structural)]
pub struct MonthFigures {
    pub minutes: Option<u64>,
    pub sessions: Option<u64>,
    pub confidence: Confidence,
    pub coverage: MonthlyCoverage,
}

/// The figures of a month of the chart from what was counted in it, if anything.
pub fn month_figures(values: Option<MonthAccumulator>) -> (r: MonthFigures)
    ensures
        r == match values {
            Some(v) => MonthFigures {
                minutes: Some((v.seconds / 60) as u64),
                sessions: Some(v.sessions),
                confidence: match v.confidence {
                    Some(c) => c,
                    None => Confidence::Unknown,
                },
                coverage: MonthlyCoverage::Observed,
            },
            None => MonthFigures {
                minutes: None,
                sessions: None,
                confidence: Confidence::Unknown,
                coverage: MonthlyCoverage::Missing,
            },
        },
{
    match values {
        Some(v) => MonthFigures {
            minutes: Some(v.seconds / 60),
            sessions: Some(v.sessions),
            confidence: match v.confidence {
                Some(c) => c,
                None => Confidence::Unknown,
            },
            coverage: MonthlyCoverage::Observed,
        },
        None => MonthFigures {
            minutes: None,
            sessions: None,
            confidence: Confidence::Unknown,
            coverage: MonthlyCoverage::Missing,
        },
    }
}

pub open spec fn month_window_start(first: CalendarDate, last: CalendarDate) -> int {
    vstd::math::max(month_index_spec(first), month_index_spec(last) - 11)
}

/// The months of the monthly window (the part of `calendar_months` that is
/// not formatting): contiguous, at most twelve, ending at the last observed month.
pub fn calendar_month_window(first: CalendarDate, last: CalendarDate, monthly: &Vec<(i32, MonthAccumulator)>) -> (r: Vec<
    (CalendarDate, Option<MonthAccumulator>),
>)
    requires
        first.wf(),
        last.wf(),
    ensures
        r@ == month_window_from(month_window_start(first, last), month_index_spec(last), monthly@),
{
    let first_index = month_index(first);
    let last_index = month_index(last);
    let start_index = if first_index > last_index - 11 {
        first_index
    } else {
        last_index - 11
    };
    let mut r: Vec<(CalendarDate, Option<MonthAccumulator>)> = Vec::new();
    let mut idx = start_index;
    while idx <= last_index
        invariant
            start_index <= idx,
            idx <= last_index + 1 || idx == start_index,
            last_index == month_index_spec(last),
            month_index_spec(last) < i32::MAX,
            month_window_from(start_index as int, last_index as int, monthly@) == r@ + month_window_from(
                idx as int,
                last_index as int,
                monthly@,
            ),
        decreases last_index - idx + 1,
    {
        let ghost before = r@;
        match month_from_index(idx) {
            Some(d) => {
                let k = month_index(d);
                let value = match find_month(monthly, k) {
                    Some(i) => Some(monthly[i].1),
                    None => None,
                };
                r.push((d, value));
                assert(before + month_window_from(idx as int, last_index as int, monthly@) =~= r@
                    + month_window_from(idx + 1, last_index as int, monthly@));
            },
            None => {
                assert(before + month_window_from(idx as int, last_index as int, monthly@) =~= r@
                    + month_window_from(idx + 1, last_index as int, monthly@));
            },
        }
        idx = idx + 1;
    }
    assert(month_window_from(idx as int, last_index as int, monthly@) =~= Seq::<
        (CalendarDate, Option<MonthAccumulator>),
    >::empty());
    assert(r@ =~= month_window_from(start_index as int, last_index as int, monthly@));
    r
}

/// One day of the daily window.
pub open spec fn daily_activity_spec(date: CalendarDate, d: Seq<(CalendarDate, DayAccumulator)>) -> DailyActivity {
    match find_key(d, date) {
        Some(i) => DailyActivity {
            date: arbitrary(),
            minutes: Some((d[i].1.seconds / 60) as u64),
            sessions: Some(d[i].1.sessions),
            confidence: match d[i].1.confidence {
                Some(c) => c,
                None => Confidence::Unknown,
            },
            coverage: DailyCoverage::Observed,
        },
        None => DailyActivity {
            date: arbitrary(),
            minutes: None,
            sessions: None,
            confidence: Confidence::Unknown,
            coverage: DailyCoverage::Missing,
        },
    }
}

pub open spec fn daily_matches(r: DailyActivity, date: CalendarDate, d: Seq<(CalendarDate, DayAccumulator)>) -> bool {
    let e = daily_activity_spec(date, d);
    &&& r.date@ == ymd_text(date)
    &&& r.minutes == e.minutes
    &&& r.sessions == e.sessions
    &&& r.confidence == e.confidence
    &&& r.coverage == e.coverage
}

/// The dates of the daily window, oldest first.
pub open spec fn day_window_dates(end: CalendarDate, k: int) -> Seq<CalendarDate>
    decreases k + 1,
{
    if k < 0 {
        Seq::empty()
    } else {
        let here = match days_before(end, k as nat) {
            Some(date) => seq![date],
            None => Seq::empty(),
        };
        here + day_window_dates(end, k - 1)
    }
}

/// `calendar_days`: the 365 days ending on `end`, oldest first, each with
/// its totals where observed.
pub fn calendar_days(end: CalendarDate, observed: &Vec<(CalendarDate, DayAccumulator)>) -> (r: Vec<DailyActivity>)
    requires
        end.wf(),
    ensures
        r@.len() == day_window_dates(end, 364).len(),
        forall|i: int|
            0 <= i < r@.len() ==> daily_matches(#[trigger] r@[i], day_window_dates(end, 364)[i], observed@),
{
    let mut r: Vec<DailyActivity> = Vec::new();
    let mut k: i64 = 364;
    let ghost dates: Seq<CalendarDate> = Seq::empty();
    while k >= 0
        invariant
            -1 <= k <= 364,
            end.wf(),
            day_window_dates(end, 364) == dates + day_window_dates(end, k as int),
            r@.len() == dates.len(),
            forall|i: int| 0 <= i < r@.len() ==> daily_matches(#[trigger] r@[i], dates[i], observed@),
            forall|i: int| 0 <= i < dates.len() ==> (#[trigger] dates[i]).wf(),
        decreases k + 1,
    {
        let ghost before = dates;
        match end.sub_days(k as u64) {
            Some(date) => {
                proof {
                    crate::parser::log_parser::lemma_days_before_wf(end, k as nat);
                }
                let text = format_ymd(date);
                let item = match find_day(observed, date) {
                    Some(i) => {
                        let day = observed[i].1;
                        DailyActivity {
                            date: text,
                            minutes: Some(day.seconds / 60),
                            sessions: Some(day.sessions),
                            confidence: match day.confidence {
                                Some(c) => c,
                                None => Confidence::Unknown,
                            },
                            coverage: DailyCoverage::Observed,
                        }
                    },
                    None => DailyActivity {
                        date: text,
                        minutes: None,
                        sessions: None,
                        confidence: Confidence::Unknown,
                        coverage: DailyCoverage::Missing,
                    },
                };
                r.push(item);
                proof {
                    dates = dates.push(date);
                    assert(before + day_window_dates(end, k as int) =~= dates + day_window_dates(end, k - 1));
                }
            },
            None => {
                assert(before + day_window_dates(end, k as int) =~= dates + day_window_dates(end, k - 1));
            },
        }
        k = k - 1;
    }
    assert(day_window_dates(end, k as int) =~= Seq::<CalendarDate>::empty());
    assert(dates =~= day_window_dates(end, 364));
    r
}


/// The dashboard's order: newer starts first, then smaller ids.
pub open spec fn newest_first_le(a: StoredSession, b: StoredSession) -> bool {
    a.started_at_ms > b.started_at_ms || (a.started_at_ms == b.started_at_ms
        && !crate::parser::session_reconstruction::lex_lt(b.id@, a.id@))
}

/// Stable insertion of a session after every session that sorts no later.
pub open spec fn insert_newest_first(s: Seq<StoredSession>, x: StoredSession) -> Seq<StoredSession>
    decreases s.len(),
{
    if s.len() == 0 {
        seq![x]
    } else if newest_first_le(s.last(), x) {
        s.push(x)
    } else {
        insert_newest_first(s.drop_last(), x).push(s.last())
    }
}

/// The sessions in the dashboard's order (a stable sort).
pub open spec fn newest_first(s: Seq<StoredSession>) -> Seq<StoredSession>
    decreases s.len(),
{
    if s.len() == 0 {
        Seq::empty()
    } else {
        insert_newest_first(newest_first(s.drop_last()), s.last())
    }
}

fn sorts_no_later(a: &StoredSession, b: &StoredSession) -> (r: bool)
    ensures
        r == newest_first_le(*a, *b),
{
    a.started_at_ms > b.started_at_ms || (a.started_at_ms == b.started_at_ms
        && !crate::parser::session_reconstruction::string_lt(&b.id, &a.id))
}

/// Sorts stored sessions newest first, ties by id (the order `build_dashboard` reads them in).
pub fn sort_sessions_newest_first(sessions: &mut Vec<StoredSession>)
    ensures
        final(sessions)@ == newest_first(old(sessions)@),
{
    let mut input: Vec<StoredSession> = Vec::new();
    std::mem::swap(sessions, &mut input);
    let ghost all = input@;
    let mut sorted: Vec<StoredSession> = Vec::new();
    let mut k: usize = 0;
    assert(all.take(0) =~= Seq::<StoredSession>::empty());
    assert(all.len() == input.len());
    while input.len() > 0
        invariant
            k <= all.len(),
            k + input@.len() == all.len(),
            all.len() <= usize::MAX,
            input@ == all.skip(k as int),
            sorted@ == newest_first(all.take(k as int)),
        decreases input@.len(),
    {
        let x = input.remove(0);
        assert(x == all[k as int]);
        assert(input@ =~= all.skip(k + 1));
        let ghost s = sorted@;
        let mut j: usize = sorted.len();
        assert(s.take(j as int) =~= s);
        assert(insert_newest_first(s, x) =~= insert_newest_first(s.take(j as int), x) + s.skip(j as int));
        while j > 0 && !sorts_no_later(&sorted[j - 1], &x)
            invariant
                j <= s.len(),
                sorted@ == s,
                insert_newest_first(s, x) == insert_newest_first(s.take(j as int), x) + s.skip(j as int),
            decreases j,
        {
            proof {
                let t = s.take(j as int);
                assert(t.last() == s[j - 1]);
                assert(t.drop_last() =~= s.take(j - 1));
                assert(seq![s[j - 1]] + s.skip(j as int) =~= s.skip(j - 1));
                assert(insert_newest_first(t, x) == insert_newest_first(s.take(j - 1), x).push(s[j - 1]));
                assert(insert_newest_first(s.take(j - 1), x).push(s[j - 1]) + s.skip(j as int)
                    =~= insert_newest_first(s.take(j - 1), x) + s.skip(j - 1));
            }
            j = j - 1;
        }
        proof {
            let t = s.take(j as int);
            if j == 0 {
                assert(t =~= Seq::<StoredSession>::empty());
            } else {
                assert(t.last() == s[j - 1]);
            }
            assert(insert_newest_first(t, x) =~= t.push(x));
        }
        sorted.insert(j, x);
        proof {
            assert(all.take(k + 1).drop_last() =~= all.take(k as int));
            assert(all.take(k + 1).last() == x);
            assert(sorted@ =~= s.take(j as int).push(x) + s.skip(j as int));
        }
        k = k + 1;
    }
    assert(all.take(k as int) =~= all);
    *sessions = sorted;
}

pub open spec fn empty_view() -> DashboardView {
    DashboardView {
        total_seconds: 0,
        longest_seconds: 0,
        known_duration_sessions: 0,
        session_count: 0,
        verified_sessions: 0,
        bounded_sessions: 0,
        interval_union: IntervalUnion { current: None, completed_millis: 0 },
        pending: Seq::empty(),
        completed: 0,
        monthly: Seq::empty(),
        daily: Seq::empty(),
        calendar_end: None,
        first_observation: None,
        last_observation: None,
    }
}

/// The running totals after adding `sessions` in order.
pub open spec fn accumulated(sessions: Seq<StoredSession>) -> DashboardView
    decreases sessions.len(),
{
    if sessions.len() == 0 {
        empty_view()
    } else {
        add_spec(accumulated(sessions.drop_last()), sessions.last())
    }
}

/// The dashboard's totals over `sessions` added in order; the first 24 are listed.
pub fn accumulate_sessions(sessions: &Vec<StoredSession>) -> (r: DashboardAccumulator)
    requires
        all_addable(sessions@),
    ensures
        r.wf(),
        r.view_of() == accumulated(sessions@),
        r.recent_sessions@.len() == vstd::math::min(sessions@.len() as int, 24),
        forall|i: int| 0 <= i < r.recent_sessions@.len() ==> dto_matches(#[trigger] r.recent_sessions@[i], sessions@[i]),
{
    let mut acc = DashboardAccumulator::new();
    let mut i: usize = 0;
    assert(sessions@.take(0) =~= Seq::<StoredSession>::empty());
    while i < sessions.len()
        invariant
            i <= sessions@.len(),
            all_addable(sessions@),
            acc.wf(),
            acc.view_of() == accumulated(sessions@.take(i as int)),
            acc.recent_sessions@.len() == vstd::math::min(i as int, 24),
            forall|k: int|
                0 <= k < acc.recent_sessions@.len() ==> dto_matches(#[trigger] acc.recent_sessions@[k], sessions@[k]),
        decreases sessions@.len() - i,
    {
        assert(sessions@.take(i + 1).drop_last() =~= sessions@.take(i as int));
        assert(sessions@.take(i + 1).last() == sessions@[i as int]);
        assert(addable(sessions@[i as int]));
        let ghost r0 = acc.recent_sessions@;
        acc.add(&sessions[i]);
        proof {
            if r0.len() < 24 {
                assert forall|k: int| 0 <= k < acc.recent_sessions@.len() implies dto_matches(
                    #[trigger] acc.recent_sessions@[k],
                    sessions@[k],
                ) by {
                    if k < r0.len() {
                        assert(acc.recent_sessions@[k] == acc.recent_sessions@.take(r0.len() as int)[k]);
                    }
                }
            }
        }
        i = i + 1;
    }
    assert(sessions@.take(sessions@.len() as int) =~= sessions@);
    acc
}


proof fn lemma_month_from_index_round_trip(idx: int)
    requires
        i32::MIN <= idx <= i32::MAX,
        crate::calendar::MIN_YEAR * 12 <= idx < (crate::calendar::MAX_YEAR + 1) * 12,
    ensures
        month_from_index_spec(idx as i32) is Some,
        month_index_spec(month_from_index_spec(idx as i32)->0) == idx,
        month_from_index_spec(idx as i32)->0.wf(),
{
    assert(crate::calendar::MIN_YEAR <= idx / 12 <= crate::calendar::MAX_YEAR);
    assert((idx / 12) * 12 + idx % 12 == idx);
}

proof fn lemma_month_window_run(a: int, b: int, m: Seq<(i32, MonthAccumulator)>)
    requires
        crate::calendar::MIN_YEAR * 12 <= a,
        b < (crate::calendar::MAX_YEAR + 1) * 12,
    ensures
        month_window_from(a, b, m).len() == vstd::math::max(0, b - a + 1),
        forall|i: int|
            0 <= i < month_window_from(a, b, m).len() ==> month_index_spec(
                (#[trigger] month_window_from(a, b, m)[i]).0,
            ) == a + i,
    decreases b - a + 1,
{
    if a <= b {
        lemma_month_from_index_round_trip(a);
        lemma_month_window_run(a + 1, b, m);
        let rest = month_window_from(a + 1, b, m);
        let w = month_window_from(a, b, m);
        assert forall|i: int| 0 <= i < w.len() implies month_index_spec((#[trigger] w[i]).0) == a + i by {
            if i > 0 {
                assert(w[i] == rest[i - 1]);
            }
        }
    }
}

/// The monthly window holds at most twelve months, one for each month from
/// its start to the month of the last observation, in order.
pub proof fn law_month_window_is_contiguous_and_bounded(
    first: CalendarDate,
    last: CalendarDate,
    m: Seq<(i32, MonthAccumulator)>,
)
    requires
        first.wf(),
        last.wf(),
    ensures
        ({
            let start = month_window_start(first, last);
            let w = month_window_from(start, month_index_spec(last), m);
            &&& w.len() <= 12
            &&& w.len() == vstd::math::max(0, month_index_spec(last) - start + 1)
            &&& forall|i: int| 0 <= i < w.len() ==> month_index_spec((#[trigger] w[i]).0) == start + i
        }),
{
    lemma_month_window_run(month_window_start(first, last), month_index_spec(last), m);
}

proof fn lemma_next_of_previous(d: CalendarDate)
    requires
        d.wf(),
        crate::calendar::previous_day(d) is Some,
    ensures
        next_day(crate::calendar::previous_day(d)->0) == Some(d),
{
}

proof fn lemma_day_window_run(end: CalendarDate, k: int)
    requires
        end.wf(),
        0 <= k,
        days_before(end, k as nat) is Some,
    ensures
        day_window_dates(end, k).len() == k + 1,
        forall|i: int|
            0 <= i <= k ==> days_before(end, (k - i) as nat) == Some(#[trigger] day_window_dates(end, k)[i]),
    decreases k,
{
    let w = day_window_dates(end, k);
    if k > 0 {
        lemma_days_before_shorter(end, k as nat);
        lemma_day_window_run(end, k - 1);
        let rest = day_window_dates(end, k - 1);
        assert forall|i: int| 0 <= i <= k implies days_before(end, (k - i) as nat) == Some(#[trigger] w[i]) by {
            if i > 0 {
                assert(w[i] == rest[i - 1]);
            }
        }
    } else {
        assert(day_window_dates(end, -1) =~= Seq::<CalendarDate>::empty());
    }
}

proof fn lemma_days_before_shorter(d: CalendarDate, n: nat)
    requires
        n > 0,
        days_before(d, n) is Some,
    ensures
        days_before(d, (n - 1) as nat) is Some,
        crate::calendar::previous_day(days_before(d, (n - 1) as nat)->0) == days_before(d, n),
    decreases n,
{
    let p = crate::calendar::previous_day(d)->0;
    assert(days_before(d, n) == days_before(p, (n - 1) as nat));
    if n > 1 {
        lemma_days_before_shorter(p, (n - 1) as nat);
        assert(days_before(d, (n - 1) as nat) == days_before(p, (n - 2) as nat));
    } else {
        assert(days_before(d, 0) == Some(d));
        assert(days_before(p, 0) == Some(p));
    }
}

/// The daily window is 365 consecutive days ending on the last observed
/// day, wherever chrono can represent its first day.
pub proof fn law_day_window_is_365_consecutive_days(end: CalendarDate)
    requires
        end.wf(),
        days_before(end, 364) is Some,
    ensures
        day_window_dates(end, 364).len() == 365,
        day_window_dates(end, 364)[364] == end,
        forall|i: int|
            0 <= i < 364 ==> next_day(#[trigger] day_window_dates(end, 364)[i]) == Some(
                day_window_dates(end, 364)[i + 1],
            ),
{
    lemma_day_window_run(end, 364);
    let w = day_window_dates(end, 364);
    assert(days_before(end, 0) == Some(end));
    assert(w[364] == end) by {
        assert(days_before(end, (364 - 364) as nat) == Some(w[364]));
    }
    assert forall|i: int| 0 <= i < 364 implies next_day(#[trigger] w[i]) == Some(w[i + 1]) by {
        let n = (364 - i) as nat;
        assert(days_before(end, n) == Some(w[i]));
        assert(days_before(end, (n - 1) as nat) == Some(w[i + 1]));
        lemma_days_before_shorter(end, n);
        crate::parser::log_parser::lemma_days_before_wf(end, (n - 1) as nat);
        lemma_next_of_previous(w[i + 1]);
    }
}

/// A session with implausible bounds adds no play time: its slices carry no
/// seconds and the total does not move.
pub proof fn law_implausible_session_adds_no_time(v: DashboardView, s: StoredSession)
    requires
        session_bounds_spec(s.started_at_ms, s.ended_at_ms, s.duration_seconds).implausible,
    ensures
        add_spec(v, s).total_seconds == v.total_seconds,
        add_spec(v, s).longest_seconds == v.longest_seconds,
        add_spec(v, s).known_duration_sessions == v.known_duration_sessions,
        allocations_spec(s.started_at_ms, counted_seconds(s), observed_offset_spec(s.utc_offset_minutes))
            == seq![(observed_date_spec(s.started_at_ms, observed_offset_spec(s.utc_offset_minutes)), 0u64)],
{
}

/// The day of `x` milliseconds lies in `[lo_day, hi_day]` exactly when `x`
/// lies in the milliseconds of those days.
proof fn lemma_day_range(x: int, lo_day: int, hi_day: int)
    ensures
        (lo_day <= x / 86_400_000 <= hi_day) == (lo_day * 86_400_000 <= x < (hi_day + 1) * 86_400_000),
{
    let q = x / 86_400_000;
    assert(q * 86_400_000 <= x < q * 86_400_000 + 86_400_000);
    if lo_day <= q {
        assert(lo_day * 86_400_000 <= q * 86_400_000) by (nonlinear_arith)
            requires
                lo_day <= q,
        ;
    } else {
        assert(q * 86_400_000 + 86_400_000 <= lo_day * 86_400_000) by (nonlinear_arith)
            requires
                q + 1 <= lo_day,
        ;
    }
    if q <= hi_day {
        assert(q * 86_400_000 + 86_400_000 <= (hi_day + 1) * 86_400_000) by (nonlinear_arith)
            requires
                q <= hi_day,
        ;
    } else {
        assert((hi_day + 1) * 86_400_000 <= q * 86_400_000) by (nonlinear_arith)
            requires
                hi_day + 1 <= q,
        ;
    }
}

fn representable_millis() -> (r: (i128, i128))
    ensures
        r.0 == min_epoch_day() * 86_400_000,
        r.1 == (max_epoch_day() + 1) * 86_400_000,
        forall|x: int| #[trigger] timestamp_in_range(x) == (r.0 <= x < r.1),
{
    let first = CalendarDate { year: MIN_YEAR, month: 1, day: 1 };
    let last = CalendarDate { year: MAX_YEAR, month: 12, day: 31 };
    let min_day = first.epoch_day_exec() as i128;
    let max_day = last.epoch_day_exec() as i128;
    proof {
        lemma_epoch_day_bounds(first);
        lemma_epoch_day_bounds(last);
        assert forall|x: int| #[trigger] timestamp_in_range(x) == (min_day * 86_400_000 <= x < (max_day + 1)
            * 86_400_000) by {
            lemma_day_range(x, min_day as int, max_day as int);
        }
    }
    (min_day * 86_400_000, (max_day + 1) * 86_400_000)
}

/// Whether the local date of the instant `ms` at `offset` seconds can be named.
pub fn local_date_representable_exec(ms: i64, offset: i32) -> (r: bool)
    ensures
        r == local_date_representable(ms as int, offset as int),
{
    let (lo, hi) = representable_millis();
    let m = ms as i128;
    let shifted = m + (offset as i128) * 1000;
    proof {
        assert(timestamp_in_range(ms as int) == (lo <= m < hi));
        assert(timestamp_in_range(shifted as int) == (lo <= shifted < hi));
    }
    !(lo <= m && m < hi) || (lo <= shifted && shifted < hi)
}

/// Whether every instant whose local date a session's day allocation reads
/// can be named.
pub fn allocation_span_representable_exec(start: i64, duration_seconds: u64, offset: i32) -> (r: bool)
    ensures
        r == allocation_span_representable(start, duration_seconds, offset as int),
{
    let (lo, hi) = representable_millis();
    let dur_ms: i128 = if (duration_seconds as i128) * 1000 > i64::MAX as i128 {
        i64::MAX as i128
    } else {
        (duration_seconds as i128) * 1000
    };
    let end: i128 = if start as i128 + dur_ms > i64::MAX as i128 {
        i64::MAX as i128
    } else {
        start as i128 + dur_ms
    };
    let e: i128 = if end > start as i128 + 1 { end } else { start as i128 + 1 };
    assert(e == vstd::math::max(allocation_end(start, duration_seconds), start + 1));
    let shift: i128 = (offset as i128) * 1000;
    let a: i128 = if (start as i128) > lo { start as i128 } else { lo };
    let b: i128 = if e < hi { e } else { hi };
    let r = a >= b || (a >= lo - shift && b <= hi - shift);
    proof {
        let off = offset as int;
        if r {
            assert forall|ms: int|
                start <= ms < vstd::math::max(allocation_end(start, duration_seconds), start + 1) implies
                #[trigger] local_date_representable(ms, off) by {
                assert(timestamp_in_range(ms) == (lo <= ms < hi));
                assert(timestamp_in_range(ms + off * 1000) == (lo <= ms + off * 1000 < hi));
            }
        } else {
            assert(local_date_representable(a as int, off) ==> (a >= lo - shift)) by {
                assert(timestamp_in_range(a as int) == (lo <= a < hi));
                assert(timestamp_in_range(a + off * 1000) == (lo <= a + off * 1000 < hi));
            }
            assert(local_date_representable((b - 1) as int, off) ==> (b <= hi - shift)) by {
                assert(timestamp_in_range((b - 1) as int) == (lo <= b - 1 < hi));
                assert(timestamp_in_range(b - 1 + off * 1000) == (lo <= b - 1 + off * 1000 < hi));
            }
            if a < lo - shift {
                assert(!local_date_representable(a as int, off));
            } else {
                assert(!local_date_representable((b - 1) as int, off));
            }
        }
    }
    r
}

/// Whether a stored session can be counted: the local dates it is placed
/// on can all be named. (`add` asks this of every session.)
pub fn session_addable(session: &StoredSession) -> (r: bool)
    ensures
        r == addable(*session),
{
    let bounds = session_bounds(session);
    let offset = observed_offset(session.utc_offset_minutes);
    let observed_end = match interval_end_exec(session.started_at_ms, bounds) {
        Some(e) => e,
        None => session.started_at_ms,
    };
    let duration = match bounds.duration_seconds {
        Some(d) => d,
        None => 0,
    };
    local_date_representable_exec(observed_end, offset) && allocation_span_representable_exec(
        session.started_at_ms,
        duration,
        offset,
    )
}

/// The state an archive without shown sessions is in.
pub fn empty_archive_state(has_completed_scan: bool) -> (r: ArchiveState)
    ensures
        r == (if has_completed_scan { ArchiveState::ScannedNoEvidence } else { ArchiveState::Unscanned }),
{
    if has_completed_scan {
        ArchiveState::ScannedNoEvidence
    } else {
        ArchiveState::Unscanned
    }
}

/// The page of sessions the session list shows: the listed sessions (none
/// before a dataset is promoted, at `revision` zero), the number of visible
/// sessions, and whether there are more than the page holds.
pub fn session_page(total: u64, revision: i64, sessions: &Vec<StoredSession>) -> (r: BoundedCollection<Session>)
    ensures
        revision == 0 ==> r.items@.len() == 0,
        revision != 0 ==> r.items@.len() == sessions@.len() && forall|i: int|
            0 <= i < sessions@.len() ==> dto_matches(#[trigger] r.items@[i], sessions@[i]),
        r.total == total,
        r.truncated == (total > r.items@.len()),
{
    let mut items: Vec<Session> = Vec::new();
    if revision != 0 {
        let mut i: usize = 0;
        while i < sessions.len()
            invariant
                i <= sessions@.len(),
                items@.len() == i,
                forall|k: int| 0 <= k < i ==> dto_matches(#[trigger] items@[k], sessions@[k]),
            decreases sessions@.len() - i,
        {
            items.push(session_dto(&sessions[i]));
            i += 1;
        }
    }
    let n = items.len() as u64;
    BoundedCollection { items, total, truncated: total > n }
}

} // verus!
