//! Proleptic Gregorian calendar values as the log parser observes them.
//!
//! Dates, clock times and fixed UTC offsets are plain integers here. Day
//! numbering follows the civil-from-days arithmetic used for UNIX time, and
//! the valid range is the one of chrono's `NaiveDate` (years -262143..=262142).

use vstd::prelude::*;

verus! {

pub const MILLIS_PER_DAY: i64 = 86_400_000;

pub const MIN_YEAR: i32 = -262143;

pub const MAX_YEAR: i32 = 262142;

pub open spec fn is_leap_year(y: int) -> bool {
    (y % 4 == 0 && y % 100 != 0) || y % 400 == 0
}

pub open spec fn days_in_month(y: int, m: int) -> int {
    if m == 2 {
        if is_leap_year(y) {
            29
        } else {
            28
        }
    } else if m == 4 || m == 6 || m == 9 || m == 11 {
        30
    } else {
        31
    }
}

/// A calendar date (chrono's `NaiveDate`).
#[derive(Clone, Copy, PartialEq, Eq, Debug, Structural)]
pub struct CalendarDate {
    pub year: i32,
    pub month: u32,
    pub day: u32,
}

/// A wall-clock time of day (chrono's `NaiveTime`); `nano` may exceed one
/// second only during a leap second.
#[derive(Clone, Copy, PartialEq, Eq, Debug, Structural)]
pub struct TimeOfDay {
    pub hour: u32,
    pub minute: u32,
    pub second: u32,
    pub nano: u32,
}

/// A local date and time without offset (chrono's `NaiveDateTime`).
#[derive(Clone, Copy, PartialEq, Eq, Debug, Structural)]
pub struct LocalDateTime {
    pub date: CalendarDate,
    pub time: TimeOfDay,
}

/// A local date and time together with its fixed UTC offset in seconds
/// (chrono's `DateTime<FixedOffset>`).
#[derive(Clone, Copy, PartialEq, Eq, Debug, Structural)]
pub struct OffsetDateTime {
    pub local: LocalDateTime,
    pub offset_seconds: i32,
}

impl CalendarDate {
    pub open spec fn wf(self) -> bool {
        &&& MIN_YEAR <= self.year <= MAX_YEAR
        &&& 1 <= self.month <= 12
        &&& 1 <= self.day <= days_in_month(self.year as int, self.month as int)
    }
}

impl TimeOfDay {
    pub open spec fn wf(self) -> bool {
        &&& self.hour < 24
        &&& self.minute < 60
        &&& self.second < 60
        &&& self.nano < 2_000_000_000
    }

    /// Seconds since midnight, ignoring a leap second's extra fraction.
    pub open spec fn secs(self) -> int {
        self.hour * 3600 + self.minute * 60 + self.second
    }
}

impl LocalDateTime {
    pub open spec fn wf(self) -> bool {
        self.date.wf() && self.time.wf()
    }
}

impl OffsetDateTime {
    pub open spec fn wf(self) -> bool {
        &&& self.local.wf()
        &&& -86_400 < self.offset_seconds < 86_400
        &&& utc_date_in_range(self.local, self.offset_seconds as int)
    }
}

/// Days since 1970-01-01 of a proleptic Gregorian date.
pub open spec fn days_from_civil(y: int, m: int, d: int) -> int {
    let yy = if m <= 2 {
        y - 1
    } else {
        y
    };
    let era = yy / 400;
    let yoe = yy - era * 400;
    let mp = if m > 2 {
        m - 3
    } else {
        m + 9
    };
    let doy = (153 * mp + 2) / 5 + d - 1;
    let doe = yoe * 365 + yoe / 4 - yoe / 100 + doy;
    era * 146097 + doe - 719468
}

pub open spec fn epoch_day(d: CalendarDate) -> int {
    days_from_civil(d.year as int, d.month as int, d.day as int)
}

/// Milliseconds since midnight, the leap-second fraction included
/// (`num_seconds_from_midnight() * 1000 + nanosecond() / 1_000_000`).
pub open spec fn millis_of_day(t: TimeOfDay) -> int {
    t.secs() * 1000 + t.nano / 1_000_000
}

/// `NaiveDateTime::and_utc().timestamp_millis()`.
pub open spec fn naive_millis(l: LocalDateTime) -> int {
    epoch_day(l.date) * 86_400_000 + millis_of_day(l.time)
}

pub open spec fn min_epoch_day() -> int {
    days_from_civil(MIN_YEAR as int, 1, 1)
}

pub open spec fn max_epoch_day() -> int {
    days_from_civil(MAX_YEAR as int, 12, 31)
}

/// Whether the UTC date of `local` shifted by `offset` seconds stays inside
/// the representable date range (`checked_sub_offset` succeeds).
pub open spec fn utc_date_in_range(local: LocalDateTime, offset: int) -> bool {
    let shifted = local.time.secs() - offset;
    let day = epoch_day(local.date) + if shifted < 0 {
        -1int
    } else if shifted >= 86_400 {
        1int
    } else {
        0int
    };
    min_epoch_day() <= day <= max_epoch_day()
}

/// `FixedOffset::from_local_datetime(local).single()` as UTC milliseconds.
pub open spec fn utc_millis(local: LocalDateTime, offset: int) -> Option<int> {
    if utc_date_in_range(local, offset) {
        Some(naive_millis(local) - offset * 1000)
    } else {
        None
    }
}

/// The following calendar day, if representable (`succ_opt`).
pub open spec fn next_day(d: CalendarDate) -> Option<CalendarDate> {
    if (d.day as int) < days_in_month(d.year as int, d.month as int) {
        Some(CalendarDate { year: d.year, month: d.month, day: (d.day + 1) as u32 })
    } else if d.month < 12 {
        Some(CalendarDate { year: d.year, month: (d.month + 1) as u32, day: 1 })
    } else if d.year < MAX_YEAR {
        Some(CalendarDate { year: (d.year + 1) as i32, month: 1, day: 1 })
    } else {
        None
    }
}

/// The preceding calendar day, if representable (`pred_opt`).
pub open spec fn previous_day(d: CalendarDate) -> Option<CalendarDate> {
    if d.day > 1 {
        Some(CalendarDate { year: d.year, month: d.month, day: (d.day - 1) as u32 })
    } else if d.month > 1 {
        Some(
            CalendarDate {
                year: d.year,
                month: (d.month - 1) as u32,
                day: days_in_month(d.year as int, d.month - 1) as u32,
            },
        )
    } else if d.year > MIN_YEAR {
        Some(CalendarDate { year: (d.year - 1) as i32, month: 12, day: 31 })
    } else {
        None
    }
}

/// The date `n` days earlier, if representable (`checked_sub_days`).
pub open spec fn days_before(d: CalendarDate, n: nat) -> Option<CalendarDate>
    decreases n,
{
    if n == 0 {
        Some(d)
    } else {
        match previous_day(d) {
            Some(p) => days_before(p, (n - 1) as nat),
            None => None,
        }
    }
}

/// chrono's `NaiveTime` ordering: by whole seconds, then by fraction.
pub open spec fn time_lt(a: TimeOfDay, b: TimeOfDay) -> bool {
    a.secs() < b.secs() || (a.secs() == b.secs() && a.nano < b.nano)
}

/// `a.signed_duration_since(b).num_seconds()` for clock times.
pub open spec fn clock_seconds_between(a: TimeOfDay, b: TimeOfDay) -> int {
    let adj: int = if a.secs() > b.secs() && b.nano >= 1_000_000_000 {
        1
    } else if a.secs() < b.secs() && a.nano >= 1_000_000_000 {
        -1
    } else {
        0
    };
    let frac = a.nano - b.nano;
    let secs = a.secs() - b.secs() + adj + frac / 1_000_000_000;
    let nanos = frac % 1_000_000_000;
    if secs < 0 && nanos > 0 {
        secs + 1
    } else {
        secs
    }
}

pub fn is_leap(y: i32) -> (r: bool)
    ensures
        r == is_leap_year(y as int),
{
    (y % 4 == 0 && y % 100 != 0) || y % 400 == 0
}

pub fn month_length(y: i32, m: u32) -> (r: u32)
    ensures
        r == days_in_month(y as int, m as int),
{
    if m == 2 {
        if is_leap(y) {
            29
        } else {
            28
        }
    } else if m == 4 || m == 6 || m == 9 || m == 11 {
        30
    } else {
        31
    }
}

impl CalendarDate {
    /// `NaiveDate::succ_opt`.
    pub fn succ(self) -> (r: Option<CalendarDate>)
        ensures
            r == next_day(self),
    {
        if self.day < month_length(self.year, self.month) {
            Some(CalendarDate { year: self.year, month: self.month, day: self.day + 1 })
        } else if self.month < 12 {
            Some(CalendarDate { year: self.year, month: self.month + 1, day: 1 })
        } else if self.year < MAX_YEAR {
            Some(CalendarDate { year: self.year + 1, month: 1, day: 1 })
        } else {
            None
        }
    }

    /// `NaiveDate::pred_opt`.
    pub fn pred(self) -> (r: Option<CalendarDate>)
        ensures
            r == previous_day(self),
    {
        if self.day > 1 {
            Some(CalendarDate { year: self.year, month: self.month, day: self.day - 1 })
        } else if self.month > 1 {
            Some(
                CalendarDate {
                    year: self.year,
                    month: self.month - 1,
                    day: month_length(self.year, self.month - 1),
                },
            )
        } else if self.year > MIN_YEAR {
            Some(CalendarDate { year: self.year - 1, month: 12, day: 31 })
        } else {
            None
        }
    }

    /// `NaiveDate::checked_sub_days`.
    pub fn sub_days(self, n: u64) -> (r: Option<CalendarDate>)
        ensures
            r == days_before(self, n as nat),
    {
        let mut current = self;
        let mut left = n;
        while left > 0
            invariant
                days_before(self, n as nat) == days_before(current, left as nat),
            decreases left,
        {
            match current.pred() {
                Some(p) => {
                    current = p;
                    left = left - 1;
                },
                None => {
                    return None;
                },
            }
        }
        Some(current)
    }

    /// Days since 1970-01-01.
    pub fn epoch_day_exec(self) -> (r: i64)
        requires
            self.wf(),
        ensures
            r == epoch_day(self),
    {
        let y: i64 = self.year as i64;
        let m: i64 = self.month as i64;
        let d: i64 = self.day as i64;
        let yy: i64 = if m <= 2 {
            y - 1
        } else {
            y
        };
        let era: i64 = if yy >= 0 {
            yy / 400
        } else {
            -((399 - yy) / 400)
        };
        assert(era == yy as int / 400) by {
            if yy < 0 {
                lemma_floor_div_negative(yy as int, 400);
            }
        }
        let yoe: i64 = yy - era * 400;
        assert(0 <= yoe < 400) by (nonlinear_arith)
            requires
                era == yy as int / 400,
                yoe == yy - era * 400,
        ;
        let mp: i64 = if m > 2 {
            m - 3
        } else {
            m + 9
        };
        let doy: i64 = (153 * mp + 2) / 5 + d - 1;
        let doe: i64 = yoe * 365 + yoe / 4 - yoe / 100 + doy;
        era * 146097 + doe - 719468
    }
}

impl TimeOfDay {
    pub fn millis_of_day_exec(self) -> (r: i64)
        requires
            self.wf(),
        ensures
            r == millis_of_day(self),
    {
        let secs: i64 = (self.hour as i64) * 3600 + (self.minute as i64) * 60 + (self.second as i64);
        secs * 1000 + (self.nano / 1_000_000) as i64
    }

    pub fn secs_exec(self) -> (r: i64)
        requires
            self.wf(),
        ensures
            r == self.secs(),
    {
        (self.hour as i64) * 3600 + (self.minute as i64) * 60 + (self.second as i64)
    }

    /// chrono's `<` on `NaiveTime`.
    pub fn is_before(self, other: TimeOfDay) -> (r: bool)
        requires
            self.wf(),
            other.wf(),
        ensures
            r == time_lt(self, other),
    {
        let a = self.secs_exec();
        let b = other.secs_exec();
        a < b || (a == b && self.nano < other.nano)
    }

    /// `self.signed_duration_since(other).num_seconds()`.
    pub fn seconds_since(self, other: TimeOfDay) -> (r: i64)
        requires
            self.wf(),
            other.wf(),
        ensures
            r == clock_seconds_between(self, other),
    {
        let a = self.secs_exec();
        let b = other.secs_exec();
        let adj: i64 = if a > b && other.nano >= 1_000_000_000 {
            1
        } else if a < b && self.nano >= 1_000_000_000 {
            -1
        } else {
            0
        };
        let frac: i64 = self.nano as i64 - other.nano as i64;
        let q: i64 = if frac >= 1_000_000_000 {
            1
        } else if frac >= 0 {
            0
        } else if frac >= -1_000_000_000 {
            -1
        } else {
            -2
        };
        let rem: i64 = frac - q * 1_000_000_000;
        assert(q == frac as int / 1_000_000_000 && rem == frac as int % 1_000_000_000) by {
            vstd::arithmetic::div_mod::lemma_fundamental_div_mod_converse(
                frac as int,
                1_000_000_000,
                q as int,
                rem as int,
            );
        }
        let secs = a - b + adj + q;
        if secs < 0 && rem > 0 {
            secs + 1
        } else {
            secs
        }
    }
}

impl LocalDateTime {
    /// `and_utc().timestamp_millis()`.
    pub fn naive_millis_exec(self) -> (r: i64)
        requires
            self.wf(),
        ensures
            r == naive_millis(self),
    {
        let day = self.date.epoch_day_exec();
        proof {
            lemma_epoch_day_bounds(self.date);
        }
        day * 86_400_000 + self.time.millis_of_day_exec()
    }
}

/// Floor division of a negative numerator, written with truncating division.
pub proof fn lemma_floor_div_negative(x: int, d: int)
    requires
        x < 0,
        d > 0,
    ensures
        x / d == -((d - 1 - x) / d),
{
    let q = (d - 1 - x) / d;
    let r = (d - 1 - x) % d;
    vstd::arithmetic::div_mod::lemma_fundamental_div_mod(d - 1 - x, d);
    assert(0 <= r < d) by {
        vstd::arithmetic::div_mod::lemma_mod_bound(d - 1 - x, d);
    }
    assert(x == (-q) * d + (d - 1 - r)) by (nonlinear_arith)
        requires
            d - 1 - x == d * q + r,
    ;
    vstd::arithmetic::div_mod::lemma_fundamental_div_mod_converse(x, d, -q, d - 1 - r);
}

/// Epoch days of valid dates are bounded far inside `i64`.
pub proof fn lemma_epoch_day_bounds(d: CalendarDate)
    requires
        d.wf(),
    ensures
        -100_000_000 <= epoch_day(d) <= 100_000_000,
{
    let y = d.year as int;
    let m = d.month as int;
    let yy = if m <= 2 { y - 1 } else { y };
    let era = yy / 400;
    let yoe = yy - era * 400;
    assert(-656 <= era <= 656) by (nonlinear_arith)
        requires
            -262144 <= yy <= 262142,
            era == yy / 400,
    ;
    assert(0 <= yoe < 400) by (nonlinear_arith)
        requires
            era == yy / 400,
            yoe == yy - era * 400,
    ;
}

/// Whether `utc_date_in_range` holds, computed.
pub fn utc_date_in_range_exec(local: LocalDateTime, offset_seconds: i32) -> (r: bool)
    requires
        local.wf(),
        -86_400 < offset_seconds < 86_400,
    ensures
        r == utc_date_in_range(local, offset_seconds as int),
{
    let shifted = local.time.secs_exec() - offset_seconds as i64;
    proof {
        lemma_epoch_day_bounds(local.date);
    }
    let day = local.date.epoch_day_exec() + if shifted < 0 {
        -1i64
    } else if shifted >= 86_400 {
        1i64
    } else {
        0i64
    };
    let min_day = CalendarDate { year: MIN_YEAR, month: 1, day: 1 }.epoch_day_exec();
    let max_day = CalendarDate { year: MAX_YEAR, month: 12, day: 31 }.epoch_day_exec();
    min_day <= day && day <= max_day
}

impl CalendarDate {
    /// Whether this is a date of the proleptic Gregorian calendar within range.
    pub fn is_valid(self) -> (r: bool)
        ensures
            r == self.wf(),
    {
        MIN_YEAR <= self.year && self.year <= MAX_YEAR && 1 <= self.month && self.month <= 12
            && 1 <= self.day && self.day <= month_length(self.year, self.month)
    }
}

impl TimeOfDay {
    /// Whether this is a clock time, a leap second's fraction allowed.
    pub fn is_valid(self) -> (r: bool)
        ensures
            r == self.wf(),
    {
        self.hour < 24 && self.minute < 60 && self.second < 60 && self.nano < 2_000_000_000
    }
}

impl OffsetDateTime {
    /// Whether this is a valid local date and time at an offset of less
    /// than a day whose UTC date is within range.
    pub fn is_valid(self) -> (r: bool)
        ensures
            r == self.wf(),
    {
        self.local.date.is_valid() && self.local.time.is_valid() && -86_400 < self.offset_seconds
            && self.offset_seconds < 86_400 && utc_date_in_range_exec(self.local, self.offset_seconds)
    }
}

/// UTC milliseconds of `local` at a fixed offset, if its UTC date is representable.
pub fn utc_millis_exec(local: LocalDateTime, offset_seconds: i32) -> (r: Option<i64>)
    requires
        local.wf(),
        -86_400 < offset_seconds < 86_400,
    ensures
        r matches Some(v) ==> utc_millis(local, offset_seconds as int) == Some(v as int),
        r is None ==> utc_millis(local, offset_seconds as int) is None,
{
    if utc_date_in_range_exec(local, offset_seconds) {
        proof {
            lemma_epoch_day_bounds(local.date);
        }
        Some(local.naive_millis_exec() - (offset_seconds as i64) * 1000)
    } else {
        None
    }
}


/// The day number of a UTC instant given in milliseconds since the epoch.
pub open spec fn day_of_millis(ms: int) -> int {
    ms / 86_400_000
}

/// Whether chrono can represent the UTC instant `ms`
/// (`DateTime::<Utc>::from_timestamp_millis(ms)` is `Some`).
pub open spec fn timestamp_in_range(ms: int) -> bool {
    min_epoch_day() <= day_of_millis(ms) <= max_epoch_day()
}

/// Whether the local date of the instant `ms` at `offset` seconds can be
/// named (`date_naive` of a representable instant does not overflow).
pub open spec fn local_date_representable(ms: int, offset: int) -> bool {
    timestamp_in_range(ms) ==> min_epoch_day() <= day_of_millis(ms + offset * 1000) <= max_epoch_day()
}

proof fn lemma_day_of_year_facts(y: int, m: int, d: int)
    requires
        1 <= m <= 12,
        1 <= d <= days_in_month(y, m),
    ensures
        ({
            let mp = if m > 2 { m - 3 } else { m + 9 };
            let doy = (153 * mp + 2) / 5 + d - 1;
            &&& 0 <= doy <= 365
            &&& m >= 3 ==> doy <= 305
            &&& doy == 365 ==> m == 2 && d == 29
        }),
{
}

/// Valid dates lie at or before the last representable day.
pub proof fn lemma_epoch_day_at_most_max(d: CalendarDate)
    requires
        d.wf(),
    ensures
        epoch_day(d) <= max_epoch_day(),
{
    let y = d.year as int;
    let m = d.month as int;
    lemma_day_of_year_facts(y, m, d.day as int);
    let yy = if m <= 2 { y - 1 } else { y };
    let era = yy / 400;
    let yoe = yy - era * 400;
    let mp = if m > 2 { m - 3 } else { m + 9 };
    let doy = (153 * mp + 2) / 5 + d.day - 1;
    let doe = yoe * 365 + yoe / 4 - yoe / 100 + doy;
    assert(0 <= yoe < 400) by (nonlinear_arith)
        requires
            era == yy / 400,
            yoe == yy - era * 400,
    ;
    assert(era <= 655) by (nonlinear_arith)
        requires
            yy <= 262142,
            era == yy / 400,
    ;
    assert(max_epoch_day() == 655 * 146097 + 52169 - 719468);
    assert(doe <= 146096) by (nonlinear_arith)
        requires
            0 <= yoe < 400,
            0 <= doy <= 365,
            doe == yoe * 365 + yoe / 4 - yoe / 100 + doy,
    ;
    if era < 655 {
        assert(era * 146097 <= 654 * 146097) by (nonlinear_arith)
            requires
                era <= 654,
        ;
    } else {
        assert(yoe == yy - 262000);
        if yoe == 142 {
            assert(m >= 3);
        } else {
            assert(doe <= 51864int) by (nonlinear_arith)
                requires
                    0 <= yoe <= 141,
                    0 <= doy <= 365,
                    doe == yoe * 365 + yoe / 4 - yoe / 100 + doy,
            ;
        }
    }
}

proof fn lemma_feb_to_march(y: int, feb_days: int)
    requires
        MIN_YEAR <= y <= MAX_YEAR,
        feb_days == days_in_month(y, 2),
    ensures
        days_from_civil(y, 3, 1) == days_from_civil(y, 2, feb_days) + 1,
{
    let yy0 = y - 1;
    let era0 = yy0 / 400;
    let yoe0 = yy0 - era0 * 400;
    let era1 = y / 400;
    let yoe1 = y - era1 * 400;
    assert(0 <= yoe0 < 400) by (nonlinear_arith)
        requires
            era0 == yy0 / 400,
            yoe0 == yy0 - era0 * 400,
    ;
    assert(0 <= yoe1 < 400) by (nonlinear_arith)
        requires
            era1 == y / 400,
            yoe1 == y - era1 * 400,
    ;
    let lhs = era1 * 146097 + (yoe1 * 365 + yoe1 / 4 - yoe1 / 100 + 0) - 719468;
    let rhs = era0 * 146097 + (yoe0 * 365 + yoe0 / 4 - yoe0 / 100 + 336 + feb_days) - 719468;
    assert(days_from_civil(y, 3, 1) == lhs);
    assert(days_from_civil(y, 2, feb_days) == rhs);
    if yoe0 == 399 {
        assert(era1 == era0 + 1 && yoe1 == 0) by (nonlinear_arith)
            requires
                era0 == yy0 / 400,
                yoe0 == yy0 - era0 * 400,
                yoe0 == 399,
                yy0 == y - 1,
                era1 == y / 400,
                yoe1 == y - era1 * 400,
                0 <= yoe1 < 400,
        ;
        assert(y % 400 == 0) by (nonlinear_arith)
            requires
                y == era1 * 400,
        ;
        assert(feb_days == 29);
        assert(era1 * 146097 == era0 * 146097 + 146097) by (nonlinear_arith)
            requires
                era1 == era0 + 1,
        ;
    } else {
        assert(era1 == era0 && yoe1 == yoe0 + 1) by (nonlinear_arith)
            requires
                era0 == yy0 / 400,
                yoe0 == yy0 - era0 * 400,
                0 <= yoe0 < 399,
                yy0 == y - 1,
                era1 == y / 400,
                yoe1 == y - era1 * 400,
                0 <= yoe1 < 400,
        ;
        assert(y % 4 == yoe1 % 4 && y % 100 == yoe1 % 100 && y % 400 == yoe1) by (nonlinear_arith)
            requires
                y == era1 * 400 + yoe1,
                0 <= yoe1 < 400,
        ;
        assert(yoe1 / 4 - yoe0 / 4 == if yoe1 % 4 == 0 { 1int } else { 0int }) by (nonlinear_arith)
            requires
                yoe1 == yoe0 + 1,
                0 <= yoe0,
        ;
        assert(yoe1 / 100 - yoe0 / 100 == if yoe1 % 100 == 0 { 1int } else { 0int }) by (nonlinear_arith)
            requires
                yoe1 == yoe0 + 1,
                0 <= yoe0,
        ;
        assert(yoe1 % 100 == 0 ==> yoe1 % 4 == 0) by (nonlinear_arith)
            requires
                0 <= yoe1,
        ;
    }
}

/// The following day's number is one more.
pub proof fn lemma_epoch_day_next(d: CalendarDate)
    requires
        d.wf(),
        next_day(d) is Some,
    ensures
        epoch_day(next_day(d)->0) == epoch_day(d) + 1,
{
    let y = d.year as int;
    let m = d.month as int;
    let n = next_day(d)->0;
    if (d.day as int) < days_in_month(y, m) {
    } else if m < 12 {
        if m == 2 {
            lemma_feb_to_march(y, d.day as int);
        } else {
            assert(days_from_civil(y, m + 1, 1) == days_from_civil(y, m, days_in_month(y, m)) + 1);
        }
    } else {
        assert(days_from_civil(y + 1, 1, 1) == days_from_civil(y, 12, 31) + 1);
    }
}

} // verus!
