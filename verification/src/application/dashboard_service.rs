//! The arithmetic of the dashboard: plausible session bounds, the weakest
//! confidence, merged (unique) play time, month indices and top totals.

use vstd::prelude::*;

use crate::application::read_models::{ArchiveState, NamedMinutes, TopMetrics};
use crate::calendar::{CalendarDate, MAX_YEAR, MIN_YEAR};
use crate::domain::confidence::{confidence_rank, Confidence};
use crate::text::{chars_of, str_eq, string_from_chars, trim_chars, trim_ws, TrimSet};

verus! {

/// The longest session the dashboard treats as plausible: 31 days.
pub const MAX_PLAUSIBLE_SESSION_SECONDS: u64 = 2_678_400;

/// A canonical session as the archive stores it.
#[derive(Clone, Debug)]
pub struct StoredSession {
    pub id: String,
    pub started_at_ms: i64,
    pub ended_at_ms: Option<i64>,
    pub duration_seconds: Option<u64>,
    pub exit_kind: String,
    pub confidence: String,
    pub instance: String,
    pub version: String,
    pub loader: Option<String>,
    pub launcher: String,
    pub kind: String,
    pub destination: String,
    pub source: String,
    pub utc_offset_minutes: Option<i32>,
    pub server_destinations: Vec<String>,
    pub world_destinations: Vec<String>,
}

/// The end and duration a session is shown with; both unknown when implausible.
#[derive(Clone, Copy, PartialEq, Eq, Debug, Structural)]
pub struct SessionBounds {
    pub ended_at_ms: Option<i64>,
    pub duration_seconds: Option<u64>,
    pub implausible: bool,
}

/// A session is implausible when its duration exceeds 31 days, when its end
/// lies before its start or more than 31 days after it, or when its end and
/// its duration disagree by a second or more.
pub open spec fn implausible_spec(started: i64, ended: Option<i64>, duration: Option<u64>) -> bool {
    let too_long = match duration {
        Some(d) => d > MAX_PLAUSIBLE_SESSION_SECONDS,
        None => false,
    };
    let bad_end = match ended {
        Some(e) => e - started < 0 || e - started > MAX_PLAUSIBLE_SESSION_SECONDS * 1000,
        None => false,
    };
    let mismatch = match (ended, duration) {
        (Some(e), Some(d)) => e - started >= 0 && {
            let elapsed = e - started;
            let dm = d * 1000;
            (if elapsed >= dm { elapsed - dm } else { dm - elapsed }) >= 1000
        },
        _ => false,
    };
    too_long || bad_end || mismatch
}

pub open spec fn session_bounds_spec(started: i64, ended: Option<i64>, duration: Option<u64>) -> SessionBounds {
    if implausible_spec(started, ended, duration) {
        SessionBounds { ended_at_ms: None, duration_seconds: None, implausible: true }
    } else {
        SessionBounds { ended_at_ms: ended, duration_seconds: duration, implausible: false }
    }
}

pub fn session_bounds(session: &StoredSession) -> (r: SessionBounds)
    ensures
        r == session_bounds_spec(session.started_at_ms, session.ended_at_ms, session.duration_seconds),
{
    let mut implausible = match session.duration_seconds {
        Some(d) => d > MAX_PLAUSIBLE_SESSION_SECONDS,
        None => false,
    };
    let elapsed_ms: Option<u64> = match session.ended_at_ms {
        Some(end) => {
            let diff: i128 = end as i128 - session.started_at_ms as i128;
            if diff >= 0 && diff <= i64::MAX as i128 {
                Some(diff as u64)
            } else {
                None
            }
        },
        None => None,
    };
    if session.ended_at_ms.is_some() {
        match elapsed_ms {
            None => {
                implausible = true;
            },
            Some(elapsed) => {
                if elapsed > MAX_PLAUSIBLE_SESSION_SECONDS * 1000 {
                    implausible = true;
                }
            },
        }
    }
    if let (Some(elapsed), Some(duration)) = (elapsed_ms, session.duration_seconds) {
        let dm: u128 = duration as u128 * 1000;
        let e: u128 = elapsed as u128;
        let gap: u128 = if e >= dm { e - dm } else { dm - e };
        if gap >= 1000 {
            implausible = true;
        }
    }
    if implausible {
        SessionBounds { ended_at_ms: None, duration_seconds: None, implausible: true }
    } else {
        SessionBounds {
            ended_at_ms: session.ended_at_ms,
            duration_seconds: session.duration_seconds,
            implausible: false,
        }
    }
}

pub open spec fn parse_confidence_spec(s: Seq<char>) -> Confidence {
    if s == "verified"@ {
        Confidence::Verified
    } else if s == "high"@ {
        Confidence::High
    } else if s == "partial"@ {
        Confidence::Partial
    } else {
        Confidence::Unknown
    }
}

/// The confidence a stored label names; anything unrecognised is unknown.
pub fn parse_confidence(value: &str) -> (r: Confidence)
    ensures
        r == parse_confidence_spec(value@),
{
    if str_eq(value, "verified") {
        Confidence::Verified
    } else if str_eq(value, "high") {
        Confidence::High
    } else if str_eq(value, "partial") {
        Confidence::Partial
    } else {
        Confidence::Unknown
    }
}

pub open spec fn weaker_spec(left: Confidence, right: Confidence) -> Confidence {
    if confidence_rank(right) < confidence_rank(left) {
        right
    } else {
        left
    }
}

/// The weaker of two confidences.
pub fn weaker_confidence(left: Confidence, right: Confidence) -> (r: Confidence)
    ensures
        r == weaker_spec(left, right),
{
    let l: u8 = match left {
        Confidence::Verified => 4,
        Confidence::High => 3,
        Confidence::Partial => 2,
        Confidence::Unknown => 1,
    };
    let r: u8 = match right {
        Confidence::Verified => 4,
        Confidence::High => 3,
        Confidence::Partial => 2,
        Confidence::Unknown => 1,
    };
    if r < l {
        right
    } else {
        left
    }
}

/// Combining confidences keeps the weakest: the result is one of the two, no
/// stronger than either, and the order of the two does not matter.
pub proof fn law_weaker_confidence_is_the_minimum(a: Confidence, b: Confidence, c: Confidence)
    ensures
        weaker_spec(a, b) == a || weaker_spec(a, b) == b,
        confidence_rank(weaker_spec(a, b)) <= confidence_rank(a),
        confidence_rank(weaker_spec(a, b)) <= confidence_rank(b),
        weaker_spec(a, b) == weaker_spec(b, a),
        weaker_spec(weaker_spec(a, b), c) == weaker_spec(a, weaker_spec(b, c)),
        weaker_spec(a, a) == a,
{
}

pub open spec fn display_launcher_spec(s: Seq<char>) -> Seq<char> {
    if s == "official"@ {
        "Official Launcher"@
    } else if s == "prism"@ {
        "Prism Launcher"@
    } else if s == "multimc"@ {
        "MultiMC"@
    } else if s == "manual"@ {
        "Custom location"@
    } else {
        s
    }
}

/// A launcher stored by its adapter's name is shown by a name that begins
/// with the adapter's label and differs from the stored name.
pub proof fn law_launchers_are_shown_by_label(k: crate::domain::location::AdapterKind)
    ensures
        crate::text::starts_with(
            display_launcher_spec(crate::domain::location::adapter_name(k)),
            crate::domain::location::adapter_label(k),
        ),
        display_launcher_spec(crate::domain::location::adapter_name(k)) != crate::domain::location::adapter_name(k),
{
    reveal_strlit("official");
    reveal_strlit("prism");
    reveal_strlit("multimc");
    reveal_strlit("manual");
    reveal_strlit("Official Launcher");
    reveal_strlit("Prism Launcher");
    reveal_strlit("MultiMC");
    reveal_strlit("Custom location");
    reveal_strlit("Official");
    reveal_strlit("Prism");
    reveal_strlit("Custom");
    assert("prism"@ != "official"@) by { assert("prism"@.len() != "official"@.len()); }
    assert("multimc"@ != "official"@) by { assert("multimc"@.len() != "official"@.len()); }
    assert("manual"@ != "official"@) by { assert("manual"@.len() != "official"@.len()); }
    assert("multimc"@ != "prism"@) by { assert("multimc"@.len() != "prism"@.len()); }
    assert("manual"@ != "prism"@) by { assert("manual"@.len() != "prism"@.len()); }
    assert("manual"@ != "multimc"@) by { assert("manual"@.len() != "multimc"@.len()); }
    assert("Official Launcher"@.subrange(0, 8) =~= "Official"@);
    assert("Prism Launcher"@.subrange(0, 5) =~= "Prism"@);
    assert("MultiMC"@.subrange(0, 7) =~= "MultiMC"@);
    assert("Custom location"@.subrange(0, 6) =~= "Custom"@);
    assert("Official Launcher"@ != "official"@) by { assert("Official Launcher"@.len() != "official"@.len()); }
    assert("Prism Launcher"@ != "prism"@) by { assert("Prism Launcher"@.len() != "prism"@.len()); }
    assert("MultiMC"@ != "multimc"@) by { assert("MultiMC"@[0] != "multimc"@[0]); }
    assert("Custom location"@ != "manual"@) by { assert("Custom location"@.len() != "manual"@.len()); }
}

fn owned(s: &str) -> (r: String)
    ensures
        r@ == s@,
{
    let c = chars_of(s);
    string_from_chars(c.as_slice())
}

/// The name a stored launcher kind is shown with.
pub fn display_launcher(value: &str) -> (r: String)
    ensures
        r@ == display_launcher_spec(value@),
{
    if str_eq(value, "official") {
        owned("Official Launcher")
    } else if str_eq(value, "prism") {
        owned("Prism Launcher")
    } else if str_eq(value, "multimc") {
        owned("MultiMC")
    } else if str_eq(value, "manual") {
        owned("Custom location")
    } else {
        owned(value)
    }
}

/// Months counted from year zero: `year * 12 + month - 1`.
pub open spec fn month_index_spec(d: CalendarDate) -> int {
    d.year * 12 + d.month - 1
}

pub fn month_index(date: CalendarDate) -> (r: i32)
    requires
        date.wf(),
    ensures
        r == month_index_spec(date),
{
    date.year * 12 + (date.month - 1) as i32
}

/// The number of calendar months from `first` to `last`, both included; zero when `last` is earlier.
pub fn months_inclusive(first: CalendarDate, last: CalendarDate) -> (r: u32)
    requires
        first.wf(),
        last.wf(),
    ensures
        r == (if month_index_spec(last) - month_index_spec(first) + 1 < 0 {
            0
        } else {
            month_index_spec(last) - month_index_spec(first) + 1
        }),
{
    let a = month_index(first);
    let b = month_index(last);
    let span: i64 = b as i64 - a as i64 + 1;
    if span < 0 {
        0
    } else {
        span as u32
    }
}

/// The first day of the month with the given index, when chrono can represent it.
pub open spec fn month_from_index_spec(index: i32) -> Option<CalendarDate> {
    let year = index / 12;
    let month = index % 12 + 1;
    if MIN_YEAR <= year <= MAX_YEAR {
        Some(CalendarDate { year: year as i32, month: month as u32, day: 1 })
    } else {
        None
    }
}

pub fn month_from_index(index: i32) -> (r: Option<CalendarDate>)
    ensures
        r == month_from_index_spec(index),
        r matches Some(d) ==> d.wf(),
{
    let q = index / 12;
    let rem = index % 12;
    let (year, month0) = if rem < 0 { (q - 1, rem + 12) } else { (q, rem) };
    if MIN_YEAR <= year && year <= MAX_YEAR {
        Some(CalendarDate { year, month: (month0 + 1) as u32, day: 1 })
    } else {
        None
    }
}

pub fn named(name: &str, minutes: u64) -> (r: NamedMinutes)
    ensures
        r.name@ == name@,
        r.minutes == minutes,
{
    NamedMinutes { name: owned(name), minutes }
}

/// The union of play intervals streamed newest first: the interval being
/// grown, and the milliseconds of the intervals already closed.
#[derive(Clone, Copy, Debug)]
pub struct IntervalUnion {
    pub current: Option<(i64, i64)>,
    pub completed_millis: u64,
}

pub open spec fn sat_add_u64(a: u64, b: int) -> u64 {
    if a + b > u64::MAX {
        u64::MAX
    } else {
        (a + b) as u64
    }
}

/// `end - start` in milliseconds, saturating, and zero when negative.
pub open spec fn span_millis(start: i64, end: i64) -> int {
    let d = end - start;
    let s = if d > i64::MAX { i64::MAX as int } else if d < i64::MIN { i64::MIN as int } else { d };
    if s < 0 { 0 } else { s }
}

pub open spec fn union_add_spec(u: IntervalUnion, start: i64, end: i64) -> IntervalUnion {
    match u.current {
        None => IntervalUnion { current: Some((start, end)), ..u },
        Some((cs, ce)) => if end >= cs {
            IntervalUnion {
                current: Some((if start < cs { start } else { cs }, if end > ce { end } else { ce })),
                ..u
            }
        } else {
            IntervalUnion {
                current: Some((start, end)),
                completed_millis: sat_add_u64(u.completed_millis, span_millis(cs, ce)),
            }
        },
    }
}

pub open spec fn union_finish_spec(u: IntervalUnion) -> u64 {
    let total = match u.current {
        Some((s, e)) => sat_add_u64(u.completed_millis, span_millis(s, e)),
        None => u.completed_millis,
    };
    total / 1000
}

fn span_millis_exec(start: i64, end: i64) -> (r: u64)
    ensures
        r == span_millis(start, end),
{
    let d: i128 = end as i128 - start as i128;
    if d < 0 {
        0
    } else if d > i64::MAX as i128 {
        i64::MAX as u64
    } else {
        d as u64
    }
}

impl IntervalUnion {
    pub fn new() -> (r: IntervalUnion)
        ensures
            r == (IntervalUnion { current: None, completed_millis: 0 }),
    {
        IntervalUnion { current: None, completed_millis: 0 }
    }

    /// Adds an interval that starts no later than every interval added before it.
    pub fn add(&mut self, start: i64, end: i64)
        ensures
            *final(self) == union_add_spec(*old(self), start, end),
    {
        match self.current {
            None => {
                self.current = Some((start, end));
            },
            Some((cs, ce)) => {
                if end >= cs {
                    let s = if start < cs { start } else { cs };
                    let e = if end > ce { end } else { ce };
                    self.current = Some((s, e));
                } else {
                    self.completed_millis = self.completed_millis.saturating_add(
                        span_millis_exec(cs, ce),
                    );
                    self.current = Some((start, end));
                }
            },
        }
    }

    /// The whole seconds covered by the union.
    pub fn finish(self) -> (r: u64)
        ensures
            r == union_finish_spec(self),
    {
        let total = match self.current {
            Some((s, e)) => self.completed_millis.saturating_add(span_millis_exec(s, e)),
            None => self.completed_millis,
        };
        total / 1000
    }
}

/// The union after adding each interval in turn.
pub open spec fn union_of(ivs: Seq<(i64, i64)>) -> IntervalUnion
    decreases ivs.len(),
{
    if ivs.len() == 0 {
        IntervalUnion { current: None, completed_millis: 0 }
    } else {
        union_add_spec(union_of(ivs.drop_last()), ivs.last().0, ivs.last().1)
    }
}

pub open spec fn summed_millis(ivs: Seq<(i64, i64)>) -> int
    decreases ivs.len(),
{
    if ivs.len() == 0 {
        0
    } else {
        summed_millis(ivs.drop_last()) + span_millis(ivs.last().0, ivs.last().1)
    }
}

pub open spec fn union_millis(u: IntervalUnion) -> int {
    u.completed_millis + match u.current {
        Some((s, e)) => span_millis(s, e),
        None => 0,
    }
}

proof fn lemma_union_bounded(ivs: Seq<(i64, i64)>)
    requires
        forall|i: int| 0 <= i < ivs.len() ==> (#[trigger] ivs[i]).0 < ivs[i].1,
        forall|i: int, j: int| 0 <= i < j < ivs.len() ==> (#[trigger] ivs[j]).0 <= (#[trigger] ivs[i]).0,
    ensures
        union_millis(union_of(ivs)) <= summed_millis(ivs),
        union_of(ivs).current matches Some((s, e)) ==> s < e && (ivs.len() > 0 && s == ivs.last().0),
    decreases ivs.len(),
{
    if ivs.len() > 0 {
        let prev = ivs.drop_last();
        lemma_union_bounded(prev);
        let u = union_of(prev);
        let (start, end) = ivs.last();
        match u.current {
            None => {},
            Some((cs, ce)) => {
                assert(prev.last() == ivs[ivs.len() - 2]);
                assert(start <= cs);
            },
        }
    }
}

/// Merged play time never exceeds summed play time: when sessions are added
/// newest first, the seconds of their union are at most the seconds of all
/// their intervals added up.
pub proof fn law_unique_time_at_most_summed_time(ivs: Seq<(i64, i64)>)
    requires
        forall|i: int| 0 <= i < ivs.len() ==> (#[trigger] ivs[i]).0 < ivs[i].1,
        forall|i: int, j: int| 0 <= i < j < ivs.len() ==> (#[trigger] ivs[j]).0 <= (#[trigger] ivs[i]).0,
    ensures
        union_finish_spec(union_of(ivs)) <= summed_millis(ivs) / 1000,
{
    lemma_union_bounded(ivs);
    let u = union_of(ivs);
    assert(union_finish_spec(u) * 1000 <= union_millis(u));
}

/// Per-name runtime totals, in first-seen order.
pub struct RuntimeTotals {
    pub entries: Vec<(String, u64)>,
}

pub open spec fn totals_view(v: Seq<(String, u64)>) -> Seq<(Seq<char>, u64)> {
    v.map_values(|e: (String, u64)| (e.0@, e.1))
}

/// Adding `seconds` under `name`: blank names are ignored; a known name accumulates, saturating.
pub open spec fn add_runtime_spec(t: Seq<(Seq<char>, u64)>, name: Seq<char>, seconds: u64) -> Seq<
    (Seq<char>, u64),
> {
    if trim_ws(name).len() == 0 {
        t
    } else if exists|i: int| 0 <= i < t.len() && (#[trigger] t[i]).0 == name {
        let i = choose|i: int| 0 <= i < t.len() && (#[trigger] t[i]).0 == name;
        t.update(i, (name, sat_add_u64(t[i].1, seconds as int)))
    } else {
        t.push((name, seconds))
    }
}

pub open spec fn names_distinct(t: Seq<(Seq<char>, u64)>) -> bool {
    forall|i: int, j: int| 0 <= i < j < t.len() ==> (#[trigger] t[i]).0 != (#[trigger] t[j]).0
}

impl RuntimeTotals {
    pub fn new() -> (r: RuntimeTotals)
        ensures
            r.entries@.len() == 0,
    {
        RuntimeTotals { entries: Vec::new() }
    }
}

pub fn add_runtime(values: &mut RuntimeTotals, name: &str, seconds: u64)
    requires
        names_distinct(totals_view(old(values).entries@)),
    ensures
        names_distinct(totals_view(final(values).entries@)),
        totals_view(final(values).entries@) == add_runtime_spec(
            totals_view(old(values).entries@),
            name@,
            seconds,
        ),
{
    let c = chars_of(name);
    let t = trim_chars(c.as_slice(), TrimSet::Whitespace);
    proof {
        assert(crate::text::trim_by(name@, TrimSet::Whitespace) == trim_ws(name@));
    }
    if t.len() == 0 {
        return;
    }
    let ghost tv = totals_view(values.entries@);
    let mut i: usize = 0;
    while i < values.entries.len()
        invariant
            i <= values.entries@.len(),
            tv == totals_view(values.entries@),
            values.entries@ == old(values).entries@,
            names_distinct(tv),
            trim_ws(name@).len() > 0,
            forall|k: int| 0 <= k < i ==> (#[trigger] tv[k]).0 != name@,
        decreases values.entries@.len() - i,
    {
        if str_eq(values.entries[i].0.as_str(), name) {
            let total = values.entries[i].1.saturating_add(seconds);
            let entry = (values.entries[i].0.clone(), total);
            values.entries.set(i, entry);
            proof {
                assert(tv[i as int].0 == name@);
                let j = choose|j: int| 0 <= j < tv.len() && (#[trigger] tv[j]).0 == name@;
                if j != i {
                    if j < i {
                        assert(tv[j].0 != tv[i as int].0);
                    } else {
                        assert(tv[i as int].0 != tv[j].0);
                    }
                }
                assert(totals_view(values.entries@) =~= tv.update(i as int, (name@, sat_add_u64(tv[i as int].1, seconds as int))));
            }
            return;
        }
        i = i + 1;
    }
    values.entries.push((owned(name), seconds));
    proof {
        assert(totals_view(values.entries@) =~= tv.push((name@, seconds)));
    }
}

/// Whether entry `a` ranks above entry `b`: more seconds, then the smaller name.
pub open spec fn ranks_above(a: (Seq<char>, u64), b: (Seq<char>, u64)) -> bool {
    a.1 > b.1 || (a.1 == b.1 && crate::parser::session_reconstruction::lex_lt(a.0, b.0))
}

/// The top entry, or the empty label with no time.
pub open spec fn top_runtime_spec(t: Seq<(Seq<char>, u64)>, empty: Seq<char>) -> (Seq<char>, u64) {
    if t.len() == 0 {
        (empty, 0)
    } else {
        let i = choose|i: int|
            0 <= i < t.len() && forall|j: int| 0 <= j < t.len() && j != i ==> ranks_above(
                #[trigger] t[i],
                #[trigger] t[j],
            );
        (t[i].0, t[i].1 / 60)
    }
}

pub fn top_runtime(values: RuntimeTotals, empty_label: &str) -> (r: NamedMinutes)
    requires
        names_distinct(totals_view(values.entries@)),
    ensures
        (r.name@, r.minutes) == top_runtime_spec(totals_view(values.entries@), empty_label@),
{
    let ghost tv = totals_view(values.entries@);
    if values.entries.len() == 0 {
        return named(empty_label, 0);
    }
    let mut best: usize = 0;
    let mut i: usize = 1;
    while i < values.entries.len()
        invariant
            1 <= i <= values.entries@.len(),
            best < i,
            tv == totals_view(values.entries@),
            names_distinct(tv),
            forall|j: int| 0 <= j < i && j != best ==> ranks_above(tv[best as int], #[trigger] tv[j]),
        decreases values.entries@.len() - i,
    {
        let (bn, bs) = (&values.entries[best].0, values.entries[best].1);
        let (cn, cs) = (&values.entries[i].0, values.entries[i].1);
        if cs > bs || (cs == bs && crate::parser::session_reconstruction::string_lt(cn, bn)) {
            proof {
                assert forall|j: int| 0 <= j < i + 1 && j != i implies ranks_above(
                    tv[i as int],
                    #[trigger] tv[j],
                ) by {
                    if j != best {
                        assert(ranks_above(tv[best as int], tv[j]));
                        if tv[j].1 == tv[i as int].1 {
                            crate::parser::reconstruction_laws::lemma_lex_lt_transitive(
                                tv[i as int].0,
                                tv[best as int].0,
                                tv[j].0,
                            );
                        }
                    }
                }
            }
            best = i;
        } else {
            proof {
                assert(tv[i as int].0 != tv[best as int].0);
                crate::parser::reconstruction_laws::lemma_lex_lt_total(tv[i as int].0, tv[best as int].0);
            }
        }
        i = i + 1;
    }
    proof {
        let b = best as int;
        assert(forall|j: int| 0 <= j < tv.len() && j != b ==> ranks_above(#[trigger] tv[b], #[trigger] tv[j]));
        let k = choose|k: int|
            0 <= k < tv.len() && forall|j: int| 0 <= j < tv.len() && j != k ==> ranks_above(
                #[trigger] tv[k],
                #[trigger] tv[j],
            );
        if k != b {
            assert(ranks_above(tv[k], tv[b]));
            assert(ranks_above(tv[b], tv[k]));
            crate::parser::reconstruction_laws::lemma_lex_lt_asymmetric(tv[k].0, tv[b].0);
        }
    }
    let minutes = values.entries[best].1 / 60;
    NamedMinutes { name: values.entries[best].0.clone(), minutes }
}

/// What an empty dashboard says about the archive.
pub open spec fn empty_warning(state: ArchiveState) -> Seq<char> {
    match state {
        ArchiveState::Unscanned => "No completed scan has run yet. Start a scan to build the local archive."@,
        ArchiveState::ScannedNoEvidence => "A scan completed, but it found no reconstructable session evidence."@,
        ArchiveState::Ready => "No session evidence is currently included in the dashboard."@,
    }
}

pub fn empty_archive_warning(state: ArchiveState) -> (r: &'static str)
    ensures
        r@ == empty_warning(state),
{
    proof {
        reveal_strlit("No completed scan has run yet. Start a scan to build the local archive.");
        reveal_strlit("A scan completed, but it found no reconstructable session evidence.");
        reveal_strlit("No session evidence is currently included in the dashboard.");
    }
    match state {
        ArchiveState::Unscanned => "No completed scan has run yet. Start a scan to build the local archive.",
        ArchiveState::ScannedNoEvidence => "A scan completed, but it found no reconstructable session evidence.",
        ArchiveState::Ready => "No session evidence is currently included in the dashboard.",
    }
}

} // verus!
