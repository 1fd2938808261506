//! Calls into chrono, blake3, serde_json and std whose results the library
//! names or states. Each item says what its contract claims of the call.

use vstd::prelude::*;

use chrono::{Datelike, Timelike};

use crate::encoding::decimal_of;

use crate::calendar::{
    day_of_millis, epoch_day, local_date_representable, timestamp_in_range, CalendarDate, LocalDateTime,
    TimeOfDay,
};

verus! {

/// What `chrono::NaiveDateTime::parse_from_str(text, format)` returns.
pub uninterp spec fn chrono_datetime_parse(text: Seq<char>, format: Seq<char>) -> Option<LocalDateTime>;

/// What `chrono::NaiveTime::parse_from_str(text, format)` returns.
pub uninterp spec fn chrono_time_parse(text: Seq<char>, format: Seq<char>) -> Option<TimeOfDay>;

/// What `chrono::NaiveDate::parse_from_str(text, format)` returns.
pub uninterp spec fn chrono_date_parse(text: Seq<char>, format: Seq<char>) -> Option<CalendarDate>;

/// The 32-byte digest that `blake3::hash` computes of a byte sequence.
pub uninterp spec fn blake3_digest(data: Seq<u8>) -> Seq<u8>;

/// The proleptic Gregorian year, month and day of the day `z` days after
/// 1970-01-01.
#[verifier::opaque]
pub open spec fn civil_from_days(z: int) -> (int, int, int) {
    let shifted = z + 719_468;
    let era = shifted / 146_097;
    let doe = shifted - era * 146_097;
    let yoe = (doe - doe / 1460 + doe / 36_524 - doe / 146_096) / 365;
    let doy = doe - (365 * yoe + yoe / 4 - yoe / 100);
    let mp = (5 * doy + 2) / 153;
    let d = doy - (153 * mp + 2) / 5 + 1;
    let m = if mp < 10 {
        mp + 3
    } else {
        mp - 9
    };
    (yoe + era * 400 + if m <= 2 {
        1int
    } else {
        0int
    }, m, d)
}

/// An offset as chrono's RFC 3339 text writes it: a sign, then hours and
/// minutes in two digits each, the seconds rounded to the nearest minute.
pub open spec fn offset_text(offset: int) -> Seq<char> {
    let a = if offset < 0 {
        -offset
    } else {
        offset
    };
    let minutes = (a + 30) / 60;
    seq![if offset < 0 { '-' } else { '+' }] + zero_padded((minutes / 60) as nat, 2) + seq![':']
        + zero_padded((minutes % 60) as nat, 2)
}

/// The local calendar date of the instant `millis` at the fixed offset
/// `offset` seconds east of UTC, as chrono's `with_timezone(..).date_naive()`
/// gives it: the civil date of the instant's day moved by the offset.
pub open spec fn chrono_local_date(millis: i64, offset: i32) -> CalendarDate {
    let (y, m, d) = civil_from_days(day_of_millis(millis + offset * 1000));
    CalendarDate { year: y as i32, month: m as u32, day: d as u32 }
}

/// The RFC 3339 text of the instant `millis` shown at `offset` seconds east
/// of UTC: the local date, `T`, hour, minute and second in two digits each,
/// the milliseconds after a point where there are any, and the offset.
#[verifier::opaque]
pub open spec fn rfc3339_text(millis: int, offset: int) -> Seq<char> {
    let local = millis + offset * 1000;
    let day = local / 86_400_000;
    let t = local - day * 86_400_000;
    let (y, m, d) = civil_from_days(day);
    let frac = t % 1000;
    year_text(y) + seq!['-'] + zero_padded(m as nat, 2) + seq!['-'] + zero_padded(d as nat, 2) + seq!['T']
        + zero_padded((t / 3_600_000) as nat, 2) + seq![':'] + zero_padded((t / 60_000 % 60) as nat, 2)
        + seq![':'] + zero_padded((t / 1000 % 60) as nat, 2) + (if frac == 0 {
        Seq::<char>::empty()
    } else {
        seq!['.'] + zero_padded(frac as nat, 3)
    }) + offset_text(offset)
}

/// The RFC 3339 text of the instant `millis` shown at the fixed offset
/// `offset` seconds east of UTC, as `DateTime::<Utc>::from_timestamp_millis`,
/// `with_timezone` and `to_rfc3339` give it; `None` where chrono cannot
/// represent the instant.
pub open spec fn rfc3339_at_offset(millis: i64, offset: i32) -> Option<Seq<char>> {
    if timestamp_in_range(millis as int) {
        Some(rfc3339_text(millis as int, offset as int))
    } else {
        None
    }
}

/// The RFC 3339 text of the UTC instant `millis` milliseconds after the Unix
/// epoch, as `DateTime::<Utc>::from_timestamp_millis(..).map(|v| v.to_rfc3339())`
/// gives it; `None` where chrono cannot represent the instant.
pub open spec fn utc_rfc3339_from_millis(millis: i64) -> Option<Seq<char>> {
    rfc3339_at_offset(millis, 0)
}


/// `n` in decimal, with leading zeros up to `width` digits.
pub open spec fn zero_padded(n: nat, width: nat) -> Seq<char> {
    let d = decimal_of(n);
    let zeros: nat = if d.len() < width {
        (width - d.len()) as nat
    } else {
        0
    };
    Seq::new(zeros, |_i: int| '0') + d
}

/// A year as chrono's `%Y` writes it: four digits from 0 to 9999, else a
/// sign before at least four digits.
pub open spec fn year_text(year: int) -> Seq<char> {
    if 0 <= year <= 9999 {
        zero_padded(year as nat, 4)
    } else if year < 0 {
        seq!['-'] + zero_padded((-year) as nat, 4)
    } else {
        seq!['+'] + zero_padded(year as nat, 4)
    }
}

/// The text chrono's `format("%Y-%m-%d")` gives a date: the year, then the
/// month and the day in two digits each, joined by `-`.
pub open spec fn ymd_text(date: CalendarDate) -> Seq<char> {
    year_text(date.year as int) + seq!['-'] + zero_padded(date.month as nat, 2) + seq!['-'] + zero_padded(
        date.day as nat,
        2,
    )
}

/// A hexadecimal digit as serde_json writes it, in lower case.
pub open spec fn hex_digit(d: nat) -> char {
    if d < 10 {
        (48 + d) as char
    } else {
        (87 + d) as char
    }
}

/// How serde_json writes one character inside a JSON string: quote and
/// backslash after a backslash, the five control characters with a short
/// escape by it, the other control characters below U+0020 as `\u00XX`,
/// and every other character as itself.
pub open spec fn json_char_text(c: char) -> Seq<char> {
    let n = c as nat;
    if c == '"' {
        seq!['\\', '"']
    } else if c == '\\' {
        seq!['\\', '\\']
    } else if n == 8 {
        seq!['\\', 'b']
    } else if n == 9 {
        seq!['\\', 't']
    } else if n == 10 {
        seq!['\\', 'n']
    } else if n == 12 {
        seq!['\\', 'f']
    } else if n == 13 {
        seq!['\\', 'r']
    } else if n < 32 {
        seq!['\\', 'u', '0', '0', hex_digit(n / 16), hex_digit(n % 16)]
    } else {
        seq![c]
    }
}

/// The characters of a string as serde_json writes them inside its quotes.
pub open spec fn json_escaped(s: Seq<char>) -> Seq<char>
    decreases s.len(),
{
    if s.len() == 0 {
        Seq::empty()
    } else {
        json_escaped(s.drop_last()) + json_char_text(s.last())
    }
}

/// The JSON text `serde_json::to_string` gives a string: the characters in
/// double quotes, with the escapes serde_json writes.
pub open spec fn json_string_text(s: Seq<char>) -> Seq<char> {
    seq!['"'] + json_escaped(s) + seq!['"']
}

/// The text chrono's `format("%Y-%m-%dT%H:%M:%S%.3f")` gives a local date
/// and time: the date, `T`, hour, minute and second in two digits each
/// (a leap second's fraction counts the second as 60), and the milliseconds
/// in three; empty where chrono has no such date and time (a fraction of a
/// second or more outside second 59).
pub open spec fn local_millis_text(local: LocalDateTime) -> Seq<char> {
    let t = local.time;
    if local.date.wf() && t.wf() && (t.nano < 1_000_000_000 || t.second == 59) {
        ymd_text(local.date) + seq!['T'] + zero_padded(t.hour as nat, 2) + seq![':'] + zero_padded(
            t.minute as nat,
            2,
        ) + seq![':'] + zero_padded((t.second + t.nano / 1_000_000_000) as nat, 2) + seq!['.']
            + zero_padded(((t.nano / 1_000_000) % 1000) as nat, 3)
    } else {
        Seq::empty()
    }
}

/// Whether `char::is_alphanumeric` holds of a character.
pub uninterp spec fn unicode_alphanumeric(c: char) -> bool;

/// The characters of `char::to_lowercase` for one character.
pub uninterp spec fn unicode_lowercase(c: char) -> Seq<char>;

/// The text `str::to_lowercase` gives.
pub uninterp spec fn unicode_lower_text(s: Seq<char>) -> Seq<char>;

/// The characters of `char::to_uppercase` for one character (one to three).
pub uninterp spec fn unicode_uppercase(c: char) -> Seq<char>;

/// The characters that `String::from_utf8_lossy` yields for a byte sequence.
pub uninterp spec fn lossy_utf8(bytes: Seq<u8>) -> Seq<char>;

/// `blake3::hash`, its digest taken as bytes. Claims only that the digest is
/// the named function of the input; how BLAKE3 mixes the bytes is left unsaid.
#[verifier::external_body]
pub(crate) fn blake3_hash(data: &[u8]) -> (r: [u8; 32])
    ensures
        r@ == blake3_digest(data@),
{
    *blake3::hash(data).as_bytes()
}

/// The incremental BLAKE3 state, `blake3::Hasher`; opaque to the library.
#[verifier::external_type_specification]
#[verifier::external_body]
pub struct ExBlake3Hasher(blake3::Hasher);

/// The bytes a `blake3::Hasher` has been given, in order.
pub uninterp spec fn blake3_hasher_input(h: blake3::Hasher) -> Seq<u8>;

/// `blake3::Hasher::new`: a state that has been given nothing.
#[verifier::external_body]
pub(crate) fn hasher_new() -> (r: blake3::Hasher)
    ensures
        blake3_hasher_input(r) == Seq::<u8>::empty(),
{
    blake3::Hasher::new()
}

/// `blake3::Hasher::update`: the chunk is appended to what the state was given.
#[verifier::external_body]
pub(crate) fn hasher_update(h: &mut blake3::Hasher, chunk: &[u8])
    ensures
        blake3_hasher_input(*final(h)) == blake3_hasher_input(*old(h)) + chunk@,
{
    h.update(chunk);
}

/// `blake3::Hasher::finalize`, as bytes: the digest of everything the state
/// was given, the same that `blake3::hash` gives of those bytes at once.
/// (Only states made by `hasher_new` exist in the library, and `finalize`
/// asserts that a state was made that way.)
#[verifier::external_body]
pub(crate) fn hasher_finalize(h: &blake3::Hasher) -> (r: [u8; 32])
    ensures
        r@ == blake3_digest(blake3_hasher_input(*h)),
{
    *h.finalize().as_bytes()
}

/// `chrono::DateTime::<Utc>::from_timestamp_millis` followed by `to_rfc3339`.
/// Claims the text that chrono's RFC 3339 writer gives, present exactly when
/// chrono can represent the instant.
#[verifier::external_body]
pub(crate) fn rfc3339_millis(millis: i64) -> (r: Option<String>)
    ensures
        match r {
            Some(v) => utc_rfc3339_from_millis(millis) == Some(v@),
            None => utc_rfc3339_from_millis(millis) is None,
        },
{
    chrono::DateTime::<chrono::Utc>::from_timestamp_millis(millis).map(|v| v.to_rfc3339())
}

/// `DateTime::<Utc>::from_timestamp_millis(millis)` seen at a fixed offset,
/// its local date (`with_timezone(..).date_naive()`). Claims what chrono
/// documents: the instant is representable exactly when its UTC day lies in
/// the calendar's range, and the local date is the day of the instant moved
/// by the offset. `date_naive` panics where that day leaves the range, which
/// `requires` rules out.
#[verifier::external_body]
pub(crate) fn local_date_at(millis: i64, offset_seconds: i32) -> (r: Option<CalendarDate>)
    requires
        -86_400 < offset_seconds < 86_400,
        local_date_representable(millis as int, offset_seconds as int),
    ensures
        r is Some <==> timestamp_in_range(millis as int),
        r matches Some(d) ==> d == chrono_local_date(millis, offset_seconds) && d.wf() && epoch_day(d)
            == day_of_millis(millis + offset_seconds * 1000),
{
    let offset = chrono::FixedOffset::east_opt(offset_seconds)?;
    match chrono::DateTime::<chrono::Utc>::from_timestamp_millis(millis) {
        Some(v) => {
            let d = v.with_timezone(&offset).date_naive();
            Some(CalendarDate { year: d.year(), month: d.month(), day: d.day() })
        },
        None => None,
    }
}

/// `DateTime::<Utc>::from_timestamp_millis(millis)`, then `with_timezone` at
/// a fixed offset and `to_rfc3339`. Claims the text that chrono's RFC 3339
/// writer gives, present exactly when chrono can represent the instant.
#[verifier::external_body]
pub(crate) fn offset_rfc3339(millis: i64, offset_seconds: i32) -> (r: Option<String>)
    requires
        -86_400 < offset_seconds < 86_400,
    ensures
        r is Some <==> timestamp_in_range(millis as int),
        match r {
            Some(v) => rfc3339_at_offset(millis, offset_seconds) == Some(v@),
            None => rfc3339_at_offset(millis, offset_seconds) is None,
        },
{
    let offset = chrono::FixedOffset::east_opt(offset_seconds)?;
    match chrono::DateTime::<chrono::Utc>::from_timestamp_millis(millis) {
        Some(v) => Some(v.with_timezone(&offset).to_rfc3339()),
        None => None,
    }
}

/// `NaiveDate::format("%Y-%m-%d").to_string()` of a valid date. Claims the
/// text that chrono's formatting code writes for `%Y`, `%m` and `%d`.
#[verifier::external_body]
pub(crate) fn format_ymd(date: CalendarDate) -> (r: String)
    requires
        date.wf(),
    ensures
        r@ == ymd_text(date),
{
    match chrono::NaiveDate::from_ymd_opt(date.year, date.month, date.day) {
        Some(d) => d.format("%Y-%m-%d").to_string(),
        None => String::new(),
    }
}

/// `serde_json::to_string` of a string slice (which cannot fail). Claims the
/// text that serde_json's escape table gives.
#[verifier::external_body]
pub(crate) fn json_string(s: &str) -> (r: String)
    ensures
        r@ == json_string_text(s@),
{
    match serde_json::to_string(s) {
        Ok(text) => text,
        Err(_) => String::new(),
    }
}

/// `NaiveDateTime::format("%Y-%m-%dT%H:%M:%S%.3f").to_string()` of a local
/// date and time rebuilt from its fields, or empty where chrono refuses the
/// fields. Claims the text that chrono's formatting code writes.
#[verifier::external_body]
pub(crate) fn format_local_millis(local: LocalDateTime) -> (r: String)
    ensures
        r@ == local_millis_text(local),
{
    let date = chrono::NaiveDate::from_ymd_opt(local.date.year, local.date.month, local.date.day);
    let time = chrono::NaiveTime::from_hms_nano_opt(
        local.time.hour,
        local.time.minute,
        local.time.second,
        local.time.nano,
    );
    match (date, time) {
        (Some(d), Some(t)) => d.and_time(t).format("%Y-%m-%dT%H:%M:%S%.3f").to_string(),
        _ => String::new(),
    }
}

/// `char::is_alphanumeric`. Claims only the named result; the Unicode
/// tables are left unsaid.
#[verifier::external_body]
pub(crate) fn char_is_alphanumeric(c: char) -> (r: bool)
    ensures
        r == unicode_alphanumeric(c),
{
    c.is_alphanumeric()
}

/// `char::to_lowercase`, collected. Claims only the named characters.
#[verifier::external_body]
pub(crate) fn char_to_lowercase(c: char) -> (r: Vec<char>)
    ensures
        r@ == unicode_lowercase(c),
{
    c.to_lowercase().collect()
}

/// `str::to_lowercase`. Claims only the named text.
#[verifier::external_body]
pub(crate) fn str_to_lowercase(s: &str) -> (r: String)
    ensures
        r@ == unicode_lower_text(s@),
{
    s.to_lowercase()
}

/// `char::to_uppercase`, collected. Claims that the text is the named
/// function of the character; the Unicode case tables are left unsaid.
#[verifier::external_body]
pub(crate) fn char_to_uppercase(c: char) -> (r: Vec<char>)
    ensures
        r@ == unicode_uppercase(c),
{
    c.to_uppercase().collect()
}

/// `chrono::NaiveDateTime::parse_from_str`, converted field by field.
/// Claims that the result is the named one and, as chrono's types guarantee,
/// a valid date and time; how chrono reads the format is left unsaid.
#[verifier::external_body]
pub fn parse_naive_datetime(text: &str, format: &str) -> (r: Option<LocalDateTime>)
    ensures
        r == chrono_datetime_parse(text@, format@),
        r matches Some(v) ==> v.wf(),
{
    chrono::NaiveDateTime::parse_from_str(text, format).ok().map(|v| LocalDateTime {
        date: CalendarDate { year: v.year(), month: v.month(), day: v.day() },
        time: TimeOfDay {
            hour: v.hour(),
            minute: v.minute(),
            second: v.second(),
            nano: v.nanosecond(),
        },
    })
}

/// `chrono::NaiveTime::parse_from_str`, converted field by field.
/// Claims that the result is the named one and a valid clock time.
#[verifier::external_body]
pub fn parse_naive_time(text: &str, format: &str) -> (r: Option<TimeOfDay>)
    ensures
        r == chrono_time_parse(text@, format@),
        r matches Some(v) ==> v.wf(),
{
    chrono::NaiveTime::parse_from_str(text, format).ok().map(|v| TimeOfDay {
        hour: v.hour(),
        minute: v.minute(),
        second: v.second(),
        nano: v.nanosecond(),
    })
}

/// `chrono::NaiveDate::parse_from_str`, converted field by field.
/// Claims that the result is the named one and a valid date.
#[verifier::external_body]
pub fn parse_naive_date(text: &str, format: &str) -> (r: Option<CalendarDate>)
    ensures
        r == chrono_date_parse(text@, format@),
        r matches Some(v) ==> v.wf(),
{
    chrono::NaiveDate::parse_from_str(text, format).ok().map(|v| CalendarDate {
        year: v.year(),
        month: v.month(),
        day: v.day(),
    })
}

/// `std::str::from_utf8(bytes).is_ok()`: whether the bytes are valid UTF-8.
#[verifier::external_body]
pub fn is_valid_utf8(bytes: &[u8]) -> (r: bool)
    ensures
        r == vstd::utf8::valid_utf8(bytes@),
{
    std::str::from_utf8(bytes).is_ok()
}

/// `String::from_utf8_lossy` as characters. Claims the named result and, as
/// std documents, that valid UTF-8 decodes unchanged.
#[verifier::external_body]
pub fn decode_utf8_lossy(bytes: &[u8]) -> (r: String)
    ensures
        r@ == lossy_utf8(bytes@),
        vstd::utf8::valid_utf8(bytes@) ==> r@ == vstd::utf8::decode_utf8(bytes@),
{
    String::from_utf8_lossy(bytes).into_owned()
}

} // verus!
