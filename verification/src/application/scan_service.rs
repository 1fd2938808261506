//! The decisions of a scan that do not touch the file system or the archive:
//! stored labels, canonical server addresses, the order of an instance's logs,
//! and the resource budgets that bound one scan.

use vstd::prelude::*;

use crate::calendar::{CalendarDate, OffsetDateTime};
use crate::domain::confidence::Confidence;
use crate::encoding::{decimal_chars, decimal_of};
use crate::external::{chrono_date_parse, parse_naive_date};
use crate::parser::minecraft_log::{
    div60, DateHintBasis, EvidenceTag, LogParseContext, LogParseDiagnostics, ParsedLog, TimestampOrigin,
};
use crate::parser::session_reconstruction::{
    ReconstructedExitKind, ReconstructedSession, SessionEndBoundary, SessionEvidenceRole,
};
use crate::parser::source_classifier::{file_name_chars, file_name_of};
use crate::scan::model::{FingerprintedLog, StagedSource};
use crate::text::{all_ascii_digits, ends_with, ends_with_chars, is_ascii_digit, rfind, rfind_chars, lemma_rfind_some};
use crate::text::{
    append_chars, chars_of, count_char, count_char_exec, eq_chars, find, find_chars, lemma_find_some,
    lower_chars, lower_seq, match_at, slice_chars, starts_with, string_from_chars, trim_by,
    trim_chars, trim_end_by, trim_end_chars, trim_ws, TrimSet,
};

verus! {

pub open spec fn evidence_tag_name(t: EvidenceTag) -> Seq<char> {
    match t {
        EvidenceTag::GameStarted => "game_started"@,
        EvidenceTag::VersionObserved => "version_observed"@,
        EvidenceTag::ServerJoined => "server_joined"@,
        EvidenceTag::IntegratedServerStarted => "integrated_server_started"@,
        EvidenceTag::WorldLoaded => "world_loaded"@,
        EvidenceTag::Disconnected => "disconnected"@,
        EvidenceTag::Stopping => "stopping"@,
        EvidenceTag::CleanShutdown => "clean_shutdown"@,
        EvidenceTag::Crash => "crash"@,
    }
}

/// The stored name of an evidence kind.
pub fn evidence_tag(value: EvidenceTag) -> (r: &'static str)
    ensures
        r@ == evidence_tag_name(value),
{
    match value {
        EvidenceTag::GameStarted => "game_started",
        EvidenceTag::VersionObserved => "version_observed",
        EvidenceTag::ServerJoined => "server_joined",
        EvidenceTag::IntegratedServerStarted => "integrated_server_started",
        EvidenceTag::WorldLoaded => "world_loaded",
        EvidenceTag::Disconnected => "disconnected",
        EvidenceTag::Stopping => "stopping",
        EvidenceTag::CleanShutdown => "clean_shutdown",
        EvidenceTag::Crash => "crash",
    }
}

pub open spec fn timestamp_origin_name(o: TimestampOrigin) -> Seq<char> {
    match o {
        TimestampOrigin::LineDateTime => "line_datetime"@,
        TimestampOrigin::LineTimeWithDateHint => "line_time_with_date_hint"@,
        TimestampOrigin::LineTimeOnly => "line_time_only"@,
        TimestampOrigin::Missing => "missing"@,
    }
}

/// The stored name of where a timestamp came from.
pub fn timestamp_origin(value: TimestampOrigin) -> (r: &'static str)
    ensures
        r@ == timestamp_origin_name(value),
{
    match value {
        TimestampOrigin::LineDateTime => "line_datetime",
        TimestampOrigin::LineTimeWithDateHint => "line_time_with_date_hint",
        TimestampOrigin::LineTimeOnly => "line_time_only",
        TimestampOrigin::Missing => "missing",
    }
}

pub open spec fn evidence_role_name(r: SessionEvidenceRole) -> Seq<char> {
    match r {
        SessionEvidenceRole::Start => "start"@,
        SessionEvidenceRole::End => "end"@,
        SessionEvidenceRole::Version => "version"@,
        SessionEvidenceRole::Destination => "destination"@,
        SessionEvidenceRole::Exit => "exit"@,
        SessionEvidenceRole::Supporting => "supporting"@,
    }
}

/// The stored name of the part a piece of evidence plays in a session.
pub fn evidence_role(value: SessionEvidenceRole) -> (r: &'static str)
    ensures
        r@ == evidence_role_name(value),
{
    match value {
        SessionEvidenceRole::Start => "start",
        SessionEvidenceRole::End => "end",
        SessionEvidenceRole::Version => "version",
        SessionEvidenceRole::Destination => "destination",
        SessionEvidenceRole::Exit => "exit",
        SessionEvidenceRole::Supporting => "supporting",
    }
}

pub open spec fn exit_name(e: ReconstructedExitKind) -> Seq<char> {
    match e {
        ReconstructedExitKind::Clean => "clean"@,
        ReconstructedExitKind::Crash => "crash"@,
        ReconstructedExitKind::Unknown => "unknown"@,
    }
}

/// The stored name of how a session ended.
pub fn reconstructed_exit(value: ReconstructedExitKind) -> (r: &'static str)
    ensures
        r@ == exit_name(value),
{
    match value {
        ReconstructedExitKind::Clean => "clean",
        ReconstructedExitKind::Crash => "crash",
        ReconstructedExitKind::Unknown => "unknown",
    }
}

pub open spec fn confidence_name(c: Confidence) -> Seq<char> {
    match c {
        Confidence::Verified => "verified"@,
        Confidence::High => "high"@,
        Confidence::Partial => "partial"@,
        Confidence::Unknown => "unknown"@,
    }
}

/// The stored name of a confidence.
pub fn confidence_label(value: Confidence) -> (r: &'static str)
    ensures
        r@ == confidence_name(value),
{
    match value {
        Confidence::Verified => "verified",
        Confidence::High => "high",
        Confidence::Partial => "partial",
        Confidence::Unknown => "unknown",
    }
}

/// A number printed with at least two digits.
pub open spec fn two_digits(n: nat) -> Seq<char> {
    if n < 10 {
        seq!['0'] + decimal_of(n)
    } else {
        decimal_of(n)
    }
}

/// `UTC+hh:mm` or `UTC-hh:mm` for an offset in minutes east of UTC.
pub open spec fn utc_offset_text(minutes: i32) -> Seq<char> {
    let a: nat = if minutes < 0 { (-minutes) as nat } else { minutes as nat };
    "UTC"@ + seq![if minutes < 0 { '-' } else { '+' }] + two_digits(a / 60) + seq![':'] + two_digits(
        a % 60,
    )
}

fn push_two_digits(v: &mut Vec<char>, n: u64)
    ensures
        final(v)@ == old(v)@ + two_digits(n as nat),
{
    if n < 10 {
        v.push('0');
    }
    let d = decimal_chars(n);
    append_chars(v, d.as_slice());
}

/// The stored time zone name of a fixed UTC offset.
pub fn format_utc_offset(minutes: i32) -> (r: String)
    ensures
        r@ == utc_offset_text(minutes),
{
    let mut v = chars_of("UTC");
    v.push(if minutes < 0 { '-' } else { '+' });
    let a: u64 = if minutes < 0 { (0i64 - minutes as i64) as u64 } else { minutes as u64 };
    push_two_digits(&mut v, a / 60);
    v.push(':');
    push_two_digits(&mut v, a % 60);
    string_from_chars(v.as_slice())
}

/// A parse that recovered from malformed input or missing time information.
pub open spec fn has_parse_warnings(d: LogParseDiagnostics) -> bool {
    d.malformed_utf8_lines > 0 || d.unparsed_timestamp_prefixes > 0 || d.non_monotonic_timestamps > 0
        || d.evidence_without_timestamp > 0
}

pub fn parser_has_warnings(parsed: &ParsedLog) -> (r: bool)
    ensures
        r == has_parse_warnings(parsed.diagnostics),
{
    let d = &parsed.diagnostics;
    d.malformed_utf8_lines > 0 || d.unparsed_timestamp_prefixes > 0 || d.non_monotonic_timestamps
        > 0 || d.evidence_without_timestamp > 0
}

/// The canonical form of a server address: trimmed and ASCII-lowercased, the
/// default port 25565 dropped, and trailing dots of a host name removed. A
/// bracketed IPv6 literal keeps its brackets; an unbracketed one (two or more
/// colons) is left whole, its last group never read as a port.
pub open spec fn normalize_address_spec(address: Seq<char>) -> Seq<char> {
    let n = lower_seq(trim_ws(address));
    if starts_with(n, seq!['[']) {
        match find(n, seq![']']) {
            None => n,
            Some(c) => {
                let host = n.subrange(0, c + 1int);
                let suffix = trim_ws(n.subrange(c + 1int, n.len() as int));
                if suffix.len() == 0 || suffix == ":25565"@ {
                    host
                } else {
                    host + suffix
                }
            },
        }
    } else if count_char(n, ':') > 1 {
        n
    } else {
        match find(n, seq![':']) {
            Some(i) => {
                let host = trim_end_by(n.subrange(0, i as int), TrimSet::Dot);
                let port = n.subrange(i + 1int, n.len() as int);
                if port == "25565"@ {
                    host
                } else {
                    host + seq![':'] + port
                }
            },
            None => trim_end_by(n, TrimSet::Dot),
        }
    }
}

pub fn normalize_server_address(address: &str) -> (r: String)
    ensures
        r@ == normalize_address_spec(address@),
{
    let raw = chars_of(address);
    let trimmed = trim_chars(raw.as_slice(), TrimSet::Whitespace);
    let n = lower_chars(trimmed.as_slice());
    proof {
        assert(trim_by(address@, TrimSet::Whitespace) == trim_ws(address@));
    }
    if n.len() > 0 && n[0] == '[' {
        assert(n@.subrange(0, 1) =~= seq!['[']);
        let close = vec![']'];
        assert(close@ =~= seq![']']);
        match find_chars(n.as_slice(), close.as_slice()) {
            None => {
                return string_from_chars(n.as_slice());
            },
            Some(c) => {
                proof {
                    lemma_find_some(n@, seq![']']);
                    assert(match_at(n@, seq![']'], c as int));
                    assert(n@.len() == n.len());
                }
                let mut host = slice_chars(n.as_slice(), 0, c + 1);
                let rest = slice_chars(n.as_slice(), c + 1, n.len());
                let suffix = trim_chars(rest.as_slice(), TrimSet::Whitespace);
                let default_port = chars_of(":25565");
                if suffix.len() == 0 || eq_chars(suffix.as_slice(), default_port.as_slice()) {
                    return string_from_chars(host.as_slice());
                }
                append_chars(&mut host, suffix.as_slice());
                return string_from_chars(host.as_slice());
            },
        }
    }
    proof {
        if n@.len() > 0 {
            assert(!(n@.subrange(0, 1) =~= seq!['['])) by {
                assert(n@.subrange(0, 1)[0] == n@[0]);
            }
        }
    }
    if count_char_exec(n.as_slice(), ':') > 1 {
        return string_from_chars(n.as_slice());
    }
    let colon = vec![':'];
    assert(colon@ =~= seq![':']);
    match find_chars(n.as_slice(), colon.as_slice()) {
        Some(i) => {
            proof {
                lemma_find_some(n@, seq![':']);
                assert(match_at(n@, seq![':'], i as int));
                assert(n@.len() == n.len());
            }
            let head = slice_chars(n.as_slice(), 0, i);
            let mut host = trim_end_chars(head.as_slice(), TrimSet::Dot);
            let port = slice_chars(n.as_slice(), i + 1, n.len());
            let default_port = chars_of("25565");
            if eq_chars(port.as_slice(), default_port.as_slice()) {
                return string_from_chars(host.as_slice());
            }
            host.push(':');
            append_chars(&mut host, port.as_slice());
            string_from_chars(host.as_slice())
        },
        None => {
            let host = trim_end_chars(n.as_slice(), TrimSet::Dot);
            string_from_chars(host.as_slice())
        },
    }
}

/// Whether a log is the live `latest.log`, in any ASCII case.
pub open spec fn latest_log_spec(path: Seq<char>) -> bool {
    match file_name_of(path) {
        Some(n) => lower_seq(n) == "latest.log"@,
        None => false,
    }
}

pub fn is_latest_log(path: &str) -> (r: bool)
    ensures
        r == latest_log_spec(path@),
{
    let p = chars_of(path);
    match file_name_chars(p.as_slice()) {
        Some(n) => {
            let lowered = lower_chars(n.as_slice());
            let latest = chars_of("latest.log");
            eq_chars(lowered.as_slice(), latest.as_slice())
        },
        None => false,
    }
}

/// The value of a decimal numeral as `str::parse::<u32>` reads it: an
/// optional `+`, then one or more ASCII digits, with a value that fits in 32 bits.
pub open spec fn digits_value(s: Seq<char>) -> int
    decreases s.len(),
{
    if s.len() == 0 {
        0
    } else {
        digits_value(s.drop_last()) * 10 + ((s.last() as u32) as int - 48)
    }
}

pub open spec fn parse_u32_spec(s: Seq<char>) -> Option<u32> {
    let d = if s.len() > 0 && s[0] == '+' {
        s.drop_first()
    } else {
        s
    };
    if d.len() > 0 && all_ascii_digits(d) && digits_value(d) <= u32::MAX {
        Some(digits_value(d) as u32)
    } else {
        None
    }
}

proof fn lemma_digits_value_monotone(s: Seq<char>, k: int)
    requires
        0 <= k <= s.len(),
        forall|i: int| 0 <= i < s.len() ==> is_ascii_digit(#[trigger] s[i]),
    ensures
        0 <= digits_value(s.take(k)) <= digits_value(s),
    decreases s.len(),
{
    if s.len() > 0 {
        if k == s.len() {
            assert(s.take(k) =~= s);
            lemma_digits_value_monotone(s.drop_last(), k - 1);
            assert(s.drop_last().take(k - 1) =~= s.drop_last());
        } else {
            assert(s.take(k) =~= s.drop_last().take(k));
            lemma_digits_value_monotone(s.drop_last(), k);
        }
    }
}

/// `str::parse::<u32>`.
#[verifier::spinoff_prover]
pub fn parse_u32(s: &[char]) -> (r: Option<u32>)
    ensures
        r == parse_u32_spec(s@),
{
    let start: usize = if s.len() > 0 && s[0] == '+' { 1 } else { 0 };
    let ghost d = if s@.len() > 0 && s@[0] == '+' { s@.drop_first() } else { s@ };
    assert(d =~= s@.skip(start as int));
    if start >= s.len() {
        return None;
    }
    let mut value: u64 = 0;
    let mut i: usize = start;
    while i < s.len()
        invariant
            start <= i <= s@.len(),
            d == s@.skip(start as int),
            d == (if s@.len() > 0 && s@[0] == '+' { s@.drop_first() } else { s@ }),
            forall|j: int| 0 <= j < i - start ==> is_ascii_digit(#[trigger] d[j]),
            value == digits_value(d.take(i - start)),
            value <= u32::MAX,
        decreases s@.len() - i,
    {
        let c = s[i];
        assert(d[i - start] == s@[i as int]);
        if !('0' <= c && c <= '9') {
            assert(!is_ascii_digit(d[i - start]));
            assert(!all_ascii_digits(d));
            return None;
        }
        let digit: u64 = (c as u32 - 48) as u64;
        assert(d.take(i + 1 - start).drop_last() =~= d.take(i - start));
        assert(d.take(i + 1 - start).last() == c);
        let next = value * 10 + digit;
        if next > 4294967295 {
            proof {
                assert(digits_value(d.take(i + 1 - start)) == next);
                if all_ascii_digits(d) {
                    lemma_digits_value_monotone(d, i + 1 - start);
                }
            }
            return None;
        }
        value = next;
        i = i + 1;
    }
    assert(d.take(i - start) =~= d);
    Some(value as u32)
}

/// UTF-8 width of a character.
pub open spec fn utf8_width(c: char) -> int {
    if (c as u32) < 0x80 {
        1
    } else if (c as u32) < 0x800 {
        2
    } else if (c as u32) < 0x10000 {
        3
    } else {
        4
    }
}

pub open spec fn utf8_len(s: Seq<char>) -> int
    decreases s.len(),
{
    if s.len() == 0 {
        0
    } else {
        utf8_len(s.drop_last()) + utf8_width(s.last())
    }
}

proof fn lemma_utf8_len_grows(s: Seq<char>, k: int)
    requires
        0 <= k < s.len(),
    ensures
        utf8_len(s.take(k)) < utf8_len(s.take(k + 1)),
{
    assert(s.take(k + 1).drop_last() =~= s.take(k));
}

/// `str::get(..n)`: the leading characters that fill exactly `n` bytes, if a
/// character boundary lies there.
pub open spec fn byte_prefix(s: Seq<char>, n: int) -> Option<Seq<char>> {
    if exists|k: int| 0 <= k <= s.len() && utf8_len(#[trigger] s.take(k)) == n {
        Some(s.take(choose|k: int| 0 <= k <= s.len() && utf8_len(#[trigger] s.take(k)) == n))
    } else {
        None
    }
}

proof fn lemma_utf8_len_strict(s: Seq<char>, a: int, b: int)
    requires
        0 <= a < b <= s.len(),
    ensures
        utf8_len(s.take(a)) < utf8_len(s.take(b)),
    decreases b - a,
{
    lemma_utf8_len_grows(s, b - 1);
    if a < b - 1 {
        lemma_utf8_len_strict(s, a, b - 1);
    }
}

fn byte_prefix_chars(s: &[char], n: usize) -> (r: Option<Vec<char>>)
    requires
        n <= 64,
    ensures
        r matches Some(v) ==> byte_prefix(s@, n as int) == Some(v@),
        r is None ==> byte_prefix(s@, n as int) is None,
{
    let mut k: usize = 0;
    let mut bytes: usize = 0;
    while k < s.len() && bytes < n
        invariant
            k <= s@.len(),
            bytes == utf8_len(s@.take(k as int)),
            bytes <= n + 4,
            n <= 64,
            k > 0 ==> utf8_len(s@.take(k - 1)) < n,
        decreases s@.len() - k,
    {
        let c = s[k] as u32;
        let w: usize = if c < 0x80 { 1 } else if c < 0x800 { 2 } else if c < 0x10000 { 3 } else { 4 };
        assert(s@.take(k + 1).drop_last() =~= s@.take(k as int));
        assert(s@.take(k + 1).last() == s@[k as int]);
        bytes = bytes + w;
        k = k + 1;
    }
    if bytes == n {
        proof {
            let kk = choose|j: int| 0 <= j <= s@.len() && utf8_len(#[trigger] s@.take(j)) == n;
            if kk < k {
                lemma_utf8_len_strict(s@, kk, k as int);
            } else if kk > k {
                lemma_utf8_len_strict(s@, k as int, kk);
            }
        }
        Some(slice_chars(s, 0, k))
    } else {
        proof {
            assert forall|j: int| 0 <= j <= s@.len() implies utf8_len(#[trigger] s@.take(j)) != n by {
                if j < k {
                    if j < k - 1 {
                        lemma_utf8_len_strict(s@, j, k - 1);
                    }
                } else if j > k {
                    lemma_utf8_len_strict(s@, k as int, j);
                }
            }
        }
        None
    }
}

/// A rotated log's stem without its `.log.gz` or `.log` ending.
pub open spec fn log_stem(name: Seq<char>) -> Option<Seq<char>> {
    if ends_with(name, ".log.gz"@) {
        Some(name.subrange(0, name.len() - ".log.gz"@.len()))
    } else if ends_with(name, ".log"@) {
        Some(name.subrange(0, name.len() - ".log"@.len()))
    } else {
        None
    }
}

/// The date and sequence number of a rotated log named `YYYY-MM-DD-N.log[.gz]`.
pub open spec fn dated_key_spec(path: Seq<char>) -> Option<(CalendarDate, u32)> {
    match file_name_of(path) {
        None => None,
        Some(name) => match log_stem(name) {
            None => None,
            Some(stem) => match rfind(stem, seq!['-']) {
                None => None,
                Some(i) => match chrono_date_parse(stem.subrange(0, i as int), "%Y-%m-%d"@) {
                    None => None,
                    Some(d) => match parse_u32_spec(stem.subrange(i + 1int, stem.len() as int)) {
                        None => None,
                        Some(n) => Some((d, n)),
                    },
                },
            },
        },
    }
}

fn log_stem_chars(name: &[char]) -> (r: Option<Vec<char>>)
    ensures
        r matches Some(v) ==> log_stem(name@) == Some(v@),
        r is None ==> log_stem(name@) is None,
{
    let gz = chars_of(".log.gz");
    let plain = chars_of(".log");
    if ends_with_chars(name, gz.as_slice()) {
        Some(slice_chars(name, 0, name.len() - gz.len()))
    } else if ends_with_chars(name, plain.as_slice()) {
        Some(slice_chars(name, 0, name.len() - plain.len()))
    } else {
        None
    }
}

pub fn dated_rotation_key(path: &str) -> (r: Option<(CalendarDate, u32)>)
    ensures
        r == dated_key_spec(path@),
{
    let p = chars_of(path);
    let name = match file_name_chars(p.as_slice()) {
        Some(n) => n,
        None => return None,
    };
    let stem = match log_stem_chars(name.as_slice()) {
        Some(s) => s,
        None => return None,
    };
    let dash = vec!['-'];
    assert(dash@ =~= seq!['-']);
    let i = match rfind_chars(stem.as_slice(), dash.as_slice()) {
        Some(i) => i,
        None => return None,
    };
    proof {
        lemma_rfind_some(stem@, seq!['-']);
        assert(match_at(stem@, seq!['-'], i as int));
        assert(stem@.len() == stem.len());
    }
    let date_text = string_from_chars(slice_chars(stem.as_slice(), 0, i).as_slice());
    let date = match parse_naive_date(date_text.as_str(), "%Y-%m-%d") {
        Some(d) => d,
        None => return None,
    };
    let sequence = slice_chars(stem.as_slice(), i + 1, stem.len());
    match parse_u32(sequence.as_slice()) {
        Some(n) => Some((date, n)),
        None => None,
    }
}

/// The date a log's file name begins with (`YYYY-MM-DD` in its first ten bytes).
pub open spec fn filename_date_spec(path: Seq<char>) -> Option<CalendarDate> {
    match file_name_of(path) {
        None => None,
        Some(name) => match byte_prefix(name, 10) {
            None => None,
            Some(prefix) => chrono_date_parse(prefix, "%Y-%m-%d"@),
        },
    }
}

pub fn filename_date(path: &str) -> (r: Option<CalendarDate>)
    ensures
        r == filename_date_spec(path@),
{
    let p = chars_of(path);
    let name = match file_name_chars(p.as_slice()) {
        Some(n) => n,
        None => return None,
    };
    let prefix = match byte_prefix_chars(name.as_slice(), 10) {
        Some(v) => v,
        None => return None,
    };
    let text = string_from_chars(prefix.as_slice());
    parse_naive_date(text.as_str(), "%Y-%m-%d")
}

/// Byte-string order (the order of `Vec<u8>`).
pub open spec fn bytes_lt(a: Seq<u8>, b: Seq<u8>) -> bool
    decreases a.len(),
{
    if a.len() == 0 {
        b.len() > 0
    } else if b.len() == 0 {
        false
    } else if a[0] < b[0] {
        true
    } else if a[0] == b[0] {
        bytes_lt(a.drop_first(), b.drop_first())
    } else {
        false
    }
}

pub fn bytes_less(a: &[u8], b: &[u8]) -> (r: bool)
    ensures
        r == bytes_lt(a@, b@),
{
    let mut i: usize = 0;
    assert(a@.skip(0) =~= a@);
    assert(b@.skip(0) =~= b@);
    while i < a.len() && i < b.len() && a[i] == b[i]
        invariant
            i <= a@.len(),
            i <= b@.len(),
            bytes_lt(a@, b@) == bytes_lt(a@.skip(i as int), b@.skip(i as int)),
        decreases a@.len() - i,
    {
        assert(a@.skip(i as int).drop_first() =~= a@.skip(i + 1));
        assert(b@.skip(i as int).drop_first() =~= b@.skip(i + 1));
        i = i + 1;
    }
    proof {
        if i < a@.len() {
            assert(a@.skip(i as int)[0] == a@[i as int]);
        }
        if i < b@.len() {
            assert(b@.skip(i as int)[0] == b@[i as int]);
        }
    }
    if i == a.len() {
        i < b.len()
    } else if i == b.len() {
        false
    } else {
        a[i] < b[i]
    }
}

pub open spec fn date_lt(a: CalendarDate, b: CalendarDate) -> bool {
    a.year < b.year || (a.year == b.year && (a.month < b.month || (a.month == b.month && a.day < b.day)))
}

/// Whether log `a` sorts no later than log `b`: `latest.log` last; dated
/// rotations first, by date, sequence number and path; the rest by
/// modification time and path.
pub open spec fn log_order_le(a: FingerprintedLog, b: FingerprintedLog) -> bool {
    let la = latest_log_spec(a.candidate.relative_path@);
    let lb = latest_log_spec(b.candidate.relative_path@);
    let ka = a.candidate.relative_path_key@;
    let kb = b.candidate.relative_path_key@;
    if la && !lb {
        false
    } else if !la && lb {
        true
    } else {
        match (dated_key_spec(a.candidate.relative_path@), dated_key_spec(b.candidate.relative_path@)) {
            (Some((da, na)), Some((db, nb))) => date_lt(da, db) || (da == db && (na < nb || (na == nb
                && !bytes_lt(kb, ka)))),
            (Some(_), None) => true,
            (None, Some(_)) => false,
            (None, None) => a.fingerprint.modified_at_ms < b.fingerprint.modified_at_ms || (
            a.fingerprint.modified_at_ms == b.fingerprint.modified_at_ms && !bytes_lt(kb, ka)),
        }
    }
}

fn log_sorts_no_later(a: &FingerprintedLog, b: &FingerprintedLog) -> (r: bool)
    ensures
        r == log_order_le(*a, *b),
{
    let la = is_latest_log(a.candidate.relative_path.as_str());
    let lb = is_latest_log(b.candidate.relative_path.as_str());
    if la && !lb {
        return false;
    }
    if !la && lb {
        return true;
    }
    let ka = a.candidate.relative_path_key.as_slice();
    let kb = b.candidate.relative_path_key.as_slice();
    match (
        dated_rotation_key(a.candidate.relative_path.as_str()),
        dated_rotation_key(b.candidate.relative_path.as_str()),
    ) {
        (Some((da, na)), Some((db, nb))) => {
            let date_before = da.year < db.year || (da.year == db.year && (da.month < db.month || (
            da.month == db.month && da.day < db.day)));
            let same_date = da.year == db.year && da.month == db.month && da.day == db.day;
            date_before || (same_date && (na < nb || (na == nb && !bytes_less(kb, ka))))
        },
        (Some(_), None) => true,
        (None, Some(_)) => false,
        (None, None) => {
            let ma = a.fingerprint.modified_at_ms;
            let mb = b.fingerprint.modified_at_ms;
            ma < mb || (ma == mb && !bytes_less(kb, ka))
        },
    }
}

/// Stable insertion of a log after every log that sorts no later.
pub open spec fn insert_log_in_order(s: Seq<FingerprintedLog>, x: FingerprintedLog) -> Seq<
    FingerprintedLog,
>
    decreases s.len(),
{
    if s.len() == 0 {
        seq![x]
    } else if log_order_le(s.last(), x) {
        s.push(x)
    } else {
        insert_log_in_order(s.drop_last(), x).push(s.last())
    }
}

/// The logs in the order in which their evidence is read.
pub open spec fn chronological(s: Seq<FingerprintedLog>) -> Seq<FingerprintedLog>
    decreases s.len(),
{
    if s.len() == 0 {
        Seq::empty()
    } else {
        insert_log_in_order(chronological(s.drop_last()), s.last())
    }
}

proof fn lemma_insert_log_in_order_len(s: Seq<FingerprintedLog>, x: FingerprintedLog)
    ensures
        insert_log_in_order(s, x).len() == s.len() + 1,
    decreases s.len(),
{
    if s.len() > 0 && !log_order_le(s.last(), x) {
        lemma_insert_log_in_order_len(s.drop_last(), x);
    }
}

/// Sorts the logs of one instance into the order in which they were written.
pub fn sort_logs_chronologically(logs: &mut Vec<FingerprintedLog>)
    ensures
        final(logs)@ == chronological(old(logs)@),
{
    let mut input: Vec<FingerprintedLog> = Vec::new();
    std::mem::swap(logs, &mut input);
    let ghost all = input@;
    let mut sorted: Vec<FingerprintedLog> = Vec::new();
    let mut k: usize = 0;
    assert(all.take(0) =~= Seq::<FingerprintedLog>::empty());
    assert(all.len() == input.len());
    assert(all.len() <= usize::MAX);
    while input.len() > 0
        invariant
            k <= all.len(),
            k + input@.len() == all.len(),
            all.len() <= usize::MAX,
            input@ == all.skip(k as int),
            sorted@ == chronological(all.take(k as int)),
        decreases input@.len(),
    {
        let x = input.remove(0);
        assert(x == all[k as int]);
        assert(input@ =~= all.skip(k + 1));
        let ghost s = sorted@;
        let mut j: usize = sorted.len();
        assert(s.take(j as int) =~= s);
        assert(insert_log_in_order(s, x) =~= insert_log_in_order(s.take(j as int), x) + s.skip(j as int));
        while j > 0 && !log_sorts_no_later(&sorted[j - 1], &x)
            invariant
                j <= s.len(),
                sorted@ == s,
                insert_log_in_order(s, x) == insert_log_in_order(s.take(j as int), x) + s.skip(j as int),
            decreases j,
        {
            proof {
                let t = s.take(j as int);
                assert(t.last() == s[j - 1]);
                assert(t.drop_last() =~= s.take(j - 1));
                assert(seq![s[j - 1]] + s.skip(j as int) =~= s.skip(j - 1));
                assert(insert_log_in_order(t, x) == insert_log_in_order(s.take(j - 1), x).push(s[j - 1]));
                assert(insert_log_in_order(s.take(j - 1), x).push(s[j - 1]) + s.skip(j as int)
                    =~= insert_log_in_order(s.take(j - 1), x) + s.skip(j - 1));
            }
            j = j - 1;
        }
        proof {
            let t = s.take(j as int);
            if j == 0 {
                assert(t =~= Seq::<FingerprintedLog>::empty());
            } else {
                assert(t.last() == s[j - 1]);
            }
            assert(insert_log_in_order(t, x) =~= t.push(x));
        }
        sorted.insert(j, x);
        proof {
            assert(all.take(k + 1).drop_last() =~= all.take(k as int));
            assert(all.take(k + 1).last() == x);
            assert(sorted@ =~= s.take(j as int).push(x) + s.skip(j as int));
        }
        k = k + 1;
    }
    assert(all.take(k as int) =~= all);
    *logs = sorted;
}

/// The longest duration a stored session may claim: 31 days.
pub const MAX_PLAUSIBLE_SESSION_SECONDS: u64 = 2_678_400;

/// The fields a reconstructed session is stored with.
#[derive(Clone, Copy, PartialEq, Eq, Debug, Structural)]
pub struct StoredSessionFields {
    pub started_at_utc_ms: i64,
    pub ended_at_utc_ms: Option<i64>,
    pub duration_seconds: Option<u64>,
    pub confidence_score: u8,
    pub confidence: Confidence,
    pub exit_kind: ReconstructedExitKind,
}

/// How a session is stored. A session without a UTC start is not stored. A
/// session that only stops at its last evidence keeps its end unknown; one
/// longer than 31 days keeps end and duration unknown, is scored at most 54,
/// is at most partial, and has an unknown exit.
pub open spec fn stored_fields_spec(
    started: Option<i64>,
    ended: Option<i64>,
    duration: u64,
    end_boundary: SessionEndBoundary,
    score: u8,
    label: Confidence,
    exit: ReconstructedExitKind,
) -> Option<StoredSessionFields> {
    match started {
        None => None,
        Some(s) => {
            let implausible = duration > MAX_PLAUSIBLE_SESSION_SECONDS;
            let bounded = !implausible && end_boundary != SessionEndBoundary::TruncatedAtLastEvidence;
            Some(
                StoredSessionFields {
                    started_at_utc_ms: s,
                    ended_at_utc_ms: if bounded { ended } else { None },
                    duration_seconds: if bounded { Some(duration) } else { None },
                    confidence_score: if implausible && score > 54 { 54 } else { score },
                    confidence: if implausible && label != Confidence::Unknown {
                        Confidence::Partial
                    } else {
                        label
                    },
                    exit_kind: if implausible { ReconstructedExitKind::Unknown } else { exit },
                },
            )
        },
    }
}

pub fn stored_session_fields(session: &ReconstructedSession) -> (r: Option<StoredSessionFields>)
    ensures
        r == stored_fields_spec(
            session.started_at.occurred_at_utc_ms,
            session.ended_at.occurred_at_utc_ms,
            session.duration_seconds,
            session.end_boundary,
            session.confidence_score,
            session.confidence_label,
            session.exit_kind,
        ),
{
    let started_at = match session.started_at.occurred_at_utc_ms {
        Some(v) => v,
        None => return None,
    };
    let implausible = session.duration_seconds > MAX_PLAUSIBLE_SESSION_SECONDS;
    let bounded = !implausible && session.end_boundary != SessionEndBoundary::TruncatedAtLastEvidence;
    Some(
        StoredSessionFields {
            started_at_utc_ms: started_at,
            ended_at_utc_ms: if bounded { session.ended_at.occurred_at_utc_ms } else { None },
            duration_seconds: if bounded { Some(session.duration_seconds) } else { None },
            confidence_score: if implausible && session.confidence_score > 54 {
                54
            } else {
                session.confidence_score
            },
            confidence: if implausible && session.confidence_label != Confidence::Unknown {
                Confidence::Partial
            } else {
                session.confidence_label
            },
            exit_kind: if implausible { ReconstructedExitKind::Unknown } else { session.exit_kind },
        },
    )
}

/// The label of a path that may be shown: the file name of an absolute
/// path, a relative path as it is.
pub open spec fn redacted_label_spec(path: Seq<char>) -> Option<Seq<char>> {
    if path.len() > 0 && path[0] == '/' {
        file_name_of(path)
    } else {
        Some(path)
    }
}

pub fn redacted_path_label(path: &str) -> (r: Option<String>)
    ensures
        match r {
            Some(v) => redacted_label_spec(path@) == Some(v@),
            None => redacted_label_spec(path@) is None,
        },
{
    let p = chars_of(path);
    if p.len() > 0 && p[0] == '/' {
        match file_name_chars(p.as_slice()) {
            Some(n) => Some(string_from_chars(n.as_slice())),
            None => None,
        }
    } else {
        Some(string_from_chars(p.as_slice()))
    }
}


/// The date hint of a log: the date its file name begins with, else the day
/// it was last modified; the flag says whether the name gave it.
pub fn log_date_hint(file: &FingerprintedLog, modified_date: CalendarDate) -> (r: (CalendarDate, bool))
    ensures
        r == match filename_date_spec(file.candidate.relative_path@) {
            Some(d) => (d, true),
            None => (modified_date, false),
        },
{
    match filename_date(file.candidate.relative_path.as_str()) {
        Some(d) => (d, true),
        None => (modified_date, false),
    }
}

/// `log_context`: how a staged log revision is parsed. A dated name anchors
/// the first line's day; an undated log (such as `latest.log`) may begin
/// before midnight and end on its modification day, so that day anchors its
/// final line. The offset is the one the machine's time zone had at noon of
/// the hint day, and the modification time is the source's end hint.
pub fn log_context(
    source: &StagedSource,
    order: u32,
    file: &FingerprintedLog,
    date_hint: CalendarDate,
    dated: bool,
    offset_seconds: i32,
    modified: OffsetDateTime,
) -> (r: LogParseContext)
    requires
        -86_400 < offset_seconds < 86_400,
    ensures
        r == (LogParseContext {
            source_id: r.source_id,
            source_order: order,
            source_content_hash: Some(file.fingerprint.full_hash),
            date_hint: Some(date_hint),
            date_hint_basis: if dated {
                DateHintBasis::FirstObservedDay
            } else {
                DateHintBasis::FinalObservedDay
            },
            utc_offset_minutes: Some(div60(offset_seconds as int) as i32),
            source_end_hint: Some(modified),
        }),
        r.source_id@ == source.source_revision_id@,
{
    let context = LogParseContext::new(source.source_revision_id.as_str(), order);
    let context = if dated {
        context.with_date_hint(date_hint)
    } else {
        context.with_final_date_hint(date_hint)
    };
    context.with_source_content_hash(file.fingerprint.full_hash).with_utc_offset(offset_seconds).with_source_end_hint(
        modified,
    )
}

} // verus!
