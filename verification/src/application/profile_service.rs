//! The local player profile: its read models and the pure helpers that
//! normalise account ids, recognise skin images and name saves.

use vstd::prelude::*;

use crate::parser::source_classifier::{file_name_chars, file_name_of};
use crate::text::{
    all_ascii_digits, append_chars, chars_of, eq_chars, is_ascii_hexdigit, is_ascii_hexdigit_char,
    lower_chars, lower_seq, rfind, rfind_chars, lemma_rfind_some, match_at, slice_chars,
    string_from_chars, trim_by, trim_chars, trim_end_by, trim_end_chars, trim_ws, TrimSet,
};

verus! {

#[derive(Clone, Debug)]
pub struct ProfileIdentity {
    pub name: String,
    pub uuid: Option<String>,
    pub source: String,
    pub active: bool,
}

#[derive(Clone, Debug)]
pub struct SkinAsset {
    pub id: String,
    pub data_url: String,
    pub observed_at: Option<String>,
    pub source: String,
    pub width: u32,
    pub height: u32,
}

#[derive(Clone, Debug)]
pub struct ProfileSummary {
    pub total_playtime_minutes: u64,
    pub sessions: u64,
    pub active_days: u64,
    pub most_played_version: Option<String>,
    pub most_played_world: Option<String>,
    pub launcher_count: u64,
    pub available_worlds: u64,
    pub missing_worlds: u64,
    pub backup_count: u64,
    pub statistics_worlds: u64,
}

#[derive(Clone, Copy, PartialEq, Eq, Debug, Structural)]
pub enum StatisticUnit {
    Count,
    Ticks,
    Centimeters,
    Tenths,
}

#[derive(Clone, Debug)]
pub struct ProfileStatistic {
    pub id: String,
    pub label: String,
    pub value: u64,
    pub unit: StatisticUnit,
    pub source_worlds: u64,
}

#[derive(Clone, Debug)]
pub struct ProfileStatisticSection {
    pub id: String,
    pub label: String,
    pub items: Vec<ProfileStatistic>,
}

#[derive(Clone, Copy, PartialEq, Eq, Debug, Structural)]
pub enum StatisticsBasis {
    UuidMatched,
    SingleLocalPlayer,
    /// No player statistics could be attributed.
    NoBasis,
}

#[derive(Clone, Debug)]
pub struct LauncherUsage {
    pub id: String,
    pub name: String,
    pub instances: u64,
    pub sessions: u64,
    pub total_minutes: u64,
    pub first_observed_at: Option<String>,
    pub last_observed_at: Option<String>,
}

#[derive(Clone, Copy, PartialEq, Eq, Debug, Structural)]
pub enum WorldAvailability {
    Available,
    Missing,
    BackupOnly,
}

#[derive(Clone, Debug)]
pub struct ProfileWorld {
    pub id: String,
    pub name: String,
    pub folder_name: Option<String>,
    pub instance: String,
    pub launcher: String,
    pub availability: WorldAvailability,
    pub total_minutes: Option<u64>,
    pub last_observed_at: Option<String>,
    pub stats_available: bool,
    pub stats_basis: StatisticsBasis,
    pub backup_count: u64,
}

#[derive(Clone, Debug)]
pub struct WorldBackup {
    pub id: String,
    pub name: String,
    pub instance: String,
    pub size_bytes: u64,
    pub modified_at: Option<String>,
}

/// Listing order of worlds: available, then missing, then known only from backups.
pub fn availability_rank(value: WorldAvailability) -> (r: u8)
    ensures
        r == (match value {
            WorldAvailability::Available => 0u8,
            WorldAvailability::Missing => 1u8,
            WorldAvailability::BackupOnly => 2u8,
        }),
{
    match value {
        WorldAvailability::Available => 0,
        WorldAvailability::Missing => 1,
        WorldAvailability::BackupOnly => 2,
    }
}

/// A trimmed name, unless it is empty or the placeholder `Not observed`.
pub open spec fn named_value_spec(value: Seq<char>) -> Option<Seq<char>> {
    let t = trim_ws(value);
    if t.len() > 0 && t != "Not observed"@ {
        Some(t)
    } else {
        None
    }
}

pub fn named_value(value: &str) -> (r: Option<String>)
    ensures
        match r {
            Some(v) => named_value_spec(value@) == Some(v@),
            None => named_value_spec(value@) is None,
        },
{
    let c = chars_of(value);
    let t = trim_chars(c.as_slice(), TrimSet::Whitespace);
    proof {
        assert(trim_by(value@, TrimSet::Whitespace) == trim_ws(value@));
    }
    let placeholder = chars_of("Not observed");
    if t.len() > 0 && !eq_chars(t.as_slice(), placeholder.as_slice()) {
        Some(string_from_chars(t.as_slice()))
    } else {
        None
    }
}

pub open spec fn all_hex(s: Seq<char>) -> bool {
    forall|i: int| 0 <= i < s.len() ==> is_ascii_hexdigit(#[trigger] s[i])
}

fn all_hex_chars(s: &[char]) -> (r: bool)
    ensures
        r == all_hex(s@),
{
    let mut i: usize = 0;
    while i < s.len()
        invariant
            i <= s@.len(),
            forall|k: int| 0 <= k < i ==> is_ascii_hexdigit(#[trigger] s@[k]),
        decreases s@.len() - i,
    {
        if !is_ascii_hexdigit_char(s[i]) {
            return false;
        }
        i = i + 1;
    }
    true
}

/// The texture hash at the end of a skin URL: its last path segment, when
/// that is at least 32 hexadecimal digits, lowercased.
pub open spec fn texture_hash_spec(url: Seq<char>) -> Option<Seq<char>> {
    let trimmed = trim_end_by(url, TrimSet::Slash);
    let hash = match rfind(trimmed, seq!['/']) {
        Some(i) => trimmed.subrange(i + 1int, trimmed.len() as int),
        None => trimmed,
    };
    if hash.len() >= 32 && all_hex(hash) {
        Some(lower_seq(hash))
    } else {
        None
    }
}

pub fn texture_hash(url: &str) -> (r: Option<String>)
    ensures
        match r {
            Some(v) => texture_hash_spec(url@) == Some(v@),
            None => texture_hash_spec(url@) is None,
        },
{
    let c = chars_of(url);
    let trimmed = trim_end_chars(c.as_slice(), TrimSet::Slash);
    let slash = vec!['/'];
    assert(slash@ =~= seq!['/']);
    let hash = match rfind_chars(trimmed.as_slice(), slash.as_slice()) {
        Some(i) => {
            proof {
                lemma_rfind_some(trimmed@, seq!['/']);
                assert(match_at(trimmed@, seq!['/'], i as int));
                assert(trimmed@.len() == trimmed.len());
            }
            slice_chars(trimmed.as_slice(), i + 1, trimmed.len())
        },
        None => trimmed,
    };
    if hash.len() >= 32 && all_hex_chars(hash.as_slice()) {
        let lowered = lower_chars(hash.as_slice());
        Some(string_from_chars(lowered.as_slice()))
    } else {
        None
    }
}

pub open spec fn without_dashes(s: Seq<char>) -> Seq<char>
    decreases s.len(),
{
    if s.len() == 0 {
        Seq::empty()
    } else if s.last() == '-' {
        without_dashes(s.drop_last())
    } else {
        without_dashes(s.drop_last()).push(s.last())
    }
}

/// A Minecraft account UUID as 32 lowercase hexadecimal digits, dashes removed.
pub open spec fn normalize_uuid_spec(value: Seq<char>) -> Option<Seq<char>> {
    let n = lower_seq(without_dashes(value));
    if n.len() == 32 && all_hex(n) {
        Some(n)
    } else {
        None
    }
}

fn normalized_uuid_chars(value: &str) -> (r: Option<Vec<char>>)
    ensures
        match r {
            Some(v) => normalize_uuid_spec(value@) == Some(v@),
            None => normalize_uuid_spec(value@) is None,
        },
{
    let c = chars_of(value);
    let mut kept: Vec<char> = Vec::new();
    let mut i: usize = 0;
    while i < c.len()
        invariant
            i <= c@.len(),
            kept@ == without_dashes(c@.take(i as int)),
        decreases c@.len() - i,
    {
        assert(c@.take(i + 1).drop_last() =~= c@.take(i as int));
        if c[i] != '-' {
            kept.push(c[i]);
        }
        i = i + 1;
    }
    assert(c@.take(c@.len() as int) =~= c@);
    let n = lower_chars(kept.as_slice());
    if n.len() == 32 && all_hex_chars(n.as_slice()) {
        Some(n)
    } else {
        None
    }
}

pub fn normalize_uuid(value: &str) -> (r: Option<String>)
    ensures
        match r {
            Some(v) => normalize_uuid_spec(value@) == Some(v@),
            None => normalize_uuid_spec(value@) is None,
        },
{
    match normalized_uuid_chars(value) {
        Some(n) => Some(string_from_chars(n.as_slice())),
        None => None,
    }
}

/// The dashed 8-4-4-4-12 form of a UUID; text that is not a UUID is kept as it is.
pub open spec fn display_uuid_spec(value: Seq<char>) -> Seq<char> {
    match normalize_uuid_spec(value) {
        Some(n) => n.subrange(0, 8) + seq!['-'] + n.subrange(8, 12) + seq!['-'] + n.subrange(12, 16)
            + seq!['-'] + n.subrange(16, 20) + seq!['-'] + n.subrange(20, 32),
        None => value,
    }
}

pub fn display_uuid(value: &str) -> (r: String)
    ensures
        r@ == display_uuid_spec(value@),
{
    match normalized_uuid_chars(value) {
        None => {
            let c = chars_of(value);
            string_from_chars(c.as_slice())
        },
        Some(n) => {
            let mut out = slice_chars(n.as_slice(), 0, 8);
            out.push('-');
            append_chars(&mut out, slice_chars(n.as_slice(), 8, 12).as_slice());
            out.push('-');
            append_chars(&mut out, slice_chars(n.as_slice(), 12, 16).as_slice());
            out.push('-');
            append_chars(&mut out, slice_chars(n.as_slice(), 16, 20).as_slice());
            out.push('-');
            append_chars(&mut out, slice_chars(n.as_slice(), 20, 32).as_slice());
            string_from_chars(out.as_slice())
        },
    }
}

/// The name of a save folder, or `Minecraft` when the path has none.
pub open spec fn folder_name_spec(path: Seq<char>) -> Seq<char> {
    match file_name_of(path) {
        Some(n) => if n.len() > 0 {
            n
        } else {
            "Minecraft"@
        },
        None => "Minecraft"@,
    }
}

pub fn folder_name(path: &str) -> (r: String)
    ensures
        r@ == folder_name_spec(path@),
{
    let p = chars_of(path);
    match file_name_chars(p.as_slice()) {
        Some(n) => {
            if n.len() > 0 {
                string_from_chars(n.as_slice())
            } else {
                let d = chars_of("Minecraft");
                string_from_chars(d.as_slice())
            }
        },
        None => {
            let d = chars_of("Minecraft");
            string_from_chars(d.as_slice())
        },
    }
}

/// The eight bytes that begin every PNG file.
pub open spec fn png_signature() -> Seq<u8> {
    seq![0x89u8, 0x50, 0x4E, 0x47, 0x0D, 0x0A, 0x1A, 0x0A]
}

pub open spec fn ihdr_tag() -> Seq<u8> {
    seq![0x49u8, 0x48, 0x44, 0x52]
}

pub open spec fn be_u32(b: Seq<u8>, at: int) -> u32 {
    (b[at] as int * 16777216 + b[at + 1] as int * 65536 + b[at + 2] as int * 256 + b[at + 3] as int) as u32
}

/// The width and height in a PNG header: the signature, then an `IHDR` chunk
/// whose first eight data bytes are the two big-endian dimensions.
pub open spec fn png_dimensions_spec(bytes: Seq<u8>) -> Option<(u32, u32)> {
    if bytes.len() < 24 || bytes.subrange(0, 8) != png_signature() || bytes.subrange(12, 16)
        != ihdr_tag() {
        None
    } else {
        Some((be_u32(bytes, 16), be_u32(bytes, 20)))
    }
}

fn read_be_u32(b: &[u8], at: usize) -> (r: u32)
    requires
        at + 4 <= b@.len(),
    ensures
        r == be_u32(b@, at as int),
{
    let v: u64 = (b[at] as u64) * 16777216 + (b[at + 1] as u64) * 65536 + (b[at + 2] as u64) * 256
        + (b[at + 3] as u64);
    v as u32
}

pub fn png_dimensions(bytes: &[u8]) -> (r: Option<(u32, u32)>)
    ensures
        r == png_dimensions_spec(bytes@),
{
    if bytes.len() < 24 {
        return None;
    }
    let signature: [u8; 8] = [0x89, 0x50, 0x4E, 0x47, 0x0D, 0x0A, 0x1A, 0x0A];
    let mut k: usize = 0;
    while k < 8
        invariant
            k <= 8,
            bytes@.len() >= 24,
            signature@ == png_signature(),
            forall|m: int| 0 <= m < k ==> bytes@[m] == png_signature()[m],
        decreases 8 - k,
    {
        if bytes[k] != signature[k] {
            assert(bytes@.subrange(0, 8)[k as int] != png_signature()[k as int]);
            return None;
        }
        k = k + 1;
    }
    assert(bytes@.subrange(0, 8) =~= png_signature());
    let tag: [u8; 4] = [0x49, 0x48, 0x44, 0x52];
    let mut j: usize = 0;
    while j < 4
        invariant
            j <= 4,
            bytes@.len() >= 24,
            tag@ == ihdr_tag(),
            bytes@.subrange(0, 8) == png_signature(),
            forall|m: int| 0 <= m < j ==> bytes@[12 + m] == ihdr_tag()[m],
        decreases 4 - j,
    {
        if bytes[12 + j] != tag[j] {
            assert(bytes@.subrange(12, 16)[j as int] != ihdr_tag()[j as int]);
            return None;
        }
        j = j + 1;
    }
    assert(bytes@.subrange(12, 16) =~= ihdr_tag());
    Some((read_be_u32(bytes, 16), read_be_u32(bytes, 20)))
}

} // verus!
