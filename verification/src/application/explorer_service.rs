//! Classification and bounding of the rows that the archive explorers show.

use vstd::prelude::*;

use crate::application::profile_worlds::{stable_id, stable_id_spec, str_views};
use crate::application::read_models::{BoundedCollection, InstanceAccent, VersionKind};
use crate::external::{blake3_digest, blake3_hash};
use vstd::utf8::encode_utf8;
use crate::text::{
    split_parts, all_ascii_digits, all_ascii_digits_chars, chars_of, find, find_chars, is_ascii_digit,
    is_ascii_lowercase, lemma_find_some, match_at, slice_chars,
};

verus! {

pub open spec fn release_parts_ok(parts: Seq<Seq<char>>) -> bool {
    2 <= parts.len() <= 3 && forall|i: int| 0 <= i < parts.len() ==> (#[trigger] parts[i]).len() > 0
        && all_ascii_digits(parts[i])
}

/// A snapshot name: two digits, `w`, two digits, then one or more lowercase letters.
pub open spec fn snapshot_ok(s: Seq<char>) -> bool {
    match find(s, seq!['w']) {
        Some(i) => {
            let year = s.subrange(0, i as int);
            let release = s.subrange(i + 1int, s.len() as int);
            &&& i < s.len()
            &&& year.len() == 2
            &&& all_ascii_digits(year)
            &&& release.len() >= 3
            &&& is_ascii_digit(release[0]) && is_ascii_digit(release[1])
            &&& forall|k: int| 2 <= k < release.len() ==> is_ascii_lowercase(#[trigger] release[k])
        },
        None => false,
    }
}

/// A release is two or three dot-separated numbers; a snapshot is `YYwNNx`.
pub open spec fn classify_version_spec(s: Seq<char>) -> VersionKind {
    if release_parts_ok(split_parts(s, '.')) {
        VersionKind::Release
    } else if snapshot_ok(s) {
        VersionKind::Snapshot
    } else {
        VersionKind::Other
    }
}

/// Whether the dot-separated pieces of `s` are two or three non-empty numbers.
fn release_shape(s: &[char]) -> (r: bool)
    ensures
        r == release_parts_ok(split_parts(s@, '.')),
{
    let dot = vec!['.'];
    assert(dot@ =~= seq!['.']);
    let mut rest: Vec<char> = slice_chars(s, 0, s.len());
    assert(s@.subrange(0, s@.len() as int) =~= s@);
    let mut count: usize = 0;
    let ghost whole = split_parts(s@, '.');
    loop
        invariant
            count <= 3,
            dot@ == seq!['.'],
            whole == split_parts(s@, '.'),
            whole.len() == count + split_parts(rest@, '.').len(),
            forall|i: int| 0 <= i < count ==> (#[trigger] whole[i]).len() > 0 && all_ascii_digits(
                whole[i],
            ),
            forall|i: int| 0 <= i < split_parts(rest@, '.').len() ==> #[trigger] whole[count + i]
                == split_parts(rest@, '.')[i],
        decreases rest@.len(),
    {
        let ghost parts = split_parts(rest@, '.');
        match find_chars(rest.as_slice(), dot.as_slice()) {
            Some(i) => {
                proof {
                    lemma_find_some(rest@, seq!['.']);
                    assert(match_at(rest@, seq!['.'], i as int));
                    assert(rest@.len() == rest.len());
                }
                let part = slice_chars(rest.as_slice(), 0, i);
                assert(parts[0] == part@);
                assert(whole[count + 0] == parts[0]);
                if part.len() == 0 || !all_ascii_digits_chars(part.as_slice()) {
                    assert(!((#[trigger] whole[count as int]).len() > 0 && all_ascii_digits(
                        whole[count as int],
                    )));
                    return false;
                }
                if count == 3 {
                    assert(whole.len() > 3);
                    return false;
                }
                let next = slice_chars(rest.as_slice(), i + 1, rest.len());
                proof {
                    let tail = split_parts(next@, '.');
                    assert(parts =~= seq![part@] + tail);
                    assert forall|k: int| 0 <= k < tail.len() implies #[trigger] whole[count + 1 + k]
                        == tail[k] by {
                        assert(whole[count + (k + 1)] == parts[k + 1]);
                    }
                }
                rest = next;
                count = count + 1;
            },
            None => {
                assert(parts =~= seq![rest@]);
                let ok = rest.len() > 0 && all_ascii_digits_chars(rest.as_slice());
                proof {
                    assert(whole[count + 0] == parts[0]);
                    assert(whole[count as int] == rest@);
                    assert(whole.len() == count + 1);
                }
                return ok && 1 <= count && count <= 2;
            },
        }
    }
}

#[verifier::loop_isolation(false)]
fn snapshot_shape(s: &[char]) -> (r: bool)
    ensures
        r == snapshot_ok(s@),
{
    let w = vec!['w'];
    assert(w@ =~= seq!['w']);
    match find_chars(s, w.as_slice()) {
        Some(i) => {
            proof {
                lemma_find_some(s@, seq!['w']);
                assert(match_at(s@, seq!['w'], i as int));
                assert(s@.len() == s.len());
            }
            let year = slice_chars(s, 0, i);
            let release = slice_chars(s, i + 1, s.len());
            if year.len() != 2 || !all_ascii_digits_chars(year.as_slice()) {
                return false;
            }
            if release.len() < 3 {
                return false;
            }
            let c0 = release[0];
            let c1 = release[1];
            if !('0' <= c0 && c0 <= '9' && '0' <= c1 && c1 <= '9') {
                return false;
            }
            let mut k: usize = 2;
            while k < release.len()
                invariant
                    2 <= k <= release@.len(),
                    forall|m: int| 2 <= m < k ==> is_ascii_lowercase(#[trigger] release@[m]),
                decreases release@.len() - k,
            {
                let c = release[k];
                if !('a' <= c && c <= 'z') {
                    assert(!is_ascii_lowercase(release@[k as int]));
                    return false;
                }
                k = k + 1;
            }
            true
        },
        None => false,
    }
}

/// Whether a version name is a release, a snapshot or something else.
pub fn classify_version(value: &str) -> (r: VersionKind)
    ensures
        r == classify_version_spec(value@),
{
    let s = chars_of(value);
    if release_shape(s.as_slice()) {
        return VersionKind::Release;
    }
    if snapshot_shape(s.as_slice()) {
        return VersionKind::Snapshot;
    }
    VersionKind::Other
}

/// A stored count or total, never negative.
pub fn nonnegative(value: i64) -> (r: u64)
    ensures
        r == (if value < 0 { 0 } else { value as int }),
{
    if value < 0 {
        0
    } else {
        value as u64
    }
}

/// A stored score clamped to 0..=100.
pub fn score(value: i64) -> (r: u8)
    ensures
        r == (if value < 0 { 0 } else if value > 100 { 100 } else { value as int }),
{
    if value < 0 {
        0
    } else if value > 100 {
        100
    } else {
        value as u8
    }
}

pub fn empty_collection<T>() -> (r: BoundedCollection<T>)
    ensures
        r.items@.len() == 0,
        r.total == 0,
        !r.truncated,
{
    BoundedCollection { items: Vec::new(), total: 0, truncated: false }
}

/// A page of rows, each carrying the total row count of the full query:
/// the total of the last row stands, and the page is truncated when that
/// total exceeds the rows on it.
pub fn collect_bounded<T>(rows: Vec<(T, i64)>) -> (r: BoundedCollection<T>)
    ensures
        r.items@ == rows@.map_values(|row: (T, i64)| row.0),
        r.total == (if rows@.len() == 0 { 0 } else if rows@.last().1 < 0 { 0 } else {
            rows@.last().1 as int
        }),
        r.truncated == (r.total > rows@.len()),
{
    let mut items: Vec<T> = Vec::new();
    let mut total: u64 = 0;
    let mut rows = rows;
    let ghost all = rows@;
    let mut k: usize = 0;
    assert(all.len() == rows.len());
    while rows.len() > 0
        invariant
            k + rows@.len() == all.len(),
            all.len() <= usize::MAX,
            rows@ == all.skip(k as int),
            items@ == all.take(k as int).map_values(|row: (T, i64)| row.0),
            total == (if k == 0 { 0 } else if all[k - 1].1 < 0 { 0 } else { all[k - 1].1 as int }),
        decreases rows@.len(),
    {
        let (item, row_total) = rows.remove(0);
        assert(rows@ =~= all.skip(k + 1));
        total = nonnegative(row_total);
        items.push(item);
        assert(all.take(k + 1).map_values(|row: (T, i64)| row.0) =~= all.take(k as int).map_values(
            |row: (T, i64)| row.0,
        ).push(all[k as int].0));
        k = k + 1;
    }
    assert(all.take(k as int) =~= all);
    let n = items.len() as u64;
    BoundedCollection { truncated: total > n, total, items }
}

/// The accent colour of an instance card: the first byte of the BLAKE3
/// digest of its id, modulo four.
pub open spec fn accent_spec(id: Seq<char>) -> InstanceAccent {
    let b = blake3_digest(encode_utf8(id))[0];
    if b % 4 == 0 {
        InstanceAccent::Moss
    } else if b % 4 == 1 {
        InstanceAccent::Copper
    } else if b % 4 == 2 {
        InstanceAccent::Quartz
    } else {
        InstanceAccent::Slate
    }
}

pub fn accent_for(id: &str) -> (r: InstanceAccent)
    ensures
        r == accent_spec(id@),
{
    let digest = blake3_hash(id.as_bytes());
    let b = digest[0];
    if b % 4 == 0 {
        InstanceAccent::Moss
    } else if b % 4 == 1 {
        InstanceAccent::Copper
    } else if b % 4 == 2 {
        InstanceAccent::Quartz
    } else {
        InstanceAccent::Slate
    }
}

/// The id of an archive summary row: the namespace, `_`, and the first 24
/// hexadecimal digits of the BLAKE3 digest of the namespace and the
/// length-prefixed values.
pub fn stable_summary_id(namespace: &str, values: &Vec<&str>) -> (r: String)
    ensures
        r@ == stable_id_spec(namespace@, str_views(values@)),
{
    stable_id(namespace, values)
}

} // verus!
