//! The worlds of the player profile and the statistics merged from them:
//! save folders matched to archived worlds and backups by normalized name,
//! archived worlds whose saves are gone, and worlds known only from backups.
//! Reading directories and files is left to the caller.

use vstd::prelude::*;

use crate::application::payload::{frame, le64, le64_bytes, utf8};
use crate::application::profile_service::{
    availability_rank, normalize_uuid, normalize_uuid_spec, ProfileStatistic, ProfileWorld, StatisticsBasis,
    WorldAvailability,
};
use crate::application::read_models::WorldSummary;
use crate::domain::location::AdapterKind;
use crate::external::{str_to_lowercase, unicode_lower_text};
use crate::text::{contains, find_chars};
use crate::application::profile_stats::{StatEntry, StatMap};
use crate::encoding::{hex_of, hex_prefix};
use crate::external::{
    blake3_digest, blake3_hash, char_is_alphanumeric, char_to_lowercase, unicode_alphanumeric, unicode_lowercase,
};
use crate::parser::session_reconstruction::{lex_lt, string_lt};
use crate::application::scan_service::{bytes_less, bytes_lt};
use crate::text::{append_chars, chars_of, str_eq, string_from_chars};

verus! {

/// The largest integer a JavaScript number holds exactly.
pub const MAX_SAFE_INTEGER: u64 = 9_007_199_254_740_991;

/// The characters of a name that are letters or digits, lowercased.
pub open spec fn normalize_name_spec(s: Seq<char>) -> Seq<char>
    decreases s.len(),
{
    if s.len() == 0 {
        Seq::empty()
    } else {
        normalize_name_spec(s.drop_last()) + if unicode_alphanumeric(s.last()) {
            unicode_lowercase(s.last())
        } else {
            Seq::empty()
        }
    }
}

/// `normalize_name`: how world names are compared.
pub fn normalize_name(value: &str) -> (r: String)
    ensures
        r@ == normalize_name_spec(value@),
{
    let cs = chars_of(value);
    let mut out: Vec<char> = Vec::new();
    let mut i: usize = 0;
    assert(cs@.take(0) =~= Seq::<char>::empty());
    while i < cs.len()
        invariant
            i <= cs@.len(),
            cs@ == value@,
            out@ == normalize_name_spec(cs@.take(i as int)),
        decreases cs@.len() - i,
    {
        assert(cs@.take(i + 1).drop_last() =~= cs@.take(i as int));
        assert(cs@.take(i + 1).last() == cs@[i as int]);
        let c = cs[i];
        if char_is_alphanumeric(c) {
            let lower = char_to_lowercase(c);
            append_chars(&mut out, lower.as_slice());
        } else {
            assert(out@ + Seq::<char>::empty() =~= out@);
        }
        i = i + 1;
    }
    assert(cs@.take(cs@.len() as int) =~= cs@);
    string_from_chars(out.as_slice())
}

/// The bytes a stable id hashes: the namespace, then each value framed by its length.
pub open spec fn id_bytes(namespace: Seq<char>, values: Seq<Seq<char>>) -> Seq<u8> {
    utf8(namespace) + frame(values.map_values(|v: Seq<char>| utf8(v)))
}

/// `namespace_` and 24 hex digits of the digest of the id bytes.
pub open spec fn stable_id_spec(namespace: Seq<char>, values: Seq<Seq<char>>) -> Seq<char> {
    namespace + "_"@ + hex_of(blake3_digest(id_bytes(namespace, values))).take(24)
}

fn push_bytes(v: &mut Vec<u8>, s: &[u8])
    ensures
        final(v)@ == old(v)@ + s@,
{
    let mut i: usize = 0;
    while i < s.len()
        invariant
            i <= s@.len(),
            v@ == old(v)@ + s@.take(i as int),
        decreases s@.len() - i,
    {
        v.push(s[i]);
        assert(old(v)@ + s@.take(i + 1) =~= (old(v)@ + s@.take(i as int)).push(s@[i as int]));
        i = i + 1;
    }
    assert(s@.take(s@.len() as int) =~= s@);
}

pub open spec fn str_views(v: Seq<&str>) -> Seq<Seq<char>> {
    v.map_values(|s: &str| s@)
}

/// `stable_id`: a short id of a namespace and values.
pub fn stable_id(namespace: &str, values: &Vec<&str>) -> (r: String)
    ensures
        r@ == stable_id_spec(namespace@, str_views(values@)),
{
    let ghost vs = str_views(values@).map_values(|v: Seq<char>| utf8(v));
    let mut data: Vec<u8> = Vec::new();
    push_bytes(&mut data, namespace.as_bytes());
    let ghost head = data@;
    let mut i: usize = 0;
    assert(vs.take(0) =~= Seq::<Seq<u8>>::empty());
    while i < values.len()
        invariant
            i <= values@.len(),
            vs == str_views(values@).map_values(|v: Seq<char>| utf8(v)),
            head == utf8(namespace@),
            data@ == head + frame(vs.take(i as int)),
        decreases values@.len() - i,
    {
        assert(vs.take(i + 1).drop_last() =~= vs.take(i as int));
        assert(vs.take(i + 1).last() == utf8(values@[i as int]@));
        let bytes = values[i].as_bytes();
        let len = le64_bytes(bytes.len() as u64);
        let ghost before = data@;
        push_bytes(&mut data, len.as_slice());
        push_bytes(&mut data, bytes);
        assert(data@ =~= head + frame(vs.take(i + 1)));
        i = i + 1;
    }
    assert(vs.take(values@.len() as int) =~= vs);
    let digest = blake3_hash(data.as_slice());
    let hex = hex_prefix(digest.as_slice(), 24);
    let mut out = chars_of(namespace);
    out.push('_');
    let hs = chars_of(hex.as_str());
    let ghost o0 = out@;
    append_chars(&mut out, hs.as_slice());
    proof {
        reveal_strlit("_");
        assert(o0 =~= namespace@ + "_"@);
        assert(data@ =~= id_bytes(namespace@, str_views(values@)));
    }
    string_from_chars(out.as_slice())
}

/// Chooses the statistics file of a world's `stats` folder, its files given by
/// their stems in path order: the one of the primary account's UUID, else
/// the only one, else none.
pub open spec fn chosen_stats_file(stems: Seq<Option<Seq<char>>>, primary_uuid: Option<Seq<char>>) -> Option<(int, StatisticsBasis)> {
    let wanted = match primary_uuid {
        Some(u) => normalize_uuid_spec(u),
        None => None,
    };
    let exact = match wanted {
        Some(u) => first_stem_with_uuid(stems, u),
        None => None,
    };
    match exact {
        Some(i) => Some((i, StatisticsBasis::UuidMatched)),
        None => if stems.len() == 1 {
            Some((0, StatisticsBasis::SingleLocalPlayer))
        } else {
            None
        },
    }
}

/// The first stem that names the UUID `u`.
pub open spec fn first_stem_with_uuid(stems: Seq<Option<Seq<char>>>, u: Seq<char>) -> Option<int>
    decreases stems.len(),
{
    if stems.len() == 0 {
        None
    } else {
        match first_stem_with_uuid(stems.drop_last(), u) {
            Some(i) => Some(i),
            None => match stems.last() {
                Some(stem) => if normalize_uuid_spec(stem) == Some(u) {
                    Some(stems.len() - 1)
                } else {
                    None
                },
                None => None,
            },
        }
    }
}

pub open spec fn stem_views(v: Seq<Option<String>>) -> Seq<Option<Seq<char>>> {
    v.map_values(
        |s: Option<String>|
            match s {
                Some(t) => Some(t@),
                None => None,
            },
    )
}

fn same_text(a: &Option<String>, b: &String) -> (r: bool)
    ensures
        r == (a matches Some(t) && t@ == b@),
{
    match a {
        Some(t) => str_eq(t.as_str(), b.as_str()),
        None => false,
    }
}

/// The choice `load_world_stats` makes among a world's statistics files.
#[verifier::loop_isolation(false)]
pub fn choose_stats_file(stems: &Vec<Option<String>>, primary_uuid: Option<&str>) -> (r: Option<(usize, StatisticsBasis)>)
    ensures
        match r {
            Some((i, b)) => chosen_stats_file(
                stem_views(stems@),
                match primary_uuid {
                    Some(u) => Some(u@),
                    None => None,
                },
            ) == Some((i as int, b)),
            None => chosen_stats_file(
                stem_views(stems@),
                match primary_uuid {
                    Some(u) => Some(u@),
                    None => None,
                },
            ) is None,
        },
{
    let ghost sv = stem_views(stems@);
    let wanted = match primary_uuid {
        Some(u) => normalize_uuid(u),
        None => None,
    };
    if let Some(u) = &wanted {
        let mut i: usize = 0;
        assert(sv.take(0) =~= Seq::<Option<Seq<char>>>::empty());
        while i < stems.len()
            invariant
                i <= stems@.len(),
                sv == stem_views(stems@),
                first_stem_with_uuid(sv.take(i as int), u@) is None,
            decreases stems@.len() - i,
        {
            assert(sv.take(i + 1).drop_last() =~= sv.take(i as int));
            let normalized = match &stems[i] {
                Some(stem) => normalize_uuid(stem.as_str()),
                None => None,
            };
            if same_text(&normalized, u) {
                proof {
                    assert(sv.take(i + 1).last() == sv[i as int]);
                    assert(sv[i as int] == match stems@[i as int] {
                        Some(t) => Some(t@),
                        None => None,
                    });
                    assert(first_stem_with_uuid(sv.take(i + 1), u@) == Some(i as int));
                    lemma_first_stem_extends(sv, u@, i + 1);
                    let pu = match primary_uuid {
                        Some(x) => Some(x@),
                        None => None,
                    };
                    assert(pu is Some);
                    assert(normalize_uuid_spec(pu->0) == Some(u@));
                    assert(first_stem_with_uuid(sv, u@) == Some(i as int));
                    assert(chosen_stats_file(sv, pu) == Some((i as int, StatisticsBasis::UuidMatched)));
                }
                return Some((i, StatisticsBasis::UuidMatched));
            }
            i = i + 1;
        }
        assert(sv.take(i as int) =~= sv);
    }
    if stems.len() == 1 {
        Some((0, StatisticsBasis::SingleLocalPlayer))
    } else {
        None
    }
}

proof fn lemma_first_stem_extends(s: Seq<Option<Seq<char>>>, u: Seq<char>, n: int)
    requires
        0 < n <= s.len(),
        first_stem_with_uuid(s.take(n), u) is Some,
    ensures
        first_stem_with_uuid(s, u) == first_stem_with_uuid(s.take(n), u),
    decreases s.len() - n,
{
    if n < s.len() {
        assert(s.take(n + 1).drop_last() =~= s.take(n));
        lemma_first_stem_extends(s, u, n + 1);
    } else {
        assert(s.take(n) =~= s);
    }
}


/// A statistic being merged: its value and the worlds it came from.
pub struct StatTally {
    pub category: String,
    pub key: String,
    pub value: u64,
    pub worlds: Vec<String>,
}

pub struct TallyView {
    pub category: Seq<char>,
    pub key: Seq<char>,
    pub value: u64,
    pub worlds: Seq<Seq<char>>,
}

pub open spec fn tally_view(t: StatTally) -> TallyView {
    TallyView {
        category: t.category@,
        key: t.key@,
        value: t.value,
        worlds: t.worlds@.map_values(|w: String| w@),
    }
}

pub open spec fn tally_views(v: Seq<StatTally>) -> Seq<TallyView> {
    v.map_values(|t: StatTally| tally_view(t))
}

/// The order of statistics: by category, then key.
pub open spec fn key_lt(c1: Seq<char>, k1: Seq<char>, c2: Seq<char>, k2: Seq<char>) -> bool {
    lex_lt(c1, c2) || (c1 == c2 && lex_lt(k1, k2))
}

proof fn lemma_key_order(c1: Seq<char>, k1: Seq<char>, c2: Seq<char>, k2: Seq<char>)
    ensures
        !(key_lt(c1, k1, c2, k2) && key_lt(c2, k2, c1, k1)),
        key_lt(c1, k1, c2, k2) ==> !(c1 == c2 && k1 == k2),
        key_lt(c1, k1, c2, k2) || key_lt(c2, k2, c1, k1) || (c1 == c2 && k1 == k2),
{
    crate::parser::reconstruction_laws::lemma_lex_lt_asymmetric(c1, c2);
    crate::parser::reconstruction_laws::lemma_lex_lt_asymmetric(k1, k2);
    crate::parser::reconstruction_laws::lemma_lex_lt_asymmetric(c1, c1);
    crate::parser::reconstruction_laws::lemma_lex_lt_asymmetric(k1, k1);
    crate::parser::reconstruction_laws::lemma_lex_lt_total(c1, c2);
    crate::parser::reconstruction_laws::lemma_lex_lt_total(k1, k2);
}

fn key_lt_exec(c1: &String, k1: &String, c2: &String, k2: &String) -> (r: bool)
    ensures
        r == key_lt(c1@, k1@, c2@, k2@),
{
    string_lt(c1, c2) || (str_eq(c1.as_str(), c2.as_str()) && string_lt(k1, k2))
}

pub open spec fn capped(v: int) -> u64 {
    if v > MAX_SAFE_INTEGER {
        MAX_SAFE_INTEGER
    } else {
        v as u64
    }
}

/// `s` with `t` stored under its key, replacing any entry there.
pub open spec fn put_stat(s: Seq<TallyView>, t: TallyView) -> Seq<TallyView>
    decreases s.len(),
{
    if s.len() == 0 {
        seq![t]
    } else if key_lt(s.last().category, s.last().key, t.category, t.key) {
        s.push(t)
    } else if s.last().category == t.category && s.last().key == t.key {
        s.drop_last().push(t)
    } else {
        put_stat(s.drop_last(), t).push(s.last())
    }
}

/// A statistic after one more world adds `v` to it.
pub open spec fn bumped(t: TallyView, v: u64, world: Seq<char>) -> TallyView {
    TallyView {
        value: capped(t.value + v),
        worlds: if t.worlds.contains(world) {
            t.worlds
        } else {
            t.worlds.push(world)
        },
        ..t
    }
}

/// `s` with `v` of world `world` merged under the key `(c, k)`.
pub open spec fn merge_stat(s: Seq<TallyView>, c: Seq<char>, k: Seq<char>, v: u64, world: Seq<char>) -> Seq<TallyView>
    decreases s.len(),
{
    let fresh = TallyView { category: c, key: k, value: capped(v as int), worlds: seq![world] };
    if s.len() == 0 {
        seq![fresh]
    } else if key_lt(s.last().category, s.last().key, c, k) {
        s.push(fresh)
    } else if s.last().category == c && s.last().key == k {
        s.drop_last().push(bumped(s.last(), v, world))
    } else {
        merge_stat(s.drop_last(), c, k, v, world).push(s.last())
    }
}

/// Where a key goes in a sorted list, scanning from the end: the position
/// after the last entry that does not sort after it, and whether that entry
/// has the key.
fn locate(s: &Vec<StatTally>, c: &String, k: &String) -> (r: (usize, bool))
    ensures
        r.0 <= s@.len(),
        r.1 ==> r.0 > 0 && s@[r.0 - 1].category@ == c@ && s@[r.0 - 1].key@ == k@,
        !r.1 ==> (r.0 == 0 || key_lt(s@[r.0 - 1].category@, s@[r.0 - 1].key@, c@, k@)),
        forall|i: int| r.0 <= i < s@.len() ==> key_lt(c@, k@, #[trigger] s@[i].category@, s@[i].key@),
{
    let mut j: usize = s.len();
    while j > 0 && key_lt_exec(c, k, &s[j - 1].category, &s[j - 1].key)
        invariant
            j <= s@.len(),
            forall|i: int| j <= i < s@.len() ==> key_lt(c@, k@, #[trigger] s@[i].category@, s@[i].key@),
        decreases j,
    {
        j = j - 1;
    }
    if j > 0 {
        proof {
            lemma_key_order(s@[j - 1].category@, s@[j - 1].key@, c@, k@);
        }
        let same = str_eq(s[j - 1].category.as_str(), c.as_str()) && str_eq(s[j - 1].key.as_str(), k.as_str());
        (j, same)
    } else {
        (0, false)
    }
}

proof fn lemma_put_stat_at(s: Seq<TallyView>, t: TallyView, j: int)
    requires
        0 <= j <= s.len(),
        forall|i: int| j <= i < s.len() ==> key_lt(t.category, t.key, #[trigger] s[i].category, s[i].key),
    ensures
        put_stat(s, t) == put_stat(s.take(j), t) + s.skip(j),
    decreases s.len() - j,
{
    if j < s.len() {
        lemma_put_stat_at(s, t, j + 1);
        let u = s.take(j + 1);
        assert(u.last() == s[j]);
        assert(u.drop_last() =~= s.take(j));
        lemma_key_order(s[j].category, s[j].key, t.category, t.key);
        assert(put_stat(u, t) == put_stat(s.take(j), t).push(s[j]));
        assert(put_stat(s.take(j), t).push(s[j]) + s.skip(j + 1) =~= put_stat(s.take(j), t) + s.skip(j));
    } else {
        assert(s.take(j) =~= s);
        assert(s.skip(j) =~= Seq::<TallyView>::empty());
        assert(put_stat(s, t) + Seq::<TallyView>::empty() =~= put_stat(s, t));
    }
}

proof fn lemma_merge_stat_at(s: Seq<TallyView>, c: Seq<char>, k: Seq<char>, v: u64, w: Seq<char>, j: int)
    requires
        0 <= j <= s.len(),
        forall|i: int| j <= i < s.len() ==> key_lt(c, k, #[trigger] s[i].category, s[i].key),
    ensures
        merge_stat(s, c, k, v, w) == merge_stat(s.take(j), c, k, v, w) + s.skip(j),
    decreases s.len() - j,
{
    if j < s.len() {
        lemma_merge_stat_at(s, c, k, v, w, j + 1);
        let u = s.take(j + 1);
        assert(u.last() == s[j]);
        assert(u.drop_last() =~= s.take(j));
        lemma_key_order(s[j].category, s[j].key, c, k);
        assert(merge_stat(u, c, k, v, w) == merge_stat(s.take(j), c, k, v, w).push(s[j]));
        assert(merge_stat(s.take(j), c, k, v, w).push(s[j]) + s.skip(j + 1) =~= merge_stat(s.take(j), c, k, v, w)
            + s.skip(j));
    } else {
        assert(s.take(j) =~= s);
        assert(merge_stat(s, c, k, v, w) + s.skip(j) =~= merge_stat(s, c, k, v, w));
    }
}

fn clone_worlds(v: &Vec<String>) -> (r: Vec<String>)
    ensures
        r@.map_values(|w: String| w@) == v@.map_values(|w: String| w@),
{
    let mut r: Vec<String> = Vec::new();
    let mut i: usize = 0;
    while i < v.len()
        invariant
            i <= v@.len(),
            r@.map_values(|w: String| w@) == v@.map_values(|w: String| w@).take(i as int),
        decreases v@.len() - i,
    {
        r.push(v[i].clone());
        assert(v@.map_values(|w: String| w@).take(i + 1) =~= v@.map_values(|w: String| w@).take(i as int).push(
            v@[i as int]@,
        ));
        assert(r@.map_values(|w: String| w@) =~= v@.map_values(|w: String| w@).take(i + 1));
        i = i + 1;
    }
    assert(v@.map_values(|w: String| w@).take(v@.len() as int) =~= v@.map_values(|w: String| w@));
    r
}

fn contains_world(v: &Vec<String>, w: &str) -> (r: bool)
    ensures
        r == v@.map_values(|x: String| x@).contains(w@),
{
    let ghost vv = v@.map_values(|x: String| x@);
    let mut i: usize = 0;
    while i < v.len()
        invariant
            i <= v@.len(),
            vv == v@.map_values(|x: String| x@),
            forall|j: int| 0 <= j < i ==> vv[j] != w@,
        decreases v@.len() - i,
    {
        if str_eq(v[i].as_str(), w) {
            assert(vv[i as int] == w@);
            return true;
        }
        i = i + 1;
    }
    false
}

/// Merges one statistic of world `world` into the sorted tallies.
fn merge_one(s: &mut Vec<StatTally>, c: &String, k: &String, v: u64, world: &str)
    ensures
        tally_views(final(s)@) == merge_stat(tally_views(old(s)@), c@, k@, v, world@),
{
    let ghost sv = tally_views(s@);
    let (j, same) = locate(s, c, k);
    proof {
        assert forall|i: int| j <= i < sv.len() implies key_lt(c@, k@, #[trigger] sv[i].category, sv[i].key) by {
            assert(sv[i] == tally_view(s@[i]));
        }
        lemma_merge_stat_at(sv, c@, k@, v, world@, j as int);
    }
    if same {
        let t = &s[j - 1];
        let value = if t.value as u128 + v as u128 > MAX_SAFE_INTEGER as u128 {
            MAX_SAFE_INTEGER
        } else {
            t.value + v
        };
        let mut worlds = clone_worlds(&t.worlds);
        if !contains_world(&t.worlds, world) {
            let ghost w0 = worlds@;
            worlds.push(world.to_owned());
            assert(worlds@.map_values(|x: String| x@) =~= w0.map_values(|x: String| x@).push(world@));
        }
        let updated = StatTally { category: t.category.clone(), key: t.key.clone(), value, worlds };
        proof {
            let u = sv.take(j as int);
            assert(u.last() == sv[j - 1]);
            assert(u.drop_last() =~= sv.take(j - 1));
            assert(sv[j - 1] == tally_view(s@[j - 1]));
            lemma_key_order(sv[j - 1].category, sv[j - 1].key, c@, k@);
            assert(tally_view(updated) == bumped(sv[j - 1], v, world@));
            assert(merge_stat(u, c@, k@, v, world@) == sv.take(j - 1).push(bumped(sv[j - 1], v, world@)));
        }
        s.set(j - 1, updated);
        proof {
            assert(tally_views(s@) =~= sv.take(j - 1).push(bumped(sv[j - 1], v, world@)) + sv.skip(j as int));
        }
    } else {
        let fresh = StatTally {
            category: c.clone(),
            key: k.clone(),
            value: if v > MAX_SAFE_INTEGER {
                MAX_SAFE_INTEGER
            } else {
                v
            },
            worlds: vec![world.to_owned()],
        };
        proof {
            let u = sv.take(j as int);
            if j > 0 {
                assert(u.last() == sv[j - 1]);
            } else {
                assert(u =~= Seq::<TallyView>::empty());
            }
            assert(fresh.worlds@.map_values(|x: String| x@) =~= seq![world@]);
            assert(merge_stat(u, c@, k@, v, world@) =~= u.push(tally_view(fresh)));
        }
        s.insert(j, fresh);
        proof {
            assert(tally_views(s@) =~= sv.take(j as int).push(tally_view(fresh)) + sv.skip(j as int));
        }
    }
}

/// Stores one statistic under its key, replacing any entry there.
fn put_one(s: &mut Vec<StatTally>, t: StatTally)
    ensures
        tally_views(final(s)@) == put_stat(tally_views(old(s)@), tally_view(t)),
{
    let ghost sv = tally_views(s@);
    let ghost tv = tally_view(t);
    let (j, same) = locate(s, &t.category, &t.key);
    proof {
        assert forall|i: int| j <= i < sv.len() implies key_lt(tv.category, tv.key, #[trigger] sv[i].category, sv[i].key) by {
            assert(sv[i] == tally_view(s@[i]));
        }
        lemma_put_stat_at(sv, tv, j as int);
        let u = sv.take(j as int);
        if j > 0 {
            assert(u.last() == sv[j - 1]);
            assert(u.drop_last() =~= sv.take(j - 1));
            assert(sv[j - 1] == tally_view(s@[j - 1]));
            lemma_key_order(sv[j - 1].category, sv[j - 1].key, tv.category, tv.key);
            if same {
                assert(put_stat(u, tv) == sv.take(j - 1).push(tv));
            } else {
                assert(put_stat(u, tv) == u.push(tv));
            }
        } else {
            assert(u =~= Seq::<TallyView>::empty());
            assert(put_stat(u, tv) == seq![tv]);
        }
    }
    if same {
        s.set(j - 1, t);
        proof {
            assert(tally_views(s@) =~= sv.take(j - 1).push(tv) + sv.skip(j as int));
        }
    } else {
        s.insert(j, t);
        proof {
            assert(tally_views(s@) =~= sv.take(j as int).push(tv) + sv.skip(j as int));
            if j == 0 {
                assert(seq![tv] =~= sv.take(0).push(tv));
            }
        }
    }
}

/// One statistic read from a statistics file: its category, key and raw amount.
pub struct RawStat {
    pub category: String,
    pub key: String,
    pub amount: Option<u64>,
}

/// The tallies a statistics file gives: each nonzero amount (capped) stored
/// under its key, with no worlds yet.
pub open spec fn stats_from_raw(raw: Seq<RawStat>) -> Seq<TallyView>
    decreases raw.len(),
{
    if raw.len() == 0 {
        Seq::empty()
    } else {
        let p = stats_from_raw(raw.drop_last());
        let r = raw.last();
        let amount = capped(
            match r.amount {
                Some(a) => a as int,
                None => 0,
            },
        );
        if amount == 0 {
            p
        } else {
            put_stat(p, TallyView { category: r.category@, key: r.key@, value: amount, worlds: Seq::empty() })
        }
    }
}

/// The statistics of one file (the part of `parse_stats` after reading its JSON).
pub fn parse_stats(raw: &Vec<RawStat>) -> (r: Vec<StatTally>)
    ensures
        tally_views(r@) == stats_from_raw(raw@),
{
    let mut r: Vec<StatTally> = Vec::new();
    let mut i: usize = 0;
    assert(raw@.take(0) =~= Seq::<RawStat>::empty());
    assert(tally_views(r@) =~= Seq::<TallyView>::empty());
    while i < raw.len()
        invariant
            i <= raw@.len(),
            tally_views(r@) == stats_from_raw(raw@.take(i as int)),
        decreases raw@.len() - i,
    {
        assert(raw@.take(i + 1).drop_last() =~= raw@.take(i as int));
        assert(raw@.take(i + 1).last() == raw@[i as int]);
        let entry = &raw[i];
        let amount = match entry.amount {
            Some(a) => if a > MAX_SAFE_INTEGER {
                MAX_SAFE_INTEGER
            } else {
                a
            },
            None => 0,
        };
        if amount != 0 {
            let t = StatTally { category: entry.category.clone(), key: entry.key.clone(), value: amount, worlds: Vec::new() };
            assert(t.worlds@.map_values(|w: String| w@) =~= Seq::<Seq<char>>::empty());
            put_one(&mut r, t);
        }
        i = i + 1;
    }
    assert(raw@.take(raw@.len() as int) =~= raw@);
    r
}

/// `target` with every statistic of `source` merged in for world `world`.
pub open spec fn merged(target: Seq<TallyView>, source: Seq<TallyView>, world: Seq<char>) -> Seq<TallyView>
    decreases source.len(),
{
    if source.len() == 0 {
        target
    } else {
        let t = source.last();
        merge_stat(merged(target, source.drop_last(), world), t.category, t.key, t.value, world)
    }
}

/// `merge_stats`: adds a world's statistics to the merged ones.
pub fn merge_stats(target: &mut Vec<StatTally>, source: &Vec<StatTally>, world: &str)
    ensures
        tally_views(final(target)@) == merged(tally_views(old(target)@), tally_views(source@), world@),
{
    let ghost t0 = tally_views(target@);
    let ghost sv = tally_views(source@);
    let mut i: usize = 0;
    assert(sv.take(0) =~= Seq::<TallyView>::empty());
    while i < source.len()
        invariant
            i <= source@.len(),
            sv == tally_views(source@),
            tally_views(target@) == merged(t0, sv.take(i as int), world@),
        decreases source@.len() - i,
    {
        assert(sv.take(i + 1).drop_last() =~= sv.take(i as int));
        assert(sv.take(i + 1).last() == tally_view(source@[i as int]));
        merge_one(target, &source[i].category, &source[i].key, source[i].value, world);
        i = i + 1;
    }
    assert(sv.take(source@.len() as int) =~= sv);
}

/// The merged statistics as the sections read them: each with the number of its worlds.
pub fn into_stat_map(tallies: Vec<StatTally>) -> (r: StatMap)
    ensures
        r.entries@.len() == tallies@.len(),
        forall|i: int|
            0 <= i < tallies@.len() ==> {
                let e = #[trigger] r.entries@[i];
                let t = tally_view(tallies@[i]);
                e.category@ == t.category && e.key@ == t.key && e.value == t.value && e.source_worlds
                    == t.worlds.len()
            },
{
    let mut entries: Vec<StatEntry> = Vec::new();
    let mut i: usize = 0;
    while i < tallies.len()
        invariant
            i <= tallies@.len(),
            entries@.len() == i,
            forall|j: int|
                0 <= j < i ==> {
                    let e = #[trigger] entries@[j];
                    let t = tally_view(tallies@[j]);
                    e.category@ == t.category && e.key@ == t.key && e.value == t.value && e.source_worlds
                        == t.worlds.len()
                },
        decreases tallies@.len() - i,
    {
        let t = &tallies[i];
        entries.push(
            StatEntry {
                category: t.category.clone(),
                key: t.key.clone(),
                value: t.value,
                source_worlds: t.worlds.len() as u64,
            },
        );
        i = i + 1;
    }
    StatMap { entries }
}


/// The most worlds a profile lists.
pub const MAX_WORLDS: usize = 512;

/// The most statistics files a profile reads.
pub const MAX_STATS_FILES: usize = 512;

/// A game directory of an installation, with the names it is shown under.
pub struct GameRoot {
    pub path: String,
    pub launcher: String,
    pub instance: String,
}

/// A world backup archive found in a game directory.
pub struct BackupCandidate {
    pub path: String,
    pub name: String,
    pub instance: String,
}

/// What the profile shows of a world, as values.
pub struct WorldView {
    pub id: Seq<char>,
    pub name: Seq<char>,
    pub folder_name: Option<Seq<char>>,
    pub instance: Seq<char>,
    pub launcher: Seq<char>,
    pub availability: WorldAvailability,
    pub total_minutes: Option<u64>,
    pub last_observed_at: Option<Seq<char>>,
    pub stats_available: bool,
    pub stats_basis: StatisticsBasis,
    pub backup_count: u64,
}

pub open spec fn text_opt(o: Option<String>) -> Option<Seq<char>> {
    match o {
        Some(t) => Some(t@),
        None => None,
    }
}

pub open spec fn world_view(w: ProfileWorld) -> WorldView {
    WorldView {
        id: w.id@,
        name: w.name@,
        folder_name: text_opt(w.folder_name),
        instance: w.instance@,
        launcher: w.launcher@,
        availability: w.availability,
        total_minutes: w.total_minutes,
        last_observed_at: text_opt(w.last_observed_at),
        stats_available: w.stats_available,
        stats_basis: w.stats_basis,
        backup_count: w.backup_count,
    }
}

pub open spec fn world_views(v: Seq<ProfileWorld>) -> Seq<WorldView> {
    v.map_values(|w: ProfileWorld| world_view(w))
}

/// The first archived world not yet matched whose normalized name is `normalized`.
pub open spec fn first_archive_match(a: Seq<WorldSummary>, matched: Seq<Seq<char>>, normalized: Seq<char>) -> Option<int>
    decreases a.len(),
{
    if a.len() == 0 {
        None
    } else {
        match first_archive_match(a.drop_last(), matched, normalized) {
            Some(i) => Some(i),
            None => if !matched.contains(a.last().id@) && normalize_name_spec(a.last().name@) == normalized {
                Some(a.len() - 1)
            } else {
                None
            },
        }
    }
}

/// Whether a backup belongs to a world: its normalized name contains the
/// world's, and (for a save folder) it lies in the same instance.
pub open spec fn backup_hit(b: BackupCandidate, instance: Option<Seq<char>>, normalized: Seq<char>) -> bool {
    &&& match instance {
        Some(i) => b.instance@ == i,
        None => true,
    }
    &&& contains(normalize_name_spec(b.name@), normalized)
}

pub open spec fn count_hits(bs: Seq<BackupCandidate>, instance: Option<Seq<char>>, normalized: Seq<char>) -> nat
    decreases bs.len(),
{
    if bs.len() == 0 {
        0
    } else {
        count_hits(bs.drop_last(), instance, normalized) + if backup_hit(bs.last(), instance, normalized) {
            1nat
        } else {
            0nat
        }
    }
}

/// The backups matched so far, one flag per backup.
pub open spec fn mark_hits(flags: Seq<bool>, bs: Seq<BackupCandidate>, instance: Option<Seq<char>>, normalized: Seq<char>) -> Seq<
    bool,
> {
    Seq::new(flags.len(), |i: int| flags[i] || backup_hit(bs[i], instance, normalized))
}

/// The collected worlds, merged statistics and their bookkeeping.
pub struct WorldCollector {
    pub worlds: Vec<ProfileWorld>,
    pub stats: Vec<StatTally>,
    pub matched_archive_ids: Vec<String>,
    pub matched_backups: Vec<bool>,
    pub stats_files: usize,
    pub aggregate_basis: StatisticsBasis,
    pub statistics_worlds: u64,
}

pub struct CollectorView {
    pub worlds: Seq<WorldView>,
    pub stats: Seq<TallyView>,
    pub matched_archive_ids: Seq<Seq<char>>,
    pub matched_backups: Seq<bool>,
    pub stats_files: usize,
    pub aggregate_basis: StatisticsBasis,
    pub statistics_worlds: u64,
}

impl WorldCollector {
    pub open spec fn view_of(&self) -> CollectorView {
        CollectorView {
            worlds: world_views(self.worlds@),
            stats: tally_views(self.stats@),
            matched_archive_ids: self.matched_archive_ids@.map_values(|s: String| s@),
            matched_backups: self.matched_backups@,
            stats_files: self.stats_files,
            aggregate_basis: self.aggregate_basis,
            statistics_worlds: self.statistics_worlds,
        }
    }

    /// A collector for `backup_count` backups.
    pub fn new(backup_count: usize) -> (r: WorldCollector)
        ensures
            r.view_of() == (CollectorView {
                worlds: Seq::empty(),
                stats: Seq::empty(),
                matched_archive_ids: Seq::empty(),
                matched_backups: Seq::new(backup_count as nat, |i: int| false),
                stats_files: 0,
                aggregate_basis: StatisticsBasis::NoBasis,
                statistics_worlds: 0,
            }),
    {
        let mut flags: Vec<bool> = Vec::new();
        let mut i: usize = 0;
        while i < backup_count
            invariant
                i <= backup_count,
                flags@ == Seq::new(i as nat, |k: int| false),
            decreases backup_count - i,
        {
            flags.push(false);
            assert(flags@ =~= Seq::new((i + 1) as nat, |k: int| false));
            i = i + 1;
        }
        let r = WorldCollector {
            worlds: Vec::new(),
            stats: Vec::new(),
            matched_archive_ids: Vec::new(),
            matched_backups: flags,
            stats_files: 0,
            aggregate_basis: StatisticsBasis::NoBasis,
            statistics_worlds: 0,
        };
        assert(r.view_of().worlds =~= Seq::<WorldView>::empty());
        assert(r.view_of().stats =~= Seq::<TallyView>::empty());
        assert(r.view_of().matched_archive_ids =~= Seq::<Seq<char>>::empty());
        r
    }

    /// Whether another world may be listed.
    pub fn has_room(&self) -> (r: bool)
        ensures
            r == (self.worlds@.len() < MAX_WORLDS),
    {
        self.worlds.len() < MAX_WORLDS
    }

    /// Whether another statistics file may be read.
    pub fn wants_stats(&self) -> (r: bool)
        ensures
            r == (self.stats_files < MAX_STATS_FILES),
    {
        self.stats_files < MAX_STATS_FILES
    }
}


/// The basis of all statistics once a world's is added: the first basis
/// found, unless a single-player world's comes later.
pub open spec fn basis_after(aggregate: StatisticsBasis, basis: StatisticsBasis) -> StatisticsBasis {
    if aggregate == StatisticsBasis::NoBasis || basis == StatisticsBasis::SingleLocalPlayer {
        basis
    } else {
        aggregate
    }
}

/// The collector once a save folder of `root` is added.
pub open spec fn add_save_spec(
    v: CollectorView,
    root: GameRoot,
    folder: Seq<char>,
    world_stats: Option<Seq<TallyView>>,
    basis: StatisticsBasis,
    modified: Option<Seq<char>>,
    archive: Seq<WorldSummary>,
    backups: Seq<BackupCandidate>,
) -> CollectorView {
    let normalized = normalize_name_spec(folder);
    let m = first_archive_match(archive, v.matched_archive_ids, normalized);
    let inst = Some(root.instance@);
    let world = WorldView {
        id: stable_id_spec("profile-world"@, seq![root.instance@, folder]),
        name: match m {
            Some(i) => archive[i].name@,
            None => folder,
        },
        folder_name: Some(folder),
        instance: root.instance@,
        launcher: root.launcher@,
        availability: WorldAvailability::Available,
        total_minutes: match m {
            Some(i) => Some(archive[i].total_minutes),
            None => None,
        },
        last_observed_at: match m {
            Some(i) => match text_opt(archive[i].last_played_at) {
                Some(t) => Some(t),
                None => modified,
            },
            None => modified,
        },
        stats_available: basis != StatisticsBasis::NoBasis,
        stats_basis: basis,
        backup_count: count_hits(backups, inst, normalized) as u64,
    };
    CollectorView {
        worlds: v.worlds.push(world),
        stats: match world_stats {
            Some(ws) => merged(v.stats, ws, folder),
            None => v.stats,
        },
        matched_archive_ids: match m {
            Some(i) => v.matched_archive_ids.push(archive[i].id@),
            None => v.matched_archive_ids,
        },
        matched_backups: mark_hits(v.matched_backups, backups, inst, normalized),
        stats_files: if world_stats is Some {
            (v.stats_files + 1) as usize
        } else {
            v.stats_files
        },
        aggregate_basis: if world_stats is Some {
            basis_after(v.aggregate_basis, basis)
        } else {
            v.aggregate_basis
        },
        statistics_worlds: if world_stats is Some {
            (v.statistics_worlds + 1) as u64
        } else {
            v.statistics_worlds
        },
    }
}

fn contains_id(v: &Vec<String>, id: &String) -> (r: bool)
    ensures
        r == v@.map_values(|s: String| s@).contains(id@),
{
    contains_world(v, id.as_str())
}

/// The first unmatched archived world named like `normalized`.
fn find_archive_match(archive: &Vec<WorldSummary>, matched: &Vec<String>, normalized: &String) -> (r: Option<usize>)
    ensures
        match r {
            Some(i) => i < archive@.len() && first_archive_match(
                archive@,
                matched@.map_values(|s: String| s@),
                normalized@,
            ) == Some(i as int),
            None => first_archive_match(archive@, matched@.map_values(|s: String| s@), normalized@) is None,
        },
{
    let ghost ids = matched@.map_values(|s: String| s@);
    let mut i: usize = 0;
    assert(archive@.take(0) =~= Seq::<WorldSummary>::empty());
    while i < archive.len()
        invariant
            i <= archive@.len(),
            ids == matched@.map_values(|s: String| s@),
            first_archive_match(archive@.take(i as int), ids, normalized@) is None,
        decreases archive@.len() - i,
    {
        assert(archive@.take(i + 1).drop_last() =~= archive@.take(i as int));
        assert(archive@.take(i + 1).last() == archive@[i as int]);
        let candidate = &archive[i];
        if !contains_id(matched, &candidate.id) {
            let name = normalize_name(candidate.name.as_str());
            if str_eq(name.as_str(), normalized.as_str()) {
                proof {
                    lemma_archive_match_extends(archive@, ids, normalized@, i + 1);
                }
                return Some(i);
            }
        }
        i = i + 1;
    }
    assert(archive@.take(i as int) =~= archive@);
    None
}

proof fn lemma_archive_match_extends(a: Seq<WorldSummary>, ids: Seq<Seq<char>>, n: Seq<char>, k: int)
    requires
        0 < k <= a.len(),
        first_archive_match(a.take(k), ids, n) is Some,
    ensures
        first_archive_match(a, ids, n) == first_archive_match(a.take(k), ids, n),
    decreases a.len() - k,
{
    if k < a.len() {
        assert(a.take(k + 1).drop_last() =~= a.take(k));
        lemma_archive_match_extends(a, ids, n, k + 1);
    } else {
        assert(a.take(k) =~= a);
    }
}

fn normalized_contains(name: &String, normalized: &String) -> (r: bool)
    ensures
        r == contains(normalize_name_spec(name@), normalized@),
{
    let n = normalize_name(name.as_str());
    let h = chars_of(n.as_str());
    let needle = chars_of(normalized.as_str());
    find_chars(h.as_slice(), needle.as_slice()).is_some()
}

/// Counts the backups of a world and marks them as matched.
fn count_backups(
    flags: &mut Vec<bool>,
    backups: &Vec<BackupCandidate>,
    instance: Option<&String>,
    normalized: &String,
) -> (r: u64)
    requires
        old(flags)@.len() == backups@.len(),
    ensures
        r == count_hits(
            backups@,
            match instance {
                Some(i) => Some(i@),
                None => None,
            },
            normalized@,
        ),
        final(flags)@ == mark_hits(
            old(flags)@,
            backups@,
            match instance {
                Some(i) => Some(i@),
                None => None,
            },
            normalized@,
        ),
{
    let ghost inst = match instance {
        Some(i) => Some(i@),
        None => None,
    };
    let ghost f0 = flags@;
    let mut count: u64 = 0;
    let mut i: usize = 0;
    assert(backups@.take(0) =~= Seq::<BackupCandidate>::empty());
    assert(flags@ =~= Seq::new(
        f0.len(),
        |k: int|
            if k < 0 {
                f0[k] || backup_hit(backups@[k], inst, normalized@)
            } else {
                f0[k]
            },
    ));
    while i < backups.len()
        invariant
            i <= backups@.len(),
            f0.len() == backups@.len(),
            flags@.len() == backups@.len(),
            inst == match instance {
                Some(x) => Some(x@),
                None => None,
            },
            count == count_hits(backups@.take(i as int), inst, normalized@),
            count <= i,
            flags@ == Seq::new(
                f0.len(),
                |k: int|
                    if k < i {
                        f0[k] || backup_hit(backups@[k], inst, normalized@)
                    } else {
                        f0[k]
                    },
            ),
        decreases backups@.len() - i,
    {
        assert(backups@.take(i + 1).drop_last() =~= backups@.take(i as int));
        assert(backups@.take(i + 1).last() == backups@[i as int]);
        let b = &backups[i];
        let same_instance = match instance {
            Some(x) => str_eq(b.instance.as_str(), x.as_str()),
            None => true,
        };
        let hit = same_instance && normalized_contains(&b.name, normalized);
        assert(hit == backup_hit(backups@[i as int], inst, normalized@));
        if hit {
            count = count + 1;
            flags.set(i, true);
        }
        assert(flags@ =~= Seq::new(
            f0.len(),
            |k: int|
                if k < i + 1 {
                    f0[k] || backup_hit(backups@[k], inst, normalized@)
                } else {
                    f0[k]
                },
        ));
        i = i + 1;
    }
    assert(backups@.take(backups@.len() as int) =~= backups@);
    assert(flags@ =~= mark_hits(f0, backups@, inst, normalized@));
    count
}

impl WorldCollector {
    pub open spec fn wf(&self, backups: Seq<BackupCandidate>) -> bool {
        &&& self.matched_backups@.len() == backups.len()
        &&& self.statistics_worlds == self.stats_files
    }

    /// Adds one save folder of `root`, with the statistics read from it (the
    /// caller reads them only while `wants_stats` holds) and its modification time.
    #[verifier::rlimit(40)]
    pub fn add_save(
        &mut self,
        root: &GameRoot,
        folder_name: String,
        world_stats: Option<Vec<StatTally>>,
        stats_basis: StatisticsBasis,
        modified: Option<String>,
        archive_worlds: &Vec<WorldSummary>,
        backups: &Vec<BackupCandidate>,
    )
        requires
            old(self).wf(backups@),
            old(self).worlds@.len() < MAX_WORLDS,
            world_stats is Some ==> old(self).stats_files < MAX_STATS_FILES,
        ensures
            final(self).wf(backups@),
            final(self).view_of() == add_save_spec(
                old(self).view_of(),
                *root,
                folder_name@,
                match world_stats {
                    Some(ws) => Some(tally_views(ws@)),
                    None => None,
                },
                stats_basis,
                text_opt(modified),
                archive_worlds@,
                backups@,
            ),
    {
        let ghost v0 = self.view_of();
        let normalized = normalize_name(folder_name.as_str());
        let found = find_archive_match(archive_worlds, &self.matched_archive_ids, &normalized);
        if let Some(i) = found {
            let ghost ids0 = self.matched_archive_ids@;
            self.matched_archive_ids.push(archive_worlds[i].id.clone());
            assert(self.matched_archive_ids@.map_values(|s: String| s@) =~= ids0.map_values(|s: String| s@).push(
                archive_worlds@[i as int].id@,
            ));
        }
        let backup_count = count_backups(&mut self.matched_backups, backups, Some(&root.instance), &normalized);
        match &world_stats {
            Some(ws) => {
                self.stats_files = self.stats_files + 1;
                self.statistics_worlds = self.statistics_worlds + 1;
                merge_stats(&mut self.stats, ws, folder_name.as_str());
                if self.aggregate_basis == StatisticsBasis::NoBasis || stats_basis
                    == StatisticsBasis::SingleLocalPlayer {
                    self.aggregate_basis = stats_basis;
                }
            },
            None => {},
        }
        let mut id_values: Vec<&str> = Vec::new();
        id_values.push(root.instance.as_str());
        id_values.push(folder_name.as_str());
        assert(str_views(id_values@) =~= seq![root.instance@, folder_name@]);
        let id = stable_id("profile-world", &id_values);
        let (name, total_minutes, last_observed_at) = match found {
            Some(i) => {
                let a = &archive_worlds[i];
                (
                    a.name.clone(),
                    Some(a.total_minutes),
                    match &a.last_played_at {
                        Some(t) => Some(t.clone()),
                        None => modified,
                    },
                )
            },
            None => (folder_name.clone(), None, modified),
        };
        let world = ProfileWorld {
            id,
            name,
            folder_name: Some(folder_name),
            instance: root.instance.clone(),
            launcher: root.launcher.clone(),
            availability: WorldAvailability::Available,
            total_minutes,
            last_observed_at,
            stats_available: stats_basis != StatisticsBasis::NoBasis,
            stats_basis,
            backup_count,
        };
        let ghost w0 = world_views(self.worlds@);
        self.worlds.push(world);
        assert(world_views(self.worlds@) =~= w0.push(world_view(world)));
    }
}


/// An archived world whose save was not found.
pub open spec fn missing_world(a: WorldSummary, count: nat) -> WorldView {
    WorldView {
        id: stable_id_spec("missing-world"@, seq![a.instance@, a.name@]),
        name: a.name@,
        folder_name: None,
        instance: a.instance@,
        launcher: "Observed archive"@,
        availability: WorldAvailability::Missing,
        total_minutes: Some(a.total_minutes),
        last_observed_at: text_opt(a.last_played_at),
        stats_available: false,
        stats_basis: StatisticsBasis::NoBasis,
        backup_count: count as u64,
    }
}

/// A world known only from a backup.
pub open spec fn backup_world(b: BackupCandidate, modified: Option<Seq<char>>) -> WorldView {
    WorldView {
        id: stable_id_spec("backup-world"@, seq![b.instance@, b.name@]),
        name: b.name@,
        folder_name: None,
        instance: b.instance@,
        launcher: "Local backup"@,
        availability: WorldAvailability::BackupOnly,
        total_minutes: None,
        last_observed_at: modified,
        stats_available: false,
        stats_basis: StatisticsBasis::NoBasis,
        backup_count: 1,
    }
}

pub open spec fn add_missing(v: CollectorView, a: WorldSummary, backups: Seq<BackupCandidate>) -> CollectorView {
    if v.worlds.len() >= MAX_WORLDS || v.matched_archive_ids.contains(a.id@) {
        v
    } else {
        let n = normalize_name_spec(a.name@);
        CollectorView {
            worlds: v.worlds.push(missing_world(a, count_hits(backups, None, n))),
            matched_backups: mark_hits(v.matched_backups, backups, None, n),
            ..v
        }
    }
}

/// The collector after the archived worlds whose saves were not found.
pub open spec fn missing_pass(v: CollectorView, archive: Seq<WorldSummary>, backups: Seq<BackupCandidate>) -> CollectorView
    decreases archive.len(),
{
    if archive.len() == 0 {
        v
    } else {
        add_missing(missing_pass(v, archive.drop_last(), backups), archive.last(), backups)
    }
}

/// The collector after the first `n` backups that no world matched.
pub open spec fn backup_pass(
    v: CollectorView,
    backups: Seq<BackupCandidate>,
    modified: Seq<Option<Seq<char>>>,
    n: int,
) -> CollectorView
    decreases n,
{
    if n <= 0 {
        v
    } else {
        let p = backup_pass(v, backups, modified, n - 1);
        let i = n - 1;
        if p.worlds.len() >= MAX_WORLDS || p.matched_backups[i] {
            p
        } else {
            CollectorView { worlds: p.worlds.push(backup_world(backups[i], modified[i])), ..p }
        }
    }
}

pub open spec fn rank(a: WorldAvailability) -> int {
    match a {
        WorldAvailability::Available => 0,
        WorldAvailability::Missing => 1,
        WorldAvailability::BackupOnly => 2,
    }
}

pub open spec fn opt_lt(a: Option<u64>, b: Option<u64>) -> bool {
    match (a, b) {
        (None, Some(_)) => true,
        (Some(x), Some(y)) => x < y,
        _ => false,
    }
}

/// Whether `l` lists after `r`: by availability, then more play time first,
/// then by lowercased name.
pub open spec fn world_after(l: WorldView, r: WorldView) -> bool {
    rank(l.availability) > rank(r.availability) || (rank(l.availability) == rank(r.availability) && (opt_lt(
        l.total_minutes,
        r.total_minutes,
    ) || (l.total_minutes == r.total_minutes && lex_lt(unicode_lower_text(r.name), unicode_lower_text(l.name)))))
}

pub open spec fn insert_world(s: Seq<WorldView>, x: WorldView) -> Seq<WorldView>
    decreases s.len(),
{
    if s.len() == 0 {
        seq![x]
    } else if !world_after(s.last(), x) {
        s.push(x)
    } else {
        insert_world(s.drop_last(), x).push(s.last())
    }
}

/// The worlds in listing order (a stable sort).
pub open spec fn sort_worlds(s: Seq<WorldView>) -> Seq<WorldView>
    decreases s.len(),
{
    if s.len() == 0 {
        Seq::empty()
    } else {
        insert_world(sort_worlds(s.drop_last()), s.last())
    }
}

fn world_after_exec(l: &ProfileWorld, r: &ProfileWorld) -> (b: bool)
    ensures
        b == world_after(world_view(*l), world_view(*r)),
{
    let lr = availability_rank(l.availability);
    let rr = availability_rank(r.availability);
    if lr != rr {
        return lr > rr;
    }
    let earlier_total = match (l.total_minutes, r.total_minutes) {
        (None, Some(_)) => true,
        (Some(x), Some(y)) => x < y,
        _ => false,
    };
    if earlier_total {
        return true;
    }
    if l.total_minutes != r.total_minutes {
        return false;
    }
    let ln = str_to_lowercase(l.name.as_str());
    let rn = str_to_lowercase(r.name.as_str());
    string_lt(&rn, &ln)
}

fn sort_profile_worlds(worlds: &mut Vec<ProfileWorld>)
    ensures
        world_views(final(worlds)@) == sort_worlds(world_views(old(worlds)@)),
{
    let mut input: Vec<ProfileWorld> = Vec::new();
    std::mem::swap(worlds, &mut input);
    let ghost raw = input@;
    let mut sorted: Vec<ProfileWorld> = Vec::new();
    let mut k: usize = 0;
    assert(world_views(raw.take(0)) =~= Seq::<WorldView>::empty());
    assert(world_views(sorted@) =~= Seq::<WorldView>::empty());
    assert(raw.len() == input.len());
    while input.len() > 0
        invariant
            k <= raw.len(),
            k + input@.len() == raw.len(),
            raw.len() <= usize::MAX,
            input@ == raw.skip(k as int),
            world_views(sorted@) == sort_worlds(world_views(raw.take(k as int))),
        decreases input@.len(),
    {
        let x = input.remove(0);
        assert(x == raw[k as int]);
        assert(input@ =~= raw.skip(k + 1));
        let ghost s = world_views(sorted@);
        let ghost xv = world_view(x);
        let mut j: usize = sorted.len();
        assert(s.take(j as int) =~= s);
        assert(insert_world(s, xv) =~= insert_world(s.take(j as int), xv) + s.skip(j as int));
        while j > 0 && world_after_exec(&sorted[j - 1], &x)
            invariant
                j <= s.len(),
                world_views(sorted@) == s,
                xv == world_view(x),
                insert_world(s, xv) == insert_world(s.take(j as int), xv) + s.skip(j as int),
            decreases j,
        {
            proof {
                let t = s.take(j as int);
                assert(t.last() == s[j - 1]);
                assert(s[j - 1] == world_view(sorted@[j - 1]));
                assert(t.drop_last() =~= s.take(j - 1));
                assert(seq![s[j - 1]] + s.skip(j as int) =~= s.skip(j - 1));
                assert(insert_world(t, xv) == insert_world(s.take(j - 1), xv).push(s[j - 1]));
                assert(insert_world(s.take(j - 1), xv).push(s[j - 1]) + s.skip(j as int) =~= insert_world(
                    s.take(j - 1),
                    xv,
                ) + s.skip(j - 1));
            }
            j = j - 1;
        }
        proof {
            let t = s.take(j as int);
            if j == 0 {
                assert(t =~= Seq::<WorldView>::empty());
            } else {
                assert(t.last() == s[j - 1]);
                assert(s[j - 1] == world_view(sorted@[j - 1]));
            }
            assert(insert_world(t, xv) =~= t.push(xv));
        }
        sorted.insert(j, x);
        proof {
            let wt = world_views(raw.take(k + 1));
            assert(wt.drop_last() =~= world_views(raw.take(k as int)));
            assert(wt.last() == xv);
            assert(world_views(sorted@) =~= s.take(j as int).push(xv) + s.skip(j as int));
        }
        k = k + 1;
    }
    assert(raw.take(k as int) =~= raw);
    *worlds = sorted;
}

pub open spec fn modified_views(v: Seq<Option<String>>) -> Seq<Option<Seq<char>>> {
    v.map_values(|m: Option<String>| text_opt(m))
}

fn clone_text_opt(o: &Option<String>) -> (r: Option<String>)
    ensures
        text_opt(r) == text_opt(*o),
{
    match o {
        Some(t) => Some(t.clone()),
        None => None,
    }
}

impl WorldCollector {
    /// Adds the archived worlds whose saves were not found, then the backups
    /// no world claimed, and orders the worlds (the end of `collect_worlds`).
    /// Returns the worlds, the merged statistics, their basis and the number
    /// of worlds they came from.
    #[verifier::rlimit(40)]
    pub fn finish(
        self,
        archive_worlds: &Vec<WorldSummary>,
        backups: &Vec<BackupCandidate>,
        backup_modified: &Vec<Option<String>>,
    ) -> (r: (Vec<ProfileWorld>, StatMap, StatisticsBasis, u64))
        requires
            self.wf(backups@),
            backup_modified@.len() == backups@.len(),
        ensures
            world_views(r.0@) == sort_worlds(
                backup_pass(
                    missing_pass(self.view_of(), archive_worlds@, backups@),
                    backups@,
                    modified_views(backup_modified@),
                    backups@.len() as int,
                ).worlds,
            ),
            r.1.entries@.len() == self.stats@.len(),
            forall|i: int|
                0 <= i < self.stats@.len() ==> {
                    let e = #[trigger] r.1.entries@[i];
                    let t = tally_view(self.stats@[i]);
                    e.category@ == t.category && e.key@ == t.key && e.value == t.value && e.source_worlds
                        == t.worlds.len()
                },
            r.2 == self.aggregate_basis,
            r.3 == self.statistics_worlds,
    {
        let ghost v0 = self.view_of();
        let WorldCollector {
            mut worlds,
            stats,
            matched_archive_ids,
            mut matched_backups,
            stats_files,
            aggregate_basis,
            statistics_worlds,
        } = self;
        let ghost ids = matched_archive_ids@.map_values(|s: String| s@);
        let mut i: usize = 0;
        assert(archive_worlds@.take(0) =~= Seq::<WorldSummary>::empty());
        while i < archive_worlds.len()
            invariant
                i <= archive_worlds@.len(),
                matched_backups@.len() == backups@.len(),
                ids == matched_archive_ids@.map_values(|s: String| s@),
                v0.matched_archive_ids == ids,
                (CollectorView { worlds: world_views(worlds@), matched_backups: matched_backups@, ..v0 })
                    == missing_pass(v0, archive_worlds@.take(i as int), backups@),
            decreases archive_worlds@.len() - i,
        {
            assert(archive_worlds@.take(i + 1).drop_last() =~= archive_worlds@.take(i as int));
            assert(archive_worlds@.take(i + 1).last() == archive_worlds@[i as int]);
            let a = &archive_worlds[i];
            if worlds.len() < MAX_WORLDS && !contains_id(&matched_archive_ids, &a.id) {
                let normalized = normalize_name(a.name.as_str());
                let count = count_backups(&mut matched_backups, backups, None, &normalized);
                let mut id_values: Vec<&str> = Vec::new();
                id_values.push(a.instance.as_str());
                id_values.push(a.name.as_str());
                assert(str_views(id_values@) =~= seq![a.instance@, a.name@]);
                let world = ProfileWorld {
                    id: stable_id("missing-world", &id_values),
                    name: a.name.clone(),
                    folder_name: None,
                    instance: a.instance.clone(),
                    launcher: string_from_chars(chars_of("Observed archive").as_slice()),
                    availability: WorldAvailability::Missing,
                    total_minutes: Some(a.total_minutes),
                    last_observed_at: clone_text_opt(&a.last_played_at),
                    stats_available: false,
                    stats_basis: StatisticsBasis::NoBasis,
                    backup_count: count,
                };
                let ghost w0 = world_views(worlds@);
                worlds.push(world);
                assert(world_views(worlds@) =~= w0.push(world_view(world)));
            }
            i = i + 1;
        }
        assert(archive_worlds@.take(archive_worlds@.len() as int) =~= archive_worlds@);
        let ghost v1 = missing_pass(v0, archive_worlds@, backups@);
        let ghost mods = modified_views(backup_modified@);
        let mut b: usize = 0;
        while b < backups.len()
            invariant
                b <= backups@.len(),
                matched_backups@.len() == backups@.len(),
                backup_modified@.len() == backups@.len(),
                mods == modified_views(backup_modified@),
                v1.matched_backups == matched_backups@,
                (CollectorView { worlds: world_views(worlds@), matched_backups: matched_backups@, ..v0 })
                    == backup_pass(v1, backups@, mods, b as int),
            decreases backups@.len() - b,
        {
            let backup = &backups[b];
            if worlds.len() < MAX_WORLDS && !matched_backups[b] {
                let mut id_values: Vec<&str> = Vec::new();
                id_values.push(backup.instance.as_str());
                id_values.push(backup.name.as_str());
                assert(str_views(id_values@) =~= seq![backup.instance@, backup.name@]);
                let world = ProfileWorld {
                    id: stable_id("backup-world", &id_values),
                    name: backup.name.clone(),
                    folder_name: None,
                    instance: backup.instance.clone(),
                    launcher: string_from_chars(chars_of("Local backup").as_slice()),
                    availability: WorldAvailability::BackupOnly,
                    total_minutes: None,
                    last_observed_at: clone_text_opt(&backup_modified[b]),
                    stats_available: false,
                    stats_basis: StatisticsBasis::NoBasis,
                    backup_count: 1,
                };
                let ghost w0 = world_views(worlds@);
                worlds.push(world);
                assert(world_views(worlds@) =~= w0.push(world_view(world)));
            }
            b = b + 1;
        }
        sort_profile_worlds(&mut worlds);
        (worlds, into_stat_map(stats), aggregate_basis, statistics_worlds)
    }
}


/// The shuffle key of a statistic: the digest of the seed and its id.
pub open spec fn shuffle_key(seed: u64, id: Seq<char>) -> Seq<u8> {
    blake3_digest(le64(seed) + utf8(id))
}

pub open spec fn insert_by_shuffle(s: Seq<ProfileStatistic>, x: ProfileStatistic, seed: u64) -> Seq<ProfileStatistic>
    decreases s.len(),
{
    if s.len() == 0 {
        seq![x]
    } else if !bytes_lt(shuffle_key(seed, x.id@), shuffle_key(seed, s.last().id@)) {
        s.push(x)
    } else {
        insert_by_shuffle(s.drop_last(), x, seed).push(s.last())
    }
}

/// The statistics ordered by their shuffle keys (a stable sort).
pub open spec fn shuffled(s: Seq<ProfileStatistic>, seed: u64) -> Seq<ProfileStatistic>
    decreases s.len(),
{
    if s.len() == 0 {
        Seq::empty()
    } else {
        insert_by_shuffle(shuffled(s.drop_last(), seed), s.last(), seed)
    }
}

fn shuffle_key_exec(seed: u64, id: &String) -> (r: Vec<u8>)
    ensures
        r@ == shuffle_key(seed, id@),
{
    let mut data = le64_bytes(seed);
    push_bytes(&mut data, id.as_str().as_bytes());
    let digest = blake3_hash(data.as_slice());
    vstd::slice::slice_to_vec(digest.as_slice())
}

/// `choose_random_stats`: four statistics picked by a seeded shuffle.
pub fn choose_random_stats(stats: Vec<ProfileStatistic>, seed: u64) -> (r: Vec<ProfileStatistic>)
    ensures
        r@ == shuffled(stats@, seed).take(vstd::math::min(4, stats@.len() as int)),
{
    let mut input = stats;
    let ghost all = input@;
    let mut sorted: Vec<ProfileStatistic> = Vec::new();
    let mut k: usize = 0;
    assert(all.take(0) =~= Seq::<ProfileStatistic>::empty());
    assert(all.len() == input.len());
    while input.len() > 0
        invariant
            k <= all.len(),
            k + input@.len() == all.len(),
            all.len() <= usize::MAX,
            input@ == all.skip(k as int),
            sorted@ == shuffled(all.take(k as int), seed),
            sorted@.len() == k,
        decreases input@.len(),
    {
        let x = input.remove(0);
        assert(x == all[k as int]);
        assert(input@ =~= all.skip(k + 1));
        let ghost s = sorted@;
        let key = shuffle_key_exec(seed, &x.id);
        let mut j: usize = sorted.len();
        assert(s.take(j as int) =~= s);
        assert(insert_by_shuffle(s, x, seed) =~= insert_by_shuffle(s.take(j as int), x, seed) + s.skip(j as int));
        while j > 0 && bytes_less(key.as_slice(), shuffle_key_exec(seed, &sorted[j - 1].id).as_slice())
            invariant
                j <= s.len(),
                sorted@ == s,
                key@ == shuffle_key(seed, x.id@),
                insert_by_shuffle(s, x, seed) == insert_by_shuffle(s.take(j as int), x, seed) + s.skip(j as int),
            decreases j,
        {
            proof {
                let t = s.take(j as int);
                assert(t.last() == s[j - 1]);
                assert(t.drop_last() =~= s.take(j - 1));
                assert(seq![s[j - 1]] + s.skip(j as int) =~= s.skip(j - 1));
                assert(insert_by_shuffle(t, x, seed) == insert_by_shuffle(s.take(j - 1), x, seed).push(s[j - 1]));
                assert(insert_by_shuffle(s.take(j - 1), x, seed).push(s[j - 1]) + s.skip(j as int)
                    =~= insert_by_shuffle(s.take(j - 1), x, seed) + s.skip(j - 1));
            }
            j = j - 1;
        }
        proof {
            let t = s.take(j as int);
            if j == 0 {
                assert(t =~= Seq::<ProfileStatistic>::empty());
            } else {
                assert(t.last() == s[j - 1]);
            }
            assert(insert_by_shuffle(t, x, seed) =~= t.push(x));
        }
        sorted.insert(j, x);
        proof {
            assert(all.take(k + 1).drop_last() =~= all.take(k as int));
            assert(all.take(k + 1).last() == x);
            assert(sorted@ =~= s.take(j as int).push(x) + s.skip(j as int));
        }
        k = k + 1;
    }
    assert(all.take(k as int) =~= all);
    sorted.truncate(4);
    sorted
}

/// The most game directories the profile reads.
pub const MAX_GAME_ROOTS: usize = 256;

/// Where the game directories of an installation are looked for.
#[derive(Clone, Copy, PartialEq, Eq, Debug, Structural)]
pub struct RootSearch {
    /// The installation's directory is taken as a game directory as it is.
    pub own_directory: bool,
    /// The installation's directory, then its `.minecraft`, are taken where
    /// they hold saves, logs or options.
    pub probed_directories: bool,
    /// Each directory under `instances` may hold one.
    pub instances: bool,
}

/// Where an installation of the given kind keeps its game directories: an
/// official launcher in its own directory, Prism and MultiMC in their
/// instances, a manual location in any of these.
pub fn root_search(kind: AdapterKind) -> (r: RootSearch)
    ensures
        r == (match kind {
            AdapterKind::Official => RootSearch { own_directory: true, probed_directories: false, instances: false },
            AdapterKind::Prism | AdapterKind::MultiMc => RootSearch {
                own_directory: false,
                probed_directories: false,
                instances: true,
            },
            AdapterKind::Manual => RootSearch { own_directory: false, probed_directories: true, instances: true },
        }),
{
    match kind {
        AdapterKind::Official => RootSearch { own_directory: true, probed_directories: false, instances: false },
        AdapterKind::Prism | AdapterKind::MultiMc => RootSearch {
            own_directory: false,
            probed_directories: false,
            instances: true,
        },
        AdapterKind::Manual => RootSearch { own_directory: false, probed_directories: true, instances: true },
    }
}

/// Whether a search that has collected `count` game directories goes on.
pub fn more_roots_allowed(count: usize) -> (r: bool)
    ensures
        r == (count < MAX_GAME_ROOTS),
{
    count < MAX_GAME_ROOTS
}

} // verus!
