//! The statistic sections of the player profile, from merged world statistics.

use vstd::prelude::*;

use crate::application::profile_service::{ProfileStatistic, ProfileStatisticSection, StatisticUnit};
use crate::external::{char_to_uppercase, unicode_uppercase};
use crate::parser::session_reconstruction::{lex_lt, string_lt};
use crate::text::{append_chars, chars_of, rfind, rfind_chars, lemma_rfind_some, match_at, slice_chars, str_eq, string_from_chars};

verus! {

/// One merged statistic: its category and key, its value, and how many worlds it came from.
#[derive(Clone, Debug)]
pub struct StatEntry {
    pub category: String,
    pub key: String,
    pub value: u64,
    pub source_worlds: u64,
}

/// Merged statistics in key order.
pub struct StatMap {
    pub entries: Vec<StatEntry>,
}

pub struct StatView {
    pub id: Seq<char>,
    pub label: Seq<char>,
    pub value: u64,
    pub unit: StatisticUnit,
    pub source_worlds: u64,
}

pub open spec fn stat_view(s: ProfileStatistic) -> StatView {
    StatView { id: s.id@, label: s.label@, value: s.value, unit: s.unit, source_worlds: s.source_worlds }
}

pub open spec fn stat_views(v: Seq<ProfileStatistic>) -> Seq<StatView> {
    v.map_values(|s: ProfileStatistic| stat_view(s))
}

pub open spec fn is_word_separator(c: char) -> bool {
    c == '_' || c == '-'
}

/// `str::split` on `_` and `-`.
pub open spec fn word_pieces(s: Seq<char>) -> Seq<Seq<char>>
    decreases s.len(),
{
    if s.len() == 0 {
        seq![Seq::empty()]
    } else {
        let p = word_pieces(s.drop_last());
        if is_word_separator(s.last()) {
            p.push(Seq::empty())
        } else {
            p.update(p.len() - 1, p.last().push(s.last()))
        }
    }
}

proof fn lemma_word_pieces_nonempty(s: Seq<char>)
    ensures
        word_pieces(s).len() >= 1,
    decreases s.len(),
{
    if s.len() > 0 {
        lemma_word_pieces_nonempty(s.drop_last());
    }
}

pub open spec fn nonempty_pieces(ps: Seq<Seq<char>>) -> Seq<Seq<char>>
    decreases ps.len(),
{
    if ps.len() == 0 {
        Seq::empty()
    } else if ps.last().len() > 0 {
        nonempty_pieces(ps.drop_last()).push(ps.last())
    } else {
        nonempty_pieces(ps.drop_last())
    }
}

/// A word with its first character in upper case.
pub open spec fn capitalized(w: Seq<char>) -> Seq<char> {
    unicode_uppercase(w[0]) + w.drop_first()
}

pub open spec fn joined_words(ws: Seq<Seq<char>>) -> Seq<char>
    decreases ws.len(),
{
    if ws.len() == 0 {
        Seq::empty()
    } else if ws.len() == 1 {
        capitalized(ws[0])
    } else {
        joined_words(ws.drop_last()) + seq![' '] + capitalized(ws.last())
    }
}

/// The text after the last `:`, or all of it.
pub open spec fn after_last_colon(s: Seq<char>) -> Seq<char> {
    match rfind(s, seq![':']) {
        Some(i) => s.subrange(i + 1int, s.len() as int),
        None => s,
    }
}

/// A namespaced identifier as words: `minecraft:oak_log` reads `Oak Log`.
pub open spec fn humanize_spec(value: Seq<char>) -> Seq<char> {
    joined_words(nonempty_pieces(word_pieces(after_last_colon(value))))
}

fn word_pieces_exec(s: &[char]) -> (r: Vec<Vec<char>>)
    ensures
        r@.map_values(|v: Vec<char>| v@) == word_pieces(s@),
{
    let mut done: Vec<Vec<char>> = Vec::new();
    let mut current: Vec<char> = Vec::new();
    let mut i: usize = 0;
    assert(s@.take(0) =~= Seq::<char>::empty());
    assert(done@.map_values(|v: Vec<char>| v@).push(current@) =~= seq![Seq::<char>::empty()]);
    while i < s.len()
        invariant
            i <= s@.len(),
            done@.map_values(|v: Vec<char>| v@).push(current@) == word_pieces(s@.take(i as int)),
        decreases s@.len() - i,
    {
        let ghost before = done@.map_values(|v: Vec<char>| v@);
        let ghost cur = current@;
        assert(s@.take(i + 1).drop_last() =~= s@.take(i as int));
        assert(s@.take(i + 1).last() == s@[i as int]);
        if s[i] == '_' || s[i] == '-' {
            let mut finished: Vec<char> = Vec::new();
            std::mem::swap(&mut finished, &mut current);
            done.push(finished);
            assert(done@.map_values(|v: Vec<char>| v@).push(current@) =~= before.push(cur).push(
                Seq::<char>::empty(),
            ));
        } else {
            current.push(s[i]);
            assert(done@.map_values(|v: Vec<char>| v@).push(current@) =~= before.push(cur).update(
                before.len() as int,
                cur.push(s@[i as int]),
            ));
        }
        i = i + 1;
    }
    assert(s@.take(s@.len() as int) =~= s@);
    done.push(current);
    done
}

/// `value` with its namespace dropped and its words capitalized and spaced.
pub fn humanize_identifier(value: &str) -> (r: String)
    ensures
        r@ == humanize_spec(value@),
{
    let c = chars_of(value);
    let colon = vec![':'];
    assert(colon@ =~= seq![':']);
    let tail = match rfind_chars(c.as_slice(), colon.as_slice()) {
        Some(i) => {
            proof {
                lemma_rfind_some(c@, seq![':']);
                assert(match_at(c@, seq![':'], i as int));
                assert(c@.len() == c.len());
            }
            slice_chars(c.as_slice(), i + 1, c.len())
        },
        None => c,
    };
    let pieces = word_pieces_exec(tail.as_slice());
    let ghost pv = pieces@.map_values(|v: Vec<char>| v@);
    let mut out: Vec<char> = Vec::new();
    let mut count: usize = 0;
    let mut i: usize = 0;
    assert(pv.take(0) =~= Seq::<Seq<char>>::empty());
    while i < pieces.len()
        invariant
            i <= pieces@.len(),
            pv == pieces@.map_values(|v: Vec<char>| v@),
            count == nonempty_pieces(pv.take(i as int)).len(),
            count <= i,
            out@ == joined_words(nonempty_pieces(pv.take(i as int))),
        decreases pieces@.len() - i,
    {
        assert(pv.take(i + 1).drop_last() =~= pv.take(i as int));
        assert(pv.take(i + 1).last() == pieces@[i as int]@);
        let piece = &pieces[i];
        if piece.len() > 0 {
            if count > 0 {
                out.push(' ');
            }
            let upper = char_to_uppercase(piece[0]);
            append_chars(&mut out, upper.as_slice());
            let rest = slice_chars(piece.as_slice(), 1, piece.len());
            append_chars(&mut out, rest.as_slice());
            proof {
                let ws = nonempty_pieces(pv.take(i + 1));
                assert(ws == nonempty_pieces(pv.take(i as int)).push(piece@));
                assert(rest@ =~= piece@.drop_first());
                if count == 0 {
                    assert(ws.len() == 1);
                    assert(out@ =~= capitalized(piece@));
                } else {
                    assert(ws.drop_last() =~= nonempty_pieces(pv.take(i as int)));
                }
            }
            count = count + 1;
        }
        i = i + 1;
    }
    assert(pv.take(pieces@.len() as int) =~= pv);
    string_from_chars(out.as_slice())
}

/// The first statistic stored under the category and key.
pub open spec fn lookup(entries: Seq<StatEntry>, category: Seq<char>, key: Seq<char>) -> Option<StatEntry>
    decreases entries.len(),
{
    if entries.len() == 0 {
        None
    } else if entries[0].category@ == category && entries[0].key@ == key {
        Some(entries[0])
    } else {
        lookup(entries.drop_first(), category, key)
    }
}

/// A statistic the profile names: its key, its label and its unit.
#[derive(Clone, Copy, Debug)]
pub struct StatKey {
    pub key: &'static str,
    pub label: &'static str,
    pub unit: StatisticUnit,
}

/// The named `minecraft:custom` statistics that were recorded, in the order asked.
pub open spec fn selected_spec(entries: Seq<StatEntry>, keys: Seq<StatKey>) -> Seq<StatView>
    decreases keys.len(),
{
    if keys.len() == 0 {
        Seq::empty()
    } else {
        let prev = selected_spec(entries, keys.drop_last());
        let k = keys.last();
        match lookup(entries, "minecraft:custom"@, k.key@) {
            Some(e) => prev.push(
                StatView {
                    id: k.key@,
                    label: k.label@,
                    value: e.value,
                    unit: k.unit,
                    source_worlds: e.source_worlds,
                },
            ),
            None => prev,
        }
    }
}

fn lookup_exec(entries: &Vec<StatEntry>, category: &str, key: &str) -> (r: Option<usize>)
    ensures
        match r {
            Some(i) => i < entries@.len() && lookup(entries@, category@, key@) == Some(entries@[i as int]),
            None => lookup(entries@, category@, key@) is None,
        },
{
    let mut i: usize = 0;
    assert(entries@.skip(0) =~= entries@);
    while i < entries.len()
        invariant
            i <= entries@.len(),
            lookup(entries@, category@, key@) == lookup(entries@.skip(i as int), category@, key@),
        decreases entries@.len() - i,
    {
        assert(entries@.skip(i as int)[0] == entries@[i as int]);
        assert(entries@.skip(i as int).drop_first() =~= entries@.skip(i + 1));
        if str_eq(entries[i].category.as_str(), category) && str_eq(entries[i].key.as_str(), key) {
            return Some(i);
        }
        i = i + 1;
    }
    None
}

fn owned(s: &str) -> (r: String)
    ensures
        r@ == s@,
{
    let c = chars_of(s);
    string_from_chars(c.as_slice())
}

pub fn selected_custom_stats(stats: &StatMap, keys: &[StatKey]) -> (r: Vec<ProfileStatistic>)
    ensures
        stat_views(r@) == selected_spec(stats.entries@, keys@),
{
    let mut r: Vec<ProfileStatistic> = Vec::new();
    let mut i: usize = 0;
    assert(keys@.take(0) =~= Seq::<StatKey>::empty());
    while i < keys.len()
        invariant
            i <= keys@.len(),
            stat_views(r@) == selected_spec(stats.entries@, keys@.take(i as int)),
        decreases keys@.len() - i,
    {
        assert(keys@.take(i + 1).drop_last() =~= keys@.take(i as int));
        assert(keys@.take(i + 1).last() == keys@[i as int]);
        let k = keys[i];
        match lookup_exec(&stats.entries, "minecraft:custom", k.key) {
            Some(j) => {
                let e = &stats.entries[j];
                let ghost before = stat_views(r@);
                r.push(
                    ProfileStatistic {
                        id: owned(k.key),
                        label: owned(k.label),
                        value: e.value,
                        unit: k.unit,
                        source_worlds: e.source_worlds,
                    },
                );
                assert(stat_views(r@) =~= before.push(stat_view(r@.last())));
            },
            None => {},
        }
        i = i + 1;
    }
    assert(keys@.take(keys@.len() as int) =~= keys@);
    r
}

/// Statistic `a` is listed no later than `b`: a larger value first, then the smaller label.
pub open spec fn listed_no_later(a: StatView, b: StatView) -> bool {
    a.value > b.value || (a.value == b.value && !lex_lt(b.label, a.label))
}

pub open spec fn insert_listed(s: Seq<StatView>, x: StatView) -> Seq<StatView>
    decreases s.len(),
{
    if s.len() == 0 {
        seq![x]
    } else if listed_no_later(s.last(), x) {
        s.push(x)
    } else {
        insert_listed(s.drop_last(), x).push(s.last())
    }
}

/// The statistics of a category as listed, before the limit: in key order,
/// then stably sorted by value, largest first, and label.
pub open spec fn category_listing(entries: Seq<StatEntry>, category: Seq<char>) -> Seq<StatView>
    decreases entries.len(),
{
    if entries.len() == 0 {
        Seq::empty()
    } else {
        let prev = category_listing(entries.drop_last(), category);
        let e = entries.last();
        if e.category@ == category {
            insert_listed(
                prev,
                StatView {
                    id: category + seq![':'] + e.key@,
                    label: humanize_spec(e.key@),
                    value: e.value,
                    unit: StatisticUnit::Count,
                    source_worlds: e.source_worlds,
                },
            )
        } else {
            prev
        }
    }
}

pub open spec fn top_category_spec(entries: Seq<StatEntry>, category: Seq<char>, limit: nat) -> Seq<StatView> {
    let all = category_listing(entries, category);
    if all.len() > limit {
        all.take(limit as int)
    } else {
        all
    }
}

fn listed_no_later_exec(a: &ProfileStatistic, b: &ProfileStatistic) -> (r: bool)
    ensures
        r == listed_no_later(stat_view(*a), stat_view(*b)),
{
    a.value > b.value || (a.value == b.value && !string_lt(&b.label, &a.label))
}

fn insert_listed_exec(v: &mut Vec<ProfileStatistic>, x: ProfileStatistic)
    ensures
        stat_views(final(v)@) == insert_listed(stat_views(old(v)@), stat_view(x)),
{
    let ghost s = stat_views(v@);
    let ghost xv = stat_view(x);
    let mut j: usize = v.len();
    assert(s.take(j as int) =~= s);
    assert(insert_listed(s, xv) =~= insert_listed(s.take(j as int), xv) + s.skip(j as int));
    while j > 0 && !listed_no_later_exec(&v[j - 1], &x)
        invariant
            j <= s.len(),
            s == stat_views(v@),
            v@ == old(v)@,
            xv == stat_view(x),
            insert_listed(s, xv) == insert_listed(s.take(j as int), xv) + s.skip(j as int),
        decreases j,
    {
        proof {
            let t = s.take(j as int);
            assert(t.last() == s[j - 1]);
            assert(t.drop_last() =~= s.take(j - 1));
            assert(seq![s[j - 1]] + s.skip(j as int) =~= s.skip(j - 1));
            assert(insert_listed(t, xv) == insert_listed(s.take(j - 1), xv).push(s[j - 1]));
            assert(insert_listed(s.take(j - 1), xv).push(s[j - 1]) + s.skip(j as int)
                =~= insert_listed(s.take(j - 1), xv) + s.skip(j - 1));
        }
        j = j - 1;
    }
    proof {
        let t = s.take(j as int);
        if j == 0 {
            assert(t =~= Seq::<StatView>::empty());
        } else {
            assert(t.last() == s[j - 1]);
        }
        assert(insert_listed(t, xv) =~= t.push(xv));
    }
    v.insert(j, x);
    assert(stat_views(v@) =~= s.take(j as int).push(xv) + s.skip(j as int));
}

/// The `limit` largest statistics of a category, labelled from their keys.
pub fn top_category(stats: &StatMap, category: &str, limit: usize) -> (r: Vec<ProfileStatistic>)
    ensures
        stat_views(r@) == top_category_spec(stats.entries@, category@, limit as nat),
{
    let mut items: Vec<ProfileStatistic> = Vec::new();
    let mut i: usize = 0;
    let ghost es = stats.entries@;
    assert(es.take(0) =~= Seq::<StatEntry>::empty());
    while i < stats.entries.len()
        invariant
            i <= es.len(),
            es == stats.entries@,
            stat_views(items@) == category_listing(es.take(i as int), category@),
        decreases es.len() - i,
    {
        assert(es.take(i + 1).drop_last() =~= es.take(i as int));
        assert(es.take(i + 1).last() == es[i as int]);
        let e = &stats.entries[i];
        if str_eq(e.category.as_str(), category) {
            let mut id = chars_of(category);
            id.push(':');
            let key = chars_of(e.key.as_str());
            append_chars(&mut id, key.as_slice());
            assert(id@ =~= category@ + seq![':'] + e.key@);
            let item = ProfileStatistic {
                id: string_from_chars(id.as_slice()),
                label: humanize_identifier(e.key.as_str()),
                value: e.value,
                unit: StatisticUnit::Count,
                source_worlds: e.source_worlds,
            };
            proof {
                assert(stat_view(item) == (StatView {
                    id: category@ + seq![':'] + es[i as int].key@,
                    label: humanize_spec(es[i as int].key@),
                    value: es[i as int].value,
                    unit: StatisticUnit::Count,
                    source_worlds: es[i as int].source_worlds,
                }));
            }
            insert_listed_exec(&mut items, item);
        }
        i = i + 1;
    }
    assert(es.take(es.len() as int) =~= es);
    if items.len() > limit {
        let mut kept: Vec<ProfileStatistic> = Vec::new();
        let mut k: usize = 0;
        while k < limit
            invariant
                k <= limit < items@.len(),
                stat_views(kept@) == stat_views(items@).take(k as int),
            decreases limit - k,
        {
            let s = &items[k];
            kept.push(
                ProfileStatistic {
                    id: s.id.clone(),
                    label: s.label.clone(),
                    value: s.value,
                    unit: s.unit,
                    source_worlds: s.source_worlds,
                },
            );
            assert(stat_views(items@).take(k + 1) =~= stat_views(items@).take(k as int).push(
                stat_view(items@[k as int]),
            ));
            assert(stat_views(kept@) =~= stat_views(items@).take(k + 1));
            k = k + 1;
        }
        return kept;
    }
    items
}

pub struct SectionView {
    pub id: Seq<char>,
    pub label: Seq<char>,
    pub items: Seq<StatView>,
}

pub open spec fn section_views(v: Seq<ProfileStatisticSection>) -> Seq<SectionView> {
    v.map_values(|s: ProfileStatisticSection| SectionView { id: s.id@, label: s.label@, items: stat_views(s.items@) })
}

pub open spec fn section_if(id: Seq<char>, label: Seq<char>, items: Seq<StatView>) -> Seq<SectionView> {
    if items.len() > 0 {
        seq![SectionView { id, label, items }]
    } else {
        Seq::empty()
    }
}

/// The profile's sections: general and movement statistics by name, then the
/// twelve largest mined, crafted, used and defeated entries; empty sections are left out.
pub open spec fn sections_spec(entries: Seq<StatEntry>, general: Seq<StatKey>, movement: Seq<StatKey>) -> Seq<SectionView> {
    section_if("general"@, "General"@, selected_spec(entries, general))
        + section_if("movement"@, "Movement"@, selected_spec(entries, movement))
        + section_if("mined"@, "Top blocks mined"@, top_category_spec(entries, "minecraft:mined"@, 12))
        + section_if("crafted"@, "Top items crafted"@, top_category_spec(entries, "minecraft:crafted"@, 12))
        + section_if("used"@, "Top items used"@, top_category_spec(entries, "minecraft:used"@, 12))
        + section_if("mobs"@, "Top mobs defeated"@, top_category_spec(entries, "minecraft:killed"@, 12))
}

fn push_section(sections: &mut Vec<ProfileStatisticSection>, id: &str, label: &str, items: Vec<ProfileStatistic>)
    ensures
        section_views(final(sections)@) == section_views(old(sections)@) + section_if(id@, label@, stat_views(items@)),
{
    if items.len() > 0 {
        let ghost iv = stat_views(items@);
        sections.push(ProfileStatisticSection { id: owned(id), label: owned(label), items });
        assert(section_views(sections@) =~= section_views(old(sections)@) + seq![
            SectionView { id: id@, label: label@, items: iv },
        ]);
    } else {
        assert(section_views(sections@) =~= section_views(old(sections)@) + Seq::<SectionView>::empty());
    }
}

/// The statistics named in the general section, in order.
pub open spec fn general_keys_spec() -> Seq<StatKey> {
    seq![
        StatKey { key: "minecraft:play_time", label: "Time played", unit: StatisticUnit::Ticks },
        StatKey { key: "minecraft:deaths", label: "Deaths", unit: StatisticUnit::Count },
        StatKey { key: "minecraft:damage_dealt", label: "Damage dealt", unit: StatisticUnit::Tenths },
        StatKey { key: "minecraft:damage_taken", label: "Damage taken", unit: StatisticUnit::Tenths },
        StatKey { key: "minecraft:mob_kills", label: "Mobs defeated", unit: StatisticUnit::Count },
        StatKey { key: "minecraft:player_kills", label: "Players defeated", unit: StatisticUnit::Count },
        StatKey { key: "minecraft:jump", label: "Jumps", unit: StatisticUnit::Count },
        StatKey { key: "minecraft:sleep_in_bed", label: "Times slept", unit: StatisticUnit::Count },
        StatKey { key: "minecraft:animals_bred", label: "Animals bred", unit: StatisticUnit::Count },
        StatKey { key: "minecraft:fish_caught", label: "Fish caught", unit: StatisticUnit::Count },
        StatKey { key: "minecraft:raid_win", label: "Raids won", unit: StatisticUnit::Count },
        StatKey { key: "minecraft:interact_with_villager", label: "Villager interactions", unit: StatisticUnit::Count },
        StatKey { key: "minecraft:open_chest", label: "Chests opened", unit: StatisticUnit::Count },
    ]
}

/// The distances named in the movement section, in order.
pub open spec fn movement_keys_spec() -> Seq<StatKey> {
    seq![
        StatKey { key: "minecraft:walk_one_cm", label: "Walked", unit: StatisticUnit::Centimeters },
        StatKey { key: "minecraft:sprint_one_cm", label: "Sprinted", unit: StatisticUnit::Centimeters },
        StatKey { key: "minecraft:crouch_one_cm", label: "Crouched", unit: StatisticUnit::Centimeters },
        StatKey { key: "minecraft:swim_one_cm", label: "Swam", unit: StatisticUnit::Centimeters },
        StatKey { key: "minecraft:fly_one_cm", label: "Flown", unit: StatisticUnit::Centimeters },
        StatKey { key: "minecraft:aviate_one_cm", label: "Elytra distance", unit: StatisticUnit::Centimeters },
        StatKey { key: "minecraft:boat_one_cm", label: "By boat", unit: StatisticUnit::Centimeters },
        StatKey { key: "minecraft:minecart_one_cm", label: "By minecart", unit: StatisticUnit::Centimeters },
    ]
}

/// The statistics named in the general section, in order.
pub fn general_keys() -> (r: Vec<StatKey>)
    ensures
        r@ == general_keys_spec(),
{
    let mut v: Vec<StatKey> = Vec::new();
    v.push(StatKey { key: "minecraft:play_time", label: "Time played", unit: StatisticUnit::Ticks });
    v.push(StatKey { key: "minecraft:deaths", label: "Deaths", unit: StatisticUnit::Count });
    v.push(StatKey { key: "minecraft:damage_dealt", label: "Damage dealt", unit: StatisticUnit::Tenths });
    v.push(StatKey { key: "minecraft:damage_taken", label: "Damage taken", unit: StatisticUnit::Tenths });
    v.push(StatKey { key: "minecraft:mob_kills", label: "Mobs defeated", unit: StatisticUnit::Count });
    v.push(StatKey { key: "minecraft:player_kills", label: "Players defeated", unit: StatisticUnit::Count });
    v.push(StatKey { key: "minecraft:jump", label: "Jumps", unit: StatisticUnit::Count });
    v.push(StatKey { key: "minecraft:sleep_in_bed", label: "Times slept", unit: StatisticUnit::Count });
    v.push(StatKey { key: "minecraft:animals_bred", label: "Animals bred", unit: StatisticUnit::Count });
    v.push(StatKey { key: "minecraft:fish_caught", label: "Fish caught", unit: StatisticUnit::Count });
    v.push(StatKey { key: "minecraft:raid_win", label: "Raids won", unit: StatisticUnit::Count });
    v.push(StatKey { key: "minecraft:interact_with_villager", label: "Villager interactions", unit: StatisticUnit::Count });
    v.push(StatKey { key: "minecraft:open_chest", label: "Chests opened", unit: StatisticUnit::Count });
    assert(v@ =~= general_keys_spec());
    v
}

/// The distances named in the movement section, in order.
pub fn movement_keys() -> (r: Vec<StatKey>)
    ensures
        r@ == movement_keys_spec(),
{
    let mut v: Vec<StatKey> = Vec::new();
    v.push(StatKey { key: "minecraft:walk_one_cm", label: "Walked", unit: StatisticUnit::Centimeters });
    v.push(StatKey { key: "minecraft:sprint_one_cm", label: "Sprinted", unit: StatisticUnit::Centimeters });
    v.push(StatKey { key: "minecraft:crouch_one_cm", label: "Crouched", unit: StatisticUnit::Centimeters });
    v.push(StatKey { key: "minecraft:swim_one_cm", label: "Swam", unit: StatisticUnit::Centimeters });
    v.push(StatKey { key: "minecraft:fly_one_cm", label: "Flown", unit: StatisticUnit::Centimeters });
    v.push(StatKey { key: "minecraft:aviate_one_cm", label: "Elytra distance", unit: StatisticUnit::Centimeters });
    v.push(StatKey { key: "minecraft:boat_one_cm", label: "By boat", unit: StatisticUnit::Centimeters });
    v.push(StatKey { key: "minecraft:minecart_one_cm", label: "By minecart", unit: StatisticUnit::Centimeters });
    assert(v@ =~= movement_keys_spec());
    v
}

pub fn build_statistic_sections(stats: &StatMap) -> (r: Vec<ProfileStatisticSection>)
    ensures
        section_views(r@) == sections_spec(stats.entries@, general_keys_spec(), movement_keys_spec()),
{
    let general = general_keys();
    let movement = movement_keys();
    let mut sections: Vec<ProfileStatisticSection> = Vec::new();
    assert(section_views(sections@) =~= Seq::<SectionView>::empty());
    push_section(&mut sections, "general", "General", selected_custom_stats(stats, general.as_slice()));
    push_section(&mut sections, "movement", "Movement", selected_custom_stats(stats, movement.as_slice()));
    push_section(&mut sections, "mined", "Top blocks mined", top_category(stats, "minecraft:mined", 12));
    push_section(&mut sections, "crafted", "Top items crafted", top_category(stats, "minecraft:crafted", 12));
    push_section(&mut sections, "used", "Top items used", top_category(stats, "minecraft:used", 12));
    push_section(&mut sections, "mobs", "Top mobs defeated", top_category(stats, "minecraft:killed", 12));
    assert(section_views(sections@) == sections_spec(stats.entries@, general@, movement@));
    sections
}

} // verus!
