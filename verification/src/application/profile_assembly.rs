//! Putting the player profile together from what was found on disk and in
//! the archive: identities shown, backups listed, a handful of statistics
//! drawn, worlds counted, and the limitations the profile states.

use vstd::prelude::*;

use crate::application::profile_accounts::{identity_views, AccountIdentity, IdentityView};
use crate::application::profile_service::{
    display_uuid, display_uuid_spec, named_value, named_value_spec, LauncherUsage, ProfileIdentity,
    ProfileStatistic, ProfileStatisticSection, ProfileSummary, ProfileWorld, SkinAsset, StatisticsBasis,
    WorldAvailability, WorldBackup,
};
use crate::application::profile_stats::{section_views, stat_view, stat_views, SectionView, StatView};
use crate::application::profile_worlds::{
    choose_random_stats, insert_by_shuffle, shuffle_key, shuffled, stable_id, stable_id_spec, str_views,
    BackupCandidate,
};
use crate::application::read_models::{DashboardTotals, TopMetrics};
use crate::application::profile_service::{png_dimensions, png_dimensions_spec};
use crate::application::scan_worker::concat3;
use crate::encoding::{base64_encode, base64_of};
use crate::application::scan_service::bytes_lt;
use crate::parser::minecraft_log::opt_view;
use crate::parser::session_reconstruction::{lex_lt, string_lt};
use crate::text::{
    chars_of, slice_chars, split_chars, split_parts, starts_with, starts_with_chars, string_from_chars,
    trim_by, trim_chars, trim_ws, TrimSet,
};

verus! {

// ---------------------------------------------------------------------------
// Backups

pub struct BackupView {
    pub path: Seq<char>,
    pub name: Seq<char>,
    pub instance: Seq<char>,
}

pub open spec fn backup_view(b: BackupCandidate) -> BackupView {
    BackupView { path: b.path@, name: b.name@, instance: b.instance@ }
}

pub open spec fn backup_views(v: Seq<BackupCandidate>) -> Seq<BackupView> {
    v.map_values(|b: BackupCandidate| backup_view(b))
}

pub open spec fn insert_backup(s: Seq<BackupView>, x: BackupView) -> Seq<BackupView>
    decreases s.len(),
{
    if s.len() == 0 {
        seq![x]
    } else if lex_lt(s.last().name, x.name) {
        insert_backup(s.drop_last(), x).push(s.last())
    } else {
        s.push(x)
    }
}

/// Backups by name, last name first; equal names keep their order.
pub open spec fn sort_backups_spec(s: Seq<BackupView>) -> Seq<BackupView>
    decreases s.len(),
{
    if s.len() == 0 {
        Seq::empty()
    } else {
        insert_backup(sort_backups_spec(s.drop_last()), s.last())
    }
}

proof fn lemma_views_drop_first(v: Seq<BackupCandidate>)
    requires
        v.len() > 0,
    ensures
        backup_views(v.drop_first()) == backup_views(v).drop_first(),
{
    assert(backup_views(v.drop_first()) =~= backup_views(v).drop_first());
}

/// Orders backups by name, last name first (dated backup names put the
/// newest first).
pub fn sort_backups(backups: Vec<BackupCandidate>) -> (r: Vec<BackupCandidate>)
    ensures
        backup_views(r@) == sort_backups_spec(backup_views(backups@)),
{
    let ghost all = backup_views(backups@);
    let count = backups.len();
    assert(all.len() == count);
    let mut rest = backups;
    let mut sorted: Vec<BackupCandidate> = Vec::new();
    let mut done: usize = 0;
    assert(all.take(0) =~= Seq::<BackupView>::empty());
    assert(backup_views(rest@) =~= all.skip(0));
    assert(backup_views(sorted@) =~= Seq::<BackupView>::empty());
    while rest.len() > 0
        invariant
            done <= all.len(),
            all.len() <= usize::MAX,
            backup_views(rest@) == all.skip(done as int),
            backup_views(sorted@) == sort_backups_spec(all.take(done as int)),
        decreases rest@.len(),
    {
        assert(backup_views(rest@).len() == rest@.len());
        assert(all.skip(done as int).len() == all.len() - done);
        assert(backup_views(rest@)[0] == backup_view(rest@[0]));
        assert(all.skip(done as int)[0] == all[done as int]);
        let ghost old_rest = rest@;
        let x = rest.remove(0);
        proof {
            lemma_views_drop_first(old_rest);
            assert(rest@ =~= old_rest.drop_first());
            assert(all.skip(done as int).drop_first() =~= all.skip(done + 1));
            assert(all.take(done + 1).drop_last() =~= all.take(done as int));
        }
        let ghost s = backup_views(sorted@);
        let mut pos: usize = sorted.len();
        assert(s.take(pos as int) =~= s);
        assert(s.skip(pos as int) =~= Seq::<BackupView>::empty());
        assert(insert_backup(s, backup_view(x)) =~= insert_backup(s.take(pos as int), backup_view(x)) + s.skip(
            pos as int,
        ));
        while pos > 0 && string_lt(&sorted[pos - 1].name, &x.name)
            invariant
                pos <= sorted@.len(),
                s == backup_views(sorted@),
                insert_backup(s, backup_view(x)) == insert_backup(s.take(pos as int), backup_view(x)) + s.skip(
                    pos as int,
                ),
            decreases pos,
        {
            proof {
                assert(backup_view(sorted@[pos - 1]) == s[pos - 1]);
                let t = s.take(pos as int);
                assert(t.drop_last() =~= s.take(pos - 1));
                assert(t.last() == s[pos - 1]);
                assert(s.skip(pos - 1) =~= seq![s[pos - 1]] + s.skip(pos as int));
                assert(insert_backup(s.take(pos - 1), backup_view(x)).push(s[pos - 1]) + s.skip(pos as int)
                    =~= insert_backup(s.take(pos - 1), backup_view(x)) + s.skip(pos - 1));
            }
            pos -= 1;
        }
        proof {
            if pos == 0 {
                assert(s.take(0) =~= Seq::<BackupView>::empty());
            } else {
                assert(backup_view(sorted@[pos - 1]) == s[pos - 1]);
                assert(s.take(pos as int).last() == s[pos - 1]);
            }
            assert(insert_backup(s, backup_view(x)) =~= s.take(pos as int) + seq![backup_view(x)] + s.skip(
                pos as int,
            ));
        }
        let ghost xv = backup_view(x);
        sorted.insert(pos, x);
        assert(backup_views(sorted@) =~= s.take(pos as int) + seq![xv] + s.skip(pos as int));
        done += 1;
    }
    assert(all.take(done as int) =~= all);
    sorted
}

/// The listed form of a backup: its id is the stable id of its instance and
/// name; its size and modification time are what the file system reported.
pub fn world_backup(candidate: BackupCandidate, size_bytes: u64, modified_at: Option<String>) -> (r: WorldBackup)
    ensures
        r.id@ == stable_id_spec("backup"@, seq![candidate.instance@, candidate.name@]),
        r.name@ == candidate.name@,
        r.instance@ == candidate.instance@,
        r.size_bytes == size_bytes,
        r.modified_at == modified_at,
{
    let mut values: Vec<&str> = Vec::new();
    values.push(candidate.instance.as_str());
    values.push(candidate.name.as_str());
    assert(str_views(values@) =~= seq![candidate.instance@, candidate.name@]);
    let id = stable_id("backup", &values);
    proof {
        reveal_strlit("backup");
    }
    WorldBackup { id, name: candidate.name, instance: candidate.instance, size_bytes, modified_at }
}

// ---------------------------------------------------------------------------
// Instance names

/// The name an `instance.cfg` gives: the trimmed value of its first
/// `name=` line that is not blank.
pub open spec fn cfg_name_from(lines: Seq<Seq<char>>) -> Option<Seq<char>>
    decreases lines.len(),
{
    if lines.len() == 0 {
        None
    } else {
        let line = lines[0];
        if starts_with(line, "name="@) && trim_ws(line.skip(5)).len() > 0 {
            Some(trim_ws(line.skip(5)))
        } else {
            cfg_name_from(lines.drop_first())
        }
    }
}

pub open spec fn instance_name_spec(text: Seq<char>) -> Option<Seq<char>> {
    cfg_name_from(split_parts(text, '\n'))
}

/// Reads an instance's display name out of the text of its `instance.cfg`.
pub fn instance_name_from_cfg(text: &str) -> (r: Option<String>)
    ensures
        opt_view(r) == instance_name_spec(text@),
{
    let chars = chars_of(text);
    let lines = split_chars(chars.as_slice(), '\n');
    let ghost ls = lines@.map_values(|v: Vec<char>| v@);
    let prefix = chars_of("name=");
    proof {
        reveal_strlit("name=");
    }
    let mut i: usize = 0;
    assert(ls.skip(0) =~= ls);
    while i < lines.len()
        invariant
            i <= lines@.len(),
            ls == lines@.map_values(|v: Vec<char>| v@),
            ls == split_parts(text@, '\n'),
            prefix@ == "name="@,
            prefix@.len() == 5,
            cfg_name_from(ls.skip(i as int)) == cfg_name_from(ls),
        decreases lines@.len() - i,
    {
        let line = &lines[i];
        assert(ls.skip(i as int)[0] == line@);
        assert(ls.skip(i as int).drop_first() =~= ls.skip(i + 1));
        if starts_with_chars(line.as_slice(), prefix.as_slice()) {
            assert(prefix@.len() == 5);
            assert(line@.len() >= 5);
            let rest = slice_chars(line.as_slice(), 5, line.len());
            assert(rest@ =~= line@.skip(5));
            let t = trim_chars(rest.as_slice(), TrimSet::Whitespace);
            proof {
                assert(trim_by(rest@, TrimSet::Whitespace) == trim_ws(rest@));
            }
            if t.len() > 0 {
                return Some(string_from_chars(t.as_slice()));
            }
        }
        i += 1;
    }
    assert(ls.skip(lines@.len() as int) =~= Seq::<Seq<char>>::empty());
    None
}

// ---------------------------------------------------------------------------
// Skins

/// Whether an image of these dimensions is a Minecraft skin: 64 wide, and 32
/// (classic) or 64 high.
pub open spec fn skin_sized(width: u32, height: u32) -> bool {
    width == 64 && (height == 32 || height == 64)
}

/// The skin a cached texture file gives, unless it is not a PNG of skin size.
pub fn skin_from_bytes(hash: &str, bytes: &[u8], observed_at: Option<String>, source: &str) -> (r: Option<SkinAsset>)
    ensures
        match png_dimensions_spec(bytes@) {
            Some((w, h)) => if skin_sized(w, h) {
                r is Some && r.unwrap().id@ == stable_id_spec("skin"@, seq![hash@]) && r.unwrap().data_url@
                    == "data:image/png;base64,"@ + base64_of(bytes@) && r.unwrap().observed_at == observed_at
                    && r.unwrap().source@ == source@ && r.unwrap().width == w && r.unwrap().height == h
            } else {
                r is None
            },
            None => r is None,
        },
{
    let (width, height) = match png_dimensions(bytes) {
        Some(d) => d,
        None => return None,
    };
    if width != 64 || !(height == 32 || height == 64) {
        return None;
    }
    let mut values: Vec<&str> = Vec::new();
    values.push(hash);
    assert(str_views(values@) =~= seq![hash@]);
    let id = stable_id("skin", &values);
    let encoded = base64_encode(bytes);
    let data_url = concat3("data:image/png;base64,", encoded.as_str(), "");
    proof {
        reveal_strlit("skin");
        reveal_strlit("");
        assert(data_url@ =~= "data:image/png;base64,"@ + base64_of(bytes@));
    }
    Some(SkinAsset { id, data_url, observed_at, source: source.to_owned(), width, height })
}

// ---------------------------------------------------------------------------
// Identities

pub struct ShownIdentity {
    pub name: Seq<char>,
    pub uuid: Option<Seq<char>>,
    pub source: Seq<char>,
    pub active: bool,
}

pub open spec fn shown_identity(p: ProfileIdentity) -> ShownIdentity {
    ShownIdentity { name: p.name@, uuid: opt_view(p.uuid), source: p.source@, active: p.active }
}

pub open spec fn shown_identities(v: Seq<ProfileIdentity>) -> Seq<ShownIdentity> {
    v.map_values(|p: ProfileIdentity| shown_identity(p))
}

/// An account as the profile shows it: its UUID in the dashed form.
pub open spec fn shown_from_account(a: IdentityView) -> ShownIdentity {
    ShownIdentity {
        name: a.name,
        uuid: match a.uuid {
            Some(u) => Some(display_uuid_spec(u)),
            None => None,
        },
        source: a.source,
        active: a.active,
    }
}

pub open spec fn shown_from_accounts(v: Seq<IdentityView>) -> Seq<ShownIdentity> {
    v.map_values(|a: IdentityView| shown_from_account(a))
}

fn show_account(a: &AccountIdentity) -> (r: ProfileIdentity)
    ensures
        shown_identity(r) == shown_from_account(a@),
{
    ProfileIdentity {
        name: a.name.clone(),
        uuid: match &a.uuid {
            Some(u) => Some(display_uuid(u.as_str())),
            None => None,
        },
        source: a.source.clone(),
        active: a.active,
    }
}

/// The identities the profile shows, in account order.
pub fn profile_identities(accounts: &Vec<AccountIdentity>) -> (r: Vec<ProfileIdentity>)
    ensures
        shown_identities(r@) == shown_from_accounts(identity_views(accounts@)),
{
    let ghost target = shown_from_accounts(identity_views(accounts@));
    let mut r: Vec<ProfileIdentity> = Vec::new();
    let mut i: usize = 0;
    while i < accounts.len()
        invariant
            i <= accounts@.len(),
            target == shown_from_accounts(identity_views(accounts@)),
            shown_identities(r@) == target.take(i as int),
        decreases accounts@.len() - i,
    {
        let p = show_account(&accounts[i]);
        let ghost before = shown_identities(r@);
        r.push(p);
        assert(shown_identities(r@) =~= before.push(shown_identity(p)));
        assert(target.take(i + 1) =~= target.take(i as int).push(target[i as int]));
        i += 1;
    }
    assert(target.take(accounts@.len() as int) =~= target);
    r
}

// ---------------------------------------------------------------------------
// Statistics drawn at random

/// The items of all sections, in order.
pub open spec fn flat_items(sections: Seq<SectionView>) -> Seq<StatView>
    decreases sections.len(),
{
    if sections.len() == 0 {
        Seq::empty()
    } else {
        flat_items(sections.drop_last()) + sections.last().items
    }
}

fn copy_statistic(s: &ProfileStatistic) -> (r: ProfileStatistic)
    ensures
        stat_view(r) == stat_view(*s),
{
    ProfileStatistic {
        id: s.id.clone(),
        label: s.label.clone(),
        value: s.value,
        unit: s.unit,
        source_worlds: s.source_worlds,
    }
}

/// Copies of the items of all sections, in order.
pub fn section_items(sections: &Vec<ProfileStatisticSection>) -> (r: Vec<ProfileStatistic>)
    ensures
        stat_views(r@) == flat_items(section_views(sections@)),
{
    let ghost secs = section_views(sections@);
    let mut r: Vec<ProfileStatistic> = Vec::new();
    let mut i: usize = 0;
    assert(secs.take(0) =~= Seq::<SectionView>::empty());
    assert(stat_views(r@) =~= Seq::<StatView>::empty());
    while i < sections.len()
        invariant
            i <= sections@.len(),
            secs == section_views(sections@),
            stat_views(r@) == flat_items(secs.take(i as int)),
        decreases sections@.len() - i,
    {
        assert(secs.take(i + 1).drop_last() =~= secs.take(i as int));
        assert(secs.take(i + 1).last() == secs[i as int]);
        let items = &sections[i].items;
        let ghost start = stat_views(r@);
        let mut j: usize = 0;
        while j < items.len()
            invariant
                j <= items@.len(),
                i < sections@.len(),
                items == &sections@[i as int].items,
                stat_views(r@) == start + stat_views(items@).take(j as int),
            decreases items@.len() - j,
        {
            let c = copy_statistic(&items[j]);
            let ghost before = stat_views(r@);
            r.push(c);
            assert(stat_views(r@) =~= before.push(stat_view(c)));
            assert(stat_views(items@).take(j + 1) =~= stat_views(items@).take(j as int).push(
                stat_view(items@[j as int]),
            ));
            j += 1;
        }
        assert(stat_views(items@).take(items@.len() as int) =~= stat_views(items@));
        assert(secs[i as int].items == stat_views(items@));
        i += 1;
    }
    assert(secs.take(sections@.len() as int) =~= secs);
    r
}

pub open spec fn insert_view_by_shuffle(s: Seq<StatView>, x: StatView, seed: u64) -> Seq<StatView>
    decreases s.len(),
{
    if s.len() == 0 {
        seq![x]
    } else if !bytes_lt(shuffle_key(seed, x.id), shuffle_key(seed, s.last().id)) {
        s.push(x)
    } else {
        insert_view_by_shuffle(s.drop_last(), x, seed).push(s.last())
    }
}

/// The statistics ordered by their seeded shuffle keys (a stable sort).
pub open spec fn shuffled_views(s: Seq<StatView>, seed: u64) -> Seq<StatView>
    decreases s.len(),
{
    if s.len() == 0 {
        Seq::empty()
    } else {
        insert_view_by_shuffle(shuffled_views(s.drop_last(), seed), s.last(), seed)
    }
}

proof fn lemma_insert_views(s: Seq<ProfileStatistic>, x: ProfileStatistic, seed: u64)
    ensures
        stat_views(insert_by_shuffle(s, x, seed)) == insert_view_by_shuffle(stat_views(s), stat_view(x), seed),
    decreases s.len(),
{
    if s.len() == 0 {
        assert(stat_views(seq![x]) =~= seq![stat_view(x)]);
    } else {
        assert(stat_views(s).drop_last() =~= stat_views(s.drop_last()));
        assert(stat_views(s).last() == stat_view(s.last()));
        if !bytes_lt(shuffle_key(seed, x.id@), shuffle_key(seed, s.last().id@)) {
            assert(stat_views(s.push(x)) =~= stat_views(s).push(stat_view(x)));
        } else {
            lemma_insert_views(s.drop_last(), x, seed);
            let inner = insert_by_shuffle(s.drop_last(), x, seed);
            assert(stat_views(inner.push(s.last())) =~= stat_views(inner).push(stat_view(s.last())));
        }
    }
}

proof fn lemma_shuffled_views(s: Seq<ProfileStatistic>, seed: u64)
    ensures
        stat_views(shuffled(s, seed)) == shuffled_views(stat_views(s), seed),
    decreases s.len(),
{
    if s.len() == 0 {
        assert(stat_views(Seq::<ProfileStatistic>::empty()) =~= Seq::<StatView>::empty());
    } else {
        lemma_shuffled_views(s.drop_last(), seed);
        assert(stat_views(s).drop_last() =~= stat_views(s.drop_last()));
        assert(stat_views(s).last() == stat_view(s.last()));
        lemma_insert_views(shuffled(s.drop_last(), seed), s.last(), seed);
    }
}

proof fn lemma_insert_len(s: Seq<ProfileStatistic>, x: ProfileStatistic, seed: u64)
    ensures
        insert_by_shuffle(s, x, seed).len() == s.len() + 1,
    decreases s.len(),
{
    if s.len() > 0 {
        lemma_insert_len(s.drop_last(), x, seed);
    }
}

proof fn lemma_shuffled_len(s: Seq<ProfileStatistic>, seed: u64)
    ensures
        shuffled(s, seed).len() == s.len(),
    decreases s.len(),
{
    if s.len() > 0 {
        lemma_shuffled_len(s.drop_last(), seed);
        lemma_insert_len(shuffled(s.drop_last(), seed), s.last(), seed);
    }
}

/// Up to four statistics of the sections, drawn by a shuffle seeded with
/// the number of sessions.
pub fn random_statistics(sections: &Vec<ProfileStatisticSection>, seed: u64) -> (r: Vec<ProfileStatistic>)
    ensures
        stat_views(r@) == shuffled_views(flat_items(section_views(sections@)), seed).take(
            vstd::math::min(4, flat_items(section_views(sections@)).len() as int),
        ),
{
    let items = section_items(sections);
    let ghost iv = items@;
    let r = choose_random_stats(items, seed);
    proof {
        lemma_shuffled_views(iv, seed);
        lemma_shuffled_len(iv, seed);
        assert(stat_views(iv).len() == iv.len());
        assert(stat_views(shuffled(iv, seed).take(vstd::math::min(4, iv.len() as int))) =~= stat_views(
            shuffled(iv, seed),
        ).take(vstd::math::min(4, iv.len() as int)));
    }
    r
}

// ---------------------------------------------------------------------------
// The profile

pub open spec fn count_worlds(worlds: Seq<ProfileWorld>, a: WorldAvailability) -> int
    decreases worlds.len(),
{
    if worlds.len() == 0 {
        0
    } else {
        count_worlds(worlds.drop_last(), a) + if worlds.last().availability == a {
            1int
        } else {
            0
        }
    }
}

proof fn lemma_count_bounded(worlds: Seq<ProfileWorld>, a: WorldAvailability)
    ensures
        0 <= count_worlds(worlds, a) <= worlds.len(),
    decreases worlds.len(),
{
    if worlds.len() > 0 {
        lemma_count_bounded(worlds.drop_last(), a);
    }
}

/// How many worlds have the given availability.
pub fn count_availability(worlds: &Vec<ProfileWorld>, a: WorldAvailability) -> (r: u64)
    ensures
        r == count_worlds(worlds@, a),
{
    let mut n: u64 = 0;
    let mut i: usize = 0;
    while i < worlds.len()
        invariant
            i <= worlds@.len(),
            n == count_worlds(worlds@.take(i as int), a),
        decreases worlds@.len() - i,
    {
        assert(worlds@.take(i + 1).drop_last() =~= worlds@.take(i as int));
        proof {
            lemma_count_bounded(worlds@.take(i + 1), a);
        }
        if worlds[i].availability == a {
            n = n + 1;
        }
        i += 1;
    }
    assert(worlds@.take(worlds@.len() as int) =~= worlds@);
    n
}

pub open spec fn statistics_limitation() -> Seq<char> {
    "In-game statistics come from local single-player world files; multiplayer servers usually keep their statistics server-side."@
}

pub open spec fn missing_save_limitation() -> Seq<char> {
    "A missing save may have been deleted, moved, renamed, or excluded from the approved scan locations."@
}

pub open spec fn skin_history_limitation() -> Seq<char> {
    "Skin history includes only textures tied to a detected account and still present in a local launcher cache."@
}

pub open spec fn anonymous_limitation() -> Seq<char> {
    "No local launcher account profile was found, so MineTrace is showing an anonymous local profile."@
}

pub open spec fn no_skin_limitation() -> Seq<char> {
    "The current account skin was not available in an attributable local cache."@
}

pub open spec fn limitations_spec(has_identity: bool, has_current_skin: bool) -> Seq<Seq<char>> {
    let base = seq![statistics_limitation(), missing_save_limitation(), skin_history_limitation()];
    let with_identity = if has_identity { base } else { base.push(anonymous_limitation()) };
    if has_current_skin { with_identity } else { with_identity.push(no_skin_limitation()) }
}

pub open spec fn limitation_texts(v: Seq<String>) -> Seq<Seq<char>> {
    v.map_values(|s: String| s@)
}

/// What the profile says it cannot show.
pub fn profile_limitations(has_identity: bool, has_current_skin: bool) -> (r: Vec<String>)
    ensures
        limitation_texts(r@) == limitations_spec(has_identity, has_current_skin),
{
    proof {
        reveal_strlit(
            "In-game statistics come from local single-player world files; multiplayer servers usually keep their statistics server-side.",
        );
        reveal_strlit(
            "A missing save may have been deleted, moved, renamed, or excluded from the approved scan locations.",
        );
        reveal_strlit(
            "Skin history includes only textures tied to a detected account and still present in a local launcher cache.",
        );
        reveal_strlit(
            "No local launcher account profile was found, so MineTrace is showing an anonymous local profile.",
        );
        reveal_strlit("The current account skin was not available in an attributable local cache.");
    }
    let mut r: Vec<String> = Vec::new();
    r.push(
        "In-game statistics come from local single-player world files; multiplayer servers usually keep their statistics server-side.".to_owned(),
    );
    r.push(
        "A missing save may have been deleted, moved, renamed, or excluded from the approved scan locations.".to_owned(),
    );
    r.push(
        "Skin history includes only textures tied to a detected account and still present in a local launcher cache.".to_owned(),
    );
    if !has_identity {
        r.push(
            "No local launcher account profile was found, so MineTrace is showing an anonymous local profile.".to_owned(),
        );
    }
    if !has_current_skin {
        r.push("The current account skin was not available in an attributable local cache.".to_owned());
    }
    assert(limitation_texts(r@) =~= limitations_spec(has_identity, has_current_skin));
    r
}

/// The player profile.
pub struct ProfileData {
    pub generated_at: String,
    pub identity: Option<ProfileIdentity>,
    pub identities: Vec<ProfileIdentity>,
    pub current_skin: Option<SkinAsset>,
    pub previous_skins: Vec<SkinAsset>,
    pub summary: ProfileSummary,
    pub random_stats: Vec<ProfileStatistic>,
    pub statistic_sections: Vec<ProfileStatisticSection>,
    pub statistics_basis: StatisticsBasis,
    pub launchers: Vec<LauncherUsage>,
    pub worlds: Vec<ProfileWorld>,
    pub backups: Vec<WorldBackup>,
    pub limitations: Vec<String>,
}

/// The statistics behind the profile's worlds.
pub struct WorldFindings {
    pub worlds: Vec<ProfileWorld>,
    pub statistic_sections: Vec<ProfileStatisticSection>,
    pub statistics_basis: StatisticsBasis,
    pub statistics_worlds: u64,
}

/// Puts the profile together: the first account is the profile's identity,
/// the dashboard gives the totals and the most played version and world, and
/// four statistics are drawn with the session count as seed.
pub fn assemble_profile(
    generated_at: String,
    accounts: &Vec<AccountIdentity>,
    skins: (Option<SkinAsset>, Vec<SkinAsset>),
    totals: &DashboardTotals,
    top: &TopMetrics,
    launchers: Vec<LauncherUsage>,
    findings: WorldFindings,
    backups: Vec<WorldBackup>,
) -> (r: ProfileData)
    ensures
        r.generated_at == generated_at,
        shown_identities(r.identities@) == shown_from_accounts(identity_views(accounts@)),
        accounts@.len() == 0 ==> r.identity is None,
        accounts@.len() > 0 ==> r.identity is Some && shown_identity(r.identity.unwrap()) == shown_from_account(
            accounts@[0]@,
        ),
        r.current_skin == skins.0,
        r.previous_skins == skins.1,
        r.summary.total_playtime_minutes == totals.playtime_minutes,
        r.summary.sessions == totals.sessions,
        r.summary.active_days == totals.active_days,
        opt_view(r.summary.most_played_version) == named_value_spec(top.version.name@),
        opt_view(r.summary.most_played_world) == named_value_spec(top.world.name@),
        r.summary.launcher_count == launchers@.len(),
        r.summary.available_worlds == count_worlds(findings.worlds@, WorldAvailability::Available),
        r.summary.missing_worlds == count_worlds(findings.worlds@, WorldAvailability::Missing),
        r.summary.backup_count == backups@.len(),
        r.summary.statistics_worlds == findings.statistics_worlds,
        stat_views(r.random_stats@) == shuffled_views(
            flat_items(section_views(findings.statistic_sections@)),
            totals.sessions,
        ).take(vstd::math::min(4, flat_items(section_views(findings.statistic_sections@)).len() as int)),
        r.statistic_sections == findings.statistic_sections,
        r.statistics_basis == findings.statistics_basis,
        r.launchers == launchers,
        r.worlds == findings.worlds,
        r.backups == backups,
        limitation_texts(r.limitations@) == limitations_spec(accounts@.len() > 0, skins.0 is Some),
{
    let identities = profile_identities(accounts);
    let identity = if accounts.len() > 0 {
        Some(show_account(&accounts[0]))
    } else {
        None
    };
    let random_stats = random_statistics(&findings.statistic_sections, totals.sessions);
    let available_worlds = count_availability(&findings.worlds, WorldAvailability::Available);
    let missing_worlds = count_availability(&findings.worlds, WorldAvailability::Missing);
    let limitations = profile_limitations(identity.is_some(), skins.0.is_some());
    let summary = ProfileSummary {
        total_playtime_minutes: totals.playtime_minutes,
        sessions: totals.sessions,
        active_days: totals.active_days,
        most_played_version: named_value(top.version.name.as_str()),
        most_played_world: named_value(top.world.name.as_str()),
        launcher_count: launchers.len() as u64,
        available_worlds,
        missing_worlds,
        backup_count: backups.len() as u64,
        statistics_worlds: findings.statistics_worlds,
    };
    let (current_skin, previous_skins) = skins;
    ProfileData {
        generated_at,
        identity,
        identities,
        current_skin,
        previous_skins,
        summary,
        random_stats,
        statistic_sections: findings.statistic_sections,
        statistics_basis: findings.statistics_basis,
        launchers,
        worlds: findings.worlds,
        backups,
        limitations,
    }
}

} // verus!
