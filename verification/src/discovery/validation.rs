//! Scoring of a directory from the marker files and folders found in it.
//!
//! The caller probes the file system; these functions decide, from what was
//! found, which kind of Minecraft directory it is and how sure that is.

use vstd::prelude::*;

use crate::domain::location::{report_supported, DirectoryKind, ValidationReport};
use crate::parser::session_reconstruction::{insert_sorted_unique, lex_lt};
use crate::text::str_eq;

verus! {

/// The most entries of a launcher's `instances` folder that validation reads.
pub const MAX_LAUNCHER_INSTANCE_ENTRIES: usize = 10_000;

/// Why validation stopped without a report.
#[derive(Clone, Copy, PartialEq, Eq, Debug, Structural)]
pub enum ValidationError {
    Cancelled,
    /// The `instances` folder holds more entries than the given limit.
    InstanceEntryLimit(usize),
}

pub open spec fn marker_views(v: Seq<&'static str>) -> Seq<Seq<char>> {
    v.map_values(|m: &'static str| m@)
}

/// The score after a marker of `weight` points: saturating, then capped at 100.
pub open spec fn score_step(score: u8, present: bool, weight: u8) -> u8 {
    if present {
        let s = if score + weight > 255 { 255 } else { score + weight };
        if s > 100 { 100 } else { s as u8 }
    } else {
        score
    }
}

pub open spec fn present_marker(present: bool, marker: Seq<char>) -> Seq<Seq<char>> {
    if present {
        seq![marker]
    } else {
        Seq::empty()
    }
}

/// Records a marker that was found: adds its weight to the score and its name to the list.
pub fn add_marker(
    present: bool,
    marker: &'static str,
    weight: u8,
    score: &mut u8,
    markers: &mut Vec<&'static str>,
)
    ensures
        *final(score) == score_step(*old(score), present, weight),
        marker_views(final(markers)@) == marker_views(old(markers)@) + present_marker(present, marker@),
{
    if present {
        let s = score.saturating_add(weight);
        *score = if s > 100 { 100 } else { s };
        markers.push(marker);
    }
    assert(marker_views(markers@) =~= marker_views(old(markers)@) + present_marker(present, marker@));
}

/// The report of a directory that is none of the known kinds.
pub fn unknown() -> (r: ValidationReport)
    ensures
        r.kind == DirectoryKind::Unknown,
        r.score == 0,
        r.instance_count == 0,
        r.markers@.len() == 0,
{
    ValidationReport { kind: DirectoryKind::Unknown, score: 0, instance_count: 0, markers: Vec::new() }
}

/// What a possible game directory holds.
#[derive(Clone, Copy, PartialEq, Eq, Debug, Structural)]
pub struct GameMarkers {
    pub logs_dir: bool,
    pub versions_dir: bool,
    pub saves_dir: bool,
    pub options_file: bool,
    pub launcher_profiles_file: bool,
    pub assets_dir: bool,
    pub libraries_dir: bool,
}

pub open spec fn game_score(m: GameMarkers) -> u8 {
    let s1 = score_step(0, m.logs_dir, 25);
    let s2 = score_step(s1, m.versions_dir, 18);
    let s3 = score_step(s2, m.saves_dir, 12);
    let s4 = score_step(s3, m.options_file, 18);
    let s5 = score_step(s4, m.launcher_profiles_file, 15);
    let s6 = score_step(s5, m.assets_dir, 8);
    score_step(s6, m.libraries_dir, 8)
}

pub open spec fn game_markers(m: GameMarkers) -> Seq<Seq<char>> {
    present_marker(m.logs_dir, "logs"@) + present_marker(m.versions_dir, "versions"@)
        + present_marker(m.saves_dir, "saves"@) + present_marker(m.options_file, "options.txt"@)
        + present_marker(m.launcher_profiles_file, "launcher_profiles.json"@) + present_marker(
        m.assets_dir,
        "assets"@,
    ) + present_marker(m.libraries_dir, "libraries"@)
}

/// A game directory needs two or more markers worth at least 30 points.
pub open spec fn game_kind(m: GameMarkers) -> DirectoryKind {
    if game_markers(m).len() >= 2 && game_score(m) >= 30 {
        DirectoryKind::GameDirectory
    } else {
        DirectoryKind::Unknown
    }
}

/// The report of a possible game directory.
pub fn inspect_game_directory(found: &GameMarkers) -> (r: ValidationReport)
    ensures
        r.kind == game_kind(*found),
        r.score == game_score(*found),
        r.instance_count == (if game_kind(*found) == DirectoryKind::GameDirectory { 1usize } else { 0usize }),
        marker_views(r.markers@) == game_markers(*found),
{
    let mut score: u8 = 0;
    let mut markers: Vec<&'static str> = Vec::new();
    assert(marker_views(markers@) =~= Seq::<Seq<char>>::empty());
    add_marker(found.logs_dir, "logs", 25, &mut score, &mut markers);
    add_marker(found.versions_dir, "versions", 18, &mut score, &mut markers);
    add_marker(found.saves_dir, "saves", 12, &mut score, &mut markers);
    add_marker(found.options_file, "options.txt", 18, &mut score, &mut markers);
    add_marker(found.launcher_profiles_file, "launcher_profiles.json", 15, &mut score, &mut markers);
    add_marker(found.assets_dir, "assets", 8, &mut score, &mut markers);
    add_marker(found.libraries_dir, "libraries", 8, &mut score, &mut markers);
    assert(marker_views(markers@) =~= game_markers(*found));
    assert(markers@.len() == marker_views(markers@).len());
    let kind = if markers.len() >= 2 && score >= 30 {
        DirectoryKind::GameDirectory
    } else {
        DirectoryKind::Unknown
    };
    let instance_count: usize = if kind == DirectoryKind::GameDirectory { 1 } else { 0 };
    ValidationReport { kind, score, instance_count, markers }
}

/// What a possible launcher root holds.
#[derive(Clone, Copy, PartialEq, Eq, Debug, Structural)]
pub struct LauncherMarkers {
    /// A child directory named `instances`, in any ASCII case.
    pub instances_dir: bool,
    pub prism_config: bool,
    pub multimc_config: bool,
}

pub open spec fn launcher_score(m: LauncherMarkers, instance_count: usize) -> u8 {
    let s1 = score_step(0, m.instances_dir, 25);
    let s2 = score_step(s1, m.prism_config, 30);
    let s3 = score_step(s2, m.multimc_config, 30);
    if instance_count > 0 {
        let a = if s3 + 25 > 255 { 255 } else { s3 + 25 };
        let bonus = (if instance_count < 4 { instance_count as int } else { 4 }) * 5;
        let b = if a + bonus > 255 { 255 } else { a + bonus };
        (if b > 100 { 100 } else { b }) as u8
    } else {
        s3
    }
}

pub open spec fn launcher_markers(m: LauncherMarkers, instance_count: usize) -> Seq<Seq<char>> {
    present_marker(m.instances_dir, "instances"@) + present_marker(m.prism_config, "prismlauncher.cfg"@)
        + present_marker(m.multimc_config, "multimc.cfg"@) + present_marker(
        instance_count > 0,
        "instance-game-directories"@,
    )
}

/// A launcher root has an `instances` folder, a launcher config or a counted
/// instance, and two or more markers.
pub open spec fn launcher_kind(m: LauncherMarkers, instance_count: usize) -> DirectoryKind {
    if m.instances_dir && (m.prism_config || m.multimc_config || instance_count > 0)
        && launcher_markers(m, instance_count).len() >= 2 {
        DirectoryKind::LauncherRoot
    } else {
        DirectoryKind::Unknown
    }
}

/// The report of a possible launcher root that holds `instance_count` game directories.
pub fn inspect_launcher_root(found: &LauncherMarkers, instance_count: usize) -> (r: ValidationReport)
    ensures
        r.kind == launcher_kind(*found, instance_count),
        r.score == launcher_score(*found, instance_count),
        r.instance_count == instance_count,
        marker_views(r.markers@) == launcher_markers(*found, instance_count),
{
    let mut score: u8 = 0;
    let mut markers: Vec<&'static str> = Vec::new();
    assert(marker_views(markers@) =~= Seq::<Seq<char>>::empty());
    add_marker(found.instances_dir, "instances", 25, &mut score, &mut markers);
    add_marker(found.prism_config, "prismlauncher.cfg", 30, &mut score, &mut markers);
    add_marker(found.multimc_config, "multimc.cfg", 30, &mut score, &mut markers);
    let ghost before = marker_views(markers@);
    if instance_count > 0 {
        markers.push("instance-game-directories");
        let bonus: u8 = (if instance_count < 4 { instance_count as u8 } else { 4 }) * 5;
        let s = score.saturating_add(25).saturating_add(bonus);
        score = if s > 100 { 100 } else { s };
    }
    assert(marker_views(markers@) =~= before + present_marker(instance_count > 0, "instance-game-directories"@));
    assert(marker_views(markers@) =~= launcher_markers(*found, instance_count));
    assert(markers@.len() == marker_views(markers@).len());
    let has_config = found.prism_config || found.multimc_config;
    let kind = if found.instances_dir && (has_config || instance_count > 0) && markers.len() >= 2 {
        DirectoryKind::LauncherRoot
    } else {
        DirectoryKind::Unknown
    };
    ValidationReport { kind, score, instance_count, markers }
}

/// What one entry of a launcher's `instances` folder holds.
#[derive(Clone, Copy, PartialEq, Eq, Debug, Structural)]
pub struct InstanceEntry {
    pub is_dir: bool,
    /// A `.minecraft` directory inside the entry, and what it holds.
    pub nested_game_dir: bool,
    pub nested_logs_dir: bool,
    pub nested_options_file: bool,
    pub nested_versions_dir: bool,
    /// What the entry itself holds.
    pub logs_dir: bool,
    pub instance_manifest_file: bool,
    pub options_file: bool,
    pub mods_dir: bool,
    pub config_dir: bool,
}

/// An entry is a game directory in the Prism layout (a `.minecraft` folder
/// with logs, options or versions) or in the direct layout (its own logs
/// beside a manifest, options, mods or config).
pub open spec fn instance_layout(e: InstanceEntry) -> bool {
    e.is_dir && ((e.nested_game_dir && (e.nested_logs_dir || e.nested_options_file
        || e.nested_versions_dir)) || (e.logs_dir && (e.instance_manifest_file || e.options_file
        || e.mods_dir || e.config_dir)))
}

pub fn is_instance_layout(e: &InstanceEntry) -> (r: bool)
    ensures
        r == instance_layout(*e),
{
    let prism_layout = e.nested_game_dir && (e.nested_logs_dir || e.nested_options_file
        || e.nested_versions_dir);
    let direct_layout = e.logs_dir && (e.instance_manifest_file || e.options_file || e.mods_dir
        || e.config_dir);
    e.is_dir && (prism_layout || direct_layout)
}

pub open spec fn layout_count(entries: Seq<InstanceEntry>) -> nat
    decreases entries.len(),
{
    if entries.len() == 0 {
        0
    } else {
        layout_count(entries.drop_last()) + if instance_layout(entries.last()) { 1nat } else { 0nat }
    }
}

proof fn lemma_layout_count_bound(entries: Seq<InstanceEntry>)
    ensures
        layout_count(entries) <= entries.len(),
    decreases entries.len(),
{
    if entries.len() > 0 {
        lemma_layout_count_bound(entries.drop_last());
    }
}

/// The number of game directories among the entries of an `instances`
/// folder; more than `max_entries` entries is an error.
pub fn count_instance_directories(entries: &[InstanceEntry], max_entries: usize) -> (r: Result<
    usize,
    ValidationError,
>)
    ensures
        entries@.len() > max_entries ==> r == Err::<usize, ValidationError>(
            ValidationError::InstanceEntryLimit(max_entries),
        ),
        entries@.len() <= max_entries ==> r == Ok::<usize, ValidationError>(layout_count(entries@) as usize),
{
    let mut count: usize = 0;
    let mut i: usize = 0;
    while i < entries.len()
        invariant
            i <= entries@.len(),
            i <= max_entries,
            count == layout_count(entries@.take(i as int)),
            count <= i,
        decreases entries@.len() - i,
    {
        if i >= max_entries {
            return Err(ValidationError::InstanceEntryLimit(max_entries));
        }
        assert(entries@.take(i + 1).drop_last() =~= entries@.take(i as int));
        if is_instance_layout(&entries[i]) {
            count = count + 1;
        }
        i = i + 1;
    }
    assert(entries@.take(entries@.len() as int) =~= entries@);
    Ok(count)
}

/// The sorted, distinct names of a list of markers.
pub open spec fn sorted_markers(v: Seq<Seq<char>>) -> Seq<Seq<char>>
    decreases v.len(),
{
    if v.len() == 0 {
        Seq::empty()
    } else {
        insert_sorted_unique(sorted_markers(v.drop_last()), v.last())
    }
}

fn str_lt(a: &str, b: &str) -> (r: bool)
    ensures
        r == lex_lt(a@, b@),
{
    let x = crate::text::chars_of(a);
    let y = crate::text::chars_of(b);
    let mut i: usize = 0;
    assert(x@.skip(0) =~= x@);
    assert(y@.skip(0) =~= y@);
    while i < x.len() && i < y.len() && x[i] == y[i]
        invariant
            i <= x@.len(),
            i <= y@.len(),
            x@ == a@,
            y@ == b@,
            lex_lt(a@, b@) == lex_lt(x@.skip(i as int), y@.skip(i as int)),
        decreases x@.len() - i,
    {
        assert(x@.skip(i as int).drop_first() =~= x@.skip(i + 1));
        assert(y@.skip(i as int).drop_first() =~= y@.skip(i + 1));
        i = i + 1;
    }
    proof {
        if i < x@.len() {
            assert(x@.skip(i as int)[0] == x@[i as int]);
        }
        if i < y@.len() {
            assert(y@.skip(i as int)[0] == y@[i as int]);
        }
    }
    if i == x.len() {
        i < y.len()
    } else if i == y.len() {
        false
    } else {
        (x[i] as u32) < (y[i] as u32)
    }
}

fn insert_marker(v: &mut Vec<&'static str>, x: &'static str)
    ensures
        marker_views(final(v)@) == insert_sorted_unique(marker_views(old(v)@), x@),
{
    let ghost orig = marker_views(v@);
    let mut i: usize = 0;
    assert(orig.skip(0) =~= orig);
    assert(orig.take(0) + insert_sorted_unique(orig, x@) =~= insert_sorted_unique(orig, x@));
    while i < v.len()
        invariant
            i <= v@.len(),
            v@ == old(v)@,
            orig == marker_views(v@),
            insert_sorted_unique(orig, x@) == orig.take(i as int) + insert_sorted_unique(
                orig.skip(i as int),
                x@,
            ),
        decreases v@.len() - i,
    {
        assert(orig.skip(i as int)[0] == orig[i as int]);
        if str_eq(v[i], x) {
            assert(orig.take(i as int) + orig.skip(i as int) =~= orig);
            return;
        }
        if str_lt(x, v[i]) {
            v.insert(i, x);
            assert(marker_views(v@) =~= orig.take(i as int) + (seq![x@] + orig.skip(i as int)));
            return;
        }
        assert(orig.skip(i as int).drop_first() =~= orig.skip(i + 1));
        assert(orig.take(i as int) + seq![orig[i as int]] =~= orig.take(i + 1));
        i = i + 1;
    }
    v.push(x);
    assert(orig.skip(i as int) =~= Seq::<Seq<char>>::empty());
    assert(orig.take(i as int) =~= orig);
    assert(marker_views(v@) =~= orig.push(x@));
}

/// What a possible single-instance folder holds beside its `.minecraft` game directory.
#[derive(Clone, Copy, PartialEq, Eq, Debug, Structural)]
pub struct InstanceFolderMarkers {
    pub instance_config: bool,
    pub mmc_pack: bool,
}

pub open spec fn instance_folder_markers(m: InstanceFolderMarkers, child: Seq<Seq<char>>) -> Seq<Seq<char>> {
    sorted_markers(
        seq![".minecraft"@] + present_marker(m.instance_config, "instance.cfg"@) + present_marker(
            m.mmc_pack,
            "mmc-pack.json"@,
        ) + child,
    )
}

/// The report of a single-instance folder whose `.minecraft` holds the `child` game directory.
pub fn instance_directory_report(child: &ValidationReport, found: &InstanceFolderMarkers) -> (r:
    ValidationReport)
    ensures
        r.kind == DirectoryKind::InstanceDirectory,
        r.score == score_step(child.score, true, 10),
        r.instance_count == 1,
        marker_views(r.markers@) == instance_folder_markers(*found, marker_views(child.markers@)),
{
    let mut listed: Vec<&'static str> = Vec::new();
    listed.push(".minecraft");
    if found.instance_config {
        listed.push("instance.cfg");
    }
    if found.mmc_pack {
        listed.push("mmc-pack.json");
    }
    let mut k: usize = 0;
    let ghost head = marker_views(listed@);
    assert(head =~= seq![".minecraft"@] + present_marker(found.instance_config, "instance.cfg"@)
        + present_marker(found.mmc_pack, "mmc-pack.json"@));
    while k < child.markers.len()
        invariant
            k <= child.markers@.len(),
            marker_views(listed@) == head + marker_views(child.markers@).take(k as int),
        decreases child.markers@.len() - k,
    {
        let ghost prev = listed@;
        listed.push(child.markers[k]);
        assert(marker_views(listed@) =~= marker_views(prev).push(child.markers@[k as int]@));
        assert(marker_views(child.markers@).take(k + 1) =~= marker_views(child.markers@).take(
            k as int,
        ).push(child.markers@[k as int]@));
        assert(marker_views(listed@) =~= head + marker_views(child.markers@).take(k + 1));
        k = k + 1;
    }
    assert(marker_views(child.markers@).take(child.markers@.len() as int) =~= marker_views(
        child.markers@,
    ));
    let ghost all = marker_views(listed@);
    let mut markers: Vec<&'static str> = Vec::new();
    let mut i: usize = 0;
    assert(marker_views(markers@) =~= Seq::<Seq<char>>::empty());
    while i < listed.len()
        invariant
            i <= listed@.len(),
            all == marker_views(listed@),
            marker_views(markers@) == sorted_markers(all.take(i as int)),
        decreases listed@.len() - i,
    {
        insert_marker(&mut markers, listed[i]);
        assert(all.take(i + 1).drop_last() =~= all.take(i as int));
        i = i + 1;
    }
    assert(all.take(all.len() as int) =~= all);
    let s = child.score.saturating_add(10);
    let score = if s > 100 { 100 } else { s };
    ValidationReport { kind: DirectoryKind::InstanceDirectory, score, instance_count: 1, markers }
}

/// The report that validation gives, from the candidate reports in the order
/// it tries them: a supported launcher root, then a supported game directory
/// nested as `.minecraft` (reported as an instance folder), then the directory
/// itself as a supported game directory, else unknown.
pub open spec fn chosen_report_kind(
    launcher: ValidationReport,
    nested: Option<(ValidationReport, InstanceFolderMarkers)>,
    game: ValidationReport,
) -> DirectoryKind {
    if report_supported(launcher.kind, launcher.markers@.len(), launcher.score) {
        launcher.kind
    } else if nested matches Some((child, _)) && report_supported(
        child.kind,
        child.markers@.len(),
        child.score,
    ) {
        DirectoryKind::InstanceDirectory
    } else if report_supported(game.kind, game.markers@.len(), game.score) {
        game.kind
    } else {
        DirectoryKind::Unknown
    }
}

pub fn choose_report(
    launcher: ValidationReport,
    nested: Option<(ValidationReport, InstanceFolderMarkers)>,
    game: ValidationReport,
) -> (r: ValidationReport)
    ensures
        r.kind == chosen_report_kind(launcher, nested, game),
        report_supported(launcher.kind, launcher.markers@.len(), launcher.score) ==> r == launcher,
        !report_supported(launcher.kind, launcher.markers@.len(), launcher.score) ==> match nested {
            Some((child, found)) => if report_supported(
                child.kind,
                child.markers@.len(),
                child.score,
            ) {
                r.score == score_step(child.score, true, 10) && r.instance_count == 1
                    && marker_views(r.markers@) == instance_folder_markers(
                    found,
                    marker_views(child.markers@),
                )
            } else {
                report_supported(game.kind, game.markers@.len(), game.score) ==> r == game
            },
            None => report_supported(game.kind, game.markers@.len(), game.score) ==> r == game,
        },
        r.kind == DirectoryKind::Unknown ==> r.score == 0 && r.instance_count == 0 && r.markers@.len()
            == 0,
{
    if launcher.is_supported() {
        return launcher;
    }
    if let Some((child, found)) = &nested {
        if child.is_supported() {
            return instance_directory_report(child, found);
        }
    }
    if game.is_supported() {
        return game;
    }
    unknown()
}

} // verus!
