use minetrace::application::profile_service::{
    ProfileStatistic, StatisticUnit, StatisticsBasis, WorldAvailability,
};
use minetrace::application::profile_worlds::{
    choose_random_stats, choose_stats_file, merge_stats, normalize_name, parse_stats, stable_id, BackupCandidate,
    GameRoot, RawStat, StatTally, WorldCollector,
};
use minetrace::application::read_models::{RuntimeBasis, WorldSummary};
use minetrace::domain::confidence::Confidence;

fn hex(bytes: &[u8]) -> String {
    bytes.iter().map(|b| format!("{b:02x}")).collect()
}

fn raw(category: &str, key: &str, amount: Option<u64>) -> RawStat {
    RawStat { category: category.to_owned(), key: key.to_owned(), amount }
}

fn archive_world(id: &str, name: &str, minutes: u64) -> WorldSummary {
    WorldSummary {
        id: id.to_owned(),
        name: name.to_owned(),
        instance: "Vanilla".to_owned(),
        mode: None,
        version: None,
        total_minutes: minutes,
        last_played_at: Some("2026-01-01T00:00:00+00:00".to_owned()),
        size_label: None,
        confidence: Confidence::Verified,
        runtime_basis: RuntimeBasis::SessionLinked,
    }
}

fn backup(name: &str, instance: &str) -> BackupCandidate {
    BackupCandidate { path: format!("/backups/{name}.zip"), name: name.to_owned(), instance: instance.to_owned() }
}

fn statistic(id: &str) -> ProfileStatistic {
    ProfileStatistic { id: id.to_owned(), label: id.to_owned(), value: 1, unit: StatisticUnit::Count, source_worlds: 1 }
}

#[test]
fn world_names_compare_by_lowercased_letters_and_digits() {
    assert_eq!(normalize_name("My World_2!"), "myworld2");
    assert_eq!(normalize_name("Ünïcode Wörld"), "ünïcodewörld");
    assert_eq!(normalize_name("--"), "");
}

#[test]
fn stable_ids_hash_the_namespace_and_framed_values() {
    let id = stable_id("skin", &vec!["abc"]);
    let mut data = b"skin".to_vec();
    data.extend_from_slice(&3u64.to_le_bytes());
    data.extend_from_slice(b"abc");
    assert_eq!(id, format!("skin_{}", &hex(blake3::hash(&data).as_bytes())[..24]));
    assert_ne!(stable_id("skin", &vec!["ab", "c"]), stable_id("skin", &vec!["a", "bc"]));
}

#[test]
fn statistics_files_are_chosen_by_account_uuid_then_by_being_alone() {
    let uuid = "0123456789abcdef0123456789abcdef";
    let dashed = "01234567-89ab-cdef-0123-456789abcdef";
    let stems = vec![Some("ffffffffffffffffffffffffffffffff".to_owned()), Some(dashed.to_owned())];
    assert_eq!(choose_stats_file(&stems, Some(uuid)), Some((1, StatisticsBasis::UuidMatched)));
    assert_eq!(choose_stats_file(&stems, None), None);
    assert_eq!(
        choose_stats_file(&vec![Some("other".to_owned())], Some(uuid)),
        Some((0, StatisticsBasis::SingleLocalPlayer))
    );
    assert_eq!(choose_stats_file(&Vec::new(), Some(uuid)), None);
}

#[test]
fn parsed_statistics_skip_zero_and_cap_at_the_safe_integer() {
    let stats = parse_stats(&vec![
        raw("minecraft:custom", "minecraft:jump", Some(5)),
        raw("minecraft:custom", "minecraft:deaths", Some(0)),
        raw("minecraft:broken", "minecraft:stone", Some(u64::MAX)),
        raw("minecraft:custom", "minecraft:walk", None),
    ]);
    let keys: Vec<(&str, &str, u64)> =
        stats.iter().map(|t| (t.category.as_str(), t.key.as_str(), t.value)).collect();
    assert_eq!(
        keys,
        vec![("minecraft:broken", "minecraft:stone", 9_007_199_254_740_991), ("minecraft:custom", "minecraft:jump", 5)]
    );
}

#[test]
fn merging_adds_values_and_counts_each_world_once() {
    let first = parse_stats(&vec![raw("c", "a", Some(2)), raw("c", "b", Some(3))]);
    let second = parse_stats(&vec![raw("c", "b", Some(4)), raw("c", "z", Some(1))]);
    let mut merged: Vec<StatTally> = Vec::new();
    merge_stats(&mut merged, &first, "World A");
    merge_stats(&mut merged, &second, "World B");
    merge_stats(&mut merged, &second, "World B");
    let summary: Vec<(&str, u64, usize)> = merged.iter().map(|t| (t.key.as_str(), t.value, t.worlds.len())).collect();
    assert_eq!(summary, vec![("a", 2, 1), ("b", 11, 2), ("z", 2, 1)]);
}

#[test]
fn worlds_match_saves_archives_and_backups() {
    let root = GameRoot { path: "/game".to_owned(), launcher: "Official Launcher".to_owned(), instance: "Vanilla".to_owned() };
    let archive = vec![
        archive_world("w-survival", "Survival!", 120),
        archive_world("w-gone", "Old Creative", 30),
    ];
    let backups = vec![
        backup("survival-2025", "Vanilla"),
        backup("oldcreative", "Other"),
        backup("unrelated", "Vanilla"),
    ];
    let mut collector = WorldCollector::new(backups.len());
    assert!(collector.has_room());
    assert!(collector.wants_stats());
    let stats = parse_stats(&vec![raw("minecraft:custom", "minecraft:jump", Some(7))]);
    collector.add_save(
        &root,
        "survival".to_owned(),
        Some(stats),
        StatisticsBasis::SingleLocalPlayer,
        Some("2026-02-02T00:00:00+00:00".to_owned()),
        &archive,
        &backups,
    );
    collector.add_save(&root, "Sandbox".to_owned(), None, StatisticsBasis::NoBasis, None, &archive, &backups);
    let (worlds, stats, basis, statistics_worlds) =
        collector.finish(&archive, &backups, &vec![None, None, Some("2026-03-03T00:00:00+00:00".to_owned())]);

    assert_eq!(basis, StatisticsBasis::SingleLocalPlayer);
    assert_eq!(statistics_worlds, 1);
    assert_eq!(stats.entries.len(), 1);
    assert_eq!(stats.entries[0].source_worlds, 1);
    let names: Vec<(&str, WorldAvailability)> = worlds.iter().map(|w| (w.name.as_str(), w.availability)).collect();
    assert_eq!(
        names,
        vec![
            ("Survival!", WorldAvailability::Available),
            ("Sandbox", WorldAvailability::Available),
            ("Old Creative", WorldAvailability::Missing),
            ("unrelated", WorldAvailability::BackupOnly),
        ]
    );
    let survival = &worlds[0];
    assert_eq!(survival.folder_name.as_deref(), Some("survival"));
    assert_eq!(survival.total_minutes, Some(120));
    assert_eq!(survival.backup_count, 1);
    assert!(survival.stats_available);
    assert_eq!(survival.last_observed_at.as_deref(), Some("2026-01-01T00:00:00+00:00"));
    assert_eq!(survival.id, stable_id("profile-world", &vec!["Vanilla", "survival"]));
    assert_eq!(worlds[1].total_minutes, None);
    assert_eq!(worlds[1].backup_count, 0);
    assert_eq!(worlds[2].backup_count, 1);
    assert_eq!(worlds[2].launcher, "Observed archive");
    assert_eq!(worlds[3].launcher, "Local backup");
    assert_eq!(worlds[3].last_observed_at.as_deref(), Some("2026-03-03T00:00:00+00:00"));
}

#[test]
fn random_statistics_are_four_picked_by_the_seeded_digest() {
    let stats: Vec<ProfileStatistic> = ["a", "b", "c", "d", "e", "f"].iter().map(|id| statistic(id)).collect();
    let picked = choose_random_stats(stats.clone(), 42);
    assert_eq!(picked.len(), 4);
    let mut expected: Vec<(Vec<u8>, String)> = stats
        .iter()
        .map(|s| {
            let mut data = 42u64.to_le_bytes().to_vec();
            data.extend_from_slice(s.id.as_bytes());
            (blake3::hash(&data).as_bytes().to_vec(), s.id.clone())
        })
        .collect();
    expected.sort();
    let expected_ids: Vec<String> = expected.into_iter().take(4).map(|(_, id)| id).collect();
    let picked_ids: Vec<String> = picked.iter().map(|s| s.id.clone()).collect();
    assert_eq!(picked_ids, expected_ids);
    let again: Vec<String> = choose_random_stats(stats.clone(), 42).iter().map(|s| s.id.clone()).collect();
    assert_eq!(again, picked_ids);
    assert_eq!(choose_random_stats(stats[..2].to_vec(), 7).len(), 2);
}
