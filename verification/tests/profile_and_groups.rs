use minetrace::application::instance_groups::group_candidates;
use minetrace::application::profile_service::StatisticUnit;
use minetrace::application::profile_stats::{
    build_statistic_sections, humanize_identifier, top_category, StatEntry, StatMap,
};
use minetrace::application::scan_models::ScanMode;
use minetrace::domain::confidence::Confidence;
use minetrace::domain::location::{AdapterKind, DiscoveredInstallation, PlatformKind};
use minetrace::scan::model::{LogCandidate, LogFileKind};

#[test]
fn statistics_are_bounded_and_grouped_by_category() {
    assert_eq!(humanize_identifier("minecraft:oak_log"), "Oak Log");
    assert_eq!(humanize_identifier("walk-one_cm"), "Walk One Cm");
    assert_eq!(humanize_identifier("a:b:__x"), "X");
    assert_eq!(humanize_identifier(""), "");
}

fn entry(category: &str, key: &str, value: u64) -> StatEntry {
    StatEntry { category: category.to_owned(), key: key.to_owned(), value, source_worlds: 1 }
}

#[test]
fn sections_name_general_and_movement_statistics_and_rank_the_rest() {
    let stats = StatMap {
        entries: vec![
            entry("minecraft:custom", "minecraft:jump", 42),
            entry("minecraft:custom", "minecraft:walk_one_cm", 1200),
            entry("minecraft:mined", "minecraft:dirt", 9),
            entry("minecraft:mined", "minecraft:stone", 9),
            entry("minecraft:mined", "minecraft:andesite", 30),
        ],
    };
    let sections = build_statistic_sections(&stats);
    let ids = sections.iter().map(|s| s.id.as_str()).collect::<Vec<_>>();
    assert_eq!(ids, vec!["general", "movement", "mined"]);
    assert_eq!(sections[0].items.len(), 1);
    assert_eq!(sections[0].items[0].label, "Jumps");
    assert_eq!(sections[0].items[0].value, 42);
    assert_eq!(sections[1].items[0].unit, StatisticUnit::Centimeters);
    let mined = sections[2].items.iter().map(|s| s.label.as_str()).collect::<Vec<_>>();
    assert_eq!(mined, vec!["Andesite", "Dirt", "Stone"]);
    assert_eq!(sections[2].items[0].id, "minecraft:mined:minecraft:andesite");
}

#[test]
fn top_category_keeps_the_largest_entries() {
    let entries = (0..20)
        .map(|i| entry("minecraft:used", &format!("minecraft:item_{i:02}"), i))
        .collect::<Vec<_>>();
    let stats = StatMap { entries };
    let top = top_category(&stats, "minecraft:used", 12);
    assert_eq!(top.len(), 12);
    assert_eq!(top[0].value, 19);
    assert_eq!(top[11].value, 8);
}

fn candidate(relative_path: &str, kind: LogFileKind) -> LogCandidate {
    LogCandidate {
        approved_root: "/root".to_owned(),
        absolute_path: format!("/root/{relative_path}"),
        relative_path: relative_path.to_owned(),
        relative_path_key: relative_path.as_bytes().to_vec(),
        kind,
        observed_size_bytes: 1,
    }
}

fn location(adapter_kind: AdapterKind, instances: usize) -> DiscoveredInstallation {
    DiscoveredInstallation {
        id: "loc_1".to_owned(),
        name: "Launcher".to_owned(),
        kind_label: "Prism".to_owned(),
        adapter_kind,
        path: "/root".to_owned(),
        instances,
        confidence: Confidence::High,
        validation_score: 80,
        enabled: true,
        platform: PlatformKind::Linux,
        origin: "automatic",
    }
}

#[test]
fn prism_logs_are_grouped_by_instance_and_quick_keeps_only_latest_plain_logs() {
    let candidates = vec![
        candidate("instances/A/.minecraft/logs/latest.log", LogFileKind::Log),
        candidate("instances/A/.minecraft/logs/old.log.gz", LogFileKind::CompressedLog),
        candidate("instances/B/.minecraft/logs/latest.log", LogFileKind::Log),
    ];
    let prism = location(AdapterKind::Prism, 2);

    let quick = group_candidates(&prism, candidates.clone(), ScanMode::Quick);
    assert_eq!(quick.len(), 2);
    assert!(quick.iter().all(|group| group.candidates.len() == 1));

    let standard = group_candidates(&prism, candidates, ScanMode::Standard);
    assert_eq!(standard.len(), 2);
    assert_eq!(standard[0].name, "A");
    assert_eq!(standard[0].relative_root, "instances/A/.minecraft");
    assert_eq!(standard[0].candidates.len(), 2);
    assert_eq!(standard[1].name, "B");
}

#[test]
fn a_single_game_directory_is_one_group_named_after_its_location() {
    let official = location(AdapterKind::Official, 1);
    let groups = group_candidates(
        &official,
        vec![candidate("logs/latest.log", LogFileKind::Log), candidate("crash-reports/x.txt", LogFileKind::Log)],
        ScanMode::Standard,
    );
    assert_eq!(groups.len(), 1);
    assert_eq!(groups[0].relative_root, "");
    assert_eq!(groups[0].name, "Launcher");
    assert_eq!(groups[0].candidates.len(), 1);

    let empty = group_candidates(&official, Vec::new(), ScanMode::Deep);
    assert_eq!(empty.len(), 1);
    assert!(empty[0].candidates.is_empty());
    assert!(group_candidates(&official, Vec::new(), ScanMode::Quick).is_empty());
    assert!(group_candidates(&location(AdapterKind::Prism, 1), Vec::new(), ScanMode::Deep).is_empty());
}
