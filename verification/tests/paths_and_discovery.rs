use std::path::PathBuf;

use minetrace::discovery::candidates::{official, prism};
use minetrace::discovery::validation::{
    choose_report, count_instance_directories, inspect_game_directory, inspect_launcher_root,
    instance_directory_report, unknown, GameMarkers, InstanceEntry, InstanceFolderMarkers,
    LauncherMarkers, ValidationError,
};
use minetrace::domain::location::{AdapterKind, DirectoryKind, PlatformKind};
use minetrace::parser::source_classifier::{classify_source_path, SourceFileKind};
use minetrace::platform::paths::{join_path, stable_location_id, windows_roaming_data, PlatformPaths};

fn as_paths(v: Vec<String>) -> Vec<PathBuf> {
    v.into_iter().map(PathBuf::from).collect()
}

fn joined(base: &str, parts: &[&str]) -> String {
    let mut p = base.to_owned();
    for part in parts {
        p = join_path(&p, part);
    }
    p
}

#[test]
fn windows_candidates_use_roaming_application_data() {
    let paths = PlatformPaths::test(
        PlatformKind::Windows,
        "C:/Users/Alex".to_owned(),
        "C:/Users/Alex/AppData/Roaming".to_owned(),
    );

    assert_eq!(
        as_paths(official(&paths)),
        vec![PathBuf::from("C:/Users/Alex/AppData/Roaming/.minecraft")]
    );
    assert_eq!(
        as_paths(prism(&paths)),
        vec![PathBuf::from("C:/Users/Alex/AppData/Roaming/PrismLauncher")]
    );
}

#[test]
fn macos_candidates_use_application_support() {
    let paths = PlatformPaths::test(
        PlatformKind::Macos,
        "/Users/alex".to_owned(),
        "/unused".to_owned(),
    );

    assert_eq!(
        as_paths(official(&paths)),
        vec![PathBuf::from("/Users/alex/Library/Application Support/minecraft")]
    );
    assert_eq!(
        as_paths(prism(&paths)),
        vec![PathBuf::from("/Users/alex/Library/Application Support/PrismLauncher")]
    );
}

#[test]
fn linux_candidates_live_under_home() {
    let paths = PlatformPaths::test(PlatformKind::Linux, "/home/alex".to_owned(), "/unused".to_owned());
    assert_eq!(official(&paths), vec!["/home/alex/.minecraft".to_owned()]);
    assert_eq!(prism(&paths), vec!["/home/alex/.local/share/PrismLauncher".to_owned()]);
    let no_home = PlatformPaths { platform: PlatformKind::Linux, home: None, roaming_data: None };
    assert!(official(&no_home).is_empty());
    assert!(prism(&no_home).is_empty());
}

#[test]
fn explicit_windows_appdata_wins_over_the_profile_fallback() {
    assert_eq!(
        windows_roaming_data(Some("D:/Roaming".to_owned()), Some("C:/Users/Alex".to_owned()))
            .map(PathBuf::from),
        Some(PathBuf::from("D:/Roaming"))
    );
}

#[test]
fn windows_profile_supplies_a_roaming_fallback() {
    assert_eq!(
        windows_roaming_data(None, Some("C:/Users/Alex".to_owned())).map(PathBuf::from),
        Some(PathBuf::from("C:/Users/Alex/AppData/Roaming"))
    );
    assert_eq!(windows_roaming_data(None, None), None);
}

#[test]
fn joining_follows_native_path_rules() {
    assert_eq!(join_path("a", "b"), "a/b");
    assert_eq!(join_path("a/", "b"), "a/b");
    assert_eq!(join_path("", "b"), "b");
    assert_eq!(join_path("a", "/b"), "/b");
}

#[test]
fn classifies_using_native_path_components() {
    let root = "instance";
    assert_eq!(
        classify_source_path(&joined(root, &["stats", "player.json"])),
        SourceFileKind::Stats
    );
    assert_eq!(
        classify_source_path(&joined(root, &["advancements", "player.json"])),
        SourceFileKind::Advancements
    );
    assert_eq!(
        classify_source_path(&joined(root, &["crash-reports", "crash.txt"])),
        SourceFileKind::CrashReport
    );
    assert_eq!(
        classify_source_path(&joined(root, &["logs", "2026-08-06-1.log.gz"])),
        SourceFileKind::CompressedLog
    );
}

#[test]
fn does_not_match_component_substrings() {
    let path = joined("instance", &["old-stats-backup", "player.json"]);
    assert_eq!(classify_source_path(&path), SourceFileKind::Unknown);
}

#[test]
fn component_matching_is_ascii_case_insensitive_on_every_platform() {
    let path = joined("INSTANCE", &["SCREENSHOTS", "capture.PNG"]);
    assert_eq!(classify_source_path(&path), SourceFileKind::Screenshot);
}

#[test]
fn classifies_each_file_kind() {
    assert_eq!(classify_source_path("logs/latest.log"), SourceFileKind::Log);
    assert_eq!(classify_source_path("saves/World/level.dat"), SourceFileKind::LevelDat);
    assert_eq!(classify_source_path("servers.dat"), SourceFileKind::ServersDat);
    assert_eq!(classify_source_path("mods/sodium.JAR"), SourceFileKind::ModJar);
    assert_eq!(classify_source_path("screenshots/a.webp"), SourceFileKind::Screenshot);
    assert_eq!(classify_source_path("screenshots/a.gif"), SourceFileKind::Unknown);
    assert_eq!(classify_source_path("stats/.json"), SourceFileKind::Unknown);
    assert_eq!(classify_source_path("logs/"), SourceFileKind::Unknown);
    assert_eq!(classify_source_path("logs/x.log/."), SourceFileKind::Log);
    assert_eq!(classify_source_path(".."), SourceFileKind::Unknown);
}

#[test]
fn stable_ids_do_not_change_for_the_same_key() {
    assert_eq!(stable_location_id(b"same"), stable_location_id(b"same"));
    assert_ne!(stable_location_id(b"same"), stable_location_id(b"other"));
}

#[test]
fn stable_location_id_is_loc_and_a_digest_prefix() {
    let id = stable_location_id(b"/home/alex/.minecraft");
    let digest = blake3::hash(b"/home/alex/.minecraft").to_hex().to_string();
    assert_eq!(id, format!("loc_{}", &digest[..24]));
}

#[test]
fn adapter_labels_and_names() {
    assert_eq!(AdapterKind::MultiMc.as_str(), "multimc");
    assert_eq!(AdapterKind::Manual.label(), "Custom");
    assert_eq!(PlatformKind::Macos.as_str(), "macos");
}

fn no_game() -> GameMarkers {
    GameMarkers {
        logs_dir: false,
        versions_dir: false,
        saves_dir: false,
        options_file: false,
        launcher_profiles_file: false,
        assets_dir: false,
        libraries_dir: false,
    }
}

#[test]
fn rejects_a_single_weak_marker() {
    let report = inspect_game_directory(&GameMarkers { logs_dir: true, ..no_game() });
    assert_eq!(report.kind, DirectoryKind::Unknown);
    assert_eq!(report.score, 25);
    assert!(!report.is_supported());
}

#[test]
fn accepts_a_multi_marker_game_directory() {
    let report = inspect_game_directory(&GameMarkers { logs_dir: true, options_file: true, ..no_game() });
    assert_eq!(report.kind, DirectoryKind::GameDirectory);
    assert_eq!(report.instance_count, 1);
    assert_eq!(report.markers, vec!["logs", "options.txt"]);
    assert!(report.is_supported());
}

#[test]
fn game_score_is_capped_at_one_hundred() {
    let all = GameMarkers {
        logs_dir: true,
        versions_dir: true,
        saves_dir: true,
        options_file: true,
        launcher_profiles_file: true,
        assets_dir: true,
        libraries_dir: true,
    };
    assert_eq!(inspect_game_directory(&all).score, 100);
}

#[test]
fn accepts_a_prism_root_and_counts_instances() {
    let entry = InstanceEntry {
        is_dir: true,
        nested_game_dir: true,
        nested_logs_dir: true,
        nested_options_file: false,
        nested_versions_dir: false,
        logs_dir: false,
        instance_manifest_file: false,
        options_file: false,
        mods_dir: false,
        config_dir: false,
    };
    let count = count_instance_directories(&[entry], 10_000).expect("count");
    assert_eq!(count, 1);
    let report = inspect_launcher_root(
        &LauncherMarkers { instances_dir: true, prism_config: true, multimc_config: false },
        count,
    );
    assert_eq!(report.kind, DirectoryKind::LauncherRoot);
    assert_eq!(report.instance_count, 1);
    assert_eq!(report.score, 85);
    assert!(report.is_supported());
}

#[test]
fn accepts_a_manual_curseforge_style_root_with_direct_game_directories() {
    let entry = InstanceEntry {
        is_dir: true,
        nested_game_dir: false,
        nested_logs_dir: false,
        nested_options_file: false,
        nested_versions_dir: false,
        logs_dir: true,
        instance_manifest_file: true,
        options_file: false,
        mods_dir: true,
        config_dir: false,
    };
    let count = count_instance_directories(&[entry], 10_000).expect("count");
    let report = inspect_launcher_root(
        &LauncherMarkers { instances_dir: true, prism_config: false, multimc_config: false },
        count,
    );
    assert_eq!(report.kind, DirectoryKind::LauncherRoot);
    assert!(report.is_supported());
    assert_eq!(report.instance_count, 1);
}

#[test]
fn launcher_instance_enumeration_stops_at_its_configured_entry_cap() {
    let entry = InstanceEntry {
        is_dir: true,
        nested_game_dir: false,
        nested_logs_dir: false,
        nested_options_file: false,
        nested_versions_dir: false,
        logs_dir: false,
        instance_manifest_file: false,
        options_file: false,
        mods_dir: false,
        config_dir: false,
    };
    assert_eq!(
        count_instance_directories(&[entry, entry, entry], 2),
        Err(ValidationError::InstanceEntryLimit(2))
    );
    assert_eq!(count_instance_directories(&[entry, entry], 2), Ok(0));
}

#[test]
fn accepts_a_single_prism_instance_folder() {
    let child = inspect_game_directory(&GameMarkers { logs_dir: true, options_file: true, ..no_game() });
    let launcher = inspect_launcher_root(
        &LauncherMarkers { instances_dir: false, prism_config: false, multimc_config: false },
        0,
    );
    let nested = Some((child, InstanceFolderMarkers { instance_config: true, mmc_pack: false }));
    let report = choose_report(launcher, nested, unknown());
    assert_eq!(report.kind, DirectoryKind::InstanceDirectory);
    assert_eq!(report.instance_count, 1);
    assert_eq!(report.markers, vec![".minecraft", "instance.cfg", "logs", "options.txt"]);
    assert_eq!(report.score, 53);
    assert!(report.is_supported());
}

#[test]
fn instance_folder_markers_are_sorted_and_distinct() {
    let child = inspect_game_directory(&GameMarkers { logs_dir: true, saves_dir: true, ..no_game() });
    let report = instance_directory_report(&child, &InstanceFolderMarkers { instance_config: true, mmc_pack: true });
    assert_eq!(
        report.markers,
        vec![".minecraft", "instance.cfg", "logs", "mmc-pack.json", "saves"]
    );
}
