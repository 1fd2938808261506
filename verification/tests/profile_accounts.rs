use minetrace::application::dashboard_accumulator::{
    allocation_span_representable_exec, local_date_representable_exec, session_addable,
};
use minetrace::application::dashboard_service::{empty_archive_warning, StoredSession};
use minetrace::application::discovery_service::{
    installation, saved_installation, unsupported_location_reason, DiscoveredSet, SavedLocation,
};
use minetrace::application::explorer_service::{accent_for, stable_summary_id};
use minetrace::application::profile_accounts::{
    collect_identities, extract_identities, identity_from_profile, merge_identities, skin_lookups, split_skins,
    AccountFile, AccountIdentity, StoredAccount, StoredProfile,
};
use minetrace::application::profile_assembly::{
    assemble_profile, count_availability, instance_name_from_cfg, profile_identities, profile_limitations,
    random_statistics, skin_from_bytes, sort_backups, world_backup, WorldFindings,
};
use minetrace::application::profile_service::{
    ProfileStatistic, ProfileStatisticSection, ProfileWorld, SkinAsset, StatisticUnit, StatisticsBasis,
    WorldAvailability,
};
use minetrace::application::profile_worlds::{choose_random_stats, stable_id, BackupCandidate};
use minetrace::application::read_models::{ArchiveState, DashboardTotals, InstanceAccent, NamedMinutes, TopMetrics};
use minetrace::domain::confidence::Confidence;
use minetrace::domain::location::{AdapterKind, DirectoryKind, PlatformKind, ValidationReport};

const UUID: &str = "0123456789abcdef0123456789abcdef";
const HASH_A: &str = "aaaaaaaaaaaaaaaaaaaaaaaaaaaaaaaaaaaaaaaa";
const HASH_B: &str = "bbbbbbbbbbbbbbbbbbbbbbbbbbbbbbbbbbbbbbbb";

fn profile(name: &str, id: Option<&str>, skins: &[&str]) -> StoredProfile {
    StoredProfile {
        name: Some(name.to_owned()),
        id: id.map(ToOwned::to_owned),
        skin_urls: skins.iter().map(|hash| Some(format!("http://textures.minecraft.net/texture/{hash}"))).collect(),
    }
}

fn identity(name: &str, uuid: Option<&str>, active: bool, hashes: &[&str]) -> AccountIdentity {
    AccountIdentity {
        name: name.to_owned(),
        uuid: uuid.map(ToOwned::to_owned),
        source: "Official Launcher".to_owned(),
        active,
        skin_hashes: hashes.iter().map(|h| (*h).to_owned()).collect(),
    }
}

fn skin_png(width: u32, height: u32) -> Vec<u8> {
    let mut bytes = b"\x89PNG\r\n\x1a\n\0\0\0\rIHDR".to_vec();
    bytes.extend_from_slice(&width.to_be_bytes());
    bytes.extend_from_slice(&height.to_be_bytes());
    bytes
}

fn statistic(id: &str) -> ProfileStatistic {
    ProfileStatistic { id: id.to_owned(), label: id.to_owned(), value: 1, unit: StatisticUnit::Count, source_worlds: 1 }
}

fn world(name: &str, availability: WorldAvailability) -> ProfileWorld {
    ProfileWorld {
        id: name.to_owned(),
        name: name.to_owned(),
        folder_name: None,
        instance: "Vanilla".to_owned(),
        launcher: "Official Launcher".to_owned(),
        availability,
        total_minutes: None,
        last_observed_at: None,
        stats_available: false,
        stats_basis: StatisticsBasis::NoBasis,
        backup_count: 0,
    }
}

fn named(name: &str, minutes: u64) -> NamedMinutes {
    NamedMinutes { name: name.to_owned(), minutes }
}

fn report(kind: DirectoryKind, score: u8, instance_count: usize, markers: Vec<&'static str>) -> ValidationReport {
    ValidationReport { kind, score, instance_count, markers }
}

#[test]
fn a_profile_identity_needs_a_name_and_keeps_each_skin_once() {
    let found = identity_from_profile(&profile("  Alex  ", Some(UUID), &[HASH_A, HASH_A, HASH_B]), "Prism", true)
        .expect("named profile");
    assert_eq!(found.name, "Alex");
    assert_eq!(found.uuid.as_deref(), Some(UUID));
    assert_eq!(found.skin_hashes, vec![HASH_A.to_owned(), HASH_B.to_owned()]);
    assert!(found.active);
    assert!(identity_from_profile(&profile("   ", None, &[]), "Prism", false).is_none());
    let nameless = StoredProfile { name: None, id: None, skin_urls: Vec::new() };
    assert!(identity_from_profile(&nameless, "Prism", false).is_none());
}

#[test]
fn account_files_give_keyed_then_listed_accounts() {
    let file = AccountFile {
        active_local_id: Some("local-2".to_owned()),
        keyed_accounts: vec![
            (
                "local-1".to_owned(),
                StoredAccount { active: None, minecraft_profile: Some(profile("Steve", None, &[])), profile: None },
            ),
            (
                "local-2".to_owned(),
                StoredAccount { active: None, minecraft_profile: None, profile: Some(profile("Alex", None, &[])) },
            ),
        ],
        listed_accounts: vec![StoredAccount {
            active: Some(true),
            minecraft_profile: Some(profile("Ignored", None, &[])),
            profile: Some(profile("Zoe", None, &[])),
        }],
    };
    let found = extract_identities(&file, "Official Launcher");
    let names: Vec<_> = found.iter().map(|i| (i.name.as_str(), i.active)).collect();
    assert_eq!(names, vec![("Steve", false), ("Alex", true), ("Zoe", true)]);
}

#[test]
fn the_same_account_is_merged_and_active_accounts_come_first() {
    let merged = merge_identities(vec![
        identity("bob", None, false, &[HASH_A]),
        identity("Alice", Some(UUID), false, &[HASH_A]),
        identity("Alice", Some(UUID), true, &[HASH_B]),
        identity("Bob", None, false, &[HASH_B]),
    ]);
    assert_eq!(merged.len(), 2);
    assert_eq!(merged[0].name, "Alice");
    assert!(merged[0].active);
    assert_eq!(merged[0].skin_hashes, vec![HASH_A.to_owned(), HASH_B.to_owned()]);
    assert_eq!(merged[1].name, "bob");
    assert_eq!(merged[1].skin_hashes, vec![HASH_A.to_owned(), HASH_B.to_owned()]);

    let ordered = merge_identities(vec![identity("zed", None, false, &[]), identity("Amy", None, false, &[])]);
    assert_eq!(ordered[0].name, "Amy");
    let files = vec![(
        AccountFile {
            active_local_id: None,
            keyed_accounts: Vec::new(),
            listed_accounts: vec![StoredAccount { active: None, minecraft_profile: None, profile: Some(profile("Kim", None, &[])) }],
        },
        "MultiMC".to_owned(),
    )];
    let collected = collect_identities(&files);
    assert_eq!(collected.len(), 1);
    assert_eq!(collected[0].source, "MultiMC");
}

#[test]
fn each_skin_hash_is_looked_up_once_and_twelve_earlier_skins_are_kept() {
    let lookups = skin_lookups(&vec![identity("A", None, true, &[HASH_A, HASH_B]), identity("B", None, false, &[HASH_A])]);
    assert_eq!(lookups.len(), 2);
    assert_eq!(lookups[0].0, HASH_A);
    let skins: Vec<SkinAsset> = (0..20)
        .map(|i| SkinAsset {
            id: format!("skin-{i}"),
            data_url: String::new(),
            observed_at: None,
            source: String::new(),
            width: 64,
            height: 64,
        })
        .collect();
    let (current, previous) = split_skins(skins);
    assert_eq!(current.unwrap().id, "skin-0");
    assert_eq!(previous.len(), 12);
    assert_eq!(previous[0].id, "skin-1");
    let (none, empty) = split_skins(Vec::new());
    assert!(none.is_none() && empty.is_empty());
}

#[test]
fn only_skin_sized_pngs_become_skins() {
    let bytes = skin_png(64, 32);
    let skin = skin_from_bytes(HASH_A, &bytes, None, "Prism").expect("a classic skin");
    assert_eq!((skin.width, skin.height), (64, 32));
    assert!(skin.data_url.starts_with("data:image/png;base64,iVBORw0KGgo"));
    assert_eq!(skin.id, stable_id("skin", &vec![HASH_A]));
    assert!(skin_from_bytes(HASH_A, &skin_png(128, 64), None, "Prism").is_none());
    assert!(skin_from_bytes(HASH_A, b"not a png at all, not at all", None, "Prism").is_none());
}

#[test]
fn instance_names_come_from_the_first_nonblank_name_line() {
    assert_eq!(instance_name_from_cfg("InstanceType=OneSix\nname=  \nname=Skyblock\r\n").as_deref(), Some("Skyblock"));
    assert_eq!(instance_name_from_cfg("notes=name=x\n"), None);
}

#[test]
fn backups_are_listed_last_name_first() {
    let backup = |name: &str| BackupCandidate { path: format!("/b/{name}.zip"), name: name.to_owned(), instance: "I".to_owned() };
    let sorted = sort_backups(vec![backup("2024-01-01"), backup("2025-06-01"), backup("2024-12-31")]);
    let names: Vec<_> = sorted.iter().map(|b| b.name.as_str()).collect();
    assert_eq!(names, vec!["2025-06-01", "2024-12-31", "2024-01-01"]);
    let listed = world_backup(backup("w"), 12, Some("t".to_owned()));
    assert_eq!(listed.id, stable_id("backup", &vec!["I", "w"]));
    assert_eq!(listed.size_bytes, 12);
}

#[test]
fn the_profile_states_its_limitations_and_counts_worlds() {
    assert_eq!(profile_limitations(true, true).len(), 3);
    let all = profile_limitations(false, false);
    assert_eq!(all.len(), 5);
    assert_eq!(
        all[3],
        "No local launcher account profile was found, so MineTrace is showing an anonymous local profile."
    );
    let worlds = vec![
        world("a", WorldAvailability::Available),
        world("b", WorldAvailability::Missing),
        world("c", WorldAvailability::Available),
    ];
    assert_eq!(count_availability(&worlds, WorldAvailability::Available), 2);
    assert_eq!(count_availability(&worlds, WorldAvailability::BackupOnly), 0);
    let shown = profile_identities(&vec![identity("Alex", Some(UUID), true, &[])]);
    assert_eq!(shown[0].uuid.as_deref(), Some("01234567-89ab-cdef-0123-456789abcdef"));
}

#[test]
fn random_statistics_follow_the_seeded_shuffle() {
    let sections = vec![
        ProfileStatisticSection {
            id: "general".to_owned(),
            label: "General".to_owned(),
            items: vec![statistic("a"), statistic("b"), statistic("c")],
        },
        ProfileStatisticSection { id: "mined".to_owned(), label: "Mined".to_owned(), items: vec![statistic("d"), statistic("e")] },
    ];
    let drawn = random_statistics(&sections, 9);
    let direct = choose_random_stats(
        vec![statistic("a"), statistic("b"), statistic("c"), statistic("d"), statistic("e")],
        9,
    );
    assert_eq!(drawn.len(), 4);
    let ids: Vec<_> = drawn.iter().map(|s| s.id.clone()).collect();
    let expected: Vec<_> = direct.iter().map(|s| s.id.clone()).collect();
    assert_eq!(ids, expected);
}

#[test]
fn the_profile_is_assembled_from_its_parts() {
    let totals = DashboardTotals {
        playtime_minutes: 90,
        unique_playtime_minutes: 80,
        sessions: 3,
        active_days: 2,
        longest_session_minutes: Some(45),
        average_session_minutes: Some(30),
    };
    let top = TopMetrics {
        launcher: named("Prism", 90),
        instance: named("Vanilla", 90),
        version: named(" 1.20.1 ", 90),
        server: named("No server evidence", 0),
        world: named("Not observed", 0),
    };
    let findings = WorldFindings {
        worlds: vec![world("a", WorldAvailability::Available), world("b", WorldAvailability::Missing)],
        statistic_sections: Vec::new(),
        statistics_basis: StatisticsBasis::NoBasis,
        statistics_worlds: 0,
    };
    let profile = assemble_profile(
        "now".to_owned(),
        &Vec::new(),
        (None, Vec::new()),
        &totals,
        &top,
        Vec::new(),
        findings,
        Vec::new(),
    );
    assert!(profile.identity.is_none());
    assert_eq!(profile.summary.sessions, 3);
    assert_eq!(profile.summary.most_played_version.as_deref(), Some("1.20.1"));
    assert_eq!(profile.summary.most_played_world, None);
    assert_eq!(profile.summary.available_worlds, 1);
    assert_eq!(profile.summary.missing_worlds, 1);
    assert_eq!(profile.limitations.len(), 5);
    assert!(profile.random_stats.is_empty());
}

#[test]
fn discovered_installations_are_keyed_by_path_and_saved_settings_win() {
    let game = report(DirectoryKind::GameDirectory, 80, 0, vec!["logs", "saves"]);
    let launcher = report(DirectoryKind::LauncherRoot, 70, 3, vec!["instances", "prismlauncher.cfg"]);
    let found = installation(
        "/home/u/.minecraft".to_owned(),
        b"/home/u/.minecraft",
        AdapterKind::Official,
        "Official Launcher".to_owned(),
        &game,
        "automatic",
        true,
        PlatformKind::Linux,
    );
    assert_eq!(found.instances, 1);
    assert_eq!(found.kind_label, "Official");
    assert!(found.id.starts_with("loc_"));
    let prism = installation(
        "/home/u/prism".to_owned(),
        b"/home/u/prism",
        AdapterKind::Prism,
        "Prism Launcher".to_owned(),
        &launcher,
        "automatic",
        true,
        PlatformKind::Linux,
    );
    assert_eq!(prism.instances, 3);

    let mut set = DiscoveredSet::new();
    set.insert(b"/home/u/prism".to_vec(), prism);
    set.insert(b"/home/u/.minecraft".to_vec(), found);
    let saved = SavedLocation {
        id: "loc_saved".to_owned(),
        path_key: b"/home/u/prism".to_vec(),
        path_display: "/home/u/prism".to_owned(),
        enabled: false,
        validation_score: 10,
    };
    let unseen = saved_installation(&saved, "/home/u/prism".to_owned(), None, PlatformKind::Linux);
    set.merge_saved(&saved, unseen);
    let gone = SavedLocation {
        id: "loc_gone".to_owned(),
        path_key: b"/mnt/old".to_vec(),
        path_display: "/mnt/old".to_owned(),
        enabled: true,
        validation_score: 90,
    };
    let unavailable = saved_installation(&gone, "/mnt/old".to_owned(), None, PlatformKind::Linux);
    set.merge_saved(&gone, unavailable);
    let all = set.into_installations();
    let paths: Vec<_> = all.iter().map(|i| i.path.as_str()).collect();
    assert_eq!(paths, vec!["/home/u/.minecraft", "/home/u/prism", "/mnt/old"]);
    assert_eq!(all[1].id, "loc_saved");
    assert!(!all[1].enabled);
    assert_eq!(all[1].confidence, Confidence::from_score(10));
    assert_eq!(all[2].kind_label, "Unavailable");
    assert!(!all[2].enabled);
    assert_eq!(all[2].instances, 0);
    assert_eq!(all[2].name, "old");
}

#[test]
fn a_saved_location_that_still_validates_is_a_custom_location() {
    let saved = SavedLocation {
        id: "loc_x".to_owned(),
        path_key: b"/srv/mc".to_vec(),
        path_display: "/srv/mc".to_owned(),
        enabled: true,
        validation_score: 50,
    };
    let good = report(DirectoryKind::LauncherRoot, 70, 0, vec!["instances", "multimc.cfg"]);
    let custom = saved_installation(&saved, "/srv/mc".to_owned(), Some(&good), PlatformKind::Linux);
    assert_eq!(custom.kind_label, "Custom");
    assert_eq!(custom.instances, 1);
    assert!(custom.enabled);
    assert_eq!(custom.origin, "custom");
}

#[test]
fn a_refused_location_names_its_markers() {
    assert_eq!(
        unsupported_location_reason(&report(DirectoryKind::Unknown, 0, 0, Vec::new())),
        "No recognized Minecraft directory markers were found."
    );
    assert_eq!(
        unsupported_location_reason(&report(DirectoryKind::GameDirectory, 20, 0, vec!["logs", "options.txt"])),
        "Only these markers were found: logs, options.txt."
    );
}

#[test]
fn summary_ids_and_accents_are_stable() {
    assert_eq!(stable_summary_id("world", &vec!["a", "b"]), stable_id("world", &vec!["a", "b"]));
    let digest = blake3::hash(b"instance-1");
    let expected = match digest.as_bytes()[0] % 4 {
        0 => InstanceAccent::Moss,
        1 => InstanceAccent::Copper,
        2 => InstanceAccent::Quartz,
        _ => InstanceAccent::Slate,
    };
    assert_eq!(accent_for("instance-1"), expected);
}

#[test]
fn sessions_outside_the_calendar_are_not_addable() {
    let session = |start: i64| StoredSession {
        id: "s".to_owned(),
        started_at_ms: start,
        ended_at_ms: None,
        duration_seconds: Some(3_600),
        exit_kind: "clean".to_owned(),
        confidence: "verified".to_owned(),
        instance: "I".to_owned(),
        version: "1.20.1".to_owned(),
        loader: None,
        launcher: "prism".to_owned(),
        kind: "singleplayer".to_owned(),
        destination: "World".to_owned(),
        source: "logs/latest.log".to_owned(),
        utc_offset_minutes: Some(120),
        server_destinations: Vec::new(),
        world_destinations: Vec::new(),
    };
    assert!(session_addable(&session(1_700_000_000_000)));
    assert!(local_date_representable_exec(0, 0));
    assert!(allocation_span_representable_exec(0, 86_400, 3_600));
    let last_ms = 8_210_266_876_799_999i64;
    assert!(!local_date_representable_exec(last_ms, 3_600));
    assert!(!session_addable(&session(last_ms - 1_000)));
    assert_eq!(
        empty_archive_warning(ArchiveState::Unscanned),
        "No completed scan has run yet. Start a scan to build the local archive."
    );
}
