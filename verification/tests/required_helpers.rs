use minetrace::application::explorer_service::classify_version;
use minetrace::application::profile_service::{display_uuid, normalize_uuid, png_dimensions};
use minetrace::application::read_models::VersionKind;
use minetrace::application::scan_service::{normalize_server_address, sort_logs_chronologically};
use minetrace::encoding::base64_encode;
use minetrace::scan::model::{FileFingerprint, FingerprintedLog, LogCandidate, LogFileKind};

#[test]
fn arbitrary_log_derived_version_text_cannot_panic_classification() {
    assert!(matches!(classify_version("1.20.1"), VersionKind::Release));
    assert!(matches!(classify_version("24w10a"), VersionKind::Snapshot));
    assert!(matches!(classify_version("版本"), VersionKind::Other));
    assert!(matches!(classify_version("24w12α"), VersionKind::Other));
    assert!(matches!(classify_version("1.20-pre1"), VersionKind::Other));
}

#[test]
fn uuid_helpers_normalize_launcher_formats() {
    let compact = "123456781234123412341234567890ab";
    assert_eq!(normalize_uuid(compact).as_deref(), Some(compact));
    assert_eq!(display_uuid(compact), "12345678-1234-1234-1234-1234567890ab");
}

#[test]
fn png_and_base64_helpers_accept_a_skin_header() {
    let mut png = b"\x89PNG\r\n\x1a\n\0\0\0\rIHDR".to_vec();
    png.extend_from_slice(&64u32.to_be_bytes());
    png.extend_from_slice(&64u32.to_be_bytes());
    assert_eq!(png_dimensions(&png), Some((64, 64)));
    assert_eq!(base64_encode(b"skin"), "c2tpbg==");
}

#[test]
fn server_normalization_is_host_and_port_aware_without_damaging_ipv6() {
    assert_eq!(normalize_server_address(" PLAY.EXAMPLE.NET.:25565 "), "play.example.net");
    assert_eq!(normalize_server_address("play.example.net."), "play.example.net");
    assert_eq!(normalize_server_address("PLAY.EXAMPLE.NET.:25566"), "play.example.net:25566");
    assert_eq!(normalize_server_address("[2001:DB8::1]:25565"), "[2001:db8::1]");
    assert_eq!(normalize_server_address("[2001:DB8::1]:25566"), "[2001:db8::1]:25566");
    assert_eq!(normalize_server_address("2001:DB8::25565"), "2001:db8::25565");
}

fn fingerprinted_log(relative_path: &str, modified_at_ms: i64) -> FingerprintedLog {
    let relative_path_key = relative_path.as_bytes().to_vec();
    FingerprintedLog {
        candidate: LogCandidate {
            approved_root: "/not-read".to_owned(),
            absolute_path: format!("/not-read/{relative_path}"),
            relative_path: relative_path.to_owned(),
            relative_path_key,
            kind: LogFileKind::Log,
            observed_size_bytes: 0,
        },
        fingerprint: FileFingerprint {
            size_bytes: 0,
            modified_at_ms,
            birthtime_ms: None,
            prefix_hash: [0; 32],
            full_hash: [0; 32],
            comparison_prefix_len: None,
            comparison_prefix_hash: None,
        },
    }
}

#[test]
fn dated_rotations_ignore_inverted_mtimes_and_latest_log_is_always_last() {
    let mut logs = vec![
        fingerprinted_log("logs/latest.log", -100),
        fingerprinted_log("logs/2026-08-10-2.log.gz", 10),
        fingerprinted_log("logs/2026-08-09-9.log.gz", 900),
        fingerprinted_log("logs/2026-08-10-1.log.gz", 800),
        fingerprinted_log("logs/custom-b.log", 50),
        fingerprinted_log("logs/custom-a.log", 50),
    ];

    sort_logs_chronologically(&mut logs);

    let ordered = logs
        .iter()
        .map(|log| log.candidate.relative_path.clone())
        .collect::<Vec<_>>();
    assert_eq!(
        ordered,
        vec![
            "logs/2026-08-09-9.log.gz",
            "logs/2026-08-10-1.log.gz",
            "logs/2026-08-10-2.log.gz",
            "logs/custom-a.log",
            "logs/custom-b.log",
            "logs/latest.log",
        ]
    );
}
