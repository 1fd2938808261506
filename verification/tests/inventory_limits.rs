use minetrace::application::profile_worlds::{more_roots_allowed, root_search, RootSearch, MAX_GAME_ROOTS};
use minetrace::application::scan_worker::ParseFailure;
use minetrace::calendar::{CalendarDate, LocalDateTime, OffsetDateTime, TimeOfDay};
use minetrace::domain::location::AdapterKind;
use minetrace::parser::log_parser::context_is_valid;
use minetrace::parser::minecraft_log::LogParseContext;
use minetrace::parser::log_parser::{LogLimitResource, LogParseLimitExceeded};
use minetrace::scan::inventory::{file_size_allowed, visit_entry, InventoryOptions};

#[test]
fn the_entry_limit_counts_visited_entries() {
    let options = InventoryOptions { max_depth: 4, max_entries: 2, max_file_size_bytes: 10 };
    assert_eq!(visit_entry(&options, 0), Some(1));
    assert_eq!(visit_entry(&options, 1), Some(2));
    assert_eq!(visit_entry(&options, 2), None);
}

#[test]
fn files_up_to_the_size_limit_are_kept() {
    let options = InventoryOptions { max_depth: 4, max_entries: 2, max_file_size_bytes: 10 };
    assert!(file_size_allowed(&options, 0));
    assert!(file_size_allowed(&options, 10));
    assert!(!file_size_allowed(&options, 11));
}

#[test]
fn a_reported_limit_is_a_resource_failure() {
    let limit = LogParseLimitExceeded { resource: LogLimitResource::LineCount, limit: 3 };
    assert_eq!(ParseFailure::from_read(Some(limit)), ParseFailure::ResourceLimited);
    assert_eq!(ParseFailure::from_read(None), ParseFailure::Unreadable);
}

#[test]
fn directory_entries_are_visited_in_name_byte_order() {
    let mut entries = vec![(b"logs".to_vec(), 0), (b"Logs".to_vec(), 1), (b"a-b".to_vec(), 2), (b"a".to_vec(), 3)];
    minetrace::scan::inventory::sort_entries_by_name(&mut entries);
    let order: Vec<usize> = entries.iter().map(|(_, index)| *index).collect();
    assert_eq!(order, vec![1, 3, 2, 0]);
}

#[test]
fn game_directories_are_looked_for_by_launcher_kind() {
    assert_eq!(
        root_search(AdapterKind::Official),
        RootSearch { own_directory: true, probed_directories: false, instances: false }
    );
    assert_eq!(
        root_search(AdapterKind::Prism),
        RootSearch { own_directory: false, probed_directories: false, instances: true }
    );
    assert_eq!(root_search(AdapterKind::MultiMc), root_search(AdapterKind::Prism));
    assert_eq!(
        root_search(AdapterKind::Manual),
        RootSearch { own_directory: false, probed_directories: true, instances: true }
    );
    assert!(more_roots_allowed(MAX_GAME_ROOTS - 1));
    assert!(!more_roots_allowed(MAX_GAME_ROOTS));
}

#[test]
fn parse_contexts_with_invalid_dates_are_refused() {
    let good = LogParseContext::new("latest", 1).with_date_hint(CalendarDate { year: 2024, month: 2, day: 29 });
    assert!(context_is_valid(&good));
    let bad_day = LogParseContext::new("latest", 1).with_date_hint(CalendarDate { year: 2023, month: 2, day: 29 });
    assert!(!context_is_valid(&bad_day));
    let end = OffsetDateTime {
        local: LocalDateTime {
            date: CalendarDate { year: 2024, month: 3, day: 1 },
            time: TimeOfDay { hour: 24, minute: 0, second: 0, nano: 0 },
        },
        offset_seconds: 0,
    };
    assert!(!context_is_valid(&LogParseContext::new("latest", 1).with_source_end_hint(end)));
}
