pub mod explorer_service;
pub mod parse_budget;
pub mod read_models;
pub mod scan_models;
pub mod scan_service;
pub mod profile_service;
pub mod dashboard_service;
pub mod instance_groups;
pub mod profile_stats;
pub mod archive_budget;
pub mod dashboard_accumulator;
pub mod payload;
pub mod profile_worlds;
pub mod scan_worker;
pub mod profile_accounts;
pub mod profile_assembly;
pub mod discovery_service;
