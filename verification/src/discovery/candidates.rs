//! Where each launcher keeps its data on each platform.

use vstd::prelude::*;

use crate::domain::location::PlatformKind;
use crate::platform::paths::{join_path, opt_string_view, path_join, PlatformPaths};

verus! {

/// The one candidate under `base`, when the base directory is known.
pub open spec fn candidate_under(base: Option<Seq<char>>, path: spec_fn(Seq<char>) -> Seq<char>) -> Seq<
    Seq<char>,
> {
    match base {
        Some(b) => seq![path(b)],
        None => Seq::empty(),
    }
}

pub open spec fn string_views(v: Seq<String>) -> Seq<Seq<char>> {
    v.map_values(|s: String| s@)
}

/// Official launcher: `.minecraft` under roaming data on Windows and under
/// home on Linux; `Library/Application Support/minecraft` under home on macOS.
pub open spec fn official_spec(paths: PlatformPaths) -> Seq<Seq<char>> {
    match paths.platform {
        PlatformKind::Windows => candidate_under(
            opt_string_view(paths.roaming_data),
            |b: Seq<char>| path_join(b, ".minecraft"@),
        ),
        PlatformKind::Macos => candidate_under(
            opt_string_view(paths.home),
            |b: Seq<char>|
                path_join(path_join(path_join(b, "Library"@), "Application Support"@), "minecraft"@),
        ),
        PlatformKind::Linux => candidate_under(
            opt_string_view(paths.home),
            |b: Seq<char>| path_join(b, ".minecraft"@),
        ),
    }
}

/// Prism Launcher: `PrismLauncher` under roaming data on Windows, under
/// `Library/Application Support` on macOS and under `.local/share` on Linux.
pub open spec fn prism_spec(paths: PlatformPaths) -> Seq<Seq<char>> {
    match paths.platform {
        PlatformKind::Windows => candidate_under(
            opt_string_view(paths.roaming_data),
            |b: Seq<char>| path_join(b, "PrismLauncher"@),
        ),
        PlatformKind::Macos => candidate_under(
            opt_string_view(paths.home),
            |b: Seq<char>|
                path_join(
                    path_join(path_join(b, "Library"@), "Application Support"@),
                    "PrismLauncher"@,
                ),
        ),
        PlatformKind::Linux => candidate_under(
            opt_string_view(paths.home),
            |b: Seq<char>| path_join(path_join(path_join(b, ".local"@), "share"@), "PrismLauncher"@),
        ),
    }
}

pub fn official(paths: &PlatformPaths) -> (r: Vec<String>)
    ensures
        string_views(r@) == official_spec(*paths),
{
    let mut r: Vec<String> = Vec::new();
    match paths.platform {
        PlatformKind::Windows => {
            if let Some(base) = &paths.roaming_data {
                r.push(join_path(base.as_str(), ".minecraft"));
            }
        },
        PlatformKind::Macos => {
            if let Some(home) = &paths.home {
                let library = join_path(home.as_str(), "Library");
                let support = join_path(library.as_str(), "Application Support");
                r.push(join_path(support.as_str(), "minecraft"));
            }
        },
        PlatformKind::Linux => {
            if let Some(home) = &paths.home {
                r.push(join_path(home.as_str(), ".minecraft"));
            }
        },
    }
    assert(string_views(r@) =~= official_spec(*paths));
    r
}

pub fn prism(paths: &PlatformPaths) -> (r: Vec<String>)
    ensures
        string_views(r@) == prism_spec(*paths),
{
    let mut r: Vec<String> = Vec::new();
    match paths.platform {
        PlatformKind::Windows => {
            if let Some(base) = &paths.roaming_data {
                r.push(join_path(base.as_str(), "PrismLauncher"));
            }
        },
        PlatformKind::Macos => {
            if let Some(home) = &paths.home {
                let library = join_path(home.as_str(), "Library");
                let support = join_path(library.as_str(), "Application Support");
                r.push(join_path(support.as_str(), "PrismLauncher"));
            }
        },
        PlatformKind::Linux => {
            if let Some(home) = &paths.home {
                let local = join_path(home.as_str(), ".local");
                let share = join_path(local.as_str(), "share");
                r.push(join_path(share.as_str(), "PrismLauncher"));
            }
        },
    }
    assert(string_views(r@) =~= prism_spec(*paths));
    r
}

} // verus!
