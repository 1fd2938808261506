//! Launcher adapters: which candidate directories a launcher has, and which
//! validated directories it takes as its own.

use vstd::prelude::*;

use crate::discovery::candidates::{official, official_spec, prism, prism_spec, string_views};
use crate::domain::location::{AdapterKind, DirectoryKind, ValidationReport};
use crate::platform::paths::PlatformPaths;

verus! {

pub trait LauncherAdapter {
    fn kind(&self) -> AdapterKind;

    fn display_name(&self) -> &'static str;

    fn candidate_paths(&self, paths: &PlatformPaths) -> Vec<String>;

    fn accepts(&self, report: &ValidationReport) -> bool;
}

/// The official Minecraft launcher; it owns game directories.
pub struct OfficialAdapter;

impl LauncherAdapter for OfficialAdapter {
    fn kind(&self) -> (r: AdapterKind)
        ensures
            r == AdapterKind::Official,
    {
        AdapterKind::Official
    }

    fn display_name(&self) -> (r: &'static str)
        ensures
            r@ == "Official Launcher"@,
    {
        "Official Launcher"
    }

    fn candidate_paths(&self, paths: &PlatformPaths) -> (r: Vec<String>)
        ensures
            string_views(r@) == official_spec(*paths),
    {
        official(paths)
    }

    fn accepts(&self, report: &ValidationReport) -> (r: bool)
        ensures
            r == (report.kind == DirectoryKind::GameDirectory),
    {
        report.kind == DirectoryKind::GameDirectory
    }
}

/// Prism Launcher; it owns launcher roots that hold instances.
pub struct PrismAdapter;

impl LauncherAdapter for PrismAdapter {
    fn kind(&self) -> (r: AdapterKind)
        ensures
            r == AdapterKind::Prism,
    {
        AdapterKind::Prism
    }

    fn display_name(&self) -> (r: &'static str)
        ensures
            r@ == "Prism Launcher"@,
    {
        "Prism Launcher"
    }

    fn candidate_paths(&self, paths: &PlatformPaths) -> (r: Vec<String>)
        ensures
            string_views(r@) == prism_spec(*paths),
    {
        prism(paths)
    }

    fn accepts(&self, report: &ValidationReport) -> (r: bool)
        ensures
            r == (report.kind == DirectoryKind::LauncherRoot),
    {
        report.kind == DirectoryKind::LauncherRoot
    }
}

} // verus!
