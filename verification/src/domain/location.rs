//! Launcher locations: platforms, adapters and the validation of a directory.

use vstd::prelude::*;

use crate::domain::confidence::{confidence_from_score, Confidence};

verus! {

#[derive(Clone, Copy, PartialEq, Eq, Debug, Structural)]
pub enum PlatformKind {
    Windows,
    Macos,
    Linux,
}

pub open spec fn platform_name(p: PlatformKind) -> Seq<char> {
    match p {
        PlatformKind::Windows => "windows"@,
        PlatformKind::Macos => "macos"@,
        PlatformKind::Linux => "linux"@,
    }
}

impl PlatformKind {
    pub fn as_str(self) -> (r: &'static str)
        ensures
            r@ == platform_name(self),
    {
        match self {
            PlatformKind::Windows => "windows",
            PlatformKind::Macos => "macos",
            PlatformKind::Linux => "linux",
        }
    }
}

#[derive(Clone, Copy, PartialEq, Eq, Debug, Structural)]
pub enum AdapterKind {
    Official,
    Prism,
    MultiMc,
    Manual,
}

pub open spec fn adapter_name(k: AdapterKind) -> Seq<char> {
    match k {
        AdapterKind::Official => "official"@,
        AdapterKind::Prism => "prism"@,
        AdapterKind::MultiMc => "multimc"@,
        AdapterKind::Manual => "manual"@,
    }
}

pub open spec fn adapter_label(k: AdapterKind) -> Seq<char> {
    match k {
        AdapterKind::Official => "Official"@,
        AdapterKind::Prism => "Prism"@,
        AdapterKind::MultiMc => "MultiMC"@,
        AdapterKind::Manual => "Custom"@,
    }
}

impl AdapterKind {
    pub fn as_str(self) -> (r: &'static str)
        ensures
            r@ == adapter_name(self),
    {
        match self {
            AdapterKind::Official => "official",
            AdapterKind::Prism => "prism",
            AdapterKind::MultiMc => "multimc",
            AdapterKind::Manual => "manual",
        }
    }

    pub fn label(self) -> (r: &'static str)
        ensures
            r@ == adapter_label(self),
    {
        match self {
            AdapterKind::Official => "Official",
            AdapterKind::Prism => "Prism",
            AdapterKind::MultiMc => "MultiMC",
            AdapterKind::Manual => "Custom",
        }
    }
}

#[derive(Clone, Copy, PartialEq, Eq, Debug, Structural)]
pub enum DirectoryKind {
    GameDirectory,
    LauncherRoot,
    InstanceDirectory,
    Unknown,
}

/// What validation found in a directory: its kind, a score out of 100, the
/// number of game directories it holds, and the marker files it has.
#[derive(Clone, Debug)]
pub struct ValidationReport {
    pub kind: DirectoryKind,
    pub score: u8,
    pub instance_count: usize,
    pub markers: Vec<&'static str>,
}

/// A report is usable when its kind is known and two or more markers give at least 30 points.
pub open spec fn report_supported(kind: DirectoryKind, marker_count: nat, score: u8) -> bool {
    kind != DirectoryKind::Unknown && marker_count >= 2 && score >= 30
}

impl ValidationReport {
    pub fn is_supported(&self) -> (r: bool)
        ensures
            r == report_supported(self.kind, self.markers@.len(), self.score),
    {
        self.kind != DirectoryKind::Unknown && self.markers.len() >= 2 && self.score >= 30
    }

    pub fn confidence(&self) -> (r: Confidence)
        ensures
            r == confidence_from_score(self.score),
    {
        Confidence::from_score(self.score)
    }
}

/// A launcher installation found on disk or approved by the user.
#[derive(Clone, Debug)]
pub struct DiscoveredInstallation {
    pub id: String,
    pub name: String,
    pub kind_label: String,
    pub adapter_kind: AdapterKind,
    pub path: String,
    pub instances: usize,
    pub confidence: Confidence,
    pub validation_score: u8,
    pub enabled: bool,
    pub platform: PlatformKind,
    pub origin: &'static str,
}

} // verus!
