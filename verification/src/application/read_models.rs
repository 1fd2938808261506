//! The read models that the interface receives.

use vstd::prelude::*;

use crate::domain::confidence::Confidence;

verus! {

/// One page of a collection, with the size of the whole.
pub struct BoundedCollection<T> {
    pub items: Vec<T>,
    pub total: u64,
    pub truncated: bool,
}

#[derive(Clone, Copy, PartialEq, Eq, Debug, Structural)]
pub enum ArchiveState {
    Unscanned,
    ScannedNoEvidence,
    Ready,
}

#[derive(Clone, Copy, PartialEq, Eq, Debug, Structural)]
pub enum InstanceAccent {
    Moss,
    Copper,
    Quartz,
    Slate,
}

#[derive(Clone, Debug)]
pub struct InstanceSummary {
    pub id: String,
    pub name: String,
    pub launcher: String,
    pub version: Option<String>,
    pub loader: Option<String>,
    pub total_minutes: u64,
    pub sessions: u64,
    pub last_played_at: Option<String>,
    /// Mod inventory is not part of the log evidence; `None` is never reported as zero.
    pub mod_count: Option<u64>,
    /// Distinct local-world names observed in session evidence.
    pub world_count: u64,
    pub crash_count: u64,
    pub confidence: Confidence,
    pub accent: InstanceAccent,
}

/// How a destination's runtime was measured.
#[derive(Clone, Copy, PartialEq, Eq, Debug, Structural)]
pub enum RuntimeBasis {
    /// The destination was observed during a session whose full length counts.
    SessionLinked,
}

#[derive(Clone, Debug)]
pub struct WorldSummary {
    pub id: String,
    pub name: String,
    pub instance: String,
    pub mode: Option<String>,
    pub version: Option<String>,
    pub total_minutes: u64,
    pub last_played_at: Option<String>,
    pub size_label: Option<String>,
    pub confidence: Confidence,
    pub runtime_basis: RuntimeBasis,
}

#[derive(Clone, Debug)]
pub struct ServerSummary {
    pub id: String,
    pub name: String,
    pub address: String,
    pub sessions: u64,
    pub total_minutes: u64,
    pub last_played_at: Option<String>,
    pub favorite_version: Option<String>,
    pub confidence: Confidence,
    pub runtime_basis: RuntimeBasis,
}

#[derive(Clone, Copy, PartialEq, Eq, Debug, Structural)]
pub enum VersionKind {
    Release,
    Snapshot,
    Other,
}

#[derive(Clone, Debug)]
pub struct VersionSummary {
    pub id: String,
    pub name: String,
    pub kind: VersionKind,
    pub total_minutes: u64,
    pub sessions: u64,
    pub first_played_at: String,
    pub last_played_at: String,
    pub loaders: Vec<String>,
    pub confidence: Confidence,
}

#[derive(Clone, Copy, PartialEq, Eq, Debug, Structural)]
pub enum CoverageQuality {
    Verified,
    Partial,
    Limited,
    Unknown,
}

#[derive(Clone, Copy, PartialEq, Eq, Debug, Structural)]
pub struct DashboardTotals {
    pub playtime_minutes: u64,
    pub unique_playtime_minutes: u64,
    pub sessions: u64,
    pub active_days: u64,
    pub longest_session_minutes: Option<u64>,
    pub average_session_minutes: Option<u64>,
}

#[derive(Clone, Debug)]
pub struct NamedMinutes {
    pub name: String,
    pub minutes: u64,
}

#[derive(Clone, Debug)]
pub struct TopMetrics {
    pub launcher: NamedMinutes,
    pub instance: NamedMinutes,
    pub version: NamedMinutes,
    pub server: NamedMinutes,
    pub world: NamedMinutes,
}

#[derive(Clone, Copy, PartialEq, Eq, Debug, Structural)]
pub enum MonthlyCoverage {
    Observed,
    Missing,
}

#[derive(Clone, Debug)]
pub struct DailyActivity {
    pub date: String,
    pub minutes: Option<u64>,
    pub sessions: Option<u64>,
    pub confidence: Confidence,
    pub coverage: DailyCoverage,
}

#[derive(Clone, Copy, PartialEq, Eq, Debug, Structural)]
pub enum DailyCoverage {
    Observed,
    Missing,
}

#[derive(Clone, Copy, PartialEq, Eq, Debug, Structural)]
pub enum ExitKind {
    Clean,
    Crash,
    Forced,
    Unknown,
}

#[derive(Clone, Copy, PartialEq, Eq, Debug, Structural)]
pub enum SessionKind {
    Server,
    World,
    Mixed,
    Menu,
}

#[derive(Clone, Copy, PartialEq, Eq, Debug, Structural)]
pub enum SessionContextKind {
    Server,
    World,
}

#[derive(Clone, Debug)]
pub struct SessionContext {
    pub kind: SessionContextKind,
    pub name: String,
}

#[derive(Clone, Debug)]
pub struct Session {
    pub id: String,
    pub started_at: String,
    pub ended_at: Option<String>,
    pub duration_minutes: Option<u64>,
    pub launcher: String,
    pub instance: String,
    pub version: String,
    pub loader: Option<String>,
    pub kind: SessionKind,
    pub destination: Option<String>,
    pub contexts: Vec<SessionContext>,
    pub exit_kind: ExitKind,
    pub confidence: Confidence,
    pub source: String,
    pub note: Option<String>,
}

} // verus!
