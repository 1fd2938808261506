//! The launchers that automatic discovery looks for, in the order it asks them.

use vstd::prelude::*;

use crate::discovery::adapter::{LauncherAdapter, OfficialAdapter, PrismAdapter};
use crate::discovery::candidates::{official_spec, prism_spec, string_views};
use crate::domain::location::{AdapterKind, DirectoryKind, ValidationReport};
use crate::platform::paths::PlatformPaths;

verus! {

/// One adapter of the registry.
pub enum RegisteredAdapter {
    Official(OfficialAdapter),
    Prism(PrismAdapter),
}

pub open spec fn registered_kind(a: &RegisteredAdapter) -> AdapterKind {
    match a {
        RegisteredAdapter::Official(_) => AdapterKind::Official,
        RegisteredAdapter::Prism(_) => AdapterKind::Prism,
    }
}

impl LauncherAdapter for RegisteredAdapter {
    fn kind(&self) -> (r: AdapterKind)
        ensures
            r == registered_kind(self),
    {
        match self {
            RegisteredAdapter::Official(a) => a.kind(),
            RegisteredAdapter::Prism(a) => a.kind(),
        }
    }

    fn display_name(&self) -> (r: &'static str)
        ensures
            r@ == (match self {
                RegisteredAdapter::Official(_) => "Official Launcher"@,
                RegisteredAdapter::Prism(_) => "Prism Launcher"@,
            }),
    {
        match self {
            RegisteredAdapter::Official(a) => a.display_name(),
            RegisteredAdapter::Prism(a) => a.display_name(),
        }
    }

    fn candidate_paths(&self, paths: &PlatformPaths) -> (r: Vec<String>)
        ensures
            string_views(r@) == (match self {
                RegisteredAdapter::Official(_) => official_spec(*paths),
                RegisteredAdapter::Prism(_) => prism_spec(*paths),
            }),
    {
        match self {
            RegisteredAdapter::Official(a) => a.candidate_paths(paths),
            RegisteredAdapter::Prism(a) => a.candidate_paths(paths),
        }
    }

    fn accepts(&self, report: &ValidationReport) -> (r: bool)
        ensures
            r == (match self {
                RegisteredAdapter::Official(_) => report.kind == DirectoryKind::GameDirectory,
                RegisteredAdapter::Prism(_) => report.kind == DirectoryKind::LauncherRoot,
            }),
    {
        match self {
            RegisteredAdapter::Official(a) => a.accepts(report),
            RegisteredAdapter::Prism(a) => a.accepts(report),
        }
    }
}

pub struct AdapterRegistry {
    adapters: Vec<RegisteredAdapter>,
}

impl AdapterRegistry {
    pub closed spec fn kinds(&self) -> Seq<AdapterKind> {
        self.adapters@.map_values(|a: RegisteredAdapter| registered_kind(&a))
    }

    /// The official launcher first, then Prism Launcher.
    pub fn standard() -> (r: AdapterRegistry)
        ensures
            r.kinds() == seq![AdapterKind::Official, AdapterKind::Prism],
    {
        let mut adapters: Vec<RegisteredAdapter> = Vec::new();
        adapters.push(RegisteredAdapter::Official(OfficialAdapter));
        adapters.push(RegisteredAdapter::Prism(PrismAdapter));
        let r = AdapterRegistry { adapters };
        assert(r.kinds() =~= seq![AdapterKind::Official, AdapterKind::Prism]);
        r
    }

    /// The adapters in the order discovery asks them.
    pub fn iter(&self) -> (r: &[RegisteredAdapter])
        ensures
            r@.map_values(|a: RegisteredAdapter| registered_kind(&a)) == self.kinds(),
    {
        self.adapters.as_slice()
    }
}

} // verus!
