//! Kinds of typed evidence that parsers emit.

use vstd::prelude::*;

verus! {

#[derive(Clone, Copy, PartialEq, Eq, Debug, Structural)]
pub enum EvidenceKind {
    GameStarted,
    VersionObserved,
    ServerJoined,
    WorldJoined,
    Disconnected,
    CleanShutdown,
    Crash,
}

} // verus!
