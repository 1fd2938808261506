//! How a play session ended, independent of storage and presentation.

use vstd::prelude::*;

verus! {

#[derive(Clone, Copy, PartialEq, Eq, Debug, Structural)]
pub enum ExitKind {
    Clean,
    Crash,
    Forced,
    Unknown,
}

} // verus!
