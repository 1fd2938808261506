//! Verified core of a local Minecraft play-history archive.

use vstd::prelude::*;

pub mod api;
pub mod application;
pub mod calendar;
pub mod discovery;
pub mod domain;
pub mod encoding;
pub mod external;
pub mod parser;
pub mod platform;
pub mod scan;
pub mod text;

verus! {

} // verus!
