pub mod adapter;
pub mod candidates;
pub mod registry;
pub mod validation;
