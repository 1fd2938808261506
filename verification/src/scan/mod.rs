pub mod model;
pub mod inventory;
pub mod fingerprint;
