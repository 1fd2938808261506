pub mod confidence;
pub mod evidence;
pub mod location;
pub mod session;
