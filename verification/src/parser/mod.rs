pub mod log_parser;
pub mod minecraft_log;
pub mod recognition;
pub mod session_reconstruction;
pub mod reconstruction_laws;
pub mod source_classifier;
pub mod log_reader;
