//! Intents over the file system.
pub mod list;
