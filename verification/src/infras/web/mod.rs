//! Intents over the web.
pub mod search;
