//! Intents backed by a large language model.
pub mod backend;
pub mod summarize;
pub mod summary;
