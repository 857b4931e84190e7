//! The `llm.summary` intent.
pub mod summary;
