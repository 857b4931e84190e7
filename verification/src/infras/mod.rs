//! The intents that ship with the library, grouped by the infrastructure they use.
pub mod fs;
pub mod llm;
pub mod web;
