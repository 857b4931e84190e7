//! The `llm.summary` intent under the name `Summarize`.
pub use super::summary::summary::Summary as Summarize;
