//! A library for building intent-based tools: intents are units of behaviour
//! identified by a dot-separated path, routed by a dispatcher.
pub mod text;
pub mod json;
pub mod types;
pub mod intent;
pub mod dispatcher;
pub mod infras;
