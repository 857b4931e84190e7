//! The `fs.list` intent.
pub mod list;
