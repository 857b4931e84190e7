//! The `web.search` intent.
pub mod html;
pub mod search;
