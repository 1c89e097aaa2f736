//! Judges: language models that score an agent's replies.
pub mod admin;
pub mod config;
pub mod judge;
pub mod merge;
pub mod store;
