//! What is remembered of users: their conversations, and facts about them.
pub mod admin;
pub mod config;
pub mod embedder;
pub mod error;
pub mod extractor;
pub mod store;
pub mod types;
