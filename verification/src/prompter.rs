//! Agents: what is configured of them, and how their requests reach a provider.
pub mod backend;
pub mod config;
pub mod error;
pub mod testing;
