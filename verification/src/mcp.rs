//! MCP servers: their configuration, their tools, and the per-user OAuth flow.
pub mod config;
pub mod dcr;
pub mod discovery;
pub mod error;
pub mod oauth;
pub mod pool;
pub mod routes;
pub mod sanitize;
pub mod server;
pub mod sse_client;
pub mod vault;
