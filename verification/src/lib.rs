//! Verified core of the Coulisse multi-agent server.
pub mod crypto;
pub mod display;
pub mod fences;
pub mod floats;
pub mod ids;
pub mod json;
pub mod judges;
pub mod limits;
pub mod mcp;
pub mod memory;
pub mod names;
pub mod numbers;
pub mod order;
pub mod prompter;
pub mod providers;
pub mod proxy;
pub mod seqs;
pub mod text;
pub mod urls;
