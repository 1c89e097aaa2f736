//! Providers of language models: conversations with them, and what they charge.
pub mod conversation;
pub mod kind;
pub mod pricing;
