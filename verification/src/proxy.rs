//! The OpenAI-compatible surface: requests, replies and the shape that they must have.
pub mod chat;
pub mod extractor;
pub mod language;
pub mod response_format;
pub mod shadow;
pub mod tool;
