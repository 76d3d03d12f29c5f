//! Streaming completion decoding and a bounded tool-use conversation loop
//! for a budget analysis assistant.

pub mod frame;
pub mod json;
pub mod llm;
pub mod stream;
pub mod completion;
pub mod agent;
pub mod text;
pub mod merchant;
pub mod categories;
pub mod prompt;
pub mod sse;
pub mod config;
pub mod search;
