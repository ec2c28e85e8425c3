//! Apila: a general purpose agent harness for coding.

pub mod config;
pub mod json;
pub mod openrouter;
pub mod runtime;
pub mod text;
pub mod tools;
pub mod tui;
