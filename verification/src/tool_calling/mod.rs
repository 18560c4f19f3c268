//! Tool calls in the text that a model emits.
pub mod config;
pub mod harmony;
pub mod json;
pub mod repair;
pub mod response;
pub mod tools;
