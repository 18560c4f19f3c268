//! The Harmony response format.
pub mod classes;
pub mod commentary;
pub mod complete;
pub mod detect;
pub mod encoding;
