//! Tool-call parsing and response-stream bookkeeping for an inference runtime.
//!
//! [`tool_calling`] reads tool calls out of text in the Harmony format.
//! [`tcp`] holds the state of a server on which workers call back to deliver
//! response streams, and the protocol that one such connection follows.
pub mod span;
pub mod tcp;
pub mod text;
pub mod tool_calling;
