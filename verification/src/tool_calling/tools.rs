//! The tools that a model may call.
use vstd::prelude::*;

verus! {

/// A tool that was offered to the model.
#[derive(Debug)]
pub struct ToolDefinition {
    /// The name of the tool.
    pub name: String,
    /// The schema of its parameters, if it has any.
    pub parameters: Option<serde_json::Value>,
}

} // verus!
