//! Configuration of the tool-call parsers.
use vstd::prelude::*;

verus! {

/// What a tool-call parser looks for, and how far it goes to recover a call.
#[derive(Clone, Debug)]
pub struct JsonParserConfig {
    /// The tokens that open a tool call.
    pub tool_call_start_tokens: Vec<String>,
    /// The tokens that close a tool call.
    pub tool_call_end_tokens: Vec<String>,
    /// The text is complete, so a call that was cut off may be recovered.
    pub allow_eof_recovery: bool,
}

impl Default for JsonParserConfig {
    /// No tokens, and no recovery.
    fn default() -> (config: Self)
        ensures
            config.tool_call_start_tokens@ == Seq::<String>::empty(),
            config.tool_call_end_tokens@ == Seq::<String>::empty(),
            !config.allow_eof_recovery,
    {
        JsonParserConfig {
            tool_call_start_tokens: Vec::new(),
            tool_call_end_tokens: Vec::new(),
            allow_eof_recovery: false,
        }
    }
}

/// The characters of each text in a list.
pub open spec fn texts(list: Seq<String>) -> Seq<Seq<char>> {
    list.map_values(|s: String| s@)
}

} // verus!
