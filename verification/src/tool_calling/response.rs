//! Tool calls as they are handed to the caller.
use crate::text::{decimal, decimal_text, joined};
use vstd::prelude::*;

verus! {

/// The kind of a tool call.
#[derive(Clone, Copy, Debug, PartialEq, Eq, Structural)]
pub enum ToolCallType {
    /// A function call.
    Function,
}

/// The function that a tool call names, with its arguments as JSON text.
#[derive(Clone, Debug)]
pub struct CalledFunction {
    /// The name of the function.
    pub name: String,
    /// The arguments.
    pub arguments: String,
}

/// One tool call.
#[derive(Clone, Debug)]
pub struct ToolCallResponse {
    /// The identifier of the call within the response.
    pub id: String,
    /// The kind of the call.
    pub tp: ToolCallType,
    /// The function and its arguments.
    pub function: CalledFunction,
}

/// What a tool call holds.
pub struct ToolCallView {
    /// The identifier of the call.
    pub id: Seq<char>,
    /// The kind of the call.
    pub tp: ToolCallType,
    /// The name of the function.
    pub name: Seq<char>,
    /// The arguments.
    pub arguments: Seq<char>,
}

impl View for ToolCallResponse {
    type V = ToolCallView;

    open spec fn view(&self) -> ToolCallView {
        ToolCallView {
            id: self.id@,
            tp: self.tp,
            name: self.function.name@,
            arguments: self.function.arguments@,
        }
    }
}

/// What each call of a list holds.
pub open spec fn call_views(calls: Seq<ToolCallResponse>) -> Seq<ToolCallView> {
    calls.map_values(|c: ToolCallResponse| c@)
}

/// The identifier of the call with the given number.
pub open spec fn call_id(number: nat) -> Seq<char> {
    "call-"@ + decimal(number)
}

/// The function call with the given number.
pub open spec fn function_call(number: nat, name: Seq<char>, arguments: Seq<char>) -> ToolCallView {
    ToolCallView { id: call_id(number), tp: ToolCallType::Function, name, arguments }
}

/// The function call with the given number.
pub fn make_function_call(number: u64, name: String, arguments: String) -> (call: ToolCallResponse)
    ensures
        call@ == function_call(number as nat, name@, arguments@),
{
    let numeral = decimal_text(number);
    ToolCallResponse {
        id: joined("call-", numeral.as_str()),
        tp: ToolCallType::Function,
        function: CalledFunction { name, arguments },
    }
}

/// Calls with different numbers have different identifiers.
pub proof fn call_ids_are_distinct(m: nat, n: nat)
    requires
        m != n,
    ensures
        call_id(m) != call_id(n),
{
    decimal_is_injective(m, n);
    if call_id(m) == call_id(n) {
        let k = "call-"@.len() as int;
        assert(decimal(m) =~= call_id(m).skip(k));
        assert(decimal(n) =~= call_id(n).skip(k));
    }
}

/// Different numbers have different numerals.
proof fn decimal_is_injective(m: nat, n: nat)
    requires
        m != n,
    ensures
        decimal(m) != decimal(n),
    decreases m + n,
{
    decimal_is_not_empty(m / 10);
    decimal_is_not_empty(n / 10);
    let a = decimal(m);
    let b = decimal(n);
    if a == b {
        assert(a.last() == b.last());
        assert(m % 10 == n % 10);
        if m >= 10 && n >= 10 {
            assert(a.drop_last() =~= decimal(m / 10));
            assert(b.drop_last() =~= decimal(n / 10));
            if m / 10 != n / 10 {
                decimal_is_injective(m / 10, n / 10);
            }
        }
    }
}

/// A numeral has at least one digit.
proof fn decimal_is_not_empty(n: nat)
    ensures
        decimal(n).len() > 0,
{
}

} // verus!
