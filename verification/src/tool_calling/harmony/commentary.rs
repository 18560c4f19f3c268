//! Recovery of tool calls from text that the tokenizer's parser rejects.
//!
//! A call stands in a commentary block: the channel marker with the recipient, a
//! message marker, the arguments, and a call marker or the end of the text.
use crate::span::{
    bounds_stretch, byte_len, slice, stretch, stretches_join, whole_stretch,
};
use crate::text::{decimal, occurs_at, trim, trimmed, white_space};
use crate::tool_calling::json::{json_text, json_value, parse_json, write_json};
use crate::tool_calling::repair::{
    cut_fits, cut_text, divides, every_cut_is_repaired, repaired, try_repair_truncated_json,
    what_cannot_be_repaired, whole_text, Cut,
};
use crate::tool_calling::response::{
    call_id, call_ids_are_distinct, call_views, function_call, make_function_call,
    ToolCallResponse, ToolCallType, ToolCallView,
};
use vstd::prelude::*;
use vstd::string::*;
use vstd::utf8::encode_utf8;

verus! {

/// A compiled regular expression.
#[verifier::external_type_specification]
#[verifier::external_body]
pub struct ExRegex(regex::Regex);

/// The reason why a pattern was refused.
#[verifier::external_type_specification]
#[verifier::external_body]
pub struct ExRegexError(regex::Error);

/// The pattern of a commentary block. The name of the function is made of word
/// characters, dots and hyphens. Between the name and the message marker only white
/// space and a constraint to JSON may stand, so that the marker is that of the same
/// message. The arguments end at the first call marker, or at the end of the text
/// where the model never got to write one.
pub const COMMENTARY_PATTERN: &'static str = r"(?s)<\|channel\|>commentary to=functions\.(?P<name>[\w.\-]+)\s*(?:<\|constrain\|>json\s*)?<\|message\|>(?P<args>.*?)(?:<\|call\|>|\z)";

/// One match of a pattern with two named groups, by byte offsets.
#[derive(Clone, Copy, Debug)]
pub struct Capture {
    /// Where the match begins.
    pub start: usize,
    /// Where the match ends.
    pub end: usize,
    /// Where the first group begins and ends, if it took part in the match.
    pub first: Option<(usize, usize)>,
    /// Where the second group begins and ends, if it took part in the match.
    pub second: Option<(usize, usize)>,
}

/// The offsets bound a stretch of `text` that lies within a match.
pub open spec fn group_within(text: Seq<char>, c: Capture, group: Option<(usize, usize)>) -> bool {
    group matches Some((a, b)) ==> c.start <= a <= b <= c.end && bounds_stretch(
        text,
        a as int,
        b as int,
    )
}

/// Matches in a text: each bounds a stretch, with its groups inside it, and each
/// ends before the next begins.
pub open spec fn successive(text: Seq<char>, found: Seq<Capture>) -> bool {
    &&& forall|i: int|
        #![trigger found[i]]
        0 <= i < found.len() ==> {
            &&& bounds_stretch(text, found[i].start as int, found[i].end as int)
            &&& group_within(text, found[i], found[i].first)
            &&& group_within(text, found[i], found[i].second)
        }
    &&& forall|i: int, j: int|
        #![trigger found[i], found[j]]
        0 <= i < j < found.len() ==> found[i].end <= found[j].start
}

/// What opens a commentary block, up to the name of the function.
pub open spec fn block_opening() -> Seq<char> {
    "<|channel|>commentary to=functions."@
}

/// The constraint of a message to JSON.
pub open spec fn constraint_marker() -> Seq<char> {
    "<|constrain|>json"@
}

/// What stands before the arguments.
pub open spec fn message_marker() -> Seq<char> {
    "<|message|>"@
}

/// What ends the arguments.
pub open spec fn call_marker() -> Seq<char> {
    "<|call|>"@
}

/// An ASCII character that a function name may hold.
pub open spec fn name_char(c: char) -> bool {
    ||| '0' <= c <= '9'
    ||| 'A' <= c <= 'Z'
    ||| 'a' <= c <= 'z'
    ||| c == '_'
    ||| c == '.'
    ||| c == '-'
}

/// A name that is not empty, of characters that a function name may hold; of those
/// outside ASCII it is not said which.
pub open spec fn name_look(s: Seq<char>) -> bool {
    s.len() > 0 && forall|i: int|
        0 <= i < s.len() ==> name_char(#[trigger] s[i]) || s[i] as u32 >= 0x80
}

/// Nothing but white space.
pub open spec fn blank(s: Seq<char>) -> bool {
    forall|i: int| 0 <= i < s.len() ==> white_space(#[trigger] s[i])
}

/// A constraint to JSON between two stretches.
pub open spec fn constrained(a: Seq<char>, b: Seq<char>) -> Seq<char> {
    a + constraint_marker() + b
}

/// What may stand between the name and the message marker: white space, with or
/// without a constraint to JSON in it.
pub open spec fn header_gap(s: Seq<char>) -> bool {
    blank(s) || exists|a: Seq<char>, b: Seq<char>|
        blank(a) && blank(b) && s == #[trigger] constrained(a, b)
}

/// How a commentary block is laid out between the byte offsets `start` and `end`:
/// the opening, the name, what may stand behind it, the message marker at offset
/// `message`, and the arguments, which reach to the first call marker or, where
/// there is none, to the end of the text.
pub open spec fn block_layout(
    text: Seq<char>,
    start: int,
    end: int,
    name: (int, int),
    message: int,
    args: (int, int),
) -> bool {
    let n = encode_utf8(text).len() as int;
    let rest = stretch(text, args.0, n);
    let arguments = stretch(text, args.0, args.1);
    &&& bounds_stretch(text, start, name.0)
    &&& bounds_stretch(text, name.0, name.1)
    &&& bounds_stretch(text, name.1, message)
    &&& bounds_stretch(text, message, args.0)
    &&& bounds_stretch(text, args.0, args.1)
    &&& bounds_stretch(text, args.1, end)
    &&& stretch(text, start, name.0) == block_opening()
    &&& name_look(stretch(text, name.0, name.1))
    &&& header_gap(stretch(text, name.1, message))
    &&& stretch(text, message, args.0) == message_marker()
    &&& forall|i: int|
        0 <= i < arguments.len() ==> !#[trigger] occurs_at(rest, call_marker(), i)
    &&& {
        ||| stretch(text, args.1, end) == call_marker()
        ||| args.1 == end == n
    }
}

/// A match is a commentary block, with the name and the arguments as its groups.
pub open spec fn commentary_block(text: Seq<char>, c: Capture) -> bool {
    &&& c.first is Some
    &&& c.second is Some
    &&& exists|message: int| #[trigger]
        block_layout(
            text,
            c.start as int,
            c.end as int,
            ((c.first->0).0 as int, (c.first->0).1 as int),
            message,
            ((c.second->0).0 as int, (c.second->0).1 as int),
        )
}

/// A commentary block stands in a text behind `before`: the opening, a name of ASCII
/// characters, what may stand behind a name, and a message marker.
pub open spec fn block_stands(
    text: Seq<char>,
    before: Seq<char>,
    name: Seq<char>,
    gap: Seq<char>,
    after: Seq<char>,
) -> bool {
    &&& text == before + block_opening() + name + gap + message_marker() + after
    &&& name.len() > 0
    &&& forall|i: int| 0 <= i < name.len() ==> name_char(#[trigger] name[i])
    &&& header_gap(gap)
}

/// The matches are the commentary blocks of a text: each match is one, and
/// wherever a block stands there is a match.
pub open spec fn commentary_blocks(text: Seq<char>, found: Seq<Capture>) -> bool {
    &&& forall|i: int| 0 <= i < found.len() ==> commentary_block(text, #[trigger] found[i])
    &&& forall|before: Seq<char>, name: Seq<char>, gap: Seq<char>, after: Seq<char>| #[trigger]
        block_stands(text, before, name, gap, after) ==> exists|i: int|
            0 <= i < found.len() && (#[trigger] found[i]).start <= encode_utf8(before).len()
                < found[i].end
}

/// The expression that `regex::Regex::new` makes of a pattern, where the pattern
/// is well-formed.
pub uninterp spec fn compiled_regex(pattern: Seq<char>) -> Option<regex::Regex>;

/// The matches that `regex::Regex::captures_iter` finds in a text, with the two
/// groups of the given names.
pub uninterp spec fn regex_captures(
    re: regex::Regex,
    first: Seq<char>,
    second: Seq<char>,
    text: Seq<char>,
) -> Seq<Capture>;

/// `regex::Regex::new`: the expression depends on the pattern alone, and the
/// pattern of a commentary block is a well-formed one.
pub assume_specification[ regex::Regex::new ](re: &str) -> (r: Result<regex::Regex, regex::Error>)
    ensures
        r.ok() == compiled_regex(re@),
        re@ == COMMENTARY_PATTERN@ ==> r is Ok,
;

/// Calls `regex::Regex::captures_iter`, and `regex::Captures::name` for the two
/// groups of each match. The matches depend on the expression, the names of the
/// groups and the text alone. Successive matches do not overlap, offsets are
/// character boundaries, and groups lie within their match. For the expression of
/// a commentary block the matches are the commentary blocks of the text.
#[verifier::external_body]
fn find_captures(re: &regex::Regex, first: &str, second: &str, text: &str) -> (found: Vec<Capture>)
    ensures
        found@ == regex_captures(*re, first@, second@, text@),
        successive(text@, found@),
        compiled_regex(COMMENTARY_PATTERN@) == Some(*re) && first@ == "name"@ && second@ == "args"@
            ==> commentary_blocks(text@, found@),
{
    re.captures_iter(text)
        .map(|c| {
            let m = c.get(0).expect("a match has a span");
            Capture {
                start: m.start(),
                end: m.end(),
                first: c.name(first).map(|g| (g.start(), g.end())),
                second: c.name(second).map(|g| (g.start(), g.end())),
            }
        })
        .collect()
}

/// The commentary blocks of a text.
pub open spec fn commentary_captures(text: Seq<char>) -> Seq<Capture> {
    regex_captures(compiled_regex(COMMENTARY_PATTERN@)->0, "name"@, "args"@, text)
}

/// The arguments of a call, out of the text that stands for them: JSON is written
/// anew, JSON that was cut off is completed first, and what is neither stays as
/// it is.
pub open spec fn recovered_arguments(raw: Seq<char>) -> Seq<char> {
    match json_value(raw) {
        Some(value) => json_text(value),
        None => match completed_value(raw) {
            Some(value) => json_text(value),
            None => raw,
        },
    }
}

/// The value of a JSON text that was cut off, where completing it makes it JSON.
pub open spec fn completed_value(raw: Seq<char>) -> Option<serde_json::Value> {
    match repaired(raw) {
        Some(text) => json_value(text),
        None => None,
    }
}

/// The value of a JSON text that was cut off, where completing it makes it JSON.
pub(crate) fn complete_json(raw: &str) -> (r: Option<serde_json::Value>)
    ensures
        r == completed_value(raw@),
{
    match try_repair_truncated_json(raw) {
        Some(text) => parse_json(text.as_str()).ok(),
        None => None,
    }
}

/// The arguments of a call, out of the text that stands for them.
pub fn recover_arguments(raw: &str) -> (r: String)
    ensures
        r@ == recovered_arguments(raw@),
        json_value(raw@) is Some || completed_value(raw@) is Some ==> json_value(r@) is Some,
{
    let value = match parse_json(raw).ok() {
        Some(value) => Some(value),
        None => complete_json(raw),
    };
    match value {
        Some(value) => match write_json(&value) {
            Ok(text) => text,
            Err(_) => raw.to_owned(),
        },
        None => raw.to_owned(),
    }
}

/// The function that a match names; the empty text where it names none.
pub open spec fn captured_name(text: Seq<char>, c: Capture) -> Seq<char> {
    match c.first {
        Some((a, b)) => stretch(text, a as int, b as int),
        None => ""@,
    }
}

/// The text that stands for the arguments of a match, trimmed; an empty object
/// where there is none.
pub open spec fn captured_arguments(text: Seq<char>, c: Capture) -> Seq<char> {
    match c.second {
        Some((a, b)) => trimmed(stretch(text, a as int, b as int)),
        None => "{}"@,
    }
}

/// The calls that a list of matches holds, in order: one for each match that
/// names a function, numbered by the place of the match in the list.
pub open spec fn captured_calls(text: Seq<char>, found: Seq<Capture>) -> Seq<ToolCallView>
    decreases found.len(),
{
    if found.len() == 0 {
        Seq::empty()
    } else {
        let c = found.last();
        let before = captured_calls(text, found.drop_last());
        if captured_name(text, c).len() == 0 {
            before
        } else {
            before.push(
                function_call(
                    found.len(),
                    captured_name(text, c),
                    recovered_arguments(captured_arguments(text, c)),
                ),
            )
        }
    }
}

/// The end of the last match; the start of the text where there is none.
pub open spec fn last_end(found: Seq<Capture>) -> int {
    if found.len() == 0 {
        0
    } else {
        found.last().end as int
    }
}

/// What stands before each match and behind the one before it.
pub open spec fn between_matches(text: Seq<char>, found: Seq<Capture>) -> Seq<char>
    decreases found.len(),
{
    if found.len() == 0 {
        Seq::empty()
    } else {
        between_matches(text, found.drop_last()) + stretch(
            text,
            last_end(found.drop_last()),
            found.last().start as int,
        )
    }
}

/// What stands in no match.
pub open spec fn outside_matches(text: Seq<char>, found: Seq<Capture>) -> Seq<char> {
    between_matches(text, found) + stretch(text, last_end(found), encode_utf8(text).len() as int)
}

/// The calls that a list of matches in `text` holds, and what stands in no match,
/// trimmed.
pub fn calls_from_captures(text: &str, found: &Vec<Capture>) -> (r: (
    Vec<ToolCallResponse>,
    String,
))
    requires
        successive(text@, found@),
    ensures
        call_views(r.0@) == captured_calls(text@, found@),
        r.1@ == trimmed(outside_matches(text@, found@)),
        r.1@ == trimmed(gaps(text@, found@).flatten()),
{
    proof {
        residual_is_the_text_without_the_matches(text@, found@);
    }
    let mut calls: Vec<ToolCallResponse> = Vec::new();
    let mut residual = String::new();
    let mut cursor: usize = 0;
    let mut i: usize = 0;
    proof {
        whole_stretch(text@);
        assert(found@.take(0) =~= Seq::empty());
        assert(call_views(calls@) =~= Seq::empty());
    }
    while i < found.len()
        invariant
            i <= found.len(),
            successive(text@, found@),
            cursor == last_end(found@.take(i as int)),
            bounds_stretch(text@, 0, cursor as int),
            call_views(calls@) == captured_calls(text@, found@.take(i as int)),
            residual@ == between_matches(text@, found@.take(i as int)),
        decreases found.len() - i,
    {
        let c = found[i];
        let ghost before = calls@;
        proof {
            let done = found@.take(i + 1);
            assert(done.drop_last() =~= found@.take(i as int));
            assert(done.last() == c);
            assert(bounds_stretch(text@, c.start as int, c.end as int));
            if i > 0 {
                assert(found@[i - 1].end <= found@[i as int].start);
                assert(found@.take(i as int).last() == found@[i - 1]);
            }
        }
        residual.append(slice(text, cursor, c.start));
        cursor = c.end;
        let name = match c.first {
            Some((a, b)) => slice(text, a, b),
            None => "",
        };
        let raw = match c.second {
            Some((a, b)) => trim(slice(text, a, b)),
            None => "{}",
        };
        if !name.is_empty() {
            let arguments = recover_arguments(raw);
            calls.push(make_function_call(i as u64 + 1, name.to_owned(), arguments));
            assert(call_views(calls@) =~= call_views(before).push(calls@.last()@));
        }
        i = i + 1;
    }
    assert(found@.take(found.len() as int) =~= found@);
    proof {
        whole_stretch(text@);
    }
    residual.append(slice(text, cursor, byte_len(text)));
    (calls, trim(residual.as_str()).to_owned())
}

/// Extracts the calls of the commentary blocks in a text that the tokenizer's
/// parser rejects, such as one with JSON that was cut off or with several blocks
/// back to back, and what stands in no block, trimmed, so that prose around the
/// blocks is kept.
pub fn extract_calls_via_regex(text: &str) -> (r: (Vec<ToolCallResponse>, String))
    ensures
        commentary_blocks(text@, commentary_captures(text@)),
        successive(text@, commentary_captures(text@)),
        call_views(r.0@) == captured_calls(text@, commentary_captures(text@)),
        r.1@ == trimmed(outside_matches(text@, commentary_captures(text@))),
        r.1@ == trimmed(gaps(text@, commentary_captures(text@)).flatten()),
{
    let re = regex::Regex::new(COMMENTARY_PATTERN).expect("commentary block regex");
    let found = find_captures(&re, "name", "args", text);
    calls_from_captures(text, &found)
}

/// What stands before each match, and the match itself, taken in turn.
pub open spec fn woven(text: Seq<char>, found: Seq<Capture>) -> Seq<char>
    decreases found.len(),
{
    if found.len() == 0 {
        Seq::empty()
    } else {
        let c = found.last();
        woven(text, found.drop_last()) + stretch(
            text,
            last_end(found.drop_last()),
            c.start as int,
        ) + stretch(text, c.start as int, c.end as int)
    }
}

/// No text is lost: what stands before each match, the match itself, and what
/// stands behind the last one, taken in turn, are the text.
pub proof fn no_text_is_lost(text: Seq<char>, found: Seq<Capture>)
    requires
        successive(text, found),
    ensures
        woven(text, found) + stretch(text, last_end(found), encode_utf8(text).len() as int) == text,
{
    let n = encode_utf8(text).len() as int;
    whole_stretch(text);
    lemma_woven(text, found);
    stretches_join(text, 0, last_end(found), n);
}

/// What is woven of some matches is the text up to the end of the last one.
proof fn lemma_woven(text: Seq<char>, found: Seq<Capture>)
    requires
        successive(text, found),
    ensures
        bounds_stretch(text, 0, last_end(found)),
        woven(text, found) == stretch(text, 0, last_end(found)),
    decreases found.len(),
{
    whole_stretch(text);
    if found.len() == 0 {
        assert(encode_utf8(text).subrange(0, 0) =~= Seq::empty());
        reveal_with_fuel(vstd::utf8::decode_utf8, 1);
        assert(stretch(text, 0, 0) =~= Seq::empty());
    } else {
        let rest = found.drop_last();
        let c = found.last();
        assert forall|i: int| #![trigger rest[i]] 0 <= i < rest.len() implies bounds_stretch(
            text,
            rest[i].start as int,
            rest[i].end as int,
        ) && group_within(text, rest[i], rest[i].first) && group_within(
            text,
            rest[i],
            rest[i].second,
        ) by {
            assert(rest[i] == found[i]);
        }
        assert forall|i: int, j: int|
            #![trigger rest[i], rest[j]]
            0 <= i < j < rest.len() implies rest[i].end <= rest[j].start by {
            assert(rest[i] == found[i] && rest[j] == found[j]);
        }
        lemma_woven(text, rest);
        assert(bounds_stretch(text, c.start as int, c.end as int)) by {
            assert(found[found.len() - 1] == c);
        }
        if rest.len() > 0 {
            assert(found[rest.len() - 1].end <= found[found.len() - 1].start);
        }
        stretches_join(text, 0, last_end(rest), c.start as int);
        stretches_join(text, 0, c.start as int, c.end as int);
    }
}

/// Every commentary block gives one call and nothing else does: the calls are
/// those of the blocks, in order, each with the name that its block holds, which
/// is never empty.
pub proof fn one_call_for_each_block(text: Seq<char>, found: Seq<Capture>, i: int)
    requires
        successive(text, found),
        commentary_blocks(text, found),
    ensures
        captured_calls(text, found).len() == found.len(),
        0 <= i < found.len() ==> {
            &&& captured_name(text, found[i]).len() > 0
            &&& captured_calls(text, found)[i] == function_call(
                (i + 1) as nat,
                captured_name(text, found[i]),
                recovered_arguments(captured_arguments(text, found[i])),
            )
        },
{
    assert forall|k: int| 0 <= k < found.len() implies captured_name(
        text,
        #[trigger] found[k],
    ).len() > 0 by {
        assert(commentary_block(text, found[k]));
    }
    lemma_calls_of_named(text, found, i);
}

/// Where every match names a function, every match gives a call.
proof fn lemma_calls_of_named(text: Seq<char>, found: Seq<Capture>, i: int)
    requires
        forall|k: int|
            0 <= k < found.len() ==> captured_name(text, #[trigger] found[k]).len() > 0,
    ensures
        captured_calls(text, found).len() == found.len(),
        0 <= i < found.len() ==> captured_calls(text, found)[i] == function_call(
            (i + 1) as nat,
            captured_name(text, found[i]),
            recovered_arguments(captured_arguments(text, found[i])),
        ),
    decreases found.len(),
{
    if found.len() > 0 {
        let rest = found.drop_last();
        assert forall|k: int| 0 <= k < rest.len() implies captured_name(
            text,
            #[trigger] rest[k],
        ).len() > 0 by {
            assert(rest[k] == found[k]);
        }
        lemma_calls_of_named(text, rest, i);
        assert(captured_name(text, found[found.len() - 1]).len() > 0);
    }
}

/// The calls of one text have distinct identifiers.
pub proof fn captured_ids_are_distinct(text: Seq<char>, found: Seq<Capture>, i: int, j: int)
    requires
        0 <= i < j < captured_calls(text, found).len(),
    ensures
        captured_calls(text, found)[i].id != captured_calls(text, found)[j].id,
    decreases found.len(),
{
    let rest = found.drop_last();
    let before = captured_calls(text, rest);
    if j < before.len() {
        captured_ids_are_distinct(text, rest, i, j);
    } else {
        let n = captured_number(text, rest, i);
        call_ids_are_distinct(n, found.len());
    }
}

/// The number of a call, which is that of one of the matches.
proof fn captured_number(text: Seq<char>, found: Seq<Capture>, i: int) -> (n: nat)
    requires
        0 <= i < captured_calls(text, found).len(),
    ensures
        n <= found.len(),
        captured_calls(text, found)[i].id == call_id(n),
    decreases found.len(),
{
    let rest = found.drop_last();
    if i < captured_calls(text, rest).len() {
        captured_number(text, rest, i)
    } else {
        found.len()
    }
}

/// The header of a block: from its start to its arguments.
pub open spec fn block_header(text: Seq<char>, c: Capture) -> Seq<char> {
    stretch(text, c.start as int, (c.second->0).0 as int)
}

/// No other header lies between the opening of a block and its arguments, so a call
/// never gets its arguments from another message: behind the opening no message
/// begins or ends, no channel and no call is marked, and the message marker is the
/// last thing.
pub proof fn no_other_header_in_a_block(text: Seq<char>, c: Capture, i: int)
    requires
        commentary_block(text, c),
        0 < i,
    ensures
        !occurs_at(block_header(text, c), "<|start|>"@, i),
        !occurs_at(block_header(text, c), "<|end|>"@, i),
        !occurs_at(block_header(text, c), "<|channel|>"@, i),
        !occurs_at(block_header(text, c), call_marker(), i),
        occurs_at(block_header(text, c), message_marker(), i) ==> i == block_header(text, c).len()
            - message_marker().len(),
{
    let header = block_header(text, c);
    reveal_strlit("<|channel|>commentary to=functions.");
    reveal_strlit("<|constrain|>json");
    reveal_strlit("<|message|>");
    reveal_strlit("<|call|>");
    reveal_strlit("<|start|>");
    reveal_strlit("<|end|>");
    reveal_strlit("<|channel|>");
    if 0 < i < header.len() {
        lemma_angle_brackets(text, c, i);
        let at = header.len() - message_marker().len();
        assert(header.subrange(at, header.len() as int)[2] == header[at + 2]);
        assert forall|m: Seq<char>| #[trigger] occurs_at(header, m, i) && m.len() >= 4 implies
            header[i] == m[0] && header[i + 2] == m[2] && header[i + 3] == m[3] by {
            let part = header.subrange(i, i + m.len());
            assert(part[0] == header[i] && part[2] == header[i + 2] && part[3] == header[i + 3]);
        }
    }
}

/// Behind the start of a block's header, an angle bracket opens the constraint or
/// the message marker.
proof fn lemma_angle_brackets(text: Seq<char>, c: Capture, i: int)
    requires
        commentary_block(text, c),
        0 < i < block_header(text, c).len(),
    ensures
        ({
            let header = block_header(text, c);
            let at = header.len() - message_marker().len();
            &&& at > 0
            &&& header.subrange(at, header.len() as int) == message_marker()
            &&& header[i] == '<' ==> i == at || occurs_at(header, constraint_marker(), i)
        }),
{
    let (name, name_end) = c.first->0;
    let args = (c.second->0).0 as int;
    let message = choose|message: int| #[trigger]
        block_layout(
            text,
            c.start as int,
            c.end as int,
            (name as int, name_end as int),
            message,
            (args, (c.second->0).1 as int),
        );
    stretches_join(text, c.start as int, name as int, name_end as int);
    stretches_join(text, c.start as int, name_end as int, message);
    stretches_join(text, c.start as int, message, args);
    reveal_strlit("<|channel|>commentary to=functions.");
    reveal_strlit("<|constrain|>json");
    reveal_strlit("<|message|>");
    let opening = block_opening();
    let name_text = stretch(text, name as int, name_end as int);
    let gap = stretch(text, name_end as int, message);
    let header = block_header(text, c);
    assert(header =~= opening + name_text + gap + message_marker());
    let from = opening.len() + name_text.len();
    let at = from + gap.len();
    assert(header.subrange(at as int, header.len() as int) =~= message_marker());
    if header[i] == '<' && i != at {
        if i < opening.len() {
            assert(header[i] == opening[i]);
        } else if i < from {
            assert(header[i] == name_text[i - opening.len()]);
        } else if i < at {
            assert(header[i] == gap[i - from]);
            if blank(gap) {
                assert(white_space(gap[i - from]));
            } else {
                let (a, b) = choose|a: Seq<char>, b: Seq<char>|
                    blank(a) && blank(b) && gap == #[trigger] constrained(a, b);
                let k = i - from;
                if k < a.len() {
                    assert(gap[k] == a[k]);
                } else if k < a.len() + constraint_marker().len() {
                    assert(gap[k] == constraint_marker()[k - a.len()]);
                    assert(k == a.len());
                    assert(header.subrange(i, i + constraint_marker().len())
                        =~= constraint_marker());
                } else {
                    assert(gap[k] == b[k - a.len() - constraint_marker().len()]);
                }
            }
        } else {
            assert(header[i] == message_marker()[i - at]);
        }
    }
}

/// A match reads, in the text, as an opening, the name of the call, what may stand
/// behind a name, and a message marker, one right behind the other.
pub proof fn every_match_stands_in_the_text(text: Seq<char>, c: Capture) -> (parts: (
    Seq<char>,
    Seq<char>,
    Seq<char>,
))
    requires
        commentary_block(text, c),
    ensures
        ({
            let (before, gap, after) = parts;
            &&& text == before + block_opening() + captured_name(text, c) + gap + message_marker()
                + after
            &&& name_look(captured_name(text, c))
            &&& header_gap(gap)
        }),
{
    let n = encode_utf8(text).len() as int;
    let start = c.start as int;
    let (name, name_end) = c.first->0;
    let args = (c.second->0).0 as int;
    let message = choose|message: int| #[trigger]
        block_layout(
            text,
            start,
            c.end as int,
            (name as int, name_end as int),
            message,
            (args, (c.second->0).1 as int),
        );
    whole_stretch(text);
    stretches_join(text, 0, start, name as int);
    stretches_join(text, 0, name as int, name_end as int);
    stretches_join(text, 0, name_end as int, message);
    stretches_join(text, 0, message, args);
    stretches_join(text, 0, args, n);
    (stretch(text, 0, start), stretch(text, name_end as int, message), stretch(text, args, n))
}

/// What stands before the first match, between each match and the next, and behind
/// the last one.
pub open spec fn gaps(text: Seq<char>, found: Seq<Capture>) -> Seq<Seq<char>> {
    Seq::new(
        found.len() + 1,
        |k: int|
            stretch(
                text,
                if k == 0 {
                    0
                } else {
                    found[k - 1].end as int
                },
                if k == found.len() {
                    encode_utf8(text).len() as int
                } else {
                    found[k].start as int
                },
            ),
    )
}

/// The text of each match.
pub open spec fn match_texts(text: Seq<char>, found: Seq<Capture>) -> Seq<Seq<char>> {
    found.map_values(|c: Capture| stretch(text, c.start as int, c.end as int))
}

/// Two lists taken in turn, of which the first is longer by one.
pub open spec fn in_turn(a: Seq<Seq<char>>, b: Seq<Seq<char>>) -> Seq<Seq<char>> {
    Seq::new(
        a.len() + b.len(),
        |j: int|
            if j % 2 == 0 {
                a[j / 2]
            } else {
                b[j / 2]
            },
    )
}

/// The text that is kept is the text with exactly the matches cut out: the text is
/// made of the gaps and the matches in turn, and what is kept of all the gaps, in
/// order. So its length and those of the matches make up that of the text.
pub proof fn residual_is_the_text_without_the_matches(text: Seq<char>, found: Seq<Capture>)
    requires
        successive(text, found),
    ensures
        text == in_turn(gaps(text, found), match_texts(text, found)).flatten(),
        outside_matches(text, found) == gaps(text, found).flatten(),
        outside_matches(text, found).len() + match_texts(text, found).flatten().len()
            == text.len(),
{
    let n = found.len() as int;
    let all = gaps(text, found);
    let cut = match_texts(text, found);
    let turns = in_turn(all, cut);
    no_text_is_lost(text, found);
    lemma_gaps(text, found, n);
    assert(found.take(n) =~= found);
    assert(all.take(n) =~= all.drop_last());
    assert(cut.take(n) =~= cut);
    assert(turns.take(2 * n) =~= turns.drop_last());
    assert(turns.last() == all[n]);
    all.lemma_flatten_and_flatten_alt_are_equivalent();
    all.drop_last().lemma_flatten_and_flatten_alt_are_equivalent();
    turns.lemma_flatten_and_flatten_alt_are_equivalent();
    turns.drop_last().lemma_flatten_and_flatten_alt_are_equivalent();
    assert(all.last() == stretch(text, last_end(found), encode_utf8(text).len() as int));
}

/// The gaps and the matches, up to the match with the given number.
proof fn lemma_gaps(text: Seq<char>, found: Seq<Capture>, k: int)
    requires
        0 <= k <= found.len(),
    ensures
        between_matches(text, found.take(k)) == gaps(text, found).take(k).flatten(),
        woven(text, found.take(k)) == in_turn(gaps(text, found), match_texts(text, found)).take(
            2 * k,
        ).flatten(),
        woven(text, found.take(k)).len() == between_matches(text, found.take(k)).len()
            + match_texts(text, found).take(k).flatten().len(),
    decreases k,
{
    let all = gaps(text, found);
    let cut = match_texts(text, found);
    let turns = in_turn(all, cut);
    if k == 0 {
        assert(found.take(0) =~= Seq::empty());
        assert(all.take(0) =~= Seq::empty());
        assert(cut.take(0) =~= Seq::empty());
        assert(turns.take(0) =~= Seq::empty());
    } else {
        lemma_gaps(text, found, k - 1);
        assert(found.take(k).drop_last() =~= found.take(k - 1));
        assert(found.take(k).last() == found[k - 1]);
        if k > 1 {
            assert(found.take(k - 1).last() == found[k - 2]);
        }
        let a = all.take(k);
        let c = cut.take(k);
        let t = turns.take(2 * k);
        assert(a.drop_last() =~= all.take(k - 1));
        assert(c.drop_last() =~= cut.take(k - 1));
        assert(t.drop_last().drop_last() =~= turns.take(2 * (k - 1)));
        assert(t.last() == cut[k - 1]);
        assert(t.drop_last().last() == all[k - 1]);
        a.lemma_flatten_and_flatten_alt_are_equivalent();
        a.drop_last().lemma_flatten_and_flatten_alt_are_equivalent();
        c.lemma_flatten_and_flatten_alt_are_equivalent();
        c.drop_last().lemma_flatten_and_flatten_alt_are_equivalent();
        t.lemma_flatten_and_flatten_alt_are_equivalent();
        t.drop_last().lemma_flatten_and_flatten_alt_are_equivalent();
        t.drop_last().drop_last().lemma_flatten_and_flatten_alt_are_equivalent();
    }
}

/// The call of a block has the name and the arguments that stand in the block, byte
/// for byte but for white space around the arguments, and its number is the place of
/// the block.
pub proof fn call_is_that_of_its_block(text: Seq<char>, found: Seq<Capture>, i: int)
    requires
        successive(text, found),
        commentary_blocks(text, found),
        0 <= i < found.len(),
    ensures
        ({
            let (a, b) = found[i].first->0;
            let (x, y) = found[i].second->0;
            captured_calls(text, found)[i] == (ToolCallView {
                id: "call-"@ + decimal((i + 1) as nat),
                tp: ToolCallType::Function,
                name: stretch(text, a as int, b as int),
                arguments: recovered_arguments(trimmed(stretch(text, x as int, y as int))),
            })
        }),
{
    one_call_for_each_block(text, found, i);
    assert(commentary_block(text, found[i]));
}

/// JSON arguments are written anew; arguments that were cut off are completed and
/// written anew where that makes them JSON; all others stay as they are.
pub proof fn arguments_come_out_so(c: Cut)
    requires
        cut_fits(c),
    ensures
        json_value(cut_text(c)) matches Some(v) ==> recovered_arguments(cut_text(c)) == json_text(v),
        json_value(cut_text(c)) is None ==> recovered_arguments(cut_text(c)) == (if c is Complete {
            cut_text(c)
        } else {
            match json_value(whole_text(c)) {
                Some(v) => json_text(v),
                None => cut_text(c),
            }
        }),
{
    every_cut_is_repaired(c);
}

/// Each match that names a function gives one call more, numbered by its place: with
/// the name, and with the arguments that stand in it, trimmed and recovered, or those
/// of an empty object where it has none. A match without a name gives none.
pub proof fn matches_give_calls_in_turn(text: Seq<char>, found: Seq<Capture>, c: Capture)
    ensures
        captured_calls(text, Seq::empty()).len() == 0,
        c.first is None ==> captured_calls(text, found.push(c)) == captured_calls(text, found),
        c.first matches Some((a, b)) ==> ({
            let name = stretch(text, a as int, b as int);
            if name.len() == 0 {
                captured_calls(text, found.push(c)) == captured_calls(text, found)
            } else {
                captured_calls(text, found.push(c)) == captured_calls(text, found).push(
                    ToolCallView {
                        id: "call-"@ + decimal(found.len() + 1),
                        tp: ToolCallType::Function,
                        name,
                        arguments: recovered_arguments(
                            match c.second {
                                Some((x, y)) => trimmed(stretch(text, x as int, y as int)),
                                None => "{}"@,
                            },
                        ),
                    },
                )
            }
        }),
{
    reveal_strlit("");
    assert(found.push(c).drop_last() =~= found);
}

/// Arguments that are JSON are written anew. Those that are not and cannot be completed
/// stay as they are: those with a misplaced closer, whatever stands behind it, and those
/// that end behind a backslash in a string.
pub proof fn other_arguments_stay(raw: Seq<char>, c: Cut, rest: Seq<char>)
    requires
        divides(raw, c, rest),
        rest.len() > 0,
    ensures
        json_value(raw) matches Some(v) ==> recovered_arguments(raw) == json_text(v),
        json_value(raw) is None ==> recovered_arguments(raw) == raw,
{
    let after = rest.drop_first();
    assert(cut_text(c) + rest =~= cut_text(c) + seq![rest[0]] + after);
    what_cannot_be_repaired(c, rest[0], after);
}

/// A call keeps the text with exactly the matches cut out, but for white space at its
/// ends: the text is made of the gaps and the matches in turn, and all of the gaps come
/// back, in order.
pub proof fn call_keeps_what_stands_in_no_match(
    text: &str,
    found: &Vec<Capture>,
    r: (Vec<ToolCallResponse>, String),
)
    requires
        successive(text@, found@),
        call_ensures(calls_from_captures, (text, found), r),
    ensures
        text@ == in_turn(gaps(text@, found@), match_texts(text@, found@)).flatten(),
        r.1@ == trimmed(gaps(text@, found@).flatten()),
        gaps(text@, found@).flatten().len() + match_texts(text@, found@).flatten().len()
            == text@.len(),
        found@.len() == 0 ==> r.1@ == trimmed(text@),
{
    residual_is_the_text_without_the_matches(text@, found@);
    if found@.len() == 0 {
        let none: Seq<Seq<char>> = Seq::empty();
        assert(match_texts(text@, found@) =~= none);
        assert(in_turn(gaps(text@, found@), none) =~= gaps(text@, found@));
    }
}

/// A call extracts one call for each commentary block of the text, in order: numbered by
/// the place of the block, with its name, and with its arguments, trimmed and recovered;
/// and it keeps what stands in no block.
pub proof fn call_extracts_every_block(
    text: &str,
    r: (Vec<ToolCallResponse>, String),
    i: int,
) -> (found: Seq<Capture>)
    requires
        call_ensures(extract_calls_via_regex, (text,), r),
        0 <= i < r.0@.len(),
    ensures
        successive(text@, found),
        commentary_blocks(text@, found),
        r.0@.len() == found.len(),
        r.1@ == trimmed(gaps(text@, found).flatten()),
        ({
            let (a, b) = found[i].first->0;
            let (x, y) = found[i].second->0;
            &&& r.0@[i].id@ == "call-"@ + decimal((i + 1) as nat)
            &&& r.0@[i].function.name@ == stretch(text@, a as int, b as int)
            &&& r.0@[i].function.arguments@ == recovered_arguments(
                trimmed(stretch(text@, x as int, y as int)),
            )
        }),
{
    let found = commentary_captures(text@);
    one_call_for_each_block(text@, found, i);
    assert(call_views(r.0@).len() == r.0@.len());
    call_is_that_of_its_block(text@, found, i);
    assert(call_views(r.0@)[i] == r.0@[i]@);
    found
}

} // verus!
