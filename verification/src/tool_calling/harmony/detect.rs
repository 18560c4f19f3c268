//! Detection of the start of a tool call in a chunk of streamed text.
use crate::text::{chars_of, contains, matches_at, trim};
use crate::text::{
    occurring_is_standing_between, occurs, occurs_at, trimmed, trimmed_end, trimmed_start,
    trimming_takes_white_space_at_the_ends, white_space,
};
use crate::tool_calling::config::{texts, JsonParserConfig};
use vstd::prelude::*;

verus! {

/// The whole of a start token stands in the text.
pub open spec fn token_present(text: Seq<char>, token: Seq<char>) -> bool {
    token.len() > 0 && occurs(text, token)
}

/// The text ends with the beginning of a start token, or with the whole of it.
pub open spec fn token_begun(text: Seq<char>, token: Seq<char>) -> bool {
    exists|i: int| 1 <= i <= token.len() && (#[trigger] token.take(i)).is_suffix_of(text)
}

/// A chunk holds the start of a tool call, or may hold the beginning of one that
/// the next chunk completes. Outside strict mode a channel marker alone counts.
pub open spec fn start_detected(chunk: Seq<char>, tokens: Seq<Seq<char>>, strict: bool) -> bool {
    let text = trimmed(chunk);
    &&& text.len() > 0
    &&& {
        ||| exists|k: int| 0 <= k < tokens.len() && token_present(text, #[trigger] tokens[k])
        ||| exists|k: int| 0 <= k < tokens.len() && token_begun(text, #[trigger] tokens[k])
        ||| !strict && occurs(text, "<|channel|>"@)
    }
}

/// Whether `text` ends with a non-empty beginning of `token`.
fn ends_with_beginning(text: &Vec<char>, token: &Vec<char>) -> (b: bool)
    ensures
        b == token_begun(text@, token@),
{
    let n: usize = token.len();
    let mut i: usize = 1;
    while i <= n
        invariant
            n == token.len(),
            1 <= i <= n + 1,
            forall|j: int|
                1 <= j < i ==> !(#[trigger] token@.take(j)).is_suffix_of(text@),
        decreases n + 1 - i,
    {
        if i <= text.len() && matches_at(text, token, i, text.len() - i) {
            assert(token@.take(i as int).is_suffix_of(text@));
            return true;
        }
        proof {
            if token@.take(i as int).is_suffix_of(text@) {
                assert(occurs_at(text@, token@.take(i as int), text@.len() - i));
            }
        }
        if i == n {
            return false;
        }
        i = i + 1;
    }
    false
}

/// Whether a chunk of streamed text holds the start of a tool call.
///
/// The chunk is trimmed first. A chunk counts where a whole start token stands in
/// it, and where it ends with the beginning of one, which the next chunk may
/// complete. Outside strict mode a channel marker counts too. Empty tokens do
/// not count.
pub fn detect_tool_call_start_harmony(chunk: &str, config: &JsonParserConfig, strict: bool) -> (b:
    bool)
    ensures
        b == start_detected(chunk@, texts(config.tool_call_start_tokens@), strict),
{
    let text = chars_of(trim(chunk));
    if text.len() == 0 {
        return false;
    }
    let ghost tokens = texts(config.tool_call_start_tokens@);
    let mut i: usize = 0;
    while i < config.tool_call_start_tokens.len()
        invariant
            i <= config.tool_call_start_tokens.len(),
            text@ == trimmed(chunk@),
            text@.len() > 0,
            tokens == texts(config.tool_call_start_tokens@),
            forall|k: int|
                0 <= k < i ==> !token_present(text@, #[trigger] tokens[k]) && !token_begun(
                    text@,
                    tokens[k],
                ),
        decreases config.tool_call_start_tokens.len() - i,
    {
        let token = chars_of(config.tool_call_start_tokens[i].as_str());
        assert(token@ == tokens[i as int]);
        if token.len() > 0 && contains(&text, &token) {
            return true;
        }
        if ends_with_beginning(&text, &token) {
            return true;
        }
        i = i + 1;
    }
    if strict {
        return false;
    }
    let marker = chars_of("<|channel|>");
    contains(&text, &marker)
}

/// Whatever is detected in strict mode is detected outside it.
pub proof fn strict_detection_is_detection(chunk: Seq<char>, tokens: Seq<Seq<char>>)
    ensures
        start_detected(chunk, tokens, true) ==> start_detected(chunk, tokens, false),
{
}

/// Further start tokens take nothing away from what is detected.
pub proof fn more_tokens_detect_more(
    chunk: Seq<char>,
    tokens: Seq<Seq<char>>,
    more: Seq<Seq<char>>,
    strict: bool,
)
    ensures
        start_detected(chunk, tokens, strict) ==> start_detected(chunk, tokens + more, strict),
        start_detected(chunk, tokens, strict) ==> start_detected(chunk, more + tokens, strict),
{
    let text = trimmed(chunk);
    if start_detected(chunk, tokens, strict) {
        if exists|k: int| 0 <= k < tokens.len() && token_present(text, #[trigger] tokens[k]) {
            let k = choose|k: int|
                0 <= k < tokens.len() && token_present(text, #[trigger] tokens[k]);
            assert((tokens + more)[k] == tokens[k]);
            assert((more + tokens)[more.len() + k] == tokens[k]);
        } else if exists|k: int| 0 <= k < tokens.len() && token_begun(text, #[trigger] tokens[k]) {
            let k = choose|k: int|
                0 <= k < tokens.len() && token_begun(text, #[trigger] tokens[k]);
            assert((tokens + more)[k] == tokens[k]);
            assert((more + tokens)[more.len() + k] == tokens[k]);
        }
    }
}

/// A chunk of nothing but white space holds no start of a tool call.
pub proof fn blank_chunk_is_no_start(chunk: Seq<char>, tokens: Seq<Seq<char>>, strict: bool)
    requires
        forall|i: int| 0 <= i < chunk.len() ==> white_space(#[trigger] chunk[i]),
    ensures
        !start_detected(chunk, tokens, strict),
    decreases chunk.len(),
{
    if chunk.len() > 0 {
        blank_chunk_is_no_start(chunk.drop_first(), tokens, strict);
    }
}

/// Something else than white space stands in a text.
pub open spec fn solid(s: Seq<char>) -> bool {
    exists|i: int| 0 <= i < s.len() && !white_space(#[trigger] s[i])
}

/// A start token that is split across chunks is seen in the chunk that ends
/// within it, whatever stands before it, in either mode. Where the token begins
/// with white space, which trimming may take away, something else must stand
/// before it and in the part of it that the chunk holds.
pub proof fn split_token_is_detected(
    before: Seq<char>,
    tokens: Seq<Seq<char>>,
    k: int,
    split: int,
    strict: bool,
)
    requires
        0 <= k < tokens.len(),
        1 <= split <= tokens[k].len(),
        !white_space(tokens[k][0]) || solid(before) && solid(tokens[k].take(split)),
    ensures
        start_detected(before + tokens[k].take(split), tokens, strict),
{
    let part = tokens[k].take(split);
    let start = trimmed_start(before);
    if !white_space(tokens[k][0]) {
        assert(!white_space(part[0]));
    }
    trim_start_keeps(before, part);
    trim_end_keeps(start, part);
    let n = trimmed_end_is_prefix(part);
    assert(part.take(n) =~= tokens[k].take(n));
    let text = trimmed(before + part);
    assert(text.skip(text.len() - n) =~= tokens[k].take(n));
    assert(tokens[k].take(n).is_suffix_of(text));
    assert(token_begun(text, tokens[k]));
}

/// A chunk that holds a whole start token is detected in either mode, whatever
/// stands around it. Where the token begins with white space, which trimming may
/// take away, something else must stand before it, and in it or behind it.
pub proof fn whole_token_is_detected(
    before: Seq<char>,
    tokens: Seq<Seq<char>>,
    k: int,
    after: Seq<char>,
    strict: bool,
)
    requires
        0 <= k < tokens.len(),
        tokens[k].len() > 0,
        !white_space(tokens[k][0]) || solid(before) && (solid(tokens[k]) || solid(after)),
    ensures
        start_detected(before + tokens[k] + after, tokens, strict),
{
    let token = tokens[k];
    let start = trimmed_start(before);
    let chunk = before + token + after;
    assert(chunk =~= before + (token + after));
    assert((token + after)[0] == token[0]);
    trim_start_keeps(before, token + after);
    assert(start + (token + after) =~= (start + token) + after);
    let text = trimmed(chunk);
    if solid(after) || !white_space(token.last()) {
        assert((start + token).last() == token.last());
        trim_end_keeps(start + token, after);
        let i = start.len() as int;
        assert(text.subrange(i, i + token.len()) =~= token);
        assert(occurs_at(text, token, i));
        assert(token_present(text, token));
    } else {
        if !white_space(token[0]) {
            assert(solid(token));
        }
        let j = choose|j: int| 0 <= j < token.len() && !white_space(#[trigger] token[j]);
        assert(!white_space((token + after)[j]));
        trim_end_keeps(start, token + after);
        trim_end_drops_blank(token, after);
        let n = trimmed_end_is_prefix(token);
        assert(text.skip(text.len() - n) =~= token.take(n));
        assert(token.take(n).is_suffix_of(text));
        assert(token_begun(text, token));
    }
}

/// Trimming the start of a text takes nothing of its last part, where that does
/// not begin with white space or something else stands before it.
proof fn trim_start_keeps(before: Seq<char>, part: Seq<char>)
    requires
        part.len() > 0,
        !white_space(part[0]) || solid(before),
    ensures
        trimmed_start(before + part) == trimmed_start(before) + part,
    decreases before.len(),
{
    if before.len() == 0 {
        assert(before + part =~= part);
        assert(trimmed_start(before) + part =~= part);
    } else {
        assert((before + part)[0] == before[0]);
        if white_space(before[0]) {
            let rest = before.drop_first();
            assert((before + part).drop_first() =~= rest + part);
            if solid(before) {
                let j = choose|j: int| 0 <= j < before.len() && !white_space(#[trigger] before[j]);
                assert(rest[j - 1] == before[j]);
            }
            trim_start_keeps(rest, part);
        }
    }
}

/// Trimming the end of a text takes nothing of its first part, where that does
/// not end with white space or something else stands behind it.
proof fn trim_end_keeps(part: Seq<char>, after: Seq<char>)
    requires
        part.len() == 0 || !white_space(part.last()) || solid(after),
    ensures
        trimmed_end(part + after) == part + trimmed_end(after),
    decreases after.len(),
{
    if part.len() == 0 {
        assert(part + after =~= after);
        assert(part + trimmed_end(after) =~= trimmed_end(after));
    } else if after.len() == 0 {
        assert(part + after =~= part);
        assert(part + trimmed_end(after) =~= part);
    } else {
        assert((part + after).last() == after.last());
        if white_space(after.last()) {
            let rest = after.drop_last();
            assert((part + after).drop_last() =~= part + rest);
            if solid(after) {
                let j = choose|j: int| 0 <= j < after.len() && !white_space(#[trigger] after[j]);
                assert(rest[j] == after[j]);
            }
            trim_end_keeps(part, rest);
        }
    }
}

/// Trimming the end of a text takes a last part of nothing but white space.
proof fn trim_end_drops_blank(part: Seq<char>, after: Seq<char>)
    requires
        !solid(after),
    ensures
        trimmed_end(part + after) == trimmed_end(part),
    decreases after.len(),
{
    if after.len() == 0 {
        assert(part + after =~= part);
    } else {
        let rest = after.drop_last();
        assert(white_space(after[after.len() - 1]));
        assert((part + after).last() == after.last());
        assert((part + after).drop_last() =~= part + rest);
        assert forall|i: int| 0 <= i < rest.len() implies white_space(#[trigger] rest[i]) by {
            assert(rest[i] == after[i]);
        }
        trim_end_drops_blank(part, rest);
    }
}

/// What trimming the end leaves of a text is a beginning of it, and is not empty
/// where something else than white space stands in the text.
proof fn trimmed_end_is_prefix(s: Seq<char>) -> (n: int)
    requires
        solid(s),
    ensures
        1 <= n <= s.len(),
        trimmed_end(s) == s.take(n),
    decreases s.len(),
{
    if white_space(s.last()) {
        let rest = s.drop_last();
        let j = choose|j: int| 0 <= j < s.len() && !white_space(#[trigger] s[j]);
        assert(rest[j] == s[j]);
        let n = trimmed_end_is_prefix(rest);
        assert(rest.take(n) =~= s.take(n));
        n
    } else {
        assert(s.take(s.len() as int) =~= s);
        s.len() as int
    }
}

/// Outside strict mode a channel marker is the start of a tool call, whatever stands
/// before and behind it.
pub proof fn channel_marker_is_detected(
    before: Seq<char>,
    after: Seq<char>,
    tokens: Seq<Seq<char>>,
)
    ensures
        start_detected(before + "<|channel|>"@ + after, tokens, false),
{
    reveal_strlit("<|channel|>");
    let marker = "<|channel|>"@;
    let chunk = before + marker + after;
    let start = trimmed_start(before);
    assert(chunk =~= before + (marker + after));
    assert((marker + after)[0] == marker[0]);
    trim_start_keeps(before, marker + after);
    assert(start + (marker + after) =~= (start + marker) + after);
    assert((start + marker).last() == marker.last());
    trim_end_keeps(start + marker, after);
    let text = trimmed(chunk);
    let i = start.len() as int;
    assert(text.subrange(i, i + marker.len()) =~= marker);
    assert(occurs_at(text, marker, i));
}

/// A chunk is detected only where a start token that is not empty stands in it, where
/// it ends, but for white space, with a beginning of one that is not empty, or, outside
/// strict mode, where a channel marker stands in it.
pub proof fn only_starts_are_detected(chunk: Seq<char>, tokens: Seq<Seq<char>>, strict: bool)
    requires
        start_detected(chunk, tokens, strict),
    ensures
        ({
            ||| exists|k: int, a: Seq<char>, b: Seq<char>|
                0 <= k < tokens.len() && tokens[k].len() > 0 && chunk == #[trigger] (a + tokens[k]
                    + b)
            ||| exists|k: int, i: int, a: Seq<char>, b: Seq<char>|
                0 <= k < tokens.len() && 1 <= i <= tokens[k].len() && !solid(b) && chunk
                    == #[trigger] (a + tokens[k].take(i) + b)
            ||| !strict && exists|a: Seq<char>, b: Seq<char>|
                chunk == #[trigger] (a + "<|channel|>"@ + b)
        }),
{
    let text = trimmed(chunk);
    let (from, to) = trimming_takes_white_space_at_the_ends(chunk);
    let head = chunk.take(from);
    let tail = chunk.skip(to);
    assert(chunk =~= head + text + tail);
    assert(!solid(tail)) by {
        if solid(tail) {
            let j = choose|j: int| 0 <= j < tail.len() && !white_space(#[trigger] tail[j]);
            assert(tail[j] == chunk[to + j]);
        }
    }
    if exists|k: int| 0 <= k < tokens.len() && token_present(text, #[trigger] tokens[k]) {
        let k = choose|k: int| 0 <= k < tokens.len() && token_present(text, #[trigger] tokens[k]);
        occurring_is_standing_between(text, tokens[k], head, tail);
        let (a, b) = choose|a: Seq<char>, b: Seq<char>| text == #[trigger] (a + tokens[k] + b);
        let (x, y) = (head + a, b + tail);
        assert(chunk =~= x + tokens[k] + y);
    } else if exists|k: int| 0 <= k < tokens.len() && token_begun(text, #[trigger] tokens[k]) {
        let k = choose|k: int| 0 <= k < tokens.len() && token_begun(text, #[trigger] tokens[k]);
        let i = choose|i: int|
            1 <= i <= tokens[k].len() && (#[trigger] tokens[k].take(i)).is_suffix_of(text);
        let a = head + text.take(text.len() - i);
        assert(text =~= text.take(text.len() - i) + tokens[k].take(i));
        assert(chunk =~= a + tokens[k].take(i) + tail);
    } else {
        occurring_is_standing_between(text, "<|channel|>"@, head, tail);
        let (a, b) = choose|a: Seq<char>, b: Seq<char>|
            text == #[trigger] (a + "<|channel|>"@ + b);
        let (x, y) = (head + a, b + tail);
        assert(chunk =~= x + "<|channel|>"@ + y);
    }
}

/// Prose is no start: where every start token begins with an angle bracket, a chunk
/// without one is detected in neither mode.
pub proof fn prose_is_no_start(chunk: Seq<char>, tokens: Seq<Seq<char>>, strict: bool)
    requires
        forall|k: int| 0 <= k < tokens.len() && tokens[k].len() > 0 ==> #[trigger] tokens[k][0] == '<',
        forall|i: int| 0 <= i < chunk.len() ==> #[trigger] chunk[i] != '<',
    ensures
        !start_detected(chunk, tokens, strict),
{
    reveal_strlit("<|channel|>");
    if start_detected(chunk, tokens, strict) {
        only_starts_are_detected(chunk, tokens, strict);
        if exists|k: int, a: Seq<char>, b: Seq<char>|
            0 <= k < tokens.len() && tokens[k].len() > 0 && chunk == #[trigger] (a + tokens[k] + b) {
            let (k, a, b) = choose|k: int, a: Seq<char>, b: Seq<char>|
                0 <= k < tokens.len() && tokens[k].len() > 0 && chunk == #[trigger] (a + tokens[k]
                    + b);
            assert(chunk[a.len() as int] == tokens[k][0]);
        } else if exists|k: int, i: int, a: Seq<char>, b: Seq<char>|
            0 <= k < tokens.len() && 1 <= i <= tokens[k].len() && !solid(b) && chunk == #[trigger] (
            a + tokens[k].take(i) + b) {
            let (k, i, a, b) = choose|k: int, i: int, a: Seq<char>, b: Seq<char>|
                0 <= k < tokens.len() && 1 <= i <= tokens[k].len() && !solid(b) && chunk
                    == #[trigger] (a + tokens[k].take(i) + b);
            assert(chunk[a.len() as int] == tokens[k][0]);
        } else {
            let (a, b) = choose|a: Seq<char>, b: Seq<char>|
                chunk == #[trigger] (a + "<|channel|>"@ + b);
            assert(chunk[a.len() as int] == '<');
        }
    }
}

/// A call outside strict mode detects a channel marker anywhere in a chunk. Where every
/// start token begins with an angle bracket, a call in either mode detects nothing in a
/// chunk without one.
pub proof fn call_detects_starts_and_nothing_else(
    chunk: &str,
    config: &JsonParserConfig,
    strict: bool,
    detected: bool,
    before: Seq<char>,
    after: Seq<char>,
)
    requires
        call_ensures(detect_tool_call_start_harmony, (chunk, config, strict), detected),
    ensures
        !strict && chunk@ == before + "<|channel|>"@ + after ==> detected,
        (forall|k: int|
            0 <= k < config.tool_call_start_tokens@.len() ==> (
            #[trigger] config.tool_call_start_tokens@[k])@.len() > 0
                && config.tool_call_start_tokens@[k]@[0] == '<') && (forall|i: int|
            0 <= i < chunk@.len() ==> #[trigger] chunk@[i] != '<') ==> !detected,
{
    let tokens = texts(config.tool_call_start_tokens@);
    if !strict && chunk@ == before + "<|channel|>"@ + after {
        channel_marker_is_detected(before, after, tokens);
    }
    if (forall|k: int|
        0 <= k < config.tool_call_start_tokens@.len() ==> (
        #[trigger] config.tool_call_start_tokens@[k])@.len() > 0
            && config.tool_call_start_tokens@[k]@[0] == '<') && (forall|i: int|
        0 <= i < chunk@.len() ==> #[trigger] chunk@[i] != '<') {
        assert forall|k: int| 0 <= k < tokens.len() && tokens[k].len() > 0 implies
            #[trigger] tokens[k][0] == '<' by {
            assert(tokens[k] == config.tool_call_start_tokens@[k]@);
        }
        prose_is_no_start(chunk@, tokens, strict);
    }
}

} // verus!
