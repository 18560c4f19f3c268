//! Tool calls of a complete text in the Harmony format.
//!
//! The encoding splits the text into messages. A message on the commentary channel
//! that is meant for a function is a call; what is written on the analysis channel
//! is the text beside the calls.
use crate::text::{chars_of, decimal, same_text, starts_with, trim, trimmed};
use crate::tool_calling::config::JsonParserConfig;
use crate::tool_calling::harmony::commentary::{
    block_stands, captured_calls, commentary_blocks, commentary_captures, complete_json,
    completed_value, extract_calls_via_regex, gaps, one_call_for_each_block, outside_matches,
    residual_is_the_text_without_the_matches, successive,
};
use crate::tool_calling::harmony::encoding::{
    content_text, encode, harmony_messages, harmony_tokens, message_views, optional_text,
    parse_messages, tokenizable, Content, HarmonyMessage, MessageView, Role,
};
use crate::tool_calling::json::{json_text, json_value, parse_json, write_json};
use crate::tool_calling::repair::{
    cut_fits, cut_text, divides, every_cut_is_repaired, what_cannot_be_repaired, whole_text, Cut,
};
use crate::tool_calling::response::{
    call_id, call_ids_are_distinct, call_views, function_call, make_function_call,
    ToolCallResponse, ToolCallType, ToolCallView,
};
use crate::tool_calling::tools::ToolDefinition;
use vstd::prelude::*;
use vstd::string::*;
use vstd::utf8::encode_utf8;

verus! {

/// The part of a text that stands before its first dot; the whole text where it
/// has none.
pub open spec fn before_dot(s: Seq<char>) -> Seq<char>
    decreases s.len(),
{
    if s.len() == 0 || s[0] == '.' {
        Seq::empty()
    } else {
        seq![s[0]] + before_dot(s.drop_first())
    }
}

/// The function that a recipient stands for: `functions.`, its name, and nothing
/// or a dot and more. There is none where the name would be empty.
pub open spec fn function_name(recipient: Seq<char>) -> Option<Seq<char>> {
    if "functions."@.is_prefix_of(recipient) {
        let name = before_dot(recipient.skip("functions."@.len() as int));
        if name.len() > 0 {
            Some(name)
        } else {
            None
        }
    } else {
        None
    }
}

/// A message of the assistant on the given channel.
pub open spec fn assistant_message_on(m: MessageView, channel: Seq<char>) -> bool {
    m.role == Role::Assistant && m.channel == Some(channel)
}

/// The function that a message calls, if it calls one.
pub open spec fn called_name(m: MessageView) -> Option<Seq<char>> {
    if assistant_message_on(m, "commentary"@) && m.recipient is Some {
        function_name(m.recipient->0)
    } else {
        None
    }
}

/// The value of the arguments that a message holds. Arguments that were cut off
/// are completed only where `recover` says that nothing more will come.
pub open spec fn argument_value(m: MessageView, recover: bool) -> Option<serde_json::Value> {
    if m.content.len() > 0 && m.content[0] is Some {
        let raw = trimmed(m.content[0]->0);
        match json_value(raw) {
            Some(value) => Some(value),
            None => if recover {
                completed_value(raw)
            } else {
                None
            },
        }
    } else {
        None
    }
}

/// The arguments that a message holds: JSON, written anew, that is not `null`.
pub open spec fn argument_text(m: MessageView, recover: bool) -> Option<Seq<char>> {
    match argument_value(m, recover) {
        Some(value) => if json_text(value) == "null"@ {
            None
        } else {
            Some(json_text(value))
        },
        None => None,
    }
}

/// The calls that messages hold, in order: one for each message that calls a
/// function with arguments that can be read, numbered from one.
pub open spec fn message_calls(messages: Seq<MessageView>, recover: bool) -> Seq<ToolCallView>
    decreases messages.len(),
{
    if messages.len() == 0 {
        Seq::empty()
    } else {
        let before = message_calls(messages.drop_last(), recover);
        let m = messages.last();
        match (called_name(m), argument_text(m, recover)) {
            (Some(name), Some(arguments)) => before.push(
                function_call(before.len() + 1, name, arguments),
            ),
            _ => before,
        }
    }
}

/// What a message says in its first part; nothing where that is no text.
pub open spec fn first_text(m: MessageView) -> Seq<char> {
    match m.content[0] {
        Some(text) => text,
        None => Seq::empty(),
    }
}

/// What the assistant wrote on the analysis channel, one message after the other.
pub open spec fn analysis_text(messages: Seq<MessageView>) -> Seq<char>
    decreases messages.len(),
{
    if messages.len() == 0 {
        Seq::empty()
    } else {
        let before = analysis_text(messages.drop_last());
        let m = messages.last();
        if assistant_message_on(m, "analysis"@) {
            before + first_text(m)
        } else {
            before
        }
    }
}

/// Every message of the assistant on the analysis channel says something.
pub open spec fn analysis_is_written(messages: Seq<MessageView>) -> bool {
    forall|i: int|
        #![trigger messages[i]]
        0 <= i < messages.len() && assistant_message_on(messages[i], "analysis"@)
            ==> messages[i].content.len() > 0
}

/// The function that a recipient stands for, if any.
fn function_of(recipient: &str) -> (name: Option<String>)
    ensures
        optional_text(name) == function_name(recipient@),
{
    let prefix = chars_of("functions.");
    let chars = chars_of(recipient);
    if !starts_with(&chars, &prefix) {
        return None;
    }
    let from: usize = prefix.len();
    let mut to: usize = from;
    assert(chars@.subrange(from as int, to as int) =~= Seq::empty());
    assert(chars@.skip(from as int) =~= chars@.subrange(to as int, chars.len() as int));
    assert(before_dot(chars@.skip(from as int)) =~= chars@.subrange(from as int, to as int)
        + before_dot(chars@.subrange(to as int, chars.len() as int)));
    while to < chars.len() && chars[to] != '.'
        invariant
            from <= to <= chars.len(),
            before_dot(chars@.skip(from as int)) == chars@.subrange(from as int, to as int)
                + before_dot(chars@.subrange(to as int, chars.len() as int)),
        decreases chars.len() - to,
    {
        proof {
            let rest = chars@.subrange(to as int, chars.len() as int);
            assert(rest.drop_first() =~= chars@.subrange(to + 1, chars.len() as int));
            assert(chars@.subrange(from as int, to as int) + (seq![rest[0]] + before_dot(
                rest.drop_first(),
            )) =~= chars@.subrange(from as int, to + 1) + before_dot(rest.drop_first()));
        }
        to = to + 1;
    }
    assert(before_dot(chars@.subrange(to as int, chars.len() as int)) =~= Seq::empty());
    assert(before_dot(chars@.skip(from as int)) =~= chars@.subrange(from as int, to as int));
    if to == from {
        None
    } else {
        Some(recipient.substring_char(from, to).to_owned())
    }
}

/// Whether a text that may be absent is there and holds the given characters.
fn is_text(t: &Option<String>, expected: &str) -> (b: bool)
    ensures
        b == (optional_text(*t) == Some(expected@)),
{
    match t {
        Some(text) => same_text(text.as_str(), expected),
        None => false,
    }
}

/// The function that a message calls, if it calls one.
fn callee(m: &HarmonyMessage) -> (name: Option<String>)
    ensures
        optional_text(name) == called_name(m@),
{
    if m.role == Role::Assistant && is_text(&m.channel, "commentary") {
        match &m.recipient {
            Some(recipient) => function_of(recipient.as_str()),
            None => None,
        }
    } else {
        None
    }
}

/// The arguments that a message holds, if they can be read and are not `null`.
fn arguments_of(m: &HarmonyMessage, recover: bool) -> (arguments: Option<String>)
    ensures
        optional_text(arguments) == argument_text(m@, recover),
        arguments matches Some(text) ==> json_value(text@) is Some,
{
    if m.content.len() == 0 {
        return None;
    }
    assert(m@.content[0] == content_text(m.content@[0]));
    let value = match &m.content[0] {
        Content::Text(text) => {
            let raw = trim(text.as_str());
            match parse_json(raw).ok() {
                Some(value) => Some(value),
                None => if recover {
                    complete_json(raw)
                } else {
                    None
                },
            }
        },
        _ => None,
    };
    match value {
        Some(value) => if value.is_null() {
            None
        } else {
            write_json(&value).ok()
        },
        None => None,
    }
}

/// The calls that messages hold, and what the assistant wrote on the analysis
/// channel. The arguments of every call are JSON.
pub fn calls_from_messages(messages: &Vec<HarmonyMessage>, config: &JsonParserConfig) -> (r: (
    Vec<ToolCallResponse>,
    String,
))
    requires
        analysis_is_written(message_views(messages@)),
    ensures
        call_views(r.0@) == message_calls(message_views(messages@), config.allow_eof_recovery),
        r.1@ == analysis_text(message_views(messages@)),
        forall|i: int|
            0 <= i < r.0@.len() ==> json_value((#[trigger] r.0@[i]).function.arguments@) is Some,
{
    let ghost views = message_views(messages@);
    let recover = config.allow_eof_recovery;
    let mut calls: Vec<ToolCallResponse> = Vec::new();
    let mut normal_text = String::new();
    let mut i: usize = 0;
    assert(views.take(0) =~= Seq::empty());
    assert(call_views(calls@) =~= Seq::empty());
    while i < messages.len()
        invariant
            i <= messages.len(),
            calls.len() <= i,
            recover == config.allow_eof_recovery,
            views == message_views(messages@),
            analysis_is_written(views),
            call_views(calls@) == message_calls(views.take(i as int), recover),
            normal_text@ == analysis_text(views.take(i as int)),
            forall|k: int|
                0 <= k < calls@.len() ==> json_value((#[trigger] calls@[k]).function.arguments@) is Some,
        decreases messages.len() - i,
    {
        let m = &messages[i];
        let ghost before = calls@;
        proof {
            assert(views.take(i + 1).drop_last() =~= views.take(i as int));
            assert(views.take(i + 1).last() == views[i as int]);
            assert(views[i as int] == m@);
        }
        match callee(m) {
            Some(name) => match arguments_of(m, recover) {
                Some(arguments) => {
                    let number = calls.len() as u64 + 1;
                    calls.push(make_function_call(number, name, arguments));
                    assert(call_views(calls@) =~= call_views(before).push(calls@.last()@));
                },
                None => {},
            },
            None => {},
        }
        if m.role == Role::Assistant && is_text(&m.channel, "analysis") {
            assert(m@.content[0] == content_text(m.content@[0]));
            match &m.content[0] {
                Content::Text(text) => {
                    normal_text.append(text.as_str());
                },
                _ => {
                    assert(normal_text@ + Seq::<char>::empty() =~= normal_text@);
                },
            }
        }
        i = i + 1;
    }
    assert(views.take(views.len() as int) =~= views);
    (calls, normal_text)
}

/// The calls of a text and the text beside them, given the messages that the
/// encoding read out of it, or that it rejected the text. A rejected text gives
/// the calls of its commentary blocks where `recover` says that nothing more will
/// come and it has such blocks; else it gives no call, and comes back as it is.
pub open spec fn complete_calls(
    text: Seq<char>,
    parsed: Option<Seq<MessageView>>,
    recover: bool,
) -> (Seq<ToolCallView>, Seq<char>) {
    match parsed {
        Some(messages) => (message_calls(messages, recover), analysis_text(messages)),
        None => {
            let found = commentary_captures(text);
            if recover && captured_calls(text, found).len() > 0 {
                (captured_calls(text, found), trimmed(outside_matches(text, found)))
            } else {
                (Seq::empty(), text)
            }
        },
    }
}

/// What the encoding read out of a text.
pub open spec fn parsed_views(parsed: Option<Vec<HarmonyMessage>>) -> Option<Seq<MessageView>> {
    match parsed {
        Some(messages) => Some(message_views(messages@)),
        None => None,
    }
}

/// The calls of a text and the text beside them, given the messages that the
/// encoding read out of it, or `None` where it rejected the text.
pub fn calls_from_parse(
    text: &str,
    parsed: &Option<Vec<HarmonyMessage>>,
    config: &JsonParserConfig,
) -> (r: (Vec<ToolCallResponse>, Option<String>))
    requires
        parsed matches Some(messages) ==> analysis_is_written(message_views(messages@)),
    ensures
        r.1 is Some,
        (call_views(r.0@), r.1->0@) == complete_calls(
            text@,
            parsed_views(*parsed),
            config.allow_eof_recovery,
        ),
{
    match parsed {
        Some(messages) => {
            let (calls, normal_text) = calls_from_messages(messages, config);
            (calls, Some(normal_text))
        },
        None => {
            if config.allow_eof_recovery {
                let (calls, residual) = extract_calls_via_regex(text);
                assert(call_views(calls@).len() == calls@.len());
                if calls.len() > 0 {
                    return (calls, Some(residual));
                }
            }
            let calls: Vec<ToolCallResponse> = Vec::new();
            assert(call_views(calls@) =~= Seq::empty());
            (calls, Some(text.to_owned()))
        },
    }
}

/// What an encoding reads out of a text that the assistant wrote, where it
/// accepts the text.
pub open spec fn messages_of(
    encoding: openai_harmony::HarmonyEncoding,
    text: Seq<char>,
) -> Option<Seq<MessageView>> {
    harmony_messages(encoding, harmony_tokens(encoding, text))
}

/// The tool calls of a complete text in the Harmony format, without trailing stop
/// tokens, and the text beside them. Where the encoding could not be loaded, the
/// reason comes back. The tools that were offered to the model do not matter.
pub fn parse_tool_calls_harmony_complete(
    encoding: Result<&openai_harmony::HarmonyEncoding, anyhow::Error>,
    text: &str,
    config: &JsonParserConfig,
    _tools: Option<&[ToolDefinition]>,
) -> (r: Result<(Vec<ToolCallResponse>, Option<String>), anyhow::Error>)
    requires
        encoding is Ok ==> tokenizable(text@),
    ensures
        r is Err <==> encoding is Err,
        encoding matches Err(e) ==> r == Err::<(Vec<ToolCallResponse>, Option<String>), _>(e),
        encoding matches Ok(e) ==> {
            &&& r->Ok_0.1 is Some
            &&& (call_views(r->Ok_0.0@), r->Ok_0.1->0@) == complete_calls(
                text@,
                messages_of(*e, text@),
                config.allow_eof_recovery,
            )
        },
{
    let e = match encoding {
        Ok(e) => e,
        Err(e) => {
            return Err(e);
        },
    };
    let tokens = encode(e, text);
    let parsed = parse_messages(e, tokens).ok();
    proof {
        if parsed is Some {
            let messages = parsed->0@;
            let views = message_views(messages);
            assert forall|i: int|
                #![trigger views[i]]
                0 <= i < views.len() implies views[i].content.len() > 0 by {
                assert(views[i] == messages[i]@);
            }
        }
    }
    Ok(calls_from_parse(text, &parsed, config))
}

/// The function and the arguments of each call.
pub open spec fn called(calls: Seq<ToolCallView>) -> Seq<(Seq<char>, Seq<char>)> {
    calls.map_values(|c: ToolCallView| (c.name, c.arguments))
}

/// Calls are numbered from one, in the order of their messages.
pub proof fn calls_count_up(messages: Seq<MessageView>, recover: bool, i: int)
    requires
        0 <= i < message_calls(messages, recover).len(),
    ensures
        message_calls(messages, recover)[i].id == call_id((i + 1) as nat),
    decreases messages.len(),
{
    if i < message_calls(messages.drop_last(), recover).len() {
        calls_count_up(messages.drop_last(), recover, i);
    }
}

/// The calls of one text have distinct identifiers.
pub proof fn message_call_ids_are_distinct(
    messages: Seq<MessageView>,
    recover: bool,
    i: int,
    j: int,
)
    requires
        0 <= i < j < message_calls(messages, recover).len(),
    ensures
        message_calls(messages, recover)[i].id != message_calls(messages, recover)[j].id,
{
    calls_count_up(messages, recover, i);
    calls_count_up(messages, recover, j);
    call_ids_are_distinct((i + 1) as nat, (j + 1) as nat);
}

/// No call is made up: each is that of a message of the assistant on the
/// commentary channel, with the function that the message is meant for and the
/// arguments that it holds.
pub proof fn every_call_has_its_message(
    messages: Seq<MessageView>,
    recover: bool,
    i: int,
) -> (k: int)
    requires
        0 <= i < message_calls(messages, recover).len(),
    ensures
        0 <= k < messages.len(),
        called_name(messages[k]) == Some(message_calls(messages, recover)[i].name),
        argument_text(messages[k], recover) == Some(message_calls(messages, recover)[i].arguments),
    decreases messages.len(),
{
    if i < message_calls(messages.drop_last(), recover).len() {
        every_call_has_its_message(messages.drop_last(), recover, i)
    } else {
        messages.len() - 1
    }
}

/// Messages are read one by one: those of a conversation in two parts give the
/// calls of the first part, then those of the second, and what was written on the
/// analysis channel likewise.
pub proof fn messages_are_read_in_turn(a: Seq<MessageView>, b: Seq<MessageView>, recover: bool)
    ensures
        called(message_calls(a + b, recover)) == called(message_calls(a, recover)) + called(
            message_calls(b, recover),
        ),
        analysis_text(a + b) == analysis_text(a) + analysis_text(b),
    decreases b.len(),
{
    if b.len() == 0 {
        assert(a + b =~= a);
        assert(called(message_calls(a, recover)) + called(message_calls(b, recover)) =~= called(
            message_calls(a, recover),
        ));
        assert(analysis_text(a) + analysis_text(b) =~= analysis_text(a));
    } else {
        let rest = b.drop_last();
        messages_are_read_in_turn(a, rest, recover);
        assert((a + b).drop_last() =~= a + rest);
        assert((a + b).last() == b.last());
        let whole = called(message_calls(a + b, recover));
        let parts = called(message_calls(a, recover)) + called(message_calls(b, recover));
        match (called_name(b.last()), argument_text(b.last(), recover)) {
            (Some(name), Some(arguments)) => {
                assert(whole =~= called(message_calls(a + rest, recover)).push((name, arguments)));
                assert(called(message_calls(b, recover)) =~= called(
                    message_calls(rest, recover),
                ).push((name, arguments)));
                assert(whole =~= parts);
            },
            _ => {},
        }
        assert(analysis_text(a + b) =~= analysis_text(a) + analysis_text(b));
    }
}

/// While more may come, a partial call is none: a text that the encoding rejects
/// gives no call and comes back as it is, and the arguments of every call that a
/// message gives are JSON as they stand.
pub proof fn partial_calls_wait_for_the_end(text: Seq<char>, m: MessageView)
    ensures
        complete_calls(text, None, false) == (Seq::<ToolCallView>::empty(), text),
        argument_text(m, false) is Some ==> json_value(trimmed(m.content[0]->0)) is Some,
{
}

/// At the end of the text nothing that was read before is read otherwise: a
/// message that gives a call while more may come gives the same call then.
pub proof fn recovery_keeps_calls(m: MessageView)
    requires
        argument_text(m, false) is Some,
    ensures
        argument_text(m, true) == argument_text(m, false),
{
}

/// The arguments of a message are JSON as they stand.
pub open spec fn arguments_are_complete(m: MessageView) -> bool {
    m.content.len() > 0 && m.content[0] is Some && json_value(trimmed(m.content[0]->0)) is Some
}

/// On well-formed text the configuration does not matter: where the arguments of
/// every call are JSON as they stand, the calls are the same whether or not more
/// may come.
pub proof fn configuration_does_not_matter(text: Seq<char>, messages: Seq<MessageView>)
    requires
        forall|i: int|
            #![trigger messages[i]]
            0 <= i < messages.len() && called_name(messages[i]) is Some ==> arguments_are_complete(
                messages[i],
            ),
    ensures
        complete_calls(text, Some(messages), true) == complete_calls(text, Some(messages), false),
    decreases messages.len(),
{
    if messages.len() > 0 {
        let rest = messages.drop_last();
        assert forall|i: int|
            #![trigger rest[i]]
            0 <= i < rest.len() && called_name(rest[i]) is Some implies arguments_are_complete(
            rest[i],
        ) by {
            assert(rest[i] == messages[i]);
        }
        configuration_does_not_matter(text, rest);
        assert(messages[messages.len() - 1] == messages.last());
    }
}

/// A text without a dot.
pub open spec fn dotless(s: Seq<char>) -> bool {
    forall|i: int| 0 <= i < s.len() ==> #[trigger] s[i] != '.'
}

/// What stands before the first dot of a text that begins without one.
proof fn lemma_before_dot(name: Seq<char>, tail: Seq<char>)
    requires
        dotless(name),
        tail.len() > 0 ==> tail[0] == '.',
    ensures
        before_dot(name + tail) == name,
    decreases name.len(),
{
    if name.len() == 0 {
        assert(name + tail =~= tail);
        assert(before_dot(tail) =~= name);
    } else {
        let rest = name.drop_first();
        assert((name + tail)[0] == name[0]);
        assert((name + tail).drop_first() =~= rest + tail);
        lemma_before_dot(rest, tail);
        assert(seq![name[0]] + rest =~= name);
    }
}

/// What stands before the first dot of a text is a beginning of it without a dot, and
/// is followed by the end of the text or by a dot.
proof fn lemma_before_dot_ends(s: Seq<char>)
    ensures
        dotless(before_dot(s)),
        before_dot(s).is_prefix_of(s),
        before_dot(s).len() == s.len() || s[before_dot(s).len() as int] == '.',
    decreases s.len(),
{
    if s.len() > 0 && s[0] != '.' {
        let rest = s.drop_first();
        lemma_before_dot_ends(rest);
        let name = before_dot(s);
        assert(name =~= seq![s[0]] + before_dot(rest));
        assert forall|i: int| 0 <= i < name.len() implies #[trigger] name[i] != '.' && name[i]
            == s[i] by {
            if i > 0 {
                assert(name[i] == before_dot(rest)[i - 1]);
                assert(rest.subrange(0, before_dot(rest).len() as int)[i - 1] == rest[i - 1]);
            }
        }
        assert(name =~= s.subrange(0, name.len() as int));
    } else {
        assert(s.subrange(0, 0) =~= before_dot(s));
    }
}

/// A recipient is that of a function if and only if it is `functions.` and a name that
/// is not empty, with nothing behind it or a dot and anything; the name reaches to the
/// first dot.
pub proof fn recipient_names_its_function(name: Seq<char>, rest: Seq<char>)
    requires
        dotless(name),
    ensures
        name.len() > 0 ==> function_name("functions."@ + name) == Some(name),
        name.len() > 0 ==> function_name("functions."@ + name + "."@ + rest) == Some(name),
        name.len() == 0 ==> function_name("functions."@ + name) is None,
        name.len() == 0 ==> function_name("functions."@ + name + "."@ + rest) is None,
{
    reveal_strlit(".");
    let k = "functions."@.len() as int;
    let short = "functions."@ + name;
    let long = "functions."@ + name + "."@ + rest;
    assert(short.subrange(0, k) =~= "functions."@);
    assert(long.subrange(0, k) =~= "functions."@);
    assert(short.skip(k) =~= name + Seq::empty());
    assert(long.skip(k) =~= name + ("."@ + rest));
    lemma_before_dot(name, Seq::empty());
    lemma_before_dot(name, "."@ + rest);
}

/// Whatever else a recipient is, it is that of no function.
pub proof fn other_recipients_name_no_function(recipient: Seq<char>)
    ensures
        function_name(recipient) matches Some(name) ==> {
            &&& name.len() > 0
            &&& dotless(name)
            &&& recipient == "functions."@ + name || ("functions."@ + name
                + "."@).is_prefix_of(recipient)
        },
        !"functions."@.is_prefix_of(recipient) ==> function_name(recipient) is None,
{
    if "functions."@.is_prefix_of(recipient) {
        reveal_strlit(".");
        let k = "functions."@.len() as int;
        let tail = recipient.skip(k);
        lemma_before_dot_ends(tail);
        let name = before_dot(tail);
        assert(recipient =~= "functions."@ + tail);
        if name.len() == tail.len() {
            assert(name =~= tail);
        } else {
            let head = "functions."@ + name + "."@;
            assert(tail.subrange(0, name.len() as int) == name);
            assert(recipient.subrange(0, head.len() as int) =~= head) by {
                assert forall|i: int| 0 <= i < head.len() implies recipient[i] == head[i] by {
                    if i >= k {
                        assert(recipient[i] == tail[i - k]);
                        if i < k + name.len() {
                            assert(name[i - k] == tail.subrange(0, name.len() as int)[i - k]);
                        }
                    }
                }
            }
        }
    }
}

/// A message of the assistant on the commentary channel is meant for the function with
/// the given name, alone or with a dot and more behind it.
pub open spec fn meant_for(m: MessageView, name: Seq<char>) -> bool {
    &&& m.role == Role::Assistant
    &&& m.channel == Some("commentary"@)
    &&& name.len() > 0 && dotless(name)
    &&& m.recipient matches Some(recipient) && (recipient == "functions."@ + name || (
    "functions."@ + name + "."@).is_prefix_of(recipient))
}

/// A message that is meant for a function calls it.
proof fn lemma_meant_for(m: MessageView, name: Seq<char>)
    requires
        meant_for(m, name),
    ensures
        called_name(m) == Some(name),
{
    let recipient = m.recipient->0;
    let head = "functions."@ + name + "."@;
    let rest = recipient.skip(head.len() as int);
    recipient_names_its_function(name, rest);
    if recipient != "functions."@ + name {
        assert(recipient =~= head + rest);
    }
}

/// Each message that is meant for a function and holds arguments that are JSON, but not
/// `null`, gives one call more: with the next number, that name, and the arguments
/// written anew.
pub proof fn message_for_a_function_is_a_call(
    messages: Seq<MessageView>,
    m: MessageView,
    name: Seq<char>,
    text: Seq<char>,
    value: serde_json::Value,
    recover: bool,
)
    requires
        meant_for(m, name),
        m.content.len() > 0,
        m.content[0] == Some(text),
        json_value(trimmed(text)) == Some(value),
        json_text(value) != "null"@,
    ensures
        message_calls(messages.push(m), recover) == message_calls(messages, recover).push(
            ToolCallView {
                id: "call-"@ + decimal(message_calls(messages, recover).len() + 1),
                tp: ToolCallType::Function,
                name,
                arguments: json_text(value),
            },
        ),
{
    lemma_meant_for(m, name);
    assert(messages.push(m).drop_last() =~= messages);
}

/// At the end of the text a message for a function whose arguments were cut off gives
/// the call with the whole arguments, whatever was open where they were cut off.
pub proof fn cut_off_message_is_a_call_at_the_end(
    messages: Seq<MessageView>,
    m: MessageView,
    name: Seq<char>,
    text: Seq<char>,
    c: Cut,
    value: serde_json::Value,
)
    requires
        meant_for(m, name),
        m.content.len() > 0,
        m.content[0] == Some(text),
        cut_fits(c),
        !(c is Complete),
        trimmed(text) == cut_text(c),
        json_value(trimmed(text)) is None,
        json_value(whole_text(c)) == Some(value),
        json_text(value) != "null"@,
    ensures
        message_calls(messages.push(m), true) == message_calls(messages, true).push(
            ToolCallView {
                id: "call-"@ + decimal(message_calls(messages, true).len() + 1),
                tp: ToolCallType::Function,
                name,
                arguments: json_text(value),
            },
        ),
        message_calls(messages.push(m), false) == message_calls(messages, false),
{
    lemma_meant_for(m, name);
    every_cut_is_repaired(c);
    assert(messages.push(m).drop_last() =~= messages);
}

/// No other message gives a call: not one of somebody else or on another channel, not
/// one that is meant for nobody or not for a function, not one without text, nor one
/// whose arguments are `null` or no JSON, unless they were cut off and nothing more will
/// come. No message gives no call.
pub proof fn other_messages_are_no_calls(
    messages: Seq<MessageView>,
    m: MessageView,
    c: Cut,
    rest: Seq<char>,
    recover: bool,
)
    requires
        ({
            ||| m.role != Role::Assistant
            ||| m.channel != Some("commentary"@)
            ||| m.recipient is None
            ||| !"functions."@.is_prefix_of(m.recipient->0)
            ||| m.content.len() == 0
            ||| m.content[0] is None
            ||| json_value(trimmed(m.content[0]->0)) matches Some(value) && json_text(value)
                == "null"@
            ||| json_value(trimmed(m.content[0]->0)) is None && !recover
            ||| json_value(trimmed(m.content[0]->0)) is None && divides(
                trimmed(m.content[0]->0),
                c,
                rest,
            ) && (rest.len() > 0 || c is Complete || json_value(whole_text(c)) is None)
        }),
    ensures
        message_calls(messages.push(m), recover) == message_calls(messages, recover),
        message_calls(Seq::empty(), recover).len() == 0,
{
    assert(messages.push(m).drop_last() =~= messages);
    let raw = trimmed(m.content[0]->0);
    if divides(raw, c, rest) {
        if rest.len() == 0 {
            assert(cut_text(c) + rest =~= cut_text(c));
            every_cut_is_repaired(c);
        } else {
            let after = rest.drop_first();
            assert(cut_text(c) + rest =~= cut_text(c) + seq![rest[0]] + after);
            what_cannot_be_repaired(c, rest[0], after);
        }
    }
}

/// What the assistant writes on the analysis channel is kept, one text behind the
/// other, and nothing else is.
pub proof fn analysis_is_kept_in_order(messages: Seq<MessageView>, m: MessageView)
    ensures
        analysis_text(Seq::empty()).len() == 0,
        m.role == Role::Assistant && m.channel == Some("analysis"@) && m.content.len() > 0 ==> (
        m.content[0] matches Some(text) ==> analysis_text(messages.push(m)) == analysis_text(
            messages,
        ) + text),
        m.role != Role::Assistant || m.channel != Some("analysis"@) || m.content[0] is None
            ==> analysis_text(messages.push(m)) == analysis_text(messages),
{
    assert(messages.push(m).drop_last() =~= messages);
    assert(analysis_text(messages) + Seq::<char>::empty() =~= analysis_text(messages));
}

/// A text that the encoding accepts gives what its messages give. One that it rejects
/// gives, where nothing more will come, the calls of its blocks and the text with the
/// blocks cut out, trimmed; where it has no block, or more may come, it gives no call
/// and stays as it is.
pub proof fn text_gives_what_its_messages_or_blocks_give(
    text: Seq<char>,
    messages: Seq<MessageView>,
    recover: bool,
)
    requires
        successive(text, commentary_captures(text)),
        commentary_blocks(text, commentary_captures(text)),
    ensures
        complete_calls(text, Some(messages), recover).0 == message_calls(messages, recover),
        complete_calls(text, Some(messages), recover).1 == analysis_text(messages),
        ({
            let (calls, kept) = complete_calls(text, None, recover);
            let found = commentary_captures(text);
            if recover && found.len() > 0 {
                &&& calls == captured_calls(text, found)
                &&& calls.len() == found.len()
                &&& kept == trimmed(gaps(text, found).flatten())
            } else {
                calls.len() == 0 && kept == text
            }
        }),
{
    let found = commentary_captures(text);
    one_call_for_each_block(text, found, 0);
    residual_is_the_text_without_the_matches(text, found);
}

/// Where nothing more will come, a text that the encoding rejects gives a call as soon
/// as a commentary block stands anywhere in it.
pub proof fn standing_block_gives_a_call(
    text: Seq<char>,
    before: Seq<char>,
    name: Seq<char>,
    gap: Seq<char>,
    after: Seq<char>,
)
    requires
        successive(text, commentary_captures(text)),
        commentary_blocks(text, commentary_captures(text)),
        block_stands(text, before, name, gap, after),
    ensures
        complete_calls(text, None, true).0.len() > 0,
{
    let found = commentary_captures(text);
    one_call_for_each_block(text, found, 0);
    let i = choose|i: int|
        0 <= i < found.len() && (#[trigger] found[i]).start <= encode_utf8(before).len()
            < found[i].end;
    assert(found.len() > 0);
}

/// A call reads a text by the messages that the encoding reads out of the tokens of the
/// whole text, exactly as it was handed in, and by nothing else; the tools that were
/// offered do not matter. Where the encoding could not be loaded, its error comes back.
pub proof fn call_reads_the_tokens_of_the_whole_text(
    encoding: Result<&openai_harmony::HarmonyEncoding, anyhow::Error>,
    text: &str,
    config: &JsonParserConfig,
    tools: Option<&[ToolDefinition]>,
    r: Result<(Vec<ToolCallResponse>, Option<String>), anyhow::Error>,
)
    requires
        call_ensures(parse_tool_calls_harmony_complete, (encoding, text, config, tools), r),
    ensures
        encoding matches Err(e) ==> r == Err::<(Vec<ToolCallResponse>, Option<String>), _>(e),
        encoding matches Ok(e) ==> {
            &&& r is Ok
            &&& r->Ok_0.1 is Some
            &&& harmony_messages(*e, harmony_tokens(*e, text@)) matches Some(messages) ==> {
                &&& call_views(r->Ok_0.0@) == message_calls(messages, config.allow_eof_recovery)
                &&& (r->Ok_0.1->0)@ == analysis_text(messages)
            }
            &&& harmony_messages(*e, harmony_tokens(*e, text@)) is None
                && !config.allow_eof_recovery ==> {
                &&& r->Ok_0.0@.len() == 0
                &&& (r->Ok_0.1->0)@ == text@
            }
            &&& harmony_messages(*e, harmony_tokens(*e, text@)) is None
                && config.allow_eof_recovery ==> {
                &&& call_views(r->Ok_0.0@) == captured_calls(text@, commentary_captures(text@))
                &&& r->Ok_0.0@.len() == 0 ==> (r->Ok_0.1->0)@ == text@
                &&& r->Ok_0.0@.len() > 0 ==> (r->Ok_0.1->0)@ == trimmed(
                    outside_matches(text@, commentary_captures(text@)),
                )
            }
        },
{
    if r is Ok {
        assert(call_views(r->Ok_0.0@).len() == r->Ok_0.0@.len());
        let calls = captured_calls(text@, commentary_captures(text@));
        if calls.len() == 0 {
            assert(calls =~= Seq::empty());
        }
    }
}

} // verus!
