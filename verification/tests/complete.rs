use dynamo::tool_calling::config::JsonParserConfig;
use dynamo::tool_calling::harmony::classes::{
    is_maybe_letter, is_maybe_mark, is_maybe_sign, is_maybe_upper,
};
use dynamo::tool_calling::harmony::commentary::{
    calls_from_captures, extract_calls_via_regex, recover_arguments, Capture, COMMENTARY_PATTERN,
};
use dynamo::tool_calling::harmony::complete::{
    calls_from_messages, calls_from_parse, parse_tool_calls_harmony_complete,
};
use dynamo::tool_calling::harmony::encoding::{
    is_tokenizable, Content, HarmonyMessage, Role, LONGEST_RUN,
};
use dynamo::tool_calling::repair::try_repair_truncated_json;
use dynamo::tool_calling::response::{ToolCallResponse, ToolCallType};
use dynamo::tool_calling::tools::ToolDefinition;
use serde_json::Value;

fn recovering() -> JsonParserConfig {
    JsonParserConfig { allow_eof_recovery: true, ..Default::default() }
}

fn message(channel: &str, recipient: Option<&str>, text: &str) -> HarmonyMessage {
    HarmonyMessage {
        role: Role::Assistant,
        channel: Some(channel.to_string()),
        recipient: recipient.map(|r| r.to_string()),
        content: vec![Content::Text(text.to_string())],
    }
}

fn commentary(recipient: &str, text: &str) -> HarmonyMessage {
    message("commentary", Some(recipient), text)
}

fn analysis(text: &str) -> HarmonyMessage {
    message("analysis", None, text)
}

fn extract_name_and_args(call: ToolCallResponse) -> (String, Value) {
    let args: Value = serde_json::from_str(&call.function.arguments).unwrap();
    (call.function.name, args)
}

#[test]
fn test_parse_tool_calls_harmony_complete_basic() {
    let text = r#"<|channel|>commentary to=functions.get_current_weather <|constrain|>json<|message|>{"format":"celsius","location":"San Francisco"}"#;
    let parsed = Some(vec![commentary(
        "functions.get_current_weather",
        r#"{"format":"celsius","location":"San Francisco"}"#,
    )]);
    let (tool_calls, normal_content) = calls_from_parse(text, &parsed, &Default::default());
    assert_eq!(normal_content, Some("".to_string()));
    let (name, args) = extract_name_and_args(tool_calls[0].clone());
    assert_eq!(name, "get_current_weather");
    assert_eq!(args["location"], "San Francisco");
    assert_eq!(args["format"], "celsius");
}

#[test]
fn test_parse_tools_harmony_without_start_token() {
    let text = r#"<|channel|>analysis<|message|>Need to use function get_current_weather.<|end|><|message|>{"location":"San Francisco"}<|call|>"#;
    let (tool_calls, normal_content) = calls_from_parse(text, &None, &Default::default());
    assert_eq!(normal_content, Some(text.trim().to_string()));
    assert_eq!(tool_calls.len(), 0);
}

#[test]
fn test_parse_tool_calls_harmony_with_multi_args() {
    let text = r#"<|channel|>analysis<|message|>Need to use function get_current_weather.<|end|><|start|>assistant<|channel|>commentary to=functions.get_current_weather <|constrain|>json<|message|>{"location":"San Francisco", "unit":"fahrenheit"}<|call|>"#;
    let parsed = Some(vec![
        analysis("Need to use function get_current_weather."),
        commentary(
            "functions.get_current_weather",
            r#"{"location":"San Francisco", "unit":"fahrenheit"}"#,
        ),
    ]);
    let (tool_calls, normal_content) = calls_from_parse(text, &parsed, &Default::default());
    assert_eq!(normal_content, Some("Need to use function get_current_weather.".to_string()));
    assert_eq!(tool_calls.len(), 1);
    let (name, args) = extract_name_and_args(tool_calls[0].clone());
    assert_eq!(name, "get_current_weather");
    assert_eq!(args["location"], "San Francisco");
    assert_eq!(args["unit"], "fahrenheit");
}

#[test]
fn test_parse_tool_calls_harmony_with_normal_text() {
    let text = r#"<|channel|>analysis<|message|>Need to use function get_current_weather.<|end|><|start|>assistant<|channel|>commentary to=functions.get_current_weather <|constrain|>json<|message|>{"location":"San Francisco"}<|call|>"#;
    let parsed = Some(vec![
        analysis("Need to use function get_current_weather."),
        commentary("functions.get_current_weather", r#"{"location":"San Francisco"}"#),
    ]);
    let (tool_calls, normal_content) = calls_from_parse(text, &parsed, &Default::default());
    assert_eq!(normal_content, Some("Need to use function get_current_weather.".to_string()));
    assert_eq!(tool_calls.len(), 1);
    let (name, args) = extract_name_and_args(tool_calls[0].clone());
    assert_eq!(name, "get_current_weather");
    assert_eq!(args["location"], "San Francisco");
}

#[test]
fn test_parse_harmony_multiple_calls_recovers() {
    let text = r#"<|start|>assistant<|channel|>commentary to=functions.a <|constrain|>json<|message|>{"x":1}<|call|><|start|>assistant<|channel|>commentary to=functions.b <|constrain|>json<|message|>{"y":2}<|call|>"#;
    let (tool_calls, _normal) = calls_from_parse(text, &None, &recovering());
    assert_eq!(tool_calls.len(), 2);
    let (n0, a0) = extract_name_and_args(tool_calls[0].clone());
    let (n1, a1) = extract_name_and_args(tool_calls[1].clone());
    assert_eq!(n0, "a");
    assert_eq!(a0["x"], 1);
    assert_eq!(n1, "b");
    assert_eq!(a1["y"], 2);
}

#[test]
fn test_parse_harmony_truncated_json_recovers() {
    let text = r#"<|start|>assistant<|channel|>commentary to=functions.get_weather <|constrain|>json<|message|>{"location":"NYC<|call|>"#;
    let (tool_calls, _normal) = calls_from_parse(text, &None, &recovering());
    assert_eq!(tool_calls.len(), 1);
    let (name, args) = extract_name_and_args(tool_calls[0].clone());
    assert_eq!(name, "get_weather");
    assert_eq!(args["location"], "NYC");
}

#[test]
fn test_parse_harmony_bare_envelope_no_call_token_recovers() {
    let text = r#"<|start|>assistant<|channel|>commentary to=functions.get_weather <|constrain|>json<|message|>{"location":"NYC"}"#;
    let (tool_calls, _normal) = calls_from_parse(text, &None, &recovering());
    assert_eq!(tool_calls.len(), 1);
    let (name, args) = extract_name_and_args(tool_calls[0].clone());
    assert_eq!(name, "get_weather");
    assert_eq!(args["location"], "NYC");
}

#[test]
fn test_parse_harmony_regex_fallback_preserves_residual_text() {
    let text = r#"PREFIX <|start|>assistant<|channel|>commentary to=functions.a <|constrain|>json<|message|>{"x":1}<|call|> SUFFIX"#;
    let (tool_calls, normal) = calls_from_parse(text, &None, &recovering());
    assert_eq!(tool_calls.len(), 1);
    let normal = normal.unwrap_or_default();
    assert!(normal.contains("PREFIX"), "normal must keep prefix: {normal:?}");
    assert!(normal.contains("SUFFIX"), "normal must keep suffix: {normal:?}");
    assert_eq!(normal, "PREFIX <|start|>assistant SUFFIX");
}

#[test]
fn test_parse_tool_calls_harmony_without_call_token() {
    let text = r#"<|channel|>analysis<|message|>We need to call get_weather function. The user asks "What's the weather like in San Francisco in Celsius?" So location: "San Francisco, CA" unit: "celsius". Let's call function.<|end|><|start|>assistant<|channel|>commentary to=functions.get_weather <|constrain|>json<|message|>{"location":"San Francisco, CA","unit":"celsius"}"#;
    let thought = r#"We need to call get_weather function. The user asks "What's the weather like in San Francisco in Celsius?" So location: "San Francisco, CA" unit: "celsius". Let's call function."#;
    let parsed = Some(vec![
        analysis(thought),
        commentary(
            "functions.get_weather",
            r#"{"location":"San Francisco, CA","unit":"celsius"}"#,
        ),
    ]);
    let (tool_calls, normal_content) = calls_from_parse(text, &parsed, &Default::default());
    assert_eq!(normal_content, Some("We need to call get_weather function. The user asks \"What's the weather like in San Francisco in Celsius?\" So location: \"San Francisco, CA\" unit: \"celsius\". Let's call function.".to_string()));
    assert_eq!(tool_calls.len(), 1);
    let (name, args) = extract_name_and_args(tool_calls[0].clone());
    assert_eq!(name, "get_weather");
    assert_eq!(args["location"], "San Francisco, CA");
    assert_eq!(args["unit"], "celsius");
}

#[test]
fn test_harmony_parser_output_independent_of_upstream_finish() {
    let text = r#"<|channel|>commentary to=functions.get_current_weather <|constrain|>json<|message|>{"location":"NYC"}"#;
    let parsed =
        Some(vec![commentary("functions.get_current_weather", r#"{"location":"NYC"}"#)]);
    let (tool_calls, _) = calls_from_parse(text, &parsed, &Default::default());
    assert_eq!(tool_calls.len(), 1);
}

#[test]
fn test_parse_harmony_empty_args() {
    let text = r#"<|channel|>commentary to=functions.current_time <|constrain|>json<|message|>{}"#;
    let parsed = Some(vec![commentary("functions.current_time", "{}")]);
    let (tool_calls, _) = calls_from_parse(text, &parsed, &Default::default());
    assert_eq!(tool_calls.len(), 1);
    let (name, args) = extract_name_and_args(tool_calls[0].clone());
    assert_eq!(name, "current_time");
    assert_eq!(args, Value::Object(serde_json::Map::new()));
}

#[test]
fn test_parse_harmony_empty_and_whitespace_inputs() {
    for input in &["", " ", "\n", "\t\n  \t"] {
        let (tool_calls, normal) = calls_from_parse(input, &None, &Default::default());
        assert!(
            tool_calls.is_empty(),
            "Empty/whitespace input must yield no calls (input={:?})",
            input
        );
        assert_eq!(
            normal.as_deref(),
            Some(*input),
            "harmony passes empty/whitespace input verbatim to normal_text (input={:?})",
            input
        );
    }
}

#[test]
fn test_parse_harmony_duplicate_calls_same_name() {
    let text = r#"<|channel|>commentary to=functions.get_weather <|constrain|>json<|message|>{"city":"NYC"}<|call|><|start|>assistant<|channel|>commentary to=functions.get_weather <|constrain|>json<|message|>{"city":"LA"}<|call|>"#;
    let parsed = Some(vec![
        commentary("functions.get_weather", r#"{"city":"NYC"}"#),
        commentary("functions.get_weather", r#"{"city":"LA"}"#),
    ]);
    let (tool_calls, _) = calls_from_parse(text, &parsed, &Default::default());
    assert_eq!(tool_calls.len(), 2, "Both duplicate-name calls must be returned");
    assert_ne!(
        tool_calls[0].id, tool_calls[1].id,
        "Duplicate calls must have distinct ids"
    );
    let (name0, args0) = extract_name_and_args(tool_calls[0].clone());
    let (name1, args1) = extract_name_and_args(tool_calls[1].clone());
    assert_eq!(name0, "get_weather");
    assert_eq!(name1, "get_weather");
    assert_eq!(args0["city"], "NYC");
    assert_eq!(args1["city"], "LA");
}

#[test]
fn an_encoding_that_could_not_be_loaded_is_an_error() {
    let text = "<|channel|>commentary to=functions.a<|message|>{}<|call|>";
    let tools = [ToolDefinition { name: "a".to_string(), parameters: None }];
    for config in [JsonParserConfig::default(), recovering()] {
        for tools in [None, Some(&tools[..])] {
            let encoding = Err(anyhow::Error::msg("no vocabulary"));
            let e = parse_tool_calls_harmony_complete(encoding, text, &config, tools).unwrap_err();
            assert_eq!(e.to_string(), "no vocabulary");
        }
    }
}

#[test]
fn no_call_is_fabricated_from_another_message() {
    for text in [
        "<|channel|>commentary to=functions.a<|end|><|start|>assistant<|channel|>final<|message|>hi",
        "<|channel|>commentary to=functions.a words <|message|>{}<|call|>",
        "<|channel|>commentary to=functions.a <|constrain|>yaml<|message|>{}<|call|>",
        "<|channel|>commentary to=functions.a <|constrain|>json x<|message|>{}<|call|>",
    ] {
        let (calls, rest) = extract_calls_via_regex(text);
        assert!(calls.is_empty(), "{text}");
        assert_eq!(rest, text);
        let (calls, normal) = calls_from_parse(text, &None, &recovering());
        assert!(calls.is_empty());
        assert_eq!(normal.as_deref(), Some(text));
    }
    for text in [
        "<|channel|>commentary to=functions.a<|message|>1<|call|>",
        "<|channel|>commentary to=functions.a \n<|message|>1<|call|>",
        "<|channel|>commentary to=functions.a<|constrain|>json<|message|>1",
        "<|channel|>commentary to=functions.a\u{3000}<|constrain|>json \t<|message|>1",
    ] {
        let (calls, rest) = extract_calls_via_regex(text);
        assert_eq!(calls.len(), 1, "{text}");
        assert_eq!(calls[0].function.name, "a");
        assert_eq!(calls[0].function.arguments, "1");
        assert_eq!(rest, "");
    }
    let two = "<|channel|>commentary to=functions.a<|end|><|channel|>commentary to=functions.b<|message|>2";
    let (calls, rest) = extract_calls_via_regex(two);
    assert_eq!(calls.len(), 1);
    assert_eq!(calls[0].function.name, "b");
    assert_eq!(rest, "<|channel|>commentary to=functions.a<|end|>");
}

#[test]
fn the_configuration_does_not_matter_on_well_formed_text() {
    let parsed = Some(vec![
        analysis("thought"),
        commentary("functions.f", "{\"a\":1}"),
        commentary("functions.g", "null"),
    ]);
    let (c1, n1) = calls_from_parse("", &parsed, &Default::default());
    let (c2, n2) = calls_from_parse("", &parsed, &recovering());
    assert_eq!(n1, n2);
    assert_eq!(c1.len(), 1);
    assert_eq!(c2.len(), 1);
    assert_eq!(c1[0].id, c2[0].id);
    assert_eq!(c1[0].function.arguments, c2[0].function.arguments);
}

#[test]
fn rejected_text_gives_calls_only_at_its_end() {
    let text = "a <|channel|>commentary to=functions.f<|message|>{\"x\":1}<|call|> b";
    let (calls, normal) = calls_from_parse(text, &None, &Default::default());
    assert!(calls.is_empty());
    assert_eq!(normal.as_deref(), Some(text));
    let (calls, normal) = calls_from_parse(text, &None, &recovering());
    assert_eq!(calls.len(), 1);
    assert_eq!(calls[0].id, "call-1");
    assert_eq!(calls[0].tp, ToolCallType::Function);
    assert_eq!(calls[0].function.name, "f");
    assert_eq!(calls[0].function.arguments, "{\"x\":1}");
    assert_eq!(normal.as_deref(), Some("a  b"));
    let prose = "  no block here ";
    let (calls, normal) = calls_from_parse(prose, &None, &recovering());
    assert!(calls.is_empty());
    assert_eq!(normal.as_deref(), Some(prose));
}

#[test]
fn only_messages_of_the_assistant_for_functions_are_calls() {
    let mut user = commentary("functions.f", "{}");
    user.role = Role::User;
    let mut elsewhere = commentary("functions.f", "{}");
    elsewhere.channel = Some("final".to_string());
    let mut nowhere = commentary("functions.f", "{}");
    nowhere.channel = None;
    let mut silent = commentary("functions.f", "{}");
    silent.content = vec![];
    let mut odd = commentary("functions.f", "{}");
    odd.content = vec![Content::System];
    let messages = vec![
        user,
        elsewhere,
        nowhere,
        silent,
        odd,
        commentary("python", "{}"),
        commentary("functions.", "{}"),
        commentary("functions..f", "{}"),
        commentary("functionsf", "{}"),
        message("commentary", None, "{}"),
        commentary("functions.f", "null"),
        commentary("functions.f", "not JSON"),
        commentary("functions.first.rest", " {\"a\" : [1, 2.5]} \n"),
        commentary("functions.zweite", "7"),
    ];
    let (calls, normal) = calls_from_messages(&messages, &Default::default());
    assert_eq!(normal, "");
    assert_eq!(calls.len(), 2);
    assert_eq!(calls[0].id, "call-1");
    assert_eq!(calls[0].function.name, "first");
    assert_eq!(calls[0].function.arguments, "{\"a\":[1,2.5]}");
    assert_eq!(calls[1].id, "call-2");
    assert_eq!(calls[1].function.name, "zweite");
    assert_eq!(calls[1].function.arguments, "7");
}

#[test]
fn arguments_that_were_cut_off_wait_for_the_end() {
    let messages = vec![commentary("functions.f", "{\"city\":\"Zürich")];
    let (calls, _) = calls_from_messages(&messages, &Default::default());
    assert!(calls.is_empty());
    let (calls, _) = calls_from_messages(&messages, &recovering());
    assert_eq!(calls.len(), 1);
    assert_eq!(calls[0].function.arguments, "{\"city\":\"Zürich\"}");
}

#[test]
fn analysis_is_read_in_turn() {
    let mut odd = analysis("x");
    odd.content = vec![Content::Developer];
    let messages = vec![
        analysis("one "),
        commentary("functions.f", "{}"),
        odd,
        message("final", None, "not this"),
        analysis("two"),
    ];
    let (calls, normal) = calls_from_messages(&messages, &Default::default());
    assert_eq!(calls.len(), 1);
    assert_eq!(normal, "one two");
}

#[test]
fn captures_are_taken_by_byte_offsets() {
    let text = "ä<n>{ }é";
    let found = vec![
        Capture { start: 2, end: 8, first: Some((3, 4)), second: Some((5, 8)) },
    ];
    let (calls, rest) = calls_from_captures(text, &found);
    assert_eq!(calls.len(), 1);
    assert_eq!(calls[0].function.name, "n");
    assert_eq!(calls[0].function.arguments, "{}");
    assert_eq!(rest, "äé");
    let (calls, rest) = calls_from_captures(
        text,
        &vec![
            Capture { start: 0, end: 2, first: None, second: None },
            Capture { start: 2, end: 5, first: Some((3, 4)), second: None },
        ],
    );
    assert_eq!(calls.len(), 1);
    assert_eq!(calls[0].id, "call-2");
    assert_eq!(calls[0].function.arguments, "{}");
    assert_eq!(rest, "{ }é");
}

#[test]
fn the_blocks_are_those_of_the_pattern() {
    let re = regex::Regex::new(COMMENTARY_PATTERN).unwrap();
    let open = "<|channel|>commentary to=functions.";
    let texts = [
        format!("{open}a-b.c_d é <|message|>x<|message|>y<|call|>z<|call|>"),
        format!("{open}é<|message|>{{}}"),
        format!("{open} a<|message|>{{}}<|call|>"),
        format!("{open}a"),
        format!("{open}a{open}b<|message|>1<|call|>{open}c<|message|>2"),
        "nothing".to_string(),
    ];
    for text in texts {
        let (calls, rest) = extract_calls_via_regex(&text);
        let mut expected = Vec::new();
        let mut outside = String::new();
        let mut cursor = 0;
        for c in re.captures_iter(&text) {
            let m = c.get(0).unwrap();
            outside.push_str(&text[cursor..m.start()]);
            cursor = m.end();
            expected.push((c["name"].to_string(), recover_arguments(c["args"].trim())));
        }
        outside.push_str(&text[cursor..]);
        assert_eq!(rest, outside.trim());
        let found: Vec<(String, String)> =
            calls.into_iter().map(|c| (c.function.name, c.function.arguments)).collect();
        assert_eq!(found, expected);
    }
}

#[test]
fn arguments_are_written_anew_completed_or_kept() {
    assert_eq!(recover_arguments("{ \"b\" : 1, \"a\" : [ ] }"), "{\"b\":1,\"a\":[]}");
    assert_eq!(recover_arguments("{\"a\":[1,{\"b\":\"c"), "{\"a\":[1,{\"b\":\"c\"}]}");
    assert_eq!(recover_arguments("plain words"), "plain words");
    assert_eq!(recover_arguments("{\"a\":}"), "{\"a\":}");
    assert_eq!(recover_arguments("null"), "null");
}

#[test]
fn what_is_open_is_closed() {
    assert_eq!(try_repair_truncated_json("{\"a\":[\"b").as_deref(), Some("{\"a\":[\"b\"]}"));
    assert_eq!(try_repair_truncated_json("[\"}\", {").as_deref(), Some("[\"}\", {}]"));
    assert_eq!(try_repair_truncated_json("{\"a\\\"").as_deref(), Some("{\"a\\\"\"}"));
    assert_eq!(try_repair_truncated_json("{}"), None);
    assert_eq!(try_repair_truncated_json("{]"), None);
    assert_eq!(try_repair_truncated_json("{\"a\\"), None);
}

#[test]
fn long_runs_are_told() {
    assert!(is_tokenizable(""));
    assert!(is_tokenizable("a few words\n\n// and more"));
    for kind in ["a", "A", "É", "中", "한", " ", "-", "/", "\n", "😀", "。"] {
        assert!(is_tokenizable(&kind.repeat(LONGEST_RUN)), "{kind:?}");
        assert!(!is_tokenizable(&kind.repeat(LONGEST_RUN + 1)), "{kind:?}");
    }
    let half = LONGEST_RUN / 2;
    assert!(is_tokenizable(&("-".repeat(half) + &"\n".repeat(half))));
    assert!(!is_tokenizable(&("-".repeat(half + 1) + &"\n".repeat(half))));
    assert!(is_tokenizable(&("\u{301}".to_string() + &"A".repeat(half - 1))));
    assert!(!is_tokenizable(&("\u{301}".to_string() + &"A".repeat(half))));
    assert!(is_tokenizable(&("\u{301}".to_string() + &"a".repeat(half))));
    assert!(is_tokenizable(&("é".to_string() + &"A".repeat(half))));
    assert!(is_tokenizable(&"7".repeat(2 * LONGEST_RUN)));
    assert!(is_tokenizable(&"a ".repeat(LONGEST_RUN)));
    assert!(is_tokenizable(&"{\"k\":[1,true]},".repeat(LONGEST_RUN / 8)));
    assert!(is_tokenizable(&"我们去北京，好吗？".repeat(LONGEST_RUN / 8)));
    assert!(is_tokenizable(&"😀中".repeat(LONGEST_RUN)));
}

/// Every character of a class is counted in it.
fn covers(pattern: &str, may_be: fn(char) -> bool) {
    let re = regex::Regex::new(pattern).unwrap();
    let mut buffer = [0u8; 4];
    for u in 0..=0x10ffffu32 {
        if let Some(c) = char::from_u32(u) {
            if !may_be(c) {
                assert!(!re.is_match(c.encode_utf8(&mut buffer)), "U+{u:04X}");
            }
        }
    }
}

#[test]
fn letters_and_marks_are_counted() {
    covers(r"^[\p{L}\p{M}]$", is_maybe_letter);
}

#[test]
fn signs_are_counted() {
    covers(r"^[^\s\p{L}\p{N}]$", is_maybe_sign);
}

#[test]
fn upper_case_letters_are_counted() {
    covers(r"^[\p{Lu}\p{Lt}]$", is_maybe_upper);
}

#[test]
fn marks_are_counted() {
    covers(r"^\p{M}$", is_maybe_mark);
}
