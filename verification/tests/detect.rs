use dynamo::text::{decimal_text, is_white_space, trim};
use dynamo::tool_calling::config::JsonParserConfig;
use dynamo::tool_calling::harmony::detect::detect_tool_call_start_harmony;

fn commentary_config() -> JsonParserConfig {
    JsonParserConfig {
        tool_call_start_tokens: vec!["<|start|>assistant<|channel|>commentary".to_string()],
        tool_call_end_tokens: vec!["<|call|>".to_string()],
        ..Default::default()
    }
}

#[test]
fn test_detect_tool_call_start_harmony_chunk_with_tool_call_start_token() {
    let text = r#"<|start|>assistant<|channel|>commentary to=functions.get_current_weather <|constrain|>json"#;
    let config = JsonParserConfig {
        tool_call_start_tokens: vec!["<|start|>assistant<|channel|>commentary".to_string()],
        tool_call_end_tokens: vec!["<|call|>".to_string()],
        ..Default::default()
    };
    let result = detect_tool_call_start_harmony(text, &config, false);
    assert!(result);
}

#[test]
fn test_detect_tool_call_start_harmony_chunk_without_tool_call_start_token() {
    let text = r#"<|channel|>commentary to=functions.get_current_weather"#;
    let config = JsonParserConfig {
        tool_call_start_tokens: vec!["<|start|>assistant<|channel|>commentary".to_string()],
        tool_call_end_tokens: vec!["<|call|>".to_string()],
        ..Default::default()
    };
    let result = detect_tool_call_start_harmony(text, &config, false);
    assert!(result);
}

#[test]
fn test_detect_tool_call_start_harmony_partial_tokens() {
    let config = JsonParserConfig {
        tool_call_start_tokens: vec!["<|start|>assistant<|channel|>commentary".to_string()],
        tool_call_end_tokens: vec!["<|call|>".to_string()],
        ..Default::default()
    };

    assert!(
        detect_tool_call_start_harmony("<", &config, true),
        "'<' should be detected as potential start"
    );
    assert!(
        detect_tool_call_start_harmony("<|", &config, true),
        "'<|' should be detected as potential start"
    );
    assert!(
        detect_tool_call_start_harmony("<|start|>", &config, true),
        "'<|start|>' should be detected as potential start"
    );
    assert!(
        detect_tool_call_start_harmony("<|start|>assistant", &config, true),
        "'<|start|>assistant' should be detected as potential start"
    );

    assert!(
        !detect_tool_call_start_harmony("hello world", &config, true),
        "'hello world' should not be detected in strict mode"
    );
    assert!(
        !detect_tool_call_start_harmony("xyz", &config, true),
        "'xyz' should not be detected in strict mode"
    );
}

#[test]
fn channel_marker_counts_only_outside_strict_mode() {
    let config = commentary_config();
    let text = "see <|channel|>analysis";
    assert!(detect_tool_call_start_harmony(text, &config, false));
    assert!(!detect_tool_call_start_harmony(text, &config, true));
}

#[test]
fn blank_chunks_and_empty_tokens_are_no_start() {
    let config = commentary_config();
    for chunk in ["", " ", "\n\t ", "\u{2003}\u{3000}"] {
        assert!(!detect_tool_call_start_harmony(chunk, &config, true));
        assert!(!detect_tool_call_start_harmony(chunk, &config, false));
    }
    let empty = JsonParserConfig {
        tool_call_start_tokens: vec![String::new()],
        ..Default::default()
    };
    assert!(!detect_tool_call_start_harmony("anything", &empty, true));
    assert!(!detect_tool_call_start_harmony("anything", &empty, false));
}

#[test]
fn split_tokens_are_detected_at_every_character() {
    let token = "<|töken|>";
    let config = JsonParserConfig {
        tool_call_start_tokens: vec!["never".to_string(), token.to_string()],
        ..Default::default()
    };
    let chars: Vec<char> = token.chars().collect();
    for i in 1..=chars.len() {
        let beginning: String = chars[..i].iter().collect();
        let chunk = format!("  prose é {beginning} \n");
        assert!(detect_tool_call_start_harmony(&chunk, &config, true));
        assert!(detect_tool_call_start_harmony(&chunk, &config, false));
    }
    assert!(detect_tool_call_start_harmony("a <|töken|> b", &config, true));
    assert!(!detect_tool_call_start_harmony("a <|tök b", &config, true));
}

#[test]
fn white_space_is_that_of_the_standard_library() {
    for u in 0..=0x10ffffu32 {
        if let Some(c) = char::from_u32(u) {
            assert_eq!(is_white_space(c), c.is_whitespace(), "U+{:04X}", u);
        }
    }
}

#[test]
fn trim_agrees_with_the_standard_library() {
    for s in ["", " ", "a", " a ", "\u{a0}é x\u{3000}\n", "\u{85}", "a\u{200b} ", "x y"] {
        assert_eq!(trim(s), s.trim());
    }
}

#[test]
fn decimal_numerals() {
    for n in [0u64, 7, 10, 42, 99, 100, 65535, u64::MAX] {
        assert_eq!(decimal_text(n), n.to_string());
    }
}

#[test]
fn tokens_with_white_space_are_detected_where_trimming_leaves_them() {
    let config = JsonParserConfig {
        tool_call_start_tokens: vec![" call now".to_string()],
        ..Default::default()
    };
    for chunk in ["x call", "x call ", "x call now", "x call now y"] {
        assert!(detect_tool_call_start_harmony(chunk, &config, true), "{chunk:?}");
    }
    for chunk in [" call", " call now", "x "] {
        assert!(!detect_tool_call_start_harmony(chunk, &config, true), "{chunk:?}");
    }
}

#[test]
fn further_tokens_take_nothing_away() {
    let one = commentary_config();
    let mut two = commentary_config();
    two.tool_call_start_tokens.push("zzz".to_string());
    for chunk in ["<|start|>assi", "x <|channel|>", "zz", "none"] {
        for strict in [true, false] {
            if detect_tool_call_start_harmony(chunk, &one, strict) {
                assert!(detect_tool_call_start_harmony(chunk, &two, strict));
            }
        }
    }
}
