use json_engine::error::ParseError;
use json_engine::grammar::ErrorCode;
use json_engine::json::{
    format_clipboard_text, json_escape, json_format, json_minify, json_stats, json_unescape, json_validate,
    minify,
};

#[test]
fn depth_of_empty_containers_and_scalars() {
    assert_eq!(json_stats("{}").depth, 1);
    assert_eq!(json_stats("[]").depth, 1);
    assert_eq!(json_stats("42").depth, 0);
    assert_eq!(json_stats("[[[]]]").depth, 3);
}

#[test]
fn key_count_includes_nested_keys() {
    let st = json_stats("{\"a\":1,\"b\":{\"c\":2}}");
    assert!(st.valid);
    assert_eq!(st.key_count, 3);
    assert_eq!(st.depth, 2);
    assert!(st.error_info.is_none());
}

#[test]
fn key_count_counts_duplicates_and_keys_in_arrays() {
    let st = json_stats("[{\"a\":1,\"a\":2},{\"b\":[{\"c\":null}]}]");
    assert_eq!(st.key_count, 4);
    assert_eq!(st.depth, 4);
}

#[test]
fn error_points_at_missing_value() {
    let r = json_validate("{\"a\": }");
    assert!(!r.valid);
    assert_eq!(r.error_line, Some(1));
    assert_eq!(r.error_column, Some(7));
    assert_eq!(r.error_message.as_deref(), Some("expected value"));
}

#[test]
fn trailing_data_is_reported_at_first_extra_character() {
    let r = json_validate("{} extra");
    assert!(!r.valid);
    assert_eq!(r.error_line, Some(1));
    assert_eq!(r.error_column, Some(4));
    assert_eq!(r.error_message.as_deref(), Some("trailing characters"));
}

#[test]
fn format_keeps_key_order() {
    let out = json_format("{\"b\":2,\"a\":1}", Some(2)).unwrap();
    assert_eq!(out, "{\n  \"b\": 2,\n  \"a\": 1\n}");
    assert!(out.find("\"b\"").unwrap() < out.find("\"a\"").unwrap());
}

#[test]
fn escape_quotes_and_newline() {
    assert_eq!(json_escape("He said \"hi\"\n"), "\"He said \\\"hi\\\"\\n\"");
}

#[test]
fn valid_document_validates() {
    let r = json_validate(" [1, 2.5, -3e2, true, false, null, \"x\"] ");
    assert!(r.valid);
    assert!(r.error_message.is_none());
    assert!(r.error_line.is_none());
    assert!(r.error_column.is_none());
}

#[test]
fn format_default_indent_is_two() {
    assert_eq!(json_format("[1,[2]]", None).unwrap(), "[\n  1,\n  [\n    2\n  ]\n]");
}

#[test]
fn format_with_wider_indent_nests() {
    let out = json_format("{\"a\":[1,{\"b\":null}],\"c\":{}}", Some(4)).unwrap();
    assert_eq!(
        out,
        "{\n    \"a\": [\n        1,\n        {\n            \"b\": null\n        }\n    ],\n    \"c\": {}\n}"
    );
}

#[test]
fn format_with_zero_indent_is_compact() {
    assert_eq!(json_format("{ \"a\" : [ 1 , 2 ] }", Some(0)).unwrap(), "{\"a\":[1,2]}");
}

#[test]
fn minify_removes_whitespace_and_keeps_numbers() {
    assert_eq!(
        json_minify(" { \"x\" : [ 1.50 , -0 , 2e10 , 3E-2 ] ,\n \"y\" : \"a b\" } ").unwrap(),
        "{\"x\":[1.50,-0,2e10,3E-2],\"y\":\"a b\"}"
    );
}

#[test]
fn minify_is_idempotent_on_an_example() {
    let once = json_minify("[ {\"k\" : \"v\\u0041\\t\"} , 7 ]").unwrap();
    assert_eq!(once, "[{\"k\":\"vA\\t\"},7]");
    assert_eq!(json_minify(&once).unwrap(), once);
}

#[test]
fn format_round_trips_through_minify() {
    let src = "{\"a\":[true,{\"b\":\"\\\\\\\"\"}],\"c\":-1.5e3}";
    let pretty = json_format(src, Some(3)).unwrap();
    assert_eq!(json_minify(&pretty).unwrap(), src);
}

#[test]
fn printer_re_escapes_control_characters() {
    assert_eq!(json_minify("\"\\u0001\\b\\f\\/\"").unwrap(), "\"\\u0001\\b\\f/\"");
}

#[test]
fn format_error_message_has_position() {
    assert_eq!(
        json_format("{", None).unwrap_err(),
        "Line 1, Column 2: EOF while parsing an object"
    );
    assert_eq!(
        json_minify("[1 2]").unwrap_err(),
        "Line 1, Column 4: expected `,` or `]`"
    );
}

#[test]
fn error_position_on_later_line() {
    let r = json_validate("{\n  \"a\": tru\n}");
    assert_eq!(r.error_line, Some(2));
    assert_eq!(r.error_column, Some(8));
    assert_eq!(r.error_message.as_deref(), Some("expected ident"));
}

#[test]
fn structured_error_from_format() {
    let e = json_engine::json::format("[1,]", 2).unwrap_err();
    assert_eq!(e, ParseError { line: 1, column: 4, code: ErrorCode::TrailingComma });
    assert_eq!(e.description(), "trailing comma");
    assert_eq!(e.message(), "Line 1, Column 4: trailing comma");
    let e = minify("{\"a\":1,}").unwrap_err();
    assert_eq!(e.code, ErrorCode::TrailingComma);
    assert_eq!(e.column, 8);
}

#[test]
fn number_errors() {
    assert_eq!(json_engine::json::format("01", 0).unwrap_err().code, ErrorCode::InvalidNumber);
    assert_eq!(json_engine::json::format("01", 0).unwrap_err().column, 2);
    assert_eq!(json_engine::json::format("1.", 0).unwrap_err().column, 3);
    assert_eq!(json_engine::json::format("1e+", 0).unwrap_err().code, ErrorCode::InvalidNumber);
    assert_eq!(json_engine::json::format("-", 0).unwrap_err().code, ErrorCode::EofWhileParsingValue);
    assert_eq!(json_engine::json::format("-a", 0).unwrap_err().code, ErrorCode::InvalidNumber);
}

#[test]
fn each_error_code_has_an_input() {
    let cases: Vec<(&str, ErrorCode)> = vec![
        ("", ErrorCode::EofWhileParsingValue),
        ("[1", ErrorCode::EofWhileParsingList),
        ("{\"a\":1", ErrorCode::EofWhileParsingObject),
        ("\"abc", ErrorCode::EofWhileParsingString),
        ("]", ErrorCode::ExpectedValue),
        ("nul", ErrorCode::ExpectedIdent),
        ("{\"a\" 1}", ErrorCode::ExpectedColon),
        ("[1 2]", ErrorCode::ExpectedListCommaOrEnd),
        ("{\"a\":1 \"b\":2}", ErrorCode::ExpectedObjectCommaOrEnd),
        ("{1:2}", ErrorCode::KeyMustBeAString),
        ("\"\\x\"", ErrorCode::InvalidEscape),
        ("\"\\u12G4\"", ErrorCode::InvalidUnicodeEscape),
        ("\"\\ud800\"", ErrorCode::LoneSurrogate),
        ("\"\\udc00\"", ErrorCode::LoneSurrogate),
        ("\"a\u{1}\"", ErrorCode::ControlCharacter),
        ("00", ErrorCode::InvalidNumber),
        ("[1,]", ErrorCode::TrailingComma),
        ("1 2", ErrorCode::TrailingCharacters),
    ];
    for (text, code) in cases {
        assert_eq!(minify(text).unwrap_err().code, code, "input {:?}", text);
    }
}

#[test]
fn nesting_limit() {
    let ok = format!("{}{}", "[".repeat(128), "]".repeat(128));
    assert_eq!(json_stats(&ok).depth, 128);
    let deep = format!("{}{}", "[".repeat(129), "]".repeat(129));
    let e = minify(&deep).unwrap_err();
    assert_eq!(e.code, ErrorCode::RecursionLimitExceeded);
    assert_eq!(e.column, 129);
}

#[test]
fn stats_of_invalid_text() {
    let st = json_stats("{\"é\":");
    assert!(!st.valid);
    assert_eq!(st.key_count, 0);
    assert_eq!(st.depth, 0);
    assert_eq!(st.byte_size, 6);
    let info = st.error_info.unwrap();
    assert!(!info.valid);
    assert_eq!(info.error_line, Some(1));
    assert_eq!(info.error_column, Some(6));
    assert_eq!(info.error_message.as_deref(), Some("EOF while parsing a value"));
}

#[test]
fn stats_byte_size_counts_utf8_bytes() {
    let st = json_stats("{\"é\":1}");
    assert!(st.valid);
    assert_eq!(st.byte_size, 8);
    assert_eq!(st.key_count, 1);
}

#[test]
fn escape_control_and_backslash() {
    assert_eq!(json_escape("a\\b\u{1}\t/é"), "\"a\\\\b\\u0001\\t/é\"");
    assert_eq!(json_escape(""), "\"\"");
}

#[test]
fn unescape_decodes_escapes() {
    assert_eq!(json_unescape("\"a\\u00e9\\n\\/\"").unwrap(), "aé\n/");
    assert_eq!(json_unescape(" \"\\ud83d\\ude00\" ").unwrap(), "\u{1F600}");
    assert_eq!(json_unescape("\"He said \\\"hi\\\"\\n\"").unwrap(), "He said \"hi\"\n");
}

#[test]
fn unescape_errors() {
    assert_eq!(json_unescape("42").unwrap_err(), "Unescape failed: expected a string");
    assert_eq!(
        json_unescape("\"\\ud800x\"").unwrap_err(),
        "Unescape failed: lone leading surrogate in hex escape"
    );
    assert_eq!(json_unescape("\"a\" b").unwrap_err(), "Unescape failed: trailing characters");
    assert_eq!(json_unescape("abc").unwrap_err(), "Unescape failed: expected a string");
}

#[test]
fn escape_then_unescape_gives_back_the_text() {
    for s in ["", "plain", "He said \"hi\"\n", "tab\tback\\slash", "\u{0}\u{1f}\u{7f}", "é😀"] {
        assert_eq!(json_unescape(&json_escape(s)).unwrap(), s);
    }
}

#[test]
fn clipboard_text_is_pretty_printed() {
    assert_eq!(format_clipboard_text("{\"k\":[1]}").unwrap(), "{\n  \"k\": [\n    1\n  ]\n}");
    assert_eq!(format_clipboard_text("").unwrap_err(), "Clipboard is empty");
    assert_eq!(
        format_clipboard_text("[1,").unwrap_err(),
        "Invalid JSON in clipboard: Line 1, Column 4: EOF while parsing a value"
    );
}

#[test]
fn agrees_with_serde_json_on_validity_and_values() {
    let samples = [
        "{\"a\":[1,2.5e-3,{\"b\":null}],\"c\":\"x\\u00e9\\n\"}",
        "[]",
        " 42 ",
        "\"\\ud83d\\ude00\"",
        "{\"a\": }",
        "{} extra",
        "[1,]",
        "01",
        "[\"tab\\tin\"]",
        "{\"dup\":1,\"dup\":2}",
        "[true,false,null,-0.0,1E5]",
        "{\"a\":",
    ];
    for text in samples {
        let ours = json_minify(text);
        let theirs = serde_json::from_str::<serde_json::Value>(text);
        assert_eq!(ours.is_ok(), theirs.is_ok(), "input {:?}", text);
        if let (Ok(min), Ok(v)) = (ours, theirs) {
            let back: serde_json::Value = serde_json::from_str(&min).unwrap();
            assert_eq!(back, v, "input {:?}", text);
        }
    }
}
