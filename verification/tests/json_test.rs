use ct_shell_trace_writer::json::{json_string_array, metadata_json_text, serde_json_escape};

#[test]
fn escapes_plain_text() {
    assert_eq!(serde_json_escape("hello"), "\"hello\"");
    assert_eq!(serde_json_escape(""), "\"\"");
    assert_eq!(serde_json_escape("héllo ✓"), "\"héllo ✓\"");
}

#[test]
fn escapes_quotes_backslashes_and_controls() {
    assert_eq!(serde_json_escape("a\"b"), "\"a\\\"b\"");
    assert_eq!(serde_json_escape("a\\b"), "\"a\\\\b\"");
    assert_eq!(serde_json_escape("a\nb\rc\td"), "\"a\\nb\\rc\\td\"");
    assert_eq!(serde_json_escape("\u{1}"), "\"\\u0001\"");
    assert_eq!(serde_json_escape("\u{1f}"), "\"\\u001f\"");
    assert_eq!(serde_json_escape("\u{7f}"), "\"\\u007f\"");
    assert_eq!(serde_json_escape("\u{9f}"), "\"\\u009f\"");
    assert_eq!(serde_json_escape("\u{a0}"), "\"\u{a0}\"");
}

#[test]
fn arrays_of_strings() {
    assert_eq!(json_string_array(&vec![]), "[]");
    assert_eq!(json_string_array(&vec!["a".to_string()]), "[\"a\"]");
    assert_eq!(
        json_string_array(&vec!["/tmp/a.sh".to_string(), "b\"c".to_string()]),
        "[\"/tmp/a.sh\",\"b\\\"c\"]"
    );
}

#[test]
fn metadata_text() {
    assert_eq!(metadata_json_text("/tmp/s.sh", &vec![]), "{\"program\":\"/tmp/s.sh\",\"args\":[]}");
    assert_eq!(
        metadata_json_text("/tmp/s.sh", &vec!["one".to_string(), "t\"wo".to_string()]),
        "{\"program\":\"/tmp/s.sh\",\"args\":[\"one\",\"t\\\"wo\"]}"
    );
}

#[test]
fn escaped_strings_read_back() {
    for text in ["", "plain", "a\"b\\c", "tab\there\nnew\rline", "\u{0}\u{1f}\u{7f}\u{9f}", "ünïcödé ✓ 𝄞", "/"] {
        let escaped = serde_json_escape(text);
        let back: String = serde_json::from_str(&escaped).expect("valid JSON string");
        assert_eq!(back, text);
    }
}

#[test]
fn arrays_read_back() {
    let items = vec!["a".to_string(), "b\"q".to_string(), "\\".to_string(), "".to_string()];
    let back: Vec<String> = serde_json::from_str(&json_string_array(&items)).expect("valid JSON array");
    assert_eq!(back, items);
    let none: Vec<String> = serde_json::from_str(&json_string_array(&vec![])).expect("valid JSON array");
    assert!(none.is_empty());
}

#[test]
fn metadata_reads_back() {
    let value: serde_json::Value =
        serde_json::from_str(&metadata_json_text("/tmp/a \"b\".sh", &vec!["x y".to_string(), "".to_string()])).unwrap();
    assert_eq!(value["program"], "/tmp/a \"b\".sh");
    let args = value["args"].as_array().expect("args is an array");
    assert_eq!(args.len(), 2);
    assert_eq!(args[0], "x y");
    assert_eq!(args[1], "");
}
