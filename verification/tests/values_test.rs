use ct_shell_trace_writer::text::parse_i64;
use ct_shell_trace_writer::values::{value_for_flag, TypedValue, ValueData, ValueKind};

#[test]
fn parses_decimal_integers() {
    assert_eq!(parse_i64("0"), Some(0));
    assert_eq!(parse_i64("42"), Some(42));
    assert_eq!(parse_i64("+42"), Some(42));
    assert_eq!(parse_i64("-42"), Some(-42));
    assert_eq!(parse_i64("-0"), Some(0));
    assert_eq!(parse_i64("007"), Some(7));
    assert_eq!(parse_i64("9223372036854775807"), Some(i64::MAX));
    assert_eq!(parse_i64("-9223372036854775808"), Some(i64::MIN));
}

#[test]
fn rejects_what_i64_from_str_rejects() {
    for text in ["", "-", "+", "9223372036854775808", "-9223372036854775809", "1a", " 1", "1 ", "1_000", "3.14", "--1"] {
        assert_eq!(parse_i64(text), None, "{text}");
        assert_eq!(parse_i64(text), text.parse::<i64>().ok(), "{text}");
    }
}

#[test]
fn types_values_by_flag() {
    assert_eq!(value_for_flag("42", "i"), TypedValue { kind: ValueKind::Int, data: ValueData::Int(42) });
    assert_eq!(value_for_flag("x", "i"), TypedValue { kind: ValueKind::Int, data: ValueData::Int(0) });
    assert_eq!(
        value_for_flag("hi", "s"),
        TypedValue { kind: ValueKind::String, data: ValueData::Text("hi".to_string()) }
    );
    assert_eq!(
        value_for_flag("(a b)", "a"),
        TypedValue { kind: ValueKind::Array, data: ValueData::Text("(a b)".to_string()) }
    );
    assert_eq!(
        value_for_flag("([k]=v)", "A"),
        TypedValue { kind: ValueKind::AssocArray, data: ValueData::Text("([k]=v)".to_string()) }
    );
    assert_eq!(
        value_for_flag("3.14", "F"),
        TypedValue { kind: ValueKind::Float, data: ValueData::Float("3.14".to_string()) }
    );
    assert_eq!(
        value_for_flag("hi", "zz"),
        TypedValue { kind: ValueKind::String, data: ValueData::Text("hi".to_string()) }
    );
}

#[test]
fn language_type_names() {
    assert_eq!(ValueKind::Int.lang_type(), "Int");
    assert_eq!(ValueKind::String.lang_type(), "String");
    assert_eq!(ValueKind::Array.lang_type(), "Array");
    assert_eq!(ValueKind::AssocArray.lang_type(), "AssocArray");
    assert_eq!(ValueKind::Float.lang_type(), "Float");
}
