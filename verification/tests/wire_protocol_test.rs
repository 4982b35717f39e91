use ct_shell_trace_writer::wire_protocol::{is_blank_line, parse_line, ParseError, WireEvent};

fn s(x: &str) -> String {
    x.to_string()
}

#[test]
fn parses_start_event() {
    let e = parse_line("START program=/tmp/test_script.sh shell=bash shell_version=5.2.0").unwrap();
    assert_eq!(
        e,
        WireEvent::Start { program: s("/tmp/test_script.sh"), shell: s("bash"), shell_version: s("5.2.0") }
    );
}

#[test]
fn parses_path_func_step_call() {
    assert_eq!(parse_line("PATH file=/tmp/a.sh").unwrap(), WireEvent::Path { file: s("/tmp/a.sh") });
    assert_eq!(
        parse_line("FUNC name=greet file=/tmp/a.sh line=3").unwrap(),
        WireEvent::Func { name: s("greet"), file: s("/tmp/a.sh"), line: 3 }
    );
    assert_eq!(
        parse_line("STEP file=/tmp/a.sh line=12").unwrap(),
        WireEvent::Step { file: s("/tmp/a.sh"), line: 12 }
    );
    assert_eq!(parse_line("CALL name=greet").unwrap(), WireEvent::Call { name: s("greet") });
}

#[test]
fn parses_quoted_values() {
    assert_eq!(
        parse_line("VAR name=greeting value=\"hello world\" type=s").unwrap(),
        WireEvent::Var { name: s("greeting"), value: s("hello world"), type_flag: s("s") }
    );
    assert_eq!(
        parse_line("ARG name=$1 value=\"hello world\" type=s").unwrap(),
        WireEvent::Arg { name: s("$1"), value: s("hello world"), type_flag: s("s") }
    );
    assert_eq!(
        parse_line("WRITE content=\"say \\\"hi\\\" \\\\ bye\"").unwrap(),
        WireEvent::Write { content: s("say \"hi\" \\ bye") }
    );
    assert_eq!(parse_line("WRITE content=\"\"").unwrap(), WireEvent::Write { content: s("") });
}

#[test]
fn parses_error_return_exit() {
    assert_eq!(
        parse_line("ERROR cmd=\"false\" status=1").unwrap(),
        WireEvent::Error { cmd: s("false"), status: 1 }
    );
    assert_eq!(parse_line("RETURN status=0").unwrap(), WireEvent::Return { status: 0 });
    assert_eq!(parse_line("EXIT code=-3").unwrap(), WireEvent::Exit { code: -3 });
    assert_eq!(parse_line("EXIT code=+7").unwrap(), WireEvent::Exit { code: 7 });
}

#[test]
fn spaces_order_and_unknown_fields() {
    assert_eq!(
        parse_line("  STEP   line=4\tfile=x.sh  extra=1 ").unwrap(),
        WireEvent::Step { file: s("x.sh"), line: 4 }
    );
    // the first of two fields with one name counts
    assert_eq!(parse_line("CALL name=a name=b").unwrap(), WireEvent::Call { name: s("a") });
    // a bare value may hold `=` and `"`
    assert_eq!(parse_line("PATH file=a=b\"c").unwrap(), WireEvent::Path { file: s("a=b\"c") });
}

#[test]
fn rejects_empty_and_unknown() {
    assert_eq!(parse_line(""), Err(ParseError::Empty));
    assert_eq!(parse_line("   \t "), Err(ParseError::Empty));
    assert_eq!(parse_line("JUMP to=1"), Err(ParseError::UnknownEvent { keyword: s("JUMP") }));
    assert_eq!(parse_line("start program=x shell=b shell_version=1"), Err(ParseError::UnknownEvent { keyword: s("start") }));
}

#[test]
fn rejects_malformed_fields() {
    assert_eq!(parse_line("CALL name"), Err(ParseError::MalformedField));
    assert_eq!(parse_line("CALL =x"), Err(ParseError::MalformedField));
    assert_eq!(parse_line("CALL name=\"a\"b"), Err(ParseError::MalformedField));
    assert_eq!(parse_line("CALL name=\"abc"), Err(ParseError::UnterminatedQuote));
    assert_eq!(parse_line("CALL name=\"abc\\"), Err(ParseError::UnterminatedQuote));
}

#[test]
fn rejects_missing_and_invalid_fields() {
    assert_eq!(parse_line("CALL"), Err(ParseError::MissingField { field: s("name") }));
    assert_eq!(
        parse_line("FUNC file=x line=1"),
        Err(ParseError::MissingField { field: s("name") })
    );
    assert_eq!(
        parse_line("STEP file=x line=ten"),
        Err(ParseError::InvalidInteger { field: s("line"), text: s("ten") })
    );
    assert_eq!(
        parse_line("RETURN status=99999999999999999999"),
        Err(ParseError::InvalidInteger { field: s("status"), text: s("99999999999999999999") })
    );
}

#[test]
fn error_messages() {
    assert_eq!(ParseError::Empty.message(), "empty line");
    assert_eq!(ParseError::UnknownEvent { keyword: s("JUMP") }.message(), "unknown event type: JUMP");
    assert_eq!(ParseError::MalformedField.message(), "malformed field (expected key=value)");
    assert_eq!(ParseError::UnterminatedQuote.message(), "unterminated quoted value");
    assert_eq!(ParseError::MissingField { field: s("name") }.message(), "missing field: name");
    assert_eq!(
        ParseError::InvalidInteger { field: s("line"), text: s("x") }.message(),
        "invalid integer for line: x"
    );
}

#[test]
fn blank_lines_match_trim() {
    for line in ["", " ", "\t\r", "\u{a0}\u{3000}\u{2028}", " x ", "\u{200b}", "STEP file=a line=1", "\u{85}\u{1680}\u{200a}\u{202f}\u{205f}\u{2029}\u{b}\u{c}"] {
        assert_eq!(is_blank_line(line), line.trim().is_empty(), "{line:?}");
    }
}

#[test]
fn exit_ends_the_stream() {
    assert!(parse_line("EXIT code=0").unwrap().is_exit());
    assert!(!parse_line("RETURN status=0").unwrap().is_exit());
}

fn quote(v: &str) -> String {
    let mut out = String::from("\"");
    for c in v.chars() {
        if c == '"' || c == '\\' {
            out.push('\\');
        }
        out.push(c);
    }
    out.push('"');
    out
}

#[test]
fn rendered_events_read_back() {
    let tricky = "a \"quoted\" \\ value\twith = and\nnewline";
    let line = format!("VAR name={} value={} type={}", quote("x y"), quote(tricky), quote("s"));
    assert_eq!(
        parse_line(&line).unwrap(),
        WireEvent::Var { name: s("x y"), value: s(tricky), type_flag: s("s") }
    );
    let line = format!("FUNC name={} file={} line={}", quote("f"), quote("/a b/c.sh"), quote("-12"));
    assert_eq!(
        parse_line(&line).unwrap(),
        WireEvent::Func { name: s("f"), file: s("/a b/c.sh"), line: -12 }
    );
    let line = format!("EXIT code={}", quote(&i64::MIN.to_string()));
    assert_eq!(parse_line(&line).unwrap(), WireEvent::Exit { code: i64::MIN });
}
