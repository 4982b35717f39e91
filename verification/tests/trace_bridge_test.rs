use ct_shell_trace_writer::trace_bridge::{
    Dispatch, SidecarFile, SpecialEventKind, StagedArg, TraceBridge, WriterCall,
};
use ct_shell_trace_writer::values::{TypedValue, ValueData, ValueKind};
use ct_shell_trace_writer::wire_protocol::parse_line;

fn s(x: &str) -> String {
    x.to_string()
}

fn text(kind: ValueKind, t: &str) -> TypedValue {
    TypedValue { kind, data: ValueData::Text(s(t)) }
}

/// Feeds the lines to the bridge, as if every output stream opened, and
/// returns all writer calls.
fn run(bridge: &mut TraceBridge, input: &str) -> Vec<WriterCall> {
    let mut calls = Vec::new();
    for line in input.lines() {
        let line = line.trim();
        if line.is_empty() {
            continue;
        }
        let event = parse_line(line).unwrap_or_else(|e| panic!("failed to parse '{line}': {}", e.message()));
        match bridge.handle_event(event) {
            Dispatch::Calls(c) => calls.extend(c),
            Dispatch::OpenStreams { program, calls: open } => {
                calls.extend(open);
                calls.extend(bridge.streams_opened(&program));
            }
        }
    }
    calls
}

#[test]
fn full_event_stream_dispatch() {
    let input = r#"START program=/tmp/test_script.sh shell=bash shell_version=5.2.0
PATH file=/tmp/test_script.sh
FUNC name=greet file=/tmp/test_script.sh line=3
STEP file=/tmp/test_script.sh line=1
VAR name=greeting value="hello world" type=s
STEP file=/tmp/test_script.sh line=2
VAR name=count value=42 type=i
WRITE content="hello world"
STEP file=/tmp/test_script.sh line=3
CALL name=greet
STEP file=/tmp/test_script.sh line=4
VAR name=x value=3.14 type=F
ERROR cmd="false" status=1
RETURN status=0
STEP file=/tmp/test_script.sh line=5
EXIT code=0"#;
    let mut bridge = TraceBridge::new("/out", "/tmp/test_script.sh", &[]);
    let calls = run(&mut bridge, input);
    let p = s("/tmp/test_script.sh");
    let expected = vec![
        WriterCall::BeginWritingTraceEvents { path: s("/out/trace.ct") },
        WriterCall::BeginWritingTraceMetadata { path: s("/out/trace_metadata.json") },
        WriterCall::BeginWritingTracePaths { path: s("/out/trace_paths.json") },
        WriterCall::Start { path: p.clone(), line: 1 },
        WriterCall::RegisterCall { name: s("<toplevel>"), path: p.clone(), line: 1, args: vec![] },
        WriterCall::EnsurePathId { path: p.clone() },
        WriterCall::EnsureFunctionId { name: s("greet"), path: p.clone(), line: 3 },
        WriterCall::RegisterStep { path: p.clone(), line: 1 },
        WriterCall::RegisterVariable { name: s("greeting"), value: text(ValueKind::String, "hello world") },
        WriterCall::RegisterStep { path: p.clone(), line: 2 },
        WriterCall::RegisterVariable {
            name: s("count"),
            value: TypedValue { kind: ValueKind::Int, data: ValueData::Int(42) },
        },
        WriterCall::RegisterSpecialEvent { kind: SpecialEventKind::Write, metadata: s(""), content: s("hello world") },
        WriterCall::RegisterStep { path: p.clone(), line: 3 },
        WriterCall::RegisterCall { name: s("greet"), path: p.clone(), line: 3, args: vec![] },
        WriterCall::RegisterStep { path: p.clone(), line: 4 },
        WriterCall::RegisterVariable {
            name: s("x"),
            value: TypedValue { kind: ValueKind::Float, data: ValueData::Float(s("3.14")) },
        },
        WriterCall::RegisterSpecialEvent {
            kind: SpecialEventKind::Error,
            metadata: s("false"),
            content: s("command 'false' exited with status 1"),
        },
        WriterCall::RegisterReturn { code: 0 },
        WriterCall::RegisterStep { path: p.clone(), line: 5 },
        WriterCall::RegisterReturn { code: 0 },
    ];
    assert_eq!(calls, expected);

    let plan = bridge.finish().expect("a started trace is finished");
    assert_eq!(
        plan.calls,
        vec![
            WriterCall::FinishWritingTraceEvents,
            WriterCall::FinishWritingTraceMetadata,
            WriterCall::FinishWritingTracePaths,
            WriterCall::Close,
        ]
    );
    assert_eq!(
        plan.sidecars,
        vec![
            SidecarFile { path: s("/out/trace_metadata.json"), contents: s("{\"program\":\"/tmp/test_script.sh\",\"args\":[]}") },
            SidecarFile { path: s("/out/trace_paths.json"), contents: s("[\"/tmp/test_script.sh\"]") },
            SidecarFile { path: s("/out/symbols.json"), contents: s("[\"greet\"]") },
        ]
    );
}

#[test]
fn arg_events_stage_call_args_plan() {
    let input = r#"START program=/tmp/argy.sh shell=bash shell_version=5.2.0
PATH file=/tmp/argy.sh
FUNC name=greet file=/tmp/argy.sh line=3
STEP file=/tmp/argy.sh line=3
ARG name=$1 value="hello world" type=s
ARG name=$2 value=42 type=i
CALL name=greet
STEP file=/tmp/argy.sh line=4
RETURN status=0
EXIT code=0"#;
    let mut bridge = TraceBridge::new("out/", "/tmp/argy.sh", &[s("one"), s("two")]);
    let calls = run(&mut bridge, input);
    let p = s("/tmp/argy.sh");
    let one = StagedArg { name: s("$1"), value: text(ValueKind::String, "one") };
    let two = StagedArg { name: s("$2"), value: text(ValueKind::String, "two") };
    let hello = StagedArg { name: s("$1"), value: text(ValueKind::String, "hello world") };
    let forty_two = StagedArg { name: s("$2"), value: TypedValue { kind: ValueKind::Int, data: ValueData::Int(42) } };
    assert_eq!(calls[0], WriterCall::BeginWritingTraceEvents { path: s("out/trace.ct") });
    assert_eq!(calls[3], WriterCall::Start { path: p.clone(), line: 1 });
    assert_eq!(calls[4], WriterCall::StageArg { name: one.name.clone(), value: one.value.clone() });
    assert_eq!(calls[5], WriterCall::StageArg { name: two.name.clone(), value: two.value.clone() });
    assert_eq!(
        calls[6],
        WriterCall::RegisterCall { name: s("<toplevel>"), path: p.clone(), line: 1, args: vec![one, two] }
    );
    assert_eq!(calls[10], WriterCall::StageArg { name: hello.name.clone(), value: hello.value.clone() });
    assert_eq!(calls[11], WriterCall::StageArg { name: forty_two.name.clone(), value: forty_two.value.clone() });
    assert_eq!(
        calls[12],
        WriterCall::RegisterCall { name: s("greet"), path: p.clone(), line: 3, args: vec![hello, forty_two] }
    );
    assert_eq!(calls.len(), 16);
    let plan = bridge.finish().unwrap();
    assert_eq!(
        plan.sidecars[0],
        SidecarFile {
            path: s("out/trace_metadata.json"),
            contents: s("{\"program\":\"/tmp/argy.sh\",\"args\":[\"one\",\"two\"]}"),
        }
    );
}

#[test]
fn args_reach_the_next_call_across_other_events() {
    let input = "CALL name=first\n\
                 ARG name=$1 value=a type=s\n\
                 STEP file=f.sh line=9\n\
                 VAR name=v value=1 type=i\n\
                 ARG name=$2 value=7 type=i\n\
                 WRITE content=x\n\
                 CALL name=second\n\
                 STEP file=f.sh line=10\n\
                 CALL name=third";
    let mut bridge = TraceBridge::new("d", "p", &[]);
    let calls = run(&mut bridge, input);
    assert_eq!(calls[0], WriterCall::RegisterCall { name: s("first"), path: s("<unknown>"), line: 1, args: vec![] });
    assert_eq!(
        calls[6],
        WriterCall::RegisterCall {
            name: s("second"),
            path: s("f.sh"),
            line: 9,
            args: vec![
                StagedArg { name: s("$1"), value: text(ValueKind::String, "a") },
                StagedArg { name: s("$2"), value: TypedValue { kind: ValueKind::Int, data: ValueData::Int(7) } },
            ],
        }
    );
    assert_eq!(calls[8], WriterCall::RegisterCall { name: s("third"), path: s("f.sh"), line: 10, args: vec![] });
}

#[test]
fn no_finish_without_start() {
    let mut bridge = TraceBridge::new("/out", "p", &[]);
    assert_eq!(bridge.finish(), None);
    let calls = run(&mut bridge, "STEP file=a.sh line=2\nEXIT code=1");
    assert_eq!(calls.len(), 2);
    assert_eq!(bridge.finish(), None);
}

#[test]
fn call_before_any_step_is_located_nowhere() {
    let mut bridge = TraceBridge::new("", "p", &[]);
    let calls = run(&mut bridge, "CALL name=f");
    assert_eq!(calls, vec![WriterCall::RegisterCall { name: s("f"), path: s("<unknown>"), line: 1, args: vec![] }]);
}

#[test]
fn start_streams_in_plain_directory_names() {
    let mut bridge = TraceBridge::new("", "p", &[]);
    match bridge.handle_event(parse_line("START program=p shell=zsh shell_version=5.9").unwrap()) {
        Dispatch::OpenStreams { program, calls } => {
            assert_eq!(program, "p");
            assert_eq!(
                calls,
                vec![
                    WriterCall::BeginWritingTraceEvents { path: s("trace.ct") },
                    WriterCall::BeginWritingTraceMetadata { path: s("trace_metadata.json") },
                    WriterCall::BeginWritingTracePaths { path: s("trace_paths.json") },
                ]
            );
        }
        other => panic!("unexpected {other:?}"),
    }
    // the bridge is unchanged until the streams are open
    assert_eq!(bridge.finish(), None);
}

#[test]
fn symbols_are_sorted_unique_and_skip_toplevel() {
    let mut bridge = TraceBridge::new("d", "prog", &[]);
    let input = "START program=prog shell=bash shell_version=5\n\
                 FUNC name=zeta file=f line=1\n\
                 CALL name=alpha\n\
                 FUNC name=<toplevel> file=f line=1\n\
                 CALL name=zeta\n\
                 FUNC name=Beta file=f line=2\n\
                 CALL name=alpha\n\
                 PATH file=b.sh\n\
                 PATH file=a.sh\n\
                 PATH file=b.sh";
    run(&mut bridge, input);
    let plan = bridge.finish().unwrap();
    assert_eq!(plan.sidecars[0], SidecarFile { path: s("d/trace_metadata.json"), contents: s("{\"program\":\"prog\",\"args\":[]}") });
    assert_eq!(plan.sidecars[1].contents, "[\"b.sh\",\"a.sh\",\"b.sh\"]");
    assert_eq!(plan.sidecars[2].contents, "[\"Beta\",\"alpha\",\"zeta\"]");
}

#[test]
fn call_uses_latest_step_location() {
    let mut bridge = TraceBridge::new("d", "prog", &[]);
    let calls = run(&mut bridge, "STEP file=a.sh line=7\nVAR name=v value=1 type=i\nWRITE content=x\nCALL name=f");
    assert_eq!(calls[3], WriterCall::RegisterCall { name: s("f"), path: s("a.sh"), line: 7, args: vec![] });
}

#[test]
fn negative_status_in_error_message() {
    let mut bridge = TraceBridge::new("d", "prog", &[]);
    let calls = run(&mut bridge, "ERROR cmd=\"ls -z\" status=-2");
    assert_eq!(
        calls,
        vec![WriterCall::RegisterSpecialEvent {
            kind: SpecialEventKind::Error,
            metadata: s("ls -z"),
            content: s("command 'ls -z' exited with status -2"),
        }]
    );
}
