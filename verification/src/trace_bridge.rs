//! Translation of wire-protocol events into trace-writer calls.
//!
//! [`TraceBridge`] keeps the state that the translation needs (the
//! current step's location, the registered paths and functions, the
//! arguments staged for the next call) and says, for each event, which
//! calls the trace writer receives and in which order.  The writer itself
//! is driven by the caller: each [`WriterCall`] names one call of the
//! `TraceWriter` API with plain arguments.
use vstd::prelude::*;

use crate::json::{json_array, json_string_array, metadata_json, metadata_json_text};
use crate::text::{
    chars_less, chars_of, decimal, lemma_seq_lt_total, lemma_seq_lt_transitive, push_char,
    push_decimal, push_signed_decimal, push_str, seq_lt, signed_decimal, str_equal,
};
use crate::values::{
    spec_typed_value, value_for_flag, TypedValue, TypedValueView, ValueData, ValueDataView,
    ValueKind,
};
use crate::wire_protocol::{EventView, WireEvent};

verus! {

// ---------------------------------------------------------------------
// Writer calls
// ---------------------------------------------------------------------

/// An argument staged for the next call.
#[derive(Clone, Debug, PartialEq, Eq)]
pub struct StagedArg {
    pub name: String,
    pub value: TypedValue,
}

/// The mathematical form of [`StagedArg`].
pub struct StagedArgView {
    pub name: Seq<char>,
    pub value: TypedValueView,
}

impl View for StagedArg {
    type V = StagedArgView;

    open spec fn view(&self) -> StagedArgView {
        StagedArgView { name: self.name@, value: self.value@ }
    }
}

impl StagedArg {
    /// A copy of this argument.
    pub fn duplicate(&self) -> (r: StagedArg)
        ensures
            r@ == self@,
    {
        StagedArg { name: self.name.clone(), value: self.value.duplicate() }
    }
}

/// The kind of a special event (`EventLogKind`).
#[derive(Clone, Copy, Debug, PartialEq, Eq, Structural)]
pub enum SpecialEventKind {
    /// `EventLogKind::Write`: output of the script.
    Write,
    /// `EventLogKind::Error`: a failed command.
    Error,
}

/// One call of the trace writer's API, with plain arguments.
#[derive(Clone, Debug, PartialEq, Eq)]
pub enum WriterCall {
    /// `begin_writing_trace_events(path)`; may fail.
    BeginWritingTraceEvents { path: String },
    /// `begin_writing_trace_metadata(path)`; may fail.
    BeginWritingTraceMetadata { path: String },
    /// `begin_writing_trace_paths(path)`; may fail.
    BeginWritingTracePaths { path: String },
    /// `start(path, Line(line))`.
    Start { path: String, line: i64 },
    /// `ensure_path_id(path)`.
    EnsurePathId { path: String },
    /// `ensure_function_id(name, path, Line(line))`.
    EnsureFunctionId { name: String, path: String, line: i64 },
    /// `register_step(path, Line(line))`.
    RegisterStep { path: String, line: i64 },
    /// `arg(name, value)`, whose result is kept for the next
    /// `RegisterCall`.
    StageArg { name: String, value: TypedValue },
    /// `ensure_function_id(name, path, Line(line))`, then `register_call`
    /// with that function and the arguments staged since the previous
    /// call, which `args` lists in order.
    RegisterCall { name: String, path: String, line: i64, args: Vec<StagedArg> },
    /// `register_variable_with_full_value(name, value)`.
    RegisterVariable { name: String, value: TypedValue },
    /// `register_special_event(kind, metadata, content)`.
    RegisterSpecialEvent { kind: SpecialEventKind, metadata: String, content: String },
    /// `register_return` of the integer `code` (an exit or return status).
    RegisterReturn { code: i64 },
    /// `finish_writing_trace_events()`; may fail.
    FinishWritingTraceEvents,
    /// `finish_writing_trace_metadata()`; may fail.
    FinishWritingTraceMetadata,
    /// `finish_writing_trace_paths()`; may fail.
    FinishWritingTracePaths,
    /// `close()`: flushes the trace container; may fail.
    Close,
}

/// The mathematical form of [`WriterCall`].
pub enum CallView {
    BeginWritingTraceEvents { path: Seq<char> },
    BeginWritingTraceMetadata { path: Seq<char> },
    BeginWritingTracePaths { path: Seq<char> },
    Start { path: Seq<char>, line: i64 },
    EnsurePathId { path: Seq<char> },
    EnsureFunctionId { name: Seq<char>, path: Seq<char>, line: i64 },
    RegisterStep { path: Seq<char>, line: i64 },
    StageArg { name: Seq<char>, value: TypedValueView },
    RegisterCall { name: Seq<char>, path: Seq<char>, line: i64, args: Seq<StagedArgView> },
    RegisterVariable { name: Seq<char>, value: TypedValueView },
    RegisterSpecialEvent { kind: SpecialEventKind, metadata: Seq<char>, content: Seq<char> },
    RegisterReturn { code: i64 },
    FinishWritingTraceEvents,
    FinishWritingTraceMetadata,
    FinishWritingTracePaths,
    Close,
}

/// The mathematical form of a list of staged arguments.
pub open spec fn args_view(args: Seq<StagedArg>) -> Seq<StagedArgView> {
    args.map_values(|a: StagedArg| a@)
}

impl View for WriterCall {
    type V = CallView;

    open spec fn view(&self) -> CallView {
        match self {
            WriterCall::BeginWritingTraceEvents { path } => CallView::BeginWritingTraceEvents {
                path: path@,
            },
            WriterCall::BeginWritingTraceMetadata { path } => CallView::BeginWritingTraceMetadata {
                path: path@,
            },
            WriterCall::BeginWritingTracePaths { path } => CallView::BeginWritingTracePaths {
                path: path@,
            },
            WriterCall::Start { path, line } => CallView::Start { path: path@, line: *line },
            WriterCall::EnsurePathId { path } => CallView::EnsurePathId { path: path@ },
            WriterCall::EnsureFunctionId { name, path, line } => CallView::EnsureFunctionId {
                name: name@,
                path: path@,
                line: *line,
            },
            WriterCall::RegisterStep { path, line } => CallView::RegisterStep {
                path: path@,
                line: *line,
            },
            WriterCall::StageArg { name, value } => CallView::StageArg {
                name: name@,
                value: value@,
            },
            WriterCall::RegisterCall { name, path, line, args } => CallView::RegisterCall {
                name: name@,
                path: path@,
                line: *line,
                args: args_view(args@),
            },
            WriterCall::RegisterVariable { name, value } => CallView::RegisterVariable {
                name: name@,
                value: value@,
            },
            WriterCall::RegisterSpecialEvent { kind, metadata, content } =>
                CallView::RegisterSpecialEvent {
                kind: *kind,
                metadata: metadata@,
                content: content@,
            },
            WriterCall::RegisterReturn { code } => CallView::RegisterReturn { code: *code },
            WriterCall::FinishWritingTraceEvents => CallView::FinishWritingTraceEvents,
            WriterCall::FinishWritingTraceMetadata => CallView::FinishWritingTraceMetadata,
            WriterCall::FinishWritingTracePaths => CallView::FinishWritingTracePaths,
            WriterCall::Close => CallView::Close,
        }
    }
}

/// The mathematical form of a list of writer calls.
pub open spec fn calls_view(calls: Seq<WriterCall>) -> Seq<CallView> {
    calls.map_values(|c: WriterCall| c@)
}

/// What the caller does for one event.
#[derive(Debug, PartialEq, Eq)]
pub enum Dispatch {
    /// Make these writer calls, in order.
    Calls(Vec<WriterCall>),
    /// A `START` event: make these calls, which open the trace's output
    /// streams and may fail; when all of them succeed, hand `program`
    /// to [`TraceBridge::streams_opened`] and make the calls it returns.
    /// When one fails, the event fails with that error and the bridge
    /// stays as it was.
    OpenStreams { program: String, calls: Vec<WriterCall> },
}

/// A JSON file written beside the trace once the writer is closed.
#[derive(Clone, Debug, PartialEq, Eq)]
pub struct SidecarFile {
    pub path: String,
    pub contents: String,
}

/// The mathematical form of [`SidecarFile`].
pub struct SidecarView {
    pub path: Seq<char>,
    pub contents: Seq<char>,
}

impl View for SidecarFile {
    type V = SidecarView;

    open spec fn view(&self) -> SidecarView {
        SidecarView { path: self.path@, contents: self.contents@ }
    }
}

/// What finishing a started trace takes: the writer calls that flush
/// and close it, in order, and then the sidecar files to write, in order.
#[derive(Debug, PartialEq, Eq)]
pub struct FinishPlan {
    pub calls: Vec<WriterCall>,
    pub sidecars: Vec<SidecarFile>,
}

// ---------------------------------------------------------------------
// The model
// ---------------------------------------------------------------------

/// The mathematical form of [`TraceBridge`].
pub struct BridgeModel {
    /// Directory where the trace files are written.
    pub output_dir: Seq<char>,
    /// File of the most recent step, used for auto-registering functions.
    pub current_file: Option<Seq<char>>,
    /// Line of the most recent step.
    pub current_line: i64,
    /// Whether the writer's output streams are open.
    pub started: bool,
    /// Program of the recording.
    pub program: Seq<char>,
    /// Source files registered by `PATH` events, in order.
    pub registered_paths: Seq<Seq<char>>,
    /// Names of the registered functions other than `<toplevel>`,
    /// each once, in the order of `String`.
    pub registered_functions: Seq<Seq<char>>,
    /// The script's positional parameters.
    pub script_args: Seq<Seq<char>>,
    /// Arguments staged by `ARG` events since the previous call.
    pub pending_call_args: Seq<StagedArgView>,
}

/// `<toplevel>`, the name of the implicit top-level function.
pub open spec fn toplevel_name() -> Seq<char> {
    seq!['<', 't', 'o', 'p', 'l', 'e', 'v', 'e', 'l', '>']
}

/// `<unknown>`, the file a call is located in before any step.
pub open spec fn unknown_file() -> Seq<char> {
    seq!['<', 'u', 'n', 'k', 'n', 'o', 'w', 'n', '>']
}

/// Whether the names are strictly increasing in the order of `String`.
pub open spec fn strictly_sorted(s: Seq<Seq<char>>) -> bool {
    forall|i: int, j: int| 0 <= i < j < s.len() ==> seq_lt(#[trigger] s[i], #[trigger] s[j])
}

/// How many leading names of `s` come before `x`.
pub open spec fn insertion_point(s: Seq<Seq<char>>, x: Seq<char>) -> int
    decreases s.len(),
{
    if s.len() == 0 {
        0
    } else if seq_lt(s[0], x) {
        1 + insertion_point(s.drop_first(), x)
    } else {
        0
    }
}

/// The sorted names `s` with `x` added (unchanged when `x` is there).
pub open spec fn insert_sorted(s: Seq<Seq<char>>, x: Seq<char>) -> Seq<Seq<char>> {
    let p = insertion_point(s, x);
    if p < s.len() && s[p] == x {
        s
    } else {
        s.insert(p, x)
    }
}

/// The registered function names after registering `name`: the
/// implicit `<toplevel>` function is never listed.
pub open spec fn note_function(s: Seq<Seq<char>>, name: Seq<char>) -> Seq<Seq<char>> {
    if name == toplevel_name() {
        s
    } else {
        insert_sorted(s, name)
    }
}

/// `path` joined onto the directory `dir`, as `Path::join` does for a
/// relative file name.
pub open spec fn join_path(dir: Seq<char>, name: Seq<char>) -> Seq<char> {
    if dir.len() == 0 {
        name
    } else if dir.last() == '/' {
        dir + name
    } else {
        dir + seq!['/'] + name
    }
}

/// The message of an `ERROR` event:
/// `command '<cmd>' exited with status <status>`.
pub open spec fn error_message(cmd: Seq<char>, status: i64) -> Seq<char> {
    seq!['c', 'o', 'm', 'm', 'a', 'n', 'd', ' ', '\''] + cmd + seq![
        '\'',
        ' ',
        'e',
        'x',
        'i',
        't',
        'e',
        'd',
        ' ',
        'w',
        'i',
        't',
        'h',
        ' ',
        's',
        't',
        'a',
        't',
        'u',
        's',
        ' ',
    ] + signed_decimal(status as int)
}

/// The file of the current step, or `<unknown>` before any step.
pub open spec fn call_file(m: BridgeModel) -> Seq<char> {
    match m.current_file {
        Some(f) => f,
        None => unknown_file(),
    }
}

/// A `CALL` of `name`: the function is looked up (or registered at the
/// current step's location) and called with the staged arguments,
/// which are then dropped.
pub open spec fn spec_call(m: BridgeModel, name: Seq<char>) -> (BridgeModel, Seq<CallView>) {
    (
        BridgeModel {
            registered_functions: note_function(m.registered_functions, name),
            pending_call_args: Seq::empty(),
            ..m
        },
        seq![
            CallView::RegisterCall {
                name,
                path: call_file(m),
                line: m.current_line,
                args: m.pending_call_args,
            },
        ],
    )
}

/// The bridge's state and writer calls after an event other than `START`.
pub open spec fn spec_next(m: BridgeModel, e: EventView) -> (BridgeModel, Seq<CallView>) {
    match e {
        EventView::Start { .. } => (m, Seq::empty()),
        EventView::Path { file } => (
            BridgeModel { registered_paths: m.registered_paths.push(file), ..m },
            seq![CallView::EnsurePathId { path: file }],
        ),
        EventView::Func { name, file, line } => (
            BridgeModel {
                registered_functions: note_function(m.registered_functions, name),
                ..m
            },
            seq![CallView::EnsureFunctionId { name, path: file, line }],
        ),
        EventView::Step { file, line } => (
            BridgeModel { current_file: Some(file), current_line: line, ..m },
            seq![CallView::RegisterStep { path: file, line }],
        ),
        EventView::Call { name } => spec_call(m, name),
        EventView::Arg { name, value, type_flag } => (
            BridgeModel {
                pending_call_args: m.pending_call_args.push(
                    StagedArgView { name, value: spec_typed_value(value, type_flag) },
                ),
                ..m
            },
            seq![CallView::StageArg { name, value: spec_typed_value(value, type_flag) }],
        ),
        EventView::Var { name, value, type_flag } => (
            m,
            seq![CallView::RegisterVariable { name, value: spec_typed_value(value, type_flag) }],
        ),
        EventView::Write { content } => (
            m,
            seq![
                CallView::RegisterSpecialEvent {
                    kind: SpecialEventKind::Write,
                    metadata: Seq::empty(),
                    content,
                },
            ],
        ),
        EventView::Error { cmd, status } => (
            m,
            seq![
                CallView::RegisterSpecialEvent {
                    kind: SpecialEventKind::Error,
                    metadata: cmd,
                    content: error_message(cmd, status),
                },
            ],
        ),
        EventView::Return { status } => (m, seq![CallView::RegisterReturn { code: status }]),
        EventView::Exit { code } => (m, seq![CallView::RegisterReturn { code }]),
    }
}

/// `trace.ct`.
pub open spec fn events_file_name() -> Seq<char> {
    seq!['t', 'r', 'a', 'c', 'e', '.', 'c', 't']
}

/// `trace_metadata.json`.
pub open spec fn metadata_file_name() -> Seq<char> {
    seq!['t', 'r', 'a', 'c', 'e', '_', 'm', 'e', 't', 'a', 'd', 'a', 't', 'a', '.', 'j', 's', 'o', 'n']
}

/// `trace_paths.json`.
pub open spec fn paths_file_name() -> Seq<char> {
    seq!['t', 'r', 'a', 'c', 'e', '_', 'p', 'a', 't', 'h', 's', '.', 'j', 's', 'o', 'n']
}

/// `symbols.json`.
pub open spec fn symbols_file_name() -> Seq<char> {
    seq!['s', 'y', 'm', 'b', 'o', 'l', 's', '.', 'j', 's', 'o', 'n']
}

/// The calls that open the output streams for a `START` event.
pub open spec fn spec_open_streams(m: BridgeModel) -> Seq<CallView> {
    seq![
        CallView::BeginWritingTraceEvents { path: join_path(m.output_dir, events_file_name()) },
        CallView::BeginWritingTraceMetadata { path: join_path(m.output_dir, metadata_file_name()) },
        CallView::BeginWritingTracePaths { path: join_path(m.output_dir, paths_file_name()) },
    ]
}

/// The name of the `k`-th (from 1) positional parameter: `$k`.
pub open spec fn positional_name(k: nat) -> Seq<char> {
    seq!['$'] + decimal(k)
}

/// The script's positional parameters as staged arguments `$1 .. $N`,
/// each a string.
pub open spec fn script_arg_values(args: Seq<Seq<char>>) -> Seq<StagedArgView> {
    Seq::new(
        args.len(),
        |k: int|
            StagedArgView {
                name: positional_name((k + 1) as nat),
                value: TypedValueView { kind: ValueKind::String, data: ValueDataView::Text(args[k]) },
            },
    )
}

/// The writer call that stages an argument.
pub open spec fn stage_call(a: StagedArgView) -> CallView {
    CallView::StageArg { name: a.name, value: a.value }
}

/// The bridge's state and writer calls once the output streams of a
/// `START` of `program` are open: the writer starts at the program's
/// first line, the script's positional parameters are staged as `$1 ..
/// $N`, and the implicit `<toplevel>` function is called with them.
pub open spec fn spec_streams_opened(m: BridgeModel, program: Seq<char>) -> (
    BridgeModel,
    Seq<CallView>,
) {
    let staged = script_arg_values(m.script_args);
    let m1 = BridgeModel {
        program,
        current_file: Some(program),
        current_line: 1,
        started: true,
        pending_call_args: m.pending_call_args + staged,
        ..m
    };
    let (m2, call) = spec_call(m1, toplevel_name());
    (m2, seq![CallView::Start { path: program, line: 1 }] + staged.map_values(|a: StagedArgView| stage_call(a)) + call)
}

/// The calls and sidecar files that finish a trace, or none when the
/// output streams were never opened.
pub open spec fn spec_finish(m: BridgeModel) -> Option<(Seq<CallView>, Seq<SidecarView>)> {
    if m.started {
        Some(
            (
                seq![
                    CallView::FinishWritingTraceEvents,
                    CallView::FinishWritingTraceMetadata,
                    CallView::FinishWritingTracePaths,
                    CallView::Close,
                ],
                seq![
                    SidecarView {
                        path: join_path(m.output_dir, metadata_file_name()),
                        contents: metadata_json(m.program, m.script_args),
                    },
                    SidecarView {
                        path: join_path(m.output_dir, paths_file_name()),
                        contents: json_array(m.registered_paths),
                    },
                    SidecarView {
                        path: join_path(m.output_dir, symbols_file_name()),
                        contents: json_array(m.registered_functions),
                    },
                ],
            ),
        )
    } else {
        None
    }
}

// ---------------------------------------------------------------------
// The bridge
// ---------------------------------------------------------------------

/// Connects wire protocol events to the trace writer's API.
pub struct TraceBridge {
    output_dir: String,
    /// Track the current file for auto-registering functions from CALL events.
    current_file: Option<String>,
    /// Track the current line for auto-registering functions from CALL events.
    current_line: i64,
    /// Whether the writer's output streams have been opened.
    started: bool,
    /// Program path from the START event, used for the metadata sidecar.
    program: String,
    /// All registered source file paths, written as `trace_paths.json`.
    registered_paths: Vec<String>,
    /// All registered function names (excluding `<toplevel>`), sorted and
    /// without repetition, written as `symbols.json`.
    registered_functions: Vec<String>,
    /// Script-level positional parameters captured from CLI `--args`.
    script_args: Vec<String>,
    /// Args staged via `ARG` events that have not yet been consumed by a
    /// `CALL` event.
    pending_call_args: Vec<StagedArg>,
}

/// The mathematical form of a list of strings.
pub open spec fn strings_view(v: Seq<String>) -> Seq<Seq<char>> {
    v.map_values(|s: String| s@)
}

impl View for TraceBridge {
    type V = BridgeModel;

    closed spec fn view(&self) -> BridgeModel {
        BridgeModel {
            output_dir: self.output_dir@,
            current_file: match self.current_file {
                Some(f) => Some(f@),
                None => None,
            },
            current_line: self.current_line,
            started: self.started,
            program: self.program@,
            registered_paths: strings_view(self.registered_paths@),
            registered_functions: strings_view(self.registered_functions@),
            script_args: strings_view(self.script_args@),
            pending_call_args: args_view(self.pending_call_args@),
        }
    }
}

/// What holds of every bridge: its function names are strictly sorted
/// and `<toplevel>` is not among them.
pub open spec fn bridge_wf(m: BridgeModel) -> bool {
    &&& strictly_sorted(m.registered_functions)
    &&& !m.registered_functions.contains(toplevel_name())
}

} // verus!

verus! {

// ---------------------------------------------------------------------
// Sorted names
// ---------------------------------------------------------------------

proof fn lemma_sorted_tail(s: Seq<Seq<char>>)
    requires
        strictly_sorted(s),
        s.len() > 0,
    ensures
        strictly_sorted(s.drop_first()),
{
    assert forall|i: int, j: int| 0 <= i < j < s.drop_first().len() implies seq_lt(
        #[trigger] s.drop_first()[i],
        #[trigger] s.drop_first()[j],
    ) by {
        assert(s.drop_first()[i] == s[i + 1]);
        assert(s.drop_first()[j] == s[j + 1]);
    }
}

/// The insertion point of `x` in strictly sorted names: the names before
/// it come before `x`, the others do not.
proof fn lemma_insertion_point(s: Seq<Seq<char>>, x: Seq<char>)
    requires
        strictly_sorted(s),
    ensures
        0 <= insertion_point(s, x) <= s.len(),
        forall|i: int| 0 <= i < insertion_point(s, x) ==> seq_lt(#[trigger] s[i], x),
        forall|i: int| insertion_point(s, x) <= i < s.len() ==> !seq_lt(#[trigger] s[i], x),
    decreases s.len(),
{
    if s.len() == 0 {
    } else if seq_lt(s[0], x) {
        lemma_sorted_tail(s);
        lemma_insertion_point(s.drop_first(), x);
        let p = insertion_point(s, x);
        assert forall|i: int| 0 <= i < p implies seq_lt(#[trigger] s[i], x) by {
            if i > 0 {
                assert(s[i] == s.drop_first()[i - 1]);
            }
        }
        assert forall|i: int| p <= i < s.len() implies !seq_lt(#[trigger] s[i], x) by {
            assert(s[i] == s.drop_first()[i - 1]);
        }
    } else {
        assert forall|i: int| 0 <= i < s.len() implies !seq_lt(#[trigger] s[i], x) by {
            if i > 0 {
                assert(seq_lt(s[0], s[i]));
                if seq_lt(s[i], x) {
                    lemma_seq_lt_transitive(s[0], s[i], x);
                }
            }
        }
    }
}

/// Adding a name keeps the names strictly sorted, and adds exactly it.
pub proof fn lemma_insert_sorted(s: Seq<Seq<char>>, x: Seq<char>)
    requires
        strictly_sorted(s),
    ensures
        strictly_sorted(insert_sorted(s, x)),
        forall|y: Seq<char>| #[trigger] insert_sorted(s, x).contains(y) <==> (s.contains(y) || y == x),
{
    lemma_insertion_point(s, x);
    let p = insertion_point(s, x);
    let r = insert_sorted(s, x);
    if p < s.len() && s[p] == x {
    } else {
        // every name from the insertion point on comes after x
        assert forall|i: int| p <= i < s.len() implies seq_lt(x, #[trigger] s[i]) by {
            lemma_seq_lt_total(x, s[i]);
            if i > p {
                assert(seq_lt(s[p], s[i]));
                lemma_seq_lt_total(x, s[p]);
                if seq_lt(x, s[p]) {
                    lemma_seq_lt_transitive(x, s[p], s[i]);
                }
            }
        }
        assert forall|i: int, j: int| 0 <= i < j < r.len() implies seq_lt(
            #[trigger] r[i],
            #[trigger] r[j],
        ) by {
            if j < p {
                assert(r[i] == s[i] && r[j] == s[j]);
            } else if j == p {
                assert(r[j] == x && r[i] == s[i]);
            } else if i < p {
                assert(r[i] == s[i] && r[j] == s[j - 1]);
                lemma_seq_lt_transitive(s[i], x, s[j - 1]);
            } else if i == p {
                assert(r[i] == x && r[j] == s[j - 1]);
            } else {
                assert(r[i] == s[i - 1] && r[j] == s[j - 1]);
            }
        }
        assert forall|y: Seq<char>| #[trigger] r.contains(y) <==> (s.contains(y) || y == x) by {
            if r.contains(y) {
                let k = choose|k: int| 0 <= k < r.len() && r[k] == y;
                if k < p {
                    assert(s[k] == y);
                } else if k > p {
                    assert(s[k - 1] == y);
                }
            }
            if s.contains(y) {
                let k = choose|k: int| 0 <= k < s.len() && s[k] == y;
                if k < p {
                    assert(r[k] == y);
                } else {
                    assert(r[k + 1] == y);
                }
            }
            if y == x {
                assert(r[p] == x);
            }
        }
    }
}

/// Registering a function keeps the bridge's names well formed.
pub proof fn lemma_note_function(s: Seq<Seq<char>>, name: Seq<char>)
    requires
        strictly_sorted(s),
        !s.contains(toplevel_name()),
    ensures
        strictly_sorted(note_function(s, name)),
        !note_function(s, name).contains(toplevel_name()),
        forall|y: Seq<char>| #[trigger] note_function(s, name).contains(y) <==> (s.contains(y) || (
        y == name && name != toplevel_name())),
{
    if name != toplevel_name() {
        lemma_insert_sorted(s, name);
    }
}

fn insert_function_name(v: &mut Vec<String>, name: &str)
    requires
        strictly_sorted(strings_view(old(v)@)),
    ensures
        strings_view(final(v)@) == insert_sorted(strings_view(old(v)@), name@),
{
    let ghost s = strings_view(v@);
    let x = chars_of(name);
    let mut i: usize = 0;
    loop
        invariant
            i <= v@.len(),
            s == strings_view(v@),
            x@ == name@,
            forall|j: int| 0 <= j < i ==> seq_lt(#[trigger] s[j], x@),
        ensures
            i <= v@.len(),
            forall|j: int| 0 <= j < i ==> seq_lt(#[trigger] s[j], x@),
            i == v@.len() || !seq_lt(s[i as int], x@),
        decreases v@.len() - i,
    {
        if i == v.len() {
            break;
        }
        let cur = chars_of(v[i].as_str());
        if !chars_less(&cur, &x) {
            break;
        }
        i = i + 1;
    }
    proof {
        lemma_insertion_point(s, x@);
        let p = insertion_point(s, x@);
        if p < i {
            assert(seq_lt(s[p], x@));
        }
        if p > i {
            assert(seq_lt(s[i as int], x@));
        }
        assert(p == i);
    }
    if i < v.len() && str_equal(v[i].as_str(), name) {
        return;
    }
    v.insert(i, name.to_owned());
    assert(strings_view(v@) =~= s.insert(i as int, name@));
}

// ---------------------------------------------------------------------
// Text helpers of the bridge
// ---------------------------------------------------------------------

fn join_path_text(dir: &str, name: &str) -> (r: String)
    ensures
        r@ == join_path(dir@, name@),
{
    let d = chars_of(dir);
    let mut r = String::new();
    push_str(&mut r, dir);
    if d.len() > 0 && d[d.len() - 1] != '/' {
        push_char(&mut r, '/');
    }
    push_str(&mut r, name);
    assert(r@ =~= join_path(dir@, name@));
    r
}

fn error_message_text(cmd: &str, status: i64) -> (r: String)
    ensures
        r@ == error_message(cmd@, status),
{
    let mut r = String::new();
    proof {
        reveal_strlit("command '");
        reveal_strlit("' exited with status ");
    }
    push_str(&mut r, "command '");
    push_str(&mut r, cmd);
    push_str(&mut r, "' exited with status ");
    push_signed_decimal(&mut r, status);
    assert(r@ =~= error_message(cmd@, status));
    r
}

fn positional_name_text(k: usize) -> (r: String)
    ensures
        r@ == positional_name(k as nat),
{
    let mut r = String::new();
    push_char(&mut r, '$');
    push_decimal(&mut r, k as u64);
    assert(r@ =~= positional_name(k as nat));
    r
}

fn toplevel_text() -> (r: &'static str)
    ensures
        r@ == toplevel_name(),
{
    proof {
        reveal_strlit("<toplevel>");
    }
    assert("<toplevel>"@ =~= toplevel_name());
    "<toplevel>"
}

fn unknown_text() -> (r: &'static str)
    ensures
        r@ == unknown_file(),
{
    proof {
        reveal_strlit("<unknown>");
    }
    assert("<unknown>"@ =~= unknown_file());
    "<unknown>"
}

fn events_file_text() -> (r: &'static str)
    ensures
        r@ == events_file_name(),
{
    proof {
        reveal_strlit("trace.ct");
    }
    assert("trace.ct"@ =~= events_file_name());
    "trace.ct"
}

fn metadata_file_text() -> (r: &'static str)
    ensures
        r@ == metadata_file_name(),
{
    proof {
        reveal_strlit("trace_metadata.json");
    }
    assert("trace_metadata.json"@ =~= metadata_file_name());
    "trace_metadata.json"
}

fn paths_file_text() -> (r: &'static str)
    ensures
        r@ == paths_file_name(),
{
    proof {
        reveal_strlit("trace_paths.json");
    }
    assert("trace_paths.json"@ =~= paths_file_name());
    "trace_paths.json"
}

fn symbols_file_text() -> (r: &'static str)
    ensures
        r@ == symbols_file_name(),
{
    proof {
        reveal_strlit("symbols.json");
    }
    assert("symbols.json"@ =~= symbols_file_name());
    "symbols.json"
}

fn copy_strings(v: &[String]) -> (r: Vec<String>)
    ensures
        strings_view(r@) == strings_view(v@),
{
    let mut r: Vec<String> = Vec::new();
    let mut i: usize = 0;
    while i < v.len()
        invariant
            i <= v@.len(),
            r@.len() == i,
            forall|k: int| 0 <= k < i ==> #[trigger] r@[k]@ == v@[k]@,
        decreases v@.len() - i,
    {
        let item = v[i].clone();
        r.push(item);
        i = i + 1;
    }
    assert(strings_view(r@) =~= strings_view(v@));
    r
}


} // verus!

verus! {

impl TraceBridge {
    #[verifier::type_invariant]
    spec fn well_formed(&self) -> bool {
        bridge_wf(self@)
    }

    /// Create a new TraceBridge.
    ///
    /// This does NOT start the writer yet -- that happens when the START
    /// event is processed, since the program path comes from it.
    pub fn new(output_dir: &str, program: &str, args: &[String]) -> (b: TraceBridge)
        ensures
            b@ == (BridgeModel {
                output_dir: output_dir@,
                current_file: None,
                current_line: 1,
                started: false,
                program: program@,
                registered_paths: Seq::empty(),
                registered_functions: Seq::empty(),
                script_args: strings_view(args@),
                pending_call_args: Seq::empty(),
            }),
            bridge_wf(b@),
    {
        let b = TraceBridge {
            output_dir: output_dir.to_owned(),
            current_file: None,
            current_line: 1,
            started: false,
            program: program.to_owned(),
            registered_paths: Vec::new(),
            registered_functions: Vec::new(),
            script_args: copy_strings(args),
            pending_call_args: Vec::new(),
        };
        assert(strings_view(b.registered_paths@) =~= Seq::empty());
        assert(strings_view(b.registered_functions@) =~= Seq::empty());
        assert(args_view(b.pending_call_args@) =~= Seq::empty());
        b
    }

    /// Handle a CALL event: look up or auto-register the function at the
    /// current step's location, then call it with the arguments staged
    /// since the previous call.
    fn handle_call(&mut self, name: &str) -> (c: WriterCall)
        ensures
            final(self)@ == spec_call(old(self)@, name@).0,
            seq![c@] == spec_call(old(self)@, name@).1,
            c@ matches CallView::RegisterCall { args, .. } && args == old(self)@.pending_call_args,
            final(self)@.pending_call_args == Seq::<StagedArgView>::empty(),
    {
        proof {
            use_type_invariant(&*self);
            lemma_note_function(self@.registered_functions, name@);
        }
        let file = match &self.current_file {
            Some(f) => f.clone(),
            None => unknown_text().to_owned(),
        };
        let line = self.current_line;
        if !str_equal(name, toplevel_text()) {
            let mut names: Vec<String> = Vec::new();
            std::mem::swap(&mut names, &mut self.registered_functions);
            insert_function_name(&mut names, name);
            self.registered_functions = names;
        }
        let mut args: Vec<StagedArg> = Vec::new();
        std::mem::swap(&mut args, &mut self.pending_call_args);
        assert(args_view(self.pending_call_args@) =~= Seq::empty());
        let c = WriterCall::RegisterCall { name: name.to_owned(), path: file, line, args };
        assert(seq![c@] =~= spec_call(old(self)@, name@).1);
        c
    }

    /// Process a single wire protocol event.
    ///
    /// A `START` event opens the trace's output streams first (see
    /// [`Dispatch::OpenStreams`]); every other event gives the writer
    /// calls that record it.
    pub fn handle_event(&mut self, event: WireEvent) -> (d: Dispatch)
        ensures
            match event@ {
                EventView::Start { program, .. } => {
                    &&& final(self)@ == old(self)@
                    &&& d matches Dispatch::OpenStreams { program: p, calls }
                    &&& p@ == program
                    &&& calls_view(calls@) == spec_open_streams(old(self)@)
                },
                _ => {
                    &&& d matches Dispatch::Calls(calls)
                    &&& final(self)@ == spec_next(old(self)@, event@).0
                    &&& calls_view(calls@) == spec_next(old(self)@, event@).1
                },
            },
            // A CALL hands the writer exactly the arguments staged since the
            // previous call, in the order received, and leaves none staged.
            event@ is Call ==> {
                &&& d matches Dispatch::Calls(calls)
                &&& calls@.len() == 1
                &&& calls@[0]@ matches CallView::RegisterCall { args, .. }
                    && args == old(self)@.pending_call_args
                &&& final(self)@.pending_call_args == Seq::<StagedArgView>::empty()
            },
            // An ARG stages one more argument, after those already staged.
            event@ matches EventView::Arg { name, value, type_flag }
                ==> final(self)@.pending_call_args == old(self)@.pending_call_args.push(
                StagedArgView { name, value: spec_typed_value(value, type_flag) },
            ),
            // Any other event leaves the staged arguments as they are.
            !(event@ is Call) && !(event@ is Arg)
                ==> final(self)@.pending_call_args == old(self)@.pending_call_args,
            bridge_wf(final(self)@),
    {
        proof {
            use_type_invariant(&*self);
        }
        let d = match event {
            WireEvent::Start { program, shell: _, shell_version: _ } => {
                let mut calls: Vec<WriterCall> = Vec::new();
                calls.push(
                    WriterCall::BeginWritingTraceEvents {
                        path: join_path_text(self.output_dir.as_str(), events_file_text()),
                    },
                );
                calls.push(
                    WriterCall::BeginWritingTraceMetadata {
                        path: join_path_text(self.output_dir.as_str(), metadata_file_text()),
                    },
                );
                calls.push(
                    WriterCall::BeginWritingTracePaths {
                        path: join_path_text(self.output_dir.as_str(), paths_file_text()),
                    },
                );
                assert(calls_view(calls@) =~= spec_open_streams(old(self)@));
                Dispatch::OpenStreams { program, calls }
            },
            WireEvent::Path { file } => {
                let call = WriterCall::EnsurePathId { path: file.clone() };
                let mut paths: Vec<String> = Vec::new();
                std::mem::swap(&mut paths, &mut self.registered_paths);
                paths.push(file);
                self.registered_paths = paths;
                assert(strings_view(self.registered_paths@) =~= old(self)@.registered_paths.push(
                    event@->Path_file,
                ));
                let mut calls = Vec::new();
                calls.push(call);
                assert(calls_view(calls@) =~= spec_next(old(self)@, event@).1);
                Dispatch::Calls(calls)
            },
            WireEvent::Func { name, file, line } => {
                proof {
                    lemma_note_function(self@.registered_functions, name@);
                }
                if !str_equal(name.as_str(), toplevel_text()) {
                    let mut names: Vec<String> = Vec::new();
                    std::mem::swap(&mut names, &mut self.registered_functions);
                    insert_function_name(&mut names, name.as_str());
                    self.registered_functions = names;
                }
                let mut calls = Vec::new();
                calls.push(WriterCall::EnsureFunctionId { name, path: file, line });
                assert(calls_view(calls@) =~= spec_next(old(self)@, event@).1);
                Dispatch::Calls(calls)
            },
            WireEvent::Step { file, line } => {
                let call = WriterCall::RegisterStep { path: file.clone(), line };
                self.current_file = Some(file);
                self.current_line = line;
                let mut calls = Vec::new();
                calls.push(call);
                assert(calls_view(calls@) =~= spec_next(old(self)@, event@).1);
                Dispatch::Calls(calls)
            },
            WireEvent::Call { name } => {
                let call = self.handle_call(name.as_str());
                let mut calls = Vec::new();
                calls.push(call);
                assert(calls_view(calls@) =~= spec_next(old(self)@, event@).1);
                Dispatch::Calls(calls)
            },
            WireEvent::Arg { name, value, type_flag } => {
                let typed = value_for_flag(value.as_str(), type_flag.as_str());
                let mut pending: Vec<StagedArg> = Vec::new();
                std::mem::swap(&mut pending, &mut self.pending_call_args);
                pending.push(StagedArg { name: name.clone(), value: typed.duplicate() });
                self.pending_call_args = pending;
                assert(args_view(self.pending_call_args@) =~= spec_next(old(self)@, event@).0.pending_call_args);
                let mut calls = Vec::new();
                calls.push(WriterCall::StageArg { name, value: typed });
                assert(calls_view(calls@) =~= spec_next(old(self)@, event@).1);
                Dispatch::Calls(calls)
            },
            WireEvent::Var { name, value, type_flag } => {
                let typed = value_for_flag(value.as_str(), type_flag.as_str());
                let mut calls = Vec::new();
                calls.push(WriterCall::RegisterVariable { name, value: typed });
                assert(calls_view(calls@) =~= spec_next(old(self)@, event@).1);
                Dispatch::Calls(calls)
            },
            WireEvent::Write { content } => {
                let mut calls = Vec::new();
                calls.push(
                    WriterCall::RegisterSpecialEvent {
                        kind: SpecialEventKind::Write,
                        metadata: String::new(),
                        content,
                    },
                );
                assert(calls_view(calls@) =~= spec_next(old(self)@, event@).1);
                Dispatch::Calls(calls)
            },
            WireEvent::Error { cmd, status } => {
                let message = error_message_text(cmd.as_str(), status);
                let mut calls = Vec::new();
                calls.push(
                    WriterCall::RegisterSpecialEvent {
                        kind: SpecialEventKind::Error,
                        metadata: cmd,
                        content: message,
                    },
                );
                assert(calls_view(calls@) =~= spec_next(old(self)@, event@).1);
                Dispatch::Calls(calls)
            },
            WireEvent::Return { status } => {
                let mut calls = Vec::new();
                calls.push(WriterCall::RegisterReturn { code: status });
                assert(calls_view(calls@) =~= spec_next(old(self)@, event@).1);
                Dispatch::Calls(calls)
            },
            WireEvent::Exit { code } => {
                let mut calls = Vec::new();
                calls.push(WriterCall::RegisterReturn { code });
                assert(calls_view(calls@) =~= spec_next(old(self)@, event@).1);
                Dispatch::Calls(calls)
            },
        };
        proof {
            use_type_invariant(&*self);
        }
        d
    }

    /// The rest of a `START` event, once the output streams are open:
    /// start the writer at the program's first line, stage the script's
    /// positional parameters as `$1 .. $N`, and register the implicit
    /// `<toplevel>` call with them.
    pub fn streams_opened(&mut self, program: &str) -> (calls: Vec<WriterCall>)
        ensures
            final(self)@ == spec_streams_opened(old(self)@, program@).0,
            calls_view(calls@) == spec_streams_opened(old(self)@, program@).1,
            // The `<toplevel>` call gets the arguments staged before, then the
            // script's positional parameters, and leaves none staged.
            calls@.len() > 0,
            calls@.last()@ matches CallView::RegisterCall { name, args, .. } && name
                == toplevel_name() && args == old(self)@.pending_call_args + script_arg_values(
                old(self)@.script_args,
            ),
            final(self)@.pending_call_args == Seq::<StagedArgView>::empty(),
            bridge_wf(final(self)@),
    {
        proof {
            use_type_invariant(&*self);
        }
        let ghost m = self@;
        let ghost staged = script_arg_values(m.script_args);
        let mut calls: Vec<WriterCall> = Vec::new();
        calls.push(WriterCall::Start { path: program.to_owned(), line: 1 });
        self.program = program.to_owned();
        self.current_file = Some(program.to_owned());
        self.current_line = 1;
        self.started = true;
        let mut k: usize = 0;
        let n = self.script_args.len();
        assert(staged.take(0).map_values(|a: StagedArgView| stage_call(a)) =~= Seq::empty());
        while k < n
            invariant
                n == self.script_args@.len(),
                k <= n,
                bridge_wf(m),
                strings_view(self.script_args@) == m.script_args,
                staged == script_arg_values(m.script_args),
                self@ == (BridgeModel {
                    program: program@,
                    current_file: Some(program@),
                    current_line: 1,
                    started: true,
                    pending_call_args: m.pending_call_args + staged.take(k as int),
                    ..m
                }),
                calls_view(calls@) == seq![CallView::Start { path: program@, line: 1 }]
                    + staged.take(k as int).map_values(|a: StagedArgView| stage_call(a)),
            decreases n - k,
        {
            let name = positional_name_text(k + 1);
            let value = TypedValue {
                kind: ValueKind::String,
                data: ValueData::Text(self.script_args[k].clone()),
            };
            let arg = StagedArg { name: name.clone(), value: value.duplicate() };
            assert(arg@ == staged[k as int]);
            let ghost old_pending = self.pending_call_args@;
            let ghost old_calls = calls@;
            let mut pending: Vec<StagedArg> = Vec::new();
            std::mem::swap(&mut pending, &mut self.pending_call_args);
            pending.push(arg);
            self.pending_call_args = pending;
            let call = WriterCall::StageArg { name, value };
            assert(call@ == stage_call(staged[k as int]));
            calls.push(call);
            proof {
                assert(args_view(self.pending_call_args@) =~= args_view(old_pending).push(staged[k as int]));
                assert(calls_view(calls@) =~= calls_view(old_calls).push(stage_call(staged[k as int])));
                assert(staged.take(k + 1) =~= staged.take(k as int).push(staged[k as int]));
                assert(staged.take(k + 1).map_values(|a: StagedArgView| stage_call(a)) =~= staged.take(
                    k as int,
                ).map_values(|a: StagedArgView| stage_call(a)).push(stage_call(staged[k as int])));
                assert(args_view(self.pending_call_args@) =~= m.pending_call_args + staged.take(
                    k + 1,
                ));
                assert(calls_view(calls@) =~= seq![CallView::Start { path: program@, line: 1 }]
                    + staged.take(k + 1).map_values(|a: StagedArgView| stage_call(a)));
            }
            k = k + 1;
        }
        assert(staged.take(n as int) =~= staged);
        let ghost pending_before = self@.pending_call_args;
        assert(pending_before == m.pending_call_args + staged);
        let call = self.handle_call(toplevel_text());
        assert(seq![call@][0] == call@);
        assert(call@ matches CallView::RegisterCall { args, .. } && args == pending_before);
        assert(call@ matches CallView::RegisterCall { name, .. } && name == toplevel_name());
        calls.push(call);
        assert(calls@.last() == call);
        assert(calls_view(calls@) =~= spec_streams_opened(m, program@).1);
        proof {
            use_type_invariant(&*self);
        }
        calls
    }

    /// Finalize the trace. Call this after EXIT or on EOF.
    ///
    /// When the output streams were opened, the writer finishes all three
    /// output streams (events, metadata, paths) and is then closed; after
    /// that the sidecar JSON files are written so that launcher scripts
    /// and downstream tools can read metadata, paths, and symbols without
    /// parsing the trace container:
    ///
    /// - `trace_metadata.json` — the program and its arguments
    /// - `trace_paths.json` — array of registered source file paths
    /// - `symbols.json` — array of registered function names (for symbol search)
    ///
    /// Without a `START` event there is nothing to finish.
    pub fn finish(&self) -> (r: Option<FinishPlan>)
        ensures
            match spec_finish(self@) {
                None => r is None,
                Some((calls, sidecars)) => {
                    &&& r matches Some(plan)
                    &&& calls_view(plan.calls@) == calls
                    &&& plan.sidecars@.map_values(|f: SidecarFile| f@) == sidecars
                },
            },
    {
        if !self.started {
            return None;
        }
        let mut calls: Vec<WriterCall> = Vec::new();
        calls.push(WriterCall::FinishWritingTraceEvents);
        calls.push(WriterCall::FinishWritingTraceMetadata);
        calls.push(WriterCall::FinishWritingTracePaths);
        calls.push(WriterCall::Close);
        let mut sidecars: Vec<SidecarFile> = Vec::new();
        // trace_metadata.json — the program and its arguments.
        sidecars.push(
            SidecarFile {
                path: join_path_text(self.output_dir.as_str(), metadata_file_text()),
                contents: metadata_json_text(self.program.as_str(), &self.script_args),
            },
        );
        // trace_paths.json — array of source file paths
        sidecars.push(
            SidecarFile {
                path: join_path_text(self.output_dir.as_str(), paths_file_text()),
                contents: json_string_array(&self.registered_paths),
            },
        );
        // symbols.json — array of function names for quick symbol lookup
        sidecars.push(
            SidecarFile {
                path: join_path_text(self.output_dir.as_str(), symbols_file_text()),
                contents: json_string_array(&self.registered_functions),
            },
        );
        let plan = FinishPlan { calls, sidecars };
        proof {
            let (c, s) = spec_finish(self@).unwrap();
            assert(calls_view(plan.calls@) =~= c);
            assert(plan.sidecars@.map_values(|f: SidecarFile| f@) =~= s);
        }
        Some(plan)
    }
}

} // verus!
