//! Properties of the bridge over whole event streams.
use vstd::prelude::*;

use crate::trace_bridge::{
    bridge_wf, call_file, lemma_note_function, spec_finish,
    spec_next, spec_open_streams, spec_streams_opened, toplevel_name, BridgeModel, CallView,
    StagedArgView, script_arg_values, stage_call,
};
use crate::json::{
    json_decode_array, json_decode_metadata, law_json_array_round_trip,
    law_json_metadata_round_trip,
};
use crate::values::spec_typed_value;
use crate::wire_protocol::EventView;

verus! {

/// The bridge's state and writer calls after one event, where the output
/// streams of a `START` open without error.
pub open spec fn spec_event(m: BridgeModel, e: EventView) -> (BridgeModel, Seq<CallView>) {
    match e {
        EventView::Start { program, .. } => {
            let (m2, calls) = spec_streams_opened(m, program);
            (m2, spec_open_streams(m) + calls)
        },
        _ => spec_next(m, e),
    }
}

/// The bridge's state and all writer calls after a stream of events.
pub open spec fn spec_run(m: BridgeModel, events: Seq<EventView>) -> (BridgeModel, Seq<CallView>)
    decreases events.len(),
{
    if events.len() == 0 {
        (m, Seq::empty())
    } else {
        let (m1, calls1) = spec_run(m, events.drop_last());
        let (m2, calls2) = spec_event(m1, events.last());
        (m2, calls1 + calls2)
    }
}

/// The function names that the events register: those of `FUNC` and
/// `CALL` events.
pub open spec fn event_function_name(e: EventView) -> Option<Seq<char>> {
    match e {
        EventView::Func { name, .. } => Some(name),
        EventView::Call { name } => Some(name),
        _ => None,
    }
}

/// Whether `name` is registered as a function by one of the events.
pub open spec fn names_a_function(events: Seq<EventView>, name: Seq<char>) -> bool {
    exists|i: int| 0 <= i < events.len() && event_function_name(events[i]) == Some(name)
}

/// The files of the `PATH` events, in order.
pub open spec fn event_paths(events: Seq<EventView>) -> Seq<Seq<char>>
    decreases events.len(),
{
    if events.len() == 0 {
        Seq::empty()
    } else {
        match events.last() {
            EventView::Path { file } => event_paths(events.drop_last()).push(file),
            _ => event_paths(events.drop_last()),
        }
    }
}

/// Whether one of the events is a `START`.
pub open spec fn has_start(events: Seq<EventView>) -> bool {
    exists|i: int| 0 <= i < events.len() && events[i] is Start
}

proof fn lemma_event_keeps_paths_and_wf(m: BridgeModel, e: EventView)
    requires
        bridge_wf(m),
    ensures
        bridge_wf(spec_event(m, e).0),
        spec_event(m, e).0.registered_paths == (match e {
            EventView::Path { file } => m.registered_paths.push(file),
            _ => m.registered_paths,
        }),
        forall|y: Seq<char>| #[trigger] spec_event(m, e).0.registered_functions.contains(y) <==> (
        m.registered_functions.contains(y) || (event_function_name(e) == Some(y) && y
            != toplevel_name())),
        spec_event(m, e).0.started == (m.started || e is Start),
{
    match e {
        EventView::Func { name, .. } => {
            lemma_note_function(m.registered_functions, name);
        },
        EventView::Call { name } => {
            lemma_note_function(m.registered_functions, name);
        },
        EventView::Start { program, .. } => {
            lemma_note_function(m.registered_functions, toplevel_name());
        },
        _ => {},
    }
}

/// Whatever the events, the bridge's function names stay strictly
/// sorted (each listed once, in the order of `String`), never list the
/// implicit `<toplevel>` function, and are exactly the names that the
/// `FUNC` and `CALL` events registered besides those there before:
/// `symbols.json` lists every registered function once, sorted.
pub proof fn law_function_names(m: BridgeModel, events: Seq<EventView>)
    requires
        bridge_wf(m),
    ensures
        bridge_wf(spec_run(m, events).0),
        forall|y: Seq<char>| #[trigger] spec_run(m, events).0.registered_functions.contains(y) <==> (
        m.registered_functions.contains(y) || (names_a_function(events, y) && y
            != toplevel_name())),
    decreases events.len(),
{
    if events.len() > 0 {
        let prefix = events.drop_last();
        law_function_names(m, prefix);
        let m1 = spec_run(m, prefix).0;
        lemma_event_keeps_paths_and_wf(m1, events.last());
        assert forall|y: Seq<char>| #[trigger] spec_run(m, events).0.registered_functions.contains(
            y,
        ) <==> (m.registered_functions.contains(y) || (names_a_function(events, y) && y
            != toplevel_name())) by {
            if names_a_function(events, y) {
                let i = choose|i: int|
                    0 <= i < events.len() && event_function_name(events[i]) == Some(y);
                if i < events.len() - 1 {
                    assert(prefix[i] == events[i]);
                    assert(names_a_function(prefix, y));
                }
            }
            if names_a_function(prefix, y) {
                let i = choose|i: int|
                    0 <= i < prefix.len() && event_function_name(prefix[i]) == Some(y);
                assert(events[i] == prefix[i]);
            }
            if event_function_name(events.last()) == Some(y) {
                assert(events[events.len() - 1] == events.last());
            }
        }
    }
}

/// `trace_paths.json` lists the files of the `PATH` events in the order
/// they came, after those registered before.
pub proof fn law_registered_paths(m: BridgeModel, events: Seq<EventView>)
    requires
        bridge_wf(m),
    ensures
        spec_run(m, events).0.registered_paths == m.registered_paths + event_paths(events),
    decreases events.len(),
{
    if events.len() == 0 {
        assert(m.registered_paths + event_paths(events) =~= m.registered_paths);
    } else {
        let prefix = events.drop_last();
        law_registered_paths(m, prefix);
        law_function_names(m, prefix);
        let m1 = spec_run(m, prefix).0;
        lemma_event_keeps_paths_and_wf(m1, events.last());
        match events.last() {
            EventView::Path { file } => {
                assert(m.registered_paths + event_paths(events) =~= (m.registered_paths
                    + event_paths(prefix)).push(file));
            },
            _ => {},
        }
    }
}

/// A trace is finished (its writer flushed and closed and its sidecar
/// files written) exactly when a `START` event opened it: without one,
/// finishing does nothing.
pub proof fn law_finish_needs_start(m: BridgeModel, events: Seq<EventView>)
    requires
        bridge_wf(m),
        !m.started,
    ensures
        spec_finish(spec_run(m, events).0) is Some <==> has_start(events),
    decreases events.len(),
{
    if events.len() > 0 {
        let prefix = events.drop_last();
        law_finish_needs_start(m, prefix);
        law_function_names(m, prefix);
        let m1 = spec_run(m, prefix).0;
        lemma_event_keeps_paths_and_wf(m1, events.last());
        if has_start(prefix) {
            let i = choose|i: int| 0 <= i < prefix.len() && prefix[i] is Start;
            assert(events[i] == prefix[i]);
        }
        if has_start(events) && !(events.last() is Start) {
            let i = choose|i: int| 0 <= i < events.len() && events[i] is Start;
            assert(i != events.len() - 1);
            assert(prefix[i] == events[i]);
        }
        if events.last() is Start {
            assert(events[events.len() - 1] is Start);
        }
    }
}

/// The `ARG` events given as name, value and type flag.
pub open spec fn arg_events(
    names: Seq<Seq<char>>,
    values: Seq<Seq<char>>,
    flags: Seq<Seq<char>>,
) -> Seq<EventView> {
    Seq::new(
        names.len(),
        |i: int| EventView::Arg { name: names[i], value: values[i], type_flag: flags[i] },
    )
}

/// The arguments that those `ARG` events stage.
pub open spec fn staged_args(
    names: Seq<Seq<char>>,
    values: Seq<Seq<char>>,
    flags: Seq<Seq<char>>,
) -> Seq<StagedArgView> {
    Seq::new(
        names.len(),
        |i: int| StagedArgView { name: names[i], value: spec_typed_value(values[i], flags[i]) },
    )
}

proof fn lemma_args_staged(
    m: BridgeModel,
    names: Seq<Seq<char>>,
    values: Seq<Seq<char>>,
    flags: Seq<Seq<char>>,
)
    requires
        names.len() == values.len() == flags.len(),
    ensures
        spec_run(m, arg_events(names, values, flags)).0 == (BridgeModel {
            pending_call_args: m.pending_call_args + staged_args(names, values, flags),
            ..m
        }),
    decreases names.len(),
{
    let es = arg_events(names, values, flags);
    if names.len() == 0 {
        assert(m.pending_call_args + staged_args(names, values, flags) =~= m.pending_call_args);
    } else {
        let k = names.len() - 1;
        lemma_args_staged(m, names.drop_last(), values.drop_last(), flags.drop_last());
        assert(es.drop_last() =~= arg_events(names.drop_last(), values.drop_last(), flags.drop_last()));
        assert(m.pending_call_args + staged_args(names, values, flags) =~= (m.pending_call_args
            + staged_args(names.drop_last(), values.drop_last(), flags.drop_last())).push(
            StagedArgView { name: names[k], value: spec_typed_value(values[k], flags[k]) },
        ));
    }
}

/// The arguments staged by `ARG` events go, in order, to the next `CALL`
/// after those already staged, and nothing stays staged after it: each
/// call frame's argument list is exactly the one the recorder emitted
/// before it.  The call is located at the current step.
pub proof fn law_call_receives_staged_args(
    m: BridgeModel,
    names: Seq<Seq<char>>,
    values: Seq<Seq<char>>,
    flags: Seq<Seq<char>>,
    function: Seq<char>,
)
    requires
        names.len() == values.len() == flags.len(),
    ensures
        ({
            let (m2, calls) = spec_run(
                m,
                arg_events(names, values, flags).push(EventView::Call { name: function }),
            );
            &&& calls.last() == CallView::RegisterCall {
                name: function,
                path: call_file(m),
                line: m.current_line,
                args: m.pending_call_args + staged_args(names, values, flags),
            }
            &&& m2.pending_call_args == Seq::<StagedArgView>::empty()
        }),
{
    let es = arg_events(names, values, flags).push(EventView::Call { name: function });
    lemma_args_staged(m, names, values, flags);
    assert(es.drop_last() =~= arg_events(names, values, flags));
}

/// Whether an event leaves the current step's location as it is.
pub open spec fn keeps_location(e: EventView) -> bool {
    !(e is Step) && !(e is Start)
}

proof fn lemma_location_kept(m: BridgeModel, events: Seq<EventView>)
    requires
        forall|i: int| 0 <= i < events.len() ==> keeps_location(#[trigger] events[i]),
    ensures
        spec_run(m, events).0.current_file == m.current_file,
        spec_run(m, events).0.current_line == m.current_line,
    decreases events.len(),
{
    if events.len() > 0 {
        let prefix = events.drop_last();
        assert forall|i: int| 0 <= i < prefix.len() implies keeps_location(#[trigger] prefix[i]) by {
            assert(prefix[i] == events[i]);
        }
        lemma_location_kept(m, prefix);
        assert(keeps_location(events[events.len() - 1]));
    }
}

/// A `CALL` is located at the most recent `STEP`: the function it calls
/// is looked up (or registered) in that step's file and line.
pub proof fn law_call_at_latest_step(
    m: BridgeModel,
    file: Seq<char>,
    line: i64,
    between: Seq<EventView>,
    function: Seq<char>,
)
    requires
        forall|i: int| 0 <= i < between.len() ==> keeps_location(#[trigger] between[i]),
    ensures
        spec_run(
            m,
            seq![EventView::Step { file, line }] + between + seq![EventView::Call { name: function }],
        ).1.last() matches CallView::RegisterCall { path, line: l, .. } && path == file && l == line,
{
    let step = seq![EventView::Step { file, line }];
    let es = step + between + seq![EventView::Call { name: function }];
    let m1 = spec_run(m, step).0;
    assert(step.drop_last() =~= Seq::<EventView>::empty());
    assert(m1.current_file == Some(file) && m1.current_line == line);
    lemma_location_kept(m1, between);
    lemma_run_append(m, step, between);
    assert(es.drop_last() =~= step + between);
}

/// Running two streams one after the other is running their
/// concatenation.
pub proof fn lemma_run_append(m: BridgeModel, a: Seq<EventView>, b: Seq<EventView>)
    ensures
        spec_run(m, a + b).0 == spec_run(spec_run(m, a).0, b).0,
        spec_run(m, a + b).1 == spec_run(m, a).1 + spec_run(spec_run(m, a).0, b).1,
    decreases b.len(),
{
    if b.len() == 0 {
        assert(a + b =~= a);
        assert(spec_run(m, a).1 + Seq::<CallView>::empty() =~= spec_run(m, a).1);
    } else {
        lemma_run_append(m, a, b.drop_last());
        assert((a + b).drop_last() =~= a + b.drop_last());
        assert((a + b).last() == b.last());
        let r = spec_run(m, a);
        let r1 = spec_run(r.0, b.drop_last());
        let r2 = spec_event(r1.0, b.last());
        assert(r.1 + (r1.1 + r2.1) =~= (r.1 + r1.1) + r2.1);
    }
}

} // verus!

verus! {

/// Whether an event hands the staged arguments to a call: a `CALL`, or
/// a `START` (whose `<toplevel>` call takes them).
pub open spec fn drains_args(e: EventView) -> bool {
    e is Call || e is Start
}

/// The arguments staged after the events, starting from `pending`: each
/// `ARG` adds one, in the order received; a `CALL` or `START` hands them
/// all to its call and leaves none; other events leave them as they are.
pub open spec fn staged_after(pending: Seq<StagedArgView>, events: Seq<EventView>) -> Seq<StagedArgView>
    decreases events.len(),
{
    if events.len() == 0 {
        pending
    } else {
        let before = staged_after(pending, events.drop_last());
        match events.last() {
            EventView::Arg { name, value, type_flag } => before.push(
                StagedArgView { name, value: spec_typed_value(value, type_flag) },
            ),
            EventView::Call { .. } => Seq::empty(),
            EventView::Start { .. } => Seq::empty(),
            _ => before,
        }
    }
}

/// The arguments staged are always those of the `ARG` events received
/// since the latest `CALL` or `START`, in the order received.
pub proof fn law_staged_args(m: BridgeModel, events: Seq<EventView>)
    ensures
        spec_run(m, events).0.pending_call_args == staged_after(m.pending_call_args, events),
    decreases events.len(),
{
    if events.len() > 0 {
        law_staged_args(m, events.drop_last());
        let m1 = spec_run(m, events.drop_last()).0;
        match events.last() {
            EventView::Start { program, .. } => {
                assert(spec_streams_opened(m1, program).0.pending_call_args =~= Seq::<StagedArgView>::empty());
            },
            _ => {},
        }
    }
}

/// Each call gets exactly the arguments of the `ARG` events received
/// since the previous call, in the order received, whatever other events
/// (steps, variables, output, ...) come between them; none stay staged
/// after it.  A call with no `ARG` since the previous one gets none.
pub proof fn law_call_gets_args_since_previous_call(
    m: BridgeModel,
    between: Seq<EventView>,
    function: Seq<char>,
)
    requires
        forall|i: int| 0 <= i < between.len() ==> !drains_args(#[trigger] between[i]),
    ensures
        ({
            let (m2, calls) = spec_run(m, between.push(EventView::Call { name: function }));
            let m1 = spec_run(m, between).0;
            &&& calls.last() == CallView::RegisterCall {
                name: function,
                path: call_file(m1),
                line: m1.current_line,
                args: staged_after(m.pending_call_args, between),
            }
            &&& m2.pending_call_args == Seq::<StagedArgView>::empty()
        }),
{
    law_staged_args(m, between);
    let es = between.push(EventView::Call { name: function });
    assert(es.drop_last() =~= between);
}

/// With no argument staged beforehand (as after any call), a call
/// preceded only by non-`ARG` events gets an empty argument list.
pub proof fn law_call_without_args(m: BridgeModel, between: Seq<EventView>)
    requires
        m.pending_call_args == Seq::<StagedArgView>::empty(),
        forall|i: int| 0 <= i < between.len() ==> !(#[trigger] between[i] is Arg),
    ensures
        staged_after(m.pending_call_args, between) == Seq::<StagedArgView>::empty(),
    decreases between.len(),
{
    if between.len() > 0 {
        let prefix = between.drop_last();
        assert forall|i: int| 0 <= i < prefix.len() implies !(#[trigger] prefix[i] is Arg) by {
            assert(prefix[i] == between[i]);
        }
        law_call_without_args(m, prefix);
        assert(!(between[between.len() - 1] is Arg));
    }
}

/// Once a trace was started, finishing it writes sidecar files that read
/// back exactly: `trace_metadata.json` gives the program and its script
/// arguments, `trace_paths.json` the registered paths and `symbols.json`
/// the function names, whatever characters they hold.
pub proof fn law_finish_sidecars_read_back(m: BridgeModel)
    requires
        m.started,
    ensures
        spec_finish(m) is Some,
        ({
            let files = spec_finish(m).unwrap().1;
            &&& files.len() == 3
            &&& json_decode_metadata(files[0].contents) == Some((m.program, m.script_args))
            &&& json_decode_array(files[1].contents) == Some(m.registered_paths)
            &&& json_decode_array(files[2].contents) == Some(m.registered_functions)
        }),
{
    law_json_metadata_round_trip(m.program, m.script_args);
    law_json_array_round_trip(m.registered_paths);
    law_json_array_round_trip(m.registered_functions);
}

/// The status codes of the `RETURN` and `EXIT` events, in order.
pub open spec fn event_return_codes(events: Seq<EventView>) -> Seq<i64>
    decreases events.len(),
{
    if events.len() == 0 {
        Seq::empty()
    } else {
        let before = event_return_codes(events.drop_last());
        match events.last() {
            EventView::Return { status } => before.push(status),
            EventView::Exit { code } => before.push(code),
            _ => before,
        }
    }
}

/// The codes of the returns among writer calls, in order.
pub open spec fn recorded_returns(calls: Seq<CallView>) -> Seq<i64>
    decreases calls.len(),
{
    if calls.len() == 0 {
        Seq::empty()
    } else {
        let before = recorded_returns(calls.drop_last());
        match calls.last() {
            CallView::RegisterReturn { code } => before.push(code),
            _ => before,
        }
    }
}

proof fn lemma_recorded_returns_append(a: Seq<CallView>, b: Seq<CallView>)
    ensures
        recorded_returns(a + b) == recorded_returns(a) + recorded_returns(b),
    decreases b.len(),
{
    if b.len() == 0 {
        assert(a + b =~= a);
        assert(recorded_returns(a) + recorded_returns(b) =~= recorded_returns(a));
    } else {
        lemma_recorded_returns_append(a, b.drop_last());
        assert((a + b).drop_last() =~= a + b.drop_last());
        assert((a + b).last() == b.last());
        match b.last() {
            CallView::RegisterReturn { code } => {
                assert(recorded_returns(a) + recorded_returns(b) =~= (recorded_returns(a)
                    + recorded_returns(b.drop_last())).push(code));
            },
            _ => {},
        }
    }
}

proof fn lemma_no_returns(calls: Seq<CallView>)
    requires
        forall|i: int| 0 <= i < calls.len() ==> !(#[trigger] calls[i] is RegisterReturn),
    ensures
        recorded_returns(calls) == Seq::<i64>::empty(),
    decreases calls.len(),
{
    if calls.len() > 0 {
        let prefix = calls.drop_last();
        assert forall|i: int| 0 <= i < prefix.len() implies !(#[trigger] prefix[i] is RegisterReturn) by {
            assert(prefix[i] == calls[i]);
        }
        lemma_no_returns(prefix);
        assert(!(calls[calls.len() - 1] is RegisterReturn));
    }
}

proof fn lemma_single_call(c: CallView)
    ensures
        recorded_returns(seq![c]) == (match c {
            CallView::RegisterReturn { code } => seq![code],
            _ => Seq::<i64>::empty(),
        }),
{
    assert(seq![c].drop_last() =~= Seq::<CallView>::empty());
    assert(seq![c].last() == c);
    assert(recorded_returns(Seq::<CallView>::empty()) == Seq::<i64>::empty());
    match c {
        CallView::RegisterReturn { code } => {
            assert(Seq::<i64>::empty().push(code) =~= seq![code]);
        },
        _ => {},
    }
}

proof fn lemma_event_returns(m: BridgeModel, e: EventView)
    ensures
        recorded_returns(spec_event(m, e).1) == (match e {
            EventView::Return { status } => seq![status],
            EventView::Exit { code } => seq![code],
            _ => Seq::<i64>::empty(),
        }),
{
    match e {
        EventView::Start { program, .. } => {
            let calls = spec_event(m, e).1;
            let staged = script_arg_values(m.script_args);
            let staging = staged.map_values(|a: StagedArgView| stage_call(a));
            assert forall|i: int| 0 <= i < calls.len() implies !(#[trigger] calls[i] is RegisterReturn) by {
                if 4 <= i < 4 + staging.len() {
                    assert(calls[i] == staging[i - 4]);
                }
            }
            lemma_no_returns(calls);
        },
        _ => {
            lemma_single_call(spec_event(m, e).1[0]);
            assert(spec_event(m, e).1 =~= seq![spec_event(m, e).1[0]]);
        },
    }
}

/// Every `RETURN` and `EXIT` event is recorded as one return carrying
/// its status, and nothing else records a return: the codes of the
/// writer's returns are exactly the statuses and exit codes the events
/// gave, in order.
pub proof fn law_returns_recorded(m: BridgeModel, events: Seq<EventView>)
    ensures
        recorded_returns(spec_run(m, events).1) == event_return_codes(events),
    decreases events.len(),
{
    if events.len() > 0 {
        let prefix = events.drop_last();
        law_returns_recorded(m, prefix);
        let (m1, calls1) = spec_run(m, prefix);
        lemma_recorded_returns_append(calls1, spec_event(m1, events.last()).1);
        lemma_event_returns(m1, events.last());
        match events.last() {
            EventView::Return { status } => {
                assert(event_return_codes(prefix) + seq![status] =~= event_return_codes(prefix).push(status));
            },
            EventView::Exit { code } => {
                assert(event_return_codes(prefix) + seq![code] =~= event_return_codes(prefix).push(code));
            },
            _ => {
                assert(event_return_codes(prefix) + Seq::<i64>::empty() =~= event_return_codes(prefix));
            },
        }
    } else {
        assert(recorded_returns(Seq::<CallView>::empty()) == Seq::<i64>::empty());
    }
}

/// A `RETURN` with status `s` gives exactly one writer call, the return
/// of code `s`, and an `EXIT` with code `c` the return of code `c`; the
/// bridge's state stays as it was.
pub proof fn law_return_and_exit_codes(m: BridgeModel, s: i64)
    ensures
        spec_event(m, EventView::Return { status: s }) == (m, seq![CallView::RegisterReturn { code: s }]),
        spec_event(m, EventView::Exit { code: s }) == (m, seq![CallView::RegisterReturn { code: s }]),
{
}

proof fn lemma_run_keeps_script_args(m: BridgeModel, events: Seq<EventView>)
    ensures
        spec_run(m, events).0.script_args == m.script_args,
    decreases events.len(),
{
    if events.len() > 0 {
        lemma_run_keeps_script_args(m, events.drop_last());
    }
}

proof fn lemma_run_without_start(m: BridgeModel, events: Seq<EventView>)
    requires
        forall|j: int| 0 <= j < events.len() ==> !(#[trigger] events[j] is Start),
    ensures
        spec_run(m, events).0.program == m.program,
        spec_run(m, events).0.started == m.started,
    decreases events.len(),
{
    if events.len() > 0 {
        let prefix = events.drop_last();
        assert forall|j: int| 0 <= j < prefix.len() implies !(#[trigger] prefix[j] is Start) by {
            assert(prefix[j] == events[j]);
        }
        lemma_run_without_start(m, prefix);
        assert(!(events[events.len() - 1] is Start));
    }
}

/// The program of a recording is the one named by its latest `START`
/// event, whatever program the bridge was created with: the bridge
/// records it, and the finished trace's `trace_metadata.json` reads back
/// as that program with the script's arguments.
pub proof fn law_metadata_names_started_program(
    m: BridgeModel,
    events: Seq<EventView>,
    i: int,
    p: Seq<char>,
)
    requires
        0 <= i < events.len(),
        events[i] matches EventView::Start { program, .. } && program == p,
        forall|j: int| i < j < events.len() ==> !(#[trigger] events[j] is Start),
    ensures
        spec_run(m, events).0.program == p,
        spec_finish(spec_run(m, events).0) is Some,
        json_decode_metadata(spec_finish(spec_run(m, events).0).unwrap().1[0].contents) == Some(
            (p, m.script_args),
        ),
{
    let a = events.take(i + 1);
    let b = events.skip(i + 1);
    assert(events =~= a + b);
    lemma_run_append(m, a, b);
    assert(a.drop_last() =~= events.take(i));
    assert(a.last() == events[i]);
    lemma_run_keeps_script_args(m, events.take(i));
    let ma = spec_run(m, a).0;
    assert(ma.program == p);
    assert(ma.started);
    assert(ma.script_args == m.script_args);
    assert forall|j: int| 0 <= j < b.len() implies !(#[trigger] b[j] is Start) by {
        assert(b[j] == events[i + 1 + j]);
    }
    lemma_run_without_start(ma, b);
    lemma_run_keeps_script_args(ma, b);
    law_finish_sidecars_read_back(spec_run(m, events).0);
}

} // verus!
