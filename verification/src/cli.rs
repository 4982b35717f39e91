//! The command line of the trace writer.
//!
//! ```text
//! ct-shell-trace-writer --out-dir <path> [--program <name>] [--args <arg1> <arg2> ...]
//! ```
use vstd::prelude::*;

use crate::text::{push_str, str_equal};
use crate::trace_bridge::strings_view;

verus! {

/// The settings of a recording.
#[derive(Clone, Debug, PartialEq, Eq)]
pub struct CliArgs {
    /// Directory where trace files are written.
    pub output_dir: String,
    /// Program name, until a START event gives it.
    pub program: String,
    /// Program arguments.
    pub args: Vec<String>,
}

/// What the command line asks for.
#[derive(Clone, Debug, PartialEq, Eq)]
pub enum CliCommand {
    /// `--version`: print the version and exit.
    Version,
    /// `--help` or `-h`: print the usage and exit.
    Help,
    /// Record a trace with these settings.
    Run(CliArgs),
}

/// The mathematical form of [`CliArgs`].
pub struct CliArgsView {
    pub output_dir: Seq<char>,
    pub program: Seq<char>,
    pub args: Seq<Seq<char>>,
}

/// The mathematical form of [`CliCommand`].
pub enum CliCommandView {
    Version,
    Help,
    Run(CliArgsView),
}

impl View for CliCommand {
    type V = CliCommandView;

    open spec fn view(&self) -> CliCommandView {
        match self {
            CliCommand::Version => CliCommandView::Version,
            CliCommand::Help => CliCommandView::Help,
            CliCommand::Run(a) => CliCommandView::Run(
                CliArgsView {
                    output_dir: a.output_dir@,
                    program: a.program@,
                    args: strings_view(a.args@),
                },
            ),
        }
    }
}

/// The message for a `--format` option: the trace format is fixed.
pub open spec fn format_rejected() -> Seq<char> {
    "--format is not supported: the trace format is fixed; use `ct print` to convert a recorded trace"@
}

/// Whether one of the words (the program's own name included) is `word`.
pub open spec fn mentions(args: Seq<Seq<char>>, word: Seq<char>) -> bool {
    exists|i: int| 0 <= i < args.len() && args[i] == word
}

/// The settings gathered from the options before position `i`.
pub struct ScanState {
    pub output_dir: Option<Seq<char>>,
    pub program: Seq<char>,
}

/// The command once the options are read: `--out-dir` is required.
pub open spec fn scan_done(st: ScanState, extra: Seq<Seq<char>>) -> Result<CliCommandView, Seq<char>> {
    match st.output_dir {
        None => Err("--out-dir is required"@),
        Some(d) => Ok(CliCommandView::Run(CliArgsView { output_dir: d, program: st.program, args: extra })),
    }
}

/// The options from position `i` on.
pub open spec fn scan(args: Seq<Seq<char>>, i: int, st: ScanState) -> Result<CliCommandView, Seq<char>>
    decreases args.len() - i,
{
    if i < 0 || i >= args.len() {
        scan_done(st, Seq::empty())
    } else {
        let a = args[i];
        if a == "--out-dir"@ {
            if i + 1 >= args.len() {
                Err("--out-dir requires a value"@)
            } else {
                scan(args, i + 2, ScanState { output_dir: Some(args[i + 1]), ..st })
            }
        } else if a == "--format"@ || a == "-f"@ {
            Err(format_rejected())
        } else if a == "--program"@ {
            if i + 1 >= args.len() {
                Err("--program requires a value"@)
            } else {
                scan(args, i + 2, ScanState { program: args[i + 1], ..st })
            }
        } else if a == "--args"@ {
            // Consume all remaining args
            scan_done(st, args.skip(i + 1))
        } else {
            Err("unknown option: "@ + a)
        }
    }
}

/// What the command line `args` (the program's name first) asks for:
/// `--version` anywhere wins, then `--help` or `-h` anywhere; otherwise
/// the options are read in order, the first error ending the reading.
pub open spec fn spec_parse_cli_args(args: Seq<Seq<char>>) -> Result<CliCommandView, Seq<char>> {
    if mentions(args, "--version"@) {
        Ok(CliCommandView::Version)
    } else if mentions(args, "--help"@) || mentions(args, "-h"@) {
        Ok(CliCommandView::Help)
    } else {
        scan(args, 1, ScanState { output_dir: None, program: "unknown"@ })
    }
}

/// The mathematical form of the result of [`parse_cli_args`].
pub open spec fn cli_result_view(r: Result<CliCommand, String>) -> Result<CliCommandView, Seq<char>> {
    match r {
        Ok(c) => Ok(c@),
        Err(e) => Err(e@),
    }
}

fn any_is(args: &Vec<String>, word: &str) -> (r: bool)
    ensures
        r == mentions(strings_view(args@), word@),
{
    let ghost s = strings_view(args@);
    let mut i: usize = 0;
    while i < args.len()
        invariant
            i <= args@.len(),
            s == strings_view(args@),
            forall|j: int| 0 <= j < i ==> s[j] != word@,
        decreases args@.len() - i,
    {
        if str_equal(args[i].as_str(), word) {
            assert(s[i as int] == word@);
            return true;
        }
        i = i + 1;
    }
    false
}

fn copy_from(args: &Vec<String>, start: usize) -> (r: Vec<String>)
    requires
        start <= args@.len(),
    ensures
        strings_view(r@) == strings_view(args@).skip(start as int),
{
    let mut r: Vec<String> = Vec::new();
    let mut i = start;
    while i < args.len()
        invariant
            start <= i <= args@.len(),
            r@.len() == i - start,
            forall|k: int| 0 <= k < r@.len() ==> #[trigger] r@[k]@ == args@[k + start]@,
        decreases args@.len() - i,
    {
        r.push(args[i].clone());
        i = i + 1;
    }
    assert(strings_view(r@) =~= strings_view(args@).skip(start as int));
    r
}

fn text(s: &str) -> (r: String)
    ensures
        r@ == s@,
{
    s.to_owned()
}

/// Parse the command line (the program's name first).
pub fn parse_cli_args(args: &Vec<String>) -> (r: Result<CliCommand, String>)
    ensures
        cli_result_view(r) == spec_parse_cli_args(strings_view(args@)),
{
    let ghost s = strings_view(args@);
    if any_is(args, "--version") {
        return Ok(CliCommand::Version);
    }
    if any_is(args, "--help") || any_is(args, "-h") {
        return Ok(CliCommand::Help);
    }
    let mut output_dir: Option<String> = None;
    let mut program = text("unknown");
    let mut i: usize = 1;
    loop
        invariant
            s == strings_view(args@),
            1 <= i,
            spec_parse_cli_args(s) == scan(
                s,
                i as int,
                ScanState {
                    output_dir: match output_dir {
                        Some(d) => Some(d@),
                        None => None,
                    },
                    program: program@,
                },
            ),
        decreases args@.len() - i,
    {
        if i >= args.len() {
            let none: Vec<String> = Vec::new();
            assert(strings_view(none@) =~= Seq::empty());
            return match output_dir {
                None => Err(text("--out-dir is required")),
                Some(d) => Ok(CliCommand::Run(CliArgs { output_dir: d, program, args: none })),
            };
        }
        let a = args[i].as_str();
        if str_equal(a, "--out-dir") {
            if i + 1 >= args.len() {
                return Err(text("--out-dir requires a value"));
            }
            output_dir = Some(args[i + 1].clone());
            i = i + 2;
        } else if str_equal(a, "--format") || str_equal(a, "-f") {
            return Err(
                text(
                    "--format is not supported: the trace format is fixed; use `ct print` to convert a recorded trace",
                ),
            );
        } else if str_equal(a, "--program") {
            if i + 1 >= args.len() {
                return Err(text("--program requires a value"));
            }
            program = args[i + 1].clone();
            i = i + 2;
        } else if str_equal(a, "--args") {
            // Consume all remaining args
            let extra = copy_from(args, i + 1);
            return match output_dir {
                None => Err(text("--out-dir is required")),
                Some(d) => Ok(CliCommand::Run(CliArgs { output_dir: d, program, args: extra })),
            };
        } else {
            let mut message = text("unknown option: ");
            push_str(&mut message, a);
            return Err(message);
        }
    }
}

} // verus!

verus! {

/// The words of a list of options, each given as its name and value.
pub open spec fn option_words(opts: Seq<(Seq<char>, Seq<char>)>) -> Seq<Seq<char>>
    decreases opts.len(),
{
    if opts.len() == 0 {
        Seq::empty()
    } else {
        option_words(opts.drop_last()) + seq![opts.last().0, opts.last().1]
    }
}

/// The value of the last option named `flag`, if any.
pub open spec fn last_option(opts: Seq<(Seq<char>, Seq<char>)>, flag: Seq<char>) -> Option<Seq<char>>
    decreases opts.len(),
{
    if opts.len() == 0 {
        None
    } else if opts.last().0 == flag {
        Some(opts.last().1)
    } else {
        last_option(opts.drop_last(), flag)
    }
}

/// Whether `o` names a setting: `--out-dir` or `--program`.
pub open spec fn is_setting(o: Seq<char>) -> bool {
    o == "--out-dir"@ || o == "--program"@
}

proof fn lemma_option_words(opts: Seq<(Seq<char>, Seq<char>)>)
    ensures
        option_words(opts).len() == 2 * opts.len(),
        forall|j: int|
            0 <= j < opts.len() ==> option_words(opts)[2 * j] == (#[trigger] opts[j]).0
                && option_words(opts)[2 * j + 1] == opts[j].1,
    decreases opts.len(),
{
    if opts.len() > 0 {
        let prefix = opts.drop_last();
        lemma_option_words(prefix);
        assert forall|j: int| 0 <= j < opts.len() implies option_words(opts)[2 * j] == (
        #[trigger] opts[j]).0 && option_words(opts)[2 * j + 1] == opts[j].1 by {
            if j < prefix.len() {
                assert(prefix[j] == opts[j]);
            }
        }
    }
}

/// The settings read from the first `k` options.
pub open spec fn settings_after(opts: Seq<(Seq<char>, Seq<char>)>, k: int) -> ScanState {
    ScanState {
        output_dir: last_option(opts.take(k), "--out-dir"@),
        program: match last_option(opts.take(k), "--program"@) {
            Some(v) => v,
            None => "unknown"@,
        },
    }
}

proof fn lemma_words_differ()
    ensures
        "--out-dir"@ != "--program"@,
        "--out-dir"@ != "--format"@,
        "--out-dir"@ != "-f"@,
        "--out-dir"@ != "--args"@,
        "--program"@ != "--format"@,
        "--program"@ != "-f"@,
        "--program"@ != "--args"@,
        "--args"@ != "--format"@,
        "--args"@ != "-f"@,
{
    reveal_strlit("--out-dir");
    reveal_strlit("--program");
    reveal_strlit("--format");
    reveal_strlit("-f");
    reveal_strlit("--args");
    assert("--out-dir"@[2] != "--program"@[2]);
    assert("-f"@.len() == 2);
    assert("--out-dir"@.len() == 9);
    assert("--program"@.len() == 9);
    assert("--format"@.len() == 8);
    assert("--args"@.len() == 6);
}

proof fn lemma_scan_settings(
    args: Seq<Seq<char>>,
    opts: Seq<(Seq<char>, Seq<char>)>,
    k: int,
)
    requires
        0 <= k <= opts.len(),
        forall|j: int| 0 <= j < opts.len() ==> is_setting(#[trigger] opts[j].0),
        args.len() >= 1 + 2 * opts.len(),
        forall|j: int|
            0 <= j < opts.len() ==> args[1 + 2 * j] == (#[trigger] opts[j]).0 && args[2 + 2 * j]
                == opts[j].1,
    ensures
        scan(args, 1 + 2 * k, settings_after(opts, k)) == scan(
            args,
            1 + 2 * (opts.len() as int),
            settings_after(opts, opts.len() as int),
        ),
    decreases opts.len() - k,
{
    if k < opts.len() {
        lemma_scan_settings(args, opts, k + 1);
        lemma_words_differ();
        let next = opts.take(k + 1);
        assert(next.drop_last() =~= opts.take(k));
        assert(next.last() == opts[k]);
        assert(is_setting(opts[k].0));
        assert(args[1 + 2 * k] == opts[k].0);
        assert(1 + 2 * k + 2 == 1 + 2 * (k + 1));
    }
}

/// Options are read independently of their order: the output directory
/// is the value of the last `--out-dir` and the program that of the last
/// `--program` (`unknown` without one), whichever options come between;
/// the words after `--args` are the script's arguments; and without any
/// `--out-dir` the command line is refused.
pub proof fn law_cli_settings(
    name: Seq<char>,
    opts: Seq<(Seq<char>, Seq<char>)>,
    tail: Seq<Seq<char>>,
)
    requires
        forall|j: int| 0 <= j < opts.len() ==> is_setting(#[trigger] opts[j].0),
        tail.len() == 0 || tail[0] == "--args"@,
        !mentions(seq![name] + option_words(opts) + tail, "--version"@),
        !mentions(seq![name] + option_words(opts) + tail, "--help"@),
        !mentions(seq![name] + option_words(opts) + tail, "-h"@),
    ensures
        spec_parse_cli_args(seq![name] + option_words(opts) + tail) == match last_option(
            opts,
            "--out-dir"@,
        ) {
            None => Err("--out-dir is required"@),
            Some(d) => Ok(
                CliCommandView::Run(
                    CliArgsView {
                        output_dir: d,
                        program: match last_option(opts, "--program"@) {
                            Some(v) => v,
                            None => "unknown"@,
                        },
                        args: if tail.len() == 0 {
                            Seq::empty()
                        } else {
                            tail.skip(1)
                        },
                    },
                ),
            ),
        },
{
    let words = option_words(opts);
    let args = seq![name] + words + tail;
    let n = opts.len() as int;
    lemma_option_words(opts);
    assert forall|j: int| 0 <= j < opts.len() implies args[1 + 2 * j] == (#[trigger] opts[j]).0
        && args[2 + 2 * j] == opts[j].1 by {
        assert(args[1 + 2 * j] == words[2 * j]);
        assert(args[2 + 2 * j] == words[2 * j + 1]);
    }
    lemma_scan_settings(args, opts, 0);
    assert(opts.take(0) =~= Seq::<(Seq<char>, Seq<char>)>::empty());
    assert(opts.take(n) =~= opts);
    lemma_words_differ();
    if tail.len() > 0 {
        assert(args[1 + 2 * n] == tail[0]);
        assert(args.skip(1 + 2 * n + 1) =~= tail.skip(1));
    }
}

} // verus!
