//! The line-oriented wire protocol between the shell recorders and the
//! trace writer.
//!
//! Each line is one event: a keyword, then `key=value` fields separated
//! by spaces.  A value is either bare (it runs to the next space) or
//! quoted with `"`; inside quotes a backslash takes the next character
//! literally, so `\"` stands for `"` and `\\` for `\`.
//!
//! ```text
//! START program=/tmp/s.sh shell=bash shell_version=5.2.0
//! VAR name=greeting value="hello world" type=s
//! ```
use vstd::prelude::*;

verus! {

/// One event of the wire protocol.
#[derive(Clone, Debug, PartialEq, Eq)]
pub enum WireEvent {
    /// `START program= shell= shell_version=`: the recording begins.
    Start { program: String, shell: String, shell_version: String },
    /// `PATH file=`: a source file of the recording.
    Path { file: String },
    /// `FUNC name= file= line=`: a shell function definition.
    Func { name: String, file: String, line: i64 },
    /// `STEP file= line=`: a simple command is about to run.
    Step { file: String, line: i64 },
    /// `CALL name=`: a shell function is entered.
    Call { name: String },
    /// `ARG name= value= type=`: one positional parameter of the next call.
    Arg { name: String, value: String, type_flag: String },
    /// `VAR name= value= type=`: a variable's current value.
    Var { name: String, value: String, type_flag: String },
    /// `WRITE content=`: output of the script.
    Write { content: String },
    /// `ERROR cmd= status=`: a command exited with a non-zero status.
    Error { cmd: String, status: i64 },
    /// `RETURN status=`: a shell function returns.
    Return { status: i64 },
    /// `EXIT code=`: the script exits.
    Exit { code: i64 },
}

/// The mathematical form of [`WireEvent`].
pub enum EventView {
    Start { program: Seq<char>, shell: Seq<char>, shell_version: Seq<char> },
    Path { file: Seq<char> },
    Func { name: Seq<char>, file: Seq<char>, line: i64 },
    Step { file: Seq<char>, line: i64 },
    Call { name: Seq<char> },
    Arg { name: Seq<char>, value: Seq<char>, type_flag: Seq<char> },
    Var { name: Seq<char>, value: Seq<char>, type_flag: Seq<char> },
    Write { content: Seq<char> },
    Error { cmd: Seq<char>, status: i64 },
    Return { status: i64 },
    Exit { code: i64 },
}

impl View for WireEvent {
    type V = EventView;

    open spec fn view(&self) -> EventView {
        match self {
            WireEvent::Start { program, shell, shell_version } => EventView::Start {
                program: program@,
                shell: shell@,
                shell_version: shell_version@,
            },
            WireEvent::Path { file } => EventView::Path { file: file@ },
            WireEvent::Func { name, file, line } => EventView::Func {
                name: name@,
                file: file@,
                line: *line,
            },
            WireEvent::Step { file, line } => EventView::Step { file: file@, line: *line },
            WireEvent::Call { name } => EventView::Call { name: name@ },
            WireEvent::Arg { name, value, type_flag } => EventView::Arg {
                name: name@,
                value: value@,
                type_flag: type_flag@,
            },
            WireEvent::Var { name, value, type_flag } => EventView::Var {
                name: name@,
                value: value@,
                type_flag: type_flag@,
            },
            WireEvent::Write { content } => EventView::Write { content: content@ },
            WireEvent::Error { cmd, status } => EventView::Error { cmd: cmd@, status: *status },
            WireEvent::Return { status } => EventView::Return { status: *status },
            WireEvent::Exit { code } => EventView::Exit { code: *code },
        }
    }
}

} // verus!

verus! {

// ---------------------------------------------------------------------
// Errors
// ---------------------------------------------------------------------

/// Why a line is not an event.
#[derive(Clone, Debug, PartialEq, Eq)]
pub enum ParseError {
    /// The line holds nothing but spaces.
    Empty,
    /// The keyword names no event.
    UnknownEvent { keyword: String },
    /// A field is not of the form `key=value`, or text follows a quoted
    /// value without a space.
    MalformedField,
    /// A quoted value has no closing quote.
    UnterminatedQuote,
    /// The event lacks a field it needs.
    MissingField { field: String },
    /// A field that holds an integer does not.
    InvalidInteger { field: String, text: String },
}

/// The mathematical form of [`ParseError`].
pub enum ParseErrorView {
    Empty,
    UnknownEvent { keyword: Seq<char> },
    MalformedField,
    UnterminatedQuote,
    MissingField { field: Seq<char> },
    InvalidInteger { field: Seq<char>, text: Seq<char> },
}

impl View for ParseError {
    type V = ParseErrorView;

    open spec fn view(&self) -> ParseErrorView {
        match self {
            ParseError::Empty => ParseErrorView::Empty,
            ParseError::UnknownEvent { keyword } => ParseErrorView::UnknownEvent {
                keyword: keyword@,
            },
            ParseError::MalformedField => ParseErrorView::MalformedField,
            ParseError::UnterminatedQuote => ParseErrorView::UnterminatedQuote,
            ParseError::MissingField { field } => ParseErrorView::MissingField { field: field@ },
            ParseError::InvalidInteger { field, text } => ParseErrorView::InvalidInteger {
                field: field@,
                text: text@,
            },
        }
    }
}

// ---------------------------------------------------------------------
// The grammar
// ---------------------------------------------------------------------

/// Fields are separated by spaces and tabs.
pub open spec fn is_space(c: char) -> bool {
    c == ' ' || c == '\t'
}

/// The first position at or after `i` that is not a space.
pub open spec fn skip_spaces(l: Seq<char>, i: int) -> int
    decreases l.len() - i,
{
    if 0 <= i < l.len() && is_space(l[i]) {
        skip_spaces(l, i + 1)
    } else {
        i
    }
}

/// The first position at or after `i` that is a space (or the end).
pub open spec fn token_end(l: Seq<char>, i: int) -> int
    decreases l.len() - i,
{
    if 0 <= i < l.len() && !is_space(l[i]) {
        token_end(l, i + 1)
    } else {
        i
    }
}

/// The first position at or after `i` that is a space or `=` (or the end).
pub open spec fn key_end(l: Seq<char>, i: int) -> int
    decreases l.len() - i,
{
    if 0 <= i < l.len() && !is_space(l[i]) && l[i] != '=' {
        key_end(l, i + 1)
    } else {
        i
    }
}

/// The rest of a quoted value starting at `i` (after the opening quote):
/// its text, with each backslash taking the next character literally,
/// and the position after the closing quote; none when there is no
/// closing quote.
pub open spec fn quoted(l: Seq<char>, i: int) -> Option<(Seq<char>, int)>
    decreases l.len() - i,
{
    if i < 0 || i >= l.len() {
        None
    } else if l[i] == '"' {
        Some((Seq::empty(), i + 1))
    } else if l[i] == '\\' {
        if i + 1 < l.len() {
            match quoted(l, i + 2) {
                Some((v, n)) => Some((seq![l[i + 1]] + v, n)),
                None => None,
            }
        } else {
            None
        }
    } else {
        match quoted(l, i + 1) {
            Some((v, n)) => Some((seq![l[i]] + v, n)),
            None => None,
        }
    }
}

pub proof fn lemma_positions(l: Seq<char>, i: int)
    requires
        0 <= i <= l.len(),
    ensures
        i <= skip_spaces(l, i) <= l.len(),
        i <= token_end(l, i) <= l.len(),
        i <= key_end(l, i) <= l.len(),
        quoted(l, i) matches Some((v, n)) ==> i < n <= l.len(),
    decreases l.len() - i,
{
    if i < l.len() {
        lemma_positions(l, i + 1);
        if i + 2 <= l.len() {
            lemma_positions(l, i + 2);
        }
    }
}

/// A field: its key and its value.
pub type FieldView = (Seq<char>, Seq<char>);

/// Put `f` in front of the fields of `r`, if any.
pub open spec fn prepend_field(
    f: FieldView,
    r: Result<Seq<FieldView>, ParseErrorView>,
) -> Result<Seq<FieldView>, ParseErrorView> {
    match r {
        Ok(rest) => Ok(seq![f] + rest),
        Err(e) => Err(e),
    }
}

/// The fields of `l` from position `i` on.
pub open spec fn fields_from(l: Seq<char>, i: int) -> Result<Seq<FieldView>, ParseErrorView>
    decreases l.len() - i,
{
    if i < 0 || i > l.len() {
        Ok(Seq::empty())
    } else {
        let j = skip_spaces(l, i);
        if j >= l.len() {
            Ok(Seq::empty())
        } else {
            let k = key_end(l, j);
            proof {
                lemma_positions(l, i);
                lemma_positions(l, j);
            }
            if k >= l.len() || l[k] != '=' || k == j {
                Err(ParseErrorView::MalformedField)
            } else {
                let v = k + 1;
                proof {
                    lemma_positions(l, v);
                }
                if v < l.len() && l[v] == '"' {
                    proof {
                        lemma_positions(l, v + 1);
                    }
                    match quoted(l, v + 1) {
                        None => Err(ParseErrorView::UnterminatedQuote),
                        Some((value, n)) => if n < l.len() && !is_space(l[n]) {
                            Err(ParseErrorView::MalformedField)
                        } else {
                            prepend_field((l.subrange(j, k), value), fields_from(l, n))
                        },
                    }
                } else {
                    let e = token_end(l, v);
                    prepend_field((l.subrange(j, k), l.subrange(v, e)), fields_from(l, e))
                }
            }
        }
    }
}

/// The value of the first field named `key`.
pub open spec fn lookup(fields: Seq<FieldView>, key: Seq<char>) -> Option<Seq<char>>
    decreases fields.len(),
{
    if fields.len() == 0 {
        None
    } else if fields[0].0 == key {
        Some(fields[0].1)
    } else {
        lookup(fields.drop_first(), key)
    }
}

/// The text of the field named `key`, which the event needs.
pub open spec fn need_text(fields: Seq<FieldView>, key: Seq<char>) -> Result<Seq<char>, ParseErrorView> {
    match lookup(fields, key) {
        Some(v) => Ok(v),
        None => Err(ParseErrorView::MissingField { field: key }),
    }
}

/// The integer of the field named `key`, which the event needs.
pub open spec fn need_int(fields: Seq<FieldView>, key: Seq<char>) -> Result<i64, ParseErrorView> {
    match lookup(fields, key) {
        Some(v) => match crate::text::spec_parse_i64(v) {
            Some(i) => Ok(i),
            None => Err(ParseErrorView::InvalidInteger { field: key, text: v }),
        },
        None => Err(ParseErrorView::MissingField { field: key }),
    }
}

} // verus!

verus! {

/// The event that keyword `kw` and `fields` stand for.
pub open spec fn event_from(kw: Seq<char>, fs: Seq<FieldView>) -> Result<EventView, ParseErrorView> {
    if kw == "START"@ {
        match (need_text(fs, "program"@), need_text(fs, "shell"@), need_text(fs, "shell_version"@)) {
            (Ok(program), Ok(shell), Ok(shell_version)) => Ok(
                EventView::Start { program, shell, shell_version },
            ),
            (Err(e), _, _) => Err(e),
            (_, Err(e), _) => Err(e),
            (_, _, Err(e)) => Err(e),
        }
    } else if kw == "PATH"@ {
        match need_text(fs, "file"@) {
            Ok(file) => Ok(EventView::Path { file }),
            Err(e) => Err(e),
        }
    } else if kw == "FUNC"@ {
        match (need_text(fs, "name"@), need_text(fs, "file"@), need_int(fs, "line"@)) {
            (Ok(name), Ok(file), Ok(line)) => Ok(EventView::Func { name, file, line }),
            (Err(e), _, _) => Err(e),
            (_, Err(e), _) => Err(e),
            (_, _, Err(e)) => Err(e),
        }
    } else if kw == "STEP"@ {
        match (need_text(fs, "file"@), need_int(fs, "line"@)) {
            (Ok(file), Ok(line)) => Ok(EventView::Step { file, line }),
            (Err(e), _) => Err(e),
            (_, Err(e)) => Err(e),
        }
    } else if kw == "CALL"@ {
        match need_text(fs, "name"@) {
            Ok(name) => Ok(EventView::Call { name }),
            Err(e) => Err(e),
        }
    } else if kw == "ARG"@ {
        match (need_text(fs, "name"@), need_text(fs, "value"@), need_text(fs, "type"@)) {
            (Ok(name), Ok(value), Ok(type_flag)) => Ok(EventView::Arg { name, value, type_flag }),
            (Err(e), _, _) => Err(e),
            (_, Err(e), _) => Err(e),
            (_, _, Err(e)) => Err(e),
        }
    } else if kw == "VAR"@ {
        match (need_text(fs, "name"@), need_text(fs, "value"@), need_text(fs, "type"@)) {
            (Ok(name), Ok(value), Ok(type_flag)) => Ok(EventView::Var { name, value, type_flag }),
            (Err(e), _, _) => Err(e),
            (_, Err(e), _) => Err(e),
            (_, _, Err(e)) => Err(e),
        }
    } else if kw == "WRITE"@ {
        match need_text(fs, "content"@) {
            Ok(content) => Ok(EventView::Write { content }),
            Err(e) => Err(e),
        }
    } else if kw == "ERROR"@ {
        match (need_text(fs, "cmd"@), need_int(fs, "status"@)) {
            (Ok(cmd), Ok(status)) => Ok(EventView::Error { cmd, status }),
            (Err(e), _) => Err(e),
            (_, Err(e)) => Err(e),
        }
    } else if kw == "RETURN"@ {
        match need_int(fs, "status"@) {
            Ok(status) => Ok(EventView::Return { status }),
            Err(e) => Err(e),
        }
    } else if kw == "EXIT"@ {
        match need_int(fs, "code"@) {
            Ok(code) => Ok(EventView::Exit { code }),
            Err(e) => Err(e),
        }
    } else {
        Err(ParseErrorView::UnknownEvent { keyword: kw })
    }
}

/// The event that a line of the wire protocol stands for: its first
/// word is the keyword, the rest are its fields.  Unknown field names
/// are ignored; where a field name repeats, the first one counts.
pub open spec fn spec_parse_line(l: Seq<char>) -> Result<EventView, ParseErrorView> {
    let j = skip_spaces(l, 0);
    if j >= l.len() {
        Err(ParseErrorView::Empty)
    } else {
        let ke = token_end(l, j);
        match fields_from(l, ke) {
            Err(e) => Err(e),
            Ok(fs) => event_from(l.subrange(j, ke), fs),
        }
    }
}

/// The mathematical form of a parse result.
pub open spec fn parse_result_view(r: Result<WireEvent, ParseError>) -> Result<EventView, ParseErrorView> {
    match r {
        Ok(e) => Ok(e@),
        Err(e) => Err(e@),
    }
}

// ---------------------------------------------------------------------
// The parser
// ---------------------------------------------------------------------

struct Field {
    key: Vec<char>,
    value: Vec<char>,
}

spec fn fields_view(fs: Seq<Field>) -> Seq<FieldView> {
    fs.map_values(|f: Field| (f.key@, f.value@))
}

fn skip_spaces_at(l: &Vec<char>, i: usize) -> (j: usize)
    requires
        i <= l@.len(),
    ensures
        j == skip_spaces(l@, i as int),
{
    let mut j = i;
    while j < l.len() && (l[j] == ' ' || l[j] == '\t')
        invariant
            i <= j <= l@.len(),
            skip_spaces(l@, i as int) == skip_spaces(l@, j as int),
        decreases l@.len() - j,
    {
        j = j + 1;
    }
    j
}

fn token_end_at(l: &Vec<char>, i: usize) -> (j: usize)
    requires
        i <= l@.len(),
    ensures
        j == token_end(l@, i as int),
{
    let mut j = i;
    while j < l.len() && !(l[j] == ' ' || l[j] == '\t')
        invariant
            i <= j <= l@.len(),
            token_end(l@, i as int) == token_end(l@, j as int),
        decreases l@.len() - j,
    {
        j = j + 1;
    }
    j
}

fn key_end_at(l: &Vec<char>, i: usize) -> (j: usize)
    requires
        i <= l@.len(),
    ensures
        j == key_end(l@, i as int),
{
    let mut j = i;
    while j < l.len() && !(l[j] == ' ' || l[j] == '\t') && l[j] != '='
        invariant
            i <= j <= l@.len(),
            key_end(l@, i as int) == key_end(l@, j as int),
        decreases l@.len() - j,
    {
        j = j + 1;
    }
    j
}

spec fn prepend_quoted(a: Seq<char>, r: Option<(Seq<char>, int)>) -> Option<(Seq<char>, int)> {
    match r {
        Some((v, n)) => Some((a + v, n)),
        None => None,
    }
}

fn quoted_at(l: &Vec<char>, i: usize) -> (r: Option<(Vec<char>, usize)>)
    requires
        i <= l@.len(),
    ensures
        match quoted(l@, i as int) {
            None => r is None,
            Some((v, n)) => r matches Some((rv, rn)) && rv@ == v && rn == n,
        },
{
    let mut acc: Vec<char> = Vec::new();
    let mut p = i;
    assert(prepend_quoted(acc@, quoted(l@, p as int)) =~= quoted(l@, i as int)) by {
        match quoted(l@, i as int) {
            Some((v, n)) => {
                assert(acc@ + v =~= v);
            },
            None => {},
        }
    }
    loop
        invariant
            i <= p <= l@.len(),
            quoted(l@, i as int) == prepend_quoted(acc@, quoted(l@, p as int)),
        decreases l@.len() - p,
    {
        if p >= l.len() {
            return None;
        }
        let c = l[p];
        if c == '"' {
            assert(acc@ + Seq::<char>::empty() =~= acc@);
            return Some((acc, p + 1));
        } else if c == '\\' {
            if p + 1 < l.len() {
                let ghost old_acc = acc@;
                acc.push(l[p + 1]);
                proof {
                    match quoted(l@, p + 2) {
                        Some((v, n)) => {
                            assert(old_acc + (seq![l@[p + 1]] + v) =~= acc@ + v);
                        },
                        None => {},
                    }
                }
                p = p + 2;
            } else {
                return None;
            }
        } else {
            let ghost old_acc = acc@;
            acc.push(c);
            proof {
                match quoted(l@, p + 1) {
                    Some((v, n)) => {
                        assert(old_acc + (seq![c] + v) =~= acc@ + v);
                    },
                    None => {},
                }
            }
            p = p + 1;
        }
    }
}

fn copy_range(l: &Vec<char>, start: usize, end: usize) -> (r: Vec<char>)
    requires
        start <= end <= l@.len(),
    ensures
        r@ == l@.subrange(start as int, end as int),
{
    let mut r: Vec<char> = Vec::new();
    let mut i = start;
    while i < end
        invariant
            start <= i <= end <= l@.len(),
            r@ == l@.subrange(start as int, i as int),
        decreases end - i,
    {
        r.push(l[i]);
        i = i + 1;
        assert(r@ =~= l@.subrange(start as int, i as int));
    }
    r
}

spec fn prepend_fields(
    a: Seq<FieldView>,
    r: Result<Seq<FieldView>, ParseErrorView>,
) -> Result<Seq<FieldView>, ParseErrorView> {
    match r {
        Ok(rest) => Ok(a + rest),
        Err(e) => Err(e),
    }
}

fn fields_at(l: &Vec<char>, i: usize) -> (r: Result<Vec<Field>, ParseError>)
    requires
        i <= l@.len(),
    ensures
        match fields_from(l@, i as int) {
            Ok(fs) => r matches Ok(rfs) && fields_view(rfs@) == fs,
            Err(e) => r matches Err(re) && re@ == e,
        },
{
    let mut acc: Vec<Field> = Vec::new();
    let mut p = i;
    assert(prepend_fields(fields_view(acc@), fields_from(l@, p as int)) =~= fields_from(
        l@,
        i as int,
    )) by {
        match fields_from(l@, i as int) {
            Ok(fs) => {
                assert(fields_view(acc@) + fs =~= fs);
            },
            Err(e) => {},
        }
    }
    loop
        invariant
            i <= p <= l@.len(),
            fields_from(l@, i as int) == prepend_fields(fields_view(acc@), fields_from(l@, p as int)),
        decreases l@.len() - p,
    {
        proof {
            lemma_positions(l@, p as int);
        }
        let j = skip_spaces_at(l, p);
        if j >= l.len() {
            assert(fields_view(acc@) + Seq::<FieldView>::empty() =~= fields_view(acc@));
            return Ok(acc);
        }
        proof {
            lemma_positions(l@, j as int);
        }
        let k = key_end_at(l, j);
        if k >= l.len() || l[k] != '=' || k == j {
            return Err(ParseError::MalformedField);
        }
        let v = k + 1;
        proof {
            lemma_positions(l@, v as int);
        }
        let next;
        let value;
        if v < l.len() && l[v] == '"' {
            proof {
                lemma_positions(l@, v + 1);
            }
            match quoted_at(l, v + 1) {
                None => {
                    return Err(ParseError::UnterminatedQuote);
                },
                Some((qv, n)) => {
                    if n < l.len() && !(l[n] == ' ' || l[n] == '\t') {
                        return Err(ParseError::MalformedField);
                    }
                    next = n;
                    value = qv;
                },
            }
        } else {
            let e = token_end_at(l, v);
            value = copy_range(l, v, e);
            next = e;
        }
        let key = copy_range(l, j, k);
        let ghost old_acc = fields_view(acc@);
        let ghost f = (key@, value@);
        acc.push(Field { key, value });
        proof {
            assert(fields_view(acc@) =~= old_acc.push(f));
            match fields_from(l@, next as int) {
                Ok(rest) => {
                    assert(old_acc + (seq![f] + rest) =~= old_acc.push(f) + rest);
                },
                Err(e) => {},
            }
        }
        p = next;
    }
}

} // verus!

verus! {

fn find_field(fs: &Vec<Field>, key: &str) -> (r: Option<usize>)
    ensures
        match lookup(fields_view(fs@), key@) {
            None => r is None,
            Some(v) => r matches Some(i) && i < fs@.len() && fs@[i as int].value@ == v,
        },
{
    let k = crate::text::chars_of(key);
    let ghost all = fields_view(fs@);
    let mut i: usize = 0;
    assert(all.skip(0) =~= all);
    while i < fs.len()
        invariant
            i <= fs@.len(),
            all == fields_view(fs@),
            k@ == key@,
            lookup(all, key@) == lookup(all.skip(i as int), key@),
        decreases fs@.len() - i,
    {
        if crate::text::chars_equal(&fs[i].key, &k) {
            assert(all.skip(i as int)[0] == all[i as int]);
            return Some(i);
        }
        assert(all.skip(i as int).drop_first() =~= all.skip(i + 1));
        i = i + 1;
    }
    None
}

fn text_field(fs: &Vec<Field>, key: &str) -> (r: Result<String, ParseError>)
    ensures
        match need_text(fields_view(fs@), key@) {
            Ok(v) => r matches Ok(s) && s@ == v,
            Err(e) => r matches Err(re) && re@ == e,
        },
{
    match find_field(fs, key) {
        Some(i) => Ok(crate::text::string_of(&fs[i].value)),
        None => Err(ParseError::MissingField { field: key.to_owned() }),
    }
}

fn int_field(fs: &Vec<Field>, key: &str) -> (r: Result<i64, ParseError>)
    ensures
        match need_int(fields_view(fs@), key@) {
            Ok(v) => r matches Ok(x) && x == v,
            Err(e) => r matches Err(re) && re@ == e,
        },
{
    match find_field(fs, key) {
        Some(i) => {
            let value = &fs[i].value;
            assert(value@.subrange(0, value@.len() as int) =~= value@);
            match crate::text::parse_i64_range(value, 0, value.len()) {
                Some(x) => Ok(x),
                None => Err(
                    ParseError::InvalidInteger {
                        field: key.to_owned(),
                        text: crate::text::string_of(value),
                    },
                ),
            }
        },
        None => Err(ParseError::MissingField { field: key.to_owned() }),
    }
}

fn keyword_is(kw: &Vec<char>, name: &str) -> (r: bool)
    ensures
        r == (kw@ == name@),
{
    let n = crate::text::chars_of(name);
    crate::text::chars_equal(kw, &n)
}

fn event_of(kw: &Vec<char>, fs: &Vec<Field>) -> (r: Result<WireEvent, ParseError>)
    ensures
        parse_result_view(r) == event_from(kw@, fields_view(fs@)),
{
    if keyword_is(kw, "START") {
        let program = text_field(fs, "program");
        let shell = text_field(fs, "shell");
        let shell_version = text_field(fs, "shell_version");
        match (program, shell, shell_version) {
            (Ok(program), Ok(shell), Ok(shell_version)) => Ok(
                WireEvent::Start { program, shell, shell_version },
            ),
            (Err(e), _, _) => Err(e),
            (_, Err(e), _) => Err(e),
            (_, _, Err(e)) => Err(e),
        }
    } else if keyword_is(kw, "PATH") {
        match text_field(fs, "file") {
            Ok(file) => Ok(WireEvent::Path { file }),
            Err(e) => Err(e),
        }
    } else if keyword_is(kw, "FUNC") {
        let name = text_field(fs, "name");
        let file = text_field(fs, "file");
        let line = int_field(fs, "line");
        match (name, file, line) {
            (Ok(name), Ok(file), Ok(line)) => Ok(WireEvent::Func { name, file, line }),
            (Err(e), _, _) => Err(e),
            (_, Err(e), _) => Err(e),
            (_, _, Err(e)) => Err(e),
        }
    } else if keyword_is(kw, "STEP") {
        let file = text_field(fs, "file");
        let line = int_field(fs, "line");
        match (file, line) {
            (Ok(file), Ok(line)) => Ok(WireEvent::Step { file, line }),
            (Err(e), _) => Err(e),
            (_, Err(e)) => Err(e),
        }
    } else if keyword_is(kw, "CALL") {
        match text_field(fs, "name") {
            Ok(name) => Ok(WireEvent::Call { name }),
            Err(e) => Err(e),
        }
    } else if keyword_is(kw, "ARG") {
        let name = text_field(fs, "name");
        let value = text_field(fs, "value");
        let type_flag = text_field(fs, "type");
        match (name, value, type_flag) {
            (Ok(name), Ok(value), Ok(type_flag)) => Ok(WireEvent::Arg { name, value, type_flag }),
            (Err(e), _, _) => Err(e),
            (_, Err(e), _) => Err(e),
            (_, _, Err(e)) => Err(e),
        }
    } else if keyword_is(kw, "VAR") {
        let name = text_field(fs, "name");
        let value = text_field(fs, "value");
        let type_flag = text_field(fs, "type");
        match (name, value, type_flag) {
            (Ok(name), Ok(value), Ok(type_flag)) => Ok(WireEvent::Var { name, value, type_flag }),
            (Err(e), _, _) => Err(e),
            (_, Err(e), _) => Err(e),
            (_, _, Err(e)) => Err(e),
        }
    } else if keyword_is(kw, "WRITE") {
        match text_field(fs, "content") {
            Ok(content) => Ok(WireEvent::Write { content }),
            Err(e) => Err(e),
        }
    } else if keyword_is(kw, "ERROR") {
        let cmd = text_field(fs, "cmd");
        let status = int_field(fs, "status");
        match (cmd, status) {
            (Ok(cmd), Ok(status)) => Ok(WireEvent::Error { cmd, status }),
            (Err(e), _) => Err(e),
            (_, Err(e)) => Err(e),
        }
    } else if keyword_is(kw, "RETURN") {
        match int_field(fs, "status") {
            Ok(status) => Ok(WireEvent::Return { status }),
            Err(e) => Err(e),
        }
    } else if keyword_is(kw, "EXIT") {
        match int_field(fs, "code") {
            Ok(code) => Ok(WireEvent::Exit { code }),
            Err(e) => Err(e),
        }
    } else {
        Err(ParseError::UnknownEvent { keyword: crate::text::string_of(kw) })
    }
}

/// Parse one line of the wire protocol into an event.
pub fn parse_line(line: &str) -> (r: Result<WireEvent, ParseError>)
    ensures
        parse_result_view(r) == spec_parse_line(line@),
{
    let l = crate::text::chars_of(line);
    let j = skip_spaces_at(&l, 0);
    if j >= l.len() {
        return Err(ParseError::Empty);
    }
    proof {
        lemma_positions(l@, j as int);
    }
    let ke = token_end_at(&l, j);
    let kw = copy_range(&l, j, ke);
    match fields_at(&l, ke) {
        Err(e) => Err(e),
        Ok(fs) => event_of(&kw, &fs),
    }
}

} // verus!

verus! {

/// The human-readable text of a parse error.
pub open spec fn spec_error_message(e: ParseErrorView) -> Seq<char> {
    match e {
        ParseErrorView::Empty => "empty line"@,
        ParseErrorView::UnknownEvent { keyword } => "unknown event type: "@ + keyword,
        ParseErrorView::MalformedField => "malformed field (expected key=value)"@,
        ParseErrorView::UnterminatedQuote => "unterminated quoted value"@,
        ParseErrorView::MissingField { field } => "missing field: "@ + field,
        ParseErrorView::InvalidInteger { field, text } => "invalid integer for "@ + field + ": "@
            + text,
    }
}

impl ParseError {
    /// The human-readable text of this error.
    pub fn message(&self) -> (m: String)
        ensures
            m@ == spec_error_message(self@),
    {
        let mut m = String::new();
        match self {
            ParseError::Empty => {
                crate::text::push_str(&mut m, "empty line");
            },
            ParseError::UnknownEvent { keyword } => {
                crate::text::push_str(&mut m, "unknown event type: ");
                crate::text::push_str(&mut m, keyword.as_str());
            },
            ParseError::MalformedField => {
                crate::text::push_str(&mut m, "malformed field (expected key=value)");
            },
            ParseError::UnterminatedQuote => {
                crate::text::push_str(&mut m, "unterminated quoted value");
            },
            ParseError::MissingField { field } => {
                crate::text::push_str(&mut m, "missing field: ");
                crate::text::push_str(&mut m, field.as_str());
            },
            ParseError::InvalidInteger { field, text } => {
                crate::text::push_str(&mut m, "invalid integer for ");
                crate::text::push_str(&mut m, field.as_str());
                crate::text::push_str(&mut m, ": ");
                crate::text::push_str(&mut m, text.as_str());
            },
        }
        assert(m@ =~= spec_error_message(self@));
        m
    }
}

} // verus!

verus! {

/// Whether `c` is white space (`char::is_whitespace`: the Unicode
/// `White_Space` property).
pub open spec fn is_whitespace(c: char) -> bool {
    ||| ('\u{9}' <= c && c <= '\u{d}')
    ||| c == ' '
    ||| c == '\u{85}'
    ||| c == '\u{a0}'
    ||| c == '\u{1680}'
    ||| ('\u{2000}' <= c && c <= '\u{200a}')
    ||| c == '\u{2028}'
    ||| c == '\u{2029}'
    ||| c == '\u{202f}'
    ||| c == '\u{205f}'
    ||| c == '\u{3000}'
}

/// Whether a line holds nothing but white space (`str::trim` leaves it
/// empty); such lines carry no event and are skipped.
pub open spec fn is_blank(l: Seq<char>) -> bool {
    forall|i: int| 0 <= i < l.len() ==> is_whitespace(#[trigger] l[i])
}

fn char_is_whitespace(c: char) -> (r: bool)
    ensures
        r == is_whitespace(c),
{
    ('\u{9}' <= c && c <= '\u{d}') || c == ' ' || c == '\u{85}' || c == '\u{a0}' || c == '\u{1680}'
        || ('\u{2000}' <= c && c <= '\u{200a}') || c == '\u{2028}' || c == '\u{2029}' || c
        == '\u{202f}' || c == '\u{205f}' || c == '\u{3000}'
}

/// Whether a line holds nothing but white space.
pub fn is_blank_line(line: &str) -> (r: bool)
    ensures
        r == is_blank(line@),
{
    let l = crate::text::chars_of(line);
    let mut i: usize = 0;
    while i < l.len()
        invariant
            i <= l@.len(),
            l@ == line@,
            forall|j: int| 0 <= j < i ==> is_whitespace(#[trigger] l@[j]),
        decreases l@.len() - i,
    {
        if !char_is_whitespace(l[i]) {
            return false;
        }
        i = i + 1;
    }
    true
}

impl WireEvent {
    /// Whether this is the `EXIT` event, which ends the recording.
    pub fn is_exit(&self) -> (r: bool)
        ensures
            r == (self@ is Exit),
    {
        match self {
            WireEvent::Exit { .. } => true,
            _ => false,
        }
    }
}

} // verus!
