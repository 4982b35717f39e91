//! Every event, written in the wire protocol with its values quoted,
//! reads back as itself.
use vstd::prelude::*;

use crate::text::{
    all_digits, decimal, decimal_text_value, digit_char, digit_value, digits_value, is_digit,
    signed_decimal, spec_parse_i64,
};
use crate::wire_protocol::{
    prepend_field, event_from, fields_from, is_space, key_end, lookup, need_int, need_text, quoted, skip_spaces,
    spec_parse_line, token_end, EventView, FieldView, ParseErrorView,
};

verus! {

/// The inside of a quoted value: `"` and `\` are preceded by a backslash.
pub open spec fn quote_body(v: Seq<char>) -> Seq<char>
    decreases v.len(),
{
    if v.len() == 0 {
        Seq::empty()
    } else {
        (if v[0] == '"' || v[0] == '\\' {
            seq!['\\', v[0]]
        } else {
            seq![v[0]]
        }) + quote_body(v.drop_first())
    }
}

/// A field written with its value quoted: ` key="value"`.
pub open spec fn render_field(f: FieldView) -> Seq<char> {
    seq![' '] + f.0 + seq!['=', '"'] + quote_body(f.1) + seq!['"']
}

/// Fields written one after another.
pub open spec fn render_fields(fs: Seq<FieldView>) -> Seq<char>
    decreases fs.len(),
{
    if fs.len() == 0 {
        Seq::empty()
    } else {
        render_field(fs[0]) + render_fields(fs.drop_first())
    }
}

/// The keyword of an event.
pub open spec fn keyword(e: EventView) -> Seq<char> {
    match e {
        EventView::Start { .. } => "START"@,
        EventView::Path { .. } => "PATH"@,
        EventView::Func { .. } => "FUNC"@,
        EventView::Step { .. } => "STEP"@,
        EventView::Call { .. } => "CALL"@,
        EventView::Arg { .. } => "ARG"@,
        EventView::Var { .. } => "VAR"@,
        EventView::Write { .. } => "WRITE"@,
        EventView::Error { .. } => "ERROR"@,
        EventView::Return { .. } => "RETURN"@,
        EventView::Exit { .. } => "EXIT"@,
    }
}

/// The fields of an event, integers in decimal.
pub open spec fn event_fields(e: EventView) -> Seq<FieldView> {
    match e {
        EventView::Start { program, shell, shell_version } => seq![
            ("program"@, program),
            ("shell"@, shell),
            ("shell_version"@, shell_version),
        ],
        EventView::Path { file } => seq![("file"@, file)],
        EventView::Func { name, file, line } => seq![
            ("name"@, name),
            ("file"@, file),
            ("line"@, signed_decimal(line as int)),
        ],
        EventView::Step { file, line } => seq![("file"@, file), ("line"@, signed_decimal(line as int))],
        EventView::Call { name } => seq![("name"@, name)],
        EventView::Arg { name, value, type_flag } => seq![
            ("name"@, name),
            ("value"@, value),
            ("type"@, type_flag),
        ],
        EventView::Var { name, value, type_flag } => seq![
            ("name"@, name),
            ("value"@, value),
            ("type"@, type_flag),
        ],
        EventView::Write { content } => seq![("content"@, content)],
        EventView::Error { cmd, status } => seq![("cmd"@, cmd), ("status"@, signed_decimal(status as int))],
        EventView::Return { status } => seq![("status"@, signed_decimal(status as int))],
        EventView::Exit { code } => seq![("code"@, signed_decimal(code as int))],
    }
}

/// An event written as one line of the wire protocol, each value quoted.
pub open spec fn render_event(e: EventView) -> Seq<char> {
    keyword(e) + render_fields(event_fields(e))
}

/// A word that can be a keyword or a field name: not empty, without
/// spaces and `=`.
pub open spec fn plain_word(w: Seq<char>) -> bool {
    &&& w.len() > 0
    &&& forall|i: int| 0 <= i < w.len() ==> !is_space(#[trigger] w[i]) && w[i] != '='
}

// ---------------------------------------------------------------------
// Reading quoted values
// ---------------------------------------------------------------------

proof fn lemma_quoted_round_trip(l: Seq<char>, i: int, v: Seq<char>)
    requires
        0 <= i,
        i + quote_body(v).len() + 1 <= l.len(),
        l.subrange(i, i + quote_body(v).len()) == quote_body(v),
        l[i + quote_body(v).len()] == '"',
    ensures
        quoted(l, i) == Some((v, i + quote_body(v).len() + 1)),
    decreases v.len(),
{
    let q = quote_body(v);
    if v.len() == 0 {
    } else {
        let c = v[0];
        let head = if c == '"' || c == '\\' { seq!['\\', c] } else { seq![c] };
        let rest = quote_body(v.drop_first());
        assert(q == head + rest);
        let h = head.len() as int;
        assert(l[i] == q[0]);
        if c == '"' || c == '\\' {
            assert(l[i + 1] == q[1]);
        }
        assert(l.subrange(i + h, i + h + rest.len()) =~= rest) by {
            assert forall|k: int| 0 <= k < rest.len() implies l.subrange(i + h, i + h + rest.len())[k]
                == rest[k] by {
                assert(l.subrange(i, i + q.len())[h + k] == q[h + k]);
            }
        }
        lemma_quoted_round_trip(l, i + h, v.drop_first());
        assert(seq![c] + v.drop_first() =~= v);
    }
}

// ---------------------------------------------------------------------
// Reading fields
// ---------------------------------------------------------------------

proof fn lemma_key_end(l: Seq<char>, j: int, k: int)
    requires
        0 <= j <= k < l.len(),
        forall|x: int| j <= x < k ==> !is_space(#[trigger] l[x]) && l[x] != '=',
        l[k] == '=',
    ensures
        key_end(l, j) == k,
    decreases k - j,
{
    if j < k {
        lemma_key_end(l, j + 1, k);
    }
}

proof fn lemma_render_fields_front(fs: Seq<FieldView>)
    requires
        fs.len() > 0,
    ensures
        render_fields(fs) == render_field(fs[0]) + render_fields(fs.drop_first()),
{
}

/// Reading written fields, from where they start, gives them back.
proof fn lemma_fields_round_trip(pre: Seq<char>, fs: Seq<FieldView>)
    requires
        forall|k: int| 0 <= k < fs.len() ==> plain_word(#[trigger] fs[k].0),
    ensures
        fields_from(pre + render_fields(fs), pre.len() as int) == Ok::<Seq<FieldView>, ParseErrorView>(fs),
    decreases fs.len(),
{
    let l = pre + render_fields(fs);
    let i = pre.len() as int;
    if fs.len() == 0 {
        assert(l =~= pre);
        assert(skip_spaces(l, i) == i);
        assert(fs =~= Seq::<FieldView>::empty());
    } else {
        let f = fs[0];
        let key = f.0;
        let q = quote_body(f.1);
        let rest = fs.drop_first();
        let field = render_field(f);
        assert(plain_word(key));
        lemma_render_fields_front(fs);
        assert(l =~= (pre + field) + render_fields(rest));
        // layout of the field
        let j = i + 1;
        let k = j + key.len();
        let v = k + 1;
        let n = v + 1 + q.len() + 1;
        assert(field.len() == 1 + key.len() + 2 + q.len() + 1);
        assert(l[i] == ' ');
        assert(l[j] == key[0]);
        assert(skip_spaces(l, j) == j);
        assert(skip_spaces(l, i) == j);
        assert forall|x: int| j <= x < k implies !is_space(#[trigger] l[x]) && l[x] != '=' by {
            assert(l[x] == key[x - j]);
        }
        assert(l[k] == '=');
        lemma_key_end(l, j, k);
        assert(l.subrange(j, k) =~= key);
        assert(l[v] == '"');
        assert(l.subrange(v + 1, v + 1 + q.len()) =~= q) by {
            assert forall|x: int| 0 <= x < q.len() implies l.subrange(v + 1, v + 1 + q.len())[x] == q[x] by {
                assert(l[v + 1 + x] == field[3 + key.len() + x]);
            }
        }
        assert(l[v + 1 + q.len()] == '"');
        lemma_quoted_round_trip(l, v + 1, f.1);
        assert forall|x: int| 0 <= x < rest.len() implies plain_word(#[trigger] rest[x].0) by {
            assert(rest[x] == fs[x + 1]);
        }
        lemma_fields_round_trip(pre + field, rest);
        assert((pre + field).len() == n);
        if n < l.len() {
            lemma_render_fields_front(rest);
            assert(l[n] == ' ');
        }
        assert(quoted(l, v + 1) == Some((f.1, n)));
        assert(n <= l.len());
        assert(!(n < l.len() && !is_space(l[n])));
        assert(fields_from(l, n) == Ok::<Seq<FieldView>, ParseErrorView>(rest));
        assert(fields_from(l, i) == prepend_field((l.subrange(j, k), f.1), fields_from(l, n)));
        assert(seq![(l.subrange(j, k), f.1)] + rest =~= fs);
    }
}

// ---------------------------------------------------------------------
// Reading integers
// ---------------------------------------------------------------------

proof fn lemma_decimal_digits(n: nat)
    ensures
        decimal(n).len() > 0,
        all_digits(decimal(n)),
        digits_value(decimal(n)) == n,
    decreases n,
{
    if n >= 10 {
        lemma_decimal_digits(n / 10);
        let d = decimal(n / 10);
        let full = d.push(digit_char((n % 10) as int));
        assert(decimal(n) == full);
        assert(full.drop_last() =~= d);
        assert(full.last() == digit_char((n % 10) as int));
        assert(n == (n / 10) * 10 + n % 10);
        assert(is_digit(digit_char((n % 10) as int)));
        assert(digit_value(digit_char((n % 10) as int)) == n % 10);
        assert(all_digits(full)) by {
            assert forall|i: int| 0 <= i < full.len() implies is_digit(#[trigger] full[i]) by {
                if i < d.len() {
                    assert(full[i] == d[i]);
                }
            }
        }
    } else {
        let s = decimal(n);
        assert(s == seq![digit_char(n as int)]);
        assert(s.drop_last() =~= Seq::<char>::empty());
        assert(s.last() == digit_char(n as int));
        assert(digits_value(Seq::<char>::empty()) == 0);
        assert(is_digit(s[0]));
        assert(digit_value(digit_char(n as int)) == n);
    }
}

/// The decimal text of an `i64` reads back as that integer.
pub proof fn lemma_signed_decimal_parses(i: i64)
    ensures
        spec_parse_i64(signed_decimal(i as int)) == Some(i),
{
    let s = signed_decimal(i as int);
    if i < 0 {
        lemma_decimal_digits((-i) as nat);
        assert(s.skip(1) =~= decimal((-i) as nat));
        assert(s[0] == '-');
    } else {
        lemma_decimal_digits(i as nat);
        let d = decimal(i as nat);
        assert(is_digit(d[0]));
    }
}

// ---------------------------------------------------------------------
// The law
// ---------------------------------------------------------------------

proof fn lemma_field_names_plain()
    ensures
        plain_word("program"@),
        plain_word("shell"@),
        plain_word("shell_version"@),
        plain_word("file"@),
        plain_word("name"@),
        plain_word("line"@),
        plain_word("value"@),
        plain_word("type"@),
        plain_word("content"@),
        plain_word("cmd"@),
        plain_word("status"@),
        plain_word("code"@),
{
    reveal_strlit("program");
    reveal_strlit("shell");
    reveal_strlit("shell_version");
    reveal_strlit("file");
    reveal_strlit("name");
    reveal_strlit("line");
    reveal_strlit("value");
    reveal_strlit("type");
    reveal_strlit("content");
    reveal_strlit("cmd");
    reveal_strlit("status");
    reveal_strlit("code");
}

proof fn lemma_keywords()
    ensures
        plain_word("START"@),
        plain_word("PATH"@),
        plain_word("FUNC"@),
        plain_word("STEP"@),
        plain_word("CALL"@),
        plain_word("ARG"@),
        plain_word("VAR"@),
        plain_word("WRITE"@),
        plain_word("ERROR"@),
        plain_word("RETURN"@),
        plain_word("EXIT"@),
        "START"@ != "PATH"@,
        "START"@ != "FUNC"@,
        "START"@ != "STEP"@,
        "START"@ != "CALL"@,
        "START"@ != "ARG"@,
        "START"@ != "VAR"@,
        "START"@ != "WRITE"@,
        "START"@ != "ERROR"@,
        "START"@ != "RETURN"@,
        "START"@ != "EXIT"@,
        "PATH"@ != "FUNC"@,
        "PATH"@ != "STEP"@,
        "PATH"@ != "CALL"@,
        "PATH"@ != "ARG"@,
        "PATH"@ != "VAR"@,
        "PATH"@ != "WRITE"@,
        "PATH"@ != "ERROR"@,
        "PATH"@ != "RETURN"@,
        "PATH"@ != "EXIT"@,
        "FUNC"@ != "STEP"@,
        "FUNC"@ != "CALL"@,
        "FUNC"@ != "ARG"@,
        "FUNC"@ != "VAR"@,
        "FUNC"@ != "WRITE"@,
        "FUNC"@ != "ERROR"@,
        "FUNC"@ != "RETURN"@,
        "FUNC"@ != "EXIT"@,
        "STEP"@ != "CALL"@,
        "STEP"@ != "ARG"@,
        "STEP"@ != "VAR"@,
        "STEP"@ != "WRITE"@,
        "STEP"@ != "ERROR"@,
        "STEP"@ != "RETURN"@,
        "STEP"@ != "EXIT"@,
        "CALL"@ != "ARG"@,
        "CALL"@ != "VAR"@,
        "CALL"@ != "WRITE"@,
        "CALL"@ != "ERROR"@,
        "CALL"@ != "RETURN"@,
        "CALL"@ != "EXIT"@,
        "ARG"@ != "VAR"@,
        "ARG"@ != "WRITE"@,
        "ARG"@ != "ERROR"@,
        "ARG"@ != "RETURN"@,
        "ARG"@ != "EXIT"@,
        "VAR"@ != "WRITE"@,
        "VAR"@ != "ERROR"@,
        "VAR"@ != "RETURN"@,
        "VAR"@ != "EXIT"@,
        "WRITE"@ != "ERROR"@,
        "WRITE"@ != "RETURN"@,
        "WRITE"@ != "EXIT"@,
        "ERROR"@ != "RETURN"@,
        "ERROR"@ != "EXIT"@,
        "RETURN"@ != "EXIT"@,
{
    reveal_strlit("START");
    reveal_strlit("PATH");
    reveal_strlit("FUNC");
    reveal_strlit("STEP");
    reveal_strlit("CALL");
    reveal_strlit("ARG");
    reveal_strlit("VAR");
    reveal_strlit("WRITE");
    reveal_strlit("ERROR");
    reveal_strlit("RETURN");
    reveal_strlit("EXIT");
    assert("START"@.len() == 5 && "START"@[0] == 'S');
    assert("PATH"@.len() == 4 && "PATH"@[0] == 'P');
    assert("FUNC"@.len() == 4 && "FUNC"@[0] == 'F');
    assert("STEP"@.len() == 4 && "STEP"@[0] == 'S');
    assert("CALL"@.len() == 4 && "CALL"@[0] == 'C');
    assert("ARG"@.len() == 3 && "ARG"@[0] == 'A');
    assert("VAR"@.len() == 3 && "VAR"@[0] == 'V');
    assert("WRITE"@.len() == 5 && "WRITE"@[0] == 'W');
    assert("ERROR"@.len() == 5 && "ERROR"@[0] == 'E');
    assert("RETURN"@.len() == 6 && "RETURN"@[0] == 'R');
    assert("EXIT"@.len() == 4 && "EXIT"@[0] == 'E');
}

/// Every event written in the wire protocol, with each value in quotes
/// (`"` and `\` preceded by a backslash) and integers in decimal, reads
/// back as that same event, whatever characters its values hold.
pub proof fn law_rendered_event_reads_back(e: EventView)
    ensures
        spec_parse_line(render_event(e)) == Ok::<EventView, ParseErrorView>(e),
{
    let kw = keyword(e);
    let fs = event_fields(e);
    let l = render_event(e);
    lemma_keywords();
    lemma_field_names_plain();
    assert(plain_word(kw));
    assert(forall|k: int| 0 <= k < fs.len() ==> plain_word(#[trigger] fs[k].0));
    lemma_fields_round_trip(kw, fs);
    // the keyword is the first word
    assert(fs.len() > 0);
    lemma_render_fields_front(fs);
    assert(l[kw.len() as int] == ' ');
    assert(skip_spaces(l, 0) == 0) by {
        assert(l[0] == kw[0]);
    }
    assert(token_end(l, 0) == kw.len()) by {
        lemma_token_end(l, 0, kw.len() as int);
    }
    assert(l.subrange(0, kw.len() as int) =~= kw);
    lemma_event_from_fields(e);
}

proof fn lemma_token_end(l: Seq<char>, j: int, k: int)
    requires
        0 <= j <= k < l.len(),
        forall|x: int| 0 <= x < k ==> !is_space(#[trigger] l[x]),
        is_space(l[k]),
    ensures
        token_end(l, j) == k,
    decreases k - j,
{
    if j < k {
        lemma_token_end(l, j + 1, k);
    }
}

proof fn lemma_event_from_fields(e: EventView)
    ensures
        event_from(keyword(e), event_fields(e)) == Ok::<EventView, ParseErrorView>(e),
{
    lemma_keywords();
    reveal_strlit("program");
    reveal_strlit("shell");
    reveal_strlit("shell_version");
    reveal_strlit("file");
    reveal_strlit("name");
    reveal_strlit("line");
    reveal_strlit("value");
    reveal_strlit("type");
    reveal_strlit("content");
    reveal_strlit("cmd");
    reveal_strlit("status");
    reveal_strlit("code");
    assert("program"@.len() == 7 && "shell"@.len() == 5 && "shell_version"@.len() == 13);
    assert("file"@.len() == 4 && "name"@.len() == 4 && "line"@.len() == 4);
    assert("file"@[0] == 'f' && "name"@[0] == 'n' && "line"@[0] == 'l');
    assert("value"@.len() == 5 && "type"@.len() == 4 && "name"@[0] == 'n');
    assert("cmd"@.len() == 3 && "status"@.len() == 6);
    let fs = event_fields(e);
    reveal_with_fuel(lookup, 4);
    match e {
        EventView::Start { program, shell, shell_version } => {
            assert(fs.drop_first().drop_first().drop_first() =~= Seq::<FieldView>::empty());
            assert(lookup(fs, "program"@) == Some(program));
            assert("shell"@ != "program"@);
            assert(lookup(fs, "shell"@) == Some(shell));
            assert("shell_version"@ != "program"@ && "shell_version"@ != "shell"@);
            assert(lookup(fs, "shell_version"@) == Some(shell_version));
        },
        EventView::Func { name, file, line } => {
            lemma_signed_decimal_parses(line);
            assert(lookup(fs, "name"@) == Some(name));
            assert("file"@ != "name"@);
            assert(lookup(fs, "file"@) == Some(file));
            assert("line"@ != "name"@ && "line"@ != "file"@);
            assert(lookup(fs, "line"@) == Some(signed_decimal(line as int)));
        },
        EventView::Step { file, line } => {
            lemma_signed_decimal_parses(line);
            assert(lookup(fs, "file"@) == Some(file));
            assert("line"@ != "file"@);
            assert(lookup(fs, "line"@) == Some(signed_decimal(line as int)));
        },
        EventView::Arg { name, value, type_flag } => {
            assert(lookup(fs, "name"@) == Some(name));
            assert("value"@ != "name"@);
            assert(lookup(fs, "value"@) == Some(value));
            assert("type"@ != "name"@ && "type"@ != "value"@);
            assert(lookup(fs, "type"@) == Some(type_flag));
        },
        EventView::Var { name, value, type_flag } => {
            assert(lookup(fs, "name"@) == Some(name));
            assert("value"@ != "name"@);
            assert(lookup(fs, "value"@) == Some(value));
            assert("type"@ != "name"@ && "type"@ != "value"@);
            assert(lookup(fs, "type"@) == Some(type_flag));
        },
        EventView::Error { cmd, status } => {
            lemma_signed_decimal_parses(status);
            assert(lookup(fs, "cmd"@) == Some(cmd));
            assert("status"@ != "cmd"@);
            assert(lookup(fs, "status"@) == Some(signed_decimal(status as int)));
        },
        EventView::Return { status } => {
            lemma_signed_decimal_parses(status);
            assert(lookup(fs, "status"@) == Some(signed_decimal(status as int)));
        },
        EventView::Exit { code } => {
            lemma_signed_decimal_parses(code);
            assert(lookup(fs, "code"@) == Some(signed_decimal(code as int)));
        },
        _ => {},
    }
}

} // verus!
