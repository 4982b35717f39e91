//! The JSON text of the sidecar files: string escaping (RFC 8259,
//! section 7) and arrays of strings.
use vstd::prelude::*;

use crate::text::{chars_of, push_char, push_str};

verus! {

/// Whether `c` is a control character (`char::is_control`: the Unicode
/// general category Cc, U+0000..=U+001F and U+007F..=U+009F).
pub open spec fn is_control(c: char) -> bool {
    (c as int) <= 0x1f || (0x7f <= (c as int) && (c as int) <= 0x9f)
}

/// The lowercase hexadecimal digit of a value below sixteen.
pub open spec fn hex_digit(d: int) -> char {
    if d < 10 {
        (d + 48) as char
    } else {
        (d + 87) as char
    }
}

/// Four lowercase hexadecimal digits of `n` (`format!("{:04x}", n)` for
/// `n` below 0x10000).
pub open spec fn hex4(n: int) -> Seq<char> {
    seq![hex_digit((n / 4096) % 16), hex_digit((n / 256) % 16), hex_digit((n / 16) % 16), hex_digit(n % 16)]
}

/// The JSON text that stands for one character inside a string.
pub open spec fn escape_char(c: char) -> Seq<char> {
    if c == '"' {
        seq!['\\', '"']
    } else if c == '\\' {
        seq!['\\', '\\']
    } else if c == '\n' {
        seq!['\\', 'n']
    } else if c == '\r' {
        seq!['\\', 'r']
    } else if c == '\t' {
        seq!['\\', 't']
    } else if is_control(c) {
        seq!['\\', 'u'] + hex4(c as int)
    } else {
        seq![c]
    }
}

/// The escaped characters of `s`, one after another.
pub open spec fn escape_body(s: Seq<char>) -> Seq<char>
    decreases s.len(),
{
    if s.len() == 0 {
        Seq::empty()
    } else {
        escape_body(s.drop_last()) + escape_char(s.last())
    }
}

/// The JSON string literal (quotes included) whose value is `s`.
pub open spec fn json_string(s: Seq<char>) -> Seq<char> {
    seq!['"'] + escape_body(s) + seq!['"']
}

/// The JSON string literals of `items`, separated by commas.
pub open spec fn json_joined(items: Seq<Seq<char>>) -> Seq<char>
    decreases items.len(),
{
    if items.len() == 0 {
        Seq::empty()
    } else if items.len() == 1 {
        json_string(items[0])
    } else {
        json_joined(items.drop_last()) + seq![','] + json_string(items.last())
    }
}

/// The JSON array of the strings `items`, in order, with no spaces.
pub open spec fn json_array(items: Seq<Seq<char>>) -> Seq<char> {
    seq!['['] + json_joined(items) + seq![']']
}

fn hex_digit_char(d: u32) -> (c: char)
    requires
        d < 16,
    ensures
        c == hex_digit(d as int),
{
    if d < 10 {
        (48u8 + d as u8) as char
    } else {
        (87u8 + d as u8) as char
    }
}

fn push_escaped_char(out: &mut String, c: char)
    ensures
        final(out)@ == old(out)@ + escape_char(c),
{
    if c == '"' {
        push_char(out, '\\');
        push_char(out, '"');
    } else if c == '\\' {
        push_char(out, '\\');
        push_char(out, '\\');
    } else if c == '\n' {
        push_char(out, '\\');
        push_char(out, 'n');
    } else if c == '\r' {
        push_char(out, '\\');
        push_char(out, 'r');
    } else if c == '\t' {
        push_char(out, '\\');
        push_char(out, 't');
    } else if c <= '\u{1f}' || ('\u{7f}' <= c && c <= '\u{9f}') {
        proof {
            assert(0 <= c as int <= 0x9f);
        }
        let code = c as u32;
        push_char(out, '\\');
        push_char(out, 'u');
        push_char(out, '0');
        push_char(out, '0');
        push_char(out, hex_digit_char(code / 16));
        push_char(out, hex_digit_char(code % 16));
        proof {
            let n = c as int;
            assert(n / 4096 == 0);
            assert(n / 256 == 0);
            assert((n / 16) % 16 == n / 16);
            assert(hex_digit(0) == '0');
            assert(final(out)@ =~= old(out)@ + escape_char(c));
        }
        return;
    } else {
        push_char(out, c);
    }
    assert(final(out)@ =~= old(out)@ + escape_char(c));
}

/// Escape a string for embedding in JSON output.
///
/// Produces a quoted JSON string with backslash, double-quote, and control
/// character escaping per RFC 8259 section 7.
pub fn serde_json_escape(s: &str) -> (out: String)
    ensures
        out@ == json_string(s@),
{
    let v = chars_of(s);
    let mut out = String::new();
    push_char(&mut out, '"');
    let mut i: usize = 0;
    while i < v.len()
        invariant
            i <= v@.len(),
            v@ == s@,
            out@ == seq!['"'] + escape_body(v@.take(i as int)),
        decreases v@.len() - i,
    {
        push_escaped_char(&mut out, v[i]);
        proof {
            assert(v@.take(i + 1).drop_last() =~= v@.take(i as int));
            assert(v@.take(i + 1).last() == v@[i as int]);
        }
        i = i + 1;
        assert(out@ =~= seq!['"'] + escape_body(v@.take(i as int)));
    }
    push_char(&mut out, '"');
    assert(v@.take(v@.len() as int) =~= v@);
    assert(out@ =~= json_string(s@));
    out
}

/// The JSON array of the given strings: `["a","b"]`.
pub fn json_string_array(items: &Vec<String>) -> (out: String)
    ensures
        out@ == json_array(items@.map_values(|x: String| x@)),
{
    let ghost views = items@.map_values(|x: String| x@);
    let mut out = String::new();
    push_char(&mut out, '[');
    let mut i: usize = 0;
    while i < items.len()
        invariant
            i <= items@.len(),
            views == items@.map_values(|x: String| x@),
            out@ == seq!['['] + json_joined(views.take(i as int)),
        decreases items@.len() - i,
    {
        if i > 0 {
            push_char(&mut out, ',');
        }
        let escaped = serde_json_escape(items[i].as_str());
        push_str(&mut out, escaped.as_str());
        proof {
            assert(views.take(i + 1).drop_last() =~= views.take(i as int));
            assert(views.take(i + 1).last() == items@[i as int]@);
            if i == 0 {
                assert(views.take(1).len() == 1);
            }
        }
        i = i + 1;
        assert(out@ =~= seq!['['] + json_joined(views.take(i as int)));
    }
    push_char(&mut out, ']');
    assert(views.take(items@.len() as int) =~= views);
    assert(out@ =~= json_array(views));
    out
}

/// The text of `trace_metadata.json`: the program and its arguments,
/// `{"program":<program>,"args":[<arg>,...]}`.
pub open spec fn metadata_json(program: Seq<char>, args: Seq<Seq<char>>) -> Seq<char> {
    "{\"program\":"@ + json_string(program) + ",\"args\":"@ + json_array(args) + "}"@
}

/// The text of `trace_metadata.json` for the given program and arguments.
pub fn metadata_json_text(program: &str, args: &Vec<String>) -> (out: String)
    ensures
        out@ == metadata_json(program@, args@.map_values(|x: String| x@)),
{
    let mut out = String::new();
    push_str(&mut out, "{\"program\":");
    let escaped = serde_json_escape(program);
    push_str(&mut out, escaped.as_str());
    push_str(&mut out, ",\"args\":");
    let array = json_string_array(args);
    push_str(&mut out, array.as_str());
    push_str(&mut out, "}");
    assert(out@ =~= metadata_json(program@, args@.map_values(|x: String| x@)));
    out
}

} // verus!

verus! {

// ---------------------------------------------------------------------
// Reading JSON strings back
// ---------------------------------------------------------------------

/// The value of a hexadecimal digit (either case).
pub open spec fn hex_value(c: char) -> Option<int> {
    if '0' <= c && c <= '9' {
        Some(c as int - 48)
    } else if 'a' <= c && c <= 'f' {
        Some(c as int - 87)
    } else if 'A' <= c && c <= 'F' {
        Some(c as int - 55)
    } else {
        None
    }
}

/// The code unit written by four hexadecimal digits.
pub open spec fn hex4_value(t: Seq<char>) -> Option<int> {
    match (hex_value(t[0]), hex_value(t[1]), hex_value(t[2]), hex_value(t[3])) {
        (Some(a), Some(b), Some(c), Some(d)) => Some(a * 4096 + b * 256 + c * 16 + d),
        _ => None,
    }
}

/// Put `c` in front of the text of a scan, if any.
pub open spec fn prepend_char(
    c: char,
    r: Option<(Seq<char>, Seq<char>)>,
) -> Option<(Seq<char>, Seq<char>)> {
    match r {
        Some((v, rest)) => Some((seq![c] + v, rest)),
        None => None,
    }
}

/// Reads the inside of a JSON string literal (RFC 8259, section 7) up
/// to its closing quote: the characters it stands for, and the text
/// after the closing quote.  Escapes are `\"`, `\\`, `\/`, `\b`, `\f`,
/// `\n`, `\r`, `\t` and `\uXXXX`; any other character but `"`, `\` and
/// the controls below U+0020 stands for itself.  Escaped UTF-16
/// surrogates are not decoded here.
pub open spec fn json_scan_string(t: Seq<char>) -> Option<(Seq<char>, Seq<char>)>
    decreases t.len(),
{
    if t.len() == 0 {
        None
    } else if t[0] == '"' {
        Some((Seq::empty(), t.skip(1)))
    } else if t[0] == '\\' {
        if t.len() < 2 {
            None
        } else {
            let e = t[1];
            if e == '"' {
                prepend_char('"', json_scan_string(t.skip(2)))
            } else if e == '\\' {
                prepend_char('\\', json_scan_string(t.skip(2)))
            } else if e == '/' {
                prepend_char('/', json_scan_string(t.skip(2)))
            } else if e == 'b' {
                prepend_char('\u{8}', json_scan_string(t.skip(2)))
            } else if e == 'f' {
                prepend_char('\u{c}', json_scan_string(t.skip(2)))
            } else if e == 'n' {
                prepend_char('\n', json_scan_string(t.skip(2)))
            } else if e == 'r' {
                prepend_char('\r', json_scan_string(t.skip(2)))
            } else if e == 't' {
                prepend_char('\t', json_scan_string(t.skip(2)))
            } else if e == 'u' && t.len() >= 6 {
                match hex4_value(t.subrange(2, 6)) {
                    Some(code) => if 0xd800 <= code <= 0xdfff {
                        None
                    } else {
                        prepend_char(code as char, json_scan_string(t.skip(6)))
                    },
                    None => None,
                }
            } else {
                None
            }
        }
    } else if (t[0] as int) < 0x20 {
        None
    } else {
        prepend_char(t[0], json_scan_string(t.skip(1)))
    }
}

/// The value of a JSON string literal, quotes included, that is all of `t`.
pub open spec fn json_decode_string(t: Seq<char>) -> Option<Seq<char>> {
    if t.len() > 0 && t[0] == '"' {
        match json_scan_string(t.skip(1)) {
            Some((v, rest)) => if rest.len() == 0 {
                Some(v)
            } else {
                None
            },
            None => None,
        }
    } else {
        None
    }
}

/// The strings of the elements of a JSON array of strings, read after
/// an element: a `,` and further elements, or the closing `]`.
pub open spec fn json_array_tail(t: Seq<char>) -> Option<Seq<Seq<char>>>
    decreases t.len(), 1int,
{
    if t == seq![']'] {
        Some(Seq::empty())
    } else if t.len() > 0 && t[0] == ',' {
        json_array_elements(t.skip(1))
    } else {
        None
    }
}

/// The strings of the elements of a JSON array of strings, read from
/// an element on.
pub open spec fn json_array_elements(t: Seq<char>) -> Option<Seq<Seq<char>>>
    decreases t.len(), 0int,
{
    if t.len() > 0 && t[0] == '"' {
        match json_scan_string(t.skip(1)) {
            Some((v, rest)) => {
                proof {
                    lemma_scan_shortens(t.skip(1));
                }
                match json_array_tail(rest) {
                    Some(vs) => Some(seq![v] + vs),
                    None => None,
                }
            },
            None => None,
        }
    } else {
        None
    }
}

/// The strings of a JSON array of strings written without spaces.
pub open spec fn json_decode_array(t: Seq<char>) -> Option<Seq<Seq<char>>> {
    if t == seq!['[', ']'] {
        Some(Seq::empty())
    } else if t.len() > 0 && t[0] == '[' {
        json_array_elements(t.skip(1))
    } else {
        None
    }
}

pub proof fn lemma_scan_shortens(t: Seq<char>)
    ensures
        json_scan_string(t) matches Some((v, rest)) ==> rest.len() < t.len(),
    decreases t.len(),
{
    if t.len() > 0 && t[0] != '"' {
        if t[0] == '\\' {
            if t.len() >= 2 {
                lemma_scan_shortens(t.skip(2));
                if t.len() >= 6 {
                    lemma_scan_shortens(t.skip(6));
                }
            }
        } else {
            lemma_scan_shortens(t.skip(1));
        }
    }
}

proof fn lemma_escape_body_append(a: Seq<char>, b: Seq<char>)
    ensures
        escape_body(a + b) == escape_body(a) + escape_body(b),
    decreases b.len(),
{
    if b.len() == 0 {
        assert(a + b =~= a);
        assert(escape_body(a) + escape_body(b) =~= escape_body(a));
    } else {
        lemma_escape_body_append(a, b.drop_last());
        assert((a + b).drop_last() =~= a + b.drop_last());
        assert((a + b).last() == b.last());
        assert(escape_body(a) + escape_body(b) =~= escape_body(a) + escape_body(b.drop_last())
            + escape_char(b.last()));
    }
}

proof fn lemma_scan_escaped_char(c: char, rest: Seq<char>)
    ensures
        json_scan_string(escape_char(c) + rest) == prepend_char(c, json_scan_string(rest)),
{
    let t = escape_char(c) + rest;
    if c == '"' || c == '\\' || c == '\n' || c == '\r' || c == '\t' {
        assert(t.skip(2) =~= rest);
    } else if is_control(c) {
        let n = c as int;
        assert(t.skip(6) =~= rest);
        assert(t.subrange(2, 6) =~= hex4(n));
        assert(hex_value(hex_digit(0)) == Some(0int));
        assert(n / 4096 == 0 && n / 256 == 0);
        assert(0 <= (n / 16) % 16 < 16);
        assert(0 <= n % 16 < 16);
        assert(hex_value(hex_digit((n / 16) % 16)) == Some((n / 16) % 16));
        assert(hex_value(hex_digit(n % 16)) == Some(n % 16));
        assert((n / 16) % 16 == n / 16);
        assert(hex4_value(hex4(n)) == Some(n));
        assert((n as char) == c);
    } else {
        assert(t[0] == c);
        assert(t.skip(1) =~= rest);
    }
}

/// Reading the escaped text of `s` and a closing quote gives back `s`
/// and what follows the quote.
proof fn lemma_scan_round_trip(s: Seq<char>, after: Seq<char>)
    ensures
        json_scan_string(escape_body(s) + seq!['"'] + after) == Some((s, after)),
    decreases s.len(),
{
    if s.len() == 0 {
        assert(escape_body(s) + seq!['"'] + after =~= seq!['"'] + after);
        assert((seq!['"'] + after).skip(1) =~= after);
    } else {
        let c = s[0];
        let rest = s.drop_first();
        assert(s =~= seq![c] + rest);
        lemma_escape_body_append(seq![c], rest);
        assert(seq![c].drop_last() =~= Seq::<char>::empty());
        assert(seq![c].last() == c);
        assert(escape_body(Seq::<char>::empty()) == Seq::<char>::empty());
        assert(escape_body(seq![c]) =~= escape_char(c));
        lemma_scan_round_trip(rest, after);
        lemma_scan_escaped_char(c, escape_body(rest) + seq!['"'] + after);
        assert(escape_body(s) + seq!['"'] + after =~= escape_char(c) + (escape_body(rest)
            + seq!['"'] + after));
        assert(seq![c] + rest =~= s);
    }
}

/// Reading back the JSON string literal that [`serde_json_escape`]
/// writes gives the original text.
pub proof fn law_json_string_round_trip(s: Seq<char>)
    ensures
        json_decode_string(json_string(s)) == Some(s),
{
    lemma_scan_round_trip(s, Seq::empty());
    let t = json_string(s);
    assert(t.skip(1) =~= escape_body(s) + seq!['"'] + Seq::<char>::empty());
}

proof fn lemma_joined_front(a: Seq<char>, rest: Seq<Seq<char>>)
    ensures
        json_joined(seq![a] + rest) == if rest.len() == 0 {
            json_string(a)
        } else {
            json_string(a) + seq![','] + json_joined(rest)
        },
    decreases rest.len(),
{
    if rest.len() == 0 {
        assert(seq![a] + rest =~= seq![a]);
    } else if rest.len() == 1 {
        assert((seq![a] + rest).drop_last() =~= seq![a]);
        assert((seq![a] + rest).last() == rest[0]);
        assert(json_joined(seq![a]) == json_string(a));
        assert(json_joined(rest) == json_string(rest[0]));
    } else {
        lemma_joined_front(a, rest.drop_last());
        assert((seq![a] + rest).drop_last() =~= seq![a] + rest.drop_last());
        assert((seq![a] + rest).last() == rest.last());
        assert(json_string(a) + seq![','] + json_joined(rest) =~= json_string(a) + seq![',']
            + json_joined(rest.drop_last()) + seq![','] + json_string(rest.last()));
    }
}

proof fn lemma_elements_round_trip(items: Seq<Seq<char>>)
    requires
        items.len() > 0,
    ensures
        json_joined(items).len() > 0 && json_joined(items)[0] == '"',
        json_array_elements(json_joined(items) + seq![']']) == Some(items),
    decreases items.len(),
{
    let a = items[0];
    let rest = items.drop_first();
    assert(items =~= seq![a] + rest);
    lemma_joined_front(a, rest);
    let t = json_joined(items) + seq![']'];
    if rest.len() == 0 {
        assert(t =~= seq!['"'] + (escape_body(a) + seq!['"'] + seq![']']));
        assert(t.skip(1) =~= escape_body(a) + seq!['"'] + seq![']']);
        lemma_scan_round_trip(a, seq![']']);
        assert(seq![a] + Seq::<Seq<char>>::empty() =~= items);
    } else {
        lemma_elements_round_trip(rest);
        let tail = seq![','] + json_joined(rest) + seq![']'];
        assert(t =~= seq!['"'] + (escape_body(a) + seq!['"'] + tail));
        assert(t.skip(1) =~= escape_body(a) + seq!['"'] + tail);
        lemma_scan_round_trip(a, tail);
        assert(tail.skip(1) =~= json_joined(rest) + seq![']']);
        assert(tail != seq![']']);
        assert(seq![a] + rest =~= items);
    }
}

/// Reading back the JSON array that [`json_string_array`] writes gives
/// the original strings, in order: `trace_paths.json` and `symbols.json`
/// hold exactly the registered paths and function names.
pub proof fn law_json_array_round_trip(items: Seq<Seq<char>>)
    ensures
        json_decode_array(json_array(items)) == Some(items),
{
    let t = json_array(items);
    if items.len() == 0 {
        assert(t =~= seq!['[', ']']);
    } else {
        lemma_elements_round_trip(items);
        assert(t.skip(1) =~= json_joined(items) + seq![']']);
        assert(t != seq!['[', ']']) by {
            assert(t[1] == '"');
        }
    }
}

} // verus!

verus! {

/// The program and the arguments of a `trace_metadata.json` text: the
/// JSON object `{"program":<string>,"args":[<string>,...]}`, written
/// without spaces, with its members in that order.
pub open spec fn json_decode_metadata(t: Seq<char>) -> Option<(Seq<char>, Seq<Seq<char>>)> {
    let head = "{\"program\":"@;
    let middle = ",\"args\":"@;
    if t.len() > head.len() && t.subrange(0, head.len() as int) == head && t[head.len() as int]
        == '"' {
        match json_scan_string(t.skip(head.len() as int + 1)) {
            Some((program, rest)) => if rest.len() > middle.len() && rest.subrange(
                0,
                middle.len() as int,
            ) == middle && rest.last() == '}' {
                match json_decode_array(rest.subrange(middle.len() as int, rest.len() - 1)) {
                    Some(args) => Some((program, args)),
                    None => None,
                }
            } else {
                None
            },
            None => None,
        }
    } else {
        None
    }
}

/// Reading back `trace_metadata.json` gives the program and the
/// arguments it was written with, whatever characters they hold.
pub proof fn law_json_metadata_round_trip(program: Seq<char>, args: Seq<Seq<char>>)
    ensures
        json_decode_metadata(metadata_json(program, args)) == Some((program, args)),
{
    let head = "{\"program\":"@;
    let middle = ",\"args\":"@;
    let tail = "}"@;
    reveal_strlit("{\"program\":");
    reveal_strlit(",\"args\":");
    reveal_strlit("}");
    assert(head.len() == 11);
    assert(middle.len() == 8);
    assert(tail =~= seq!['}']);
    let t = metadata_json(program, args);
    let after = middle + json_array(args) + tail;
    assert(t =~= head + (seq!['"'] + escape_body(program) + seq!['"'] + after));
    assert(t.subrange(0, 11) =~= head);
    assert(t[11] == '"');
    assert(t.skip(12) =~= escape_body(program) + seq!['"'] + after);
    lemma_scan_round_trip(program, after);
    assert(after.subrange(0, 8) =~= middle);
    assert(after.last() == '}');
    assert(after.subrange(8, after.len() - 1) =~= json_array(args));
    law_json_array_round_trip(args);
}

} // verus!
