//! Typed values of the wire protocol: the `type=` flag of `VAR` and
//! `ARG` events decides the type a value is recorded with.
use vstd::prelude::*;

use crate::protocol_laws::lemma_signed_decimal_parses;
use crate::text::{chars_of, parse_i64, signed_decimal, spec_parse_i64};

verus! {

/// The type a wire-protocol value is recorded with.
#[derive(Clone, Copy, Debug, PartialEq, Eq, Structural)]
pub enum ValueKind {
    /// `type=i`: an integer (`TypeKind::Int`, language type `Int`).
    Int,
    /// `type=s` and unknown flags: a string (`TypeKind::String`, `String`).
    String,
    /// `type=a`: an indexed array, kept as its `declare -p` text
    /// (`TypeKind::Seq`, `Array`).
    Array,
    /// `type=A`: an associative array, kept as its `declare -p` text
    /// (`TypeKind::Struct`, `AssocArray`).
    AssocArray,
    /// `type=F`: a floating-point number (`TypeKind::Float`, `Float`).
    Float,
}

impl ValueKind {
    /// The language-level type name recorded for this kind.
    pub open spec fn spec_lang_type(self) -> Seq<char> {
        match self {
            ValueKind::Int => seq!['I', 'n', 't'],
            ValueKind::String => seq!['S', 't', 'r', 'i', 'n', 'g'],
            ValueKind::Array => seq!['A', 'r', 'r', 'a', 'y'],
            ValueKind::AssocArray => seq!['A', 's', 's', 'o', 'c', 'A', 'r', 'r', 'a', 'y'],
            ValueKind::Float => seq!['F', 'l', 'o', 'a', 't'],
        }
    }

    /// The language-level type name recorded for this kind.
    pub fn lang_type(&self) -> (r: &'static str)
        ensures
            r@ == self.spec_lang_type(),
    {
        match self {
            ValueKind::Int => {
                proof {
                    reveal_strlit("Int");
                }
                "Int"
            },
            ValueKind::String => {
                proof {
                    reveal_strlit("String");
                }
                "String"
            },
            ValueKind::Array => {
                proof {
                    reveal_strlit("Array");
                }
                "Array"
            },
            ValueKind::AssocArray => {
                proof {
                    reveal_strlit("AssocArray");
                }
                "AssocArray"
            },
            ValueKind::Float => {
                proof {
                    reveal_strlit("Float");
                }
                "Float"
            },
        }
    }
}

/// The payload of a typed value.
#[derive(Clone, Debug, PartialEq, Eq)]
pub enum ValueData {
    /// An integer.
    Int(i64),
    /// The text of a floating-point number, parsed where the value is
    /// recorded (an unparseable text records 0.0).
    Float(String),
    /// A text recorded as it is.
    Text(String),
}

/// A value of a `VAR` or `ARG` event together with its type.
#[derive(Clone, Debug, PartialEq, Eq)]
pub struct TypedValue {
    pub kind: ValueKind,
    pub data: ValueData,
}

/// The mathematical form of [`ValueData`].
pub enum ValueDataView {
    Int(i64),
    Float(Seq<char>),
    Text(Seq<char>),
}

/// The mathematical form of [`TypedValue`].
pub struct TypedValueView {
    pub kind: ValueKind,
    pub data: ValueDataView,
}

impl View for ValueData {
    type V = ValueDataView;

    open spec fn view(&self) -> ValueDataView {
        match self {
            ValueData::Int(i) => ValueDataView::Int(*i),
            ValueData::Float(t) => ValueDataView::Float(t@),
            ValueData::Text(t) => ValueDataView::Text(t@),
        }
    }
}

impl View for TypedValue {
    type V = TypedValueView;

    open spec fn view(&self) -> TypedValueView {
        TypedValueView { kind: self.kind, data: self.data@ }
    }
}

impl ValueData {
    /// A copy of this payload.
    pub fn duplicate(&self) -> (r: ValueData)
        ensures
            r@ == self@,
    {
        match self {
            ValueData::Int(i) => ValueData::Int(*i),
            ValueData::Float(t) => ValueData::Float(t.clone()),
            ValueData::Text(t) => ValueData::Text(t.clone()),
        }
    }
}

impl TypedValue {
    /// A copy of this value.
    pub fn duplicate(&self) -> (r: TypedValue)
        ensures
            r@ == self@,
    {
        TypedValue { kind: self.kind, data: self.data.duplicate() }
    }
}

/// The typed value that `value` stands for under the wire-protocol type
/// flag `type_flag`:
///
/// - `i`: an integer; text that is not a decimal `i64` gives 0;
/// - `s`: a string;
/// - `a`: an indexed array, kept as text;
/// - `A`: an associative array, kept as text;
/// - `F`: a floating-point number, kept as its text;
/// - anything else: a string.
pub open spec fn spec_typed_value(value: Seq<char>, type_flag: Seq<char>) -> TypedValueView {
    if type_flag == seq!['i'] {
        TypedValueView {
            kind: ValueKind::Int,
            data: ValueDataView::Int(
                match spec_parse_i64(value) {
                    Some(i) => i,
                    None => 0,
                },
            ),
        }
    } else if type_flag == seq!['a'] {
        TypedValueView { kind: ValueKind::Array, data: ValueDataView::Text(value) }
    } else if type_flag == seq!['A'] {
        TypedValueView { kind: ValueKind::AssocArray, data: ValueDataView::Text(value) }
    } else if type_flag == seq!['F'] {
        TypedValueView { kind: ValueKind::Float, data: ValueDataView::Float(value) }
    } else {
        TypedValueView { kind: ValueKind::String, data: ValueDataView::Text(value) }
    }
}

fn flag_is(flag: &Vec<char>, c: char) -> (r: bool)
    ensures
        r == (flag@ == seq![c]),
{
    if flag.len() == 1 && flag[0] == c {
        assert(flag@ =~= seq![c]);
        true
    } else {
        false
    }
}

/// Build the typed value of a wire-protocol value from its type flag.
/// Shared by `VAR` and `ARG` events so that both agree on the type
/// vocabulary (`i`/`s`/`a`/`A`/`F`).
pub fn value_for_flag(value: &str, type_flag: &str) -> (r: TypedValue)
    ensures
        r@ == spec_typed_value(value@, type_flag@),
{
    let flag = chars_of(type_flag);
    if flag_is(&flag, 'i') {
        // Defensive parse: an unparseable integer falls back to 0
        // rather than dropping the value.
        let i = match parse_i64(value) {
            Some(i) => i,
            None => 0,
        };
        TypedValue { kind: ValueKind::Int, data: ValueData::Int(i) }
    } else if flag_is(&flag, 'a') {
        TypedValue { kind: ValueKind::Array, data: ValueData::Text(value.to_owned()) }
    } else if flag_is(&flag, 'A') {
        TypedValue { kind: ValueKind::AssocArray, data: ValueData::Text(value.to_owned()) }
    } else if flag_is(&flag, 'F') {
        TypedValue { kind: ValueKind::Float, data: ValueData::Float(value.to_owned()) }
    } else {
        TypedValue { kind: ValueKind::String, data: ValueData::Text(value.to_owned()) }
    }
}

/// An integer-typed value records the integer its text writes: every
/// text that reads as an `i64` gives that integer, negative ones
/// included, and 0 stands only for a text that does not read as one.
pub proof fn law_int_flag_keeps_integer(value: Seq<char>)
    ensures
        spec_typed_value(value, seq!['i']).kind == ValueKind::Int,
        forall|n: i64| spec_parse_i64(value) == Some(n) ==> spec_typed_value(value, seq!['i']).data
            == ValueDataView::Int(n),
        spec_parse_i64(value) is None ==> spec_typed_value(value, seq!['i']).data
            == ValueDataView::Int(0),
{
}

/// The decimal text of any `i64` (with a leading `-` when negative),
/// typed with the flag `i`, records exactly that integer.
pub proof fn law_int_flag_decimal(n: i64)
    ensures
        spec_typed_value(signed_decimal(n as int), seq!['i']) == (TypedValueView {
            kind: ValueKind::Int,
            data: ValueDataView::Int(n),
        }),
{
    lemma_signed_decimal_parses(n);
}

} // verus!
