//! Common parsing functions used by the various parsers.

use crate::error::Error;
use crate::models::val::ValueType;
use crate::text::{scan, skip_ws, span, tag_at, has_tag, CharClass, Text};
use vstd::prelude::*;
use vstd::string::StringExecFns;

verus! {

/// What a parser that was started at the beginning of `input` hands back:
/// the text that it left unread, and what it read.
pub open spec fn outcome<V>(input: Seq<char>, at: Option<(int, V)>) -> Option<(Seq<char>, V)> {
    match at {
        Some((next, value)) => Some((input.skip(next), value)),
        None => None,
    }
}

/// The error for `input` that stops following its grammar at `position`.
pub fn parse_error(input: &str, position: usize) -> (e: Error)
    ensures
        is_parse_error(e, input@, position as int),
{
    Error::Parse { input: String::from_str(input), position }
}

/// Whether `e` is the parse error for `input` at `position`.
pub open spec fn is_parse_error(e: Error, input: Seq<char>, position: int) -> bool {
    &&& e matches Error::Parse { input: source, position: p }
    &&& source@ == input
    &&& p == position
}

/// A label of the given class at `i`, blanks around it skipped: its text, and
/// the position after the blanks that follow it.
pub open spec fn label_at(s: Seq<char>, i: int, class: CharClass) -> Option<(int, Seq<char>)> {
    let from = skip_ws(s, i);
    let to = span(s, from, class);
    if to > from {
        Some((skip_ws(s, to), s.subrange(from, to)))
    } else {
        None
    }
}

/// Reads a label of the given class at position `i`.
pub fn label_from(t: &Text, i: usize, class: CharClass) -> (r: Option<(usize, String)>)
    requires
        i <= t@.len(),
    ensures
        match r {
            Some((next, name)) => label_at(t@, i as int, class) == Some((next as int, name@)) && i
                < next <= t@.len(),
            None => label_at(t@, i as int, class) is None,
        },
{
    let from = scan(t, i, CharClass::Space);
    let to = scan(t, from, class);
    if to > from {
        let next = scan(t, to, CharClass::Space);
        Some((next, t.slice(from, to)))
    } else {
        None
    }
}

/// A name made of alphanumerics, `_`, `-` and `.`, with blanks around it.
pub fn label(input: &str) -> (r: Result<(&str, String), Error>)
    ensures
        match r {
            Ok((rest, name)) => outcome(input@, label_at(input@, 0, CharClass::Label)) == Some(
                (rest@, name@),
            ),
            Err(e) => label_at(input@, 0, CharClass::Label) is None && is_parse_error(
                e,
                input@,
                0,
            ),
        },
{
    let t = Text::new(input);
    match label_from(&t, 0, CharClass::Label) {
        Some((next, name)) => Ok((t.rest(next), name)),
        None => Err(parse_error(input, 0)),
    }
}

/// The name of a type at `i`, blanks around it skipped.
pub open spec fn value_type_at(s: Seq<char>, i: int) -> Option<(int, ValueType)> {
    let from = skip_ws(s, i);
    if has_tag(s, from, "string"@) {
        Some((skip_ws(s, from + 6), ValueType::String))
    } else if has_tag(s, from, "int"@) {
        Some((skip_ws(s, from + 3), ValueType::Int))
    } else if has_tag(s, from, "bool"@) {
        Some((skip_ws(s, from + 4), ValueType::Bool))
    } else if has_tag(s, from, "float"@) {
        Some((skip_ws(s, from + 5), ValueType::Float))
    } else {
        None
    }
}

/// Reads the name of a type at position `i`.
pub fn value_type_from(t: &Text, i: usize) -> (r: Option<(usize, ValueType)>)
    requires
        i <= t@.len(),
    ensures
        match r {
            Some((next, ty)) => value_type_at(t@, i as int) == Some((next as int, ty)) && i < next
                <= t@.len(),
            None => value_type_at(t@, i as int) is None,
        },
{
    proof {
        reveal_strlit("string");
        reveal_strlit("int");
        reveal_strlit("bool");
        reveal_strlit("float");
        assert("string"@.len() == 6);
        assert("int"@.len() == 3);
        assert("bool"@.len() == 4);
        assert("float"@.len() == 5);
    }
    let n = t.len();
    let from = scan(t, i, CharClass::Space);
    if tag_at(t, from, "string") {
        Some((scan(t, from + 6, CharClass::Space), ValueType::String))
    } else if tag_at(t, from, "int") {
        Some((scan(t, from + 3, CharClass::Space), ValueType::Int))
    } else if tag_at(t, from, "bool") {
        Some((scan(t, from + 4, CharClass::Space), ValueType::Bool))
    } else if tag_at(t, from, "float") {
        Some((scan(t, from + 5, CharClass::Space), ValueType::Float))
    } else {
        None
    }
}

/// The name of a type of value, with blanks around it.
pub fn value_type(input: &str) -> (r: Result<(&str, ValueType), Error>)
    ensures
        match r {
            Ok((rest, ty)) => outcome(input@, value_type_at(input@, 0)) == Some((rest@, ty)),
            Err(e) => value_type_at(input@, 0) is None && is_parse_error(e, input@, 0),
        },
{
    let t = Text::new(input);
    match value_type_from(&t, 0) {
        Some((next, ty)) => Ok((t.rest(next), ty)),
        None => Err(parse_error(input, 0)),
    }
}

/// Skips the blanks at the start of the input.
pub fn ws(input: &str) -> (rest: &str)
    ensures
        rest@ == input@.skip(skip_ws(input@, 0)),
{
    let t = Text::new(input);
    let next = scan(&t, 0, CharClass::Space);
    t.rest(next)
}

} // verus!
