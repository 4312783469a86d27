//! Parses values used for args and emits.

use super::common::{is_parse_error, label_at, label_from, outcome, parse_error};
use crate::error::Error;
use crate::models::val::{Binding, Value, ValueView};
use crate::text::{
    char_at, has_char, has_tag, number, read_number, scan, scan_digits, skip_ws, span, tag_at,
    CharClass, Text,
};
use vstd::prelude::*;

verus! {

/// A quoted string at `i`: a quote, single or double, at least one character
/// that is not that quote, and the same quote again.
pub open spec fn string_at(s: Seq<char>, i: int) -> Option<(int, ValueView)> {
    if has_char(s, i, '"') || has_char(s, i, '\'') {
        let close = span(s, i + 1, CharClass::Except(s[i]));
        if i + 1 < close < s.len() {
            Some((close + 1, ValueView::String(s.subrange(i + 1, close))))
        } else {
            None
        }
    } else {
        None
    }
}

/// Reads a quoted string at position `i`.
pub fn string_from(t: &Text, i: usize) -> (r: Option<(usize, Value)>)
    requires
        i <= t@.len(),
    ensures
        match r {
            Some((next, v)) => string_at(t@, i as int) == Some((next as int, v@)) && i < next
                <= t@.len(),
            None => string_at(t@, i as int) is None,
        },
{
    let n = t.len();
    if char_at(t, i, '"') || char_at(t, i, '\'') {
        let quote = t.at(i);
        let close = scan(t, i + 1, CharClass::Except(quote));
        if i + 1 < close && close < t.len() {
            Some((close + 1, Value::String(t.slice(i + 1, close))))
        } else {
            None
        }
    } else {
        None
    }
}

/// A decimal fraction at `i`: digits, a point, digits.
pub open spec fn float_at(s: Seq<char>, i: int) -> Option<(int, ValueView)> {
    let point = span(s, i, CharClass::Digit);
    let end = span(s, point + 1, CharClass::Digit);
    if 0 <= i < point && has_char(s, point, '.') && point + 1 < end {
        Some((end, ValueView::Float(s.subrange(i, end))))
    } else {
        None
    }
}

/// Reads a decimal fraction at position `i`.
pub fn float_from(t: &Text, i: usize) -> (r: Option<(usize, Value)>)
    requires
        i <= t@.len(),
    ensures
        match r {
            Some((next, v)) => float_at(t@, i as int) == Some((next as int, v@)) && i < next
                <= t@.len(),
            None => float_at(t@, i as int) is None,
        },
{
    let n = t.len();
    let point = scan(t, i, CharClass::Digit);
    if i < point && char_at(t, point, '.') {
        let end = scan(t, point + 1, CharClass::Digit);
        if point + 1 < end {
            return Some((end, Value::Float(t.slice(i, end))));
        }
    }
    None
}

/// An integer at `i`: an optional sign and decimal digits that spell a number
/// of 32 bits.
pub open spec fn int_at(s: Seq<char>, i: int) -> Option<(int, ValueView)> {
    let negative = has_char(s, i, '-');
    let start = if negative || has_char(s, i, '+') {
        i + 1
    } else {
        i
    };
    let end = span(s, start, CharClass::Digit);
    let magnitude = number(s.subrange(start, end)) as int;
    if 0 <= i && start < end && (if negative {
        magnitude <= 2147483648
    } else {
        magnitude < 2147483648
    }) {
        Some(
            (
                end,
                ValueView::Int(
                    if negative {
                        -magnitude
                    } else {
                        magnitude
                    },
                ),
            ),
        )
    } else {
        None
    }
}

/// Reads an integer at position `i`.
pub fn int_from(t: &Text, i: usize) -> (r: Option<(usize, Value)>)
    requires
        i <= t@.len(),
    ensures
        match r {
            Some((next, v)) => int_at(t@, i as int) == Some((next as int, v@)) && i < next
                <= t@.len(),
            None => int_at(t@, i as int) is None,
        },
{
    let n = t.len();
    let negative = char_at(t, i, '-');
    let start = if negative || char_at(t, i, '+') {
        i + 1
    } else {
        i
    };
    let end = scan_digits(t, start);
    if start >= end {
        return None;
    }
    match read_number(t, start, end, 2147483648) {
        Some(magnitude) => if negative {
            let v: i64 = -(magnitude as i64);
            Some((end, Value::Int(v as i32)))
        } else if magnitude < 2147483648 {
            Some((end, Value::Int(magnitude as i32)))
        } else {
            None
        },
        None => None,
    }
}

/// A truth value at `i`: `true` or `false`.
pub open spec fn bool_at(s: Seq<char>, i: int) -> Option<(int, ValueView)> {
    if has_tag(s, i, "true"@) {
        Some((i + 4, ValueView::Bool(true)))
    } else if has_tag(s, i, "false"@) {
        Some((i + 5, ValueView::Bool(false)))
    } else {
        None
    }
}

/// Reads a truth value at position `i`.
pub fn bool_from(t: &Text, i: usize) -> (r: Option<(usize, Value)>)
    requires
        i <= t@.len(),
    ensures
        match r {
            Some((next, v)) => bool_at(t@, i as int) == Some((next as int, v@)) && i < next
                <= t@.len(),
            None => bool_at(t@, i as int) is None,
        },
{
    proof {
        reveal_strlit("true");
        reveal_strlit("false");
        assert("true"@.len() == 4);
        assert("false"@.len() == 5);
    }
    let n = t.len();
    if tag_at(t, i, "true") {
        Some((i + 4, Value::Bool(true)))
    } else if tag_at(t, i, "false") {
        Some((i + 5, Value::Bool(false)))
    } else {
        None
    }
}

/// An unquoted string at `i`: characters up to the next blank or comma, at
/// least one.
pub open spec fn unquoted_string_at(s: Seq<char>, i: int) -> Option<(int, ValueView)> {
    let end = span(s, i, CharClass::Bare);
    if 0 <= i < end {
        Some((end, ValueView::String(s.subrange(i, end))))
    } else {
        None
    }
}

/// Reads an unquoted string at position `i`.
pub fn unquoted_string_from(t: &Text, i: usize) -> (r: Option<(usize, Value)>)
    requires
        i <= t@.len(),
    ensures
        match r {
            Some((next, v)) => unquoted_string_at(t@, i as int) == Some((next as int, v@)) && i
                < next <= t@.len(),
            None => unquoted_string_at(t@, i as int) is None,
        },
{
    let end = scan(t, i, CharClass::Bare);
    if i < end {
        Some((end, Value::String(t.slice(i, end))))
    } else {
        None
    }
}

/// The first of the forms of a value that can be read at `i`, tried in this
/// order: quoted string, fraction, integer, truth value, unquoted string.
pub open spec fn plain_value_at(s: Seq<char>, i: int) -> Option<(int, ValueView)> {
    if string_at(s, i) is Some {
        string_at(s, i)
    } else if float_at(s, i) is Some {
        float_at(s, i)
    } else if int_at(s, i) is Some {
        int_at(s, i)
    } else if bool_at(s, i) is Some {
        bool_at(s, i)
    } else {
        unquoted_string_at(s, i)
    }
}

/// A value at `i`, blanks around it skipped.
pub open spec fn value_at(s: Seq<char>, i: int) -> Option<(int, ValueView)> {
    match plain_value_at(s, skip_ws(s, i)) {
        Some((next, value)) => Some((skip_ws(s, next), value)),
        None => None,
    }
}

/// Reads a value at position `i`.
pub fn value_from(t: &Text, i: usize) -> (r: Option<(usize, Value)>)
    requires
        i <= t@.len(),
    ensures
        match r {
            Some((next, v)) => value_at(t@, i as int) == Some((next as int, v@)) && i < next
                <= t@.len(),
            None => value_at(t@, i as int) is None,
        },
{
    let from = scan(t, i, CharClass::Space);
    let plain = match string_from(t, from) {
        Some(found) => Some(found),
        None => match float_from(t, from) {
            Some(found) => Some(found),
            None => match int_from(t, from) {
                Some(found) => Some(found),
                None => match bool_from(t, from) {
                    Some(found) => Some(found),
                    None => unquoted_string_from(t, from),
                },
            },
        },
    };
    match plain {
        Some((next, value)) => Some((scan(t, next, CharClass::Space), value)),
        None => None,
    }
}

/// A named value at `i`: a label, `=` and a value.
pub open spec fn named_value_at(s: Seq<char>, i: int) -> Option<(int, Binding)> {
    match label_at(s, i, CharClass::Label) {
        Some((eq, name)) => if has_char(s, eq, '=') {
            match value_at(s, eq + 1) {
                Some((next, value)) => Some((next, (name, value))),
                None => None,
            }
        } else {
            None
        },
        None => None,
    }
}

/// Reads a named value at position `i`.
pub fn named_value_from(t: &Text, i: usize) -> (r: Option<(usize, String, Value)>)
    requires
        i <= t@.len(),
    ensures
        match r {
            Some((next, name, v)) => named_value_at(t@, i as int) == Some(
                (next as int, (name@, v@)),
            ) && i < next <= t@.len(),
            None => named_value_at(t@, i as int) is None,
        },
{
    let n = t.len();
    match label_from(t, i, CharClass::Label) {
        Some((eq, name)) => if char_at(t, eq, '=') {
            match value_from(t, eq + 1) {
                Some((next, value)) => Some((next, name, value)),
                None => None,
            }
        } else {
            None
        },
        None => None,
    }
}

/// A quoted string.
pub fn string(input: &str) -> (r: Result<(&str, Value), Error>)
    ensures
        match r {
            Ok((rest, v)) => outcome(input@, string_at(input@, 0)) == Some((rest@, v@)),
            Err(e) => string_at(input@, 0) is None && is_parse_error(e, input@, 0),
        },
{
    let t = Text::new(input);
    match string_from(&t, 0) {
        Some((next, v)) => Ok((t.rest(next), v)),
        None => Err(parse_error(input, 0)),
    }
}

/// A decimal fraction.
pub fn float(input: &str) -> (r: Result<(&str, Value), Error>)
    ensures
        match r {
            Ok((rest, v)) => outcome(input@, float_at(input@, 0)) == Some((rest@, v@)),
            Err(e) => float_at(input@, 0) is None && is_parse_error(e, input@, 0),
        },
{
    let t = Text::new(input);
    match float_from(&t, 0) {
        Some((next, v)) => Ok((t.rest(next), v)),
        None => Err(parse_error(input, 0)),
    }
}

/// An integer.
pub fn integer(input: &str) -> (r: Result<(&str, Value), Error>)
    ensures
        match r {
            Ok((rest, v)) => outcome(input@, int_at(input@, 0)) == Some((rest@, v@)),
            Err(e) => int_at(input@, 0) is None && is_parse_error(e, input@, 0),
        },
{
    let t = Text::new(input);
    match int_from(&t, 0) {
        Some((next, v)) => Ok((t.rest(next), v)),
        None => Err(parse_error(input, 0)),
    }
}

/// A truth value.
pub fn bool(input: &str) -> (r: Result<(&str, Value), Error>)
    ensures
        match r {
            Ok((rest, v)) => outcome(input@, bool_at(input@, 0)) == Some((rest@, v@)),
            Err(e) => bool_at(input@, 0) is None && is_parse_error(e, input@, 0),
        },
{
    let t = Text::new(input);
    match bool_from(&t, 0) {
        Some((next, v)) => Ok((t.rest(next), v)),
        None => Err(parse_error(input, 0)),
    }
}

/// An unquoted string.
pub fn unquoted_string(input: &str) -> (r: Result<(&str, Value), Error>)
    ensures
        match r {
            Ok((rest, v)) => outcome(input@, unquoted_string_at(input@, 0)) == Some((rest@, v@)),
            Err(e) => unquoted_string_at(input@, 0) is None && is_parse_error(e, input@, 0),
        },
{
    let t = Text::new(input);
    match unquoted_string_from(&t, 0) {
        Some((next, v)) => Ok((t.rest(next), v)),
        None => Err(parse_error(input, 0)),
    }
}

/// A value, with blanks around it.
pub fn value(input: &str) -> (r: Result<(&str, Value), Error>)
    ensures
        match r {
            Ok((rest, v)) => outcome(input@, value_at(input@, 0)) == Some((rest@, v@)),
            Err(e) => value_at(input@, 0) is None && is_parse_error(e, input@, 0),
        },
{
    let t = Text::new(input);
    match value_from(&t, 0) {
        Some((next, v)) => Ok((t.rest(next), v)),
        None => Err(parse_error(input, 0)),
    }
}

/// A name, `=` and a value.
pub fn named_value(input: &str) -> (r: Result<(&str, (String, Value)), Error>)
    ensures
        match r {
            Ok((rest, (name, v))) => outcome(input@, named_value_at(input@, 0)) == Some(
                (rest@, (name@, v@)),
            ),
            Err(e) => named_value_at(input@, 0) is None && is_parse_error(e, input@, 0),
        },
{
    let t = Text::new(input);
    match named_value_from(&t, 0) {
        Some((next, name, v)) => Ok((t.rest(next), (name, v))),
        None => Err(parse_error(input, 0)),
    }
}

} // verus!
