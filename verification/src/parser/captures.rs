//! Parses captures for dependencies.

use super::common::{
    is_parse_error, label_at, label_from, outcome, parse_error, value_type_at, value_type_from,
};
use crate::error::Error;
use crate::models::dep::{CaptureDefinition, CaptureView};
use crate::models::seq_view;
use crate::text::{char_at, has_char, has_tag, tag_at, CharClass, Text};
use vstd::prelude::*;

verus! {

/// A capture without an alias at `i`: a label, `:` and the name of a type.
pub open spec fn unaliased_capture_at(s: Seq<char>, i: int) -> Option<(int, CaptureView)> {
    match label_at(s, i, CharClass::Label) {
        Some((colon, name)) => if has_char(s, colon, ':') {
            match value_type_at(s, colon + 1) {
                Some((next, value_type)) => Some(
                    (next, CaptureView { name, value_type, required: false, alias: None }),
                ),
                None => None,
            }
        } else {
            None
        },
        None => None,
    }
}

/// A capture with an alias at `i`: a label, `:`, the alias, `:` and the name
/// of a type.
pub open spec fn aliased_capture_at(s: Seq<char>, i: int) -> Option<(int, CaptureView)> {
    match label_at(s, i, CharClass::Label) {
        Some((colon, name)) => if has_char(s, colon, ':') {
            match label_at(s, colon + 1, CharClass::Label) {
                Some((second, alias)) => if has_char(s, second, ':') {
                    match value_type_at(s, second + 1) {
                        Some((next, value_type)) => Some(
                            (
                                next,
                                CaptureView {
                                    name,
                                    value_type,
                                    required: false,
                                    alias: Some(alias),
                                },
                            ),
                        ),
                        None => None,
                    }
                } else {
                    None
                },
                None => None,
            }
        } else {
            None
        },
        None => None,
    }
}

/// A capture at `i`, with an alias if it can be read with one.
pub open spec fn capture_at(s: Seq<char>, i: int) -> Option<(int, CaptureView)> {
    if aliased_capture_at(s, i) is Some {
        aliased_capture_at(s, i)
    } else {
        unaliased_capture_at(s, i)
    }
}

/// Reads a capture without an alias at position `i`.
pub fn unaliased_capture_from(t: &Text, i: usize) -> (r: Option<(usize, CaptureDefinition)>)
    requires
        i <= t@.len(),
    ensures
        match r {
            Some((next, c)) => unaliased_capture_at(t@, i as int) == Some((next as int, c@)) && i
                < next <= t@.len(),
            None => unaliased_capture_at(t@, i as int) is None,
        },
{
    let n = t.len();
    match label_from(t, i, CharClass::Label) {
        Some((colon, name)) => if char_at(t, colon, ':') {
            match value_type_from(t, colon + 1) {
                Some((next, value_type)) => Some(
                    (next, CaptureDefinition { name, value_type, required: false, alias: None }),
                ),
                None => None,
            }
        } else {
            None
        },
        None => None,
    }
}

/// Reads a capture with an alias at position `i`.
pub fn aliased_capture_from(t: &Text, i: usize) -> (r: Option<(usize, CaptureDefinition)>)
    requires
        i <= t@.len(),
    ensures
        match r {
            Some((next, c)) => aliased_capture_at(t@, i as int) == Some((next as int, c@)) && i
                < next <= t@.len(),
            None => aliased_capture_at(t@, i as int) is None,
        },
{
    let n = t.len();
    match label_from(t, i, CharClass::Label) {
        Some((colon, name)) => if char_at(t, colon, ':') {
            match label_from(t, colon + 1, CharClass::Label) {
                Some((second, alias)) => if char_at(t, second, ':') {
                    match value_type_from(t, second + 1) {
                        Some((next, value_type)) => Some(
                            (
                                next,
                                CaptureDefinition {
                                    name,
                                    value_type,
                                    required: false,
                                    alias: Some(alias),
                                },
                            ),
                        ),
                        None => None,
                    }
                } else {
                    None
                },
                None => None,
            }
        } else {
            None
        },
        None => None,
    }
}

/// Reads a capture at position `i`.
pub fn capture_from(t: &Text, i: usize) -> (r: Option<(usize, CaptureDefinition)>)
    requires
        i <= t@.len(),
    ensures
        match r {
            Some((next, c)) => capture_at(t@, i as int) == Some((next as int, c@)) && i < next
                <= t@.len(),
            None => capture_at(t@, i as int) is None,
        },
{
    match aliased_capture_from(t, i) {
        Some(found) => Some(found),
        None => unaliased_capture_from(t, i),
    }
}

/// The captures that follow at `pos`, each after a comma, added to those of
/// `acc`; and the position after the last of them.
pub open spec fn captures_more(s: Seq<char>, pos: int, acc: Seq<CaptureView>) -> (
    int,
    Seq<CaptureView>,
)
    decreases s.len() - pos,
{
    if has_char(s, pos, ',') {
        match capture_at(s, pos + 1) {
            Some((next, c)) => if pos < next <= s.len() {
                captures_more(s, next, acc.push(c))
            } else {
                (pos, acc)
            },
            None => (pos, acc),
        }
    } else {
        (pos, acc)
    }
}

/// The captures of a dependency at `i`: `->` and one or more captures,
/// separated by commas.
pub open spec fn captures_at(s: Seq<char>, i: int) -> Option<(int, Seq<CaptureView>)> {
    if has_tag(s, i, "->"@) {
        match capture_at(s, i + 2) {
            Some((next, c)) => Some(captures_more(s, next, seq![c])),
            None => None,
        }
    } else {
        None
    }
}

/// Reads the captures of a dependency at position `i`.
pub fn captures_from(t: &Text, i: usize) -> (r: Option<(usize, Vec<CaptureDefinition>)>)
    requires
        i <= t@.len(),
    ensures
        match r {
            Some((next, list)) => captures_at(t@, i as int) == Some(
                (next as int, seq_view(list@)),
            ) && i < next <= t@.len(),
            None => captures_at(t@, i as int) is None,
        },
{
    proof {
        reveal_strlit("->");
        assert("->"@.len() == 2);
    }
    let n = t.len();
    if !tag_at(t, i, "->") {
        return None;
    }
    let mut list: Vec<CaptureDefinition> = Vec::new();
    let mut pos = i;
    match capture_from(t, i + 2) {
        Some((next, c)) => {
            list.push(c);
            pos = next;
        },
        None => {
            return None;
        },
    }
    assert(seq_view(list@) =~= seq![list@[0]@]);
    let ghost first = pos;
    let ghost start = seq_view(list@);
    let mut done = false;
    while !done
        invariant
            i < pos <= t@.len(),
            captures_more(t@, first as int, start) == captures_more(
                t@,
                pos as int,
                seq_view(list@),
            ),
            done ==> captures_more(t@, pos as int, seq_view(list@)) == (
                pos as int,
                seq_view(list@),
            ),
        decreases t@.len() - pos + (if done { 0int } else { 1int }),
    {
        let n = t.len();
        if char_at(t, pos, ',') {
            match capture_from(t, pos + 1) {
                Some((next, c)) => {
                    let ghost before = seq_view(list@);
                    list.push(c);
                    assert(seq_view(list@) =~= before.push(c@));
                    pos = next;
                },
                None => {
                    done = true;
                },
            }
        } else {
            done = true;
        }
    }
    Some((pos, list))
}

/// A capture.
pub fn capture(input: &str) -> (r: Result<(&str, CaptureDefinition), Error>)
    ensures
        match r {
            Ok((rest, c)) => outcome(input@, capture_at(input@, 0)) == Some((rest@, c@)),
            Err(e) => capture_at(input@, 0) is None && is_parse_error(e, input@, 0),
        },
{
    let t = Text::new(input);
    match capture_from(&t, 0) {
        Some((next, c)) => Ok((t.rest(next), c)),
        None => Err(parse_error(input, 0)),
    }
}

/// The captures of a dependency: `->` and a list of captures.
pub fn captures(input: &str) -> (r: Result<(&str, Vec<CaptureDefinition>), Error>)
    ensures
        match r {
            Ok((rest, list)) => outcome(input@, captures_at(input@, 0)) == Some(
                (rest@, seq_view(list@)),
            ),
            Err(e) => captures_at(input@, 0) is None && is_parse_error(e, input@, 0),
        },
{
    let t = Text::new(input);
    match captures_from(&t, 0) {
        Some((next, list)) => Ok((t.rest(next), list)),
        None => Err(parse_error(input, 0)),
    }
}

} // verus!
