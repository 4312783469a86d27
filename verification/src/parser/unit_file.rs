//! Parses the header lines that separate the units of a unit file.

use super::common::{is_parse_error, outcome, parse_error};
use crate::error::Error;
use crate::text::{char_at, has_char, scan, skip_ws, span, CharClass, Text};
use vstd::prelude::*;

verus! {

/// Where a name ends whose word so far ends at `k`: further words, each after
/// blanks, belong to it.
pub open spec fn name_end(s: Seq<char>, k: int) -> int
    decreases s.len() - k,
{
    let word = skip_ws(s, k);
    let end = span(s, word, CharClass::Label);
    if k < word < end <= s.len() {
        name_end(s, end)
    } else {
        k
    }
}

/// A header at `i`: `#`, then, in square brackets, the name of a unit, with
/// blanks wherever they please but inside a word. The name is one or more
/// words of label characters, as written.
pub open spec fn header_at(s: Seq<char>, i: int) -> Option<(int, Seq<char>)> {
    let hash = skip_ws(s, i);
    let open = skip_ws(s, hash + 1);
    let from = skip_ws(s, open + 1);
    let word = span(s, from, CharClass::Label);
    let to = name_end(s, word);
    let close = skip_ws(s, to);
    if has_char(s, hash, '#') && has_char(s, open, '[') && from < word && has_char(s, close, ']') {
        Some((skip_ws(s, close + 1), s.subrange(from, to)))
    } else {
        None
    }
}

/// Reads the end of a name whose first word ends at `k`.
fn name_end_from(t: &Text, k: usize) -> (e: usize)
    requires
        k <= t@.len(),
    ensures
        e == name_end(t@, k as int),
        k <= e <= t@.len(),
{
    let mut e = k;
    let mut done = false;
    while !done
        invariant
            k <= e <= t@.len(),
            name_end(t@, k as int) == name_end(t@, e as int),
            done ==> name_end(t@, e as int) == e,
        decreases t@.len() - e + (if done { 0int } else { 1int }),
    {
        let word = scan(t, e, CharClass::Space);
        let end = scan(t, word, CharClass::Label);
        if e < word && word < end {
            e = end;
        } else {
            done = true;
        }
    }
    e
}

/// Reads a header at position `i`.
pub fn header_from(t: &Text, i: usize) -> (r: Option<(usize, String)>)
    requires
        i <= t@.len(),
    ensures
        match r {
            Some((next, name)) => header_at(t@, i as int) == Some((next as int, name@)) && i < next
                <= t@.len(),
            None => header_at(t@, i as int) is None,
        },
{
    let n = t.len();
    let hash = scan(t, i, CharClass::Space);
    if !char_at(t, hash, '#') {
        return None;
    }
    let open = scan(t, hash + 1, CharClass::Space);
    if !char_at(t, open, '[') {
        return None;
    }
    let from = scan(t, open + 1, CharClass::Space);
    let word = scan(t, from, CharClass::Label);
    if word <= from {
        return None;
    }
    let to = name_end_from(t, word);
    let close = scan(t, to, CharClass::Space);
    if !char_at(t, close, ']') {
        return None;
    }
    Some((scan(t, close + 1, CharClass::Space), t.slice(from, to)))
}

/// Returns the unit name parsed from a unit header line.
pub fn header(input: &str) -> (r: Result<(&str, String), Error>)
    ensures
        match r {
            Ok((rest, name)) => outcome(input@, header_at(input@, 0)) == Some((rest@, name@)),
            Err(e) => header_at(input@, 0) is None && is_parse_error(e, input@, 0),
        },
{
    let t = Text::new(input);
    match header_from(&t, 0) {
        Some((next, name)) => Ok((t.rest(next), name)),
        None => Err(parse_error(input, 0)),
    }
}

} // verus!
