//! Parses version tags with comparators, for example `>=3.2.1`.

use super::common::{is_parse_error, outcome, parse_error};
use crate::error::Error;
use crate::models::version::{Comparator, Version, VersionSpecification};
use crate::text::{
    char_at, has_char, has_tag, number, read_number, scan_digits, span, tag_at, CharClass, Text,
};
use vstd::prelude::*;

verus! {

/// A comparator at `i`: `>=`, `<=`, `>`, `<` or `=`.
pub open spec fn comparator_at(s: Seq<char>, i: int) -> Option<(int, Comparator)> {
    if has_tag(s, i, ">="@) {
        Some((i + 2, Comparator::GreaterThanOrEqual))
    } else if has_tag(s, i, "<="@) {
        Some((i + 2, Comparator::LessThanOrEqual))
    } else if has_char(s, i, '>') {
        Some((i + 1, Comparator::GreaterThan))
    } else if has_char(s, i, '<') {
        Some((i + 1, Comparator::LessThan))
    } else if has_char(s, i, '=') {
        Some((i + 1, Comparator::Equal))
    } else {
        None
    }
}

/// Reads a comparator at position `i`.
pub fn comparator_from(t: &Text, i: usize) -> (r: Option<(usize, Comparator)>)
    requires
        i <= t@.len(),
    ensures
        match r {
            Some((next, c)) => comparator_at(t@, i as int) == Some((next as int, c)) && i < next
                <= t@.len(),
            None => comparator_at(t@, i as int) is None,
        },
{
    proof {
        reveal_strlit(">=");
        reveal_strlit("<=");
        assert(">="@.len() == 2);
        assert("<="@.len() == 2);
    }
    let n = t.len();
    if tag_at(t, i, ">=") {
        Some((i + 2, Comparator::GreaterThanOrEqual))
    } else if tag_at(t, i, "<=") {
        Some((i + 2, Comparator::LessThanOrEqual))
    } else if char_at(t, i, '>') {
        Some((i + 1, Comparator::GreaterThan))
    } else if char_at(t, i, '<') {
        Some((i + 1, Comparator::LessThan))
    } else if char_at(t, i, '=') {
        Some((i + 1, Comparator::Equal))
    } else {
        None
    }
}

/// The end of a further component of a version at `i`: a point and digits. If
/// there is none, `i`.
pub open spec fn component_end(s: Seq<char>, i: int) -> int {
    let end = span(s, i + 1, CharClass::Digit);
    if has_char(s, i, '.') && i + 1 < end {
        end
    } else {
        i
    }
}

/// A version at `i`: up to three runs of digits, separated by points, each of
/// which spells a number of 32 bits.
pub open spec fn version_at(s: Seq<char>, i: int) -> Option<(int, Version)> {
    let major_end = span(s, i, CharClass::Digit);
    let minor_end = component_end(s, major_end);
    let patch_end = component_end(s, minor_end);
    let major = number(s.subrange(i, major_end));
    let minor = number(s.subrange(major_end + 1, minor_end));
    let patch = number(s.subrange(minor_end + 1, patch_end));
    if 0 <= i < major_end && major <= u32::MAX && (minor_end > major_end ==> minor <= u32::MAX)
        && (patch_end > minor_end ==> patch <= u32::MAX) {
        Some(
            (
                patch_end,
                Version {
                    major: major as u32,
                    minor: if minor_end > major_end {
                        Some(minor as u32)
                    } else {
                        None
                    },
                    patch: if patch_end > minor_end {
                        Some(patch as u32)
                    } else {
                        None
                    },
                },
            ),
        )
    } else {
        None
    }
}

/// Reads the end of a further component of a version at position `i`.
fn component_from(t: &Text, i: usize) -> (end: usize)
    requires
        i <= t@.len(),
    ensures
        end == component_end(t@, i as int),
        i <= end <= t@.len(),
        end > i ==> crate::text::all_digits(t@.subrange(i + 1, end as int)),
{
    let n = t.len();
    if char_at(t, i, '.') {
        let end = scan_digits(t, i + 1);
        if i + 1 < end {
            return end;
        }
    }
    i
}

/// Reads a version at position `i`.
pub fn version_from(t: &Text, i: usize) -> (r: Option<(usize, Version)>)
    requires
        i <= t@.len(),
    ensures
        match r {
            Some((next, v)) => version_at(t@, i as int) == Some((next as int, v)) && i < next
                <= t@.len(),
            None => version_at(t@, i as int) is None,
        },
{
    let n = t.len();
    let major_end = scan_digits(t, i);
    if major_end <= i {
        return None;
    }
    let minor_end = component_from(t, major_end);
    let patch_end = component_from(t, minor_end);
    let major = match read_number(t, i, major_end, u32::MAX) {
        Some(x) => x,
        None => {
            return None;
        },
    };
    let minor = if minor_end > major_end {
        match read_number(t, major_end + 1, minor_end, u32::MAX) {
            Some(x) => Some(x),
            None => {
                return None;
            },
        }
    } else {
        None
    };
    let patch = if patch_end > minor_end {
        match read_number(t, minor_end + 1, patch_end, u32::MAX) {
            Some(x) => Some(x),
            None => {
                return None;
            },
        }
    } else {
        None
    };
    Some((patch_end, Version { major, minor, patch }))
}

/// A version specification at `i`: a comparator, if there is one, and a
/// version.
pub open spec fn version_spec_at(s: Seq<char>, i: int) -> Option<(int, VersionSpecification)> {
    let (from, comparator) = match comparator_at(s, i) {
        Some((next, c)) => (next, Some(c)),
        None => (i, None),
    };
    match version_at(s, from) {
        Some((next, version)) => Some((next, VersionSpecification { comparator, version })),
        None => None,
    }
}

/// Reads a version specification at position `i`.
pub fn version_spec_from(t: &Text, i: usize) -> (r: Option<(usize, VersionSpecification)>)
    requires
        i <= t@.len(),
    ensures
        match r {
            Some((next, v)) => version_spec_at(t@, i as int) == Some((next as int, v)) && i < next
                <= t@.len(),
            None => version_spec_at(t@, i as int) is None,
        },
{
    let (from, comparator) = match comparator_from(t, i) {
        Some((next, c)) => (next, Some(c)),
        None => (i, None),
    };
    match version_from(t, from) {
        Some((next, version)) => Some((next, VersionSpecification { comparator, version })),
        None => None,
    }
}

/// A comparator.
pub fn comparator(input: &str) -> (r: Result<(&str, Comparator), Error>)
    ensures
        match r {
            Ok((rest, c)) => outcome(input@, comparator_at(input@, 0)) == Some((rest@, c)),
            Err(e) => comparator_at(input@, 0) is None && is_parse_error(e, input@, 0),
        },
{
    let t = Text::new(input);
    match comparator_from(&t, 0) {
        Some((next, c)) => Ok((t.rest(next), c)),
        None => Err(parse_error(input, 0)),
    }
}

/// A version.
pub fn version(input: &str) -> (r: Result<(&str, Version), Error>)
    ensures
        match r {
            Ok((rest, v)) => outcome(input@, version_at(input@, 0)) == Some((rest@, v)),
            Err(e) => version_at(input@, 0) is None && is_parse_error(e, input@, 0),
        },
{
    let t = Text::new(input);
    match version_from(&t, 0) {
        Some((next, v)) => Ok((t.rest(next), v)),
        None => Err(parse_error(input, 0)),
    }
}

/// A version with an optional comparator before it.
pub fn version_spec(input: &str) -> (r: Result<(&str, VersionSpecification), Error>)
    ensures
        match r {
            Ok((rest, v)) => outcome(input@, version_spec_at(input@, 0)) == Some((rest@, v)),
            Err(e) => version_spec_at(input@, 0) is None && is_parse_error(e, input@, 0),
        },
{
    let t = Text::new(input);
    match version_spec_from(&t, 0) {
        Some((next, v)) => Ok((t.rest(next), v)),
        None => Err(parse_error(input, 0)),
    }
}

} // verus!
