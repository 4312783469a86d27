//! Parses the dependencies that a unit declares.
//!
//! A dependency is written as
//! `[target:]name[:version] [args] [-> captures]`, for example
//! `curl.sh:>2.3 url="http://example.org" -> size:file_size:int`, and several
//! of them are separated by commas.

use super::arg_values::{args_at, args_from};
use super::captures::{captures_at, captures_from};
use super::common::{is_parse_error, label_at, label_from, outcome, parse_error};
use super::target::{target_at, target_from};
use super::version::{version_spec_at, version_spec_from};
use crate::error::Error;
use crate::models::dep::{CaptureDefinition, CaptureView, Dependency, DependencyView};
use crate::models::target::{Target, TargetView};
use crate::models::val::bound_by;
use crate::models::version::VersionSpecification;
use crate::models::{opt_view, seq_view};
use crate::text::{char_at, has_char, CharClass, Text};
use vstd::prelude::*;

verus! {

/// The target of a dependency at `i`, if it names one: a target and `:`.
pub open spec fn target_tag_at(s: Seq<char>, i: int) -> (int, Option<TargetView>) {
    match target_at(s, i) {
        Some((next, target)) => if has_char(s, next, ':') {
            (next + 1, Some(target))
        } else {
            (i, None)
        },
        None => (i, None),
    }
}

/// The name of a dependency at `i`: a label that may hold `/`, and a version
/// specification after a `:` where one follows.
pub open spec fn tagged_name_at(s: Seq<char>, i: int) -> Option<
    (int, (Seq<char>, Option<VersionSpecification>)),
> {
    match label_at(s, i, CharClass::PathLabel) {
        Some((next, name)) => if has_char(s, next, ':') {
            match version_spec_at(s, next + 1) {
                Some((after, spec)) => Some((after, (name, Some(spec)))),
                None => Some((next, (name, None))),
            }
        } else {
            Some((next, (name, None)))
        },
        None => None,
    }
}

/// A dependency at `i`: its target where it names one, its name, its
/// arguments and its captures where it has any.
pub open spec fn dep_at(s: Seq<char>, i: int) -> Option<(int, DependencyView)> {
    let (name_from, target) = target_tag_at(s, i);
    match tagged_name_at(s, name_from) {
        Some((args_from, (name, _))) => {
            let (captures_from, pairs) = args_at(s, args_from);
            let (next, captures) = match captures_at(s, captures_from) {
                Some((next, captures)) => (next, captures),
                None => (captures_from, Seq::empty()),
            };
            Some((next, DependencyView { name, args: bound_by(pairs), captures, target }))
        },
        None => None,
    }
}

/// Reads the target of a dependency at position `i`.
pub fn target_tag_from(t: &Text, i: usize) -> (r: (usize, Option<Target>))
    requires
        i <= t@.len(),
    ensures
        target_tag_at(t@, i as int) == (r.0 as int, opt_view(r.1)),
        i <= r.0 <= t@.len(),
{
    let n = t.len();
    match target_from(t, i) {
        Some((next, target)) => if char_at(t, next, ':') {
            (next + 1, Some(target))
        } else {
            (i, None)
        },
        None => (i, None),
    }
}

/// Reads the name of a dependency at position `i`.
pub fn tagged_name_from(t: &Text, i: usize) -> (r: Option<
    (usize, String, Option<VersionSpecification>),
>)
    requires
        i <= t@.len(),
    ensures
        match r {
            Some((next, name, spec)) => tagged_name_at(t@, i as int) == Some(
                (next as int, (name@, spec)),
            ) && i < next <= t@.len(),
            None => tagged_name_at(t@, i as int) is None,
        },
{
    let n = t.len();
    match label_from(t, i, CharClass::PathLabel) {
        Some((next, name)) => if char_at(t, next, ':') {
            match version_spec_from(t, next + 1) {
                Some((after, spec)) => Some((after, name, Some(spec))),
                None => Some((next, name, None)),
            }
        } else {
            Some((next, name, None))
        },
        None => None,
    }
}

/// Reads a dependency at position `i`.
pub fn dep_from(t: &Text, i: usize) -> (r: Option<(usize, Dependency)>)
    requires
        i <= t@.len(),
    ensures
        match r {
            Some((next, d)) => dep_at(t@, i as int) == Some((next as int, d@)) && i < next
                <= t@.len(),
            None => dep_at(t@, i as int) is None,
        },
{
    let (name_from, target) = target_tag_from(t, i);
    match tagged_name_from(t, name_from) {
        Some((args_start, name, _)) => {
            let (captures_start, args) = args_from(t, args_start);
            let (next, captures) = match captures_from(t, captures_start) {
                Some((next, captures)) => (next, captures),
                None => {
                    let none: Vec<CaptureDefinition> = Vec::new();
                    assert(seq_view(none@) =~= Seq::<CaptureView>::empty());
                    (captures_start, none)
                },
            };
            Some((next, Dependency { name, args, captures, target }))
        },
        None => None,
    }
}

/// The dependencies that follow at `pos`, each after a comma, added to those
/// of `acc`; and the position after the last of them.
pub open spec fn deps_more(s: Seq<char>, pos: int, acc: Seq<DependencyView>) -> (
    int,
    Seq<DependencyView>,
)
    decreases s.len() - pos,
{
    if has_char(s, pos, ',') {
        match dep_at(s, pos + 1) {
            Some((next, d)) => if pos < next <= s.len() {
                deps_more(s, next, acc.push(d))
            } else {
                (pos, acc)
            },
            None => (pos, acc),
        }
    } else {
        (pos, acc)
    }
}

/// One or more dependencies at `i`, separated by commas.
pub open spec fn deps_at(s: Seq<char>, i: int) -> Option<(int, Seq<DependencyView>)> {
    match dep_at(s, i) {
        Some((next, d)) => Some(deps_more(s, next, seq![d])),
        None => None,
    }
}

/// Reads one or more dependencies at position `i`.
pub fn deps_from(t: &Text, i: usize) -> (r: Option<(usize, Vec<Dependency>)>)
    requires
        i <= t@.len(),
    ensures
        match r {
            Some((next, list)) => deps_at(t@, i as int) == Some((next as int, seq_view(list@)))
                && i < next <= t@.len(),
            None => deps_at(t@, i as int) is None,
        },
{
    let mut list: Vec<Dependency> = Vec::new();
    let mut pos = i;
    match dep_from(t, i) {
        Some((next, d)) => {
            list.push(d);
            pos = next;
        },
        None => {
            return None;
        },
    }
    assert(seq_view(list@) =~= seq![list@[0]@]);
    let ghost first = pos;
    let ghost start = seq_view(list@);
    let mut done = false;
    while !done
        invariant
            i < pos <= t@.len(),
            deps_more(t@, first as int, start) == deps_more(t@, pos as int, seq_view(list@)),
            done ==> deps_more(t@, pos as int, seq_view(list@)) == (pos as int, seq_view(list@)),
        decreases t@.len() - pos + (if done { 0int } else { 1int }),
    {
        let n = t.len();
        if char_at(t, pos, ',') {
            match dep_from(t, pos + 1) {
                Some((next, d)) => {
                    let ghost before = seq_view(list@);
                    list.push(d);
                    assert(seq_view(list@) =~= before.push(d@));
                    pos = next;
                },
                None => {
                    done = true;
                },
            }
        } else {
            done = true;
        }
    }
    Some((pos, list))
}

/// The name of a unit: a label that may hold `/`, with blanks around it.
pub fn label(input: &str) -> (r: Result<(&str, String), Error>)
    ensures
        match r {
            Ok((rest, name)) => outcome(input@, label_at(input@, 0, CharClass::PathLabel))
                == Some((rest@, name@)),
            Err(e) => label_at(input@, 0, CharClass::PathLabel) is None && is_parse_error(
                e,
                input@,
                0,
            ),
        },
{
    let t = Text::new(input);
    match label_from(&t, 0, CharClass::PathLabel) {
        Some((next, name)) => Ok((t.rest(next), name)),
        None => Err(parse_error(input, 0)),
    }
}

/// The target of a dependency, where it names one.
pub fn target_tag(input: &str) -> (r: (&str, Option<Target>))
    ensures
        r.0@ == input@.skip(target_tag_at(input@, 0).0),
        opt_view(r.1) == target_tag_at(input@, 0).1,
{
    let t = Text::new(input);
    let (next, target) = target_tag_from(&t, 0);
    (t.rest(next), target)
}

/// The name of a dependency, with its version specification where it has one.
pub fn tagged_name(input: &str) -> (r: Result<
    (&str, (String, Option<VersionSpecification>)),
    Error,
>)
    ensures
        match r {
            Ok((rest, (name, spec))) => outcome(input@, tagged_name_at(input@, 0)) == Some(
                (rest@, (name@, spec)),
            ),
            Err(e) => tagged_name_at(input@, 0) is None && is_parse_error(e, input@, 0),
        },
{
    let t = Text::new(input);
    match tagged_name_from(&t, 0) {
        Some((next, name, spec)) => Ok((t.rest(next), (name, spec))),
        None => Err(parse_error(input, 0)),
    }
}

/// A dependency.
pub fn dep(input: &str) -> (r: Result<(&str, Dependency), Error>)
    ensures
        match r {
            Ok((rest, d)) => outcome(input@, dep_at(input@, 0)) == Some((rest@, d@)),
            Err(e) => dep_at(input@, 0) is None && is_parse_error(e, input@, 0),
        },
{
    let t = Text::new(input);
    match dep_from(&t, 0) {
        Some((next, d)) => Ok((t.rest(next), d)),
        None => Err(parse_error(input, 0)),
    }
}

/// One or more dependencies, separated by commas.
pub fn deps(input: &str) -> (r: Result<(&str, Vec<Dependency>), Error>)
    ensures
        match r {
            Ok((rest, list)) => outcome(input@, deps_at(input@, 0)) == Some(
                (rest@, seq_view(list@)),
            ),
            Err(e) => deps_at(input@, 0) is None && is_parse_error(e, input@, 0),
        },
{
    let t = Text::new(input);
    match deps_from(&t, 0) {
        Some((next, list)) => Ok((t.rest(next), list)),
        None => Err(parse_error(input, 0)),
    }
}

} // verus!
