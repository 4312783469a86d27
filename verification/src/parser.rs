//! The engine has a couple of formats for things like dep strings, captures,
//! and unit files that need to be parsed. This module contains sub-modules
//! for these various parsers, and exposes high-level functions to use them.
//!
//! Each grammar is stated as a function on the characters of the input and a
//! position in it, which gives the position after what was read together
//! with what was read, or nothing.

pub mod arg_values;
pub mod captures;
pub mod common;
pub mod deps;
pub mod params;
pub mod stdout_data;
pub mod target;
pub mod unit_file;
pub mod value;
pub mod version;

use crate::error::Error;
use crate::models::dep::{Dependency, DependencyView};
use crate::models::params::{Param, ParamView};
use crate::models::seq_view;
use crate::models::stdout_data::StdoutData;
use crate::models::target::Target;
use crate::models::val::{bound_by, Value, ValueSet};
use crate::text::{scan, skip_ws, CharClass, Text};
use common::{is_parse_error, parse_error};
use stdout_data::{stdout_data_at, stdout_data_from, Scan, Scanned};
use vstd::prelude::*;

verus! {

/// Denotes the result of a streaming parser, so the caller can know if more
/// data needs to be sent.
#[derive(Debug)]
pub enum StreamingResult<'a, T> {
    Incomplete,
    Complete(Result<(&'a str, T), Error>),
}

/// A streaming parser for the output of a unit. Informs its caller via the
/// result if more data is needed.
pub fn parse_stdout_data(input: &str) -> (r: StreamingResult<'_, StdoutData>)
    ensures
        match r {
            StreamingResult::Incomplete => stdout_data_at(input@) is Incomplete,
            StreamingResult::Complete(Ok((rest, data))) => {
                &&& stdout_data_at(input@) matches Scan::Done(next, v)
                &&& 0 < next <= input@.len()
                &&& rest@ == input@.skip(next)
                &&& data@ == v
            },
            StreamingResult::Complete(Err(e)) => {
                &&& stdout_data_at(input@) matches Scan::Malformed(position)
                &&& is_parse_error(e, input@, position)
            },
        },
{
    let t = Text::new(input);
    match stdout_data_from(&t) {
        Scanned::Incomplete => StreamingResult::Incomplete,
        Scanned::Malformed(p) => StreamingResult::Complete(Err(parse_error(input, p))),
        Scanned::Done(next, data) => StreamingResult::Complete(Ok((t.rest(next), data))),
    }
}

/// What comes of reading the whole of `s` as one item among blanks, where
/// `found` is what was read after the blanks at the start: the item, if it
/// was read and only blanks follow it; else the position where `s` stops
/// following the grammar, which is where the item should start, if none was
/// read, and where what follows it starts, if one was.
pub open spec fn whole<V>(s: Seq<char>, found: Option<(int, V)>) -> Result<V, int> {
    match found {
        Some((next, value)) => if skip_ws(s, next) >= s.len() {
            Ok(value)
        } else {
            Err(skip_ws(s, next))
        },
        None => Err(skip_ws(s, 0)),
    }
}

/// Whether `r` says of the whole of `input` what `expected` says, the values
/// compared by `same`.
pub open spec fn agrees<T, V>(
    r: Result<T, Error>,
    input: Seq<char>,
    expected: Result<V, int>,
    same: spec_fn(T, V) -> bool,
) -> bool {
    match r {
        Ok(value) => expected matches Ok(v) && same(value, v),
        Err(e) => expected matches Err(position) && is_parse_error(e, input, position),
    }
}

/// What reading the whole of `text` as a value comes to.
pub open spec fn parsed_value(text: Seq<char>) -> Result<crate::models::val::ValueView, int> {
    whole(text, value::value_at(text, skip_ws(text, 0)))
}

/// What reading the whole of `text` as a list of parameters comes to.
pub open spec fn parsed_params(text: Seq<char>) -> Result<Seq<ParamView>, int> {
    whole(text, Some(params::params_at(text, skip_ws(text, 0))))
}

/// What reading the whole of `text` as a list of dependencies comes to.
pub open spec fn parsed_deps(text: Seq<char>) -> Result<Seq<DependencyView>, int> {
    whole(text, deps::deps_at(text, skip_ws(text, 0)))
}

/// Where the text of `input`, skipping blanks, has reached after an item that
/// ended at `next`; that no item was read counts as a stop at the start.
fn finish<T>(t: &Text, input: &str, start: usize, found: Option<(usize, T)>) -> (r: Result<
    T,
    Error,
>)
    requires
        t@ == input@,
        start == skip_ws(t@, 0),
        found matches Some((next, _)) ==> next <= t@.len(),
    ensures
        match (found, r) {
            (Some((next, value)), Ok(v)) => skip_ws(input@, next as int) >= input@.len() && v
                == value,
            (Some((next, _)), Err(e)) => skip_ws(input@, next as int) < input@.len()
                && is_parse_error(e, input@, skip_ws(input@, next as int)),
            (None, Ok(_)) => false,
            (None, Err(e)) => is_parse_error(e, input@, skip_ws(input@, 0)),
        },
{
    match found {
        Some((next, value)) => {
            let end = scan(t, next, CharClass::Space);
            if end >= t.len() {
                Ok(value)
            } else {
                Err(parse_error(input, end))
            }
        },
        None => Err(parse_error(input, start)),
    }
}

/// Reads a list of parameter definitions, such as `!foo:string, bar:int`.
pub fn parse_params(input: &str) -> (r: Result<Vec<Param>, Error>)
    ensures
        agrees(
            r,
            input@,
            whole(input@, Some(params::params_at(input@, skip_ws(input@, 0)))),
            |x: Vec<Param>, v: Seq<ParamView>| seq_view(x@) == v,
        ),
{
    let t = Text::new(input);
    let start = scan(&t, 0, CharClass::Space);
    let found = params::params_from(&t, start);
    finish(&t, input, start, Some(found))
}

/// Reads a target, such as `ssh://user@host`.
pub fn parse_target(input: &str) -> (r: Result<Target, Error>)
    ensures
        agrees(
            r,
            input@,
            whole(input@, target::target_at(input@, skip_ws(input@, 0))),
            |x: Target, v: crate::models::target::TargetView| x@ == v,
        ),
{
    let t = Text::new(input);
    let start = scan(&t, 0, CharClass::Space);
    let found = target::target_from(&t, start);
    finish(&t, input, start, found)
}

/// Reads a value.
pub fn parse_value(input: &str) -> (r: Result<Value, Error>)
    ensures
        agrees(
            r,
            input@,
            whole(input@, value::value_at(input@, skip_ws(input@, 0))),
            |x: Value, v: crate::models::val::ValueView| x@ == v,
        ),
{
    let t = Text::new(input);
    let start = scan(&t, 0, CharClass::Space);
    let found = value::value_from(&t, start);
    finish(&t, input, start, found)
}

/// Reads a list of dependencies.
pub fn parse_deps(input: &str) -> (r: Result<Vec<Dependency>, Error>)
    ensures
        agrees(
            r,
            input@,
            whole(input@, deps::deps_at(input@, skip_ws(input@, 0))),
            |x: Vec<Dependency>, v: Seq<DependencyView>| seq_view(x@) == v,
        ),
{
    let t = Text::new(input);
    let start = scan(&t, 0, CharClass::Space);
    let found = deps::deps_from(&t, start);
    finish(&t, input, start, found)
}

/// Reads a list of arguments, such as `name="x", count=3`.
pub fn parse_args(input: &str) -> (r: Result<ValueSet, Error>)
    ensures
        agrees(
            r,
            input@,
            whole(input@, Some(arg_values::args_at(input@, skip_ws(input@, 0)))),
            |x: ValueSet, v: Seq<crate::models::val::Binding>| x@ == bound_by(v),
        ),
{
    let t = Text::new(input);
    let start = scan(&t, 0, CharClass::Space);
    let found = arg_values::args_from(&t, start);
    finish(&t, input, start, Some(found))
}

/// Reads the header line of a unit in a unit file, such as `# [ name ]`, and
/// gives the name.
pub fn parse_unitfile_header(input: &str) -> (r: Result<String, Error>)
    ensures
        agrees(
            r,
            input@,
            whole(input@, unit_file::header_at(input@, skip_ws(input@, 0))),
            |x: String, v: Seq<char>| x@ == v,
        ),
{
    let t = Text::new(input);
    let start = scan(&t, 0, CharClass::Space);
    let found = unit_file::header_from(&t, start);
    finish(&t, input, start, found)
}

} // verus!
