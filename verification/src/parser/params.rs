//! Parser for parameter definitions.
//!
//! The format is `!foo:string, bar:int, baz:bool`: a `!` marks a parameter
//! as required, then come its name, a colon and the type of its values.

use super::common::{
    is_parse_error, label_at, label_from, outcome, parse_error, value_type_at, value_type_from,
};
use crate::error::Error;
use crate::models::params::{Param, ParamView};
use crate::models::seq_view;
use crate::text::{char_at, has_char, scan, skip_ws, CharClass, Text};
use vstd::prelude::*;

verus! {

/// A parameter at `i`: an optional `!` among blanks, a label, `:` and the
/// name of a type.
pub open spec fn param_at(s: Seq<char>, i: int) -> Option<(int, ParamView)> {
    let bang = skip_ws(s, i);
    let required = has_char(s, bang, '!');
    let from = if required {
        skip_ws(s, bang + 1)
    } else {
        i
    };
    match label_at(s, from, CharClass::Label) {
        Some((colon, name)) => if has_char(s, colon, ':') {
            match value_type_at(s, colon + 1) {
                Some((next, value_type)) => Some((next, ParamView { name, value_type, required })),
                None => None,
            }
        } else {
            None
        },
        None => None,
    }
}

/// Reads a parameter at position `i`.
pub fn param_from(t: &Text, i: usize) -> (r: Option<(usize, Param)>)
    requires
        i <= t@.len(),
    ensures
        match r {
            Some((next, p)) => param_at(t@, i as int) == Some((next as int, p@)) && i < next
                <= t@.len(),
            None => param_at(t@, i as int) is None,
        },
{
    let n = t.len();
    let bang = scan(t, i, CharClass::Space);
    let required = char_at(t, bang, '!');
    let from = if required {
        scan(t, bang + 1, CharClass::Space)
    } else {
        i
    };
    match label_from(t, from, CharClass::Label) {
        Some((colon, name)) => if char_at(t, colon, ':') {
            match value_type_from(t, colon + 1) {
                Some((next, value_type)) => Some((next, Param { name, value_type, required })),
                None => None,
            }
        } else {
            None
        },
        None => None,
    }
}

/// The parameters that follow at `pos`, each after a comma, added to those of
/// `acc`; and the position after the last of them.
pub open spec fn params_more(s: Seq<char>, pos: int, acc: Seq<ParamView>) -> (int, Seq<ParamView>)
    decreases s.len() - pos,
{
    if has_char(s, pos, ',') {
        match param_at(s, pos + 1) {
            Some((next, p)) => if pos < next <= s.len() {
                params_more(s, next, acc.push(p))
            } else {
                (pos, acc)
            },
            None => (pos, acc),
        }
    } else {
        (pos, acc)
    }
}

/// A list of parameters at `i`, separated by commas; it may be empty.
pub open spec fn params_at(s: Seq<char>, i: int) -> (int, Seq<ParamView>) {
    match param_at(s, i) {
        Some((next, p)) => params_more(s, next, seq![p]),
        None => (i, Seq::empty()),
    }
}

/// Reads a list of parameters at position `i`.
pub fn params_from(t: &Text, i: usize) -> (r: (usize, Vec<Param>))
    requires
        i <= t@.len(),
    ensures
        r.0 == params_at(t@, i as int).0,
        seq_view(r.1@) == params_at(t@, i as int).1,
        i <= r.0 <= t@.len(),
{
    let mut list: Vec<Param> = Vec::new();
    let mut pos = i;
    match param_from(t, i) {
        Some((next, p)) => {
            list.push(p);
            pos = next;
        },
        None => {
            assert(seq_view(list@) =~= Seq::<ParamView>::empty());
            return (i, list);
        },
    }
    assert(seq_view(list@) =~= seq![list@[0]@]);
    let mut done = false;
    while !done
        invariant
            i <= pos <= t@.len(),
            params_at(t@, i as int) == params_more(t@, pos as int, seq_view(list@)),
            done ==> params_more(t@, pos as int, seq_view(list@)) == (pos as int, seq_view(list@)),
        decreases t@.len() - pos + (if done { 0int } else { 1int }),
    {
        let n = t.len();
        if char_at(t, pos, ',') {
            match param_from(t, pos + 1) {
                Some((next, p)) => {
                    let ghost before = seq_view(list@);
                    list.push(p);
                    assert(seq_view(list@) =~= before.push(p@));
                    pos = next;
                },
                None => {
                    done = true;
                },
            }
        } else {
            done = true;
        }
    }
    (pos, list)
}

/// A parameter.
pub fn param(input: &str) -> (r: Result<(&str, Param), Error>)
    ensures
        match r {
            Ok((rest, p)) => outcome(input@, param_at(input@, 0)) == Some((rest@, p@)),
            Err(e) => param_at(input@, 0) is None && is_parse_error(e, input@, 0),
        },
{
    let t = Text::new(input);
    match param_from(&t, 0) {
        Some((next, p)) => Ok((t.rest(next), p)),
        None => Err(parse_error(input, 0)),
    }
}

/// A list of parameters, separated by commas.
pub fn params(input: &str) -> (r: (&str, Vec<Param>))
    ensures
        r.0@ == input@.skip(params_at(input@, 0).0),
        seq_view(r.1@) == params_at(input@, 0).1,
{
    let t = Text::new(input);
    let (next, list) = params_from(&t, 0);
    (t.rest(next), list)
}

} // verus!
