//! Parses argument values for dependencies and the command line.

use super::value::{named_value_at, named_value_from};
use crate::models::val::{bound_by, Binding, ValueSet, ValueView};
use crate::text::{char_at, has_char, Text};
use vstd::prelude::*;

verus! {

/// The named values that follow at `pos`, each after a comma, added to those
/// of `acc`; and the position after the last of them.
pub open spec fn args_more(s: Seq<char>, pos: int, acc: Seq<Binding>) -> (int, Seq<Binding>)
    decreases s.len() - pos,
{
    if has_char(s, pos, ',') {
        match named_value_at(s, pos + 1) {
            Some((next, binding)) => if pos < next <= s.len() {
                args_more(s, next, acc.push(binding))
            } else {
                (pos, acc)
            },
            None => (pos, acc),
        }
    } else {
        (pos, acc)
    }
}

/// A list of named values at `i`, separated by commas; it may be empty. A
/// comma that no named value follows is not part of it.
pub open spec fn args_at(s: Seq<char>, i: int) -> (int, Seq<Binding>) {
    match named_value_at(s, i) {
        Some((next, binding)) => args_more(s, next, seq![binding]),
        None => (i, Seq::empty()),
    }
}

/// Reads a list of named values at position `i`.
pub fn args_from(t: &Text, i: usize) -> (r: (usize, ValueSet))
    requires
        i <= t@.len(),
    ensures
        r.0 == args_at(t@, i as int).0,
        r.1@ == bound_by(args_at(t@, i as int).1),
        i <= r.0 <= t@.len(),
{
    let mut set = ValueSet::new();
    let mut pos = i;
    let ghost mut acc: Seq<Binding> = Seq::empty();
    match named_value_from(t, i) {
        Some((next, name, value)) => {
            proof {
                acc = seq![(name@, value@)];
                assert(acc.drop_last() =~= Seq::<Binding>::empty());
                assert(bound_by(acc.drop_last()) =~= Map::<Seq<char>, ValueView>::empty());
                assert(acc.last() == (name@, value@));
            }
            set.add_value(name.as_str(), value);
            pos = next;
        },
        None => {
            return (i, set);
        },
    }
    let mut done = false;
    while !done
        invariant
            i <= pos <= t@.len(),
            args_at(t@, i as int) == args_more(t@, pos as int, acc),
            set@ == bound_by(acc),
            done ==> args_more(t@, pos as int, acc) == (pos as int, acc),
        decreases t@.len() - pos + (if done { 0int } else { 1int }),
    {
        let n = t.len();
        if char_at(t, pos, ',') {
            match named_value_from(t, pos + 1) {
                Some((next, name, value)) => {
                    proof {
                        let longer = acc.push((name@, value@));
                        assert(longer.drop_last() =~= acc);
                        acc = longer;
                    }
                    set.add_value(name.as_str(), value);
                    pos = next;
                },
                None => {
                    done = true;
                },
            }
        } else {
            done = true;
        }
    }
    (pos, set)
}

/// A list of named values, separated by commas.
pub fn args(input: &str) -> (r: (&str, ValueSet))
    ensures
        r.0@ == input@.skip(args_at(input@, 0).0),
        r.1@ == bound_by(args_at(input@, 0).1),
{
    let t = Text::new(input);
    let (next, set) = args_from(&t, 0);
    (t.rest(next), set)
}

} // verus!
