//! Provides the validation of command line arguments into the options
//! required by the engine.

use crate::error::Error;
use crate::models::seq_view;
use crate::models::val::{value_of, Value, ValueView};
use crate::text::{scan, span, CharClass, Text};
use vstd::prelude::*;
use vstd::string::StringExecFns;

verus! {

/// Sets the noise level for a reporter
#[derive(Clone, Copy, Debug, PartialEq, Eq, PartialOrd, Ord, Structural)]
pub enum Verbosity {
    Quiet,
    Default,
    Verbose,
    Debug,
}

impl Verbosity {
    /// The verbosity that the flags of the command line ask for, of which at
    /// most one may be set.
    pub open spec fn of(debug: bool, verbose: bool, quiet: bool) -> Option<Verbosity> {
        if (debug && verbose) || (debug && quiet) || (verbose && quiet) {
            None
        } else if debug {
            Some(Verbosity::Debug)
        } else if verbose {
            Some(Verbosity::Verbose)
        } else if quiet {
            Some(Verbosity::Quiet)
        } else {
            Some(Verbosity::Default)
        }
    }

    /// The verbosity that the flags of the command line ask for.
    pub fn from_flags(debug: bool, verbose: bool, quiet: bool) -> (r: Result<Verbosity, Error>)
        ensures
            match r {
                Ok(v) => Self::of(debug, verbose, quiet) == Some(v),
                Err(e) => {
                    &&& Self::of(debug, verbose, quiet) is None
                    &&& e matches Error::Usage(message)
                    &&& message@
                        == "Only one of --debug, --verbose, or --quiet can be used at a time"@
                },
            },
    {
        if (debug && verbose) || (debug && quiet) || (verbose && quiet) {
            return Err(
                Error::Usage(
                    String::from_str(
                        "Only one of --debug, --verbose, or --quiet can be used at a time",
                    ),
                ),
            );
        }
        if debug {
            Ok(Verbosity::Debug)
        } else if verbose {
            Ok(Verbosity::Verbose)
        } else if quiet {
            Ok(Verbosity::Quiet)
        } else {
            Ok(Verbosity::Default)
        }
    }
}

/// The argument that `KEY=VALUE` gives on the command line: the text must
/// hold exactly one `=`; the key is what stands before it, the value what
/// the text after it stands for.
pub open spec fn argument_of(s: Seq<char>) -> Option<(Seq<char>, ValueView)> {
    let eq = span(s, 0, CharClass::Except('='));
    if eq < s.len() && span(s, eq + 1, CharClass::Except('=')) == s.len() {
        Some((s.subrange(0, eq), value_of(s.subrange(eq + 1, s.len() as int))))
    } else {
        None
    }
}

/// Reads an argument for a unit as given on the command line.
pub fn parse_argument(value: &str) -> (r: Result<(String, Value), Error>)
    ensures
        match r {
            Ok((key, v)) => argument_of(value@) == Some((key@, v@)),
            Err(e) => {
                &&& argument_of(value@) is None
                &&& e matches Error::Usage(message)
                &&& message@ == "Arguments must be in the form of KEY=VALUE"@
            },
        },
{
    let t = Text::new(value);
    let n = t.len();
    let eq = scan(&t, 0, CharClass::Except('='));
    if eq < n && scan(&t, eq + 1, CharClass::Except('=')) == n {
        let text = t.slice(eq + 1, n);
        Ok((t.slice(0, eq), Value::from_string(text.as_str())))
    } else {
        Err(Error::Usage(String::from_str("Arguments must be in the form of KEY=VALUE")))
    }
}

/// The adapter that `PROTOCOL=COMMAND` registers on the command line: the
/// protocol is what stands before the first `=`, the command what stands
/// after it.
pub open spec fn adapter_of(s: Seq<char>) -> Option<(Seq<char>, Seq<char>)> {
    let eq = span(s, 0, CharClass::Except('='));
    if eq < s.len() {
        Some((s.subrange(0, eq), s.subrange(eq + 1, s.len() as int)))
    } else {
        None
    }
}

/// Reads an adapter as given on the command line.
pub fn parse_adapter(value: &str) -> (r: Result<(String, String), Error>)
    ensures
        match r {
            Ok((proto, command)) => adapter_of(value@) == Some((proto@, command@)),
            Err(e) => {
                &&& adapter_of(value@) is None
                &&& e matches Error::Usage(message)
                &&& message@ == "Adapters must be in the form of PROTOCOL=COMMAND"@
            },
        },
{
    let t = Text::new(value);
    let n = t.len();
    let eq = scan(&t, 0, CharClass::Except('='));
    if eq < n {
        Ok((t.slice(0, eq), t.slice(eq + 1, n)))
    } else {
        Err(Error::Usage(String::from_str("Adapters must be in the form of PROTOCOL=COMMAND")))
    }
}

/// The pieces of `s` between its colons, from position `i` on; a piece may
/// be empty.
pub open spec fn pieces(s: Seq<char>, i: int) -> Seq<Seq<char>>
    decreases s.len() - i,
{
    let end = span(s, i, CharClass::Except(':'));
    if 0 <= i <= end < s.len() {
        seq![s.subrange(i, end)] + pieces(s, end + 1)
    } else {
        seq![s.subrange(i, s.len() as int)]
    }
}

/// Splits a list of search paths at its colons.
pub fn split_search_paths(path_string: &str) -> (paths: Vec<String>)
    ensures
        seq_view(paths@) == pieces(path_string@, 0),
{
    let t = Text::new(path_string);
    let n = t.len();
    let mut paths: Vec<String> = Vec::new();
    let mut i: usize = 0;
    let mut done = false;
    assert(seq_view(paths@) =~= Seq::<Seq<char>>::empty());
    while !done
        invariant
            i <= n,
            n == t@.len(),
            !done ==> pieces(t@, 0) == seq_view(paths@) + pieces(t@, i as int),
            done ==> pieces(t@, 0) == seq_view(paths@),
        decreases n - i + (if done { 0int } else { 1int }),
    {
        let end = scan(&t, i, CharClass::Except(':'));
        let ghost before = seq_view(paths@);
        if end < n {
            paths.push(t.slice(i, end));
            assert(seq_view(paths@) =~= before.push(t@.subrange(i as int, end as int)));
            assert(before + (seq![t@.subrange(i as int, end as int)] + pieces(t@, end + 1))
                =~= seq_view(paths@) + pieces(t@, end + 1));
            i = end + 1;
        } else {
            paths.push(t.slice(i, n));
            assert(seq_view(paths@) =~= before + seq![t@.subrange(i as int, n as int)]);
            done = true;
        }
    }
    paths
}

} // verus!
