//! Runs units via a POSIX shell.
//!
//! The shell is a process behind a pipe. This module says what it is told
//! and how its answers are read; running it is left to whoever drives the
//! engine.

pub mod adapter;
pub mod message_stream;
pub mod subprocess;
pub mod stdout_data;

use crate::error::Error;
use crate::models::dep::Dependencies;
use crate::models::emit::{Message, MessageView};
use crate::models::meta::MetaView;
use crate::models::operation::{OpCompletion, OpStatus, Operation};
use crate::models::seq_view;
use crate::models::target::{Target, TargetView};
use crate::models::val::{listing, Binding, ValueSet, ValueView};
use message_stream::{check_result, deps_result, get_apply_values, get_check_values, get_deps, get_meta, get_remove_values, meta_result, reports, values_result, Fault};
use vstd::prelude::*;
use vstd::string::StringExecFns;

verus! {

/// The lines that hand arguments to a script: for each binding in turn, its
/// name, `="`, the value as displayed, `"` and a line feed.
pub open spec fn args_text(args: Seq<Binding>) -> Seq<char>
    decreases args.len(),
{
    if args.len() == 0 {
        Seq::<char>::empty()
    } else {
        args_text(args.drop_last()) + args.last().0 + "=\""@ + args.last().1.text() + "\"\n"@
    }
}

/// The lines that hand `args` to a script.
pub fn args_str(args: &ValueSet) -> (r: String)
    ensures
        r@ == args_text(listing(args@)),
{
    let n = args.len();
    let ghost all = listing(args@);
    let mut argstr = String::new();
    let mut i: usize = 0;
    assert(all.take(0) =~= Seq::<Binding>::empty());
    while i < n
        invariant
            i <= n,
            n == all.len(),
            all == args.bindings(),
            argstr@ == args_text(all.take(i as int)),
        decreases n - i,
    {
        let shown = args.value_at(i).to_string();
        argstr.append(args.name_at(i).as_str());
        argstr.append("=\"");
        argstr.append(shown.as_str());
        argstr.append("\"\n");
        proof {
            let longer = all.take(i + 1);
            assert(longer.drop_last() =~= all.take(i as int));
            assert(longer.last() == all[i as int]);
        }
        i = i + 1;
    }
    assert(all.take(n as int) =~= all);
    argstr
}

/// The options that the subshell of an operation sets: to stop at the first
/// failure and at the first unset variable, and, when debugging, to trace.
pub open spec fn set_line(debug: bool) -> Seq<char> {
    if debug {
        "set -e -u -x\n"@
    } else {
        "set -e -u\n"@
    }
}

/// What is written to the shell to run the operation `op` of `script` with
/// `args`: a subshell that sets its options, defines the unit, sets the
/// arguments and calls the operation; and after it the command that emits the
/// status with which the subshell ended.
pub open spec fn op_text(op: Operation, script: Seq<char>, args: Seq<Binding>, debug: bool) -> Seq<
    char,
> {
    "(\n"@ + set_line(debug) + "\n"@ + script + "\n"@ + args_text(args) + "\n"@ + op.name()
        + "\n)\n _emit status $? \n"@
}

/// Why the process of an executor did not end well.
pub open spec fn exit_fault(e: Error, code: i32, stderr: Seq<char>) -> bool {
    &&& e matches Error::AdapterExit { code: c, stderr: s }
    &&& c == code
    &&& s@ == stderr
}

/// Executes the operations of units on one target through a shell: says what
/// to write to the shell and what its answers mean.
pub struct ShellExecutor {
    target: Target,
    debug: bool,
}

impl ShellExecutor {
    /// The target that the executor serves.
    pub closed spec fn target(&self) -> TargetView {
        self.target@
    }

    /// Whether the executor traces the commands of the scripts it runs.
    pub closed spec fn debug(&self) -> bool {
        self.debug
    }

    /// An executor for `target`.
    pub fn init(target: &Target, debug: bool) -> (executor: Self)
        ensures
            executor.target() == target@,
            executor.debug() == debug,
    {
        ShellExecutor { target: target.clone(), debug }
    }

    /// What to write to the shell to run an operation from the given script.
    pub fn run_op(&self, op: Operation, script: &str, args: &ValueSet) -> (r: String)
        ensures
            r@ == op_text(op, script@, listing(args@), self.debug()),
    {
        let argstr = args_str(args);
        let name = op.to_string();
        let mut text = String::from_str("(\n");
        if self.debug {
            text.append("set -e -u -x\n");
        } else {
            text.append("set -e -u\n");
        }
        text.append("\n");
        text.append(script);
        text.append("\n");
        text.append(argstr.as_str());
        text.append("\n");
        text.append(name.as_str());
        text.append("\n)\n _emit status $? \n");
        text
    }

    /// What the end of the shell's process means, after its input was closed
    /// and its error output read to the end: an exit code other than 0 is an
    /// error that carries the code and the error output.
    pub fn finalize(self, status_code: i32, stderr: &str) -> (r: Result<(), Error>)
        ensures
            match r {
                Ok(_) => status_code == 0,
                Err(e) => status_code != 0 && exit_fault(e, status_code, stderr@),
            },
    {
        if status_code != 0 {
            Err(Error::AdapterExit { code: status_code, stderr: String::from_str(stderr) })
        } else {
            Ok(())
        }
    }
}

/// What the messages of the operation `op`, which ended with `status`, come
/// to.
pub ghost enum Outcome {
    Check(bool, Map<Seq<char>, ValueView>),
    Apply(Map<Seq<char>, ValueView>),
    Remove(Map<Seq<char>, ValueView>),
    Deps(Seq<crate::models::dep::DependencyView>),
    Meta(MetaView),
}

/// What the messages of the operation `op`, which ended with `status`, come
/// to, or what is wrong with them.
pub open spec fn outcome(op: Operation, status: OpStatus, messages: Seq<MessageView>) -> Result<
    Outcome,
    Fault,
> {
    match op {
        Operation::Check => match check_result(status, messages) {
            Ok((present, values)) => Ok(Outcome::Check(present, values)),
            Err(fault) => Err(fault),
        },
        Operation::Apply => match values_result(status, messages) {
            Ok(values) => Ok(Outcome::Apply(values)),
            Err(fault) => Err(fault),
        },
        Operation::Remove => match values_result(status, messages) {
            Ok(values) => Ok(Outcome::Remove(values)),
            Err(fault) => Err(fault),
        },
        Operation::Deps => match deps_result(status, messages) {
            Ok(deps) => Ok(Outcome::Deps(deps)),
            Err(fault) => Err(fault),
        },
        Operation::Meta => match meta_result(status, messages) {
            Ok(meta) => Ok(Outcome::Meta(meta)),
            Err(fault) => Err(fault),
        },
    }
}

/// Whether `completion` is a completion with a good status that holds
/// `outcome`.
pub open spec fn completes(completion: OpCompletion, outcome: Outcome) -> bool {
    match outcome {
        Outcome::Check(present, values) => completion matches OpCompletion::Check(s, p, v) && s
            == OpStatus::Success && p == present && v@ == values,
        Outcome::Apply(values) => completion matches OpCompletion::Apply(s, v) && s
            == OpStatus::Success && v@ == values,
        Outcome::Remove(values) => completion matches OpCompletion::Remove(s, v) && s
            == OpStatus::Success && v@ == values,
        Outcome::Deps(deps) => completion matches OpCompletion::Deps(s, d) && s
            == OpStatus::Success && d@.units == deps && d@.files == Seq::<
            crate::models::dep::FileDependencyView,
        >::empty(),
        Outcome::Meta(meta) => completion matches OpCompletion::Meta(s, m) && s
            == OpStatus::Success && m@ == meta,
    }
}

/// Decodes the messages that the operation `op` emitted before it ended with
/// `status`, as the operation requires.
pub fn decode(op: Operation, status: OpStatus, messages: Vec<Message>) -> (r: Result<
    OpCompletion,
    Error,
>)
    ensures
        match r {
            Ok(completion) => outcome(op, status, seq_view(messages@)) matches Ok(o) && completes(
                completion,
                o,
            ),
            Err(e) => outcome(op, status, seq_view(messages@)) matches Err(fault) && reports(
                e,
                fault,
            ),
        },
{
    match op {
        Operation::Check => match get_check_values(status, messages) {
            Ok((present, values)) => Ok(OpCompletion::Check(OpStatus::Success, present, values)),
            Err(e) => Err(e),
        },
        Operation::Apply => match get_apply_values(status, messages) {
            Ok(values) => Ok(OpCompletion::Apply(OpStatus::Success, values)),
            Err(e) => Err(e),
        },
        Operation::Remove => match get_remove_values(status, messages) {
            Ok(values) => Ok(OpCompletion::Remove(OpStatus::Success, values)),
            Err(e) => Err(e),
        },
        Operation::Deps => match get_deps(status, messages) {
            Ok(units) => {
                let deps = Dependencies { units, files: Vec::new() };
                assert(seq_view(deps.files@) =~= Seq::<
                    crate::models::dep::FileDependencyView,
                >::empty());
                Ok(OpCompletion::Deps(OpStatus::Success, deps))
            },
            Err(e) => Err(e),
        },
        Operation::Meta => match get_meta(status, messages) {
            Ok(meta) => Ok(OpCompletion::Meta(OpStatus::Success, meta)),
            Err(e) => Err(e),
        },
    }
}

} // verus!
