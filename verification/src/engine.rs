//! The engine handles the core logic of applying operations to units,
//! including resolution of dependencies, building arguments, and error
//! reporting.
//!
//! What is here decides; it neither reads nor writes. Whoever drives it runs
//! the processes and reads the files, hands in what came of it, and is told
//! what to do next.

pub mod executor_pool;
pub mod loader;
pub mod resolver;
pub mod runner;
pub mod shell_executor;
pub mod transport;
pub mod unit_execution;

use crate::error::Error;
use crate::models::operation::Operation;
use crate::models::unit::Unit;
use vstd::hash_map::StringHashMap;
use vstd::prelude::*;
use vstd::string::StringExecFns;

verus! {

/// What the engine is asked to do.
pub struct Opts {
    pub remove_deps: bool,
    pub search_paths: Vec<String>,
    pub operation: Operation,
    pub unit: Unit,
    pub adapters: StringHashMap<String>,
    pub debug: bool,
}

/// Whether the engine can be asked for `op`: for a check, an apply or a
/// remove. The other operations it runs of its own accord.
pub open spec fn is_runnable(op: Operation) -> bool {
    op == Operation::Check || op == Operation::Apply || op == Operation::Remove
}

/// Whether running `op` takes in the dependencies of the unit: an apply
/// always does, a remove does where that was asked for, a check never.
pub open spec fn takes_dependencies(op: Operation, remove_deps: bool) -> bool {
    op == Operation::Apply || (op == Operation::Remove && remove_deps)
}

/// What is to be run on a unit after its check, for the operation `op` of
/// the engine: an apply, if the unit is to be applied and is not present; a
/// remove, if it is to be removed and is present; else nothing.
pub open spec fn after_check(op: Operation, present: bool) -> Option<Operation> {
    if op == Operation::Apply && !present {
        Some(Operation::Apply)
    } else if op == Operation::Remove && present {
        Some(Operation::Remove)
    } else {
        None
    }
}

/// Sequences the operations that the engine was asked for.
pub struct Engine {
    opts: Opts,
}

impl Engine {
    /// The options that the engine was made with.
    pub closed spec fn options(&self) -> Opts {
        self.opts
    }

    /// The operation that the engine was asked for.
    pub open spec fn operation(&self) -> Operation {
        self.options().operation
    }

    /// Whether the engine was asked to remove dependencies too.
    pub open spec fn remove_deps(&self) -> bool {
        self.options().remove_deps
    }

    /// An engine for these options. Dependencies can be asked to be removed
    /// with the `remove` operation alone.
    pub fn new(opts: Opts) -> (r: Result<Engine, Error>)
        ensures
            match r {
                Ok(engine) => {
                    &&& opts.remove_deps ==> opts.operation == Operation::Remove
                    &&& engine.options() == opts
                },
                Err(e) => {
                    &&& opts.remove_deps
                    &&& opts.operation != Operation::Remove
                    &&& e matches Error::Usage(message)
                    &&& message@ == "--remove-deps can only be used with the 'remove' operation"@
                },
            },
    {
        if opts.remove_deps && !matches!(opts.operation, Operation::Remove) {
            return Err(
                Error::Usage(
                    String::from_str("--remove-deps can only be used with the 'remove' operation"),
                ),
            );
        }
        Ok(Engine { opts })
    }

    /// The options of the engine.
    pub fn opts(&self) -> (opts: &Opts)
        ensures
            *opts == self.options(),
    {
        &self.opts
    }

    /// Whether the dependencies of the unit are to be resolved, and the
    /// operation run on each unit of the order; if not, it is run on the
    /// unit alone.
    pub fn run_with_dependencies(&self) -> (r: bool)
        requires
            is_runnable(self.operation()),
        ensures
            r == takes_dependencies(self.operation(), self.remove_deps()),
    {
        match self.opts.operation {
            Operation::Apply => true,
            Operation::Remove => self.opts.remove_deps,
            _ => false,
        }
    }

    /// What is to be run on a unit after its check found it present or not.
    pub fn run_unit(&self, present: bool) -> (next: Option<Operation>)
        requires
            is_runnable(self.operation()),
        ensures
            next == after_check(self.operation(), present),
    {
        match self.opts.operation {
            Operation::Apply => if !present {
                Some(Operation::Apply)
            } else {
                None
            },
            Operation::Remove => if present {
                Some(Operation::Remove)
            } else {
                None
            },
            _ => None,
        }
    }
}

} // verus!
