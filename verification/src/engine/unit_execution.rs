//! Keeps what is known of the execution of one unit.
//!
//! The driver asks the execution for the meta data or the dependencies of
//! its unit. Where it has none yet, the driver runs the operation on an
//! executor and stores what came of it; from then on the execution answers
//! by itself.

use crate::models::dep::{Dependencies, DependenciesView};
use crate::models::meta::{Meta, MetaView};
use crate::models::opt_view;
use crate::models::val::{Binding, ValueSet, ValueView};
use vstd::prelude::*;

verus! {

/// Manages the execution of a unit. It caches the results of operations, so
/// that operations are not run multiple times, and collects the values that
/// the unit emits.
#[derive(Debug)]
pub struct UnitExecution {
    script: String,
    args: ValueSet,
    emit_data: ValueSet,
    deps: Option<Dependencies>,
    meta: Option<Meta>,
}

/// What a [`UnitExecution`] holds, as mathematics.
pub ghost struct ExecutionView {
    pub script: Seq<char>,
    pub args: Map<Seq<char>, ValueView>,
    pub emit_data: Map<Seq<char>, ValueView>,
    pub deps: Option<DependenciesView>,
    pub meta: Option<MetaView>,
}

/// What can be done to a [`UnitExecution`].
pub ghost enum Call {
    /// Arguments are set.
    SetArgs(Map<Seq<char>, ValueView>),
    /// The meta data that an executor gave are stored.
    StoreMeta(MetaView),
    /// The dependencies that an executor gave are stored.
    StoreDeps(DependenciesView),
    /// The values that an operation emitted are recorded.
    Record(Map<Seq<char>, ValueView>),
}

impl ExecutionView {
    /// The execution of a unit with this script, of which nothing is known
    /// yet.
    pub open spec fn fresh(script: Seq<char>) -> ExecutionView {
        ExecutionView {
            script,
            args: Map::empty(),
            emit_data: Map::empty(),
            deps: None,
            meta: None,
        }
    }

    /// The execution after `call`. Meta data and dependencies are stored
    /// once: where some are kept already, they stay.
    pub open spec fn after(self, call: Call) -> ExecutionView {
        match call {
            Call::SetArgs(args) => ExecutionView {
                args: self.args.union_prefer_right(args),
                ..self
            },
            Call::StoreMeta(meta) => if self.meta is Some {
                self
            } else {
                ExecutionView { meta: Some(meta), ..self }
            },
            Call::StoreDeps(deps) => if self.deps is Some {
                self
            } else {
                ExecutionView { deps: Some(deps), ..self }
            },
            Call::Record(emitted) => ExecutionView {
                emit_data: self.emit_data.union_prefer_right(emitted),
                ..self
            },
        }
    }

    /// The execution after each of `calls`, in order.
    pub open spec fn after_all(self, calls: Seq<Call>) -> ExecutionView
        decreases calls.len(),
    {
        if calls.len() == 0 {
            self
        } else {
            self.after_all(calls.drop_last()).after(calls.last())
        }
    }

    /// Whether an executor has to be asked for the meta data.
    pub open spec fn needs_meta(self) -> bool {
        self.meta is None
    }

    /// Whether an executor has to be asked for the dependencies.
    pub open spec fn needs_deps(self) -> bool {
        self.deps is None
    }

    /// How often an executor is asked for meta data while `calls` are made:
    /// before each call that stores meta data, if none are kept by then.
    pub open spec fn meta_runs(self, calls: Seq<Call>) -> nat
        decreases calls.len(),
    {
        if calls.len() == 0 {
            0
        } else {
            let before = self.after_all(calls.drop_last());
            let run: nat = if calls.last() is StoreMeta && before.needs_meta() {
                1
            } else {
                0
            };
            self.meta_runs(calls.drop_last()) + run
        }
    }

    /// How often an executor is asked for dependencies while `calls` are
    /// made: before each call that stores dependencies, if none are kept by
    /// then.
    pub open spec fn deps_runs(self, calls: Seq<Call>) -> nat
        decreases calls.len(),
    {
        if calls.len() == 0 {
            0
        } else {
            let before = self.after_all(calls.drop_last());
            let run: nat = if calls.last() is StoreDeps && before.needs_deps() {
                1
            } else {
                0
            };
            self.deps_runs(calls.drop_last()) + run
        }
    }
}

/// Meta data and dependencies that are kept stay as they are, whatever is
/// done to the execution.
pub proof fn lemma_kept_stays(e: ExecutionView, calls: Seq<Call>)
    ensures
        e.meta is Some ==> e.after_all(calls).meta == e.meta,
        e.deps is Some ==> e.after_all(calls).deps == e.deps,
        e.meta is Some ==> e.meta_runs(calls) == 0,
        e.deps is Some ==> e.deps_runs(calls) == 0,
    decreases calls.len(),
{
    if calls.len() > 0 {
        lemma_kept_stays(e, calls.drop_last());
    }
}

/// Whether one of `calls` stores meta data.
pub open spec fn stores_meta(calls: Seq<Call>) -> bool {
    exists|i: int| 0 <= i < calls.len() && #[trigger] calls[i] is StoreMeta
}

/// Whether one of `calls` stores dependencies.
pub open spec fn stores_deps(calls: Seq<Call>) -> bool {
    exists|i: int| 0 <= i < calls.len() && #[trigger] calls[i] is StoreDeps
}

/// Over any sequence of calls, an executor is asked for the meta data of a
/// unit at most once, and exactly once where they are stored at all; and so
/// for its dependencies.
pub proof fn lemma_at_most_once(e: ExecutionView, calls: Seq<Call>)
    ensures
        e.meta_runs(calls) <= 1,
        e.deps_runs(calls) <= 1,
        e.needs_meta() && stores_meta(calls) ==> e.meta_runs(calls) == 1,
        e.needs_deps() && stores_deps(calls) ==> e.deps_runs(calls) == 1,
        e.meta_runs(calls) == 1 ==> e.after_all(calls).meta is Some,
        e.deps_runs(calls) == 1 ==> e.after_all(calls).deps is Some,
        e.needs_meta() && !stores_meta(calls) ==> e.after_all(calls).meta is None,
        e.needs_deps() && !stores_deps(calls) ==> e.after_all(calls).deps is None,
    decreases calls.len(),
{
    if calls.len() > 0 {
        let head = calls.drop_last();
        lemma_at_most_once(e, head);
        let before = e.after_all(head);
        if stores_meta(head) {
            let i = choose|i: int| 0 <= i < head.len() && #[trigger] head[i] is StoreMeta;
            assert(calls[i] is StoreMeta);
        }
        if stores_deps(head) {
            let i = choose|i: int| 0 <= i < head.len() && #[trigger] head[i] is StoreDeps;
            assert(calls[i] is StoreDeps);
        }
        if stores_meta(calls) && !stores_meta(head) {
            let i = choose|i: int| 0 <= i < calls.len() && #[trigger] calls[i] is StoreMeta;
            if i < head.len() {
                assert(head[i] is StoreMeta);
            }
        }
        if stores_deps(calls) && !stores_deps(head) {
            let i = choose|i: int| 0 <= i < calls.len() && #[trigger] calls[i] is StoreDeps;
            if i < head.len() {
                assert(head[i] is StoreDeps);
            }
        }
        if calls.last() is StoreMeta {
            assert(calls[calls.len() - 1] is StoreMeta);
        }
        if calls.last() is StoreDeps {
            assert(calls[calls.len() - 1] is StoreDeps);
        }
    }
}

impl View for UnitExecution {
    type V = ExecutionView;

    closed spec fn view(&self) -> ExecutionView {
        ExecutionView {
            script: self.script@,
            args: self.args@,
            emit_data: self.emit_data@,
            deps: opt_view(self.deps),
            meta: opt_view(self.meta),
        }
    }
}

impl UnitExecution {
    /// The arguments of the unit, as it lists them.
    pub closed spec fn arg_bindings(&self) -> Seq<Binding> {
        self.args.bindings()
    }

    /// The execution of a unit with this script, of which nothing is known
    /// yet.
    pub fn new(script: String) -> (e: UnitExecution)
        ensures
            e@ == ExecutionView::fresh(script@),
    {
        UnitExecution {
            script,
            emit_data: ValueSet::new(),
            meta: None,
            deps: None,
            args: ValueSet::new(),
        }
    }

    /// Sets arguments on the unit that will be used for all operations that
    /// follow.
    pub fn set_args(&mut self, args: &ValueSet)
        ensures
            final(self)@ == old(self)@.after(Call::SetArgs(args@)),
    {
        self.args.merge(args);
    }

    /// The meta data of the unit, if they are kept. If not, the meta
    /// operation is to be run on an executor, with [`UnitExecution::script`]
    /// and [`UnitExecution::args`], and what it gives is to be stored with
    /// [`UnitExecution::store_meta`].
    pub fn get_meta(&self) -> (meta: Option<&Meta>)
        ensures
            opt_view(meta) == self@.meta,
            meta is None <==> self@.needs_meta(),
    {
        match &self.meta {
            Some(meta) => Some(meta),
            None => None,
        }
    }

    /// Stores the meta data that an executor gave, unless some are kept
    /// already, and gives the meta data that are kept from now on.
    pub fn store_meta(&mut self, meta: Meta) -> (kept: &Meta)
        ensures
            final(self)@ == old(self)@.after(Call::StoreMeta(meta@)),
            Some(kept@) == final(self)@.meta,
    {
        if self.meta.is_none() {
            self.meta = Some(meta);
        }
        self.meta.as_ref().unwrap()
    }

    /// The dependencies of the unit, if they are kept. If not, the deps
    /// operation is to be run on an executor, and what it gives is to be
    /// stored with [`UnitExecution::store_deps`].
    pub fn get_deps(&self) -> (deps: Option<&Dependencies>)
        ensures
            opt_view(deps) == self@.deps,
            deps is None <==> self@.needs_deps(),
    {
        match &self.deps {
            Some(deps) => Some(deps),
            None => None,
        }
    }

    /// Stores the dependencies that an executor gave, unless some are kept
    /// already.
    pub fn store_deps(&mut self, deps: Dependencies)
        ensures
            final(self)@ == old(self)@.after(Call::StoreDeps(deps@)),
    {
        if self.deps.is_none() {
            self.deps = Some(deps);
        }
    }

    /// Records the values that a check emitted, and hands on whether it found
    /// the unit present.
    pub fn check(&mut self, present: bool, emitted: &ValueSet) -> (r: bool)
        ensures
            r == present,
            final(self)@ == old(self)@.after(Call::Record(emitted@)),
    {
        self.emit_data.merge(emitted);
        present
    }

    /// Records the values that an apply emitted.
    pub fn apply(&mut self, emitted: &ValueSet)
        ensures
            final(self)@ == old(self)@.after(Call::Record(emitted@)),
    {
        self.emit_data.merge(emitted);
    }

    /// Records the values that a remove emitted.
    pub fn remove(&mut self, emitted: &ValueSet)
        ensures
            final(self)@ == old(self)@.after(Call::Record(emitted@)),
    {
        self.emit_data.merge(emitted);
    }

    /// The script of the unit.
    pub fn script(&self) -> (script: &String)
        ensures
            script@ == self@.script,
    {
        &self.script
    }

    /// The arguments that the operations of the unit are run with.
    pub fn args(&self) -> (args: &ValueSet)
        ensures
            args@ == self@.args,
            args.bindings() == self.arg_bindings(),
    {
        &self.args
    }

    /// The values that the operations of the unit have emitted so far.
    pub fn emit_data(&self) -> (emitted: &ValueSet)
        ensures
            emitted@ == self@.emit_data,
    {
        &self.emit_data
    }
}

} // verus!
