//! Keeps the executors that run scripts on targets: at most one for each
//! target.
//!
//! What an executor is, the pool does not ask: whoever drives the engine
//! makes one when the pool has none for a target, and ends those that the
//! pool hands back at the end.

use crate::models::target::{Target, TargetView};
use vstd::prelude::*;

verus! {

/// The executors in use, each under the target that it serves.
pub struct ExecutorPool<E> {
    executors: Vec<(Target, E)>,
}

/// Whether no target occurs twice among `targets`.
pub open spec fn distinct(targets: Seq<TargetView>) -> bool {
    forall|i: int, j: int|
        0 <= i < j < targets.len() ==> #[trigger] targets[i] != #[trigger] targets[j]
}

/// Whether `target` is the `i`th of `targets`.
pub open spec fn serves(targets: Seq<TargetView>, i: int, target: TargetView) -> bool {
    0 <= i < targets.len() && targets[i] == target
}

/// Operations on distinct targets never share an executor, and operations on
/// one target always do: among distinct targets, two targets are served from
/// the same place exactly when they are the same target.
pub proof fn lemma_one_executor_per_target(
    targets: Seq<TargetView>,
    i: int,
    a: TargetView,
    j: int,
    b: TargetView,
)
    requires
        distinct(targets),
        serves(targets, i, a),
        serves(targets, j, b),
    ensures
        i == j <==> a == b,
{
    if i < j {
        assert(targets[i] != targets[j]);
    } else if j < i {
        assert(targets[j] != targets[i]);
    }
}

impl<E> ExecutorPool<E> {
    /// The targets that have an executor, in the order in which they got it.
    pub closed spec fn targets(&self) -> Seq<TargetView> {
        self.executors@.map_values(|entry: (Target, E)| entry.0@)
    }

    /// The place of the executor that serves `target`, where one does.
    pub open spec fn place(&self, target: TargetView) -> int {
        choose|i: int| serves(self.targets(), i, target)
    }

    /// The executor of the `i`th target.
    pub closed spec fn executor_at(&self, i: int) -> E {
        self.executors@[i].1
    }

    #[verifier::type_invariant]
    spec fn one_each(self) -> bool {
        distinct(self.targets())
    }

    /// A pool without executors.
    pub fn new() -> (pool: Self)
        ensures
            pool.targets() == Seq::<TargetView>::empty(),
    {
        let pool = ExecutorPool { executors: Vec::new() };
        assert(pool.targets() =~= Seq::<TargetView>::empty());
        pool
    }

    /// The number of executors. No two of them serve the same target.
    pub fn len(&self) -> (n: usize)
        ensures
            n == self.targets().len(),
            distinct(self.targets()),
    {
        proof {
            use_type_invariant(self);
        }
        assert(self.targets().len() == self.executors@.len());
        self.executors.len()
    }

    /// Where the executor for `target` is kept, if there is one.
    fn find(&self, target: &Target) -> (r: Option<usize>)
        ensures
            match r {
                Some(i) => serves(self.targets(), i as int, target@),
                None => !self.targets().contains(target@),
            },
    {
        let mut i: usize = 0;
        while i < self.executors.len()
            invariant
                i <= self.executors@.len(),
                self.targets().len() == self.executors@.len(),
                forall|j: int| 0 <= j < i ==> self.targets()[j] != target@,
            decreases self.executors@.len() - i,
        {
            assert(self.targets()[i as int] == self.executors@[i as int].0@);
            if self.executors[i].0.same(target) {
                return Some(i);
            }
            i = i + 1;
        }
        None
    }

    /// The executor for `target`, if the pool has one. If it has none, one
    /// is to be made and kept with [`ExecutorPool::add_executor`].
    pub fn get_executor(&self, target: &Target) -> (r: Option<&E>)
        ensures
            match r {
                Some(executor) => serves(self.targets(), self.place(target@), target@)
                    && *executor == self.executor_at(self.place(target@)),
                None => !self.targets().contains(target@),
            },
    {
        proof {
            use_type_invariant(self);
        }
        match self.find(target) {
            Some(i) => {
                proof {
                    let p = self.place(target@);
                    assert(serves(self.targets(), i as int, target@));
                    lemma_one_executor_per_target(self.targets(), i as int, target@, p, target@);
                }
                Some(&self.executors[i].1)
            },
            None => None,
        }
    }

    /// Keeps `executor` as the executor for `target`, unless the pool has one
    /// for it already: then that one stays, and `executor` is handed back.
    pub fn add_executor(&mut self, target: Target, executor: E) -> (refused: Option<E>)
        ensures
            match refused {
                Some(back) => old(self).targets().contains(target@) && back == executor
                    && final(self).targets() == old(self).targets() && forall|i: int|
                    0 <= i < old(self).targets().len() ==> final(self).executor_at(i) == old(
                        self,
                    ).executor_at(i),
                None => !old(self).targets().contains(target@) && final(self).targets() == old(
                    self,
                ).targets().push(target@) && final(self).executor_at(
                    old(self).targets().len() as int,
                ) == executor && forall|i: int|
                    0 <= i < old(self).targets().len() ==> final(self).executor_at(i) == old(
                        self,
                    ).executor_at(i),
            },
    {
        proof {
            use_type_invariant(&*self);
        }
        match self.find(&target) {
            Some(i) => {
                assert(self.targets()[i as int] == target@);
                Some(executor)
            },
            None => {
                let ghost before = self.targets();
                let mut executors: Vec<(Target, E)> = Vec::new();
                std::mem::swap(&mut executors, &mut self.executors);
                executors.push((target, executor));
                proof {
                    let after = executors@.map_values(|entry: (Target, E)| entry.0@);
                    assert(after =~= before.push(target@));
                    assert forall|i: int, j: int| 0 <= i < j < after.len() implies #[trigger] after[i]
                        != #[trigger] after[j] by {
                        if j < before.len() {
                            assert(before[i] != before[j]);
                        } else {
                            assert(before.contains(before[i]));
                        }
                    }
                }
                self.executors = executors;
                None
            },
        }
    }

    /// Empties the pool and hands out its executors, each with its target, to
    /// be ended.
    pub fn finalize(&mut self) -> (all: Vec<(Target, E)>)
        ensures
            final(self).targets() == Seq::<TargetView>::empty(),
            all@.map_values(|entry: (Target, E)| entry.0@) == old(self).targets(),
            forall|i: int| 0 <= i < all@.len() ==> (#[trigger] all@[i]).1 == old(self).executor_at(i),
    {
        let mut all: Vec<(Target, E)> = Vec::new();
        std::mem::swap(&mut all, &mut self.executors);
        assert(self.targets() =~= Seq::<TargetView>::empty());
        all
    }
}

/// The first of the failures among the results of ending the executors, if
/// there is one.
pub open spec fn first_error<E>(results: Seq<Result<(), E>>, i: int) -> Option<E>
    decreases results.len() - i,
{
    if 0 <= i < results.len() {
        match results[i] {
            Err(e) => Some(e),
            Ok(_) => first_error(results, i + 1),
        }
    } else {
        None
    }
}

/// What ending the executors comes to: the first failure, if any of them
/// failed.
#[verifier::loop_isolation(false)]
pub fn first_failure<E>(results: Vec<Result<(), E>>) -> (r: Result<(), E>)
    ensures
        match r {
            Ok(_) => first_error(results@, 0) is None,
            Err(e) => first_error(results@, 0) == Some(e),
        },
{
    let ghost all = results@;
    let mut results = results;
    let total = results.len();
    let mut k: usize = 0;
    assert(all.skip(0) =~= all);
    while results.len() > 0
        invariant
            k + results@.len() == all.len(),
            all.len() <= usize::MAX,
            results@ == all.skip(k as int),
            first_error(all, 0) == first_error(all, k as int),
        decreases results@.len(),
    {
        let ghost before = results@;
        let result = results.remove(0);
        assert(result == all[k as int]);
        assert(results@ =~= all.skip(k + 1));
        match result {
            Err(e) => {
                return Err(e);
            },
            Ok(_) => {},
        }
        k = k + 1;
    }
    Ok(())
}

} // verus!
