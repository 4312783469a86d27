//! Topological node sorter for dependency graphs.
//!
//! Given a graph of nodes with dependencies, this module can resolve them
//! into a topological order. Nodes are generic, and just need to implement
//! the [`ResolvableNode`] trait. The dependencies of a node are loaded lazily:
//! the [`Resolver`] names the node whose dependencies it needs next, and goes
//! on when it is handed them.

pub mod laws;

pub use crate::error::CircularDependencyError;
use crate::error::Error;
use vstd::hash_map::StringHashMap;
use vstd::prelude::*;

verus! {

/// A node of a dependency graph. Two nodes with the same id are the same
/// node.
pub trait ResolvableNode: Sized {
    /// The id of the node.
    fn get_id(&self) -> String;
}

/// Loads the dependencies of nodes, as the traversal proceeds.
pub trait DependencyFetcher<T> {
    /// The nodes that `node` depends on, in the order in which it lists
    /// them.
    fn get_node_dependencies(&mut self, node: &T) -> Result<Vec<T>, Error>;
}

/// How far the traversal has got with a node.
#[derive(Debug, Clone, Copy, PartialEq, Eq, Structural)]
pub enum NodeState {
    /// The node and all that it depends on are in the order.
    Visited,
    /// The dependencies of the node are being traversed.
    Visiting,
    /// The node is known and waits for its turn.
    Unvisited,
}

/// The ids of a sequence of nodes, each of which comes with its id.
pub open spec fn ids<T>(nodes: Seq<(String, T)>) -> Seq<Seq<char>> {
    nodes.map_values(|node: (String, T)| node.0@)
}

/// The state of a traversal, as mathematics.
pub ghost struct Traversal {
    /// The nodes still to be dealt with, the next one last.
    pub stack: Seq<Seq<char>>,
    /// What is known of each node met so far.
    pub states: Map<Seq<char>, NodeState>,
    /// The order found so far: dependencies before dependents.
    pub ordered: Seq<Seq<char>>,
}

impl Traversal {
    /// The traversal that is about to start from `root`.
    pub open spec fn start(root: Seq<char>) -> Traversal {
        Traversal {
            stack: seq![root],
            states: Map::empty().insert(root, NodeState::Unvisited),
            ordered: Seq::empty(),
        }
    }

    /// Whether the next node is one whose dependencies have been traversed.
    pub open spec fn top_is_finished(self) -> bool {
        self.stack.len() > 0 && self.states.contains_key(self.stack.last())
            && self.states[self.stack.last()] == NodeState::Visiting
    }

    /// The traversal after every node at the top of the stack whose
    /// dependencies have been traversed was moved to the order.
    pub open spec fn settle(self) -> Traversal
        decreases self.stack.len(),
    {
        if self.top_is_finished() {
            (Traversal {
                stack: self.stack.drop_last(),
                states: self.states.insert(self.stack.last(), NodeState::Visited),
                ordered: self.ordered.push(self.stack.last()),
            }).settle()
        } else {
            self
        }
    }

    /// The traversal after its next node was marked as being visited; the
    /// node stays on the stack until its dependencies have been traversed.
    pub open spec fn expand(self) -> Traversal {
        Traversal { states: self.states.insert(self.stack.last(), NodeState::Visiting), ..self }
    }

    /// The traversal after it was handed `dep` as a dependency of its next
    /// node, unless the dependency closes a cycle. A dependency that is in
    /// the order already changes nothing. One that is being visited closes a
    /// cycle. One that waits for its turn is put on the stack once more, as
    /// one whose dependencies have been traversed; one that was never met is
    /// put on the stack to wait for its turn.
    pub open spec fn visit(self, dep: Seq<char>) -> Option<Traversal> {
        if !self.states.contains_key(dep) {
            Some(
                Traversal {
                    stack: self.stack.push(dep),
                    states: self.states.insert(dep, NodeState::Unvisited),
                    ..self
                },
            )
        } else {
            match self.states[dep] {
                NodeState::Visited => Some(self),
                NodeState::Visiting => None,
                NodeState::Unvisited => Some(
                    Traversal {
                        stack: self.stack.push(dep),
                        states: self.states.insert(dep, NodeState::Visiting),
                        ..self
                    },
                ),
            }
        }
    }

    /// The traversal after it was handed the dependencies `deps` from the
    /// `k`th on, in order; or the first of them that closes a cycle.
    pub open spec fn visit_from(self, deps: Seq<Seq<char>>, k: int) -> Result<
        Traversal,
        Seq<char>,
    >
        decreases deps.len() - k,
    {
        if 0 <= k < deps.len() {
            match self.visit(deps[k]) {
                Some(next) => next.visit_from(deps, k + 1),
                None => Err(deps[k]),
            }
        } else {
            Ok(self)
        }
    }

    /// The traversal after it was handed `deps`, the dependencies of its next
    /// node, in order; or the first of them that closes a cycle.
    pub open spec fn supply(self, deps: Seq<Seq<char>>) -> Result<Traversal, Seq<char>> {
        self.visit_from(deps, 0)
    }

    /// Whether every node on the stack has a state.
    pub open spec fn stack_is_known(self) -> bool {
        forall|i: int| 0 <= i < self.stack.len() ==> self.states.contains_key(#[trigger] self.stack[i])
    }
}

/// The circular dependency that `node_id` closes when `ordered` is the order
/// found so far.
pub open spec fn is_cycle_error(
    e: CircularDependencyError,
    ordered: Seq<Seq<char>>,
    node_id: Seq<char>,
) -> bool {
    &&& e.node_id@ == node_id
    &&& e.preceeding_nodes@.len() == ordered.len()
    &&& forall|i: int|
        0 <= i < ordered.len() ==> (#[trigger] e.preceeding_nodes@[i])@ == ordered[i]
}

/// The nodes of a list, each with its id.
pub open spec fn pairs_of<T>(nodes: Seq<(String, T)>) -> Set<(Seq<char>, T)> {
    Set::new(
        |pair: (Seq<char>, T)|
            exists|i: int|
                0 <= i < nodes.len() && (#[trigger] nodes[i]).0@ == pair.0 && nodes[i].1 == pair.1,
    )
}

/// A list with one more node holds that node beside what it held.
proof fn lemma_pairs_push<T>(nodes: Seq<(String, T)>, node: (String, T))
    ensures
        pairs_of(nodes.push(node)) == pairs_of(nodes).insert((node.0@, node.1)),
{
    let longer = nodes.push(node);
    assert forall|pair: (Seq<char>, T)|
        pairs_of(longer).contains(pair) <==> pairs_of(nodes).insert((node.0@, node.1)).contains(
            pair,
        ) by {
        if pairs_of(longer).contains(pair) {
            let i = choose|i: int|
                0 <= i < longer.len() && (#[trigger] longer[i]).0@ == pair.0 && longer[i].1
                    == pair.1;
            if i < nodes.len() {
                assert(nodes[i].0@ == pair.0 && nodes[i].1 == pair.1);
            }
        }
        if pairs_of(nodes).contains(pair) {
            let i = choose|i: int|
                0 <= i < nodes.len() && (#[trigger] nodes[i]).0@ == pair.0 && nodes[i].1
                    == pair.1;
            assert(longer[i].0@ == pair.0 && longer[i].1 == pair.1);
        }
        if pair == (node.0@, node.1) {
            assert(longer[nodes.len() as int].0@ == pair.0 && longer[nodes.len() as int].1
                == pair.1);
        }
    }
    assert(pairs_of(longer) =~= pairs_of(nodes).insert((node.0@, node.1)));
}

/// Resolves a dependency graph starting from an initial node, into an order
/// in which every node comes after those it depends on.
///
/// The resolver is driven in turns: [`Resolver::next`] says whether there is a
/// node whose dependencies are needed, [`Resolver::node`] is that node, and
/// [`Resolver::supply`] takes its dependencies. When no node is left,
/// [`Resolver::into_ordered`] gives the order.
pub struct Resolver<T> {
    visit_stack: Vec<(String, T)>,
    node_states: StringHashMap<NodeState>,
    ordered_nodes: Vec<(String, T)>,
}

impl<T> View for Resolver<T> {
    type V = Traversal;

    closed spec fn view(&self) -> Traversal {
        Traversal {
            stack: ids(self.visit_stack@),
            states: self.node_states@,
            ordered: ids(self.ordered_nodes@),
        }
    }
}

impl<T> Resolver<T> {
    #[verifier::type_invariant]
    spec fn known(self) -> bool {
        self@.stack_is_known()
    }

    /// The nodes that the resolver holds, on its stack or in its order, each
    /// with the id under which it was handed in.
    pub closed spec fn nodes(&self) -> Set<(Seq<char>, T)> {
        pairs_of(self.visit_stack@).union(pairs_of(self.ordered_nodes@))
    }

    /// A resolver that has yet to visit the initial node, whose id is `id`.
    pub fn start(id: String, initial_node: T) -> (r: Self)
        ensures
            r@ == Traversal::start(id@),
            r.nodes() == set![(id@, initial_node)],
    {
        let mut visit_stack: Vec<(String, T)> = Vec::new();
        let mut node_states: StringHashMap<NodeState> = StringHashMap::new();
        node_states.insert(id.clone(), NodeState::Unvisited);
        visit_stack.push((id, initial_node));
        let r = Resolver { visit_stack, node_states, ordered_nodes: Vec::new() };
        proof {
            assert(ids(r.visit_stack@) =~= seq![id@]);
            assert(ids(r.ordered_nodes@) =~= Seq::<Seq<char>>::empty());
            lemma_pairs_push(Seq::<(String, T)>::empty(), r.visit_stack@[0]);
            assert(Seq::<(String, T)>::empty().push(r.visit_stack@[0]) =~= r.visit_stack@);
            assert(pairs_of(Seq::<(String, T)>::empty()) =~= Set::<(Seq<char>, T)>::empty());
            assert(r.nodes() =~= set![(id@, initial_node)]);
        }
        r
    }

    /// Moves the nodes whose dependencies have been traversed to the order,
    /// and says whether a node is left. If one is, it is marked as being
    /// visited, and its dependencies are to be handed to [`Resolver::supply`].
    pub fn next(&mut self) -> (more: bool)
        ensures
            more == (old(self)@.settle().stack.len() > 0),
            final(self)@ == if more {
                old(self)@.settle().expand()
            } else {
                old(self)@.settle()
            },
            final(self).nodes() == old(self).nodes(),
    {
        proof {
            use_type_invariant(&*self);
        }
        let ghost held = self.nodes();
        let mut stack: Vec<(String, T)> = Vec::new();
        let mut ordered: Vec<(String, T)> = Vec::new();
        std::mem::swap(&mut stack, &mut self.visit_stack);
        std::mem::swap(&mut ordered, &mut self.ordered_nodes);
        let mut states: StringHashMap<NodeState> = StringHashMap::new();
        std::mem::swap(&mut states, &mut self.node_states);
        let ghost start = old(self)@;
        let mut settled = false;
        while !settled
            invariant
                pairs_of(stack@).union(pairs_of(ordered@)) == held,
                start.settle() == (Traversal {
                    stack: ids(stack@),
                    states: states@,
                    ordered: ids(ordered@),
                }).settle(),
                (Traversal {
                    stack: ids(stack@),
                    states: states@,
                    ordered: ids(ordered@),
                }).stack_is_known(),
                settled ==> !(Traversal {
                    stack: ids(stack@),
                    states: states@,
                    ordered: ids(ordered@),
                }).top_is_finished(),
            decreases stack@.len() + (if settled { 0int } else { 1int }),
        {
            let ghost now = Traversal {
                stack: ids(stack@),
                states: states@,
                ordered: ids(ordered@),
            };
            let n = stack.len();
            if n == 0 {
                settled = true;
            } else {
                let id = stack[n - 1].0.clone();
                assert(now.stack[n - 1] == id@);
                assert(now.stack.last() == id@);
                let finished = match states.get(id.as_str()) {
                    Some(state) => match state {
                        NodeState::Visiting => true,
                        _ => false,
                    },
                    None => false,
                };
                if finished {
                    let ghost stack_before = stack@;
                    let ghost ordered_before = ordered@;
                    let node = stack.pop().unwrap();
                    ordered.push(node);
                    states.insert(id, NodeState::Visited);
                    proof {
                        lemma_pairs_push(stack@, node);
                        assert(stack@.push(node) =~= stack_before);
                        lemma_pairs_push(ordered_before, node);
                        assert(pairs_of(stack@).union(pairs_of(ordered@)) =~= held);
                        assert(ids(stack@) =~= now.stack.drop_last());
                        assert(ids(ordered@) =~= now.ordered.push(now.stack.last()));
                        let after = Traversal {
                            stack: ids(stack@),
                            states: states@,
                            ordered: ids(ordered@),
                        };
                        assert forall|i: int| 0 <= i < after.stack.len() implies after.states.contains_key(
                        #[trigger] after.stack[i]) by {
                            assert(now.states.contains_key(now.stack[i]));
                        }
                        assert(now.top_is_finished());
                        assert(now.settle() == after.settle());
                    }
                } else {
                    assert(!now.top_is_finished());
                    settled = true;
                }
            }
        }
        let ghost rested = Traversal {
            stack: ids(stack@),
            states: states@,
            ordered: ids(ordered@),
        };
        assert(rested.settle() == rested);
        let n = stack.len();
        let more = n > 0;
        if more {
            let id = stack[n - 1].0.clone();
            assert(rested.stack[n - 1] == id@);
            states.insert(id, NodeState::Visiting);
            proof {
                let after = Traversal {
                    stack: ids(stack@),
                    states: states@,
                    ordered: ids(ordered@),
                };
                assert(after == rested.expand());
                assert forall|i: int| 0 <= i < after.stack.len() implies after.states.contains_key(
                #[trigger] after.stack[i]) by {
                    assert(rested.states.contains_key(rested.stack[i]));
                }
            }
        }
        *self = Resolver { visit_stack: stack, node_states: states, ordered_nodes: ordered };
        more
    }

    /// The next node: the one whose dependencies are needed, after
    /// [`Resolver::next`] has said that there is one.
    pub fn node(&self) -> (node: Option<&T>)
        ensures
            match node {
                Some(top) => self@.stack.len() > 0 && self.nodes().contains(
                    (self@.stack.last(), *top),
                ),
                None => self@.stack.len() == 0,
            },
    {
        let n = self.visit_stack.len();
        if n == 0 {
            None
        } else {
            assert(self.visit_stack@[n - 1].0@ == self@.stack.last());
            assert(pairs_of(self.visit_stack@).contains(
                (self.visit_stack@[n - 1].0@, self.visit_stack@[n - 1].1),
            ));
            Some(&self.visit_stack[n - 1].1)
        }
    }

    /// Takes the dependencies of the next node, in the order in which the
    /// node lists them. A dependency that is being visited closes a cycle:
    /// the first such ends the resolution with an error that names it and
    /// gives the order found so far, and nothing else is left of the
    /// resolver.
    #[verifier::loop_isolation(false)]
    pub fn supply_identified(self, dependencies: Vec<(String, T)>) -> (r: Result<
        Self,
        CircularDependencyError,
    >)
        ensures
            match r {
                Ok(next) => self@.supply(ids(dependencies@)) == Ok::<Traversal, Seq<char>>(
                    next@,
                ) && self.nodes().subset_of(next.nodes()) && next.nodes().subset_of(
                    self.nodes().union(pairs_of(dependencies@)),
                ),
                Err(e) => self@.supply(ids(dependencies@)) matches Err(node_id)
                    && is_cycle_error(e, self@.ordered, node_id),
            },
    {
        proof {
            use_type_invariant(&self);
        }
        let ghost start = self@;
        let ghost held = self.nodes();
        let ghost offered = pairs_of(dependencies@);
        let ghost deps = ids(dependencies@);
        let Resolver { visit_stack, node_states, ordered_nodes } = self;
        let mut stack = visit_stack;
        let mut states = node_states;
        assert(start == (Traversal {
            stack: ids(stack@),
            states: states@,
            ordered: ids(ordered_nodes@),
        }));
        let mut dependencies = dependencies;
        let total = dependencies.len();
        let mut k: usize = 0;
        assert(deps.skip(0) =~= deps);
        while dependencies.len() > 0
            invariant
                k + dependencies@.len() == deps.len(),
                deps.len() <= usize::MAX,
                held.subset_of(pairs_of(stack@).union(pairs_of(ordered_nodes@))),
                pairs_of(stack@).union(pairs_of(ordered_nodes@)).subset_of(held.union(offered)),
                pairs_of(dependencies@).subset_of(offered),
                ids(dependencies@) == deps.skip(k as int),
                start.supply(deps) == (Traversal {
                    stack: ids(stack@),
                    states: states@,
                    ordered: ids(ordered_nodes@),
                }).visit_from(deps, k as int),
                (Traversal {
                    stack: ids(stack@),
                    states: states@,
                    ordered: ids(ordered_nodes@),
                }).stack_is_known(),
                ids(ordered_nodes@) == start.ordered,
            decreases dependencies@.len(),
        {
            let ghost now = Traversal {
                stack: ids(stack@),
                states: states@,
                ordered: ids(ordered_nodes@),
            };
            let ghost before = ids(dependencies@);
            let ghost rest_before = dependencies@;
            let ghost stack_before = stack@;
            let dep = dependencies.remove(0);
            let id = dep.0.clone();
            proof {
                assert(offered.contains((dep.0@, dep.1))) by {
                    assert(rest_before[0].0@ == dep.0@ && rest_before[0].1 == dep.1);
                    assert(pairs_of(rest_before).contains((dep.0@, dep.1)));
                }
                assert forall|pair: (Seq<char>, T)| pairs_of(dependencies@).contains(
                    pair,
                ) implies offered.contains(pair) by {
                    let i = choose|i: int|
                        0 <= i < dependencies@.len() && (#[trigger] dependencies@[i]).0@ == pair.0
                            && dependencies@[i].1 == pair.1;
                    assert(rest_before[i + 1].0@ == pair.0 && rest_before[i + 1].1 == pair.1);
                    assert(pairs_of(rest_before).contains(pair));
                }
                lemma_pairs_push(stack_before, dep);
                assert(before[0] == dep.0@);
                assert(id@ == deps[k as int]);
                assert forall|i: int| 0 <= i < dependencies@.len() implies ids(dependencies@)[i]
                    == deps.skip(k + 1)[i] by {
                    assert(before[i + 1] == deps.skip(k as int)[i + 1]);
                }
                assert(ids(dependencies@) =~= deps.skip(k + 1));
            }
            let state = match states.get(id.as_str()) {
                Some(state) => Some(*state),
                None => None,
            };
            match state {
                Some(NodeState::Visited) => {},
                Some(NodeState::Visiting) => {
                    assert(now.visit(deps[k as int]) is None);
                    assert(now.visit_from(deps, k as int) == Err::<Traversal, Seq<char>>(
                        deps[k as int],
                    ));
                    let preceding = Self::ids_of(&ordered_nodes);
                    proof {
                        assert(start.supply(deps) == Err::<Traversal, Seq<char>>(deps[k as int]));
                        assert(ids(ordered_nodes@).len() == ordered_nodes@.len());
                        assert(preceding@.len() == start.ordered.len());
                        assert forall|i: int| 0 <= i < start.ordered.len() implies (
                        #[trigger] preceding@[i])@ == start.ordered[i] by {}
                    }
                    let e = CircularDependencyError { preceeding_nodes: preceding, node_id: id };
                    assert(is_cycle_error(e, start.ordered, deps[k as int]));
                    return Err(e);
                },
                Some(NodeState::Unvisited) => {
                    stack.push(dep);
                    states.insert(id, NodeState::Visiting);
                    proof {
                        assert(ids(stack@) =~= now.stack.push(deps[k as int]));
                        let after = Traversal {
                            stack: ids(stack@),
                            states: states@,
                            ordered: ids(ordered_nodes@),
                        };
                        assert forall|i: int| 0 <= i < after.stack.len() implies after.states.contains_key(
                        #[trigger] after.stack[i]) by {
                            if i < now.stack.len() {
                                assert(now.states.contains_key(now.stack[i]));
                            }
                        }
                    }
                },
                None => {
                    stack.push(dep);
                    states.insert(id, NodeState::Unvisited);
                    proof {
                        assert(ids(stack@) =~= now.stack.push(deps[k as int]));
                        let after = Traversal {
                            stack: ids(stack@),
                            states: states@,
                            ordered: ids(ordered_nodes@),
                        };
                        assert forall|i: int| 0 <= i < after.stack.len() implies after.states.contains_key(
                        #[trigger] after.stack[i]) by {
                            if i < now.stack.len() {
                                assert(now.states.contains_key(now.stack[i]));
                            }
                        }
                    }
                },
            }
            k = k + 1;
        }
        let next = Resolver { visit_stack: stack, node_states: states, ordered_nodes };
        assert(next@.visit_from(deps, k as int) == Ok::<Traversal, Seq<char>>(next@));
        Ok(next)
    }

    /// The ids of `nodes`, in order.
    fn ids_of(nodes: &Vec<(String, T)>) -> (r: Vec<String>)
        ensures
            r@.len() == nodes@.len(),
            forall|i: int| 0 <= i < nodes@.len() ==> (#[trigger] r@[i])@ == ids(nodes@)[i],
    {
        let mut r: Vec<String> = Vec::new();
        let mut i: usize = 0;
        while i < nodes.len()
            invariant
                i <= nodes@.len(),
                r@.len() == i,
                forall|j: int| 0 <= j < i ==> (#[trigger] r@[j])@ == ids(nodes@)[j],
            decreases nodes@.len() - i,
        {
            r.push(nodes[i].0.clone());
            i = i + 1;
        }
        r
    }

    /// The order found: every node after the nodes it was found to depend
    /// on. It is complete once [`Resolver::next`] has said that no node is
    /// left.
    pub fn into_identified(self) -> (ordered: Vec<(String, T)>)
        ensures
            ids(ordered@) == self@.ordered,
            forall|i: int|
                0 <= i < ordered@.len() ==> self.nodes().contains(
                    ((#[trigger] ordered@[i]).0@, ordered@[i].1),
                ),
    {
        assert forall|i: int| 0 <= i < self.ordered_nodes@.len() implies self.nodes().contains(
            ((#[trigger] self.ordered_nodes@[i]).0@, self.ordered_nodes@[i].1),
        ) by {
            assert(pairs_of(self.ordered_nodes@).contains(
                (self.ordered_nodes@[i].0@, self.ordered_nodes@[i].1),
            ));
        }
        self.ordered_nodes
    }

    /// The nodes of the order found, without their ids.
    pub fn into_ordered(self) -> (ordered: Vec<T>)
        ensures
            ordered@.len() == self@.ordered.len(),
            forall|i: int|
                0 <= i < ordered@.len() ==> self.nodes().contains(
                    (self@.ordered[i], #[trigger] ordered@[i]),
                ),
    {
        let ghost held = self.nodes();
        let ghost order = self@.ordered;
        let mut identified = self.into_identified();
        let mut ordered: Vec<T> = Vec::new();
        let total = identified.len();
        let mut k: usize = 0;
        assert(ids(identified@).skip(0) =~= order);
        while identified.len() > 0
            invariant
                k + identified@.len() == order.len(),
                order.len() <= usize::MAX,
                ordered@.len() == k,
                ids(identified@) == order.skip(k as int),
                forall|i: int| 0 <= i < k ==> held.contains((order[i], #[trigger] ordered@[i])),
                forall|i: int|
                    0 <= i < identified@.len() ==> held.contains(
                        ((#[trigger] identified@[i]).0@, identified@[i].1),
                    ),
            decreases identified@.len(),
        {
            let ghost before = identified@;
            let node = identified.remove(0);
            proof {
                assert(ids(before)[0] == order.skip(k as int)[0]);
                assert(node.0@ == order[k as int]);
                assert forall|i: int| 0 <= i < identified@.len() implies ids(identified@)[i]
                    == order.skip(k + 1)[i] by {
                    assert(ids(before)[i + 1] == order.skip(k as int)[i + 1]);
                }
                assert(ids(identified@) =~= order.skip(k + 1));
                assert forall|i: int| 0 <= i < identified@.len() implies held.contains(
                    ((#[trigger] identified@[i]).0@, identified@[i].1),
                ) by {
                    assert(identified@[i] == before[i + 1]);
                }
            }
            ordered.push(node.1);
            k = k + 1;
        }
        ordered
    }
}

impl<T: ResolvableNode> Resolver<T> {
    /// A resolver that has yet to visit `initial_node`, under the id that
    /// the node gives itself.
    pub fn new(initial_node: T) -> (r: Self)
        ensures
            r@.stack.len() == 1,
            r@ == Traversal::start(r@.stack[0]),
            r.nodes() == set![(r@.stack[0], initial_node)],
    {
        let id = initial_node.get_id();
        Resolver::start(id, initial_node)
    }

    /// Takes the dependencies of the next node, in the order in which the
    /// node lists them, each under the id that it gives itself. See
    /// [`Resolver::supply_identified`].
    pub fn supply(self, dependencies: Vec<T>) -> (r: Result<Self, CircularDependencyError>)
        ensures
            exists|given: Seq<Seq<char>>|
                given.len() == dependencies@.len() && match r {
                    Ok(next) => #[trigger] self@.supply(given) == Ok::<Traversal, Seq<char>>(
                        next@,
                    ),
                    Err(e) => self@.supply(given) matches Err(node_id) && is_cycle_error(
                        e,
                        self@.ordered,
                        node_id,
                    ),
                },
            r matches Ok(next) ==> self.nodes().subset_of(next.nodes()) && forall|
                pair: (Seq<char>, T),
            | #[trigger]
                next.nodes().contains(pair) ==> self.nodes().contains(pair)
                    || dependencies@.contains(pair.1),
    {
        let ghost handed = dependencies@;
        let mut identified: Vec<(String, T)> = Vec::new();
        let mut dependencies = dependencies;
        let ghost count = dependencies@.len();
        while dependencies.len() > 0
            invariant
                identified@.len() + dependencies@.len() == count,
                forall|i: int|
                    0 <= i < identified@.len() ==> handed.contains((#[trigger] identified@[i]).1),
                forall|i: int|
                    0 <= i < dependencies@.len() ==> handed.contains(#[trigger] dependencies@[i]),
            decreases dependencies@.len(),
        {
            let ghost before = dependencies@;
            let node = dependencies.remove(0);
            assert(node == before[0]);
            assert forall|i: int| 0 <= i < dependencies@.len() implies handed.contains(
                #[trigger] dependencies@[i],
            ) by {
                assert(dependencies@[i] == before[i + 1]);
            }
            let id = node.get_id();
            identified.push((id, node));
        }
        let ghost given = ids(identified@);
        let ghost offered = pairs_of(identified@);
        let r = self.supply_identified(identified);
        proof {
            assert forall|pair: (Seq<char>, T)| offered.contains(pair) implies handed.contains(
                pair.1,
            ) by {
                let i = choose|i: int|
                    0 <= i < identified@.len() && (#[trigger] identified@[i]).0@ == pair.0
                        && identified@[i].1 == pair.1;
                assert(handed.contains(identified@[i].1));
            }
            assert(given.len() == count);
            match &r {
                Ok(next) => {
                    assert(self@.supply(given) == Ok::<Traversal, Seq<char>>(next@));
                },
                Err(_) => {},
            }
        }
        r
    }
}


/// A dependency graph: for each node, by id, the nodes that it depends on,
/// in the order in which it lists them.
pub type Graph = spec_fn(Seq<char>) -> Seq<Seq<char>>;

/// What a resolution comes to.
pub ghost enum Resolution {
    /// An order of the nodes.
    Ordered(Seq<Seq<char>>),
    /// A circular dependency: the order found before it, and the node that
    /// closes the cycle.
    Cycle(Seq<Seq<char>>, Seq<char>),
    /// Not known within the number of turns allowed.
    Unfinished,
}

/// What the traversal `t` comes to when, turn by turn, it is handed the
/// dependencies that `graph` gives for the node it asks about, for at most
/// `turns` turns.
pub open spec fn resolve_from(graph: Graph, t: Traversal, turns: nat) -> Resolution
    decreases turns,
{
    let rested = t.settle();
    if rested.stack.len() == 0 {
        Resolution::Ordered(rested.ordered)
    } else if turns == 0 {
        Resolution::Unfinished
    } else {
        match rested.expand().supply(graph(rested.stack.last())) {
            Ok(next) => resolve_from(graph, next, (turns - 1) as nat),
            Err(node_id) => Resolution::Cycle(rested.ordered, node_id),
        }
    }
}

/// What resolving `root` in `graph` comes to within `turns` turns.
pub open spec fn resolution(graph: Graph, root: Seq<char>, turns: nat) -> Resolution {
    resolve_from(graph, Traversal::start(root), turns)
}

/// A resolution that has come to something comes to the same with more
/// turns.
pub proof fn lemma_more_turns(graph: Graph, t: Traversal, turns: nat, more: nat)
    requires
        resolve_from(graph, t, turns) != Resolution::Unfinished,
        turns <= more,
    ensures
        resolve_from(graph, t, more) == resolve_from(graph, t, turns),
    decreases turns,
{
    let rested = t.settle();
    if rested.stack.len() > 0 && turns > 0 {
        match rested.expand().supply(graph(rested.stack.last())) {
            Ok(next) => {
                lemma_more_turns(graph, next, (turns - 1) as nat, (more - 1) as nat);
            },
            Err(_) => {},
        }
    }
}

/// Resolution is determined by the graph: two graphs that list the same
/// dependencies, in the same order, for every node resolve alike from the
/// same traversal, and so from the same root.
pub proof fn lemma_resolution_is_determined(a: Graph, b: Graph, t: Traversal, turns: nat)
    requires
        forall|id: Seq<char>| #[trigger] a(id) == b(id),
    ensures
        resolve_from(a, t, turns) == resolve_from(b, t, turns),
    decreases turns,
{
    let rested = t.settle();
    if rested.stack.len() > 0 && turns > 0 {
        assert(a(rested.stack.last()) == b(rested.stack.last()));
        match rested.expand().supply(a(rested.stack.last())) {
            Ok(next) => {
                lemma_resolution_is_determined(a, b, next, (turns - 1) as nat);
            },
            Err(_) => {},
        }
    }
}


/// What one turn of a resolution comes to.
pub enum Turn<T> {
    /// The resolution goes on.
    More(Resolver<T>),
    /// The resolution has come to this order.
    Done(Vec<T>),
}

impl<T: ResolvableNode> Resolver<T> {
    /// Takes one turn: asks `loader` for the dependencies of the next node
    /// and takes them in, or gives the order if no node is left. The turn
    /// fails where the loader fails, with its error, and where a dependency
    /// closes a cycle.
    pub fn turn<L: DependencyFetcher<T>>(self, loader: &mut L) -> (r: Result<Turn<T>, Error>)
        ensures
            match r {
                Ok(Turn::Done(order)) => self@.settle().stack.len() == 0 && order@.len()
                    == self@.settle().ordered.len() && forall|i: int|
                    0 <= i < order@.len() ==> self.nodes().contains(
                        (self@.settle().ordered[i], #[trigger] order@[i]),
                    ),
                Ok(Turn::More(next)) => self@.settle().stack.len() > 0 && exists|
                    given: Seq<Seq<char>>,
                | #[trigger]
                    self@.settle().expand().supply(given) == Ok::<Traversal, Seq<char>>(next@),
                Err(_) => self@.settle().stack.len() > 0,
            },
    {
        let mut this = self;
        if !this.next() {
            return Ok(Turn::Done(this.into_ordered()));
        }
        let fetched = match this.node() {
            Some(node) => loader.get_node_dependencies(node),
            None => Ok(Vec::new()),
        };
        match fetched {
            Ok(dependencies) => match this.supply(dependencies) {
                Ok(next) => Ok(Turn::More(next)),
                Err(cycle) => Err(Error::CircularDependency(cycle)),
            },
            Err(e) => Err(e),
        }
    }
}

} // verus!
