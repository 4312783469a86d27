//! What resolution achieves: on a graph without cycles it orders every node
//! that can be reached after the nodes it depends on, and a cycle that can
//! be reached ends it with an error.
//!
//! Both hold of traversals that never meet a node that waits for its turn
//! a second time. Such a node is put on the stack as if its dependencies had
//! been traversed, which they have not; it then enters the order before
//! them, and twice.

use super::{resolution, resolve_from, Graph, NodeState, Resolution, Traversal};
use vstd::prelude::*;
use vstd::set_lib::lemma_len_subset;

verus! {

/// The id of a node.
pub type Id = Seq<char>;

/// Whether `a` depends on `b` directly.
pub open spec fn edge(g: Graph, a: Id, b: Id) -> bool {
    g(a).contains(b)
}

/// Whether each node of `p` depends directly on the next.
pub open spec fn is_path(g: Graph, p: Seq<Id>) -> bool {
    p.len() >= 1 && forall|i: int| 0 <= i < p.len() - 1 ==> edge(g, #[trigger] p[i], p[i + 1])
}

/// Whether `path` leads from `a` to `b`.
pub open spec fn leads(g: Graph, path: Seq<Id>, a: Id, b: Id) -> bool {
    is_path(g, path) && path[0] == a && path.last() == b
}

/// Whether `b` can be reached from `a`: whether `a` is `b` or depends on it,
/// directly or not.
pub open spec fn reaches(g: Graph, a: Id, b: Id) -> bool {
    exists|path: Seq<Id>| leads(g, path, a, b)
}

/// The nodes that can be reached from `root`.
pub open spec fn reachable(g: Graph, root: Id) -> Set<Id> {
    Set::new(|id: Id| reaches(g, root, id))
}

/// Whether a cycle can be reached from `root`: a node that depends on a node
/// from which it can be reached.
pub open spec fn has_cycle(g: Graph, root: Id) -> bool {
    exists|x: Id, d: Id| reaches(g, root, x) && #[trigger] edge(g, x, d) && reaches(g, d, x)
}

/// Whether every node of `s` comes after the nodes it depends on.
pub open spec fn dependencies_first(g: Graph, s: Seq<Id>) -> bool {
    forall|i: int, d: Id|
        0 <= i < s.len() && #[trigger] edge(g, s[i], d) ==> exists|j: int|
            0 <= j < i && s[j] == d
}

/// Every node can be reached from itself.
pub proof fn lemma_reaches_itself(g: Graph, a: Id)
    ensures
        reaches(g, a, a),
{
    assert(leads(g, seq![a], a, a));
}

/// What a reachable node depends on can be reached.
pub proof fn lemma_reaches_on(g: Graph, a: Id, b: Id, c: Id)
    requires
        reaches(g, a, b),
        edge(g, b, c),
    ensures
        reaches(g, a, c),
{
    let path = choose|path: Seq<Id>| leads(g, path, a, b);
    let longer = path.push(c);
    assert forall|i: int| 0 <= i < longer.len() - 1 implies edge(g, #[trigger] longer[i], longer[i
        + 1]) by {
        if i < path.len() - 1 {
            assert(edge(g, path[i], path[i + 1]));
        }
    }
    assert(leads(g, longer, a, c));
}

/// Whether `id` has the state `state` in `t`.
pub open spec fn state_is(t: Traversal, id: Id, state: NodeState) -> bool {
    t.states.contains_key(id) && t.states[id] == state
}

/// Whether handing `deps` to `t` from the `k`th on meets a node that waits
/// for its turn.
pub open spec fn meets_waiting(t: Traversal, deps: Seq<Id>, k: int) -> bool
    decreases deps.len() - k,
{
    if 0 <= k < deps.len() {
        state_is(t, deps[k], NodeState::Unvisited) || match t.visit(deps[k]) {
            Some(next) => meets_waiting(next, deps, k + 1),
            None => false,
        }
    } else {
        false
    }
}

/// Whether the traversal `t`, handed the dependencies that `g` gives, never
/// meets a node that waits for its turn within `turns` turns.
pub open spec fn tidy_from(g: Graph, t: Traversal, turns: nat) -> bool
    decreases turns,
{
    let rested = t.settle();
    if rested.stack.len() == 0 || turns == 0 {
        true
    } else {
        let deps = g(rested.stack.last());
        !meets_waiting(rested.expand(), deps, 0) && match rested.expand().supply(deps) {
            Ok(next) => tidy_from(g, next, (turns - 1) as nat),
            Err(_) => true,
        }
    }
}

/// Whether resolving `root` in `g` never meets a node that waits for its
/// turn.
pub open spec fn tidy(g: Graph, root: Id) -> bool {
    forall|turns: nat| tidy_from(g, Traversal::start(root), turns)
}

/// The nodes whose dependencies have been asked for.
pub open spec fn expanded(t: Traversal) -> Set<Id> {
    Set::new(|id: Id| t.states.contains_key(id) && t.states[id] != NodeState::Unvisited)
}

/// What holds of a tidy traversal between two turns.
pub open spec fn sound(g: Graph, root: Id, t: Traversal) -> bool {
    &&& t.states.contains_key(root)
    &&& forall|id: Id| #[trigger] t.states.contains_key(id) ==> reaches(g, root, id)
    &&& t.stack.no_duplicates()
    &&& forall|i: int|
        0 <= i < t.stack.len() ==> state_is(t, #[trigger] t.stack[i], NodeState::Unvisited)
            || state_is(t, t.stack[i], NodeState::Visiting)
    &&& forall|id: Id| #[trigger]
        t.states.contains_key(id) && t.states[id] != NodeState::Visited ==> t.stack.contains(id)
    &&& t.ordered.no_duplicates()
    &&& forall|id: Id| state_is(t, id, NodeState::Visited) <==> #[trigger] t.ordered.contains(id)
    &&& dependencies_first(g, t.ordered)
    &&& forall|p: int, q: int|
        0 <= p < q < t.stack.len() && state_is(t, #[trigger] t.stack[p], NodeState::Visiting)
            ==> reaches(g, t.stack[p], #[trigger] t.stack[q])
}

/// Whether every dependency of the node at `p` of the stack is in the order
/// or on the stack above the node.
pub open spec fn settled_at(g: Graph, t: Traversal, p: int) -> bool {
    forall|d: Id| #[trigger]
        edge(g, t.stack[p], d) ==> state_is(t, d, NodeState::Visited) || exists|q: int|
            p < q < t.stack.len() && t.stack[q] == d
}

/// Whether every node of the stack that is being visited has its
/// dependencies in the order or above it.
pub open spec fn all_settled(g: Graph, t: Traversal) -> bool {
    forall|p: int|
        0 <= p < t.stack.len() && state_is(t, #[trigger] t.stack[p], NodeState::Visiting)
            ==> settled_at(g, t, p)
}


/// The traversal after its next node, whose dependencies have been
/// traversed, was moved to the order.
pub open spec fn popped(t: Traversal) -> Traversal {
    Traversal {
        stack: t.stack.drop_last(),
        states: t.states.insert(t.stack.last(), NodeState::Visited),
        ordered: t.ordered.push(t.stack.last()),
    }
}

/// Moving a node whose dependencies have been traversed to the order keeps
/// the traversal sound.
proof fn lemma_pop(g: Graph, root: Id, t: Traversal)
    requires
        sound(g, root, t),
        all_settled(g, t),
        t.top_is_finished(),
    ensures
        sound(g, root, popped(t)),
        all_settled(g, popped(t)),
        expanded(popped(t)) == expanded(t),
{
    let n = t.stack.len() as int;
    let x = t.stack.last();
    let u = popped(t);
    assert(t.stack[n - 1] == x);
    assert(state_is(t, x, NodeState::Visiting));
    assert forall|i: int| 0 <= i < u.stack.len() implies u.stack[i] != x by {
        assert(t.stack[i] != t.stack[n - 1]);
    }
    assert(!t.ordered.contains(x)) by {
        if t.ordered.contains(x) {
            assert(state_is(t, x, NodeState::Visited));
        }
    }
    // Every dependency of the node is in the order already.
    assert forall|d: Id| #[trigger] edge(g, x, d) implies t.ordered.contains(d) by {
        assert(settled_at(g, t, n - 1));
        assert(edge(g, t.stack[n - 1], d));
        assert(state_is(t, d, NodeState::Visited));
    }
    assert forall|id: Id| #[trigger] u.states.contains_key(id) implies reaches(g, root, id) by {
        assert(t.states.contains_key(id));
    }
    assert(u.stack.no_duplicates()) by {
        assert forall|i: int, j: int| 0 <= i < u.stack.len() && 0 <= j < u.stack.len() && i
            != j implies u.stack[i] != u.stack[j] by {
            assert(t.stack[i] != t.stack[j]);
        }
    }
    assert forall|i: int| 0 <= i < u.stack.len() implies state_is(
        u,
        #[trigger] u.stack[i],
        NodeState::Unvisited,
    ) || state_is(u, u.stack[i], NodeState::Visiting) by {
        assert(state_is(t, t.stack[i], NodeState::Unvisited) || state_is(
            t,
            t.stack[i],
            NodeState::Visiting,
        ));
    }
    assert forall|id: Id| #[trigger]
        u.states.contains_key(id) && u.states[id] != NodeState::Visited implies u.stack.contains(
        id,
    ) by {
        assert(id != x);
        assert(t.states.contains_key(id));
        assert(t.stack.contains(id));
        let i = choose|i: int| 0 <= i < t.stack.len() && t.stack[i] == id;
        assert(u.stack[i] == id);
    }
    assert(u.ordered.no_duplicates()) by {
        assert forall|i: int, j: int| 0 <= i < u.ordered.len() && 0 <= j < u.ordered.len() && i
            != j implies u.ordered[i] != u.ordered[j] by {
            if i < t.ordered.len() && j < t.ordered.len() {
                assert(t.ordered[i] != t.ordered[j]);
            } else if i < t.ordered.len() {
                assert(t.ordered.contains(t.ordered[i]));
            } else {
                assert(t.ordered.contains(t.ordered[j]));
            }
        }
    }
    assert forall|id: Id| state_is(u, id, NodeState::Visited) <==> #[trigger] u.ordered.contains(
        id,
    ) by {
        if u.ordered.contains(id) {
            let i = choose|i: int| 0 <= i < u.ordered.len() && u.ordered[i] == id;
            if i < t.ordered.len() {
                assert(t.ordered.contains(id));
            }
        }
        if state_is(u, id, NodeState::Visited) {
            if id == x {
                assert(u.ordered[t.ordered.len() as int] == x);
            } else {
                assert(t.ordered.contains(id));
                let i = choose|i: int| 0 <= i < t.ordered.len() && t.ordered[i] == id;
                assert(u.ordered[i] == id);
            }
        }
    }
    assert forall|i: int, d: Id| 0 <= i < u.ordered.len() && #[trigger] edge(
        g,
        u.ordered[i],
        d,
    ) implies exists|j: int| 0 <= j < i && u.ordered[j] == d by {
        if i < t.ordered.len() {
            assert(edge(g, t.ordered[i], d));
            let j = choose|j: int| 0 <= j < i && t.ordered[j] == d;
            assert(u.ordered[j] == d);
        } else {
            assert(edge(g, x, d));
            assert(t.ordered.contains(d));
            let j = choose|j: int| 0 <= j < t.ordered.len() && t.ordered[j] == d;
            assert(u.ordered[j] == d);
        }
    }
    assert forall|p: int, q: int|
        0 <= p < q < u.stack.len() && state_is(
            u,
            #[trigger] u.stack[p],
            NodeState::Visiting,
        ) implies reaches(g, u.stack[p], #[trigger] u.stack[q]) by {
        assert(state_is(t, t.stack[p], NodeState::Visiting));
        assert(reaches(g, t.stack[p], t.stack[q]));
    }
    assert forall|p: int|
        0 <= p < u.stack.len() && state_is(
            u,
            #[trigger] u.stack[p],
            NodeState::Visiting,
        ) implies settled_at(g, u, p) by {
        assert(state_is(t, t.stack[p], NodeState::Visiting));
        assert(settled_at(g, t, p));
        assert forall|d: Id| #[trigger] edge(g, u.stack[p], d) implies state_is(
            u,
            d,
            NodeState::Visited,
        ) || exists|q: int| p < q < u.stack.len() && u.stack[q] == d by {
            assert(edge(g, t.stack[p], d));
            if !state_is(t, d, NodeState::Visited) {
                let q = choose|q: int| p < q < t.stack.len() && t.stack[q] == d;
                if q < n - 1 {
                    assert(u.stack[q] == d);
                }
            }
        }
    }
    assert(expanded(u) =~= expanded(t));
}

/// Moving every node whose dependencies have been traversed to the order
/// keeps the traversal sound, and leaves a node that waits for its turn on
/// top of the stack, or none.
pub proof fn lemma_settle(g: Graph, root: Id, t: Traversal)
    requires
        sound(g, root, t),
        all_settled(g, t),
    ensures
        sound(g, root, t.settle()),
        all_settled(g, t.settle()),
        !t.settle().top_is_finished(),
        expanded(t.settle()) == expanded(t),
    decreases t.stack.len(),
{
    if t.top_is_finished() {
        lemma_pop(g, root, t);
        lemma_settle(g, root, popped(t));
    }
}


/// What holds of a tidy traversal while the node at `py` of its stack is
/// handed its dependencies `deps`, of which the first `k` have been dealt
/// with.
pub open spec fn visiting(g: Graph, root: Id, t: Traversal, py: int, deps: Seq<Id>, k: int) -> bool {
    &&& 0 <= py < t.stack.len()
    &&& 0 <= k <= deps.len()
    &&& state_is(t, t.stack[py], NodeState::Visiting)
    &&& sound(g, root, t)
    &&& forall|p: int|
        0 <= p < t.stack.len() && p != py && state_is(
            t,
            #[trigger] t.stack[p],
            NodeState::Visiting,
        ) ==> settled_at(g, t, p)
    &&& forall|q: int|
        py < q < t.stack.len() ==> state_is(t, #[trigger] t.stack[q], NodeState::Unvisited)
    &&& forall|j: int|
        0 <= j < k ==> state_is(t, #[trigger] deps[j], NodeState::Visited) || exists|q: int|
            py < q < t.stack.len() && t.stack[q] == deps[j]
}

/// Handing one dependency to a node keeps the traversal sound, unless the
/// dependency is being visited: then there is a cycle.
proof fn lemma_visit(g: Graph, root: Id, t: Traversal, py: int, deps: Seq<Id>, k: int)
    requires
        visiting(g, root, t, py, deps, k),
        k < deps.len(),
        deps == g(t.stack[py]),
        !state_is(t, deps[k], NodeState::Unvisited),
    ensures
        match t.visit(deps[k]) {
            Some(next) => visiting(g, root, next, py, deps, k + 1) && expanded(next) == expanded(
                t,
            ) && next.ordered == t.ordered,
            None => has_cycle(g, root),
        },
{
    let d = deps[k];
    let y = t.stack[py];
    let n = t.stack.len() as int;
    assert(edge(g, y, d));
    assert(t.states.contains_key(y));
    assert(reaches(g, root, y));
    if !t.states.contains_key(d) {
        let u = t.visit(d)->0;
        assert(u.stack == t.stack.push(d));
        assert(u.states == t.states.insert(d, NodeState::Unvisited));
        assert(!t.stack.contains(d)) by {
            if t.stack.contains(d) {
                let i = choose|i: int| 0 <= i < t.stack.len() && t.stack[i] == d;
                assert(state_is(t, t.stack[i], NodeState::Unvisited) || state_is(
                    t,
                    t.stack[i],
                    NodeState::Visiting,
                ));
            }
        }
        assert forall|id: Id| #[trigger] u.states.contains_key(id) implies reaches(g, root, id) by {
            if id == d {
                lemma_reaches_on(g, root, y, d);
            } else {
                assert(t.states.contains_key(id));
            }
        }
        assert(u.stack.no_duplicates()) by {
            assert forall|i: int, j: int| 0 <= i < u.stack.len() && 0 <= j < u.stack.len() && i
                != j implies u.stack[i] != u.stack[j] by {
                if i < n && j < n {
                    assert(t.stack[i] != t.stack[j]);
                } else if i < n {
                    assert(t.stack.contains(t.stack[i]));
                } else {
                    assert(t.stack.contains(t.stack[j]));
                }
            }
        }
        assert forall|i: int| 0 <= i < u.stack.len() implies state_is(
            u,
            #[trigger] u.stack[i],
            NodeState::Unvisited,
        ) || state_is(u, u.stack[i], NodeState::Visiting) by {
            if i < n {
                assert(t.stack.contains(t.stack[i]));
                assert(state_is(t, t.stack[i], NodeState::Unvisited) || state_is(
                    t,
                    t.stack[i],
                    NodeState::Visiting,
                ));
            }
        }
        assert forall|id: Id| #[trigger]
            u.states.contains_key(id) && u.states[id]
                != NodeState::Visited implies u.stack.contains(id) by {
            if id == d {
                assert(u.stack[n] == d);
            } else {
                assert(t.states.contains_key(id));
                assert(t.stack.contains(id));
                let i = choose|i: int| 0 <= i < t.stack.len() && t.stack[i] == id;
                assert(u.stack[i] == id);
            }
        }
        assert forall|id: Id| state_is(u, id, NodeState::Visited) <==> #[trigger] u.ordered.contains(
            id,
        ) by {
            if u.ordered.contains(id) {
                assert(state_is(t, id, NodeState::Visited));
            }
        }
        assert forall|p: int, q: int|
            0 <= p < q < u.stack.len() && state_is(
                u,
                #[trigger] u.stack[p],
                NodeState::Visiting,
            ) implies reaches(g, u.stack[p], #[trigger] u.stack[q]) by {
            assert(t.stack.contains(t.stack[p]));
            assert(state_is(t, t.stack[p], NodeState::Visiting));
            if q < n {
                assert(reaches(g, t.stack[p], t.stack[q]));
            } else {
                // The new node is a dependency of the node being visited,
                // which every node being visited reaches.
                if p < py {
                    assert(reaches(g, t.stack[p], t.stack[py]));
                } else if p == py {
                    lemma_reaches_itself(g, y);
                } else {
                    assert(state_is(t, t.stack[p], NodeState::Unvisited));
                }
                lemma_reaches_on(g, t.stack[p], y, d);
            }
        }
        assert forall|p: int|
            0 <= p < u.stack.len() && p != py && state_is(
                u,
                #[trigger] u.stack[p],
                NodeState::Visiting,
            ) implies settled_at(g, u, p) by {
            if p < n {
                assert(t.stack.contains(t.stack[p]));
                assert(state_is(t, t.stack[p], NodeState::Visiting));
                assert(settled_at(g, t, p));
                assert forall|e: Id| #[trigger] edge(g, u.stack[p], e) implies state_is(
                    u,
                    e,
                    NodeState::Visited,
                ) || exists|q: int| p < q < u.stack.len() && u.stack[q] == e by {
                    assert(edge(g, t.stack[p], e));
                    if !state_is(t, e, NodeState::Visited) {
                        let q = choose|q: int| p < q < t.stack.len() && t.stack[q] == e;
                        assert(u.stack[q] == e);
                    }
                }
            }
        }
        assert forall|q: int| py < q < u.stack.len() implies state_is(
            u,
            #[trigger] u.stack[q],
            NodeState::Unvisited,
        ) by {
            if q < n {
                assert(t.stack.contains(t.stack[q]));
                assert(state_is(t, t.stack[q], NodeState::Unvisited));
            }
        }
        assert forall|j: int| 0 <= j < k + 1 implies state_is(
            u,
            #[trigger] deps[j],
            NodeState::Visited,
        ) || exists|q: int| py < q < u.stack.len() && u.stack[q] == deps[j] by {
            if j < k {
                if !state_is(t, deps[j], NodeState::Visited) {
                    let q = choose|q: int| py < q < t.stack.len() && t.stack[q] == deps[j];
                    assert(u.stack[q] == deps[j]);
                }
            } else {
                assert(u.stack[n] == d);
            }
        }
        assert(state_is(u, u.stack[py], NodeState::Visiting)) by {
            assert(t.stack.contains(t.stack[py]));
        }
        assert(expanded(u) =~= expanded(t));
    } else if t.states[d] == NodeState::Visited {
        assert(t.visit(d) == Some(t));
        assert forall|j: int| 0 <= j < k + 1 implies state_is(
            t,
            #[trigger] deps[j],
            NodeState::Visited,
        ) || exists|q: int| py < q < t.stack.len() && t.stack[q] == deps[j] by {}
    } else {
        // The dependency is being visited: it is on the stack, at or below
        // the node, which it therefore reaches.
        assert(t.states[d] == NodeState::Visiting);
        assert(t.stack.contains(d));
        let p = choose|p: int| 0 <= p < t.stack.len() && t.stack[p] == d;
        if p < py {
            assert(state_is(t, t.stack[p], NodeState::Visiting));
            assert(reaches(g, t.stack[p], t.stack[py]));
        } else if p == py {
            lemma_reaches_itself(g, y);
        } else {
            assert(state_is(t, t.stack[p], NodeState::Unvisited));
        }
        assert(reaches(g, d, y));
        assert(reaches(g, root, y) && edge(g, y, d) && reaches(g, d, y));
    }
}

/// Handing a node its dependencies keeps the traversal sound and settles the
/// node, unless one of them is being visited: then there is a cycle.
proof fn lemma_supply(g: Graph, root: Id, t: Traversal, py: int, deps: Seq<Id>, k: int)
    requires
        visiting(g, root, t, py, deps, k),
        deps == g(t.stack[py]),
        !meets_waiting(t, deps, k),
    ensures
        match t.visit_from(deps, k) {
            Ok(next) => sound(g, root, next) && all_settled(g, next) && expanded(next)
                == expanded(t) && next.ordered == t.ordered,
            Err(_) => has_cycle(g, root),
        },
    decreases deps.len() - k,
{
    if k < deps.len() {
        lemma_visit(g, root, t, py, deps, k);
        match t.visit(deps[k]) {
            Some(next) => {
                assert(next.stack[py] == t.stack[py]);
                lemma_supply(g, root, next, py, deps, k + 1);
            },
            None => {},
        }
    } else {
        assert forall|p: int|
            0 <= p < t.stack.len() && state_is(
                t,
                #[trigger] t.stack[p],
                NodeState::Visiting,
            ) implies settled_at(g, t, p) by {
            if p == py {
                assert forall|d: Id| #[trigger] edge(g, t.stack[p], d) implies state_is(
                    t,
                    d,
                    NodeState::Visited,
                ) || exists|q: int| p < q < t.stack.len() && t.stack[q] == d by {
                    let j = choose|j: int| 0 <= j < deps.len() && deps[j] == d;
                    assert(state_is(t, deps[j], NodeState::Visited) || exists|q: int|
                        py < q < t.stack.len() && t.stack[q] == deps[j]);
                }
            }
        }
    }
}


/// Asking for the dependencies of the node that waits on top of the stack
/// keeps the traversal sound, with that node to be settled.
proof fn lemma_expand(g: Graph, root: Id, r: Traversal)
    requires
        sound(g, root, r),
        all_settled(g, r),
        !r.top_is_finished(),
        r.stack.len() > 0,
    ensures
        visiting(g, root, r.expand(), r.stack.len() - 1, g(r.stack.last()), 0),
        !expanded(r).contains(r.stack.last()),
        expanded(r.expand()) == expanded(r).insert(r.stack.last()),
        r.expand().ordered == r.ordered,
        r.expand().stack == r.stack,
{
    let n = r.stack.len() as int;
    let py = n - 1;
    let y = r.stack.last();
    let e = r.expand();
    assert(r.stack[py] == y);
    assert(state_is(r, r.stack[py], NodeState::Unvisited) || state_is(
        r,
        r.stack[py],
        NodeState::Visiting,
    ));
    assert(state_is(r, y, NodeState::Unvisited));
    assert forall|i: int| 0 <= i < n && i != py implies r.stack[i] != y by {
        assert(r.stack[i] != r.stack[py]);
    }
    assert forall|id: Id| #[trigger] e.states.contains_key(id) implies reaches(g, root, id) by {
        assert(r.states.contains_key(id));
    }
    assert forall|i: int| 0 <= i < e.stack.len() implies state_is(
        e,
        #[trigger] e.stack[i],
        NodeState::Unvisited,
    ) || state_is(e, e.stack[i], NodeState::Visiting) by {
        assert(state_is(r, r.stack[i], NodeState::Unvisited) || state_is(
            r,
            r.stack[i],
            NodeState::Visiting,
        ));
    }
    assert forall|id: Id| #[trigger]
        e.states.contains_key(id) && e.states[id] != NodeState::Visited implies e.stack.contains(
        id,
    ) by {
        if id != y {
            assert(r.states.contains_key(id));
        }
        assert(r.stack.contains(id));
    }
    assert forall|id: Id| state_is(e, id, NodeState::Visited) <==> #[trigger] e.ordered.contains(
        id,
    ) by {
        if e.ordered.contains(id) {
            assert(state_is(r, id, NodeState::Visited));
        }
        if state_is(e, id, NodeState::Visited) {
            assert(state_is(r, id, NodeState::Visited));
        }
    }
    assert forall|p: int, q: int|
        0 <= p < q < e.stack.len() && state_is(
            e,
            #[trigger] e.stack[p],
            NodeState::Visiting,
        ) implies reaches(g, e.stack[p], #[trigger] e.stack[q]) by {
        assert(state_is(r, r.stack[p], NodeState::Visiting));
        assert(reaches(g, r.stack[p], r.stack[q]));
    }
    assert forall|p: int|
        0 <= p < e.stack.len() && p != py && state_is(
            e,
            #[trigger] e.stack[p],
            NodeState::Visiting,
        ) implies settled_at(g, e, p) by {
        assert(state_is(r, r.stack[p], NodeState::Visiting));
        assert(settled_at(g, r, p));
        assert forall|d: Id| #[trigger] edge(g, e.stack[p], d) implies state_is(
            e,
            d,
            NodeState::Visited,
        ) || exists|q: int| p < q < e.stack.len() && e.stack[q] == d by {
            assert(edge(g, r.stack[p], d));
            if !state_is(r, d, NodeState::Visited) {
                let q = choose|q: int| p < q < r.stack.len() && r.stack[q] == d;
                assert(e.stack[q] == d);
            }
        }
    }
    assert(expanded(e) =~= expanded(r).insert(y));
}

/// In a sound traversal only nodes that can be reached have been expanded.
proof fn lemma_expanded_reachable(g: Graph, root: Id, t: Traversal)
    requires
        sound(g, root, t),
        reachable(g, root).finite(),
    ensures
        expanded(t).subset_of(reachable(g, root)),
        expanded(t).finite(),
        expanded(t).len() <= reachable(g, root).len(),
{
    assert forall|id: Id| expanded(t).contains(id) implies reachable(g, root).contains(id) by {
        assert(t.states.contains_key(id));
    }
    lemma_len_subset(expanded(t), reachable(g, root));
}

/// A sequence in which every node comes after those it depends on holds
/// every node that a path from one of its nodes leads to.
proof fn lemma_closed(g: Graph, s: Seq<Id>, path: Seq<Id>, i: int)
    requires
        dependencies_first(g, s),
        is_path(g, path),
        s.contains(path[0]),
        0 <= i < path.len(),
    ensures
        s.contains(path[i]),
    decreases i,
{
    if i > 0 {
        lemma_closed(g, s, path, i - 1);
        let a = choose|a: int| 0 <= a < s.len() && s[a] == path[i - 1];
        assert(edge(g, path[i - 1], path[i]));
        assert(edge(g, s[a], path[i]));
        let b = choose|b: int| 0 <= b < a && s[b] == path[i];
        assert(s[b] == path[i]);
    }
}

/// What a tidy, sound traversal comes to, given turns enough for the nodes
/// that have yet to be expanded: an order of all nodes that can be reached,
/// each once and after those it depends on; or a cycle, where there is one.
proof fn lemma_run(g: Graph, root: Id, t: Traversal, turns: nat)
    requires
        sound(g, root, t),
        all_settled(g, t),
        reachable(g, root).finite(),
        tidy_from(g, t, turns),
        expanded(t).len() + turns >= reachable(g, root).len(),
    ensures
        match resolve_from(g, t, turns) {
            Resolution::Ordered(s) => dependencies_first(g, s) && s.no_duplicates() && s.to_set()
                == reachable(g, root),
            Resolution::Cycle(_, _) => has_cycle(g, root),
            Resolution::Unfinished => false,
        },
    decreases turns,
{
    lemma_settle(g, root, t);
    let rested = t.settle();
    lemma_expanded_reachable(g, root, rested);
    if rested.stack.len() == 0 {
        let s = rested.ordered;
        // The root is in the order, and with it all that it reaches.
        assert(rested.states.contains_key(root));
        assert(s.contains(root)) by {
            if rested.states[root] != NodeState::Visited {
                assert(rested.stack.contains(root));
            }
            assert(state_is(rested, root, NodeState::Visited));
        }
        assert forall|id: Id| s.to_set().contains(id) <==> reachable(g, root).contains(id) by {
            if s.to_set().contains(id) {
                assert(s.contains(id));
                assert(state_is(rested, id, NodeState::Visited));
                assert(rested.states.contains_key(id));
            }
            if reachable(g, root).contains(id) {
                let path = choose|path: Seq<Id>| leads(g, path, root, id);
                lemma_closed(g, s, path, path.len() - 1);
            }
        }
        assert(s.to_set() =~= reachable(g, root));
    } else {
        let y = rested.stack.last();
        lemma_expand(g, root, rested);
        let e = rested.expand();
        lemma_expanded_reachable(g, root, e);
        if turns == 0 {
            // Every node that can be reached has been expanded, and yet one
            // waits: that cannot be.
            assert(expanded(e).len() == expanded(rested).len() + 1);
            assert(false);
        } else {
            lemma_supply(g, root, e, rested.stack.len() - 1, g(y), 0);
            match e.supply(g(y)) {
                Ok(next) => {
                    assert(expanded(next).len() == expanded(t).len() + 1);
                    lemma_run(g, root, next, (turns - 1) as nat);
                },
                Err(_) => {},
            }
        }
    }
}

/// The traversal that is about to start is sound.
proof fn lemma_start(g: Graph, root: Id)
    ensures
        sound(g, root, Traversal::start(root)),
        all_settled(g, Traversal::start(root)),
        expanded(Traversal::start(root)) == Set::<Id>::empty(),
{
    let t = Traversal::start(root);
    lemma_reaches_itself(g, root);
    assert(t.stack[0] == root);
    assert forall|id: Id| #[trigger]
        t.states.contains_key(id) && t.states[id] != NodeState::Visited implies t.stack.contains(
        id,
    ) by {
        assert(id == root);
    }
    assert forall|id: Id| state_is(t, id, NodeState::Visited) <==> #[trigger] t.ordered.contains(
        id,
    ) by {}
    assert(expanded(t) =~= Set::<Id>::empty());
}

/// On a graph without a cycle that can be reached, resolution comes to an
/// order: of every node that can be reached from the root, and of no other;
/// of each once, so that the order is as long as they are many; and of each
/// after all the nodes it depends on.
///
/// This holds where the nodes that can be reached are finitely many and the
/// traversal never meets a node that waits for its turn.
pub proof fn lemma_total_order(g: Graph, root: Id) -> (turns: nat)
    requires
        reachable(g, root).finite(),
        tidy(g, root),
        !has_cycle(g, root),
    ensures
        resolution(g, root, turns) matches Resolution::Ordered(s) && dependencies_first(g, s)
            && s.no_duplicates() && s.to_set() == reachable(g, root) && s.len() == reachable(
            g,
            root,
        ).len(),
{
    let turns = reachable(g, root).len();
    lemma_start(g, root);
    assert(tidy_from(g, Traversal::start(root), turns));
    lemma_run(g, root, Traversal::start(root), turns);
    match resolution(g, root, turns) {
        Resolution::Ordered(s) => {
            s.unique_seq_to_set();
        },
        _ => {},
    }
    turns
}

/// An order in which every node comes after those it depends on holds no
/// node that depends on a node from which it can be reached.
proof fn lemma_order_excludes_cycle(g: Graph, s: Seq<Id>, path: Seq<Id>, i: int, top: int)
    requires
        dependencies_first(g, s),
        s.no_duplicates(),
        is_path(g, path),
        0 <= top < s.len(),
        s[top] == path[0],
        0 <= i < path.len(),
    ensures
        exists|j: int| 0 <= j <= top && s[j] == path[i],
    decreases i,
{
    if i > 0 {
        lemma_order_excludes_cycle(g, s, path, i - 1, top);
        let a = choose|a: int| 0 <= a <= top && s[a] == path[i - 1];
        assert(edge(g, path[i - 1], path[i]));
        assert(edge(g, s[a], path[i]));
        let b = choose|b: int| 0 <= b < a && s[b] == path[i];
        assert(s[b] == path[i]);
    }
}

/// On a graph with a cycle that can be reached from the root, resolution
/// comes to a circular dependency error, and to no order.
///
/// This holds where the nodes that can be reached are finitely many and the
/// traversal never meets a node that waits for its turn.
pub proof fn lemma_cycle_found(g: Graph, root: Id) -> (turns: nat)
    requires
        reachable(g, root).finite(),
        tidy(g, root),
        has_cycle(g, root),
    ensures
        resolution(g, root, turns) is Cycle,
{
    let turns = reachable(g, root).len();
    lemma_start(g, root);
    assert(tidy_from(g, Traversal::start(root), turns));
    lemma_run(g, root, Traversal::start(root), turns);
    match resolution(g, root, turns) {
        Resolution::Ordered(s) => {
            let (x, d) = choose|x: Id, d: Id|
                reaches(g, root, x) && #[trigger] edge(g, x, d) && reaches(g, d, x);
            assert(reachable(g, root).contains(x));
            assert(s.to_set().contains(x));
            assert(s.contains(x));
            let a = choose|a: int| 0 <= a < s.len() && s[a] == x;
            assert(edge(g, s[a], d));
            let b = choose|b: int| 0 <= b < a && s[b] == d;
            let path = choose|path: Seq<Id>| leads(g, path, d, x);
            lemma_order_excludes_cycle(g, s, path, path.len() - 1, b);
            let c = choose|c: int| 0 <= c <= b && s[c] == x;
            assert(s[c] == s[a] && c != a);
            assert(false);
        },
        _ => {},
    }
    turns
}

} // verus!
