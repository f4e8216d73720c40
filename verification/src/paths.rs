//! Edges as pairs of entities, and what can be said of a set of them: which
//! nodes are linked, which are reachable, and whether there is a cycle.

use vstd::prelude::*;

verus! {

/// The pair under which the edge between `a` and `b` is kept: `(a, b)` for a
/// directed edge, the smaller entity first for an undirected one.
pub open spec fn edge_key(directed: bool, a: u64, b: u64) -> (u64, u64) {
    if directed || a <= b {
        (a, b)
    } else {
        (b, a)
    }
}

/// Whether `edges` holds an edge from `a` to `b`; for undirected edges, an
/// edge between the two.
pub open spec fn linked(directed: bool, edges: Set<(u64, u64)>, a: u64, b: u64) -> bool {
    edges.contains(edge_key(directed, a, b))
}

/// Whether an edge touches `n`.
pub open spec fn incident(edge: (u64, u64), n: u64) -> bool {
    edge.0 == n || edge.1 == n
}

/// A non-empty sequence of nodes in which each is linked to the next.
pub open spec fn is_walk(directed: bool, edges: Set<(u64, u64)>, walk: Seq<u64>) -> bool {
    &&& walk.len() > 0
    &&& forall|i: int|
        0 <= i < walk.len() - 1 ==> linked(directed, edges, #[trigger] walk[i], walk[i + 1])
}

/// Whether a walk leads from `from` to `to`. Every node reaches itself.
pub open spec fn reachable(directed: bool, edges: Set<(u64, u64)>, from: u64, to: u64) -> bool {
    exists|walk: Seq<u64>|
        #[trigger] is_walk(directed, edges, walk) && walk[0] == from && walk[walk.len() - 1] == to
}

/// Whether `edges` holds a cycle.
///
/// Directed edges form a cycle when a walk of at least one edge returns to
/// its start. Undirected edges form a cycle when some edge joins two nodes
/// that the other edges connect already. A self-loop is a cycle either way.
pub open spec fn has_cycle(directed: bool, edges: Set<(u64, u64)>) -> bool {
    if directed {
        exists|walk: Seq<u64>|
            #[trigger] is_walk(true, edges, walk) && walk.len() >= 2 && walk[0] == walk[walk.len()
                - 1]
    } else {
        exists|a: u64, b: u64|
            edges.contains((a, b)) && #[trigger] reachable(false, edges.remove((a, b)), a, b)
    }
}

/// A walk stays a walk when edges are added.
pub proof fn lemma_walk_in_superset(
    directed: bool,
    sub: Set<(u64, u64)>,
    sup: Set<(u64, u64)>,
    walk: Seq<u64>,
)
    requires
        sub.subset_of(sup),
        is_walk(directed, sub, walk),
    ensures
        is_walk(directed, sup, walk),
{
    assert forall|i: int| 0 <= i < walk.len() - 1 implies linked(
        directed,
        sup,
        #[trigger] walk[i],
        walk[i + 1],
    ) by {
        assert(linked(directed, sub, walk[i], walk[i + 1]));
    }
}

/// Taking edges away creates no cycle.
pub proof fn lemma_subset_acyclic(directed: bool, sub: Set<(u64, u64)>, sup: Set<(u64, u64)>)
    requires
        sub.subset_of(sup),
        !has_cycle(directed, sup),
    ensures
        !has_cycle(directed, sub),
{
    if has_cycle(directed, sub) {
        if directed {
            let walk = choose|walk: Seq<u64>|
                #[trigger] is_walk(true, sub, walk) && walk.len() >= 2 && walk[0] == walk[walk.len()
                    - 1];
            lemma_walk_in_superset(true, sub, sup, walk);
            assert(has_cycle(directed, sup));
        } else {
            let (a, b) = choose|a: u64, b: u64|
                sub.contains((a, b)) && #[trigger] reachable(false, sub.remove((a, b)), a, b);
            let walk = choose|walk: Seq<u64>|
                #[trigger] is_walk(false, sub.remove((a, b)), walk) && walk[0] == a && walk[walk.len()
                    - 1] == b;
            lemma_walk_in_superset(false, sub.remove((a, b)), sup.remove((a, b)), walk);
            assert(reachable(false, sup.remove((a, b)), a, b));
            assert(has_cycle(directed, sup));
        }
    }
}

} // verus!
