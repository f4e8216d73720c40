//! What a relation storage holds, and what its operations make of it.
//!
//! The operations of the storage are stated here as functions from one
//! state to the next. The storage itself promises to follow them.

use crate::graph::GraphView;
use crate::log::{keys_unique, lemma_put_unique, lemma_withdraw_unique, lookup, put, withdraw, Pair};
use crate::paths::{edge_key, has_cycle, lemma_subset_acyclic};
use vstd::prelude::*;

verus! {

/// `log` without its entry for the edge between `a` and `b`. An undirected
/// edge may have been logged from either end, so both pairs are withdrawn.
pub open spec fn forget(log: Seq<(Pair, u32)>, directed: bool, a: u64, b: u64) -> Seq<
    (Pair, u32),
> {
    if directed {
        withdraw(log, (a, b))
    } else {
        withdraw(withdraw(log, (a, b)), (b, a))
    }
}

/// What a storage holds.
pub struct StorageView<R> {
    /// The nodes and the edges with their payloads.
    pub graph: GraphView<R>,
    /// The default lower bound of the insertion window.
    pub last_insert: u32,
    /// The insertion log: for each pair, when its edge came to be.
    pub inserted: Seq<(Pair, u32)>,
    /// The deletion log: for each pair, when its edge was removed, and the
    /// payload that it carried then.
    pub deleted: Seq<(Pair, (u32, R))>,
}

impl<R> StorageView<R> {
    /// The storage after the edge from `a` to `b` is inserted with
    /// `relation` at `now`. The payload is written in any case; the insertion
    /// is logged only where the edge was not there.
    pub open spec fn insert_tracked(self, a: u64, b: u64, relation: R, now: u32) -> StorageView<R> {
        StorageView {
            graph: GraphView {
                nodes: self.graph.nodes.insert(a).insert(b),
                edges: self.graph.edges.insert(edge_key(self.graph.directed, a, b), relation),
                ..self.graph
            },
            inserted: if self.graph.linked(a, b) {
                self.inserted
            } else {
                put(self.inserted, (a, b), now)
            },
            ..self
        }
    }

    /// The storage after the edge from `a` to `b` is deleted at `now`:
    /// unchanged where there is no such edge; otherwise the edge is gone, its
    /// insertion is forgotten, and its deletion is logged with its payload.
    pub open spec fn delete_edge_tracked(self, a: u64, b: u64, now: u32) -> StorageView<R> {
        if self.graph.linked(a, b) {
            let key = edge_key(self.graph.directed, a, b);
            StorageView {
                graph: GraphView { edges: self.graph.edges.remove(key), ..self.graph },
                inserted: forget(self.inserted, self.graph.directed, a, b),
                deleted: put(self.deleted, (a, b), (now, self.graph.edges[key])),
                ..self
            }
        } else {
            self
        }
    }
}

impl<R> StorageView<R> {
    /// The storage after the edge to `b` is evicted, if there is one: it is
    /// deleted at `now` as [`delete_edge_tracked`](Self::delete_edge_tracked)
    /// does. Meant for a graph in which a node has at most one incoming edge.
    pub open spec fn evict_incoming(self, b: u64, now: u32) -> StorageView<R> {
        if exists|x: u64| self.graph.linked(x, b) {
            self.delete_edge_tracked(choose|x: u64| self.graph.linked(x, b), b, now)
        } else {
            self
        }
    }

    /// The storage after the edge from `a` is evicted, if there is one.
    /// Meant for a graph in which a node has at most one outgoing edge.
    pub open spec fn evict_outgoing(self, a: u64, now: u32) -> StorageView<R> {
        if exists|y: u64| self.graph.linked(a, y) {
            self.delete_edge_tracked(a, choose|y: u64| self.graph.linked(a, y), now)
        } else {
            self
        }
    }

    /// The storage after the evictions that an insertion of the edge from
    /// `a` to `b` begins with: the edge to `b` where `incoming` is limited,
    /// then the edge from `a` where `outgoing` is.
    pub open spec fn evicted(
        self,
        incoming: bool,
        outgoing: bool,
        a: u64,
        b: u64,
        now: u32,
    ) -> StorageView<R> {
        let first = if incoming {
            self.evict_incoming(b, now)
        } else {
            self
        };
        if outgoing {
            first.evict_outgoing(a, now)
        } else {
            first
        }
    }

    /// Whether the edge from `a` to `b` would close a cycle.
    pub open spec fn closes_cycle(self, a: u64, b: u64) -> bool {
        has_cycle(
            self.graph.directed,
            self.graph.edges.dom().insert(edge_key(self.graph.directed, a, b)),
        )
    }

    /// The storage with `a` and `b` among its nodes.
    pub open spec fn with_nodes(self, a: u64, b: u64) -> StorageView<R> {
        StorageView {
            graph: GraphView { nodes: self.graph.nodes.insert(a).insert(b), ..self.graph },
            ..self
        }
    }

    /// Whether no node has two incoming edges.
    pub open spec fn one_incoming(self) -> bool {
        forall|n: u64, x: u64, y: u64|
            #[trigger] self.graph.linked(x, n) && #[trigger] self.graph.linked(y, n) ==> x == y
    }

    /// Whether no node has two outgoing edges.
    pub open spec fn one_outgoing(self) -> bool {
        forall|n: u64, x: u64, y: u64|
            #[trigger] self.graph.linked(n, x) && #[trigger] self.graph.linked(n, y) ==> x == y
    }

    /// Whether the graph keeps what is asked of it: no cycle where `acyclic`
    /// is set, and no second incoming or outgoing edge at a node where
    /// `incoming` or `outgoing` is.
    pub open spec fn constrained(self, acyclic: bool, incoming: bool, outgoing: bool) -> bool {
        &&& acyclic ==> !self.graph.cyclic()
        &&& incoming ==> self.one_incoming()
        &&& outgoing ==> self.one_outgoing()
    }

    /// A storage with no other edges than a constrained one is constrained.
    pub proof fn lemma_constrained_part(
        self,
        before: StorageView<R>,
        acyclic: bool,
        incoming: bool,
        outgoing: bool,
    )
        requires
            before.constrained(acyclic, incoming, outgoing),
            self.graph.directed == before.graph.directed,
            self.graph.edges.dom().subset_of(before.graph.edges.dom()),
        ensures
            self.constrained(acyclic, incoming, outgoing),
    {
        if acyclic {
            lemma_subset_acyclic(
                self.graph.directed,
                self.graph.edges.dom(),
                before.graph.edges.dom(),
            );
        }
        if incoming {
            assert forall|n: u64, x: u64, y: u64|
                #[trigger] self.graph.linked(x, n) && #[trigger] self.graph.linked(
                    y,
                    n,
                ) implies x == y by {
                assert(before.graph.linked(x, n) && before.graph.linked(y, n));
            }
        }
        if outgoing {
            assert forall|n: u64, x: u64, y: u64|
                #[trigger] self.graph.linked(n, x) && #[trigger] self.graph.linked(
                    n,
                    y,
                ) implies x == y by {
                assert(before.graph.linked(n, x) && before.graph.linked(n, y));
            }
        }
    }

    /// The pairs under which the edges at `n` are deleted when `n` is: each
    /// edge to `n` from its other end, then each remaining edge from `n`.
    pub open spec fn edges_at(self, n: u64) -> Set<Pair> {
        Set::new(
            |k: Pair|
                (k.1 == n && self.graph.linked(k.0, n)) || (self.graph.directed && k.0 == n && k.1
                    != n && self.graph.linked(n, k.1)),
        )
    }

    /// Whether the logs of `after` are those of `self` with the deletion of
    /// the edges `gone` logged at `now`.
    ///
    /// Each pair of `gone` has a deletion entry with `now` and the payload
    /// that the edge carried, and no insertion entry. Every other pair has
    /// the entries it had. The deletion entries that were there keep their
    /// places.
    pub open spec fn deletions_logged(self, after: StorageView<R>, gone: Set<Pair>, now: u32) -> bool {
        let directed = self.graph.directed;
        &&& forall|k: Pair| #[trigger]
            lookup(after.deleted, k) == (if gone.contains(k) {
                Some((now, self.graph.edges[edge_key(directed, k.0, k.1)]))
            } else {
                lookup(self.deleted, k)
            })
        &&& after.deleted.len() >= self.deleted.len()
        &&& forall|i: int|
            0 <= i < self.deleted.len() ==> (#[trigger] after.deleted[i]).0 == self.deleted[i].0
        &&& forall|k: Pair| #[trigger]
            lookup(after.inserted, k) == (if gone.contains(k) || (!directed && gone.contains(
                (k.1, k.0),
            )) {
                None
            } else {
                lookup(self.inserted, k)
            })
    }

    /// One more tracked deletion keeps the account of the logs.
    pub proof fn lemma_deletion_logged(
        self,
        now_at: StorageView<R>,
        gone: Set<Pair>,
        a: u64,
        b: u64,
        now: u32,
    )
        requires
            keys_unique(now_at.inserted),
            keys_unique(now_at.deleted),
            self.deletions_logged(now_at, gone, now),
            now_at.graph.directed == self.graph.directed,
            now_at.graph.linked(a, b),
            now_at.graph.edges[edge_key(self.graph.directed, a, b)] == self.graph.edges[edge_key(
                self.graph.directed,
                a,
                b,
            )],
        ensures
            self.deletions_logged(now_at.delete_edge_tracked(a, b, now), gone.insert((a, b)), now),
    {
        let directed = self.graph.directed;
        let next = now_at.delete_edge_tracked(a, b, now);
        let payload = now_at.graph.edges[edge_key(directed, a, b)];
        lemma_put_unique(now_at.deleted, (a, b), (now, payload));
        assert forall|i: int| 0 <= i < self.deleted.len() implies (#[trigger] next.deleted[i]).0
            == self.deleted[i].0 by {
            assert(now_at.deleted[i].0 == self.deleted[i].0);
        }
        lemma_withdraw_unique(now_at.inserted, (a, b));
        if !directed {
            lemma_withdraw_unique(withdraw(now_at.inserted, (a, b)), (b, a));
        }
        assert forall|k: Pair| #[trigger]
            lookup(next.inserted, k) == (if gone.insert((a, b)).contains(k) || (!directed
                && gone.insert((a, b)).contains((k.1, k.0))) {
                None
            } else {
                lookup(self.inserted, k)
            }) by {
            assert(lookup(now_at.inserted, k) == (if gone.contains(k) || (!directed
                && gone.contains((k.1, k.0))) {
                None
            } else {
                lookup(self.inserted, k)
            }));
        }
        assert forall|k: Pair| #[trigger]
            lookup(next.deleted, k) == (if gone.insert((a, b)).contains(k) {
                Some((now, self.graph.edges[edge_key(directed, k.0, k.1)]))
            } else {
                lookup(self.deleted, k)
            }) by {
            assert(lookup(now_at.deleted, k) == (if gone.contains(k) {
                Some((now, self.graph.edges[edge_key(directed, k.0, k.1)]))
            } else {
                lookup(self.deleted, k)
            }));
        }
    }
}

} // verus!
