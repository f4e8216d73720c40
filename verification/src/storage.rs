//! The storage of one relation type: its graph and its two change logs.

use crate::graph::{part_of, GraphView, RelationGraph};
use crate::links::Direction;
use crate::log::{keys_unique, outlives, DeletionLog, Pair, StampLog};
use crate::model::StorageView;
use crate::paths::{edge_key, incident, is_walk, linked};
use crate::relation::Relation;
use crate::relation_mode::RelationMode;
use crate::view_mut::InsertError;
use vstd::prelude::*;

verus! {

/// The storage of the relation type `R`.
pub struct RelationStorage<R: Relation> {
    graph: RelationGraph<R>,
    last_insert: u32,
    insertion_data: StampLog,
    deletion_data: DeletionLog<R>,
}

impl<R: Relation> Default for RelationStorage<R> {
    /// An empty storage.
    fn default() -> (storage: Self)
        ensures
            storage.wf(),
            storage.is_new(),
            storage.constrained(),
    {
        RelationStorage::new()
    }
}

impl<R: Relation> RelationStorage<R> {
    /// What the storage holds.
    pub closed spec fn view(&self) -> StorageView<R> {
        StorageView {
            graph: self.graph@,
            last_insert: self.last_insert,
            inserted: self.insertion_data@,
            deleted: self.deletion_data@,
        }
    }

    /// The parts fit together: the graph is of the kind that the mode asks
    /// for, every edge has its payload, and no log holds a pair twice.
    pub closed spec fn wf(&self) -> bool {
        &&& self.graph.wf()
        &&& self.graph@.directed == R::Mode::directed()
        &&& self.insertion_data.wf()
        &&& self.deletion_data.wf()
    }

    /// In a well-formed storage the graph is of the kind that the mode asks
    /// for, and no log holds a pair twice.
    pub proof fn lemma_wf(&self)
        requires
            self.wf(),
        ensures
            self@.graph.directed == R::Mode::directed(),
            keys_unique(self@.inserted),
            keys_unique(self@.deleted),
    {
        self.deletion_data.lemma_keys_unique();
    }

    /// Whether the storage holds nothing: no node, no edge, no log entry.
    pub open spec fn is_new(&self) -> bool {
        &&& self@.graph.directed == R::Mode::directed()
        &&& self@.graph.nodes == Set::<u64>::empty()
        &&& self@.graph.edges == Map::<Pair, R>::empty()
        &&& self@.last_insert == 0
        &&& self@.inserted == Seq::<(Pair, u32)>::empty()
        &&& self@.deleted == Seq::<(Pair, (u32, R))>::empty()
    }

    /// An empty storage holds no cycle and no edge too many.
    pub proof fn lemma_new_constrained(&self)
        requires
            self.is_new(),
        ensures
            self.constrained(),
    {
        if self@.graph.cyclic() {
            if self@.graph.directed {
                let walk = choose|walk: Seq<u64>|
                    #[trigger] is_walk(true, self@.graph.edges.dom(), walk) && walk.len() >= 2
                        && walk[0] == walk[walk.len() - 1];
                assert(linked(true, self@.graph.edges.dom(), walk[0], walk[1]));
            }
        }
    }

    /// An empty storage.
    pub fn new() -> (storage: RelationStorage<R>)
        ensures
            storage.wf(),
            storage.is_new(),
            storage.constrained(),
    {
        let storage = RelationStorage {
            graph: RelationGraph::new(R::Mode::is_directed()),
            last_insert: 0,
            insertion_data: StampLog::new(),
            deletion_data: DeletionLog::new(),
        };
        proof {
            storage.lemma_new_constrained();
        }
        storage
    }

    /// The graph of the relation.
    pub fn graph(&self) -> (graph: &RelationGraph<R>)
        ensures
            graph@ == self@.graph,
            self.wf() ==> graph.wf(),
    {
        &self.graph
    }

    /// The insertion log.
    pub fn insertion_data(&self) -> (log: &StampLog)
        ensures
            log@ == self@.inserted,
            self.wf() ==> log.wf(),
    {
        &self.insertion_data
    }

    /// The deletion log.
    pub fn deletion_data(&self) -> (log: &DeletionLog<R>)
        ensures
            log@ == self@.deleted,
            self.wf() ==> log.wf(),
    {
        &self.deletion_data
    }

    /// The default lower bound of the insertion window.
    pub fn last_insert(&self) -> (t: u32)
        ensures
            t == self@.last_insert,
    {
        self.last_insert
    }

    /// Whether the graph has no node.
    pub fn is_empty(&self) -> (r: bool)
        ensures
            r == (self@.graph.nodes == Set::<u64>::empty()),
    {
        self.graph.node_count() == 0
    }

    /// What the host calls when `entity` is deleted: the node goes as by
    /// [`delete_node_tracked`](Self::delete_node_tracked).
    pub fn delete(&mut self, entity: u64, current: u32)
        requires
            old(self).wf(),
        ensures
            final(self).wf(),
            final(self)@.graph.directed == old(self)@.graph.directed,
            final(self)@.graph.nodes == old(self)@.graph.nodes.remove(entity),
            final(self)@.graph.edges == old(self)@.graph.without_edges_at(entity).edges,
            final(self)@.last_insert == old(self)@.last_insert,
            old(self)@.deletions_logged(final(self)@, old(self)@.edges_at(entity), current),
            old(self).constrained() ==> final(self).constrained(),
    {
        self.delete_node_tracked(entity, current);
    }

    /// Forgets every logged deletion.
    pub fn clear_all_removed_and_deleted(&mut self)
        requires
            old(self).wf(),
        ensures
            final(self).wf(),
            final(self)@ == (StorageView {
                deleted: Seq::<(Pair, (u32, R))>::empty(),
                ..old(self)@
            }),
            old(self).constrained() ==> final(self).constrained(),
    {
        self.deletion_data.clear();
    }

    /// Forgets the logged deletions that `timestamp` is not older than. The
    /// entries that stay keep their order.
    pub fn clear_all_removed_and_deleted_older_than_timestamp(&mut self, timestamp: u32)
        requires
            old(self).wf(),
        ensures
            final(self).wf(),
            final(self)@ == (StorageView {
                deleted: old(self)@.deleted.filter(outlives::<R>(timestamp)),
                ..old(self)@
            }),
            old(self).constrained() ==> final(self).constrained(),
    {
        self.deletion_data.sweep(timestamp);
    }

    /// Access to the payload of the edge from `a` to `b`. Writing through it
    /// changes that payload and nothing else; no log takes note.
    pub fn relation_mut(&mut self, a: u64, b: u64) -> (r: Option<&mut R>)
        requires
            old(self).wf(),
        ensures
            final(self).wf(),
            r.is_some() == old(self)@.graph.linked(a, b),
            match r {
                Some(payload) => {
                    &&& *payload == old(self)@.graph.edges[edge_key(
                        old(self)@.graph.directed,
                        a,
                        b,
                    )]
                    &&& final(self)@ == (StorageView {
                        graph: GraphView {
                            edges: old(self)@.graph.edges.insert(
                                edge_key(old(self)@.graph.directed, a, b),
                                *final(payload),
                            ),
                            ..old(self)@.graph
                        },
                        ..old(self)@
                    })
                },
                None => final(self)@ == old(self)@,
            },
            old(self).constrained() ==> final(self).constrained(),
    {
        proof {
            let before = self@;
            let key = edge_key(before.graph.directed, a, b);
            assert forall|value: R|
                before.graph.edges.contains_key(key) && self.constrained() implies (StorageView {
                    graph: GraphView {
                        edges: #[trigger] before.graph.edges.insert(key, value),
                        ..before.graph
                    },
                    ..before
                }).constrained(
                    R::ACYCLIC,
                    R::Mode::exclusive_incoming(),
                    R::Mode::exclusive_outgoing(),
                ) by {
                let after = StorageView {
                    graph: GraphView {
                        edges: before.graph.edges.insert(key, value),
                        ..before.graph
                    },
                    ..before
                };
                assert(after.graph.edges.dom() =~= before.graph.edges.dom());
                after.lemma_constrained_part(
                    before,
                    R::ACYCLIC,
                    R::Mode::exclusive_incoming(),
                    R::Mode::exclusive_outgoing(),
                );
            }
        }
        self.graph.edge_weight_mut(a, b)
    }

    /// Removes the node `e` and every edge at it, without a word in the
    /// logs: the insertion entries of those edges stay, and no deletion is
    /// logged. Returns whether the node was there.
    pub fn delete_relations_with(&mut self, e: u64) -> (r: bool)
        requires
            old(self).wf(),
        ensures
            final(self).wf(),
            r == old(self)@.graph.nodes.contains(e),
            final(self)@ == (StorageView {
                graph: GraphView {
                    nodes: old(self)@.graph.nodes.remove(e),
                    ..old(self)@.graph.without_edges_at(e)
                },
                ..old(self)@
            }),
            old(self).constrained() ==> final(self).constrained(),
    {
        let r = self.graph.remove_node(e);
        proof {
            if old(self).constrained() {
                self.lemma_constrained_part(old(self));
            }
        }
        r
    }

    /// Inserts the edge from `a` to `b` with the payload `relation`.
    ///
    /// An edge that is there already gets the new payload and keeps the
    /// timestamp of its insertion; a new edge is logged as inserted at
    /// `current`. Nothing is evicted and no cycle is looked for: the
    /// constraints of the relation type are kept by
    /// [`insert_checked`](Self::insert_checked).
    pub fn insert_tracked(&mut self, a: u64, b: u64, relation: R, current: u32)
        requires
            old(self).wf(),
        ensures
            final(self).wf(),
            final(self)@ == old(self)@.insert_tracked(a, b, relation, current),
    {
        if self.graph.add_edge(a, b, relation).is_none() {
            self.insertion_data.record(a, b, current);
        }
    }

    /// Deletes the edge from `a` to `b`, forgets its insertion and logs its
    /// deletion at `current` with the payload that it carried. Returns
    /// whether there was such an edge.
    pub fn delete_edge_tracked(&mut self, a: u64, b: u64, current: u32) -> (r: bool)
        requires
            old(self).wf(),
        ensures
            final(self).wf(),
            r == old(self)@.graph.linked(a, b),
            final(self)@ == old(self)@.delete_edge_tracked(a, b, current),
            old(self).constrained() ==> final(self).constrained(),
    {
        let r = match self.graph.remove_edge(a, b) {
            Some(relation) => {
                self.insertion_data.withdraw(a, b);
                if !self.graph.is_directed() {
                    self.insertion_data.withdraw(b, a);
                }
                self.deletion_data.record(a, b, current, relation);
                true
            },
            None => {
                assert(self@.graph.edges =~= old(self)@.graph.edges);
                false
            },
        };
        proof {
            if old(self).constrained() {
                self.lemma_constrained_part(old(self));
            }
        }
        r
    }
}

impl<R: Relation> RelationStorage<R> {
    /// The graph keeps what the relation type asks for: no cycle where it is
    /// acyclic, and no more edges at a node than its mode allows.
    pub open spec fn constrained(&self) -> bool {
        self@.constrained(R::ACYCLIC, R::Mode::exclusive_incoming(), R::Mode::exclusive_outgoing())
    }

    /// A storage with no other edges than a constrained one is constrained.
    pub proof fn lemma_constrained_part(&self, before: &RelationStorage<R>)
        requires
            before.constrained(),
            self@.graph.directed == before@.graph.directed,
            self@.graph.edges.dom().subset_of(before@.graph.edges.dom()),
        ensures
            self.constrained(),
    {
        self@.lemma_constrained_part(
            before@,
            R::ACYCLIC,
            R::Mode::exclusive_incoming(),
            R::Mode::exclusive_outgoing(),
        );
    }

    /// Evicts the edge to `b`, if there is one.
    fn evict_incoming(&mut self, b: u64, current: u32)
        requires
            old(self).wf(),
            old(self)@.one_incoming(),
        ensures
            final(self).wf(),
            final(self)@ == old(self)@.evict_incoming(b, current),
            final(self)@.graph.directed == old(self)@.graph.directed,
            part_of(final(self)@.graph.edges, old(self)@.graph.edges),
            forall|x: u64| !final(self)@.graph.linked(x, b),
    {
        let ghost start = self@;
        let sources = self.graph.neighbors_directed(b, Direction::Incoming);
        proof {
            assert forall|j: int| 0 <= j < sources@.len() implies start.graph.linked(
                #[trigger] sources@[j],
                b,
            ) by {
                assert(sources@.contains(sources@[j]));
                assert(sources@.to_set().contains(sources@[j]));
            }
            if sources@.len() >= 2 {
                assert(start.graph.linked(sources@[0], b) && start.graph.linked(sources@[1], b));
                assert(sources@[0] != sources@[1]);
            }
            if sources@.len() == 0 {
                assert forall|x: u64| !start.graph.linked(x, b) by {
                    if start.graph.linked(x, b) {
                        assert(start.graph.incoming(b).contains(x));
                        assert(sources@.to_set().contains(x));
                    }
                }
            }
        }
        let mut i: usize = 0;
        while i < sources.len()
            invariant
                self.wf(),
                i <= sources.len() <= 1,
                sources@.len() == 1 ==> start.graph.linked(sources@[0], b),
                i == 0 ==> self@ == start,
                i == 1 ==> self@ == start.delete_edge_tracked(sources@[0], b, current),
            decreases sources.len() - i,
        {
            let removed = self.delete_edge_tracked(sources[i], b, current);
            if !removed {
                unreached::<()>();
            }
            i += 1;
        }
        proof {
            if sources@.len() == 1 {
                let x = choose|x: u64| start.graph.linked(x, b);
                assert(start.graph.linked(x, b) && start.graph.linked(sources@[0], b));
                assert(x == sources@[0]);
                assert forall|y: u64| !self@.graph.linked(y, b) by {
                    if self@.graph.linked(y, b) {
                        assert(start.graph.linked(y, b));
                    }
                }
            }
        }
    }

    /// Evicts the edge from `a`, if there is one.
    fn evict_outgoing(&mut self, a: u64, current: u32)
        requires
            old(self).wf(),
            old(self)@.one_outgoing(),
        ensures
            final(self).wf(),
            final(self)@ == old(self)@.evict_outgoing(a, current),
            final(self)@.graph.directed == old(self)@.graph.directed,
            part_of(final(self)@.graph.edges, old(self)@.graph.edges),
            forall|y: u64| !final(self)@.graph.linked(a, y),
    {
        let ghost start = self@;
        let targets = self.graph.neighbors_directed(a, Direction::Outgoing);
        proof {
            assert forall|j: int| 0 <= j < targets@.len() implies start.graph.linked(
                a,
                #[trigger] targets@[j],
            ) by {
                assert(targets@.contains(targets@[j]));
                assert(targets@.to_set().contains(targets@[j]));
            }
            if targets@.len() >= 2 {
                assert(start.graph.linked(a, targets@[0]) && start.graph.linked(a, targets@[1]));
                assert(targets@[0] != targets@[1]);
            }
            if targets@.len() == 0 {
                assert forall|y: u64| !start.graph.linked(a, y) by {
                    if start.graph.linked(a, y) {
                        assert(start.graph.outgoing(a).contains(y));
                        assert(targets@.to_set().contains(y));
                    }
                }
            }
        }
        let mut i: usize = 0;
        while i < targets.len()
            invariant
                self.wf(),
                i <= targets.len() <= 1,
                targets@.len() == 1 ==> start.graph.linked(a, targets@[0]),
                i == 0 ==> self@ == start,
                i == 1 ==> self@ == start.delete_edge_tracked(a, targets@[0], current),
            decreases targets.len() - i,
        {
            self.delete_edge_tracked(a, targets[i], current);
            i += 1;
        }
        proof {
            if targets@.len() == 1 {
                let y = choose|y: u64| start.graph.linked(a, y);
                assert(start.graph.linked(a, y) && start.graph.linked(a, targets@[0]));
                assert(y == targets@[0]);
                assert forall|z: u64| !self@.graph.linked(a, z) by {
                    if self@.graph.linked(a, z) {
                        assert(start.graph.linked(a, z));
                    }
                }
            }
        }
    }

    /// Inserts the edge from `a` to `b` with the payload `relation`, keeping
    /// the constraints of the relation type.
    ///
    /// Where the mode limits the incoming edges of a node, the edge to `b` is
    /// evicted first; where it limits the outgoing edges, the edge from `a`
    /// is. Each eviction is a tracked deletion at `current`. Then the edge is
    /// put into the graph. If the relation type is acyclic and the graph now
    /// holds a cycle, the edge is taken out again and the insertion is
    /// refused; the insertion log is written only once the edge has passed,
    /// so a refused insertion leaves no trace in either log. The evictions
    /// stay, and so do `a` and `b` as nodes.
    pub fn insert_checked(&mut self, a: u64, b: u64, relation: R, current: u32) -> (r: Result<
        (),
        InsertError,
    >)
        requires
            old(self).wf(),
            old(self).constrained(),
        ensures
            final(self).wf(),
            final(self).constrained(),
            R::ACYCLIC ==> !final(self)@.graph.cyclic(),
            r.is_err() == (R::ACYCLIC && old(self)@.evicted(
                R::Mode::exclusive_incoming(),
                R::Mode::exclusive_outgoing(),
                a,
                b,
                current,
            ).closes_cycle(a, b)),
            r.is_ok() ==> final(self)@ == old(self)@.evicted(
                R::Mode::exclusive_incoming(),
                R::Mode::exclusive_outgoing(),
                a,
                b,
                current,
            ).insert_tracked(a, b, relation, current),
            r.is_err() ==> r == Err::<(), InsertError>(InsertError::CycleDetected) && final(self)@
                == old(self)@.evicted(
                R::Mode::exclusive_incoming(),
                R::Mode::exclusive_outgoing(),
                a,
                b,
                current,
            ).with_nodes(a, b),
            r.is_ok() && R::Mode::exclusive_incoming() ==> final(self)@.graph.incoming(b)
                == set![a],
            r.is_ok() && R::Mode::exclusive_outgoing() ==> final(self)@.graph.outgoing(a)
                == set![b],
    {
        let ghost start = *self;
        if R::Mode::is_exclusive_incoming() {
            self.evict_incoming(b, current);
        }
        let ghost first = *self;
        if R::Mode::is_exclusive_outgoing() {
            proof {
                self.lemma_constrained_part(&start);
            }
            self.evict_outgoing(a, current);
        }
        let ghost second = *self;
        let ghost directed = second@.graph.directed;
        let ghost key = edge_key(directed, a, b);
        proof {
            assert(part_of(second@.graph.edges, start@.graph.edges)) by {
                assert forall|e: Pair| #[trigger]
                    second@.graph.edges.contains_key(e) implies start@.graph.edges.contains_key(e)
                    && second@.graph.edges[e] == start@.graph.edges[e] by {
                    assert(first@.graph.edges.contains_key(e));
                }
            }
            second.lemma_constrained_part(&start);
            R::Mode::lemma_undirected_limits();
            if R::Mode::exclusive_incoming() {
                assert forall|x: u64| !second@.graph.linked(x, b) by {
                    if second@.graph.linked(x, b) {
                        assert(first@.graph.linked(x, b));
                    }
                }
            }
        }
        let prior = self.graph.add_edge(a, b, relation);
        let ghost added = self@;
        proof {
            assert(added.graph.edges.dom() =~= second@.graph.edges.dom().insert(key));
        }
        if R::ACYCLIC && self.graph.is_cyclic() {
            self.graph.remove_edge(a, b);
            proof {
                if second@.graph.edges.contains_key(key) {
                    assert(second@.graph.edges.dom().insert(key) =~= second@.graph.edges.dom());
                }
                assert(self@.graph.edges =~= second@.graph.edges);
                self.lemma_constrained_part(&second);
            }
            return Err(InsertError::CycleDetected);
        }
        if prior.is_none() {
            self.insertion_data.record(a, b, current);
        }
        proof {
            let after = self@;
            assert forall|x: u64, n: u64| #[trigger]
                after.graph.linked(x, n) implies second@.graph.linked(x, n) || edge_key(
                directed,
                x,
                n,
            ) == key by {}
            if R::Mode::exclusive_incoming() {
                assert(after.graph.incoming(b) =~= set![a]);
                assert forall|n: u64, x: u64, y: u64|
                    #[trigger] after.graph.linked(x, n) && #[trigger] after.graph.linked(
                        y,
                        n,
                    ) implies x == y by {
                    if !directed && n == a {
                        assert(second@.graph.linked(x, a) == second@.graph.linked(a, x));
                        assert(second@.graph.linked(y, a) == second@.graph.linked(a, y));
                    }
                }
            }
            if R::Mode::exclusive_outgoing() {
                assert(after.graph.outgoing(a) =~= set![b]);
                assert forall|n: u64, x: u64, y: u64|
                    #[trigger] after.graph.linked(n, x) && #[trigger] after.graph.linked(
                        n,
                        y,
                    ) implies x == y by {
                    if !directed && n == b {
                        assert(second@.graph.linked(b, x) == second@.graph.linked(x, b));
                        assert(second@.graph.linked(b, y) == second@.graph.linked(y, b));
                    }
                }
            }
        }
        Ok(())
    }

    /// Deletes the node `entity`: every edge at it is deleted as
    /// [`delete_edge_tracked`](Self::delete_edge_tracked) does, first the
    /// edges to it, then the edges from it, all at `current`; then the node
    /// leaves the graph. Returns whether the node was there.
    pub fn delete_node_tracked(&mut self, entity: u64, current: u32) -> (r: bool)
        requires
            old(self).wf(),
        ensures
            final(self).wf(),
            r == old(self)@.graph.nodes.contains(entity),
            final(self)@.graph.directed == old(self)@.graph.directed,
            final(self)@.graph.nodes == old(self)@.graph.nodes.remove(entity),
            final(self)@.graph.edges == old(self)@.graph.without_edges_at(entity).edges,
            final(self)@.last_insert == old(self)@.last_insert,
            old(self)@.deletions_logged(final(self)@, old(self)@.edges_at(entity), current),
            old(self).constrained() ==> final(self).constrained(),
    {
        let ghost start = self@;
        let ghost directed = start.graph.directed;
        let ghost mut gone: Set<Pair> = Set::empty();
        proof {
            self.lemma_wf();
        }
        let sources = self.graph.neighbors_directed(entity, Direction::Incoming);
        proof {
            assert forall|j: int| 0 <= j < sources@.len() implies start.graph.linked(
                #[trigger] sources@[j],
                entity,
            ) by {
                assert(sources@.contains(sources@[j]));
                assert(sources@.to_set().contains(sources@[j]));
            }
        }
        let mut i: usize = 0;
        while i < sources.len()
            invariant
                self.wf(),
                i <= sources.len(),
                sources@.no_duplicates(),
                sources@.to_set() == start.graph.incoming(entity),
                directed == start.graph.directed,
                self@.graph.directed == directed,
                self@.graph.nodes == start.graph.nodes,
                self@.last_insert == start.last_insert,
                part_of(self@.graph.edges, start.graph.edges),
                forall|e: Pair| #[trigger]
                    start.graph.edges.contains_key(e) && (if directed {
                        e.1 != entity
                    } else {
                        !incident(e, entity)
                    }) ==> self@.graph.edges.contains_key(e),
                forall|j: int|
                    0 <= j < i ==> !self@.graph.linked(#[trigger] sources@[j], entity),
                forall|j: int|
                    i <= j < sources@.len() ==> self@.graph.linked(#[trigger] sources@[j], entity),
                forall|j: int| 0 <= j < i ==> gone.contains((#[trigger] sources@[j], entity)),
                forall|k: Pair| gone.contains(k) ==> start.edges_at(entity).contains(k),
                start.deletions_logged(self@, gone, current),
            decreases sources.len() - i,
        {
            let x: u64 = sources[i];
            let ghost before = self@;
            proof {
                self.lemma_wf();
                assert(before.graph.linked(sources@[i as int], entity));
                assert(before.graph.edges.contains_key(edge_key(directed, x, entity)));
                start.lemma_deletion_logged(before, gone, x, entity, current);
                assert(sources@.contains(x));
                assert(sources@.to_set().contains(x));
                gone = gone.insert((x, entity));
            }
            self.delete_edge_tracked(x, entity, current);
            proof {
                assert(self@.graph.edges == before.graph.edges.remove(
                    edge_key(directed, x, entity),
                ));
                assert forall|e: Pair| #[trigger]
                    start.graph.edges.contains_key(e) && (if directed {
                        e.1 != entity
                    } else {
                        !incident(e, entity)
                    }) implies self@.graph.edges.contains_key(e) by {
                    assert(before.graph.edges.contains_key(e));
                    assert(e != edge_key(directed, x, entity));
                }
                assert forall|j: int| i < j < sources@.len() implies self@.graph.linked(
                    #[trigger] sources@[j],
                    entity,
                ) by {
                    assert(before.graph.linked(sources@[j], entity));
                    assert(sources@[j] != sources@[i as int]);
                }
            }
            i += 1;
        }
        let ghost middle = self@;
        let targets = self.graph.neighbors_directed(entity, Direction::Outgoing);
        proof {
            assert forall|j: int| 0 <= j < targets@.len() implies middle.graph.linked(
                entity,
                #[trigger] targets@[j],
            ) by {
                assert(targets@.contains(targets@[j]));
                assert(targets@.to_set().contains(targets@[j]));
            }
            assert forall|x: u64| #[trigger]
                start.graph.incoming(entity).contains(x) implies !middle.graph.linked(x, entity)
                && gone.contains((x, entity)) by {
                assert(sources@.to_set().contains(x));
                let j = choose|j: int| 0 <= j < sources@.len() && sources@[j] == x;
                assert(!middle.graph.linked(sources@[j], entity));
            }
        }
        let mut i: usize = 0;
        while i < targets.len()
            invariant
                self.wf(),
                i <= targets.len(),
                targets@.no_duplicates(),
                targets@.to_set() == middle.graph.outgoing(entity),
                directed == start.graph.directed,
                self@.graph.directed == directed,
                middle.graph.directed == directed,
                self@.graph.nodes == start.graph.nodes,
                self@.last_insert == start.last_insert,
                part_of(self@.graph.edges, middle.graph.edges),
                part_of(middle.graph.edges, start.graph.edges),
                forall|x: u64| #[trigger]
                    start.graph.incoming(entity).contains(x) ==> !middle.graph.linked(x, entity),
                forall|e: Pair| #[trigger]
                    start.graph.edges.contains_key(e) && !incident(e, entity)
                        ==> self@.graph.edges.contains_key(e),
                forall|j: int|
                    0 <= j < i ==> !self@.graph.linked(entity, #[trigger] targets@[j]),
                forall|j: int|
                    i <= j < targets@.len() ==> self@.graph.linked(entity, #[trigger] targets@[j]),
                forall|j: int| 0 <= j < i ==> gone.contains((entity, #[trigger] targets@[j])),
                forall|x: u64| #[trigger]
                    start.graph.incoming(entity).contains(x) ==> gone.contains((x, entity)),
                forall|k: Pair| gone.contains(k) ==> start.edges_at(entity).contains(k),
                start.deletions_logged(self@, gone, current),
            decreases targets.len() - i,
        {
            let y: u64 = targets[i];
            let ghost before = self@;
            proof {
                self.lemma_wf();
                assert(before.graph.linked(entity, targets@[i as int]));
                assert(before.graph.edges.contains_key(edge_key(directed, entity, y)));
                assert(middle.graph.edges.contains_key(edge_key(directed, entity, y)));
                start.lemma_deletion_logged(before, gone, entity, y, current);
                assert(targets@.contains(y));
                assert(targets@.to_set().contains(y));
                assert(middle.graph.linked(entity, y));
                assert(start.graph.linked(entity, y));
                assert(start.edges_at(entity).contains((entity, y))) by {
                    if !directed || y == entity {
                        assert(edge_key(directed, entity, y) == edge_key(directed, y, entity));
                        assert(start.graph.incoming(entity).contains(y));
                    }
                }
                gone = gone.insert((entity, y));
            }
            self.delete_edge_tracked(entity, y, current);
            proof {
                assert(self@.graph.edges == before.graph.edges.remove(
                    edge_key(directed, entity, y),
                ));
                assert forall|j: int| i < j < targets@.len() implies self@.graph.linked(
                    entity,
                    #[trigger] targets@[j],
                ) by {
                    assert(before.graph.linked(entity, targets@[j]));
                    assert(targets@[j] != targets@[i as int]);
                }
            }
            i += 1;
        }
        let ghost last = self@;
        proof {
            assert forall|e: Pair| last.graph.edges.contains_key(e) implies !incident(
                e,
                entity,
            ) by {
                assert(middle.graph.edges.contains_key(e));
                assert(start.graph.edges.contains_key(e));
                if incident(e, entity) {
                    if !directed {
                        old(self).graph.lemma_ordered(e);
                    }
                    if e.1 == entity && (directed || e.0 != entity) {
                        assert(edge_key(directed, e.0, entity) == e);
                        assert(start.graph.incoming(entity).contains(e.0));
                    } else {
                        assert(edge_key(directed, entity, e.1) == e);
                        assert(middle.graph.outgoing(entity).contains(e.1));
                        assert(targets@.to_set().contains(e.1));
                        let j = choose|j: int| 0 <= j < targets@.len() && targets@[j] == e.1;
                        assert(!last.graph.linked(entity, targets@[j]));
                    }
                }
            }
            assert forall|e: Pair| #[trigger]
                last.graph.edges.contains_key(e) implies start.graph.edges.contains_key(e)
                && last.graph.edges[e] == start.graph.edges[e] by {
                assert(middle.graph.edges.contains_key(e));
                assert(middle.graph.edges[e] == last.graph.edges[e]);
            }
            assert(last.graph.edges =~= start.graph.without_edges_at(entity).edges);
            assert(gone =~= start.edges_at(entity)) by {
                assert forall|k: Pair| start.edges_at(entity).contains(k) implies gone.contains(
                    k,
                ) by {
                    if k.1 == entity && start.graph.linked(k.0, entity) {
                        assert(start.graph.incoming(entity).contains(k.0));
                    } else {
                        assert(middle.graph.edges.contains_key(edge_key(directed, entity, k.1)));
                        assert(middle.graph.outgoing(entity).contains(k.1));
                        assert(targets@.to_set().contains(k.1));
                        let j = choose|j: int| 0 <= j < targets@.len() && targets@[j] == k.1;
                        assert(gone.contains((entity, targets@[j])));
                    }
                }
            }
        }
        let r = self.graph.remove_node(entity);
        proof {
            assert(self@.graph.edges =~= last.graph.edges);
            if old(self).constrained() {
                self.lemma_constrained_part(old(self));
            }
        }
        r
    }
}

} // verus!
