//! The exclusive view over a relation storage, through which edges are
//! inserted and deleted.

use crate::clock::furthest_from;
use crate::graph::GraphView;
use crate::iter::{BreadthFirstIter, DepthFirstIter, RelationsIter};
use crate::log::Pair;
use crate::paths::edge_key;
use crate::relation::{GetRelation, Relation};
use crate::relation_mode::RelationMode;
use crate::model::StorageView;
use crate::storage::RelationStorage;
use crate::view::{deletion_bound, insertion_bound};
use vstd::prelude::*;

verus! {

/// Why an insertion was refused.
#[derive(Clone, Copy, PartialEq, Eq, Structural, Debug)]
pub enum InsertError {
    /// The edge would have closed a cycle in a relation that forbids them.
    CycleDetected,
}

impl InsertError {
    /// What went wrong, in words.
    pub fn message(&self) -> (text: &'static str)
        ensures
            text@ == "Insertion would cause a cycle while `RelationMode` is set to acyclic."@,
    {
        match self {
            InsertError::CycleDetected => {
                "Insertion would cause a cycle while `RelationMode` is set to acyclic."
            },
        }
    }
}

/// Exclusive view over a relation storage.
pub struct RelationViewMut<'a, R: Relation> {
    storage: &'a mut RelationStorage<R>,
    last_insertion: u32,
    last_deletion: u32,
    current: u32,
}

impl<'a, R: Relation> GetRelation<R> for RelationViewMut<'a, R> {
    closed spec fn store(&self) -> RelationStorage<R> {
        *self.storage
    }

    closed spec fn since_insertion(&self) -> u32 {
        self.last_insertion
    }

    closed spec fn since_deletion(&self) -> u32 {
        self.last_deletion
    }

    closed spec fn now(&self) -> u32 {
        self.current
    }

    fn storage(&self) -> (storage: &RelationStorage<R>) {
        self.storage
    }

    fn last_insertion(&self) -> (t: u32) {
        self.last_insertion
    }

    fn last_deletion(&self) -> (t: u32) {
        self.last_deletion
    }

    fn current(&self) -> (t: u32) {
        self.current
    }
}

impl<'a, R: Relation> RelationsIter<R> for RelationViewMut<'a, R> {
    closed spec fn traversed(&self) -> GraphView<R> {
        self.storage@.graph
    }

    fn visit_depth_first(&self, entity: u64) -> (iter: DepthFirstIter<'_, R>) {
        DepthFirstIter::new(self.storage.graph(), entity)
    }

    fn visit_breadth_first(&self, entity: u64) -> (iter: BreadthFirstIter<'_, R>) {
        BreadthFirstIter::new(self.storage.graph(), entity)
    }
}

impl<'a, R: Relation> RelationViewMut<'a, R> {
    /// Whether the windows of `self` are those of `before`.
    pub open spec fn same_window(&self, before: &Self) -> bool {
        &&& self.since_insertion() == before.since_insertion()
        &&& self.since_deletion() == before.since_deletion()
        &&& self.now() == before.now()
    }

    /// The storage after the evictions that an insertion of the edge from
    /// `a` to `b` through this view begins with.
    pub open spec fn evicted(&self, a: u64, b: u64) -> StorageView<R> {
        self.store()@.evicted(
            R::Mode::exclusive_incoming(),
            R::Mode::exclusive_outgoing(),
            a,
            b,
            self.now(),
        )
    }

    /// Whether an insertion of the edge from `a` to `b` through this view
    /// is refused: the relation type is acyclic, and after the evictions the
    /// edge would close a cycle.
    pub open spec fn refuses(&self, a: u64, b: u64) -> bool {
        R::ACYCLIC && self.evicted(a, b).closes_cycle(a, b)
    }

    /// A view of `storage` at `current`, for a holder that last ran at
    /// `last_run`.
    pub fn new(storage: &'a mut RelationStorage<R>, last_run: Option<u32>, current: u32) -> (view:
        Self)
        ensures
            view.store() == *old(storage),
            view.since_insertion() == insertion_bound(last_run, old(storage)@.last_insert),
            view.since_deletion() == deletion_bound(last_run, current),
            view.now() == current,
    {
        let last_insertion = match last_run {
            Some(t) => t,
            None => storage.last_insert(),
        };
        let last_deletion = match last_run {
            Some(t) => t,
            None => furthest_from(current),
        };
        RelationViewMut { storage, last_insertion, last_deletion, current }
    }

    /// Deletes the node `entity` with every edge at it, at the view's
    /// `current`. Returns whether the node was there.
    pub fn delete(&mut self, entity: u64) -> (r: bool)
        requires
            old(self).store().wf(),
        ensures
            final(self).store().wf(),
            final(self).same_window(old(self)),
            r == old(self).store()@.graph.nodes.contains(entity),
            final(self).store()@.graph.directed == old(self).store()@.graph.directed,
            final(self).store()@.graph.nodes == old(self).store()@.graph.nodes.remove(entity),
            final(self).store()@.graph.edges == old(self).store()@.graph.without_edges_at(
                entity,
            ).edges,
            final(self).store()@.last_insert == old(self).store()@.last_insert,
            old(self).store()@.deletions_logged(
                final(self).store()@,
                old(self).store()@.edges_at(entity),
                old(self).now(),
            ),
            old(self).store().constrained() ==> final(self).store().constrained(),
    {
        self.storage.delete_node_tracked(entity, self.current)
    }

    /// Inserts the edge from `a` to `b` with the payload `relation`. The
    /// insertion must not be one that [`insert_checked`](Self::insert_checked)
    /// refuses.
    pub fn insert(&mut self, a: u64, b: u64, relation: R)
        requires
            old(self).store().wf(),
            old(self).store().constrained(),
            !old(self).refuses(a, b),
        ensures
            final(self).store().wf(),
            final(self).store().constrained(),
            final(self).same_window(old(self)),
            final(self).store()@ == old(self).evicted(a, b).insert_tracked(
                a,
                b,
                relation,
                old(self).now(),
            ),
    {
        match self.insert_checked(a, b, relation) {
            Ok(()) => {},
            Err(_) => unreached(),
        }
    }

    /// Inserts the edge from `a` to `b` with the payload `relation`, at the
    /// view's `current`, keeping the constraints of the relation type.
    ///
    /// Where the mode limits the incoming edges of a node, the edge to `b` is
    /// evicted first; where it limits the outgoing edges, the edge from `a`
    /// is. An eviction is a tracked deletion. The insertion is refused with
    /// [`InsertError::CycleDetected`] if the relation type is acyclic and the
    /// edge would close a cycle; then the graph holds the edges that it held
    /// after the evictions, and neither log has an entry for the attempt.
    /// Otherwise the edge is inserted as by a tracked insertion.
    pub fn insert_checked(&mut self, a: u64, b: u64, relation: R) -> (r: Result<(), InsertError>)
        requires
            old(self).store().wf(),
            old(self).store().constrained(),
        ensures
            final(self).store().wf(),
            final(self).store().constrained(),
            R::ACYCLIC ==> !final(self).store()@.graph.cyclic(),
            final(self).same_window(old(self)),
            r.is_err() == old(self).refuses(a, b),
            r.is_ok() ==> final(self).store()@ == old(self).evicted(a, b).insert_tracked(
                a,
                b,
                relation,
                old(self).now(),
            ),
            r.is_err() ==> r == Err::<(), InsertError>(InsertError::CycleDetected)
                && final(self).store()@ == old(self).evicted(a, b).with_nodes(a, b),
            r.is_ok() && R::Mode::exclusive_incoming() ==> final(self).store()@.graph.incoming(b)
                == set![a],
            r.is_ok() && R::Mode::exclusive_outgoing() ==> final(self).store()@.graph.outgoing(a)
                == set![b],
    {
        self.storage.insert_checked(a, b, relation, self.current)
    }

    /// Deletes the edge from `a` to `b`, at the view's `current`. Returns
    /// whether there was such an edge.
    pub fn delete_relation(&mut self, a: u64, b: u64) -> (r: bool)
        requires
            old(self).store().wf(),
        ensures
            final(self).store().wf(),
            final(self).same_window(old(self)),
            r == old(self).store()@.graph.linked(a, b),
            final(self).store()@ == old(self).store()@.delete_edge_tracked(a, b, old(self).now()),
            old(self).store().constrained() ==> final(self).store().constrained(),
    {
        self.storage.delete_edge_tracked(a, b, self.current)
    }

    /// Removes the node `e` and every edge at it, without a word in the
    /// logs. Returns whether the node was there.
    pub fn delete_relations_with(&mut self, e: u64) -> (r: bool)
        requires
            old(self).store().wf(),
        ensures
            final(self).store().wf(),
            final(self).same_window(old(self)),
            r == old(self).store()@.graph.nodes.contains(e),
            final(self).store()@ == (StorageView {
                graph: GraphView {
                    nodes: old(self).store()@.graph.nodes.remove(e),
                    ..old(self).store()@.graph.without_edges_at(e)
                },
                ..old(self).store()@
            }),
            old(self).store().constrained() ==> final(self).store().constrained(),
    {
        self.storage.delete_relations_with(e)
    }

    /// Forgets every logged deletion.
    pub fn clear_deleted(&mut self)
        requires
            old(self).store().wf(),
        ensures
            final(self).store().wf(),
            final(self).same_window(old(self)),
            final(self).store()@ == (StorageView {
                deleted: Seq::<(Pair, (u32, R))>::empty(),
                ..old(self).store()@
            }),
            old(self).store().constrained() ==> final(self).store().constrained(),
    {
        self.storage.clear_all_removed_and_deleted();
    }

    /// Access to the payload of the edge from `a` to `b`. Writing through it
    /// changes that payload and nothing else; no log takes note.
    pub fn relation_mut(&mut self, a: u64, b: u64) -> (r: Option<&mut R>)
        requires
            old(self).store().wf(),
        ensures
            final(self).store().wf(),
            final(self).same_window(old(self)),
            r.is_some() == old(self).store()@.graph.linked(a, b),
            match r {
                Some(payload) => {
                    &&& *payload == old(self).store()@.graph.edges[edge_key(
                        old(self).store()@.graph.directed,
                        a,
                        b,
                    )]
                    &&& final(self).store()@ == (StorageView {
                        graph: GraphView {
                            edges: old(self).store()@.graph.edges.insert(
                                edge_key(old(self).store()@.graph.directed, a, b),
                                *final(payload),
                            ),
                            ..old(self).store()@.graph
                        },
                        ..old(self).store()@
                    })
                },
                None => final(self).store()@ == old(self).store()@,
            },
            old(self).store().constrained() ==> final(self).store().constrained(),
    {
        self.storage.relation_mut(a, b)
    }
}

} // verus!
