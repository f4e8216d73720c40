//! What makes a type a relation, and what can be asked of a relation view.

use crate::clock::is_within;
use crate::iter::{BreadthFirstIter, DepthFirstIter};
use crate::links::{is_traversal, Direction};
use crate::log::{lookup, Pair};
use crate::paths::edge_key;
use crate::relation_mode::{shows, Neighbors, RelationMode};
use crate::storage::RelationStorage;
use crate::window::{
    collect_deleted, collect_ends, collect_ends_with, collect_inserted, deleted_within,
    deletion_stamp, ends_at, ends_with_at, inserted_within, is_stamped_within, logged_within,
    owned,
};
use vstd::prelude::*;

verus! {

/// Indicates that a `struct` or `enum` is used as a relation type: a value
/// of it is the payload of one edge.
pub trait Relation: Send + Sync + 'static + Sized {
    /// Whether the edges are directed, and how many of them a node may have.
    type Mode: RelationMode + Send + Sync + 'static;

    /// Whether an insertion that closes a cycle is refused.
    ///
    /// The verifier reads the constant of a relation type that writes it
    /// out. Of a type that leaves it at the default it knows only that there
    /// is one.
    const ACYCLIC: bool = true;
}

/// Used to retrieve various information from a relation view.
///
/// A view looks at one storage through a change window: insertions count as
/// new when they were logged after `last_insertion`, deletions when they
/// were logged after `last_deletion`, in both cases up to `current`.
pub trait GetRelation<R: Relation> {
    /// The storage that the view looks at.
    spec fn store(&self) -> RelationStorage<R>;

    /// The lower bound of the insertion window.
    spec fn since_insertion(&self) -> u32;

    /// The lower bound of the deletion window.
    spec fn since_deletion(&self) -> u32;

    /// The upper bound of both windows.
    spec fn now(&self) -> u32;

    fn storage(&self) -> (storage: &RelationStorage<R>)
        ensures
            *storage == self.store(),
    ;

    fn last_insertion(&self) -> (t: u32)
        ensures
            t == self.since_insertion(),
    ;

    fn last_deletion(&self) -> (t: u32)
        ensures
            t == self.since_deletion(),
    ;

    fn current(&self) -> (t: u32)
        ensures
            t == self.now(),
    ;

    /// The edges from `entity`.
    fn get(&self, entity: u64) -> (out: Neighbors<'_, R>)
        requires
            self.store().wf(),
        ensures
            shows(
                self.store()@.graph,
                entity,
                Direction::Outgoing,
                R::Mode::exclusive_outgoing(),
                out,
            ),
    {
        <R::Mode as RelationMode>::get_outgoing(self.storage().graph(), entity)
    }

    /// The edges to `entity`.
    fn get_incoming(&self, entity: u64) -> (out: Neighbors<'_, R>)
        requires
            self.store().wf(),
        ensures
            shows(
                self.store()@.graph,
                entity,
                Direction::Incoming,
                R::Mode::exclusive_incoming(),
                out,
            ),
    {
        <R::Mode as RelationMode>::get_incoming(self.storage().graph(), entity)
    }

    /// The edges from `entity`.
    fn get_outgoing(&self, entity: u64) -> (out: Neighbors<'_, R>)
        requires
            self.store().wf(),
        ensures
            shows(
                self.store()@.graph,
                entity,
                Direction::Outgoing,
                R::Mode::exclusive_outgoing(),
                out,
            ),
    {
        <R::Mode as RelationMode>::get_outgoing(self.storage().graph(), entity)
    }

    /// The targets of the edges from `entity` that were inserted in the
    /// window.
    fn get_inserted(&self, entity: u64) -> (out: Vec<u64>)
        ensures
            out@ == ends_at(
                R::Mode::directed(),
                entity,
                Direction::Outgoing,
                inserted_within(self.store()@.inserted, self.since_insertion(), self.now()),
            ),
    {
        self.get_outgoing_inserted(entity)
    }

    /// The targets of the edges from `entity` that were inserted in the
    /// window, in the order of the insertion log.
    fn get_outgoing_inserted(&self, entity: u64) -> (out: Vec<u64>)
        ensures
            out@ == ends_at(
                R::Mode::directed(),
                entity,
                Direction::Outgoing,
                inserted_within(self.store()@.inserted, self.since_insertion(), self.now()),
            ),
    {
        let pairs = self.inserted();
        collect_ends(R::Mode::is_directed(), entity, Direction::Outgoing, &pairs)
    }

    /// The sources of the edges to `entity` that were inserted in the
    /// window, in the order of the insertion log.
    fn get_incoming_inserted(&self, entity: u64) -> (out: Vec<u64>)
        ensures
            out@ == ends_at(
                R::Mode::directed(),
                entity,
                Direction::Incoming,
                inserted_within(self.store()@.inserted, self.since_insertion(), self.now()),
            ),
    {
        let pairs = self.inserted();
        collect_ends(R::Mode::is_directed(), entity, Direction::Incoming, &pairs)
    }

    /// The targets of the edges from `entity` that were deleted in the
    /// window, each with the payload that its edge carried.
    fn get_deleted(&self, entity: u64) -> (out: Vec<(u64, &R)>)
        requires
            self.store().wf(),
        ensures
            owned(out@) == ends_with_at(
                R::Mode::directed(),
                entity,
                Direction::Outgoing,
                deleted_within(self.store()@.deleted, self.since_deletion(), self.now()),
            ),
    {
        self.get_outgoing_deleted(entity)
    }

    /// The targets of the edges from `entity` that were deleted in the
    /// window, each with the payload that its edge carried, in the order of
    /// the deletion log.
    fn get_outgoing_deleted(&self, entity: u64) -> (out: Vec<(u64, &R)>)
        requires
            self.store().wf(),
        ensures
            owned(out@) == ends_with_at(
                R::Mode::directed(),
                entity,
                Direction::Outgoing,
                deleted_within(self.store()@.deleted, self.since_deletion(), self.now()),
            ),
    {
        let entries = self.deleted();
        collect_ends_with(R::Mode::is_directed(), entity, Direction::Outgoing, &entries)
    }

    /// The sources of the edges to `entity` that were deleted in the window,
    /// each with the payload that its edge carried, in the order of the
    /// deletion log.
    fn get_incoming_deleted(&self, entity: u64) -> (out: Vec<(u64, &R)>)
        requires
            self.store().wf(),
        ensures
            owned(out@) == ends_with_at(
                R::Mode::directed(),
                entity,
                Direction::Incoming,
                deleted_within(self.store()@.deleted, self.since_deletion(), self.now()),
            ),
    {
        let entries = self.deleted();
        collect_ends_with(R::Mode::is_directed(), entity, Direction::Incoming, &entries)
    }

    /// The payload of the edge from `a` to `b`.
    fn relation(&self, a: u64, b: u64) -> (r: Option<&R>)
        requires
            self.store().wf(),
        ensures
            r.is_some() == self.store()@.graph.linked(a, b),
            r.is_some() ==> *r.unwrap() == self.store()@.graph.edges[edge_key(
                self.store()@.graph.directed,
                a,
                b,
            )],
    {
        self.storage().graph().edge_weight(a, b)
    }

    /// Whether the edge from `a` to `b` was inserted in the window.
    fn is_inserted(&self, a: u64, b: u64) -> (r: bool)
        requires
            self.store().wf(),
        ensures
            r == logged_within(
                lookup(self.store()@.inserted, (a, b)),
                lookup(self.store()@.inserted, (b, a)),
                R::Mode::directed(),
                self.since_insertion(),
                self.now(),
            ),
    {
        let log = self.storage().insertion_data();
        match log.stamp_of(a, b) {
            Some(timestamp) => is_within(timestamp, self.last_insertion(), self.current()),
            None => {
                if !R::Mode::is_directed() {
                    is_stamped_within(log.stamp_of(b, a), self.last_insertion(), self.current())
                } else {
                    false
                }
            },
        }
    }

    /// The pairs of the edges that were inserted in the window, in the order
    /// of the insertion log.
    fn inserted(&self) -> (out: Vec<Pair>)
        ensures
            out@ == inserted_within(self.store()@.inserted, self.since_insertion(), self.now()),
    {
        collect_inserted(
            self.storage().insertion_data(),
            self.last_insertion(),
            self.current(),
        )
    }

    /// Whether the edge from `a` to `b` was deleted in the window.
    fn is_deleted(&self, a: u64, b: u64) -> (r: bool)
        requires
            self.store().wf(),
        ensures
            r == logged_within(
                deletion_stamp(lookup(self.store()@.deleted, (a, b))),
                deletion_stamp(lookup(self.store()@.deleted, (b, a))),
                R::Mode::directed(),
                self.since_deletion(),
                self.now(),
            ),
    {
        let log = self.storage().deletion_data();
        match log.stamp_of(a, b) {
            Some(timestamp) => is_within(timestamp, self.last_deletion(), self.current()),
            None => {
                if !R::Mode::is_directed() {
                    is_stamped_within(log.stamp_of(b, a), self.last_deletion(), self.current())
                } else {
                    false
                }
            },
        }
    }

    /// The pairs of the edges that were deleted in the window, each with the
    /// payload that its edge carried, in the order of the deletion log.
    fn deleted(&self) -> (out: Vec<(Pair, &R)>)
        requires
            self.store().wf(),
        ensures
            owned(out@) == deleted_within(
                self.store()@.deleted,
                self.since_deletion(),
                self.now(),
            ),
    {
        collect_deleted(self.storage().deletion_data(), self.last_deletion(), self.current())
    }

    /// The nodes reachable from `entity`, depth first.
    fn visit_depth_first(&self, entity: u64) -> (iter: DepthFirstIter<'_, R>)
        ensures
            is_traversal(
                self.store()@.graph.directed,
                self.store()@.graph.edges.dom(),
                entity,
                iter@,
            ),
    {
        DepthFirstIter::new(self.storage().graph(), entity)
    }

    /// The nodes reachable from `entity`, breadth first.
    fn visit_breadth_first(&self, entity: u64) -> (iter: BreadthFirstIter<'_, R>)
        ensures
            is_traversal(
                self.store()@.graph.directed,
                self.store()@.graph.edges.dom(),
                entity,
                iter@,
            ),
    {
        BreadthFirstIter::new(self.storage().graph(), entity)
    }
}

} // verus!
