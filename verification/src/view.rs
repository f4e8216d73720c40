//! The shared view over a relation storage.

use crate::clock::{furthest, furthest_from};
use crate::graph::GraphView;
use crate::iter::{BreadthFirstIter, DepthFirstIter, RelationsIter};
use crate::relation::{GetRelation, Relation};
use crate::storage::RelationStorage;
use vstd::prelude::*;

verus! {

/// The lower bound of the insertion window of a view: the last run of its
/// holder, or what the storage keeps for a holder that never ran.
pub open spec fn insertion_bound(last_run: Option<u32>, last_insert: u32) -> u32 {
    match last_run {
        Some(t) => t,
        None => last_insert,
    }
}

/// The lower bound of the deletion window of a view: the last run of its
/// holder, or the timestamp furthest from `current` for a holder that never
/// ran.
pub open spec fn deletion_bound(last_run: Option<u32>, current: u32) -> u32 {
    match last_run {
        Some(t) => t,
        None => furthest(current),
    }
}

/// Shared view over a relation storage.
pub struct RelationView<'a, R: Relation> {
    storage: &'a RelationStorage<R>,
    last_insertion: u32,
    last_deletion: u32,
    current: u32,
}

impl<'a, R: Relation> RelationView<'a, R> {
    /// A view of `storage` at `current`, for a holder that last ran at
    /// `last_run`.
    pub fn new(storage: &'a RelationStorage<R>, last_run: Option<u32>, current: u32) -> (view:
        Self)
        ensures
            view.store() == *storage,
            view.since_insertion() == insertion_bound(last_run, storage@.last_insert),
            view.since_deletion() == deletion_bound(last_run, current),
            view.now() == current,
    {
        let last_insertion = match last_run {
            Some(t) => t,
            None => storage.last_insert(),
        };
        let last_deletion = match last_run {
            Some(t) => t,
            None => furthest_from(current),
        };
        RelationView { storage, last_insertion, last_deletion, current }
    }
}

impl<'a, R: Relation> GetRelation<R> for RelationView<'a, R> {
    closed spec fn store(&self) -> RelationStorage<R> {
        *self.storage
    }

    closed spec fn since_insertion(&self) -> u32 {
        self.last_insertion
    }

    closed spec fn since_deletion(&self) -> u32 {
        self.last_deletion
    }

    closed spec fn now(&self) -> u32 {
        self.current
    }

    fn storage(&self) -> (storage: &RelationStorage<R>) {
        self.storage
    }

    fn last_insertion(&self) -> (t: u32) {
        self.last_insertion
    }

    fn last_deletion(&self) -> (t: u32) {
        self.last_deletion
    }

    fn current(&self) -> (t: u32) {
        self.current
    }
}

impl<'a, R: Relation> RelationsIter<R> for RelationView<'a, R> {
    closed spec fn traversed(&self) -> GraphView<R> {
        self.storage@.graph
    }

    fn visit_depth_first(&self, entity: u64) -> (iter: DepthFirstIter<'_, R>) {
        DepthFirstIter::new(self.storage.graph(), entity)
    }

    fn visit_breadth_first(&self, entity: u64) -> (iter: BreadthFirstIter<'_, R>) {
        BreadthFirstIter::new(self.storage.graph(), entity)
    }
}

} // verus!
