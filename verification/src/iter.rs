//! Traversals of a relation's graph from a start node.

use crate::graph::{GraphView, RelationGraph};
use crate::links::is_traversal;
use crate::relation::Relation;
use vstd::prelude::*;

verus! {

/// Offers the two traversals.
pub trait RelationsIter<R: Relation> {
    /// The graph that is traversed.
    spec fn traversed(&self) -> GraphView<R>;

    /// The nodes reachable from `entity`, depth first.
    fn visit_depth_first(&self, entity: u64) -> (iter: DepthFirstIter<'_, R>)
        ensures
            is_traversal(self.traversed().directed, self.traversed().edges.dom(), entity, iter@),
    ;

    /// The nodes reachable from `entity`, breadth first.
    fn visit_breadth_first(&self, entity: u64) -> (iter: BreadthFirstIter<'_, R>)
        ensures
            is_traversal(self.traversed().directed, self.traversed().edges.dom(), entity, iter@),
    ;
}

/// A depth-first traversal: the start node, then every node reachable from
/// it, each once. The order is fixed when the traversal is made; it is used
/// up by [`next`](Self::next) and cannot be started again.
pub struct DepthFirstIter<'a, R: Relation> {
    graph: &'a RelationGraph<R>,
    order: Vec<u64>,
    at: usize,
}

impl<'a, R: Relation> DepthFirstIter<'a, R> {
    #[verifier::type_invariant]
    spec fn inv(self) -> bool {
        self.at <= self.order@.len()
    }

    /// The nodes that are still to come.
    pub closed spec fn view(&self) -> Seq<u64> {
        self.order@.skip(self.at as int)
    }

    /// The traversal of `graph` from `start`.
    pub fn new(graph: &'a RelationGraph<R>, start: u64) -> (iter: Self)
        ensures
            is_traversal(graph@.directed, graph@.edges.dom(), start, iter@),
    {
        let order = graph.depth_first(start);
        assert(order@.skip(0) =~= order@);
        DepthFirstIter { graph, order, at: 0 }
    }

    /// The next node, if any is left.
    pub fn next(&mut self) -> (n: Option<u64>)
        ensures
            n == (if old(self)@.len() > 0 {
                Some(old(self)@[0])
            } else {
                None
            }),
            final(self)@ == (if old(self)@.len() > 0 {
                old(self)@.skip(1)
            } else {
                old(self)@
            }),
    {
        proof {
            use_type_invariant(&*self);
        }
        if self.at < self.order.len() {
            let n: u64 = self.order[self.at];
            self.at = self.at + 1;
            assert(self@ =~= old(self)@.skip(1));
            Some(n)
        } else {
            None
        }
    }

    /// The nodes that are left, in order.
    pub fn collect(self) -> (out: Vec<u64>)
        ensures
            out@ == self@,
    {
        proof {
            use_type_invariant(&self);
        }
        let mut out: Vec<u64> = Vec::new();
        let mut i: usize = self.at;
        while i < self.order.len()
            invariant
                self.at <= i <= self.order@.len(),
                out@ == self.order@.subrange(self.at as int, i as int),
            decreases self.order@.len() - i,
        {
            out.push(self.order[i]);
            assert(out@ =~= self.order@.subrange(self.at as int, i as int + 1));
            i += 1;
        }
        assert(out@ =~= self@);
        out
    }
}

/// A breadth-first traversal: the start node, then every node reachable
/// from it, each once, nearest first. The order is fixed when the traversal
/// is made; it is used up by [`next`](Self::next) and cannot be started again.
pub struct BreadthFirstIter<'a, R: Relation> {
    graph: &'a RelationGraph<R>,
    order: Vec<u64>,
    at: usize,
}

impl<'a, R: Relation> BreadthFirstIter<'a, R> {
    #[verifier::type_invariant]
    spec fn inv(self) -> bool {
        self.at <= self.order@.len()
    }

    /// The nodes that are still to come.
    pub closed spec fn view(&self) -> Seq<u64> {
        self.order@.skip(self.at as int)
    }

    /// The traversal of `graph` from `start`.
    pub fn new(graph: &'a RelationGraph<R>, start: u64) -> (iter: Self)
        ensures
            is_traversal(graph@.directed, graph@.edges.dom(), start, iter@),
    {
        let order = graph.breadth_first(start);
        assert(order@.skip(0) =~= order@);
        BreadthFirstIter { graph, order, at: 0 }
    }

    /// The next node, if any is left.
    pub fn next(&mut self) -> (n: Option<u64>)
        ensures
            n == (if old(self)@.len() > 0 {
                Some(old(self)@[0])
            } else {
                None
            }),
            final(self)@ == (if old(self)@.len() > 0 {
                old(self)@.skip(1)
            } else {
                old(self)@
            }),
    {
        proof {
            use_type_invariant(&*self);
        }
        if self.at < self.order.len() {
            let n: u64 = self.order[self.at];
            self.at = self.at + 1;
            assert(self@ =~= old(self)@.skip(1));
            Some(n)
        } else {
            None
        }
    }

    /// The nodes that are left, in order.
    pub fn collect(self) -> (out: Vec<u64>)
        ensures
            out@ == self@,
    {
        proof {
            use_type_invariant(&self);
        }
        let mut out: Vec<u64> = Vec::new();
        let mut i: usize = self.at;
        while i < self.order.len()
            invariant
                self.at <= i <= self.order@.len(),
                out@ == self.order@.subrange(self.at as int, i as int),
            decreases self.order@.len() - i,
        {
            out.push(self.order[i]);
            assert(out@ =~= self.order@.subrange(self.at as int, i as int + 1));
            i += 1;
        }
        assert(out@ =~= self@);
        out
    }
}

} // verus!
