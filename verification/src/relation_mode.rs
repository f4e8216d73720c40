//! Modes to control directedness and exclusiveness of a relation type.
//!
//! A mode is a marker type: it is named in `Relation::Mode`, and no value of
//! it is ever needed. Each has a single variant, because the verifier takes
//! no type without values.

use crate::graph::{is_edge_list, nodes_of, GraphView, RelationGraph};
use crate::links::Direction;
use vstd::prelude::*;

mod sealed;

verus! {

/// The edges on one side of a node, in the shape that the mode gives them:
/// at most one where the mode limits that side, a list otherwise. Each edge
/// is the node on its other end and its payload.
pub enum Neighbors<'a, R> {
    /// The edge of a limited side, if there is one.
    Single(Option<(u64, &'a R)>),
    /// The edges of an unlimited side.
    Many(Vec<(u64, &'a R)>),
}

impl<'a, R> Neighbors<'a, R> {
    /// The edges as a list, whatever the shape.
    pub open spec fn list(self) -> Seq<(u64, &'a R)> {
        match self {
            Neighbors::Single(None) => Seq::empty(),
            Neighbors::Single(Some(edge)) => seq![edge],
            Neighbors::Many(edges) => edges@,
        }
    }

    /// The number of edges.
    pub fn len(&self) -> (n: usize)
        ensures
            n == self.list().len(),
    {
        match self {
            Neighbors::Single(None) => 0,
            Neighbors::Single(Some(_)) => 1,
            Neighbors::Many(edges) => edges.len(),
        }
    }

    /// The first edge, if there is any.
    pub fn first(&self) -> (edge: Option<(u64, &'a R)>)
        ensures
            edge == (if self.list().len() > 0 {
                Some(self.list()[0])
            } else {
                None
            }),
    {
        match self {
            Neighbors::Single(edge) => *edge,
            Neighbors::Many(edges) => if edges.len() > 0 {
                Some(edges[0])
            } else {
                None
            },
        }
    }

    /// The nodes on the other ends, in the order of the edges.
    pub fn entities(&self) -> (out: Vec<u64>)
        ensures
            out@ == nodes_of(self.list()),
    {
        match self {
            Neighbors::Single(None) => {
                let out: Vec<u64> = Vec::new();
                assert(out@ =~= nodes_of(self.list()));
                out
            },
            Neighbors::Single(Some(edge)) => {
                let mut out: Vec<u64> = Vec::new();
                out.push(edge.0);
                assert(out@ =~= nodes_of(self.list()));
                out
            },
            Neighbors::Many(edges) => {
                let mut out: Vec<u64> = Vec::new();
                let mut i: usize = 0;
                while i < edges.len()
                    invariant
                        i <= edges.len(),
                        out@ == nodes_of(edges@.take(i as int)),
                    decreases edges.len() - i,
                {
                    out.push(edges[i].0);
                    assert(out@ =~= nodes_of(edges@.take(i as int + 1)));
                    i += 1;
                }
                assert(edges@.take(i as int) =~= edges@);
                out
            },
        }
    }
}

/// Whether `out` shows the edges of `graph` on the given side of `n`, in
/// the shape of a side that is `limited` or not.
///
/// An unlimited side shows every edge. A limited side shows one edge if
/// there is any, which is the only one while the graph keeps the limit.
pub open spec fn shows<R>(
    graph: GraphView<R>,
    n: u64,
    dir: Direction,
    limited: bool,
    out: Neighbors<R>,
) -> bool {
    match out {
        Neighbors::Many(edges) => !limited && is_edge_list(graph, n, dir, edges@),
        Neighbors::Single(None) => limited && graph.neighbors(n, dir) == Set::<u64>::empty(),
        Neighbors::Single(Some(edge)) => {
            &&& limited
            &&& graph.neighbors(n, dir).contains(edge.0)
            &&& *edge.1 == graph.edges[graph.key_at(n, edge.0, dir)]
        },
    }
}

/// Every edge on the given side of `entity`.
fn many<'a, R>(graph: &'a RelationGraph<R>, entity: u64, dir: Direction) -> (out: Neighbors<'a, R>)
    requires
        graph.wf(),
    ensures
        shows(graph@, entity, dir, false, out),
{
    Neighbors::Many(graph.edges_directed(entity, dir))
}

/// The first edge on the given side of `entity`.
fn single<'a, R>(graph: &'a RelationGraph<R>, entity: u64, dir: Direction) -> (out: Neighbors<
    'a,
    R,
>)
    requires
        graph.wf(),
    ensures
        shows(graph@, entity, dir, true, out),
{
    let edges = graph.edges_directed(entity, dir);
    if edges.len() > 0 {
        let edge = edges[0];
        proof {
            assert(nodes_of(edges@)[0] == edge.0);
            assert(nodes_of(edges@).contains(edge.0));
            assert(nodes_of(edges@).to_set().contains(edge.0));
        }
        Neighbors::Single(Some(edge))
    } else {
        proof {
            assert(nodes_of(edges@).to_set() =~= Set::<u64>::empty());
        }
        Neighbors::Single(None)
    }
}

/// Directed edges, any number of them at a node.
pub enum Directed {
    Marker,
}

/// Directed edges, at most one incoming and at most one outgoing at a node.
pub enum DirectedExclusive {
    Marker,
}

/// Directed edges, at most one incoming at a node.
pub enum DirectedExclusiveIncoming {
    Marker,
}

/// Directed edges, at most one outgoing at a node.
pub enum DirectedExclusiveOutgoing {
    Marker,
}

/// Undirected edges, any number of them at a node.
pub enum Undirected {
    Marker,
}

/// Undirected edges, at most one at a node.
pub enum UndirectedExclusive {
    Marker,
}

/// What a mode decides: the kind of edge, and whether a node is limited to a
/// single incoming or a single outgoing edge.
pub trait RelationMode: sealed::Sealed {
    /// Whether an edge `(a, b)` differs from `(b, a)`.
    spec fn directed() -> bool;

    /// Whether a node has at most one incoming edge.
    spec fn exclusive_incoming() -> bool;

    /// Whether a node has at most one outgoing edge.
    spec fn exclusive_outgoing() -> bool;

    /// An undirected edge at a node is both incoming and outgoing there, so
    /// an undirected mode limits both or neither.
    proof fn lemma_undirected_limits()
        ensures
            !Self::directed() ==> Self::exclusive_incoming() == Self::exclusive_outgoing(),
    ;

    fn is_directed() -> (r: bool)
        ensures
            r == Self::directed(),
    ;

    fn is_exclusive_incoming() -> (r: bool)
        ensures
            r == Self::exclusive_incoming(),
    ;

    fn is_exclusive_outgoing() -> (r: bool)
        ensures
            r == Self::exclusive_outgoing(),
    ;

    /// The edges from `entity`.
    fn get<'a, R>(graph: &'a RelationGraph<R>, entity: u64) -> (out: Neighbors<'a, R>)
        requires
            graph.wf(),
        ensures
            shows(graph@, entity, Direction::Outgoing, Self::exclusive_outgoing(), out),
    {
        Self::get_outgoing(graph, entity)
    }

    /// The edges to `entity`.
    fn get_incoming<'a, R>(graph: &'a RelationGraph<R>, entity: u64) -> (out: Neighbors<'a, R>)
        requires
            graph.wf(),
        ensures
            shows(graph@, entity, Direction::Incoming, Self::exclusive_incoming(), out),
    ;

    /// The edges from `entity`.
    fn get_outgoing<'a, R>(graph: &'a RelationGraph<R>, entity: u64) -> (out: Neighbors<'a, R>)
        requires
            graph.wf(),
        ensures
            shows(graph@, entity, Direction::Outgoing, Self::exclusive_outgoing(), out),
    ;
}

impl RelationMode for Directed {
    open spec fn directed() -> bool {
        true
    }

    open spec fn exclusive_incoming() -> bool {
        false
    }

    open spec fn exclusive_outgoing() -> bool {
        false
    }

    proof fn lemma_undirected_limits() {
    }

    fn is_directed() -> (r: bool) {
        true
    }

    fn is_exclusive_incoming() -> (r: bool) {
        false
    }

    fn is_exclusive_outgoing() -> (r: bool) {
        false
    }

    fn get_incoming<'a, R>(graph: &'a RelationGraph<R>, entity: u64) -> (out: Neighbors<'a, R>) {
        many(graph, entity, Direction::Incoming)
    }

    fn get_outgoing<'a, R>(graph: &'a RelationGraph<R>, entity: u64) -> (out: Neighbors<'a, R>) {
        many(graph, entity, Direction::Outgoing)
    }
}

impl RelationMode for DirectedExclusive {
    open spec fn directed() -> bool {
        true
    }

    open spec fn exclusive_incoming() -> bool {
        true
    }

    open spec fn exclusive_outgoing() -> bool {
        true
    }

    proof fn lemma_undirected_limits() {
    }

    fn is_directed() -> (r: bool) {
        true
    }

    fn is_exclusive_incoming() -> (r: bool) {
        true
    }

    fn is_exclusive_outgoing() -> (r: bool) {
        true
    }

    fn get_incoming<'a, R>(graph: &'a RelationGraph<R>, entity: u64) -> (out: Neighbors<'a, R>) {
        single(graph, entity, Direction::Incoming)
    }

    fn get_outgoing<'a, R>(graph: &'a RelationGraph<R>, entity: u64) -> (out: Neighbors<'a, R>) {
        single(graph, entity, Direction::Outgoing)
    }
}

impl RelationMode for DirectedExclusiveIncoming {
    open spec fn directed() -> bool {
        true
    }

    open spec fn exclusive_incoming() -> bool {
        true
    }

    open spec fn exclusive_outgoing() -> bool {
        false
    }

    proof fn lemma_undirected_limits() {
    }

    fn is_directed() -> (r: bool) {
        true
    }

    fn is_exclusive_incoming() -> (r: bool) {
        true
    }

    fn is_exclusive_outgoing() -> (r: bool) {
        false
    }

    fn get_incoming<'a, R>(graph: &'a RelationGraph<R>, entity: u64) -> (out: Neighbors<'a, R>) {
        single(graph, entity, Direction::Incoming)
    }

    fn get_outgoing<'a, R>(graph: &'a RelationGraph<R>, entity: u64) -> (out: Neighbors<'a, R>) {
        many(graph, entity, Direction::Outgoing)
    }
}

impl RelationMode for DirectedExclusiveOutgoing {
    open spec fn directed() -> bool {
        true
    }

    open spec fn exclusive_incoming() -> bool {
        false
    }

    open spec fn exclusive_outgoing() -> bool {
        true
    }

    proof fn lemma_undirected_limits() {
    }

    fn is_directed() -> (r: bool) {
        true
    }

    fn is_exclusive_incoming() -> (r: bool) {
        false
    }

    fn is_exclusive_outgoing() -> (r: bool) {
        true
    }

    fn get_incoming<'a, R>(graph: &'a RelationGraph<R>, entity: u64) -> (out: Neighbors<'a, R>) {
        many(graph, entity, Direction::Incoming)
    }

    fn get_outgoing<'a, R>(graph: &'a RelationGraph<R>, entity: u64) -> (out: Neighbors<'a, R>) {
        single(graph, entity, Direction::Outgoing)
    }
}

impl RelationMode for Undirected {
    open spec fn directed() -> bool {
        false
    }

    open spec fn exclusive_incoming() -> bool {
        false
    }

    open spec fn exclusive_outgoing() -> bool {
        false
    }

    proof fn lemma_undirected_limits() {
    }

    fn is_directed() -> (r: bool) {
        false
    }

    fn is_exclusive_incoming() -> (r: bool) {
        false
    }

    fn is_exclusive_outgoing() -> (r: bool) {
        false
    }

    fn get_incoming<'a, R>(graph: &'a RelationGraph<R>, entity: u64) -> (out: Neighbors<'a, R>) {
        many(graph, entity, Direction::Incoming)
    }

    fn get_outgoing<'a, R>(graph: &'a RelationGraph<R>, entity: u64) -> (out: Neighbors<'a, R>) {
        many(graph, entity, Direction::Outgoing)
    }
}

impl RelationMode for UndirectedExclusive {
    open spec fn directed() -> bool {
        false
    }

    open spec fn exclusive_incoming() -> bool {
        true
    }

    open spec fn exclusive_outgoing() -> bool {
        true
    }

    proof fn lemma_undirected_limits() {
    }

    fn is_directed() -> (r: bool) {
        false
    }

    fn is_exclusive_incoming() -> (r: bool) {
        true
    }

    fn is_exclusive_outgoing() -> (r: bool) {
        true
    }

    fn get_incoming<'a, R>(graph: &'a RelationGraph<R>, entity: u64) -> (out: Neighbors<'a, R>) {
        single(graph, entity, Direction::Incoming)
    }

    fn get_outgoing<'a, R>(graph: &'a RelationGraph<R>, entity: u64) -> (out: Neighbors<'a, R>) {
        single(graph, entity, Direction::Outgoing)
    }
}

} // verus!
