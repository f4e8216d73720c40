//! The bare graph of a relation: which entities are nodes and which pairs are
//! edges, kept in a petgraph `GraphMap` without edge weights.
//!
//! Everything petgraph does is reached through the small functions of this
//! module. Each states what the call does to the graph's nodes and edges; the
//! statements are taken from petgraph and are not proved here.

use crate::paths::{edge_key, has_cycle, incident, linked, reachable};
use petgraph::algo::{is_cyclic_directed, is_cyclic_undirected};
use petgraph::graphmap::GraphMap;
use petgraph::visit::{Bfs, Dfs, Walker};
// petgraph's two edge types, under names that leave `Directed` and
// `Undirected` to the modes of this crate.
use petgraph::Directed as Arrows;
use petgraph::Undirected as Lines;
use std::collections::hash_map::RandomState;
use std::hash::BuildHasher;
use vstd::prelude::*;

verus! {

#[verifier::external_type_specification]
#[verifier::external_body]
#[verifier::reject_recursive_types(N)]
#[verifier::reject_recursive_types(E)]
#[verifier::reject_recursive_types(Ty)]
#[verifier::reject_recursive_types(S)]
pub struct ExGraphMap<N, E, Ty, S: BuildHasher>(GraphMap<N, E, Ty, S>);

#[verifier::external_type_specification]
#[verifier::external_body]
pub struct ExArrows(Arrows);

#[verifier::external_type_specification]
#[verifier::external_body]
pub struct ExLines(Lines);

/// A graph of directed edges between entities.
pub type DirectedLinks = GraphMap<u64, (), Arrows, RandomState>;

/// A graph of undirected edges between entities.
pub type UndirectedLinks = GraphMap<u64, (), Lines, RandomState>;

/// The nodes of a directed graph.
pub uninterp spec fn directed_nodes(g: DirectedLinks) -> Set<u64>;

/// The edges of a directed graph, each as `(source, target)`.
pub uninterp spec fn directed_edges(g: DirectedLinks) -> Set<(u64, u64)>;

/// The nodes of an undirected graph.
pub uninterp spec fn undirected_nodes(g: UndirectedLinks) -> Set<u64>;

/// The edges of an undirected graph, each with its smaller entity first.
pub uninterp spec fn undirected_edges(g: UndirectedLinks) -> Set<(u64, u64)>;

/// The side of a node on which an edge lies.
#[derive(Clone, Copy, PartialEq, Eq, Structural, Debug)]
pub enum Direction {
    /// Edges that start at the node.
    Outgoing,
    /// Edges that end at the node.
    Incoming,
}

/// The nodes that a graph's `neighbors_directed` lists for `n`.
pub open spec fn neighbors(
    directed: bool,
    edges: Set<(u64, u64)>,
    n: u64,
    dir: Direction,
) -> Set<u64> {
    match dir {
        Direction::Outgoing => Set::new(|x: u64| linked(directed, edges, n, x)),
        Direction::Incoming => Set::new(|x: u64| linked(directed, edges, x, n)),
    }
}

/// What a traversal from `start` yields: `start` first, then every other
/// node that can be reached from it, each once.
pub open spec fn is_traversal(
    directed: bool,
    edges: Set<(u64, u64)>,
    start: u64,
    order: Seq<u64>,
) -> bool {
    &&& order.len() > 0
    &&& order[0] == start
    &&& order.no_duplicates()
    &&& forall|n: u64| order.contains(n) <==> reachable(directed, edges, start, n)
}

/// `GraphMap::default` for directed edges: a graph without nodes or edges.
#[verifier::external_body]
fn directed_new() -> (g: DirectedLinks)
    ensures
        directed_nodes(g) == Set::<u64>::empty(),
        directed_edges(g) == Set::<(u64, u64)>::empty(),
{
    GraphMap::default()
}

/// `GraphMap::node_count` for directed edges: the number of nodes, zero
/// for a graph without nodes only.
#[verifier::external_body]
fn directed_node_count(g: &DirectedLinks) -> (n: usize)
    ensures
        n == directed_nodes(*g).len(),
        (n == 0) == (directed_nodes(*g) == Set::<u64>::empty()),
{
    g.node_count()
}

/// `GraphMap::add_edge` for directed edges: the edge `(a, b)` is there
/// afterwards and both ends are nodes; nothing else changes. Returns whether
/// the edge was there before.
#[verifier::external_body]
fn directed_add_edge(g: &mut DirectedLinks, a: u64, b: u64) -> (was: bool)
    ensures
        was == directed_edges(*old(g)).contains((a, b)),
        directed_edges(*final(g)) == directed_edges(*old(g)).insert((a, b)),
        directed_nodes(*final(g)) == directed_nodes(*old(g)).insert(a).insert(b),
{
    g.add_edge(a, b, ()).is_some()
}

/// `GraphMap::remove_edge` for directed edges: the edge `(a, b)` is gone
/// afterwards; the nodes stay. Returns whether the edge was there.
#[verifier::external_body]
fn directed_remove_edge(g: &mut DirectedLinks, a: u64, b: u64) -> (was: bool)
    ensures
        was == directed_edges(*old(g)).contains((a, b)),
        directed_edges(*final(g)) == directed_edges(*old(g)).remove((a, b)),
        directed_nodes(*final(g)) == directed_nodes(*old(g)),
{
    g.remove_edge(a, b).is_some()
}

/// `GraphMap::remove_node` for directed edges: the node is gone afterwards,
/// and with it every edge that starts or ends at it. Returns whether the node
/// was there.
#[verifier::external_body]
fn directed_remove_node(g: &mut DirectedLinks, n: u64) -> (was: bool)
    ensures
        was == directed_nodes(*old(g)).contains(n),
        directed_nodes(*final(g)) == directed_nodes(*old(g)).remove(n),
        directed_edges(*final(g)) == directed_edges(*old(g)).filter(
            |e: (u64, u64)| !incident(e, n),
        ),
{
    g.remove_node(n)
}

/// `GraphMap::neighbors_directed` for directed edges: with `Outgoing` the
/// targets of the edges from `n`, with `Incoming` the sources of the edges to
/// `n`, each once, in the order of the graph's adjacency list.
#[verifier::external_body]
fn directed_neighbors(g: &DirectedLinks, n: u64, dir: Direction) -> (out: Vec<u64>)
    ensures
        out@.no_duplicates(),
        out@.to_set() == neighbors(true, directed_edges(*g), n, dir),
{
    let dir = match dir {
        Direction::Outgoing => petgraph::Outgoing,
        Direction::Incoming => petgraph::Incoming,
    };
    g.neighbors_directed(n, dir).collect()
}

/// `petgraph::algo::is_cyclic_directed`: whether some walk along the edges
/// returns to its start. The search recurses along the edges, so its stack
/// grows with the longest path of the graph.
#[verifier::external_body]
fn directed_is_cyclic(g: &DirectedLinks) -> (r: bool)
    ensures
        r == has_cycle(true, directed_edges(*g)),
{
    is_cyclic_directed(g)
}

/// `petgraph::visit::Dfs` from `start`, run to its end: `start` first, then
/// every node reachable along the edges, each once, in depth-first preorder.
#[verifier::external_body]
fn directed_depth_first(g: &DirectedLinks, start: u64) -> (out: Vec<u64>)
    ensures
        is_traversal(true, directed_edges(*g), start, out@),
{
    Dfs::new(g, start).iter(g).collect()
}

/// `petgraph::visit::Bfs` from `start`, run to its end: `start` first, then
/// every node reachable along the edges, each once, nearest first.
#[verifier::external_body]
fn directed_breadth_first(g: &DirectedLinks, start: u64) -> (out: Vec<u64>)
    ensures
        is_traversal(true, directed_edges(*g), start, out@),
{
    Bfs::new(g, start).iter(g).collect()
}

/// `GraphMap::default` for undirected edges: a graph without nodes or edges.
#[verifier::external_body]
fn undirected_new() -> (g: UndirectedLinks)
    ensures
        undirected_nodes(g) == Set::<u64>::empty(),
        undirected_edges(g) == Set::<(u64, u64)>::empty(),
{
    GraphMap::default()
}

/// `GraphMap::node_count` for undirected edges: the number of nodes, zero
/// for a graph without nodes only.
#[verifier::external_body]
fn undirected_node_count(g: &UndirectedLinks) -> (n: usize)
    ensures
        n == undirected_nodes(*g).len(),
        (n == 0) == (undirected_nodes(*g) == Set::<u64>::empty()),
{
    g.node_count()
}

/// `GraphMap::add_edge` for undirected edges: the edge between `a` and `b`
/// is there afterwards, under its ordered pair, and both ends are nodes;
/// nothing else changes. Returns whether the edge was there before.
#[verifier::external_body]
fn undirected_add_edge(g: &mut UndirectedLinks, a: u64, b: u64) -> (was: bool)
    ensures
        was == undirected_edges(*old(g)).contains(edge_key(false, a, b)),
        undirected_edges(*final(g)) == undirected_edges(*old(g)).insert(edge_key(false, a, b)),
        undirected_nodes(*final(g)) == undirected_nodes(*old(g)).insert(a).insert(b),
{
    g.add_edge(a, b, ()).is_some()
}

/// `GraphMap::remove_edge` for undirected edges: the edge between `a` and
/// `b` is gone afterwards; the nodes stay. Returns whether the edge was there.
#[verifier::external_body]
fn undirected_remove_edge(g: &mut UndirectedLinks, a: u64, b: u64) -> (was: bool)
    ensures
        was == undirected_edges(*old(g)).contains(edge_key(false, a, b)),
        undirected_edges(*final(g)) == undirected_edges(*old(g)).remove(edge_key(false, a, b)),
        undirected_nodes(*final(g)) == undirected_nodes(*old(g)),
{
    g.remove_edge(a, b).is_some()
}

/// `GraphMap::remove_node` for undirected edges: the node is gone
/// afterwards, and with it every edge that touches it. Returns whether the
/// node was there.
#[verifier::external_body]
fn undirected_remove_node(g: &mut UndirectedLinks, n: u64) -> (was: bool)
    ensures
        was == undirected_nodes(*old(g)).contains(n),
        undirected_nodes(*final(g)) == undirected_nodes(*old(g)).remove(n),
        undirected_edges(*final(g)) == undirected_edges(*old(g)).filter(
            |e: (u64, u64)| !incident(e, n),
        ),
{
    g.remove_node(n)
}

/// `GraphMap::neighbors_directed` for undirected edges: whatever the
/// direction, the other ends of the edges that touch `n`, each once (`n`
/// itself for a self-loop), in the order of the graph's adjacency list.
#[verifier::external_body]
fn undirected_neighbors(g: &UndirectedLinks, n: u64, dir: Direction) -> (out: Vec<u64>)
    ensures
        out@.no_duplicates(),
        out@.to_set() == neighbors(false, undirected_edges(*g), n, dir),
{
    let dir = match dir {
        Direction::Outgoing => petgraph::Outgoing,
        Direction::Incoming => petgraph::Incoming,
    };
    g.neighbors_directed(n, dir).collect()
}

/// `petgraph::algo::is_cyclic_undirected`: whether some edge joins two nodes
/// that the other edges connect already.
#[verifier::external_body]
fn undirected_is_cyclic(g: &UndirectedLinks) -> (r: bool)
    ensures
        r == has_cycle(false, undirected_edges(*g)),
{
    is_cyclic_undirected(g)
}

/// `petgraph::visit::Dfs` from `start`, run to its end: `start` first, then
/// every node connected to it, each once, in depth-first preorder.
#[verifier::external_body]
fn undirected_depth_first(g: &UndirectedLinks, start: u64) -> (out: Vec<u64>)
    ensures
        is_traversal(false, undirected_edges(*g), start, out@),
{
    Dfs::new(g, start).iter(g).collect()
}

/// `petgraph::visit::Bfs` from `start`, run to its end: `start` first, then
/// every node connected to it, each once, nearest first.
#[verifier::external_body]
fn undirected_breadth_first(g: &UndirectedLinks, start: u64) -> (out: Vec<u64>)
    ensures
        is_traversal(false, undirected_edges(*g), start, out@),
{
    Bfs::new(g, start).iter(g).collect()
}

/// The nodes and edges of one relation, directed or undirected.
pub enum Links {
    Directed(DirectedLinks),
    Undirected(UndirectedLinks),
}

impl Links {
    /// Whether the edges are directed.
    pub open spec fn directed(&self) -> bool {
        self is Directed
    }

    /// The nodes.
    pub open spec fn nodes(&self) -> Set<u64> {
        match *self {
            Links::Directed(g) => directed_nodes(g),
            Links::Undirected(g) => undirected_nodes(g),
        }
    }

    /// The edges, each under its [`edge_key`].
    pub open spec fn edges(&self) -> Set<(u64, u64)> {
        match *self {
            Links::Directed(g) => directed_edges(g),
            Links::Undirected(g) => undirected_edges(g),
        }
    }

    /// A graph without nodes or edges.
    pub fn new(directed: bool) -> (links: Links)
        ensures
            links.directed() == directed,
            links.nodes() == Set::<u64>::empty(),
            links.edges() == Set::<(u64, u64)>::empty(),
    {
        if directed {
            Links::Directed(directed_new())
        } else {
            Links::Undirected(undirected_new())
        }
    }

    pub fn is_directed(&self) -> (r: bool)
        ensures
            r == self.directed(),
    {
        match self {
            Links::Directed(_) => true,
            Links::Undirected(_) => false,
        }
    }

    /// The number of nodes.
    pub fn node_count(&self) -> (n: usize)
        ensures
            n == self.nodes().len(),
            (n == 0) == (self.nodes() == Set::<u64>::empty()),
    {
        match self {
            Links::Directed(g) => directed_node_count(g),
            Links::Undirected(g) => undirected_node_count(g),
        }
    }

    /// Adds the edge from `a` to `b`, and both as nodes. Returns whether the
    /// edge was there before.
    pub fn add_edge(&mut self, a: u64, b: u64) -> (was: bool)
        ensures
            final(self).directed() == old(self).directed(),
            was == linked(old(self).directed(), old(self).edges(), a, b),
            final(self).edges() == old(self).edges().insert(edge_key(old(self).directed(), a, b)),
            final(self).nodes() == old(self).nodes().insert(a).insert(b),
    {
        match self {
            Links::Directed(g) => directed_add_edge(g, a, b),
            Links::Undirected(g) => undirected_add_edge(g, a, b),
        }
    }

    /// Removes the edge from `a` to `b`. Returns whether it was there.
    pub fn remove_edge(&mut self, a: u64, b: u64) -> (was: bool)
        ensures
            final(self).directed() == old(self).directed(),
            was == linked(old(self).directed(), old(self).edges(), a, b),
            final(self).edges() == old(self).edges().remove(edge_key(old(self).directed(), a, b)),
            final(self).nodes() == old(self).nodes(),
    {
        match self {
            Links::Directed(g) => directed_remove_edge(g, a, b),
            Links::Undirected(g) => undirected_remove_edge(g, a, b),
        }
    }

    /// Removes the node `n` and every edge that touches it. Returns whether
    /// the node was there.
    pub fn remove_node(&mut self, n: u64) -> (was: bool)
        ensures
            final(self).directed() == old(self).directed(),
            was == old(self).nodes().contains(n),
            final(self).nodes() == old(self).nodes().remove(n),
            final(self).edges() == old(self).edges().filter(|e: (u64, u64)| !incident(e, n)),
    {
        match self {
            Links::Directed(g) => directed_remove_node(g, n),
            Links::Undirected(g) => undirected_remove_node(g, n),
        }
    }

    /// The nodes on the other end of the edges at `n`, each once.
    pub fn neighbors_directed(&self, n: u64, dir: Direction) -> (out: Vec<u64>)
        ensures
            out@.no_duplicates(),
            out@.to_set() == neighbors(self.directed(), self.edges(), n, dir),
    {
        match self {
            Links::Directed(g) => directed_neighbors(g, n, dir),
            Links::Undirected(g) => undirected_neighbors(g, n, dir),
        }
    }

    /// Whether the edges hold a cycle.
    pub fn is_cyclic(&self) -> (r: bool)
        ensures
            r == has_cycle(self.directed(), self.edges()),
    {
        match self {
            Links::Directed(g) => directed_is_cyclic(g),
            Links::Undirected(g) => undirected_is_cyclic(g),
        }
    }

    /// The nodes reachable from `start`, depth first.
    pub fn depth_first(&self, start: u64) -> (out: Vec<u64>)
        ensures
            is_traversal(self.directed(), self.edges(), start, out@),
    {
        match self {
            Links::Directed(g) => directed_depth_first(g, start),
            Links::Undirected(g) => undirected_depth_first(g, start),
        }
    }

    /// The nodes reachable from `start`, breadth first.
    pub fn breadth_first(&self, start: u64) -> (out: Vec<u64>)
        ensures
            is_traversal(self.directed(), self.edges(), start, out@),
    {
        match self {
            Links::Directed(g) => directed_breadth_first(g, start),
            Links::Undirected(g) => undirected_breadth_first(g, start),
        }
    }
}

} // verus!
