//! The graph of one relation: nodes, edges, and the payload of each edge.

use crate::links::{is_traversal, neighbors, Direction, Links};
use crate::log::Pair;
use crate::paths::{edge_key, has_cycle, incident, linked};
use std::collections::HashMap;
use vstd::prelude::*;

verus! {

/// The number under which the payload of the edge `pair` is kept.
pub open spec fn pack(pair: Pair) -> u128 {
    (pair.0 as u128 * 0x1_0000_0000_0000_0000u128 + pair.1 as u128) as u128
}

/// The pair that was packed into `k`.
pub open spec fn unpack(k: u128) -> Pair {
    ((k / 0x1_0000_0000_0000_0000u128) as u64, (k % 0x1_0000_0000_0000_0000u128) as u64)
}

/// Packing loses nothing.
pub proof fn lemma_pack(pair: Pair)
    ensures
        unpack(pack(pair)) == pair,
{
}

/// Every number is the packing of its pair.
pub proof fn lemma_unpack(k: u128)
    ensures
        pack(unpack(k)) == k,
{
}

fn pack_pair(pair: Pair) -> (k: u128)
    ensures
        k == pack(pair),
{
    (pair.0 as u128) * 0x1_0000_0000_0000_0000u128 + (pair.1 as u128)
}

/// `HashMap::get_mut`: access to the value kept under `k`, if there is one.
/// Whatever is written through it is the value kept under `k` afterwards;
/// nothing else changes.
#[verifier::external_body]
fn payload_mut<R>(payloads: &mut HashMap<u128, R>, k: u128) -> (r: Option<&mut R>)
    ensures
        match r {
            Some(payload) => {
                &&& old(payloads)@.contains_key(k)
                &&& *payload == old(payloads)@[k]
                &&& final(payloads)@ == old(payloads)@.insert(k, *final(payload))
            },
            None => !old(payloads)@.contains_key(k) && final(payloads)@ == old(payloads)@,
        },
{
    payloads.get_mut(&k)
}

/// What a graph holds.
pub struct GraphView<R> {
    /// Whether the edges are directed.
    pub directed: bool,
    /// The nodes: every entity that was an end of an inserted edge and has
    /// not been removed since.
    pub nodes: Set<u64>,
    /// The edges with their payloads, each under its [`edge_key`].
    pub edges: Map<Pair, R>,
}

impl<R> GraphView<R> {
    /// Whether there is an edge from `a` to `b`.
    pub open spec fn linked(self, a: u64, b: u64) -> bool {
        self.edges.contains_key(edge_key(self.directed, a, b))
    }

    /// The nodes with an edge to `n`.
    pub open spec fn incoming(self, n: u64) -> Set<u64> {
        Set::new(|x: u64| self.linked(x, n))
    }

    /// The nodes with an edge from `n`.
    pub open spec fn outgoing(self, n: u64) -> Set<u64> {
        Set::new(|y: u64| self.linked(n, y))
    }

    /// The nodes on the given side of `n`.
    pub open spec fn neighbors(self, n: u64, dir: Direction) -> Set<u64> {
        match dir {
            Direction::Outgoing => self.outgoing(n),
            Direction::Incoming => self.incoming(n),
        }
    }

    /// The pair of the edge between `n` and its neighbor `x` on the given
    /// side.
    pub open spec fn key_at(self, n: u64, x: u64, dir: Direction) -> Pair {
        match dir {
            Direction::Outgoing => edge_key(self.directed, n, x),
            Direction::Incoming => edge_key(self.directed, x, n),
        }
    }

    /// Whether the edges hold a cycle.
    pub open spec fn cyclic(self) -> bool {
        has_cycle(self.directed, self.edges.dom())
    }

    /// The graph without the edges that touch `n`.
    pub open spec fn without_edges_at(self, n: u64) -> GraphView<R> {
        GraphView { edges: self.edges.remove_keys(Set::new(|e: Pair| incident(e, n))), ..self }
    }
}

/// The edges of `links`, each with the payload kept under its number.
pub open spec fn edges_of<R>(links: Set<Pair>, payloads: Map<u128, R>) -> Map<Pair, R> {
    Map::new(|pair: Pair| links.contains(pair), |pair: Pair| payloads[pack(pair)])
}

/// Whether every edge has a payload and every payload an edge.
pub open spec fn payloads_match<R>(links: Set<Pair>, payloads: Map<u128, R>) -> bool {
    forall|k: u128| #[trigger] payloads.contains_key(k) <==> links.contains(unpack(k))
}

/// Writing the payload of an edge changes that edge's payload only.
pub proof fn lemma_write_payload<R>(
    links: Set<Pair>,
    before: Map<u128, R>,
    after: Map<u128, R>,
    pair: Pair,
    value: R,
)
    requires
        payloads_match(links, before),
        links.contains(pair),
        after == before.insert(pack(pair), value),
    ensures
        payloads_match(links, after),
        edges_of(links, after) == edges_of(links, before).insert(pair, value),
{
    lemma_pack(pair);
    assert forall|k: u128| #[trigger] after.contains_key(k) <==> links.contains(unpack(k)) by {
        lemma_unpack(k);
    }
    assert forall|e: Pair| e != pair implies pack(e) != pack(pair) by {
        lemma_pack(e);
    }
    assert(edges_of(links, after) =~= edges_of(links, before).insert(pair, value));
}

/// Whether every edge of `part` is an edge of `whole`, with the same
/// payload.
pub open spec fn part_of<R>(part: Map<Pair, R>, whole: Map<Pair, R>) -> bool {
    forall|e: Pair| #[trigger] part.contains_key(e) ==> whole.contains_key(e) && part[e] == whole[e]
}

/// The nodes of a list of edges at one node.
pub open spec fn nodes_of<R>(list: Seq<(u64, &R)>) -> Seq<u64> {
    list.map_values(|e: (u64, &R)| e.0)
}

/// Whether `list` holds the edges of `graph` on the given side of `n`: every
/// neighbor once, each with the payload of its edge.
pub open spec fn is_edge_list<R>(
    graph: GraphView<R>,
    n: u64,
    dir: Direction,
    list: Seq<(u64, &R)>,
) -> bool {
    &&& nodes_of(list).no_duplicates()
    &&& nodes_of(list).to_set() == graph.neighbors(n, dir)
    &&& forall|j: int|
        0 <= j < list.len() ==> *(#[trigger] list[j]).1 == graph.edges[graph.key_at(
            n,
            list[j].0,
            dir,
        )]
}

/// A graph whose edges carry payloads of type `R`.
pub struct RelationGraph<R> {
    links: Links,
    payloads: HashMap<u128, R>,
}

impl<R> RelationGraph<R> {
    /// What the graph holds.
    pub closed spec fn view(&self) -> GraphView<R> {
        GraphView {
            directed: self.links.directed(),
            nodes: self.links.nodes(),
            edges: edges_of(self.links.edges(), self.payloads@),
        }
    }

    /// Every edge has a payload, every payload an edge, and an undirected
    /// edge is kept under its ordered pair.
    pub closed spec fn wf(&self) -> bool {
        &&& payloads_match(self.links.edges(), self.payloads@)
        &&& !self.links.directed() ==> forall|e: Pair| #[trigger]
            self.links.edges().contains(e) ==> e.0 <= e.1
    }

    /// An undirected edge is kept under its ordered pair.
    pub proof fn lemma_ordered(&self, e: Pair)
        requires
            self.wf(),
            self@.edges.contains_key(e),
            !self@.directed,
        ensures
            e.0 <= e.1,
    {
    }

    /// A graph without nodes or edges.
    pub fn new(directed: bool) -> (g: RelationGraph<R>)
        ensures
            g.wf(),
            g@.directed == directed,
            g@.nodes == Set::<u64>::empty(),
            g@.edges == Map::<Pair, R>::empty(),
    {
        let g = RelationGraph { links: Links::new(directed), payloads: HashMap::new() };
        assert(g@.edges =~= Map::<Pair, R>::empty());
        g
    }

    pub fn is_directed(&self) -> (r: bool)
        ensures
            r == self@.directed,
    {
        self.links.is_directed()
    }

    /// The pair under which the edge between `a` and `b` is kept.
    pub fn key(&self, a: u64, b: u64) -> (pair: Pair)
        ensures
            pair == edge_key(self@.directed, a, b),
    {
        if self.links.is_directed() || a <= b {
            (a, b)
        } else {
            (b, a)
        }
    }

    /// The number of nodes.
    pub fn node_count(&self) -> (n: usize)
        ensures
            n == self@.nodes.len(),
            (n == 0) == (self@.nodes == Set::<u64>::empty()),
    {
        self.links.node_count()
    }

    /// Whether there is an edge from `a` to `b`.
    pub fn contains_edge(&self, a: u64, b: u64) -> (r: bool)
        requires
            self.wf(),
        ensures
            r == self@.linked(a, b),
    {
        let k = pack_pair(self.key(a, b));
        proof {
            lemma_pack(edge_key(self@.directed, a, b));
        }
        self.payloads.contains_key(&k)
    }

    /// The payload of the edge from `a` to `b`.
    pub fn edge_weight(&self, a: u64, b: u64) -> (r: Option<&R>)
        requires
            self.wf(),
        ensures
            r.is_some() == self@.linked(a, b),
            r.is_some() ==> *r.unwrap() == self@.edges[edge_key(self@.directed, a, b)],
    {
        let k = pack_pair(self.key(a, b));
        proof {
            lemma_pack(edge_key(self@.directed, a, b));
        }
        self.payloads.get(&k)
    }

    /// Adds the edge from `a` to `b` with the payload `weight`, and both
    /// ends as nodes. If the edge was there, its payload is replaced and the
    /// old one returned.
    pub fn add_edge(&mut self, a: u64, b: u64, weight: R) -> (r: Option<R>)
        requires
            old(self).wf(),
        ensures
            final(self).wf(),
            final(self)@.directed == old(self)@.directed,
            final(self)@.nodes == old(self)@.nodes.insert(a).insert(b),
            final(self)@.edges == old(self)@.edges.insert(
                edge_key(old(self)@.directed, a, b),
                weight,
            ),
            r == (if old(self)@.linked(a, b) {
                Some(old(self)@.edges[edge_key(old(self)@.directed, a, b)])
            } else {
                None
            }),
    {
        let pair = self.key(a, b);
        let k = pack_pair(pair);
        proof {
            lemma_pack(pair);
        }
        self.links.add_edge(a, b);
        let r = self.payloads.insert(k, weight);
        proof {
            assert forall|j: u128| #[trigger]
                self.payloads@.contains_key(j) <==> self.links.edges().contains(unpack(j)) by {
                lemma_unpack(j);
            }
            assert forall|e: Pair| e != pair implies pack(e) != k by {
                lemma_pack(e);
            }
            assert(self@.edges =~= old(self)@.edges.insert(pair, weight));
        }
        r
    }

    /// Removes the edge from `a` to `b` and returns its payload. The nodes
    /// stay.
    pub fn remove_edge(&mut self, a: u64, b: u64) -> (r: Option<R>)
        requires
            old(self).wf(),
        ensures
            final(self).wf(),
            final(self)@.directed == old(self)@.directed,
            final(self)@.nodes == old(self)@.nodes,
            final(self)@.edges == old(self)@.edges.remove(edge_key(old(self)@.directed, a, b)),
            r == (if old(self)@.linked(a, b) {
                Some(old(self)@.edges[edge_key(old(self)@.directed, a, b)])
            } else {
                None
            }),
    {
        let pair = self.key(a, b);
        let k = pack_pair(pair);
        proof {
            lemma_pack(pair);
        }
        self.links.remove_edge(a, b);
        let r = self.payloads.remove(&k);
        proof {
            assert forall|j: u128| #[trigger]
                self.payloads@.contains_key(j) <==> self.links.edges().contains(unpack(j)) by {
                lemma_unpack(j);
            }
            assert forall|e: Pair| e != pair implies pack(e) != k by {
                lemma_pack(e);
            }
            assert(self@.edges =~= old(self)@.edges.remove(pair));
        }
        r
    }

    /// Access to the payload of the edge from `a` to `b`. What is written
    /// through it is the edge's payload afterwards; nothing else changes.
    pub fn edge_weight_mut(&mut self, a: u64, b: u64) -> (r: Option<&mut R>)
        requires
            old(self).wf(),
        ensures
            final(self).wf(),
            final(self)@.directed == old(self)@.directed,
            final(self)@.nodes == old(self)@.nodes,
            r.is_some() == old(self)@.linked(a, b),
            match r {
                Some(payload) => {
                    &&& *payload == old(self)@.edges[edge_key(old(self)@.directed, a, b)]
                    &&& final(self)@.edges == old(self)@.edges.insert(
                        edge_key(old(self)@.directed, a, b),
                        *final(payload),
                    )
                },
                None => final(self)@.edges == old(self)@.edges,
            },
    {
        let pair = self.key(a, b);
        let k = pack_pair(pair);
        proof {
            lemma_pack(pair);
        }
        proof {
            let links = self.links.edges();
            let before = self.payloads@;
            assert forall|value: R| links.contains(pair) implies payloads_match(
                links,
                #[trigger] before.insert(k, value),
            ) && edges_of(links, before.insert(k, value)) == edges_of(links, before).insert(
                pair,
                value,
            ) by {
                lemma_write_payload(links, before, before.insert(k, value), pair, value);
            }
        }
        payload_mut(&mut self.payloads, k)
    }

    /// The nodes on the given side of `n`, each once.
    pub fn neighbors_directed(&self, n: u64, dir: Direction) -> (out: Vec<u64>)
        ensures
            out@.no_duplicates(),
            out@.to_set() == self@.neighbors(n, dir),
    {
        let out = self.links.neighbors_directed(n, dir);
        assert(neighbors(self.links.directed(), self.links.edges(), n, dir) =~= self@.neighbors(
            n,
            dir,
        ));
        out
    }

    /// The edges on the given side of `n`: for each the node on its other
    /// end and its payload. Every neighbor comes once.
    pub fn edges_directed(&self, n: u64, dir: Direction) -> (out: Vec<(u64, &R)>)
        requires
            self.wf(),
        ensures
            is_edge_list(self@, n, dir, out@),
    {
        let around = self.neighbors_directed(n, dir);
        let mut out: Vec<(u64, &R)> = Vec::new();
        let mut i: usize = 0;
        while i < around.len()
            invariant
                self.wf(),
                i <= around.len(),
                out@.len() == i,
                around@.to_set() == self@.neighbors(n, dir),
                nodes_of(out@) == around@.take(i as int),
                forall|j: int|
                    0 <= j < out@.len() ==> *(#[trigger] out@[j]).1 == self@.edges[self@.key_at(
                        n,
                        out@[j].0,
                        dir,
                    )],
            decreases around.len() - i,
        {
            let x: u64 = around[i];
            assert(around@.to_set().contains(x));
            let weight = match dir {
                Direction::Outgoing => self.edge_weight(n, x),
                Direction::Incoming => self.edge_weight(x, n),
            };
            let ghost before = out@;
            match weight {
                Some(payload) => {
                    out.push((x, payload));
                },
                None => {
                    unreached::<()>();
                },
            }
            assert(nodes_of(out@) =~= around@.take(i as int + 1)) by {
                assert(nodes_of(before) == around@.take(i as int));
                assert(out@ == before.push((x, weight.unwrap())));
                assert forall|j: int| 0 <= j < i + 1 implies #[trigger] nodes_of(out@)[j]
                    == around@.take(i as int + 1)[j] by {
                    if j < i {
                        assert(nodes_of(before)[j] == around@.take(i as int)[j]);
                    }
                }
            }
            i += 1;
        }
        assert(around@.take(i as int) =~= around@);
        out
    }

    /// Removes the node `n` and every edge that touches it, with its
    /// payload. Returns whether the node was there.
    pub fn remove_node(&mut self, n: u64) -> (was: bool)
        requires
            old(self).wf(),
        ensures
            final(self).wf(),
            was == old(self)@.nodes.contains(n),
            final(self)@.directed == old(self)@.directed,
            final(self)@.nodes == old(self)@.nodes.remove(n),
            final(self)@.edges == old(self)@.without_edges_at(n).edges,
    {
        let ghost start = self@;
        let sources = self.neighbors_directed(n, Direction::Incoming);
        let mut i: usize = 0;
        while i < sources.len()
            invariant
                self.wf(),
                i <= sources.len(),
                self@.directed == start.directed,
                self@.nodes == start.nodes,
                self@.edges.submap_of(start.edges),
                forall|e: Pair|
                    start.edges.contains_key(e) && !incident(e, n) ==> self@.edges.contains_key(e),
                forall|j: int|
                    0 <= j < i ==> !self@.edges.contains_key(
                        edge_key(start.directed, #[trigger] sources@[j], n),
                    ),
            decreases sources.len() - i,
        {
            let x: u64 = sources[i];
            self.remove_edge(x, n);
            i += 1;
        }
        let ghost middle = self@;
        let targets = self.neighbors_directed(n, Direction::Outgoing);
        let mut i: usize = 0;
        while i < targets.len()
            invariant
                self.wf(),
                i <= targets.len(),
                self@.directed == start.directed,
                self@.nodes == start.nodes,
                self@.edges.submap_of(middle.edges),
                middle.edges.submap_of(start.edges),
                forall|j: int|
                    0 <= j < sources@.len() ==> !middle.edges.contains_key(
                        edge_key(start.directed, #[trigger] sources@[j], n),
                    ),
                forall|e: Pair|
                    start.edges.contains_key(e) && !incident(e, n) ==> self@.edges.contains_key(e),
                forall|j: int|
                    0 <= j < i ==> !self@.edges.contains_key(
                        edge_key(start.directed, n, #[trigger] targets@[j]),
                    ),
            decreases targets.len() - i,
        {
            let y: u64 = targets[i];
            self.remove_edge(n, y);
            i += 1;
        }
        proof {
            assert forall|e: Pair| self@.edges.contains_key(e) implies !incident(e, n) by {
                assert(middle.edges.contains_key(e));
                assert(start.edges.contains_key(e));
                if incident(e, n) {
                    if !start.directed {
                        old(self).lemma_ordered(e);
                    }
                    if e.1 == n && (start.directed || e.0 != n) {
                        assert(edge_key(start.directed, e.0, n) == e);
                        assert(start.incoming(n).contains(e.0));
                        assert(sources@.to_set().contains(e.0));
                        let j = choose|j: int| 0 <= j < sources@.len() && sources@[j] == e.0;
                        assert(!middle.edges.contains_key(edge_key(start.directed, sources@[j], n)));
                    } else {
                        assert(edge_key(start.directed, n, e.1) == e);
                        assert(middle.outgoing(n).contains(e.1));
                        assert(targets@.to_set().contains(e.1));
                        let j = choose|j: int| 0 <= j < targets@.len() && targets@[j] == e.1;
                        assert(!self@.edges.contains_key(edge_key(start.directed, n, targets@[j])));
                    }
                }
            }
            assert(self.links.edges() =~= self@.edges.dom());
            assert(self.links.edges().filter(|e: Pair| !incident(e, n)) =~= self.links.edges());
        }
        let ghost last = self@;
        let was = self.links.remove_node(n);
        proof {
            assert(self@.edges =~= last.edges);
            assert forall|e: Pair| #[trigger] last.edges.contains_key(e) implies start.edges.contains_key(
                e,
            ) && last.edges[e] == start.edges[e] by {
                assert(middle.edges.contains_key(e));
                assert(middle.edges[e] == last.edges[e]);
            }
            assert forall|e: Pair| last.edges.contains_key(e) implies !incident(e, n) by {}
            assert(last.edges =~= start.without_edges_at(n).edges);
        }
        was
    }

    /// Whether the edges hold a cycle.
    pub fn is_cyclic(&self) -> (r: bool)
        ensures
            r == self@.cyclic(),
    {
        assert(self@.edges.dom() =~= self.links.edges());
        self.links.is_cyclic()
    }

    /// The nodes reachable from `start`, depth first.
    pub fn depth_first(&self, start: u64) -> (out: Vec<u64>)
        ensures
            is_traversal(self@.directed, self@.edges.dom(), start, out@),
    {
        assert(self@.edges.dom() =~= self.links.edges());
        self.links.depth_first(start)
    }

    /// The nodes reachable from `start`, breadth first.
    pub fn breadth_first(&self, start: u64) -> (out: Vec<u64>)
        ensures
            is_traversal(self@.directed, self@.edges.dom(), start, out@),
    {
        assert(self@.edges.dom() =~= self.links.edges());
        self.links.breadth_first(start)
    }
}

} // verus!
