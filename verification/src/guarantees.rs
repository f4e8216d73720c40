//! What holds of a storage whatever is done to it through its operations.

use crate::log::{keys_unique, lemma_position, lemma_put_unique, lookup, position};
use crate::paths::edge_key;
use crate::model::StorageView;
use crate::window::{deleted_within, fresh_deletion};
use vstd::prelude::*;

verus! {

/// Every item that is picked from a list is found among the picked.
pub proof fn lemma_picked<A, B>(list: Seq<A>, pick: spec_fn(A) -> Option<B>, i: int)
    requires
        0 <= i < list.len(),
        pick(list[i]) is Some,
    ensures
        list.filter_map(pick).contains(pick(list[i])->0),
    decreases list.len(),
{
    let rest = list.drop_last();
    let picked = list.filter_map(pick);
    if i == list.len() - 1 {
        assert(picked == rest.filter_map(pick) + seq![pick(list[i])->0]);
        assert(picked[picked.len() - 1] == pick(list[i])->0);
    } else {
        lemma_picked(rest, pick, i);
        let at = choose|at: int|
            0 <= at < rest.filter_map(pick).len() && rest.filter_map(pick)[at] == pick(rest[i])->0;
        assert(picked[at] == pick(list[i])->0);
    }
}

/// Everything among the picked was picked from some item of the list.
pub proof fn lemma_picked_from<A, B>(list: Seq<A>, pick: spec_fn(A) -> Option<B>, found: B)
    requires
        list.filter_map(pick).contains(found),
    ensures
        exists|i: int| 0 <= i < list.len() && pick(#[trigger] list[i]) == Some(found),
    decreases list.len(),
{
    if list.len() > 0 {
        let rest = list.drop_last();
        let picked = list.filter_map(pick);
        let at = choose|at: int| 0 <= at < picked.len() && picked[at] == found;
        if at < rest.filter_map(pick).len() {
            assert(rest.filter_map(pick)[at] == found);
            lemma_picked_from(rest, pick, found);
            let i = choose|i: int| 0 <= i < rest.len() && pick(#[trigger] rest[i]) == Some(found);
            assert(list[i] == rest[i]);
        } else {
            assert(pick(list[list.len() - 1]) == Some(found));
        }
    }
}

/// An insertion that is refused changes neither the edges nor the logs,
/// where it had nothing to evict: no edge to `b` where incoming edges are
/// limited, no edge from `a` where outgoing edges are.
pub proof fn lemma_refusal_leaves_no_trace<R>(
    before: StorageView<R>,
    incoming: bool,
    outgoing: bool,
    a: u64,
    b: u64,
    now: u32,
)
    requires
        incoming ==> forall|x: u64| !before.graph.linked(x, b),
        outgoing ==> forall|y: u64| !before.graph.linked(a, y),
    ensures
        before.evicted(incoming, outgoing, a, b, now) == before,
        before.evicted(incoming, outgoing, a, b, now).with_nodes(a, b).graph.edges
            == before.graph.edges,
        before.evicted(incoming, outgoing, a, b, now).with_nodes(a, b).inserted
            == before.inserted,
        before.evicted(incoming, outgoing, a, b, now).with_nodes(a, b).deleted == before.deleted,
{
}

/// Inserting an edge that is there already leaves the insertion log as it
/// is, and with it the timestamp of the edge. This holds of a tracked
/// insertion, and of a checked insertion in a mode that limits neither side
/// of a node, where nothing is evicted.
pub proof fn lemma_reinsertion_keeps_stamp<R>(
    before: StorageView<R>,
    a: u64,
    b: u64,
    relation: R,
    now: u32,
)
    requires
        before.graph.linked(a, b),
    ensures
        before.insert_tracked(a, b, relation, now).inserted == before.inserted,
        before.evicted(false, false, a, b, now).insert_tracked(a, b, relation, now).inserted
            == before.inserted,
        lookup(before.insert_tracked(a, b, relation, now).inserted, (a, b)) == lookup(
            before.inserted,
            (a, b),
        ),
{
}

/// After a node is deleted at `now`, no edge touches it, and every edge
/// that did has its deletion logged at `now` with the payload that it
/// carried: an edge to the node under the pair that ends at the node, any
/// other edge from the node under the pair that starts there.
pub proof fn lemma_node_deletion_logs_every_edge<R>(
    before: StorageView<R>,
    after: StorageView<R>,
    n: u64,
    now: u32,
    x: u64,
)
    requires
        after.graph.directed == before.graph.directed,
        after.graph.edges == before.graph.without_edges_at(n).edges,
        before.deletions_logged(after, before.edges_at(n), now),
    ensures
        !after.graph.linked(x, n),
        !after.graph.linked(n, x),
        before.graph.linked(x, n) ==> lookup(after.deleted, (x, n)) == Some(
            (now, before.graph.edges[edge_key(before.graph.directed, x, n)]),
        ),
        before.graph.directed && x != n && before.graph.linked(n, x) ==> lookup(
            after.deleted,
            (n, x),
        ) == Some((now, before.graph.edges[(n, x)])),
{
    if before.graph.linked(x, n) {
        assert(before.edges_at(n).contains((x, n)));
    }
    if before.graph.directed && x != n && before.graph.linked(n, x) {
        assert(before.edges_at(n).contains((n, x)));
    }
}

/// After the edge from `a` to `b` is deleted at `now`, a window that holds
/// `now` shows the deletion of `(a, b)` with the payload that the edge
/// carried, and with no other.
pub proof fn lemma_deletion_shows_payload<R>(
    before: StorageView<R>,
    a: u64,
    b: u64,
    now: u32,
    last: u32,
    current: u32,
)
    requires
        keys_unique(before.deleted),
        before.graph.linked(a, b),
        crate::clock::within(now, last, current),
    ensures
        deleted_within(before.delete_edge_tracked(a, b, now).deleted, last, current).contains(
            ((a, b), before.graph.edges[edge_key(before.graph.directed, a, b)]),
        ),
        forall|payload: R|
            deleted_within(before.delete_edge_tracked(a, b, now).deleted, last, current).contains(
                ((a, b), payload),
            ) ==> payload == before.graph.edges[edge_key(before.graph.directed, a, b)],
{
    let carried = before.graph.edges[edge_key(before.graph.directed, a, b)];
    let log = before.delete_edge_tracked(a, b, now).deleted;
    let pick = fresh_deletion::<R>(last, current);
    lemma_put_unique(before.deleted, (a, b), (now, carried));
    let at = position(log, (a, b));
    assert(log[at] == ((a, b), (now, carried)));
    lemma_picked(log, pick, at);
    assert forall|payload: R| deleted_within(log, last, current).contains(((a, b), payload))
        implies payload == carried by {
        lemma_picked_from(log, pick, ((a, b), payload));
        let i = choose|i: int| 0 <= i < log.len() && pick(#[trigger] log[i]) == Some(
            ((a, b), payload),
        );
        lemma_position(log, (a, b), i);
    }
}

} // verus!
