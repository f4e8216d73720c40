use shipyard_relations::iter::{BreadthFirstIter, DepthFirstIter};
use shipyard_relations::relation_mode::{Directed, DirectedExclusive, RelationMode, Undirected};
use shipyard_relations::{
    GetRelation, Relation, RelationStorage, RelationView, RelationViewMut, RelationsIter,
};

#[derive(Debug, PartialEq)]
struct Link(u32);

impl Relation for Link {
    type Mode = Directed;
}

#[derive(Debug, PartialEq)]
struct Bond(u32);

impl Relation for Bond {
    type Mode = Undirected;
}

fn sample() -> RelationStorage<Link> {
    let mut storage = RelationStorage::<Link>::new();
    storage.insert_tracked(1, 2, Link(12), 10);
    storage.insert_tracked(1, 3, Link(13), 20);
    storage.insert_tracked(4, 1, Link(41), 30);
    storage.insert_tracked(3, 5, Link(35), 40);
    storage
}

#[test]
fn view_takes_its_windows_from_the_last_run() {
    let storage = sample();
    let view = RelationView::new(&storage, Some(15), 35);
    assert_eq!(view.last_insertion(), 15);
    assert_eq!(view.last_deletion(), 15);
    assert_eq!(view.current(), 35);
    assert_eq!(view.storage().last_insert(), 0);
}

#[test]
fn view_without_a_last_run_looks_as_far_back_as_it_can() {
    let mut storage = sample();
    let view = RelationView::new(&storage, None, 35);
    assert_eq!(view.last_insertion(), 0);
    assert_eq!(view.last_deletion(), 35 + u32::MAX / 2);
    assert_eq!(view.current(), 35);
    let view = RelationViewMut::new(&mut storage, None, 3_000_000_000);
    assert_eq!(view.last_insertion(), 0);
    assert_eq!(view.last_deletion(), 852_516_351);
    assert_eq!(view.current(), 3_000_000_000);
}

#[test]
fn insertions_are_seen_inside_the_window_only() {
    let storage = sample();
    let view = RelationView::new(&storage, Some(10), 30);
    assert_eq!(view.inserted(), vec![(1, 3), (4, 1)]);
    assert!(!view.is_inserted(1, 2));
    assert!(view.is_inserted(1, 3));
    assert!(view.is_inserted(4, 1));
    assert!(!view.is_inserted(3, 5));
    assert!(!view.is_inserted(3, 1));
    assert_eq!(view.get_outgoing_inserted(1), vec![3]);
    assert_eq!(view.get_inserted(1), vec![3]);
    assert_eq!(view.get_incoming_inserted(1), vec![4]);
    assert_eq!(view.get_incoming_inserted(3), vec![1]);
    assert_eq!(view.get_outgoing_inserted(3), vec![]);
}

#[test]
fn deletions_are_seen_inside_the_window_only() {
    let mut storage = sample();
    storage.delete_edge_tracked(1, 2, 50);
    storage.delete_edge_tracked(4, 1, 60);
    storage.delete_edge_tracked(1, 3, 70);
    let view = RelationView::new(&storage, Some(50), 60);
    assert_eq!(view.deleted(), vec![((4, 1), &Link(41))]);
    assert!(!view.is_deleted(1, 2));
    assert!(view.is_deleted(4, 1));
    assert!(!view.is_deleted(1, 3));
    assert_eq!(view.get_incoming_deleted(1), vec![(4, &Link(41))]);
    assert_eq!(view.get_outgoing_deleted(1), vec![]);
    let view = RelationView::new(&storage, Some(40), 70);
    assert_eq!(
        view.deleted(),
        vec![((1, 2), &Link(12)), ((4, 1), &Link(41)), ((1, 3), &Link(13))]
    );
    assert_eq!(view.get_outgoing_deleted(1), vec![(2, &Link(12)), (3, &Link(13))]);
    assert_eq!(view.get_deleted(1), vec![(2, &Link(12)), (3, &Link(13))]);
}

#[test]
fn windows_wrap_around_with_the_clock() {
    let mut storage = RelationStorage::<Link>::new();
    storage.insert_tracked(1, 2, Link(0), u32::MAX - 1);
    storage.insert_tracked(2, 3, Link(0), u32::MAX);
    storage.insert_tracked(3, 4, Link(0), 0);
    storage.insert_tracked(4, 5, Link(0), 1);
    let view = RelationView::new(&storage, Some(u32::MAX - 1), 0);
    assert_eq!(view.inserted(), vec![(2, 3), (3, 4)]);
    assert!(!view.is_inserted(1, 2));
    assert!(view.is_inserted(3, 4));
    assert!(!view.is_inserted(4, 5));
}

#[test]
fn undirected_edge_is_found_from_either_end() {
    let mut storage = RelationStorage::<Bond>::new();
    storage.insert_tracked(5, 2, Bond(52), 10);
    storage.insert_tracked(2, 7, Bond(27), 10);
    let view = RelationView::new(&storage, Some(5), 10);
    assert_eq!(view.inserted(), vec![(5, 2), (2, 7)]);
    assert!(view.is_inserted(5, 2));
    assert!(view.is_inserted(2, 5));
    assert_eq!(view.relation(2, 5), Some(&Bond(52)));
    assert_eq!(view.get_outgoing_inserted(2), vec![5, 7]);
    assert_eq!(view.get_incoming_inserted(2), vec![5, 7]);
    assert_eq!(view.get_outgoing_inserted(5), vec![2]);
    assert_eq!(view.get(2).entities(), vec![5, 7]);
    assert_eq!(view.get_incoming(2).entities(), vec![5, 7]);
    assert_eq!(view.get_incoming(7).entities(), vec![2]);
}

#[test]
fn directed_edges_are_listed_by_side() {
    let storage = sample();
    let view = RelationView::new(&storage, None, 50);
    assert_eq!(view.get(1).entities(), vec![2, 3]);
    assert_eq!(view.get_outgoing(1).entities(), vec![2, 3]);
    assert_eq!(view.get_incoming(1).entities(), vec![4]);
    assert_eq!(view.get_incoming(1).first(), Some((4, &Link(41))));
    assert_eq!(view.get(5).len(), 0);
    assert_eq!(view.get(99).first(), None);
}

#[test]
fn modes_look_up_edges_in_a_graph() {
    let storage = sample();
    assert_eq!(Directed::get(storage.graph(), 1).entities(), vec![2, 3]);
    assert_eq!(Directed::get_incoming(storage.graph(), 1).entities(), vec![4]);
    assert_eq!(
        DirectedExclusive::get_outgoing(storage.graph(), 1).first(),
        Some((2, &Link(12)))
    );
    assert_eq!(DirectedExclusive::get_outgoing(storage.graph(), 1).len(), 1);
    assert_eq!(DirectedExclusive::get_incoming(storage.graph(), 2).entities(), vec![1]);
    assert_eq!(DirectedExclusive::get(storage.graph(), 5).len(), 0);
}

#[test]
fn relation_mut_changes_the_payload_and_no_log() {
    let mut storage = sample();
    let mut view = RelationViewMut::new(&mut storage, Some(45), 50);
    *view.relation_mut(1, 3).unwrap() = Link(99);
    assert!(view.relation_mut(3, 1).is_none());
    assert_eq!(view.relation(1, 3), Some(&Link(99)));
    assert!(view.inserted().is_empty());
    assert!(view.deleted().is_empty());
    drop(view);
    assert_eq!(storage.insertion_data().stamp_of(1, 3), Some(20));
}

fn is_traversal_of(order: &[u64], start: u64, reachable: &[u64]) -> bool {
    let mut sorted = order.to_vec();
    sorted.sort();
    let mut expected = reachable.to_vec();
    expected.sort();
    order.first() == Some(&start) && sorted == expected
}

#[test]
fn traversals_visit_each_reachable_node_once() {
    let mut storage = sample();
    storage.insert_tracked(2, 5, Link(25), 41);
    storage.insert_tracked(6, 7, Link(67), 42);
    let view = RelationView::new(&storage, None, 50);
    let depth = GetRelation::visit_depth_first(&view, 1).collect();
    let breadth = GetRelation::visit_breadth_first(&view, 1).collect();
    assert!(is_traversal_of(&depth, 1, &[1, 2, 3, 5]));
    assert!(is_traversal_of(&breadth, 1, &[1, 2, 3, 5]));
    assert_eq!(depth, vec![1, 3, 5, 2]);
    assert_eq!(breadth, vec![1, 2, 3, 5]);
    assert!(is_traversal_of(&GetRelation::visit_depth_first(&view, 4).collect(), 4, &[1, 2, 3, 4, 5]));
    assert_eq!(GetRelation::visit_depth_first(&view, 5).collect(), vec![5]);
    assert_eq!(GetRelation::visit_breadth_first(&view, 6).collect(), vec![6, 7]);
    assert_eq!(GetRelation::visit_breadth_first(&view, 100).collect(), vec![100]);
    assert_eq!(RelationsIter::visit_depth_first(&view, 1).collect(), depth);
    assert_eq!(RelationsIter::visit_breadth_first(&view, 1).collect(), breadth);
}

#[test]
fn traversal_is_used_up_step_by_step() {
    let storage = sample();
    let mut depth = DepthFirstIter::new(storage.graph(), 1);
    assert_eq!(depth.next(), Some(1));
    assert_eq!(depth.next(), Some(3));
    assert_eq!(depth.collect(), vec![5, 2]);
    let mut breadth = BreadthFirstIter::new(storage.graph(), 1);
    assert_eq!(breadth.next(), Some(1));
    assert_eq!(breadth.next(), Some(2));
    assert_eq!(breadth.next(), Some(3));
    assert_eq!(breadth.next(), Some(5));
    assert_eq!(breadth.next(), None);
    assert_eq!(breadth.next(), None);
    assert_eq!(breadth.collect(), vec![]);
}
