use shipyard_relations::relation_mode::{
    Directed, DirectedExclusive, DirectedExclusiveIncoming, DirectedExclusiveOutgoing,
    Undirected, UndirectedExclusive,
};
use shipyard_relations::{
    GetRelation, InsertError, Relation, RelationStorage, RelationView, RelationViewMut,
};

#[derive(Debug, PartialEq)]
struct Tree(u32);

impl Relation for Tree {
    type Mode = Directed;
}

#[derive(Debug, PartialEq)]
struct Net(u32);

impl Relation for Net {
    type Mode = Undirected;
}

#[derive(Debug, PartialEq)]
struct Chain(u32);

impl Relation for Chain {
    type Mode = DirectedExclusive;
}

#[derive(Debug, PartialEq)]
struct Parent(u32);

impl Relation for Parent {
    type Mode = DirectedExclusiveIncoming;
}

#[derive(Debug, PartialEq)]
struct Target(u32);

impl Relation for Target {
    type Mode = DirectedExclusiveOutgoing;
}

#[derive(Debug, PartialEq)]
struct Pairing(u32);

impl Relation for Pairing {
    type Mode = UndirectedExclusive;

    const ACYCLIC: bool = false;
}

#[derive(Debug, PartialEq)]
struct Loose(u32);

impl Relation for Loose {
    type Mode = Directed;

    const ACYCLIC: bool = false;
}

fn inserted<R: Relation>(storage: &RelationStorage<R>) -> Vec<((u64, u64), u32)> {
    let log = storage.insertion_data();
    (0..log.len()).map(|i| log.entry(i)).collect()
}

fn deleted(storage: &RelationStorage<impl Relation>) -> Vec<((u64, u64), u32)> {
    let log = storage.deletion_data();
    (0..log.len())
        .map(|i| {
            let (pair, stamp, _) = log.entry(i);
            (pair, stamp)
        })
        .collect()
}

#[test]
fn insert_tracked_logs_a_new_edge() {
    let mut storage = RelationStorage::<Loose>::new();
    storage.insert_tracked(1, 2, Loose(7), 5);
    assert_eq!(inserted(&storage), vec![((1, 2), 5)]);
    assert_eq!(storage.graph().edge_weight(1, 2), Some(&Loose(7)));
    assert_eq!(storage.graph().node_count(), 2);
    assert_eq!(storage.last_insert(), 0);
}

#[test]
fn reinsertion_keeps_the_timestamp_and_replaces_the_payload() {
    let mut storage = RelationStorage::<Loose>::new();
    storage.insert_tracked(1, 2, Loose(7), 5);
    storage.insert_tracked(3, 4, Loose(8), 6);
    storage.insert_tracked(1, 2, Loose(9), 7);
    assert_eq!(inserted(&storage), vec![((1, 2), 5), ((3, 4), 6)]);
    assert_eq!(storage.graph().edge_weight(1, 2), Some(&Loose(9)));
}

#[test]
fn checked_reinsertion_keeps_the_timestamp_where_nothing_is_evicted() {
    let mut storage = RelationStorage::<Tree>::new();
    RelationViewMut::new(&mut storage, None, 5).insert(1, 2, Tree(1));
    let r = RelationViewMut::new(&mut storage, None, 9).insert_checked(1, 2, Tree(2));
    assert_eq!(r, Ok(()));
    assert_eq!(inserted(&storage), vec![((1, 2), 5)]);
    assert_eq!(deleted(&storage), vec![]);
    assert_eq!(storage.graph().edge_weight(1, 2), Some(&Tree(2)));
}

#[test]
fn checked_reinsertion_in_a_limited_mode_evicts_and_logs_anew() {
    let mut storage = RelationStorage::<Chain>::new();
    RelationViewMut::new(&mut storage, None, 5).insert(1, 2, Chain(1));
    RelationViewMut::new(&mut storage, None, 9).insert(1, 2, Chain(2));
    assert_eq!(inserted(&storage), vec![((1, 2), 9)]);
    assert_eq!(deleted(&storage), vec![((1, 2), 9)]);
    assert_eq!(storage.deletion_data().entry(0).2, &Chain(1));
    assert_eq!(storage.graph().edge_weight(1, 2), Some(&Chain(2)));
}

#[test]
fn self_loop_is_refused_in_an_acyclic_relation() {
    let mut storage = RelationStorage::<Net>::new();
    let mut view = RelationViewMut::new(&mut storage, None, 1);
    assert_eq!(view.insert_checked(1, 1, Net(0)), Err(InsertError::CycleDetected));
    drop(view);
    assert_eq!(inserted(&storage), vec![]);
    assert_eq!(deleted(&storage), vec![]);
    assert_eq!(storage.graph().edge_weight(1, 1), None);

    let mut storage = RelationStorage::<Tree>::new();
    let mut view = RelationViewMut::new(&mut storage, None, 1);
    assert_eq!(view.insert_checked(1, 1, Tree(0)), Err(InsertError::CycleDetected));
}

#[test]
fn directed_cycle_is_refused() {
    let mut storage = RelationStorage::<Tree>::new();
    let mut view = RelationViewMut::new(&mut storage, None, 1);
    assert_eq!(view.insert_checked(1, 2, Tree(12)), Ok(()));
    assert_eq!(view.insert_checked(2, 3, Tree(23)), Ok(()));
    assert_eq!(view.insert_checked(1, 3, Tree(13)), Ok(()));
    assert_eq!(view.insert_checked(3, 1, Tree(31)), Err(InsertError::CycleDetected));
    assert_eq!(view.insert_checked(2, 1, Tree(21)), Err(InsertError::CycleDetected));
    assert_eq!(view.relation(3, 1), None);
    assert_eq!(view.relation(2, 1), None);
    assert_eq!(view.relation(1, 3), Some(&Tree(13)));
    assert_eq!(view.inserted(), vec![(1, 2), (2, 3), (1, 3)]);
    assert!(view.deleted().is_empty());
}

#[test]
fn undirected_cycle_is_refused() {
    let mut storage = RelationStorage::<Net>::new();
    let mut view = RelationViewMut::new(&mut storage, None, 1);
    assert_eq!(view.insert_checked(1, 2, Net(12)), Ok(()));
    assert_eq!(view.insert_checked(2, 3, Net(23)), Ok(()));
    assert_eq!(view.insert_checked(3, 1, Net(31)), Err(InsertError::CycleDetected));
    assert_eq!(view.insert_checked(2, 1, Net(21)), Ok(()));
    assert_eq!(view.relation(1, 2), Some(&Net(21)));
    assert_eq!(view.relation(1, 3), None);
    assert_eq!(view.inserted(), vec![(1, 2), (2, 3)]);
}

#[test]
fn refused_insertion_leaves_edges_and_logs_as_they_were() {
    let mut storage = RelationStorage::<Tree>::new();
    RelationViewMut::new(&mut storage, None, 1).insert(1, 2, Tree(12));
    RelationViewMut::new(&mut storage, None, 2).insert(2, 3, Tree(23));
    RelationViewMut::new(&mut storage, None, 3).delete_relation(2, 3);
    RelationViewMut::new(&mut storage, None, 4).insert(2, 4, Tree(24));
    let inserted_before = inserted(&storage);
    let deleted_before = deleted(&storage);

    let r = RelationViewMut::new(&mut storage, None, 5).insert_checked(4, 1, Tree(41));

    assert_eq!(r, Err(InsertError::CycleDetected));
    assert_eq!(inserted(&storage), inserted_before);
    assert_eq!(inserted(&storage), vec![((1, 2), 1), ((2, 4), 4)]);
    assert_eq!(deleted(&storage), deleted_before);
    assert_eq!(deleted(&storage), vec![((2, 3), 3)]);
    let view = RelationView::new(&storage, None, 6);
    assert_eq!(view.relation(1, 2), Some(&Tree(12)));
    assert_eq!(view.relation(2, 4), Some(&Tree(24)));
    assert_eq!(view.relation(4, 1), None);
    assert_eq!(view.relation(2, 3), None);
}

#[test]
fn refused_insertion_keeps_its_evictions() {
    let mut storage = RelationStorage::<Parent>::new();
    RelationViewMut::new(&mut storage, None, 1).insert(9, 2, Parent(92));
    RelationViewMut::new(&mut storage, None, 2).insert(2, 1, Parent(21));

    let r = RelationViewMut::new(&mut storage, None, 3).insert_checked(1, 2, Parent(12));

    assert_eq!(r, Err(InsertError::CycleDetected));
    assert_eq!(storage.graph().edge_weight(9, 2), None);
    assert_eq!(storage.graph().edge_weight(1, 2), None);
    assert_eq!(storage.graph().edge_weight(2, 1), Some(&Parent(21)));
    assert_eq!(inserted(&storage), vec![((2, 1), 2)]);
    assert_eq!(deleted(&storage), vec![((9, 2), 3)]);
}

#[test]
fn refused_insertion_makes_its_ends_nodes() {
    let mut storage = RelationStorage::<Tree>::new();
    assert!(storage.is_empty());
    let r = RelationViewMut::new(&mut storage, None, 1).insert_checked(1, 1, Tree(0));
    assert_eq!(r, Err(InsertError::CycleDetected));
    assert!(!storage.is_empty());
    assert!(RelationViewMut::new(&mut storage, None, 2).delete(1));
    assert!(storage.is_empty());
    assert_eq!(deleted(&storage), vec![]);
}

#[test]
fn cycles_are_accepted_where_the_relation_allows_them() {
    let mut storage = RelationStorage::<Loose>::new();
    let mut view = RelationViewMut::new(&mut storage, None, 1);
    assert_eq!(view.insert_checked(1, 1, Loose(0)), Ok(()));
    assert_eq!(view.insert_checked(1, 2, Loose(0)), Ok(()));
    assert_eq!(view.insert_checked(2, 1, Loose(0)), Ok(()));
    assert_eq!(view.inserted(), vec![(1, 1), (1, 2), (2, 1)]);
}

#[test]
fn limited_incoming_side_keeps_one_edge() {
    let mut storage = RelationStorage::<Parent>::new();
    let mut view = RelationViewMut::new(&mut storage, None, 1);
    view.insert(1, 5, Parent(15));
    view.insert(2, 5, Parent(25));
    view.insert(3, 5, Parent(35));
    view.insert(3, 6, Parent(36));
    assert_eq!(view.get_incoming(5).entities(), vec![3]);
    assert_eq!(view.get_incoming(5).len(), 1);
    assert_eq!(view.get_incoming(5).first(), Some((3, &Parent(35))));
    assert_eq!(view.get_outgoing(3).entities(), vec![5, 6]);
    assert_eq!(view.get_incoming(1).first(), None);
    assert_eq!(pairs(view.deleted()), vec![(1, 5), (2, 5)]);
    assert_eq!(view.inserted(), vec![(3, 5), (3, 6)]);
}

#[test]
fn limited_outgoing_side_keeps_one_edge() {
    let mut storage = RelationStorage::<Target>::new();
    let mut view = RelationViewMut::new(&mut storage, None, 1);
    view.insert(5, 1, Target(51));
    view.insert(5, 2, Target(52));
    view.insert(6, 2, Target(62));
    assert_eq!(view.get_outgoing(5).first(), Some((2, &Target(52))));
    assert_eq!(view.get(5).entities(), vec![2]);
    assert_eq!(view.get_incoming(2).entities(), vec![5, 6]);
    assert_eq!(pairs(view.deleted()), vec![(5, 1)]);
}

#[test]
fn limited_on_both_sides_evicts_on_both() {
    let mut storage = RelationStorage::<Chain>::new();
    let mut view = RelationViewMut::new(&mut storage, None, 1);
    view.insert(1, 2, Chain(12));
    view.insert(3, 4, Chain(34));
    view.insert(1, 4, Chain(14));
    assert_eq!(view.get_outgoing(1).first(), Some((4, &Chain(14))));
    assert_eq!(view.get_incoming(4).first(), Some((1, &Chain(14))));
    assert_eq!(view.get_incoming(2).first(), None);
    assert_eq!(view.get_outgoing(3).first(), None);
    assert_eq!(pairs(view.deleted()), vec![(3, 4), (1, 2)]);
    assert_eq!(view.inserted(), vec![(1, 4)]);
}

#[test]
fn directed_exclusive_keeps_the_last_edge_only() {
    let mut storage = RelationStorage::<Chain>::new();
    let mut view = RelationViewMut::new(&mut storage, None, 1);
    view.insert(10, 11, Chain(1));
    assert_eq!(view.get_outgoing(10).first(), Some((11, &Chain(1))));
    view.insert(10, 12, Chain(2));
    assert_eq!(view.get_outgoing(10).first(), Some((12, &Chain(2))));
    assert_eq!(view.relation(10, 11), None);
    view.insert(10, 13, Chain(3));
    assert_eq!(view.relation(10, 11), None);
    assert_eq!(view.relation(10, 12), None);
    assert_eq!(view.relation(10, 13), Some(&Chain(3)));
    assert_eq!(
        view.get_outgoing_deleted(10),
        vec![(11, &Chain(1)), (12, &Chain(2))]
    );
    assert_eq!(view.get_deleted(10), vec![(11, &Chain(1)), (12, &Chain(2))]);
    assert_eq!(view.get_inserted(10), vec![13]);
}

#[test]
fn undirected_exclusive_pairs_up() {
    let mut storage = RelationStorage::<Pairing>::new();
    let mut view = RelationViewMut::new(&mut storage, None, 1);
    view.insert(1, 2, Pairing(12));
    view.insert(3, 4, Pairing(34));
    view.insert(2, 3, Pairing(23));
    assert_eq!(view.get(2).first(), Some((3, &Pairing(23))));
    assert_eq!(view.get_incoming(2).first(), Some((3, &Pairing(23))));
    assert_eq!(view.get(3).first(), Some((2, &Pairing(23))));
    assert_eq!(view.get(1).first(), None);
    assert_eq!(view.get(4).first(), None);
    assert_eq!(view.relation(3, 2), Some(&Pairing(23)));
    assert_eq!(pairs(view.deleted()), vec![(4, 3), (2, 1)]);
    view.insert(2, 2, Pairing(22));
    assert_eq!(view.get(2).first(), Some((2, &Pairing(22))));
    assert_eq!(view.get(3).first(), None);
}

fn pairs<R>(entries: Vec<((u64, u64), &R)>) -> Vec<(u64, u64)> {
    entries.into_iter().map(|e| e.0).collect()
}

#[test]
fn insert_error_says_what_went_wrong() {
    assert_eq!(
        InsertError::CycleDetected.message(),
        "Insertion would cause a cycle while `RelationMode` is set to acyclic."
    );
    assert_eq!(InsertError::CycleDetected, InsertError::CycleDetected.clone());
}

#[test]
fn acyclic_relation_never_holds_a_cycle() {
    let mut storage = RelationStorage::<Tree>::new();
    let attempts = [
        (1, 2),
        (2, 3),
        (3, 1),
        (3, 4),
        (4, 2),
        (4, 4),
        (5, 1),
        (4, 5),
        (2, 1),
        (1, 4),
    ];
    let mut refused = Vec::new();
    for (now, (a, b)) in attempts.into_iter().enumerate() {
        let mut view = RelationViewMut::new(&mut storage, None, now as u32 + 1);
        if view.insert_checked(a, b, Tree(0)).is_err() {
            refused.push((a, b));
        }
        drop(view);
        assert!(!storage.graph().is_cyclic());
    }
    assert_eq!(refused, vec![(3, 1), (4, 2), (4, 4), (4, 5), (2, 1)]);

    let mut storage = RelationStorage::<Net>::new();
    let attempts = [(1, 2), (2, 3), (1, 3), (3, 4), (4, 1), (5, 5), (5, 4), (2, 5)];
    let mut refused = Vec::new();
    for (now, (a, b)) in attempts.into_iter().enumerate() {
        let mut view = RelationViewMut::new(&mut storage, None, now as u32 + 1);
        if view.insert_checked(a, b, Net(0)).is_err() {
            refused.push((a, b));
        }
        drop(view);
        assert!(!storage.graph().is_cyclic());
    }
    assert_eq!(refused, vec![(1, 3), (4, 1), (5, 5), (2, 5)]);
}
