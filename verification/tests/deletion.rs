use shipyard_relations::relation_mode::{Directed, Undirected};
use shipyard_relations::{GetRelation, Relation, RelationStorage, RelationView, RelationViewMut};

#[derive(Debug, PartialEq)]
struct Link(u32);

impl Relation for Link {
    type Mode = Directed;
}

#[derive(Debug, PartialEq)]
struct Bond(u32);

impl Relation for Bond {
    type Mode = Undirected;
}

fn inserted<R: Relation>(storage: &RelationStorage<R>) -> Vec<((u64, u64), u32)> {
    let log = storage.insertion_data();
    (0..log.len()).map(|i| log.entry(i)).collect()
}

fn deleted(storage: &RelationStorage<Link>) -> Vec<((u64, u64), u32, u32)> {
    let log = storage.deletion_data();
    (0..log.len())
        .map(|i| {
            let (pair, stamp, payload) = log.entry(i);
            (pair, stamp, payload.0)
        })
        .collect()
}

#[test]
fn deleted_edge_is_logged_with_its_last_payload() {
    let mut storage = RelationStorage::<Link>::new();
    let mut view = RelationViewMut::new(&mut storage, None, 1);
    view.insert(1, 2, Link(10));
    view.insert(1, 2, Link(11));
    *view.relation_mut(1, 2).unwrap() = Link(12);
    assert!(view.delete_relation(1, 2));
    assert_eq!(view.deleted(), vec![((1, 2), &Link(12))]);
    assert!(view.is_deleted(1, 2));
    assert!(!view.is_inserted(1, 2));
    assert_eq!(view.inserted(), vec![]);
    assert_eq!(view.relation(1, 2), None);
}

#[test]
fn deleting_a_missing_edge_changes_nothing() {
    let mut storage = RelationStorage::<Link>::new();
    let mut view = RelationViewMut::new(&mut storage, None, 1);
    view.insert(1, 2, Link(10));
    assert!(!view.delete_relation(2, 1));
    assert!(!view.delete_relation(5, 6));
    drop(view);
    assert_eq!(inserted(&storage), vec![((1, 2), 1)]);
    assert_eq!(deleted(&storage), vec![]);
    assert_eq!(storage.graph().node_count(), 2);
}

#[test]
fn deletion_entry_is_overwritten_in_place() {
    let mut storage = RelationStorage::<Link>::new();
    storage.insert_tracked(1, 2, Link(1), 1);
    storage.insert_tracked(3, 4, Link(2), 1);
    assert!(storage.delete_edge_tracked(1, 2, 2));
    assert!(storage.delete_edge_tracked(3, 4, 3));
    storage.insert_tracked(1, 2, Link(3), 4);
    assert_eq!(deleted(&storage), vec![((1, 2), 2, 1), ((3, 4), 3, 2)]);
    assert!(storage.delete_edge_tracked(1, 2, 5));
    assert_eq!(deleted(&storage), vec![((1, 2), 5, 3), ((3, 4), 3, 2)]);
    assert_eq!(inserted(&storage), vec![]);
}

#[test]
fn deleting_a_node_logs_every_edge_at_it() {
    let mut storage = RelationStorage::<Link>::new();
    let mut view = RelationViewMut::new(&mut storage, None, 1);
    view.insert(10, 11, Link(1));
    view.insert(10, 12, Link(2));
    view.insert(12, 13, Link(3));
    view.insert(13, 14, Link(4));
    drop(view);

    assert!(storage.delete_node_tracked(13, 7));

    assert_eq!(deleted(&storage), vec![((12, 13), 7, 3), ((13, 14), 7, 4)]);
    assert_eq!(inserted(&storage), vec![((10, 11), 1), ((10, 12), 1)]);
    let view = RelationView::new(&storage, Some(6), 7);
    assert_eq!(view.relation(12, 13), None);
    assert_eq!(view.relation(13, 14), None);
    assert_eq!(view.relation(10, 11), Some(&Link(1)));
    assert_eq!(view.relation(10, 12), Some(&Link(2)));
    assert!(view.is_deleted(12, 13));
    assert!(view.is_deleted(13, 14));
    assert_eq!(view.get_incoming_deleted(13), vec![(12, &Link(3))]);
    assert_eq!(view.get_outgoing_deleted(13), vec![(14, &Link(4))]);
    assert_eq!(storage.graph().node_count(), 4);
    assert!(!RelationStorage::delete_node_tracked(&mut storage, 13, 8));
}

#[test]
fn deleting_a_node_with_a_self_loop_logs_the_loop_once() {
    #[derive(Debug, PartialEq)]
    struct Any(u32);
    impl Relation for Any {
        type Mode = Directed;
        const ACYCLIC: bool = false;
    }
    let mut storage = RelationStorage::<Any>::new();
    storage.insert_tracked(1, 1, Any(11), 1);
    storage.insert_tracked(1, 2, Any(12), 1);
    storage.insert_tracked(3, 1, Any(31), 1);
    assert!(storage.delete_node_tracked(1, 2));
    let log = storage.deletion_data();
    let mut entries: Vec<((u64, u64), u32, u32)> = (0..log.len())
        .map(|i| {
            let (pair, stamp, payload) = log.entry(i);
            (pair, stamp, payload.0)
        })
        .collect();
    entries.sort();
    assert_eq!(entries, vec![((1, 1), 2, 11), ((1, 2), 2, 12), ((3, 1), 2, 31)]);
    assert_eq!(storage.insertion_data().len(), 0);
    assert_eq!(storage.graph().node_count(), 2);
}

#[test]
fn deleting_an_unknown_node_changes_nothing() {
    let mut storage = RelationStorage::<Link>::new();
    storage.insert_tracked(1, 2, Link(1), 1);
    assert!(!storage.delete_node_tracked(3, 2));
    assert_eq!(inserted(&storage), vec![((1, 2), 1)]);
    assert_eq!(deleted(&storage), vec![]);
}

#[test]
fn undirected_deletion_is_logged_from_the_end_it_was_asked_from() {
    let mut storage = RelationStorage::<Bond>::new();
    let mut view = RelationViewMut::new(&mut storage, None, 1);
    view.insert(2, 3, Bond(23));
    assert!(view.is_inserted(2, 3));
    assert!(view.is_inserted(3, 2));
    assert!(view.delete_relation(3, 2));
    assert_eq!(view.deleted(), vec![((3, 2), &Bond(23))]);
    assert!(view.is_deleted(3, 2));
    assert!(view.is_deleted(2, 3));
    assert!(!view.is_inserted(2, 3));
    assert!(!view.is_inserted(3, 2));
    assert_eq!(view.inserted(), vec![]);
    assert_eq!(view.get_outgoing_deleted(2), vec![(3, &Bond(23))]);
    assert_eq!(view.get_incoming_deleted(2), vec![(3, &Bond(23))]);
    assert_eq!(view.get_outgoing_deleted(3), vec![(2, &Bond(23))]);
}

#[test]
fn delete_relations_with_leaves_the_logs_alone() {
    let mut storage = RelationStorage::<Link>::new();
    let mut view = RelationViewMut::new(&mut storage, None, 1);
    view.insert(1, 2, Link(12));
    view.insert(2, 3, Link(23));
    view.insert(4, 5, Link(45));
    assert!(view.delete_relations_with(2));
    assert!(!view.delete_relations_with(2));
    assert_eq!(view.relation(1, 2), None);
    assert_eq!(view.relation(2, 3), None);
    assert_eq!(view.relation(4, 5), Some(&Link(45)));
    assert_eq!(view.inserted(), vec![(1, 2), (2, 3), (4, 5)]);
    assert!(view.is_inserted(1, 2));
    assert!(view.deleted().is_empty());
    assert!(!view.is_deleted(1, 2));
    drop(view);
    assert_eq!(storage.graph().node_count(), 4);
}

#[test]
fn delete_logs_where_delete_relations_with_does_not() {
    let mut storage = RelationStorage::<Link>::new();
    let mut view = RelationViewMut::new(&mut storage, None, 1);
    view.insert(1, 2, Link(12));
    view.insert(2, 3, Link(23));
    assert!(view.delete(2));
    assert_eq!(view.inserted(), vec![]);
    assert_eq!(view.deleted(), vec![((1, 2), &Link(12)), ((2, 3), &Link(23))]);
}

#[test]
fn clear_deleted_forgets_every_deletion() {
    let mut storage = RelationStorage::<Link>::new();
    let mut view = RelationViewMut::new(&mut storage, None, 1);
    view.insert(1, 2, Link(12));
    view.insert(2, 3, Link(23));
    view.delete_relation(1, 2);
    assert!(view.is_deleted(1, 2));
    view.clear_deleted();
    assert!(!view.is_deleted(1, 2));
    assert!(view.deleted().is_empty());
    assert_eq!(view.inserted(), vec![(2, 3)]);
    assert_eq!(view.relation(2, 3), Some(&Link(23)));
}

#[test]
fn storage_forgets_deletions_on_request() {
    let mut storage = RelationStorage::<Link>::new();
    storage.insert_tracked(1, 2, Link(1), 1);
    storage.insert_tracked(2, 3, Link(2), 1);
    storage.insert_tracked(3, 4, Link(3), 1);
    storage.delete_edge_tracked(1, 2, 10);
    storage.delete_edge_tracked(2, 3, 20);
    storage.delete_edge_tracked(3, 4, 30);
    storage.clear_all_removed_and_deleted_older_than_timestamp(20);
    assert_eq!(deleted(&storage), vec![((3, 4), 30, 3)]);
    storage.delete_edge_tracked(9, 9, 31);
    storage.clear_all_removed_and_deleted();
    assert_eq!(deleted(&storage), vec![]);
    assert_eq!(inserted(&storage), vec![]);
}

#[test]
fn host_deletion_of_an_entity_is_tracked() {
    let mut storage = RelationStorage::<Link>::default();
    storage.insert_tracked(1, 2, Link(1), 1);
    storage.delete(2, 3);
    assert_eq!(deleted(&storage), vec![((1, 2), 3, 1)]);
    assert_eq!(storage.graph().node_count(), 1);
}
