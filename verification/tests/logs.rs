use shipyard_relations::log::{DeletionLog, StampLog};

fn entries(log: &StampLog) -> Vec<((u64, u64), u32)> {
    (0..log.len()).map(|i| log.entry(i)).collect()
}

fn deletions(log: &DeletionLog<&'static str>) -> Vec<((u64, u64), u32, &'static str)> {
    (0..log.len())
        .map(|i| {
            let (pair, stamp, payload) = log.entry(i);
            (pair, stamp, *payload)
        })
        .collect()
}

#[test]
fn new_log_is_empty() {
    let log = StampLog::new();
    assert_eq!(log.len(), 0);
    assert_eq!(log.stamp_of(1, 2), None);
    assert_eq!(log.index_of(1, 2), None);
}

#[test]
fn record_appends_new_pairs_in_order() {
    let mut log = StampLog::new();
    assert_eq!(log.record(1, 2, 10), (0, None));
    assert_eq!(log.record(2, 1, 11), (1, None));
    assert_eq!(log.record(3, 3, 12), (2, None));
    assert_eq!(log.len(), 3);
    assert_eq!(entries(&log), vec![((1, 2), 10), ((2, 1), 11), ((3, 3), 12)]);
    assert_eq!(log.index_of(2, 1), Some(1));
    assert_eq!(log.stamp_of(3, 3), Some(12));
    assert_eq!(log.stamp_of(3, 4), None);
}

#[test]
fn record_overwrites_in_place() {
    let mut log = StampLog::new();
    log.record(1, 2, 10);
    log.record(3, 4, 11);
    assert_eq!(log.record(1, 2, 20), (0, Some(10)));
    assert_eq!(entries(&log), vec![((1, 2), 20), ((3, 4), 11)]);
}

#[test]
fn withdraw_moves_the_last_entry_into_the_gap() {
    let mut log = StampLog::new();
    log.record(1, 1, 10);
    log.record(2, 2, 11);
    log.record(3, 3, 12);
    log.record(4, 4, 13);
    assert_eq!(log.withdraw(2, 2), Some((1, 11)));
    assert_eq!(entries(&log), vec![((1, 1), 10), ((4, 4), 13), ((3, 3), 12)]);
    assert_eq!(log.withdraw(3, 3), Some((2, 12)));
    assert_eq!(entries(&log), vec![((1, 1), 10), ((4, 4), 13)]);
    assert_eq!(log.withdraw(9, 9), None);
    assert_eq!(entries(&log), vec![((1, 1), 10), ((4, 4), 13)]);
}

#[test]
fn withdraw_of_the_only_entry_empties_the_log() {
    let mut log = StampLog::new();
    log.record(5, 6, 1);
    assert_eq!(log.withdraw(5, 6), Some((0, 1)));
    assert_eq!(log.len(), 0);
}

#[test]
fn remove_at_keeps_the_order_of_the_rest() {
    let mut log = StampLog::new();
    log.record(1, 1, 10);
    log.record(2, 2, 11);
    log.record(3, 3, 12);
    assert_eq!(log.remove_at(0), ((1, 1), 10));
    assert_eq!(entries(&log), vec![((2, 2), 11), ((3, 3), 12)]);
    assert_eq!(log.index_of(3, 3), Some(1));
}

#[test]
fn clear_empties_the_log() {
    let mut log = StampLog::new();
    log.record(1, 1, 10);
    log.record(2, 2, 11);
    log.clear();
    assert_eq!(log.len(), 0);
    assert_eq!(log.stamp_of(1, 1), None);
}

#[test]
fn deletion_log_keeps_payloads_with_their_pairs() {
    let mut log = DeletionLog::new();
    log.record(1, 2, 10, "a");
    log.record(3, 4, 11, "b");
    log.record(5, 6, 12, "c");
    assert_eq!(
        deletions(&log),
        vec![((1, 2), 10, "a"), ((3, 4), 11, "b"), ((5, 6), 12, "c")]
    );
    log.record(3, 4, 20, "d");
    assert_eq!(
        deletions(&log),
        vec![((1, 2), 10, "a"), ((3, 4), 20, "d"), ((5, 6), 12, "c")]
    );
    assert_eq!(log.stamp_of(3, 4), Some(20));
    assert_eq!(log.stamp_of(4, 3), None);
    log.remove_at(0);
    assert_eq!(deletions(&log), vec![((3, 4), 20, "d"), ((5, 6), 12, "c")]);
    log.clear();
    assert_eq!(log.len(), 0);
}

#[test]
fn sweep_keeps_newer_entries_in_order() {
    let mut log = DeletionLog::new();
    log.record(1, 1, 3, "old");
    log.record(2, 2, 9, "new");
    log.record(3, 3, 5, "at the horizon");
    log.record(4, 4, 6, "just after");
    log.record(5, 5, 1, "older");
    log.sweep(5);
    assert_eq!(deletions(&log), vec![((2, 2), 9, "new"), ((4, 4), 6, "just after")]);
    log.sweep(9);
    assert_eq!(log.len(), 0);
}
