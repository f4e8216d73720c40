//! Change windows: which logged insertions and deletions are new to a
//! caller that last looked at `last` and looks again at `current`.

use crate::clock::{is_within, within};
use crate::links::Direction;
use crate::log::{DeletionLog, Pair, StampLog};
use vstd::prelude::*;

verus! {

/// Whether a logged timestamp lies in the window.
pub open spec fn stamped_within(stamp: Option<u32>, last: u32, current: u32) -> bool {
    match stamp {
        Some(t) => within(t, last, current),
        None => false,
    }
}

/// Whether the edge between `a` and `b` counts as logged in the window,
/// given the timestamp logged for `(a, b)` and the one logged for `(b, a)`.
///
/// The entry for `(a, b)` decides where there is one. Where there is none,
/// an undirected edge may have been logged from its other end, and the entry
/// for `(b, a)` decides.
pub open spec fn logged_within(
    forward: Option<u32>,
    backward: Option<u32>,
    directed: bool,
    last: u32,
    current: u32,
) -> bool {
    match forward {
        Some(t) => within(t, last, current),
        None => !directed && stamped_within(backward, last, current),
    }
}

/// The timestamp of a deletion entry.
pub open spec fn deletion_stamp<R>(entry: Option<(u32, R)>) -> Option<u32> {
    match entry {
        Some(e) => Some(e.0),
        None => None,
    }
}

/// Picks the pair of an insertion entry that lies in the window.
pub open spec fn fresh_pair(last: u32, current: u32) -> spec_fn((Pair, u32)) -> Option<Pair> {
    |entry: (Pair, u32)|
        if within(entry.1, last, current) {
            Some(entry.0)
        } else {
            None
        }
}

/// Picks the pair and the payload of a deletion entry that lies in the
/// window.
pub open spec fn fresh_deletion<R>(last: u32, current: u32) -> spec_fn((Pair, (u32, R))) -> Option<
    (Pair, R),
> {
    |entry: (Pair, (u32, R))|
        if within(entry.1.0, last, current) {
            Some((entry.0, entry.1.1))
        } else {
            None
        }
}

/// The pairs whose insertion lies in the window, in the order of the log.
pub open spec fn inserted_within(log: Seq<(Pair, u32)>, last: u32, current: u32) -> Seq<Pair> {
    log.filter_map(fresh_pair(last, current))
}

/// The pairs whose deletion lies in the window, each with the payload that
/// its edge carried, in the order of the log.
pub open spec fn deleted_within<R>(log: Seq<(Pair, (u32, R))>, last: u32, current: u32) -> Seq<
    (Pair, R),
> {
    log.filter_map(fresh_deletion::<R>(last, current))
}

/// The other end of the edge `pair`, seen from `entity` on the given side.
///
/// On the outgoing side the edge has to start at `entity`, on the incoming
/// side to end there. An undirected edge may have been logged from either
/// end, so it is seen from both.
pub open spec fn far_end(directed: bool, entity: u64, dir: Direction, pair: Pair) -> Option<u64> {
    match dir {
        Direction::Outgoing => if pair.0 == entity {
            Some(pair.1)
        } else if !directed && pair.1 == entity {
            Some(pair.0)
        } else {
            None
        },
        Direction::Incoming => if pair.1 == entity {
            Some(pair.0)
        } else if !directed && pair.0 == entity {
            Some(pair.1)
        } else {
            None
        },
    }
}

/// Picks the far end of a pair.
pub open spec fn pick_end(directed: bool, entity: u64, dir: Direction) -> spec_fn(Pair) -> Option<
    u64,
> {
    |pair: Pair| far_end(directed, entity, dir, pair)
}

/// Picks the far end of a pair, and keeps what comes with the pair.
pub open spec fn pick_end_with<R>(directed: bool, entity: u64, dir: Direction) -> spec_fn(
    (Pair, R),
) -> Option<(u64, R)> {
    |entry: (Pair, R)|
        match far_end(directed, entity, dir, entry.0) {
            Some(end) => Some((end, entry.1)),
            None => None,
        }
}

/// The far ends of the pairs that have `entity` on the given side.
pub open spec fn ends_at(directed: bool, entity: u64, dir: Direction, pairs: Seq<Pair>) -> Seq<
    u64,
> {
    pairs.filter_map(pick_end(directed, entity, dir))
}

/// The far ends of the pairs that have `entity` on the given side, each
/// with what comes with its pair.
pub open spec fn ends_with_at<R>(
    directed: bool,
    entity: u64,
    dir: Direction,
    entries: Seq<(Pair, R)>,
) -> Seq<(u64, R)> {
    entries.filter_map(pick_end_with::<R>(directed, entity, dir))
}

/// A list of borrowed payloads, by value.
pub open spec fn owned<K, R>(list: Seq<(K, &R)>) -> Seq<(K, R)> {
    list.map_values(|e: (K, &R)| (e.0, *e.1))
}

/// Whether a logged timestamp lies in the window.
pub fn is_stamped_within(stamp: Option<u32>, last: u32, current: u32) -> (r: bool)
    ensures
        r == stamped_within(stamp, last, current),
{
    match stamp {
        Some(t) => is_within(t, last, current),
        None => false,
    }
}

/// The far end of an edge, as [`far_end`] has it.
pub fn far_end_of(directed: bool, entity: u64, dir: Direction, pair: Pair) -> (end: Option<u64>)
    ensures
        end == far_end(directed, entity, dir, pair),
{
    match dir {
        Direction::Outgoing => if pair.0 == entity {
            Some(pair.1)
        } else if !directed && pair.1 == entity {
            Some(pair.0)
        } else {
            None
        },
        Direction::Incoming => if pair.1 == entity {
            Some(pair.0)
        } else if !directed && pair.0 == entity {
            Some(pair.1)
        } else {
            None
        },
    }
}

/// The pairs of `log` whose insertion lies in the window.
pub fn collect_inserted(log: &StampLog, last: u32, current: u32) -> (out: Vec<Pair>)
    ensures
        out@ == inserted_within(log@, last, current),
{
    let mut out: Vec<Pair> = Vec::new();
    let mut i: usize = 0;
    while i < log.len()
        invariant
            i <= log@.len(),
            out@ == inserted_within(log@.take(i as int), last, current),
        decreases log@.len() - i,
    {
        let (pair, stamp) = log.entry(i);
        proof {
            let next = log@.take(i as int + 1);
            assert(next.drop_last() =~= log@.take(i as int));
            assert(next.last() == log@[i as int]);
        }
        if is_within(stamp, last, current) {
            out.push(pair);
            assert(out@ =~= inserted_within(log@.take(i as int + 1), last, current));
        }
        i += 1;
    }
    assert(log@.take(i as int) =~= log@);
    out
}

/// The entries of `log` whose deletion lies in the window.
pub fn collect_deleted<'a, R>(log: &'a DeletionLog<R>, last: u32, current: u32) -> (out: Vec<
    (Pair, &'a R),
>)
    requires
        log.wf(),
    ensures
        owned(out@) == deleted_within(log@, last, current),
{
    let mut out: Vec<(Pair, &'a R)> = Vec::new();
    let mut i: usize = 0;
    assert(owned(out@) =~= deleted_within(log@.take(0), last, current));
    while i < log.len()
        invariant
            log.wf(),
            i <= log@.len(),
            owned(out@) == deleted_within(log@.take(i as int), last, current),
        decreases log@.len() - i,
    {
        let (pair, stamp, payload) = log.entry(i);
        proof {
            let next = log@.take(i as int + 1);
            assert(next.drop_last() =~= log@.take(i as int));
            assert(next.last() == log@[i as int]);
        }
        if is_within(stamp, last, current) {
            let ghost before = out@;
            out.push((pair, payload));
            assert(owned(out@) =~= owned(before).push((pair, *payload)));
            assert(owned(out@) =~= deleted_within(log@.take(i as int + 1), last, current));
        }
        i += 1;
    }
    assert(log@.take(i as int) =~= log@);
    out
}

/// The far ends of the pairs that have `entity` on the given side.
pub fn collect_ends(directed: bool, entity: u64, dir: Direction, pairs: &Vec<Pair>) -> (out: Vec<
    u64,
>)
    ensures
        out@ == ends_at(directed, entity, dir, pairs@),
{
    let mut out: Vec<u64> = Vec::new();
    let mut i: usize = 0;
    while i < pairs.len()
        invariant
            i <= pairs@.len(),
            out@ == ends_at(directed, entity, dir, pairs@.take(i as int)),
        decreases pairs@.len() - i,
    {
        proof {
            let next = pairs@.take(i as int + 1);
            assert(next.drop_last() =~= pairs@.take(i as int));
            assert(next.last() == pairs@[i as int]);
        }
        match far_end_of(directed, entity, dir, pairs[i]) {
            Some(end) => {
                out.push(end);
                assert(out@ =~= ends_at(directed, entity, dir, pairs@.take(i as int + 1)));
            },
            None => {},
        }
        i += 1;
    }
    assert(pairs@.take(i as int) =~= pairs@);
    out
}

/// The far ends of the entries that have `entity` on the given side, each
/// with the payload of its entry.
pub fn collect_ends_with<'a, R>(
    directed: bool,
    entity: u64,
    dir: Direction,
    entries: &Vec<(Pair, &'a R)>,
) -> (out: Vec<(u64, &'a R)>)
    ensures
        owned(out@) == ends_with_at(directed, entity, dir, owned(entries@)),
{
    let mut out: Vec<(u64, &'a R)> = Vec::new();
    let mut i: usize = 0;
    assert(owned(entries@.take(0)) =~= Seq::<(Pair, R)>::empty());
    assert(owned(out@) =~= ends_with_at(directed, entity, dir, owned(entries@.take(0))));
    while i < entries.len()
        invariant
            i <= entries@.len(),
            owned(out@) == ends_with_at(directed, entity, dir, owned(entries@.take(i as int))),
        decreases entries@.len() - i,
    {
        let entry = entries[i];
        proof {
            let next = owned(entries@.take(i as int + 1));
            assert(next.drop_last() =~= owned(entries@.take(i as int)));
            assert(next.last() == (entry.0, *entry.1));
        }
        match far_end_of(directed, entity, dir, entry.0) {
            Some(end) => {
                let ghost before = out@;
                out.push((end, entry.1));
                assert(owned(out@) =~= owned(before).push((end, *entry.1)));
                assert(owned(out@) =~= ends_with_at(
                    directed,
                    entity,
                    dir,
                    owned(entries@.take(i as int + 1)),
                ));
            },
            None => {},
        }
        i += 1;
    }
    assert(entries@.take(i as int) =~= entries@);
    out
}

} // verus!
