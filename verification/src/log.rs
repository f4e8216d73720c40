//! Change logs: ordered tables from an edge's pair to the timestamp of its
//! last insertion or deletion.
//!
//! The tables are indexmap `IndexMap`s. They keep their entries in order: a
//! new pair goes to the end, a pair that is written again keeps its place,
//! and a pair that is withdrawn hands its place to the last entry.

use crate::clock::{is_older_than, older_than};
use indexmap::IndexMap;
use std::collections::hash_map::RandomState;
use vstd::prelude::*;

verus! {

#[verifier::external_type_specification]
#[verifier::external_body]
#[verifier::reject_recursive_types(K)]
#[verifier::reject_recursive_types(V)]
#[verifier::reject_recursive_types(S)]
pub struct ExIndexMap<K, V, S>(IndexMap<K, V, S>);

/// The two ends of an edge, as a log knows it.
pub type Pair = (u64, u64);

/// A table from pairs to timestamps.
pub type StampMap = IndexMap<(u64, u64), u32, RandomState>;

/// The entries of a table, in its order.
pub uninterp spec fn stamp_entries(m: StampMap) -> Seq<((u64, u64), u32)>;

/// Whether no pair occurs twice in `log`.
pub open spec fn keys_unique<V>(log: Seq<(Pair, V)>) -> bool {
    forall|i: int, j: int|
        0 <= i < log.len() && 0 <= j < log.len() && i != j ==> (#[trigger] log[i]).0 != (
        #[trigger] log[j]).0
}

/// Whether `log` has an entry for `key`.
pub open spec fn has_key<V>(log: Seq<(Pair, V)>, key: Pair) -> bool {
    exists|i: int| 0 <= i < log.len() && (#[trigger] log[i]).0 == key
}

/// The place of `key` in `log`; meaningful where the log has the key.
pub open spec fn position<V>(log: Seq<(Pair, V)>, key: Pair) -> int {
    choose|i: int| 0 <= i < log.len() && (#[trigger] log[i]).0 == key
}

/// What `log` holds for `key`.
pub open spec fn lookup<V>(log: Seq<(Pair, V)>, key: Pair) -> Option<V> {
    if has_key(log, key) {
        Some(log[position(log, key)].1)
    } else {
        None
    }
}

/// `log` after `key` is written with `value`: in place where the key is
/// there already, at the end otherwise.
pub open spec fn put<V>(log: Seq<(Pair, V)>, key: Pair, value: V) -> Seq<(Pair, V)> {
    if has_key(log, key) {
        log.update(position(log, key), (key, value))
    } else {
        log.push((key, value))
    }
}

/// `log` after `key` is withdrawn: the last entry takes its place.
pub open spec fn withdraw<V>(log: Seq<(Pair, V)>, key: Pair) -> Seq<(Pair, V)> {
    if has_key(log, key) {
        log.update(position(log, key), log[log.len() - 1]).drop_last()
    } else {
        log
    }
}

/// In a log without repeated pairs, a pair has one place.
pub proof fn lemma_position<V>(log: Seq<(Pair, V)>, key: Pair, i: int)
    requires
        keys_unique(log),
        0 <= i < log.len(),
        log[i].0 == key,
    ensures
        has_key(log, key),
        position(log, key) == i,
{
}

/// Writing a pair repeats none.
pub proof fn lemma_put_unique<V>(log: Seq<(Pair, V)>, key: Pair, value: V)
    requires
        keys_unique(log),
    ensures
        keys_unique(put(log, key, value)),
        has_key(put(log, key, value), key),
        lookup(put(log, key, value), key) == Some(value),
        forall|other: Pair|
            other != key ==> has_key(put(log, key, value), other) == has_key(log, other),
        forall|other: Pair|
            other != key ==> lookup(put(log, key, value), other) == lookup(log, other),
{
    let after = put(log, key, value);
    let at: int = if has_key(log, key) {
        position(log, key)
    } else {
        log.len() as int
    };
    assert(after[at] == (key, value));
    assert(keys_unique(after));
    lemma_position(after, key, at);
    assert forall|other: Pair| other != key implies has_key(after, other) == has_key(
        log,
        other,
    ) && lookup(after, other) == lookup(log, other) by {
        if has_key(log, other) {
            let i = position(log, other);
            assert(after[i] == log[i]);
            lemma_position(after, other, i);
        }
        if has_key(after, other) {
            let i = position(after, other);
            assert(log[i] == after[i]);
            lemma_position(log, other, i);
        }
    }
}

/// Withdrawing a pair repeats none, and only that pair leaves.
pub proof fn lemma_withdraw_unique<V>(log: Seq<(Pair, V)>, key: Pair)
    requires
        keys_unique(log),
    ensures
        keys_unique(withdraw(log, key)),
        !has_key(withdraw(log, key), key),
        forall|other: Pair| other != key ==> has_key(withdraw(log, key), other) == has_key(log, other),
        forall|other: Pair| other != key ==> lookup(withdraw(log, key), other) == lookup(log, other),
{
    let after = withdraw(log, key);
    if has_key(log, key) {
        let at = position(log, key);
        let last = log.len() - 1;
        assert forall|i: int| 0 <= i < after.len() implies #[trigger] after[i] == (if i == at {
            log[last]
        } else {
            log[i]
        }) by {}
        assert(keys_unique(after));
        assert(!has_key(after, key)) by {
            if has_key(after, key) {
                let i = position(after, key);
                if i == at {
                    assert(log[last].0 == key);
                } else {
                    assert(log[i].0 == key);
                }
            }
        }
        assert forall|other: Pair| other != key implies has_key(after, other) == has_key(
            log,
            other,
        ) && lookup(after, other) == lookup(log, other) by {
            if has_key(log, other) {
                let i = position(log, other);
                let j = if i == last {
                    at
                } else {
                    i
                };
                assert(after[j] == log[i]);
                lemma_position(after, other, j);
            }
            if has_key(after, other) {
                let j = position(after, other);
                let i = if j == at {
                    last
                } else {
                    j
                };
                assert(log[i] == after[j]);
                lemma_position(log, other, i);
            }
        }
    }
}

/// `IndexMap::new`: a table without entries.
#[verifier::external_body]
fn stamps_new() -> (m: StampMap)
    ensures
        stamp_entries(m) == Seq::<((u64, u64), u32)>::empty(),
{
    IndexMap::new()
}

/// `IndexMap::len`: the number of entries.
#[verifier::external_body]
fn stamps_len(m: &StampMap) -> (n: usize)
    ensures
        n == stamp_entries(*m).len(),
{
    m.len()
}

/// `IndexMap::get_index_of`: the place of the entry for `key`, if there is
/// one.
#[verifier::external_body]
fn stamps_index_of(m: &StampMap, key: (u64, u64)) -> (at: Option<usize>)
    ensures
        match at {
            Some(i) => i < stamp_entries(*m).len() && stamp_entries(*m)[i as int].0 == key,
            None => !has_key(stamp_entries(*m), key),
        },
{
    m.get_index_of(&key)
}

/// `IndexMap::get_index`: the entry at place `i`, if the table is that long.
#[verifier::external_body]
fn stamps_entry(m: &StampMap, i: usize) -> (entry: Option<((u64, u64), u32)>)
    ensures
        entry == (if i < stamp_entries(*m).len() {
            Some(stamp_entries(*m)[i as int])
        } else {
            None
        }),
{
    m.get_index(i).map(|(k, v)| (*k, *v))
}

/// `IndexMap::insert_full`: where the table has an entry for `key`, the
/// entry keeps its place and gets the new timestamp, and its place and old
/// timestamp are returned; otherwise the entry goes to the end, and its place
/// is returned.
#[verifier::external_body]
fn stamps_insert_full(m: &mut StampMap, key: (u64, u64), stamp: u32) -> (r: (usize, Option<u32>))
    ensures
        match r.1 {
            Some(was) => {
                &&& r.0 < stamp_entries(*old(m)).len()
                &&& stamp_entries(*old(m))[r.0 as int] == (key, was)
                &&& stamp_entries(*final(m)) == stamp_entries(*old(m)).update(
                    r.0 as int,
                    (key, stamp),
                )
            },
            None => {
                &&& !has_key(stamp_entries(*old(m)), key)
                &&& r.0 == stamp_entries(*old(m)).len()
                &&& stamp_entries(*final(m)) == stamp_entries(*old(m)).push((key, stamp))
            },
        },
{
    m.insert_full(key, stamp)
}

/// `IndexMap::swap_remove_full`: where the table has an entry for `key`, the
/// entry leaves, the last entry takes its place, and the place and the
/// entry's timestamp are returned; otherwise nothing changes.
#[verifier::external_body]
fn stamps_swap_remove_full(m: &mut StampMap, key: (u64, u64)) -> (r: Option<(usize, u32)>)
    ensures
        match r {
            Some((i, was)) => {
                &&& i < stamp_entries(*old(m)).len()
                &&& stamp_entries(*old(m))[i as int] == (key, was)
                &&& stamp_entries(*final(m)) == stamp_entries(*old(m)).update(
                    i as int,
                    stamp_entries(*old(m))[stamp_entries(*old(m)).len() - 1],
                ).drop_last()
            },
            None => {
                &&& !has_key(stamp_entries(*old(m)), key)
                &&& stamp_entries(*final(m)) == stamp_entries(*old(m))
            },
        },
{
    m.swap_remove_full(&key).map(|(i, _, v)| (i, v))
}

/// `IndexMap::shift_remove_index`: where the table is longer than `i`, the
/// entry at place `i` leaves and is returned, and the entries behind it move
/// up by one; otherwise nothing changes.
#[verifier::external_body]
fn stamps_shift_remove_index(m: &mut StampMap, i: usize) -> (r: Option<((u64, u64), u32)>)
    ensures
        r == (if i < stamp_entries(*old(m)).len() {
            Some(stamp_entries(*old(m))[i as int])
        } else {
            None
        }),
        stamp_entries(*final(m)) == (if i < stamp_entries(*old(m)).len() {
            stamp_entries(*old(m)).remove(i as int)
        } else {
            stamp_entries(*old(m))
        }),
{
    m.shift_remove_index(i)
}

/// `IndexMap::clear`: no entry is left.
#[verifier::external_body]
fn stamps_clear(m: &mut StampMap)
    ensures
        stamp_entries(*final(m)) == Seq::<((u64, u64), u32)>::empty(),
{
    m.clear()
}

/// A log of timestamps, one for each pair it knows.
pub struct StampLog {
    map: StampMap,
}

impl StampLog {
    /// The entries, in order.
    pub closed spec fn view(&self) -> Seq<(Pair, u32)> {
        stamp_entries(self.map)
    }

    /// No pair occurs twice.
    pub open spec fn wf(&self) -> bool {
        keys_unique(self@)
    }

    /// A log without entries.
    pub fn new() -> (log: StampLog)
        ensures
            log@ == Seq::<(Pair, u32)>::empty(),
            log.wf(),
    {
        StampLog { map: stamps_new() }
    }

    /// The number of entries.
    pub fn len(&self) -> (n: usize)
        ensures
            n == self@.len(),
    {
        stamps_len(&self.map)
    }

    /// The entry at place `i`.
    pub fn entry(&self, i: usize) -> (entry: (Pair, u32))
        requires
            i < self@.len(),
        ensures
            entry == self@[i as int],
    {
        match stamps_entry(&self.map, i) {
            Some(entry) => entry,
            None => unreached(),
        }
    }

    /// The place of the entry for `(a, b)`.
    pub fn index_of(&self, a: u64, b: u64) -> (at: Option<usize>)
        requires
            self.wf(),
        ensures
            at.is_some() == has_key(self@, (a, b)),
            at.is_some() ==> at.unwrap() == position(self@, (a, b)),
    {
        let at = stamps_index_of(&self.map, (a, b));
        proof {
            if let Some(i) = at {
                lemma_position(self@, (a, b), i as int);
            }
        }
        at
    }

    /// The timestamp logged for `(a, b)`.
    pub fn stamp_of(&self, a: u64, b: u64) -> (stamp: Option<u32>)
        requires
            self.wf(),
        ensures
            stamp == lookup(self@, (a, b)),
    {
        match self.index_of(a, b) {
            Some(i) => Some(self.entry(i).1),
            None => None,
        }
    }

    /// Logs `stamp` for `(a, b)`. Returns the entry's place, and the
    /// timestamp that it held before.
    pub fn record(&mut self, a: u64, b: u64, stamp: u32) -> (r: (usize, Option<u32>))
        requires
            old(self).wf(),
        ensures
            final(self).wf(),
            final(self)@ == put(old(self)@, (a, b), stamp),
            r.1 == lookup(old(self)@, (a, b)),
            r.0 < final(self)@.len(),
            final(self)@[r.0 as int] == ((a, b), stamp),
            r.1.is_none() ==> r.0 == old(self)@.len(),
            r.1.is_some() ==> r.0 == position(old(self)@, (a, b)),
    {
        let r = stamps_insert_full(&mut self.map, (a, b), stamp);
        proof {
            if r.1.is_some() {
                lemma_position(old(self)@, (a, b), r.0 as int);
            }
            lemma_put_unique(old(self)@, (a, b), stamp);
        }
        r
    }

    /// Withdraws the entry for `(a, b)`. Returns the place and the timestamp
    /// that it held.
    pub fn withdraw(&mut self, a: u64, b: u64) -> (r: Option<(usize, u32)>)
        requires
            old(self).wf(),
        ensures
            final(self).wf(),
            final(self)@ == withdraw(old(self)@, (a, b)),
            r.is_some() == has_key(old(self)@, (a, b)),
            r.is_some() ==> r.unwrap().0 == position(old(self)@, (a, b)) && Some(r.unwrap().1)
                == lookup(old(self)@, (a, b)),
    {
        let r = stamps_swap_remove_full(&mut self.map, (a, b));
        proof {
            if let Some((i, was)) = r {
                lemma_position(old(self)@, (a, b), i as int);
            }
            lemma_withdraw_unique(old(self)@, (a, b));
        }
        r
    }

    /// Removes the entry at place `i`; the entries behind it move up.
    pub fn remove_at(&mut self, i: usize) -> (entry: (Pair, u32))
        requires
            old(self).wf(),
            i < old(self)@.len(),
        ensures
            final(self).wf(),
            final(self)@ == old(self)@.remove(i as int),
            entry == old(self)@[i as int],
    {
        let r = stamps_shift_remove_index(&mut self.map, i);
        proof {
            let before = old(self)@;
            let after = self@;
            assert forall|x: int, y: int|
                0 <= x < after.len() && 0 <= y < after.len() && x != y implies (
            #[trigger] after[x]).0 != (#[trigger] after[y]).0 by {
                let bx = if x < i { x } else { x + 1 };
                let by = if y < i { y } else { y + 1 };
                assert(after[x] == before[bx]);
                assert(after[y] == before[by]);
            }
        }
        match r {
            Some(entry) => entry,
            None => unreached(),
        }
    }

    /// Removes every entry.
    pub fn clear(&mut self)
        ensures
            final(self).wf(),
            final(self)@ == Seq::<(Pair, u32)>::empty(),
    {
        stamps_clear(&mut self.map);
    }
}

/// Whether a deletion entry is kept by a sweep at `horizon`: the horizon is
/// older than the entry.
pub open spec fn outlives<R>(horizon: u32) -> spec_fn((Pair, (u32, R))) -> bool {
    |entry: (Pair, (u32, R))| older_than(horizon, entry.1.0)
}

/// A log of deletions: for each pair it knows, the timestamp of the
/// deletion and the payload that the edge carried.
pub struct DeletionLog<R> {
    stamps: StampLog,
    payloads: Vec<R>,
}

impl<R> DeletionLog<R> {
    /// The entries, in order.
    pub closed spec fn view(&self) -> Seq<(Pair, (u32, R))> {
        Seq::new(
            self.stamps@.len(),
            |i: int| (self.stamps@[i].0, (self.stamps@[i].1, self.payloads@[i])),
        )
    }

    /// No pair occurs twice, and every entry has its payload.
    pub closed spec fn wf(&self) -> bool {
        &&& self.stamps.wf()
        &&& self.payloads@.len() == self.stamps@.len()
    }

    /// In a well-formed log no pair occurs twice.
    pub proof fn lemma_keys_unique(&self)
        requires
            self.wf(),
        ensures
            keys_unique(self@),
    {
        assert forall|i: int, j: int|
            0 <= i < self@.len() && 0 <= j < self@.len() && i != j implies (#[trigger] self@[i]).0
            != (#[trigger] self@[j]).0 by {
            assert(self.stamps@[i].0 != self.stamps@[j].0);
        }
    }

    proof fn lemma_same_keys(&self, key: Pair)
        requires
            self.wf(),
        ensures
            has_key(self@, key) == has_key(self.stamps@, key),
            has_key(self@, key) ==> position(self@, key) == position(self.stamps@, key),
    {
        self.lemma_keys_unique();
        if has_key(self@, key) {
            let i = position(self@, key);
            assert(self.stamps@[i].0 == key);
            lemma_position(self.stamps@, key, i);
        }
        if has_key(self.stamps@, key) {
            let i = position(self.stamps@, key);
            assert(self@[i].0 == key);
            lemma_position(self@, key, i);
        }
    }

    /// A log without entries.
    pub fn new() -> (log: DeletionLog<R>)
        ensures
            log@ == Seq::<(Pair, (u32, R))>::empty(),
            log.wf(),
    {
        let log = DeletionLog { stamps: StampLog::new(), payloads: Vec::new() };
        assert(log@ =~= Seq::<(Pair, (u32, R))>::empty());
        log
    }

    /// The number of entries.
    pub fn len(&self) -> (n: usize)
        ensures
            n == self@.len(),
    {
        self.stamps.len()
    }

    /// The entry at place `i`: its pair, the timestamp and the payload.
    pub fn entry(&self, i: usize) -> (entry: (Pair, u32, &R))
        requires
            self.wf(),
            i < self@.len(),
        ensures
            entry.0 == self@[i as int].0,
            entry.1 == self@[i as int].1.0,
            *entry.2 == self@[i as int].1.1,
    {
        let (key, stamp) = self.stamps.entry(i);
        (key, stamp, &self.payloads[i])
    }

    /// The timestamp logged for `(a, b)`.
    pub fn stamp_of(&self, a: u64, b: u64) -> (stamp: Option<u32>)
        requires
            self.wf(),
        ensures
            stamp == (match lookup(self@, (a, b)) {
                Some(entry) => Some(entry.0),
                None => None,
            }),
    {
        proof {
            self.lemma_same_keys((a, b));
        }
        self.stamps.stamp_of(a, b)
    }

    /// Logs the deletion of `(a, b)` at `stamp`, with the payload that the
    /// edge carried.
    pub fn record(&mut self, a: u64, b: u64, stamp: u32, payload: R)
        requires
            old(self).wf(),
        ensures
            final(self).wf(),
            final(self)@ == put(old(self)@, (a, b), (stamp, payload)),
    {
        proof {
            old(self).lemma_same_keys((a, b));
        }
        let (at, was) = self.stamps.record(a, b, stamp);
        if was.is_some() {
            self.payloads[at] = payload;
        } else {
            self.payloads.push(payload);
        }
        assert(self@ =~= put(old(self)@, (a, b), (stamp, payload)));
    }

    /// Removes the entry at place `i`; the entries behind it move up.
    pub fn remove_at(&mut self, i: usize)
        requires
            old(self).wf(),
            i < old(self)@.len(),
        ensures
            final(self).wf(),
            final(self)@ == old(self)@.remove(i as int),
    {
        self.stamps.remove_at(i);
        self.payloads.remove(i);
        assert(self@ =~= old(self)@.remove(i as int));
    }

    /// Removes every entry.
    pub fn clear(&mut self)
        ensures
            final(self).wf(),
            final(self)@ == Seq::<(Pair, (u32, R))>::empty(),
    {
        self.stamps.clear();
        self.payloads.clear();
        assert(self@ =~= Seq::<(Pair, (u32, R))>::empty());
    }

    /// Removes the entries that `horizon` is not older than. The entries
    /// that stay keep their order.
    pub fn sweep(&mut self, horizon: u32)
        requires
            old(self).wf(),
        ensures
            final(self).wf(),
            final(self)@ == old(self)@.filter(outlives::<R>(horizon)),
    {
        let ghost start = self@;
        let ghost keep = outlives::<R>(horizon);
        let ghost mut done: int = 0;
        let mut i: usize = 0;
        proof {
            reveal(Seq::filter);
            assert(start.take(0).filter(keep) =~= Seq::<(Pair, (u32, R))>::empty());
            assert(start.skip(0) =~= start);
        }
        while i < self.len()
            invariant
                self.wf(),
                keep == outlives::<R>(horizon),
                0 <= done <= start.len(),
                i == start.take(done).filter(keep).len(),
                self@ == start.take(done).filter(keep) + start.skip(done),
            decreases start.len() - done,
        {
            let ghost before = self@;
            let ghost kept = start.take(done).filter(keep);
            let entry = self.entry(i);
            proof {
                reveal(Seq::filter);
                assert(before[i as int] == start.skip(done)[0]);
                assert(start.take(done + 1).drop_last() =~= start.take(done));
                assert(start.take(done + 1).last() == start[done]);
            }
            if is_older_than(horizon, entry.1) {
                proof {
                    assert(keep(start[done]));
                    assert(start.take(done + 1).filter(keep) == kept.push(start[done]));
                    assert(before =~= kept.push(start[done]) + start.skip(done + 1));
                }
                i += 1;
            } else {
                self.remove_at(i);
                proof {
                    assert(!keep(start[done]));
                    assert(start.take(done + 1).filter(keep) == kept);
                    assert(self@ =~= kept + start.skip(done + 1));
                }
            }
            proof {
                done = done + 1;
            }
        }
        proof {
            assert(start.take(done) =~= start);
        }
    }
}

} // verus!
