//! Resident segment payloads that back served state-transfer chunks.

use std::rc::Rc;

use vstd::prelude::*;

use crate::lists::{lemma_filter_drops_one, lemma_filter_is_subsequence, lemma_filter_keeps_all, lemma_filter_push};
use crate::metrics::bumped;

verus! {

/// One resident payload, its last-use sequence (the eviction key) and the
/// sweep reading at that use (the age key).
pub struct CachedSegmentPayload {
    pub namespace: u64,
    pub checksum: u64,
    pub payload: Rc<Vec<u8>>,
    pub last_use: u64,
    pub last_use_sweep: u64,
}

/// Bytes of all payloads together.
pub open spec fn total_len(entries: Seq<CachedSegmentPayload>) -> int
    decreases entries.len(),
{
    if entries.len() == 0 {
        0
    } else {
        total_len(entries.drop_last()) + entries.last().payload@.len()
    }
}

proof fn lemma_total_push(entries: Seq<CachedSegmentPayload>, entry: CachedSegmentPayload)
    ensures
        total_len(entries.push(entry)) == total_len(entries) + entry.payload@.len(),
{
    assert(entries.push(entry).drop_last() =~= entries);
}

proof fn lemma_total_remove(entries: Seq<CachedSegmentPayload>, index: int)
    requires
        0 <= index < entries.len(),
    ensures
        total_len(entries.remove(index)) == total_len(entries) - entries[index].payload@.len(),
        0 <= total_len(entries.remove(index)),
    decreases entries.len(),
{
    lemma_total_nonnegative(entries.remove(index));
    if index == entries.len() - 1 {
        assert(entries.remove(index) =~= entries.drop_last());
    } else {
        lemma_total_remove(entries.drop_last(), index);
        assert(entries.remove(index).drop_last() =~= entries.drop_last().remove(index));
    }
}

proof fn lemma_total_nonnegative(entries: Seq<CachedSegmentPayload>)
    ensures
        total_len(entries) >= 0,
    decreases entries.len(),
{
    if entries.len() > 0 {
        lemma_total_nonnegative(entries.drop_last());
    }
}

proof fn lemma_total_by_lengths(left: Seq<CachedSegmentPayload>, right: Seq<CachedSegmentPayload>)
    requires
        left.len() == right.len(),
        forall|i: int| #![trigger right[i]] 0 <= i < right.len() ==> left[i].payload@.len() == right[i].payload@.len(),
    ensures
        total_len(left) == total_len(right),
    decreases left.len(),
{
    if left.len() > 0 {
        let _ = right[right.len() - 1];
        assert forall|i: int| #![trigger right.drop_last()[i]] 0 <= i < right.drop_last().len() implies left.drop_last()[i].payload@.len()
            == right.drop_last()[i].payload@.len() by {
            let _ = right[i];
        }
        lemma_total_by_lengths(left.drop_last(), right.drop_last());
    }
}

proof fn lemma_total_filter(entries: Seq<CachedSegmentPayload>, keep: spec_fn(CachedSegmentPayload) -> bool)
    ensures
        0 <= total_len(entries.filter(keep)) <= total_len(entries),
    decreases entries.len(),
{
    reveal(Seq::filter);
    lemma_total_nonnegative(entries);
    if entries.len() > 0 {
        lemma_total_filter(entries.drop_last(), keep);
        if keep(entries.last()) {
            lemma_total_push(entries.drop_last().filter(keep), entries.last());
        }
    }
}

/// Shard-wide cache of segment payloads, content-addressed by namespace and
/// manifest checksum, evicted least recently used first under a byte budget.
pub struct ServedSegmentCache {
    pub entries: Vec<CachedSegmentPayload>,
    pub resident_bytes: u64,
    /// Reads and inserts so far, wrapping at the top.
    pub use_seq: u64,
    /// Idle sweeps run so far, wrapping at the top.
    pub sweeps: u64,
}

pub open spec fn cache_key(entry: CachedSegmentPayload) -> (u64, u64) {
    (entry.namespace, entry.checksum)
}

/// Entries of every other key.
pub open spec fn other_keys(entries: Seq<CachedSegmentPayload>, namespace: u64, checksum: u64) -> Seq<CachedSegmentPayload> {
    entries.filter(
        |entry: CachedSegmentPayload| !(entry.namespace == namespace && entry.checksum == checksum),
    )
}

/// Entries of every other namespace.
pub open spec fn other_namespaces(entries: Seq<CachedSegmentPayload>, namespace: u64) -> Seq<CachedSegmentPayload> {
    entries.filter(|entry: CachedSegmentPayload| entry.namespace != namespace)
}

/// Entries whose last use is at or past the sweep `floor`.
pub open spec fn swept_since(entries: Seq<CachedSegmentPayload>, floor: u64) -> Seq<CachedSegmentPayload> {
    entries.filter(|entry: CachedSegmentPayload| entry.last_use_sweep >= floor)
}

/// No entry was used before this one.
pub open spec fn is_oldest(entries: Seq<CachedSegmentPayload>, index: int) -> bool {
    &&& 0 <= index < entries.len()
    &&& forall|j: int| #![trigger entries[j]] 0 <= j < entries.len() ==> entries[index].last_use <= entries[j].last_use
}

/// The sweep below which a payload idle for `idle_sweeps_max` sweeps is stale,
/// at the sweep after `sweeps` others.
pub open spec fn sweep_floor(sweeps: u64, idle_sweeps_max: u64) -> u64 {
    if bumped(sweeps) >= idle_sweeps_max {
        (bumped(sweeps) - idle_sweeps_max) as u64
    } else {
        0
    }
}

/// `after` is what is left of `before` once the oldest entries went one by one,
/// for as long as `incoming` more bytes would cross the budget.
pub open spec fn is_trimmed(
    before: Seq<CachedSegmentPayload>,
    after: Seq<CachedSegmentPayload>,
    incoming: int,
    budget: u64,
) -> bool
    decreases before.len(),
{
    if before.len() == 0 || total_len(before) + incoming <= budget {
        after == before
    } else {
        exists|index: int|
            #[trigger] is_oldest(before, index) && is_trimmed(before.remove(index), after, incoming, budget)
    }
}

/// `after` is `before` with `inserted` in place of whatever its key held, and
/// no more evicted than its bytes need.
pub open spec fn is_insertion(
    before: Seq<CachedSegmentPayload>,
    after: Seq<CachedSegmentPayload>,
    inserted: CachedSegmentPayload,
    budget: u64,
) -> bool {
    let others = other_keys(before, inserted.namespace, inserted.checksum);
    &&& after.len() > 0
    &&& after.last() == inserted
    &&& is_trimmed(others, after.drop_last(), inserted.payload@.len() as int, budget)
}

/// The payload stands under the key.
pub open spec fn holds_payload(entries: Seq<CachedSegmentPayload>, namespace: u64, checksum: u64, payload: Rc<Vec<u8>>) -> bool {
    exists|index: int|
        #![trigger entries[index]]
        0 <= index < entries.len() && cache_key(entries[index]) == (namespace, checksum) && entries[index].payload == payload
}

/// Nothing stands under the key.
pub open spec fn holds_nothing(entries: Seq<CachedSegmentPayload>, namespace: u64, checksum: u64) -> bool {
    forall|index: int|
        #![trigger entries[index]]
        0 <= index < entries.len() ==> cache_key(entries[index]) != (namespace, checksum)
}

/// A read for a key: the payload held under it, if any, is marked as used now,
/// and every read counts.
pub open spec fn is_cache_read(before: ServedSegmentCache, after: ServedSegmentCache, namespace: u64, checksum: u64) -> bool {
    &&& after.use_seq == bumped(before.use_seq)
    &&& after.sweeps == before.sweeps
    &&& after.resident_bytes == before.resident_bytes
    &&& after.entries@.len() == before.entries@.len()
    &&& forall|i: int|
        #![trigger after.entries@[i]]
        0 <= i < after.entries@.len() ==> after.entries@[i] == if cache_key(before.entries@[i]) == (namespace, checksum) {
            CachedSegmentPayload { last_use: after.use_seq, last_use_sweep: before.sweeps, ..before.entries@[i] }
        } else {
            before.entries@[i]
        }
}

/// What a read for a key found.
pub open spec fn is_found(
    before: ServedSegmentCache,
    after: ServedSegmentCache,
    namespace: u64,
    checksum: u64,
    found: Option<Rc<Vec<u8>>>,
) -> bool {
    match found {
        Some(payload) => exists|index: int|
            #![trigger before.entries@[index]]
            {
                &&& 0 <= index < before.entries@.len()
                &&& cache_key(before.entries@[index]) == (namespace, checksum)
                &&& payload == before.entries@[index].payload
                &&& after.entries@ == before.entries@.update(
                    index,
                    CachedSegmentPayload {
                        last_use: bumped(before.use_seq),
                        last_use_sweep: before.sweeps,
                        ..before.entries@[index]
                    },
                )
            },
        None => {
            &&& after.entries@ == before.entries@
            &&& forall|j: int|
                #![trigger before.entries@[j]]
                0 <= j < before.entries@.len() ==> cache_key(before.entries@[j]) != (namespace, checksum)
        },
    }
}

impl ServedSegmentCache {
    /// A payload as it is stored now.
    pub open spec fn stored_as(self, namespace: u64, checksum: u64, payload: Rc<Vec<u8>>) -> CachedSegmentPayload {
        CachedSegmentPayload {
            namespace,
            checksum,
            payload,
            last_use: bumped(self.use_seq),
            last_use_sweep: self.sweeps,
        }
    }

    /// Keys are unique and the byte count is exact.
    pub open spec fn wf(&self) -> bool {
        &&& forall|i: int, j: int|
            #![trigger self.entries@[i], self.entries@[j]]
            0 <= i < j < self.entries@.len() ==> cache_key(self.entries@[i]) != cache_key(self.entries@[j])
        &&& self.resident_bytes == total_len(self.entries@)
    }

    pub fn new() -> (cache: ServedSegmentCache)
        ensures
            cache.wf(),
            cache.entries@.len() == 0,
            cache.resident_bytes == 0,
            cache.use_seq == 0,
            cache.sweeps == 0,
    {
        ServedSegmentCache { entries: Vec::new(), resident_bytes: 0, use_seq: 0, sweeps: 0 }
    }

    fn remove_at(&mut self, index: usize) -> (removed: CachedSegmentPayload)
        requires
            old(self).wf(),
            index < old(self).entries@.len(),
        ensures
            final(self).wf(),
            removed == old(self).entries@[index as int],
            final(self).entries@ == old(self).entries@.remove(index as int),
            final(self).use_seq == old(self).use_seq,
            final(self).sweeps == old(self).sweeps,
    {
        proof {
            lemma_total_remove(self.entries@, index as int);
        }
        let removed: CachedSegmentPayload = self.entries.remove(index);
        let freed: u64 = removed.payload.len() as u64;
        self.resident_bytes = self.resident_bytes.saturating_sub(freed);
        removed
    }

    fn index_of(&self, namespace: u64, checksum: u64) -> (found: Option<usize>)
        ensures
            found matches Some(index) ==> index < self.entries@.len() && self.entries@[index as int].namespace == namespace
                && self.entries@[index as int].checksum == checksum,
            found is None ==> forall|j: int|
                #![trigger self.entries@[j]]
                0 <= j < self.entries@.len() ==> cache_key(self.entries@[j]) != (namespace, checksum),
    {
        let mut i: usize = 0;
        while i < self.entries.len()
            invariant
                i <= self.entries@.len(),
                forall|j: int|
                    #![trigger self.entries@[j]]
                    0 <= j < i ==> cache_key(self.entries@[j]) != (namespace, checksum),
            decreases self.entries@.len() - i,
        {
            if self.entries[i].namespace == namespace && self.entries[i].checksum == checksum {
                return Some(i);
            }
            i += 1;
        }
        None
    }

    fn retain(&mut self, sweep_floor: u64, except: Option<u64>)
        requires
            old(self).wf(),
        ensures
            final(self).wf(),
            final(self).entries@ == old(self).entries@.filter(
                |entry: CachedSegmentPayload| entry.last_use_sweep >= sweep_floor && Some(entry.namespace) != except,
            ),
            final(self).use_seq == old(self).use_seq,
            final(self).sweeps == old(self).sweeps,
    {
        let ghost all = self.entries@;
        let ghost keep = |entry: CachedSegmentPayload| entry.last_use_sweep >= sweep_floor && Some(entry.namespace) != except;
        let ghost use_seq = self.use_seq;
        let ghost sweeps = self.sweeps;
        let mut i: usize = 0;
        let ghost mut seen: int = 0;
        proof {
            reveal(Seq::filter);
            assert(all.take(0).filter(keep) + all.skip(0) =~= all);
        }
        while i < self.entries.len()
            invariant
                self.wf(),
                self.use_seq == use_seq,
                self.sweeps == sweeps,
                keep == (|entry: CachedSegmentPayload| entry.last_use_sweep >= sweep_floor && Some(entry.namespace)
                    != except),
                0 <= seen <= all.len(),
                self.entries@ == all.take(seen).filter(keep) + all.skip(seen),
                i == all.take(seen).filter(keep).len(),
            decreases self.entries@.len() - i,
        {
            let ghost before = self.entries@;
            proof {
                assert(before[i as int] == all[seen]);
                assert(all.take(seen + 1) =~= all.take(seen).push(all[seen]));
                lemma_filter_push(all.take(seen), all[seen], keep);
            }
            let excluded: bool = match except {
                Some(namespace) => self.entries[i].namespace == namespace,
                None => false,
            };
            if self.entries[i].last_use_sweep < sweep_floor || excluded {
                let _dropped: CachedSegmentPayload = self.remove_at(i);
                proof {
                    assert(self.entries@ =~= all.take(seen + 1).filter(keep) + all.skip(seen + 1));
                }
            } else {
                proof {
                    assert(self.entries@ =~= all.take(seen + 1).filter(keep) + all.skip(seen + 1));
                }
                i += 1;
            }
            proof {
                seen = seen + 1;
            }
        }
        proof {
            assert(seen == all.len());
            assert(all.take(seen) =~= all);
            assert(self.entries@ =~= all.filter(keep));
        }
    }

    /// Drop every payload that has served nothing for `idle_sweeps_max`
    /// sweeps.
    pub fn expire_idle(&mut self, idle_sweeps_max: u64)
        requires
            old(self).wf(),
        ensures
            final(self).wf(),
            final(self).sweeps == bumped(old(self).sweeps),
            final(self).use_seq == old(self).use_seq,
            final(self).entries@ == swept_since(old(self).entries@, sweep_floor(old(self).sweeps, idle_sweeps_max)),
    {
        self.sweeps = self.sweeps.wrapping_add(1);
        let floor: u64 = self.sweeps.saturating_sub(idle_sweeps_max);
        self.retain(floor, None);
        proof {
            let both = |entry: CachedSegmentPayload| entry.last_use_sweep >= floor && Some(entry.namespace) != None::<u64>;
            let one = |entry: CachedSegmentPayload| entry.last_use_sweep >= floor;
            assert(both =~= one);
        }
    }

    /// Drop every payload cached for `namespace`, crediting its bytes back.
    pub fn evict_namespace(&mut self, namespace: u64)
        requires
            old(self).wf(),
        ensures
            final(self).wf(),
            final(self).entries@ == other_namespaces(old(self).entries@, namespace),
            final(self).use_seq == old(self).use_seq,
            final(self).sweeps == old(self).sweeps,
    {
        self.retain(0, Some(namespace));
        proof {
            let both = |entry: CachedSegmentPayload| entry.last_use_sweep >= 0u64 && Some(entry.namespace) != Some(namespace);
            let one = |entry: CachedSegmentPayload| entry.namespace != namespace;
            assert(both =~= one);
        }
    }

    /// The resident payload under a key, marking it used.
    pub fn get(&mut self, namespace: u64, checksum: u64) -> (found: Option<Rc<Vec<u8>>>)
        requires
            old(self).wf(),
        ensures
            final(self).wf(),
            final(self).use_seq == bumped(old(self).use_seq),
            final(self).sweeps == old(self).sweeps,
            final(self).resident_bytes == old(self).resident_bytes,
            is_cache_read(*old(self), *final(self), namespace, checksum),
            is_found(*old(self), *final(self), namespace, checksum, found),
    {
        self.use_seq = self.use_seq.wrapping_add(1);
        let index: usize = match self.index_of(namespace, checksum) {
            Some(index) => index,
            None => {
                return None;
            },
        };
        let ghost before = self.entries@;
        let payload: Rc<Vec<u8>> = Rc::clone(&self.entries[index].payload);
        let sweeps: u64 = self.sweeps;
        let use_seq: u64 = self.use_seq;
        self.entries[index].last_use = use_seq;
        self.entries[index].last_use_sweep = sweeps;
        proof {
            lemma_total_by_lengths(before, self.entries@);
            assert(self.entries@ =~= before.update(
                index as int,
                CachedSegmentPayload { last_use: use_seq, last_use_sweep: sweeps, ..before[index as int] },
            ));
        }
        Some(payload)
    }

    fn oldest(&self) -> (index: usize)
        requires
            self.entries@.len() > 0,
        ensures
            is_oldest(self.entries@, index as int),
    {
        let mut best: usize = 0;
        let mut i: usize = 1;
        while i < self.entries.len()
            invariant
                best < i <= self.entries@.len(),
                forall|j: int|
                    #![trigger self.entries@[j]]
                    0 <= j < i ==> self.entries@[best as int].last_use <= self.entries@[j].last_use,
            decreases self.entries@.len() - i,
        {
            if self.entries[i].last_use < self.entries[best].last_use {
                best = i;
            }
            i += 1;
        }
        best
    }

    /// Evict least recently used payloads until `incoming` more bytes fit the
    /// budget or nothing is left.
    fn make_room(&mut self, incoming: u64, budget: u64)
        requires
            old(self).wf(),
            total_len(old(self).entries@) + incoming <= u64::MAX,
        ensures
            final(self).wf(),
            final(self).use_seq == old(self).use_seq,
            final(self).sweeps == old(self).sweeps,
            is_trimmed(old(self).entries@, final(self).entries@, incoming as int, budget),
    {
        let ghost all = self.entries@;
        let ghost use_seq = self.use_seq;
        let ghost sweeps = self.sweeps;
        while self.entries.len() > 0 && self.resident_bytes.saturating_add(incoming) > budget
            invariant
                self.wf(),
                self.resident_bytes + incoming <= u64::MAX,
                self.use_seq == use_seq,
                self.sweeps == sweeps,
                forall|left: Seq<CachedSegmentPayload>|
                    #[trigger] is_trimmed(self.entries@, left, incoming as int, budget) ==> is_trimmed(
                        all,
                        left,
                        incoming as int,
                        budget,
                    ),
            decreases self.entries@.len(),
        {
            let ghost before = self.entries@;
            let index: usize = self.oldest();
            let _evicted: CachedSegmentPayload = self.remove_at(index);
            proof {
                lemma_total_remove(before, index as int);
                assert forall|left: Seq<CachedSegmentPayload>| #[trigger]
                    is_trimmed(self.entries@, left, incoming as int, budget) implies is_trimmed(
                    all,
                    left,
                    incoming as int,
                    budget,
                ) by {
                    assert(is_oldest(before, index as int));
                    assert(is_trimmed(before, left, incoming as int, budget));
                }
            }
        }
        proof {
            assert(is_trimmed(self.entries@, self.entries@, incoming as int, budget));
        }
    }

    /// Make `payload` resident under its key, evicting least recently used
    /// payloads until it fits `budget`. A payload larger than the budget still
    /// loads and owns it until it ages out. A replaced payload's bytes are
    /// credited before anything is evicted for them.
    pub fn insert(&mut self, namespace: u64, checksum: u64, payload: Rc<Vec<u8>>, budget: u64)
        requires
            old(self).wf(),
            total_len(old(self).entries@) + payload@.len() <= u64::MAX,
        ensures
            final(self).wf(),
            final(self).use_seq == bumped(old(self).use_seq),
            final(self).sweeps == old(self).sweeps,
            is_insertion(
                old(self).entries@,
                final(self).entries@,
                old(self).stored_as(namespace, checksum, payload),
                budget,
            ),
            holds_payload(final(self).entries@, namespace, checksum, payload),
            final(self).resident_bytes <= budget || final(self).entries@.len() == 1,
    {
        let incoming: u64 = payload.len() as u64;
        let ghost all = self.entries@;
        self.take_out(namespace, checksum);
        let ghost base = self.entries@;
        proof {
            lemma_total_filter(
                all,
                |entry: CachedSegmentPayload| !(entry.namespace == namespace && entry.checksum == checksum),
            );
        }
        self.make_room(incoming, budget);
        let ghost kept = self.entries@;
        proof {
            lemma_kept_has_no_key(all, namespace, checksum, kept, incoming as int, budget);
            lemma_trimmed_total(base, kept, incoming as int, budget);
        }
        self.push_new(namespace, checksum, payload);
        proof {
            let inserted = self.entries@.last();
            assert(self.entries@.drop_last() =~= kept);
            assert(is_insertion(all, self.entries@, inserted, budget));
            law_inserted_payload_is_resident(all, self.entries@, inserted, budget);
            law_insert_respects_the_budget(all, self.entries@, inserted, budget);
        }
    }

    fn take_out(&mut self, namespace: u64, checksum: u64)
        requires
            old(self).wf(),
        ensures
            final(self).wf(),
            final(self).entries@ == other_keys(old(self).entries@, namespace, checksum),
            final(self).use_seq == old(self).use_seq,
            final(self).sweeps == old(self).sweeps,
    {
        let ghost all = self.entries@;
        let ghost other = |entry: CachedSegmentPayload| !(entry.namespace == namespace && entry.checksum == checksum);
        match self.index_of(namespace, checksum) {
            Some(index) => {
                proof {
                    assert forall|j: int| #![trigger all[j]] 0 <= j < all.len() && j != index implies other(all[j]) by {
                        if j < index {
                            assert(cache_key(all[j]) != cache_key(all[index as int]));
                        } else {
                            assert(cache_key(all[index as int]) != cache_key(all[j]));
                        }
                    }
                    lemma_filter_drops_one(all, index as int, other);
                }
                let _replaced: CachedSegmentPayload = self.remove_at(index);
            },
            None => {
                proof {
                    assert forall|j: int| #![trigger all[j]] 0 <= j < all.len() implies other(all[j]) by {
                        assert(cache_key(all[j]) != (namespace, checksum));
                    }
                    lemma_filter_keeps_all(all, other);
                }
            },
        }
    }

    fn push_new(&mut self, namespace: u64, checksum: u64, payload: Rc<Vec<u8>>)
        requires
            old(self).wf(),
            total_len(old(self).entries@) + payload@.len() <= u64::MAX,
            forall|j: int|
                #![trigger old(self).entries@[j]]
                0 <= j < old(self).entries@.len() ==> cache_key(old(self).entries@[j]) != (namespace, checksum),
        ensures
            final(self).wf(),
            final(self).use_seq == bumped(old(self).use_seq),
            final(self).sweeps == old(self).sweeps,
            final(self).entries@ == old(self).entries@.push(
                CachedSegmentPayload {
                    namespace,
                    checksum,
                    payload,
                    last_use: bumped(old(self).use_seq),
                    last_use_sweep: old(self).sweeps,
                },
            ),
    {
        let incoming: u64 = payload.len() as u64;
        self.use_seq = self.use_seq.wrapping_add(1);
        let entry: CachedSegmentPayload = CachedSegmentPayload {
            namespace,
            checksum,
            payload,
            last_use: self.use_seq,
            last_use_sweep: self.sweeps,
        };
        proof {
            lemma_total_push(self.entries@, entry);
        }
        self.entries.push(entry);
        self.resident_bytes = self.resident_bytes.saturating_add(incoming);
    }
}

proof fn lemma_trimmed_total(before: Seq<CachedSegmentPayload>, after: Seq<CachedSegmentPayload>, incoming: int, budget: u64)
    requires
        is_trimmed(before, after, incoming, budget),
    ensures
        total_len(after) <= total_len(before),
        total_len(after) + incoming <= budget || after.len() == 0,
        forall|entry: CachedSegmentPayload| #[trigger] after.contains(entry) ==> before.contains(entry),
    decreases before.len(),
{
    if before.len() > 0 && total_len(before) + incoming > budget {
        let index = choose|index: int|
            #[trigger] is_oldest(before, index) && is_trimmed(before.remove(index), after, incoming, budget);
        let fewer = before.remove(index);
        lemma_total_remove(before, index);
        lemma_trimmed_total(fewer, after, incoming, budget);
        assert forall|entry: CachedSegmentPayload| #[trigger] after.contains(entry) implies before.contains(entry) by {
            let k = choose|k: int| 0 <= k < fewer.len() && fewer[k] == entry;
            assert(before[if k < index {
                k
            } else {
                k + 1
            }] == entry);
        }
    }
}

proof fn lemma_kept_has_no_key(
    all: Seq<CachedSegmentPayload>,
    namespace: u64,
    checksum: u64,
    kept: Seq<CachedSegmentPayload>,
    incoming: int,
    budget: u64,
)
    requires
        is_trimmed(other_keys(all, namespace, checksum), kept, incoming, budget),
    ensures
        forall|j: int| #![trigger kept[j]] 0 <= j < kept.len() ==> cache_key(kept[j]) != (namespace, checksum),
{
    let other = |entry: CachedSegmentPayload| !(entry.namespace == namespace && entry.checksum == checksum);
    let base = other_keys(all, namespace, checksum);
    lemma_filter_is_subsequence(all, other);
    lemma_trimmed_total(base, kept, incoming, budget);
    assert forall|j: int| #![trigger kept[j]] 0 <= j < kept.len() implies cache_key(kept[j]) != (namespace, checksum) by {
        assert(kept.contains(kept[j]));
        let p = choose|p: int| #![trigger base[p]] 0 <= p < base.len() && base[p] == kept[j];
        assert(other(base[p]));
    }
}

/// What an insert made resident is what its key holds, and nothing else
/// is.
pub proof fn law_inserted_payload_is_resident(
    before: Seq<CachedSegmentPayload>,
    after: Seq<CachedSegmentPayload>,
    inserted: CachedSegmentPayload,
    budget: u64,
)
    requires
        is_insertion(before, after, inserted, budget),
    ensures
        holds_payload(after, inserted.namespace, inserted.checksum, inserted.payload),
        forall|payload: Rc<Vec<u8>>|
            #[trigger] holds_payload(after, inserted.namespace, inserted.checksum, payload) ==> payload == inserted.payload,
{
    let kept = after.drop_last();
    lemma_kept_has_no_key(
        before,
        inserted.namespace,
        inserted.checksum,
        kept,
        inserted.payload@.len() as int,
        budget,
    );
    assert(after[kept.len() as int] == inserted);
    assert forall|payload: Rc<Vec<u8>>| #[trigger]
        holds_payload(after, inserted.namespace, inserted.checksum, payload) implies payload == inserted.payload by {
        let index = choose|index: int|
            #![trigger after[index]]
            0 <= index < after.len() && cache_key(after[index]) == (inserted.namespace, inserted.checksum)
                && after[index].payload == payload;
        if index < kept.len() {
            assert(after[index] == kept[index]);
        }
    }
}

/// After an insert the resident bytes fit the budget, unless the new
/// payload alone exceeds it, in which case it is the only one resident.
pub proof fn law_insert_respects_the_budget(
    before: Seq<CachedSegmentPayload>,
    after: Seq<CachedSegmentPayload>,
    inserted: CachedSegmentPayload,
    budget: u64,
)
    requires
        is_insertion(before, after, inserted, budget),
    ensures
        total_len(after) <= budget || after == seq![inserted],
{
    let others = other_keys(before, inserted.namespace, inserted.checksum);
    let kept = after.drop_last();
    lemma_trimmed_total(others, kept, inserted.payload@.len() as int, budget);
    assert(after =~= kept.push(inserted));
    lemma_total_push(kept, inserted);
    if kept.len() == 0 {
        assert(after =~= seq![inserted]);
    }
}

/// An insert that fits evicts nothing.
pub proof fn law_fitting_insert_evicts_nothing(
    before: Seq<CachedSegmentPayload>,
    after: Seq<CachedSegmentPayload>,
    inserted: CachedSegmentPayload,
    budget: u64,
)
    requires
        is_insertion(before, after, inserted, budget),
        total_len(other_keys(before, inserted.namespace, inserted.checksum)) + inserted.payload@.len() <= budget,
    ensures
        after == other_keys(before, inserted.namespace, inserted.checksum).push(inserted),
{
    assert(after =~= after.drop_last().push(inserted));
}

/// What an insert evicted was used no later than anything it kept.
pub proof fn law_insert_evicts_the_oldest(
    before: Seq<CachedSegmentPayload>,
    after: Seq<CachedSegmentPayload>,
    inserted: CachedSegmentPayload,
    budget: u64,
    evicted: CachedSegmentPayload,
    kept: int,
)
    requires
        is_insertion(before, after, inserted, budget),
        other_keys(before, inserted.namespace, inserted.checksum).contains(evicted),
        !after.contains(evicted),
        0 <= kept < after.len() - 1,
    ensures
        evicted.last_use <= after[kept].last_use,
{
    let others = other_keys(before, inserted.namespace, inserted.checksum);
    let left = after.drop_last();
    assert(!left.contains(evicted)) by {
        if left.contains(evicted) {
            let k = choose|k: int| 0 <= k < left.len() && left[k] == evicted;
            assert(after[k] == evicted);
        }
    }
    lemma_trimmed_oldest(others, left, inserted.payload@.len() as int, budget, evicted, kept);
}

proof fn lemma_trimmed_oldest(
    before: Seq<CachedSegmentPayload>,
    after: Seq<CachedSegmentPayload>,
    incoming: int,
    budget: u64,
    evicted: CachedSegmentPayload,
    kept: int,
)
    requires
        is_trimmed(before, after, incoming, budget),
        before.contains(evicted),
        !after.contains(evicted),
        0 <= kept < after.len(),
    ensures
        evicted.last_use <= after[kept].last_use,
    decreases before.len(),
{
    if before.len() > 0 && total_len(before) + incoming > budget {
        let index = choose|index: int|
            #[trigger] is_oldest(before, index) && is_trimmed(before.remove(index), after, incoming, budget);
        let fewer = before.remove(index);
        let gone = choose|gone: int| 0 <= gone < before.len() && before[gone] == evicted;
        if gone == index {
            lemma_trimmed_total(before, after, incoming, budget);
            assert(after.contains(after[kept]));
            let k = choose|k: int| 0 <= k < before.len() && before[k] == after[kept];
            assert(before[index].last_use <= before[k].last_use);
        } else {
            assert(fewer[if gone < index {
                gone
            } else {
                gone - 1
            }] == evicted);
            lemma_trimmed_oldest(fewer, after, incoming, budget, evicted, kept);
        }
    }
}

/// Once a namespace is evicted nothing of it is resident.
pub proof fn law_evicted_namespace_is_gone(entries: Seq<CachedSegmentPayload>, namespace: u64, index: int)
    requires
        0 <= index < other_namespaces(entries, namespace).len(),
    ensures
        other_namespaces(entries, namespace)[index].namespace != namespace,
{
    lemma_filter_is_subsequence(entries, |entry: CachedSegmentPayload| entry.namespace != namespace);
}

/// A payload used within the last `idle_sweeps_max` sweeps survives the
/// next one.
pub proof fn law_recently_used_payload_survives_a_sweep(
    entries: Seq<CachedSegmentPayload>,
    sweeps: u64,
    idle_sweeps_max: u64,
    index: int,
)
    requires
        0 <= index < entries.len(),
        entries[index].last_use_sweep + idle_sweeps_max >= bumped(sweeps),
    ensures
        swept_since(entries, sweep_floor(sweeps, idle_sweeps_max)).contains(entries[index]),
{
    let floor = sweep_floor(sweeps, idle_sweeps_max);
    lemma_filter_is_subsequence(entries, |entry: CachedSegmentPayload| entry.last_use_sweep >= floor);
}

/// A read finds a payload exactly where its key is resident, and it is the one
/// under that key. It counts as a use of that payload, later than every use
/// before it, and touches no other.
pub proof fn law_read_finds_what_is_resident(
    before: ServedSegmentCache,
    after: ServedSegmentCache,
    namespace: u64,
    checksum: u64,
    found: Option<Rc<Vec<u8>>>,
    index: int,
)
    requires
        before.wf(),
        is_found(before, after, namespace, checksum, found),
        0 <= index < before.entries@.len(),
    ensures
        found is None ==> holds_nothing(before.entries@, namespace, checksum) && after.entries@ == before.entries@,
        found is Some ==> holds_payload(before.entries@, namespace, checksum, found->0),
        after.entries@.len() == before.entries@.len(),
        ({
            let own = before.entries@[index].namespace == namespace && before.entries@[index].checksum == checksum;
            let entry = after.entries@[index];
            &&& entry.namespace == before.entries@[index].namespace && entry.checksum == before.entries@[index].checksum
            &&& entry.payload == before.entries@[index].payload
            &&& own ==> found == Some(before.entries@[index].payload)
            &&& own && before.use_seq < u64::MAX ==> entry.last_use == before.use_seq + 1
            &&& own ==> entry.last_use_sweep == before.sweeps
            &&& !own ==> entry == before.entries@[index]
        }),
{
    let _ = before.entries@[index];
    if found is Some {
        let at = choose|at: int|
            #![trigger before.entries@[at]]
            {
                &&& 0 <= at < before.entries@.len()
                &&& cache_key(before.entries@[at]) == (namespace, checksum)
                &&& found->0 == before.entries@[at].payload
                &&& after.entries@ == before.entries@.update(
                    at,
                    CachedSegmentPayload {
                        last_use: bumped(before.use_seq),
                        last_use_sweep: before.sweeps,
                        ..before.entries@[at]
                    },
                )
            };
        if at < index {
            assert(cache_key(before.entries@[at]) != cache_key(before.entries@[index]));
        } else if index < at {
            assert(cache_key(before.entries@[index]) != cache_key(before.entries@[at]));
        }
    }
}

/// A payload that served nothing for so many sweeps is gone with the next one.
pub proof fn law_idle_payload_is_dropped(
    entries: Seq<CachedSegmentPayload>,
    sweeps: u64,
    idle_sweeps_max: u64,
    entry: CachedSegmentPayload,
)
    requires
        entry.last_use_sweep + idle_sweeps_max < bumped(sweeps),
    ensures
        !swept_since(entries, sweep_floor(sweeps, idle_sweeps_max)).contains(entry),
{
    let floor = sweep_floor(sweeps, idle_sweeps_max);
    let kept = swept_since(entries, floor);
    let keep = |entry: CachedSegmentPayload| entry.last_use_sweep >= floor;
    lemma_filter_is_subsequence(entries, keep);
    if kept.contains(entry) {
        let i = kept.index_of(entry);
        assert(keep(kept[i]));
    }
}

/// Evicting a namespace leaves every payload of any other.
pub proof fn law_eviction_spares_other_namespaces(entries: Seq<CachedSegmentPayload>, namespace: u64, index: int)
    requires
        0 <= index < entries.len(),
        entries[index].namespace != namespace,
    ensures
        other_namespaces(entries, namespace).contains(entries[index]),
{
    lemma_filter_is_subsequence(entries, |entry: CachedSegmentPayload| entry.namespace != namespace);
}

/// An insert brings in nothing but its own payload, stamped as used now.
pub proof fn law_insert_adds_one_payload(
    cache: ServedSegmentCache,
    after: Seq<CachedSegmentPayload>,
    namespace: u64,
    checksum: u64,
    payload: Rc<Vec<u8>>,
    budget: u64,
    index: int,
)
    requires
        is_insertion(cache.entries@, after, cache.stored_as(namespace, checksum, payload), budget),
        0 <= index < after.len(),
    ensures
        ({
            let fresh = after.last();
            &&& fresh.namespace == namespace && fresh.checksum == checksum && fresh.payload == payload
            &&& fresh.last_use_sweep == cache.sweeps
            &&& cache.use_seq < u64::MAX ==> fresh.last_use == cache.use_seq + 1
            &&& index < after.len() - 1 ==> cache.entries@.contains(after[index]) && cache_key(after[index]) != (namespace, checksum)
        }),
{
    let inserted = cache.stored_as(namespace, checksum, payload);
    let kept = after.drop_last();
    let others = other_keys(cache.entries@, namespace, checksum);
    if index < kept.len() {
        lemma_kept_has_no_key(cache.entries@, namespace, checksum, kept, payload@.len() as int, budget);
        lemma_trimmed_total(others, kept, payload@.len() as int, budget);
        assert(kept[index] == after[index]);
        assert(kept.contains(kept[index]));
        let k = choose|k: int| 0 <= k < others.len() && others[k] == kept[index];
        lemma_filter_is_subsequence(
            cache.entries@,
            |entry: CachedSegmentPayload| !(entry.namespace == namespace && entry.checksum == checksum),
        );
        let j = choose|j: int| #![trigger cache.entries@[j]] 0 <= j < cache.entries@.len() && cache.entries@[j] == others[k];
        assert(cache.entries@[j] == after[index]);
    }
}

/// The resident bytes are those of every payload.
pub proof fn law_resident_bytes_add_up(entries: Seq<CachedSegmentPayload>, entry: CachedSegmentPayload, index: int)
    ensures
        total_len(entries.push(entry)) == total_len(entries) + entry.payload@.len(),
        0 <= index < entries.len() ==> total_len(entries.remove(index)) + entries[index].payload@.len() == total_len(entries),
        total_len(Seq::<CachedSegmentPayload>::empty()) == 0,
{
    lemma_total_push(entries, entry);
    if 0 <= index < entries.len() {
        lemma_total_remove(entries, index);
    }
}

} // verus!
