//! The single-shard cache: a set-associative index over a circular log.
//!
//! `insert` makes a key present (possibly evicting the oldest record),
//! `get` reads through the fingerprint index without comparing stored keys,
//! and `invalid` clears a key's index slot. Every operation's outcome is
//! pinned to the model transition functions of [`crate::model`].

use vstd::prelude::*;
use crate::hash::hash_key;
use crate::kv::LogItem;
use crate::log::Log;
use crate::model::{
    cache_probe, cache_wf, empty_model, finger_of, lemma_eviction_clears_head,
    lemma_insert_preserves_wf, lemma_invalidate_preserves_wf, lemma_next_slot_in_range,
    lemma_probe_from_some, next_slot_model, set_index_of, spec_get, spec_insert,
    spec_invalidate, CacheModel,
};
use crate::set::{mask_bit, CacheSet};
use crate::utils::{lemma_pow2_mask, lemma_pow2_pos, spec_is_pow2};
use crate::SIMD_SIZE;

verus! {

/// The internal structure of the cache: the associative sets, the circular
/// log, the two index masks, and the log's write head.
pub struct InnerCache<V> {
    pub sets: Vec<CacheSet>,
    pub log: Log<V>,
    pub set_mask: usize,
    pub log_mask: usize,
    pub log_head: usize,
}

impl<V> View for InnerCache<V> {
    type V = CacheModel<V>;

    open spec fn view(&self) -> CacheModel<V> {
        CacheModel {
            sets: Seq::new(self.sets@.len(), |s: int| self.sets@[s]@),
            log: self.log@,
            head: self.log_head as int,
        }
    }
}

impl<V> InnerCache<V> {
    /// Structural well-formedness of the representation: both capacities are
    /// powers of two, the masks match them, the head is in range, and every
    /// set is well-formed.
    pub open spec fn wf(&self) -> bool {
        &&& spec_is_pow2(self.sets@.len() as int)
        &&& spec_is_pow2(self.log.entries@.len() as int)
        &&& self.set_mask == self.sets@.len() - 1
        &&& self.log_mask == self.log.entries@.len() - 1
        &&& self.log_head < self.log.entries@.len()
        &&& forall|s: int| 0 <= s < self.sets@.len() ==> (#[trigger] self.sets@[s]).wf()
    }

    /// The full invariant: the representation is well-formed and so is the
    /// model it denotes.
    pub open spec fn inv(&self) -> bool {
        &&& self.wf()
        &&& cache_wf(self@)
    }

    /// A fresh cache with `set_count` empty sets and `log_size` unwritten
    /// log positions. Both counts must be powers of two so that masking
    /// reduces a hash modulo the count.
    pub fn new(log_size: usize, set_count: usize) -> (r: Self)
        requires
            spec_is_pow2(log_size as int),
            spec_is_pow2(set_count as int),
        ensures
            r.inv(),
            r@ == empty_model::<V>(set_count as int, log_size as int),
    {
        proof {
            lemma_pow2_pos(log_size as int);
            lemma_pow2_pos(set_count as int);
        }
        let bkt_mask = set_count - 1;
        let log_mask = log_size - 1;
        let mut sets: Vec<CacheSet> = Vec::new();
        let mut i: usize = 0;
        while i < set_count
            invariant
                i <= set_count,
                sets@.len() == i,
                forall|s: int|
                    0 <= s < i ==> (#[trigger] sets@[s]).wf() && sets@[s]@
                        == crate::model::empty_set_model(),
            decreases set_count - i,
        {
            sets.push(CacheSet::new());
            i += 1;
        }
        let r = InnerCache {
            sets,
            log: Log::new(log_size),
            set_mask: bkt_mask,
            log_mask,
            log_head: 0,
        };
        proof {
            assert(r@.sets =~= empty_model::<V>(set_count as int, log_size as int).sets);
            assert(r@.log =~= empty_model::<V>(set_count as int, log_size as int).log);
            assert(r@ =~= empty_model::<V>(set_count as int, log_size as int));
        }
        r
    }

    /// The index of the set a hash belongs to: the hash masked down to the
    /// set count, which equals reduction modulo the set count.
    pub fn extract_set(&self, key: u64) -> (r: usize)
        requires
            self.wf(),
        ensures
            r < self.sets@.len(),
            r as int == key as int % (self.sets@.len() as int),
    {
        proof {
            lemma_pow2_pos(self.sets@.len() as int);
            let n = self.sets@.len() as u64;
            lemma_pow2_mask(key, n);
            assert((self.set_mask as u64) == (n - 1) as u64);
            assert(key & (self.set_mask as u64) == key % n);
        }
        (key & (self.set_mask as u64)) as usize
    }

    /// The fingerprint a hash yields: its low 8 bits.
    pub fn extract_finger(&self, key: u64) -> (r: u8)
        ensures
            r == (key & 0xff) as u8,
    {
        (key & 0xff) as u8
    }

    /// Probes the cache for a key: the key's set index and fingerprint, and
    /// the hit slot if the key's set holds the fingerprint.
    pub fn probe(&self, key: u64) -> (r: (usize, u8, Option<usize>))
        requires
            self.inv(),
        ensures
            r.0 < self.sets@.len(),
            r.0 as int == set_index_of(self@, key),
            r.1 == finger_of(key),
            (match r.2 {
                Some(i) => i < SIMD_SIZE && cache_probe(self@, key) == Some(i as int),
                None => cache_probe(self@, key) is None,
            }),
    {
        let key_hash = hash_key(key);
        let set = self.extract_set(key_hash);
        let finger = self.extract_finger(key_hash);
        (set, finger, self.sets[set].probe(finger))
    }

    /// Invalidates the entry associated with `key`: the probed slot, if any,
    /// loses its valid bit. The log is untouched.
    pub fn invalid(&mut self, key: u64)
        requires
            old(self).inv(),
        ensures
            final(self).inv(),
            final(self)@ == spec_invalidate(old(self)@, key),
    {
        let (set, _finger, way) = self.probe(key);
        match way {
            None => {
                proof {
                    assert(final(self)@ =~= spec_invalidate(old(self)@, key));
                }
            },
            Some(slot) => {
                let s_ref = &mut self.sets[set];
                s_ref.set_valid(slot, false);
                proof {
                    let m = old(self)@;
                    let sk = set_index_of(m, key);
                    let i = cache_probe(m, key)->0;
                    assert(final(self)@.sets =~= spec_invalidate(m, key).sets);
                    assert(final(self)@.log =~= spec_invalidate(m, key).log);
                    assert(final(self)@ =~= spec_invalidate(m, key));
                    lemma_invalidate_preserves_wf(m, key);
                }
            },
        }
    }

    /// Inserts a record. On a probe hit the record replaces the one at the
    /// hit slot's log position in place. On a miss the key resident at the
    /// head position is invalidated, a slot of the record's set is claimed,
    /// the record is appended at the head, and the head advances.
    pub fn insert(&mut self, item: LogItem<V>)
        requires
            old(self).inv(),
        ensures
            final(self).inv(),
            final(self)@ == spec_insert(old(self)@, item.key, item.value),
    {
        let ghost m = old(self)@;
        let (set, finger, way) = self.probe(item.key);
        let ghost key = item.key;
        let ghost value = item.value;
        proof {
            lemma_insert_preserves_wf(m, key, value);
        }
        match way {
            None => {
                let log_head = self.log_head;
                let old_key: Option<u64> = match &self.log.entries[log_head] {
                    Some(e) => Some(e.key),
                    None => None,
                };
                match old_key {
                    Some(victim) => {
                        self.invalid(victim);
                    },
                    None => {},
                }
                proof {
                    lemma_eviction_clears_head(m);
                    assert(self@ =~= crate::model::evicted_state(m));
                }
                let ghost m1 = crate::model::evicted_state(m);
                let s_ref = &mut self.sets[set];
                let slot = s_ref.next_slot();
                s_ref.set_finger(slot, finger);
                s_ref.set_valid(slot, true);
                s_ref.set_pointer(slot, log_head);
                self.log.entries.set(log_head, Some(item));
                proof {
                    lemma_pow2_pos(self.log.entries@.len() as int);
                    assert(self.log.entries.len() == self.log.entries@.len());
                    assert(log_head < self.log.entries@.len());
                }
                self.log_head = (log_head + 1) % self.log.entries.len();
                proof {
                    let m2 = spec_insert(m, key, value);
                    let sk = set_index_of(m, key);
                    let j = next_slot_model(m1.sets[sk]);
                    lemma_next_slot_in_range(m1.sets[sk]);
                    assert(self@.sets[sk].slots =~= m2.sets[sk].slots);
                    assert(self@.sets[sk] =~= m2.sets[sk]);
                    assert(self@.sets =~= m2.sets);
                    assert(self@.log =~= m2.log);
                    assert(self@ =~= m2);
                }
            },
            Some(slot) => {
                let pointer = self.sets[set].pointers[slot];
                proof {
                    lemma_probe_from_some(m.sets[set as int], finger_of(key), 0, slot as int);
                }
                self.log.entries.set(pointer, Some(item));
                proof {
                    let m2 = spec_insert(m, key, value);
                    assert(self@.sets =~= m2.sets);
                    assert(self@.log =~= m2.log);
                    assert(self@ =~= m2);
                }
            },
        }
    }

    /// Looks a key up: the value stored at the probed slot's log position.
    /// The fingerprint is trusted, so a colliding key's value may be
    /// returned; no stored key is compared.
    pub fn get(&self, key: u64) -> (r: Option<&V>)
        requires
            self.inv(),
        ensures
            (match r {
                Some(v) => spec_get(self@, key) == Some(*v),
                None => spec_get(self@, key) is None,
            }),
    {
        let (set, _finger, way) = self.probe(key);
        match way {
            Some(slot) => {
                proof {
                    lemma_probe_from_some(self@.sets[set as int], finger_of(key), 0, slot as int);
                    let mval = self.sets@[set as int].valid_mask;
                    let su = slot as u16;
                    assert(mask_bit(mval, slot as int));
                    assert((mval >> su) & 1u16 == 1u16);
                    assert(mval & (1u16 << su) != 0u16) by (bit_vector)
                        requires
                            (mval >> su) & 1u16 == 1u16,
                            su < 16u16,
                    ;
                }
                if (self.sets[set].valid_mask & (1u16 << (slot as u16))) == 0u16 {
                    return None;
                }
                let log_pos = self.sets[set].pointers[slot];
                match &self.log.entries[log_pos] {
                    Some(item) => Some(&item.value),
                    None => None,
                }
            },
            None => None,
        }
    }
}

/// The single-shard cache. It composes the associative index and the
/// circular log and exposes the insert / get / invalidate protocol; every
/// outcome is pinned to the model transitions of [`crate::model`].
pub struct CacheTable<V> {
    pub inner: InnerCache<V>,
}

impl<V> View for CacheTable<V> {
    type V = CacheModel<V>;

    open spec fn view(&self) -> CacheModel<V> {
        self.inner@
    }
}

impl<V> CacheTable<V> {
    /// The cache's invariant: that of its inner structure.
    pub open spec fn inv(&self) -> bool {
        self.inner.inv()
    }

    /// A fresh cache with `set_count` sets and room for `log_size` records.
    /// Both counts must be powers of two.
    pub fn new(log_size: usize, set_count: usize) -> (r: Self)
        requires
            spec_is_pow2(log_size as int),
            spec_is_pow2(set_count as int),
        ensures
            r.inv(),
            r@ == empty_model::<V>(set_count as int, log_size as int),
    {
        CacheTable { inner: InnerCache::new(log_size, set_count) }
    }

    /// Makes `key` map to `value`, subject to capacity: on a miss the
    /// oldest record is silently evicted. Never fails.
    pub fn insert(&mut self, key: u64, value: V)
        requires
            old(self).inv(),
        ensures
            final(self).inv(),
            final(self)@ == spec_insert(old(self)@, key, value),
    {
        let item = LogItem::new(key, value);
        self.inner.insert(item);
    }

    /// Returns the record the fingerprint index holds for `key`, or nothing
    /// when the key's set carries no matching live fingerprint.
    pub fn get(&self, key: u64) -> (r: Option<&V>)
        requires
            self.inv(),
        ensures
            (match r {
                Some(v) => spec_get(self@, key) == Some(*v),
                None => spec_get(self@, key) is None,
            }),
    {
        self.inner.get(key)
    }

    /// Marks `key` absent if present; otherwise does nothing. Never fails.
    pub fn invalid(&mut self, key: u64)
        requires
            old(self).inv(),
        ensures
            final(self).inv(),
            final(self)@ == spec_invalidate(old(self)@, key),
    {
        self.inner.invalid(key);
    }
}

} // verus!
