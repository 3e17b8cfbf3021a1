//! The mathematical model of the cache: a sequence of associative sets whose
//! slots carry fingerprints and log positions, overlaid on a circular log of
//! key-value records. All public contracts of the cache speak in terms of
//! this model.

use vstd::prelude::*;
use crate::hash::key_hash;
use crate::SIMD_SIZE;

verus! {

/// One index slot: a valid bit, an 8-bit fingerprint of the owning key's
/// hash, and the log position the slot refers to.
pub ghost struct SlotModel {
    pub valid: bool,
    pub finger: u8,
    pub pointer: int,
}

/// One associative set: `SIMD_SIZE` slots and the round-robin cursor used
/// when every slot is occupied.
#[verifier::ext_equal]
pub ghost struct SetModel {
    pub slots: Seq<SlotModel>,
    pub next: int,
}

/// One record of the circular log.
pub ghost struct EntryModel<V> {
    pub key: u64,
    pub value: V,
}

/// The whole cache: the sets, the log, and the log's write head.
#[verifier::ext_equal]
pub ghost struct CacheModel<V> {
    pub sets: Seq<SetModel>,
    pub log: Seq<Option<EntryModel<V>>>,
    pub head: int,
}

/// True when slot `i` of `s` is a live reference carrying fingerprint `f`.
pub open spec fn slot_matches(s: SetModel, f: u8, i: int) -> bool {
    &&& 0 <= i < SIMD_SIZE
    &&& s.slots[i].valid
    &&& s.slots[i].finger == f
}

/// The lowest slot index at or above `i` whose slot is live with
/// fingerprint `f`, if any.
pub open spec fn probe_from(s: SetModel, f: u8, i: int) -> Option<int>
    decreases SIMD_SIZE - i,
{
    if i < 0 || i >= SIMD_SIZE {
        None
    } else if s.slots[i].valid && s.slots[i].finger == f {
        Some(i)
    } else {
        probe_from(s, f, i + 1)
    }
}

/// The slot a probe of set `s` for fingerprint `f` yields: the lowest live
/// slot carrying `f`, or none.
pub open spec fn probe_model(s: SetModel, f: u8) -> Option<int> {
    probe_from(s, f, 0)
}

/// The lowest free (invalid) slot index at or above `i`, if any.
pub open spec fn free_from(s: SetModel, i: int) -> Option<int>
    decreases SIMD_SIZE - i,
{
    if i < 0 || i >= SIMD_SIZE {
        None
    } else if !s.slots[i].valid {
        Some(i)
    } else {
        free_from(s, i + 1)
    }
}

/// True when every slot of the set is live.
pub open spec fn set_full(s: SetModel) -> bool {
    free_from(s, 0) is None
}

/// The slot an insertion into `s` claims: the lowest free slot, or the
/// round-robin cursor when the set is full.
pub open spec fn next_slot_model(s: SetModel) -> int {
    match free_from(s, 0) {
        Some(j) => j,
        None => s.next,
    }
}

/// The set a key belongs to: the key's hash reduced modulo the set count.
pub open spec fn set_index_of<V>(m: CacheModel<V>, key: u64) -> int {
    key_hash(key) as int % (m.sets.len() as int)
}

/// The fingerprint stored for a key: the low 8 bits of the key's hash.
pub open spec fn finger_of(key: u64) -> u8 {
    (key_hash(key) & 0xff) as u8
}

/// The probe of the whole cache for `key`: a slot of the key's set, if any.
pub open spec fn cache_probe<V>(m: CacheModel<V>, key: u64) -> Option<int> {
    probe_model(m.sets[set_index_of(m, key)], finger_of(key))
}

/// What a lookup of `key` returns: the value stored at the probed slot's log
/// position. The fingerprint is trusted: the stored key is not compared.
pub open spec fn spec_get<V>(m: CacheModel<V>, key: u64) -> Option<V> {
    match cache_probe(m, key) {
        Some(i) => {
            let p = m.sets[set_index_of(m, key)].slots[i].pointer;
            match m.log[p] {
                Some(e) => Some(e.value),
                None => None,
            }
        },
        None => None,
    }
}

/// The set `s` with the valid bit of slot `i` cleared.
pub open spec fn clear_slot(s: SetModel, i: int) -> SetModel {
    SetModel {
        slots: s.slots.update(
            i,
            SlotModel { valid: false, ..s.slots[i] },
        ),
        next: s.next,
    }
}

/// What invalidation of `key` leaves behind: the probed slot, if any, loses
/// its valid bit; the log is untouched.
pub open spec fn spec_invalidate<V>(m: CacheModel<V>, key: u64) -> CacheModel<V> {
    let s = set_index_of(m, key);
    match probe_model(m.sets[s], finger_of(key)) {
        Some(i) => CacheModel { sets: m.sets.update(s, clear_slot(m.sets[s], i)), ..m },
        None => m,
    }
}

/// What an insertion of `key -> value` leaves behind.
///
/// On a probe hit the record is rewritten in place at the hit slot's log
/// position; no set changes and the head does not move. On a miss the record
/// is appended at the head: the key previously resident there (if any) is
/// invalidated first, a slot of the key's set is claimed, and the head
/// advances by one modulo the log's capacity.
pub open spec fn spec_insert<V>(m: CacheModel<V>, key: u64, value: V) -> CacheModel<V> {
    let s = set_index_of(m, key);
    let f = finger_of(key);
    match probe_model(m.sets[s], f) {
        Some(i) => {
            let p = m.sets[s].slots[i].pointer;
            CacheModel { log: m.log.update(p, Some(EntryModel { key, value })), ..m }
        },
        None => {
            let p = m.head;
            let m1 = match m.log[p] {
                Some(e) => spec_invalidate(m, e.key),
                None => m,
            };
            let old_set = m1.sets[s];
            let j = next_slot_model(old_set);
            let new_set = SetModel {
                slots: old_set.slots.update(
                    j,
                    SlotModel { valid: true, finger: f, pointer: p },
                ),
                next: if set_full(old_set) {
                    (old_set.next + 1) % (SIMD_SIZE as int)
                } else {
                    old_set.next
                },
            };
            CacheModel {
                sets: m1.sets.update(s, new_set),
                log: m1.log.update(p, Some(EntryModel { key, value })),
                head: (p + 1) % (m.log.len() as int),
            }
        },
    }
}

/// Structural well-formedness of one set.
pub open spec fn set_wf(s: SetModel) -> bool {
    &&& s.slots.len() == SIMD_SIZE
    &&& 0 <= s.next < SIMD_SIZE
}

/// Every live slot refers to a written log position whose record's key
/// hashes to that very set and fingerprint. This is what keeps the index
/// and the log coherent.
pub open spec fn coherent<V>(m: CacheModel<V>) -> bool {
    forall|s: int, i: int|
        0 <= s < m.sets.len() && 0 <= i < SIMD_SIZE && (#[trigger] m.sets[s].slots[i]).valid
            ==> {
            let p = m.sets[s].slots[i].pointer;
            &&& 0 <= p < m.log.len()
            &&& m.log[p] is Some
            &&& set_index_of(m, m.log[p]->0.key) == s
            &&& finger_of(m.log[p]->0.key) == m.sets[s].slots[i].finger
        }
}

/// No two live slots refer to the same log position.
pub open spec fn pointers_unique<V>(m: CacheModel<V>) -> bool {
    forall|s1: int, i1: int, s2: int, i2: int|
        0 <= s1 < m.sets.len() && 0 <= i1 < SIMD_SIZE && 0 <= s2 < m.sets.len() && 0 <= i2
            < SIMD_SIZE && (#[trigger] m.sets[s1].slots[i1]).valid
            && (#[trigger] m.sets[s2].slots[i2]).valid && m.sets[s1].slots[i1].pointer
            == m.sets[s2].slots[i2].pointer ==> s1 == s2 && i1 == i2
}

/// Within one set, no two live slots carry the same fingerprint.
pub open spec fn fingers_distinct<V>(m: CacheModel<V>) -> bool {
    forall|s: int, i1: int, i2: int|
        0 <= s < m.sets.len() && 0 <= i1 < SIMD_SIZE && 0 <= i2 < SIMD_SIZE && (
        #[trigger] m.sets[s].slots[i1]).valid && (#[trigger] m.sets[s].slots[i2]).valid
            && m.sets[s].slots[i1].finger == m.sets[s].slots[i2].finger ==> i1 == i2
}

/// Well-formedness of the whole cache model; established at construction and
/// preserved by every operation.
pub open spec fn cache_wf<V>(m: CacheModel<V>) -> bool {
    &&& m.sets.len() >= 1
    &&& m.log.len() >= 1
    &&& 0 <= m.head < m.log.len()
    &&& forall|s: int| 0 <= s < m.sets.len() ==> set_wf(#[trigger] m.sets[s])
    &&& coherent(m)
    &&& pointers_unique(m)
    &&& fingers_distinct(m)
}

/// A successful scan yields the lowest matching slot at or above its start.
pub proof fn lemma_probe_from_some(s: SetModel, f: u8, lo: int, i: int)
    requires
        probe_from(s, f, lo) == Some(i),
    ensures
        lo <= i < SIMD_SIZE,
        slot_matches(s, f, i),
        forall|j: int| lo <= j < i ==> !slot_matches(s, f, j),
    decreases SIMD_SIZE - lo,
{
    if 0 <= lo < SIMD_SIZE && !(s.slots[lo].valid && s.slots[lo].finger == f) {
        lemma_probe_from_some(s, f, lo + 1, i);
    }
}

/// A failed scan means no slot at or above its start matches.
pub proof fn lemma_probe_from_none(s: SetModel, f: u8, lo: int)
    requires
        0 <= lo,
        probe_from(s, f, lo) is None,
    ensures
        forall|j: int| lo <= j ==> !slot_matches(s, f, j),
    decreases SIMD_SIZE - lo,
{
    if lo < SIMD_SIZE {
        lemma_probe_from_none(s, f, lo + 1);
    }
}

/// If some slot at or above `lo` matches, the scan from `lo` succeeds.
pub proof fn lemma_probe_from_finds(s: SetModel, f: u8, lo: int, i: int)
    requires
        0 <= lo <= i,
        slot_matches(s, f, i),
    ensures
        probe_from(s, f, lo) is Some,
    decreases SIMD_SIZE - lo,
{
    if lo < i && (!(s.slots[lo].valid && s.slots[lo].finger == f)) {
        lemma_probe_from_finds(s, f, lo + 1, i);
    }
}

/// A successful free-slot scan yields a free slot at or above its start.
pub proof fn lemma_free_from_some(s: SetModel, lo: int, j: int)
    requires
        free_from(s, lo) == Some(j),
    ensures
        lo <= j < SIMD_SIZE,
        !s.slots[j].valid,
    decreases SIMD_SIZE - lo,
{
    if 0 <= lo < SIMD_SIZE && s.slots[lo].valid {
        lemma_free_from_some(s, lo + 1, j);
    }
}

/// The claimed slot of a well-formed set is always in range, and is free
/// whenever the set is not full.
pub proof fn lemma_next_slot_in_range(s: SetModel)
    requires
        set_wf(s),
    ensures
        0 <= next_slot_model(s) < SIMD_SIZE,
        !set_full(s) ==> !s.slots[next_slot_model(s)].valid,
{
    match free_from(s, 0) {
        Some(j) => lemma_free_from_some(s, 0, j),
        None => {},
    }
}

/// Invalidation preserves well-formedness; it leaves the log, the head, and
/// the set count alone, and no slot gains validity.
pub proof fn lemma_invalidate_preserves_wf<V>(m: CacheModel<V>, key: u64)
    requires
        cache_wf(m),
    ensures
        cache_wf(spec_invalidate(m, key)),
        spec_invalidate(m, key).log == m.log,
        spec_invalidate(m, key).head == m.head,
        spec_invalidate(m, key).sets.len() == m.sets.len(),
        forall|s: int, i: int|
            0 <= s < m.sets.len() && 0 <= i < SIMD_SIZE
                ==> ((#[trigger] spec_invalidate(m, key).sets[s].slots[i]).valid
                    ==> spec_invalidate(m, key).sets[s].slots[i] == m.sets[s].slots[i]
                    && m.sets[s].slots[i].valid),
        forall|s: int|
            0 <= s < m.sets.len() ==> (#[trigger] spec_invalidate(m, key).sets[s]).next
                == m.sets[s].next,
{
    let sk = set_index_of(m, key);
    let f = finger_of(key);
    let m2 = spec_invalidate(m, key);
    match probe_model(m.sets[sk], f) {
        Some(i) => {
            lemma_probe_from_some(m.sets[sk], f, 0, i);
            assert forall|s: int, i2: int|
                0 <= s < m.sets.len() && 0 <= i2 < SIMD_SIZE && (
            #[trigger] m2.sets[s].slots[i2]).valid implies m2.sets[s].slots[i2]
                == m.sets[s].slots[i2] && m.sets[s].slots[i2].valid by {
                if s == sk && i2 == i {
                    assert(!m2.sets[s].slots[i2].valid);
                }
            }
            assert(cache_wf(m2));
        },
        None => {},
    }
}

/// The state the miss path of an insertion works on: the state after the
/// key resident at the head position, if any, has been invalidated.
pub open spec fn evicted_state<V>(m: CacheModel<V>) -> CacheModel<V> {
    match m.log[m.head] {
        Some(e) => spec_invalidate(m, e.key),
        None => m,
    }
}

/// Eviction fidelity: after the miss path's invalidation step, no live slot
/// refers to the log position about to be overwritten.
pub proof fn lemma_eviction_clears_head<V>(m: CacheModel<V>)
    requires
        cache_wf(m),
    ensures
        cache_wf(evicted_state(m)),
        evicted_state(m).log == m.log,
        evicted_state(m).head == m.head,
        evicted_state(m).sets.len() == m.sets.len(),
        forall|s: int, i: int|
            0 <= s < m.sets.len() && 0 <= i < SIMD_SIZE
                ==> ((#[trigger] evicted_state(m).sets[s].slots[i]).valid
                    ==> evicted_state(m).sets[s].slots[i] == m.sets[s].slots[i]
                    && m.sets[s].slots[i].valid),
        forall|s: int|
            0 <= s < m.sets.len() ==> (#[trigger] evicted_state(m).sets[s]).next
                == m.sets[s].next,
        forall|s: int, i: int|
            0 <= s < m.sets.len() && 0 <= i < SIMD_SIZE
                && (#[trigger] evicted_state(m).sets[s].slots[i]).valid
                ==> evicted_state(m).sets[s].slots[i].pointer != m.head,
{
    let m1 = evicted_state(m);
    match m.log[m.head] {
        Some(e) => {
            lemma_invalidate_preserves_wf(m, e.key);
            let se = set_index_of(m, e.key);
            let fe = finger_of(e.key);
            assert forall|s: int, i: int|
                0 <= s < m.sets.len() && 0 <= i < SIMD_SIZE && (
            #[trigger] m1.sets[s].slots[i]).valid implies m1.sets[s].slots[i].pointer
                != m.head by {
                if m1.sets[s].slots[i].pointer == m.head {
                    assert(m.sets[s].slots[i].valid);
                    assert(m.sets[s].slots[i].pointer == m.head);
                    assert(s == se && m.sets[s].slots[i].finger == fe);
                    lemma_probe_from_finds(m.sets[se], fe, 0, i);
                    let i0 = probe_model(m.sets[se], fe)->0;
                    lemma_probe_from_some(m.sets[se], fe, 0, i0);
                    assert(i0 == i);
                    assert(!m1.sets[se].slots[i].valid);
                }
            }
        },
        None => {},
    }
}

/// Insertion preserves well-formedness and keeps the set count and log
/// capacity fixed.
pub proof fn lemma_insert_preserves_wf<V>(m: CacheModel<V>, key: u64, value: V)
    requires
        cache_wf(m),
    ensures
        cache_wf(spec_insert(m, key, value)),
        spec_insert(m, key, value).sets.len() == m.sets.len(),
        spec_insert(m, key, value).log.len() == m.log.len(),
{
    let sk = set_index_of(m, key);
    let f = finger_of(key);
    let m2 = spec_insert(m, key, value);
    match probe_model(m.sets[sk], f) {
        Some(i) => {
            lemma_probe_from_some(m.sets[sk], f, 0, i);
            let p = m.sets[sk].slots[i].pointer;
            assert forall|s: int, i2: int|
                0 <= s < m2.sets.len() && 0 <= i2 < SIMD_SIZE && (
            #[trigger] m2.sets[s].slots[i2]).valid implies {
                let q = m2.sets[s].slots[i2].pointer;
                &&& 0 <= q < m2.log.len()
                &&& m2.log[q] is Some
                &&& set_index_of(m2, m2.log[q]->0.key) == s
                &&& finger_of(m2.log[q]->0.key) == m2.sets[s].slots[i2].finger
            } by {
                let q = m2.sets[s].slots[i2].pointer;
                if q == p {
                    assert(s == sk && i2 == i);
                }
            }
            assert(cache_wf(m2));
        },
        None => {
            lemma_probe_from_none(m.sets[sk], f, 0);
            lemma_eviction_clears_head(m);
            let m1 = evicted_state(m);
            let p = m.head;
            let old_set = m1.sets[sk];
            let j = next_slot_model(old_set);
            lemma_next_slot_in_range(old_set);
            assert(set_wf(m2.sets[sk]));
            // Coherence of every live slot of the new state.
            assert forall|s: int, i2: int|
                0 <= s < m2.sets.len() && 0 <= i2 < SIMD_SIZE && (
            #[trigger] m2.sets[s].slots[i2]).valid implies {
                let q = m2.sets[s].slots[i2].pointer;
                &&& 0 <= q < m2.log.len()
                &&& m2.log[q] is Some
                &&& set_index_of(m2, m2.log[q]->0.key) == s
                &&& finger_of(m2.log[q]->0.key) == m2.sets[s].slots[i2].finger
            } by {
                if s == sk && i2 == j {
                    assert(m2.log[p] == Some(EntryModel { key, value }));
                } else {
                    assert(m2.sets[s].slots[i2] == m1.sets[s].slots[i2]);
                    assert(m1.sets[s].slots[i2].pointer != p);
                }
            }
            // No two live slots share a log position.
            assert forall|s1: int, i1: int, s2: int, i2: int|
                0 <= s1 < m2.sets.len() && 0 <= i1 < SIMD_SIZE && 0 <= s2 < m2.sets.len() && 0
                <= i2 < SIMD_SIZE && (#[trigger] m2.sets[s1].slots[i1]).valid && (
            #[trigger] m2.sets[s2].slots[i2]).valid && m2.sets[s1].slots[i1].pointer
                == m2.sets[s2].slots[i2].pointer implies s1 == s2 && i1 == i2 by {
                let one_new = s1 == sk && i1 == j;
                let two_new = s2 == sk && i2 == j;
                if one_new && !two_new {
                    assert(m1.sets[s2].slots[i2].pointer != p);
                } else if !one_new && two_new {
                    assert(m1.sets[s1].slots[i1].pointer != p);
                }
            }
            // Fingerprints stay distinct within the touched set.
            assert forall|s: int, i1: int, i2: int|
                0 <= s < m2.sets.len() && 0 <= i1 < SIMD_SIZE && 0 <= i2 < SIMD_SIZE && (
            #[trigger] m2.sets[s].slots[i1]).valid && (#[trigger] m2.sets[s].slots[i2]).valid
                && m2.sets[s].slots[i1].finger == m2.sets[s].slots[i2].finger implies i1
                == i2 by {
                if s == sk && i1 == j && i2 != j {
                    assert(m1.sets[s].slots[i2] == m.sets[s].slots[i2]);
                    assert(!slot_matches(m.sets[sk], f, i2));
                } else if s == sk && i2 == j && i1 != j {
                    assert(m1.sets[s].slots[i1] == m.sets[s].slots[i1]);
                    assert(!slot_matches(m.sets[sk], f, i1));
                }
            }
            assert(cache_wf(m2));
        },
    }
}

/// Right after an insertion of `key`, probing for `key` hits a slot that
/// refers to the freshly written record.
pub proof fn lemma_insert_hits_itself<V>(m: CacheModel<V>, key: u64, value: V)
    requires
        cache_wf(m),
    ensures
        ({
            let m2 = spec_insert(m, key, value);
            &&& cache_probe(m2, key) is Some
            &&& 0 <= cache_probe(m2, key)->0 < SIMD_SIZE
            &&& m2.log[m2.sets[set_index_of(m2, key)].slots[cache_probe(m2, key)->0].pointer]
                == Some(EntryModel { key, value })
        }),
{
    let sk = set_index_of(m, key);
    let f = finger_of(key);
    let m2 = spec_insert(m, key, value);
    assert(set_index_of(m2, key) == sk);
    match probe_model(m.sets[sk], f) {
        Some(i) => {
            lemma_probe_from_some(m.sets[sk], f, 0, i);
            assert(m2.sets == m.sets);
            let p = m.sets[sk].slots[i].pointer;
            assert(m2.log[p] == Some(EntryModel { key, value }));
        },
        None => {
            lemma_probe_from_none(m.sets[sk], f, 0);
            lemma_eviction_clears_head(m);
            let m1 = evicted_state(m);
            let p = m.head;
            let j = next_slot_model(m1.sets[sk]);
            lemma_next_slot_in_range(m1.sets[sk]);
            assert(slot_matches(m2.sets[sk], f, j));
            lemma_probe_from_finds(m2.sets[sk], f, 0, j);
            let i0 = probe_model(m2.sets[sk], f)->0;
            lemma_probe_from_some(m2.sets[sk], f, 0, i0);
            if i0 != j {
                assert(m2.sets[sk].slots[i0] == m1.sets[sk].slots[i0]);
                assert(m1.sets[sk].slots[i0] == m.sets[sk].slots[i0]);
                assert(slot_matches(m.sets[sk], f, i0));
            }
            assert(i0 == j);
            assert(m2.sets[sk].slots[j].pointer == p);
            assert(m2.log[p] == Some(EntryModel { key, value }));
        },
    }
}

/// Hit-to-value fidelity: immediately after `key` is inserted with `value`,
/// a lookup of `key` returns `value`.
pub proof fn lemma_get_after_insert<V>(m: CacheModel<V>, key: u64, value: V)
    requires
        cache_wf(m),
    ensures
        spec_get(spec_insert(m, key, value), key) == Some(value),
{
    lemma_insert_hits_itself(m, key, value);
}

/// Update in place: a second insertion of the same key rewrites the record
/// where it lies and leaves the log head unchanged.
pub proof fn lemma_update_in_place<V>(m: CacheModel<V>, key: u64, v1: V, v2: V)
    requires
        cache_wf(m),
    ensures
        spec_insert(spec_insert(m, key, v1), key, v2).head == spec_insert(m, key, v1).head,
        spec_insert(spec_insert(m, key, v1), key, v2).sets == spec_insert(m, key, v1).sets,
{
    lemma_insert_hits_itself(m, key, v1);
    let m2 = spec_insert(m, key, v1);
    assert(probe_model(m2.sets[set_index_of(m2, key)], finger_of(key)) is Some);
}

/// Invalidation: after `key` is inserted and then invalidated, a lookup of
/// `key` returns nothing.
pub proof fn lemma_invalidate_after_insert<V>(m: CacheModel<V>, key: u64, value: V)
    requires
        cache_wf(m),
    ensures
        spec_get(spec_invalidate(spec_insert(m, key, value), key), key) is None,
{
    lemma_insert_hits_itself(m, key, value);
    lemma_insert_preserves_wf(m, key, value);
    let m2 = spec_insert(m, key, value);
    let sk = set_index_of(m2, key);
    let f = finger_of(key);
    let i = probe_model(m2.sets[sk], f)->0;
    lemma_probe_from_some(m2.sets[sk], f, 0, i);
    let m3 = spec_invalidate(m2, key);
    assert(set_index_of(m3, key) == sk);
    match probe_model(m3.sets[sk], f) {
        Some(i2) => {
            lemma_probe_from_some(m3.sets[sk], f, 0, i2);
            assert(i2 != i);
            assert(m3.sets[sk].slots[i2] == m2.sets[sk].slots[i2]);
            assert(slot_matches(m2.sets[sk], f, i2));
            assert(false);
        },
        None => {},
    }
}

/// Pointer uniqueness: in a well-formed cache, no log position is referred
/// to by two live slots.
pub proof fn lemma_pointer_uniqueness<V>(m: CacheModel<V>)
    requires
        cache_wf(m),
    ensures
        pointers_unique(m),
{
}

/// True when a probe for `key` hits: the key is in the Present state.
pub open spec fn present<V>(m: CacheModel<V>, key: u64) -> bool {
    cache_probe(m, key) is Some
}

/// The log position a present key's probe refers to.
pub open spec fn probe_pointer<V>(m: CacheModel<V>, key: u64) -> int
    recommends
        present(m, key),
{
    m.sets[set_index_of(m, key)].slots[cache_probe(m, key)->0].pointer
}

/// Capacity: a family of simultaneously present keys, no two of which share
/// both set and fingerprint, is never larger than the log. (Keys that do
/// share set and fingerprint collide onto one slot and one record, so they
/// are excluded here.)
pub proof fn lemma_capacity<V>(m: CacheModel<V>, ks: Set<u64>)
    requires
        cache_wf(m),
        ks.finite(),
        forall|k: u64| ks.contains(k) ==> #[trigger] present(m, k),
        forall|k1: u64, k2: u64|
            ks.contains(k1) && ks.contains(k2) && k1 != k2 ==> !(set_index_of(m, k1)
                == set_index_of(m, k2) && finger_of(k1) == finger_of(k2)),
    ensures
        ks.len() <= m.log.len(),
{
    let f = |k: u64| probe_pointer(m, k);
    let img = ks.map(f);
    assert forall|k: u64| ks.contains(k) implies {
        &&& slot_matches(m.sets[set_index_of(m, k)], finger_of(k), cache_probe(m, k)->0)
        &&& 0 <= #[trigger] probe_pointer(m, k) < m.log.len()
    } by {
        assert(present(m, k));
        let s = set_index_of(m, k);
        let i = cache_probe(m, k)->0;
        lemma_probe_from_some(m.sets[s], finger_of(k), 0, i);
    }
    assert forall|k1: u64, k2: u64|
        #![trigger ks.contains(k1), ks.contains(k2), f(k1), f(k2)]
        ks.contains(k1) && ks.contains(k2) && f(k1) == f(k2) implies k1 == k2 by {
        if k1 != k2 {
            let s1 = set_index_of(m, k1);
            let i1 = cache_probe(m, k1)->0;
            let s2 = set_index_of(m, k2);
            let i2 = cache_probe(m, k2)->0;
            assert(m.sets[s1].slots[i1].pointer == m.sets[s2].slots[i2].pointer);
            assert(s1 == s2 && i1 == i2);
            assert(finger_of(k1) == m.sets[s1].slots[i1].finger);
            assert(finger_of(k2) == m.sets[s2].slots[i2].finger);
        }
    }
    assert(vstd::relations::injective_on(f, ks));
    vstd::set_lib::lemma_map_size(ks, img, f);
    let range = vstd::set_lib::set_int_range(0, m.log.len() as int);
    assert forall|p: int| img.contains(p) implies range.contains(p) by {
        let k = choose|k: u64| ks.contains(k) && f(k) == p;
        assert(0 <= probe_pointer(m, k) < m.log.len());
    }
    vstd::set_lib::lemma_int_range(0, m.log.len() as int);
    vstd::set_lib::lemma_len_subset(img, range);
}

/// How many slots at or above `i` are live.
pub open spec fn occupied_from(s: SetModel, i: int) -> int
    decreases SIMD_SIZE - i,
{
    if i < 0 || i >= SIMD_SIZE {
        0
    } else {
        (if s.slots[i].valid {
            1int
        } else {
            0int
        }) + occupied_from(s, i + 1)
    }
}

/// Occupancy is bounded by the slots counted.
pub proof fn lemma_occupied_bounds(s: SetModel, i: int)
    requires
        0 <= i <= SIMD_SIZE,
    ensures
        0 <= occupied_from(s, i) <= SIMD_SIZE - i,
    decreases SIMD_SIZE - i,
{
    if i < SIMD_SIZE {
        lemma_occupied_bounds(s, i + 1);
    }
}

/// A set with a free slot at or above `i` is not fully occupied there.
pub proof fn lemma_not_full_occupancy(s: SetModel, i: int)
    requires
        0 <= i <= SIMD_SIZE,
        occupied_from(s, i) < SIMD_SIZE - i,
    ensures
        free_from(s, i) is Some,
    decreases SIMD_SIZE - i,
{
    lemma_occupied_bounds(s, i + 1);
    if s.slots[i].valid {
        lemma_not_full_occupancy(s, i + 1);
    }
}

/// Writing one slot changes the occupancy by the difference the write makes
/// at that slot.
pub proof fn lemma_occupied_update(s: SetModel, s2: SetModel, j: int, x: SlotModel, i: int)
    requires
        0 <= i <= SIMD_SIZE,
        0 <= j < SIMD_SIZE,
        s.slots.len() == SIMD_SIZE,
        s2.slots == s.slots.update(j, x),
    ensures
        occupied_from(s2, i) == occupied_from(s, i) + (if i <= j {
            (if x.valid {
                1int
            } else {
                0int
            }) - (if s.slots[j].valid {
                1int
            } else {
                0int
            })
        } else {
            0int
        }),
    decreases SIMD_SIZE - i,
{
    if i < SIMD_SIZE {
        lemma_occupied_update(s, s2, j, x, i + 1);
    }
}

/// The state after every record of `ops` has been inserted in order.
pub open spec fn insert_seq<V>(m: CacheModel<V>, ops: Seq<(u64, V)>) -> CacheModel<V>
    decreases ops.len(),
{
    if ops.len() == 0 {
        m
    } else {
        insert_seq(spec_insert(m, ops[0].0, ops[0].1), ops.drop_first())
    }
}

/// How many of the keys of `ops` hash to set `s` of `sets_len` sets.
pub open spec fn count_to_set<V>(ops: Seq<(u64, V)>, sets_len: int, s: int) -> int
    decreases ops.len(),
{
    if ops.len() == 0 {
        0
    } else {
        (if key_hash(ops[0].0) as int % sets_len == s {
            1int
        } else {
            0int
        }) + count_to_set(ops.drop_first(), sets_len, s)
    }
}

/// Counts are nonnegative.
pub proof fn lemma_count_to_set_nonneg<V>(ops: Seq<(u64, V)>, sets_len: int, s: int)
    ensures
        count_to_set(ops, sets_len, s) >= 0,
    decreases ops.len(),
{
    if ops.len() > 0 {
        lemma_count_to_set_nonneg(ops.drop_first(), sets_len, s);
    }
}

/// The induction behind the round-trip law: running `ops` from a state in
/// which positions `u` and beyond are unwritten, the head stands at `u`,
/// every set keeps room for the keys still to come, and every key of `done`
/// probes successfully, every key of `done` and of `ops` probes successfully
/// in the final state.
proof fn lemma_round_trip_rec<V>(
    m: CacheModel<V>,
    ops: Seq<(u64, V)>,
    done: Seq<u64>,
    u: int,
)
    requires
        cache_wf(m),
        0 <= u <= m.log.len(),
        u + ops.len() <= m.log.len(),
        ops.len() > 0 ==> m.head == u,
        forall|p: int| 0 <= p < m.log.len() ==> ((#[trigger] m.log[p]) is Some <==> p < u),
        forall|s: int|
            0 <= s < m.sets.len() ==> occupied_from(#[trigger] m.sets[s], 0) + count_to_set(
                ops,
                m.sets.len() as int,
                s,
            ) <= SIMD_SIZE,
        forall|i: int| 0 <= i < done.len() ==> present(m, #[trigger] done[i]),
    ensures
        cache_wf(insert_seq(m, ops)),
        forall|i: int| 0 <= i < done.len() ==> present(insert_seq(m, ops), #[trigger] done[i]),
        forall|i: int| 0 <= i < ops.len() ==> present(insert_seq(m, ops), (#[trigger] ops[i]).0),
    decreases ops.len(),
{
    if ops.len() == 0 {
        return ;
    }
    let key = ops[0].0;
    let value = ops[0].1;
    let rest = ops.drop_first();
    let sk = set_index_of(m, key);
    let f = finger_of(key);
    let m2 = spec_insert(m, key, value);
    lemma_insert_preserves_wf(m, key, value);
    assert forall|s: int| 0 <= s < m.sets.len() implies count_to_set(
        rest,
        m.sets.len() as int,
        s,
    ) <= count_to_set(ops, m.sets.len() as int, s) by {}
    match probe_model(m.sets[sk], f) {
        Some(i) => {
            // In-place update: the sets, the head, and the written positions
            // are untouched.
            lemma_probe_from_some(m.sets[sk], f, 0, i);
            let p = m.sets[sk].slots[i].pointer;
            assert(m.log[p] is Some);
            assert(forall|q: int|
                0 <= q < m2.log.len() ==> ((#[trigger] m2.log[q]) is Some <==> q < u));
            assert forall|s: int| 0 <= s < m2.sets.len() implies occupied_from(
                #[trigger] m2.sets[s],
                0,
            ) + count_to_set(rest, m2.sets.len() as int, s) <= SIMD_SIZE by {}
            lemma_round_trip_rec(m2, rest, done.push(key), u);
        },
        None => {
            // Miss: position `u` is unwritten, so nothing is invalidated; a
            // free slot of the key's set is claimed.
            lemma_probe_from_none(m.sets[sk], f, 0);
            assert(m.log[m.head] is None);
            assert(evicted_state(m) == m);
            let j = next_slot_model(m.sets[sk]);
            lemma_count_to_set_nonneg(rest, m.sets.len() as int, sk);
            assert(count_to_set(ops, m.sets.len() as int, sk) >= 1);
            assert(occupied_from(m.sets[sk], 0) < SIMD_SIZE);
            lemma_not_full_occupancy(m.sets[sk], 0);
            assert(!set_full(m.sets[sk]));
            lemma_next_slot_in_range(m.sets[sk]);
            assert(!m.sets[sk].slots[j].valid);
            let newslot = SlotModel { valid: true, finger: f, pointer: m.head };
            let newset = SetModel { slots: m.sets[sk].slots.update(j, newslot), next: m.sets[sk].next };
            assert(m2.sets[sk] == newset);
            assert(m2.head == (u + 1) % (m.log.len() as int));
            if rest.len() > 0 {
                assert(u + 1 < m.log.len());
                vstd::arithmetic::div_mod::lemma_small_mod((u + 1) as nat, m.log.len());
                assert(m2.head == u + 1);
            }
            assert(forall|q: int|
                0 <= q < m2.log.len() ==> ((#[trigger] m2.log[q]) is Some <==> q < u + 1));
            // Occupancy: the claimed slot was free, so the set gains one.
            assert forall|s: int| 0 <= s < m2.sets.len() implies occupied_from(
                #[trigger] m2.sets[s],
                0,
            ) + count_to_set(rest, m2.sets.len() as int, s) <= SIMD_SIZE by {
                if s == sk {
                    lemma_occupied_update(m.sets[sk], m2.sets[sk], j, newslot, 0);
                } else {
                    assert(m2.sets[s] == m.sets[s]);
                }
            }
            // Every key already placed keeps its match: only a free slot was
            // written.
            assert forall|i: int| 0 <= i < done.len() + 1 implies present(
                m2,
                #[trigger] done.push(key)[i],
            ) by {
                if i < done.len() {
                    let dk = done.push(key)[i];
                    assert(present(m, dk));
                    let ds = set_index_of(m, dk);
                    let di = cache_probe(m, dk)->0;
                    lemma_probe_from_some(m.sets[ds], finger_of(dk), 0, di);
                    assert(di != j || ds != sk);
                    assert(slot_matches(m2.sets[ds], finger_of(dk), di));
                    lemma_probe_from_finds(m2.sets[ds], finger_of(dk), 0, di);
                } else {
                    assert(done.push(key)[i] == key);
                    assert(slot_matches(m2.sets[sk], f, j));
                    lemma_probe_from_finds(m2.sets[sk], f, 0, j);
                }
            }
            lemma_round_trip_rec(m2, rest, done.push(key), u + 1);
        },
    }
    assert(insert_seq(m, ops) == insert_seq(m2, rest));
    assert forall|i: int| 0 <= i < done.len() implies present(
        insert_seq(m, ops),
        #[trigger] done[i],
    ) by {
        assert(done.push(key)[i] == done[i]);
        assert(present(insert_seq(m2, rest), done.push(key)[i]));
    }
    assert forall|i: int| 0 <= i < ops.len() implies present(
        insert_seq(m, ops),
        (#[trigger] ops[i]).0,
    ) by {
        if i == 0 {
            assert(done.push(key)[done.len() as int] == key);
            assert(present(insert_seq(m2, rest), key));
        } else {
            assert(rest[i - 1] == ops[i]);
            assert(present(insert_seq(m2, rest), rest[i - 1].0));
        }
    }
}

/// Round trip under non-colliding load: starting from a fresh cache, a run
/// of at most `log_size` insertions in which at most `SIMD_SIZE` keys hash
/// to any one set leaves every inserted key retrievable: a lookup of each
/// returns a record.
pub proof fn lemma_round_trip<V>(log_size: int, set_count: int, ops: Seq<(u64, V)>)
    requires
        1 <= log_size,
        1 <= set_count,
        ops.len() <= log_size,
        forall|s: int|
            0 <= s < set_count ==> count_to_set(ops, set_count, s) <= SIMD_SIZE,
    ensures
        forall|i: int|
            0 <= i < ops.len() ==> spec_get(
                insert_seq(empty_model(set_count, log_size), ops),
                (#[trigger] ops[i]).0,
            ) is Some,
{
    let m0 = empty_model::<V>(set_count, log_size);
    assert(cache_wf(m0));
    assert forall|s: int| 0 <= s < m0.sets.len() implies occupied_from(#[trigger] m0.sets[s], 0)
        + count_to_set(ops, m0.sets.len() as int, s) <= SIMD_SIZE by {
        lemma_occupied_empty(m0.sets[s], 0);
    }
    lemma_round_trip_rec(m0, ops, Seq::empty(), 0);
    let mf = insert_seq(m0, ops);
    assert forall|i: int| 0 <= i < ops.len() implies spec_get(mf, (#[trigger] ops[i]).0)
        is Some by {
        let k = ops[i].0;
        assert(present(mf, k));
        let s = set_index_of(mf, k);
        let si = cache_probe(mf, k)->0;
        lemma_probe_from_some(mf.sets[s], finger_of(k), 0, si);
        assert(mf.log[mf.sets[s].slots[si].pointer] is Some);
    }
}

/// A set with no live slot has occupancy zero.
pub proof fn lemma_occupied_empty(s: SetModel, i: int)
    requires
        forall|j: int| 0 <= j < SIMD_SIZE ==> !(#[trigger] s.slots[j]).valid,
    ensures
        occupied_from(s, i) == 0,
    decreases SIMD_SIZE - i,
{
    if 0 <= i < SIMD_SIZE {
        lemma_occupied_empty(s, i + 1);
    }
}

/// The model of a freshly built set: every slot free, cursor at zero.
pub open spec fn empty_set_model() -> SetModel {
    SetModel {
        slots: Seq::new(SIMD_SIZE as nat, |i: int| SlotModel {
            valid: false,
            finger: 0,
            pointer: 0,
        }),
        next: 0,
    }
}

/// The model of a freshly built cache: `set_count` empty sets, `log_size`
/// unwritten log positions, head at zero.
pub open spec fn empty_model<V>(set_count: int, log_size: int) -> CacheModel<V> {
    CacheModel {
        sets: Seq::new(set_count as nat, |s: int| empty_set_model()),
        log: Seq::new(log_size as nat, |p: int| None),
        head: 0,
    }
}

} // verus!
