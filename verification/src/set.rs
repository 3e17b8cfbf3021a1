//! One associative set of the index: `SIMD_SIZE` fingerprint slots, a
//! validity mask, a round-robin cursor, and the log positions the slots
//! refer to.

use vstd::prelude::*;
use crate::model::{
    free_from, next_slot_model, probe_from, probe_model, set_full, SetModel, SlotModel,
};
use crate::SIMD_SIZE;

verus! {

/// An associative group of `SIMD_SIZE` ways. `valid_mask` bit `i` says
/// whether way `i` currently refers to a live record; `fingers[i]` and
/// `pointers[i]` are meaningful only while that bit is set.
pub struct CacheSet {
    pub fingers: Vec<u8>,
    pub valid_mask: u16,
    pub next: usize,
    pub pointers: Vec<usize>,
}

/// Bit `i` of a validity mask.
pub open spec fn mask_bit(mask: u16, i: int) -> bool {
    (mask >> (i as u16)) & 1u16 == 1u16
}

impl View for CacheSet {
    type V = SetModel;

    open spec fn view(&self) -> SetModel {
        SetModel {
            slots: Seq::new(
                SIMD_SIZE as nat,
                |i: int| SlotModel {
                    valid: mask_bit(self.valid_mask, i),
                    finger: self.fingers@[i],
                    pointer: self.pointers@[i] as int,
                },
            ),
            next: self.next as int,
        }
    }
}

impl Default for CacheSet {
    /// A fresh set: every way free, cursor at zero.
    fn default() -> (r: CacheSet)
        ensures
            r.wf(),
            r@ == crate::model::empty_set_model(),
    {
        CacheSet::new()
    }
}

impl CacheSet {
    /// Structural well-formedness: the two ways arrays have exactly
    /// `SIMD_SIZE` entries and the cursor stays in range.
    pub open spec fn wf(&self) -> bool {
        &&& self.fingers@.len() == SIMD_SIZE
        &&& self.pointers@.len() == SIMD_SIZE
        &&& self.next < SIMD_SIZE
    }

    /// A fresh set: every way free, cursor at zero.
    pub fn new() -> (r: CacheSet)
        ensures
            r.wf(),
            r@ == crate::model::empty_set_model(),
    {
        let mut fingers: Vec<u8> = Vec::new();
        let mut pointers: Vec<usize> = Vec::new();
        let mut i: usize = 0;
        while i < SIMD_SIZE
            invariant
                i <= SIMD_SIZE,
                fingers@.len() == i,
                pointers@.len() == i,
                forall|j: int| 0 <= j < i ==> fingers@[j] == 0u8,
                forall|j: int| 0 <= j < i ==> pointers@[j] == 0usize,
            decreases SIMD_SIZE - i,
        {
            fingers.push(0);
            pointers.push(0);
            i += 1;
        }
        let r = CacheSet { fingers, valid_mask: 0, next: 0, pointers };
        proof {
            assert forall|i: int| 0 <= i < SIMD_SIZE implies !mask_bit(0u16, i) by {
                let iu = i as u16;
                assert((0u16 >> iu) & 1u16 == 0u16) by (bit_vector);
            }
            assert(r@.slots =~= crate::model::empty_set_model().slots);
            assert(r@ =~= crate::model::empty_set_model());
        }
        r
    }

    /// Probes the ways for a fingerprint: the lowest live way carrying
    /// `needle`, or none. One vector compare in spirit; a bounded scan here.
    pub fn probe(&self, needle: u8) -> (r: Option<usize>)
        requires
            self.wf(),
        ensures
            (match r {
                Some(i) => i < SIMD_SIZE && probe_model(self@, needle) == Some(i as int),
                None => probe_model(self@, needle) is None,
            }),
    {
        let mut i: usize = 0;
        while i < SIMD_SIZE
            invariant
                self.wf(),
                i <= SIMD_SIZE,
                probe_from(self@, needle, 0) == probe_from(self@, needle, i as int),
            decreases SIMD_SIZE - i,
        {
            if (self.valid_mask >> (i as u16)) & 1u16 == 1u16 && self.fingers[i] == needle {
                return Some(i);
            }
            i += 1;
        }
        None
    }

    /// Claims a way for a new record: the lowest free way when one exists,
    /// found through the trailing zeros of the inverted mask; otherwise the
    /// round-robin cursor, which then advances.
    pub fn next_slot(&mut self) -> (slot: usize)
        requires
            old(self).wf(),
        ensures
            final(self).wf(),
            slot < SIMD_SIZE,
            slot as int == next_slot_model(old(self)@),
            final(self)@.slots == old(self)@.slots,
            final(self)@.next == if set_full(old(self)@) {
                (old(self)@.next + 1) % (SIMD_SIZE as int)
            } else {
                old(self)@.next
            },
    {
        if self.valid_mask != u16::MAX {
            let inv_mask = !self.valid_mask;
            let first_zero = inv_mask.trailing_zeros() as usize;
            proof {
                let m = self.valid_mask;
                vstd::std_specs::bits::axiom_u16_trailing_zeros(!m);
                assert(!m != 0u16) by (bit_vector)
                    requires
                        m != 0xffffu16,
                ;
                let tz = vstd::std_specs::bits::u16_trailing_zeros(!m) as int;
                let tzu = tz as u16;
                assert(((!m) >> tzu) & 1u16 == 1u16);
                assert((m >> tzu) & 1u16 != 1u16) by (bit_vector)
                    requires
                        ((!m) >> tzu) & 1u16 == 1u16,
                        tzu < 16u16,
                ;
                assert(!mask_bit(m, tz));
                assert forall|j: int| 0 <= j < tz implies self@.slots[j].valid by {
                    let ju = j as u16;
                    assert(((!m) >> ju) & 1u16 == 0u16);
                    assert((m >> ju) & 1u16 == 1u16) by (bit_vector)
                        requires
                            ((!m) >> ju) & 1u16 == 0u16,
                            ju < 16u16,
                    ;
                    assert(mask_bit(m, j));
                }
                lemma_free_from_first(self@, 0, tz);
            }
            return first_zero;
        }

        let slot = self.next;
        self.next = (self.next + 1) % SIMD_SIZE;
        proof {
            let m = old(self).valid_mask;
            assert forall|j: int| 0 <= j < SIMD_SIZE implies old(self)@.slots[j].valid by {
                let ju = j as u16;
                assert((m >> ju) & 1u16 == 1u16) by (bit_vector)
                    requires
                        m == 0xffffu16,
                        ju < 16u16,
                ;
            }
            lemma_free_from_none(old(self)@, 0);
            assert(final(self)@.slots =~= old(self)@.slots);
        }
        slot
    }

    /// Writes the fingerprint of way `slot`, touching nothing else.
    pub fn set_finger(&mut self, slot: usize, value: u8)
        requires
            old(self).wf(),
            slot < SIMD_SIZE,
        ensures
            final(self).wf(),
            final(self)@.slots == old(self)@.slots.update(
                slot as int,
                (SlotModel { finger: value, ..old(self)@.slots[slot as int] }),
            ),
            final(self)@.next == old(self)@.next,
    {
        self.fingers.set(slot, value);
        proof {
            assert(final(self)@.slots =~= old(self)@.slots.update(
                slot as int,
                (SlotModel { finger: value, ..old(self)@.slots[slot as int] }),
            ));
        }
    }

    /// Sets or clears the valid bit of way `slot`, touching nothing else.
    pub fn set_valid(&mut self, slot: usize, valid: bool)
        requires
            old(self).wf(),
            slot < SIMD_SIZE,
        ensures
            final(self).wf(),
            final(self)@.slots == old(self)@.slots.update(
                slot as int,
                (SlotModel { valid: valid, ..old(self)@.slots[slot as int] }),
            ),
            final(self)@.next == old(self)@.next,
    {
        let ghost m = self.valid_mask;
        if valid {
            self.valid_mask = self.valid_mask | (1u16 << (slot as u16));
        } else {
            self.valid_mask = self.valid_mask & !(1u16 << (slot as u16));
        }
        proof {
            let s = slot as u16;
            assert forall|i: int| 0 <= i < SIMD_SIZE implies #[trigger] mask_bit(
                self.valid_mask,
                i,
            ) == if i == slot as int {
                valid
            } else {
                mask_bit(m, i)
            } by {
                let iu = i as u16;
                if valid {
                    assert((((m | (1u16 << s)) >> iu) & 1u16 == 1u16) == if iu == s {
                        true
                    } else {
                        (m >> iu) & 1u16 == 1u16
                    }) by (bit_vector)
                        requires
                            iu < 16u16,
                            s < 16u16,
                    ;
                } else {
                    assert((((m & !(1u16 << s)) >> iu) & 1u16 == 1u16) == if iu == s {
                        false
                    } else {
                        (m >> iu) & 1u16 == 1u16
                    }) by (bit_vector)
                        requires
                            iu < 16u16,
                            s < 16u16,
                    ;
                }
            }
            assert(final(self)@.slots =~= old(self)@.slots.update(
                slot as int,
                (SlotModel { valid: valid, ..old(self)@.slots[slot as int] }),
            ));
        }
    }

    /// Writes the log position of way `slot`, touching nothing else.
    pub fn set_pointer(&mut self, slot: usize, pointer: usize)
        requires
            old(self).wf(),
            slot < SIMD_SIZE,
        ensures
            final(self).wf(),
            final(self)@.slots == old(self)@.slots.update(
                slot as int,
                (SlotModel { pointer: pointer as int, ..old(self)@.slots[slot as int] }),
            ),
            final(self)@.next == old(self)@.next,
    {
        self.pointers.set(slot, pointer);
        proof {
            assert(final(self)@.slots =~= old(self)@.slots.update(
                slot as int,
                (SlotModel { pointer: pointer as int, ..old(self)@.slots[slot as int] }),
            ));
        }
    }
}

/// If every way below `k` is live and way `k` is free, then the scan from
/// `i` finds `k` first.
pub proof fn lemma_free_from_first(s: SetModel, i: int, k: int)
    requires
        0 <= i <= k < SIMD_SIZE,
        !s.slots[k].valid,
        forall|j: int| i <= j < k ==> (#[trigger] s.slots[j]).valid,
    ensures
        free_from(s, i) == Some(k),
    decreases k - i,
{
    if i < k {
        lemma_free_from_first(s, i + 1, k);
    }
}

/// If every way at or above `i` is live, the scan from `i` finds nothing.
pub proof fn lemma_free_from_none(s: SetModel, i: int)
    requires
        0 <= i,
        forall|j: int| i <= j < SIMD_SIZE ==> (#[trigger] s.slots[j]).valid,
    ensures
        free_from(s, i) is None,
    decreases SIMD_SIZE - i,
{
    if i < SIMD_SIZE {
        lemma_free_from_none(s, i + 1);
    }
}

} // verus!
