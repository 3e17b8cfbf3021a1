//! A bit-packed index slot: a valid bit, a tag, and a log offset folded
//! into one 64-bit word. The log offset occupies the low `MICA_LOG_BITS`
//! bits, the tag the next bits, and the valid flag the top bit.

use vstd::prelude::*;

verus! {

/// Width of a packed slot in bits.
pub const SLOT_SIZE: u64 = 64;

/// Bits of the packed word given to the log offset.
pub const MICA_LOG_BITS: u64 = 40;

/// Mask of the log-offset field: the low `MICA_LOG_BITS` bits.
pub const LOG_MASK: u64 = 0xff_ffff_ffff;

/// Mask of the tag field once shifted down: `SLOT_SIZE - MICA_LOG_BITS - 1`
/// bits.
pub const TAG_MASK: u64 = 0x7f_ffff;

/// Mask of the valid flag: the top bit.
pub const VALID_MASK: u64 = 0x8000_0000_0000_0000;

/// One packed slot word.
#[derive(Clone, Copy)]
pub struct Slot {
    pub raw: u64,
}

/// The valid flag of a packed word.
pub open spec fn spec_slot_valid(raw: u64) -> bool {
    raw & VALID_MASK != 0
}

/// The tag field of a packed word.
pub open spec fn spec_slot_tag(raw: u64) -> u64 {
    (raw >> MICA_LOG_BITS) & TAG_MASK
}

/// The log-offset field of a packed word.
pub open spec fn spec_slot_log_idx(raw: u64) -> u64 {
    raw & LOG_MASK
}

impl Default for Slot {
    /// An all-zero slot: invalid, tag zero, offset zero.
    fn default() -> (r: Self)
        ensures
            r.raw == 0,
    {
        Slot { raw: 0 }
    }
}

impl Slot {
    /// Sets or clears the valid flag; the tag and the offset keep their
    /// values.
    pub fn set_valid(&mut self, valid: bool)
        ensures
            spec_slot_valid(final(self).raw) == valid,
            spec_slot_tag(final(self).raw) == spec_slot_tag(old(self).raw),
            spec_slot_log_idx(final(self).raw) == spec_slot_log_idx(old(self).raw),
    {
        let ghost r = self.raw;
        if valid {
            self.raw = self.raw | VALID_MASK;
        } else {
            self.raw = self.raw & !VALID_MASK;
        }
        proof {
            assert((r | 0x8000_0000_0000_0000u64) & 0x8000_0000_0000_0000u64 != 0 && ((r
                | 0x8000_0000_0000_0000u64) >> 40u64) & 0x7f_ffffu64 == (r >> 40u64)
                & 0x7f_ffffu64 && (r | 0x8000_0000_0000_0000u64) & 0xff_ffff_ffffu64 == r
                & 0xff_ffff_ffffu64) by (bit_vector);
            assert((r & !0x8000_0000_0000_0000u64) & 0x8000_0000_0000_0000u64 == 0 && ((r
                & !0x8000_0000_0000_0000u64) >> 40u64) & 0x7f_ffffu64 == (r >> 40u64)
                & 0x7f_ffffu64 && (r & !0x8000_0000_0000_0000u64) & 0xff_ffff_ffffu64 == r
                & 0xff_ffff_ffffu64) by (bit_vector);
        }
    }

    /// Writes the tag field (reduced to its width); the valid flag and the
    /// offset keep their values.
    pub fn set_tag(&mut self, tag: u64)
        ensures
            spec_slot_tag(final(self).raw) == tag & TAG_MASK,
            spec_slot_valid(final(self).raw) == spec_slot_valid(old(self).raw),
            spec_slot_log_idx(final(self).raw) == spec_slot_log_idx(old(self).raw),
    {
        let ghost r = self.raw;
        self.raw = (self.raw & !(TAG_MASK << MICA_LOG_BITS)) | ((tag & TAG_MASK)
            << MICA_LOG_BITS);
        proof {
            assert(((((r & !(0x7f_ffffu64 << 40u64)) | ((tag & 0x7f_ffffu64) << 40u64)) >> 40u64)
                & 0x7f_ffffu64 == tag & 0x7f_ffffu64) && ((((r & !(0x7f_ffffu64 << 40u64)) | ((tag
                & 0x7f_ffffu64) << 40u64)) & 0x8000_0000_0000_0000u64 == 0) == (r
                & 0x8000_0000_0000_0000u64 == 0)) && (((r & !(0x7f_ffffu64 << 40u64)) | ((tag
                & 0x7f_ffffu64) << 40u64)) & 0xff_ffff_ffffu64 == r & 0xff_ffff_ffffu64))
                by (bit_vector);
        }
    }

    /// Writes the log-offset field (reduced to its width); the valid flag
    /// and the tag keep their values.
    pub fn set_log_idx(&mut self, idx: u64)
        ensures
            spec_slot_log_idx(final(self).raw) == idx & LOG_MASK,
            spec_slot_valid(final(self).raw) == spec_slot_valid(old(self).raw),
            spec_slot_tag(final(self).raw) == spec_slot_tag(old(self).raw),
    {
        let ghost r = self.raw;
        self.raw = (self.raw & !LOG_MASK) | (idx & LOG_MASK);
        proof {
            assert((((r & !0xff_ffff_ffffu64) | (idx & 0xff_ffff_ffffu64)) & 0xff_ffff_ffffu64
                == idx & 0xff_ffff_ffffu64) && ((((r & !0xff_ffff_ffffu64) | (idx
                & 0xff_ffff_ffffu64)) & 0x8000_0000_0000_0000u64 == 0) == (r
                & 0x8000_0000_0000_0000u64 == 0)) && ((((r & !0xff_ffff_ffffu64) | (idx
                & 0xff_ffff_ffffu64)) >> 40u64) & 0x7f_ffffu64 == (r >> 40u64) & 0x7f_ffffu64))
                by (bit_vector);
        }
    }

    /// Reads the valid flag.
    pub fn valid(&self) -> (r: bool)
        ensures
            r == spec_slot_valid(self.raw),
    {
        (self.raw & VALID_MASK) != 0
    }

    /// Reads the tag field.
    pub fn tag(&self) -> (r: u64)
        ensures
            r == spec_slot_tag(self.raw),
    {
        (self.raw >> MICA_LOG_BITS) & TAG_MASK
    }

    /// Reads the log-offset field.
    pub fn log_idx(&self) -> (r: u64)
        ensures
            r == spec_slot_log_idx(self.raw),
    {
        self.raw & LOG_MASK
    }
}

} // verus!
