//! A fixed-width cache value: the bytes of one record, padded with zeros
//! up to the record's value width.

use vstd::prelude::*;
use crate::key::KEY_SIZE;

verus! {

/// Width of a cache line in bytes.
pub const CACHE_LINE: usize = 64;

/// Width of a cache value in bytes: what remains of a cache line after the
/// key, a state byte, and a sequence word.
pub const VALUE_SIZE: usize = CACHE_LINE - KEY_SIZE - 1 - 8;

/// A fixed-width value: exactly `VALUE_SIZE` bytes.
#[derive(Debug, Clone, PartialEq, Eq)]
pub struct CacheValue {
    pub raw: Vec<u8>,
}

impl CacheValue {
    /// Exactly `VALUE_SIZE` bytes are held.
    pub open spec fn wf(&self) -> bool {
        self.raw@.len() == VALUE_SIZE
    }

    /// A value holding the given bytes, truncated to `VALUE_SIZE` or padded
    /// with zeros up to it.
    pub fn new(value: &[u8]) -> (r: Self)
        ensures
            r.wf(),
            forall|i: int|
                0 <= i < VALUE_SIZE ==> r.raw@[i] == if i < value@.len() {
                    value@[i]
                } else {
                    0u8
                },
    {
        let mut raw: Vec<u8> = Vec::new();
        let mut i: usize = 0;
        while i < VALUE_SIZE
            invariant
                i <= VALUE_SIZE,
                raw@.len() == i,
                forall|j: int|
                    0 <= j < i ==> raw@[j] == if j < value@.len() {
                        value@[j]
                    } else {
                        0u8
                    },
            decreases VALUE_SIZE - i,
        {
            if i < value.len() {
                raw.push(value[i]);
            } else {
                raw.push(0);
            }
            i += 1;
        }
        CacheValue { raw }
    }

    /// The value's width in bytes.
    pub fn len(&self) -> (r: usize)
        ensures
            r == VALUE_SIZE,
    {
        VALUE_SIZE
    }
}

impl Default for CacheValue {
    /// The all-zero value.
    fn default() -> (r: Self)
        ensures
            r.wf(),
            forall|i: int| 0 <= i < VALUE_SIZE ==> r.raw@[i] == 0u8,
    {
        let mut raw: Vec<u8> = Vec::new();
        let mut i: usize = 0;
        while i < VALUE_SIZE
            invariant
                i <= VALUE_SIZE,
                raw@.len() == i,
                forall|j: int| 0 <= j < i ==> raw@[j] == 0u8,
            decreases VALUE_SIZE - i,
        {
            raw.push(0);
            i += 1;
        }
        CacheValue { raw }
    }
}

} // verus!
