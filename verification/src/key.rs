//! A fixed-width cache key: a 64-bit word.

use vstd::prelude::*;

verus! {

/// Width of a cache key in bytes.
pub const KEY_SIZE: usize = 8;

/// A cache key.
#[derive(Debug, Clone, Copy, PartialEq, Eq, Structural)]
pub struct CacheKey {
    pub raw: u64,
}

impl Default for CacheKey {
    /// The zero key.
    fn default() -> (r: Self)
        ensures
            r.raw == 0,
    {
        CacheKey { raw: 0 }
    }
}

impl CacheKey {
    /// A key holding the given word.
    pub fn new(key: u64) -> (r: Self)
        ensures
            r.raw == key,
    {
        CacheKey { raw: key }
    }

    /// Replaces the key's word.
    pub fn set_key(&mut self, key: u64)
        ensures
            final(self).raw == key,
    {
        self.raw = key;
    }

    /// Reads the key's word.
    pub fn key(&self) -> (r: u64)
        ensures
            r == self.raw,
    {
        self.raw
    }

    /// The key's width in bytes.
    pub fn len(&self) -> (r: usize)
        ensures
            r == KEY_SIZE,
    {
        KEY_SIZE
    }
}

} // verus!
