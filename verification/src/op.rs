//! One request record: a key, a fixed-width value, and bookkeeping fields.

use vstd::prelude::*;
use crate::key::CacheKey;
use crate::value::{CacheValue, VALUE_SIZE};

verus! {

/// A request record as a store queues it.
pub struct Op {
    pub key: CacheKey,
    pub value: CacheValue,
    pub version: u64,
    pub m_id: u8,
    pub state: u8,
    pub key_id: u32,
}

impl Op {
    /// A record with the zero key, the all-zero value, and zeroed
    /// bookkeeping fields.
    pub fn new() -> (r: Self)
        ensures
            r.key.raw == 0,
            r.value.wf(),
            forall|i: int| 0 <= i < VALUE_SIZE ==> r.value.raw@[i] == 0u8,
            r.version == 0,
            r.m_id == 0,
            r.state == 0,
            r.key_id == 0,
    {
        Op::default()
    }
}

impl Default for Op {
    /// The all-zero record.
    fn default() -> (r: Self)
        ensures
            r.key.raw == 0,
            r.value.wf(),
            forall|i: int| 0 <= i < VALUE_SIZE ==> r.value.raw@[i] == 0u8,
            r.version == 0,
            r.m_id == 0,
            r.state == 0,
            r.key_id == 0,
    {
        Op {
            value: CacheValue::default(),
            key: CacheKey::default(),
            version: 0,
            m_id: 0,
            state: 0,
            key_id: 0,
        }
    }
}

} // verus!
