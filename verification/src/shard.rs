//! A shard: one single-writer cache bound to at most one owner.
//!
//! A shard starts unclaimed. `register` claims it for one caller identity,
//! exactly once; the data operations demand that the caller present the
//! registered identity. A mismatch is a programming error in the caller,
//! so the ownership test stands as a precondition of each operation.

use vstd::prelude::*;
use crate::cachetable::CacheTable;
use crate::model::{empty_model, spec_get, spec_insert, spec_invalidate, CacheModel};
use crate::utils::spec_is_pow2;

verus! {

/// The state a shard presents: its cache and its owner cell.
#[verifier::ext_equal]
pub ghost struct ShardModel<V> {
    pub cache: CacheModel<V>,
    pub owner: Option<u64>,
}

/// What `register` does: claim an unclaimed shard for `thread_id` and
/// report success; leave a claimed shard alone and report failure.
pub open spec fn spec_register<V>(s: ShardModel<V>, thread_id: u64) -> (ShardModel<V>, bool) {
    match s.owner {
        None => (ShardModel { owner: Some(thread_id), ..s }, true),
        Some(_) => (s, false),
    }
}

/// Registration is one-shot: once a registration has succeeded, every later
/// registration fails, whoever attempts it.
pub proof fn lemma_register_once<V>(s: ShardModel<V>, t1: u64, t2: u64)
    ensures
        spec_register(s, t1).1 ==> !spec_register(spec_register(s, t1).0, t2).1,
{
}

/// A portion of the sharded table: one cache, bound to at most one owner.
pub struct Shard<V> {
    pub data: CacheTable<V>,
    pub registered_thread: Option<u64>,
}

impl<V> View for Shard<V> {
    type V = ShardModel<V>;

    open spec fn view(&self) -> ShardModel<V> {
        ShardModel { cache: self.data@, owner: self.registered_thread }
    }
}

impl<V> Shard<V> {
    /// The shard's invariant: that of its cache.
    pub open spec fn inv(&self) -> bool {
        self.data.inv()
    }

    /// A fresh, unclaimed shard over a fresh cache.
    pub fn new(log_size: usize, set_count: usize) -> (r: Self)
        requires
            spec_is_pow2(log_size as int),
            spec_is_pow2(set_count as int),
        ensures
            r.inv(),
            r@.cache == empty_model::<V>(set_count as int, log_size as int),
            r@.owner is None,
    {
        Shard { data: CacheTable::new(log_size, set_count), registered_thread: None }
    }

    /// Claims the shard for `thread_id`. Succeeds exactly when the shard is
    /// still unclaimed; the cache is untouched either way.
    pub fn register(&mut self, thread_id: u64) -> (r: bool)
        requires
            old(self).inv(),
        ensures
            final(self).inv(),
            (final(self)@, r) == spec_register(old(self)@, thread_id),
    {
        match self.registered_thread {
            None => {
                self.registered_thread = Some(thread_id);
                true
            },
            Some(_) => false,
        }
    }

    /// Inserts on behalf of the registered owner, whose identity the caller
    /// must present. The cache steps as a plain insertion.
    pub fn insert(&mut self, thread_id: u64, key: u64, value: V)
        requires
            old(self).inv(),
            old(self)@.owner == Some(thread_id),
        ensures
            final(self).inv(),
            final(self)@.cache == spec_insert(old(self)@.cache, key, value),
            final(self)@.owner == old(self)@.owner,
    {
        self.data.insert(key, value);
    }

    /// Looks a key up on behalf of the registered owner, whose identity the
    /// caller must present.
    pub fn get(&self, thread_id: u64, key: u64) -> (r: Option<&V>)
        requires
            self.inv(),
            self@.owner == Some(thread_id),
        ensures
            (match r {
                Some(v) => spec_get(self@.cache, key) == Some(*v),
                None => spec_get(self@.cache, key) is None,
            }),
    {
        self.data.get(key)
    }

    /// Invalidates a key on behalf of the registered owner, whose identity
    /// the caller must present.
    pub fn invalid(&mut self, thread_id: u64, key: u64)
        requires
            old(self).inv(),
            old(self)@.owner == Some(thread_id),
        ensures
            final(self).inv(),
            final(self)@.cache == spec_invalidate(old(self)@.cache, key),
            final(self)@.owner == old(self)@.owner,
    {
        self.data.invalid(key);
    }
}

} // verus!
