//! The sharded table: a fixed vector of independent single-writer shards,
//! addressed by a caller-chosen shard id. The table performs no internal
//! key-to-shard hashing; shard assignment is the caller's affair.

use vstd::prelude::*;
use crate::model::empty_model;
use crate::shard::{Shard, ShardModel};
use crate::utils::spec_is_pow2;

verus! {

/// A fixed-length collection of shards. Shards share no mutable state:
/// borrowing one shard, even mutably, leaves every other shard untouched.
pub struct ShardedTable<V> {
    pub shards: Vec<Shard<V>>,
}

impl<V> View for ShardedTable<V> {
    type V = Seq<ShardModel<V>>;

    open spec fn view(&self) -> Seq<ShardModel<V>> {
        Seq::new(self.shards@.len(), |i: int| self.shards@[i]@)
    }
}

impl<V> ShardedTable<V> {
    /// The table's invariant: every shard's.
    pub open spec fn inv(&self) -> bool {
        forall|i: int| 0 <= i < self.shards@.len() ==> (#[trigger] self.shards@[i]).inv()
    }

    /// A fresh table of `set_count` unclaimed shards, each over a fresh
    /// cache of `set_count` sets and `log_size` log positions.
    pub fn new(log_size: usize, set_count: usize) -> (r: Self)
        requires
            spec_is_pow2(log_size as int),
            spec_is_pow2(set_count as int),
        ensures
            r.inv(),
            r@.len() == set_count,
            forall|i: int|
                0 <= i < set_count ==> (#[trigger] r@[i]).cache == empty_model::<V>(
                    set_count as int,
                    log_size as int,
                ) && r@[i].owner is None,
    {
        let mut shards: Vec<Shard<V>> = Vec::new();
        let mut i: usize = 0;
        while i < set_count
            invariant
                spec_is_pow2(log_size as int),
                spec_is_pow2(set_count as int),
                i <= set_count,
                shards@.len() == i,
                forall|j: int|
                    0 <= j < i ==> (#[trigger] shards@[j]).inv() && shards@[j]@.cache
                        == empty_model::<V>(set_count as int, log_size as int)
                        && shards@[j]@.owner is None,
            decreases set_count - i,
        {
            shards.push(Shard::new(log_size, set_count));
            i += 1;
        }
        ShardedTable { shards }
    }

    /// Borrows the shard with the given id, for read-side calls.
    pub fn get_shard(&self, shard_id: usize) -> (r: &Shard<V>)
        requires
            shard_id < self.shards@.len(),
        ensures
            *r == self.shards@[shard_id as int],
    {
        &self.shards[shard_id]
    }

    /// Borrows the shard with the given id mutably. Whatever the caller
    /// does through the borrow, every other shard stays exactly as it was:
    /// shards are independent.
    pub fn get_shard_mut(&mut self, shard_id: usize) -> (r: &mut Shard<V>)
        requires
            shard_id < old(self).shards@.len(),
        ensures
            *r == old(self).shards@[shard_id as int],
            final(self).shards@ == old(self).shards@.update(shard_id as int, *final(r)),
    {
        &mut self.shards[shard_id]
    }
}

} // verus!
