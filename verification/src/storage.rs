//! What stores the shards of a lock.

use vstd::prelude::*;

use crate::shard::ReaderShard;
use crate::sync;

verus! {

impl<T> Default for ReaderShard<T> {
    /// A shard without readers.
    fn default() -> (r: Self)
        ensures
            sync::initial_count(r.count()) == 0,
    {
        Self::with_capacity()
    }
}

/// Something that stores the shards of a lock.
pub trait ShardStorage<T> {
    /// The stored shards, in order. A storage need not say which they are.
    closed spec fn arms(&self) -> Seq<ReaderShard<T>> {
        arbitrary()
    }

    /// How many shards are stored.
    fn arm_count(&self) -> (r: usize)
        ensures
            r == self.arms().len(),
    ;

    /// The shard with the index `i`.
    fn arm(&self, i: usize) -> (r: &ReaderShard<T>)
        requires
            i < self.arms().len(),
        ensures
            *r == self.arms()[i as int],
    ;
}

impl<T> ShardStorage<T> for Vec<ReaderShard<T>> {
    open spec fn arms(&self) -> Seq<ReaderShard<T>> {
        self@
    }

    fn arm_count(&self) -> (r: usize) {
        self.len()
    }

    fn arm(&self, i: usize) -> (r: &ReaderShard<T>) {
        &self[i]
    }
}

impl<T, const N: usize> ShardStorage<T> for [ReaderShard<T>; N] {
    open spec fn arms(&self) -> Seq<ReaderShard<T>> {
        self@
    }

    fn arm_count(&self) -> (r: usize) {
        N
    }

    fn arm(&self, i: usize) -> (r: &ReaderShard<T>) {
        &self[i]
    }
}

} // verus!
