//! Locks whose shards are stored dynamically.

use vstd::prelude::*;

use crate::handle::ShardedRwLockHandle;
use crate::lock::ShardedRwLock;
use crate::memory;
use crate::shard;
use crate::shard::ReaderShard;
use crate::sync::UnsafeCell;

verus! {

/// `Vec::resize_with` on an empty vector, with a function that makes a shard: each of the `n`
/// elements is what one call of the function returned. The counters of two elements are different
/// locations, since the elements of a vector lie at different places.
///
/// It panics where the elements would take more than `isize::MAX` bytes. A shard takes up a padded
/// counter, which is at most 256 bytes.
#[verifier::external_body]
fn fill_with_shards<T>(n: usize) -> (shards: Vec<ReaderShard<T>>)
    requires
        n * 256 <= isize::MAX,
    ensures
        shards@.len() == n,
        forall|i: int|
            0 <= i < n ==> call_ensures(
                ReaderShard::<T>::with_capacity,
                (),
                #[trigger] shards@[i],
            ),
        shard::counts(shards@).no_duplicates(),
    opens_invariants none
{
    let mut shards = Vec::new();
    shards.resize_with(n, ReaderShard::with_capacity);
    shards
}

/// A lock whose shards are stored dynamically.
pub type BoxedShardedRwLock<T> = ShardedRwLock<T, Vec<ReaderShard<T>>>;

/// A handle to a [`BoxedShardedRwLock`].
pub type BoxedShardedRwLockHandle<'a, T> = ShardedRwLockHandle<'a, T, Vec<ReaderShard<T>>>;

impl<T> ShardedRwLock<T, Vec<ReaderShard<T>>> {
    /// Constructs a new lock with `shard_count` shards around `item`.
    ///
    /// No vector takes more than `isize::MAX` bytes, which limits the shards that there can be.
    pub fn new(shard_count: usize, item: T) -> (r: Self)
        requires
            shard_count > 0,
            shard_count * 256 <= isize::MAX,
        ensures
            r.is_new(shard_count as nat, item),
        opens_invariants none
    {
        let shards: Vec<ReaderShard<T>> = fill_with_shards(shard_count);
        let r = Self::around(shards, UnsafeCell::new(item));
        assert(memory::made(r.site()) =~= memory::fresh(r.site()));
        r
    }
}

} // verus!
