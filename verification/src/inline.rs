//! Locks whose shards are stored inline.

use vstd::prelude::*;

use crate::handle::ShardedRwLockHandle;
use crate::lock::ShardedRwLock;
use crate::memory;
use crate::shard;
use crate::shard::ReaderShard;
use crate::sync::UnsafeCell;

verus! {

/// `core::array::from_fn`, with a closure that makes a shard for every index: each element is what
/// the closure returned for its index. The counters of two elements are different locations, since
/// the elements of an array lie at different places.
#[verifier::external_body]
fn inline_shards<T, const N: usize>() -> (r: [ReaderShard<T>; N])
    ensures
        forall|i: int|
            0 <= i < N ==> call_ensures(ReaderShard::<T>::with_capacity, (), #[trigger] r@[i]),
        shard::counts(r@).no_duplicates(),
    opens_invariants none
{
    core::array::from_fn(|_i| ReaderShard::with_capacity())
}

/// A lock whose shards are stored inline.
pub type InlineShardedRwLock<T, const N: usize> = ShardedRwLock<T, [ReaderShard<T>; N]>;

/// A handle to an [`InlineShardedRwLock`].
pub type InlineShardedRwLockHandle<'a, T, const N: usize> = ShardedRwLockHandle<
    'a,
    T,
    [ReaderShard<T>; N],
>;

impl<T, const N: usize> ShardedRwLock<T, [ReaderShard<T>; N]> {
    /// Constructs a new lock with `N` shards around `item`.
    pub fn new(item: T) -> (r: Self)
        requires
            N > 0,
        ensures
            r.is_new(N as nat, item),
        opens_invariants none
    {
        let shards: [ReaderShard<T>; N] = inline_shards();
        let r = Self::around(shards, UnsafeCell::new(item));
        assert(memory::made(r.site()) =~= memory::fresh(r.site()));
        r
    }
}

} // verus!
