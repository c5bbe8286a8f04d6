//! The lock.

use vstd::prelude::*;

use portable_atomic::AtomicBool;

use crate::attempt::Site;
use crate::handle::ShardedRwLockHandle;
use crate::memory;
use crate::shard;
use crate::shard::ReaderShard;
use crate::storage::ShardStorage;
use crate::sync;
use crate::sync::UnsafeCell;
use crate::trace::{Access, Book, LockInput};

verus! {

/// `AtomicBool::new`: a new location that holds `v` first.
#[verifier::external_body]
fn flag_new(v: bool) -> (r: AtomicBool)
    ensures
        sync::initial_flag(r) == v,
    opens_invariants none
    no_unwind
{
    AtomicBool::new(v)
}

/// A sharded reader-writer lock, with its shards in a `B`.
#[verifier::reject_recursive_types(T)]
pub struct ShardedRwLock<T, B: ShardStorage<T>> {
    shards: B,
    writer: AtomicBool,
    item: UnsafeCell<T>,
}

impl<T, B: ShardStorage<T>> ShardedRwLock<T, B> {
    /// A lock has at least one shard.
    #[verifier::type_invariant]
    spec fn has_shards(self) -> bool {
        self.shards.arms().len() > 0
    }

    /// The shards.
    pub closed spec fn shards(&self) -> Seq<ReaderShard<T>> {
        self.shards.arms()
    }

    /// The cell that holds the data.
    pub closed spec fn cell(&self) -> UnsafeCell<T> {
        self.item
    }

    /// The flag that a writer raises.
    pub closed spec fn flag(&self) -> AtomicBool {
        self.writer
    }

    /// Where the shared state of the lock lies.
    pub open spec fn site(&self) -> Site {
        Site { flag: self.flag(), arms: shard::counts(self.shards()) }
    }

    /// Whether this is a lock as it is made: `n` shards without readers, each with a counter of
    /// its own, no writer, and `item` inside.
    pub open spec fn is_new(&self, n: nat, item: T) -> bool {
        &&& self.shards().len() == n
        &&& self.site().arms.no_duplicates()
        &&& memory::made(self.site()) == memory::fresh(self.site())
        &&& self.cell().made_from(item)
    }

    /// A lock that is made of `shards`, around what `item` holds.
    pub(crate) fn around(shards: B, item: UnsafeCell<T>) -> (r: Self)
        requires
            shards.arms().len() > 0,
        ensures
            r.shards() == shards.arms(),
            sync::initial_flag(r.flag()) == false,
            r.cell() == item,
        opens_invariants none
        no_unwind
    {
        ShardedRwLock { shards, writer: flag_new(false), item }
    }

    /// Acquires a new handle to this lock.
    pub fn new_root(&self) -> (r: ShardedRwLockHandle<'_, T, B>)
        ensures
            r.wf(),
            r.site() == self.site(),
            r.cell() == self.cell(),
            r.trace() == Seq::<Access>::empty(),
            r.record().issued() == 0,
            r.record().depth() == 0,
            self.shards().len() > 0,
        no_unwind
    {
        proof {
            use_type_invariant(self);
        }
        let book = Book::new();
        let input = LockInput::new(&self.writer, &self.item, book.trace());
        ShardedRwLockHandle::root(&self.shards, input, book)
    }
}

} // verus!
