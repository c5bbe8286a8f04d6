//! The handles to a lock.
//!
//! The caller picks the shard for each attempt. Which shard is the best is a matter of scheduling:
//! every pick gives the same guarantees.

use vstd::prelude::*;

use crate::attempt;
use crate::attempt::Site;
use crate::guard::{ReaderGuard, WriteGuard};
use crate::shard;
use crate::storage::ShardStorage;
use crate::strategy::collect;
use crate::sync::UnsafeCell;
use crate::trace;
use crate::trace::{Access, Book, LockInput, Trace};

verus! {

/// A handle to a [`ShardedRwLock`](crate::ShardedRwLock).
#[verifier::reject_recursive_types(T)]
pub struct ShardedRwLockHandle<'a, T, B: ShardStorage<T>> {
    shards: &'a B,
    input: LockInput<'a, T>,
    book: Book,
}

impl<'a, T, B: ShardStorage<T>> ShardedRwLockHandle<'a, T, B> {
    /// The handle records its accesses where they belong.
    pub closed spec fn wf(&self) -> bool {
        self.record().key() == self.input.key()
    }

    /// Where the shared state of the lock lies that the handle belongs to.
    pub closed spec fn site(&self) -> Site {
        Site { flag: self.input.flag(), arms: shard::counts(self.shards.arms()) }
    }

    /// The cell of that lock.
    pub closed spec fn cell(&self) -> UnsafeCell<T> {
        self.input.cell()
    }

    /// The accesses to shared memory that were made through the handle.
    pub closed spec fn trace(&self) -> Seq<Access> {
        self.record()@
    }

    /// The record of these accesses.
    pub closed spec fn record(&self) -> Trace {
        self.book.record()
    }

    pub(crate) proof fn lemma_trace_is_record(&self)
        ensures
            self.trace() == self.record()@,
    {
    }

    /// The handle for attempts on `shards` that are recorded in `book`.
    pub(crate) fn root(shards: &'a B, input: LockInput<'a, T>, book: Book) -> (r: Self)
        requires
            book.record().key() == input.key(),
        ensures
            r.wf(),
            r.site() == (Site { flag: input.flag(), arms: shard::counts(shards.arms()) }),
            r.cell() == input.cell(),
            r.record() == book.record(),
            r.trace() == book.record()@,
        no_unwind
    {
        ShardedRwLockHandle { shards, input, book }
    }

    /// Attempts to acquire read-only access to the data, on the shard with the index `arm`.
    pub fn read(&mut self, arm: usize) -> (r: Option<ReaderGuard<'a, '_, T>>)
        requires
            old(self).wf(),
            arm < old(self).site().arms.len(),
        ensures
            final(self).wf(),
            final(self).site() == old(self).site(),
            final(self).cell() == old(self).cell(),
            trace::extends(
                old(self).record(),
                final(self).record(),
                if r is Some {
                    1
                } else {
                    0
                },
            ),
            attempt::is_read_attempt(
                old(self).site().flag,
                old(self).site().arms[arm as int],
                trace::added(old(self).trace(), final(self).trace()),
                r is Some,
            ),
            r matches Some(guard) ==> {
                &&& guard.count() == old(self).site().arms[arm as int]
                &&& guard.cell() == old(self).cell()
                &&& guard.trace() == Seq::<Access>::empty()
                &&& trace::branched(old(self).record(), guard.record())
            },
    {
        let shards: &'a B = self.shards;
        match shards.arm(arm).offer(self.input, self.book.open()) {
            Ok(guard) => Some(guard),
            Err(()) => None,
        }
    }

    /// Attempts to acquire reader-writer access to the data.
    ///
    /// The shard with the index `arm` is polled first; what it answers does not matter.
    pub fn write(&mut self, arm: usize) -> (r: Option<WriteGuard<'a, T>>)
        requires
            old(self).wf(),
            arm < old(self).site().arms.len(),
        ensures
            final(self).wf(),
            final(self).site() == old(self).site(),
            final(self).cell() == old(self).cell(),
            trace::extends(
                old(self).record(),
                final(self).record(),
                if r is Some {
                    1
                } else {
                    0
                },
            ),
            attempt::is_polled_write_attempt(
                old(self).site(),
                arm as int,
                trace::added(old(self).trace(), final(self).trace()),
                r is Some,
            ),
            r matches Some(guard) ==> {
                &&& guard.flag() == old(self).site().flag
                &&& guard.cell() == old(self).cell()
                &&& guard.trace() == Seq::<Access>::empty()
                &&& trace::branched(old(self).record(), guard.record())
            },
    {
        let ghost before = self.record();
        match self.shards.arm(arm).poll(self.input, self.book.open()) {
            Ok(guard) => Some(guard),
            Err(readers) => {
                let ghost polled = self.record();
                proof {
                    let count = self.site().arms[arm as int];
                    let access = Access::LoadCount { count, seen: readers };
                    trace::lemma_records(before, polled, access);
                }
                let collected = collect(self.shards, self.input, self.book.open());
                proof {
                    let branches: nat = if collected is Some {
                        1
                    } else {
                        0
                    };
                    trace::lemma_extends_on(before, polled, self.record(), 0, branches);
                    assert(trace::added(before@, self.trace()).skip(1) =~= trace::added(
                        polled@,
                        self.trace(),
                    ));
                }
                match collected {
                    Some((guard, _arm)) => Some(guard),
                    None => None,
                }
            },
        }
    }

    /// Creates a new handle to the same lock from this handle.
    pub fn fork(&mut self) -> (r: Self)
        requires
            old(self).wf(),
        ensures
            final(self).wf(),
            final(self).site() == old(self).site(),
            final(self).cell() == old(self).cell(),
            final(self).trace() == old(self).trace(),
            trace::extends(old(self).record(), final(self).record(), 1),
            r.wf(),
            r.site() == old(self).site(),
            r.cell() == old(self).cell(),
            r.trace() == Seq::<Access>::empty(),
            r.record().issued() == 0,
            trace::branched(old(self).record(), r.record()),
        no_unwind
    {
        ShardedRwLockHandle {
            shards: self.shards,
            input: self.input,
            book: self.book.branch(),
        }
    }
}

} // verus!
