//! One shard of the reader count.

use vstd::prelude::*;

use core::marker::PhantomData;

use crossbeam_utils::CachePadded;
use portable_atomic::AtomicUsize;

use crate::attempt;
use crate::guard::{ReaderGuard, WriteGuard};
use crate::sync;
use crate::sync::{count_new, pad, unpad};
use crate::trace;
use crate::trace::{Access, LockInput, Trace};

verus! {

/// The count of registered readers on a shard.
#[derive(Debug)]
pub struct ReaderShard<T>(CachePadded<AtomicUsize>, PhantomData<T>);

impl<T> ReaderShard<T> {
    /// The counter of the shard.
    pub closed spec fn count(&self) -> AtomicUsize {
        sync::unpadded(self.0)
    }

    /// A shard without readers.
    pub fn with_capacity() -> (r: Self)
        ensures
            sync::initial_count(r.count()) == 0,
        no_unwind
    {
        ReaderShard(pad(count_new(0)), PhantomData)
    }

    /// Attempts to register a reader on this shard.
    ///
    /// The registration stands only if the counter has room for it, and no writer has raised the
    /// flag before or after it.
    pub fn offer<'a, 'b>(&'b self, item: LockInput<'a, T>, trace: &mut Trace) -> (r: Result<
        ReaderGuard<'a, 'b, T>,
        (),
    >)
        requires
            old(trace).key() == item.key(),
        ensures
            trace::extends(
                *old(trace),
                *final(trace),
                if r is Ok {
                    1
                } else {
                    0
                },
            ),
            attempt::is_read_attempt(
                item.flag(),
                self.count(),
                trace::added(old(trace)@, final(trace)@),
                r is Ok,
            ),
            r matches Ok(guard) ==> {
                &&& guard.count() == self.count()
                &&& guard.cell() == item.cell()
                &&& guard.trace() == Seq::<Access>::empty()
                &&& trace::branched(*old(trace), guard.record())
            },
        no_unwind
    {
        let ghost before = *trace;
        let ghost flag = item.flag();
        let old_writer = trace.load_flag(item);
        let ghost cleared = *trace;
        proof {
            trace::lemma_records(before, cleared, Access::LoadFlag { flag, seen: old_writer });
        }
        if old_writer {
            assert(trace::added(before@, trace@) =~= attempt::read_turned_away(flag));
            return Err(());
        }
        let (registration, readers): (_, usize) = trace.register(unpad(&self.0));
        let ghost registered = *trace;
        let ghost count = self.count();
        proof {
            let access = Access::FetchAdd { count, by: 1, seen: readers };
            trace::lemma_records_on(before, cleared, registered, access);
        }
        if readers == usize::MAX {
            let after: usize = trace.deregister(registration);
            proof {
                let access = Access::FetchSub { count, by: 1, seen: after };
                trace::lemma_records_on(before, registered, *trace, access);
            }
            assert(trace::added(before@, trace@) =~= attempt::read_overflowed(flag, count, after));
            return Err(());
        }
        let writer_now = trace.load_flag(item);
        let ghost checked = *trace;
        proof {
            let access = Access::LoadFlag { flag, seen: writer_now };
            trace::lemma_records_on(before, registered, checked, access);
        }
        if writer_now {
            let after: usize = trace.deregister(registration);
            proof {
                let access = Access::FetchSub { count, by: 1, seen: after };
                trace::lemma_records_on(before, checked, *trace, access);
            }
            assert(trace::added(before@, trace@) =~= attempt::read_taken_back(
                flag,
                count,
                readers,
                after,
            ));
            Err(())
        } else {
            assert(trace::added(before@, trace@) =~= attempt::read_granted(flag, count, readers));
            let guard = ReaderGuard::granted(
                registration,
                item.data(),
                trace,
                Ghost(flag),
                Ghost(before@.len() as int),
            );
            proof {
                trace::lemma_extends_on(before, checked, *trace, 0, 1);
            }
            Ok(guard)
        }
    }

    /// Never yields a guard: one shard alone cannot let a writer in. Returns the count of readers
    /// on this shard.
    pub fn poll<'a, 'b>(&'b self, _input: LockInput<'a, T>, trace: &mut Trace) -> (r: Result<
        WriteGuard<'a, T>,
        usize,
    >)
        requires
            old(trace).key() == _input.key(),
        ensures
            r is Err,
            trace::records(
                *old(trace),
                *final(trace),
                Access::LoadCount { count: self.count(), seen: r->Err_0 },
            ),
        no_unwind
    {
        Err(trace.load_count(unpad(&self.0)))
    }

    /// The length of a shard is 1.
    pub fn len(&self) -> (r: usize)
        ensures
            r == 1,
        no_unwind
    {
        1
    }

    /// The capacity of a shard is 1.
    pub fn capacity(&self) -> (r: usize)
        ensures
            r == 1,
        no_unwind
    {
        1
    }

    /// Whether the shard has no reader.
    pub fn is_empty(&self, trace: &mut Trace) -> (r: bool)
        ensures
            exists|seen: usize|
                #[trigger] trace::records(
                    *old(trace),
                    *final(trace),
                    Access::LoadCount { count: self.count(), seen },
                ) && r == (seen == 0),
        no_unwind
    {
        let ghost before = *trace;
        let seen: usize = trace.load_count(unpad(&self.0));
        assert(trace::records(before, *trace, Access::LoadCount { count: self.count(), seen }));
        seen == 0
    }
}

/// The counters of the shards `arms`, in order.
pub open spec fn counts<T>(arms: Seq<ReaderShard<T>>) -> Seq<AtomicUsize> {
    Seq::new(arms.len(), |i: int| arms[i].count())
}

} // verus!
