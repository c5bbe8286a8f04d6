//! How a writer goes over the shards.

use vstd::prelude::*;

use crate::attempt;
use crate::attempt::Site;
use crate::guard::WriteGuard;
use crate::shard;
use crate::storage::ShardStorage;
use crate::trace;
use crate::trace::{Access, LockInput, Trace};

verus! {

impl<'a, T> Copy for LockInput<'a, T> {

}

impl<'a, T> Clone for LockInput<'a, T> {
    fn clone(&self) -> (r: Self)
        ensures
            r == *self,
    {
        *self
    }
}

/// Whether no arm has a reader. The arms are looked at in order, up to the first that has one.
pub fn no_reader<'a, T, B: ShardStorage<T>>(
    arms: &B,
    input: LockInput<'a, T>,
    trace: &mut Trace,
) -> (r: bool)
    requires
        old(trace).key() == input.key(),
    ensures
        trace::extends(*old(trace), *final(trace), 0),
        attempt::is_scan(shard::counts(arms.arms()), trace::added(old(trace)@, final(trace)@), r),
{
    let ghost before = *trace;
    let ghost all = shard::counts(arms.arms());
    let mut i: usize = 0;
    assert(trace::added(before@, before@) =~= attempt::clear_scan(all, 0));
    while i < arms.arm_count()
        invariant
            i <= arms.arms().len(),
            all == shard::counts(arms.arms()),
            before.key() == input.key(),
            trace::extends(before, *trace, 0),
            trace::added(before@, trace@) == attempt::clear_scan(all, i as int),
            before == *old(trace),
        decreases arms.arms().len() - i,
    {
        let ghost earlier = *trace;
        let polled = arms.arm(i).poll(input, trace);
        proof {
            let access = Access::LoadCount { count: all[i as int], seen: polled->Err_0 };
            trace::lemma_records_on(before, earlier, *trace, access);
        }
        match polled {
            Err(0) => {
                assert(trace::added(before@, trace@) =~= attempt::clear_scan(all, i + 1));
            },
            _ => {
                assert(trace::added(before@, trace@) =~= attempt::busy_scan(
                    all,
                    i as int,
                    polled->Err_0,
                ));
                return false;
            },
        }
        i = i + 1;
    }
    true
}

/// Attempts to let a writer in.
///
/// The writer raises the flag only when it has found no reader, and is let in only if it still
/// finds none afterwards. The index that comes with the guard is always that of the first arm.
pub fn collect<'a, T, B: ShardStorage<T>>(
    arms: &B,
    input: LockInput<'a, T>,
    trace: &mut Trace,
) -> (r: Option<(WriteGuard<'a, T>, usize)>)
    requires
        old(trace).key() == input.key(),
    ensures
        trace::extends(
            *old(trace),
            *final(trace),
            if r is Some {
                1
            } else {
                0
            },
        ),
        attempt::is_write_attempt(
            (Site { flag: input.flag(), arms: shard::counts(arms.arms()) }),
            trace::added(old(trace)@, final(trace)@),
            r is Some,
        ),
        r matches Some((guard, arm)) ==> {
            &&& guard.flag() == input.flag()
            &&& guard.cell() == input.cell()
            &&& guard.trace() == Seq::<Access>::empty()
            &&& trace::branched(*old(trace), guard.record())
            &&& arm == 0
        },
{
    let ghost before = *trace;
    let ghost site = Site { flag: input.flag(), arms: shard::counts(arms.arms()) };
    if !no_reader(arms, input, trace) {
        return None;
    }
    let ghost scanned = *trace;
    let raised = trace.raise(input);
    let ghost claimed = *trace;
    proof {
        let access = Access::SwapFlag { flag: site.flag, put: true, seen: raised is None };
        trace::lemma_records_on(before, scanned, claimed, access);
    }
    assert(trace::added(before@, claimed@) =~= attempt::claim(site, raised is None));
    match raised {
        None => None,
        Some(claim) => {
            let clear: bool = no_reader(arms, input, trace);
            let ghost scanned_again = *trace;
            let ghost found = trace::added(claimed@, trace@);
            proof {
                trace::lemma_extends_on(before, claimed, scanned_again, 0, 0);
            }
            if !clear {
                trace.lower(claim);
                proof {
                    let access = Access::StoreFlag { flag: site.flag, put: false };
                    trace::lemma_records_on(before, scanned_again, *trace, access);
                    let (n, readers) = choose|n: int, readers: usize|
                        0 <= n < site.arms.len() && readers != 0 && found
                            == #[trigger] attempt::busy_scan(site.arms, n, readers);
                    assert(trace::added(before@, trace@) =~= attempt::write_taken_back(
                        site,
                        n,
                        readers,
                    ));
                }
                return None;
            }
            let guard = WriteGuard::granted(
                claim,
                input.data(),
                trace,
                Ghost(site),
                Ghost(before@.len() as int),
            );
            proof {
                trace::lemma_extends_on(before, scanned_again, *trace, 0, 1);
            }
            Some((guard, 0))
        },
    }
}

} // verus!
