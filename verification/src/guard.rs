//! The guards that attempts yield.

use vstd::prelude::*;

use portable_atomic::{AtomicBool, AtomicUsize};

use crate::attempt;
use crate::attempt::Site;
use crate::sync::UnsafeCell;
use crate::trace;
use crate::trace::{Access, Claim, Registration, Trace};

verus! {

/// A read-only access to the data. Dropping it deregisters the reader.
#[verifier::reject_recursive_types(T)]
pub struct ReaderGuard<'a, 'b, T> {
    registration: Registration<'b>,
    cell: &'a UnsafeCell<T>,
    trace: Trace,
}

impl<'a, 'b, T> ReaderGuard<'a, 'b, T> {
    /// The guard records its accesses where they belong.
    #[verifier::type_invariant]
    spec fn wf(self) -> bool {
        self.trace.key() == self.registration.key()
    }

    /// The counter on which the reader is registered.
    pub closed spec fn count(&self) -> AtomicUsize {
        self.registration.count()
    }

    /// The cell that the guard gives access to.
    pub closed spec fn cell(&self) -> UnsafeCell<T> {
        *self.cell
    }

    /// The accesses to shared memory that the guard makes itself: none until it is dropped.
    pub closed spec fn trace(&self) -> Seq<Access> {
        self.record()@
    }

    /// The record of these accesses.
    pub closed spec fn record(&self) -> Trace {
        self.trace
    }

    /// The guard of a reader whose attempt, which `trace` records from `start` on, is granted.
    pub(crate) fn granted(
        registration: Registration<'b>,
        cell: &'a UnsafeCell<T>,
        trace: &mut Trace,
        Ghost(flag): Ghost<AtomicBool>,
        Ghost(start): Ghost<int>,
    ) -> (r: Self)
        requires
            old(trace).key() == registration.key(),
            attempt::is_read_attempt(flag, registration.count(), old(trace)@.skip(start), true),
        ensures
            final(trace)@ == old(trace)@,
            trace::extends(*old(trace), *final(trace), 1),
            r.count() == registration.count(),
            r.cell() == *cell,
            r.trace() == Seq::<Access>::empty(),
            r.record().issued() == 0,
            trace::branched(*old(trace), r.record()),
        no_unwind
    {
        ReaderGuard { registration, cell, trace: trace.branch() }
    }

    /// The cell that the guard gives read-only access to.
    pub fn data(&self) -> (r: &UnsafeCell<T>)
        ensures
            *r == self.cell(),
        no_unwind
    {
        self.cell
    }
}

impl<'a, 'b, T> Drop for ReaderGuard<'a, 'b, T> {
    /// Deregisters the reader.
    fn drop(&mut self)
        ensures
            final(self).count() == old(self).count(),
            final(self).cell() == old(self).cell(),
            trace::extends(old(self).record(), final(self).record(), 0),
            attempt::deregisters(old(self).trace(), final(self).trace(), old(self).count()),
        opens_invariants none
        no_unwind
    {
        proof {
            use_type_invariant(&*self);
        }
        let ghost before = self.trace;
        let seen: usize = self.trace.leave(&self.registration);
        proof {
            let access = Access::FetchSub { count: self.registration.count(), by: 1, seen };
            trace::lemma_records(before, self.trace, access);
            assert(self.trace@ == before@.push(
                Access::FetchSub { count: self.registration.count(), by: 1, seen },
            ));
        }
    }
}

/// A reader-writer access to the data. Dropping it lowers the writer's flag.
#[verifier::reject_recursive_types(T)]
pub struct WriteGuard<'a, T> {
    claim: Claim<'a>,
    cell: &'a UnsafeCell<T>,
    trace: Trace,
}

impl<'a, T> WriteGuard<'a, T> {
    /// The guard records its accesses where they belong.
    #[verifier::type_invariant]
    spec fn wf(self) -> bool {
        self.trace.key() == self.claim.key()
    }

    /// The flag that is up for as long as the guard lives.
    pub closed spec fn flag(&self) -> AtomicBool {
        self.claim.flag()
    }

    /// The cell that the guard gives access to.
    pub closed spec fn cell(&self) -> UnsafeCell<T> {
        *self.cell
    }

    /// The accesses to shared memory that the guard makes itself: none until it is dropped.
    pub closed spec fn trace(&self) -> Seq<Access> {
        self.record()@
    }

    /// The record of these accesses.
    pub closed spec fn record(&self) -> Trace {
        self.trace
    }

    /// The guard of a writer whose attempt, which `trace` records from `start` on, is granted.
    pub(crate) fn granted(
        claim: Claim<'a>,
        cell: &'a UnsafeCell<T>,
        trace: &mut Trace,
        Ghost(site): Ghost<Site>,
        Ghost(start): Ghost<int>,
    ) -> (r: Self)
        requires
            old(trace).key() == claim.key(),
            claim.flag() == site.flag,
            attempt::is_write_attempt(site, old(trace)@.skip(start), true),
        ensures
            final(trace)@ == old(trace)@,
            trace::extends(*old(trace), *final(trace), 1),
            r.flag() == claim.flag(),
            r.cell() == *cell,
            r.trace() == Seq::<Access>::empty(),
            r.record().issued() == 0,
            trace::branched(*old(trace), r.record()),
        no_unwind
    {
        WriteGuard { claim, cell, trace: trace.branch() }
    }

    /// The cell that the guard gives exclusive access to.
    pub fn data(&self) -> (r: &UnsafeCell<T>)
        ensures
            *r == self.cell(),
        no_unwind
    {
        self.cell
    }
}

impl<'a, T> Drop for WriteGuard<'a, T> {
    /// Lowers the flag.
    fn drop(&mut self)
        ensures
            final(self).flag() == old(self).flag(),
            final(self).cell() == old(self).cell(),
            trace::extends(old(self).record(), final(self).record(), 0),
            final(self).trace() == old(self).trace().push(
                Access::StoreFlag { flag: old(self).flag(), put: false },
            ),
        opens_invariants none
        no_unwind
    {
        proof {
            use_type_invariant(&*self);
        }
        let ghost before = self.trace;
        self.trace.release(&self.claim);
        proof {
            let access = Access::StoreFlag { flag: self.claim.flag(), put: false };
            trace::lemma_records(before, self.trace, access);
        }
    }
}

} // verus!
