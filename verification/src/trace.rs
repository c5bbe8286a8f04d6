//! The accesses to shared memory, and a record of them.
//!
//! No contract can say what a shared location holds, but it can say which accesses are made, to
//! which locations and in which order, and what follows from the values that were seen. The
//! record exists for the contracts alone: the compiled code holds nothing of it.
//!
//! # What is recorded
//!
//! The functions that touch an atomic are private to this module, and each call of one takes a
//! [`Pass`]. The methods of [`Trace`] issue one pass for each access that they record, and the
//! contracts of attempts say how many passes were issued in all ([`extends`]), and that the one
//! record which they branch off, for the guard, is handed out unused ([`branched`]). So an attempt
//! makes no access through the record that it is handed, or through a branch of it, that the record
//! does not hold: see [`lineage`](crate::lineage).
//!
//! The attempts cannot change anything through another record either:
//!
//! - The functions of [`shard`](crate::shard) and [`guard`](crate::guard), which have a counter or
//!   the flag at hand, cannot start one: they are `no_unwind`, and [`Trace::new`] is not.
//! - [`no_reader`](crate::strategy::no_reader), [`collect`](crate::strategy::collect) and the
//!   methods of a [handle](crate::ShardedRwLockHandle) can start one. But they reach the flag and
//!   the counters only by way of a [`LockInput`] or a [`Claim`], which go with the records that
//!   have the same key. Nothing is known of the key of a new record, and to make another input they
//!   would need a flag. All that is left to them is to see whether a shard is empty.
//! - A record that is branched off has the same key, but counts as a pass.
//!
//! To make a handle takes no access. What makes one is `no_unwind`, and starts a closed [`Book`],
//! which it cannot open. To make a lock takes none either. What makes one is
//! `opens_invariants none`, and so can make no handle to it, start no record and open no book.

use vstd::prelude::*;

use portable_atomic::{AtomicBool, AtomicUsize};

use crate::sync::UnsafeCell;
use crate::trace::pass::Pass;

pub mod pass;

pub use crate::trace::pass::{Book, Trace};

verus! {

/// `AtomicBool::load` with `SeqCst`: returns what the location holds.
///
/// Other threads decide what that is, so nothing is claimed of it.
#[verifier::external_body]
fn flag_load(_pass: Pass, flag: &AtomicBool) -> (seen: bool)
    opens_invariants none
    no_unwind
{
    flag.load(portable_atomic::Ordering::SeqCst)
}

/// `AtomicBool::swap` with `SeqCst`: puts `v` into the location and returns what it held.
///
/// Other threads decide what that is, so nothing is claimed of it.
#[verifier::external_body]
fn flag_swap(_pass: Pass, flag: &AtomicBool, v: bool) -> (seen: bool)
    opens_invariants none
    no_unwind
{
    flag.swap(v, portable_atomic::Ordering::SeqCst)
}

/// `AtomicBool::store` with `SeqCst`: puts `v` into the location.
#[verifier::external_body]
fn flag_store(_pass: Pass, flag: &AtomicBool, v: bool)
    opens_invariants none
    no_unwind
{
    flag.store(v, portable_atomic::Ordering::SeqCst)
}

/// `AtomicUsize::load` with `SeqCst`: returns what the location holds.
///
/// Other threads decide what that is, so nothing is claimed of it.
#[verifier::external_body]
fn count_load(_pass: Pass, count: &AtomicUsize) -> (seen: usize)
    opens_invariants none
    no_unwind
{
    count.load(portable_atomic::Ordering::SeqCst)
}

/// `AtomicUsize::fetch_add` with `SeqCst`: adds `v`, wrapping around, and returns what the
/// location held before.
///
/// Other threads decide what that is, so nothing is claimed of it.
#[verifier::external_body]
fn count_fetch_add(_pass: Pass, count: &AtomicUsize, v: usize) -> (seen: usize)
    opens_invariants none
    no_unwind
{
    count.fetch_add(v, portable_atomic::Ordering::SeqCst)
}

/// `AtomicUsize::fetch_sub` with `SeqCst`: subtracts `v`, wrapping around, and returns what the
/// location held before.
///
/// Other threads decide what that is, so nothing is claimed of it.
#[verifier::external_body]
fn count_fetch_sub(_pass: Pass, count: &AtomicUsize, v: usize) -> (seen: usize)
    opens_invariants none
    no_unwind
{
    count.fetch_sub(v, portable_atomic::Ordering::SeqCst)
}

/// One access to shared memory: its location, its arguments, and the value that the location
/// held as it was made.
#[allow(inconsistent_fields)]
pub enum Access {
    /// A load of a flag.
    LoadFlag { flag: AtomicBool, seen: bool },
    /// `put` was swapped into a flag.
    SwapFlag { flag: AtomicBool, put: bool, seen: bool },
    /// `put` was stored into a flag.
    StoreFlag { flag: AtomicBool, put: bool },
    /// A load of a counter.
    LoadCount { count: AtomicUsize, seen: usize },
    /// `by` was added to a counter.
    FetchAdd { count: AtomicUsize, by: usize, seen: usize },
    /// `by` was subtracted from a counter.
    FetchSub { count: AtomicUsize, by: usize, seen: usize },
}

/// Whether `access` is what a call of the operation on its location comes to: a call was made with
/// the arguments of `access`, and returned the value that `access` has seen.
pub closed spec fn happened(access: Access) -> bool {
    exists|pass: Pass| #[trigger] happened_for(pass, access)
}

/// Whether the call was made for `pass`.
spec fn happened_for(pass: Pass, access: Access) -> bool {
    match access {
        Access::LoadFlag { flag, seen } => call_ensures(flag_load, (pass, &flag), seen),
        Access::SwapFlag { flag, put, seen } => call_ensures(flag_swap, (pass, &flag, put), seen),
        Access::StoreFlag { flag, put } => call_ensures(flag_store, (pass, &flag, put), ()),
        Access::LoadCount { count, seen } => call_ensures(count_load, (pass, &count), seen),
        Access::FetchAdd { count, by, seen } => call_ensures(
            count_fetch_add,
            (pass, &count, by),
            seen,
        ),
        Access::FetchSub { count, by, seen } => call_ensures(
            count_fetch_sub,
            (pass, &count, by),
            seen,
        ),
    }
}

/// The accesses in `after` that come behind `before`.
pub open spec fn added(before: Seq<Access>, after: Seq<Access>) -> Seq<Access> {
    after.skip(before.len() as int)
}

/// Whether `after` is `before` with accesses behind it that have all happened.
pub open spec fn grows(before: Seq<Access>, after: Seq<Access>) -> bool {
    &&& before.len() <= after.len()
    &&& after.take(before.len() as int) =~= before
    &&& forall|i: int|
        0 <= i < added(before, after).len() ==> happened(#[trigger] added(before, after)[i])
}

/// Whether `after` is `before` with `access` behind it, which has happened for one pass.
pub open spec fn records(before: Trace, after: Trace, access: Access) -> bool {
    &&& happened(access)
    &&& after@ == before@.push(access)
    &&& after.key() == before.key()
    &&& after.depth() == before.depth()
    &&& after.issued() == before.issued() + 1
}

/// Whether `after` is `before` with accesses behind it that have all happened, for one pass each,
/// and with `branches` records branched off it.
pub open spec fn extends(before: Trace, after: Trace, branches: nat) -> bool {
    &&& grows(before@, after@)
    &&& after.key() == before.key()
    &&& after.depth() == before.depth()
    &&& after.issued() == before.issued() + added(before@, after@).len() + branches
}

/// Whether `branch` is a record that was branched off `parent` itself, and that nothing has been
/// done with.
pub open spec fn branched(parent: Trace, branch: Trace) -> bool {
    &&& branch@ == Seq::<Access>::empty()
    &&& branch.issued() == 0
    &&& branch.depth() == parent.depth() + 1
    &&& branch.key() == parent.key()
}

/// What is extended twice is extended.
pub(crate) proof fn lemma_extends_on(a: Trace, b: Trace, c: Trace, first: nat, second: nat)
    requires
        extends(a, b, first),
        extends(b, c, second),
    ensures
        extends(a, c, first + second),
        added(a@, c@) == added(a@, b@) + added(b@, c@),
{
    assert(added(a@, c@) =~= added(a@, b@) + added(b@, c@));
    assert(c@.take(a@.len() as int) =~= b@.take(a@.len() as int));
}

/// What is extended, and then has one access more recorded, is extended.
pub(crate) proof fn lemma_records_on(a: Trace, b: Trace, c: Trace, access: Access)
    requires
        extends(a, b, 0),
        records(b, c, access),
    ensures
        extends(a, c, 0),
        added(a@, c@) == added(a@, b@).push(access),
{
    lemma_records(b, c, access);
    lemma_extends_on(a, b, c, 0, 0);
}

/// What has one access more recorded is extended.
pub(crate) proof fn lemma_records(before: Trace, after: Trace, access: Access)
    requires
        records(before, after, access),
    ensures
        extends(before, after, 0),
        added(before@, after@) == seq![access],
{
    assert(added(before@, after@) =~= seq![access]);
}

proof fn lemma_happened(pass: Pass, access: Access)
    requires
        happened_for(pass, access),
    ensures
        happened(access),
{
}

/// What an attempt needs to know of the lock: the flag that a writer raises, and the data. It goes
/// with the records that have the same key.
#[verifier::reject_recursive_types(T)]
pub struct LockInput<'a, T> {
    writer: &'a AtomicBool,
    data: &'a UnsafeCell<T>,
    key: Ghost<int>,
}

impl<'a, T> LockInput<'a, T> {
    /// The flag that a writer raises.
    pub closed spec fn flag(&self) -> AtomicBool {
        *self.writer
    }

    /// The cell that holds the data.
    pub closed spec fn cell(&self) -> UnsafeCell<T> {
        *self.data
    }

    /// The key of the records that the input goes with.
    pub closed spec fn key(&self) -> int {
        self.key@
    }

    /// The input for attempts that are recorded in `trace`.
    pub fn new(writer: &'a AtomicBool, data: &'a UnsafeCell<T>, trace: &Trace) -> (r: Self)
        ensures
            r.flag() == *writer,
            r.cell() == *data,
            r.key() == trace.key(),
        no_unwind
    {
        LockInput { writer, data, key: Ghost(trace.key()) }
    }

    /// The cell that holds the data.
    pub(crate) fn data(&self) -> (r: &'a UnsafeCell<T>)
        ensures
            *r == self.cell(),
        no_unwind
    {
        self.data
    }
}

/// The registration of one reader on a counter. It goes with the records that have the same key.
pub struct Registration<'b> {
    count: &'b AtomicUsize,
    key: Ghost<int>,
}

impl<'b> Registration<'b> {
    /// The counter.
    pub closed spec fn count(&self) -> AtomicUsize {
        *self.count
    }

    /// The key of the records that the registration goes with.
    pub closed spec fn key(&self) -> int {
        self.key@
    }
}

/// The claim of the one writer that has raised a flag. It goes with the records that have the same
/// key.
pub struct Claim<'a> {
    flag: &'a AtomicBool,
    key: Ghost<int>,
}

impl<'a> Claim<'a> {
    /// The flag.
    pub closed spec fn flag(&self) -> AtomicBool {
        *self.flag
    }

    /// The key of the records that the claim goes with.
    pub closed spec fn key(&self) -> int {
        self.key@
    }
}

impl Trace {
    /// Loads the flag.
    pub(crate) fn load_flag<'a, T>(&mut self, input: LockInput<'a, T>) -> (seen: bool)
        requires
            old(self).key() == input.key(),
        ensures
            records(*old(self), *final(self), Access::LoadFlag { flag: input.flag(), seen }),
        opens_invariants none
        no_unwind
    {
        let pass = self.issue();
        let seen: bool = flag_load(pass, input.writer);
        let ghost access = Access::LoadFlag { flag: *input.writer, seen };
        proof {
            lemma_happened(pass, access);
        }
        self.append(Ghost(access));
        seen
    }

    /// Raises the flag. Who finds it down has claimed it.
    pub(crate) fn raise<'a, T>(&mut self, input: LockInput<'a, T>) -> (r: Option<Claim<'a>>)
        requires
            old(self).key() == input.key(),
        ensures
            records(
                *old(self),
                *final(self),
                Access::SwapFlag { flag: input.flag(), put: true, seen: r is None },
            ),
            r matches Some(claim) ==> claim.flag() == input.flag() && claim.key() == input.key(),
        opens_invariants none
        no_unwind
    {
        let pass = self.issue();
        let seen: bool = flag_swap(pass, input.writer, true);
        let ghost access = Access::SwapFlag { flag: *input.writer, put: true, seen };
        proof {
            lemma_happened(pass, access);
        }
        self.append(Ghost(access));
        if seen {
            None
        } else {
            Some(Claim { flag: input.writer, key: Ghost(self.key()) })
        }
    }

    /// Lowers the flag for who has claimed it.
    pub(crate) fn release<'a>(&mut self, claim: &Claim<'a>)
        requires
            old(self).key() == claim.key(),
        ensures
            records(
                *old(self),
                *final(self),
                Access::StoreFlag { flag: claim.flag(), put: false },
            ),
        opens_invariants none
        no_unwind
    {
        let pass = self.issue();
        flag_store(pass, claim.flag, false);
        let ghost access = Access::StoreFlag { flag: *claim.flag, put: false };
        proof {
            lemma_happened(pass, access);
        }
        self.append(Ghost(access));
    }

    /// Gives up a claim: lowers the flag.
    pub(crate) fn lower<'a>(&mut self, claim: Claim<'a>)
        requires
            old(self).key() == claim.key(),
        ensures
            records(
                *old(self),
                *final(self),
                Access::StoreFlag { flag: claim.flag(), put: false },
            ),
        opens_invariants none
        no_unwind
    {
        self.release(&claim);
    }

    /// Loads `count`.
    pub(crate) fn load_count(&mut self, count: &AtomicUsize) -> (seen: usize)
        ensures
            records(*old(self), *final(self), Access::LoadCount { count: *count, seen }),
        opens_invariants none
        no_unwind
    {
        let pass = self.issue();
        let seen: usize = count_load(pass, count);
        let ghost access = Access::LoadCount { count: *count, seen };
        proof {
            lemma_happened(pass, access);
        }
        self.append(Ghost(access));
        seen
    }

    /// Registers a reader on `count`. What the counter held before comes with the registration.
    pub(crate) fn register<'b>(&mut self, count: &'b AtomicUsize) -> (r: (Registration<'b>, usize))
        ensures
            records(*old(self), *final(self), Access::FetchAdd { count: *count, by: 1, seen: r.1 }),
            r.0.count() == *count,
            r.0.key() == old(self).key(),
        opens_invariants none
        no_unwind
    {
        let pass = self.issue();
        let seen: usize = count_fetch_add(pass, count, 1);
        let ghost access = Access::FetchAdd { count: *count, by: 1, seen };
        proof {
            lemma_happened(pass, access);
        }
        self.append(Ghost(access));
        (Registration { count, key: Ghost(self.key()) }, seen)
    }

    /// Takes off the counter who has registered there. Returns what the counter held before.
    pub(crate) fn leave<'b>(&mut self, registration: &Registration<'b>) -> (seen: usize)
        requires
            old(self).key() == registration.key(),
        ensures
            records(
                *old(self),
                *final(self),
                Access::FetchSub { count: registration.count(), by: 1, seen },
            ),
        opens_invariants none
        no_unwind
    {
        let pass = self.issue();
        let seen: usize = count_fetch_sub(pass, registration.count, 1);
        let ghost access = Access::FetchSub { count: *registration.count, by: 1, seen };
        proof {
            lemma_happened(pass, access);
        }
        self.append(Ghost(access));
        seen
    }

    /// Gives up a registration: takes the reader off the counter. Returns what the counter held
    /// before.
    pub(crate) fn deregister<'b>(&mut self, registration: Registration<'b>) -> (seen: usize)
        requires
            old(self).key() == registration.key(),
        ensures
            records(
                *old(self),
                *final(self),
                Access::FetchSub { count: registration.count(), by: 1, seen },
            ),
        opens_invariants none
        no_unwind
    {
        self.leave(&registration)
    }
}

} // verus!
