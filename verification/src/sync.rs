//! The shared memory that the lock is made of: atomics, padding and the data cell.
//!
//! The value that an atomic was made with never changes, and has a name. What it holds later
//! depends on the other threads: see [`trace`](crate::trace) for the operations on one.

use vstd::prelude::*;

use crossbeam_utils::CachePadded;
use portable_atomic::{AtomicBool, AtomicUsize};

verus! {

/// [`portable_atomic::AtomicBool`]. A value of it stands for the memory location, not for what
/// the location holds.
#[verifier::external_type_specification]
#[verifier::external_body]
pub struct ExAtomicBool(portable_atomic::AtomicBool);

/// [`portable_atomic::AtomicUsize`]. A value of it stands for the memory location, not for what
/// the location holds.
#[verifier::external_type_specification]
#[verifier::external_body]
pub struct ExAtomicUsize(portable_atomic::AtomicUsize);

/// [`crossbeam_utils::CachePadded`].
#[verifier::external_type_specification]
#[verifier::external_body]
#[verifier::reject_recursive_types(T)]
pub struct ExCachePadded<T>(crossbeam_utils::CachePadded<T>);

/// [`core::cell::UnsafeCell`].
#[verifier::external_type_specification]
#[verifier::external_body]
#[verifier::reject_recursive_types(T)]
pub struct ExUnsafeCell<T: ?Sized>(core::cell::UnsafeCell<T>);

/// The value that `flag` was made with.
pub uninterp spec fn initial_flag(flag: AtomicBool) -> bool;

/// The value that `count` was made with.
pub uninterp spec fn initial_count(count: AtomicUsize) -> usize;

/// The counter inside a padded one.
pub uninterp spec fn unpadded(count: CachePadded<AtomicUsize>) -> AtomicUsize;

/// `AtomicUsize::new`: a new location that holds `v` first.
#[verifier::external_body]
pub(crate) fn count_new(v: usize) -> (r: AtomicUsize)
    ensures
        initial_count(r) == v,
    opens_invariants none
    no_unwind
{
    AtomicUsize::new(v)
}

/// `CachePadded::from`: a padded value with `count` inside.
#[verifier::external_body]
pub(crate) fn pad(count: AtomicUsize) -> (r: CachePadded<AtomicUsize>)
    ensures
        unpadded(r) == count,
    opens_invariants none
    no_unwind
{
    CachePadded::from(count)
}

/// `CachePadded::deref`: the value inside.
#[verifier::external_body]
pub(crate) fn unpad(count: &CachePadded<AtomicUsize>) -> (r: &AtomicUsize)
    ensures
        *r == unpadded(*count),
    opens_invariants none
    no_unwind
{
    count
}

/// `UnsafeCell::new`: wraps a value into a cell. Nothing is claimed of the cell beyond its being
/// one that this call made from `value`.
pub assume_specification<T>[ core::cell::UnsafeCell::<T>::new ](value: T) -> (r:
    core::cell::UnsafeCell<T>)
    opens_invariants none
;

/// The cell that holds the data behind a lock.
#[verifier::reject_recursive_types(T)]
#[derive(Debug)]
pub struct UnsafeCell<T>(core::cell::UnsafeCell<T>);

impl<T> UnsafeCell<T> {
    /// The cell of the standard library inside.
    pub closed spec fn inner(&self) -> core::cell::UnsafeCell<T> {
        self.0
    }

    /// Whether this cell was made to hold `data` first.
    pub open spec fn made_from(&self, data: T) -> bool {
        call_ensures(core::cell::UnsafeCell::<T>::new, (data,), self.inner())
    }

    /// Makes a cell that holds `data`.
    pub fn new(data: T) -> (r: UnsafeCell<T>)
        ensures
            r.made_from(data),
        opens_invariants none
    {
        UnsafeCell(core::cell::UnsafeCell::new(data))
    }

    /// Hands the cell of the standard library to `f` and returns what `f` returns.
    ///
    /// From that cell `f` can get at the data. The lock does not protect the data here: it is the
    /// guards that say who may touch it.
    pub fn with_mut<R>(&self, f: impl FnOnce(&core::cell::UnsafeCell<T>) -> R) -> (r: R)
        requires
            call_requires(f, (&self.inner(),)),
        ensures
            call_ensures(f, (&self.inner(),), r),
    {
        f(&self.0)
    }
}

impl<T: Default> Default for UnsafeCell<T> {
    /// Makes a cell that holds the default of `T`.
    fn default() -> (r: Self)
        ensures
            exists|data: T|
                call_ensures(T::default, (), data) && #[trigger] r.made_from(data),
    {
        let data = T::default();
        let r = Self::new(data);
        assert(r.made_from(data));
        r
    }
}

} // verus!
