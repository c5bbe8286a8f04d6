//! Passes, and the records that they are issued from.
//!
//! Who makes an access to shared memory gives up a pass. Passes exist for the contracts alone. They
//! are counted where they are issued, and cannot be copied, so that who issues one pass makes one
//! access at most.
//!
//! No access is made here. What makes one cannot make up a pass, nor a record to issue it from.

use vstd::prelude::*;

use crate::trace;
use crate::trace::Access;

verus! {

/// The right to make one access.
pub struct Pass(());

/// What passes are issued from.
pub struct Meter {
    issued: Ghost<nat>,
    depth: Ghost<nat>,
}

impl Meter {
    /// How many passes have been issued, and meters split off.
    pub closed spec fn issued(&self) -> nat {
        self.issued@
    }

    /// How many times it took to split this meter off a first one.
    pub closed spec fn depth(&self) -> nat {
        self.depth@
    }

    /// A meter that nothing has been issued from.
    ///
    /// It is not `no_unwind`: who has to be makes do with the meters that it is handed.
    pub(crate) fn new() -> (r: Meter)
        ensures
            r.issued() == 0,
            r.depth() == 0,
    {
        Meter { issued: Ghost(0), depth: Ghost(0) }
    }

    /// Issues a pass.
    pub(crate) fn issue(&mut self) -> (r: Pass)
        ensures
            final(self).issued() == old(self).issued() + 1,
            final(self).depth() == old(self).depth(),
        opens_invariants none
        no_unwind
    {
        self.issued = Ghost(self.issued@ + 1);
        Pass(())
    }

    /// Splits off another meter.
    pub(crate) fn split(&mut self) -> (r: Meter)
        ensures
            final(self).issued() == old(self).issued() + 1,
            final(self).depth() == old(self).depth(),
            r.issued() == 0,
            r.depth() == old(self).depth() + 1,
        opens_invariants none
        no_unwind
    {
        self.issued = Ghost(self.issued@ + 1);
        Meter { issued: Ghost(0), depth: Ghost(self.depth@ + 1) }
    }
}

/// The accesses made so far, oldest first.
pub struct Trace {
    log: Ghost<Seq<Access>>,
    meter: Meter,
    key: Ghost<int>,
}

impl View for Trace {
    type V = Seq<Access>;

    closed spec fn view(&self) -> Seq<Access> {
        self.log@
    }
}

impl Trace {
    /// How many passes have been issued for the accesses that this record holds, and how many
    /// records have been branched off it.
    pub closed spec fn issued(&self) -> nat {
        self.meter.issued()
    }

    /// How many times it took to branch this record off a first one.
    pub closed spec fn depth(&self) -> nat {
        self.meter.depth()
    }

    /// What tells this record, and those that are branched off it, from others.
    pub closed spec fn key(&self) -> int {
        self.key@
    }

    /// An empty record. Nothing is said of its key.
    pub fn new() -> (r: Trace)
        ensures
            r@ == Seq::<Access>::empty(),
            r.issued() == 0,
            r.depth() == 0,
    {
        Trace { log: Ghost(Seq::empty()), meter: Meter::new(), key: Ghost(arbitrary()) }
    }

    /// Branches off an empty record.
    pub(crate) fn branch(&mut self) -> (r: Trace)
        ensures
            final(self)@ == old(self)@,
            trace::extends(*old(self), *final(self), 1),
            trace::branched(*old(self), r),
        opens_invariants none
        no_unwind
    {
        let ghost before = self@;
        assert(before.take(before.len() as int) =~= before);
        Trace { log: Ghost(Seq::empty()), meter: self.meter.split(), key: Ghost(self.key@) }
    }

    /// Issues a pass.
    pub(super) fn issue(&mut self) -> (r: Pass)
        ensures
            final(self)@ == old(self)@,
            final(self).key() == old(self).key(),
            final(self).depth() == old(self).depth(),
            final(self).issued() == old(self).issued() + 1,
        opens_invariants none
        no_unwind
    {
        self.meter.issue()
    }

    /// Records `access`.
    pub(super) fn append(&mut self, Ghost(access): Ghost<Access>)
        ensures
            final(self)@ == old(self)@.push(access),
            final(self).key() == old(self).key(),
            final(self).depth() == old(self).depth(),
            final(self).issued() == old(self).issued(),
        opens_invariants none
        no_unwind
    {
        self.log = Ghost(self.log@.push(access));
    }
}

/// A record that is closed: nothing can be recorded before it is opened, and so no access be made.
pub struct Book {
    trace: Trace,
}

impl Book {
    /// The record inside.
    pub closed spec fn record(&self) -> Trace {
        self.trace
    }

    /// A closed book with an empty record. Nothing is said of its key.
    pub(crate) fn new() -> (r: Book)
        ensures
            r.record()@ == Seq::<Access>::empty(),
            r.record().issued() == 0,
            r.record().depth() == 0,
        opens_invariants none
        no_unwind
    {
        let meter = Meter { issued: Ghost(0), depth: Ghost(0) };
        Book { trace: Trace { log: Ghost(Seq::empty()), meter, key: Ghost(arbitrary()) } }
    }

    /// The record inside, to look at.
    pub(crate) fn trace(&self) -> (r: &Trace)
        ensures
            *r == self.record(),
        opens_invariants none
        no_unwind
    {
        &self.trace
    }

    /// Opens the book.
    ///
    /// It is not `no_unwind`: who has to be leaves the book closed.
    pub(crate) fn open(&mut self) -> (r: &mut Trace)
        ensures
            *r == old(self).record(),
            final(self).record() == *final(r),
    {
        &mut self.trace
    }

    /// Branches off a closed book with an empty record.
    pub(crate) fn branch(&mut self) -> (r: Book)
        ensures
            final(self).record()@ == old(self).record()@,
            trace::extends(old(self).record(), final(self).record(), 1),
            trace::branched(old(self).record(), r.record()),
        opens_invariants none
        no_unwind
    {
        Book { trace: self.trace.branch() }
    }
}

} // verus!
