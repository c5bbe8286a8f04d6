//! Which accesses an attempt to read or to write makes, and what they decide.

use vstd::prelude::*;

use portable_atomic::{AtomicBool, AtomicUsize};

use crate::trace::Access;

verus! {

/// Where the shared state of one lock lies: the flag that a writer raises, and the reader
/// counters of its arms, in order.
pub struct Site {
    pub flag: AtomicBool,
    pub arms: Seq<AtomicUsize>,
}

/// A reader that finds the flag raised turns away at once.
pub open spec fn read_turned_away(flag: AtomicBool) -> Seq<Access> {
    seq![Access::LoadFlag { flag, seen: true }]
}

/// A reader that finds the counter full takes its registration back. `after` is what the counter
/// held as the reader deregistered.
pub open spec fn read_overflowed(
    flag: AtomicBool,
    count: AtomicUsize,
    after: usize,
) -> Seq<Access> {
    seq![
        Access::LoadFlag { flag, seen: false },
        Access::FetchAdd { count, by: 1, seen: usize::MAX },
        Access::FetchSub { count, by: 1, seen: after },
    ]
}

/// A reader that finds the flag raised only after it has registered takes its registration back.
/// `before` and `after` are what the counter held as the reader registered and deregistered.
pub open spec fn read_taken_back(
    flag: AtomicBool,
    count: AtomicUsize,
    before: usize,
    after: usize,
) -> Seq<Access> {
    seq![
        Access::LoadFlag { flag, seen: false },
        Access::FetchAdd { count, by: 1, seen: before },
        Access::LoadFlag { flag, seen: true },
        Access::FetchSub { count, by: 1, seen: after },
    ]
}

/// A reader that finds room on the counter, and the flag down before and after it registers, may
/// read.
pub open spec fn read_granted(flag: AtomicBool, count: AtomicUsize, before: usize) -> Seq<Access> {
    seq![
        Access::LoadFlag { flag, seen: false },
        Access::FetchAdd { count, by: 1, seen: before },
        Access::LoadFlag { flag, seen: false },
    ]
}

/// Whether `ops` are the accesses of a whole attempt to read by way of the counter `count`, and
/// `granted` is its outcome.
pub open spec fn is_read_attempt(
    flag: AtomicBool,
    count: AtomicUsize,
    ops: Seq<Access>,
    granted: bool,
) -> bool {
    if granted {
        exists|before: usize|
            before < usize::MAX && ops == #[trigger] read_granted(flag, count, before)
    } else {
        ||| ops == read_turned_away(flag)
        ||| exists|after: usize| ops == #[trigger] read_overflowed(flag, count, after)
        ||| exists|before: usize, after: usize|
            before < usize::MAX && ops == #[trigger] read_taken_back(flag, count, before, after)
    }
}

/// Whether one access was made behind `before`, which took one reader off `count`.
pub open spec fn deregisters(before: Seq<Access>, after: Seq<Access>, count: AtomicUsize) -> bool {
    exists|seen: usize|
        after == #[trigger] before.push(Access::FetchSub { count, by: 1, seen })
}

/// The first `n` arms were found without a reader.
pub open spec fn clear_scan(arms: Seq<AtomicUsize>, n: int) -> Seq<Access> {
    Seq::new(n as nat, |i: int| Access::LoadCount { count: arms[i], seen: 0 })
}

/// The first `n` arms were found without a reader, and the next with `readers`.
pub open spec fn busy_scan(arms: Seq<AtomicUsize>, n: int, readers: usize) -> Seq<Access> {
    clear_scan(arms, n).push(Access::LoadCount { count: arms[n], seen: readers })
}

/// Whether `ops` are the accesses of a whole scan of the arms, which stops at the first arm that
/// has a reader, and `clear` says that no arm had one.
pub open spec fn is_scan(arms: Seq<AtomicUsize>, ops: Seq<Access>, clear: bool) -> bool {
    if clear {
        ops == clear_scan(arms, arms.len() as int)
    } else {
        exists|n: int, readers: usize|
            0 <= n < arms.len() && readers != 0 && ops == #[trigger] busy_scan(arms, n, readers)
    }
}

/// A first scan found no reader, and then the flag was raised; `seen` says whether it was already
/// up.
pub open spec fn claim(site: Site, seen: bool) -> Seq<Access> {
    clear_scan(site.arms, site.arms.len() as int).push(
        Access::SwapFlag { flag: site.flag, put: true, seen },
    )
}

/// A writer that finds a reader only after it has raised the flag lowers the flag again.
pub open spec fn write_taken_back(site: Site, n: int, readers: usize) -> Seq<Access> {
    (claim(site, false) + busy_scan(site.arms, n, readers)).push(
        Access::StoreFlag { flag: site.flag, put: false },
    )
}

/// A writer that finds no reader before and after it raises the flag may write.
pub open spec fn write_granted(site: Site) -> Seq<Access> {
    claim(site, false) + clear_scan(site.arms, site.arms.len() as int)
}

/// Whether `ops` are the accesses of a whole attempt to write, and `granted` is its outcome.
pub open spec fn is_write_attempt(site: Site, ops: Seq<Access>, granted: bool) -> bool {
    if granted {
        ops == write_granted(site)
    } else {
        ||| is_scan(site.arms, ops, false)
        ||| ops == claim(site, true)
        ||| exists|n: int, readers: usize|
            0 <= n < site.arms.len() && readers != 0 && ops == #[trigger] write_taken_back(
                site,
                n,
                readers,
            )
    }
}

/// Whether `ops` are a load of the counter of the arm `arm`, whatever it held, and then the
/// accesses of a whole attempt to write with the outcome `granted`.
pub open spec fn is_polled_write_attempt(
    site: Site,
    arm: int,
    ops: Seq<Access>,
    granted: bool,
) -> bool {
    &&& ops.len() > 0
    &&& ops[0] matches Access::LoadCount { count, .. } && count == site.arms[arm]
    &&& is_write_attempt(site, ops.skip(1), granted)
}

} // verus!
