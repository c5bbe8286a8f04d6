//! What the shared memory of a lock holds, what accesses do to it, and what an attempt comes to
//! that has the memory to itself.

use vstd::prelude::*;

use portable_atomic::AtomicUsize;

use crate::attempt;
use crate::attempt::Site;
use crate::sync;
use crate::trace::Access;

verus! {

/// What the shared memory of a lock holds.
#[verifier::ext_equal]
pub struct Memory {
    /// Whether the flag is up.
    pub flag: bool,
    /// What the counters hold.
    pub counts: Map<AtomicUsize, usize>,
}

/// `a + b`, wrapped around.
pub open spec fn plus(a: usize, b: usize) -> usize {
    if a + b <= usize::MAX {
        (a + b) as usize
    } else {
        (a + b - usize::MAX - 1) as usize
    }
}

/// `a - b`, wrapped around.
pub open spec fn minus(a: usize, b: usize) -> usize {
    if a >= b {
        (a - b) as usize
    } else {
        (a - b + usize::MAX + 1) as usize
    }
}

/// What `access` makes of `memory`; `None` if the access is to some other location, or has seen
/// what its location does not hold.
pub open spec fn touch(site: Site, memory: Memory, access: Access) -> Option<Memory> {
    match access {
        Access::LoadFlag { flag, seen } => if flag == site.flag && seen == memory.flag {
            Some(memory)
        } else {
            None
        },
        Access::SwapFlag { flag, put, seen } => if flag == site.flag && seen == memory.flag {
            Some(Memory { flag: put, ..memory })
        } else {
            None
        },
        Access::StoreFlag { flag, put } => if flag == site.flag {
            Some(Memory { flag: put, ..memory })
        } else {
            None
        },
        Access::LoadCount { count, seen } => if holds(memory, count, seen) {
            Some(memory)
        } else {
            None
        },
        Access::FetchAdd { count, by, seen } => if holds(memory, count, seen) {
            Some(Memory { counts: memory.counts.insert(count, plus(seen, by)), ..memory })
        } else {
            None
        },
        Access::FetchSub { count, by, seen } => if holds(memory, count, seen) {
            Some(Memory { counts: memory.counts.insert(count, minus(seen, by)), ..memory })
        } else {
            None
        },
    }
}

/// Whether `count` is a counter of the lock and holds `seen`.
pub open spec fn holds(memory: Memory, count: AtomicUsize, seen: usize) -> bool {
    memory.counts.dom().contains(count) && memory.counts[count] == seen
}

/// What the accesses `ops` make of `memory` if nobody makes any in between; `None` if one of them
/// has seen what its location does not hold.
pub open spec fn alone(site: Site, memory: Memory, ops: Seq<Access>) -> Option<Memory>
    decreases ops.len(),
{
    if ops.len() == 0 {
        Some(memory)
    } else {
        match alone(site, memory, ops.drop_last()) {
            Some(left) => touch(site, left, ops.last()),
            None => None,
        }
    }
}

/// The memory of a lock that nobody uses: the flag is down and no arm has a reader.
pub open spec fn fresh(site: Site) -> Memory {
    Memory {
        flag: false,
        counts: Map::new(|count: AtomicUsize| site.arms.contains(count), |count: AtomicUsize| 0),
    }
}

/// The memory of a lock as it was made, by what its flag and its counters were made with.
pub open spec fn made(site: Site) -> Memory {
    Memory {
        flag: sync::initial_flag(site.flag),
        counts: Map::new(
            |count: AtomicUsize| site.arms.contains(count),
            |count: AtomicUsize| sync::initial_count(count),
        ),
    }
}

/// Whether no arm has a reader.
pub open spec fn unread(site: Site, memory: Memory) -> bool {
    forall|i: int| 0 <= i < site.arms.len() ==> memory.counts[#[trigger] site.arms[i]] == 0
}

proof fn lemma_alone_push(site: Site, memory: Memory, ops: Seq<Access>, access: Access)
    ensures
        alone(site, memory, ops.push(access)) == (match alone(site, memory, ops) {
            Some(left) => touch(site, left, access),
            None => None,
        }),
{
    assert(ops.push(access).drop_last() =~= ops);
}

proof fn lemma_alone_concat(
    site: Site,
    memory: Memory,
    first: Seq<Access>,
    second: Seq<Access>,
)
    ensures
        alone(site, memory, first + second) == (match alone(site, memory, first) {
            Some(left) => alone(site, left, second),
            None => None,
        }),
    decreases second.len(),
{
    if second.len() == 0 {
        assert(first + second =~= first);
    } else {
        lemma_alone_concat(site, memory, first, second.drop_last());
        assert((first + second).drop_last() =~= first + second.drop_last());
        assert((first + second).last() == second.last());
    }
}

proof fn lemma_alone_clear_scan(site: Site, memory: Memory, n: int)
    requires
        0 <= n <= site.arms.len(),
    ensures
        alone(site, memory, attempt::clear_scan(site.arms, n)) matches Some(left) ==> left
            == memory && forall|i: int|
            0 <= i < n ==> memory.counts[#[trigger] site.arms[i]] == 0,
    decreases n,
{
    if n > 0 {
        lemma_alone_clear_scan(site, memory, n - 1);
        let access = Access::LoadCount { count: site.arms[n - 1], seen: 0 };
        assert(attempt::clear_scan(site.arms, n) =~= attempt::clear_scan(site.arms, n - 1).push(
            access,
        ));
        lemma_alone_push(site, memory, attempt::clear_scan(site.arms, n - 1), access);
    }
}

proof fn lemma_alone_busy_scan(site: Site, memory: Memory, n: int, readers: usize)
    requires
        0 <= n < site.arms.len(),
        readers != 0,
    ensures
        alone(site, memory, attempt::busy_scan(site.arms, n, readers)) matches Some(left) ==> left
            == memory && memory.counts[site.arms[n]] != 0,
{
    lemma_alone_clear_scan(site, memory, n);
    lemma_alone_push(
        site,
        memory,
        attempt::clear_scan(site.arms, n),
        Access::LoadCount { count: site.arms[n], seen: readers },
    );
}

/// An attempt to read that nobody interferes with is granted if and only if the flag is down and
/// the counter is not full. If it is granted, its shard has one reader more; if it is refused,
/// nothing has changed.
pub proof fn law_read_alone(
    site: Site,
    memory: Memory,
    count: AtomicUsize,
    ops: Seq<Access>,
    granted: bool,
    left: Memory,
)
    requires
        memory.counts.dom().contains(count),
        attempt::is_read_attempt(site.flag, count, ops, granted),
        alone(site, memory, ops) == Some(left),
    ensures
        granted == (!memory.flag && memory.counts[count] < usize::MAX),
        granted ==> left == (Memory {
            flag: false,
            counts: memory.counts.insert(count, (memory.counts[count] + 1) as usize),
        }),
        !granted ==> left == memory,
{
    reveal_with_fuel(alone, 5);
    if ops.len() > 1 {
        assert(ops.drop_last().drop_last().drop_last() =~= ops.take(ops.len() - 3));
    }
    if ops.len() == 4 {
        assert(ops.drop_last().drop_last().drop_last().drop_last() =~= Seq::empty());
    }
    if !granted {
        assert(left =~= memory);
    }
}

/// An attempt to write that nobody interferes with is granted if and only if the flag is down and
/// no arm has a reader. If it is granted, the flag is up; if it is refused, nothing has changed.
pub proof fn law_write_alone(
    site: Site,
    memory: Memory,
    ops: Seq<Access>,
    granted: bool,
    left: Memory,
)
    requires
        attempt::is_write_attempt(site, ops, granted),
        alone(site, memory, ops) == Some(left),
    ensures
        granted == (!memory.flag && unread(site, memory)),
        granted ==> left == (Memory { flag: true, ..memory }),
        !granted ==> left == memory,
{
    let arms = site.arms;
    let n = arms.len() as int;
    let raised = Memory { flag: true, ..memory };
    lemma_alone_clear_scan(site, memory, n);
    lemma_alone_clear_scan(site, raised, n);
    lemma_alone_push(
        site,
        memory,
        attempt::clear_scan(arms, n),
        Access::SwapFlag { flag: site.flag, put: true, seen: false },
    );
    lemma_alone_push(
        site,
        memory,
        attempt::clear_scan(arms, n),
        Access::SwapFlag { flag: site.flag, put: true, seen: true },
    );
    if granted {
        lemma_alone_concat(
            site,
            memory,
            attempt::claim(site, false),
            attempt::clear_scan(arms, n),
        );
    } else if attempt::is_scan(arms, ops, false) {
        let (k, readers) = choose|k: int, readers: usize|
            0 <= k < arms.len() && readers != 0 && ops == #[trigger] attempt::busy_scan(
                arms,
                k,
                readers,
            );
        lemma_alone_busy_scan(site, memory, k, readers);
    } else if ops == attempt::claim(site, true) {
        assert(left =~= memory);
    } else {
        let (k, readers) = choose|k: int, readers: usize|
            0 <= k < arms.len() && readers != 0 && ops == #[trigger] attempt::write_taken_back(
                site,
                k,
                readers,
            );
        let found = attempt::busy_scan(arms, k, readers);
        let lowered = Access::StoreFlag { flag: site.flag, put: false };
        lemma_alone_push(site, memory, attempt::claim(site, false) + found, lowered);
        lemma_alone_concat(site, memory, attempt::claim(site, false), found);
        lemma_alone_busy_scan(site, raised, k, readers);
        assert(left =~= memory);
    }
}

/// The poll that comes before an attempt to write through a handle makes no difference: what
/// [`law_write_alone`] says of the attempt holds with the poll, too.
pub proof fn law_polled_write_alone(
    site: Site,
    memory: Memory,
    arm: int,
    ops: Seq<Access>,
    granted: bool,
    left: Memory,
)
    requires
        attempt::is_polled_write_attempt(site, arm, ops, granted),
        alone(site, memory, ops) == Some(left),
    ensures
        granted == (!memory.flag && unread(site, memory)),
        granted ==> left == (Memory { flag: true, ..memory }),
        !granted ==> left == memory,
{
    let polled = ops.take(1);
    assert(polled + ops.skip(1) =~= ops);
    lemma_alone_concat(site, memory, polled, ops.skip(1));
    reveal_with_fuel(alone, 2);
    assert(polled.drop_last() =~= Seq::empty());
    law_write_alone(site, memory, ops.skip(1), granted, left);
}

/// A lock that nobody uses lets in whoever comes first: an attempt of either kind that nobody
/// interferes with is granted.
pub proof fn law_fresh_lock_lets_anybody_in(
    site: Site,
    count: AtomicUsize,
    ops: Seq<Access>,
    granted: bool,
)
    requires
        site.arms.contains(count),
        attempt::is_read_attempt(site.flag, count, ops, granted) || attempt::is_write_attempt(
            site,
            ops,
            granted,
        ),
        alone(site, fresh(site), ops) is Some,
    ensures
        granted,
{
    let left = alone(site, fresh(site), ops)->0;
    if attempt::is_read_attempt(site.flag, count, ops, granted) {
        law_read_alone(site, fresh(site), count, ops, granted, left);
    } else {
        assert forall|i: int| 0 <= i < site.arms.len() implies fresh(site).counts[
        #[trigger] site.arms[i]] == 0 by {
            assert(site.arms.contains(site.arms[i]));
        }
        law_write_alone(site, fresh(site), ops, granted, left);
    }
}

/// Dropping a read guard undoes the attempt that yielded it: if nobody interferes, the memory is
/// afterwards what it was before.
pub proof fn law_read_and_drop_alone(
    site: Site,
    memory: Memory,
    count: AtomicUsize,
    ops: Seq<Access>,
    dropped: Seq<Access>,
    left: Memory,
)
    requires
        memory.counts.dom().contains(count),
        attempt::is_read_attempt(site.flag, count, ops, true),
        attempt::deregisters(ops, dropped, count),
        alone(site, memory, dropped) == Some(left),
    ensures
        left == memory,
{
    let seen = choose|seen: usize|
        dropped == #[trigger] ops.push(Access::FetchSub { count, by: 1, seen });
    lemma_alone_push(site, memory, ops, Access::FetchSub { count, by: 1, seen });
    let held = alone(site, memory, ops)->0;
    law_read_alone(site, memory, count, ops, true, held);
    assert(left =~= memory);
}

/// Dropping a write guard undoes the attempt that yielded it: if nobody interferes, the memory is
/// afterwards what it was before.
pub proof fn law_write_and_drop_alone(
    site: Site,
    memory: Memory,
    ops: Seq<Access>,
    left: Memory,
)
    requires
        attempt::is_write_attempt(site, ops, true),
        alone(site, memory, ops.push(Access::StoreFlag { flag: site.flag, put: false })) == Some(
            left,
        ),
    ensures
        left == memory,
{
    lemma_alone_push(
        site,
        memory,
        ops,
        Access::StoreFlag { flag: site.flag, put: false },
    );
    law_write_alone(site, memory, ops, true, alone(site, memory, ops)->0);
    assert(left =~= memory);
}

} // verus!
