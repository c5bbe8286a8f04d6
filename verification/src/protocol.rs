//! Attempts as steps of a small state machine.
//!
//! [`advance`] says which access an attempt may make next. The laws here tie it to the accesses
//! that the lock makes.

use vstd::prelude::*;

use portable_atomic::AtomicUsize;

use crate::attempt;
use crate::attempt::Site;
use crate::trace::Access;

verus! {

/// How far one attempt to read or to write has come.
pub enum Stage {
    /// Nothing has been done.
    Start,
    /// A reader has seen the flag down.
    Cleared,
    /// A reader has registered on `count`.
    Registered { count: AtomicUsize },
    /// A reader has registered on `count`, and found it full or then seen the flag up.
    Retreating { count: AtomicUsize },
    /// A reader that is registered on `count` holds a guard.
    Reading { count: AtomicUsize },
    /// A writer has found no reader on the first `next` arms.
    Scanning { next: int },
    /// A writer has raised the flag, and then found no reader on the first `next` arms. With no
    /// arm left to look at, the writer holds a guard.
    Confirming { next: int },
    /// A writer has raised the flag, and then found a reader.
    Yielding,
    /// The attempt has been refused, or its guard has been dropped.
    Over,
}

/// The stage of a writer that holds a guard.
pub open spec fn writing(site: Site) -> Stage {
    Stage::Confirming { next: site.arms.len() as int }
}

/// Where `access` takes an attempt that has come to `stage`; `None` if no attempt makes that
/// access there.
pub open spec fn advance(site: Site, stage: Stage, access: Access) -> Option<Stage> {
    match access {
        Access::LoadFlag { flag, seen } => if flag != site.flag {
            None
        } else {
            match stage {
                Stage::Start => Some(
                    if seen {
                        Stage::Over
                    } else {
                        Stage::Cleared
                    },
                ),
                Stage::Registered { count } => Some(
                    if seen {
                        Stage::Retreating { count }
                    } else {
                        Stage::Reading { count }
                    },
                ),
                _ => None,
            }
        },
        Access::FetchAdd { count, by, seen } => if by == 1 && stage is Cleared
            && site.arms.contains(count) {
            Some(
                if seen == usize::MAX {
                    Stage::Retreating { count }
                } else {
                    Stage::Registered { count }
                },
            )
        } else {
            None
        },
        Access::FetchSub { count, by, .. } => if by == 1 && (stage == (Stage::Retreating { count })
            || stage == (Stage::Reading { count })) {
            Some(Stage::Over)
        } else {
            None
        },
        Access::LoadCount { count, seen } => match stage {
            Stage::Start => scan_on(site, 0, count, seen),
            Stage::Scanning { next } => scan_on(site, next, count, seen),
            Stage::Confirming { next } => if 0 <= next < site.arms.len() && count
                == site.arms[next] {
                Some(
                    if seen == 0 {
                        Stage::Confirming { next: next + 1 }
                    } else {
                        Stage::Yielding
                    },
                )
            } else {
                None
            },
            _ => None,
        },
        Access::SwapFlag { flag, put, seen } => if flag == site.flag && put && (stage
            == Stage::Scanning { next: site.arms.len() as int } || (stage is Start
            && site.arms.len() == 0)) {
            Some(
                if seen {
                    Stage::Over
                } else {
                    Stage::Confirming { next: 0 }
                },
            )
        } else {
            None
        },
        Access::StoreFlag { flag, put } => if flag == site.flag && !put && (stage is Yielding
            || stage == writing(site)) {
            Some(Stage::Over)
        } else {
            None
        },
    }
}

/// Where a writer that has not raised the flag gets by looking at the arm `next`.
pub open spec fn scan_on(site: Site, next: int, count: AtomicUsize, seen: usize) -> Option<Stage> {
    if 0 <= next < site.arms.len() && count == site.arms[next] {
        Some(
            if seen == 0 {
                Stage::Scanning { next: next + 1 }
            } else {
                Stage::Over
            },
        )
    } else {
        None
    }
}

/// Where the accesses `ops`, one after the other, take an attempt that has come to `stage`.
pub open spec fn walk(site: Site, stage: Stage, ops: Seq<Access>) -> Option<Stage>
    decreases ops.len(),
{
    if ops.len() == 0 {
        Some(stage)
    } else {
        match walk(site, stage, ops.drop_last()) {
            Some(reached) => advance(site, reached, ops.last()),
            None => None,
        }
    }
}

proof fn lemma_walk_push(site: Site, stage: Stage, ops: Seq<Access>, access: Access)
    ensures
        walk(site, stage, ops.push(access)) == (match walk(site, stage, ops) {
            Some(reached) => advance(site, reached, access),
            None => None,
        }),
{
    assert(ops.push(access).drop_last() =~= ops);
}

proof fn lemma_walk_concat(site: Site, stage: Stage, first: Seq<Access>, second: Seq<Access>)
    ensures
        walk(site, stage, first + second) == (match walk(site, stage, first) {
            Some(reached) => walk(site, reached, second),
            None => None,
        }),
    decreases second.len(),
{
    if second.len() == 0 {
        assert(first + second =~= first);
    } else {
        lemma_walk_concat(site, stage, first, second.drop_last());
        assert((first + second).drop_last() =~= first + second.drop_last());
        assert((first + second).last() == second.last());
    }
}

proof fn lemma_walk_clear_scan(site: Site, n: int)
    requires
        0 <= n <= site.arms.len(),
    ensures
        walk(site, Stage::Start, attempt::clear_scan(site.arms, n)) == Some(
            if n == 0 {
                Stage::Start
            } else {
                Stage::Scanning { next: n }
            },
        ),
        walk(site, Stage::Confirming { next: 0 }, attempt::clear_scan(site.arms, n)) == Some(
            Stage::Confirming { next: n },
        ),
    decreases n,
{
    if n > 0 {
        lemma_walk_clear_scan(site, n - 1);
        let access = Access::LoadCount { count: site.arms[n - 1], seen: 0 };
        assert(attempt::clear_scan(site.arms, n) =~= attempt::clear_scan(site.arms, n - 1).push(
            access,
        ));
        lemma_walk_push(site, Stage::Start, attempt::clear_scan(site.arms, n - 1), access);
        lemma_walk_push(
            site,
            Stage::Confirming { next: 0 },
            attempt::clear_scan(site.arms, n - 1),
            access,
        );
    }
}

/// The accesses of an attempt to read take a party from the start to a read guard if the attempt
/// is granted, and to the end if it is refused.
pub proof fn law_read_attempt_follows_protocol(
    site: Site,
    count: AtomicUsize,
    ops: Seq<Access>,
    granted: bool,
)
    requires
        site.arms.contains(count),
        attempt::is_read_attempt(site.flag, count, ops, granted),
    ensures
        walk(site, Stage::Start, ops) == Some(
            if granted {
                Stage::Reading { count }
            } else {
                Stage::Over
            },
        ),
{
    reveal_with_fuel(walk, 5);
    if ops.len() > 1 {
        assert(ops.drop_last().drop_last().drop_last() =~= ops.take(ops.len() - 3));
    }
    if ops.len() == 4 {
        assert(ops.drop_last().drop_last().drop_last().drop_last() =~= Seq::empty());
    }
}

/// The accesses of an attempt to write take a party from the start to a write guard if the
/// attempt is granted, and to the end if it is refused.
pub proof fn law_write_attempt_follows_protocol(site: Site, ops: Seq<Access>, granted: bool)
    requires
        attempt::is_write_attempt(site, ops, granted),
    ensures
        walk(site, Stage::Start, ops) == Some(
            if granted {
                writing(site)
            } else {
                Stage::Over
            },
        ),
{
    let arms = site.arms;
    let n = arms.len() as int;
    lemma_walk_clear_scan(site, n);
    assert forall|seen: bool| #[trigger]
        walk(site, Stage::Start, attempt::claim(site, seen)) == Some(
            if seen {
                Stage::Over
            } else {
                Stage::Confirming { next: 0 }
            },
        ) by {
        lemma_walk_push(
            site,
            Stage::Start,
            attempt::clear_scan(arms, n),
            Access::SwapFlag { flag: site.flag, put: true, seen },
        );
    }
    if granted {
        lemma_walk_concat(
            site,
            Stage::Start,
            attempt::claim(site, false),
            attempt::clear_scan(arms, n),
        );
    } else if attempt::is_scan(arms, ops, false) {
        let (k, readers) = choose|k: int, readers: usize|
            0 <= k < arms.len() && readers != 0 && ops == #[trigger] attempt::busy_scan(
                arms,
                k,
                readers,
            );
        lemma_walk_clear_scan(site, k);
        lemma_walk_push(
            site,
            Stage::Start,
            attempt::clear_scan(arms, k),
            Access::LoadCount { count: arms[k], seen: readers },
        );
    } else if ops == attempt::claim(site, true) {
    } else {
        let (k, readers) = choose|k: int, readers: usize|
            0 <= k < arms.len() && readers != 0 && ops == #[trigger] attempt::write_taken_back(
                site,
                k,
                readers,
            );
        lemma_walk_clear_scan(site, k);
        lemma_walk_push(
            site,
            Stage::Confirming { next: 0 },
            attempt::clear_scan(arms, k),
            Access::LoadCount { count: arms[k], seen: readers },
        );
        let found = attempt::busy_scan(arms, k, readers);
        lemma_walk_concat(site, Stage::Start, attempt::claim(site, false), found);
        lemma_walk_push(
            site,
            Stage::Start,
            attempt::claim(site, false) + found,
            Access::StoreFlag { flag: site.flag, put: false },
        );
    }
}

/// An attempt to write through a handle is a load of one of the lock's counters, and then an
/// attempt to write like any other.
pub proof fn law_polled_write_attempt_follows_protocol(
    site: Site,
    arm: int,
    ops: Seq<Access>,
    granted: bool,
)
    requires
        0 <= arm < site.arms.len(),
        attempt::is_polled_write_attempt(site, arm, ops, granted),
    ensures
        ops[0] matches Access::LoadCount { count, .. } && site.arms.contains(count),
        walk(site, Stage::Start, ops.skip(1)) == Some(
            if granted {
                writing(site)
            } else {
                Stage::Over
            },
        ),
{
    law_write_attempt_follows_protocol(site, ops.skip(1), granted);
}

/// Dropping the guard that an attempt has yielded ends the attempt: for a reader with the access
/// that takes it off its shard, for a writer with the access that lowers the flag.
pub proof fn law_guard_drop_follows_protocol(
    site: Site,
    count: AtomicUsize,
    ops: Seq<Access>,
    dropped: Seq<Access>,
)
    ensures
        walk(site, Stage::Start, ops) == Some(Stage::Reading { count }) && attempt::deregisters(
            ops,
            dropped,
            count,
        ) ==> walk(site, Stage::Start, dropped) == Some(Stage::Over),
        walk(site, Stage::Start, ops) == Some(writing(site)) && dropped == ops.push(
            Access::StoreFlag { flag: site.flag, put: false },
        ) ==> walk(site, Stage::Start, dropped) == Some(Stage::Over),
{
    if attempt::deregisters(ops, dropped, count) {
        let seen = choose|seen: usize|
            dropped == #[trigger] ops.push(Access::FetchSub { count, by: 1, seen });
        lemma_walk_push(site, Stage::Start, ops, Access::FetchSub { count, by: 1, seen });
    }
    lemma_walk_push(
        site,
        Stage::Start,
        ops,
        Access::StoreFlag { flag: site.flag, put: false },
    );
}

/// What the accesses of an attempt look like that has come to `stage`, short of its end.
pub open spec fn leads_to(site: Site, ops: Seq<Access>, stage: Stage) -> bool {
    let down = Access::LoadFlag { flag: site.flag, seen: false };
    let up = Access::LoadFlag { flag: site.flag, seen: true };
    match stage {
        Stage::Start => ops == Seq::<Access>::empty(),
        Stage::Cleared => ops == seq![down],
        Stage::Registered { count } => site.arms.contains(count) && exists|before: usize|
            before < usize::MAX && ops == seq![down].push(#[trigger] registration(count, before)),
        Stage::Retreating { count } => site.arms.contains(count) && (ops == seq![down].push(
            registration(count, usize::MAX),
        ) || exists|before: usize|
            before < usize::MAX && ops == seq![down].push(
                #[trigger] registration(count, before),
            ).push(up)),
        Stage::Reading { count } => site.arms.contains(count) && attempt::is_read_attempt(
            site.flag,
            count,
            ops,
            true,
        ),
        Stage::Scanning { next } => 0 < next <= site.arms.len() && ops == attempt::clear_scan(
            site.arms,
            next,
        ),
        Stage::Confirming { next } => 0 <= next <= site.arms.len() && ops == attempt::claim(
            site,
            false,
        ) + attempt::clear_scan(site.arms, next),
        Stage::Yielding => exists|n: int, readers: usize|
            0 <= n < site.arms.len() && readers != 0 && ops == attempt::claim(site, false)
                + #[trigger] attempt::busy_scan(site.arms, n, readers),
        Stage::Over => is_ended(site, ops),
    }
}

/// The access with which a reader registers on `count`, which held `before` then.
pub open spec fn registration(count: AtomicUsize, before: usize) -> Access {
    Access::FetchAdd { count, by: 1, seen: before }
}

/// Whether `ops` are the accesses of a refused attempt, or of a granted one whose guard has been
/// dropped.
pub open spec fn is_ended(site: Site, ops: Seq<Access>) -> bool {
    ||| ops == attempt::read_turned_away(site.flag)
    ||| exists|count: AtomicUsize|
        site.arms.contains(count) && #[trigger] attempt::is_read_attempt(
            site.flag,
            count,
            ops,
            false,
        )
    ||| attempt::is_write_attempt(site, ops, false)
    ||| exists|count: AtomicUsize, held: Seq<Access>|
        site.arms.contains(count) && #[trigger] attempt::is_read_attempt(
            site.flag,
            count,
            held,
            true,
        ) && attempt::deregisters(held, ops, count)
    ||| exists|held: Seq<Access>| #[trigger]
        attempt::is_write_attempt(site, held, true) && ops == held.push(
            Access::StoreFlag { flag: site.flag, put: false },
        )
}

/// A refused attempt, and a granted one whose guard has been dropped, is over.
pub proof fn law_ended_attempt_is_over(site: Site, ops: Seq<Access>)
    requires
        is_ended(site, ops),
    ensures
        walk(site, Stage::Start, ops) == Some(Stage::Over),
{
    if ops == attempt::read_turned_away(site.flag) {
        reveal_with_fuel(walk, 2);
        assert(ops.drop_last() =~= Seq::empty());
    } else if exists|count: AtomicUsize|
        site.arms.contains(count) && #[trigger] attempt::is_read_attempt(
            site.flag,
            count,
            ops,
            false,
        ) {
        let count = choose|count: AtomicUsize|
            site.arms.contains(count) && #[trigger] attempt::is_read_attempt(
                site.flag,
                count,
                ops,
                false,
            );
        law_read_attempt_follows_protocol(site, count, ops, false);
    } else if attempt::is_write_attempt(site, ops, false) {
        law_write_attempt_follows_protocol(site, ops, false);
    } else if exists|count: AtomicUsize, held: Seq<Access>|
        site.arms.contains(count) && #[trigger] attempt::is_read_attempt(
            site.flag,
            count,
            held,
            true,
        ) && attempt::deregisters(held, ops, count) {
        let (count, held) = choose|count: AtomicUsize, held: Seq<Access>|
            site.arms.contains(count) && #[trigger] attempt::is_read_attempt(
                site.flag,
                count,
                held,
                true,
            ) && attempt::deregisters(held, ops, count);
        law_read_attempt_follows_protocol(site, count, held, true);
        law_guard_drop_follows_protocol(site, count, held, ops);
    } else {
        let held = choose|held: Seq<Access>| #[trigger]
            attempt::is_write_attempt(site, held, true) && ops == held.push(
                Access::StoreFlag { flag: site.flag, put: false },
            );
        law_write_attempt_follows_protocol(site, held, true);
        law_guard_drop_follows_protocol(site, arbitrary(), held, ops);
    }
}

/// A party that follows the protocol makes the accesses of the lock's attempts and no others: it
/// holds a guard exactly by having made the accesses of a granted attempt, and is through exactly
/// by having been refused or having dropped its guard.
pub proof fn law_protocol_is_attempts(site: Site, ops: Seq<Access>)
    ensures
        walk(site, Stage::Start, ops) matches Some(stage) ==> leads_to(site, ops, stage),
    decreases ops.len(),
{
    if ops.len() == 0 {
        assert(ops =~= Seq::empty());
    } else if walk(site, Stage::Start, ops) is Some {
        let earlier = ops.drop_last();
        let access = ops.last();
        law_protocol_is_attempts(site, earlier);
        let from = walk(site, Stage::Start, earlier)->0;
        let to = walk(site, Stage::Start, ops)->0;
        assert(ops =~= earlier.push(access));
        let arms = site.arms;
        match access {
            Access::LoadFlag { flag, seen } => {
                if from is Start {
                    assert(ops =~= seq![access]);
                } else if !seen {
                    let count = from->Registered_count;
                    let before = choose|before: usize|
                        before < usize::MAX && earlier == seq![
                            Access::LoadFlag { flag: site.flag, seen: false },
                        ].push(#[trigger] registration(count, before));
                    assert(ops =~= attempt::read_granted(site.flag, count, before));
                }
            },
            Access::FetchAdd { count, by, seen } => {
                assert(access == registration(count, seen));
            },
            Access::FetchSub { count, by, seen } => {
                if from is Retreating {
                    if earlier.len() == 2 {
                        assert(ops =~= attempt::read_overflowed(site.flag, count, seen));
                    } else {
                        let before = choose|before: usize|
                            before < usize::MAX && earlier == seq![
                                Access::LoadFlag { flag: site.flag, seen: false },
                            ].push(#[trigger] registration(count, before)).push(
                                Access::LoadFlag { flag: site.flag, seen: true },
                            );
                        assert(ops =~= attempt::read_taken_back(site.flag, count, before, seen));
                    }
                    assert(attempt::is_read_attempt(site.flag, count, ops, false));
                } else {
                    assert(attempt::is_read_attempt(site.flag, count, earlier, true));
                    assert(attempt::deregisters(earlier, ops, count));
                }
            },
            Access::LoadCount { count, seen } => {
                match from {
                    Stage::Start => {
                        if seen == 0 {
                            assert(ops =~= attempt::clear_scan(arms, 1));
                        } else {
                            assert(ops =~= attempt::busy_scan(arms, 0, seen));
                            assert(attempt::is_scan(arms, ops, false));
                        }
                    },
                    Stage::Scanning { next } => {
                        if seen == 0 {
                            assert(ops =~= attempt::clear_scan(arms, next + 1));
                        } else {
                            assert(ops =~= attempt::busy_scan(arms, next, seen));
                            assert(attempt::is_scan(arms, ops, false));
                        }
                    },
                    Stage::Confirming { next } => {
                        if seen == 0 {
                            assert(ops =~= attempt::claim(site, false) + attempt::clear_scan(
                                arms,
                                next + 1,
                            ));
                        } else {
                            assert(ops =~= attempt::claim(site, false) + attempt::busy_scan(
                                arms,
                                next,
                                seen,
                            ));
                        }
                    },
                    _ => {},
                }
            },
            Access::SwapFlag { flag, put, seen } => {
                assert(earlier =~= attempt::clear_scan(arms, arms.len() as int));
                assert(ops =~= attempt::claim(site, seen));
                if seen {
                    assert(attempt::is_write_attempt(site, ops, false));
                } else {
                    assert(ops =~= attempt::claim(site, false) + attempt::clear_scan(arms, 0));
                }
            },
            Access::StoreFlag { flag, put } => {
                if from is Yielding {
                    let (n, readers) = choose|n: int, readers: usize|
                        0 <= n < arms.len() && readers != 0 && earlier == attempt::claim(
                            site,
                            false,
                        ) + #[trigger] attempt::busy_scan(arms, n, readers);
                    assert(ops =~= attempt::write_taken_back(site, n, readers));
                    assert(attempt::is_write_attempt(site, ops, false));
                } else {
                    assert(attempt::is_write_attempt(site, earlier, true));
                }
            },
        }
    }
}

} // verus!
