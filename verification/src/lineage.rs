//! Which accesses a function makes that is handed one record.
//!
//! Such a function has that record at hand, and what it branches off it or off its branches. What
//! it does with them is a sequence of [`Deed`]s. The record counts what is done with it, but not
//! what is done with a branch. The laws here say what follows from the counts in the contracts all
//! the same: that the accesses which the record holds are all that were made, through any record.

use vstd::prelude::*;

use portable_atomic::AtomicUsize;

use crate::attempt;
use crate::boxed::BoxedShardedRwLock;
use crate::guard::{ReaderGuard, WriteGuard};
use crate::handle::ShardedRwLockHandle;
use crate::inline::InlineShardedRwLock;
use crate::lock::ShardedRwLock;
use crate::memory;
use crate::memory::Memory;
use crate::shard;
use crate::storage::ShardStorage;
use crate::trace;
use crate::trace::{Access, Trace};

verus! {

/// What is known of a record.
pub struct Node {
    pub depth: nat,
    pub issued: nat,
    pub log: Seq<Access>,
}

/// What is known of `trace`.
pub open spec fn node(trace: Trace) -> Node {
    Node { depth: trace.depth(), issued: trace.issued(), log: trace@ }
}

/// A record that was just started.
pub open spec fn blank() -> Node {
    Node { depth: 0, issued: 0, log: Seq::empty() }
}

/// Something that is done with one of the records at hand.
pub enum Deed {
    /// An access is made and recorded.
    Act { at: int, access: Access },
    /// A record is branched off.
    Branch { at: int },
}

/// What `deed` makes of the records `nodes`; `None` if it is done with none of them.
pub open spec fn perform(nodes: Seq<Node>, deed: Deed) -> Option<Seq<Node>> {
    match deed {
        Deed::Act { at, access } => if 0 <= at < nodes.len() {
            let issued = nodes[at].issued + 1;
            Some(nodes.update(at, Node { issued, log: nodes[at].log.push(access), ..nodes[at] }))
        } else {
            None
        },
        Deed::Branch { at } => if 0 <= at < nodes.len() {
            let issued = nodes[at].issued + 1;
            let branch = Node { depth: nodes[at].depth + 1, issued: 0, log: Seq::empty() };
            Some(nodes.update(at, Node { issued, ..nodes[at] }).push(branch))
        } else {
            None
        },
    }
}

/// The records at hand after `deeds`, if there is only `first` to begin with.
pub open spec fn perform_all(first: Node, deeds: Seq<Deed>) -> Option<Seq<Node>>
    decreases deeds.len(),
{
    if deeds.len() == 0 {
        Some(seq![first])
    } else {
        match perform_all(first, deeds.drop_last()) {
            Some(nodes) => perform(nodes, deeds.last()),
            None => None,
        }
    }
}

/// The accesses that are made in `deeds`, through whichever record, in order.
pub open spec fn accesses(deeds: Seq<Deed>) -> Seq<Access>
    decreases deeds.len(),
{
    if deeds.len() == 0 {
        Seq::empty()
    } else {
        match deeds.last() {
            Deed::Act { access, .. } => accesses(deeds.drop_last()).push(access),
            Deed::Branch { .. } => accesses(deeds.drop_last()),
        }
    }
}

/// Whether `deeds` take the record `before` to what it is `after`, and leave `nodes` at hand.
pub open spec fn leads(before: Trace, after: Trace, deeds: Seq<Deed>, nodes: Seq<Node>) -> bool {
    &&& perform_all(node(before), deeds) == Some(nodes)
    &&& nodes[0] == node(after)
}

/// What is known of the records at hand, by the branches `k` that were taken off the first itself.
spec fn accounted(first: Node, deeds: Seq<Deed>, nodes: Seq<Node>, k: int) -> bool {
    let made = nodes[0].log.len() - first.log.len();
    &&& nodes.len() > 0
    &&& nodes[0].depth == first.depth
    &&& k >= 0
    &&& made >= 0
    &&& nodes[0].log.take(first.log.len() as int) == first.log
    &&& nodes[0].issued == first.issued + made + k
    &&& k == 0 ==> nodes.len() == 1 && accesses(deeds) == nodes[0].log.skip(
        first.log.len() as int,
    )
    &&& k == 1 ==> {
        &&& nodes.len() >= 2
        &&& nodes[1].depth == first.depth + 1
        &&& forall|i: int| 2 <= i < nodes.len() ==> (#[trigger] nodes[i]).depth > first.depth + 1
        &&& nodes[1].issued == 0 ==> nodes.len() == 2 && accesses(deeds) == nodes[0].log.skip(
            first.log.len() as int,
        )
    }
}

proof fn lemma_accounted(first: Node, deeds: Seq<Deed>, nodes: Seq<Node>) -> (k: int)
    requires
        perform_all(first, deeds) == Some(nodes),
    ensures
        accounted(first, deeds, nodes, k),
    decreases deeds.len(),
{
    let n = first.log.len() as int;
    if deeds.len() == 0 {
        assert(first.log.take(n) =~= first.log);
        assert(first.log.skip(n) =~= Seq::empty());
        0
    } else {
        let earlier = perform_all(first, deeds.drop_last())->0;
        let k = lemma_accounted(first, deeds.drop_last(), earlier);
        match deeds.last() {
            Deed::Act { at, access } => {
                if at == 0 {
                    assert(nodes[0].log.take(n) =~= earlier[0].log.take(n));
                    assert(nodes[0].log.skip(n) =~= earlier[0].log.skip(n).push(access));
                }
                k
            },
            Deed::Branch { at } => if at == 0 {
                k + 1
            } else {
                k
            },
        }
    }
}

/// A function that extends the record which it is handed, and leaves no branch of it, has made the
/// accesses that are recorded there and no others.
pub proof fn law_recorded_accesses_are_all(
    before: Trace,
    after: Trace,
    deeds: Seq<Deed>,
    nodes: Seq<Node>,
)
    requires
        trace::extends(before, after, 0),
        leads(before, after, deeds, nodes),
    ensures
        accesses(deeds) == trace::added(before@, after@),
        nodes.len() == 1,
{
    let k = lemma_accounted(node(before), deeds, nodes);
}

/// A function that extends the record which it is handed, and hands out one unused branch of that
/// record itself, has made the accesses that are recorded there and no others: none through the
/// branch that it hands out, and none through any other, be it a branch of a branch.
pub proof fn law_recorded_accesses_are_all_but_for_a_branch(
    before: Trace,
    after: Trace,
    branch: Trace,
    deeds: Seq<Deed>,
    nodes: Seq<Node>,
)
    requires
        trace::extends(before, after, 1),
        trace::branched(before, branch),
        leads(before, after, deeds, nodes),
        nodes.contains(node(branch)),
    ensures
        accesses(deeds) == trace::added(before@, after@),
        nodes == seq![node(after), node(branch)],
{
    let k = lemma_accounted(node(before), deeds, nodes);
    let i = choose|i: int| 0 <= i < nodes.len() && nodes[i] == node(branch);
    assert(nodes[i] == node(branch));
    assert(i == 1);
    assert(nodes =~= seq![node(after), node(branch)]);
}

/// The flag is up from the moment that a handle yields a write guard, and everybody is refused
/// until the guard is dropped. Whatever `write` does, with whichever records: if nobody else does
/// anything meanwhile, the flag is up as it returns; and whoever tries next, to read or to write,
/// is refused, and leaves everything as it is.
pub proof fn law_write_guard_is_in_force<'a, T, B: ShardStorage<T>>(
    before: ShardedRwLockHandle<'a, T, B>,
    after: ShardedRwLockHandle<'a, T, B>,
    arm: int,
    guard: WriteGuard<'a, T>,
    deeds: Seq<Deed>,
    nodes: Seq<Node>,
    memory: Memory,
    left: Memory,
    count: AtomicUsize,
    ops: Seq<Access>,
    granted: bool,
    last: Memory,
)
    requires
        trace::extends(before.record(), after.record(), 1),
        attempt::is_polled_write_attempt(
            before.site(),
            arm,
            trace::added(before.trace(), after.trace()),
            true,
        ),
        trace::branched(before.record(), guard.record()),
        leads(before.record(), after.record(), deeds, nodes),
        nodes.contains(node(guard.record())),
        memory::alone(before.site(), memory, accesses(deeds)) == Some(left),
        memory.counts.dom().contains(count),
        attempt::is_read_attempt(before.site().flag, count, ops, granted)
            || attempt::is_write_attempt(before.site(), ops, granted),
        memory::alone(before.site(), left, ops) == Some(last),
    ensures
        !memory.flag,
        left == (Memory { flag: true, ..memory }),
        !granted,
        last == left,
{
    let site = before.site();
    before.lemma_trace_is_record();
    after.lemma_trace_is_record();
    law_recorded_accesses_are_all_but_for_a_branch(
        before.record(),
        after.record(),
        guard.record(),
        deeds,
        nodes,
    );
    memory::law_polled_write_alone(site, memory, arm, accesses(deeds), true, left);
    if attempt::is_read_attempt(site.flag, count, ops, granted) {
        memory::law_read_alone(site, left, count, ops, granted, last);
    } else {
        memory::law_write_alone(site, left, ops, granted, last);
    }
}

/// A reader is counted from the moment that a handle yields its guard, and writers are refused
/// until the guard is dropped. Whatever `read` does, with whichever records: if nobody else does
/// anything meanwhile, the counter of its shard has one reader more as it returns, and nothing else
/// has changed; and a writer that tries next is refused, and leaves everything as it is.
pub proof fn law_read_guard_is_in_force<'a, 'b, T, B: ShardStorage<T>>(
    before: ShardedRwLockHandle<'a, T, B>,
    after: ShardedRwLockHandle<'a, T, B>,
    arm: int,
    guard: ReaderGuard<'a, 'b, T>,
    deeds: Seq<Deed>,
    nodes: Seq<Node>,
    memory: Memory,
    left: Memory,
    ops: Seq<Access>,
    granted: bool,
    last: Memory,
)
    requires
        0 <= arm < before.site().arms.len(),
        memory.counts.dom().contains(before.site().arms[arm]),
        trace::extends(before.record(), after.record(), 1),
        attempt::is_read_attempt(
            before.site().flag,
            before.site().arms[arm],
            trace::added(before.trace(), after.trace()),
            true,
        ),
        trace::branched(before.record(), guard.record()),
        leads(before.record(), after.record(), deeds, nodes),
        nodes.contains(node(guard.record())),
        memory::alone(before.site(), memory, accesses(deeds)) == Some(left),
        attempt::is_write_attempt(before.site(), ops, granted),
        memory::alone(before.site(), left, ops) == Some(last),
    ensures
        !memory.flag,
        memory.counts[before.site().arms[arm]] < usize::MAX,
        left == (Memory {
            flag: false,
            counts: memory.counts.insert(
                before.site().arms[arm],
                (memory.counts[before.site().arms[arm]] + 1) as usize,
            ),
        }),
        !granted,
        last == left,
{
    let site = before.site();
    let count = site.arms[arm];
    before.lemma_trace_is_record();
    after.lemma_trace_is_record();
    law_recorded_accesses_are_all_but_for_a_branch(
        before.record(),
        after.record(),
        guard.record(),
        deeds,
        nodes,
    );
    memory::law_read_alone(site, memory, count, accesses(deeds), true, left);
    memory::law_write_alone(site, left, ops, granted, last);
    assert(left.counts[site.arms[arm]] != 0);
}

/// A refused attempt leaves nothing behind: whatever `read` or `write` does before it yields no
/// guard, with whichever records, the memory is as it was if nobody else does anything meanwhile.
pub proof fn law_refused_attempt_leaves_memory_alone<'a, T, B: ShardStorage<T>>(
    before: ShardedRwLockHandle<'a, T, B>,
    after: ShardedRwLockHandle<'a, T, B>,
    arm: int,
    deeds: Seq<Deed>,
    nodes: Seq<Node>,
    memory: Memory,
    left: Memory,
)
    requires
        0 <= arm < before.site().arms.len(),
        memory.counts.dom().contains(before.site().arms[arm]),
        trace::extends(before.record(), after.record(), 0),
        attempt::is_read_attempt(
            before.site().flag,
            before.site().arms[arm],
            trace::added(before.trace(), after.trace()),
            false,
        ) || attempt::is_polled_write_attempt(
            before.site(),
            arm,
            trace::added(before.trace(), after.trace()),
            false,
        ),
        leads(before.record(), after.record(), deeds, nodes),
        memory::alone(before.site(), memory, accesses(deeds)) == Some(left),
    ensures
        left == memory,
{
    let site = before.site();
    let ops = accesses(deeds);
    before.lemma_trace_is_record();
    after.lemma_trace_is_record();
    law_recorded_accesses_are_all(before.record(), after.record(), deeds, nodes);
    if attempt::is_read_attempt(site.flag, site.arms[arm], ops, false) {
        memory::law_read_alone(site, memory, site.arms[arm], ops, false, left);
    } else {
        memory::law_polled_write_alone(site, memory, arm, ops, false, left);
    }
}

/// To fork a handle touches neither the flag nor a counter: whatever `fork` does, with whichever
/// records, it makes no access, and so the memory is afterwards what it was before.
pub proof fn law_fork_makes_no_access<'a, T, B: ShardStorage<T>>(
    before: ShardedRwLockHandle<'a, T, B>,
    after: ShardedRwLockHandle<'a, T, B>,
    forked: ShardedRwLockHandle<'a, T, B>,
    deeds: Seq<Deed>,
    nodes: Seq<Node>,
    memory: Memory,
)
    requires
        after.trace() == before.trace(),
        trace::extends(before.record(), after.record(), 1),
        trace::branched(before.record(), forked.record()),
        leads(before.record(), after.record(), deeds, nodes),
        nodes.contains(node(forked.record())),
    ensures
        accesses(deeds) == Seq::<Access>::empty(),
        memory::alone(before.site(), memory, accesses(deeds)) == Some(memory),
{
    before.lemma_trace_is_record();
    after.lemma_trace_is_record();
    law_recorded_accesses_are_all_but_for_a_branch(
        before.record(),
        after.record(),
        forked.record(),
        deeds,
        nodes,
    );
    assert(accesses(deeds) =~= Seq::<Access>::empty());
}

/// To make a handle from a lock touches neither the flag nor a counter: nothing at all has been
/// done with the record that the handle starts with, and so the memory is what it was before.
pub proof fn law_new_root_makes_no_access<'a, T, B: ShardStorage<T>>(
    lock: &'a ShardedRwLock<T, B>,
    handle: ShardedRwLockHandle<'a, T, B>,
    deeds: Seq<Deed>,
    nodes: Seq<Node>,
    memory: Memory,
)
    requires
        call_ensures(ShardedRwLock::<T, B>::new_root, (lock,), handle),
        perform_all(blank(), deeds) == Some(nodes),
        nodes[0] == node(handle.record()),
    ensures
        deeds.len() == 0,
        handle.site() == lock.site(),
        memory::alone(lock.site(), memory, accesses(deeds)) == Some(memory),
{
    lemma_deeds_are_counted(blank(), deeds, nodes);
}

proof fn lemma_deeds_are_counted(first: Node, deeds: Seq<Deed>, nodes: Seq<Node>)
    requires
        perform_all(first, deeds) == Some(nodes),
        nodes[0].issued == first.issued,
    ensures
        deeds.len() == 0,
{
    if deeds.len() > 0 {
        let k = lemma_accounted(first, deeds, nodes);
        let earlier = perform_all(first, deeds.drop_last())->0;
        let j = lemma_accounted(first, deeds.drop_last(), earlier);
    }
}

/// A boxed lock lets in whoever comes first, whatever it is made with: through any handle that is
/// made from a new lock, an attempt of either kind on any of its shards is granted, if nobody else
/// does anything meanwhile.
pub proof fn law_new_boxed_lock_lets_anybody_in<'a, T>(
    shard_count: usize,
    item: T,
    lock: &'a BoxedShardedRwLock<T>,
    handle: ShardedRwLockHandle<'a, T, Vec<shard::ReaderShard<T>>>,
    arm: int,
    ops: Seq<Access>,
    granted: bool,
)
    requires
        call_ensures(BoxedShardedRwLock::<T>::new, (shard_count, item), *lock),
        call_ensures(ShardedRwLock::<T, Vec<shard::ReaderShard<T>>>::new_root, (lock,), handle),
        0 <= arm < shard_count,
        attempt::is_read_attempt(handle.site().flag, handle.site().arms[arm], ops, granted)
            || attempt::is_polled_write_attempt(handle.site(), arm, ops, granted),
        memory::alone(handle.site(), memory::made(handle.site()), ops) is Some,
    ensures
        handle.site().arms.len() == shard_count,
        lock.cell().made_from(item),
        granted,
{
    lemma_new_lock_lets_anybody_in(lock, shard_count as nat, item, arm, ops, granted);
}

/// An inline lock lets in whoever comes first, as [`law_new_boxed_lock_lets_anybody_in`] says of a
/// boxed one.
pub proof fn law_new_inline_lock_lets_anybody_in<'a, T, const N: usize>(
    item: T,
    lock: &'a InlineShardedRwLock<T, N>,
    handle: ShardedRwLockHandle<'a, T, [shard::ReaderShard<T>; N]>,
    arm: int,
    ops: Seq<Access>,
    granted: bool,
)
    requires
        call_ensures(InlineShardedRwLock::<T, N>::new, (item,), *lock),
        call_ensures(ShardedRwLock::<T, [shard::ReaderShard<T>; N]>::new_root, (lock,), handle),
        0 <= arm < N,
        attempt::is_read_attempt(handle.site().flag, handle.site().arms[arm], ops, granted)
            || attempt::is_polled_write_attempt(handle.site(), arm, ops, granted),
        memory::alone(handle.site(), memory::made(handle.site()), ops) is Some,
    ensures
        handle.site().arms.len() == N,
        lock.cell().made_from(item),
        granted,
{
    lemma_new_lock_lets_anybody_in(lock, N as nat, item, arm, ops, granted);
}

proof fn lemma_new_lock_lets_anybody_in<T, B: ShardStorage<T>>(
    lock: &ShardedRwLock<T, B>,
    n: nat,
    item: T,
    arm: int,
    ops: Seq<Access>,
    granted: bool,
)
    requires
        lock.is_new(n, item),
        0 <= arm < n,
        attempt::is_read_attempt(lock.site().flag, lock.site().arms[arm], ops, granted)
            || attempt::is_polled_write_attempt(lock.site(), arm, ops, granted),
        memory::alone(lock.site(), memory::made(lock.site()), ops) is Some,
    ensures
        lock.site().arms.len() == n,
        granted,
{
    let site = lock.site();
    let fresh = memory::fresh(site);
    let left = memory::alone(site, fresh, ops)->0;
    assert(site.arms.contains(site.arms[arm]));
    if attempt::is_read_attempt(site.flag, site.arms[arm], ops, granted) {
        memory::law_read_alone(site, fresh, site.arms[arm], ops, granted, left);
    } else {
        assert forall|i: int| 0 <= i < site.arms.len() implies fresh.counts[
        #[trigger] site.arms[i]] == 0 by {
            assert(site.arms.contains(site.arms[i]));
        }
        memory::law_polled_write_alone(site, fresh, arm, ops, granted, left);
    }
}

} // verus!
