//! Attempts of many parties interleaved, and what the lock guarantees then.
//!
//! A party is one attempt with the guard that it may yield. A history lists, in the order in which
//! they happen, what the parties do: every access takes effect at once and for everybody, so that
//! a load sees what was written last. Every access is `SeqCst`, so that the accesses have one
//! order that all parties agree on. The laws hold of every history in which each party follows the
//! protocol; some of them only as long as no reader registers on a counter that is full.

use vstd::prelude::*;

use portable_atomic::AtomicUsize;

use crate::attempt;
use crate::attempt::Site;
use crate::memory;
use crate::memory::Memory;
use crate::protocol;
use crate::protocol::Stage;
use crate::trace::Access;

verus! {

/// Something that a party does.
#[allow(inconsistent_fields)]
pub enum Event<V> {
    /// The next access of its attempt, or the access with which its guard is dropped.
    Act { access: Access },
    /// A load of a counter that belongs to no attempt, like the poll that comes before an attempt
    /// to write through a handle.
    Peek { count: AtomicUsize, seen: usize },
    /// A read of the data through a guard.
    Fetch { seen: V },
    /// A write of the data through a write guard.
    Put { value: V },
}

/// One step of a history: who does what.
pub struct Step<V> {
    pub party: int,
    pub event: Event<V>,
}

/// A moment in the life of a lock.
pub struct World<V> {
    /// What the shared memory of the lock holds.
    pub memory: Memory,
    /// How far the parties have come that have done anything.
    pub stages: Map<int, Stage>,
    /// What the cell of the lock holds.
    pub data: V,
}

/// How far `party` has come.
pub open spec fn stage_of<V>(world: World<V>, party: int) -> Stage {
    if world.stages.dom().contains(party) {
        world.stages[party]
    } else {
        Stage::Start
    }
}

/// A lock that has just been made around `data`.
pub open spec fn opening<V>(site: Site, data: V) -> World<V> {
    World { memory: memory::fresh(site), stages: Map::empty(), data }
}

/// What `step` makes of `world`; `None` if the party may not do that there.
pub open spec fn happen<V>(site: Site, world: World<V>, step: Step<V>) -> Option<World<V>> {
    let stage = stage_of(world, step.party);
    match step.event {
        Event::Act { access } => match (
            protocol::advance(site, stage, access),
            memory::touch(site, world.memory, access),
        ) {
            (Some(reached), Some(memory)) => Some(
                World { memory, stages: world.stages.insert(step.party, reached), ..world },
            ),
            _ => None,
        },
        Event::Peek { count, seen } => if memory::holds(world.memory, count, seen) {
            Some(world)
        } else {
            None
        },
        Event::Fetch { seen } => if (stage is Reading || stage == protocol::writing(site)) && seen
            == world.data {
            Some(world)
        } else {
            None
        },
        Event::Put { value } => if stage == protocol::writing(site) {
            Some(World { data: value, ..world })
        } else {
            None
        },
    }
}

/// What the steps of `history` make of a lock that has just been made around `data`; `None` if one
/// of them cannot happen.
pub open spec fn run<V>(site: Site, data: V, history: Seq<Step<V>>) -> Option<World<V>>
    decreases history.len(),
{
    if history.len() == 0 {
        Some(opening(site, data))
    } else {
        match run(site, data, history.drop_last()) {
            Some(world) => happen(site, world, history.last()),
            None => None,
        }
    }
}

/// The accesses that `party` makes in `history` for its own attempt.
pub open spec fn own<V>(history: Seq<Step<V>>, party: int) -> Seq<Access>
    decreases history.len(),
{
    if history.len() == 0 {
        Seq::empty()
    } else {
        let earlier = own(history.drop_last(), party);
        match history.last().event {
            Event::Act { access } if history.last().party == party => earlier.push(access),
            _ => earlier,
        }
    }
}

/// The data that was last put in `history`, or `data` if none was.
pub open spec fn last_put<V>(data: V, history: Seq<Step<V>>) -> V
    decreases history.len(),
{
    if history.len() == 0 {
        data
    } else {
        match history.last().event {
            Event::Put { value } => value,
            _ => last_put(data, history.drop_last()),
        }
    }
}

/// Whether a reader registers on a counter that is full.
pub open spec fn full<V>(event: Event<V>) -> bool {
    event matches Event::Act { access: Access::FetchAdd { seen, .. } } && seen == usize::MAX
}

/// Whether no reader ever registers on a full counter: a counter cannot count more readers at once
/// than `usize` has room for. How many there are in all does not matter.
pub open spec fn never_full<V>(history: Seq<Step<V>>) -> bool {
    forall|i: int| 0 <= i < history.len() ==> !full((#[trigger] history[i]).event)
}

/// Whether a party at `stage` is registered on `count`.
pub open spec fn registered(stage: Stage, count: AtomicUsize) -> bool {
    ||| stage == (Stage::Registered { count })
    ||| stage == (Stage::Retreating { count })
    ||| stage == (Stage::Reading { count })
}

/// The parties that are registered on `count`.
pub open spec fn readers_on<V>(world: World<V>, count: AtomicUsize) -> Set<int> {
    Set::new(|party: int| registered(stage_of(world, party), count))
}

/// Whether a party at `stage` has raised the flag and not lowered it since.
pub open spec fn claims(stage: Stage) -> bool {
    stage is Confirming || stage is Yielding
}

/// The flag is up if and only if some party has raised it, and then only one has.
pub open spec fn claimed_once<V>(world: World<V>) -> bool {
    &&& world.memory.flag ==> exists|party: int| claims(#[trigger] stage_of(world, party))
    &&& forall|party: int| claims(#[trigger] stage_of(world, party)) ==> world.memory.flag
    &&& forall|p: int, q: int|
        claims(#[trigger] stage_of(world, p)) && claims(#[trigger] stage_of(world, q)) ==> p == q
}

/// Every counter counts the parties that are registered on it.
pub open spec fn counted<V>(site: Site, world: World<V>) -> bool {
    &&& forall|count: AtomicUsize|
        world.memory.counts.dom().contains(count) <==> #[trigger] site.arms.contains(count)
    &&& forall|count: AtomicUsize| #[trigger] readers_on(world, count).finite()
    &&& forall|count: AtomicUsize| #[trigger]
        site.arms.contains(count) ==> world.memory.counts[count] == readers_on(world, count).len()
    &&& forall|party: int, count: AtomicUsize|
        registered(#[trigger] stage_of(world, party), count) ==> #[trigger] site.arms.contains(
            count,
        )
}

/// What holds of a lock at every moment.
pub open spec fn sound<V>(site: Site, world: World<V>) -> bool {
    &&& claimed_once(world)
    &&& counted(site, world)
    // Nobody reads on an arm that a writer has looked at since it raised the flag.
    &&& forall|p: int, q: int|
        excludes(site, #[trigger] stage_of(world, p), #[trigger] stage_of(world, q))
}

/// Whether no party at the stage `reading` reads on an arm that a party at the stage `confirming`
/// has looked at since it raised the flag.
pub open spec fn excludes(site: Site, confirming: Stage, reading: Stage) -> bool {
    confirming matches Stage::Confirming { next } ==> {
        &&& 0 <= next <= site.arms.len()
        &&& reading matches Stage::Reading { count } ==> forall|i: int|
            0 <= i < next ==> #[trigger] site.arms[i] != count
    }
}

proof fn lemma_act_keeps_claimed_once<V>(site: Site, world: World<V>, party: int, access: Access)
    requires
        claimed_once(world),
        happen(site, world, (Step { party, event: Event::Act { access } })) is Some,
    ensures
        claimed_once(happen(site, world, (Step { party, event: Event::Act { access } }))->0),
{
    let after = happen(site, world, (Step { party, event: Event::Act { access } }))->0;
    let to = stage_of(after, party);
    assert(forall|p: int| p != party ==> #[trigger] stage_of(after, p) == stage_of(world, p));
    assert(protocol::advance(site, stage_of(world, party), access) == Some(to));
    if after.memory.flag {
        if claims(to) {
            assert(claims(stage_of(after, party)));
        } else {
            let holder = choose|p: int| claims(#[trigger] stage_of(world, p));
            assert(holder != party);
            assert(claims(stage_of(after, holder)));
        }
    }
}

proof fn lemma_act_keeps_sound<V>(site: Site, world: World<V>, party: int, access: Access)
    requires
        sound(site, world),
        !full(Event::<V>::Act { access }),
        happen(site, world, (Step { party, event: Event::Act { access } })) is Some,
    ensures
        sound(site, happen(site, world, (Step { party, event: Event::Act { access } }))->0),
{
    let after = happen(site, world, (Step { party, event: Event::Act { access } }))->0;
    let from = stage_of(world, party);
    let to = stage_of(after, party);
    assert(forall|p: int| p != party ==> #[trigger] stage_of(after, p) == stage_of(world, p));
    assert(protocol::advance(site, from, access) == Some(to));
    lemma_act_keeps_claimed_once(site, world, party, access);
    // The counters.
    assert forall|count: AtomicUsize|
        {
            &&& #[trigger] readers_on(after, count).finite()
            &&& site.arms.contains(count) ==> after.memory.counts[count] == readers_on(
                after,
                count,
            ).len()
        } by {
        let before = readers_on(world, count);
        assert(before.finite());
        if registered(from, count) == registered(to, count) {
            assert(readers_on(after, count) =~= before);
        } else if registered(to, count) {
            assert(readers_on(after, count) =~= before.insert(party));
        } else {
            assert(readers_on(after, count) =~= before.remove(party));
            assert(before.contains(party));
        }
    }
    assert forall|count: AtomicUsize| #[trigger] site.arms.contains(count) implies after
        .memory.counts[count] == readers_on(after, count).len() by {
        assert(readers_on(after, count).finite());
    }
    // The writers and readers that exclude each other.
    assert forall|p: int, q: int|
        excludes(site, #[trigger] stage_of(after, p), #[trigger] stage_of(after, q)) by {
        assert(excludes(site, stage_of(world, p), stage_of(world, q)));
        if p == party && to is Confirming && from is Confirming && q != party {
            let count = site.arms[from->Confirming_next];
            assert(site.arms.contains(count));
            readers_on(world, count).lemma_len0_is_empty();
            assert(!readers_on(world, count).contains(q));
        }
    }
}

proof fn lemma_put_keeps_stages<V>(site: Site, world: World<V>, party: int, value: V)
    requires
        happen(site, world, (Step { party, event: Event::Put { value } })) is Some,
    ensures
        ({
            let after = happen(site, world, (Step { party, event: Event::Put { value } }))->0;
            &&& after.memory == world.memory
            &&& forall|p: int| #[trigger] stage_of(after, p) == stage_of(world, p)
            &&& forall|count: AtomicUsize| #[trigger]
                readers_on(after, count) == readers_on(world, count)
            &&& claimed_once(world) ==> claimed_once(after)
        }),
{
    let after = happen(site, world, (Step { party, event: Event::Put { value } }))->0;
    assert(forall|p: int| #[trigger] stage_of(after, p) == stage_of(world, p));
    assert forall|count: AtomicUsize| #[trigger] readers_on(after, count) == readers_on(
        world,
        count,
    ) by {
        assert(readers_on(after, count) =~= readers_on(world, count));
    }
    if claimed_once(world) && after.memory.flag {
        let holder = choose|p: int| claims(#[trigger] stage_of(world, p));
        assert(claims(stage_of(after, holder)));
    }
}

/// Whatever the parties do, and in whatever order, the flag is up exactly while a party has it
/// raised, and there is never more than one such party.
pub proof fn law_always_claimed_once<V>(site: Site, data: V, history: Seq<Step<V>>)
    ensures
        run(site, data, history) matches Some(world) ==> claimed_once(world),
    decreases history.len(),
{
    if history.len() > 0 && run(site, data, history) is Some {
        let earlier = history.drop_last();
        law_always_claimed_once(site, data, earlier);
        let world = run(site, data, earlier)->0;
        let step = history.last();
        match step.event {
            Event::Act { access } => {
                lemma_act_keeps_claimed_once(site, world, step.party, access);
            },
            Event::Put { value } => {
                lemma_put_keeps_stages(site, world, step.party, value);
            },
            _ => {},
        }
    }
}

/// Whatever the parties do, and in whatever order, the lock is sound at every moment: the counters
/// count the registered parties, at most one party has raised the flag, and nobody reads where a
/// writer has looked since it raised the flag.
pub proof fn law_always_sound<V>(site: Site, data: V, history: Seq<Step<V>>)
    requires
        never_full(history),
    ensures
        run(site, data, history) matches Some(world) ==> sound(site, world),
    decreases history.len(),
{
    if history.len() == 0 {
        let world = opening(site, data);
        assert forall|count: AtomicUsize| #[trigger]
            readers_on(world, count) == Set::<int>::empty() by {
            assert(readers_on(world, count) =~= Set::empty());
        }
        assert forall|count: AtomicUsize| #[trigger] site.arms.contains(count) implies world
            .memory.counts[count] == readers_on(world, count).len() by {
            assert(readers_on(world, count) == Set::<int>::empty());
        }
    } else if run(site, data, history) is Some {
        let earlier = history.drop_last();
        lemma_never_full_prefix(history);
        law_always_sound(site, data, earlier);
        let world = run(site, data, earlier)->0;
        let step = history.last();
        assert(history[history.len() - 1] == step);
        match step.event {
            Event::Act { access } => {
                lemma_act_keeps_sound(site, world, step.party, access);
            },
            Event::Put { value } => {
                lemma_put_keeps_stages(site, world, step.party, value);
                let after = run(site, data, history)->0;
                assert forall|count: AtomicUsize| #[trigger] site.arms.contains(count) implies after
                    .memory.counts[count] == readers_on(after, count).len() by {
                    assert(readers_on(after, count) == readers_on(world, count));
                }
            },
            _ => {},
        }
    }
}

/// How far a party has come is decided by its own accesses alone.
pub proof fn law_stage_is_own_walk<V>(site: Site, data: V, history: Seq<Step<V>>, party: int)
    ensures
        run(site, data, history) matches Some(world) ==> protocol::walk(
            site,
            Stage::Start,
            own(history, party),
        ) == Some(stage_of(world, party)),
    decreases history.len(),
{
    if history.len() > 0 && run(site, data, history) is Some {
        let earlier = history.drop_last();
        law_stage_is_own_walk(site, data, earlier, party);
        let ops = own(earlier, party);
        match history.last().event {
            Event::Act { access } => {
                assert(ops.push(access).drop_last() =~= ops);
            },
            _ => {},
        }
    }
}

/// At most one party holds a write guard.
pub proof fn law_one_writer<V>(site: Site, data: V, history: Seq<Step<V>>, p: int, q: int)
    requires
        run(site, data, history) is Some,
        attempt::is_write_attempt(site, own(history, p), true),
        attempt::is_write_attempt(site, own(history, q), true),
    ensures
        p == q,
{
    let world = run(site, data, history)->0;
    law_always_claimed_once(site, data, history);
    law_stage_is_own_walk(site, data, history, p);
    law_stage_is_own_walk(site, data, history, q);
    protocol::law_write_attempt_follows_protocol(site, own(history, p), true);
    protocol::law_write_attempt_follows_protocol(site, own(history, q), true);
    assert(claims(stage_of(world, p)) && claims(stage_of(world, q)));
}

/// While a party holds a write guard, no other party holds a guard of either kind.
///
/// A party holds a guard when the accesses that it has made are exactly those of a granted
/// attempt.
pub proof fn law_mutual_exclusion<V>(
    site: Site,
    data: V,
    history: Seq<Step<V>>,
    writer: int,
    other: int,
)
    requires
        never_full(history),
        run(site, data, history) is Some,
        writer != other,
        attempt::is_write_attempt(site, own(history, writer), true),
    ensures
        !attempt::is_write_attempt(site, own(history, other), true),
        forall|count: AtomicUsize| #[trigger]
            site.arms.contains(count) ==> !attempt::is_read_attempt(
                site.flag,
                count,
                own(history, other),
                true,
            ),
{
    let world = run(site, data, history)->0;
    law_always_sound(site, data, history);
    law_stage_is_own_walk(site, data, history, writer);
    law_stage_is_own_walk(site, data, history, other);
    protocol::law_write_attempt_follows_protocol(site, own(history, writer), true);
    assert(excludes(site, stage_of(world, writer), stage_of(world, other)));
    if attempt::is_write_attempt(site, own(history, other), true) {
        law_one_writer(site, data, history, writer, other);
    }
    assert forall|count: AtomicUsize| #[trigger]
        site.arms.contains(count) implies !attempt::is_read_attempt(
        site.flag,
        count,
        own(history, other),
        true,
    ) by {
        if attempt::is_read_attempt(site.flag, count, own(history, other), true) {
            protocol::law_read_attempt_follows_protocol(
                site,
                count,
                own(history, other),
                true,
            );
            let i = choose|i: int| 0 <= i < site.arms.len() && site.arms[i] == count;
            assert(site.arms[i] == count);
        }
    }
}

/// A party that holds a write guard keeps everybody else out for as long as it does not drop the
/// guard, for good if it never does: nobody else gets a write guard, and nobody gets a read guard
/// who does not hold it already. Nobody does if no reader has ever registered on a full counter.
pub proof fn law_held_write_guard_keeps_others_out<V>(
    site: Site,
    data: V,
    history: Seq<Step<V>>,
    more: Seq<Step<V>>,
    writer: int,
    other: int,
    count: AtomicUsize,
)
    requires
        run(site, data, history + more) is Some,
        attempt::is_write_attempt(site, own(history, writer), true),
        own(history + more, writer) == own(history, writer),
        other != writer,
        site.arms.contains(count),
    ensures
        !attempt::is_write_attempt(site, own(history + more, other), true),
        attempt::is_read_attempt(site.flag, count, own(history + more, other), true) ==> own(
            history,
            other,
        ) == own(history + more, other) && !never_full(history),
    decreases more.len(),
{
    if attempt::is_write_attempt(site, own(history + more, other), true) {
        law_one_writer(site, data, history + more, writer, other);
    }
    if attempt::is_read_attempt(site.flag, count, own(history + more, other), true) {
        if more.len() == 0 {
            assert(history + more =~= history);
            if never_full(history) {
                law_mutual_exclusion(site, data, history, writer, other);
            }
        } else {
            let earlier = history + more.drop_last();
            let step = more.last();
            assert((history + more).drop_last() =~= earlier);
            assert((history + more).last() == step);
            lemma_own_grows(history, more.drop_last(), writer);
            assert(own(earlier, writer) == own(history, writer));
            law_held_write_guard_keeps_others_out(
                site,
                data,
                history,
                more.drop_last(),
                writer,
                other,
                count,
            );
            if step.party == other && step.event is Act {
                let world = run(site, data, earlier)->0;
                law_always_claimed_once(site, data, earlier);
                law_stage_is_own_walk(site, data, earlier, writer);
                protocol::law_write_attempt_follows_protocol(site, own(earlier, writer), true);
                assert(claims(stage_of(world, writer)));
                law_stage_is_own_walk(site, data, history + more, other);
                protocol::law_read_attempt_follows_protocol(
                    site,
                    count,
                    own(history + more, other),
                    true,
                );
            }
        }
    }
}

/// A party that holds a read guard keeps every writer out for as long as it does not drop the
/// guard, for good if it never does.
pub proof fn law_held_read_guard_keeps_writers_out<V>(
    site: Site,
    data: V,
    history: Seq<Step<V>>,
    more: Seq<Step<V>>,
    reader: int,
    count: AtomicUsize,
    other: int,
)
    requires
        never_full(history + more),
        run(site, data, history + more) is Some,
        site.arms.contains(count),
        attempt::is_read_attempt(site.flag, count, own(history, reader), true),
        own(history + more, reader) == own(history, reader),
    ensures
        !attempt::is_write_attempt(site, own(history + more, other), true),
{
    let ops = own(history + more, reader);
    if attempt::is_write_attempt(site, own(history + more, other), true) {
        if other == reader {
            protocol::law_read_attempt_follows_protocol(site, count, ops, true);
            protocol::law_write_attempt_follows_protocol(site, ops, true);
        } else {
            law_mutual_exclusion(site, data, history + more, other, reader);
        }
    }
}

/// The parties that hold a read guard which is registered on `count`.
pub open spec fn guards_on<V>(site: Site, history: Seq<Step<V>>, count: AtomicUsize) -> Set<int> {
    Set::new(
        |party: int| attempt::is_read_attempt(site.flag, count, own(history, party), true),
    )
}

/// A counter is never below the number of read guards that are registered on it. So it is not 0
/// when one of them is dropped, and does not wrap around.
pub proof fn law_counter_covers_guards<V>(
    site: Site,
    data: V,
    history: Seq<Step<V>>,
    count: AtomicUsize,
)
    requires
        never_full(history),
        run(site, data, history) is Some,
        site.arms.contains(count),
    ensures
        guards_on(site, history, count).finite(),
        guards_on(site, history, count).len() <= run(site, data, history)->0.memory.counts[count],
        guards_on(site, history, count).len() > 0 ==> run(site, data, history)->0.memory.counts[
            count
        ] > 0,
{
    let world = run(site, data, history)->0;
    law_always_sound(site, data, history);
    assert(readers_on(world, count).finite());
    assert forall|party: int| guards_on(site, history, count).contains(party) implies readers_on(
        world,
        count,
    ).contains(party) by {
        law_stage_is_own_walk(site, data, history, party);
        protocol::law_read_attempt_follows_protocol(site, count, own(history, party), true);
    }
    vstd::set_lib::lemma_len_subset(guards_on(site, history, count), readers_on(world, count));
}

/// Deregistering never takes a counter below 0: whenever a reader deregisters, because its guard
/// is dropped or its attempt refused, the counter holds at least 1.
pub proof fn law_counter_never_underflows<V>(site: Site, data: V, history: Seq<Step<V>>)
    requires
        never_full(history),
        run(site, data, history) is Some,
        history.len() > 0,
    ensures
        history.last().event matches Event::Act { access: Access::FetchSub { seen, .. } } ==> seen
            >= 1,
{
    if let Event::Act { access: Access::FetchSub { count, by, seen } } = history.last().event {
        let earlier = history.drop_last();
        let world = run(site, data, earlier)->0;
        lemma_never_full_prefix(history);
        law_always_sound(site, data, earlier);
        assert(registered(stage_of(world, history.last().party), count));
        assert(site.arms.contains(count));
        assert(readers_on(world, count).finite());
        if seen == 0 {
            readers_on(world, count).lemma_len0_is_empty();
            assert(!readers_on(world, count).contains(history.last().party));
        }
    }
}

/// When every attempt that was begun is over, the memory of the lock is as when the lock was made.
pub proof fn law_idle_lock_is_fresh<V>(site: Site, data: V, history: Seq<Step<V>>)
    requires
        never_full(history),
        run(site, data, history) is Some,
        forall|party: int| #[trigger]
            own(history, party).len() == 0 || protocol::is_ended(site, own(history, party)),
    ensures
        run(site, data, history)->0.memory == memory::fresh(site),
{
    let world = run(site, data, history)->0;
    law_always_sound(site, data, history);
    assert forall|party: int| #[trigger] stage_of(world, party) is Start || stage_of(
        world,
        party,
    ) is Over by {
        law_stage_is_own_walk(site, data, history, party);
        let ops = own(history, party);
        if ops.len() > 0 {
            protocol::law_ended_attempt_is_over(site, ops);
        }
    }
    assert forall|count: AtomicUsize| #[trigger] site.arms.contains(count) implies world
        .memory.counts[count] == 0 by {
        assert(readers_on(world, count) =~= Set::empty());
    }
    assert(world.memory.counts =~= memory::fresh(site).counts);
}

/// An attempt to read that nobody interrupts is granted if and only if no party has raised the
/// flag and the counter has room for one more; whether other parties read makes no other
/// difference.
pub proof fn law_uninterrupted_read<V>(
    site: Site,
    data: V,
    history: Seq<Step<V>>,
    count: AtomicUsize,
    ops: Seq<Access>,
    granted: bool,
)
    requires
        never_full(history),
        run(site, data, history) is Some,
        site.arms.contains(count),
        attempt::is_read_attempt(site.flag, count, ops, granted),
        memory::alone(site, run(site, data, history)->0.memory, ops) is Some,
    ensures
        granted <==> {
            &&& forall|party: int|
                !claims(#[trigger] stage_of(run(site, data, history)->0, party))
            &&& readers_on(run(site, data, history)->0, count).len() < usize::MAX
        },
{
    let world = run(site, data, history)->0;
    law_always_sound(site, data, history);
    memory::law_read_alone(
        site,
        world.memory,
        count,
        ops,
        granted,
        memory::alone(site, world.memory, ops)->0,
    );
}

/// An attempt to write that nobody interrupts is granted if and only if no party has raised the
/// flag or is registered as a reader.
pub proof fn law_uninterrupted_write<V>(
    site: Site,
    data: V,
    history: Seq<Step<V>>,
    ops: Seq<Access>,
    granted: bool,
)
    requires
        never_full(history),
        run(site, data, history) is Some,
        attempt::is_write_attempt(site, ops, granted),
        memory::alone(site, run(site, data, history)->0.memory, ops) is Some,
    ensures
        granted <==> forall|party: int|
            {
                let stage = #[trigger] stage_of(run(site, data, history)->0, party);
                !claims(stage) && forall|count: AtomicUsize| !registered(stage, count)
            },
{
    let world = run(site, data, history)->0;
    law_always_sound(site, data, history);
    memory::law_write_alone(
        site,
        world.memory,
        ops,
        granted,
        memory::alone(site, world.memory, ops)->0,
    );
    if granted {
        assert forall|party: int, count: AtomicUsize| #[trigger]
            registered(stage_of(world, party), count) implies false by {
            assert(site.arms.contains(count));
            let i = choose|i: int| 0 <= i < site.arms.len() && site.arms[i] == count;
            assert(world.memory.counts[site.arms[i]] == 0);
            readers_on(world, count).lemma_len0_is_empty();
            assert(readers_on(world, count).contains(party));
        }
    } else if !world.memory.flag {
        let i = choose|i: int|
            0 <= i < site.arms.len() && world.memory.counts[#[trigger] site.arms[i]] != 0;
        let count = site.arms[i];
        assert(site.arms.contains(count));
        if readers_on(world, count) =~= Set::empty() {
            assert(false);
        }
        let party = choose|party: int| readers_on(world, count).contains(party);
        assert(registered(stage_of(world, party), count));
    }
}

/// The cell of the lock always holds what was last put into it, or what the lock was made around
/// if nothing was; so that is what every read through a guard sees.
pub proof fn law_data_is_last_put<V>(site: Site, data: V, history: Seq<Step<V>>)
    requires
        run(site, data, history) is Some,
    ensures
        run(site, data, history)->0.data == last_put(data, history),
        history.len() > 0 ==> (history.last().event matches Event::Fetch { seen } ==> seen
            == last_put(data, history.drop_last())),
    decreases history.len(),
{
    if history.len() > 0 {
        law_data_is_last_put(site, data, history.drop_last());
    }
}

proof fn lemma_run_prefix<V>(site: Site, data: V, history: Seq<Step<V>>, more: Seq<Step<V>>)
    requires
        run(site, data, history + more) is Some,
    ensures
        run(site, data, history) is Some,
    decreases more.len(),
{
    if more.len() == 0 {
        assert(history + more =~= history);
    } else {
        assert((history + more).drop_last() =~= history + more.drop_last());
        lemma_run_prefix(site, data, history, more.drop_last());
    }
}

proof fn lemma_own_grows<V>(history: Seq<Step<V>>, more: Seq<Step<V>>, party: int)
    ensures
        own(history, party).len() <= own(history + more, party).len(),
    decreases more.len(),
{
    if more.len() == 0 {
        assert(history + more =~= history);
    } else {
        assert((history + more).drop_last() =~= history + more.drop_last());
        lemma_own_grows(history, more.drop_last(), party);
    }
}

/// For as long as a party holds a read guard, the data does not change.
pub proof fn law_data_is_stable_under_a_read_guard<V>(
    site: Site,
    data: V,
    history: Seq<Step<V>>,
    more: Seq<Step<V>>,
    reader: int,
    count: AtomicUsize,
)
    requires
        never_full(history + more),
        run(site, data, history + more) is Some,
        site.arms.contains(count),
        attempt::is_read_attempt(site.flag, count, own(history, reader), true),
        own(history + more, reader) == own(history, reader),
    ensures
        run(site, data, history) is Some,
        run(site, data, history + more)->0.data == run(site, data, history)->0.data,
    decreases more.len(),
{
    lemma_run_prefix(site, data, history, more);
    if more.len() == 0 {
        assert(history + more =~= history);
    } else {
        let earlier = history + more.drop_last();
        let step = more.last();
        assert((history + more).drop_last() =~= earlier);
        assert((history + more).last() == step);
        lemma_never_full_prefix(history + more);
        lemma_own_grows(history, more.drop_last(), reader);
        assert(own(earlier, reader) == own(history, reader));
        law_data_is_stable_under_a_read_guard(
            site,
            data,
            history,
            more.drop_last(),
            reader,
            count,
        );
        if step.event is Put {
            law_stage_is_own_walk(site, data, earlier, step.party);
            protocol::law_protocol_is_attempts(site, own(earlier, step.party));
            assert(attempt::is_write_attempt(site, own(earlier, step.party), true));
            if step.party == reader {
                protocol::law_read_attempt_follows_protocol(
                    site,
                    count,
                    own(earlier, reader),
                    true,
                );
            } else {
                law_mutual_exclusion(site, data, earlier, step.party, reader);
            }
        }
    }
}

/// For as long as a party holds a write guard, nobody else changes the data.
pub proof fn law_data_is_private_under_a_write_guard<V>(
    site: Site,
    data: V,
    history: Seq<Step<V>>,
    more: Seq<Step<V>>,
    writer: int,
)
    requires
        run(site, data, history + more) is Some,
        attempt::is_write_attempt(site, own(history, writer), true),
        forall|i: int| 0 <= i < more.len() ==> (#[trigger] more[i]).party != writer,
    ensures
        run(site, data, history) is Some,
        run(site, data, history + more)->0.data == run(site, data, history)->0.data,
        own(history + more, writer) == own(history, writer),
    decreases more.len(),
{
    lemma_run_prefix(site, data, history, more);
    if more.len() == 0 {
        assert(history + more =~= history);
    } else {
        let earlier = history + more.drop_last();
        let step = more.last();
        assert((history + more).drop_last() =~= earlier);
        assert((history + more).last() == step);
        assert(step == more[more.len() - 1]);
        assert forall|i: int| 0 <= i < more.drop_last().len() implies (
        #[trigger] more.drop_last()[i]).party != writer by {
            assert(more.drop_last()[i] == more[i]);
        }
        law_data_is_private_under_a_write_guard(site, data, history, more.drop_last(), writer);
        if step.event is Put {
            law_stage_is_own_walk(site, data, earlier, step.party);
            protocol::law_protocol_is_attempts(site, own(earlier, step.party));
            assert(attempt::is_write_attempt(site, own(earlier, step.party), true));
            law_one_writer(site, data, earlier, writer, step.party);
        }
    }
}

/// What `party` has last read of the data and not yet answered with a write of its own; `None` if
/// there is no such read.
pub open spec fn in_hand<V>(history: Seq<Step<V>>, party: int) -> Option<V>
    decreases history.len(),
{
    if history.len() == 0 {
        None
    } else if history.last().party != party {
        in_hand(history.drop_last(), party)
    } else {
        match history.last().event {
            Event::Fetch { seen } => Some(seen),
            Event::Put { .. } => None,
            _ => in_hand(history.drop_last(), party),
        }
    }
}

/// Whether every write in `history` puts `f` of what its party has in hand.
pub open spec fn only_updates<V>(f: spec_fn(V) -> V, history: Seq<Step<V>>) -> bool
    decreases history.len(),
{
    history.len() > 0 ==> {
        &&& only_updates(f, history.drop_last())
        &&& history.last().event matches Event::Put { value } ==> in_hand(
            history.drop_last(),
            history.last().party,
        ) matches Some(seen) && value == f(seen)
    }
}

/// How many writes there are in `history`.
pub open spec fn puts<V>(history: Seq<Step<V>>) -> nat
    decreases history.len(),
{
    if history.len() == 0 {
        0
    } else {
        puts(history.drop_last()) + if history.last().event is Put {
            1nat
        } else {
            0nat
        }
    }
}

/// What is left of `x` when `f` is applied `n` times.
pub open spec fn repeated<V>(f: spec_fn(V) -> V, n: nat, x: V) -> V
    decreases n,
{
    if n == 0 {
        x
    } else {
        f(repeated(f, (n - 1) as nat, x))
    }
}

proof fn lemma_in_hand_is_data<V>(site: Site, data: V, history: Seq<Step<V>>, party: int)
    requires
        run(site, data, history) is Some,
        in_hand(history, party) is Some,
    ensures
        ({
            let world = run(site, data, history)->0;
            let stage = stage_of(world, party);
            &&& stage is Reading || stage is Over || stage == protocol::writing(site)
            &&& stage == protocol::writing(site) ==> in_hand(history, party) == Some(world.data)
        }),
    decreases history.len(),
{
    let earlier = history.drop_last();
    let world = run(site, data, earlier)->0;
    let step = history.last();
    if in_hand(history, party) == in_hand(earlier, party) {
        lemma_in_hand_is_data(site, data, earlier, party);
        if step.event is Put && step.party != party {
            law_always_claimed_once(site, data, earlier);
            if stage_of(world, party) == protocol::writing(site) {
                assert(claims(stage_of(world, party)) && claims(stage_of(world, step.party)));
            }
        }
    }
}

/// No update is lost. If every write puts `f` of what its party has read under its guard, the
/// data is at the end what `f` makes of it, applied as often as there were writes, whoever made
/// them and in whatever order.
pub proof fn law_no_update_is_lost<V>(
    site: Site,
    data: V,
    history: Seq<Step<V>>,
    f: spec_fn(V) -> V,
)
    requires
        run(site, data, history) is Some,
        only_updates(f, history),
    ensures
        run(site, data, history)->0.data == repeated(f, puts(history), data),
    decreases history.len(),
{
    if history.len() > 0 {
        let earlier = history.drop_last();
        law_no_update_is_lost(site, data, earlier, f);
        if history.last().event is Put {
            lemma_in_hand_is_data(site, data, earlier, history.last().party);
        }
    }
}

/// `v + 1`, wrapped around.
pub open spec fn incremented(v: u64) -> u64 {
    if v == u64::MAX {
        0
    } else {
        (v + 1) as u64
    }
}

/// Increments through write guards add up: if a lock is made around 0, and every write puts one
/// more than its party has read under its guard, the data is at the end the number of writes,
/// modulo 2^64.
pub proof fn law_increments_add_up(site: Site, history: Seq<Step<u64>>)
    requires
        run(site, 0u64, history) is Some,
        only_updates(|v: u64| incremented(v), history),
    ensures
        run(site, 0u64, history)->0.data == puts(history) % 0x1_0000_0000_0000_0000,
{
    law_no_update_is_lost(site, 0u64, history, |v: u64| incremented(v));
    lemma_repeated_increment(|v: u64| incremented(v), puts(history));
}

proof fn lemma_repeated_increment(f: spec_fn(u64) -> u64, n: nat)
    requires
        forall|v: u64| #[trigger] f(v) == incremented(v),
    ensures
        repeated(f, n, 0u64) == n % 0x1_0000_0000_0000_0000,
    decreases n,
{
    if n > 0 {
        lemma_repeated_increment(f, (n - 1) as nat);
    }
}

proof fn lemma_never_full_prefix<V>(history: Seq<Step<V>>)
    requires
        never_full(history),
        history.len() > 0,
    ensures
        never_full(history.drop_last()),
{
    let earlier = history.drop_last();
    assert forall|i: int| 0 <= i < earlier.len() implies !full((#[trigger] earlier[i]).event) by {
        assert(earlier[i] == history[i]);
    }
}

} // verus!
