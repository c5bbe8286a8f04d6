//! Calls on a lock that come one after the other, each of them when the one before is through.
//!
//! What such a call comes to depends on very little: whether the flag is up, what the counters hold
//! and what the cell holds. How the lock stores its shards makes no difference.

use vstd::prelude::*;

use crate::attempt;
use crate::attempt::Site;
use crate::boxed::BoxedShardedRwLock;
use crate::inline::InlineShardedRwLock;
use crate::memory;
use crate::memory::Memory;
use crate::trace::Access;

verus! {

/// Something that is done with a lock, its handles and its guards.
pub enum Call<V> {
    /// A handle is made, from the lock or from another handle.
    Handle,
    /// An attempt to read on the arm `on`.
    Read { on: int },
    /// An attempt to write through a handle, which polls the arm `on` first.
    Write { on: int },
    /// A read guard that is registered on the arm `on` is dropped.
    EndRead { on: int },
    /// A write guard is dropped.
    EndWrite,
    /// A read of the data through a guard.
    Fetch,
    /// A write of the data through a write guard.
    Put { value: V },
}

/// What a call yields.
pub enum Outcome<V> {
    /// The attempt yields a guard.
    Granted,
    /// The attempt yields no guard.
    Refused,
    /// The guard shows `value`.
    Shown { value: V },
    /// Nothing.
    Done,
}

/// One call, with the accesses that it makes and what it yields.
pub struct Turn<V> {
    pub call: Call<V>,
    pub ops: Seq<Access>,
    pub outcome: Outcome<V>,
}

/// What the shared memory and the cell of a lock hold.
pub struct Scene<V> {
    pub memory: Memory,
    pub data: V,
}

/// Whether `outcome` is one that an attempt has.
pub open spec fn decided<V>(outcome: Outcome<V>) -> bool {
    outcome is Granted || outcome is Refused
}

/// Whether the call of `turn` can make these accesses and yield this, where the cell holds `data`.
pub open spec fn fits<V>(site: Site, data: V, turn: Turn<V>) -> bool {
    match turn.call {
        Call::Handle => turn.ops == Seq::<Access>::empty() && turn.outcome is Done,
        Call::Read { on } => 0 <= on < site.arms.len() && decided(turn.outcome)
            && attempt::is_read_attempt(
            site.flag,
            site.arms[on],
            turn.ops,
            turn.outcome is Granted,
        ),
        Call::Write { on } => 0 <= on < site.arms.len() && decided(turn.outcome)
            && attempt::is_polled_write_attempt(site, on, turn.ops, turn.outcome is Granted),
        Call::EndRead { on } => 0 <= on < site.arms.len() && attempt::deregisters(
            Seq::empty(),
            turn.ops,
            site.arms[on],
        ) && turn.outcome is Done,
        Call::EndWrite => turn.ops == seq![Access::StoreFlag { flag: site.flag, put: false }]
            && turn.outcome is Done,
        Call::Fetch => turn.ops == Seq::<Access>::empty() && turn.outcome == (Outcome::Shown {
            value: data,
        }),
        Call::Put { .. } => turn.ops == Seq::<Access>::empty() && turn.outcome is Done,
    }
}

/// What `call` leaves in a cell that holds `data`.
pub open spec fn left_in<V>(call: Call<V>, data: V) -> V {
    match call {
        Call::Put { value } => value,
        _ => data,
    }
}

/// What `turn` makes of `scene`; `None` if it cannot come about there.
pub open spec fn take<V>(site: Site, scene: Scene<V>, turn: Turn<V>) -> Option<Scene<V>> {
    if fits(site, scene.data, turn) {
        match memory::alone(site, scene.memory, turn.ops) {
            Some(memory) => Some(Scene { memory, data: left_in(turn.call, scene.data) }),
            None => None,
        }
    } else {
        None
    }
}

/// What `turns`, one after the other, make of `scene`; `None` if they cannot come about there.
pub open spec fn play<V>(site: Site, scene: Scene<V>, turns: Seq<Turn<V>>) -> Option<Scene<V>>
    decreases turns.len(),
{
    if turns.len() == 0 {
        Some(scene)
    } else {
        match play(site, scene, turns.drop_last()) {
            Some(reached) => take(site, reached, turns.last()),
            None => None,
        }
    }
}

/// What a lock holds, with its counters named by their arms.
#[verifier::ext_equal]
pub struct Ledger<V> {
    /// Whether the flag is up.
    pub flag: bool,
    /// What the counters of the arms hold, in order.
    pub readers: Seq<usize>,
    /// What the cell holds.
    pub data: V,
}

/// What `scene` holds for the lock at `site`.
pub open spec fn ledger<V>(site: Site, scene: Scene<V>) -> Ledger<V> {
    Ledger {
        flag: scene.memory.flag,
        readers: Seq::new(site.arms.len(), |i: int| scene.memory.counts[site.arms[i]]),
        data: scene.data,
    }
}

/// Whether `memory` belongs to a lock at `site`, each of whose arms has a counter of its own.
pub open spec fn belongs(site: Site, memory: Memory) -> bool {
    &&& site.arms.no_duplicates()
    &&& forall|i: int|
        0 <= i < site.arms.len() ==> memory.counts.dom().contains(#[trigger] site.arms[i])
}

/// Whether a lock with the ledger `before` grants `call`.
pub open spec fn grants<V>(before: Ledger<V>, call: Call<V>) -> bool {
    match call {
        Call::Read { on } => !before.flag && before.readers[on] < usize::MAX,
        Call::Write { .. } => !before.flag && forall|i: int|
            0 <= i < before.readers.len() ==> #[trigger] before.readers[i] == 0,
        _ => false,
    }
}

/// What a lock with the ledger `before` yields for `call`.
pub open spec fn yields<V>(before: Ledger<V>, call: Call<V>) -> Outcome<V> {
    match call {
        Call::Read { .. } | Call::Write { .. } => if grants(before, call) {
            Outcome::Granted
        } else {
            Outcome::Refused
        },
        Call::Fetch => Outcome::Shown { value: before.data },
        _ => Outcome::Done,
    }
}

/// The ledger of a lock that had the ledger `before`, after `call`.
pub open spec fn booked<V>(before: Ledger<V>, call: Call<V>) -> Ledger<V> {
    match call {
        Call::Read { on } if grants(before, call) => Ledger {
            readers: before.readers.update(on, (before.readers[on] + 1) as usize),
            ..before
        },
        Call::Write { .. } if grants(before, call) => Ledger { flag: true, ..before },
        Call::EndRead { on } => Ledger {
            readers: before.readers.update(on, memory::minus(before.readers[on], 1)),
            ..before
        },
        Call::EndWrite => Ledger { flag: false, ..before },
        Call::Put { value } => Ledger { data: value, ..before },
        _ => before,
    }
}

proof fn lemma_ledger_after_count<V>(
    site: Site,
    scene: Scene<V>,
    after: Scene<V>,
    on: int,
    count: usize,
)
    requires
        belongs(site, scene.memory),
        0 <= on < site.arms.len(),
        after.memory.flag == scene.memory.flag,
        after.memory.counts == scene.memory.counts.insert(site.arms[on], count),
        after.data == scene.data,
    ensures
        belongs(site, after.memory),
        ledger(site, after) == (Ledger {
            readers: ledger(site, scene).readers.update(on, count),
            ..ledger(site, scene)
        }),
{
    assert(ledger(site, after).readers =~= ledger(site, scene).readers.update(on, count));
}

/// What a call yields, and what it makes of the lock, is decided by the ledger alone: which
/// locations the flag and the counters are makes no difference.
pub proof fn law_call_follows_ledger<V>(site: Site, scene: Scene<V>, turn: Turn<V>)
    requires
        belongs(site, scene.memory),
        take(site, scene, turn) is Some,
    ensures
        belongs(site, take(site, scene, turn)->0.memory),
        turn.outcome == yields(ledger(site, scene), turn.call),
        ledger(site, take(site, scene, turn)->0) == booked(ledger(site, scene), turn.call),
{
    let after = take(site, scene, turn)->0;
    let before = ledger(site, scene);
    match turn.call {
        Call::Read { on } => {
            let count = site.arms[on];
            let granted = turn.outcome is Granted;
            memory::law_read_alone(
                site,
                scene.memory,
                count,
                turn.ops,
                granted,
                after.memory,
            );
            if granted {
                lemma_ledger_after_count(
                    site,
                    scene,
                    after,
                    on,
                    (before.readers[on] + 1) as usize,
                );
            }
        },
        Call::Write { on } => {
            memory::law_polled_write_alone(
                site,
                scene.memory,
                on,
                turn.ops,
                turn.outcome is Granted,
                after.memory,
            );
            assert(memory::unread(site, scene.memory) == forall|i: int|
                0 <= i < before.readers.len() ==> #[trigger] before.readers[i] == 0) by {
                if memory::unread(site, scene.memory) {
                    assert forall|i: int| 0 <= i < before.readers.len() implies
                        #[trigger] before.readers[i] == 0 by {
                        assert(scene.memory.counts[site.arms[i]] == 0);
                    }
                } else {
                    let i = choose|i: int|
                        0 <= i < site.arms.len() && scene.memory.counts[
                            #[trigger] site.arms[i]
                        ] != 0;
                    assert(before.readers[i] != 0);
                }
            }
            assert(ledger(site, after) =~= booked(before, turn.call));
        },
        Call::EndRead { on } => {
            let count = site.arms[on];
            let seen = choose|seen: usize|
                turn.ops == #[trigger] Seq::<Access>::empty().push(
                    Access::FetchSub { count, by: 1, seen },
                );
            reveal_with_fuel(memory::alone, 2);
            assert(turn.ops.drop_last() =~= Seq::empty());
            lemma_ledger_after_count(
                site,
                scene,
                after,
                on,
                memory::minus(before.readers[on], 1),
            );
        },
        Call::EndWrite => {
            reveal_with_fuel(memory::alone, 2);
            assert(turn.ops.drop_last() =~= Seq::empty());
            assert(ledger(site, after) =~= booked(before, turn.call));
        },
        _ => {
            assert(ledger(site, after) =~= booked(before, turn.call));
        },
    }
}

/// What calls yield, and what they make of a lock, is decided by what the lock holds at first and
/// by the calls: two locks that hold the same, and on which the same is done, yield the same and
/// hold the same afterwards.
pub proof fn law_equal_calls_yield_equal_outcomes<V>(
    site: Site,
    scene: Scene<V>,
    turns: Seq<Turn<V>>,
    other_site: Site,
    other_scene: Scene<V>,
    other_turns: Seq<Turn<V>>,
)
    requires
        belongs(site, scene.memory),
        belongs(other_site, other_scene.memory),
        ledger(site, scene) == ledger(other_site, other_scene),
        play(site, scene, turns) is Some,
        play(other_site, other_scene, other_turns) is Some,
        turns.len() == other_turns.len(),
        forall|i: int|
            0 <= i < turns.len() ==> (#[trigger] turns[i]).call == other_turns[i].call,
    ensures
        forall|i: int|
            0 <= i < turns.len() ==> (#[trigger] turns[i]).outcome == other_turns[i].outcome,
        ledger(site, play(site, scene, turns)->0) == ledger(
            other_site,
            play(other_site, other_scene, other_turns)->0,
        ),
        belongs(site, play(site, scene, turns)->0.memory),
        belongs(other_site, play(other_site, other_scene, other_turns)->0.memory),
    decreases turns.len(),
{
    if turns.len() > 0 {
        let last = turns.len() - 1;
        let fewer = turns.drop_last();
        let other_fewer = other_turns.drop_last();
        assert forall|i: int| 0 <= i < fewer.len() implies (#[trigger] fewer[i]).call
            == other_fewer[i].call by {
            assert(fewer[i] == turns[i] && other_fewer[i] == other_turns[i]);
        }
        law_equal_calls_yield_equal_outcomes(
            site,
            scene,
            fewer,
            other_site,
            other_scene,
            other_fewer,
        );
        law_call_follows_ledger(site, play(site, scene, fewer)->0, turns.last());
        law_call_follows_ledger(
            other_site,
            play(other_site, other_scene, other_fewer)->0,
            other_turns.last(),
        );
        assert(turns[last].call == other_turns[last].call);
        assert forall|i: int| 0 <= i < turns.len() implies (#[trigger] turns[i]).outcome
            == other_turns[i].outcome by {
            if i < last {
                assert(fewer[i] == turns[i] && other_fewer[i] == other_turns[i]);
            }
        }
    }
}

/// How a lock stores its shards cannot be told from what it yields: if the same calls are made on a
/// boxed and on an inline lock that were made with as many shards and around the same data, they
/// are granted or refused alike, and the guards show equal data.
pub proof fn law_storage_is_not_observable<T, const N: usize>(
    boxed: BoxedShardedRwLock<T>,
    inline: InlineShardedRwLock<T, N>,
    item: T,
    on_boxed: Seq<Turn<T>>,
    on_inline: Seq<Turn<T>>,
)
    requires
        boxed.is_new(N as nat, item),
        inline.is_new(N as nat, item),
        play(
            boxed.site(),
            (Scene { memory: memory::made(boxed.site()), data: item }),
            on_boxed,
        ) is Some,
        play(
            inline.site(),
            (Scene { memory: memory::made(inline.site()), data: item }),
            on_inline,
        ) is Some,
        on_boxed.len() == on_inline.len(),
        forall|i: int|
            0 <= i < on_boxed.len() ==> (#[trigger] on_boxed[i]).call == on_inline[i].call,
    ensures
        forall|i: int|
            0 <= i < on_boxed.len() ==> (#[trigger] on_boxed[i]).outcome == on_inline[i].outcome,
{
    let scene = Scene { memory: memory::made(boxed.site()), data: item };
    let other_scene = Scene { memory: memory::made(inline.site()), data: item };
    lemma_fresh_ledger(boxed.site(), item);
    lemma_fresh_ledger(inline.site(), item);
    law_equal_calls_yield_equal_outcomes(
        boxed.site(),
        scene,
        on_boxed,
        inline.site(),
        other_scene,
        on_inline,
    );
}

proof fn lemma_fresh_ledger<V>(site: Site, data: V)
    requires
        site.arms.no_duplicates(),
    ensures
        belongs(site, memory::fresh(site)),
        ledger(site, (Scene { memory: memory::fresh(site), data })) == (Ledger {
            flag: false,
            readers: Seq::new(site.arms.len(), |i: int| 0usize),
            data,
        }),
{
    assert(forall|i: int|
        0 <= i < site.arms.len() ==> site.arms.contains(#[trigger] site.arms[i]));
    assert(ledger(site, (Scene { memory: memory::fresh(site), data })).readers =~= Seq::new(
        site.arms.len(),
        |i: int| 0usize,
    ));
}

/// How many of `turns` are attempts to read on the arm `on`.
pub open spec fn reads_on<V>(turns: Seq<Turn<V>>, on: int) -> nat
    decreases turns.len(),
{
    if turns.len() == 0 {
        0
    } else {
        reads_on(turns.drop_last(), on) + if turns.last().call == (Call::<V>::Read { on }) {
            1nat
        } else {
            0nat
        }
    }
}

/// How many readers the counters count together.
pub open spec fn total(readers: Seq<usize>) -> nat
    decreases readers.len(),
{
    if readers.len() == 0 {
        0
    } else {
        total(readers.drop_last()) + readers.last() as nat
    }
}

proof fn lemma_total_after_one(readers: Seq<usize>, on: int)
    requires
        0 <= on < readers.len(),
        readers[on] < usize::MAX,
    ensures
        total(readers.update(on, (readers[on] + 1) as usize)) == total(readers) + 1,
    decreases readers.len(),
{
    let after = readers.update(on, (readers[on] + 1) as usize);
    if on == readers.len() - 1 {
        assert(after.drop_last() =~= readers.drop_last());
    } else {
        lemma_total_after_one(readers.drop_last(), on);
        assert(after.drop_last() =~= readers.drop_last().update(on, (readers[on] + 1) as usize));
    }
}

/// Readers never exclude each other. While no writer has raised the flag, any number of attempts
/// to read are all granted, on whichever arms, for as long as the counters have room. Each counter
/// then counts one more for every attempt on its arm, so that all of them together count as many
/// more as there were attempts; and the data, which every guard shows, is what it was.
pub proof fn law_reads_add_up<V>(site: Site, scene: Scene<V>, turns: Seq<Turn<V>>)
    requires
        belongs(site, scene.memory),
        !scene.memory.flag,
        play(site, scene, turns) is Some,
        forall|i: int| 0 <= i < turns.len() ==> (#[trigger] turns[i]).call is Read,
        forall|on: int|
            0 <= on < site.arms.len() ==> scene.memory.counts[site.arms[on]]
                + #[trigger] reads_on(turns, on) <= usize::MAX,
    ensures
        forall|i: int| 0 <= i < turns.len() ==> (#[trigger] turns[i]).outcome is Granted,
        ({
            let before = ledger(site, scene);
            let after = ledger(site, play(site, scene, turns)->0);
            &&& !after.flag
            &&& after.data == before.data
            &&& forall|on: int|
                0 <= on < site.arms.len() ==> #[trigger] after.readers[on] == before.readers[on]
                    + reads_on(turns, on)
            &&& total(after.readers) == total(before.readers) + turns.len()
        }),
        belongs(site, play(site, scene, turns)->0.memory),
    decreases turns.len(),
{
    if turns.len() > 0 {
        let last = turns.len() - 1;
        let fewer = turns.drop_last();
        assert forall|i: int| 0 <= i < fewer.len() implies (#[trigger] fewer[i]).call is Read by {
            assert(fewer[i] == turns[i]);
        }
        assert forall|on: int| 0 <= on < site.arms.len() implies scene.memory.counts[site.arms[on]]
            + #[trigger] reads_on(fewer, on) <= usize::MAX by {
            assert(reads_on(fewer, on) <= reads_on(turns, on));
        }
        law_reads_add_up(site, scene, fewer);
        let reached = play(site, scene, fewer)->0;
        law_call_follows_ledger(site, reached, turns.last());
        assert(turns[last] == turns.last());
        let on = turns.last().call->Read_on;
        let before = ledger(site, reached);
        assert(before.readers[on] == scene.memory.counts[site.arms[on]] + reads_on(fewer, on));
        assert(reads_on(turns, on) == reads_on(fewer, on) + 1);
        lemma_total_after_one(before.readers, on);
        assert forall|i: int| 0 <= i < turns.len() implies (
        #[trigger] turns[i]).outcome is Granted by {
            if i < last {
                assert(fewer[i] == turns[i]);
            }
        }
        let after = ledger(site, play(site, scene, turns)->0);
        let first = ledger(site, scene);
        assert forall|a: int| 0 <= a < site.arms.len() implies #[trigger] after.readers[a]
            == first.readers[a] + reads_on(turns, a) by {
            assert(before.readers[a] == first.readers[a] + reads_on(fewer, a));
        }
    }
}

/// Readers may share a shard: while no writer has raised the flag, any number of attempts to read
/// on one arm are all granted, for as long as the counter has room, and the counter then counts as
/// many more. The other counters are left alone.
pub proof fn law_reads_on_one_arm_add_up<V>(
    site: Site,
    scene: Scene<V>,
    turns: Seq<Turn<V>>,
    on: int,
)
    requires
        belongs(site, scene.memory),
        !scene.memory.flag,
        0 <= on < site.arms.len(),
        play(site, scene, turns) is Some,
        forall|i: int|
            0 <= i < turns.len() ==> (#[trigger] turns[i]).call == (Call::<V>::Read { on }),
        scene.memory.counts[site.arms[on]] + turns.len() <= usize::MAX,
    ensures
        forall|i: int| 0 <= i < turns.len() ==> (#[trigger] turns[i]).outcome is Granted,
        ({
            let before = ledger(site, scene).readers;
            let after = ledger(site, play(site, scene, turns)->0).readers;
            &&& after[on] == before[on] + turns.len()
            &&& forall|a: int|
                0 <= a < site.arms.len() && a != on ==> #[trigger] after[a] == before[a]
        }),
{
    assert forall|a: int|
        #![trigger reads_on(turns, a)]
        reads_on(turns, a) == if a == on {
            turns.len()
        } else {
            0
        } by {
        lemma_reads_on_one_arm(turns, on, a);
    }
    law_reads_add_up(site, scene, turns);
}

proof fn lemma_reads_on_one_arm<V>(turns: Seq<Turn<V>>, on: int, a: int)
    requires
        forall|i: int|
            0 <= i < turns.len() ==> (#[trigger] turns[i]).call == (Call::<V>::Read { on }),
    ensures
        reads_on(turns, a) == if a == on {
            turns.len()
        } else {
            0
        },
    decreases turns.len(),
{
    if turns.len() > 0 {
        let fewer = turns.drop_last();
        assert forall|i: int| 0 <= i < fewer.len() implies (#[trigger] fewer[i]).call == (Call::<
            V,
        >::Read { on }) by {
            assert(fewer[i] == turns[i]);
        }
        lemma_reads_on_one_arm(fewer, on, a);
        assert(turns[turns.len() - 1] == turns.last());
    }
}

/// A write guard is in force until it is dropped: once the flag is up, every attempt is refused,
/// whatever is done meanwhile, for as long as no write guard is dropped.
pub proof fn law_raised_flag_refuses_everybody<V>(site: Site, scene: Scene<V>, turns: Seq<Turn<V>>)
    requires
        belongs(site, scene.memory),
        scene.memory.flag,
        play(site, scene, turns) is Some,
        forall|i: int| 0 <= i < turns.len() ==> !((#[trigger] turns[i]).call is EndWrite),
    ensures
        forall|i: int|
            0 <= i < turns.len() && ((#[trigger] turns[i]).call is Read || turns[i].call is Write)
                ==> turns[i].outcome is Refused,
        play(site, scene, turns)->0.memory.flag,
        belongs(site, play(site, scene, turns)->0.memory),
    decreases turns.len(),
{
    if turns.len() > 0 {
        let last = turns.len() - 1;
        let fewer = turns.drop_last();
        assert forall|i: int| 0 <= i < fewer.len() implies !((
        #[trigger] fewer[i]).call is EndWrite) by {
            assert(fewer[i] == turns[i]);
        }
        law_raised_flag_refuses_everybody(site, scene, fewer);
        law_call_follows_ledger(site, play(site, scene, fewer)->0, turns.last());
        assert(turns[last] == turns.last());
        assert forall|i: int|
            0 <= i < turns.len() && ((#[trigger] turns[i]).call is Read
                || turns[i].call is Write) implies turns[i].outcome is Refused by {
            if i < last {
                assert(fewer[i] == turns[i]);
            }
        }
    }
}

/// How many of `turns` drop a read guard that is registered on the arm `on`.
pub open spec fn ends_on<V>(turns: Seq<Turn<V>>, on: int) -> nat
    decreases turns.len(),
{
    if turns.len() == 0 {
        0
    } else {
        ends_on(turns.drop_last(), on) + if turns.last().call == (Call::<V>::EndRead { on }) {
            1nat
        } else {
            0nat
        }
    }
}

/// A read guard is in force until it is dropped: while an arm counts more readers than are dropped
/// there, every attempt to write is refused, whatever is done meanwhile.
pub proof fn law_reader_refuses_writers<V>(
    site: Site,
    scene: Scene<V>,
    turns: Seq<Turn<V>>,
    on: int,
)
    requires
        belongs(site, scene.memory),
        0 <= on < site.arms.len(),
        scene.memory.counts[site.arms[on]] > ends_on(turns, on),
        play(site, scene, turns) is Some,
    ensures
        forall|i: int|
            0 <= i < turns.len() && (#[trigger] turns[i]).call is Write ==> turns[i].outcome
                is Refused,
        ledger(site, play(site, scene, turns)->0).readers[on] >= scene.memory.counts[site.arms[on]]
            - ends_on(turns, on),
        belongs(site, play(site, scene, turns)->0.memory),
    decreases turns.len(),
{
    if turns.len() > 0 {
        let last = turns.len() - 1;
        let fewer = turns.drop_last();
        law_reader_refuses_writers(site, scene, fewer, on);
        let reached = play(site, scene, fewer)->0;
        law_call_follows_ledger(site, reached, turns.last());
        assert(ledger(site, reached).readers[on] != 0);
        assert(turns[last] == turns.last());
        assert forall|i: int|
            0 <= i < turns.len() && (#[trigger] turns[i]).call is Write implies turns[i].outcome
            is Refused by {
            if i < last {
                assert(fewer[i] == turns[i]);
            }
        }
    }
}

} // verus!
