//! The shards and the scan of a writer under the bandits of `kasino`, which pick the arms.

use core::cell::Cell;

use kasino::storage::StorageBackend;
use kasino::strategy::{Hooked, RandomAccess, RoundRobin, Strategy};
use kasino::{
    BoxedBandit,
    Collection,
    InlineBandit,
    InlineBanditHandle,
    Signature,
    WithCapacity,
};
use portable_atomic::AtomicBool;

use shardedrw::strategy::collect;
use shardedrw::sync::UnsafeCell;
use shardedrw::trace::Trace;
use shardedrw::{LockInput, ReaderGuard, ReaderShard, ShardStorage, WriteGuard};
use shardedrw::{BoxedShardedRwLock, InlineShardedRwLock};

struct Arm(ReaderShard<i32>);

/// The lock that an attempt is made on.
#[derive(Clone, Copy)]
struct Input<'a> {
    writer: &'a AtomicBool,
    data: &'a UnsafeCell<i32>,
}

impl<'a> Input<'a> {
    fn recorded_in(&self, trace: &Trace) -> LockInput<'a, i32> {
        LockInput::new(self.writer, self.data, trace)
    }
}

struct ArmOffer;

struct ArmPoll;

impl WithCapacity<1> for Arm {
    fn with_capacity() -> Self {
        Arm(ReaderShard::with_capacity())
    }
}

impl Signature for ArmOffer {
    type Error<'a, 'b> = ();
    type Input<'a> = Input<'a>;
    type Output<'a, 'b> = ReaderGuard<'a, 'b, i32>;
}

impl Signature for ArmPoll {
    type Error<'a, 'b> = usize;
    type Input<'a> = Input<'a>;
    type Output<'a, 'b> = WriteGuard<'a, i32>;
}

impl Collection for Arm {
    type OfferSignature = ArmOffer;
    type PollSignature = ArmPoll;

    fn offer<'input, 'arm>(
        &'arm self,
        item: <Self::OfferSignature as Signature>::Input<'input>,
    ) -> Result<
        <Self::OfferSignature as Signature>::Output<'input, 'arm>,
        <Self::OfferSignature as Signature>::Error<'input, 'arm>,
    > {
        let mut trace = Trace::new();
        self.0.offer(item.recorded_in(&trace), &mut trace)
    }

    fn poll<'input, 'arm>(
        &'arm self,
        input: <Self::PollSignature as Signature>::Input<'input>,
    ) -> Result<
        <Self::PollSignature as Signature>::Output<'input, 'arm>,
        <Self::PollSignature as Signature>::Error<'input, 'arm>,
    > {
        let mut trace = Trace::new();
        self.0.poll(input.recorded_in(&trace), &mut trace)
    }

    fn len(&self) -> usize {
        self.0.len()
    }

    fn capacity(&self) -> usize {
        self.0.capacity()
    }

    fn is_empty(&self) -> bool {
        self.0.is_empty(&mut Trace::new())
    }
}

struct Arms<'c, B>(&'c B);

impl<'c, B: StorageBackend<Arm>> ShardStorage<i32> for Arms<'c, B> {
    fn arm_count(&self) -> usize {
        self.0.len()
    }

    fn arm(&self, i: usize) -> &ReaderShard<i32> {
        &self.0[i].0
    }
}

#[derive(Default)]
struct Scanning<S>(S);

impl<S: Strategy<Arm>> Strategy<Arm> for Scanning<S> {
    type Gambler = S::Gambler;

    fn choose_offer_arm(
        &self,
        state: &impl StorageBackend<<Self::Gambler as Hooked>::Stake>,
        gambler: &mut Self::Gambler,
    ) -> usize {
        self.0.choose_offer_arm(state, gambler)
    }

    fn choose_poll_arm(
        &self,
        state: &impl StorageBackend<<Self::Gambler as Hooked>::Stake>,
        gambler: &mut Self::Gambler,
    ) -> usize {
        self.0.choose_poll_arm(state, gambler)
    }

    fn fork_gambler(&self, gambler: &mut Self::Gambler) -> Self::Gambler {
        self.0.fork_gambler(gambler)
    }

    fn create_gambler(&self) -> Self::Gambler {
        self.0.create_gambler()
    }

    fn collect<'b, 'c>(
        &self,
        _state: &impl StorageBackend<<Self::Gambler as Hooked>::Stake>,
        arms: &'c impl StorageBackend<Arm>,
        input: <ArmPoll as Signature>::Input<'b>,
    ) -> Option<(<ArmPoll as Signature>::Output<'b, 'c>, usize)>
    where
        Arm: 'c,
    {
        let mut trace = Trace::new();
        collect(&Arms(arms), input.recorded_in(&trace), &mut trace)
    }
}

struct Lock<S: Strategy<Arm> + Default, const N: usize> {
    shards: InlineBandit<Arm, Scanning<S>, N, 1>,
    writer: AtomicBool,
    item: UnsafeCell<i32>,
}

struct Handle<'a, S: Strategy<Arm> + Default, const N: usize> {
    shards: InlineBanditHandle<'a, Arm, Scanning<S>, N, 1>,
    parent: &'a Lock<S, N>,
}

impl<S: Strategy<Arm> + Default, const N: usize> Lock<S, N> {
    fn new(item: i32) -> Self {
        Lock {
            shards: InlineBandit::new(),
            writer: AtomicBool::new(false),
            item: UnsafeCell::new(item),
        }
    }

    fn new_root(&self) -> Handle<'_, S, N> {
        Handle { shards: self.shards.buy_in(), parent: self }
    }
}

impl<'a, S: Strategy<Arm> + Default, const N: usize> Handle<'a, S, N> {
    fn read(&mut self) -> Option<ReaderGuard<'a, '_, i32>> {
        self.shards
            .offer(Input { writer: &self.parent.writer, data: &self.parent.item })
            .ok()
    }

    fn write(&mut self) -> Option<WriteGuard<'a, i32>> {
        self.shards
            .poll(Input { writer: &self.parent.writer, data: &self.parent.item })
            .ok()
    }

    fn fork(&mut self) -> Self {
        Handle { shards: self.shards.fork(), parent: self.parent }
    }
}

fn smoke<S: Strategy<Arm> + Default, const N: usize>(mut lock: Handle<'_, S, N>) {
    for _ in 0..3 * N {
        assert!(lock.read().is_some());
        assert!(lock.write().is_some());
    }
}

fn many_reader<S: Strategy<Arm> + Default, const N: usize>(mut lock: Handle<'_, S, N>) {
    let mut handles: Vec<Handle<'_, S, N>> = (0..3 * N).map(|_| lock.fork()).collect();
    let guards: Vec<_> = handles.iter_mut().map(|handle| handle.read()).collect();
    assert!(guards.iter().all(|guard| guard.is_some()));
    assert!(lock.write().is_none());
    assert!(lock.read().is_some());
    drop(guards);
    assert!(lock.write().is_some());
}

/// Reads overlap each other in every order in which two of them can end.
fn concurrent_read<S: Strategy<Arm> + Default, const N: usize>(mut lock: Handle<'_, S, N>) {
    let mut other = lock.fork();
    let mut writer = lock.fork();
    for first_ends_first in [true, false] {
        let first = lock.read().unwrap();
        let second = other.read().unwrap();
        assert!(writer.write().is_none());
        if first_ends_first {
            drop(first);
            assert!(writer.write().is_none());
            drop(second);
        } else {
            drop(second);
            assert!(writer.write().is_none());
            drop(first);
        }
        assert!(writer.write().is_some());
    }
}

/// Of two writers only one is in at a time.
fn concurrent_write<S: Strategy<Arm> + Default, const N: usize>(mut lock: Handle<'_, S, N>) {
    let mut other = lock.fork();
    for _ in 0..N {
        let first = lock.write().unwrap();
        assert!(other.write().is_none());
        drop(first);
        let second = other.write().unwrap();
        assert!(lock.write().is_none());
        drop(second);
    }
}

/// Readers and writers keep each other out.
fn concurrent_rw<S: Strategy<Arm> + Default, const N: usize>(mut lock: Handle<'_, S, N>) {
    let mut other = lock.fork();
    for _ in 0..N {
        let reading = lock.read().unwrap();
        assert!(other.write().is_none());
        drop(reading);
        let writing = other.write().unwrap();
        assert!(lock.read().is_none());
        drop(writing);
    }
}

#[test]
fn smoke_impl() {
    smoke(Lock::<RoundRobin, 10>::new(0).new_root());
}

#[test]
fn many_reader_impl() {
    many_reader(Lock::<RoundRobin, 10>::new(0).new_root());
}

#[test]
fn drops_impl() {
    struct Drops<'a> {
        c: &'a Cell<usize>,
    }

    impl<'a> Drop for Drops<'a> {
        fn drop(&mut self) {
            self.c.set(self.c.get() + 1);
        }
    }

    let counter = Cell::new(0);

    drop(InlineShardedRwLock::<_, 10>::new(Drops { c: &counter }));

    assert_eq!(counter.get(), 1);

    drop(BoxedShardedRwLock::new(10, Drops { c: &counter }));

    assert_eq!(counter.get(), 2);
}

#[test]
fn lib_concurrent_read_impl() {
    concurrent_read(Lock::<RandomAccess, 10>::new(0).new_root());
}

#[test]
fn lib_concurrent_write_impl() {
    concurrent_write(Lock::<RandomAccess, 10>::new(0).new_root());
}

#[test]
fn lib_concurrent_rw_impl() {
    concurrent_rw(Lock::<RandomAccess, 10>::new(0).new_root());
}

#[test]
fn boxed_bandit() {
    let shards: BoxedBandit<Arm, Scanning<RoundRobin>, 1> = BoxedBandit::new(4);
    let flag = AtomicBool::new(false);
    let cell = UnsafeCell::new(0);
    let input = Input { writer: &flag, data: &cell };
    let mut first = shards.buy_in();
    let mut second = first.fork();
    let guard = first.offer(input).unwrap();
    assert!(second.poll(input).is_err());
    drop(guard);
    let guard = second.poll(input).unwrap();
    assert!(first.offer(input).is_err());
    drop(guard);
    assert!(first.offer(input).is_ok());
}
