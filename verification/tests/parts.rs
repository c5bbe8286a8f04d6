//! The shards, the scan of a writer and the data cell on their own.

use portable_atomic::{AtomicBool, AtomicUsize, Ordering};

use shardedrw::strategy::{collect, no_reader};
use shardedrw::sync::UnsafeCell;
use shardedrw::trace::Trace;
use shardedrw::{LockInput, ReaderShard, ShardStorage};

#[test]
fn fresh_shard() {
    let mut trace = Trace::new();
    let made: ReaderShard<u8> = ReaderShard::with_capacity();
    let default: ReaderShard<u8> = ReaderShard::default();
    for shard in [made, default] {
        assert_eq!(shard.len(), 1);
        assert_eq!(shard.capacity(), 1);
        assert!(shard.is_empty(&mut trace));
    }
}

#[test]
fn offer_counts_readers() {
    let mut trace = Trace::new();
    let flag = AtomicBool::new(false);
    let cell = UnsafeCell::new(7u8);
    let input = LockInput::new(&flag, &cell, &trace);
    let shard = ReaderShard::with_capacity();
    assert!(matches!(shard.poll(input, &mut trace), Err(0)));
    let first = shard.offer(input, &mut trace);
    assert!(first.is_ok());
    assert!(matches!(shard.poll(input, &mut trace), Err(1)));
    let second = shard.offer(input, &mut trace);
    assert!(second.is_ok());
    assert!(matches!(shard.poll(input, &mut trace), Err(2)));
    assert!(!shard.is_empty(&mut trace));
    drop(first);
    assert!(matches!(shard.poll(input, &mut trace), Err(1)));
    drop(second);
    assert!(matches!(shard.poll(input, &mut trace), Err(0)));
    assert!(shard.is_empty(&mut trace));
    assert!(!flag.load(Ordering::Relaxed));
}

#[test]
fn any_number_of_readers_share_one_shard() {
    let mut trace = Trace::new();
    let flag = AtomicBool::new(false);
    let cell = UnsafeCell::new(7u8);
    let input = LockInput::new(&flag, &cell, &trace);
    let shard = ReaderShard::with_capacity();
    let mut guards: Vec<_> =
        (0..1000).map(|_| shard.offer(input, &mut trace).unwrap()).collect();
    assert_eq!(shard.capacity(), 1);
    for readers in (1..=1000).rev() {
        assert!(matches!(shard.poll(input, &mut trace), Err(n) if n == readers));
        drop(guards.pop());
    }
    assert!(shard.is_empty(&mut trace));
}

#[test]
fn counts_add_up_over_the_shards() {
    let mut trace = Trace::new();
    let flag = AtomicBool::new(false);
    let cell = UnsafeCell::new(7u8);
    let input = LockInput::new(&flag, &cell, &trace);
    let shards: Vec<ReaderShard<u8>> =
        (0..3).map(|_| ReaderShard::with_capacity()).collect();
    let arms = [0, 2, 2, 1, 2, 0, 2];
    let guards: Vec<_> =
        arms.iter().map(|&arm| shards[arm].offer(input, &mut trace).unwrap()).collect();
    let counts: Vec<usize> =
        shards.iter().map(|shard| shard.poll(input, &mut trace).err().unwrap()).collect();
    assert_eq!(counts, [2, 1, 4]);
    assert_eq!(counts.iter().sum::<usize>(), arms.len());
    drop(guards);
    assert!(no_reader(&shards, input, &mut trace));
}

#[test]
fn offer_is_refused_under_a_raised_flag() {
    let mut trace = Trace::new();
    let flag = AtomicBool::new(true);
    let cell = UnsafeCell::new(7u8);
    let input = LockInput::new(&flag, &cell, &trace);
    let shard = ReaderShard::with_capacity();
    assert!(matches!(shard.offer(input, &mut trace), Err(())));
    assert!(shard.is_empty(&mut trace));
    flag.store(false, Ordering::Relaxed);
    assert!(shard.offer(input, &mut trace).is_ok());
}

#[test]
fn collect_raises_the_flag_for_as_long_as_the_guard_lives() {
    let mut trace = Trace::new();
    let flag = AtomicBool::new(false);
    let cell = UnsafeCell::new(7u8);
    let input = LockInput::new(&flag, &cell, &trace);
    let shards: [ReaderShard<u8>; 3] = [
        ReaderShard::with_capacity(),
        ReaderShard::with_capacity(),
        ReaderShard::with_capacity(),
    ];
    let (guard, arm) = collect(&shards, input, &mut trace).unwrap();
    assert_eq!(arm, 0);
    assert!(flag.load(Ordering::Relaxed));
    assert!(collect(&shards, input, &mut trace).is_none());
    assert!(flag.load(Ordering::Relaxed));
    drop(guard);
    assert!(!flag.load(Ordering::Relaxed));
}

#[test]
fn collect_leaves_the_flag_alone_while_there_is_a_reader() {
    let mut trace = Trace::new();
    let flag = AtomicBool::new(false);
    let cell = UnsafeCell::new(7u8);
    let input = LockInput::new(&flag, &cell, &trace);
    let shards: Vec<ReaderShard<u8>> =
        (0..5).map(|_| ReaderShard::with_capacity()).collect();
    assert!(no_reader(&shards, input, &mut trace));
    for i in 0..5 {
        let guard = shards[i].offer(input, &mut trace);
        assert!(!no_reader(&shards, input, &mut trace));
        assert!(collect(&shards, input, &mut trace).is_none());
        assert!(!flag.load(Ordering::Relaxed));
        drop(guard);
    }
    assert!(no_reader(&shards, input, &mut trace));
}

/// Shards that do something each time that one of them is looked at, to get between two accesses.
struct Meddling<'a> {
    shards: &'a [ReaderShard<u8>],
    looks: AtomicUsize,
    meddle: &'a dyn Fn(usize),
}

impl<'a> ShardStorage<u8> for Meddling<'a> {
    fn arm_count(&self) -> usize {
        self.shards.len()
    }

    fn arm(&self, i: usize) -> &ReaderShard<u8> {
        (self.meddle)(self.looks.fetch_add(1, Ordering::Relaxed));
        &self.shards[i]
    }
}

#[test]
fn writer_that_comes_second_is_refused() {
    let mut trace = Trace::new();
    let flag = AtomicBool::new(false);
    let cell = UnsafeCell::new(7u8);
    let input = LockInput::new(&flag, &cell, &trace);
    let shards = [ReaderShard::with_capacity(), ReaderShard::with_capacity()];
    // Another writer raises the flag during the first scan.
    let meddling = Meddling {
        shards: &shards,
        looks: AtomicUsize::new(0),
        meddle: &|look| {
            if look == 1 {
                flag.store(true, Ordering::Relaxed);
            }
        },
    };
    assert!(collect(&meddling, input, &mut trace).is_none());
    assert_eq!(meddling.looks.load(Ordering::Relaxed), 2);
    // The flag is the other writer's, and stays up.
    assert!(flag.load(Ordering::Relaxed));
}

#[test]
fn writer_that_finds_a_late_reader_lowers_the_flag() {
    let mut trace = Trace::new();
    let flag = AtomicBool::new(false);
    let down = AtomicBool::new(false);
    let cell = UnsafeCell::new(7u8);
    let input = LockInput::new(&flag, &cell, &trace);
    let shards = [ReaderShard::with_capacity(), ReaderShard::with_capacity()];
    // A reader that has seen the flag down registers during the second scan, and does not leave.
    let meddling = Meddling {
        shards: &shards,
        looks: AtomicUsize::new(0),
        meddle: &|look| {
            if look == 2 {
                assert!(flag.load(Ordering::Relaxed));
                let mut trace = Trace::new();
                let late = LockInput::new(&down, &cell, &trace);
                std::mem::forget(shards[1].offer(late, &mut trace));
            }
        },
    };
    assert!(collect(&meddling, input, &mut trace).is_none());
    assert_eq!(meddling.looks.load(Ordering::Relaxed), 4);
    assert!(!flag.load(Ordering::Relaxed));
    assert!(matches!(shards[1].poll(input, &mut trace), Err(1)));
}

#[test]
fn cell_hands_itself_out() {
    let mut cell = UnsafeCell::new(41u8);
    let first = cell.with_mut(|inner| inner.get());
    let second = cell.with_mut(|inner| inner.get());
    assert_eq!(first, second);
    cell = UnsafeCell::default();
    assert_eq!(cell.with_mut(|_inner| 5), 5);
}
