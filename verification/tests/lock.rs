//! The lock and its handles, with arms picked by the caller.

use core::cell::Cell;

use shardedrw::{
    BoxedShardedRwLock,
    InlineShardedRwLock,
    InlineShardedRwLockHandle,
    ShardStorage,
    ShardedRwLockHandle,
};

/// A write, a read and a write again, each after the guard before it is gone.
fn smoke<T, B: ShardStorage<T>>(mut lock: ShardedRwLockHandle<'_, T, B>, arms: usize) {
    for arm in 0..arms {
        assert!(lock.write(arm).is_some());
        assert!(lock.read(arm).is_some());
    }
    assert!(lock.write(0).is_some());
}

#[test]
fn smoke_inline() {
    smoke(InlineShardedRwLock::<_, 10>::new(0).new_root(), 10);
}

#[test]
fn smoke_boxed() {
    smoke(BoxedShardedRwLock::new(10, 0).new_root(), 10);
}

#[test]
fn single_shard() {
    smoke(InlineShardedRwLock::<_, 1>::new(0).new_root(), 1);
    smoke(BoxedShardedRwLock::new(1, 0).new_root(), 1);
}

#[test]
fn readers_share() {
    let lock = BoxedShardedRwLock::new(3, 42);
    let mut first = lock.new_root();
    let mut second = first.fork();
    let mut third = second.fork();
    let a = first.read(0);
    let b = second.read(0);
    let c = third.read(2);
    assert!(a.is_some() && b.is_some() && c.is_some());
}

#[test]
fn more_readers_than_shards() {
    let lock = BoxedShardedRwLock::new(3, 42);
    let mut root = lock.new_root();
    let mut handles: Vec<_> = (0..50).map(|_| root.fork()).collect();
    let mut guards: Vec<_> = handles
        .iter_mut()
        .enumerate()
        .map(|(i, handle)| handle.read(i % 3))
        .collect();
    assert!(guards.iter().all(|guard| guard.is_some()));
    while let Some(guard) = guards.pop() {
        assert!(root.write(0).is_none());
        drop(guard);
    }
    assert!(root.write(0).is_some());
}

#[test]
fn reader_on_any_arm_keeps_a_writer_out() {
    let lock = BoxedShardedRwLock::new(4, 42);
    let mut reader = lock.new_root();
    let mut writer = lock.new_root();
    for arm in 0..4 {
        let guard = reader.read(arm);
        assert!(guard.is_some());
        for polled in 0..4 {
            assert!(writer.write(polled).is_none());
        }
        drop(guard);
        assert!(writer.write(arm).is_some());
    }
}

#[test]
fn writer_keeps_everybody_out() {
    let lock = InlineShardedRwLock::<_, 4>::new(42);
    let mut writer = lock.new_root();
    let mut other = writer.fork();
    let guard = writer.write(2);
    assert!(guard.is_some());
    for arm in 0..4 {
        assert!(other.read(arm).is_none());
        assert!(other.write(arm).is_none());
    }
    drop(guard);
    assert!(other.read(1).is_some());
    assert!(other.write(1).is_some());
}

#[test]
fn refused_attempts_leave_nothing_behind() {
    let lock = InlineShardedRwLock::<_, 2>::new(42);
    let mut holder = lock.new_root();
    let mut other = lock.new_root();

    let writing = holder.write(0);
    for _ in 0..100 {
        assert!(other.read(1).is_none());
    }
    drop(writing);
    // Had a refused reader stayed registered, no writer would get in.
    assert!(other.write(0).is_some());

    let reading = holder.read(0);
    for _ in 0..100 {
        assert!(other.write(1).is_none());
    }
    // Had a refused writer left the flag up, no reader would get in.
    assert!(other.read(1).is_some());
    drop(reading);
    assert!(other.write(0).is_some());
}

#[test]
fn every_reader_has_to_leave() {
    let lock = BoxedShardedRwLock::new(2, 0u8);
    let mut a = lock.new_root();
    let mut b = lock.new_root();
    let mut c = lock.new_root();
    let first = a.read(0).unwrap();
    let second = b.read(0).unwrap();
    assert!(c.write(0).is_none());
    drop(first);
    assert!(c.write(0).is_none());
    drop(second);
    assert!(c.write(0).is_some());
}

#[test]
fn forgotten_guards_stay_in_force() {
    let lock = BoxedShardedRwLock::new(2, 0u8);
    let mut a = lock.new_root();
    std::mem::forget(a.read(1));
    assert!(a.write(0).is_none());
    assert!(a.read(0).is_some());
}

#[test]
fn forgotten_write_guard_keeps_everybody_out() {
    let lock = InlineShardedRwLock::<_, 2>::new(0u8);
    let mut a = lock.new_root();
    std::mem::forget(a.write(1));
    drop(a);
    let mut b = lock.new_root();
    for arm in 0..2 {
        assert!(b.read(arm).is_none());
        assert!(b.fork().write(arm).is_none());
    }
}

#[test]
fn increments_under_write_guards_add_up() {
    let lock = BoxedShardedRwLock::new(2, ());
    let mut first = lock.new_root();
    let mut second = first.fork();
    let value = Cell::new(0u64);
    let mut tries = 0;
    for _ in 0..100 {
        let guard = first.write(0).unwrap();
        let seen = value.get();
        // Another writer cannot get between the read and the write of the value.
        if second.write(1).is_some() {
            value.set(value.get() + 1);
        }
        tries += 1;
        value.set(seen + 1);
        drop(guard);
        let guard = second.write(1).unwrap();
        value.set(value.get() + 1);
        drop(guard);
    }
    assert_eq!(tries, 100);
    assert_eq!(value.get(), 200);
}

/// The outcomes of a fixed sequence of reads, writes and drops.
fn outcomes<T, B: ShardStorage<T>>(lock: ShardedRwLockHandle<'_, T, B>) -> Vec<bool> {
    let mut root = lock;
    let mut handles: Vec<_> = (0..6).map(|_| root.fork()).collect();
    let mut seen = Vec::new();
    let mut state: u32 = 1;
    let mut reading = Vec::new();
    for handle in handles.iter_mut() {
        state = state.wrapping_mul(1103515245).wrapping_add(12345);
        let arm = (state >> 16) as usize % 4;
        let writing = root.write(arm);
        seen.push(writing.is_some());
        if state & 0x40000 != 0 {
            drop(writing);
            let guard = handle.read(arm);
            seen.push(guard.is_some());
            reading.push(guard);
        } else {
            let guard = handle.read(arm);
            seen.push(guard.is_some());
            reading.push(guard);
            drop(writing);
        }
        if state & 0x80000 != 0 {
            reading.clear();
        }
    }
    seen
}

#[test]
fn boxed_and_inline_locks_yield_the_same() {
    let boxed = outcomes(BoxedShardedRwLock::new(4, 0u8).new_root());
    let inline = outcomes(InlineShardedRwLock::<_, 4>::new(0u8).new_root());
    assert_eq!(boxed, inline);
    assert!(boxed.contains(&true));
    assert!(boxed.contains(&false));
}

#[test]
fn handles_of_one_lock_do_not_touch_another() {
    let here = BoxedShardedRwLock::new(2, 0u8);
    let there = BoxedShardedRwLock::new(2, 0u8);
    let mut a = here.new_root();
    let mut b = there.new_root();
    let guard = a.write(0);
    assert!(guard.is_some());
    assert!(b.write(0).is_some());
    assert!(b.read(0).is_some());
}

#[test]
fn guards_give_the_cell_of_their_lock() {
    let lock = BoxedShardedRwLock::new(2, 0u8);
    let mut a = lock.new_root();
    let read = a.read(1).unwrap().data().with_mut(|cell| cell.get());
    let write = a.write(1).unwrap().data().with_mut(|cell| cell.get());
    assert_eq!(read, write);
}

#[test]
fn dropping_a_guard_does_not_drop_the_item() {
    struct Drops<'a>(&'a Cell<usize>);

    impl<'a> Drop for Drops<'a> {
        fn drop(&mut self) {
            self.0.set(self.0.get() + 1);
        }
    }

    let drops = Cell::new(0);
    let lock = InlineShardedRwLock::<_, 10>::new(Drops(&drops));
    {
        let mut handle: InlineShardedRwLockHandle<'_, _, 10> = lock.new_root();
        drop(handle.read(3));
        drop(handle.write(3));
    }
    assert_eq!(drops.get(), 0);
    drop(lock);
    assert_eq!(drops.get(), 1);
}
