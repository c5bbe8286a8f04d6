# shardedrw

A reader-writer lock that spreads its reader count over several shards, verified with Verus.

A reader registers on one shard; a writer raises one flag and then looks at all shards. Both sides
check twice, and neither waits: an attempt yields a guard or is refused. A reader is refused, too,
where the counter of its shard is full.

## Layout

- `src/` is the verified library. `lock.rs` holds the lock, `boxed.rs` and `inline.rs` its two
  kinds, `handle.rs` its handles, `shard.rs` the shards, `guard.rs` the guards, `strategy.rs` the
  scan of a writer. The contracts say exactly which accesses to shared memory an attempt makes, and
  what it returns for the values that it sees (`pass.rs`, `trace.rs`, `attempt.rs`). `protocol.rs`,
  `memory.rs`, `calls.rs` and `world.rs` prove what follows: guards exclude each other, readers do
  not, refused attempts and dropped guards leave nothing behind, no update is lost, and the data
  does not change under a reader.
- `app/` puts the shards under the bandits of `kasino`, whose strategies pick the shard for each
  attempt, and gives the guards `Deref`.
- `tests/` runs the library, on its own and under `kasino`.

## What is trusted

`sync.rs` declares the atomics of `portable-atomic`, the padding of `crossbeam-utils` and the cell
of the standard library; `trace.rs` holds the operations on the atomics, and says which functions
cannot make an access that is not recorded. What an atomic holds is up to the other threads, so
nothing is claimed of the values that its operations return. `boxed.rs` and `inline.rs` trust that
the elements of a vector or an array lie at different places.

The laws on interleavings take every access to happen at once and for everybody. For that, every
operation on an atomic is `SeqCst`: with anything weaker, a reader that registers and then looks at
the flag, and a writer that raises the flag and then looks at the counters, could both miss what the
other has done.
