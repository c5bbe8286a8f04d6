//! A reader-writer lock whose reader count is spread over several shards.
//!
//! Readers register on one shard each, so that readers on different shards do not contend for a
//! cache line. A writer raises one flag, and then makes sure that no shard has a reader left.
//! Neither side ever waits: an attempt either yields a guard or is refused.
//!
//! The lock:
//!
//! - [`sync`]: the atomics and the data cell.
//! - [`trace`]: the accesses to shared memory, and a record of them.
//! - [`guard`]: the guards that attempts yield.
//! - [`shard`]: one shard of the reader count.
//! - [`storage`]: what stores the shards of a lock.
//! - [`strategy`]: how a writer goes over the shards.
//! - [`handle`]: the handles to a lock.
//! - [`lock`]: the lock, with its shards in any storage.
//! - [`boxed`], [`inline`]: the two storages that come with the library.
//!
//! What it guarantees:
//!
//! - [`attempt`]: which accesses an attempt to read or to write makes, and what they decide.
//! - [`lineage`]: which accesses a function makes that is handed one record.
//! - [`protocol`]: attempts as steps of a small state machine.
//! - [`memory`]: what accesses do to the shared memory, and attempts that have it to themselves.
//! - [`calls`]: calls that come one after the other.
//! - [`world`]: attempts of many parties interleaved.

pub mod attempt;
pub mod boxed;
pub mod calls;
pub mod guard;
pub mod handle;
pub mod inline;
pub mod lineage;
pub mod lock;
pub mod memory;
pub mod protocol;
pub mod shard;
pub mod storage;
pub mod strategy;
pub mod sync;
pub mod trace;
pub mod world;

pub use crate::boxed::{BoxedShardedRwLock, BoxedShardedRwLockHandle};
pub use crate::guard::{ReaderGuard, WriteGuard};
pub use crate::handle::ShardedRwLockHandle;
pub use crate::inline::{InlineShardedRwLock, InlineShardedRwLockHandle};
pub use crate::lock::ShardedRwLock;
pub use crate::shard::ReaderShard;
pub use crate::storage::ShardStorage;
pub use crate::trace::{pass, LockInput};
