//! Two pools of reusable scratch buffers, for parallel loops in which every
//! task needs the same kind of temporary buffer.
//!
//! - [`BufferPool`] is shared: idle buffers park in one pile per thread, and a
//!   lease looks in its thread's pile, then in a communal reserve, and runs the
//!   initializer when both are empty. An idle cap can bound what is kept.
//! - [`ThreadLocalPool`] is per thread: each thread has one slot per pool, and
//!   what is parked for a pool that is gone is dropped on the thread's next
//!   access.
//!
//! A lease ([`SharedPooled`], [`SharedPooledOwned`], [`LocalPooled`]) gives
//! access to its buffer and ends in one of two ways: `release` returns the
//! buffer, after the pool's reset hook has run on it, and `into_inner` keeps it.
//!
//! # State
//!
//! The pools themselves are immutable handles: an initializer and an optional
//! reset hook. What changes is passed to each operation, so that a contract can
//! say exactly how: the [`PoolInner`] behind a shared pool together with the id
//! of the calling thread, or the [`Registry`] of the calling thread together
//! with the [`Lives`] table of all per-thread pools.
//!
//! # Threads
//!
//! Whoever shares a [`BufferPool`] between threads takes the [`PoolInner`] apart
//! into its [`PoolParts`], puts each part behind a lock of its own, and runs the
//! operations step by step as [`steps`] directs: a step touches one part, and
//! nothing is held between two steps. [`PoolInner`] goes through the same steps
//! with no other operation in between. A [`Registry`] belongs in thread-local
//! storage. Initializers and hooks touch no pile and run outside any lock:
//! [`Hooks::supply`] and [`Hooks::refresh`] are the two halves of a lease and of
//! a return that run user code.
//!
//! # User code
//!
//! An operation can run an initializer or a hook only where its `requires`
//! provides that it may be run. So the contracts also say when user code does
//! not run: a lease that finds an idle buffer runs no initializer, making a pool
//! runs none, and draining a pool runs no hook.
//!
//! An [`Initializer`] runs on a state that the pool passes on, and the contracts
//! say which state an operation leaves: the one it found, or the one that a
//! single run leaves. So they also say how often it runs, which is once for each
//! allocation counted. A closure that takes nothing is an initializer that runs
//! on the empty state.
//!
//! # Laws
//!
//! What holds over several operations is stated and proved in [`shared_laws`],
//! [`history`] and [`local_laws`], and what holds however the steps of
//! concurrent operations interleave in [`traffic_laws`]. What each operation does
//! to the piles, slots and numbers, field by field, is in [`plain_laws`].

pub mod buffer;
pub mod history;
pub mod hooks;
pub mod inner;
pub mod local;
pub mod local_laws;
pub mod plain_laws;
pub mod prelude;
pub mod registry;
pub mod sharding;
pub mod shared_laws;
pub mod stats;
pub mod steps;
pub mod traffic;
pub mod traffic_laws;
pub mod workload;

pub use crate::buffer::{BufferPool, SharedPooled, SharedPooledOwned};
pub use crate::hooks::{Hooks, Initializer};
pub use crate::inner::{PoolInner, PoolParts, PoolState};
pub use crate::local::{LocalPooled, ThreadLocalPool};
pub use crate::registry::{Lives, Registry, RegistryState, Slot};
pub use crate::sharding::{shard_count, shard_for, tid, MIN_SHARDS, UNASSIGNED};
pub use crate::stats::PoolStats;
pub use crate::steps::{parked_from, DrainStep, LeaseStep, Place, ReturnStep, StockStep};
