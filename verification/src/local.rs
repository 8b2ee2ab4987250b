//! The per-thread pool: [`ThreadLocalPool`] with its [`LocalPooled`] lease.
//!
//! A pool is an id, an initializer and a reset hook. Its buffers are in the
//! [`Registry`] of each thread, which the operations are given: a thread parks
//! at most one buffer per pool, and a buffer parks on the thread that ends its
//! lease. The [`Lives`] table says which pools are alive; every operation first
//! drops what the thread has parked for pools that are gone.

use crate::hooks::{absent, Hooks, Initializer};
use crate::registry::{Lives, Registry};
use crate::stats::PoolStats;
use std::ops::{Deref, DerefMut};
use vstd::prelude::*;

verus! {

/// A pool of reusable buffers with one slot per thread.
pub struct ThreadLocalPool<I, R> {
    /// Identity of this pool within every thread's registry.
    id: usize,
    hooks: Hooks<I, R>,
}

/// A buffer leased from a [`ThreadLocalPool`].
///
/// [`release`](LocalPooled::release) parks the buffer on the thread that calls
/// it, and [`into_inner`](LocalPooled::into_inner) keeps it. A lease that is
/// dropped takes its buffer with it.
#[must_use]
pub struct LocalPooled<'pool, T, I, R> {
    pool: &'pool ThreadLocalPool<I, R>,
    buffer: T,
}

impl<T, S, I: Initializer<Buffer = T, State = S>> ThreadLocalPool<I, ()> {
    /// Creates a pool whose buffers are made by `init`, under the next id that
    /// `lives` gives out. No thread has a slot for it, and there is no reset
    /// hook.
    pub fn new(lives: &mut Lives, init: I) -> (pool: ThreadLocalPool<I, impl Fn(&mut T)>)
        requires
            old(lives).wf(),
        ensures
            final(lives).wf(),
            final(lives)@ == old(lives)@.push(true),
            crate::registry::dead(final(lives)@) == crate::registry::dead(old(lives)@),
            pool.id() == old(lives)@.len(),
            pool.init() == init,
            pool.reset() is None,
    {
        ThreadLocalPool { id: lives.register(), hooks: Hooks::new(init, absent(|buffer: &mut T| {  })) }
    }
}

impl<T, S, I: Initializer<Buffer = T, State = S>, R: Fn(&mut T)> ThreadLocalPool<I, R> {
    /// Identity of the pool within every thread's registry.
    pub closed spec fn id(&self) -> usize {
        self.id
    }

    /// The initializer.
    pub closed spec fn init(&self) -> I {
        self.hooks.init()
    }

    /// The reset hook, where there is one.
    pub closed spec fn reset(&self) -> Option<R> {
        self.hooks.reset()
    }

    /// The reset hook, where there is one, may be run on `buffer`.
    pub open spec fn can_reset(&self, buffer: T) -> bool {
        self.reset() matches Some(reset) ==> forall|m: &mut T|
            *m == buffer ==> #[trigger] call_requires(reset, (m,))
    }

    /// The buffer that a lease on the thread of `registry` recycles, if there
    /// is one.
    pub open spec fn offer(&self, registry: Registry<T, S>, lives: Lives) -> Option<T> {
        registry@.swept(lives@).parked(self.id() as int)
    }

    /// Registers `reset` to run each time a buffer is returned (builder style),
    /// so that every lease starts from a known state. Buffers dropped because
    /// the pool is gone are dropped as they are.
    pub fn with_reset<F: Fn(&mut T)>(self, reset: F) -> (pool: ThreadLocalPool<I, F>)
        ensures
            pool.id() == self.id(),
            pool.init() == self.init(),
            pool.reset() == Some(reset),
    {
        ThreadLocalPool { id: self.id, hooks: self.hooks.with_reset(reset) }
    }

    /// Leases this thread's buffer: recycles the one parked in the thread's
    /// slot, if there is one, and otherwise runs the initializer. `counters`
    /// record the lease and whether the initializer ran.
    pub fn get<'pool>(
        &'pool self,
        registry: &mut Registry<T, S>,
        lives: &Lives,
        counters: &mut PoolStats,
    ) -> (lease: LocalPooled<'pool, T, I, R>)
        requires
            lives.wf(),
            lives.is_live(self.id()),
            old(registry)@.wf(lives@),
            self.offer(*old(registry), *lives) is None ==> self.init().can_run(
                old(registry).init_state(),
            ),
        ensures
            final(registry)@.wf(lives@),
            final(registry)@ == old(registry)@.swept(lives@).hold(self.id(), None),
            *final(counters) == old(counters).leased(self.offer(*old(registry), *lives) is None),
            lease.pool() == *self,
            match self.offer(*old(registry), *lives) {
                Some(idle) => lease@ == idle && final(registry).init_state()
                    == old(registry).init_state(),
                None => self.init().runs(
                    old(registry).init_state(),
                    final(registry).init_state(),
                    lease@,
                ),
            },
            forall|gauge: spec_fn(S) -> int| #[trigger]
                crate::hooks::counts_runs(self.init(), gauge) && old(counters).allocations
                    < usize::MAX ==> gauge(final(registry).init_state()) - gauge(
                    old(registry).init_state(),
                ) == final(counters).allocations - old(counters).allocations,
            match (if self.id() < old(registry)@.slots.len() {
                old(registry)@.slots[self.id() as int].buf
            } else {
                None
            }) {
                Some(idle) => lease@ == idle && final(counters).allocations
                    == old(counters).allocations,
                None => self.init().runs(
                    old(registry).init_state(),
                    final(registry).init_state(),
                    lease@,
                ) && (old(counters).allocations < usize::MAX ==> final(counters).allocations
                    == old(counters).allocations + 1),
            },
            old(counters).leases < usize::MAX ==> final(counters).leases == old(counters).leases
                + 1,
            self.id() < final(registry)@.slots.len(),
            final(registry)@.slots[self.id() as int].buf is None,
    {
        proof {
            crate::plain_laws::law_live_pools_find_what_is_parked(*self, *registry, *lives);
        }
        counters.count_lease();
        let found = registry.take(self.id, lives);
        if found.is_none() {
            counters.count_allocation();
        }
        let buffer = registry.provide(&self.hooks, found);
        LocalPooled { pool: self, buffer }
    }

    /// Runs `f` with this thread's buffer checked out, and parks the buffer
    /// again afterwards.
    pub fn with<U, F: FnOnce(&mut T) -> U>(
        &self,
        registry: &mut Registry<T, S>,
        lives: &Lives,
        counters: &mut PoolStats,
        f: F,
    ) -> (result: U)
        requires
            lives.wf(),
            lives.is_live(self.id()),
            old(registry)@.wf(lives@),
            self.offer(*old(registry), *lives) is None ==> self.init().can_run(
                old(registry).init_state(),
            ),
            forall|m: &mut T|
                (match self.offer(*old(registry), *lives) {
                    Some(idle) => *m == idle,
                    None => exists|after: S|
                        self.init().runs(old(registry).init_state(), after, *m),
                }) ==> #[trigger] call_requires(f, (m,)),
            forall|m: &mut T, u: U| #[trigger]
                call_ensures(f, (m,), u) ==> self.can_reset(*final(m)),
        ensures
            final(registry)@.wf(lives@),
            *final(counters) == old(counters).leased(self.offer(*old(registry), *lives) is None),
            forall|gauge: spec_fn(S) -> int| #[trigger]
                crate::hooks::counts_runs(self.init(), gauge) && old(counters).allocations
                    < usize::MAX ==> gauge(final(registry).init_state()) - gauge(
                    old(registry).init_state(),
                ) == final(counters).allocations - old(counters).allocations,
            exists|m: &mut T|
                {
                    &&& match self.offer(*old(registry), *lives) {
                        Some(idle) => *m == idle && final(registry).init_state()
                            == old(registry).init_state(),
                        None => self.init().runs(
                            old(registry).init_state(),
                            final(registry).init_state(),
                            *m,
                        ),
                    }
                    &&& #[trigger] call_ensures(f, (m,), result)
                    &&& match self.reset() {
                        Some(reset) => exists|k: &mut T|
                            {
                                &&& *k == *final(m)
                                &&& #[trigger] call_ensures(reset, (k,), ())
                                &&& final(registry)@ == old(registry)@.swept(lives@).hold(
                                    self.id(),
                                    Some(*final(k)),
                                )
                            },
                        None => final(registry)@ == old(registry)@.swept(lives@).hold(
                            self.id(),
                            Some(*final(m)),
                        ),
                    }
                },
    {
        let mut lease = self.get(registry, lives, counters);
        let result = f(&mut lease.buffer);
        lease.release(registry, lives);
        result
    }

    /// Returns `buffer` to this thread's slot; a buffer that was parked there
    /// is dropped. The reset hook, where there is one, runs on the buffer
    /// first.
    pub fn put(&self, registry: &mut Registry<T, S>, lives: &Lives, buffer: T)
        requires
            lives.wf(),
            lives.is_live(self.id()),
            old(registry)@.wf(lives@),
            self.can_reset(buffer),
        ensures
            final(registry).init_state() == old(registry).init_state(),
            final(registry)@.wf(lives@),
            match self.reset() {
                Some(reset) => exists|m: &mut T|
                    {
                        &&& *m == buffer
                        &&& #[trigger] call_ensures(reset, (m,), ())
                        &&& final(registry)@ == old(registry)@.swept(lives@).hold(
                            self.id(),
                            Some(*final(m)),
                        )
                    },
                None => final(registry)@ == old(registry)@.swept(lives@).hold(
                    self.id(),
                    Some(buffer),
                ),
            },
    {
        let clean = self.hooks.refresh(buffer);
        registry.park(self.id, lives, clean);
    }

    /// Whether this thread has a buffer parked for this pool: `0` or `1`. No
    /// slot is made.
    pub fn idle_len(&self, registry: &mut Registry<T, S>, lives: &Lives) -> (count: usize)
        requires
            lives.wf(),
            old(registry)@.wf(lives@),
        ensures
            final(registry).init_state() == old(registry).init_state(),
            final(registry)@.wf(lives@),
            final(registry)@ == old(registry)@.swept(lives@),
            count == if self.offer(*old(registry), *lives) is Some { 1int } else { 0 },
            lives.is_live(self.id()) ==> count == if self.id() < old(registry)@.slots.len()
                && old(registry)@.slots[self.id() as int].buf is Some {
                1int
            } else {
                0
            },
            self.id() < lives@.len() && !lives@[self.id() as int] ==> count == 0,
    {
        proof {
            if self.id() < lives@.len() {
                crate::local_laws::law_sweep_spares_the_living(
                    registry@,
                    lives@,
                    self.id() as int,
                );
            }
        }
        if registry.is_parked(self.id, lives) {
            1
        } else {
            0
        }
    }

    /// Takes this thread's parked buffer out of the pool: a vector of one
    /// buffer, or of none where nothing is parked. No slot is made, and the
    /// reset hook does not run, as it belongs to the return path.
    pub fn drain(&self, registry: &mut Registry<T, S>, lives: &Lives) -> (drained: Vec<T>)
        requires
            lives.wf(),
            old(registry)@.wf(lives@),
        ensures
            final(registry).init_state() == old(registry).init_state(),
            final(registry)@.wf(lives@),
            final(registry)@ == old(registry)@.swept(lives@).without(self.id()),
            drained@ == match self.offer(*old(registry), *lives) {
                Some(idle) => seq![idle],
                None => Seq::<T>::empty(),
            },
            lives.is_live(self.id()) ==> drained@ == match (if self.id() < old(registry)@.slots.len() {
                old(registry)@.slots[self.id() as int].buf
            } else {
                None
            }) {
                Some(idle) => seq![idle],
                None => Seq::<T>::empty(),
            },
            self.id() < lives@.len() && !lives@[self.id() as int] ==> drained@.len() == 0,
            self.id() < final(registry)@.slots.len()
                ==> final(registry)@.slots[self.id() as int].buf is None,
            final(registry)@.slots.len() == old(registry)@.slots.len(),
    {
        proof {
            if self.id() < lives@.len() {
                crate::local_laws::law_sweep_spares_the_living(
                    registry@,
                    lives@,
                    self.id() as int,
                );
            }
        }
        let mut drained: Vec<T> = Vec::new();
        if let Some(buffer) = registry.remove(self.id, lives) {
            drained.push(buffer);
        }
        drained
    }

    /// Lease and allocation counters.
    pub fn stats(&self, counters: &PoolStats) -> (stats: PoolStats)
        ensures
            stats == *counters,
    {
        *counters
    }

    /// Identity of the pool: its index in the [`Lives`] table.
    pub fn pool_id(&self) -> (id: usize)
        ensures
            id == self.id(),
    {
        self.id
    }

    /// The initializer and the reset hook, for callers that hold the thread's
    /// registry only while they move a buffer in or out.
    pub fn hooks(&self) -> (hooks: &Hooks<I, R>)
        ensures
            hooks.init() == self.init(),
            hooks.reset() == self.reset(),
    {
        &self.hooks
    }
}

impl<T, I: Fn() -> T, R: Fn(&mut T)> ThreadLocalPool<I, R> {
    /// The initializer may be run.
    pub open spec fn can_init(&self) -> bool {
        call_requires(self.init(), ())
    }
}

impl<'pool, T, I, R> View for LocalPooled<'pool, T, I, R> {
    type V = T;

    closed spec fn view(&self) -> T {
        self.buffer
    }
}

impl<'pool, T, I, R> LocalPooled<'pool, T, I, R> {
    /// The pool that the buffer is leased from.
    pub closed spec fn pool(&self) -> ThreadLocalPool<I, R> {
        *self.pool
    }

    /// Detaches the buffer: moves it out without returning it to the pool.
    pub fn into_inner(self) -> (buffer: T)
        ensures
            buffer == self@,
    {
        self.buffer
    }
}

impl<'pool, T, S, I: Initializer<Buffer = T, State = S>, R: Fn(&mut T)> LocalPooled<'pool, T, I, R> {
    /// Ends the lease on the thread of `registry`, whichever thread it began
    /// on: parks the buffer there as [`ThreadLocalPool::put`] does.
    pub fn release(self, registry: &mut Registry<T, S>, lives: &Lives)
        requires
            lives.wf(),
            lives.is_live(self.pool().id()),
            old(registry)@.wf(lives@),
            self.pool().can_reset(self@),
        ensures
            final(registry).init_state() == old(registry).init_state(),
            final(registry)@.wf(lives@),
            match self.pool().reset() {
                Some(reset) => exists|m: &mut T|
                    {
                        &&& *m == self@
                        &&& #[trigger] call_ensures(reset, (m,), ())
                        &&& final(registry)@ == old(registry)@.swept(lives@).hold(
                            self.pool().id(),
                            Some(*final(m)),
                        )
                    },
                None => final(registry)@ == old(registry)@.swept(lives@).hold(
                    self.pool().id(),
                    Some(self@),
                ),
            },
    {
        self.pool.put(registry, lives, self.buffer)
    }
}

impl<'pool, T, I, R> Deref for LocalPooled<'pool, T, I, R> {
    type Target = T;

    fn deref(&self) -> (buffer: &T)
        ensures
            *buffer == self@,
    {
        &self.buffer
    }
}

impl<'pool, T, I, R> DerefMut for LocalPooled<'pool, T, I, R> {
    fn deref_mut(&mut self) -> (buffer: &mut T)
        ensures
            *buffer == old(self)@,
            final(self)@ == *final(buffer),
            final(self).pool() == old(self).pool(),
    {
        &mut self.buffer
    }
}

} // verus!
