//! The shared, sharded pool: [`BufferPool`] with its [`SharedPooled`] and
//! [`SharedPooledOwned`] leases.
//!
//! A pool is a handle to its initializer and reset hook. The buffers and the
//! counters are in a [`PoolInner`], which every operation is given along with
//! the id of the calling thread: idle buffers park in the pile of the thread
//! that returns them, and a lease looks there first, then in the communal
//! reserve, and only then runs the initializer.

use crate::hooks::{absent, Hooks, Initializer};
use crate::inner::PoolInner;
use crate::stats::PoolStats;
use std::ops::{Deref, DerefMut};
use std::sync::Arc;
use vstd::prelude::*;

verus! {

/// `i` is an index into `buffers`.
pub open spec fn is_index<T>(buffers: Seq<T>, i: int) -> bool {
    0 <= i < buffers.len()
}

/// A pool of reusable buffers, shared by all threads.
pub struct BufferPool<I, R> {
    hooks: Hooks<I, R>,
}

/// A buffer leased from a [`BufferPool`] that the lease borrows.
///
/// [`release`](SharedPooled::release) returns the buffer to the pool, and
/// [`into_inner`](SharedPooled::into_inner) keeps it. A lease that is dropped
/// takes its buffer with it.
#[must_use]
pub struct SharedPooled<'pool, T, I, R> {
    pool: &'pool BufferPool<I, R>,
    buffer: T,
}

/// A buffer leased through [`BufferPool::get_owned`]: the lease shares
/// ownership of the pool, so the pool lives at least as long as the lease.
#[must_use]
pub struct SharedPooledOwned<T, I, R> {
    pool: Arc<BufferPool<I, R>>,
    buffer: T,
}

impl<T, I: Fn() -> T> BufferPool<I, ()> {
    /// Creates a pool whose buffers are made by `init`, and the empty state
    /// behind it for a machine that reported `parallelism` workers.
    ///
    /// `init` runs lazily, when a lease finds nothing to recycle, or in
    /// [`prefill`](BufferPool::prefill). There is no idle cap and no reset
    /// hook.
    pub fn new(init: I, parallelism: Option<usize>) -> (pool: (
        BufferPool<I, impl Fn(&mut T)>,
        PoolInner<T>,
    ))
        requires
            parallelism matches Some(n) ==> n <= usize::MAX / 2 + 1,
        ensures
            pool.0.init() == init,
            pool.0.reset() is None,
            pool.1.wf(),
            crate::inner::is_fresh_state(pool.1@, parallelism),
            pool.1@.idle() == 0,
            pool.1@.max_idle == usize::MAX,
            pool.1@.stats == (PoolStats { leases: 0, allocations: 0 }),
            pool.1@.reserve.len() == 0,
            pool.1@.shards.flatten().len() == 0,
    {
        BufferPool::new_on(init, (), parallelism)
    }
}

impl<T, S, I: Initializer<Buffer = T, State = S>> BufferPool<I, ()> {
    /// Creates a pool whose buffers are made by `init`, run on `init_state`, and
    /// the empty state behind it, as [`new`](BufferPool::new) does for a closure.
    pub fn new_on(init: I, init_state: S, parallelism: Option<usize>) -> (pool: (
        BufferPool<I, impl Fn(&mut T)>,
        PoolInner<T, S>,
    ))
        requires
            parallelism matches Some(n) ==> n <= usize::MAX / 2 + 1,
        ensures
            pool.0.init() == init,
            pool.0.reset() is None,
            pool.1.wf(),
            pool.1.init_state() == init_state,
            crate::inner::is_fresh_state(pool.1@, parallelism),
            pool.1@.idle() == 0,
            pool.1@.max_idle == usize::MAX,
            pool.1@.stats == (PoolStats { leases: 0, allocations: 0 }),
            pool.1@.reserve.len() == 0,
            pool.1@.shards.flatten().len() == 0,
    {
        (
            BufferPool { hooks: Hooks::new(init, absent(|buffer: &mut T| {  })) },
            PoolInner::new_on(init_state, parallelism),
        )
    }
}

impl BufferPool<(), ()> {
    /// Creates a pool whose buffers are made by `T::default`, lazily, exactly
    /// as in [`BufferPool::new`].
    pub fn default<T: Default>(parallelism: Option<usize>) -> (pool: (
        BufferPool<impl Fn() -> T, impl Fn(&mut T)>,
        PoolInner<T>,
    ))
        requires
            parallelism matches Some(n) ==> n <= usize::MAX / 2 + 1,
            call_requires(T::default, ()),
        ensures
            pool.0.can_init(),
            forall|made: T| #[trigger]
                call_ensures(pool.0.init(), (), made) ==> call_ensures(T::default, (), made),
            pool.0.reset() is None,
            pool.1.wf(),
            crate::inner::is_fresh_state(pool.1@, parallelism),
            pool.1@.idle() == 0,
            pool.1@.max_idle == usize::MAX,
            pool.1@.stats == (PoolStats { leases: 0, allocations: 0 }),
            pool.1@.reserve.len() == 0,
            pool.1@.shards.flatten().len() == 0,
    {
        BufferPool::new(T::default, parallelism)
    }
}

impl<T, S, I: Initializer<Buffer = T, State = S>, R: Fn(&mut T)> BufferPool<I, R> {
    /// The initializer.
    pub closed spec fn init(&self) -> I {
        self.hooks.init()
    }

    /// The reset hook, where there is one.
    pub closed spec fn reset(&self) -> Option<R> {
        self.hooks.reset()
    }

    /// The reset hook, where there is one, may be run on `buffer`.
    pub open spec fn can_reset(&self, buffer: T) -> bool {
        self.reset() matches Some(reset) ==> forall|m: &mut T|
            *m == buffer ==> #[trigger] call_requires(reset, (m,))
    }

    /// The initializer may make `buffers` in as many runs, one after the other,
    /// which go through `states`.
    pub open spec fn makes(&self, states: Seq<S>, buffers: Seq<T>) -> bool {
        &&& states.len() == buffers.len() + 1
        &&& forall|i: int|
            0 <= i < buffers.len() ==> self.init().runs(
                states[i],
                states[i + 1],
                #[trigger] buffers[i],
            )
    }

    /// Caps the number of idle buffers kept behind the pool (builder style).
    ///
    /// The cap is a count over every shard and the reserve. Buffers parked
    /// already stay; returns that find the cap reached are dropped.
    pub fn with_max_idle(self, inner: &mut PoolInner<T, S>, max_idle: usize) -> (pool: Self)
        requires
            old(inner).wf(),
            old(inner)@.idle() <= usize::MAX,
        ensures
            pool == self,
            final(inner).wf(),
            final(inner).init_state() == old(inner).init_state(),
            final(inner)@ == old(inner)@.cap(max_idle),
            final(inner)@.idle() == old(inner)@.idle(),
            final(inner)@.shards == old(inner)@.shards,
            final(inner)@.reserve == old(inner)@.reserve,
            final(inner)@.stats == old(inner)@.stats,
            final(inner)@.max_idle == max_idle,
            final(inner)@.capped() <==> max_idle != usize::MAX,
            forall|tid: usize| #[trigger]
                final(inner)@.offer(tid) == old(inner)@.offer(tid),
    {
        inner.set_max_idle(max_idle);
        self
    }

    /// Registers `reset` to run each time a buffer is returned (builder style),
    /// so that every lease starts from a known state.
    pub fn with_reset<F: Fn(&mut T)>(self, reset: F) -> (pool: BufferPool<I, F>)
        ensures
            pool.init() == self.init(),
            pool.reset() == Some(reset),
    {
        BufferPool { hooks: self.hooks.with_reset(reset) }
    }

    /// Makes `n` buffers ahead of any lease (builder style) and parks them in
    /// the reserve, where whichever threads lease first find them.
    ///
    /// Each buffer is counted as an allocation, then made by the initializer, and
    /// goes through the checks of a return: the reset hook runs on it, and one
    /// that finds the idle cap reached is dropped.
    pub fn prefill(self, inner: &mut PoolInner<T, S>, n: usize) -> (pool: Self)
        requires
            old(inner).wf(),
            n > 0 ==> self.init().can_run(old(inner).init_state()),
            forall|before: S, after: S, made: T|
                n > 1 && self.init().can_run(before) && #[trigger] self.init().runs(
                    before,
                    after,
                    made,
                ) ==> self.init().can_run(after),
            forall|before: S, after: S, made: T|
                n > 0 && #[trigger] self.init().runs(before, after, made) ==> self.can_reset(made),
        ensures
            pool == self,
            final(inner).wf(),
            exists|states: Seq<S>, made: Seq<T>, parked: Seq<T>|
                {
                    &&& made.len() == n
                    &&& parked.len() == n
                    &&& #[trigger] self.makes(states, made)
                    &&& states[0] == old(inner).init_state()
                    &&& states[n as int] == final(inner).init_state()
                    &&& match self.reset() {
                        Some(reset) => forall|i: int|
                            #![trigger parked[i]]
                            #![trigger is_index(parked, i)]
                            is_index(parked, i) ==> exists|m: &mut T|
                                *m == made[i] && *final(m) == parked[i]
                                    && #[trigger] call_ensures(reset, (m,), ()),
                        None => parked == made,
                    }
                    &&& final(inner)@ == #[trigger] old(inner)@.stock_all(parked)
                },
            final(inner)@.idle() == old(inner)@.idle_after_stock(n as nat),
            forall|gauge: spec_fn(S) -> int| #[trigger]
                crate::hooks::counts_runs(self.init(), gauge) ==> gauge(final(inner).init_state())
                    == gauge(old(inner).init_state()) + n,
    {
        let mut i: usize = 0;
        let ghost mut states: Seq<S> = seq![inner.init_state()];
        let ghost mut made: Seq<T> = Seq::empty();
        let ghost mut parked: Seq<T> = Seq::empty();
        assert(inner@ == inner@.stock_all(parked));
        while i < n
            invariant
                i <= n,
                inner.wf(),
                i < n ==> self.init().can_run(inner.init_state()),
                forall|before: S, after: S, made: T|
                    n > 1 && self.init().can_run(before) && #[trigger] self.init().runs(
                        before,
                        after,
                        made,
                    ) ==> self.init().can_run(after),
                forall|before: S, after: S, made: T|
                    n > 0 && #[trigger] self.init().runs(before, after, made) ==> self.can_reset(
                        made,
                    ),
                made.len() == i,
                parked.len() == i,
                self.makes(states, made),
                states[0] == old(inner).init_state(),
                states[i as int] == inner.init_state(),
                match self.reset() {
                    Some(reset) => forall|j: int|
                        #![trigger parked[j]]
                        #![trigger is_index(parked, j)]
                        is_index(parked, j) ==> exists|m: &mut T|
                            *m == made[j] && *final(m) == parked[j] && #[trigger] call_ensures(
                                reset,
                                (m,),
                                (),
                            ),
                    None => parked == made,
                },
                inner@ == old(inner)@.stock_all(parked),
                forall|gauge: spec_fn(S) -> int| #[trigger]
                    crate::hooks::counts_runs(self.init(), gauge) ==> gauge(inner.init_state())
                        == gauge(old(inner).init_state()) + i,
            decreases n - i,
        {
            inner.count_allocation();
            let fresh = inner.provide(&self.hooks, None);
            assert(self.can_reset(fresh));
            let clean = self.hooks.refresh(fresh);
            let ghost parked_before = parked;
            proof {
                states = states.push(inner.init_state());
                made = made.push(fresh);
                parked = parked.push(clean);
                crate::inner::lemma_stock_all_step(old(inner)@, parked_before, clean);
                if let Some(reset) = self.reset() {
                    assert forall|j: int|
                        #![trigger parked[j]]
                        #![trigger is_index(parked, j)]
                        is_index(parked, j) implies exists|m: &mut T|
                        *m == made[j] && *final(m) == parked[j] && #[trigger] call_ensures(
                            reset,
                            (m,),
                            (),
                        ) by {
                        if j < i {
                            assert(is_index(parked_before, j) && parked_before[j] == parked[j]);
                        }
                    }
                }
            }
            let _excess = inner.stock(clean);
            i += 1;
        }
        proof {
            crate::inner::lemma_stock_all_idle(old(inner)@, parked);
        }
        self
    }

    /// Leases a buffer on thread `tid`.
    ///
    /// Recycles an idle buffer when one is to be found in the thread's own
    /// shard or in the reserve, and otherwise runs the initializer, also when
    /// other threads' shards still hold idle buffers.
    pub fn get<'pool>(&'pool self, inner: &mut PoolInner<T, S>, tid: usize) -> (lease: SharedPooled<
        'pool,
        T,
        I,
        R,
    >)
        requires
            old(inner).wf(),
            old(inner)@.offer(tid) is None ==> self.init().can_run(old(inner).init_state()),
        ensures
            final(inner).wf(),
            final(inner)@ == old(inner)@.lease(tid),
            final(inner)@.idle() == old(inner)@.idle() - if old(inner)@.offer(tid) is Some {
                1int
            } else {
                0
            },
            lease.pool() == *self,
            match old(inner)@.offer(tid) {
                Some(idle) => lease@ == idle && final(inner).init_state() == old(inner).init_state(),
                None => self.init().runs(
                    old(inner).init_state(),
                    final(inner).init_state(),
                    lease@,
                ),
            },
            forall|gauge: spec_fn(S) -> int| #[trigger]
                crate::hooks::counts_runs(self.init(), gauge) && old(inner)@.stats.allocations
                    < usize::MAX ==> gauge(final(inner).init_state()) - gauge(
                    old(inner).init_state(),
                ) == final(inner)@.stats.allocations - old(inner)@.stats.allocations,
    {
        let found = inner.checkout(tid);
        let buffer = inner.provide(&self.hooks, found);
        SharedPooled { pool: self, buffer }
    }

    /// Leases a buffer on thread `tid` like [`get`](BufferPool::get), as a lease
    /// that owns a share of the pool and so may outlive every other handle.
    pub fn get_owned(self: &Arc<Self>, inner: &mut PoolInner<T, S>, tid: usize) -> (lease:
        SharedPooledOwned<T, I, R>)
        requires
            old(inner).wf(),
            old(inner)@.offer(tid) is None ==> self.init().can_run(old(inner).init_state()),
        ensures
            final(inner).wf(),
            final(inner)@ == old(inner)@.lease(tid),
            final(inner)@.idle() == old(inner)@.idle() - if old(inner)@.offer(tid) is Some {
                1int
            } else {
                0
            },
            lease.pool() == **self,
            match old(inner)@.offer(tid) {
                Some(idle) => lease@ == idle && final(inner).init_state() == old(inner).init_state(),
                None => self.init().runs(
                    old(inner).init_state(),
                    final(inner).init_state(),
                    lease@,
                ),
            },
            forall|gauge: spec_fn(S) -> int| #[trigger]
                crate::hooks::counts_runs(self.init(), gauge) && old(inner)@.stats.allocations
                    < usize::MAX ==> gauge(final(inner).init_state()) - gauge(
                    old(inner).init_state(),
                ) == final(inner)@.stats.allocations - old(inner)@.stats.allocations,
    {
        let lease = self.get(inner, tid);
        SharedPooledOwned { buffer: lease.into_inner(), pool: Arc::clone(self) }
    }

    /// Runs `f` with a buffer checked out on thread `tid`, and returns the
    /// buffer afterwards.
    pub fn with<U, F: FnOnce(&mut T) -> U>(
        &self,
        inner: &mut PoolInner<T, S>,
        tid: usize,
        f: F,
    ) -> (result: U)
        requires
            old(inner).wf(),
            old(inner)@.offer(tid) is None ==> self.init().can_run(old(inner).init_state()),
            forall|m: &mut T|
                (match old(inner)@.offer(tid) {
                    Some(idle) => *m == idle,
                    None => exists|after: S|
                        self.init().runs(old(inner).init_state(), after, *m),
                }) ==> #[trigger] call_requires(f, (m,)),
            forall|m: &mut T, u: U| #[trigger]
                call_ensures(f, (m,), u) ==> self.can_reset(*final(m)),
        ensures
            final(inner).wf(),
            exists|m: &mut T|
                {
                    &&& match old(inner)@.offer(tid) {
                        Some(idle) => *m == idle && final(inner).init_state()
                            == old(inner).init_state(),
                        None => self.init().runs(
                            old(inner).init_state(),
                            final(inner).init_state(),
                            *m,
                        ),
                    }
                    &&& #[trigger] call_ensures(f, (m,), result)
                    &&& match self.reset() {
                        Some(reset) => exists|k: &mut T|
                            {
                                &&& *k == *final(m)
                                &&& #[trigger] call_ensures(reset, (k,), ())
                                &&& final(inner)@ == old(inner)@.lease(tid).recycle(
                                    tid,
                                    *final(k),
                                )
                            },
                        None => final(inner)@ == old(inner)@.lease(tid).recycle(tid, *final(m)),
                    }
                },
            forall|gauge: spec_fn(S) -> int| #[trigger]
                crate::hooks::counts_runs(self.init(), gauge) && old(inner)@.stats.allocations
                    < usize::MAX ==> gauge(final(inner).init_state()) - gauge(
                    old(inner).init_state(),
                ) == final(inner)@.stats.allocations - old(inner)@.stats.allocations,
            final(inner)@.idle() == old(inner)@.lease(tid).idle_after_return(),
            old(inner)@.lease(tid).idle() == old(inner)@.idle() - if old(inner)@.offer(
                tid,
            ) is Some {
                1int
            } else {
                0
            },
    {
        let found = inner.checkout(tid);
        let mut buffer = inner.provide(&self.hooks, found);
        let result = f(&mut buffer);
        let clean = self.hooks.refresh(buffer);
        let _excess = inner.recycle(tid, clean);
        result
    }

    /// Returns `buffer` to the pile of thread `tid`, whose next lease finds it;
    /// it is dropped instead if the idle cap is reached.
    ///
    /// The reset hook, where there is one, runs on the buffer either way.
    pub fn put(&self, inner: &mut PoolInner<T, S>, tid: usize, buffer: T)
        requires
            old(inner).wf(),
            self.can_reset(buffer),
        ensures
            final(inner).wf(),
            final(inner).init_state() == old(inner).init_state(),
            match self.reset() {
                Some(reset) => exists|m: &mut T|
                    {
                        &&& *m == buffer
                        &&& #[trigger] call_ensures(reset, (m,), ())
                        &&& final(inner)@ == old(inner)@.recycle(tid, *final(m))
                    },
                None => final(inner)@ == old(inner)@.recycle(tid, buffer),
            },
            final(inner)@.idle() == old(inner)@.idle_after_return(),
    {
        let clean = self.hooks.refresh(buffer);
        let _excess = inner.recycle(tid, clean);
    }

    /// Number of idle buffers, over every shard and the reserve.
    pub fn idle_len(&self, inner: &PoolInner<T, S>) -> (count: usize)
        requires
            inner.wf(),
            inner@.idle() <= usize::MAX,
        ensures
            count == inner@.idle(),
            count == inner@.shards.flatten().len() + inner@.reserve.len(),
    {
        inner.count_idle()
    }

    /// Removes every idle buffer, leaving the piles empty, and returns them
    /// pile by pile: the shards in order, then the reserve, each in the order
    /// of parking.
    ///
    /// The reset hook does not run, as it belongs to the return path. Buffers
    /// on lease are in no pile and so are not returned; they park when their
    /// leases are released. The pool keeps working.
    pub fn drain(&self, inner: &mut PoolInner<T, S>) -> (drained: Vec<T>)
        requires
            old(inner).wf(),
            old(inner)@.idle() <= usize::MAX,
        ensures
            final(inner).wf(),
            final(inner).init_state() == old(inner).init_state(),
            drained@ == old(inner)@.idle_buffers(),
            drained@ == old(inner)@.shards.flatten() + old(inner)@.reserve,
            final(inner)@ == old(inner)@.drained(),
            final(inner)@.idle() == 0,
            final(inner)@.max_idle == old(inner)@.max_idle,
            final(inner)@.stats == old(inner)@.stats,
    {
        inner.drain()
    }

    /// Lease and allocation counters.
    pub fn stats(&self, inner: &PoolInner<T, S>) -> (stats: PoolStats)
        ensures
            stats == inner@.stats,
    {
        inner.stats()
    }

    /// The initializer and the reset hook, for callers that hold the state
    /// behind the pool only while they move a buffer in or out.
    pub fn hooks(&self) -> (hooks: &Hooks<I, R>)
        ensures
            hooks.init() == self.init(),
            hooks.reset() == self.reset(),
    {
        &self.hooks
    }
}

impl<T, I: Fn() -> T, R: Fn(&mut T)> BufferPool<I, R> {
    /// The initializer may be run.
    pub open spec fn can_init(&self) -> bool {
        call_requires(self.init(), ())
    }
}

impl<'pool, T, I, R> View for SharedPooled<'pool, T, I, R> {
    type V = T;

    closed spec fn view(&self) -> T {
        self.buffer
    }
}

impl<'pool, T, I, R> SharedPooled<'pool, T, I, R> {
    /// The pool that the buffer is leased from.
    pub closed spec fn pool(&self) -> BufferPool<I, R> {
        *self.pool
    }

    /// Detaches the buffer: moves it out without returning it to the pool.
    pub fn into_inner(self) -> (buffer: T)
        ensures
            buffer == self@,
    {
        self.buffer
    }
}

impl<'pool, T, S, I: Initializer<Buffer = T, State = S>, R: Fn(&mut T)> SharedPooled<'pool, T, I, R> {
    /// Ends the lease on thread `tid`: returns the buffer to the pool as
    /// [`BufferPool::put`] does.
    pub fn release(self, inner: &mut PoolInner<T, S>, tid: usize)
        requires
            old(inner).wf(),
            self.pool().can_reset(self@),
        ensures
            final(inner).wf(),
            final(inner).init_state() == old(inner).init_state(),
            match self.pool().reset() {
                Some(reset) => exists|m: &mut T|
                    {
                        &&& *m == self@
                        &&& #[trigger] call_ensures(reset, (m,), ())
                        &&& final(inner)@ == old(inner)@.recycle(tid, *final(m))
                    },
                None => final(inner)@ == old(inner)@.recycle(tid, self@),
            },
            final(inner)@.idle() == old(inner)@.idle_after_return(),
    {
        self.pool.put(inner, tid, self.buffer)
    }
}

impl<'pool, T, I, R> Deref for SharedPooled<'pool, T, I, R> {
    type Target = T;

    fn deref(&self) -> (buffer: &T)
        ensures
            *buffer == self@,
    {
        &self.buffer
    }
}

impl<'pool, T, I, R> DerefMut for SharedPooled<'pool, T, I, R> {
    fn deref_mut(&mut self) -> (buffer: &mut T)
        ensures
            *buffer == old(self)@,
            final(self)@ == *final(buffer),
            final(self).pool() == old(self).pool(),
    {
        &mut self.buffer
    }
}

impl<T, I, R> View for SharedPooledOwned<T, I, R> {
    type V = T;

    closed spec fn view(&self) -> T {
        self.buffer
    }
}

impl<T, I, R> SharedPooledOwned<T, I, R> {
    /// The pool that the buffer is leased from.
    pub closed spec fn pool(&self) -> BufferPool<I, R> {
        *self.pool
    }

    /// Detaches the buffer: moves it out without returning it to the pool. The
    /// lease's share of the pool ends here too.
    pub fn into_inner(self) -> (buffer: T)
        ensures
            buffer == self@,
    {
        self.buffer
    }
}

impl<T, S, I: Initializer<Buffer = T, State = S>, R: Fn(&mut T)> SharedPooledOwned<T, I, R> {
    /// Ends the lease on thread `tid`: returns the buffer to the pool as
    /// [`BufferPool::put`] does.
    pub fn release(self, inner: &mut PoolInner<T, S>, tid: usize)
        requires
            old(inner).wf(),
            self.pool().can_reset(self@),
        ensures
            final(inner).wf(),
            final(inner).init_state() == old(inner).init_state(),
            match self.pool().reset() {
                Some(reset) => exists|m: &mut T|
                    {
                        &&& *m == self@
                        &&& #[trigger] call_ensures(reset, (m,), ())
                        &&& final(inner)@ == old(inner)@.recycle(tid, *final(m))
                    },
                None => final(inner)@ == old(inner)@.recycle(tid, self@),
            },
            final(inner)@.idle() == old(inner)@.idle_after_return(),
    {
        self.pool.put(inner, tid, self.buffer)
    }
}

impl<T, I, R> Deref for SharedPooledOwned<T, I, R> {
    type Target = T;

    fn deref(&self) -> (buffer: &T)
        ensures
            *buffer == self@,
    {
        &self.buffer
    }
}

impl<T, I, R> DerefMut for SharedPooledOwned<T, I, R> {
    fn deref_mut(&mut self) -> (buffer: &mut T)
        ensures
            *buffer == old(self)@,
            final(self)@ == *final(buffer),
            final(self).pool() == old(self).pool(),
    {
        &mut self.buffer
    }
}

} // verus!
