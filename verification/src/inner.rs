//! The state behind a shared pool: its idle piles, its idle cap and its
//! counters.

use crate::hooks::{Hooks, Initializer};
use crate::sharding::{shard_count, shard_for};
use crate::stats::PoolStats;
use crate::steps::{parked_from, DrainStep, LeaseStep, Place, ReturnStep};
use crate::traffic::{Task, Traffic};
use vstd::arithmetic::power2::*;
use vstd::prelude::*;

verus! {

/// The state behind a shared pool, as a mathematical value.
#[verifier::ext_equal]
pub struct PoolState<T> {
    /// The idle piles of the threads, oldest buffer first.
    pub shards: Seq<Seq<T>>,
    /// The communal pile that is stocked in advance, oldest buffer first.
    pub reserve: Seq<T>,
    /// The idle cap; `usize::MAX` stands for none.
    pub max_idle: usize,
    /// What the pool has done.
    pub stats: PoolStats,
}

impl<T> PoolState<T> {
    /// There is a pile for every thread.
    pub open spec fn wf(self) -> bool {
        self.shards.len() > 0
    }

    /// Every idle buffer, pile by pile: the shards in order, then the reserve;
    /// within a pile in the order of parking.
    pub open spec fn idle_buffers(self) -> Seq<T> {
        self.shards.flatten() + self.reserve
    }

    /// Number of idle buffers.
    pub open spec fn idle(self) -> nat {
        self.idle_buffers().len()
    }

    /// An idle cap is installed.
    pub open spec fn capped(self) -> bool {
        self.max_idle != usize::MAX
    }

    /// One more buffer may park under the cap.
    pub open spec fn has_room(self) -> bool {
        self.capped() ==> self.idle() < self.max_idle
    }

    /// Index of the shard of thread `tid`.
    pub open spec fn shard_of(self, tid: usize) -> int {
        crate::sharding::shard_index(tid, self.shards.len() as int)
    }

    /// The pile that thread `tid` parks in and leases from first.
    pub open spec fn pile(self, tid: usize) -> Seq<T> {
        self.shards[self.shard_of(tid)]
    }

    /// The state with `pile` as the pile of thread `tid`.
    pub open spec fn with_pile(self, tid: usize, pile: Seq<T>) -> PoolState<T> {
        PoolState { shards: self.shards.update(self.shard_of(tid), pile), ..self }
    }

    /// The pile at `place`.
    pub open spec fn at(self, place: Place) -> Seq<T> {
        match place {
            Place::Shard { index } => self.shards[index as int],
            Place::Reserve => self.reserve,
        }
    }

    /// The state with `pile` as the pile at `place`.
    pub open spec fn with(self, place: Place, pile: Seq<T>) -> PoolState<T> {
        match place {
            Place::Shard { index } => PoolState {
                shards: self.shards.update(index as int, pile),
                ..self
            },
            Place::Reserve => PoolState { reserve: pile, ..self },
        }
    }

    /// The idle buffer that a lease by thread `tid` gets: the one parked last
    /// in the thread's own pile, else the one stocked last in the reserve.
    /// `None` where both are empty, whatever the other piles hold.
    pub open spec fn offer(self, tid: usize) -> Option<T> {
        if self.pile(tid).len() > 0 {
            Some(self.pile(tid).last())
        } else if self.reserve.len() > 0 {
            Some(self.reserve.last())
        } else {
            None
        }
    }

    /// The state without the buffer that it offers to thread `tid`.
    pub open spec fn without_offer(self, tid: usize) -> PoolState<T> {
        if self.pile(tid).len() > 0 {
            self.with_pile(tid, self.pile(tid).drop_last())
        } else if self.reserve.len() > 0 {
            PoolState { reserve: self.reserve.drop_last(), ..self }
        } else {
            self
        }
    }

    /// The state after a lease by thread `tid`: the offered buffer has left,
    /// and the counters have recorded the lease and whether it needs a fresh
    /// buffer.
    pub open spec fn lease(self, tid: usize) -> PoolState<T> {
        PoolState {
            stats: self.stats.leased(self.offer(tid) is None),
            ..self.without_offer(tid)
        }
    }

    /// The state after thread `tid` returned `buffer`: it is parked in the
    /// thread's pile if the cap leaves room, and is gone otherwise.
    pub open spec fn recycle(self, tid: usize, buffer: T) -> PoolState<T> {
        if self.has_room() {
            self.with_pile(tid, self.pile(tid).push(buffer))
        } else {
            self
        }
    }

    /// The state after `buffer` was put into the reserve, if the cap leaves
    /// room.
    pub open spec fn stock(self, buffer: T) -> PoolState<T> {
        if self.has_room() {
            PoolState { reserve: self.reserve.push(buffer), ..self }
        } else {
            self
        }
    }

    /// The state after one more allocation was counted.
    pub open spec fn allocated(self) -> PoolState<T> {
        PoolState {
            stats: PoolStats {
                allocations: crate::stats::bumped(self.stats.allocations),
                ..self.stats
            },
            ..self
        }
    }

    /// The state after one buffer was made ahead of any lease and put into the
    /// reserve as `buffer`.
    pub open spec fn stock_fresh(self, buffer: T) -> PoolState<T> {
        self.allocated().stock(buffer)
    }

    /// Number of idle buffers after one more was returned.
    pub open spec fn idle_after_return(self) -> nat {
        if self.has_room() {
            self.idle() + 1
        } else {
            self.idle()
        }
    }

    /// Number of idle buffers after `n` were stocked: as many are kept as the
    /// cap leaves room for.
    pub open spec fn idle_after_stock(self, n: nat) -> nat {
        if !self.capped() || self.idle() + n <= self.max_idle {
            self.idle() + n
        } else if self.idle() < self.max_idle {
            self.max_idle as nat
        } else {
            self.idle()
        }
    }

    /// Number of buffers that are kept when `n` are stocked.
    pub open spec fn kept(self, n: nat) -> nat {
        (self.idle_after_stock(n) - self.idle()) as nat
    }

    /// The state after `buffers` were made ahead of any lease and put into the
    /// reserve one after the other: the first of them are kept, as far as the
    /// cap leaves room, and all of them are counted.
    pub open spec fn stock_all(self, buffers: Seq<T>) -> PoolState<T> {
        PoolState {
            reserve: self.reserve + buffers.take(self.kept(buffers.len()) as int),
            stats: PoolStats {
                allocations: crate::stats::bumped_by(
                    self.stats.allocations,
                    buffers.len() as usize,
                ),
                ..self.stats
            },
            ..self
        }
    }

    /// The state with `max_idle` as the idle cap.
    pub open spec fn cap(self, max_idle: usize) -> PoolState<T> {
        PoolState { max_idle, ..self }
    }

    /// The state with every pile empty.
    pub open spec fn drained(self) -> PoolState<T> {
        PoolState {
            shards: Seq::new(self.shards.len(), |i: int| Seq::empty()),
            reserve: Seq::empty(),
            ..self
        }
    }
}

/// The state of a pool on a machine that reported `parallelism` workers,
/// before anything was leased or parked.
pub open spec fn is_fresh_state<T>(state: PoolState<T>, parallelism: Option<usize>) -> bool {
    &&& crate::sharding::is_shard_count(parallelism, state.shards.len() as int)
    &&& forall|i: int| 0 <= i < state.shards.len() ==> #[trigger] state.shards[i] == Seq::<T>::empty()
    &&& state.reserve == Seq::<T>::empty()
    &&& state.max_idle == usize::MAX
    &&& state.stats == PoolStats { leases: 0, allocations: 0 }
}

/// One more pile adds its buffers at the end.
pub(crate) proof fn lemma_flatten_take<T>(shards: Seq<Seq<T>>, i: int)
    requires
        0 <= i < shards.len(),
    ensures
        shards.take(i + 1).flatten() == shards.take(i).flatten() + shards[i],
{
    assert(shards.take(i + 1) == shards.take(i).push(shards[i]));
    shards.take(i).lemma_flatten_push(shards[i]);
}

/// The buffers of the first piles are no more than all.
proof fn lemma_flatten_take_le<T>(shards: Seq<Seq<T>>, i: int)
    requires
        0 <= i <= shards.len(),
    ensures
        shards.take(i).flatten().len() <= shards.flatten().len(),
{
    assert(shards == shards.take(i) + shards.skip(i));
    vstd::seq_lib::lemma_flatten_concat(shards.take(i), shards.skip(i));
}

/// The buffers of all piles, split at pile `i`.
pub(crate) proof fn lemma_flatten_split<T>(shards: Seq<Seq<T>>, i: int)
    requires
        0 <= i < shards.len(),
    ensures
        shards.flatten() == shards.take(i).flatten() + shards[i] + shards.skip(i + 1).flatten(),
{
    assert(shards == shards.take(i + 1) + shards.skip(i + 1));
    vstd::seq_lib::lemma_flatten_concat(shards.take(i + 1), shards.skip(i + 1));
    lemma_flatten_take(shards, i);
}

/// Changing one pile changes the number of idle buffers by as much.
pub(crate) proof fn lemma_idle_with<T>(state: PoolState<T>, place: Place, pile: Seq<T>)
    requires
        place.is_in(state.shards.len() as int),
    ensures
        state.with(place, pile).idle() == state.idle() - state.at(place).len() + pile.len(),
{
    if let Place::Shard { index } = place {
        let i = index as int;
        let after = state.shards.update(i, pile);
        lemma_flatten_split(state.shards, i);
        lemma_flatten_split(after, i);
        assert(after.take(i) == state.shards.take(i));
        assert(after.skip(i + 1) == state.shards.skip(i + 1));
    }
}

/// Changing the pile of a thread changes the number of idle buffers by as much.
pub(crate) proof fn lemma_idle_with_pile<T>(state: PoolState<T>, tid: usize, pile: Seq<T>)
    requires
        state.wf(),
    ensures
        state.with_pile(tid, pile).idle() == state.idle() - state.pile(tid).len() + pile.len(),
{
    let place = Place::Shard { index: state.shard_of(tid) as usize };
    lemma_idle_with(state, place, pile);
}

/// As many stocked buffers are kept as the cap leaves room for.
pub(crate) proof fn lemma_stock_all_idle<T>(state: PoolState<T>, buffers: Seq<T>)
    ensures
        state.stock_all(buffers).idle() == state.idle_after_stock(buffers.len()),
{
    assert(state.stock_all(buffers).idle_buffers() == state.shards.flatten() + state.reserve
        + buffers.take(state.kept(buffers.len()) as int));
}

/// Stocking one buffer more, after others.
pub(crate) proof fn lemma_stock_all_step<T>(state: PoolState<T>, buffers: Seq<T>, buffer: T)
    requires
        buffers.len() < usize::MAX,
    ensures
        state.stock_all(buffers.push(buffer)) == state.stock_all(buffers).stock_fresh(buffer),
{
    let all = buffers.push(buffer);
    let before = state.stock_all(buffers);
    lemma_stock_all_idle(state, buffers);
    if before.has_room() {
        assert(state.kept(buffers.len()) == buffers.len());
        assert(all.take(all.len() as int) == buffers.take(buffers.len() as int).push(buffer));
    } else {
        let kept = state.kept(buffers.len()) as int;
        assert(state.kept(all.len()) == kept);
        assert(all.take(kept) == buffers.take(kept));
    }
    assert(state.stock_all(all).reserve == before.stock_fresh(buffer).reserve);
}

/// Piles that are all empty hold no buffer.
pub(crate) proof fn lemma_flatten_empty<T>(shards: Seq<Seq<T>>)
    requires
        forall|i: int| 0 <= i < shards.len() ==> #[trigger] shards[i] == Seq::<T>::empty(),
    ensures
        shards.flatten() == Seq::<T>::empty(),
    decreases shards.len(),
{
    if shards.len() > 0 {
        lemma_flatten_empty(shards.drop_first());
    }
}

/// Nothing is idle once the piles are drained.
pub(crate) proof fn lemma_drained_is_empty<T>(state: PoolState<T>)
    ensures
        state.drained().idle_buffers() == Seq::<T>::empty(),
{
    lemma_flatten_empty(state.drained().shards);
}

/// `n` in the range of a counter, where it is at most one beyond.
spec fn in_range(n: int) -> usize {
    if n > usize::MAX {
        0
    } else {
        n as usize
    }
}

/// The state behind a shared pool: what every handle to the pool and every
/// lease from it works on.
#[derive(Debug)]
pub struct PoolInner<T, S = ()> {
    shards: Vec<Vec<T>>,
    /// One less than the number of shards.
    shard_mask: usize,
    /// The communal pile for leases that find their shard empty. Returns never
    /// go here.
    reserve: Vec<T>,
    max_idle: usize,
    /// Number of parked buffers, kept only while a cap is installed.
    parked: Option<usize>,
    stats: PoolStats,
    /// What the initializer runs on.
    init_state: S,
}

/// The state behind a shared pool in its parts, for whoever shares it between
/// threads and gives each part a lock of its own.
#[derive(Debug)]
pub struct PoolParts<T> {
    /// The idle piles of the threads.
    pub shards: Vec<Vec<T>>,
    /// The communal pile that is stocked in advance.
    pub reserve: Vec<T>,
    /// The idle cap; `usize::MAX` stands for none.
    pub max_idle: usize,
    /// Number of parked buffers, kept only while a cap is installed.
    pub parked: Option<usize>,
    /// What the pool has done.
    pub stats: PoolStats,
}

impl<T> View for PoolParts<T> {
    type V = PoolState<T>;

    open spec fn view(&self) -> PoolState<T> {
        PoolState {
            shards: Seq::new(self.shards@.len(), |i: int| self.shards@[i]@),
            reserve: self.reserve@,
            max_idle: self.max_idle,
            stats: self.stats,
        }
    }
}

impl<T, S> View for PoolInner<T, S> {
    type V = PoolState<T>;

    closed spec fn view(&self) -> PoolState<T> {
        PoolState {
            shards: Seq::new(self.shards@.len(), |i: int| self.shards@[i]@),
            reserve: self.reserve@,
            max_idle: self.max_idle,
            stats: self.stats,
        }
    }
}

impl<T, S> PoolInner<T, S> {
    /// The state that the initializer runs on.
    pub closed spec fn init_state(&self) -> S {
        self.init_state
    }

    /// What every operation keeps.
    pub open spec fn wf(&self) -> bool {
        &&& self@.wf()
        &&& self.consistent()
    }

    /// The shards can be selected by masking, and the parked count is exact
    /// wherever it is kept.
    pub closed spec fn consistent(&self) -> bool {
        &&& self.shape()
        &&& self.counted(self@.idle() as int)
        &&& self@.capped() ==> self@.idle() <= usize::MAX
    }

    spec fn shape(&self) -> bool {
        &&& self.shards.len() == self.shard_mask + 1
        &&& is_pow2(self.shard_mask + 1)
    }

    /// The parked count, where it is kept, says `n`.
    spec fn counted(&self, n: int) -> bool {
        match self.parked {
            Some(parked) => self@.capped() && parked == in_range(n),
            None => !self@.capped(),
        }
    }

    /// The pool with `task` as the only operation under way.
    spec fn running(&self, task: Task<T>) -> Traffic<T> {
        Traffic { state: self@, parked: self@.idle() as int, tasks: seq![task] }
    }

    /// This is the pool that `traffic` speaks of, with a single operation under
    /// way.
    spec fn follows(&self, traffic: Traffic<T>) -> bool {
        &&& self.shape()
        &&& self@ == traffic.state
        &&& self.counted(traffic.parked)
        &&& traffic.state.capped() ==> 0 <= traffic.parked <= usize::MAX + 1
        &&& traffic.tasks.len() == 1
        &&& crate::traffic_laws::balanced(traffic)
    }

    /// An operation can begin on a pool that is at rest.
    proof fn lemma_follows(&self, task: Task<T>)
        requires
            self.wf(),
            self@.capped() ==> task.due() == 0,
            task.fits(self@.shards.len() as int, self@.capped()),
        ensures
            self.follows(self.running(task)),
    {
        let tasks = seq![task];
        assert(tasks.drop_last() == Seq::<Task<T>>::empty());
        reveal_with_fuel(crate::traffic_laws::sum, 2);
    }

    /// The parked count while a single operation is under way.
    proof fn lemma_due(&self, traffic: Traffic<T>)
        requires
            self.follows(traffic),
        ensures
            traffic.state.capped() ==> traffic.parked == traffic.state.idle()
                + traffic.tasks[0].due(),
    {
        assert(traffic.tasks.drop_last() == Seq::<Task<T>>::empty());
        reveal_with_fuel(crate::traffic_laws::sum, 2);
    }

    /// The state of a pool on a machine that reported `parallelism` workers:
    /// every pile empty and no cap.
    /// The initializer runs on `init_state`.
    pub fn new_on(init_state: S, parallelism: Option<usize>) -> (inner: Self)
        requires
            parallelism matches Some(n) ==> n <= usize::MAX / 2 + 1,
        ensures
            inner.wf(),
            is_fresh_state(inner@, parallelism),
            inner.init_state() == init_state,
            inner@.idle() == 0,
            inner@.max_idle == usize::MAX,
            !inner@.capped(),
            inner@.stats == (PoolStats { leases: 0, allocations: 0 }),
            inner@.reserve.len() == 0,
            inner@.shards.flatten().len() == 0,
            is_pow2(inner@.shards.len() as int),
            inner@.shards.len() >= 128,
            parallelism matches Some(n) ==> inner@.shards.len() >= n,
    {
        let count = shard_count(parallelism);
        let mut shards: Vec<Vec<T>> = Vec::new();
        let mut i: usize = 0;
        while i < count
            invariant
                i <= count,
                shards.len() == i,
                forall|j: int| 0 <= j < i ==> (#[trigger] shards@[j])@ == Seq::<T>::empty(),
            decreases count - i,
        {
            shards.push(Vec::new());
            i += 1;
        }
        let inner = PoolInner {
            shards,
            shard_mask: count - 1,
            reserve: Vec::new(),
            max_idle: usize::MAX,
            parked: None,
            stats: PoolStats::new(),
            init_state,
        };
        proof {
            lemma_flatten_empty(inner@.shards);
        }
        inner
    }

    /// Index of the shard of thread `tid`. The mapping is sticky, so a thread's
    /// returns and its next leases use the same pile.
    fn shard(&self, tid: usize) -> (index: usize)
        requires
            self.shape(),
        ensures
            index == self@.shard_of(tid),
            index < self.shards.len(),
    {
        shard_for(tid, self.shard_mask)
    }

    /// The pile at `place`.
    fn pile(&mut self, place: Place) -> (pile: &mut Vec<T>)
        requires
            old(self).shape(),
            place.is_in(old(self)@.shards.len() as int),
        ensures
            final(self).init_state() == old(self).init_state(),
            pile@ == old(self)@.at(place),
            final(self)@ == old(self)@.with(place, final(pile)@),
            final(self).shape(),
            final(self).parked == old(self).parked,
    {
        match place {
            Place::Shard { index } => &mut self.shards[index],
            Place::Reserve => &mut self.reserve,
        }
    }

    /// Adds one to the parked count, and says what it was before.
    fn park(&mut self) -> (before: usize)
        requires
            old(self).parked is Some,
        ensures
            final(self).init_state() == old(self).init_state(),
            Some(before) == old(self).parked,
            final(self).parked == Some(in_range(before + 1)),
            final(self)@ == old(self)@,
            final(self).shape() == old(self).shape(),
    {
        let before = self.parked.unwrap();
        self.parked = Some(before.wrapping_add(1));
        assert(self@ == old(self)@);
        before
    }

    /// Takes `n` off the parked count; there is nothing to do where none is
    /// kept.
    fn unpark(&mut self, n: usize)
        requires
            old(self).parked matches Some(parked) ==> n <= parked || parked == 0 && n == 1,
        ensures
            final(self).init_state() == old(self).init_state(),
            match old(self).parked {
                Some(parked) => final(self).parked == Some(
                    if n <= parked {
                        (parked - n) as usize
                    } else {
                        usize::MAX
                    },
                ),
                None => final(self).parked is None,
            },
            final(self)@ == old(self)@,
            final(self).shape() == old(self).shape(),
    {
        if let Some(parked) = self.parked {
            self.parked = Some(parked.wrapping_sub(n));
        }
        assert(self@ == old(self)@);
    }

    /// Takes the idle buffer that a lease by thread `tid` gets, if there is
    /// one: from the thread's own shard first, then from the reserve. Records
    /// the lease, and that it needs a fresh buffer where there was none.
    pub fn checkout(&mut self, tid: usize) -> (found: Option<T>)
        requires
            old(self).wf(),
        ensures
            final(self).init_state() == old(self).init_state(),
            final(self).wf(),
            found == old(self)@.offer(tid),
            final(self)@ == old(self)@.lease(tid),
            final(self)@.idle() == old(self)@.idle() - if found is Some { 1int } else { 0 },
    {
        let capped = self.parked.is_some();
        let mut step = LeaseStep::start(self.shard(tid));
        let ghost start = self.running(Task::Lease { lease: step });
        let ghost mut traffic = start;
        proof {
            self.lemma_follows(Task::Lease { lease: step });
            crate::traffic_laws::law_uninterrupted_lease(start, 0, tid);
            crate::shared_laws::law_lease_takes_one(self@, tid);
        }
        loop
            invariant
                old(self).wf(),
                start == old(self).running(start.tasks[0]),
                self.follows(traffic),
                self.init_state == old(self).init_state,
                capped == traffic.state.capped(),
                traffic.tasks[0] == (Task::Lease { lease: step }),
                traffic.finished(0) == start.finished(0),
                start.finished(0).tasks[0] == (Task::Lease {
                    lease: LeaseStep::Done { found: old(self)@.offer(tid) },
                }),
                start.finished(0).state == old(self)@.lease(tid),
                start.finished(0).parked == start.parked - if capped && old(self)@.offer(
                    tid,
                ) is Some {
                    1int
                } else {
                    0
                },
                old(self)@.lease(tid).idle() == old(self)@.idle() - if old(self)@.offer(
                    tid,
                ) is Some {
                    1int
                } else {
                    0
                },
                old(self)@.capped() == capped,
            decreases traffic.tasks[0].steps_left(traffic.state.shards.len()),
        {
            proof {
                assert(traffic.tasks[0].fits(traffic.state.shards.len() as int, capped));
                crate::traffic_laws::lemma_step_is_balanced(traffic, 0);
                self.lemma_due(traffic);
                traffic = traffic.step(0);
            }
            match step {
                LeaseStep::CountLease { index } => {
                    self.stats.count_lease();
                    step = LeaseStep::lease_counted(index);
                },
                LeaseStep::Pop { place } => {
                    let popped = self.pile(place).pop();
                    step = LeaseStep::popped(place, popped, capped);
                },
                LeaseStep::Unpark { buffer } => {
                    self.unpark(1);
                    step = LeaseStep::unparked(buffer);
                },
                LeaseStep::CountAllocation => {
                    self.stats.count_allocation();
                    step = LeaseStep::allocation_counted();
                },
                LeaseStep::Done { found } => {
                    return found;
                },
            }
            assert(self@ == traffic.state);
        }
    }

    /// Parks `buffer` in the shard of thread `tid`, or hands it back when the
    /// idle cap is reached.
    pub fn recycle(&mut self, tid: usize, buffer: T) -> (excess: Option<T>)
        requires
            old(self).wf(),
        ensures
            final(self).init_state() == old(self).init_state(),
            final(self).wf(),
            excess == if old(self)@.has_room() { None } else { Some(buffer) },
            final(self)@ == old(self)@.recycle(tid, buffer),
            final(self)@.idle() == old(self)@.idle_after_return(),
    {
        let index = self.shard(tid);
        let step = ReturnStep::start(index, buffer, self.parked.is_some());
        proof {
            crate::traffic_laws::law_uninterrupted_return(
                self.running(Task::Return { back: step }),
                0,
                tid,
                buffer,
            );
            crate::shared_laws::law_return_adds_one(self@, tid, buffer);
        }
        self.finish(step)
    }

    /// Records that a buffer is about to be made ahead of any lease.
    pub fn count_allocation(&mut self)
        requires
            old(self).wf(),
        ensures
            final(self).init_state() == old(self).init_state(),
            final(self).wf(),
            final(self)@ == old(self)@.allocated(),
            final(self)@.idle() == old(self)@.idle(),
    {
        self.stats.count_allocation();
        assert(self@ == old(self)@.allocated());
        assert(self@.idle_buffers() == old(self)@.idle_buffers());
    }

    /// Parks a buffer that was made ahead of any lease in the reserve, or hands
    /// it back when the idle cap is reached.
    pub fn stock(&mut self, buffer: T) -> (excess: Option<T>)
        requires
            old(self).wf(),
        ensures
            final(self).init_state() == old(self).init_state(),
            final(self).wf(),
            excess == if old(self)@.has_room() { None } else { Some(buffer) },
            final(self)@ == old(self)@.stock(buffer),
            final(self)@.idle() == old(self)@.idle_after_return(),
    {
        let step = ReturnStep::stock(buffer, self.parked.is_some());
        proof {
            crate::traffic_laws::lemma_uninterrupted_return_to_reserve(
                self.running(Task::Return { back: step }),
                0,
                buffer,
            );
        }
        self.finish(step)
    }

    /// Goes through with a return, beginning at `first`.
    fn finish(&mut self, first: ReturnStep<T>) -> (excess: Option<T>)
        requires
            old(self).wf(),
            first is Claim || first is Push && !old(self)@.capped(),
            (Task::Return { back: first }).fits(
                old(self)@.shards.len() as int,
                old(self)@.capped(),
            ),
        ensures
            final(self).init_state() == old(self).init_state(),
            ({
                let end = old(self).running(Task::Return { back: first }).finished(0);
                &&& final(self).shape()
                &&& final(self)@ == end.state
                &&& final(self).counted(end.parked)
                &&& end.tasks[0] == (Task::Return { back: ReturnStep::Done { excess } })
            }),
    {
        let capped = self.parked.is_some();
        let ghost start = self.running(Task::Return { back: first });
        let ghost mut traffic = start;
        proof {
            self.lemma_follows(Task::Return { back: first });
        }
        let mut step = first;
        loop
            invariant
                self.follows(traffic),
                self.init_state == old(self).init_state,
                capped == traffic.state.capped(),
                capped && step is Claim ==> traffic.parked <= usize::MAX,
                traffic.tasks[0] == (Task::Return { back: step }),
                traffic.finished(0) == start.finished(0),
                start == old(self).running(Task::Return { back: first }),
            decreases traffic.tasks[0].steps_left(traffic.state.shards.len()),
        {
            proof {
                assert(traffic.tasks[0].fits(traffic.state.shards.len() as int, capped));
                crate::traffic_laws::lemma_step_is_balanced(traffic, 0);
                self.lemma_due(traffic);
                traffic = traffic.step(0);
            }
            match step {
                ReturnStep::Claim { place, buffer } => {
                    let before = self.park();
                    step = ReturnStep::claimed(place, buffer, before, self.max_idle);
                },
                ReturnStep::Push { place, buffer } => {
                    self.pile(place).push(buffer);
                    step = ReturnStep::pushed();
                },
                ReturnStep::Unclaim { buffer } => {
                    self.unpark(1);
                    step = ReturnStep::unclaimed(buffer);
                },
                ReturnStep::Done { excess } => {
                    return excess;
                },
            }
            assert(self@ == traffic.state);
        }
    }

    /// Number of idle buffers over every shard and the reserve.
    pub fn count_idle(&self) -> (count: usize)
        requires
            self.wf(),
            self@.idle() <= usize::MAX,
        ensures
            count == self@.idle(),
            count == self@.shards.flatten().len() + self@.reserve.len(),
    {
        let mut count: usize = 0;
        let mut i: usize = 0;
        let ghost shards = self@.shards;
        while i < self.shards.len()
            invariant
                shards == self@.shards,
                shards.flatten().len() <= usize::MAX,
                i <= self.shards.len(),
                count == shards.take(i as int).flatten().len(),
            decreases self.shards.len() - i,
        {
            proof {
                lemma_flatten_take(shards, i as int);
                lemma_flatten_take_le(shards, i + 1);
            }
            count += self.shards[i].len();
            i += 1;
        }
        assert(shards.take(shards.len() as int) == shards);
        count + self.reserve.len()
    }

    /// Installs `max_idle` as the idle cap (`usize::MAX` for none). What is
    /// parked already stays, and is counted.
    pub fn set_max_idle(&mut self, max_idle: usize)
        requires
            old(self).wf(),
            old(self)@.idle() <= usize::MAX,
        ensures
            final(self).init_state() == old(self).init_state(),
            final(self).wf(),
            final(self)@ == old(self)@.cap(max_idle),
            final(self)@.shards == old(self)@.shards,
            final(self)@.reserve == old(self)@.reserve,
            final(self)@.stats == old(self)@.stats,
            final(self)@.max_idle == max_idle,
            final(self)@.capped() <==> max_idle != usize::MAX,
    {
        self.parked = parked_from(max_idle, self.count_idle());
        self.max_idle = max_idle;
        assert(self@ == old(self)@.cap(max_idle));
    }

    /// The buffer of a lease: the idle one that was `found`, or else one that
    /// the initializer makes, in a single run on the pool's state for it.
    pub fn provide<I: Initializer<Buffer = T, State = S>, R: Fn(&mut T)>(
        &mut self,
        hooks: &Hooks<I, R>,
        found: Option<T>,
    ) -> (buffer: T)
        requires
            old(self).wf(),
            found is None ==> hooks.init().can_run(old(self).init_state()),
        ensures
            final(self).wf(),
            final(self)@ == old(self)@,
            match found {
                Some(idle) => buffer == idle && final(self).init_state() == old(self).init_state(),
                None => hooks.init().runs(
                    old(self).init_state(),
                    final(self).init_state(),
                    buffer,
                ),
            },
    {
        let buffer = hooks.provide(found, &mut self.init_state);
        assert(self@ == old(self)@);
        buffer
    }

    /// The idle cap; `usize::MAX` stands for none.
    pub fn max_idle(&self) -> (max_idle: usize)
        ensures
            max_idle == self@.max_idle,
    {
        self.max_idle
    }

    /// Removes every idle buffer and returns them, pile by pile.
    pub fn drain(&mut self) -> (drained: Vec<T>)
        requires
            old(self).wf(),
            old(self)@.idle() <= usize::MAX,
        ensures
            final(self).init_state() == old(self).init_state(),
            final(self).wf(),
            drained@ == old(self)@.idle_buffers(),
            drained@ == old(self)@.shards.flatten() + old(self)@.reserve,
            final(self)@ == old(self)@.drained(),
            final(self)@.idle() == 0,
            final(self)@.max_idle == old(self)@.max_idle,
            final(self)@.stats == old(self)@.stats,
    {
        let capped = self.parked.is_some();
        let shards = self.shards.len();
        let mut drained: Vec<T> = Vec::new();
        let mut step = DrainStep::start();
        let ghost start = self.running(Task::Drain { drain: step, drained: drained@ });
        let ghost mut traffic = start;
        proof {
            self.lemma_follows(Task::Drain { drain: step, drained: drained@ });
            crate::traffic_laws::law_uninterrupted_drain(start, 0);
            lemma_drained_is_empty(self@);
        }
        loop
            invariant
                old(self).wf(),
                self.follows(traffic),
                self.init_state == old(self).init_state,
                capped == traffic.state.capped(),
                capped ==> traffic.parked <= usize::MAX,
                shards == traffic.state.shards.len(),
                traffic.tasks[0] == (Task::Drain { drain: step, drained: drained@ }),
                traffic.finished(0) == start.finished(0),
                start.finished(0).tasks[0] == (Task::Drain {
                    drain: DrainStep::Done,
                    drained: old(self)@.idle_buffers(),
                }),
                start.finished(0).state == old(self)@.drained(),
                capped ==> start.finished(0).parked == 0,
                old(self)@.drained().idle_buffers() == Seq::<T>::empty(),
            decreases traffic.tasks[0].steps_left(traffic.state.shards.len()),
        {
            proof {
                assert(traffic.tasks[0].fits(traffic.state.shards.len() as int, capped));
                crate::traffic_laws::lemma_step_is_balanced(traffic, 0);
                self.lemma_due(traffic);
                traffic = traffic.step(0);
            }
            match step {
                DrainStep::Take { place } => {
                    drained.append(self.pile(place));
                    step = DrainStep::taken(place, shards, capped);
                },
                DrainStep::Unpark => {
                    self.unpark(drained.len());
                    step = DrainStep::unparked();
                },
                DrainStep::Done => {
                    return drained;
                },
            }
            assert(self@ == traffic.state);
        }
    }

    /// Lease and allocation counters.
    pub fn stats(&self) -> (stats: PoolStats)
        ensures
            stats == self@.stats,
    {
        self.stats
    }
}

impl<T> PoolInner<T> {
    /// The state of a pool on a machine that reported `parallelism` workers:
    /// every pile empty and no cap.
    pub fn new(parallelism: Option<usize>) -> (inner: Self)
        requires
            parallelism matches Some(n) ==> n <= usize::MAX / 2 + 1,
        ensures
            inner.wf(),
            is_fresh_state(inner@, parallelism),
            inner@.idle() == 0,
            inner@.max_idle == usize::MAX,
            !inner@.capped(),
            inner@.stats == (PoolStats { leases: 0, allocations: 0 }),
            inner@.reserve.len() == 0,
            inner@.shards.flatten().len() == 0,
            is_pow2(inner@.shards.len() as int),
            inner@.shards.len() >= 128,
            parallelism matches Some(n) ==> inner@.shards.len() >= n,
    {
        PoolInner::new_on((), parallelism)
    }

    /// Takes the state apart. The parked count is exact.
    pub fn into_parts(self) -> (parts: PoolParts<T>)
        requires
            self.wf(),
        ensures
            parts@ == self@,
            parts.shards@.len() == self@.shards.len(),
            forall|i: int|
                0 <= i < self@.shards.len() ==> (#[trigger] parts.shards@[i])@ == self@.shards[i],
            parts.reserve@ == self@.reserve,
            parts.max_idle == self@.max_idle,
            parts.stats == self@.stats,
            is_pow2(parts.shards@.len() as int),
            match parts.parked {
                Some(parked) => self@.capped() && parked == self@.idle(),
                None => !self@.capped(),
            },
    {
        PoolParts {
            shards: self.shards,
            reserve: self.reserve,
            max_idle: self.max_idle,
            parked: self.parked,
            stats: self.stats,
        }
    }

    /// Puts the state together from its parts. What is parked is counted anew.
    pub fn from_parts(parts: PoolParts<T>) -> (inner: Self)
        requires
            is_pow2(parts.shards@.len() as int),
            parts@.idle() <= usize::MAX,
        ensures
            inner.wf(),
            inner@ == parts@,
            inner@.shards.len() == parts.shards@.len(),
            forall|i: int|
                0 <= i < parts.shards@.len() ==> #[trigger] inner@.shards[i] == parts.shards@[i]@,
            inner@.reserve == parts.reserve@,
            inner@.max_idle == parts.max_idle,
            inner@.stats == parts.stats,
    {
        proof {
            reveal(is_pow2);
        }
        let mut inner = PoolInner {
            shard_mask: parts.shards.len() - 1,
            shards: parts.shards,
            reserve: parts.reserve,
            max_idle: usize::MAX,
            parked: None,
            stats: parts.stats,
            init_state: (),
        };
        assert(inner@ == parts@.cap(usize::MAX));
        inner.set_max_idle(parts.max_idle);
        inner
    }
}

} // verus!
