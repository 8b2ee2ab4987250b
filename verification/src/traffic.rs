//! What holds of a shared pool while any number of threads are at it, each
//! between two steps of an operation of its own.

use crate::inner::PoolState;
use crate::stats::PoolStats;
use crate::steps::{DrainStep, LeaseStep, Place, ReturnStep, StockStep};
use vstd::multiset::Multiset;
use vstd::prelude::*;

verus! {

/// An operation on a pool, somewhere between its first step and its last.
pub enum Task<T> {
    /// A lease.
    Lease { lease: LeaseStep<T> },
    /// The return of a buffer.
    Return { back: ReturnStep<T> },
    /// The stocking of a fresh buffer, up to where there is a buffer. The task
    /// then goes on as a return to the reserve.
    Stock { stock: StockStep },
    /// A drain, which has gathered `drained` so far.
    Drain { drain: DrainStep, drained: Seq<T> },
}

impl<T> Task<T> {
    /// No step is left.
    pub open spec fn is_done(self) -> bool {
        match self {
            Task::Lease { lease: step } => step is Done,
            Task::Return { back: step } => step is Done,
            Task::Stock { .. } => false,
            Task::Drain { drain: step, .. } => step is Done,
        }
    }

    /// The next thing to happen to the task is that user code makes its buffer.
    pub open spec fn awaits_buffer(self) -> bool {
        self == (Task::<T>::Stock { stock: StockStep::Make })
    }

    /// The task speaks of piles that a pool with `shards` shards has, and of
    /// the parked count only where it is kept, as it is under a cap.
    pub open spec fn fits(self, shards: int, capped: bool) -> bool {
        match self {
            Task::Lease { lease: step } => match step {
                LeaseStep::CountLease { index } => index < shards,
                LeaseStep::Pop { place } => place.is_in(shards),
                LeaseStep::Unpark { .. } => capped,
                _ => true,
            },
            Task::Return { back: step } => match step {
                ReturnStep::Claim { place, .. } => capped && place.is_in(shards),
                ReturnStep::Push { place, .. } => place.is_in(shards),
                ReturnStep::Unclaim { .. } => capped,
                _ => true,
            },
            Task::Stock { .. } => true,
            Task::Drain { drain: step, .. } => match step {
                DrainStep::Take { place } => place.is_in(shards),
                DrainStep::Unpark => capped,
                DrainStep::Done => true,
            },
        }
    }

    /// No step has been made.
    pub open spec fn is_new(self, capped: bool) -> bool {
        match self {
            Task::Lease { lease: step } => step is CountLease,
            Task::Return { back: step } => match step {
                ReturnStep::Claim { place, .. } => capped && place is Shard,
                ReturnStep::Push { place, .. } => !capped && place is Shard,
                _ => false,
            },
            Task::Stock { stock: step } => step is CountAllocation,
            Task::Drain { drain: step, drained } => step == (DrainStep::Take {
                place: Place::Shard { index: 0 },
            }) && drained == Seq::<T>::empty(),
        }
    }

    /// The pile that the task's next step works on, if it works on one.
    pub open spec fn place(self) -> Option<Place> {
        match self {
            Task::Lease { lease: LeaseStep::Pop { place } } => Some(place),
            Task::Return { back: ReturnStep::Push { place, .. } } => Some(place),
            Task::Drain { drain: DrainStep::Take { place }, .. } => Some(place),
            _ => None,
        }
    }

    /// By how much the parked count runs ahead of the piles on account of the
    /// task: the places it has claimed and not filled, and the buffers it has
    /// taken out and not taken off the count.
    pub open spec fn due(self) -> int {
        match self {
            Task::Lease { lease: step } => if step is Unpark {
                1
            } else {
                0
            },
            Task::Return { back: step } => if step is Push || step is Unclaim {
                1
            } else {
                0
            },
            Task::Stock { .. } => 0,
            Task::Drain { drain: step, drained } => if step is Done {
                0
            } else {
                drained.len() as int
            },
        }
    }

    /// The places that the task has been granted and not filled.
    pub open spec fn granted(self) -> int {
        match self {
            Task::Return { back: step } => if step is Push {
                1
            } else {
                0
            },
            _ => 0,
        }
    }

    /// The buffers that the task has in hand, or has handed out at its end.
    pub open spec fn held(self) -> Multiset<T> {
        match self {
            Task::Lease { lease: step } => match step {
                LeaseStep::Unpark { buffer } => Multiset::singleton(buffer),
                LeaseStep::Done { found: Some(buffer) } => Multiset::singleton(buffer),
                _ => Multiset::empty(),
            },
            Task::Return { back: step } => match step {
                ReturnStep::Claim { buffer, .. } => Multiset::singleton(buffer),
                ReturnStep::Push { buffer, .. } => Multiset::singleton(buffer),
                ReturnStep::Unclaim { buffer } => Multiset::singleton(buffer),
                ReturnStep::Done { excess: Some(buffer) } => Multiset::singleton(buffer),
                ReturnStep::Done { excess: None } => Multiset::empty(),
            },
            Task::Stock { .. } => Multiset::empty(),
            Task::Drain { drained, .. } => drained.to_multiset(),
        }
    }

    /// Number of buffers in [`held`](Task::held).
    pub open spec fn held_count(self) -> int {
        match self {
            Task::Lease { lease: step } => match step {
                LeaseStep::Unpark { .. } => 1,
                LeaseStep::Done { found: Some(_) } => 1,
                _ => 0,
            },
            Task::Return { back: step } => match step {
                ReturnStep::Done { excess: None } => 0,
                _ => 1,
            },
            Task::Stock { .. } => 0,
            Task::Drain { drained, .. } => drained.len() as int,
        }
    }

    /// The task is a lease that was counted.
    pub open spec fn is_counted_lease(self) -> bool {
        match self {
            Task::Lease { lease: step } => !(step is CountLease),
            _ => false,
        }
    }

    /// The task is a lease that came to its end without an idle buffer, and
    /// goes on with a fresh one.
    pub open spec fn is_fresh_lease(self) -> bool {
        match self {
            Task::Lease { lease: LeaseStep::Done { found: None } } => true,
            _ => false,
        }
    }

    /// The task is a lease that came to its end with an idle buffer.
    pub open spec fn is_recycled_lease(self) -> bool {
        match self {
            Task::Lease { lease: LeaseStep::Done { found: Some(_) } } => true,
            _ => false,
        }
    }

    /// The task is a lease that found the pile of its own shard empty and has not
    /// come to its end yet.
    pub open spec fn is_missing_lease(self) -> bool {
        match self {
            Task::Lease { lease: LeaseStep::Pop { place: Place::Reserve } } => true,
            Task::Lease { lease: LeaseStep::CountAllocation } => true,
            _ => false,
        }
    }

    /// The task is a lease that has an idle buffer.
    pub open spec fn is_served_lease(self) -> bool {
        match self {
            Task::Lease { lease: LeaseStep::Unpark { .. } } => true,
            Task::Lease { lease: LeaseStep::Done { found: Some(_) } } => true,
            _ => false,
        }
    }

    /// The task is a lease that is past the piles without an idle buffer.
    pub open spec fn is_unserved_lease(self) -> bool {
        match self {
            Task::Lease { lease: LeaseStep::CountAllocation } => true,
            Task::Lease { lease: LeaseStep::Done { found: None } } => true,
            _ => false,
        }
    }

    /// The task is to stock a buffer whose making was not counted yet.
    pub open spec fn is_uncounted_stock(self) -> bool {
        self == (Task::<T>::Stock { stock: StockStep::CountAllocation })
    }

    /// An upper bound on the number of steps left, or left until user code makes
    /// the task's buffer, in a pool with `shards` shards.
    pub open spec fn steps_left(self, shards: nat) -> nat {
        match self {
            Task::Lease { lease: step } => match step {
                LeaseStep::CountLease { .. } => 4,
                LeaseStep::Pop { place: Place::Shard { .. } } => 3,
                LeaseStep::Pop { place: Place::Reserve } => 2,
                LeaseStep::Done { .. } => 0,
                _ => 1,
            },
            Task::Return { back: step } => match step {
                ReturnStep::Claim { .. } => 2,
                ReturnStep::Done { .. } => 0,
                _ => 1,
            },
            Task::Stock { stock: step } => match step {
                StockStep::CountAllocation => 1,
                StockStep::Make => 0,
            },
            Task::Drain { drain: step, .. } => match step {
                DrainStep::Take { place: Place::Shard { index } } => if index < shards {
                    (shards - index + 2) as nat
                } else {
                    3
                },
                DrainStep::Take { place: Place::Reserve } => 2,
                DrainStep::Unpark => 1,
                DrainStep::Done => 0,
            },
        }
    }
}

/// A pool and the operations that were ever begun on it.
#[verifier::ext_equal]
pub struct Traffic<T> {
    /// The piles, the cap and the counters.
    pub state: PoolState<T>,
    /// The parked count, which matters only under a cap.
    pub parked: int,
    /// The operations, in the order in which they began.
    pub tasks: Seq<Task<T>>,
}

/// Something that happens to a pool.
pub enum Move<T> {
    /// An operation begins.
    Begin { task: Task<T> },
    /// The operation that began as number `k`, from 0, makes a step.
    Step { k: int },
    /// User code makes `buffer` for the operation that began as number `k`, a
    /// stocking that awaits it.
    Make { k: int, buffer: T },
}

impl<T> Traffic<T> {
    /// The pool with task `k` gone on to `task`.
    pub open spec fn with_task(self, k: int, task: Task<T>) -> Traffic<T> {
        Traffic { tasks: self.tasks.update(k, task), ..self }
    }

    /// The pool with `parked` as its parked count.
    pub open spec fn with_parked(self, parked: int) -> Traffic<T> {
        Traffic { parked, ..self }
    }

    /// The pool with `pile` as the pile at `place`.
    pub open spec fn with_pile(self, place: Place, pile: Seq<T>) -> Traffic<T> {
        Traffic { state: self.state.with(place, pile), ..self }
    }

    /// The pool with `stats` as its counters.
    pub open spec fn with_stats(self, stats: PoolStats) -> Traffic<T> {
        Traffic { state: PoolState { stats, ..self.state }, ..self }
    }

    /// The pool with one more allocation counted.
    pub open spec fn with_allocation(self) -> Traffic<T> {
        self.with_stats(
            PoolStats {
                allocations: crate::stats::bumped(self.state.stats.allocations),
                ..self.state.stats
            },
        )
    }

    /// The pool after task `k`, a lease at `step`, made that step.
    pub open spec fn step_lease(self, k: int, step: LeaseStep<T>) -> Traffic<T> {
        match step {
            LeaseStep::CountLease { index } => self.with_stats(
                PoolStats {
                    leases: crate::stats::bumped(self.state.stats.leases),
                    ..self.state.stats
                },
            ).with_task(
                k,
                Task::Lease { lease: LeaseStep::Pop { place: Place::Shard { index } } },
            ),
            LeaseStep::Pop { place } => {
                let pile = self.state.at(place);
                let popped = if pile.len() > 0 {
                    Some(pile.last())
                } else {
                    None
                };
                self.with_pile(
                    place,
                    if pile.len() > 0 {
                        pile.drop_last()
                    } else {
                        pile
                    },
                ).with_task(
                    k,
                    Task::Lease {
                        lease: LeaseStep::after_pop(place, popped, self.state.capped()),
                    },
                )
            },
            LeaseStep::Unpark { buffer } => self.with_parked(self.parked - 1).with_task(
                k,
                Task::Lease { lease: LeaseStep::Done { found: Some(buffer) } },
            ),
            LeaseStep::CountAllocation => self.with_allocation().with_task(
                k,
                Task::Lease { lease: LeaseStep::Done { found: None } },
            ),
            LeaseStep::Done { .. } => self,
        }
    }

    /// The pool after task `k`, a return at `step`, made that step.
    pub open spec fn step_return(self, k: int, step: ReturnStep<T>) -> Traffic<T> {
        match step {
            ReturnStep::Claim { place, buffer } => self.with_parked(self.parked + 1).with_task(
                k,
                Task::Return {
                    back: ReturnStep::after_claim(place, buffer, self.parked, self.state.max_idle),
                },
            ),
            ReturnStep::Push { place, buffer } => self.with_pile(
                place,
                self.state.at(place).push(buffer),
            ).with_task(k, Task::Return { back: ReturnStep::Done { excess: None } }),
            ReturnStep::Unclaim { buffer } => self.with_parked(self.parked - 1).with_task(
                k,
                Task::Return { back: ReturnStep::Done { excess: Some(buffer) } },
            ),
            ReturnStep::Done { .. } => self,
        }
    }

    /// The pool after task `k`, a stocking at `step`, made that step. To make the
    /// buffer is no step on the pool.
    pub open spec fn step_stock(self, k: int, step: StockStep) -> Traffic<T> {
        match step {
            StockStep::CountAllocation => self.with_allocation().with_task(
                k,
                Task::Stock { stock: StockStep::Make },
            ),
            StockStep::Make => self,
        }
    }

    /// The pool after task `k`, a stocking, got `buffer` to go on with.
    pub open spec fn made(self, k: int, buffer: T) -> Traffic<T> {
        self.with_task(
            k,
            Task::Return { back: ReturnStep::toward(Place::Reserve, buffer, self.state.capped()) },
        )
    }

    /// The pool after task `k`, a drain at `step` with `drained` gathered, made
    /// that step.
    pub open spec fn step_drain(self, k: int, step: DrainStep, drained: Seq<T>) -> Traffic<T> {
        match step {
            DrainStep::Take { place } => self.with_pile(place, Seq::empty()).with_task(
                k,
                Task::Drain {
                    drain: DrainStep::after_take(
                        place,
                        self.state.shards.len() as int,
                        self.state.capped(),
                    ),
                    drained: drained + self.state.at(place),
                },
            ),
            DrainStep::Unpark => self.with_parked(self.parked - drained.len()).with_task(
                k,
                Task::Drain { drain: DrainStep::Done, drained },
            ),
            DrainStep::Done => self,
        }
    }

    /// The pool after task `k` made a step.
    pub open spec fn step(self, k: int) -> Traffic<T> {
        match self.tasks[k] {
            Task::Lease { lease: step } => self.step_lease(k, step),
            Task::Return { back: step } => self.step_return(k, step),
            Task::Stock { stock: step } => self.step_stock(k, step),
            Task::Drain { drain: step, drained } => self.step_drain(k, step, drained),
        }
    }

    /// The pool after task `k` made all its steps, or all up to where it awaits
    /// its buffer, and no other task made one.
    pub open spec fn finished(self, k: int) -> Traffic<T>
        decreases self.tasks[k].steps_left(self.state.shards.len()),
        when 0 <= k < self.tasks.len() && self.state.shards.len() <= usize::MAX
    {
        if self.tasks[k].is_done() || self.tasks[k].awaits_buffer() {
            self
        } else {
            self.step(k).finished(k)
        }
    }

    /// Nothing was begun, and the parked count is exact where it is kept.
    pub open spec fn is_fresh(self) -> bool {
        &&& self.state.wf()
        &&& self.tasks.len() == 0
        &&& self.state.capped() ==> self.parked == self.state.idle()
    }

    /// No operation is under way.
    pub open spec fn is_quiet(self) -> bool {
        forall|k: int| 0 <= k < self.tasks.len() ==> (#[trigger] self.tasks[k]).is_done()
    }

    /// `next` can happen now.
    pub open spec fn allows(self, next: Move<T>) -> bool {
        match next {
            Move::Begin { task } => {
                &&& task.is_new(self.state.capped())
                &&& task.fits(self.state.shards.len() as int, self.state.capped())
            },
            Move::Step { k } => 0 <= k < self.tasks.len(),
            Move::Make { k, .. } => 0 <= k < self.tasks.len() && self.tasks[k].awaits_buffer(),
        }
    }

    /// The pool after `next`.
    pub open spec fn after(self, next: Move<T>) -> Traffic<T> {
        match next {
            Move::Begin { task } => Traffic { tasks: self.tasks.push(task), ..self },
            Move::Step { k } => self.step(k),
            Move::Make { k, buffer } => self.made(k, buffer),
        }
    }

    /// The pool after `moves`, in order.
    pub open spec fn after_all(self, moves: Seq<Move<T>>) -> Traffic<T>
        decreases moves.len(),
    {
        if moves.len() == 0 {
            self
        } else {
            self.after_all(moves.drop_last()).after(moves.last())
        }
    }

    /// `moves` can happen in order.
    pub open spec fn allows_all(self, moves: Seq<Move<T>>) -> bool
        decreases moves.len(),
    {
        moves.len() > 0 ==> {
            &&& self.allows_all(moves.drop_last())
            &&& self.after_all(moves.drop_last()).allows(moves.last())
        }
    }
}

} // verus!
