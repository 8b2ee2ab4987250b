//! The laws of a shared pool under concurrent use: they hold however the steps
//! of any number of operations follow one another.

use crate::inner::PoolState;
use crate::stats::PoolStats;
use crate::steps::{DrainStep, LeaseStep, Place, ReturnStep, StockStep};
use crate::traffic::{Move, Task, Traffic};
use vstd::multiset::Multiset;
use vstd::prelude::*;

verus! {

/// The sum of what `weight` says of each of `tasks`.
pub open spec fn sum<T>(tasks: Seq<Task<T>>, weight: spec_fn(Task<T>) -> int) -> int
    decreases tasks.len(),
{
    if tasks.len() == 0 {
        0
    } else {
        sum(tasks.drop_last(), weight) + weight(tasks.last())
    }
}

/// What is due of a task, as a weight.
pub open spec fn due<T>() -> spec_fn(Task<T>) -> int {
    |task: Task<T>| task.due()
}

/// What a task has been granted, as a weight.
pub open spec fn granted<T>() -> spec_fn(Task<T>) -> int {
    |task: Task<T>| task.granted()
}

proof fn lemma_sum_update<T>(
    tasks: Seq<Task<T>>,
    weight: spec_fn(Task<T>) -> int,
    k: int,
    task: Task<T>,
)
    requires
        0 <= k < tasks.len(),
    ensures
        sum(tasks.update(k, task), weight) == sum(tasks, weight) - weight(tasks[k]) + weight(task),
    decreases tasks.len(),
{
    let after = tasks.update(k, task);
    if k == tasks.len() - 1 {
        assert(after.drop_last() == tasks.drop_last());
    } else {
        assert(after.drop_last() == tasks.drop_last().update(k, task));
        lemma_sum_update(tasks.drop_last(), weight, k, task);
    }
}

proof fn lemma_sum_push<T>(tasks: Seq<Task<T>>, weight: spec_fn(Task<T>) -> int, task: Task<T>)
    ensures
        sum(tasks.push(task), weight) == sum(tasks, weight) + weight(task),
{
    assert(tasks.push(task).drop_last() == tasks);
}

proof fn lemma_granted_is_due<T>(tasks: Seq<Task<T>>)
    ensures
        0 <= sum(tasks, granted()) <= sum(tasks, due()),
    decreases tasks.len(),
{
    if tasks.len() > 0 {
        lemma_granted_is_due(tasks.drop_last());
    }
}

proof fn lemma_nothing_due<T>(tasks: Seq<Task<T>>)
    requires
        forall|k: int| 0 <= k < tasks.len() ==> (#[trigger] tasks[k]).is_done(),
    ensures
        sum(tasks, due()) == 0,
    decreases tasks.len(),
{
    if tasks.len() > 0 {
        assert(tasks[tasks.len() - 1].is_done());
        assert forall|k: int| 0 <= k < tasks.len() - 1 implies (
        #[trigger] tasks.drop_last()[k]).is_done() by {
            assert(tasks[k].is_done());
        }
        lemma_nothing_due(tasks.drop_last());
    }
}

/// What every step keeps: each task fits the pool, and the parked count, where
/// it is kept, is the number of idle buffers and what is due of the tasks.
pub open spec fn balanced<T>(traffic: Traffic<T>) -> bool {
    &&& traffic.state.wf()
    &&& forall|k: int|
        0 <= k < traffic.tasks.len() ==> (#[trigger] traffic.tasks[k]).fits(
            traffic.state.shards.len() as int,
            traffic.state.capped(),
        )
    &&& traffic.state.capped() ==> traffic.parked == traffic.state.idle() + sum(
        traffic.tasks,
        due(),
    )
}

/// How many idle buffers a step of task `k` adds.
proof fn lemma_step_idle<T>(traffic: Traffic<T>, k: int)
    requires
        balanced(traffic),
        0 <= k < traffic.tasks.len(),
    ensures
        ({
            let after = traffic.step(k);
            after.state.idle() == traffic.state.idle() + match traffic.tasks[k] {
                Task::Lease { lease: LeaseStep::Pop { place } } => if traffic.state.at(place).len()
                    > 0 {
                    -1
                } else {
                    0int
                },
                Task::Return { back: ReturnStep::Push { .. } } => 1,
                Task::Drain { drain: DrainStep::Take { place }, .. } => -traffic.state.at(
                    place,
                ).len(),
                _ => 0,
            }
        }),
{
    let state = traffic.state;
    match traffic.tasks[k] {
        Task::Lease { lease: LeaseStep::Pop { place } } => {
            let pile = state.at(place);
            if pile.len() > 0 {
                crate::inner::lemma_idle_with(state, place, pile.drop_last());
            } else {
                crate::inner::lemma_idle_with(state, place, pile);
            }
        },
        Task::Return { back: ReturnStep::Push { place, buffer } } => {
            crate::inner::lemma_idle_with(state, place, state.at(place).push(buffer));
        },
        Task::Drain { drain: DrainStep::Take { place }, .. } => {
            crate::inner::lemma_idle_with(state, place, Seq::empty());
        },
        _ => {
            assert(traffic.step(k).state.idle_buffers() == state.idle_buffers());
        },
    }
}

pub(crate) proof fn lemma_step_is_balanced<T>(traffic: Traffic<T>, k: int)
    requires
        balanced(traffic),
        0 <= k < traffic.tasks.len(),
    ensures
        balanced(traffic.step(k)),
        traffic.step(k).tasks.len() == traffic.tasks.len(),
        traffic.step(k).state.max_idle == traffic.state.max_idle,
        traffic.step(k).state.shards.len() == traffic.state.shards.len(),
{
    let after = traffic.step(k);
    lemma_step_idle(traffic, k);
    assert(traffic.tasks[k].fits(traffic.state.shards.len() as int, traffic.state.capped()));
    assert(after.tasks == traffic.tasks.update(k, after.tasks[k]));
    lemma_sum_update(traffic.tasks, due(), k, after.tasks[k]);
    assert(after.tasks[k].fits(after.state.shards.len() as int, after.state.capped()));
}

proof fn lemma_moves_are_balanced<T>(start: Traffic<T>, moves: Seq<Move<T>>)
    requires
        start.is_fresh(),
        start.allows_all(moves),
    ensures
        balanced(start.after_all(moves)),
        start.after_all(moves).tasks.len() <= moves.len(),
        start.after_all(moves).state.max_idle == start.state.max_idle,
        start.after_all(moves).state.shards.len() == start.state.shards.len(),
    decreases moves.len(),
{
    if moves.len() > 0 {
        lemma_moves_are_balanced(start, moves.drop_last());
        let before = start.after_all(moves.drop_last());
        match moves.last() {
            Move::Begin { task } => {
                lemma_sum_push(before.tasks, due(), task);
            },
            Move::Step { k } => {
                lemma_step_is_balanced(before, k);
            },
            Move::Make { k, buffer } => {
                lemma_sum_update(before.tasks, due(), k, before.made(k, buffer).tasks[k]);
            },
        }
    }
}

/// A step works on one pile at most: every other pile is as it was, and where
/// the task is a lease that finds a buffer in the pile of its own thread, it
/// goes to no other.
pub proof fn law_steps_touch_one_pile<T>(traffic: Traffic<T>, k: int, other: Place)
    requires
        balanced(traffic),
        0 <= k < traffic.tasks.len(),
        other.is_in(traffic.state.shards.len() as int),
        traffic.tasks[k].place() != Some(other),
    ensures
        traffic.step(k).state.at(other) == traffic.state.at(other),
        traffic.tasks[k] matches Task::Lease { lease: LeaseStep::Pop { place } } ==> {
            let next = traffic.step(k).tasks[k];
            traffic.state.at(place).len() > 0 ==> next.place() is None && next.held()
                == Multiset::singleton(traffic.state.at(place).last())
        },
{
    assert(traffic.tasks[k].fits(traffic.state.shards.len() as int, traffic.state.capped()));
}

/// The parked count is exact: at every moment it is the number of idle buffers
/// and of those that operations under way have still to account for, and so it
/// is the number of idle buffers whenever no operation is under way.
pub proof fn law_parked_count_is_exact<T>(start: Traffic<T>, moves: Seq<Move<T>>)
    requires
        start.is_fresh(),
        start.allows_all(moves),
        start.state.capped(),
    ensures
        ({
            let end = start.after_all(moves);
            &&& end.parked == end.state.idle() + sum(end.tasks, due())
            &&& end.is_quiet() ==> end.parked == end.state.idle()
        }),
{
    lemma_moves_are_balanced(start, moves);
    let end = start.after_all(moves);
    if end.is_quiet() {
        lemma_nothing_due(end.tasks);
    }
}

/// The cap holds at every moment, however returns race for the places that are
/// left: the idle buffers and the places granted to returns under way are
/// together no more than the cap, or than the buffers that were idle already
/// when a lower cap was installed.
pub proof fn law_racing_returns_respect_the_cap<T>(start: Traffic<T>, moves: Seq<Move<T>>)
    requires
        start.is_fresh(),
        start.allows_all(moves),
        start.state.capped(),
    ensures
        ({
            let end = start.after_all(moves);
            let bound = if start.state.idle() < start.state.max_idle {
                start.state.max_idle as int
            } else {
                start.state.idle() as int
            };
            &&& end.state.idle() + sum(end.tasks, granted()) <= bound
            &&& end.state.idle() <= bound
        }),
    decreases moves.len(),
{
    lemma_granted_is_due(start.after_all(moves).tasks);
    if moves.len() > 0 {
        law_racing_returns_respect_the_cap(start, moves.drop_last());
        lemma_moves_are_balanced(start, moves.drop_last());
        let before = start.after_all(moves.drop_last());
        match moves.last() {
            Move::Begin { task } => {
                lemma_sum_push(before.tasks, granted(), task);
            },
            Move::Step { k } => {
                let after = before.step(k);
                lemma_step_idle(before, k);
                assert(after.tasks == before.tasks.update(k, after.tasks[k]));
                lemma_sum_update(before.tasks, granted(), k, after.tasks[k]);
                lemma_granted_is_due(before.tasks);
            },
            Move::Make { k, buffer } => {
                lemma_sum_update(before.tasks, granted(), k, before.made(k, buffer).tasks[k]);
            },
        }
    }
}

/// The buffers that `tasks` have in hand or have handed out.
pub open spec fn held_by<T>(tasks: Seq<Task<T>>) -> Multiset<T>
    decreases tasks.len(),
{
    if tasks.len() == 0 {
        Multiset::empty()
    } else {
        held_by(tasks.drop_last()).add(tasks.last().held())
    }
}

/// The buffers that `moves` brought to the pool: those that operations began
/// with, and those that were made in advance.
pub open spec fn brought<T>(moves: Seq<Move<T>>) -> Multiset<T>
    decreases moves.len(),
{
    if moves.len() == 0 {
        Multiset::empty()
    } else {
        match moves.last() {
            Move::Begin { task } => brought(moves.drop_last()).add(task.held()),
            Move::Step { .. } => brought(moves.drop_last()),
            Move::Make { buffer, .. } => brought(moves.drop_last()).insert(buffer),
        }
    }
}

proof fn lemma_held_update<T>(tasks: Seq<Task<T>>, k: int, task: Task<T>)
    requires
        0 <= k < tasks.len(),
    ensures
        held_by(tasks.update(k, task)).add(tasks[k].held()) == held_by(tasks).add(task.held()),
    decreases tasks.len(),
{
    broadcast use vstd::multiset::group_multiset_axioms;

    let after = tasks.update(k, task);
    if k == tasks.len() - 1 {
        assert(after.drop_last() == tasks.drop_last());
    } else {
        assert(after.drop_last() == tasks.drop_last().update(k, task));
        lemma_held_update(tasks.drop_last(), k, task);
        let (now, then) = (held_by(after.drop_last()), held_by(tasks.drop_last()));
        let last = tasks.last().held();
        assert(now.add(last).add(tasks[k].held()) =~= now.add(tasks[k].held()).add(last));
        assert(then.add(last).add(task.held()) =~= then.add(task.held()).add(last));
    }
    assert(held_by(after).add(tasks[k].held()) =~= held_by(tasks).add(task.held()));
}

/// What a step of task `k` takes out of the piles, the task has afterwards, and
/// what it puts in, the task had before.
proof fn lemma_step_conserves<T>(traffic: Traffic<T>, k: int)
    requires
        balanced(traffic),
        0 <= k < traffic.tasks.len(),
    ensures
        ({
            let after = traffic.step(k);
            crate::shared_laws::idle_set(after.state).add(after.tasks[k].held())
                == crate::shared_laws::idle_set(traffic.state).add(traffic.tasks[k].held())
        }),
{
    broadcast use vstd::multiset::group_multiset_axioms;
    broadcast use vstd::seq_lib::group_to_multiset_ensures;

    let state = traffic.state;
    let after = traffic.step(k);
    let (then, now) = (
        crate::shared_laws::idle_set(state),
        crate::shared_laws::idle_set(after.state),
    );
    assert(traffic.tasks[k].fits(state.shards.len() as int, state.capped()));
    match traffic.tasks[k] {
        Task::Lease { lease: LeaseStep::Pop { place } } => {
            let pile = state.at(place);
            if pile.len() > 0 {
                crate::shared_laws::lemma_idle_set_with(state, place, pile.drop_last());
                assert(pile == pile.drop_last().push(pile.last()));
                crate::shared_laws::lemma_cancel(
                    then,
                    now,
                    pile.drop_last().to_multiset(),
                    pile.last(),
                );
                assert(now.add(after.tasks[k].held()) =~= then);
            } else {
                assert(state.with(place, pile).idle_buffers() == state.idle_buffers()) by {
                    if let Place::Shard { index } = place {
                        assert(state.shards.update(index as int, pile) == state.shards);
                    }
                }
            }
            assert(now.add(after.tasks[k].held()) =~= then.add(traffic.tasks[k].held()));
        },
        Task::Return { back: ReturnStep::Push { place, buffer } } => {
            let pile = state.at(place);
            crate::shared_laws::lemma_idle_set_with(state, place, pile.push(buffer));
            crate::shared_laws::lemma_cancel(now, then, pile.to_multiset(), buffer);
            assert(now.add(after.tasks[k].held()) =~= then.add(traffic.tasks[k].held()));
        },
        Task::Drain { drain: DrainStep::Take { place }, drained } => {
            let pile = state.at(place);
            crate::shared_laws::lemma_idle_set_with(state, place, Seq::empty());
            vstd::seq_lib::lemma_multiset_commutative(drained, pile);
            assert(now.add(pile.to_multiset()) =~= then);
            assert(now.add(drained.to_multiset().add(pile.to_multiset())) =~= now.add(
                pile.to_multiset(),
            ).add(drained.to_multiset()));
        },
        _ => {
            assert(after.state.idle_buffers() == state.idle_buffers());
        },
    }
}

proof fn lemma_exchange<T>(
    piles: Multiset<T>,
    piles_after: Multiset<T>,
    hands: Multiset<T>,
    hands_after: Multiset<T>,
    hand: Multiset<T>,
    hand_after: Multiset<T>,
)
    requires
        piles_after.add(hand_after) == piles.add(hand),
        hands_after.add(hand) == hands.add(hand_after),
    ensures
        piles_after.add(hands_after) == piles.add(hands),
{
    broadcast use vstd::multiset::group_multiset_axioms;

    assert forall|e: T|
        piles_after.add(hands_after).count(e) == #[trigger] piles.add(hands).count(e) by {
        assert(piles_after.add(hand_after).count(e) == piles_after.count(e) + hand_after.count(e));
        assert(piles.add(hand).count(e) == piles.count(e) + hand.count(e));
        assert(hands_after.add(hand).count(e) == hands_after.count(e) + hand.count(e));
        assert(hands.add(hand_after).count(e) == hands.count(e) + hand_after.count(e));
    }
    assert(piles_after.add(hands_after) =~= piles.add(hands));
}

/// No buffer is lost or handed out twice, however the operations of any number
/// of threads interleave: the buffers in the piles and those in the hands of
/// operations, or handed out by them, are at every moment those that the pool
/// began with and those that were brought to it.
pub proof fn law_no_interleaving_loses_a_buffer<T>(start: Traffic<T>, moves: Seq<Move<T>>)
    requires
        start.is_fresh(),
        start.allows_all(moves),
    ensures
        ({
            let end = start.after_all(moves);
            crate::shared_laws::idle_set(end.state).add(held_by(end.tasks))
                == crate::shared_laws::idle_set(start.state).add(brought(moves))
        }),
    decreases moves.len(),
{
    broadcast use vstd::multiset::group_multiset_axioms;

    let end = start.after_all(moves);
    let idle = crate::shared_laws::idle_set(start.state);
    if moves.len() > 0 {
        law_no_interleaving_loses_a_buffer(start, moves.drop_last());
        lemma_moves_are_balanced(start, moves.drop_last());
        let before = start.after_all(moves.drop_last());
        let piles = crate::shared_laws::idle_set(before.state);
        match moves.last() {
            Move::Begin { task } => {
                assert(before.tasks.push(task).drop_last() == before.tasks);
                assert(piles.add(held_by(before.tasks).add(task.held())) =~= piles.add(
                    held_by(before.tasks),
                ).add(task.held()));
                assert(idle.add(brought(moves.drop_last()).add(task.held())) =~= idle.add(
                    brought(moves.drop_last()),
                ).add(task.held()));
            },
            Move::Step { k } => {
                lemma_step_conserves(before, k);
                assert(end.tasks == before.tasks.update(k, end.tasks[k]));
                lemma_held_update(before.tasks, k, end.tasks[k]);
                lemma_exchange(
                    piles,
                    crate::shared_laws::idle_set(end.state),
                    held_by(before.tasks),
                    held_by(end.tasks),
                    before.tasks[k].held(),
                    end.tasks[k].held(),
                );
            },
            Move::Make { k, buffer } => {
                lemma_held_update(before.tasks, k, end.tasks[k]);
                let hands = held_by(before.tasks);
                assert(held_by(end.tasks) =~= hands.insert(buffer));
                assert(piles.add(hands.insert(buffer)) =~= piles.add(hands).insert(buffer));
                assert(idle.add(brought(moves.drop_last()).insert(buffer)) =~= idle.add(
                    brought(moves.drop_last()),
                ).insert(buffer));
            },
        }
    }
}

/// Number of `tasks` that `holds` holds of.
pub open spec fn count<T>(tasks: Seq<Task<T>>, holds: spec_fn(Task<T>) -> bool) -> int {
    sum(
        tasks,
        |task: Task<T>|
            if holds(task) {
                1
            } else {
                0
            },
    )
}

/// Number of leases in `tasks`.
pub open spec fn leases<T>(tasks: Seq<Task<T>>) -> int {
    count(tasks, |task: Task<T>| task is Lease)
}

/// Number of leases in `tasks` that were counted.
pub open spec fn counted_leases<T>(tasks: Seq<Task<T>>) -> int {
    count(tasks, |task: Task<T>| task.is_counted_lease())
}

/// Number of leases in `tasks` that ended without an idle buffer.
pub open spec fn fresh_leases<T>(tasks: Seq<Task<T>>) -> int {
    count(tasks, |task: Task<T>| task.is_fresh_lease())
}

/// Number of leases in `tasks` that ended with an idle buffer.
pub open spec fn recycled_leases<T>(tasks: Seq<Task<T>>) -> int {
    count(tasks, |task: Task<T>| task.is_recycled_lease())
}

/// Number of stockings in `tasks` that were not counted yet.
pub open spec fn uncounted_stocks<T>(tasks: Seq<Task<T>>) -> int {
    count(tasks, |task: Task<T>| task.is_uncounted_stock())
}

/// Number of stockings in `tasks` that have no buffer yet.
pub open spec fn unmade_stocks<T>(tasks: Seq<Task<T>>) -> int {
    count(tasks, |task: Task<T>| task is Stock)
}

/// Number of buffers that `tasks` have in hand or have handed out.
pub open spec fn held_count<T>(tasks: Seq<Task<T>>) -> int {
    sum(tasks, |task: Task<T>| task.held_count())
}

/// Number of operations begun in `moves` that stock a fresh buffer.
pub open spec fn stocked<T>(moves: Seq<Move<T>>) -> int
    decreases moves.len(),
{
    if moves.len() == 0 {
        0
    } else {
        stocked(moves.drop_last()) + match moves.last() {
            Move::Begin { task } => if task.is_uncounted_stock() {
                1int
            } else {
                0
            },
            _ => 0,
        }
    }
}

/// Number of buffers that were made in advance in `moves`.
pub open spec fn made<T>(moves: Seq<Move<T>>) -> int
    decreases moves.len(),
{
    if moves.len() == 0 {
        0
    } else {
        made(moves.drop_last()) + if moves.last() is Make {
            1int
        } else {
            0
        }
    }
}

/// Number of operations begun in `moves` that return a buffer.
pub open spec fn returned<T>(moves: Seq<Move<T>>) -> int
    decreases moves.len(),
{
    if moves.len() == 0 {
        0
    } else {
        returned(moves.drop_last()) + match moves.last() {
            Move::Begin { task } => if task is Return {
                1int
            } else {
                0
            },
            _ => 0,
        }
    }
}

proof fn lemma_counts_update<T>(tasks: Seq<Task<T>>, k: int, task: Task<T>)
    requires
        0 <= k < tasks.len(),
    ensures
        ({
            let after = tasks.update(k, task);
            let was = tasks[k];
            &&& leases(after) == leases(tasks) - one_if(was is Lease) + one_if(task is Lease)
            &&& counted_leases(after) == counted_leases(tasks) - one_if(was.is_counted_lease())
                + one_if(task.is_counted_lease())
            &&& fresh_leases(after) == fresh_leases(tasks) - one_if(was.is_fresh_lease()) + one_if(
                task.is_fresh_lease(),
            )
            &&& recycled_leases(after) == recycled_leases(tasks) - one_if(was.is_recycled_lease())
                + one_if(task.is_recycled_lease())
            &&& uncounted_stocks(after) == uncounted_stocks(tasks) - one_if(
                was.is_uncounted_stock(),
            ) + one_if(task.is_uncounted_stock())
            &&& unmade_stocks(after) == unmade_stocks(tasks) - one_if(was is Stock) + one_if(
                task is Stock,
            )
            &&& missing_leases(after) == missing_leases(tasks) - one_if(was.is_missing_lease())
                + one_if(task.is_missing_lease())
            &&& held_count(after) == held_count(tasks) - was.held_count() + task.held_count()
        }),
{
    lemma_count_update(tasks, |task: Task<T>| task is Lease, k, task);
    lemma_count_update(tasks, |task: Task<T>| task.is_counted_lease(), k, task);
    lemma_count_update(tasks, |task: Task<T>| task.is_fresh_lease(), k, task);
    lemma_count_update(tasks, |task: Task<T>| task.is_recycled_lease(), k, task);
    lemma_count_update(tasks, |task: Task<T>| task.is_uncounted_stock(), k, task);
    lemma_count_update(tasks, |task: Task<T>| task is Stock, k, task);
    lemma_count_update(tasks, |task: Task<T>| task.is_missing_lease(), k, task);
    lemma_sum_update(tasks, |task: Task<T>| task.held_count(), k, task);
}

proof fn lemma_counts_push<T>(tasks: Seq<Task<T>>, task: Task<T>)
    ensures
        ({
            let after = tasks.push(task);
            &&& leases(after) == leases(tasks) + one_if(task is Lease)
            &&& counted_leases(after) == counted_leases(tasks) + one_if(task.is_counted_lease())
            &&& fresh_leases(after) == fresh_leases(tasks) + one_if(task.is_fresh_lease())
            &&& recycled_leases(after) == recycled_leases(tasks) + one_if(task.is_recycled_lease())
            &&& uncounted_stocks(after) == uncounted_stocks(tasks) + one_if(
                task.is_uncounted_stock(),
            )
            &&& unmade_stocks(after) == unmade_stocks(tasks) + one_if(task is Stock)
            &&& missing_leases(after) == missing_leases(tasks) + one_if(task.is_missing_lease())
            &&& held_count(after) == held_count(tasks) + task.held_count()
        }),
{
    assert(tasks.push(task).drop_last() == tasks);
}

spec fn one_if(holds: bool) -> int {
    if holds {
        1
    } else {
        0
    }
}

proof fn lemma_count_update<T>(
    tasks: Seq<Task<T>>,
    holds: spec_fn(Task<T>) -> bool,
    k: int,
    task: Task<T>,
)
    requires
        0 <= k < tasks.len(),
    ensures
        count(tasks.update(k, task), holds) == count(tasks, holds) - one_if(holds(tasks[k]))
            + one_if(holds(task)),
{
    lemma_sum_update(
        tasks,
        |task: Task<T>|
            if holds(task) {
                1
            } else {
                0
            },
        k,
        task,
    );
}

/// Every task is counted at most once, whichever way it is counted.
proof fn lemma_counts_bound<T>(tasks: Seq<Task<T>>)
    ensures
        0 <= fresh_leases(tasks) <= counted_leases(tasks) <= leases(tasks) <= tasks.len(),
        0 <= recycled_leases(tasks),
        0 <= uncounted_stocks(tasks) <= unmade_stocks(tasks),
        recycled_leases(tasks) <= held_count(tasks),
    decreases tasks.len(),
{
    if tasks.len() > 0 {
        lemma_counts_bound(tasks.drop_last());
    }
}

proof fn lemma_counters<T>(start: Traffic<T>, moves: Seq<Move<T>>)
    requires
        start.is_fresh(),
        start.state.stats == (PoolStats { leases: 0, allocations: 0 }),
        start.allows_all(moves),
        moves.len() <= usize::MAX,
    ensures
        ({
            let end = start.after_all(moves);
            &&& end.state.stats.leases == counted_leases(end.tasks)
            &&& end.state.stats.allocations == fresh_leases(end.tasks) + stocked(moves)
                - uncounted_stocks(end.tasks)
            &&& leases(end.tasks) + stocked(moves) <= end.tasks.len()
            &&& 0 <= stocked(moves)
            &&& 0 <= made(moves)
            &&& made(moves) + unmade_stocks(end.tasks) == stocked(moves)
            &&& end.state.idle() + held_count(end.tasks) == start.state.idle() + returned(moves)
                + made(moves)
        }),
    decreases moves.len(),
{
    let end = start.after_all(moves);
    if moves.len() > 0 {
        let earlier = moves.drop_last();
        lemma_counters(start, earlier);
        lemma_moves_are_balanced(start, earlier);
        let before = start.after_all(earlier);
        lemma_counts_bound(before.tasks);
        match moves.last() {
            Move::Begin { task } => {
                lemma_counts_push(before.tasks, task);
            },
            Move::Step { k } => {
                lemma_step_idle(before, k);
                assert(end.tasks == before.tasks.update(k, end.tasks[k]));
                lemma_counts_update(before.tasks, k, end.tasks[k]);
            },
            Move::Make { k, .. } => {
                lemma_counts_update(before.tasks, k, end.tasks[k]);
            },
        }
    }
}

/// The counters are exact under concurrent use: the lease counter is the number
/// of leases that have passed it, and the allocation counter the number of
/// leases that ended without an idle buffer and of stockings that have passed
/// it.
pub proof fn law_racing_counters_are_exact<T>(start: Traffic<T>, moves: Seq<Move<T>>)
    requires
        start.is_fresh(),
        start.state.stats == (PoolStats { leases: 0, allocations: 0 }),
        start.allows_all(moves),
        moves.len() <= usize::MAX,
    ensures
        ({
            let end = start.after_all(moves);
            &&& end.state.stats.leases == counted_leases(end.tasks)
            &&& end.state.stats.allocations == fresh_leases(end.tasks) + stocked(moves)
                - uncounted_stocks(end.tasks)
        }),
{
    lemma_counters(start, moves);
}

/// The allocation count is an upper bound on the number of leases outstanding
/// at the same time also under concurrent use: the leases that have ended their
/// last step, less the returns that have begun, are no more than were ever
/// counted as allocations.
pub proof fn law_racing_allocations_bound_leases<T>(start: Traffic<T>, moves: Seq<Move<T>>)
    requires
        start.is_fresh(),
        start.state.idle() == 0,
        start.state.stats == (PoolStats { leases: 0, allocations: 0 }),
        start.allows_all(moves),
        moves.len() <= usize::MAX,
    ensures
        ({
            let end = start.after_all(moves);
            fresh_leases(end.tasks) + recycled_leases(end.tasks) - returned(moves)
                <= end.state.stats.allocations
        }),
{
    lemma_counters(start, moves);
    lemma_counts_bound(start.after_all(moves).tasks);
}

/// The operations begun in `moves` are leases and returns.
pub open spec fn leases_and_returns<T>(moves: Seq<Move<T>>) -> bool {
    forall|m: int|
        0 <= m < moves.len() ==> (#[trigger] moves[m] matches Move::Begin { task } ==> task is Lease
            || task is Return)
}

/// By how much a move adds to the leases of shard `index` that are out, where
/// `by` is the task that makes the move: a lease is out once it has popped the
/// pile of its shard, and is back once its return has pushed.
pub open spec fn out_by<T>(by: Task<T>, index: int) -> int {
    match by {
        Task::Lease { lease: LeaseStep::Pop { place: Place::Shard { index: i } } } => if i == index {
            1
        } else {
            0
        },
        Task::Return { back: ReturnStep::Push { place: Place::Shard { index: i }, .. } } => if i
            == index {
            -1
        } else {
            0
        },
        _ => 0,
    }
}

/// The leases of shard `index` that are out after `moves`: those by its threads
/// that have popped its pile, less the returns that have pushed on it.
pub open spec fn out<T>(start: Traffic<T>, moves: Seq<Move<T>>, index: int) -> int
    decreases moves.len(),
{
    if moves.len() == 0 {
        0
    } else {
        out(start, moves.drop_last(), index) + match moves.last() {
            Move::Step { k } => out_by(start.after_all(moves.drop_last()).tasks[k], index),
            _ => 0,
        }
    }
}

/// The most leases of shard `index` that were out at any moment of `moves`.
pub open spec fn peak<T>(start: Traffic<T>, moves: Seq<Move<T>>, index: int) -> nat
    decreases moves.len(),
{
    if moves.len() == 0 {
        0
    } else if out(start, moves, index) > peak(start, moves.drop_last(), index) {
        out(start, moves, index) as nat
    } else {
        peak(start, moves.drop_last(), index)
    }
}

/// The peaks of all shards.
pub open spec fn peaks<T>(start: Traffic<T>, moves: Seq<Move<T>>) -> Seq<nat> {
    Seq::new(start.state.shards.len(), |index: int| peak(start, moves, index))
}

/// Number of leases in `tasks` that found their own pile empty and have not come
/// to their end yet.
pub open spec fn missing_leases<T>(tasks: Seq<Task<T>>) -> int {
    count(tasks, |task: Task<T>| task.is_missing_lease())
}

/// A task of a lease or a return, in a pool whose reserve nothing is stocked in.
spec fn keeps_to_shards<T>(task: Task<T>) -> bool {
    match task {
        Task::Lease { .. } => true,
        Task::Return { back: step } => match step {
            ReturnStep::Claim { place, .. } => place is Shard,
            ReturnStep::Push { place, .. } => place is Shard,
            _ => true,
        },
        _ => false,
    }
}

proof fn lemma_earlier_leases_and_returns<T>(moves: Seq<Move<T>>)
    requires
        moves.len() > 0,
        leases_and_returns(moves),
    ensures
        leases_and_returns(moves.drop_last()),
        moves.last() matches Move::Begin { task } ==> task is Lease || task is Return,
{
    assert forall|m: int| 0 <= m < moves.drop_last().len() implies (
    #[trigger] moves.drop_last()[m] matches Move::Begin { task } ==> task is Lease
        || task is Return) by {
        assert(moves.drop_last()[m] == moves[m]);
    }
    assert(moves[moves.len() - 1] == moves.last());
}

proof fn lemma_peaks<T>(start: Traffic<T>, moves: Seq<Move<T>>)
    requires
        start.is_fresh(),
        start.state.idle() == 0,
        start.allows_all(moves),
        leases_and_returns(moves),
    ensures
        ({
            let end = start.after_all(moves);
            &&& end.state.shards.len() == start.state.shards.len()
            &&& end.state.reserve.len() == 0
            &&& forall|k: int| 0 <= k < end.tasks.len() ==> keeps_to_shards(#[trigger] end.tasks[k])
            &&& forall|i: int|
                0 <= i < end.state.shards.len() ==> (#[trigger] end.state.shards[i]).len() + out(
                    start,
                    moves,
                    i,
                ) == peak(start, moves, i)
            &&& crate::history::total(peaks(start, moves)) == fresh_leases(end.tasks)
                + missing_leases(end.tasks)
        }),
    decreases moves.len(),
{
    let end = start.after_all(moves);
    if moves.len() == 0 {
        assert forall|i: int| 0 <= i < start.state.shards.len() implies (
        #[trigger] start.state.shards[i]).len() == 0 by {
            crate::inner::lemma_flatten_split(start.state.shards, i);
        }
        crate::history::lemma_total_zero(peaks(start, moves));
    } else {
        let earlier = moves.drop_last();
        let before = start.after_all(earlier);
        lemma_earlier_leases_and_returns(moves);
        lemma_peaks(start, earlier);
        lemma_moves_are_balanced(start, earlier);
        assert forall|i: int| 0 <= i < start.state.shards.len() implies #[trigger] out(
            start,
            earlier,
            i,
        ) <= peak(start, earlier, i) by {
            assert(before.state.shards[i].len() + out(start, earlier, i) == peak(
                start,
                earlier,
                i,
            ));
        }
        match moves.last() {
            Move::Begin { task } => {
                lemma_counts_push(before.tasks, task);
                assert forall|i: int| 0 <= i < start.state.shards.len() implies #[trigger] peak(
                    start,
                    moves,
                    i,
                ) == peak(start, earlier, i) by {
                    assert(out(start, moves, i) == out(start, earlier, i));
                }
                assert(peaks(start, moves) == peaks(start, earlier));
            },
            Move::Step { k } => {
                let task = before.tasks[k];
                assert(keeps_to_shards(task));
                assert(task.fits(before.state.shards.len() as int, before.state.capped()));
                assert(end.tasks == before.tasks.update(k, end.tasks[k]));
                lemma_counts_update(before.tasks, k, end.tasks[k]);
                match task {
                    Task::Lease { lease: LeaseStep::Pop { place: Place::Shard { index } } } => {
                        let i = index as int;
                        let before_len = before.state.shards[i].len();
                        assert(before_len + out(start, earlier, i) == peak(start, earlier, i));
                        crate::history::lemma_total_update(
                            peaks(start, earlier),
                            i,
                            peak(start, moves, i),
                        );
                        assert(peaks(start, moves) == peaks(start, earlier).update(
                            i,
                            peak(start, moves, i),
                        ));
                    },
                    _ => {
                        assert(peaks(start, moves) == peaks(start, earlier));
                    },
                }
            },
            Move::Make { k, .. } => {
                assert(keeps_to_shards(before.tasks[k]));
            },
        }
    }
}

/// Memory limits itself also under concurrent use: in a pool that nothing is
/// stocked in or drained from, every buffer made for a shard is either idle in
/// its pile or out, at every moment, and there are as many as the most that were
/// ever out at once. So the allocation count is never more than the sum of these
/// peaks over the shards, and is that sum whenever no lease is on its way to the
/// initializer. (Where a buffer goes back to the shard that it was leased on and
/// none is refused, what is out are the leases between their pop and the push of
/// their return.)
pub proof fn law_racing_buffers_match_peaks<T>(start: Traffic<T>, moves: Seq<Move<T>>)
    requires
        start.is_fresh(),
        start.state.idle() == 0,
        start.state.stats == (PoolStats { leases: 0, allocations: 0 }),
        start.allows_all(moves),
        leases_and_returns(moves),
        moves.len() <= usize::MAX,
    ensures
        ({
            let end = start.after_all(moves);
            let sum_of_peaks = crate::history::total(peaks(start, moves));
            &&& end.state.stats.allocations + missing_leases(end.tasks) == sum_of_peaks
            &&& end.state.stats.allocations <= sum_of_peaks
            &&& end.is_quiet() ==> end.state.stats.allocations == sum_of_peaks
            &&& forall|i: int|
                0 <= i < end.state.shards.len() ==> (#[trigger] end.state.shards[i]).len() + out(
                    start,
                    moves,
                    i,
                ) == peak(start, moves, i)
        }),
{
    let end = start.after_all(moves);
    lemma_peaks(start, moves);
    lemma_counters(start, moves);
    lemma_nothing_stocked(moves);
    lemma_counts_bound(end.tasks);
    lemma_missing_bound(end.tasks);
}

proof fn lemma_nothing_stocked<T>(moves: Seq<Move<T>>)
    requires
        leases_and_returns(moves),
    ensures
        stocked(moves) == 0,
    decreases moves.len(),
{
    if moves.len() > 0 {
        lemma_earlier_leases_and_returns(moves);
        lemma_nothing_stocked(moves.drop_last());
    }
}

proof fn lemma_missing_bound<T>(tasks: Seq<Task<T>>)
    ensures
        0 <= missing_leases(tasks),
        (forall|k: int| 0 <= k < tasks.len() ==> (#[trigger] tasks[k]).is_done())
            ==> missing_leases(tasks) == 0,
    decreases tasks.len(),
{
    if tasks.len() > 0 {
        lemma_missing_bound(tasks.drop_last());
        if forall|k: int| 0 <= k < tasks.len() ==> (#[trigger] tasks[k]).is_done() {
            assert(tasks[tasks.len() - 1].is_done());
            assert forall|k: int| 0 <= k < tasks.len() - 1 implies (
            #[trigger] tasks.drop_last()[k]).is_done() by {
                assert(tasks[k].is_done());
            }
        }
    }
}

/// No drain begins in `moves`.
pub open spec fn drains_nothing<T>(moves: Seq<Move<T>>) -> bool {
    forall|m: int|
        0 <= m < moves.len() ==> (#[trigger] moves[m] matches Move::Begin { task } ==> !(
        task is Drain))
}

/// Number of leases in `tasks` that are past the piles without an idle buffer:
/// they are to run the initializer, or have ended without one.
pub open spec fn unserved_leases<T>(tasks: Seq<Task<T>>) -> int {
    count(tasks, |task: Task<T>| task.is_unserved_lease())
}

/// Number of leases in `tasks` that have an idle buffer.
pub open spec fn served_leases<T>(tasks: Seq<Task<T>>) -> int {
    count(tasks, |task: Task<T>| task.is_served_lease())
}

proof fn lemma_served_bound<T>(tasks: Seq<Task<T>>)
    ensures
        0 <= served_leases(tasks),
        0 <= unserved_leases(tasks),
        served_leases(tasks) + unserved_leases(tasks) <= leases(tasks),
    decreases tasks.len(),
{
    if tasks.len() > 0 {
        lemma_served_bound(tasks.drop_last());
    }
}

proof fn lemma_unserved_member<T>(tasks: Seq<Task<T>>, k: int)
    requires
        0 <= k < tasks.len(),
        tasks[k].is_unserved_lease(),
    ensures
        unserved_leases(tasks) >= 1,
    decreases tasks.len(),
{
    lemma_served_bound(tasks.drop_last());
    if k < tasks.len() - 1 {
        lemma_unserved_member(tasks.drop_last(), k);
    }
}

proof fn lemma_reserve_serves<T>(start: Traffic<T>, moves: Seq<Move<T>>)
    requires
        start.is_fresh(),
        start.allows_all(moves),
        drains_nothing(moves),
    ensures
        ({
            let end = start.after_all(moves);
            &&& forall|k: int| 0 <= k < end.tasks.len() ==> !(#[trigger] end.tasks[k] is Drain)
            &&& end.state.reserve.len() + served_leases(end.tasks) >= start.state.reserve.len()
            &&& unserved_leases(end.tasks) == 0 || unserved_leases(end.tasks)
                + start.state.reserve.len() <= leases(end.tasks)
            &&& 0 <= stocked(moves)
            &&& stocked(moves) == 0 ==> forall|k: int|
                0 <= k < end.tasks.len() ==> !(#[trigger] end.tasks[k] is Stock)
            &&& stocked(moves) == 0 && unserved_leases(end.tasks) == 0
                ==> end.state.stats.allocations == start.state.stats.allocations
        }),
    decreases moves.len(),
{
    let end = start.after_all(moves);
    if moves.len() > 0 {
        let earlier = moves.drop_last();
        let before = start.after_all(earlier);
        assert forall|m: int| 0 <= m < earlier.len() implies (
        #[trigger] earlier[m] matches Move::Begin { task } ==> !(task is Drain)) by {
            assert(earlier[m] == moves[m]);
        }
        assert(moves[moves.len() - 1] == moves.last());
        lemma_reserve_serves(start, earlier);
        lemma_moves_are_balanced(start, earlier);
        lemma_served_bound(before.tasks);
        lemma_served_bound(end.tasks);
        match moves.last() {
            Move::Begin { task } => {
                lemma_counts_push(before.tasks, task);
                assert(before.tasks.push(task).drop_last() == before.tasks);
            },
            Move::Step { k } => {
                let task = before.tasks[k];
                assert(!(task is Drain));
                assert(task.fits(before.state.shards.len() as int, before.state.capped()));
                assert(end.tasks == before.tasks.update(k, end.tasks[k]));
                lemma_counts_update(before.tasks, k, end.tasks[k]);
                lemma_count_update(
                    before.tasks,
                    |task: Task<T>| task.is_served_lease(),
                    k,
                    end.tasks[k],
                );
                lemma_count_update(
                    before.tasks,
                    |task: Task<T>| task.is_unserved_lease(),
                    k,
                    end.tasks[k],
                );
                if task.is_unserved_lease() {
                    lemma_unserved_member(before.tasks, k);
                }
            },
            Move::Make { k, buffer } => {
                lemma_counts_update(before.tasks, k, end.tasks[k]);
                lemma_count_update(
                    before.tasks,
                    |task: Task<T>| task.is_served_lease(),
                    k,
                    end.tasks[k],
                );
                lemma_count_update(
                    before.tasks,
                    |task: Task<T>| task.is_unserved_lease(),
                    k,
                    end.tasks[k],
                );
            },
        }
    }
}

/// Buffers made in advance are found by whichever threads lease first, in every
/// interleaving: of any number of leases that begin, no more run the initializer
/// than there are leases beyond the buffers that the reserve held. In particular
/// as many leases as the reserve held buffers all get an idle one, and count no
/// allocation, whichever threads they are by, whatever returns and stocking go
/// on meanwhile, and whether or not there is a cap.
pub proof fn law_racing_leases_share_the_reserve<T>(start: Traffic<T>, moves: Seq<Move<T>>)
    requires
        start.is_fresh(),
        start.allows_all(moves),
        drains_nothing(moves),
    ensures
        ({
            let end = start.after_all(moves);
            let kept = start.state.reserve.len();
            &&& leases(end.tasks) <= kept ==> unserved_leases(end.tasks) == 0
            &&& leases(end.tasks) <= kept ==> forall|k: int|
                0 <= k < end.tasks.len() ==> !(#[trigger] end.tasks[k]).is_unserved_lease()
            &&& leases(end.tasks) > kept ==> unserved_leases(end.tasks) <= leases(end.tasks) - kept
            &&& leases(end.tasks) <= kept && stocked(moves) == 0 ==> end.state.stats.allocations
                == start.state.stats.allocations
        }),
{
    let end = start.after_all(moves);
    lemma_reserve_serves(start, moves);
    lemma_served_bound(end.tasks);
    if leases(end.tasks) <= start.state.reserve.len() {
        assert forall|k: int| 0 <= k < end.tasks.len() implies !(
        #[trigger] end.tasks[k]).is_unserved_lease() by {
            if end.tasks[k].is_unserved_lease() {
                lemma_unserved_member(end.tasks, k);
            }
        }
    }
}

/// A lease that no other operation comes between takes out the buffer that the
/// piles offer to the thread and changes the pool as a whole lease does.
pub proof fn law_uninterrupted_lease<T>(traffic: Traffic<T>, k: int, tid: usize)
    requires
        traffic.state.wf(),
        traffic.state.shards.len() <= usize::MAX,
        0 <= k < traffic.tasks.len(),
        traffic.tasks[k] == (Task::<T>::Lease {
            lease: LeaseStep::CountLease { index: traffic.state.shard_of(tid) as usize },
        }),
    ensures
        ({
            let found = traffic.state.offer(tid);
            traffic.finished(k) == (Traffic {
                state: traffic.state.lease(tid),
                parked: if traffic.state.capped() && found is Some {
                    traffic.parked - 1
                } else {
                    traffic.parked
                },
                tasks: traffic.tasks.update(k, Task::Lease { lease: LeaseStep::Done { found } }),
            })
        }),
{
    reveal_with_fuel(Traffic::finished, 6);
    let state = traffic.state;
    let index = state.shard_of(tid) as usize;
    let found = state.offer(tid);
    let counted = traffic.step(k);
    let popped = counted.step(k);
    if state.pile(tid).len() > 0 {
        assert(popped.finished(k).tasks == traffic.tasks.update(
            k,
            Task::Lease { lease: LeaseStep::Done { found } },
        ));
    } else {
        assert(state.shards.update(index as int, state.pile(tid)) == state.shards);
        assert(popped.step(k).finished(k).tasks == traffic.tasks.update(
            k,
            Task::Lease { lease: LeaseStep::Done { found } },
        ));
    }
    assert(traffic.finished(k).state == state.lease(tid));
}

/// A return that no other operation comes between, in a pool whose parked count
/// is exact, parks the buffer where the cap leaves room and changes the pool as
/// a whole return does.
pub proof fn law_uninterrupted_return<T>(traffic: Traffic<T>, k: int, tid: usize, buffer: T)
    requires
        traffic.state.wf(),
        traffic.state.shards.len() <= usize::MAX,
        traffic.state.capped() ==> traffic.parked == traffic.state.idle(),
        0 <= k < traffic.tasks.len(),
        traffic.tasks[k] == (Task::<T>::Return {
            back: ReturnStep::toward(
                Place::Shard { index: traffic.state.shard_of(tid) as usize },
                buffer,
                traffic.state.capped(),
            ),
        }),
    ensures
        ({
            let kept = traffic.state.has_room();
            traffic.finished(k) == (Traffic {
                state: traffic.state.recycle(tid, buffer),
                parked: if traffic.state.capped() && kept {
                    traffic.parked + 1
                } else {
                    traffic.parked
                },
                tasks: traffic.tasks.update(
                    k,
                    Task::Return {
                        back: ReturnStep::Done {
                            excess: if kept {
                                None
                            } else {
                                Some(buffer)
                            },
                        },
                    },
                ),
            })
        }),
{
    reveal_with_fuel(Traffic::finished, 4);
    let done = Task::Return {
        back: ReturnStep::Done {
            excess: if traffic.state.has_room() {
                None
            } else {
                Some(buffer)
            },
        },
    };
    assert(traffic.finished(k).tasks == traffic.tasks.update(k, done));
}

/// The return of a buffer to the reserve with no other operation in between.
pub(crate) proof fn lemma_uninterrupted_return_to_reserve<T>(
    traffic: Traffic<T>,
    k: int,
    buffer: T,
)
    requires
        traffic.state.wf(),
        traffic.state.shards.len() <= usize::MAX,
        traffic.state.capped() ==> traffic.parked == traffic.state.idle(),
        0 <= k < traffic.tasks.len(),
        traffic.tasks[k] == (Task::<T>::Return {
            back: ReturnStep::toward(Place::Reserve, buffer, traffic.state.capped()),
        }),
    ensures
        ({
            let kept = traffic.state.has_room();
            traffic.finished(k) == (Traffic {
                state: traffic.state.stock(buffer),
                parked: if traffic.state.capped() && kept {
                    traffic.parked + 1
                } else {
                    traffic.parked
                },
                tasks: traffic.tasks.update(
                    k,
                    Task::Return {
                        back: ReturnStep::Done {
                            excess: if kept {
                                None
                            } else {
                                Some(buffer)
                            },
                        },
                    },
                ),
            })
        }),
{
    reveal_with_fuel(Traffic::finished, 4);
    let done = Task::Return {
        back: ReturnStep::Done {
            excess: if traffic.state.has_room() {
                None
            } else {
                Some(buffer)
            },
        },
    };
    assert(traffic.finished(k).tasks == traffic.tasks.update(k, done));
}

/// Stocking a fresh buffer with no other operation in between, in a pool whose
/// parked count is exact, changes the pool as stocking it as a whole does. The
/// allocation is counted before the buffer is made.
pub proof fn law_uninterrupted_stock<T>(traffic: Traffic<T>, k: int, buffer: T)
    requires
        traffic.state.wf(),
        traffic.state.shards.len() <= usize::MAX,
        traffic.state.capped() ==> traffic.parked == traffic.state.idle(),
        0 <= k < traffic.tasks.len(),
        traffic.tasks[k] == (Task::<T>::Stock { stock: StockStep::CountAllocation }),
    ensures
        traffic.finished(k).tasks[k].awaits_buffer(),
        traffic.finished(k).state == traffic.state.allocated(),
        ({
            let kept = traffic.state.has_room();
            traffic.finished(k).made(k, buffer).finished(k) == (Traffic {
                state: traffic.state.stock_fresh(buffer),
                parked: if traffic.state.capped() && kept {
                    traffic.parked + 1
                } else {
                    traffic.parked
                },
                tasks: traffic.tasks.update(
                    k,
                    Task::Return {
                        back: ReturnStep::Done {
                            excess: if kept {
                                None
                            } else {
                                Some(buffer)
                            },
                        },
                    },
                ),
            })
        }),
{
    reveal_with_fuel(Traffic::finished, 3);
    let counted = traffic.finished(k);
    assert(counted.state.idle_buffers() == traffic.state.idle_buffers());
    lemma_uninterrupted_return_to_reserve(counted.made(k, buffer), k, buffer);
    let done = Task::Return {
        back: ReturnStep::Done {
            excess: if traffic.state.has_room() {
                None
            } else {
                Some(buffer)
            },
        },
    };
    assert(counted.made(k, buffer).tasks.update(k, done) == traffic.tasks.update(k, done));
}

/// The piles of `state` that a sweep comes to before position `n` are empty.
spec fn swept_to<T>(state: PoolState<T>, n: int) -> PoolState<T> {
    PoolState {
        shards: Seq::new(
            state.shards.len(),
            |i: int|
                if i < n {
                    Seq::empty()
                } else {
                    state.shards[i]
                },
        ),
        reserve: if state.shards.len() < n {
            Seq::empty()
        } else {
            state.reserve
        },
        ..state
    }
}

proof fn lemma_drain_goes_on<T>(start: PoolState<T>, traffic: Traffic<T>, k: int, place: Place)
    requires
        start.wf(),
        start.shards.len() <= usize::MAX,
        0 <= k < traffic.tasks.len(),
        place.is_in(start.shards.len() as int),
        ({
            let n = place.position(start.shards.len() as int);
            &&& traffic.state == swept_to(start, n)
            &&& traffic.tasks[k] == (Task::Drain {
                drain: DrainStep::Take { place },
                drained: start.shards.take(n).flatten(),
            })
        }),
    ensures
        traffic.finished(k) == (Traffic {
            state: start.drained(),
            parked: if start.capped() {
                traffic.parked - start.idle()
            } else {
                traffic.parked
            },
            tasks: traffic.tasks.update(
                k,
                Task::Drain { drain: DrainStep::Done, drained: start.idle_buffers() },
            ),
        }),
    decreases traffic.tasks[k].steps_left(start.shards.len()),
{
    let shards = start.shards.len() as int;
    let n = place.position(shards);
    let next = traffic.step(k);
    assert(traffic.finished(k) == next.finished(k));
    match place {
        Place::Shard { index } => {
            crate::inner::lemma_flatten_take(start.shards, n);
            assert(traffic.state.shards[n] == start.shards[n]);
            assert(next.state == swept_to(start, n + 1));
            let then = place.successor(shards).unwrap();
            lemma_drain_goes_on(start, next, k, then);
            assert(next.finished(k).tasks == traffic.tasks.update(
                k,
                Task::Drain { drain: DrainStep::Done, drained: start.idle_buffers() },
            ));
        },
        Place::Reserve => {
            reveal_with_fuel(Traffic::finished, 3);
            assert(start.shards.take(shards) == start.shards);
            assert(next.state == start.drained());
            assert(traffic.finished(k).tasks == traffic.tasks.update(
                k,
                Task::Drain { drain: DrainStep::Done, drained: start.idle_buffers() },
            ));
        },
    }
}

/// A drain that no other operation comes between gathers every idle buffer,
/// pile by pile, and leaves every pile empty.
pub proof fn law_uninterrupted_drain<T>(traffic: Traffic<T>, k: int)
    requires
        traffic.state.wf(),
        traffic.state.shards.len() <= usize::MAX,
        0 <= k < traffic.tasks.len(),
        traffic.tasks[k] == (Task::<T>::Drain {
            drain: DrainStep::Take { place: Place::Shard { index: 0 } },
            drained: Seq::empty(),
        }),
    ensures
        traffic.finished(k) == (Traffic {
            state: traffic.state.drained(),
            parked: if traffic.state.capped() {
                traffic.parked - traffic.state.idle()
            } else {
                traffic.parked
            },
            tasks: traffic.tasks.update(
                k,
                Task::Drain { drain: DrainStep::Done, drained: traffic.state.idle_buffers() },
            ),
        }),
{
    let state = traffic.state;
    assert(state.shards.take(0).flatten() == Seq::<T>::empty());
    assert(state.shards == swept_to(state, 0).shards);
    lemma_drain_goes_on(state, traffic, k, Place::Shard { index: 0 });
}

} // verus!
