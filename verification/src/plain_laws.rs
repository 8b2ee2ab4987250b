//! What each operation does, spelled out in piles, slots and numbers.
//!
//! The contracts of the pools name the states that their operations lead to.
//! The laws here say of each named state what is in it, field by field, without
//! the names: which pile a thread uses, which buffer a lease gets, when a return
//! is kept, what a cap bounds, what a sweep drops.

use crate::buffer::BufferPool;
use crate::hooks::Initializer;
use crate::inner::PoolState;
use crate::local::ThreadLocalPool;
use crate::registry::{Lives, Registry, RegistryState};
use crate::stats::PoolStats;
use vstd::arithmetic::power2::*;
use vstd::prelude::*;

verus! {

/// Threads go round the piles: the pile of thread `tid` among `n` piles is the
/// one at the remainder of `tid` on division by `n`.
pub proof fn law_threads_go_round_the_piles<T>(state: PoolState<T>, tid: usize)
    requires
        state.shards.len() > 0,
    ensures
        state.shard_of(tid) == tid as int % state.shards.len() as int,
        0 <= state.shard_of(tid) < state.shards.len(),
        state.pile(tid) == state.shards[tid as int % state.shards.len() as int],
{
    if tid < state.shards.len() {
        vstd::arithmetic::div_mod::lemma_small_mod(tid as nat, state.shards.len());
    }
}

/// A counter goes up by one for each event, and starts again at zero beyond the
/// end of its range.
pub proof fn law_counters_count(stats: PoolStats, n: usize)
    ensures
        stats.leases < usize::MAX ==> crate::stats::bumped(stats.leases) == stats.leases + 1,
        crate::stats::bumped(usize::MAX) == 0,
        stats.leases + n <= usize::MAX ==> crate::stats::bumped_by(stats.leases, n) == stats.leases
            + n,
        stats.leases + n > usize::MAX ==> crate::stats::bumped_by(stats.leases, n) == stats.leases
            + n - usize::MAX - 1,
        stats.leases < usize::MAX ==> stats.leased(true).leases == stats.leases + 1,
        stats.leases < usize::MAX ==> stats.leased(false).leases == stats.leases + 1,
        stats.allocations < usize::MAX ==> stats.leased(true).allocations == stats.allocations + 1,
        stats.leased(false).allocations == stats.allocations,
{
}

/// The idle buffers are those of the shards, one shard after the other, and then
/// those of the reserve, and there are as many as the piles hold.
pub proof fn law_idle_buffers_spelled_out<T>(state: PoolState<T>)
    ensures
        state.idle_buffers() == state.shards.flatten() + state.reserve,
        state.idle() == state.shards.flatten().len() + state.reserve.len(),
{
}

/// A lease gets the buffer parked last in its own pile, else the one stocked
/// last in the reserve, else none; that buffer leaves its pile and nothing else
/// changes but the counters, of which the allocations go up exactly where both
/// piles were empty.
pub proof fn law_lease_spelled_out<T>(state: PoolState<T>, tid: usize)
    requires
        state.shards.len() > 0,
    ensures
        ({
            let i = tid as int % state.shards.len() as int;
            let own = state.shards[i];
            let reserve = state.reserve;
            let next = state.lease(tid);
            &&& own.len() > 0 ==> {
                &&& state.offer(tid) == Some(own[own.len() - 1])
                &&& next.shards == state.shards.update(i, own.take(own.len() - 1))
                &&& next.reserve == reserve
                &&& next.stats.allocations == state.stats.allocations
            }
            &&& own.len() == 0 && reserve.len() > 0 ==> {
                &&& state.offer(tid) == Some(reserve[reserve.len() - 1])
                &&& next.shards == state.shards
                &&& next.reserve == reserve.take(reserve.len() - 1)
                &&& next.stats.allocations == state.stats.allocations
            }
            &&& own.len() == 0 && reserve.len() == 0 ==> {
                &&& state.offer(tid) is None
                &&& next.shards == state.shards
                &&& next.reserve == reserve
                &&& state.stats.allocations < usize::MAX ==> next.stats.allocations
                    == state.stats.allocations + 1
                &&& state.stats.allocations == usize::MAX ==> next.stats.allocations == 0
            }
            &&& state.stats.leases < usize::MAX ==> next.stats.leases == state.stats.leases + 1
            &&& state.stats.leases == usize::MAX ==> next.stats.leases == 0
            &&& next.max_idle == state.max_idle
        }),
{
    law_threads_go_round_the_piles(state, tid);
    let own = state.pile(tid);
    assert(own.len() > 0 ==> own.drop_last() == own.take(own.len() - 1));
    assert(state.reserve.len() > 0 ==> state.reserve.drop_last() == state.reserve.take(
        state.reserve.len() - 1,
    ));
}

/// A returned buffer goes on top of the pile of the returning thread, and a
/// stocked one on top of the reserve, where there is no cap or fewer buffers are
/// idle than it allows; otherwise the buffer is gone and nothing changes.
pub proof fn law_return_spelled_out<T>(state: PoolState<T>, tid: usize, buffer: T)
    requires
        state.shards.len() > 0,
    ensures
        ({
            let i = tid as int % state.shards.len() as int;
            let room = state.max_idle == usize::MAX || state.shards.flatten().len()
                + state.reserve.len() < state.max_idle;
            &&& state.has_room() == room
            &&& room ==> {
                &&& state.recycle(tid, buffer).shards == state.shards.update(
                    i,
                    state.shards[i].push(buffer),
                )
                &&& state.recycle(tid, buffer).reserve == state.reserve
                &&& state.stock(buffer).shards == state.shards
                &&& state.stock(buffer).reserve == state.reserve.push(buffer)
            }
            &&& !room ==> {
                &&& state.recycle(tid, buffer).shards == state.shards
                &&& state.recycle(tid, buffer).reserve == state.reserve
                &&& state.stock(buffer).shards == state.shards
                &&& state.stock(buffer).reserve == state.reserve
            }
            &&& state.recycle(tid, buffer).max_idle == state.max_idle
            &&& state.recycle(tid, buffer).stats == state.stats
            &&& state.stock(buffer).max_idle == state.max_idle
            &&& state.stock(buffer).stats == state.stats
            &&& state.idle_after_return() == state.shards.flatten().len() + state.reserve.len()
                + if room {
                1int
            } else {
                0
            }
        }),
{
    law_threads_go_round_the_piles(state, tid);
}

/// To count an allocation changes the allocation counter and nothing else, and
/// a fresh buffer that is stocked is counted and then stocked.
pub proof fn law_allocation_spelled_out<T>(state: PoolState<T>, buffer: T)
    ensures
        state.allocated().shards == state.shards,
        state.allocated().reserve == state.reserve,
        state.allocated().max_idle == state.max_idle,
        state.allocated().stats.leases == state.stats.leases,
        state.stats.allocations < usize::MAX ==> state.allocated().stats.allocations
            == state.stats.allocations + 1,
        state.stats.allocations == usize::MAX ==> state.allocated().stats.allocations == 0,
        ({
            let room = state.max_idle == usize::MAX || state.shards.flatten().len()
                + state.reserve.len() < state.max_idle;
            state.stock_fresh(buffer) == (PoolState {
                reserve: if room {
                    state.reserve.push(buffer)
                } else {
                    state.reserve
                },
                ..state.allocated()
            })
        }),
{
    assert(state.allocated().idle_buffers() == state.idle_buffers());
}

/// Of `n` buffers stocked in advance the first ones go on the reserve in order:
/// all of them where there is no cap or it allows them all, and otherwise as many
/// as it still allows. All `n` are counted as allocations, and no shard changes.
pub proof fn law_stocking_spelled_out<T>(state: PoolState<T>, buffers: Seq<T>)
    requires
        buffers.len() <= usize::MAX,
    ensures
        ({
            let idle = (state.shards.flatten().len() + state.reserve.len()) as int;
            let n = buffers.len() as int;
            let kept = if state.max_idle == usize::MAX || idle + n <= state.max_idle {
                n
            } else if idle < state.max_idle {
                state.max_idle - idle
            } else {
                0
            };
            let next = state.stock_all(buffers);
            &&& next.reserve == state.reserve + buffers.take(kept)
            &&& next.shards == state.shards
            &&& next.max_idle == state.max_idle
            &&& next.stats.leases == state.stats.leases
            &&& state.stats.allocations + n <= usize::MAX ==> next.stats.allocations
                == state.stats.allocations + n
            &&& state.stats.allocations + n > usize::MAX ==> next.stats.allocations
                == state.stats.allocations + n - usize::MAX - 1
            &&& state.idle_after_stock(buffers.len()) == idle + kept
        }),
{
}

/// A cap is installed exactly where the number given is not `usize::MAX`, and to
/// install one moves no buffer: every shard and the reserve hold what they held,
/// the counters stay, and every thread is offered what it was offered before.
pub proof fn law_cap_moves_nothing<T>(state: PoolState<T>, max_idle: usize, tid: usize)
    requires
        state.shards.len() > 0,
    ensures
        state.cap(max_idle).shards == state.shards,
        state.cap(max_idle).reserve == state.reserve,
        state.cap(max_idle).stats == state.stats,
        state.cap(max_idle).max_idle == max_idle,
        state.cap(max_idle).offer(tid) == state.offer(tid),
        state.cap(max_idle).capped() <==> max_idle != usize::MAX,
        state.capped() <==> state.max_idle != usize::MAX,
{
}

/// Every cap bounds the pool, whatever its number: once `max_idle`, any number
/// but `usize::MAX`, is installed, no return, no stocking of one buffer or of
/// many, no lease and no drain takes the number of buffers in the piles above it,
/// or above what was there when that was more.
pub proof fn law_every_cap_bounds_the_pool<T>(
    state: PoolState<T>,
    max_idle: usize,
    tid: usize,
    buffer: T,
    buffers: Seq<T>,
)
    requires
        state.shards.len() > 0,
        max_idle != usize::MAX,
    ensures
        ({
            let capped = state.cap(max_idle);
            let before = state.shards.flatten().len() + state.reserve.len();
            let bound = if before < max_idle {
                max_idle as int
            } else {
                before as int
            };
            let returned = capped.recycle(tid, buffer);
            let stocked = capped.stock(buffer);
            let fresh = capped.stock_fresh(buffer);
            let filled = capped.stock_all(buffers);
            let leased = capped.lease(tid);
            let drained = capped.drained();
            &&& returned.shards.flatten().len() + returned.reserve.len() <= bound
            &&& stocked.shards.flatten().len() + stocked.reserve.len() <= bound
            &&& fresh.shards.flatten().len() + fresh.reserve.len() <= bound
            &&& filled.shards.flatten().len() + filled.reserve.len() <= bound
            &&& leased.shards.flatten().len() + leased.reserve.len() <= bound
            &&& drained.shards.flatten().len() + drained.reserve.len() == 0
        }),
{
    let capped = state.cap(max_idle);
    crate::shared_laws::law_cap_is_global(capped, tid, buffer);
    crate::inner::lemma_stock_all_idle(capped, buffers);
    crate::inner::lemma_drained_is_empty(capped);
    assert(capped.stock(buffer).idle() <= capped.idle_after_return());
}

/// Without a cap every return is kept: the pile of the returning thread has the
/// buffer on top, whatever the pool holds already.
pub proof fn law_no_cap_keeps_every_return<T>(state: PoolState<T>, tid: usize, buffer: T)
    requires
        state.shards.len() > 0,
        state.max_idle == usize::MAX,
    ensures
        ({
            let i = tid as int % state.shards.len() as int;
            let next = state.recycle(tid, buffer);
            &&& next.shards[i] == state.shards[i].push(buffer)
            &&& next.shards.flatten().len() == state.shards.flatten().len() + 1
            &&& next.max_idle == usize::MAX
        }),
{
    law_return_spelled_out(state, tid, buffer);
    crate::shared_laws::law_return_adds_one(state, tid, buffer);
}

/// A drain leaves as many piles as there were, all of them empty, and neither
/// the cap nor the counters change.
pub proof fn law_drain_spelled_out<T>(state: PoolState<T>)
    ensures
        state.drained().shards.len() == state.shards.len(),
        forall|i: int|
            0 <= i < state.shards.len() ==> (#[trigger] state.drained().shards[i]).len() == 0,
        state.drained().reserve.len() == 0,
        state.drained().max_idle == state.max_idle,
        state.drained().stats == state.stats,
{
}

/// A new pool holds nothing, has done nothing and has no cap, on every machine,
/// and keeps what is returned to it. It has a power of two of piles, the least
/// that is neither below 128 nor below the parallelism of the machine.
pub proof fn law_new_pools_spelled_out<T>(
    state: PoolState<T>,
    parallelism: Option<usize>,
    tid: usize,
    buffer: T,
)
    requires
        crate::inner::is_fresh_state(state, parallelism),
    ensures
        state.max_idle == usize::MAX,
        state.stats.leases == 0,
        state.stats.allocations == 0,
        state.reserve.len() == 0,
        state.shards.flatten().len() == 0,
        forall|i: int| 0 <= i < state.shards.len() ==> (#[trigger] state.shards[i]).len() == 0,
        is_pow2(state.shards.len() as int),
        state.shards.len() >= 128,
        parallelism matches Some(n) ==> state.shards.len() >= n,
        forall|p: int| #[trigger]
            is_pow2(p) && p >= 128 && (parallelism matches Some(n) ==> p >= n)
                ==> state.shards.len() <= p,
        state.offer(tid) is None,
        state.recycle(tid, buffer).offer(tid) == Some(buffer),
{
    reveal_with_fuel(is_pow2, 8);
    crate::inner::lemma_flatten_empty(state.shards);
    law_lease_spelled_out(state, tid);
    law_return_spelled_out(state, tid, buffer);
    crate::shared_laws::law_return_then_lease(state, tid, buffer);
}

/// A closure runs as an initializer exactly where it may be called, and makes
/// what a call returns.
pub proof fn law_closures_run_as_they_are_called<T, F: Fn() -> T>(init: F, made: T)
    ensures
        init.can_run(()) <==> call_requires(init, ()),
        init.runs((), (), made) <==> call_ensures(init, (), made),
{
}

/// The initializer of a pool may run exactly where it may be called, its hook
/// exactly where it may be called on the buffer, and where there is no hook
/// nothing stands in the way of a return.
pub proof fn law_user_code_may_run_where_it_may_be_called<T, I: Fn() -> T, R: Fn(&mut T)>(
    pool: BufferPool<I, R>,
    local: ThreadLocalPool<I, R>,
    buffer: T,
)
    ensures
        pool.can_init() <==> call_requires(pool.init(), ()),
        local.can_init() <==> call_requires(local.init(), ()),
        local.reset() is None ==> local.can_reset(buffer),
        local.reset() matches Some(reset) ==> (local.can_reset(buffer) <==> forall|m: &mut T|
            *m == buffer ==> #[trigger] call_requires(reset, (m,))),
        pool.reset() is None ==> pool.can_reset(buffer),
        pool.reset() matches Some(reset) ==> (pool.can_reset(buffer) <==> forall|m: &mut T|
            *m == buffer ==> #[trigger] call_requires(reset, (m,))),
{
}

/// What a pool is said to make, its initializer makes, buffer by buffer, and in
/// one run for each: whatever counts the runs has gone up by as many as there are
/// buffers.
pub proof fn law_one_run_for_each_buffer<
    T,
    S,
    I: Initializer<Buffer = T, State = S>,
    R: Fn(&mut T),
>(pool: BufferPool<I, R>, states: Seq<S>, buffers: Seq<T>, gauge: spec_fn(S) -> int)
    requires
        pool.makes(states, buffers),
        forall|before: S, after: S, made: T| #[trigger]
            pool.init().runs(before, after, made) ==> gauge(after) == gauge(before) + 1,
    ensures
        states.len() == buffers.len() + 1,
        forall|i: int|
            0 <= i < buffers.len() ==> pool.init().runs(
                states[i],
                states[i + 1],
                #[trigger] buffers[i],
            ),
        gauge(states[buffers.len() as int]) == gauge(states[0]) + buffers.len(),
    decreases buffers.len(),
{
    if buffers.len() > 0 {
        let (fewer, last) = (buffers.drop_last(), buffers.len() - 1);
        assert forall|i: int| 0 <= i < fewer.len() implies pool.init().runs(
            states.drop_last()[i],
            states.drop_last()[i + 1],
            #[trigger] fewer[i],
        ) by {
            assert(fewer[i] == buffers[i]);
        }
        law_one_run_for_each_buffer(pool, states.drop_last(), fewer, gauge);
        assert(pool.init().runs(states[last], states[last + 1], buffers[last]));
    }
}

/// The state of a registry is in order exactly where every slot follows a pool
/// that was made, a slot with a buffer follows the pool of its own number, and a
/// registry that was swept since the last pool went has no buffer of a pool that
/// is gone.
pub proof fn law_registry_order_spelled_out<B>(registry: RegistryState<B>, live: Seq<bool>)
    ensures
        registry.wf(live) <==> {
            &&& registry.slots.len() <= live.len()
            &&& forall|i: int|
                0 <= i < registry.slots.len() ==> (#[trigger] registry.slots[i]).live < live.len()
            &&& forall|i: int|
                0 <= i < registry.slots.len() && (#[trigger] registry.slots[i]).buf is Some
                    ==> registry.slots[i].live == i
            &&& registry.seen_epoch <= live.filter(|alive: bool| !alive).len()
            &&& registry.seen_epoch == live.filter(|alive: bool| !alive).len() ==> forall|i: int|
                0 <= i < registry.slots.len() && (#[trigger] registry.slots[i]).buf is Some
                    ==> live[i]
        },
{
    law_epoch_counts_the_gone(live);
}

/// The epoch is the number of pools that are gone.
pub proof fn law_epoch_counts_the_gone(live: Seq<bool>)
    ensures
        crate::registry::dead(live) == live.filter(|alive: bool| !alive).len(),
    decreases live.len(),
{
    reveal(Seq::filter);
    if live.len() > 0 {
        law_epoch_counts_the_gone(live.drop_last());
    }
}

/// What is parked for a pool is what is in the slot of its number.
pub proof fn law_parked_spelled_out<B>(registry: RegistryState<B>, id: int)
    ensures
        0 <= id < registry.slots.len() ==> registry.parked(id) == registry.slots[id].buf,
        !(0 <= id < registry.slots.len()) ==> registry.parked(id) is None,
{
}

/// A sweep leaves as many slots as there were, and in each the buffer that was
/// there, unless its pool is gone: then the slot is empty.
pub proof fn law_sweep_spelled_out<B>(registry: RegistryState<B>, live: Seq<bool>, i: int)
    requires
        registry.wf(live),
        0 <= i < registry.slots.len(),
    ensures
        registry.swept(live).slots.len() == registry.slots.len(),
        registry.swept(live).slots[i].live == registry.slots[i].live,
        live[i] ==> registry.swept(live).slots[i].buf == registry.slots[i].buf,
        !live[i] ==> registry.swept(live).slots[i].buf is None,
        registry.swept(live).seen_epoch == live.filter(|alive: bool| !alive).len(),
{
    law_epoch_counts_the_gone(live);
    crate::local_laws::law_sweep_spares_the_living(registry, live, i);
    assert(registry.slots[i].live < live.len());
}

/// Parking in the slot of pool `id`, or emptying it, puts just that into the slot
/// of that number. Every other slot is as it was, and slots that had to be made
/// to reach it are empty.
pub proof fn law_hold_spelled_out<B>(registry: RegistryState<B>, id: usize, buf: Option<B>, i: int)
    ensures
        ({
            let next = registry.hold(id, buf);
            let len = registry.slots.len() as int;
            &&& next.slots.len() == if id < len {
                len
            } else {
                id + 1
            }
            &&& next.slots[id as int].buf == buf
            &&& next.slots[id as int].live == id
            &&& 0 <= i < len && i != id ==> next.slots[i] == registry.slots[i]
            &&& len <= i < id ==> next.slots[i].buf is None && next.slots[i].live == id
            &&& next.seen_epoch == registry.seen_epoch
        }),
{
}

/// Taking the buffer out of the slot of pool `id` empties that slot, where there
/// is one, and changes nothing else.
pub proof fn law_without_spelled_out<B>(registry: RegistryState<B>, id: usize, i: int)
    ensures
        ({
            let next = registry.without(id);
            &&& next.slots.len() == registry.slots.len()
            &&& id < registry.slots.len() ==> next.slots[id as int].buf is None
                && next.slots[id as int].live == registry.slots[id as int].live
            &&& 0 <= i < registry.slots.len() && i != id ==> next.slots[i] == registry.slots[i]
            &&& next.seen_epoch == registry.seen_epoch
        }),
{
}

/// What a live pool leases, drains or counts on a thread is what is in the
/// thread's slot of its number, whatever other pools have gone.
pub proof fn law_live_pools_find_what_is_parked<
    T,
    S,
    I: Initializer<Buffer = T, State = S>,
    R: Fn(&mut T),
>(pool: ThreadLocalPool<I, R>, registry: Registry<T, S>, lives: Lives)
    requires
        registry@.wf(lives@),
        pool.id() < lives@.len(),
        lives@[pool.id() as int],
    ensures
        pool.offer(registry, lives) == if pool.id() < registry@.slots.len() {
            registry@.slots[pool.id() as int].buf
        } else {
            None
        },
        lives.is_live(pool.id()),
{
    crate::local_laws::law_sweep_spares_the_living(registry@, lives@, pool.id() as int);
}

/// What a thread parked last for a pool is what its next lease gets, whichever
/// pools were made or went in between, as long as the pool itself is alive.
pub proof fn law_parked_buffers_wait<B>(
    registry: RegistryState<B>,
    live: Seq<bool>,
    later: Seq<bool>,
    id: usize,
    buffer: B,
)
    requires
        registry.wf(live),
        id < live.len() <= later.len(),
        live[id as int],
        later[id as int],
        forall|i: int| 0 <= i < live.len() && #[trigger] later[i] ==> live[i],
    ensures
        ({
            let parked = registry.swept(live).hold(id, Some(buffer));
            &&& parked.wf(later)
            &&& id < parked.swept(later).slots.len()
            &&& parked.swept(later).slots[id as int].buf == Some(buffer)
        }),
{
    crate::local_laws::law_park_then_lease(registry, live, id, buffer);
    let parked = registry.swept(live).hold(id, Some(buffer));
    lemma_dead_grows(live, later);
    crate::local_laws::law_sweep_spares_the_living(parked, later, id as int);
}

/// As pools go and others are made, the number of those that are gone does not
/// fall, and stays the same only where none went.
proof fn lemma_dead_grows(live: Seq<bool>, later: Seq<bool>)
    requires
        live.len() <= later.len(),
        forall|i: int| 0 <= i < live.len() && #[trigger] later[i] ==> live[i],
    ensures
        crate::registry::dead(live) <= crate::registry::dead(later),
        crate::registry::dead(live) == crate::registry::dead(later) ==> forall|i: int|
            0 <= i < live.len() && #[trigger] live[i] ==> later[i],
    decreases later.len(),
{
    if later.len() > live.len() {
        lemma_dead_grows(live, later.drop_last());
        assert forall|i: int|
            0 <= i < live.len() && #[trigger] live[i] && crate::registry::dead(live)
                == crate::registry::dead(later) implies later[i] by {
            assert(later.drop_last()[i] == later[i]);
        }
    } else if later.len() > 0 {
        assert forall|i: int| 0 <= i < live.len() - 1 && #[trigger] later.drop_last()[i] implies
            live.drop_last()[i] by {
            assert(later[i]);
        }
        lemma_dead_grows(live.drop_last(), later.drop_last());
        assert(later[later.len() - 1] ==> live[live.len() - 1]);
        assert forall|i: int|
            0 <= i < live.len() && #[trigger] live[i] && crate::registry::dead(live)
                == crate::registry::dead(later) implies later[i] by {
            if i < live.len() - 1 {
                assert(live.drop_last()[i]);
                assert(later.drop_last()[i]);
            }
        }
    }
}

} // verus!
