//! What holds of a shared pool over several operations.
//!
//! The laws speak of [`PoolState`], by which the operations of
//! [`BufferPool`](crate::BufferPool) say what they return and change.

use crate::inner::PoolState;
use crate::stats::PoolStats;
use crate::steps::Place;
use vstd::multiset::Multiset;
use vstd::prelude::*;

verus! {

/// Contents survive the round trip: a buffer that a thread returns, room
/// permitting, is the one that its next lease gets, and the piles are then as
/// they were before the return.
pub proof fn law_return_then_lease<T>(state: PoolState<T>, tid: usize, buffer: T)
    requires
        state.wf(),
        state.has_room(),
    ensures
        state.recycle(tid, buffer).offer(tid) == Some(buffer),
        state.recycle(tid, buffer).lease(tid) == (PoolState {
            stats: state.stats.leased(false),
            ..state
        }),
{
    let after = state.recycle(tid, buffer);
    assert(after.pile(tid).drop_last() == state.pile(tid));
    assert(after.lease(tid).shards == state.shards);
}

/// A lease from the thread's own pile that is returned unchanged leaves the
/// piles as they were, in a pool that is within its cap.
pub proof fn law_lease_then_return<T>(state: PoolState<T>, tid: usize)
    requires
        state.wf(),
        state.pile(tid).len() > 0,
        state.capped() ==> state.idle() <= state.max_idle,
    ensures
        state.lease(tid).recycle(tid, state.offer(tid).unwrap()) == (PoolState {
            stats: state.stats.leased(false),
            ..state
        }),
{
    let leased = state.lease(tid);
    law_lease_takes_one(state, tid);
    assert(leased.pile(tid).push(state.pile(tid).last()) == state.pile(tid));
    assert(leased.recycle(tid, state.pile(tid).last()).shards == state.shards);
}

/// Without a cap every return is kept; with one, a pool that has reached it
/// drops the return and is left as it was.
pub proof fn law_cap_decides<T>(state: PoolState<T>, tid: usize, buffer: T)
    requires
        state.wf(),
    ensures
        !state.capped() ==> state.recycle(tid, buffer).pile(tid) == state.pile(tid).push(buffer),
        state.capped() && state.idle() >= state.max_idle ==> state.recycle(tid, buffer) == state
            && state.stock(buffer) == state,
{
}

/// A lease takes one idle buffer out where it is offered one, and leaves the
/// piles alone otherwise.
pub proof fn law_lease_takes_one<T>(state: PoolState<T>, tid: usize)
    requires
        state.wf(),
    ensures
        state.offer(tid) is Some ==> state.idle() > 0 && state.lease(tid).idle() == state.idle()
            - 1,
        state.offer(tid) is None ==> state.lease(tid).idle_buffers() == state.idle_buffers(),
{
    assert(state.lease(tid).idle_buffers() == state.without_offer(tid).idle_buffers());
    if state.pile(tid).len() > 0 {
        crate::inner::lemma_idle_with_pile(state, tid, state.pile(tid).drop_last());
        crate::inner::lemma_flatten_split(state.shards, state.shard_of(tid));
    }
}

/// A return adds one idle buffer where the cap leaves room for it, and so does
/// stocking one in advance.
pub proof fn law_return_adds_one<T>(state: PoolState<T>, tid: usize, buffer: T)
    requires
        state.wf(),
    ensures
        state.recycle(tid, buffer).idle() == state.idle_after_return(),
        state.stock_fresh(buffer).idle() == state.idle_after_return(),
{
    crate::inner::lemma_idle_with_pile(state, tid, state.pile(tid).push(buffer));
}

/// The cap bounds the pool as a whole: no operation takes the number of idle
/// buffers, over all piles, above the cap, or further above it where it was
/// above when the cap was installed.
pub proof fn law_cap_is_global<T>(state: PoolState<T>, tid: usize, buffer: T)
    requires
        state.wf(),
        state.capped(),
    ensures
        ({
            let bound = if state.idle() < state.max_idle {
                state.max_idle as int
            } else {
                state.idle() as int
            };
            &&& state.lease(tid).idle() <= bound
            &&& state.recycle(tid, buffer).idle() <= bound
            &&& state.stock_fresh(buffer).idle() <= bound
            &&& state.drained().idle() <= bound
        }),
{
    law_lease_takes_one(state, tid);
    law_return_adds_one(state, tid, buffer);
    crate::inner::lemma_drained_is_empty(state);
}

/// The idle buffers of a pool, without their order.
pub open spec fn idle_set<T>(state: PoolState<T>) -> Multiset<T> {
    state.idle_buffers().to_multiset()
}

/// Changing one pile changes its buffers, and no others.
pub(crate) proof fn lemma_idle_set_with<T>(state: PoolState<T>, place: Place, pile: Seq<T>)
    requires
        place.is_in(state.shards.len() as int),
    ensures
        idle_set(state.with(place, pile)).add(state.at(place).to_multiset()) == idle_set(state).add(
            pile.to_multiset(),
        ),
{
    broadcast use vstd::seq_lib::group_to_multiset_ensures;

    let after = state.with(place, pile);
    match place {
        Place::Shard { index } => {
            let i = index as int;
            crate::inner::lemma_flatten_split(state.shards, i);
            crate::inner::lemma_flatten_split(after.shards, i);
            assert(after.shards.take(i) == state.shards.take(i));
            assert(after.shards.skip(i + 1) == state.shards.skip(i + 1));
            let (head, tail) = (state.shards.take(i).flatten(), state.shards.skip(i + 1).flatten());
            assert(state.idle_buffers() == head + state.at(place) + tail + state.reserve);
            assert(after.idle_buffers() == head + pile + tail + state.reserve);
            lemma_multiset_of_four(head, state.at(place), tail, state.reserve);
            lemma_multiset_of_four(head, pile, tail, state.reserve);
        },
        Place::Reserve => {
            vstd::seq_lib::lemma_multiset_commutative(state.shards.flatten(), state.reserve);
            vstd::seq_lib::lemma_multiset_commutative(state.shards.flatten(), pile);
        },
    }
    assert(idle_set(after).add(state.at(place).to_multiset()) =~= idle_set(state).add(
        pile.to_multiset(),
    ));
}

/// Changing the pile of a thread changes its buffers, and no others.
proof fn lemma_idle_set_with_pile<T>(state: PoolState<T>, tid: usize, pile: Seq<T>)
    requires
        state.wf(),
    ensures
        idle_set(state.with_pile(tid, pile)).add(state.pile(tid).to_multiset()) == idle_set(
            state,
        ).add(pile.to_multiset()),
{
    let place = Place::Shard { index: state.shard_of(tid) as usize };
    lemma_idle_set_with(state, place, pile);
}

proof fn lemma_multiset_of_four<T>(a: Seq<T>, b: Seq<T>, c: Seq<T>, d: Seq<T>)
    ensures
        (a + b + c + d).to_multiset() == a.to_multiset().add(b.to_multiset()).add(
            c.to_multiset(),
        ).add(d.to_multiset()),
{
    vstd::seq_lib::lemma_multiset_commutative(a, b);
    vstd::seq_lib::lemma_multiset_commutative(a + b, c);
    vstd::seq_lib::lemma_multiset_commutative(a + b + c, d);
}

pub(crate) proof fn lemma_cancel<T>(a: Multiset<T>, b: Multiset<T>, p: Multiset<T>, x: T)
    requires
        a.add(p) == b.add(p.insert(x)),
    ensures
        a == b.insert(x),
{
    broadcast use vstd::multiset::group_multiset_axioms;

    assert forall|e: T| a.count(e) == #[trigger] b.insert(x).count(e) by {
        let one = if e == x { 1nat } else { 0 };
        assert(a.add(p).count(e) == a.count(e) + p.count(e));
        assert(b.add(p.insert(x)).count(e) == b.count(e) + p.insert(x).count(e));
        assert(p.insert(x).count(e) == p.count(e) + one);
        assert(b.insert(x).count(e) == b.count(e) + one);
    }
    assert(a =~= b.insert(x));
}

/// No buffer is lost or made up: a lease takes out the buffer that it hands
/// over, a kept return puts in the buffer returned, and nothing else moves.
pub proof fn law_buffers_are_conserved<T>(state: PoolState<T>, tid: usize, buffer: T)
    requires
        state.wf(),
    ensures
        match state.offer(tid) {
            Some(idle) => idle_set(state) == idle_set(state.lease(tid)).insert(idle),
            None => idle_set(state) == idle_set(state.lease(tid)),
        },
        state.has_room() ==> idle_set(state.recycle(tid, buffer)) == idle_set(state).insert(buffer),
        state.has_room() ==> idle_set(state.stock_fresh(buffer)) == idle_set(state).insert(buffer),
{
    broadcast use vstd::seq_lib::group_to_multiset_ensures;

    let leased = state.without_offer(tid);
    assert(state.lease(tid).idle_buffers() == leased.idle_buffers());
    let pile = state.pile(tid);
    if pile.len() > 0 {
        lemma_idle_set_with_pile(state, tid, pile.drop_last());
        assert(pile == pile.drop_last().push(pile.last()));
        lemma_cancel(
            idle_set(state),
            idle_set(leased),
            pile.drop_last().to_multiset(),
            pile.last(),
        );
    } else if state.reserve.len() > 0 {
        let reserve = state.reserve;
        assert(state.idle_buffers() == leased.idle_buffers().push(reserve.last()));
    }
    lemma_idle_set_with_pile(state, tid, pile.push(buffer));
    if state.has_room() {
        lemma_cancel(
            idle_set(state.recycle(tid, buffer)),
            idle_set(state),
            pile.to_multiset(),
            buffer,
        );
        assert(state.stock_fresh(buffer).idle_buffers() == state.idle_buffers().push(buffer));
    }
}

/// A drain leaves nothing behind: no pile holds a buffer, so that every
/// thread's next lease runs the initializer, and a second drain finds nothing.
pub proof fn law_drain_is_complete<T>(state: PoolState<T>, tid: usize)
    requires
        state.wf(),
    ensures
        state.drained().offer(tid) is None,
        state.drained().idle_buffers() == Seq::<T>::empty(),
        state.drained().drained() == state.drained(),
{
    crate::inner::lemma_drained_is_empty(state);
    assert(state.drained().drained().shards == state.drained().shards);
}

/// A buffer parks in the pile of the thread that returns it: threads with
/// different ids, both below the number of shards, have different piles, and
/// what one returns neither shows in the other's pile nor is offered to it.
pub proof fn law_threads_keep_apart<T>(state: PoolState<T>, a: usize, b: usize, buffer: T)
    requires
        state.wf(),
        a != b,
        a < state.shards.len(),
        b < state.shards.len(),
    ensures
        state.shard_of(a) != state.shard_of(b),
        state.recycle(a, buffer).pile(b) == state.pile(b),
        state.recycle(a, buffer).offer(b) == state.offer(b),
{
}

/// The state after leases by `tids`, one after the other.
pub open spec fn lease_all<T>(state: PoolState<T>, tids: Seq<usize>) -> PoolState<T>
    decreases tids.len(),
{
    if tids.len() == 0 {
        state
    } else {
        lease_all(state, tids.drop_last()).lease(tids.last())
    }
}

/// While leases are served from what the piles hold, the reserve shrinks by at
/// most one buffer per lease.
proof fn lemma_lease_all_reserve<T>(state: PoolState<T>, tids: Seq<usize>)
    requires
        state.wf(),
    ensures
        lease_all(state, tids).wf(),
        lease_all(state, tids).reserve.len() >= state.reserve.len() - tids.len(),
    decreases tids.len(),
{
    if tids.len() > 0 {
        lemma_lease_all_reserve(state, tids.drop_last());
    }
}

/// Buffers made in advance are found by whichever threads lease first: in a
/// pool without a cap, as many leases as were stocked, by any threads in any
/// order, all get an idle buffer, and none of them runs the initializer.
pub proof fn law_stock_serves_any_thread<T>(
    state: PoolState<T>,
    buffers: Seq<T>,
    tids: Seq<usize>,
    tid: usize,
)
    requires
        state.wf(),
        !state.capped(),
        tids.len() < buffers.len() <= usize::MAX,
    ensures
        lease_all(state.stock_all(buffers), tids).offer(tid) is Some,
        lease_all(state.stock_all(buffers), tids.push(tid)).stats.allocations == state.stock_all(
            buffers,
        ).stats.allocations,
    decreases tids.len(),
{
    let stocked = state.stock_all(buffers);
    assert(buffers.take(buffers.len() as int) == buffers);
    lemma_lease_all_reserve(stocked, tids);
    assert(tids.push(tid).drop_last() == tids);
    if tids.len() > 0 {
        law_stock_serves_any_thread(state, buffers, tids.drop_last(), tids.last());
        assert(tids.drop_last().push(tids.last()) == tids);
    }
}

/// Stocking in advance is stocking one buffer after the other, and leaves as
/// many idle buffers as the cap has room for.
pub proof fn law_stock_one_by_one<T>(state: PoolState<T>, buffers: Seq<T>, buffer: T)
    requires
        buffers.len() < usize::MAX,
    ensures
        state.stock_all(Seq::empty()) == state,
        state.stock_all(buffers.push(buffer)) == state.stock_all(buffers).stock_fresh(buffer),
        state.stock_all(buffers).idle() == state.idle_after_stock(buffers.len()),
{
    assert(state.stock_all(Seq::empty()).reserve == state.reserve);
    crate::inner::lemma_stock_all_step(state, buffers, buffer);
    crate::inner::lemma_stock_all_idle(state, buffers);
}

/// Every idle buffer satisfies `clean`.
pub open spec fn all_idle<T>(state: PoolState<T>, clean: spec_fn(T) -> bool) -> bool {
    &&& forall|i: int, j: int|
        0 <= i < state.shards.len() && 0 <= j < state.shards[i].len() ==> clean(
            #[trigger] state.shards[i][j],
        )
    &&& forall|j: int| 0 <= j < state.reserve.len() ==> clean(#[trigger] state.reserve[j])
}

/// Leases start from a known state: where every buffer is `clean` when it is
/// parked, as after a reset hook, every recycled buffer is `clean` when it is
/// leased.
pub proof fn law_leases_start_clean<T>(
    state: PoolState<T>,
    clean: spec_fn(T) -> bool,
    tid: usize,
    buffer: T,
)
    requires
        state.wf(),
        all_idle(state, clean),
    ensures
        state.offer(tid) matches Some(idle) ==> clean(idle),
        all_idle(state.lease(tid), clean),
        all_idle(state.drained(), clean),
        clean(buffer) ==> all_idle(state.recycle(tid, buffer), clean),
        clean(buffer) ==> all_idle(state.stock_fresh(buffer), clean),
{
    let i = state.shard_of(tid);
    assert(state.pile(tid) == state.shards[i]);
    if state.pile(tid).len() > 0 {
        assert(clean(state.shards[i][state.pile(tid).len() - 1]));
        let after = state.lease(tid);
        assert forall|k: int, j: int|
            0 <= k < after.shards.len() && 0 <= j < after.shards[k].len() implies clean(
            #[trigger] after.shards[k][j],
        ) by {
            assert(after.shards[k][j] == state.shards[k][j]);
        }
    }
    if clean(buffer) && state.has_room() {
        let after = state.recycle(tid, buffer);
        assert forall|k: int, j: int|
            0 <= k < after.shards.len() && 0 <= j < after.shards[k].len() implies clean(
            #[trigger] after.shards[k][j],
        ) by {
            if k != i || j < state.pile(tid).len() {
                assert(after.shards[k][j] == state.shards[k][j]);
            }
        }
    }
}

} // verus!
