//! What holds of per-thread pools over several operations.
//!
//! The laws speak of [`RegistryState`], by which the operations of
//! [`ThreadLocalPool`](crate::ThreadLocalPool) say what they return and change,
//! and of the table of live pools as a sequence of flags by pool id.

use crate::registry::{RegistryState, Slot};
use crate::stats::PoolStats;
use vstd::prelude::*;

verus! {

/// A sweep drops what is parked for pools that are gone and nothing else: what
/// a thread has parked for a live pool stays, slot by slot.
pub proof fn law_sweep_spares_the_living<B>(registry: RegistryState<B>, live: Seq<bool>, id: int)
    requires
        registry.wf(live),
        0 <= id < live.len(),
    ensures
        registry.swept(live).parked(id) == if live[id] {
            registry.parked(id)
        } else {
            None
        },
        registry.swept(live).slots.len() == registry.slots.len(),
        registry.swept(live).wf(live),
{
    if id < registry.slots.len() {
        assert(registry.slots[id].live < live.len());
    }
    let swept = registry.swept(live);
    if registry.seen_epoch != crate::registry::dead(live) {
        assert forall|i: int|
            0 <= i < swept.slots.len() && (#[trigger] swept.slots[i]).buf is Some implies live[i]
            && swept.slots[i].live == i by {
            assert(registry.slots[i].buf is Some);
        }
        assert forall|i: int| 0 <= i < swept.slots.len() implies (#[trigger] swept.slots[i]).live
            < live.len() by {
            assert(registry.slots[i].live < live.len());
        }
    }
}

/// A second sweep in the same epoch has nothing to do.
pub proof fn law_sweep_once_per_epoch<B>(registry: RegistryState<B>, live: Seq<bool>)
    ensures
        registry.swept(live).swept(live) == registry.swept(live),
{
}

/// Once a pool is gone, the next access of any thread to its registry drops
/// what the thread had parked for it, whichever pool the access is for; what is
/// parked for every other pool is as before.
pub proof fn law_gone_pools_are_reclaimed<B>(
    registry: RegistryState<B>,
    live: Seq<bool>,
    gone: int,
    other: int,
)
    requires
        registry.wf(live),
        0 <= gone < live.len(),
        live[gone],
        0 <= other < live.len(),
        other != gone,
    ensures
        registry.wf(live.update(gone, false)),
        registry.swept(live.update(gone, false)).parked(gone) is None,
        registry.swept(live.update(gone, false)).parked(other) == registry.swept(live).parked(other),
{
    crate::registry::lemma_dead_update(live, gone);
    law_sweep_spares_the_living(registry, live.update(gone, false), gone);
    law_sweep_spares_the_living(registry, live.update(gone, false), other);
    law_sweep_spares_the_living(registry, live, other);
}

/// A new pool disturbs no registry, and no thread has anything parked for it.
pub proof fn law_new_pools_start_empty<B>(registry: RegistryState<B>, live: Seq<bool>)
    requires
        registry.wf(live),
    ensures
        registry.wf(live.push(true)),
        registry.parked(live.len() as int) is None,
        registry.swept(live.push(true)).parked(live.len() as int) is None,
{
    crate::registry::lemma_dead_push(live);
    assert forall|i: int|
        0 <= i < registry.slots.len() && (#[trigger] registry.slots[i]).buf is Some
            && registry.seen_epoch == crate::registry::dead(live) implies live.push(true)[i] by {}
}

/// Contents survive the round trip: what a thread parks for a live pool is what
/// its next lease from that pool gets, and the lease leaves the slot empty, so
/// that a further lease runs the initializer.
pub proof fn law_park_then_lease<B>(
    registry: RegistryState<B>,
    live: Seq<bool>,
    id: usize,
    buffer: B,
)
    requires
        registry.wf(live),
        id < live.len(),
        live[id as int],
    ensures
        ({
            let parked = registry.swept(live).hold(id, Some(buffer));
            let leased = parked.swept(live).hold(id, None);
            &&& parked.wf(live)
            &&& parked.swept(live).parked(id as int) == Some(buffer)
            &&& leased.wf(live)
            &&& leased.swept(live).parked(id as int) is None
        }),
{
    let swept = registry.swept(live);
    law_sweep_spares_the_living(registry, live, id as int);
    lemma_hold_wf(swept, live, id, Some(buffer));
    let parked = swept.hold(id, Some(buffer));
    law_sweep_spares_the_living(parked, live, id as int);
    lemma_hold_wf(parked.swept(live), live, id, None);
    law_sweep_spares_the_living(parked.swept(live).hold(id, None), live, id as int);
}

proof fn lemma_hold_wf<B>(
    registry: RegistryState<B>,
    live: Seq<bool>,
    id: usize,
    buf: Option<B>,
)
    requires
        registry.wf(live),
        id < live.len(),
        live[id as int],
    ensures
        registry.hold(id, buf).wf(live),
        registry.hold(id, buf).parked(id as int) == buf,
{
    let after = registry.hold(id, buf);
    assert forall|i: int| 0 <= i < after.slots.len() && i != id implies (#[trigger] after.slots[i])
        == (if i < registry.slots.len() {
        registry.slots[i]
    } else {
        Slot { live: id, buf: None }
    }) by {}
}

/// A slot holds a single buffer: parking over a parked one drops the one that
/// was there.
pub proof fn law_slot_holds_one<B>(registry: RegistryState<B>, id: usize, first: B, second: B)
    ensures
        registry.hold(id, Some(first)).hold(id, Some(second)) == registry.hold(id, Some(second)),
        registry.hold(id, Some(first)).hold(id, Some(second)).parked(id as int) == Some(second),
{
    assert(registry.hold(id, Some(first)).hold(id, Some(second)).slots == registry.hold(
        id,
        Some(second),
    ).slots);
}

/// Pools do not meet: what happens in the slot of one pool changes nothing that
/// is parked for another, also where slots had to be made in between.
pub proof fn law_pools_do_not_meet<B>(
    registry: RegistryState<B>,
    id: usize,
    buf: Option<B>,
    other: int,
)
    requires
        other != id,
    ensures
        registry.hold(id, buf).parked(other) == registry.parked(other),
        registry.without(id).parked(other) == registry.parked(other),
{
}

/// A drain empties the slot and makes none.
pub proof fn law_drain_makes_no_slot<B>(registry: RegistryState<B>, id: usize)
    ensures
        registry.without(id).parked(id as int) is None,
        registry.without(id).slots.len() == registry.slots.len(),
        registry.without(id).without(id) == registry.without(id),
{
    assert(registry.without(id).without(id).slots == registry.without(id).slots);
}

/// Something that happens to a live pool on one of several threads, or to a
/// buffer that came from the pool.
pub enum LocalEvent<B> {
    /// The thread leases a buffer.
    Lease { thread: int },
    /// A lease ends on the thread; `buffer` is what it returns, as it is to be
    /// parked.
    Release { thread: int, buffer: B },
    /// A lease ends with its buffer kept out of the pool.
    Detach,
    /// The thread puts a buffer into the pool by hand: one that was kept out of
    /// the pool or drained from it, or one from `outside` that the pool did not
    /// make.
    Put { thread: int, buffer: B, outside: bool },
    /// The thread drains its slot.
    Drain { thread: int },
    /// Other pools are used on the thread, or made, or go: `registry` is what
    /// the thread's registry is afterwards, and `live` the table of live pools.
    Elsewhere { thread: int, registry: RegistryState<B>, live: Seq<bool> },
}

/// A live pool and an account of its buffers, over all threads.
pub struct LocalLedger<B> {
    /// Id of the pool.
    pub id: usize,
    /// The table of live pools.
    pub live: Seq<bool>,
    /// The registries of the threads.
    pub threads: Seq<RegistryState<B>>,
    /// The pool's counters.
    pub stats: PoolStats,
    /// Number of leases that have not ended.
    pub outstanding: nat,
    /// Number of buffers kept out of the pool.
    pub detached: nat,
    /// Number of buffers put into the pool so far that it did not make.
    pub outside: nat,
    /// Number of parked buffers dropped so far because another was parked in
    /// their place.
    pub displaced: nat,
    /// Number of leases so far.
    pub leases: nat,
    /// Number of leases so far that were served from a parked buffer.
    pub recycled: nat,
}

/// Number of threads that have a buffer parked for pool `id`.
pub open spec fn parked_count<B>(threads: Seq<RegistryState<B>>, id: int) -> nat
    decreases threads.len(),
{
    if threads.len() == 0 {
        0
    } else {
        parked_count(threads.drop_last(), id) + if threads.last().parked(id) is Some {
            1nat
        } else {
            0
        }
    }
}

proof fn lemma_parked_count_update<B>(
    threads: Seq<RegistryState<B>>,
    id: int,
    thread: int,
    registry: RegistryState<B>,
)
    requires
        0 <= thread < threads.len(),
    ensures
        parked_count(threads.update(thread, registry), id) == parked_count(threads, id) - (
        if threads[thread].parked(id) is Some {
            1int
        } else {
            0
        }) + if registry.parked(id) is Some {
            1int
        } else {
            0
        },
    decreases threads.len(),
{
    let after = threads.update(thread, registry);
    if thread == threads.len() - 1 {
        assert(after.drop_last() == threads.drop_last());
    } else {
        assert(after.drop_last() == threads.drop_last().update(thread, registry));
        lemma_parked_count_update(threads.drop_last(), id, thread, registry);
    }
}

proof fn lemma_parked_count_zero<B>(threads: Seq<RegistryState<B>>, id: int)
    requires
        forall|t: int| 0 <= t < threads.len() ==> (#[trigger] threads[t]).parked(id) is None,
    ensures
        parked_count(threads, id) == 0,
    decreases threads.len(),
{
    if threads.len() > 0 {
        lemma_parked_count_zero(threads.drop_last(), id);
    }
}

impl<B> LocalLedger<B> {
    /// The pool is alive and the registries of all threads are in order.
    pub open spec fn wf(self) -> bool {
        &&& self.id < self.live.len()
        &&& self.live[self.id as int]
        &&& forall|t: int| 0 <= t < self.threads.len() ==> (#[trigger] self.threads[t]).wf(self.live)
    }

    /// A pool that has done nothing yet.
    pub open spec fn is_new(self) -> bool {
        &&& self.wf()
        &&& forall|t: int|
            0 <= t < self.threads.len() ==> (#[trigger] self.threads[t]).parked(
                self.id as int,
            ) is None
        &&& self.stats == PoolStats { leases: 0, allocations: 0 }
        &&& self.outstanding == 0
        &&& self.detached == 0
        &&& self.outside == 0
        &&& self.displaced == 0
        &&& self.leases == 0
        &&& self.recycled == 0
    }

    /// The registry of `thread` as an operation of the pool finds it.
    pub open spec fn swept(self, thread: int) -> RegistryState<B> {
        self.threads[thread].swept(self.live)
    }

    /// What is parked for the pool on `thread`, as an operation of the pool
    /// finds it.
    pub open spec fn offer(self, thread: int) -> Option<B> {
        self.swept(thread).parked(self.id as int)
    }

    /// `event` can happen now.
    pub open spec fn allows(self, event: LocalEvent<B>) -> bool {
        match event {
            LocalEvent::Lease { thread } => 0 <= thread < self.threads.len(),
            LocalEvent::Release { thread, .. } => 0 <= thread < self.threads.len()
                && self.outstanding > 0,
            LocalEvent::Detach => self.outstanding > 0,
            LocalEvent::Put { thread, outside, .. } => 0 <= thread < self.threads.len() && (outside
                || self.detached > 0),
            LocalEvent::Drain { thread } => 0 <= thread < self.threads.len(),
            LocalEvent::Elsewhere { thread, registry, live } => {
                &&& 0 <= thread < self.threads.len()
                &&& registry.parked(self.id as int) == self.threads[thread].parked(self.id as int)
                &&& LocalLedger {
                    threads: self.threads.update(thread, registry),
                    live,
                    ..self
                }.wf()
            },
        }
    }

    /// Number of parked buffers dropped so far once one more was parked on
    /// `thread`.
    pub open spec fn displaced_after_one(self, thread: int) -> nat {
        if self.offer(thread) is Some {
            self.displaced + 1
        } else {
            self.displaced
        }
    }

    /// The account after `event`.
    pub open spec fn after(self, event: LocalEvent<B>) -> LocalLedger<B> {
        match event {
            LocalEvent::Lease { thread } => LocalLedger {
                threads: self.threads.update(thread, self.swept(thread).hold(self.id, None)),
                stats: self.stats.leased(self.offer(thread) is None),
                outstanding: self.outstanding + 1,
                leases: self.leases + 1,
                recycled: if self.offer(thread) is Some {
                    self.recycled + 1
                } else {
                    self.recycled
                },
                ..self
            },
            LocalEvent::Release { thread, buffer } => LocalLedger {
                threads: self.threads.update(
                    thread,
                    self.swept(thread).hold(self.id, Some(buffer)),
                ),
                outstanding: (self.outstanding - 1) as nat,
                displaced: self.displaced_after_one(thread),
                ..self
            },
            LocalEvent::Detach => LocalLedger {
                outstanding: (self.outstanding - 1) as nat,
                detached: self.detached + 1,
                ..self
            },
            LocalEvent::Put { thread, buffer, outside } => LocalLedger {
                threads: self.threads.update(
                    thread,
                    self.swept(thread).hold(self.id, Some(buffer)),
                ),
                detached: if outside {
                    self.detached
                } else {
                    (self.detached - 1) as nat
                },
                outside: if outside {
                    self.outside + 1
                } else {
                    self.outside
                },
                displaced: self.displaced_after_one(thread),
                ..self
            },
            LocalEvent::Drain { thread } => LocalLedger {
                threads: self.threads.update(thread, self.swept(thread).without(self.id)),
                detached: if self.offer(thread) is Some {
                    self.detached + 1
                } else {
                    self.detached
                },
                ..self
            },
            LocalEvent::Elsewhere { thread, registry, live } => LocalLedger {
                threads: self.threads.update(thread, registry),
                live,
                ..self
            },
        }
    }

    /// The account after `events`, in order.
    pub open spec fn after_all(self, events: Seq<LocalEvent<B>>) -> LocalLedger<B>
        decreases events.len(),
    {
        if events.len() == 0 {
            self
        } else {
            self.after_all(events.drop_last()).after(events.last())
        }
    }

    /// `events` can happen in order.
    pub open spec fn allows_all(self, events: Seq<LocalEvent<B>>) -> bool
        decreases events.len(),
    {
        events.len() > 0 ==> {
            &&& self.allows_all(events.drop_last())
            &&& self.after_all(events.drop_last()).allows(events.last())
        }
    }
}

/// The counters of a per-thread pool are exact, and every buffer is accounted
/// for: those on lease over all threads, those kept out, the at most one that
/// each thread has parked and those displaced from a slot are together exactly
/// those that the pool made and those that were put into it from outside. So the
/// allocation count is an upper bound on the number of leases outstanding at the
/// same time, as long as nothing comes from outside.
pub proof fn law_local_books_balance<B>(start: LocalLedger<B>, events: Seq<LocalEvent<B>>)
    requires
        start.is_new(),
        start.allows_all(events),
        events.len() <= usize::MAX,
    ensures
        ({
            let end = start.after_all(events);
            &&& end.wf()
            &&& end.id == start.id
            &&& end.leases <= events.len()
            &&& end.recycled <= end.leases
            &&& end.stats.leases == end.leases
            &&& end.stats.leases - end.stats.allocations == end.recycled
            &&& end.outstanding + end.detached + parked_count(end.threads, end.id as int)
                + end.displaced == end.stats.allocations + end.outside
            &&& end.outstanding <= end.stats.allocations + end.outside
            &&& end.outside == 0 ==> end.outstanding <= end.stats.allocations
        }),
    decreases events.len(),
{
    let id = start.id as int;
    if events.len() == 0 {
        lemma_parked_count_zero(start.threads, id);
    } else {
        law_local_books_balance(start, events.drop_last());
        let before = start.after_all(events.drop_last());
        let event = events.last();
        match event {
            LocalEvent::Lease { thread } => {
                law_sweep_spares_the_living(before.threads[thread], before.live, id);
                lemma_hold_wf(before.swept(thread), before.live, start.id, None);
                lemma_parked_count_update(
                    before.threads,
                    id,
                    thread,
                    before.swept(thread).hold(start.id, None),
                );
            },
            LocalEvent::Release { thread, buffer } | LocalEvent::Put { thread, buffer, .. } => {
                law_sweep_spares_the_living(before.threads[thread], before.live, id);
                lemma_hold_wf(before.swept(thread), before.live, start.id, Some(buffer));
                lemma_parked_count_update(
                    before.threads,
                    id,
                    thread,
                    before.swept(thread).hold(start.id, Some(buffer)),
                );
            },
            LocalEvent::Drain { thread } => {
                law_sweep_spares_the_living(before.threads[thread], before.live, id);
                lemma_parked_count_update(
                    before.threads,
                    id,
                    thread,
                    before.swept(thread).without(start.id),
                );
            },
            LocalEvent::Elsewhere { thread, registry, live } => {
                lemma_parked_count_update(before.threads, id, thread, registry);
            },
            LocalEvent::Detach => {},
        }
    }
}

/// The threads that leased in `events`.
pub open spec fn lessees<B>(events: Seq<LocalEvent<B>>) -> Set<int>
    decreases events.len(),
{
    if events.len() == 0 {
        Set::empty()
    } else {
        match events.last() {
            LocalEvent::Lease { thread } => lessees(events.drop_last()).insert(thread),
            _ => lessees(events.drop_last()),
        }
    }
}

/// `thread` has a lease that has not ended, where each lease ends on the thread
/// that it began on.
pub open spec fn has_lease<B>(events: Seq<LocalEvent<B>>, thread: int) -> bool
    decreases events.len(),
{
    if events.len() == 0 {
        false
    } else {
        match events.last() {
            LocalEvent::Lease { thread: by } => by == thread || has_lease(
                events.drop_last(),
                thread,
            ),
            LocalEvent::Release { thread: by, .. } => by != thread && has_lease(
                events.drop_last(),
                thread,
            ),
            _ => has_lease(events.drop_last(), thread),
        }
    }
}

/// Every thread ends each of its leases before it begins the next, and no buffer
/// is kept out of the pool, put into it by hand or drained from it.
pub open spec fn one_lease_at_a_time<B>(events: Seq<LocalEvent<B>>) -> bool
    decreases events.len(),
{
    events.len() > 0 ==> {
        &&& one_lease_at_a_time(events.drop_last())
        &&& match events.last() {
            LocalEvent::Lease { thread } => !has_lease(events.drop_last(), thread),
            LocalEvent::Release { thread, .. } => has_lease(events.drop_last(), thread),
            LocalEvent::Elsewhere { .. } => true,
            _ => false,
        }
    }
}

/// A thread that has leased, and has no lease, has a buffer parked; one that has
/// never leased has none.
proof fn lemma_one_buffer_per_lessee<B>(start: LocalLedger<B>, events: Seq<LocalEvent<B>>)
    requires
        start.is_new(),
        start.allows_all(events),
        events.len() <= usize::MAX,
        one_lease_at_a_time(events),
    ensures
        ({
            let end = start.after_all(events);
            &&& lessees(events).finite()
            &&& end.stats.allocations == lessees(events).len()
            &&& end.threads.len() == start.threads.len()
            &&& forall|t: int| #[trigger]
                lessees(events).contains(t) ==> 0 <= t < end.threads.len()
            &&& forall|t: int| #[trigger] has_lease(events, t) ==> lessees(events).contains(t)
            &&& forall|t: int|
                0 <= t < end.threads.len() ==> ((#[trigger] end.threads[t]).parked(
                    end.id as int,
                ) is Some <==> lessees(events).contains(t) && !has_lease(events, t))
        }),
    decreases events.len(),
{
    if events.len() > 0 {
        let earlier = events.drop_last();
        lemma_one_buffer_per_lessee(start, earlier);
        law_local_books_balance(start, earlier);
        let before = start.after_all(earlier);
        match events.last() {
            LocalEvent::Lease { thread } => {
                law_sweep_spares_the_living(before.threads[thread], before.live, start.id as int);
                lemma_hold_wf(before.swept(thread), before.live, start.id, None);
            },
            LocalEvent::Release { thread, buffer } => {
                law_sweep_spares_the_living(before.threads[thread], before.live, start.id as int);
                lemma_hold_wf(before.swept(thread), before.live, start.id, Some(buffer));
            },
            _ => {},
        }
        let end = start.after_all(events);
        assert forall|t: int| #[trigger] has_lease(events, t) implies lessees(events).contains(
            t,
        ) by {
            assert(has_lease(earlier, t) ==> lessees(earlier).contains(t));
        }
        assert forall|t: int| 0 <= t < end.threads.len() implies ((
        #[trigger] end.threads[t]).parked(end.id as int) is Some <==> lessees(events).contains(t)
            && !has_lease(events, t)) by {
            assert(before.threads[t].parked(before.id as int) is Some <==> lessees(
                earlier,
            ).contains(t) && !has_lease(earlier, t));
        }
    }
}

/// One buffer per thread is enough: where every thread ends each of its leases
/// before it begins the next, a per-thread pool makes exactly as many buffers as
/// there are threads that ever leased, and so at most one per thread, however
/// many leases there are; and a thread that has leased and has no lease has its
/// buffer parked.
pub proof fn law_one_buffer_per_thread<B>(start: LocalLedger<B>, events: Seq<LocalEvent<B>>)
    requires
        start.is_new(),
        start.allows_all(events),
        events.len() <= usize::MAX,
        one_lease_at_a_time(events),
    ensures
        ({
            let end = start.after_all(events);
            &&& end.stats.allocations == lessees(events).len()
            &&& end.stats.allocations <= end.threads.len()
            &&& forall|t: int|
                0 <= t < end.threads.len() ==> ((#[trigger] end.threads[t]).parked(
                    end.id as int,
                ) is Some <==> lessees(events).contains(t) && !has_lease(events, t))
        }),
{
    lemma_one_buffer_per_lessee(start, events);
    let count = start.after_all(events).threads.len() as int;
    let all = vstd::set_lib::set_int_range(0, count);
    vstd::set_lib::lemma_int_range(0, count);
    assert(lessees(events).subset_of(all));
    vstd::set_lib::lemma_len_subset(lessees(events), all);
}

} // verus!
