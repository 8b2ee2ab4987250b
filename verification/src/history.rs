//! What holds of a shared pool over its whole history.

use crate::inner::PoolState;
use crate::stats::PoolStats;
use vstd::prelude::*;

verus! {

/// Something that happens to a pool or to a buffer that came from it.
pub enum Event<T> {
    /// Thread `tid` leases a buffer.
    Lease { tid: usize },
    /// Thread `tid` ends a lease; `buffer` is what it returns, as it is to be
    /// parked.
    Release { tid: usize, buffer: T },
    /// A lease ends with its buffer kept out of the pool.
    Detach,
    /// Thread `tid` puts a buffer into the pool by hand: one that was kept out of
    /// the pool or drained from it, or one from `outside` that the pool did not
    /// make.
    Put { tid: usize, buffer: T, outside: bool },
    /// A buffer is made in advance.
    Stock { buffer: T },
    /// The idle buffers are taken out of the pool.
    Drain,
    /// An idle cap is installed.
    Cap { max_idle: usize },
}

/// A pool and an account of the buffers that are not in it.
pub struct Ledger<T> {
    /// The state behind the pool.
    pub state: PoolState<T>,
    /// Number of leases that have not ended.
    pub outstanding: nat,
    /// Number of buffers kept out of the pool.
    pub detached: nat,
    /// Number of buffers put into the pool so far that it did not make.
    pub outside: nat,
    /// Number of buffers dropped so far because the cap left no room for them.
    pub discarded: nat,
    /// Number of leases so far.
    pub leases: nat,
    /// Number of leases so far that were served from an idle buffer.
    pub recycled: nat,
    /// Number of buffers made in advance so far.
    pub stocked: nat,
}

impl<T> Ledger<T> {
    /// A pool with nothing in it that has done nothing yet.
    pub open spec fn is_new(self) -> bool {
        &&& self.state.wf()
        &&& self.state.idle() == 0
        &&& self.state.stats == PoolStats { leases: 0, allocations: 0 }
        &&& self.outstanding == 0
        &&& self.detached == 0
        &&& self.outside == 0
        &&& self.discarded == 0
        &&& self.leases == 0
        &&& self.recycled == 0
        &&& self.stocked == 0
    }

    /// `event` can happen now: a lease ends only if there is one, and a buffer
    /// that the pool made returns by hand only if one is out by hand.
    pub open spec fn allows(self, event: Event<T>) -> bool {
        match event {
            Event::Release { .. } => self.outstanding > 0,
            Event::Detach => self.outstanding > 0,
            Event::Put { outside, .. } => outside || self.detached > 0,
            _ => true,
        }
    }

    /// Number of buffers dropped so far once one more came to be parked.
    pub open spec fn discarded_after_one(self) -> nat {
        if self.state.has_room() {
            self.discarded
        } else {
            self.discarded + 1
        }
    }

    /// The account after `event`.
    pub open spec fn after(self, event: Event<T>) -> Ledger<T> {
        match event {
            Event::Lease { tid } => Ledger {
                state: self.state.lease(tid),
                outstanding: self.outstanding + 1,
                leases: self.leases + 1,
                recycled: if self.state.offer(tid) is Some {
                    self.recycled + 1
                } else {
                    self.recycled
                },
                ..self
            },
            Event::Release { tid, buffer } => Ledger {
                state: self.state.recycle(tid, buffer),
                outstanding: (self.outstanding - 1) as nat,
                discarded: self.discarded_after_one(),
                ..self
            },
            Event::Detach => Ledger {
                outstanding: (self.outstanding - 1) as nat,
                detached: self.detached + 1,
                ..self
            },
            Event::Put { tid, buffer, outside } => Ledger {
                state: self.state.recycle(tid, buffer),
                detached: if outside {
                    self.detached
                } else {
                    (self.detached - 1) as nat
                },
                outside: if outside {
                    self.outside + 1
                } else {
                    self.outside
                },
                discarded: self.discarded_after_one(),
                ..self
            },
            Event::Stock { buffer } => Ledger {
                state: self.state.stock_fresh(buffer),
                stocked: self.stocked + 1,
                discarded: self.discarded_after_one(),
                ..self
            },
            Event::Drain => Ledger {
                state: self.state.drained(),
                detached: self.detached + self.state.idle(),
                ..self
            },
            Event::Cap { max_idle } => Ledger { state: self.state.cap(max_idle), ..self },
        }
    }

    /// The account after `events`, in order.
    pub open spec fn after_all(self, events: Seq<Event<T>>) -> Ledger<T>
        decreases events.len(),
    {
        if events.len() == 0 {
            self
        } else {
            self.after_all(events.drop_last()).after(events.last())
        }
    }

    /// `events` can happen in order.
    pub open spec fn allows_all(self, events: Seq<Event<T>>) -> bool
        decreases events.len(),
    {
        events.len() > 0 ==> {
            &&& self.allows_all(events.drop_last())
            &&& self.after_all(events.drop_last()).allows(events.last())
        }
    }
}

proof fn lemma_books_balance<T>(start: Ledger<T>, events: Seq<Event<T>>)
    requires
        start.is_new(),
        start.allows_all(events),
        events.len() <= usize::MAX,
    ensures
        ({
            let end = start.after_all(events);
            &&& end.state.wf()
            &&& end.leases + end.stocked <= events.len()
            &&& end.recycled <= end.leases
            &&& end.state.stats.leases == end.leases
            &&& end.state.stats.allocations == end.leases - end.recycled + end.stocked
            &&& end.outstanding + end.detached + end.state.idle() + end.discarded
                == end.state.stats.allocations + end.outside
        }),
    decreases events.len(),
{
    if events.len() > 0 {
        lemma_books_balance(start, events.drop_last());
        let before = start.after_all(events.drop_last());
        match events.last() {
            Event::Lease { tid } => {
                crate::shared_laws::law_lease_takes_one(before.state, tid);
            },
            Event::Release { tid, buffer } => {
                crate::shared_laws::law_return_adds_one(before.state, tid, buffer);
            },
            Event::Put { tid, buffer, .. } => {
                crate::shared_laws::law_return_adds_one(before.state, tid, buffer);
            },
            Event::Stock { buffer } => {
                crate::shared_laws::law_return_adds_one(before.state, 0, buffer);
            },
            Event::Drain => {
                crate::inner::lemma_drained_is_empty(before.state);
            },
            _ => {},
        }
    }
}

/// Every buffer is accounted for: whatever has happened to a pool, the buffers
/// on lease, kept out, idle and dropped at the cap are together exactly those
/// that it made and those that were put into it from outside. So the allocation
/// count is an upper bound on the number of leases outstanding at the same time,
/// as long as nothing comes from outside.
pub proof fn law_allocations_bound_leases<T>(start: Ledger<T>, events: Seq<Event<T>>)
    requires
        start.is_new(),
        start.allows_all(events),
        events.len() <= usize::MAX,
    ensures
        ({
            let end = start.after_all(events);
            &&& end.outstanding + end.detached + end.state.idle() + end.discarded
                == end.state.stats.allocations + end.outside
            &&& end.outstanding <= end.state.stats.allocations + end.outside
            &&& end.outside == 0 ==> end.outstanding <= end.state.stats.allocations
        }),
{
    lemma_books_balance(start, events);
}

/// The counters are exact: leases are counted one by one, and as long as no
/// buffer is made in advance, the difference between leases and allocations is
/// the number of leases served from a recycled buffer.
pub proof fn law_counters_are_exact<T>(start: Ledger<T>, events: Seq<Event<T>>)
    requires
        start.is_new(),
        start.allows_all(events),
        events.len() <= usize::MAX,
    ensures
        ({
            let end = start.after_all(events);
            &&& end.state.stats.leases == end.leases
            &&& end.stocked == 0 ==> end.state.stats.allocations <= end.state.stats.leases
            &&& end.stocked == 0 ==> end.state.stats.leases - end.state.stats.allocations
                == end.recycled
            &&& end.state.stats.allocations == end.leases - end.recycled + end.stocked
        }),
{
    lemma_books_balance(start, events);
}

/// No event of the history installs a cap.
pub open spec fn installs_no_cap<T>(events: Seq<Event<T>>) -> bool {
    forall|i: int| 0 <= i < events.len() ==> !(#[trigger] events[i] is Cap)
}

proof fn lemma_earlier_installs_no_cap<T>(events: Seq<Event<T>>)
    requires
        events.len() > 0,
        installs_no_cap(events),
    ensures
        installs_no_cap(events.drop_last()),
        !(events.last() is Cap),
{
    assert forall|i: int| 0 <= i < events.drop_last().len() implies !(
    #[trigger] events.drop_last()[i] is Cap) by {
        assert(events.drop_last()[i] == events[i]);
    }
    assert(events[events.len() - 1] == events.last());
}

/// A new pool keeps everything until a cap is installed, on every machine and
/// over any history: nothing is ever dropped, so that what is in the piles, on
/// lease and kept out is all that was made and all that was put in from outside.
pub proof fn law_new_pools_keep_everything<T>(
    start: Ledger<T>,
    parallelism: Option<usize>,
    events: Seq<Event<T>>,
)
    requires
        start.is_new(),
        crate::inner::is_fresh_state(start.state, parallelism),
        start.allows_all(events),
        forall|i: int| 0 <= i < events.len() ==> !(#[trigger] events[i] is Cap),
        events.len() <= usize::MAX,
    ensures
        ({
            let end = start.after_all(events);
            &&& end.discarded == 0
            &&& end.state.max_idle == usize::MAX
            &&& end.outstanding + end.detached + end.state.shards.flatten().len()
                + end.state.reserve.len() == end.state.stats.allocations + end.outside
        }),
    decreases events.len(),
{
    lemma_books_balance(start, events);
    if events.len() > 0 {
        lemma_earlier_installs_no_cap(events);
        law_new_pools_keep_everything(start, parallelism, events.drop_last());
    }
}

/// A cap, whatever its number, bounds the pool at all times: over any history
/// that installs no other, the piles never hold more buffers than the cap, or
/// than they held at first where that was more.
pub proof fn law_every_cap_holds_throughout<T>(start: Ledger<T>, events: Seq<Event<T>>)
    requires
        start.state.wf(),
        start.state.max_idle != usize::MAX,
        forall|i: int| 0 <= i < events.len() ==> !(#[trigger] events[i] is Cap),
    ensures
        ({
            let end = start.after_all(events);
            let first = (start.state.shards.flatten().len() + start.state.reserve.len()) as int;
            let bound = if first < start.state.max_idle {
                start.state.max_idle as int
            } else {
                first
            };
            &&& end.state.wf()
            &&& end.state.max_idle == start.state.max_idle
            &&& end.state.shards.flatten().len() + end.state.reserve.len() <= bound
        }),
    decreases events.len(),
{
    if events.len() > 0 {
        lemma_earlier_installs_no_cap(events);
        law_every_cap_holds_throughout(start, events.drop_last());
        let before = start.after_all(events.drop_last());
        match events.last() {
            Event::Lease { tid } => {
                crate::shared_laws::law_lease_takes_one(before.state, tid);
            },
            Event::Release { tid, buffer } => {
                crate::shared_laws::law_return_adds_one(before.state, tid, buffer);
            },
            Event::Put { tid, buffer, .. } => {
                crate::shared_laws::law_return_adds_one(before.state, tid, buffer);
            },
            Event::Stock { buffer } => {
                crate::shared_laws::law_return_adds_one(before.state, 0, buffer);
            },
            Event::Drain => {
                crate::inner::lemma_drained_is_empty(before.state);
            },
            _ => {},
        }
    }
}

/// A lease that begins, or one that ends on the thread's own shard.
pub enum Turn<T> {
    /// Thread `tid` leases a buffer.
    Lease { tid: usize },
    /// Thread `tid` ends a lease; `buffer` is what it returns, as it is to be
    /// parked.
    Release { tid: usize, buffer: T },
}

/// A pool and, for each shard, how many of the leases by its threads are
/// outstanding and how many were at most.
pub struct Tally<T> {
    /// The state behind the pool.
    pub state: PoolState<T>,
    /// Leases outstanding, by shard.
    pub outstanding: Seq<nat>,
    /// The largest number of leases outstanding so far, by shard.
    pub peaks: Seq<nat>,
}

/// The sum of `counts`.
pub open spec fn total(counts: Seq<nat>) -> nat
    decreases counts.len(),
{
    if counts.len() == 0 {
        0
    } else {
        total(counts.drop_last()) + counts.last()
    }
}

pub(crate) proof fn lemma_total_update(counts: Seq<nat>, i: int, count: nat)
    requires
        0 <= i < counts.len(),
    ensures
        total(counts.update(i, count)) == total(counts) - counts[i] + count,
    decreases counts.len(),
{
    let after = counts.update(i, count);
    if i == counts.len() - 1 {
        assert(after.drop_last() == counts.drop_last());
    } else {
        assert(after.drop_last() == counts.drop_last().update(i, count));
        lemma_total_update(counts.drop_last(), i, count);
    }
}

pub(crate) proof fn lemma_total_zero(counts: Seq<nat>)
    requires
        forall|i: int| 0 <= i < counts.len() ==> #[trigger] counts[i] == 0,
    ensures
        total(counts) == 0,
    decreases counts.len(),
{
    if counts.len() > 0 {
        lemma_total_zero(counts.drop_last());
    }
}

impl<T> Tally<T> {
    /// A pool without a cap, with nothing in it, that has done nothing yet.
    pub open spec fn is_new(self) -> bool {
        &&& self.state.wf()
        &&& !self.state.capped()
        &&& self.state.reserve.len() == 0
        &&& self.state.stats == PoolStats { leases: 0, allocations: 0 }
        &&& self.outstanding.len() == self.state.shards.len()
        &&& self.peaks.len() == self.state.shards.len()
        &&& forall|i: int| 0 <= i < self.state.shards.len() ==> (#[trigger] self.state.shards[i]).len() == 0
        &&& forall|i: int| 0 <= i < self.outstanding.len() ==> #[trigger] self.outstanding[i] == 0
        &&& forall|i: int| 0 <= i < self.peaks.len() ==> #[trigger] self.peaks[i] == 0
    }

    /// `turn` can happen now.
    pub open spec fn allows(self, turn: Turn<T>) -> bool {
        match turn {
            Turn::Lease { .. } => true,
            Turn::Release { tid, .. } => self.outstanding[self.state.shard_of(tid)] > 0,
        }
    }

    /// The tally after `turn`.
    pub open spec fn after(self, turn: Turn<T>) -> Tally<T> {
        match turn {
            Turn::Lease { tid } => {
                let i = self.state.shard_of(tid);
                let now = self.outstanding[i] + 1;
                Tally {
                    state: self.state.lease(tid),
                    outstanding: self.outstanding.update(i, now),
                    peaks: self.peaks.update(i, if self.peaks[i] < now { now } else { self.peaks[i] }),
                }
            },
            Turn::Release { tid, buffer } => {
                let i = self.state.shard_of(tid);
                Tally {
                    state: self.state.recycle(tid, buffer),
                    outstanding: self.outstanding.update(i, (self.outstanding[i] - 1) as nat),
                    ..self
                }
            },
        }
    }

    /// The tally after `turns`, in order.
    pub open spec fn after_all(self, turns: Seq<Turn<T>>) -> Tally<T>
        decreases turns.len(),
    {
        if turns.len() == 0 {
            self
        } else {
            self.after_all(turns.drop_last()).after(turns.last())
        }
    }

    /// `turns` can happen in order.
    pub open spec fn allows_all(self, turns: Seq<Turn<T>>) -> bool
        decreases turns.len(),
    {
        turns.len() > 0 ==> {
            &&& self.allows_all(turns.drop_last())
            &&& self.after_all(turns.drop_last()).allows(turns.last())
        }
    }
}

/// Memory limits itself: where leases end on the shard they began on, a pool
/// without a cap makes exactly as many buffers as the sum, over the shards, of
/// the most leases that were outstanding at once; and every one of them is
/// either on lease or idle in its shard.
pub proof fn law_buffers_match_peaks<T>(start: Tally<T>, turns: Seq<Turn<T>>)
    requires
        start.is_new(),
        start.allows_all(turns),
        turns.len() <= usize::MAX,
    ensures
        ({
            let end = start.after_all(turns);
            &&& end.state.wf()
            &&& !end.state.capped()
            &&& end.state.reserve.len() == 0
            &&& end.outstanding.len() == end.state.shards.len()
            &&& end.peaks.len() == end.state.shards.len()
            &&& end.state.stats.allocations == total(end.peaks)
            &&& end.state.stats.allocations <= turns.len()
            &&& forall|i: int|
                0 <= i < end.state.shards.len() ==> (#[trigger] end.state.shards[i]).len()
                    + end.outstanding[i] == end.peaks[i]
        }),
    decreases turns.len(),
{
    if turns.len() == 0 {
        lemma_total_zero(start.peaks);
    } else {
        law_buffers_match_peaks(start, turns.drop_last());
        let before = start.after_all(turns.drop_last());
        match turns.last() {
            Turn::Lease { tid } => {
                let i = before.state.shard_of(tid);
                assert(before.state.shards[i].len() + before.outstanding[i] == before.peaks[i]);
                lemma_total_update(before.peaks, i, before.after(turns.last()).peaks[i]);
            },
            Turn::Release { tid, buffer } => {
                let i = before.state.shard_of(tid);
                assert(before.state.shards[i].len() + before.outstanding[i] == before.peaks[i]);
            },
        }
    }
}

} // verus!
