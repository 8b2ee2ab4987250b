//! What a pool has done so far, as two counters.

use vstd::prelude::*;

verus! {

/// Counters describing what a pool has done so far.
///
/// The difference `leases - allocations` is the number of leases served from
/// recycled buffers, as long as no buffer was made ahead of its lease.
#[derive(Debug, Clone, Copy, PartialEq, Eq, Structural)]
pub struct PoolStats {
    /// Number of leases taken.
    pub leases: usize,
    /// Number of times the initializer had to run, because a lease found
    /// nothing to recycle or because a buffer was made in advance.
    pub allocations: usize,
}

/// The counter after one more event: a counter at the end of its range starts
/// again at zero.
pub open spec fn bumped(count: usize) -> usize {
    if count == usize::MAX {
        0
    } else {
        (count + 1) as usize
    }
}

/// The counter after `n` more events.
pub open spec fn bumped_by(count: usize, n: usize) -> usize {
    if count + n <= usize::MAX {
        (count + n) as usize
    } else {
        (count + n - usize::MAX - 1) as usize
    }
}

/// One more event on `count`, wrapping at the end of the range.
fn bump(count: usize) -> (next: usize)
    ensures
        next == bumped(count),
{
    count.wrapping_add(1)
}

impl PoolStats {
    /// The counters after one more lease, which ran the initializer exactly
    /// when `allocated`.
    pub open spec fn leased(self, allocated: bool) -> PoolStats {
        PoolStats {
            leases: bumped(self.leases),
            allocations: if allocated { bumped(self.allocations) } else { self.allocations },
        }
    }

    /// Counters of a pool that has done nothing yet.
    pub fn new() -> (stats: PoolStats)
        ensures
            stats == (PoolStats { leases: 0, allocations: 0 }),
    {
        PoolStats { leases: 0, allocations: 0 }
    }

    /// Records one lease.
    pub fn count_lease(&mut self)
        ensures
            *final(self) == (PoolStats { leases: bumped(old(self).leases), ..*old(self) }),
            final(self).allocations == old(self).allocations,
            old(self).leases < usize::MAX ==> final(self).leases == old(self).leases + 1,
            old(self).leases == usize::MAX ==> final(self).leases == 0,
    {
        self.leases = bump(self.leases);
    }

    /// Records that the initializer is about to run.
    pub fn count_allocation(&mut self)
        ensures
            *final(self) == (PoolStats { allocations: bumped(old(self).allocations), ..*old(self) }),
            final(self).leases == old(self).leases,
            old(self).allocations < usize::MAX ==> final(self).allocations == old(self).allocations
                + 1,
            old(self).allocations == usize::MAX ==> final(self).allocations == 0,
    {
        self.allocations = bump(self.allocations);
    }

    /// Leases served from an idle (recycled) buffer: `leases - allocations`.
    pub fn reuses(&self) -> (count: usize)
        requires
            self.allocations <= self.leases,
        ensures
            count == self.leases - self.allocations,
    {
        self.leases - self.allocations
    }
}

impl Default for PoolStats {
    fn default() -> (stats: PoolStats)
        ensures
            stats == (PoolStats { leases: 0, allocations: 0 }),
    {
        PoolStats::new()
    }
}

} // verus!
