//! The operations on a shared pool as steps, each of which touches one part of
//! the state behind the pool: one pile, the parked count, or one counter. Where
//! user code makes a buffer in advance, that is a step which touches none.
//!
//! Whoever runs an operation performs the step it is at, hands over what came
//! of it and gets the next step, until the operation is done. Nothing is held
//! from one step to the next, so each part can have a lock of its own and
//! operations of other threads may come in between.

use vstd::prelude::*;

verus! {

/// One of the piles of a pool.
#[derive(Debug, Clone, Copy, PartialEq, Eq, Structural)]
pub enum Place {
    /// The pile of the threads that map to shard `index`.
    Shard { index: usize },
    /// The communal pile that is stocked in advance.
    Reserve,
}

impl Place {
    /// The pile is one of a pool with `shards` shards.
    pub open spec fn is_in(self, shards: int) -> bool {
        match self {
            Place::Shard { index } => index < shards,
            Place::Reserve => true,
        }
    }

    /// Number of piles before this one in a sweep over a pool with `shards`
    /// shards: the shards come in order, and the reserve last.
    pub open spec fn position(self, shards: int) -> int {
        match self {
            Place::Shard { index } => index as int,
            Place::Reserve => shards,
        }
    }

    /// The pile that a sweep over a pool with `shards` shards comes to after
    /// this one.
    pub open spec fn successor(self, shards: int) -> Option<Place> {
        match self {
            Place::Shard { index } => if index + 1 < shards {
                Some(Place::Shard { index: (index + 1) as usize })
            } else {
                Some(Place::Reserve)
            },
            Place::Reserve => None,
        }
    }

    /// The pile that a sweep begins with.
    pub fn first() -> (place: Place)
        ensures
            place == (Place::Shard { index: 0 }),
    {
        Place::Shard { index: 0 }
    }

    /// The pile that a sweep over a pool with `shards` shards comes to after
    /// this one, or `None` at the end of the sweep.
    pub fn next(self, shards: usize) -> (next: Option<Place>)
        requires
            self.is_in(shards as int),
        ensures
            next == self.successor(shards as int),
            match self {
                Place::Shard { index } => next == if index + 1 < shards {
                    Some(Place::Shard { index: (index + 1) as usize })
                } else {
                    Some(Place::Reserve)
                },
                Place::Reserve => next is None,
            },
            match next {
                Some(place) => place.is_in(shards as int) && place.position(shards as int)
                    == self.position(shards as int) + 1,
                None => self == Place::Reserve,
            },
    {
        match self {
            Place::Shard { index } => if index + 1 < shards {
                Some(Place::Shard { index: index + 1 })
            } else {
                Some(Place::Reserve)
            },
            Place::Reserve => None,
        }
    }
}

/// Where a lease is.
#[derive(Debug)]
pub enum LeaseStep<T> {
    /// Add one to the lease counter. The lease is by a thread of shard `index`.
    CountLease { index: usize },
    /// Pop the pile at `place`.
    Pop { place: Place },
    /// Take one off the parked count: `buffer` has left its pile.
    Unpark { buffer: T },
    /// Add one to the allocation counter: the lease needs a fresh buffer.
    CountAllocation,
    /// The lease goes on with the idle buffer that was `found`, or with a fresh
    /// one.
    Done { found: Option<T> },
}

impl<T> LeaseStep<T> {
    /// Where a lease is once `popped` came out of the pile at `place`: an empty
    /// shard sends it to the reserve, an empty reserve to the initializer, and
    /// a buffer is taken off the parked count where one is kept.
    pub open spec fn after_pop(place: Place, popped: Option<T>, capped: bool) -> LeaseStep<T> {
        match popped {
            Some(buffer) => if capped {
                LeaseStep::Unpark { buffer }
            } else {
                LeaseStep::Done { found: popped }
            },
            None => if place is Reserve {
                LeaseStep::CountAllocation
            } else {
                LeaseStep::Pop { place: Place::Reserve }
            },
        }
    }

    /// A lease by a thread of shard `index` begins.
    pub fn start(index: usize) -> (step: LeaseStep<T>)
        ensures
            step == (LeaseStep::<T>::CountLease { index }),
    {
        LeaseStep::CountLease { index }
    }

    /// The lease was counted.
    pub fn lease_counted(index: usize) -> (step: LeaseStep<T>)
        ensures
            step == (LeaseStep::<T>::Pop { place: Place::Shard { index } }),
    {
        LeaseStep::Pop { place: Place::Shard { index } }
    }

    /// The pile at `place` was popped; a parked count is kept exactly when the
    /// pool is `capped`.
    pub fn popped(place: Place, popped: Option<T>, capped: bool) -> (step: LeaseStep<T>)
        ensures
            step == LeaseStep::after_pop(place, popped, capped),
            popped matches Some(buffer) ==> step == if capped {
                LeaseStep::Unpark { buffer }
            } else {
                LeaseStep::Done { found: Some(buffer) }
            },
            popped is None && place is Shard ==> step == (LeaseStep::<T>::Pop {
                place: Place::Reserve,
            }),
            popped is None && place is Reserve ==> step == LeaseStep::<T>::CountAllocation,
    {
        match popped {
            Some(buffer) => if capped {
                LeaseStep::Unpark { buffer }
            } else {
                LeaseStep::Done { found: Some(buffer) }
            },
            None => match place {
                Place::Shard { .. } => LeaseStep::Pop { place: Place::Reserve },
                Place::Reserve => LeaseStep::CountAllocation,
            },
        }
    }

    /// `buffer` was taken off the parked count.
    pub fn unparked(buffer: T) -> (step: LeaseStep<T>)
        ensures
            step == (LeaseStep::Done { found: Some(buffer) }),
    {
        LeaseStep::Done { found: Some(buffer) }
    }

    /// The allocation was counted.
    pub fn allocation_counted() -> (step: LeaseStep<T>)
        ensures
            step == (LeaseStep::<T>::Done { found: None }),
    {
        LeaseStep::Done { found: None }
    }
}

/// Where the stocking of a fresh buffer is, up to where there is a buffer; from
/// then on it is the return of that buffer to the reserve.
#[derive(Debug, Clone, Copy, PartialEq, Eq, Structural)]
pub enum StockStep {
    /// Add one to the allocation counter: a buffer is about to be made.
    CountAllocation,
    /// Run the initializer, and the reset hook on what it made.
    Make,
}

impl StockStep {
    /// The stocking of a fresh buffer begins.
    pub fn start() -> (step: StockStep)
        ensures
            step == StockStep::CountAllocation,
    {
        StockStep::CountAllocation
    }

    /// The allocation was counted.
    pub fn allocation_counted() -> (step: StockStep)
        ensures
            step == StockStep::Make,
    {
        StockStep::Make
    }
}

/// Where the return of a buffer is.
#[derive(Debug)]
pub enum ReturnStep<T> {
    /// Add one to the parked count, to claim a place for `buffer` in the pile
    /// at `place`.
    Claim { place: Place, buffer: T },
    /// Push `buffer` on the pile at `place`.
    Push { place: Place, buffer: T },
    /// Take one off the parked count: the cap has no room for `buffer`.
    Unclaim { buffer: T },
    /// The buffer is parked, or is in `excess` of the cap.
    Done { excess: Option<T> },
}

impl<T> ReturnStep<T> {
    /// Where `buffer` goes on its way to the pile at `place`: first past the
    /// cap, where there is one.
    pub open spec fn toward(place: Place, buffer: T, capped: bool) -> ReturnStep<T> {
        if capped {
            ReturnStep::Claim { place, buffer }
        } else {
            ReturnStep::Push { place, buffer }
        }
    }

    /// Where a return is once the parked count, before its claim, was `before`:
    /// a count that had reached the cap leaves no room.
    pub open spec fn after_claim(
        place: Place,
        buffer: T,
        before: int,
        max_idle: usize,
    ) -> ReturnStep<T> {
        if before < max_idle {
            ReturnStep::Push { place, buffer }
        } else {
            ReturnStep::Unclaim { buffer }
        }
    }

    /// The return of `buffer` by a thread of shard `index` begins; a parked
    /// count is kept exactly when the pool is `capped`.
    pub fn start(index: usize, buffer: T, capped: bool) -> (step: ReturnStep<T>)
        ensures
            step == ReturnStep::toward(Place::Shard { index }, buffer, capped),
            capped ==> step == (ReturnStep::Claim { place: Place::Shard { index }, buffer }),
            !capped ==> step == (ReturnStep::Push { place: Place::Shard { index }, buffer }),
    {
        if capped {
            ReturnStep::Claim { place: Place::Shard { index }, buffer }
        } else {
            ReturnStep::Push { place: Place::Shard { index }, buffer }
        }
    }

    /// The return of `buffer`, made in advance, to the reserve begins.
    pub fn stock(buffer: T, capped: bool) -> (step: ReturnStep<T>)
        ensures
            step == ReturnStep::toward(Place::Reserve, buffer, capped),
            capped ==> step == (ReturnStep::Claim { place: Place::Reserve, buffer }),
            !capped ==> step == (ReturnStep::Push { place: Place::Reserve, buffer }),
    {
        if capped {
            ReturnStep::Claim { place: Place::Reserve, buffer }
        } else {
            ReturnStep::Push { place: Place::Reserve, buffer }
        }
    }

    /// One was added to the parked count, which was `before` until then.
    pub fn claimed(place: Place, buffer: T, before: usize, max_idle: usize) -> (step: ReturnStep<T>)
        ensures
            step == ReturnStep::after_claim(place, buffer, before as int, max_idle),
            before < max_idle ==> step == (ReturnStep::Push { place, buffer }),
            before >= max_idle ==> step == (ReturnStep::Unclaim { buffer }),
    {
        if before >= max_idle {
            ReturnStep::Unclaim { buffer }
        } else {
            ReturnStep::Push { place, buffer }
        }
    }

    /// The buffer was pushed.
    pub fn pushed() -> (step: ReturnStep<T>)
        ensures
            step == (ReturnStep::<T>::Done { excess: None }),
    {
        ReturnStep::Done { excess: None }
    }

    /// The claim for `buffer` was given back.
    pub fn unclaimed(buffer: T) -> (step: ReturnStep<T>)
        ensures
            step == (ReturnStep::Done { excess: Some(buffer) }),
    {
        ReturnStep::Done { excess: Some(buffer) }
    }
}

/// Where a drain is.
#[derive(Debug, Clone, Copy, PartialEq, Eq, Structural)]
pub enum DrainStep {
    /// Take everything out of the pile at `place`.
    Take { place: Place },
    /// Take what was gathered off the parked count.
    Unpark,
    /// Every pile was emptied once.
    Done,
}

impl DrainStep {
    /// Where a drain of a pool with `shards` shards is once the pile at `place`
    /// was emptied.
    pub open spec fn after_take(place: Place, shards: int, capped: bool) -> DrainStep {
        match place.successor(shards) {
            Some(next) => DrainStep::Take { place: next },
            None => if capped {
                DrainStep::Unpark
            } else {
                DrainStep::Done
            },
        }
    }

    /// A drain begins.
    pub fn start() -> (step: DrainStep)
        ensures
            step == (DrainStep::Take { place: Place::Shard { index: 0 } }),
    {
        DrainStep::Take { place: Place::first() }
    }

    /// The pile at `place` was emptied; a parked count is kept exactly when the
    /// pool is `capped`.
    pub fn taken(place: Place, shards: usize, capped: bool) -> (step: DrainStep)
        requires
            place.is_in(shards as int),
        ensures
            step == DrainStep::after_take(place, shards as int, capped),
            match place {
                Place::Shard { index } => step == if index + 1 < shards {
                    DrainStep::Take { place: Place::Shard { index: (index + 1) as usize } }
                } else {
                    DrainStep::Take { place: Place::Reserve }
                },
                Place::Reserve => step == if capped {
                    DrainStep::Unpark
                } else {
                    DrainStep::Done
                },
            },
    {
        match place.next(shards) {
            Some(next) => DrainStep::Take { place: next },
            None => if capped {
                DrainStep::Unpark
            } else {
                DrainStep::Done
            },
        }
    }

    /// What was gathered was taken off the parked count.
    pub fn unparked() -> (step: DrainStep)
        ensures
            step == DrainStep::Done,
    {
        DrainStep::Done
    }
}

/// The parked count that a pool with `idle` idle buffers starts with under the
/// cap `max_idle`. Without a cap none is kept.
pub fn parked_from(max_idle: usize, idle: usize) -> (parked: Option<usize>)
    ensures
        parked == if max_idle == usize::MAX {
            None
        } else {
            Some(idle)
        },
{
    if max_idle == usize::MAX {
        None
    } else {
        Some(idle)
    }
}

} // verus!
