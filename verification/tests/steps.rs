//! Operations on a shared pool step by step, with those of other threads in
//! between.

use par_buffer_pool::{
    parked_from, shard_for, BufferPool, DrainStep, LeaseStep, Place, PoolInner, PoolParts,
    ReturnStep, StockStep,
};
use rayon::iter::{IntoParallelIterator, ParallelIterator};
use std::sync::atomic::{AtomicUsize, Ordering};
use std::sync::Mutex;

/// The parts of a pool, each behind its own lock.
struct Shared {
    shards: Vec<Mutex<Vec<u32>>>,
    reserve: Mutex<Vec<u32>>,
    max_idle: usize,
    parked: Option<AtomicUsize>,
}

impl Shared {
    fn new(parts: PoolParts<u32>) -> Shared {
        Shared {
            shards: parts.shards.into_iter().map(Mutex::new).collect(),
            reserve: Mutex::new(parts.reserve),
            max_idle: parts.max_idle,
            parked: parts.parked.map(AtomicUsize::new),
        }
    }

    fn pile(&self, place: Place) -> &Mutex<Vec<u32>> {
        match place {
            Place::Shard { index } => &self.shards[index],
            Place::Reserve => &self.reserve,
        }
    }

    fn parked(&self) -> usize {
        self.parked.as_ref().unwrap().load(Ordering::SeqCst)
    }

    fn idle(&self) -> usize {
        let mut count = 0;
        let mut next = Some(Place::first());
        while let Some(place) = next {
            count += self.pile(place).lock().unwrap().len();
            next = place.next(self.shards.len());
        }
        count
    }

    /// Makes one step of a return.
    fn step(&self, step: ReturnStep<u32>) -> ReturnStep<u32> {
        match step {
            ReturnStep::Claim { place, buffer } => {
                let before = self.parked.as_ref().unwrap().fetch_add(1, Ordering::SeqCst);
                ReturnStep::claimed(place, buffer, before, self.max_idle)
            }
            ReturnStep::Push { place, buffer } => {
                self.pile(place).lock().unwrap().push(buffer);
                ReturnStep::pushed()
            }
            ReturnStep::Unclaim { buffer } => {
                self.parked.as_ref().unwrap().fetch_sub(1, Ordering::SeqCst);
                ReturnStep::unclaimed(buffer)
            }
            done => done,
        }
    }

    fn begin(&self, thread: usize, buffer: u32) -> ReturnStep<u32> {
        let index = shard_for(thread, self.shards.len() - 1);
        ReturnStep::start(index, buffer, self.parked.is_some())
    }

    /// Goes through with a return, and says whether the buffer was kept.
    fn put(&self, thread: usize, buffer: u32) -> bool {
        let mut step = self.begin(thread, buffer);
        loop {
            step = match step {
                ReturnStep::Done { excess } => return excess.is_none(),
                other => self.step(other),
            };
        }
    }

    fn begin_lease(&self, thread: usize) -> LeaseStep<u32> {
        LeaseStep::start(shard_for(thread, self.shards.len() - 1))
    }

    /// Makes one step of a lease.
    fn lease_step(&self, step: LeaseStep<u32>) -> LeaseStep<u32> {
        match step {
            LeaseStep::CountLease { index } => LeaseStep::lease_counted(index),
            LeaseStep::Pop { place } => {
                let popped = self.pile(place).lock().unwrap().pop();
                LeaseStep::popped(place, popped, self.parked.is_some())
            }
            LeaseStep::Unpark { buffer } => {
                self.parked.as_ref().unwrap().fetch_sub(1, Ordering::SeqCst);
                LeaseStep::unparked(buffer)
            }
            LeaseStep::CountAllocation => LeaseStep::allocation_counted(),
            done => done,
        }
    }

    fn take(&self, thread: usize) -> Option<u32> {
        let mut step = self.begin_lease(thread);
        loop {
            step = match step {
                LeaseStep::Done { found } => return found,
                other => self.lease_step(other),
            };
        }
    }
}

fn capped(max_idle: usize) -> Shared {
    let mut inner = PoolInner::new(None);
    inner.set_max_idle(max_idle);
    Shared::new(inner.into_parts())
}

#[test]
fn returns_in_lockstep_respect_the_cap() {
    let shared = capped(3);
    let mut steps = Vec::new();
    for thread in 0..6 {
        steps.push(shared.begin(thread, thread as u32));
    }
    // Every claim comes before any push or refusal.
    let steps: Vec<_> = steps.into_iter().map(|step| shared.step(step)).collect();
    assert_eq!(shared.parked(), 6, "refused claims are still to be given back");
    assert_eq!(shared.idle(), 0);
    let mut refused = Vec::new();
    for step in steps {
        if let ReturnStep::Done {
            excess: Some(buffer),
        } = shared.step(step)
        {
            refused.push(buffer);
        }
    }
    assert_eq!(refused, vec![3, 4, 5]);
    assert_eq!(shared.idle(), 3);
    assert_eq!(shared.parked(), 3, "exact once all is quiet");
}

#[test]
fn a_lease_between_claim_and_push_finds_nothing_yet() {
    let shared = capped(1);
    let claimed = shared.step(shared.begin(5, 50));
    assert_eq!(shared.parked(), 1);
    assert_eq!(shared.take(5), None, "the place is claimed and not filled");
    assert!(!shared.put(6, 60), "the place is not free either");
    shared.step(claimed);
    assert_eq!(shared.parked(), 1);
    assert_eq!(shared.take(5), Some(50));
    assert_eq!(shared.parked(), 0);
}

#[test]
fn threads_race_for_the_cap_and_lose_nothing() {
    let shared = capped(40);
    let out = Mutex::new(Vec::new());
    (0..4000_usize).into_par_iter().for_each(|i| {
        let thread = rayon::current_thread_index().unwrap_or(0);
        if !shared.put(thread, i as u32) {
            out.lock().unwrap().push(i as u32);
        }
        if i % 3 == 0 {
            if let Some(buffer) = shared.take(thread) {
                out.lock().unwrap().push(buffer);
            }
        }
    });
    assert!(shared.idle() <= 40);
    assert_eq!(shared.parked(), shared.idle());
    let mut all = out.into_inner().unwrap();
    for pile in shared.shards {
        all.append(&mut pile.into_inner().unwrap());
    }
    all.sort_unstable();
    assert_eq!(all, (0..4000).collect::<Vec<u32>>());
}

#[test]
fn each_step_leads_to_the_next() {
    let home = Place::Shard { index: 2 };
    assert!(matches!(LeaseStep::<u8>::start(2), LeaseStep::CountLease { index: 2 }));
    assert!(matches!(
        LeaseStep::<u8>::lease_counted(2),
        LeaseStep::Pop { place: Place::Shard { index: 2 } }
    ));
    assert!(matches!(
        LeaseStep::popped(home, Some(7), false),
        LeaseStep::Done { found: Some(7) }
    ));
    assert!(matches!(
        LeaseStep::popped(home, Some(7), true),
        LeaseStep::Unpark { buffer: 7 }
    ));
    assert!(matches!(
        LeaseStep::<u8>::popped(home, None, true),
        LeaseStep::Pop { place: Place::Reserve }
    ));
    assert!(matches!(
        LeaseStep::<u8>::popped(Place::Reserve, None, true),
        LeaseStep::CountAllocation
    ));
    assert!(matches!(
        ReturnStep::start(2, 7, false),
        ReturnStep::Push { place: Place::Shard { index: 2 }, buffer: 7 }
    ));
    assert!(matches!(
        ReturnStep::claimed(home, 7, 2, 3),
        ReturnStep::Push { place: Place::Shard { index: 2 }, buffer: 7 }
    ));
    assert!(matches!(
        ReturnStep::claimed(home, 7, 3, 3),
        ReturnStep::Unclaim { buffer: 7 }
    ));
    assert!(matches!(
        ReturnStep::stock(7, true),
        ReturnStep::Claim { place: Place::Reserve, buffer: 7 }
    ));
    assert!(matches!(
        ReturnStep::stock(7, false),
        ReturnStep::Push { place: Place::Reserve, buffer: 7 }
    ));
    assert_eq!(StockStep::start(), StockStep::CountAllocation);
    assert_eq!(StockStep::allocation_counted(), StockStep::Make);
    assert_eq!(DrainStep::start(), DrainStep::Take { place: Place::Shard { index: 0 } });
    assert_eq!(DrainStep::taken(home, 4, true), DrainStep::Take { place: Place::Shard { index: 3 } });
    assert_eq!(DrainStep::taken(home, 3, true), DrainStep::Take { place: Place::Reserve });
    assert_eq!(DrainStep::taken(Place::Reserve, 3, true), DrainStep::Unpark);
    assert_eq!(DrainStep::taken(Place::Reserve, 3, false), DrainStep::Done);
    assert_eq!(Place::Reserve.next(3), None);
    assert_eq!(parked_from(5, 2), Some(2));
    assert_eq!(parked_from(usize::MAX, 2), None);
}

#[test]
fn a_pool_survives_being_taken_apart() {
    let (pool, mut inner) = BufferPool::new(|| vec![0u8; 2], None);
    let pool = pool.with_max_idle(&mut inner, 4).prefill(&mut inner, 1);
    pool.put(&mut inner, 3, vec![7]);
    let parts = inner.into_parts();
    assert_eq!(parts.parked, Some(2));
    assert_eq!(parts.shards[3], vec![vec![7]]);
    assert_eq!(parts.reserve, vec![vec![0, 0]]);
    assert_eq!(parts.stats.allocations, 1);
    // A count that is off does not matter: what is parked is counted anew.
    let mut inner = PoolInner::from_parts(PoolParts { parked: None, ..parts });
    assert_eq!(inner.max_idle(), 4);
    for tid in 0..3 {
        pool.put(&mut inner, tid, Vec::new());
    }
    assert_eq!(pool.idle_len(&inner), 4);
    assert_eq!(*pool.get(&mut inner, 3), vec![7]);
}

#[test]
fn an_allocation_is_counted_before_its_buffer_is_made() {
    let mut inner = PoolInner::new(None);
    inner.count_allocation();
    assert_eq!(inner.stats().allocations, 1);
    assert_eq!(inner.stats().leases, 0);
    assert_eq!(inner.count_idle(), 0, "nothing was made yet");
    inner.set_max_idle(1);
    assert_eq!(inner.stock(7), None);
    inner.count_allocation();
    assert_eq!(inner.stock(8), Some(8), "in excess of the cap, and counted");
    assert_eq!(inner.stats().allocations, 2);
    assert_eq!(inner.checkout(9), Some(7));
}

#[test]
fn a_cap_below_what_is_idle_lets_nothing_more_in() {
    let mut inner = PoolInner::new(None);
    for thread in 0..3 {
        inner.recycle(thread, thread as u32);
    }
    inner.set_max_idle(2);
    let shared = Shared::new(inner.into_parts());
    let claims: Vec<_> = (3..6)
        .map(|thread| shared.step(shared.begin(thread, thread as u32)))
        .collect();
    for claim in claims {
        assert!(matches!(shared.step(claim), ReturnStep::Done { excess: Some(_) }));
        assert_eq!(shared.idle(), 3, "what was idle stays, and is the bound");
    }
    assert_eq!(shared.take(0), Some(0));
    assert!(!shared.put(0, 10), "two are left, as many as the cap allows");
    assert_eq!(shared.take(1), Some(1));
    assert!(shared.put(0, 11));
    assert_eq!(shared.idle(), 2);
}

#[test]
fn leases_in_lockstep_share_the_reserve() {
    let mut inner = PoolInner::new(None);
    inner.set_max_idle(3);
    for buffer in 0..3 {
        inner.count_allocation();
        assert_eq!(inner.stock(buffer), None);
    }
    let shared = Shared::new(inner.into_parts());
    let mut steps: Vec<_> = (10..13).map(|thread| shared.begin_lease(thread)).collect();
    // Each round makes one step of every lease; a return comes in between.
    for round in 0..5 {
        steps = steps.into_iter().map(|step| shared.lease_step(step)).collect();
        if round == 1 {
            assert!(!shared.put(20, 99), "the reserve still fills the cap");
        }
    }
    let mut found: Vec<u32> = steps
        .into_iter()
        .map(|step| match step {
            LeaseStep::Done { found: Some(buffer) } => buffer,
            other => panic!("a lease was not served: {other:?}"),
        })
        .collect();
    found.sort_unstable();
    assert_eq!(found, vec![0, 1, 2]);
    assert_eq!(shared.parked(), 0);
    assert_eq!(shared.take(13), None, "one lease more than the reserve held");
}

#[test]
fn racing_leases_of_one_shard_make_as_many_buffers_as_were_out_at_once() {
    let shared = Shared::new(PoolInner::new(None).into_parts());
    // Ids as far apart as there are shards use the same pile.
    let (a, b) = (1, 1 + shared.shards.len());
    let pop = |thread| shared.lease_step(shared.lease_step(shared.begin_lease(thread)));
    let missed = |step| matches!(step, LeaseStep::Pop { place: Place::Reserve });
    assert!(missed(pop(a)), "one out, one to make");
    let back = shared.begin(a, 10);
    assert!(missed(pop(b)), "two out: the return has begun and not pushed");
    shared.step(back);
    assert!(matches!(pop(b), LeaseStep::Done { found: Some(10) }), "two out again");
    assert!(shared.put(b, 11));
    assert!(shared.put(a, 12));
    assert_eq!(shared.idle(), 2, "as many as were ever out at once");
    assert!(matches!(pop(a), LeaseStep::Done { found: Some(12) }));
    assert!(matches!(pop(b), LeaseStep::Done { found: Some(11) }));
    assert!(missed(pop(a)), "three out, one more to make");
}
