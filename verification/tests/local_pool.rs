//! The per-thread pool: leases and returns, detaching, the reset hook, slots
//! that are private to a thread, and reclaiming what gone pools left behind.

use par_buffer_pool::{Lives, LocalPooled, PoolStats, Registry, ThreadLocalPool};
use rayon::iter::{IntoParallelIterator, ParallelIterator};
use std::any::Any;
use std::sync::atomic::{AtomicUsize, Ordering};
use std::sync::{Arc, Mutex};

fn assert_send<T: Send>(_: &T) {}

fn assert_sync<T: Sync>(_: &T) {}

/// Counts how often it is dropped.
struct Counted(Arc<AtomicUsize>);

impl Drop for Counted {
    fn drop(&mut self) {
        self.0.fetch_add(1, Ordering::SeqCst);
    }
}

#[test]
fn parked_buffer_is_thread_scoped_and_recycled() {
    let mut lives = Lives::new();
    let mut registry = Registry::new();
    let mut counters = PoolStats::new();
    let pool = ThreadLocalPool::new(&mut lives, || vec![0u8; 8]);
    {
        let mut buf = pool.get(&mut registry, &lives, &mut counters);
        buf[0] = 42;
        buf.release(&mut registry, &lives);
    }
    assert_eq!(pool.idle_len(&mut registry, &lives), 1);
    let recycled = pool.get(&mut registry, &lives, &mut counters);
    assert_eq!(recycled[0], 42);
}

#[test]
fn reclaiming_a_dropped_pool_frees_its_parked_buffer() {
    let mut lives = Lives::new();
    let mut registry = Registry::new();
    let mut counters = PoolStats::new();
    let drops = Arc::new(AtomicUsize::new(0));
    let counter = Arc::clone(&drops);
    let dead = ThreadLocalPool::new(&mut lives, move || Counted(Arc::clone(&counter)));
    dead.get(&mut registry, &lives, &mut counters)
        .release(&mut registry, &lives); // parked on this thread
    lives.retire(dead.pool_id());
    drop(dead); // pool gone; the parked buffer now outlives its pool

    assert_eq!(drops.load(Ordering::SeqCst), 0, "parked until a sweep");
    // Any access to the registry performs the sweep.
    let nothing = Arc::new(AtomicUsize::new(0));
    let other = ThreadLocalPool::new(&mut lives, move || Counted(Arc::clone(&nothing)));
    let _ = other.idle_len(&mut registry, &lives);
    assert_eq!(
        drops.load(Ordering::SeqCst),
        1,
        "sweep released the dead pool's parked buffer"
    );
}

#[test]
fn handle_and_guard_are_send_and_sync() {
    let mut lives = Lives::new();
    let mut registry = Registry::new();
    let mut counters = PoolStats::new();
    let pool = ThreadLocalPool::new(&mut lives, || vec![0.0f64; 1]);
    assert_send(&pool);
    assert_sync(&pool);
    assert_send(&pool.get(&mut registry, &lives, &mut counters));
}

#[test]
fn drop_parks_buffer_in_this_threads_slot() {
    let mut lives = Lives::new();
    let mut registry = Registry::new();
    let mut counters = PoolStats::new();
    let init_runs = Arc::new(AtomicUsize::new(0));
    let counter = Arc::clone(&init_runs);
    let pool = ThreadLocalPool::new(&mut lives, move || {
        counter.fetch_add(1, Ordering::SeqCst);
        vec![0u8; 16]
    });

    {
        let mut buf = pool.get(&mut registry, &lives, &mut counters);
        buf[0] = 42; // contents survive the round trip
        buf.release(&mut registry, &lives);
    }

    assert_eq!(pool.idle_len(&mut registry, &lives), 1, "parked on this thread");
    let recycled = pool.get(&mut registry, &lives, &mut counters);
    assert_eq!(recycled[0], 42, "the very buffer we returned came back");
    assert_eq!(init_runs.load(Ordering::SeqCst), 1, "no second allocation");
    assert_eq!(
        pool.stats(&counters),
        PoolStats {
            leases: 2,
            allocations: 1
        }
    );
}

#[test]
fn idle_len_is_thread_scoped() {
    // Each thread's slot is invisible to other threads, so the main thread sees
    // nothing even while a worker parks.
    let mut lives = Lives::new();
    let mut main = Registry::new();
    let mut worker = Registry::new();
    let mut counters = PoolStats::new();
    let pool = ThreadLocalPool::new(&mut lives, || vec![0u32; 8]);
    pool.get(&mut worker, &lives, &mut counters)
        .release(&mut worker, &lives);
    assert_eq!(pool.idle_len(&mut worker, &lives), 1, "visible on the parking thread");
    assert_eq!(
        pool.idle_len(&mut main, &lives),
        0,
        "another thread's parked buffer is not ours to count"
    );
}

#[test]
fn early_return_parks_buffer() {
    fn task<I: Fn() -> Vec<i32>, R: Fn(&mut Vec<i32>)>(
        pool: &ThreadLocalPool<I, R>,
        registry: &mut Registry<Vec<i32>>,
        lives: &Lives,
        n: i32,
    ) -> i32 {
        pool.with(registry, lives, &mut PoolStats::new(), |buf| {
            if n < 0 {
                return -1; // early return must not lose the buffer
            }
            buf.push(n);
            buf.iter().sum()
        })
    }

    let mut lives = Lives::new();
    let mut registry = Registry::new();
    let pool = ThreadLocalPool::new(&mut lives, Vec::new);
    assert_eq!(task(&pool, &mut registry, &lives, -5), -1);
    assert_eq!(task(&pool, &mut registry, &lives, 3), 3);
    assert_eq!(pool.idle_len(&mut registry, &lives), 1);
}

#[test]
fn local_pool_into_inner_detaches_and_put_re_pools() {
    let mut lives = Lives::new();
    let mut registry = Registry::new();
    let mut counters = PoolStats::new();
    let pool = ThreadLocalPool::new(&mut lives, Vec::<u8>::new);

    let owned = {
        let mut buf = pool.get(&mut registry, &lives, &mut counters);
        buf.extend_from_slice(b"result");
        buf.into_inner() // keep it
    };
    assert_eq!(owned, b"result");
    assert_eq!(pool.idle_len(&mut registry, &lives), 0);

    // a detached buffer can be re-pooled by hand once it is done being a result
    pool.put(&mut registry, &lives, owned);
    assert_eq!(pool.idle_len(&mut registry, &lives), 1);
    assert!(pool
        .get(&mut registry, &lives, &mut counters)
        .starts_with(b"result"));
}

#[test]
fn local_pool_reset_hook_runs_on_every_return() {
    let mut lives = Lives::new();
    let mut registry = Registry::new();
    let mut counters = PoolStats::new();
    let pool = ThreadLocalPool::new(&mut lives, || vec![1.0f64; 4])
        .with_reset(|buf: &mut Vec<f64>| buf.fill(0.0));

    let mut first = pool.get(&mut registry, &lives, &mut counters);
    first.fill(9.0);
    first.release(&mut registry, &lives); // reset on the way back
    let clean = pool.get(&mut registry, &lives, &mut counters);
    assert!(clean.iter().all(|&x| x == 0.0), "leased clean after a release");
    clean.release(&mut registry, &lives);

    let mut second = pool.get(&mut registry, &lives, &mut counters);
    second.fill(8.0);
    let raw = second.into_inner();
    pool.put(&mut registry, &lives, raw); // reset via manual put
    assert!(
        pool.get(&mut registry, &lives, &mut counters)
            .iter()
            .all(|&x| x == 0.0),
        "leased clean after put-return"
    );
}

#[test]
fn with_checks_out_and_returns_like_a_guard() {
    let mut lives = Lives::new();
    let mut registry = Registry::new();
    let mut counters = PoolStats::new();
    let pool = ThreadLocalPool::new(&mut lives, || vec![0u8; 8]);
    let got = pool.with(&mut registry, &lives, &mut counters, |buf| {
        buf[0] = 7;
        buf[0]
    });
    assert_eq!(got, 7);
    assert_eq!(pool.idle_len(&mut registry, &lives), 1);
    assert_eq!(pool.stats(&counters).allocations, 1);
}

#[test]
fn nested_leases_allocate_fresh_instead_of_panicking() {
    // A lease while another is out finds an empty slot and allocates. The single
    // slot means that the outer return replaces the inner one.
    let mut lives = Lives::new();
    let mut registry = Registry::new();
    let mut counters = PoolStats::new();
    let pool = ThreadLocalPool::new(&mut lives, || vec![0u8; 4]);
    let mut outer = pool.get(&mut registry, &lives, &mut counters);
    let mut inner = pool.get(&mut registry, &lives, &mut counters);
    outer[0] = 1;
    inner[0] = 2;
    inner.release(&mut registry, &lives);
    assert_eq!(
        pool.idle_len(&mut registry, &lives),
        1,
        "inner parked; outer still checked out"
    );
    assert_eq!(outer[0], 1);
    outer.release(&mut registry, &lives);
    assert_eq!(pool.idle_len(&mut registry, &lives), 1);
    let buf = pool.get(&mut registry, &lives, &mut counters);
    assert_eq!(buf[0], 1, "the outer buffer is the parked one");
    buf.release(&mut registry, &lives);
    assert_eq!(pool.stats(&counters).allocations, 2, "two buffers were created");
}

#[test]
fn local_pool_sequential_leases_recycle_one_buffer() {
    let mut lives = Lives::new();
    let mut registry = Registry::new();
    let mut counters = PoolStats::new();
    let pool = ThreadLocalPool::new(&mut lives, || vec![0u32; 64]);
    for k in 0..100 {
        let mut buf = pool.get(&mut registry, &lives, &mut counters);
        buf[0] = k;
        buf.release(&mut registry, &lives);
    }
    let stats = pool.stats(&counters);
    assert_eq!(stats.leases, 100);
    assert_eq!(stats.allocations, 1);
    assert_eq!(stats.reuses(), 99);
}

#[test]
fn guard_migrates_to_whichever_thread_drops_it() {
    // A lease taken on a worker thread can end on the main thread; the buffer
    // then parks in the main thread's slot.
    let mut lives = Lives::new();
    let mut main = Registry::new();
    let mut worker = Registry::new();
    let mut counters = PoolStats::new();
    let pool = ThreadLocalPool::new(&mut lives, || vec![0u32; 8]);
    let mut buf = pool.get(&mut worker, &lives, &mut counters);
    buf[0] = 7;
    assert_eq!(buf[0], 7);
    buf.release(&mut main, &lives); // parked on the main thread now
    assert_eq!(
        pool.idle_len(&mut main, &lives),
        1,
        "the buffer migrated to the releasing thread's slot"
    );
    assert_eq!(pool.idle_len(&mut worker, &lives), 0);
}

#[test]
fn dropping_the_pool_reclaims_parked_buffers_on_other_threads() {
    let mut lives = Lives::new();
    let mut main = Registry::new();
    let mut worker = Registry::new();
    let mut counters = PoolStats::new();
    let drops = Arc::new(AtomicUsize::new(0));
    let counter = Arc::clone(&drops);
    let pool = ThreadLocalPool::new(&mut lives, move || Counted(Arc::clone(&counter)));
    pool.get(&mut worker, &lives, &mut counters)
        .release(&mut worker, &lives); // parked on the worker thread
    assert_eq!(drops.load(Ordering::SeqCst), 0, "parked, pool still alive");
    lives.retire(pool.pool_id());
    drop(pool);

    // Any thread's next registry access sweeps its own dead slots.
    let nothing = Arc::new(AtomicUsize::new(0));
    let other = ThreadLocalPool::new(&mut lives, move || Counted(Arc::clone(&nothing)));
    let _ = other.idle_len(&mut main, &lives);
    assert_eq!(drops.load(Ordering::SeqCst), 0, "not this thread's to reclaim");
    let _ = other.idle_len(&mut worker, &lives); // the worker's sweep
    assert_eq!(
        drops.load(Ordering::SeqCst),
        1,
        "worker reclaimed the dead pool's buffer"
    );
}

#[test]
fn local_pool_cloned_handles_share_state() {
    let mut lives = Lives::new();
    let mut registry = Registry::new();
    let mut counters = PoolStats::new();
    let pool = Arc::new(ThreadLocalPool::new(&mut lives, || vec![0u16; 4]));
    let clone = Arc::clone(&pool);

    let buf = pool.get(&mut registry, &lives, &mut counters);
    assert_eq!(clone.idle_len(&mut registry, &lives), 0);
    buf.release(&mut registry, &lives);
    assert_eq!(
        clone.idle_len(&mut registry, &lives),
        1,
        "state is shared, not copied"
    );

    assert_eq!(clone.stats(&counters).leases, 1);
}

#[test]
fn local_pool_rayon_stress_allocates_at_most_one_buffer_per_thread() {
    let ntasks = 20_000;
    let nthreads = rayon::current_num_threads();
    let mut lives = Lives::new();
    let pool = ThreadLocalPool::new(&mut lives, || vec![0u64; 64]);
    let lives = lives;
    let counters = Mutex::new(PoolStats::new());
    // One registry per worker, used by that worker alone.
    let registries: Vec<Mutex<Registry<Vec<u64>>>> =
        (0..nthreads).map(|_| Mutex::new(Registry::new())).collect();
    let checksum: u64 = (0..ntasks)
        .into_par_iter()
        .map(|task: usize| {
            let mut registry = registries[rayon::current_thread_index().unwrap()]
                .lock()
                .unwrap();
            let mut buf = pool.get(&mut registry, &lives, &mut counters.lock().unwrap());
            buf.fill(task as u64);
            let sum = buf.iter().sum::<u64>();
            buf.release(&mut registry, &lives);
            sum
        })
        .sum();

    assert!(checksum > 0);
    let stats = pool.stats(&counters.lock().unwrap());
    assert_eq!(stats.leases, ntasks);
    assert!(stats.allocations >= 1, "work actually happened");
    assert!(
        stats.allocations <= nthreads,
        "allocations ({}) exceeded thread count ({})",
        stats.allocations,
        nthreads
    );
    for registry in &registries {
        assert!(
            pool.idle_len(&mut registry.lock().unwrap(), &lives) <= 1,
            "a thread parks at most one buffer, however busy it was"
        );
    }
}

#[test]
fn static_initializer_with_scoped_threads() {
    let dims = [32_usize, 48];
    let mut lives = Lives::new();
    let pool = ThreadLocalPool::new(&mut lives, move || vec![0.0f64; dims[0] * dims[1]]);
    let lives = lives;
    let counters = Mutex::new(PoolStats::new());

    rayon::scope(|s| {
        for t in 0..4 {
            let (pool, lives, counters) = (&pool, &lives, &counters);
            s.spawn(move |_| {
                let mut registry = Registry::new();
                let mut buf = pool.get(&mut registry, lives, &mut counters.lock().unwrap());
                assert_eq!(buf.len(), 32 * 48);
                buf[0] = t as f64;
                buf.release(&mut registry, lives);
            });
        }
    });

    let counters = counters.into_inner().unwrap();
    assert_eq!(pool.stats(&counters).leases, 4);
    assert!(pool.stats(&counters).allocations <= 4);
}

#[test]
fn local_pool_debug_impls_do_not_panic() {
    let mut lives = Lives::new();
    let mut registry = Registry::new();
    let mut counters = PoolStats::new();
    let pool = ThreadLocalPool::new(&mut lives, || vec![1.0f64; 2]);
    let guard = pool.get(&mut registry, &lives, &mut counters);
    let _ = format!("{registry:?} {:?} {:?}", *guard, pool.stats(&counters));
}

#[test]
fn local_pool_pooled_works_for_non_default_and_odd_types() {
    // T needs no Default/Clone/Debug — only the initializer's output.
    struct Opaque(#[allow(dead_code)] u64);
    let mut lives = Lives::new();
    let mut registry = Registry::new();
    let mut counters = PoolStats::new();
    let pool = ThreadLocalPool::new(&mut lives, || Opaque(3));
    for _ in 0..2 {
        pool.get(&mut registry, &lives, &mut counters)
            .release(&mut registry, &lives);
    }
    assert_eq!(pool.stats(&counters).allocations, 1);
}

#[test]
fn pools_of_many_types_share_one_registry_safely() {
    // One registry of erased buffers serves pools of every element type; a slot
    // only ever holds what its own pool made.
    type Erased = Box<dyn Any + Send>;
    fn lease<I: Fn() -> Erased, R: Fn(&mut Erased)>(
        pool: &ThreadLocalPool<I, R>,
        registry: &mut Registry<Erased>,
        lives: &Lives,
        check: impl Fn(&Erased) -> bool,
    ) -> bool {
        let buf: LocalPooled<'_, Erased, I, R> = pool.get(registry, lives, &mut PoolStats::new());
        let held = check(&buf);
        buf.release(registry, lives);
        held
    }
    fn holds<T: Any + PartialEq>(buf: &Erased, value: T) -> bool {
        buf.downcast_ref::<T>() == Some(&value)
    }

    let mut lives = Lives::new();
    let mut registry = Registry::new();
    let a = ThreadLocalPool::new(&mut lives, || Box::new(vec![1u8; 3]) as Erased);
    let b = ThreadLocalPool::new(&mut lives, || Box::new(String::from("b")) as Erased);
    let c = ThreadLocalPool::new(&mut lives, || Box::new((1u32, 2u32)) as Erased);

    assert!(lease(&a, &mut registry, &lives, |x| holds(x, vec![1u8, 1, 1])));
    assert!(lease(&b, &mut registry, &lives, |x| holds(x, String::from("b"))));
    assert!(lease(&c, &mut registry, &lives, |x| holds(x, (1u32, 2u32))));
    assert_eq!(a.idle_len(&mut registry, &lives), 1);
    assert_eq!(b.idle_len(&mut registry, &lives), 1);
    assert_eq!(c.idle_len(&mut registry, &lives), 1);
    assert!(
        lease(&a, &mut registry, &lives, |x| holds(x, vec![1u8, 1, 1])),
        "no cross-type slot confusion"
    );
}

#[test]
fn slots_made_to_reach_a_later_pool_are_put_right() {
    let mut lives = Lives::new();
    let mut registry = Registry::new();
    let mut counters = PoolStats::new();
    let early = ThreadLocalPool::new(&mut lives, || 1u8);
    let late = ThreadLocalPool::new(&mut lives, || 2u8);
    // The later pool is touched first, which makes a slot for the earlier one.
    late.get(&mut registry, &lives, &mut counters)
        .release(&mut registry, &lives);
    assert_eq!(early.idle_len(&mut registry, &lives), 0);
    early.put(&mut registry, &lives, 9);
    // With the later pool gone, what is parked for the earlier one stays.
    lives.retire(late.pool_id());
    assert_eq!(early.drain(&mut registry, &lives), vec![9]);
    assert_eq!(early.drain(&mut registry, &lives), Vec::<u8>::new());
    assert_eq!(late.idle_len(&mut registry, &lives), 0);
}

#[test]
fn drain_takes_the_one_parked_buffer() {
    let mut lives = Lives::new();
    let mut registry = Registry::new();
    let mut counters = PoolStats::new();
    let pool = ThreadLocalPool::new(&mut lives, || vec![0u8; 1024])
        .with_reset(|buf: &mut Vec<u8>| buf.push(1));
    assert_eq!(pool.drain(&mut registry, &lives).len(), 0, "nothing parked yet");
    pool.get(&mut registry, &lives, &mut counters)
        .release(&mut registry, &lives);
    let drained = pool.drain(&mut registry, &lives);
    assert_eq!(drained.len(), 1);
    assert_eq!(drained[0].len(), 1025, "the hook ran on the return and not again");
    assert_eq!(pool.idle_len(&mut registry, &lives), 0);
    assert_eq!(pool.drain(&mut registry, &lives).len(), 0);
    let _ = pool.get(&mut registry, &lives, &mut counters);
    assert_eq!(pool.stats(&counters).allocations, 2);
}

#[test]
fn parking_over_a_parked_buffer_drops_it() {
    let mut lives = Lives::new();
    let mut registry = Registry::new();
    let drops = Arc::new(AtomicUsize::new(0));
    let counter = Arc::clone(&drops);
    let pool = ThreadLocalPool::new(&mut lives, move || Counted(Arc::clone(&counter)));
    pool.put(&mut registry, &lives, Counted(Arc::clone(&drops)));
    pool.put(&mut registry, &lives, Counted(Arc::clone(&drops)));
    assert_eq!(drops.load(Ordering::SeqCst), 1);
    assert_eq!(pool.idle_len(&mut registry, &lives), 1);
}

#[test]
fn ids_are_dense_and_never_used_twice() {
    let mut lives = Lives::new();
    assert_eq!(lives.epoch(), 0);
    let first = lives.register();
    let second = lives.register();
    lives.retire(first);
    let third = lives.register();
    assert_eq!((first, second, third), (0, 1, 2));
    assert_eq!(lives.epoch(), 1);
    lives.retire(third);
    assert_eq!(lives.epoch(), 2);
}

#[test]
fn one_buffer_per_thread_that_leased() {
    let mut lives = Lives::new();
    let pool = ThreadLocalPool::new(&mut lives, || vec![0u8; 4]);
    let mut counters = PoolStats::new();
    let mut threads: Vec<Registry<Vec<u8>>> = (0..5).map(|_| Registry::new()).collect();
    for round in 0..10 {
        for thread in [0, 2, 3] {
            let lease = pool.get(&mut threads[thread], &lives, &mut counters);
            assert_eq!(pool.idle_len(&mut threads[thread], &lives), 0);
            lease.release(&mut threads[thread], &lives);
        }
        assert_eq!(counters.leases, 3 * (round + 1));
        assert_eq!(counters.allocations, 3, "threads 1 and 4 never leased");
    }
    let idle: Vec<usize> = threads
        .iter_mut()
        .map(|registry| pool.idle_len(registry, &lives))
        .collect();
    assert_eq!(idle, vec![1, 0, 1, 1, 0]);
}
