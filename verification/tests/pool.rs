//! The shared pool: leases and returns, detaching, the reset hook, the idle
//! cap, stocking in advance, draining, and use from many threads.

use par_buffer_pool::{
    shard_count, BufferPool, PoolInner, PoolStats, SharedPooled, SharedPooledOwned, MIN_SHARDS,
};
use rayon::iter::{IntoParallelIterator, ParallelIterator};
use std::rc::Rc;
use std::sync::atomic::{AtomicUsize, Ordering};
use std::sync::{Arc, Mutex};

fn assert_send<T: Send>(_: &T) {}

fn assert_sync<T: Sync>(_: &T) {}

/// The id that stands for the test's own thread.
const MAIN: usize = 0;

#[test]
fn shards_are_sized_to_the_machine() {
    for n in 1..600_usize {
        let expected = n.next_power_of_two().max(MIN_SHARDS);
        assert_eq!(shard_count(Some(n)), expected);
    }
    assert_eq!(shard_count(Some(1 << 20)), 1 << 20);
    assert_eq!(shard_count(Some((1 << 20) + 1)), 1 << 21);
    assert_eq!(shard_count(None), MIN_SHARDS);
    assert_eq!(shard_count(Some(200)), 256);

    // The pool has that many piles: ids that far apart share one.
    let (pool, mut inner) = BufferPool::new(Vec::<u8>::new, Some(200));
    pool.put(&mut inner, MAIN, vec![7]);
    assert_eq!(*pool.get(&mut inner, 255), Vec::<u8>::new());
    assert_eq!(*pool.get(&mut inner, 256), vec![7]);
}

#[test]
fn owned_guard_keeps_pool_alive_after_handles_are_dropped() {
    let (pool, mut inner) = BufferPool::new(|| vec![0.0f64; 8], None);
    let pool = Arc::new(pool);
    let guard = pool.get_owned(&mut inner, MAIN);
    let orphan = Arc::clone(&pool);
    drop(pool);
    drop(orphan);
    // The lease holds the last share of the pool and still returns its buffer.
    guard.release(&mut inner, MAIN);
    assert_eq!(inner.count_idle(), 1);
}

#[test]
fn prefill_in_the_reserve_serves_cold_leases_on_any_thread() {
    let (pool, mut inner) = BufferPool::new(|| vec![0u8; 8], None);
    let pool = pool.prefill(&mut inner, 4);
    let mut leases = Vec::new();
    for worker in 1..5 {
        let buf = pool.get(&mut inner, worker);
        assert_eq!(buf.len(), 8);
        leases.push((worker, buf));
    }
    for (worker, buf) in leases {
        buf.release(&mut inner, worker);
    }
    assert_eq!(pool.stats(&inner).allocations, 4, "no lease ran the initializer");
    assert_eq!(pool.idle_len(&inner), 4, "every pre-filled buffer came back");
}

#[test]
fn a_buffer_parks_in_the_thread_that_returns_it() {
    let (pool, mut inner) = BufferPool::new(|| vec![0u8; 4], None);
    let worker = 1;
    pool.get(&mut inner, worker).release(&mut inner, worker);
    assert_eq!(pool.idle_len(&inner), 1, "parked in the worker's shard");
    pool.get(&mut inner, MAIN).release(&mut inner, MAIN);
    assert_eq!(pool.stats(&inner).allocations, 2, "main's lease initialized fresh");
    assert_eq!(pool.idle_len(&inner), 2, "one parked per shard now");
}

#[test]
fn max_idle_is_global_across_shards() {
    let (pool, mut inner) = BufferPool::new(|| vec![0u8; 2], None);
    let pool = pool.with_max_idle(&mut inner, 3);
    let mut leases = Vec::new();
    for worker in 0..6 {
        leases.push((worker, pool.get(&mut inner, worker)));
    }
    for (worker, lease) in leases {
        lease.release(&mut inner, worker);
    }
    assert_eq!(pool.idle_len(&inner), 3, "the cap bounds the pool total");
}

#[test]
fn drain_gathers_every_shard_and_the_reserve() {
    let (pool, mut inner) = BufferPool::new(|| vec![0u8; 2], None);
    let pool = pool.prefill(&mut inner, 2);
    for worker in 1..3 {
        pool.put(&mut inner, worker, vec![1u8; 2]);
    }
    assert_eq!(pool.idle_len(&inner), 4, "two shards plus a stocked reserve");
    assert_eq!(pool.drain(&mut inner).len(), 4, "nothing strands in any pile");
    assert_eq!(pool.idle_len(&inner), 0);
}

#[test]
fn send_sync_when_t_is_send() {
    let (pool, mut inner) = BufferPool::new(|| vec![0.0f64; 1], None);
    assert_send(&pool);
    assert_sync(&pool);
    assert_send(&inner);
    assert_send(&pool.get(&mut inner, MAIN));
    let (rc_pool, mut rc_inner) = BufferPool::new(|| Rc::new(7u32), None);
    assert_eq!(*rc_pool.get(&mut rc_inner, MAIN), Rc::new(7u32));
}

#[test]
fn drop_returns_buffer_to_pool() {
    let init_runs = AtomicUsize::new(0);
    let (pool, mut inner) = BufferPool::new(
        || {
            init_runs.fetch_add(1, Ordering::SeqCst);
            vec![0u8; 16]
        },
        None,
    );

    {
        let mut buf = pool.get(&mut inner, MAIN);
        buf[0] = 42; // contents survive the round trip
        buf.release(&mut inner, MAIN);
    }

    assert_eq!(pool.idle_len(&inner), 1);
    let recycled = pool.get(&mut inner, MAIN);
    assert_eq!(recycled[0], 42, "the very buffer we returned came back");
    assert_eq!(init_runs.load(Ordering::SeqCst), 1, "no second allocation");
    assert_eq!(
        pool.stats(&inner),
        PoolStats {
            leases: 2,
            allocations: 1
        }
    );
}

#[test]
fn early_return_returns_buffer() {
    fn task<I: Fn() -> Vec<i32>, R: Fn(&mut Vec<i32>)>(
        pool: &BufferPool<I, R>,
        inner: &mut PoolInner<Vec<i32>>,
        n: i32,
    ) -> i32 {
        pool.with(inner, MAIN, |buf| {
            if n < 0 {
                return -1; // early return must not lose the buffer
            }
            buf.push(n);
            buf.iter().sum()
        })
    }

    let (pool, mut inner) = BufferPool::new(Vec::new, None);
    assert_eq!(task(&pool, &mut inner, -5), -1);
    assert_eq!(task(&pool, &mut inner, 3), 3);
    assert_eq!(pool.idle_len(&inner), 1);
}

#[test]
fn pool_into_inner_detaches_and_put_re_pools() {
    let (pool, mut inner) = BufferPool::new(Vec::<u8>::new, None);

    let owned = {
        let mut buf = pool.get(&mut inner, MAIN);
        buf.extend_from_slice(b"result");
        buf.into_inner() // keep it
    };
    assert_eq!(owned, b"result");
    assert_eq!(pool.idle_len(&inner), 0);

    // a detached buffer can be re-pooled by hand once it is done being a result
    pool.put(&mut inner, MAIN, owned);
    assert_eq!(pool.idle_len(&inner), 1);
    assert!(pool.get(&mut inner, MAIN).starts_with(b"result"));
}

#[test]
fn pool_reset_hook_runs_on_every_return() {
    let (pool, mut inner) = BufferPool::new(|| vec![1.0f64; 4], None);
    let pool = pool.with_reset(|buf: &mut Vec<f64>| buf.fill(0.0));

    let mut first = pool.get(&mut inner, MAIN);
    first.fill(9.0);
    first.release(&mut inner, MAIN); // reset on the way back
    let clean = pool.get(&mut inner, MAIN);
    assert!(clean.iter().all(|&x| x == 0.0), "leased clean after a release");
    clean.release(&mut inner, MAIN);

    let mut second = pool.get(&mut inner, MAIN);
    second.fill(8.0);
    let raw = second.into_inner();
    pool.put(&mut inner, MAIN, raw); // reset via manual put
    assert!(
        pool.get(&mut inner, MAIN).iter().all(|&x| x == 0.0),
        "leased clean after put-return"
    );
}

#[test]
fn max_idle_caps_parked_buffers() {
    let (pool, mut inner) = BufferPool::new(Vec::<u8>::new, None);
    let pool = pool.with_max_idle(&mut inner, 3);
    for i in 0..10u8 {
        pool.put(&mut inner, MAIN, vec![i]);
    }
    assert_eq!(pool.idle_len(&inner), 3, "excess buffers are dropped, not parked");
    // The last parked buffer comes first, and the cap does not affect leasing.
    let parked = pool.get(&mut inner, MAIN);
    assert_eq!(*parked, vec![2]);
    parked.release(&mut inner, MAIN);
    // the lease left 2 idle; returning it refilled to 3 (still under cap)
    assert_eq!(pool.idle_len(&inner), 3);
}

#[test]
fn pool_cloned_handles_share_state() {
    let (pool, mut inner) = BufferPool::new(|| vec![0u16; 4], None);
    let pool = Arc::new(pool);
    let clone = Arc::clone(&pool);

    let buf = pool.get(&mut inner, MAIN);
    assert_eq!(clone.idle_len(&inner), 0);
    buf.release(&mut inner, MAIN);
    assert_eq!(clone.idle_len(&inner), 1, "state is shared, not copied");

    assert_eq!(clone.stats(&inner).leases, 1);
}

#[test]
fn pool_sequential_leases_recycle_one_buffer() {
    let (pool, mut inner) = BufferPool::new(|| vec![0u32; 64], None);
    for k in 0..100 {
        let mut buf = pool.get(&mut inner, MAIN);
        buf[0] = k;
        buf.release(&mut inner, MAIN);
    }
    let stats = pool.stats(&inner);
    assert_eq!(stats.leases, 100);
    assert_eq!(stats.allocations, 1);
    assert_eq!(stats.reuses(), 99);
}

#[test]
fn pool_rayon_stress_allocates_at_most_one_buffer_per_thread() {
    let ntasks = 20_000;
    let nthreads = rayon::current_num_threads();
    let (pool, inner) = BufferPool::new(|| vec![0u64; 64], Some(nthreads));
    let inner = Mutex::new(inner);
    let checksum: u64 = (0..ntasks)
        .into_par_iter()
        .map(|task: usize| {
            let tid = rayon::current_thread_index().unwrap();
            let mut buf = pool.get(&mut inner.lock().unwrap(), tid);
            buf.fill(task as u64);
            let sum = buf.iter().sum::<u64>();
            buf.release(&mut inner.lock().unwrap(), tid);
            sum
        })
        .sum();

    assert!(checksum > 0);
    let inner = inner.into_inner().unwrap();
    let stats = pool.stats(&inner);
    assert_eq!(stats.leases, ntasks);
    assert!(stats.allocations >= 1, "work actually happened");
    assert!(
        stats.allocations <= nthreads,
        "allocations ({}) exceeded thread count ({})",
        stats.allocations,
        nthreads
    );
    assert!(pool.idle_len(&inner) <= nthreads);
}

#[test]
fn user_code_runs_while_the_state_is_not_held() {
    // The halves of a lease and of a return that move buffers hold the lock;
    // the initializer and the hook, which use the same pool, do not.
    let (stock, inner) = BufferPool::new(Vec::<u8>::new, None);
    let inner = Mutex::new(inner);
    let init = || {
        inner.lock().unwrap().recycle(1, vec![5]);
        vec![1]
    };
    let (pool, _) = BufferPool::new(init, None);
    let pool = pool.with_reset(|buf: &mut Vec<u8>| {
        let found = inner.lock().unwrap().checkout(1);
        buf.extend(stock.hooks().supply(found));
    });
    let found = inner.lock().unwrap().checkout(MAIN);
    let buf = pool.hooks().supply(found);
    assert_eq!(inner.lock().unwrap().count_idle(), 1);
    let clean = pool.hooks().refresh(buf);
    assert_eq!(clean, vec![1, 5]);
    inner.lock().unwrap().recycle(MAIN, clean);
    assert_eq!(inner.lock().unwrap().count_idle(), 1);
}

#[test]
fn non_static_initializer_with_scoped_threads() {
    // The initializer borrows `dims`, a local.
    struct Dims {
        rows: usize,
        cols: usize,
    }
    let dims = Dims { rows: 32, cols: 48 };
    let (pool, inner) = BufferPool::new(|| vec![0.0f64; dims.rows * dims.cols], None);
    let inner = Mutex::new(inner);

    rayon::scope(|s| {
        for t in 0..4 {
            let (pool, inner) = (&pool, &inner);
            s.spawn(move |_| {
                let mut buf = pool.get(&mut inner.lock().unwrap(), t);
                assert_eq!(buf.len(), 32 * 48);
                buf[0] = t as f64;
                buf.release(&mut inner.lock().unwrap(), t);
            });
        }
    });

    let inner = inner.into_inner().unwrap();
    assert_eq!(pool.stats(&inner).leases, 4);
    assert!(pool.stats(&inner).allocations <= 4);
    assert_eq!(dims.rows, 32);
}

#[test]
fn guard_moves_across_threads_mid_lease() {
    // A lease taken on the main thread can finish on a worker thread.
    let (pool, inner) = BufferPool::new(|| vec![0u32; 8], None);
    let inner = Mutex::new(inner);
    let mut buf = pool.get(&mut inner.lock().unwrap(), MAIN);
    buf[0] = 7;

    rayon::scope(|s| {
        s.spawn(|_| {
            assert_eq!(buf[0], 7);
            buf.release(&mut inner.lock().unwrap(), 1); // returned from this thread
        });
    });
    assert_eq!(pool.idle_len(&inner.lock().unwrap()), 1);
}

#[test]
fn pool_debug_impls_do_not_panic() {
    let (pool, mut inner) = BufferPool::new(|| vec![1.0f64; 2], None);
    let pool = pool.with_max_idle(&mut inner, 4);
    let guard = pool.get(&mut inner, MAIN);
    let _ = format!("{inner:?} {:?} {:?}", *guard, pool.stats(&inner));
}

#[test]
fn pool_pooled_works_for_non_default_and_odd_types() {
    // T needs no Default/Clone/Debug — only the initializer's output.
    struct Opaque(#[allow(dead_code)] u64);
    let (pool, mut inner) = BufferPool::new(|| Opaque(3), None);
    pool.get(&mut inner, MAIN).release(&mut inner, MAIN);
    pool.get(&mut inner, MAIN).release(&mut inner, MAIN);
    assert_eq!(pool.stats(&inner).allocations, 1);
}

#[test]
fn leases_can_be_named() {
    fn first<I, R>(lease: &SharedPooled<'_, Vec<u8>, I, R>) -> u8 {
        lease[0]
    }
    fn first_owned<I, R>(lease: &SharedPooledOwned<Vec<u8>, I, R>) -> u8 {
        lease[0]
    }
    let (pool, mut inner) = BufferPool::new(|| vec![4u8], None);
    let pool = Arc::new(pool);
    assert_eq!(first(&pool.get(&mut inner, MAIN)), 4);
    let mut owned = pool.get_owned(&mut inner, MAIN);
    assert_eq!(first_owned(&owned), 4);
    owned.push(42);
    assert_eq!(owned.into_inner(), vec![4, 42]);
    assert_eq!(pool.idle_len(&inner), 0, "a detached buffer is not recycled");
}

#[test]
fn default_pools_use_the_default_value() {
    let (pool, mut inner) = BufferPool::default::<String>(None);
    assert_eq!(*pool.get(&mut inner, MAIN), "");
    assert_eq!(pool.stats(&inner).allocations, 1);
}

#[test]
fn a_full_pool_still_runs_the_hook_and_drops_the_buffer() {
    let runs = AtomicUsize::new(0);
    let (pool, mut inner) = BufferPool::new(Vec::<u8>::new, None);
    let pool = pool.with_max_idle(&mut inner, 1).with_reset(|buf: &mut Vec<u8>| {
        runs.fetch_add(1, Ordering::SeqCst);
        buf.clear();
    });
    pool.put(&mut inner, MAIN, vec![1]);
    pool.put(&mut inner, MAIN, vec![2]);
    assert_eq!(runs.load(Ordering::SeqCst), 2);
    assert_eq!(pool.drain(&mut inner), vec![Vec::<u8>::new()]);
    assert_eq!(runs.load(Ordering::SeqCst), 2, "draining runs no hook");
}

#[test]
fn a_zero_cap_keeps_nothing() {
    let (pool, mut inner) = BufferPool::new(|| 5u8, None);
    let pool = pool.with_max_idle(&mut inner, 0).prefill(&mut inner, 3);
    assert_eq!(pool.idle_len(&inner), 0);
    pool.get(&mut inner, MAIN).release(&mut inner, MAIN);
    assert_eq!(pool.idle_len(&inner), 0);
    assert_eq!(
        pool.stats(&inner),
        PoolStats {
            leases: 1,
            allocations: 4
        }
    );
}

#[test]
fn a_cap_installed_late_counts_what_is_parked_already() {
    let (pool, mut inner) = BufferPool::new(|| 5u8, None);
    let pool = pool.prefill(&mut inner, 5);
    let pool = pool.with_max_idle(&mut inner, 3);
    assert_eq!(inner.max_idle(), 3);
    assert_eq!(pool.idle_len(&inner), 5, "what is parked stays");
    pool.put(&mut inner, MAIN, 9);
    assert_eq!(pool.idle_len(&inner), 5, "and a further return is dropped");
    for left in [4, 3, 2] {
        pool.get(&mut inner, MAIN).into_inner();
        assert_eq!(pool.idle_len(&inner), left);
    }
    pool.put(&mut inner, MAIN, 9);
    assert_eq!(pool.idle_len(&inner), 3);
    // Taking the cap away lets everything in again.
    let pool = pool.with_max_idle(&mut inner, usize::MAX);
    pool.put(&mut inner, MAIN, 9);
    assert_eq!(pool.idle_len(&inner), 4);
}

#[test]
fn prefill_respects_hook_and_cap() {
    let (pool, mut inner) = BufferPool::new(|| vec![1u8; 2], None);
    let pool = pool
        .with_reset(|buf: &mut Vec<u8>| buf.push(0))
        .with_max_idle(&mut inner, 2)
        .prefill(&mut inner, 4);
    assert_eq!(pool.idle_len(&inner), 2);
    assert_eq!(pool.stats(&inner).allocations, 4);
    assert_eq!(*pool.get(&mut inner, 77), vec![1, 1, 0]);
}

#[test]
fn drain_goes_pile_by_pile_in_parking_order() {
    let (pool, mut inner) = BufferPool::new(|| 0u8, None);
    let pool = pool.prefill(&mut inner, 1);
    pool.put(&mut inner, 3, 31);
    pool.put(&mut inner, 1, 11);
    pool.put(&mut inner, 3, 32);
    pool.put(&mut inner, 1 + 128, 12);
    assert_eq!(pool.drain(&mut inner), vec![11, 12, 31, 32, 0]);
    assert_eq!(pool.drain(&mut inner), Vec::<u8>::new());
    // the pool keeps working, and the next lease is fresh
    assert_eq!(*pool.get(&mut inner, 3), 0);
    assert_eq!(pool.stats(&inner).allocations, 2);
}

#[test]
fn a_drain_leaves_out_what_is_on_lease() {
    let (pool, mut inner) = BufferPool::new(|| vec![0u8; 8], None);
    let held = pool.get(&mut inner, MAIN); // checked out: not in the pile
    pool.get(&mut inner, MAIN).release(&mut inner, MAIN); // a second buffer, parked
    let drained = pool.drain(&mut inner); // only the parked one
    assert_eq!(drained.len(), 1);
    held.release(&mut inner, MAIN); // parks after the drain
    assert_eq!(pool.idle_len(&inner), 1);
}

#[test]
fn the_own_pile_comes_before_the_reserve() {
    let (pool, mut inner) = BufferPool::new(|| 1u8, None);
    let pool = pool.prefill(&mut inner, 1);
    pool.put(&mut inner, MAIN, 2);
    assert_eq!(pool.get(&mut inner, MAIN).into_inner(), 2);
    assert_eq!(pool.get(&mut inner, MAIN).into_inner(), 1);
    assert_eq!(pool.stats(&inner).allocations, 1);
    assert_eq!(pool.get(&mut inner, MAIN).into_inner(), 1);
    assert_eq!(pool.stats(&inner).allocations, 2);
}

#[test]
fn with_returns_the_buffer_and_the_result() {
    let (pool, mut inner) = BufferPool::new(|| vec![0.0f64; 64], None);
    let total: f64 = pool.with(&mut inner, MAIN, |buf| {
        buf.fill(1.0);
        buf.iter().sum()
    });
    assert_eq!(total, 64.0);
    assert_eq!(pool.idle_len(&inner), 1);
}

#[test]
fn buffer_count_is_the_sum_of_the_peaks() {
    let (pool, mut inner) = BufferPool::new(|| 0u8, None);
    // Two at once on one thread, then three at once on another.
    for (tid, depth) in [(1, 2), (2, 3), (1, 1), (2, 2)] {
        let mut leases = Vec::new();
        for _ in 0..depth {
            leases.push(pool.get(&mut inner, tid));
        }
        for lease in leases {
            lease.release(&mut inner, tid);
        }
    }
    assert_eq!(pool.stats(&inner).leases, 8);
    assert_eq!(pool.stats(&inner).allocations, 5);
    assert_eq!(pool.stats(&inner).reuses(), 3);
    assert_eq!(pool.idle_len(&inner), 5);
}

#[test]
fn every_buffer_is_accounted_for() {
    let (pool, mut inner) = BufferPool::new(|| vec![0u8; 2], None);
    let pool = pool.with_max_idle(&mut inner, 2).prefill(&mut inner, 3);
    let held = pool.get(&mut inner, 1);
    let kept = pool.get(&mut inner, 2).into_inner();
    pool.get(&mut inner, 3).release(&mut inner, 3);
    // Two from outside, of which the second finds the pool full.
    pool.put(&mut inner, 4, vec![9]);
    pool.put(&mut inner, 4, vec![8]);
    // On lease, kept out, idle, dropped: made or from outside.
    let stats = pool.stats(&inner);
    let (outstanding, detached, discarded, outside) = (1, 1, 2, 2);
    assert_eq!(stats.allocations, 4);
    assert_eq!(
        outstanding + detached + pool.idle_len(&inner) + discarded,
        stats.allocations + outside
    );
    drop(kept);
    held.release(&mut inner, 1);
    assert_eq!(pool.idle_len(&inner), 2);
}
