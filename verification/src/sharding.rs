//! How threads are spread over the idle piles of a shared pool.

use vstd::arithmetic::power2::*;
use vstd::prelude::*;

verus! {

/// Lower bound on a pool's shard count. Machines with fewer workers pay the
/// same fixed number of empty piles per pool and no more, so that a laptop and
/// a large server differ in memory only.
pub const MIN_SHARDS: usize = 128;

/// The value of a thread's id cell before the thread has been given an id.
pub const UNASSIGNED: usize = usize::MAX;

/// `p` is the least power of two that is not below `n`.
pub open spec fn is_least_pow2_from(p: int, n: int) -> bool {
    &&& is_pow2(p)
    &&& n <= p
    &&& forall|q: int| #[trigger] is_pow2(q) && n <= q ==> p <= q
}

/// `count` is the shard count of a pool made on a machine that reported
/// `parallelism` workers: the least power of two that covers both the workers
/// and [`MIN_SHARDS`].
pub open spec fn is_shard_count(parallelism: Option<usize>, count: int) -> bool {
    match parallelism {
        Some(n) => is_least_pow2_from(count, if n < MIN_SHARDS { MIN_SHARDS as int } else { n as int }),
        None => count == MIN_SHARDS,
    }
}

/// No power of two lies strictly between another and its double.
proof fn lemma_pow2_between(p: int, q: int)
    requires
        is_pow2(p),
        is_pow2(q),
        p < 2 * q,
    ensures
        p <= q,
    decreases p,
{
    reveal(is_pow2);
    if p != 1 && q != 1 {
        lemma_pow2_between(p / 2, q / 2);
    }
}

proof fn lemma_pow2_double(p: int)
    requires
        is_pow2(p),
    ensures
        is_pow2(2 * p),
{
    reveal(is_pow2);
}

proof fn lemma_min_shards_is_pow2()
    ensures
        is_pow2(MIN_SHARDS as int),
{
    reveal_with_fuel(is_pow2, 8);
}

/// The least power of two that is not below `n`.
fn next_power_of_two(n: usize) -> (p: usize)
    requires
        n <= usize::MAX / 2 + 1,
    ensures
        is_least_pow2_from(p as int, n as int),
{
    let mut p: usize = 1;
    proof {
        reveal(is_pow2);
    }
    while p < n
        invariant
            n <= usize::MAX / 2 + 1,
            is_pow2(p as int),
            1 <= p,
            p == 1 || p < 2 * n,
        decreases usize::MAX - p,
    {
        proof {
            lemma_pow2_double(p as int);
        }
        p = p * 2;
    }
    assert forall|q: int| #[trigger] is_pow2(q) && n <= q implies p <= q by {
        reveal(is_pow2);
        if p != 1 {
            lemma_pow2_between(p as int, q);
        }
    }
    p
}

/// Number of idle-buffer shards a new pool gets on a machine that reported
/// `parallelism` workers (`None` where it would not say): the parallelism
/// rounded up to a power of two, so that a thread id maps to a shard by
/// masking, and never less than [`MIN_SHARDS`].
pub fn shard_count(parallelism: Option<usize>) -> (count: usize)
    requires
        parallelism matches Some(n) ==> n <= usize::MAX / 2 + 1,
    ensures
        is_shard_count(parallelism, count as int),
        is_pow2(count as int),
        count >= MIN_SHARDS,
        count >= 128,
        parallelism matches Some(n) ==> count >= n,
        parallelism is None ==> count == 128,
        forall|p: int| #[trigger]
            is_pow2(p) && p >= 128 && (parallelism matches Some(n) ==> p >= n) ==> count <= p,
{
    proof {
        lemma_min_shards_is_pow2();
    }
    match parallelism {
        Some(n) => {
            let rounded = next_power_of_two(n);
            if rounded < MIN_SHARDS {
                MIN_SHARDS
            } else {
                rounded
            }
        },
        None => MIN_SHARDS,
    }
}

/// Returns the id in a thread's id `cell`, first drawing one from `fresh` if
/// the thread has none yet. An id that the thread has keeps, and `fresh` is
/// not called for it.
pub fn tid<F: FnOnce() -> usize>(cell: &mut usize, fresh: F) -> (id: usize)
    requires
        *old(cell) == UNASSIGNED ==> call_requires(fresh, ()),
    ensures
        *final(cell) == id,
        *old(cell) != usize::MAX ==> id == *old(cell),
        *old(cell) == usize::MAX ==> call_ensures(fresh, (), id),
        if *old(cell) == UNASSIGNED {
            call_ensures(fresh, (), id)
        } else {
            id == *old(cell)
        },
{
    if *cell == UNASSIGNED {
        *cell = fresh();
    }
    *cell
}

/// The pile that thread `tid` uses among `shards` piles: the ids go round the
/// piles.
pub open spec fn shard_index(tid: usize, shards: int) -> int {
    if tid < shards {
        tid as int
    } else {
        tid as int % shards
    }
}

/// Selects the shard of thread `tid` by masking with `shard_mask`, one less
/// than the number of shards.
pub fn shard_for(tid: usize, shard_mask: usize) -> (index: usize)
    requires
        shard_mask < usize::MAX,
        is_pow2(shard_mask + 1),
    ensures
        index == shard_index(tid, shard_mask + 1),
        index == tid as int % (shard_mask + 1),
        index <= shard_mask,
{
    proof {
        is_pow2_equiv(shard_mask + 1);
        let n = choose|n: nat| vstd::arithmetic::power::pow(2, n) == shard_mask + 1;
        lemma_mask_is_mod(tid, shard_mask, n);
        if tid < shard_mask + 1 {
            vstd::arithmetic::div_mod::lemma_small_mod(tid as nat, (shard_mask + 1) as nat);
        }
    }
    tid & shard_mask
}

proof fn lemma_mask_is_mod(tid: usize, shard_mask: usize, n: nat)
    requires
        shard_mask < usize::MAX,
        pow2(n) == shard_mask + 1,
    ensures
        (tid & shard_mask) == tid as int % (shard_mask + 1),
        (tid & shard_mask) <= shard_mask,
{
    assert(tid & shard_mask <= shard_mask) by (bit_vector);
    lemma2_to64();
    if n >= usize::BITS {
        if n > usize::BITS {
            lemma_pow2_strictly_increases(usize::BITS as nat, n);
        }
    }
    vstd::bits::lemma_usize_low_bits_mask_is_mod(tid, n);
    assert(vstd::bits::low_bits_mask(n) == shard_mask);
}

} // verus!
