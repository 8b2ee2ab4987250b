# par-buffer-pool

Two pools of reusable scratch buffers for parallel loops, written in
[Verus](https://github.com/verus-lang/verus): what the pools do is stated in
contracts and proved.

- `BufferPool` is shared by all threads. Idle buffers park in one pile per
  thread; a lease looks in the pile of its thread, then in a communal reserve
  that `prefill` stocks, and runs the initializer when both are empty. A cap set
  with `with_max_idle` bounds how many idle buffers are kept over all piles.
- `ThreadLocalPool` has one slot per thread. A buffer parks on the thread that
  ends its lease, and what is parked for a pool that is gone is dropped on the
  thread's next access to any pool.

Both have `get`, `with`, `put`, `idle_len`, `drain`, `stats` and `with_reset`.
A lease derefs to its buffer; `release` returns the buffer, after the reset hook
has run on it, and `into_inner` keeps it.

## Layout

| Path | What it holds |
|---|---|
| `src/buffer.rs` | `BufferPool` and its leases |
| `src/inner.rs` | the piles, the cap and the counters behind a shared pool |
| `src/steps.rs` | leases, returns, stocking and drains as steps on one part of that state each |
| `src/sharding.rs` | how many piles there are, and which thread uses which |
| `src/local.rs` | `ThreadLocalPool` and its lease |
| `src/registry.rs` | a thread's slots, and the table of live pools |
| `src/hooks.rs` | initializer and reset hook |
| `src/stats.rs` | lease and allocation counters |
| `src/shared_laws.rs`, `src/history.rs` | laws of the shared pool |
| `src/traffic.rs`, `src/traffic_laws.rs` | the shared pool under concurrent use, and its laws over every interleaving |
| `src/local_laws.rs` | laws of the per-thread pool |
| `src/workload.rs` | the buffers of the measurements, and the work they do on them |
| `app/` | handles with locks, thread-local storage and guards that return their buffer when dropped; the program that measures lease costs |

## State and threads

The pools of the library are immutable handles, and the state they work on is
passed to each operation, so that a contract can say exactly how an operation
changes it.

A lease, a return or a drain is a sequence of steps, each of which touches one
pile, the parked count or one counter. `app/` gives each of these its own lock or
atomic and holds nothing between two steps, so that steps of several threads
interleave freely. The laws in `src/traffic_laws.rs` hold however they do: the
pool never has more idle buffers than the cap, or than were idle already when a
lower cap was installed, the parked count is exact whenever no operation is under
way, no buffer is lost or handed out twice, buffers stocked in advance serve
whichever threads lease first, and no more buffers are made than were out at once,
shard by shard. An operation that no other comes between does what the contracts
of `PoolInner` and `BufferPool` say.

Initializers and hooks touch no state: a handle runs them while it holds no
lock, through `Hooks::supply` and `Hooks::refresh`.
