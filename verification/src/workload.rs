//! What the measurements do: make buffers, and work on leased ones.

use vstd::prelude::*;

verus! {

/// `n` zero bytes.
pub open spec fn zeros(n: usize) -> Seq<u8> {
    Seq::new(n as nat, |k: int| 0u8)
}

/// A fresh buffer of `n` zero bytes.
pub fn buf(n: usize) -> (buffer: Vec<u8>)
    ensures
        buffer@ == zeros(n),
        buffer@.len() == n,
        forall|k: int| 0 <= k < n ==> #[trigger] buffer@[k] == 0,
{
    vec![0u8; n]
}

/// The buffer that a hand-rolled slot leases: the `parked` one where there is
/// one of `n` bytes, and otherwise a fresh one.
pub fn raw_buffer(parked: Option<Vec<u8>>, n: usize) -> (buffer: Vec<u8>)
    ensures
        buffer@.len() == n,
        match parked {
            Some(idle) => if idle@.len() == n {
                buffer == idle
            } else {
                buffer@ == zeros(n)
            },
            None => buffer@ == zeros(n),
        },
        !(parked matches Some(idle) && idle@.len() == n) ==> forall|k: int|
            0 <= k < n ==> #[trigger] buffer@[k] == 0,
{
    match parked {
        Some(idle) => if idle.len() == n {
            idle
        } else {
            buf(n)
        },
        None => buf(n),
    }
}

/// `a + b` in a byte, wrapping.
pub open spec fn byte_sum(a: u8, b: u8) -> u8 {
    ((a + b) % 256) as u8
}

/// `bytes` with `step` added to the byte at `index`.
pub open spec fn stepped(bytes: Seq<u8>, index: int, step: u8) -> Seq<u8> {
    bytes.update(index, byte_sum(bytes[index], step))
}

/// The three bytes that round `i` touches in a buffer of `len` bytes.
pub open spec fn touch_points(len: nat, i: usize) -> (int, int, int) {
    (i as int % len as int, (i * 7) % len as int, len - 1 - i % 3)
}

/// `bytes` after round `i` of [`touch`].
pub open spec fn touched(bytes: Seq<u8>, i: usize) -> Seq<u8> {
    let (a, b, c) = touch_points(bytes.len(), i);
    stepped(stepped(stepped(bytes, a, 1), b, 2), c, 3)
}

/// `a + b` in a byte, wrapping.
fn add_bytes(a: u8, b: u8) -> (sum: u8)
    ensures
        sum == byte_sum(a, b),
{
    a.wrapping_add(b)
}

/// The remainder of `n` on division by `len`, as an index.
fn index_in(n: usize, len: usize) -> (index: usize)
    requires
        len > 0,
    ensures
        index == n as int % len as int,
        index < len,
{
    n % len
}

/// Adds `by` to the byte at `index`.
fn step(buf: &mut [u8], index: usize, by: u8)
    requires
        index < old(buf)@.len(),
    ensures
        final(buf)@ == stepped(old(buf)@, index as int, by),
{
    let byte = add_bytes(buf[index], by);
    buf[index] = byte;
}

/// Near-zero work: steps three bytes at places that vary with `i`, and returns
/// the sum of the three.
pub fn touch(buf: &mut [u8], i: usize) -> (sum: u8)
    requires
        i % 3 < old(buf)@.len(),
        i * 7 <= usize::MAX,
    ensures
        final(buf)@ == touched(old(buf)@, i),
        ({
            let (a, b, c) = touch_points(old(buf)@.len(), i);
            sum == byte_sum(byte_sum(final(buf)@[a], final(buf)@[b]), final(buf)@[c])
        }),
        ({
            let len = old(buf)@.len() as int;
            sum == (final(buf)@[i as int % len] + final(buf)@[(i * 7) % len] + final(buf)@[len - 1
                - i % 3]) % 256
        }),
        final(buf)@.len() == old(buf)@.len(),
{
    let len = buf.len();
    let a = index_in(i, len);
    let b = index_in(i * 7, len);
    let c: usize = len - 1 - (i % 3);
    step(buf, a, 1);
    step(buf, b, 2);
    step(buf, c, 3);
    add_bytes(add_bytes(buf[a], buf[b]), buf[c])
}

/// Number of bytes in a cache line.
pub const LINE: usize = 64;

/// `bytes` with `step` added to the first byte of each cache line.
pub open spec fn streamed(bytes: Seq<u8>, step: u8) -> Seq<u8> {
    Seq::new(
        bytes.len(),
        |k: int|
            if k % LINE as int == 0 {
                byte_sum(bytes[k], step)
            } else {
                bytes[k]
            },
    )
}

/// Number of cache lines that `len` bytes fill or begin.
pub open spec fn lines(len: nat) -> nat {
    (len + 63) / 64
}

/// The sum of the first bytes of the first `n` cache lines.
pub open spec fn line_sum(bytes: Seq<u8>, n: nat) -> nat
    decreases n,
{
    if n == 0 {
        0
    } else {
        line_sum(bytes, (n - 1) as nat) + bytes[LINE * (n - 1)] as nat
    }
}

/// One write and read over every cache line: adds the low byte of `i` to the
/// first byte of each line, and returns the sum of those bytes.
pub fn stream(buf: &mut [u8], i: usize) -> (acc: u64)
    requires
        lines(old(buf)@.len()) * 255 <= u64::MAX,
    ensures
        final(buf)@ == streamed(old(buf)@, (i % 256) as u8),
        acc == line_sum(final(buf)@, lines(final(buf)@.len())),
        final(buf)@.len() == old(buf)@.len(),
        forall|k: int|
            0 <= k < old(buf)@.len() && k % 64 == 0 ==> #[trigger] final(buf)@[k] == (old(buf)@[k]
                + i % 256) % 256,
        forall|k: int|
            0 <= k < old(buf)@.len() && k % 64 != 0 ==> #[trigger] final(buf)@[k] == old(buf)@[k],
{
    let by: u8 = (i % 256) as u8;
    let len = buf.len();
    let count: usize = len / LINE + if len % LINE == 0 { 0 } else { 1 };
    let mut acc: u64 = 0;
    let mut n: usize = 0;
    let ghost before = buf@;
    let ghost after = streamed(before, by);
    while n < count
        invariant
            len == before.len(),
            buf@.len() == len,
            after == streamed(before, by),
            count == lines(len as nat),
            count * 255 <= u64::MAX,
            n <= count,
            forall|k: int| 0 <= k < len && k < LINE * n ==> #[trigger] buf@[k] == after[k],
            forall|k: int| LINE * n <= k < len ==> #[trigger] buf@[k] == before[k],
            acc == line_sum(after, n as nat),
            acc <= n * 255,
        decreases count - n,
    {
        step(buf, LINE * n, by);
        acc += buf[LINE * n] as u64;
        n += 1;
    }
    assert(buf@ == after);
    acc
}

/// A round of [`touch`] adds one to the byte at `i`, two to the byte at seven
/// times `i`, both taken round the buffer, and three to one of the last three
/// bytes; where places coincide, the sum of these; and nothing to any other byte.
pub proof fn law_touch_spelled_out(bytes: Seq<u8>, i: usize, k: int)
    requires
        i % 3 < bytes.len(),
        0 <= k < bytes.len(),
    ensures
        touched(bytes, i).len() == bytes.len(),
        ({
            let len = bytes.len() as int;
            let first = if k == i as int % len {
                1int
            } else {
                0
            };
            let second = if k == (i * 7) % len {
                2int
            } else {
                0
            };
            let third = if k == len - 1 - i % 3 {
                3int
            } else {
                0
            };
            touched(bytes, i)[k] == (bytes[k] + first + second + third) % 256
        }),
{
}

/// The sum over the cache lines is the sum of every sixty-fourth byte, from the
/// first: it begins at zero and each line adds its first byte; and there are as
/// many lines as it takes to hold the buffer, and no more.
pub proof fn law_line_sum_spelled_out(bytes: Seq<u8>, n: nat)
    ensures
        line_sum(bytes, 0) == 0,
        line_sum(bytes, n + 1) == line_sum(bytes, n) + bytes[64 * n as int],
        64 * lines(bytes.len()) >= bytes.len(),
        64 * lines(bytes.len()) < bytes.len() + 64,
{
}

} // verus!
