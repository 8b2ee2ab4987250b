//! The smaller parts: counters, thread ids, hooks and the measured work.

use par_buffer_pool::workload::{buf, raw_buffer, stream, touch};
use par_buffer_pool::{tid, Hooks, PoolStats, UNASSIGNED};

#[test]
fn counters_record_leases_and_allocations() {
    let mut stats = PoolStats::default();
    stats.count_lease();
    stats.count_allocation();
    stats.count_lease();
    stats.count_lease();
    assert_eq!(
        stats,
        PoolStats {
            leases: 3,
            allocations: 1
        }
    );
    assert_eq!(stats.reuses(), 2);
    let mut worn = PoolStats {
        leases: usize::MAX,
        allocations: usize::MAX,
    };
    worn.count_lease();
    assert_eq!(worn.allocations, usize::MAX);
    worn.count_allocation();
    assert_eq!(worn, PoolStats::new());
}

#[test]
fn thread_ids_stick() {
    let mut next = 40;
    let mut cell = UNASSIGNED;
    let id = tid(&mut cell, || {
        next += 1;
        next
    });
    assert_eq!(id, 41);
    assert_eq!(cell, 41);
    assert_eq!(tid(&mut cell, || 99), 41);
    let mut other = UNASSIGNED;
    assert_eq!(tid(&mut other, || 42), 42);
}

#[test]
fn hooks_supply_and_refresh() {
    let hooks = Hooks::new(|| vec![1u8], Some(|buf: &mut Vec<u8>| buf.push(0)));
    assert_eq!(hooks.supply(None), vec![1]);
    assert_eq!(hooks.supply(Some(vec![7])), vec![7]);
    assert_eq!(hooks.refresh(vec![7]), vec![7, 0]);
    let hooks = hooks.with_reset(|buf: &mut Vec<u8>| buf.clear());
    assert_eq!(hooks.supply(None), vec![1]);
    assert_eq!(hooks.refresh(vec![7]), Vec::<u8>::new());
}

#[test]
fn touch_steps_three_bytes() {
    let mut buf = [0u8, 10, 20, 255, 40];
    // 8 % 5 = 3, 56 % 5 = 1, 5 - 1 - 2 = 2
    assert_eq!(touch(&mut buf, 8), 0u8.wrapping_add(12).wrapping_add(23));
    assert_eq!(buf, [0, 12, 23, 0, 40]);
    // all three on one byte
    let mut one = [250u8];
    assert_eq!(touch(&mut one, 0), 0);
    assert_eq!(one, [0]);
}

#[test]
fn stream_steps_one_byte_per_line() {
    let mut buf = vec![1u8; 130];
    buf[64] = 255;
    assert_eq!(stream(&mut buf, 256 + 2), 3 + 1 + 3);
    assert_eq!((buf[0], buf[1], buf[63]), (3, 1, 1));
    assert_eq!((buf[64], buf[65], buf[128], buf[129]), (1, 1, 3, 1));
    assert_eq!(stream(&mut [], 9), 0);
    assert_eq!(stream(&mut [5u8; 64], 0), 5);
}

#[test]
fn a_hand_rolled_slot_leases_buffers_of_the_right_size() {
    assert_eq!(buf(3), vec![0, 0, 0]);
    assert_eq!(buf(0), Vec::<u8>::new());
    assert_eq!(raw_buffer(None, 2), vec![0, 0]);
    assert_eq!(raw_buffer(Some(vec![7, 8]), 2), vec![7, 8]);
    assert_eq!(raw_buffer(Some(vec![7, 8, 9]), 2), vec![0, 0]);
    assert_eq!(raw_buffer(Some(vec![7]), 2), vec![0, 0]);
}
