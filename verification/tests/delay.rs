use netsim_embed::delay::{DelayBuffer, DURATION_MAX};

const MS: u64 = 1_000_000;

#[test]
fn test_delay() {
    let mut w = DelayBuffer::new();
    w.set_delay(100 * MS);
    let mut line = w.spawn();
    // [1] and [2] arrive at once, [3] and [4] ten milliseconds later.
    assert_eq!(line.from_b(vec![1], 0), Some(100 * MS));
    assert_eq!(line.from_b(vec![2], 0), None);
    assert_eq!(line.from_b(vec![3], 10 * MS), None);
    assert_eq!(line.from_b(vec![4], 10 * MS), None);
    // The timer fires after 100 ms: [1] and [2] leave, in order.
    let r = line.timer_fired(100 * MS);
    assert_eq!(r.to_c, vec![vec![1], vec![2]]);
    assert!(r.to_b.is_empty());
    assert_eq!(r.wait, 10 * MS);
    // ... and after 110 ms: [3] and [4].
    let r = line.timer_fired(110 * MS);
    assert_eq!(r.to_c, vec![vec![3], vec![4]]);
    assert_eq!(r.wait, DURATION_MAX);
    assert!(line.is_idle());
}

#[test]
fn default_buffer() {
    let w = DelayBuffer::new();
    assert_eq!(w.delay(), 0);
    assert_eq!(w.buffer_size(), usize::MAX);
    let mut line = w.spawn();
    assert!(line.is_idle());
    assert_eq!(line.from_c(vec![9; 100], 5), Some(0));
    let r = line.timer_fired(5);
    assert_eq!(r.to_b, vec![vec![9; 100]]);
    assert!(r.to_c.is_empty());
}

#[test]
fn early_timer_releases_nothing() {
    let mut w = DelayBuffer::new();
    w.set_delay(100);
    let mut line = w.spawn();
    assert_eq!(line.from_b(vec![1], 1000), Some(100));
    assert!(!line.is_idle());
    let r = line.timer_fired(1099);
    assert!(r.to_c.is_empty());
    assert_eq!(r.wait, 1);
    assert!(!line.is_idle());
    let r = line.timer_fired(1100);
    assert_eq!(r.to_c, vec![vec![1]]);
    assert_eq!(r.wait, DURATION_MAX);
}

#[test]
fn full_buffer_drops_packets() {
    let mut w = DelayBuffer::new();
    w.set_delay(10);
    w.set_buffer_size(10);
    assert_eq!(w.buffer_size(), 10);
    let mut line = w.spawn();
    assert_eq!(line.from_b(vec![0; 4], 0), Some(10));
    assert_eq!(line.from_b(vec![1; 5], 0), None);
    // nine bytes are held; one more would reach the bound
    assert_eq!(line.from_b(vec![2; 1], 0), None);
    // the other direction has its own bound
    assert_eq!(line.from_c(vec![3; 9], 0), None);
    assert_eq!(line.from_c(vec![4; 1], 0), None);
    let r = line.timer_fired(10);
    assert_eq!(r.to_c, vec![vec![0; 4], vec![1; 5]]);
    assert_eq!(r.to_b, vec![vec![3; 9]]);
    // room again
    assert_eq!(line.from_b(vec![5; 9], 20), Some(10));
}

#[test]
fn a_packet_as_large_as_the_bound_never_fits() {
    let mut w = DelayBuffer::new();
    w.set_buffer_size(8);
    let mut line = w.spawn();
    assert_eq!(line.from_b(vec![0; 8], 0), None);
    assert!(line.is_idle());
    assert!(line.timer_fired(100).to_c.is_empty());
    assert_eq!(line.from_b(vec![0; 7], 0), Some(0));
}

#[test]
fn timer_waits_for_the_nearer_direction() {
    let mut w = DelayBuffer::new();
    w.set_delay(50);
    let mut line = w.spawn();
    assert_eq!(line.from_b(vec![1], 10), Some(50));
    assert_eq!(line.from_c(vec![2], 30), None);
    let r = line.timer_fired(20);
    assert_eq!(r.wait, 40);
    let r = line.timer_fired(60);
    assert_eq!(r.to_c, vec![vec![1]]);
    assert_eq!(r.wait, 20);
    let r = line.timer_fired(80);
    assert_eq!(r.to_b, vec![vec![2]]);
    assert_eq!(r.wait, DURATION_MAX);
}

#[test]
fn far_release_counts_as_idle() {
    let mut w = DelayBuffer::new();
    w.set_delay(DURATION_MAX + 5);
    let mut line = w.spawn();
    assert_eq!(line.from_b(vec![1], 0), Some(DURATION_MAX + 5));
    let r = line.timer_fired(1);
    assert_eq!(r.wait, DURATION_MAX);
    assert!(line.is_idle());
}
