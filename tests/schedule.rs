use varispeed_delay::pull::{pull, rescale_carry};
use varispeed_delay::schedule::{SpeedChange, SpeedChangeQueue, SpeedScheduler};

#[test]
fn speed_change_default_is_zero() {
    let c = SpeedChange::default();
    assert_eq!(c, SpeedChange { timestamp: 0, speed: 0 });
}

#[test]
fn queue_is_first_in_first_out_and_bounded() {
    let mut q = SpeedChangeQueue::new(3);
    assert_eq!(q.front(), None);
    for i in 0..3u32 {
        assert!(q.push(SpeedChange { timestamp: i, speed: 10 + i }));
    }
    assert!(!q.push(SpeedChange { timestamp: 9, speed: 99 }));
    assert_eq!(q.len(), 3);
    assert_eq!(q.front(), Some(SpeedChange { timestamp: 0, speed: 10 }));
    q.pop();
    q.pop();
    assert!(q.push(SpeedChange { timestamp: 3, speed: 13 }));
    assert!(q.push(SpeedChange { timestamp: 4, speed: 14 }));
    let mut seen = Vec::new();
    while let Some(c) = q.front() {
        seen.push(c.speed);
        q.pop();
    }
    assert_eq!(seen, vec![12, 13, 14]);
    q.push(SpeedChange { timestamp: 5, speed: 15 });
    q.clear();
    assert_eq!(q.len(), 0);
}

#[test]
fn a_new_speed_reaches_playback_one_span_later() {
    let mut s = SpeedScheduler::new(256, 1000, 4);
    assert!(!s.update(256));
    assert!(s.update(512));
    assert_eq!(s.current_speed(), 512);
    assert_eq!(s.recorded_speed(), 256);
    assert_eq!(s.pending_len(), 1);
    // 512 units per sample: one sample is not yet a span.
    s.advance(1);
    assert_eq!(s.timestamp(), 512);
    assert!(!s.update(512));
    assert_eq!(s.recorded_speed(), 256);
    s.advance(1);
    assert_eq!(s.timestamp(), 1024);
    assert!(s.update(512));
    assert_eq!(s.recorded_speed(), 512);
    assert_eq!(s.pending_len(), 0);
}

#[test]
fn several_due_changes_retire_together() {
    let mut s = SpeedScheduler::new(100, 1000, 8);
    s.update(200);
    s.advance(1);
    s.update(300);
    s.advance(1);
    s.update(400);
    assert_eq!(s.pending_len(), 3);
    s.advance(3);
    // Position 1700: the changes due at 1000, 1200 and 1500 have all passed.
    assert!(s.update(400));
    assert_eq!(s.recorded_speed(), 400);
    assert_eq!(s.pending_len(), 0);
}

#[test]
fn due_positions_wrap_around() {
    let mut s = SpeedScheduler::new(0xffff_0000, 0x1_0000, 2);
    s.advance(1);
    assert_eq!(s.timestamp(), 0xffff_0000);
    s.update(0x100);
    assert_eq!(s.pending_len(), 1);
    // The change is due at position 0 after the wrap.
    s.advance(0x1000);
    assert_eq!(s.timestamp(), 0xffff_0000u32.wrapping_add(0x10_0000));
    assert!(s.update(0x100));
    assert_eq!(s.recorded_speed(), 0x100);
}

#[test]
fn full_queue_drops_and_counts() {
    let mut s = SpeedScheduler::new(10, 1000, 1);
    s.update(11);
    s.update(12);
    assert_eq!(s.dropped(), 1);
    assert_eq!(s.current_speed(), 12);
    assert_eq!(s.pending_len(), 1);
}

#[test]
fn scheduler_reset_starts_over() {
    let mut s = SpeedScheduler::new(10, 1000, 4);
    s.update(20);
    s.advance(5);
    s.reset(30);
    assert_eq!(s.current_speed(), 30);
    assert_eq!(s.recorded_speed(), 30);
    assert_eq!(s.timestamp(), 0);
    assert_eq!(s.pending_len(), 0);
}

#[test]
fn pull_counts_carry_the_fraction() {
    assert_eq!(pull(0, 64, 512, 256), (128, 0));
    assert_eq!(pull(0, 3, 1, 2), (1, 1));
    assert_eq!(pull(1, 3, 1, 2), (2, 0));
    assert_eq!(pull(5, 10, 7, 7), (10, 5));
    assert_eq!(pull(0, 0, 9, 4), (0, 0));
}

#[test]
fn pull_at_constant_ratio_does_not_drift() {
    // Ratio 3 / 7 over 1000 chunks of 10 samples.
    let mut carry = 0u32;
    let mut total = 0u64;
    for _ in 0..1000 {
        let (n, c) = pull(carry, 10, 3, 7);
        total += n;
        carry = c;
    }
    assert_eq!(total * 7 + carry as u64, 3 * 10_000);
    assert_eq!(total, 30_000 / 7);
}

#[test]
fn rescale_keeps_the_phase() {
    assert_eq!(rescale_carry(128, 256, 512), 256);
    assert_eq!(rescale_carry(3, 4, 10), 7);
    assert_eq!(rescale_carry(0, 4, 10), 0);
}
