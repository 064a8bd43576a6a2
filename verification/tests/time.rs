use joy::audio::ChunkClock;
use joy::time::{Epoch, Timestamp};
use std::time::Duration;

#[test]
fn now_is_monotonic() {
    let mut epoch = Epoch::start();
    let a = Timestamp::now(&mut epoch);
    let b = Timestamp::now(&mut epoch);
    let c = Timestamp::now(&mut epoch);
    assert!(a <= b && b <= c);
    assert!(b.checked_since(a).is_some());
}

#[test]
fn arithmetic_round_trips() {
    let base = Timestamp::from_offset(Duration::from_millis(100));
    let later = base + Duration::from_millis(50);
    assert_eq!(later - base, Duration::from_millis(50));
    assert_eq!(later.checked_since(base), Some(Duration::from_millis(50)));
    assert_eq!(base.checked_since(later), None);
    assert_eq!(base - later, Duration::ZERO);
}

#[test]
fn derived_timestamps_are_exact() {
    let anchor = Timestamp::from_offset(Duration::ZERO);
    let rate = 48_000u64;
    let chunk = 960u64;
    let ts = anchor + Duration::from_nanos(chunk * 1_000_000_000 / rate);
    assert_eq!(ts.as_duration(), Duration::from_millis(20));
}

#[test]
fn offsets_are_kept() {
    let ts = Timestamp::from_offset(Duration::new(3, 7));
    assert_eq!(ts.as_duration(), Duration::new(3, 7));
    assert_eq!(ts.as_nanos(), 3_000_000_007);
    assert_eq!(Timestamp::default().as_nanos(), 0);
}

#[test]
fn differences_saturate_at_zero() {
    let early = Timestamp::from_offset(Duration::from_secs(1));
    let late = Timestamp::from_offset(Duration::from_secs(4));
    assert_eq!(late.saturating_since(early), Duration::from_secs(3));
    assert_eq!(early.saturating_since(late), Duration::ZERO);
    assert!(late.is_after(early));
    assert!(!early.is_after(late));
    assert!(!early.is_after(early));
}

#[test]
fn future_timestamps_have_not_elapsed() {
    let mut epoch = Epoch::start();
    let future = Timestamp::from_offset(Duration::from_secs(1_000_000));
    assert_eq!(future.elapsed(&mut epoch), Duration::ZERO);
    let past = Timestamp::default();
    let first = past.elapsed(&mut epoch);
    assert!(past.elapsed(&mut epoch) >= first);
}

#[test]
fn time_moves_on_between_readings() {
    let mut epoch = Epoch::start();
    let start = Timestamp::now(&mut epoch);
    let mut reading = Timestamp::now(&mut epoch);
    while !reading.is_after(start) {
        reading = Timestamp::now(&mut epoch);
    }
    assert!(reading > start);
}

#[test]
fn steps_forward_add_up() {
    let a = Timestamp::from_offset(Duration::from_millis(5));
    let b = a + Duration::from_millis(7);
    let c = b + Duration::from_millis(11);
    assert_eq!((b - a) + (c - b), c - a);
    assert_eq!(c - a, Duration::from_millis(18));
}

#[test]
fn chunk_times_do_not_drift_at_cd_rate() {
    let anchor = Timestamp::from_offset(Duration::from_secs(9));
    let mut clock = ChunkClock::start(anchor, 44_100, 441);
    for i in 0..1000u64 {
        assert!(clock.has_next());
        let ts = clock.next_timestamp();
        assert_eq!((ts - anchor).as_nanos(), (i as u128) * 10_000_000);
    }
}

#[test]
fn chunk_times_survive_a_long_run() {
    let anchor = Timestamp::default();
    // Frames times a billion overflow 64 bits after about four days at 48 kHz.
    let mut clock = ChunkClock::start(anchor, 48_000, 48_000 * 86_400);
    let mut last = clock.next_timestamp();
    for day in 1..10u64 {
        assert!(clock.has_next());
        let ts = clock.next_timestamp();
        assert!(ts > last);
        assert_eq!(ts.as_duration(), Duration::from_secs(day * 86_400));
        last = ts;
    }
}
