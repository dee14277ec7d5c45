use beeline::clock::Timer;
use std::time::{Duration, Instant};

#[test]
fn test_new() {
    let now = Instant::now();
    if let Some(start) = now.checked_sub(Duration::from_secs(3600)) {
        let t = Timer::new(start);
        assert!(t.finish() > 3_599_000);
        assert!(t.finish() < 3_600_001);
    } else {
        panic!("Could not adjust start time");
    }
}

#[test]
fn test_start() {
    let t = Timer::start();
    let elapsed = t.finish();
    assert!(elapsed < 1000);
}
