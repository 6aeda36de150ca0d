use std::time::Duration;

use octoterm::client_core::{Backoff, ResumeTracker};

#[test]
fn backoff_doubles_and_caps() {
    let mut b = Backoff::new();
    assert_eq!(b.next_delay(), Duration::from_millis(250));
    assert_eq!(b.next_delay(), Duration::from_millis(500));
    assert_eq!(b.next_delay(), Duration::from_millis(1000));
    for _ in 0..10 {
        b.next_delay();
    }
    assert_eq!(b.next_delay(), Duration::from_secs(10));
    b.reset();
    assert_eq!(b.next_delay(), Duration::from_millis(250));
}

#[test]
fn resume_tracker_follows_stream() {
    let mut t = ResumeTracker::new();
    assert_eq!(t.last_seq(), None);
    t.on_data(100);
    assert_eq!(t.last_seq(), Some(100));
    t.on_resync_end(500);
    assert_eq!(t.last_seq(), Some(500));
}

#[test]
fn backoff_default_starts_at_the_first_delay() {
    let mut b = Backoff::default();
    assert_eq!(b.next_delay(), Duration::from_millis(250));
    assert_eq!(b.next_delay(), Duration::from_millis(500));
}

#[test]
fn backoff_sequence_reaches_the_cap_exactly() {
    let mut b = Backoff::new();
    let got: Vec<u128> = (0..8).map(|_| b.next_delay().as_millis()).collect();
    assert_eq!(got, vec![250, 500, 1000, 2000, 4000, 8000, 10000, 10000]);
}
