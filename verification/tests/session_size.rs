use std::collections::HashMap;

use octoterm::config::WindowSize;
use octoterm::session::size::{effective_size, Desired, Viewports, MIN_COLS, MIN_ROWS};

fn viewports(sizes: &[(u16, u16)]) -> HashMap<u64, Desired> {
    sizes
        .iter()
        .enumerate()
        .map(|(i, &(cols, rows))| (i as u64, Desired { cols, rows, ord: i as u64 }))
        .collect()
}

#[test]
fn no_viewport_keeps_current_size() {
    assert_eq!(effective_size(WindowSize::Smallest, &viewports(&[])), None);
}

#[test]
fn smallest_takes_the_min_of_each_dimension_independently() {
    let vps = viewports(&[(120, 24), (80, 40)]);
    assert_eq!(effective_size(WindowSize::Smallest, &vps), Some((80, 24)));
    assert_eq!(effective_size(WindowSize::Largest, &vps), Some((120, 40)));
    assert_eq!(effective_size(WindowSize::Latest, &vps), Some((80, 40)));
}

#[test]
fn extreme_report_is_clamped_to_the_floor() {
    let vps = viewports(&[(120, 40), (1, 1)]);
    assert_eq!(effective_size(WindowSize::Smallest, &vps), Some((MIN_COLS, MIN_ROWS)));
}

#[test]
fn viewports_latest_request_decides_the_size() {
    let mut v = Viewports::new();
    v.set(1, 120, 40);
    v.set(2, 90, 30);
    assert_eq!(v.resize_to(WindowSize::Latest, (80, 24)), Some((90, 30)));
    v.set(1, 100, 50);
    assert_eq!(v.resize_to(WindowSize::Latest, (80, 24)), Some((100, 50)));
    assert_eq!(v.resize_to(WindowSize::Smallest, (80, 24)), Some((90, 30)));
    assert_eq!(v.resize_to(WindowSize::Largest, (80, 24)), Some((100, 50)));
}

#[test]
fn viewports_no_resize_when_unchanged_or_empty() {
    let mut v = Viewports::new();
    assert_eq!(v.resize_to(WindowSize::Smallest, (80, 24)), None);
    v.set(7, 80, 24);
    assert_eq!(v.resize_to(WindowSize::Smallest, (80, 24)), None);
    v.set(8, 10, 2);
    assert_eq!(v.resize_to(WindowSize::Smallest, (80, 24)), Some((MIN_COLS, MIN_ROWS)));
    v.remove(8);
    assert_eq!(v.resize_to(WindowSize::Smallest, (80, 24)), None);
    v.remove(7);
    assert_eq!(v.resize_to(WindowSize::Smallest, (80, 24)), None);
}
