use chrono::{Duration, Local};
use phi_accrual::statistics::Statistics;
use std::ops::Add;

fn mean_of(stats: &Statistics) -> f64 {
    let len = stats.intervals().len();
    if len == 0 {
        return 0.0;
    }
    stats.interval_sum() as f64 / len as f64
}

fn variance_of(stats: &Statistics) -> f64 {
    let len = stats.intervals().len();
    if len == 0 {
        return 0.0;
    }
    stats.scaled_variance().unwrap() as f64 / (len * len) as f64
}

#[test]
fn test_variant_mean_and_variance_combo_calculation() {
    let mut stats = Statistics::new(10);
    let mut i = 0;
    let mut curr_time = Local::now();
    stats.insert(curr_time.timestamp_micros());
    let expect_vals = [1630, 4421, 1514, 216, 231, 931, 4182, 102, 104, 241, 5132];
    while i < expect_vals.len() {
        curr_time = curr_time.add(Duration::milliseconds(expect_vals[i]));
        let arrived_at = curr_time;
        stats.insert(arrived_at.timestamp_micros());
        i += 1;
    }
    let mut mean = mean_of(&stats);
    let mut variance = variance_of(&stats);
    mean = (mean * 100.0).round() * 0.01;
    variance = (variance * 100.0).round() * 0.01;
    assert_eq!(1707.4, mean);
    assert_eq!(3755791.64, variance);
    assert_eq!(
        stats.intervals(),
        &vec![4421, 1514, 216, 231, 931, 4182, 102, 104, 241, 5132]
    );
}

#[test]
fn test_constant_phi_with_constant_pings_calculation() {
    let mut stats = Statistics::new(10);
    let mut i = 0;
    let mut curr_time = Local::now();
    while i <= 100 {
        let arrived_at = curr_time;
        stats.insert(arrived_at.timestamp_micros());
        curr_time = curr_time.add(Duration::milliseconds(10));
        i += 10;
    }
    let mut mean = mean_of(&stats);
    let mut variance = variance_of(&stats);
    mean = (mean * 100.0).round() * 0.01;
    variance = (variance * 100.0).round() * 0.01;
    assert_eq!(10., mean);
    assert_eq!(0., variance);
    assert_eq!(stats.interval_sum(), 100);
    assert_eq!(stats.scaled_variance(), Some(0));
}

#[test]
fn one_arrival_leaves_window_empty() {
    let mut stats = Statistics::with_start_time(5, 1_000_000);
    stats.insert(2_500_000);
    assert!(stats.intervals().is_empty());
    assert_eq!(stats.interval_sum(), 0);
    assert_eq!(stats.scaled_variance(), Some(0));
    assert_eq!(stats.last_arrived_at(), 2_500_000);
}

#[test]
fn reference_time_before_first_arrival() {
    let stats = Statistics::with_start_time(4, -77);
    assert_eq!(stats.last_arrived_at(), -77);
    assert_eq!(stats.window_length(), 4);
    assert!(stats.intervals().is_empty());
}

#[test]
fn new_window_is_empty_with_its_length() {
    let stats = Statistics::new(42);
    assert_eq!(stats.window_length(), 42);
    assert!(stats.intervals().is_empty());
    assert_eq!(stats.interval_sum(), 0);
    assert_eq!(stats.scaled_variance(), Some(0));
}

#[test]
fn window_keeps_most_recent_intervals_in_order() {
    let mut stats = Statistics::with_start_time(3, 0);
    for t in [100, 130, 140, 190, 200, 260] {
        stats.insert(t * 1000);
    }
    assert_eq!(stats.intervals(), &vec![50, 10, 60]);
    assert_eq!(stats.last_arrived_at(), 260_000);
}

#[test]
fn window_below_capacity_keeps_every_interval() {
    let mut stats = Statistics::with_start_time(10, 0);
    for t in [5, 8, 20] {
        stats.insert(t * 1000);
    }
    assert_eq!(stats.intervals(), &vec![3, 12]);
}

#[test]
fn zero_window_length_stays_empty() {
    let mut stats = Statistics::with_start_time(0, 0);
    for t in [10, 20, 35, 50] {
        stats.insert(t * 1000);
    }
    assert!(stats.intervals().is_empty());
    assert_eq!(stats.interval_sum(), 0);
    assert_eq!(stats.scaled_variance(), Some(0));
    assert_eq!(stats.last_arrived_at(), 50_000);
}

#[test]
fn out_of_order_arrival_wraps_around() {
    let mut stats = Statistics::with_start_time(4, 0);
    stats.insert(100_000);
    stats.insert(90_000);
    assert_eq!(stats.intervals(), &vec![u64::MAX - 9]);
}

#[test]
fn exact_sum_and_scaled_variance() {
    let mut stats = Statistics::with_start_time(8, 0);
    for t in [0, 1, 3, 6] {
        stats.insert(t * 1000);
    }
    assert_eq!(stats.intervals(), &vec![1, 2, 3]);
    assert_eq!(stats.interval_sum(), 6);
    // 3 * (1 + 4 + 9) - 6 * 6
    assert_eq!(stats.scaled_variance(), Some(6));
}

#[test]
fn scaled_variance_too_large_is_none() {
    let mut stats = Statistics::with_start_time(2, 0);
    for t in [0, -1, -2] {
        stats.insert(t * 1000);
    }
    assert_eq!(stats.intervals(), &vec![u64::MAX, u64::MAX]);
    assert_eq!(stats.interval_sum(), 2 * u64::MAX as u128);
    assert_eq!(stats.scaled_variance(), None);
}

#[test]
fn queries_repeat_without_inserts() {
    let mut stats = Statistics::with_start_time(3, 0);
    for t in [10, 25, 27] {
        stats.insert(t * 1000);
    }
    assert_eq!(stats.last_arrived_at(), stats.last_arrived_at());
    assert_eq!(stats.interval_sum(), stats.interval_sum());
    assert_eq!(stats.scaled_variance(), stats.scaled_variance());
}

#[test]
fn elapsed_since_last_arrival() {
    let mut stats = Statistics::with_start_time(3, 0);
    stats.insert(1_000_000);
    assert_eq!(stats.elapsed_since_last(1_250_000), 250);
    assert_eq!(stats.elapsed_since_last(1_250_999), 250);
    assert_eq!(stats.elapsed_since_last(900_000), -100);
    assert_eq!(stats.elapsed_since_last(999_001), 0);
    assert_eq!(stats.elapsed_since_last(998_999), -1);
    assert_eq!(
        stats.elapsed_since_last(i64::MAX),
        (i64::MAX as i128 - 1_000_000) / 1000
    );
}

#[test]
fn intervals_truncate_to_whole_milliseconds() {
    let mut stats = Statistics::with_start_time(4, 0);
    for t in [0, 1_999, 2_000, 4_500, 4_499] {
        stats.insert(t);
    }
    // 1.999 ms, 0.001 ms, 2.5 ms, then -0.001 ms, which truncates to zero.
    assert_eq!(stats.intervals(), &vec![1, 0, 2, 0]);
    stats.insert(2_000);
    // -2.499 ms truncates toward zero to -2 ms, which wraps around.
    assert_eq!(stats.intervals(), &vec![0, 2, 0, u64::MAX - 1]);
}
