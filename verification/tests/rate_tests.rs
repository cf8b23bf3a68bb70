use netdash::rate::{compute_rate_delta, NetworkUsage, HISTORY_SIZE};

#[test]
fn new_tracker_is_cold_and_prefilled() {
    let u = NetworkUsage::new();
    assert_eq!(u.rx_history.len(), HISTORY_SIZE);
    assert_eq!(u.tx_history.len(), HISTORY_SIZE);
    assert!(u.rx_history.iter().all(|&s| s == 0));
    assert!(u.tx_history.iter().all(|&s| s == 0));
    assert_eq!(u.max_rx, 1);
    assert_eq!(u.max_tx, 1);
    assert!(!u.warm);
}

#[test]
fn first_observation_emits_zero_sample() {
    let mut u = NetworkUsage::new();
    u.update(1_000_000, 500_000);
    assert!(u.warm);
    assert_eq!(u.last_rx, 1_000_000);
    assert_eq!(u.last_tx, 500_000);
    assert_eq!(*u.rx_history.last().unwrap(), 0);
    assert_eq!(*u.tx_history.last().unwrap(), 0);
    assert_eq!(u.max_rx, 1);
}

#[test]
fn delta_sequence_with_counter_reset() {
    // Cumulative readings 100, 150, 90, 140: the decrease at 90 is a
    // counter reset, so the emitted samples are 0 (first), 50, 90, 50.
    let mut u = NetworkUsage::new();
    u.update(100, 0);
    u.update(150, 0);
    u.update(90, 0);
    u.update(140, 0);
    let n = u.rx_history.len();
    assert_eq!(u.rx_history[n - 4], 0);
    assert_eq!(u.rx_history[n - 3], 50);
    assert_eq!(u.rx_history[n - 2], 90);
    assert_eq!(u.rx_history[n - 1], 50);
}

#[test]
fn compute_rate_delta_growth_and_reset() {
    assert_eq!(compute_rate_delta(100, 150), 50);
    assert_eq!(compute_rate_delta(150, 90), 90);
    assert_eq!(compute_rate_delta(7, 7), 0);
    assert_eq!(compute_rate_delta(0, 42), 42);
}

#[test]
fn peak_is_floored_at_one_when_idle() {
    let mut u = NetworkUsage::new();
    u.update(0, 0);
    u.update(0, 0);
    u.update(0, 0);
    assert_eq!(u.max_rx, 1);
    assert_eq!(u.max_tx, 1);
}

#[test]
fn peak_tracks_largest_sample() {
    let mut u = NetworkUsage::new();
    u.update(0, 0);
    u.update(5000, 300);
    u.update(5100, 400);
    assert_eq!(u.max_rx, 5000);
    assert_eq!(u.max_tx, 300);
}

#[test]
fn peak_drops_when_max_sample_ages_out() {
    let mut u = NetworkUsage::new();
    u.update(0, 0);
    u.update(9999, 0);
    assert_eq!(u.max_rx, 9999);
    // 60 further zero-delta ticks age the spike out of the window.
    for _ in 0..HISTORY_SIZE {
        u.update(9999, 0);
    }
    assert_eq!(u.max_rx, 1);
}

#[test]
fn window_never_exceeds_capacity_and_evicts_oldest() {
    let mut u = NetworkUsage::new();
    u.update(0, 0);
    // 61 warm observations, each adding a distinct positive delta.
    let mut cumulative: u64 = 0;
    for i in 1..=(HISTORY_SIZE as u64 + 1) {
        cumulative += i;
        u.update(cumulative, 0);
        assert_eq!(u.rx_history.len(), HISTORY_SIZE);
    }
    // The first delta (1) was pushed 61 observations ago and is gone;
    // the window now holds deltas 2..=61.
    assert_eq!(u.rx_history[0], 2);
    assert_eq!(*u.rx_history.last().unwrap(), HISTORY_SIZE as u64 + 1);
    assert!(u.rx_history.iter().all(|&s| s != 1));
}
