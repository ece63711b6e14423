use metronome::pacing::{report_due, Transmitter};
use metronome::timing::{next_mavg, window_index};

const T0: u64 = 1_700_000_000_000_000;

#[test]
fn first_probe_due_at_start() {
    let mut tx = Transmitter::new(T0);
    assert_eq!(tx.schedule(T0, 10), 1);
    assert_eq!(tx.next_tx_at, T0 + 100_000);
    assert_eq!(tx.schedule(T0 + 99_999, 10), 0);
    assert_eq!(tx.schedule(T0 + 100_000, 10), 1);
    assert_eq!(tx.next_tx_at, T0 + 200_000);
}

#[test]
fn burst_catches_up_to_now() {
    let mut tx = Transmitter::new(T0);
    assert_eq!(tx.schedule(T0 + 350_000, 10), 4);
    assert_eq!(tx.next_tx_at, T0 + 400_000);
}

#[test]
fn catch_up_is_clamped_to_one_second() {
    let mut tx = Transmitter::new(T0);
    assert_eq!(tx.schedule(T0 + 10_000_000, 10), 11);
    assert_eq!(tx.next_tx_at, T0 + 10_100_000);
}

#[test]
fn rate_change_takes_effect() {
    let mut tx = Transmitter::new(T0);
    assert_eq!(tx.schedule(T0, 1), 1);
    assert_eq!(tx.next_tx_at, T0 + 1_000_000);
    assert_eq!(tx.schedule(T0 + 1_000_000, 1000), 1);
    assert_eq!(tx.next_tx_at, T0 + 1_001_000);
}

#[test]
fn zero_rate_pauses() {
    let mut tx = Transmitter::new(T0);
    assert_eq!(tx.schedule(T0, 0), 0);
    assert_eq!(tx.schedule(T0 + 50_000_000, 0), 0);
    assert_eq!(tx.next_tx_at, T0 + 50_000_000);
    // probing resumes at once, with no catch-up burst
    assert_eq!(tx.schedule(T0 + 50_000_000, 5), 1);
    assert_eq!(tx.next_tx_at, T0 + 50_200_000);
}

#[test]
fn high_rate_is_exact() {
    let t = T0;
    let mut tx = Transmitter::new(t);
    assert_eq!(tx.schedule(t + 1_000_000, 600_000), 600_001);
    assert_eq!(tx.next_tx_at, t + 1_000_002);
    assert_eq!(tx.schedule(t + 2_000_000, 600_000), 600_000);
    let mut tx = Transmitter::new(t);
    assert_eq!(tx.schedule(t, 300_000), 1);
    assert_eq!(tx.schedule(t + 1_000_000, 300_000), 300_000);
}

#[test]
fn very_high_rate_counts_every_slot() {
    let mut tx = Transmitter::new(T0);
    assert_eq!(tx.schedule(T0 + 9, 5_000_000), 46);
    assert_eq!(tx.next_tx_at, T0 + 10);
}

#[test]
fn catch_up_burst_is_bounded() {
    let mut tx = Transmitter::new(T0);
    assert_eq!(tx.schedule(T0, 7), 1);
    assert_eq!(tx.schedule(T0 + 100_000_000, 7), 8);
}

#[test]
fn sequence_advances_only_on_confirmed_send() {
    let mut tx = Transmitter::new(T0);
    let m = tx.confirm_sent(T0 + 5);
    assert_eq!(m.seq, 0);
    assert_eq!(m.timestamp, T0 + 5);
    assert_eq!(tx.msg_seq, 1);
    let m = tx.confirm_sent(T0 + 6);
    assert_eq!(m.seq, 1);
    assert_eq!(tx.msg_seq, 2);
    assert_eq!(tx.next_tx_at, T0);
}

#[test]
fn error_reports_are_throttled() {
    assert!(report_due(0, T0));
    assert!(!report_due(T0, T0 + 10_000_000));
    assert!(report_due(T0, T0 + 10_000_001));
    assert!(!report_due(T0, T0 - 1));
}

#[test]
fn moving_average_step() {
    assert_eq!(next_mavg(None, 42), 42);
    assert_eq!(next_mavg(Some(100), 200), 110);
    assert_eq!(next_mavg(Some(u64::MAX), u64::MAX), u64::MAX);
    assert_eq!(next_mavg(Some(7), 0), 6);
}

#[test]
fn window_of_fraction() {
    assert_eq!(window_index(T0 + 50_000), 0);
    assert_eq!(window_index(T0 + 150_000), 1);
    assert_eq!(window_index(T0 + 999_999), 9);
    assert_eq!(window_index(T0 + 1_000_000), 0);
}
