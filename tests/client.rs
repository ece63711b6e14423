use metronome::client::{ClientAnalyzer, ClientSessionStatistics, ClientSessionTracker, RTTMeasurement};

const T0: u64 = 1_700_000_000_000_000;

fn send_all(a: &mut ClientAnalyzer, n: u64) {
    for seq in 0..n {
        a.record_sent(RTTMeasurement { seq, timestamp: T0 + seq * 100_000 });
    }
}

fn balanced(t: &ClientSessionTracker) -> bool {
    t.inflight_messages == t.sent_messages - t.timely_received_messages - t.lost_messages
}

#[test]
fn ordered_delivery() {
    let mut a = ClientAnalyzer::new();
    send_all(&mut a, 5);
    for seq in 0..5u64 {
        a.record_received(T0 + seq * 100_000 + 20_000, seq, 64);
    }
    let t = &a.tracker;
    assert_eq!(t.sent_messages, 5);
    assert_eq!(t.received_messages, 5);
    assert_eq!(t.timely_received_messages, 5);
    assert_eq!(t.lost_messages, 0);
    assert_eq!(t.inflight_messages, 0);
    assert_eq!(t.seq_unexpected_increment, 0);
    assert_eq!(t.seq_unexpected_decrement, 0);
    assert_eq!(t.rtt_worst, Some(20_000));
    assert_eq!(t.rtt_best, Some(20_000));
    assert_eq!(t.rtt_mavg, Some(20_000));
    assert_eq!(t.received_bytes, 320);
    assert!(a.outstanding.is_empty());
}

#[test]
fn loss() {
    let mut a = ClientAnalyzer::new();
    send_all(&mut a, 10);
    for seq in 0..10u64 {
        if seq == 3 || seq == 4 {
            continue;
        }
        a.record_received(T0 + seq * 100_000 + 10_000, seq, 10);
    }
    assert_eq!(a.tracker.inflight_messages, 2);
    let due = a.tick(T0 + 10_000_000, 1_000_000);
    assert!(due);
    let t = &a.tracker;
    assert_eq!(t.timely_received_messages, 8);
    assert_eq!(t.lost_messages, 2);
    assert_eq!(t.inflight_messages, 0);
    assert!(a.outstanding.is_empty());
    assert_eq!(a.last_scan, T0 + 10_000_000);
}

#[test]
fn reorder_above() {
    let mut a = ClientAnalyzer::new();
    send_all(&mut a, 5);
    for (i, seq) in [0u64, 1, 3, 2, 4].iter().enumerate() {
        a.record_received(T0 + 1_000_000 + i as u64 * 1000, *seq, 10);
    }
    let t = &a.tracker;
    // 3 jumps past the highest seen; 2 then lies below the expected 4
    assert_eq!(t.seq_unexpected_increment, 0);
    assert_eq!(t.seq_unexpected_decrement, 1);
    assert_eq!(t.received_messages, 5);
    assert_eq!(t.timely_received_messages, 5);
}

#[test]
fn reorder_within_seen_range() {
    let mut t = ClientSessionTracker::new();
    t.incoming(T0, 0, 1);
    t.incoming(T0 + 1, 5, 1);
    t.incoming(T0 + 2, 1, 1);
    // 1 is below the expected 6
    assert_eq!(t.seq_unexpected_decrement, 1);
    // 3 lies between the expected 2 and the highest seen 5
    t.incoming(T0 + 3, 3, 1);
    assert_eq!(t.seq_unexpected_increment, 1);
    assert_eq!(t.next_expected_seq, 4);
    assert_eq!(t.max_seq, 5);
}

#[test]
fn late_reply_counts_as_decrement() {
    let mut t = ClientSessionTracker::new();
    t.incoming(T0, 5, 1);
    t.incoming(T0 + 1, 6, 1);
    t.incoming(T0 + 2, 2, 1);
    assert_eq!(t.seq_unexpected_decrement, 1);
    assert_eq!(t.seq_unexpected_increment, 0);
    assert_eq!(t.next_expected_seq, 3);
    assert_eq!(t.max_seq, 6);
    assert_eq!(t.last_rx_seq, Some(2));
    // a jump past the highest seen is neither
    t.incoming(T0 + 3, 10, 1);
    assert_eq!(t.seq_unexpected_decrement, 1);
    assert_eq!(t.seq_unexpected_increment, 0);
    assert_eq!(t.max_seq, 10);
}

#[test]
fn sub_second_bucketing() {
    let mut t = ClientSessionTracker::new();
    t.incoming(T0 + 50_000, 0, 1);
    t.incoming(T0 + 1_150_000, 1, 1);
    t.incoming(T0 + 2_950_000, 2, 1);
    t.incoming(T0 + 3_950_000, 3, 1);
    assert_eq!(t.receive_time_windows, vec![1, 1, 0, 0, 0, 0, 0, 0, 0, 2]);
}

#[test]
fn windows_sum_to_receptions() {
    let mut t = ClientSessionTracker::new();
    assert_eq!(t.receive_time_windows.len(), 10);
    for i in 0..37u64 {
        t.incoming(T0 + i * 123_457, i, 3);
    }
    assert_eq!(t.receive_time_windows.len(), 10);
    assert_eq!(t.receive_time_windows.iter().sum::<u64>(), 37);
    assert_eq!(t.received_messages, 37);
    assert_eq!(t.received_bytes, 111);
}

#[test]
fn gap_average() {
    let mut t = ClientSessionTracker::new();
    t.incoming(T0, 0, 1);
    assert_eq!(t.intermessage_gap_mavg, None);
    t.incoming(T0 + 1000, 1, 1);
    assert_eq!(t.intermessage_gap_mavg, Some(1000));
    t.incoming(T0 + 3000, 2, 1);
    // (9 * 1000 + 2000) / 10
    assert_eq!(t.intermessage_gap_mavg, Some(1100));
    // an earlier timestamp leaves the average alone
    t.incoming(T0 + 2000, 3, 1);
    assert_eq!(t.intermessage_gap_mavg, Some(1100));
}

#[test]
fn rtt_extremes_and_average() {
    let mut t = ClientSessionTracker::new();
    for i in 0..3u64 {
        t.outgoing(T0 + i);
    }
    t.rtt_success(T0, T0 + 10_000);
    t.rtt_success(T0, T0 + 30_000);
    t.rtt_success(T0 + 50, T0);
    assert_eq!(t.rtt_worst, Some(30_000));
    assert_eq!(t.rtt_best, Some(0));
    // 10000, then (90000 + 30000) / 10 = 12000, then 108000 / 10 = 10800
    assert_eq!(t.rtt_mavg, Some(10_800));
    assert_eq!(t.timely_received_messages, 3);
    assert_eq!(t.inflight_messages, 0);
    assert_eq!(t.last_tx, Some(T0 + 2));
}

#[test]
fn inflight_balance_through_a_session() {
    let mut a = ClientAnalyzer::new();
    assert!(balanced(&a.tracker));
    send_all(&mut a, 6);
    assert!(balanced(&a.tracker));
    a.record_received(T0 + 200_000, 1, 8);
    assert!(balanced(&a.tracker));
    a.record_received(T0 + 300_000, 77, 8);
    assert!(balanced(&a.tracker));
    assert!(!a.tick(T0 + 400_000, 1_000_000) || balanced(&a.tracker));
    a.tick(T0 + 20_000_000, 1_000_000);
    assert!(balanced(&a.tracker));
    assert_eq!(a.tracker.lost_messages, 5);
    assert_eq!(a.tracker.timely_received_messages, 1);
    assert_eq!(a.tracker.inflight_messages, 0);
}

#[test]
fn matched_reply_is_never_lost() {
    let mut a = ClientAnalyzer::new();
    send_all(&mut a, 2);
    a.record_received(T0 + 30_000, 0, 1);
    // a duplicate reply produces no second sample
    a.record_received(T0 + 40_000, 0, 1);
    assert_eq!(a.tracker.timely_received_messages, 1);
    assert_eq!(a.tracker.received_messages, 2);
    a.sweep(T0 + 60_000_000);
    assert_eq!(a.tracker.lost_messages, 1);
    assert_eq!(a.tracker.timely_received_messages, 1);
    // a second sweep finds nothing more
    a.sweep(T0 + 120_000_000);
    assert_eq!(a.tracker.lost_messages, 1);
    // a reply after the timeout is received but not timely
    a.record_received(T0 + 130_000_000, 1, 1);
    assert_eq!(a.tracker.timely_received_messages, 1);
    assert_eq!(a.tracker.received_messages, 3);
}

#[test]
fn sweep_keeps_recent_probes() {
    let mut a = ClientAnalyzer::new();
    a.record_sent(RTTMeasurement { seq: 0, timestamp: T0 });
    a.record_sent(RTTMeasurement { seq: 1, timestamp: T0 + 4_000_000 });
    // exactly at the timeout is not yet late
    a.sweep(T0 + 5_000_000);
    assert_eq!(a.tracker.lost_messages, 0);
    a.sweep(T0 + 5_000_001);
    assert_eq!(a.tracker.lost_messages, 1);
    assert_eq!(a.tracker.inflight_messages, 1);
    assert!(a.outstanding.contains_key(&1));
    assert!(!a.outstanding.contains_key(&0));
}

#[test]
fn tick_waits_for_interval() {
    let mut a = ClientAnalyzer::new();
    assert!(a.tick(2_000_000, 1_000_000));
    assert!(!a.tick(2_500_000, 1_000_000));
    assert!(!a.tick(3_000_000, 1_000_000));
    assert!(a.tick(3_000_001, 1_000_000));
    assert_eq!(a.last_scan, 3_000_001);
}

#[test]
fn counters_never_decrease() {
    let mut t = ClientSessionTracker::new();
    let mut last = (0u64, 0u64, 0u64);
    for (i, seq) in [4u64, 2, 9, 1, 9, 0].iter().enumerate() {
        t.outgoing(T0 + i as u64);
        t.incoming(T0 + i as u64, *seq, 1);
        let now = (t.max_seq, t.sent_messages, t.received_messages);
        assert!(now.0 >= last.0 && now.1 >= last.1 && now.2 >= last.2);
        last = now;
    }
    assert_eq!(t.max_seq, 9);
}

#[test]
fn room_checks() {
    let mut t = ClientSessionTracker::new();
    assert!(t.can_receive(0, 100));
    assert!(!t.can_receive(u64::MAX, 1));
    t.received_bytes = u64::MAX - 5;
    assert!(t.can_receive(1, 5));
    assert!(!t.can_receive(1, 6));
}

#[test]
fn statistics_snapshot() {
    let mut a = ClientAnalyzer::new();
    send_all(&mut a, 3);
    a.record_received(T0 + 5_000, 0, 50);
    let s = ClientSessionStatistics::from_session_tracker(T0 + 9, &"sid-1".to_string(), &a.tracker);
    assert_eq!(s.clocktower_type, "client_session_statistics");
    assert_eq!(s.sid, "sid-1");
    assert_eq!(s.timestamp, T0 + 9);
    assert_eq!(s.sent_messages, 3);
    assert_eq!(s.received_messages, 1);
    assert_eq!(s.timely_received_messages, 1);
    assert_eq!(s.inflight_messages, 2);
    assert_eq!(s.lost_messages, 0);
    assert_eq!(s.received_bytes, 50);
    assert_eq!(s.rtt_worst, Some(5_000));
    assert_eq!(s.rtt_best, Some(5_000));
    assert_eq!(s.rtt_mavg, Some(5_000));
    assert_eq!(s.intermessage_gap_mavg, None);
    assert_eq!(s.receive_time_windows, a.tracker.receive_time_windows);
}
