//! Per-session state kept by the client: sequence classification, round-trip
//! times, losses, and the analyzer that correlates probes with replies.

use std::collections::HashMap;
use vstd::prelude::*;
use crate::keyed::remove_keys;
use crate::timing::{
    count_arrival, empty_windows, gap_after, is_older_than, mavg_after, next_gap, next_mavg,
    older_than, window_of, window_total, WINDOW_COUNT,
};

verus! {

/// What the client knows of its probe session.
pub struct ClientSessionTracker {
    pub last_rx: Option<u64>,
    pub last_tx: Option<u64>,
    pub last_rx_seq: Option<u64>,
    pub next_expected_seq: u64,
    pub max_seq: u64,
    pub seq_unexpected_increment: u64,
    pub seq_unexpected_decrement: u64,
    pub sent_messages: u64,
    pub received_messages: u64,
    pub timely_received_messages: u64,
    pub lost_messages: u64,
    pub inflight_messages: u64,
    pub received_bytes: u64,
    pub rtt_worst: Option<u64>,
    pub rtt_best: Option<u64>,
    pub rtt_mavg: Option<u64>,
    pub intermessage_gap_mavg: Option<u64>,
    pub receive_time_windows: Vec<u64>,
}

/// The round-trip time of a probe sent at `sent` and answered at `recv`; a
/// reply stamped before its probe (a clock step) counts as zero.
pub open spec fn rtt_sample(sent: u64, recv: u64) -> u64 {
    if recv >= sent {
        (recv - sent) as u64
    } else {
        0
    }
}

/// The largest of `m`, if any, and `x`.
pub open spec fn max_after(m: Option<u64>, x: u64) -> u64 {
    match m {
        Some(v) => if v >= x {
            v
        } else {
            x
        },
        None => x,
    }
}

/// The smallest of `m`, if any, and `x`.
pub open spec fn min_after(m: Option<u64>, x: u64) -> u64 {
    match m {
        Some(v) => if v <= x {
            v
        } else {
            x
        },
        None => x,
    }
}

/// The count of replies that arrived ahead of the expected number but within
/// the range already seen, after the reception of `seq`.
pub open spec fn increment_after(t: &ClientSessionTracker, seq: u64) -> int {
    if t.last_rx_seq.is_some() && seq != t.next_expected_seq && t.next_expected_seq < seq
        && seq <= t.max_seq {
        t.seq_unexpected_increment + 1
    } else {
        t.seq_unexpected_increment as int
    }
}

/// The count of replies that arrived behind the expected number, after the
/// reception of `seq`.
pub open spec fn decrement_after(t: &ClientSessionTracker, seq: u64) -> int {
    if t.last_rx_seq.is_some() && seq < t.next_expected_seq {
        t.seq_unexpected_decrement + 1
    } else {
        t.seq_unexpected_decrement as int
    }
}

/// `b` is `a` after the reception of `seq`, `size` bytes long, at `ts`: the
/// fields that describe receptions, and only those, have moved.
pub open spec fn reception_counted(
    a: &ClientSessionTracker,
    b: &ClientSessionTracker,
    ts: u64,
    seq: u64,
    size: usize,
) -> bool {
    &&& b.last_rx == Some(ts)
    &&& b.last_rx_seq == Some(seq)
    &&& b.next_expected_seq == seq + 1
    &&& b.max_seq == max_after(Some(a.max_seq), seq)
    &&& b.seq_unexpected_increment == increment_after(a, seq)
    &&& b.seq_unexpected_decrement == decrement_after(a, seq)
    &&& b.received_messages == a.received_messages + 1
    &&& b.received_bytes == a.received_bytes + size
    &&& b.intermessage_gap_mavg == gap_after(a.last_rx, a.intermessage_gap_mavg, ts)
    &&& b.receive_time_windows@ == a.receive_time_windows@.update(
        window_of(ts),
        (a.receive_time_windows@[window_of(ts)] + 1) as u64,
    )
}

/// The fields that describe receptions are the same in `a` and `b`.
pub open spec fn receptions_unchanged(a: &ClientSessionTracker, b: &ClientSessionTracker) -> bool {
    &&& b.last_rx == a.last_rx
    &&& b.last_rx_seq == a.last_rx_seq
    &&& b.next_expected_seq == a.next_expected_seq
    &&& b.max_seq == a.max_seq
    &&& b.seq_unexpected_increment == a.seq_unexpected_increment
    &&& b.seq_unexpected_decrement == a.seq_unexpected_decrement
    &&& b.received_messages == a.received_messages
    &&& b.received_bytes == a.received_bytes
    &&& b.intermessage_gap_mavg == a.intermessage_gap_mavg
    &&& b.receive_time_windows@ == a.receive_time_windows@
}

/// `b` is `a` after one round-trip sample of `rtt`: one probe less in
/// flight, one more answered in time, and the extremes and average updated.
pub open spec fn rtt_counted(a: &ClientSessionTracker, b: &ClientSessionTracker, rtt: u64) -> bool {
    &&& b.inflight_messages == a.inflight_messages - 1
    &&& b.timely_received_messages == a.timely_received_messages + 1
    &&& b.rtt_worst == Some(max_after(a.rtt_worst, rtt))
    &&& b.rtt_best == Some(min_after(a.rtt_best, rtt))
    &&& b.rtt_mavg == Some(mavg_after(a.rtt_mavg, rtt) as u64)
}

/// The round-trip fields are the same in `a` and `b`.
pub open spec fn rtts_unchanged(a: &ClientSessionTracker, b: &ClientSessionTracker) -> bool {
    &&& b.inflight_messages == a.inflight_messages
    &&& b.timely_received_messages == a.timely_received_messages
    &&& b.rtt_worst == a.rtt_worst
    &&& b.rtt_best == a.rtt_best
    &&& b.rtt_mavg == a.rtt_mavg
}

/// The fields that describe sending and losses are the same in `a` and `b`.
pub open spec fn sends_unchanged(a: &ClientSessionTracker, b: &ClientSessionTracker) -> bool {
    &&& b.sent_messages == a.sent_messages
    &&& b.lost_messages == a.lost_messages
    &&& b.last_tx == a.last_tx
}

/// `b` is `a` after a probe sent at `ts`: one more sent and in flight.
pub open spec fn send_counted(a: &ClientSessionTracker, b: &ClientSessionTracker, ts: u64) -> bool {
    &&& b.last_tx == Some(ts)
    &&& b.sent_messages == a.sent_messages + 1
    &&& b.inflight_messages == a.inflight_messages + 1
    &&& b.lost_messages == a.lost_messages
    &&& b.timely_received_messages == a.timely_received_messages
    &&& b.rtt_worst == a.rtt_worst
    &&& b.rtt_best == a.rtt_best
    &&& b.rtt_mavg == a.rtt_mavg
}

/// `b` is `a` after `n` probes timed out: `n` fewer in flight, `n` more lost.
pub open spec fn losses_counted(a: &ClientSessionTracker, b: &ClientSessionTracker, n: int) -> bool {
    &&& b.inflight_messages == a.inflight_messages - n
    &&& b.lost_messages == a.lost_messages + n
    &&& b.sent_messages == a.sent_messages
    &&& b.last_tx == a.last_tx
    &&& b.timely_received_messages == a.timely_received_messages
    &&& b.rtt_worst == a.rtt_worst
    &&& b.rtt_best == a.rtt_best
    &&& b.rtt_mavg == a.rtt_mavg
}

/// The highest sequence number seen, and the sent and received counts,
/// never go down from `a` to `b`.
pub open spec fn never_decreasing(a: &ClientSessionTracker, b: &ClientSessionTracker) -> bool {
    &&& b.max_seq >= a.max_seq
    &&& b.sent_messages >= a.sent_messages
    &&& b.received_messages >= a.received_messages
}

impl ClientSessionTracker {
    /// Every probe sent is in flight, answered in time, or lost; the arrival
    /// windows are ten counters summing to the replies received; after a
    /// reception the next expected number follows the last one received.
    pub open spec fn wf(&self) -> bool {
        &&& self.sent_messages == self.inflight_messages + self.timely_received_messages
            + self.lost_messages
        &&& self.receive_time_windows@.len() == WINDOW_COUNT
        &&& window_total(self.receive_time_windows@) == self.received_messages
        &&& self.seq_unexpected_increment + self.seq_unexpected_decrement
            <= self.received_messages
        &&& match self.last_rx_seq {
            Some(s) => self.next_expected_seq == s + 1 && self.max_seq >= s,
            None => self.received_messages == 0,
        }
    }

    /// Nothing sent or received yet: no times, no round-trip samples, every
    /// counter and arrival window at zero.
    pub open spec fn is_fresh(&self) -> bool {
        &&& self.last_rx.is_none()
        &&& self.last_tx.is_none()
        &&& self.last_rx_seq.is_none()
        &&& self.next_expected_seq == 0
        &&& self.max_seq == 0
        &&& self.seq_unexpected_increment == 0
        &&& self.seq_unexpected_decrement == 0
        &&& self.sent_messages == 0
        &&& self.received_messages == 0
        &&& self.timely_received_messages == 0
        &&& self.lost_messages == 0
        &&& self.inflight_messages == 0
        &&& self.received_bytes == 0
        &&& self.rtt_worst.is_none()
        &&& self.rtt_best.is_none()
        &&& self.rtt_mavg.is_none()
        &&& self.intermessage_gap_mavg.is_none()
        &&& self.receive_time_windows@ == Seq::new(WINDOW_COUNT as nat, |i: int| 0u64)
    }

    /// Whether the counters leave room for the reception of `seq` with
    /// `size` bytes.
    pub open spec fn has_room(&self, seq: u64, size: usize) -> bool {
        &&& self.received_messages < u64::MAX
        &&& self.received_bytes + size <= u64::MAX
        &&& seq < u64::MAX
    }

    /// A tracker with nothing sent or received.
    pub fn new() -> (r: ClientSessionTracker)
        ensures
            r.wf(),
            r.is_fresh(),
    {
        let windows = empty_windows();
        assert(windows@ =~= Seq::new(WINDOW_COUNT as nat, |i: int| 0u64));
        ClientSessionTracker {
            last_rx: None,
            last_tx: None,
            last_rx_seq: None,
            next_expected_seq: 0,
            max_seq: 0,
            seq_unexpected_increment: 0,
            seq_unexpected_decrement: 0,
            sent_messages: 0,
            received_messages: 0,
            timely_received_messages: 0,
            lost_messages: 0,
            inflight_messages: 0,
            received_bytes: 0,
            rtt_worst: None,
            rtt_best: None,
            rtt_mavg: None,
            intermessage_gap_mavg: None,
            receive_time_windows: windows,
        }
    }

    /// Counts a probe sent at `timestamp`.
    pub fn outgoing(&mut self, timestamp: u64)
        requires
            old(self).wf(),
            old(self).sent_messages < u64::MAX,
        ensures
            final(self).wf(),
            send_counted(old(self), final(self), timestamp),
            receptions_unchanged(old(self), final(self)),
            never_decreasing(old(self), final(self)),
    {
        self.last_tx = Some(timestamp);
        self.sent_messages = self.sent_messages + 1;
        self.inflight_messages = self.inflight_messages + 1;
    }

    /// Whether the counters leave room for the reception of `seq`.
    pub fn can_receive(&self, seq: u64, size: usize) -> (r: bool)
        ensures
            r == self.has_room(seq, size),
    {
        self.received_messages < u64::MAX && self.received_bytes <= u64::MAX - size as u64 && seq
            < u64::MAX
    }

    /// Counts the reception of `seq`, `received_bytes` long, at `timestamp`:
    /// classifies it against the expected sequence, and updates the gap
    /// average, the byte and message counts and the arrival windows.
    pub fn incoming(&mut self, timestamp: u64, seq: u64, received_bytes: usize)
        requires
            old(self).wf(),
            old(self).has_room(seq, received_bytes),
        ensures
            final(self).wf(),
            reception_counted(old(self), final(self), timestamp, seq, received_bytes),
            rtts_unchanged(old(self), final(self)),
            sends_unchanged(old(self), final(self)),
            never_decreasing(old(self), final(self)),
    {
        proof {
            crate::timing::lemma_window_total_nonneg(self.receive_time_windows@);
        }
        self.intermessage_gap_mavg = next_gap(self.last_rx, self.intermessage_gap_mavg, timestamp);
        if self.last_rx_seq.is_some() {
            if seq == self.next_expected_seq {
            } else if seq > self.next_expected_seq && seq <= self.max_seq {
                self.seq_unexpected_increment = self.seq_unexpected_increment + 1;
            } else if seq < self.next_expected_seq {
                self.seq_unexpected_decrement = self.seq_unexpected_decrement + 1;
            }
        }
        self.last_rx = Some(timestamp);
        self.received_bytes = self.received_bytes + received_bytes as u64;
        self.received_messages = self.received_messages + 1;
        self.next_expected_seq = seq + 1;
        self.last_rx_seq = Some(seq);
        if seq > self.max_seq {
            self.max_seq = seq;
        }
        count_arrival(&mut self.receive_time_windows, timestamp);
    }

    /// Counts a probe whose reply did not come in time.
    pub fn rtt_timeout(&mut self)
        requires
            old(self).wf(),
            old(self).inflight_messages > 0,
        ensures
            final(self).wf(),
            losses_counted(old(self), final(self), 1),
            receptions_unchanged(old(self), final(self)),
            never_decreasing(old(self), final(self)),
    {
        self.inflight_messages = self.inflight_messages - 1;
        self.lost_messages = self.lost_messages + 1;
    }

    /// Counts a probe sent at `sent` and answered at `recv`.
    pub fn rtt_success(&mut self, sent: u64, recv: u64)
        requires
            old(self).wf(),
            old(self).inflight_messages > 0,
        ensures
            final(self).wf(),
            rtt_counted(old(self), final(self), rtt_sample(sent, recv)),
            receptions_unchanged(old(self), final(self)),
            sends_unchanged(old(self), final(self)),
            never_decreasing(old(self), final(self)),
    {
        self.inflight_messages = self.inflight_messages - 1;
        self.timely_received_messages = self.timely_received_messages + 1;
        let rtt: u64 = if recv >= sent {
            recv - sent
        } else {
            0
        };
        self.rtt_worst = match self.rtt_worst {
            Some(w) => if w >= rtt {
                Some(w)
            } else {
                Some(rtt)
            },
            None => Some(rtt),
        };
        self.rtt_best = match self.rtt_best {
            Some(b) => if b <= rtt {
                Some(b)
            } else {
                Some(rtt)
            },
            None => Some(rtt),
        };
        self.rtt_mavg = Some(next_mavg(self.rtt_mavg, rtt));
    }
}

/// At every moment the probes in flight are those sent, less those answered
/// in time and those lost.
pub proof fn lemma_inflight_balance(t: &ClientSessionTracker)
    requires
        t.wf(),
    ensures
        t.inflight_messages == t.sent_messages - t.timely_received_messages - t.lost_messages,
{
}

/// The client's arrival windows are ten counters that sum to the replies
/// received.
pub proof fn lemma_client_windows_count_receptions(t: &ClientSessionTracker)
    requires
        t.wf(),
    ensures
        t.receive_time_windows@.len() == 10,
        window_total(t.receive_time_windows@) == t.received_messages,
{
}

/// The send time of probe `seq`, as the transmitter reports it.
#[derive(Debug, Clone, Copy, PartialEq, Eq, Structural)]
pub struct RTTMeasurement {
    pub seq: u64,
    pub timestamp: u64,
}

/// How long the client waits for a reply before counting the probe lost.
pub const RTT_TIMEOUT_MICROS: u64 = 5_000_000;

/// Whether a probe sent at `sent` has timed out at `now`.
pub open spec fn send_expired(sent: u64, now: u64) -> bool {
    sent + RTT_TIMEOUT_MICROS < now
}

/// The probes of `outstanding` that have not timed out at `now`.
pub open spec fn unexpired_sends(outstanding: Map<u64, u64>, now: u64) -> Map<u64, u64> {
    Map::new(
        |k: u64| outstanding.contains_key(k) && !send_expired(outstanding[k], now),
        |k: u64| outstanding[k],
    )
}

/// The sequence numbers of the probes of `outstanding` timed out at `now`.
pub open spec fn expired_seqs(outstanding: Map<u64, u64>, now: u64) -> Set<u64> {
    outstanding.dom().filter(|k: u64| send_expired(outstanding[k], now))
}

/// An awaited probe yields its round-trip sample or its loss, never both.
/// A sweep counts one loss for each probe timed out, and leaves none of them
/// awaited, so no later reply yields a sample for it; a matched probe is no
/// longer awaited, so no later sweep counts it lost.
pub proof fn lemma_sample_or_loss(outstanding: Map<u64, u64>, seq: u64, now: u64)
    requires
        outstanding.dom().finite(),
    ensures
        outstanding.dom().len() - unexpired_sends(outstanding, now).dom().len() == expired_seqs(
            outstanding,
            now,
        ).len(),
        forall|k: u64|
            #[trigger] expired_seqs(outstanding, now).contains(k) ==> !unexpired_sends(
                outstanding,
                now,
            ).contains_key(k),
        !outstanding.remove(seq).contains_key(seq),
        !expired_seqs(outstanding.remove(seq), now).contains(seq),
{
    let d = outstanding.dom();
    let kept = unexpired_sends(outstanding, now).dom();
    let gone = expired_seqs(outstanding, now);
    assert(kept =~= d.filter(|k: u64| !send_expired(outstanding[k], now)));
    d.lemma_len_filter(|k: u64| !send_expired(outstanding[k], now));
    d.lemma_len_filter(|k: u64| send_expired(outstanding[k], now));
    assert(kept.disjoint(gone));
    assert(kept + gone =~= d);
    vstd::set_lib::lemma_set_disjoint_lens(kept, gone);
}

/// The sequence numbers of the probes timed out at `now`.
fn expired_sends(outstanding: &HashMap<u64, u64>, now: u64) -> (r: Vec<u64>)
    ensures
        forall|k: u64|
            #![trigger r@.contains(k)]
            #![trigger outstanding@.contains_key(k)]
            r@.contains(k) <==> (outstanding@.contains_key(k) && send_expired(outstanding@[k], now)),
{
    let mut r: Vec<u64> = Vec::new();
    let ghost all = vstd::std_specs::iter::IteratorSpec::remaining(
        &vstd::std_specs::hash::spec_keys_iter(outstanding),
    );
    for k in it: outstanding.keys()
        invariant
            it.seq() == all,
            it.seq().unref().to_set() == outstanding@.dom(),
            forall|x: u64|
                r@.contains(x) ==> (outstanding@.contains_key(x) && send_expired(
                    outstanding@[x],
                    now,
                )),
            forall|j: int|
                0 <= j < it.index() && send_expired(outstanding@[*it.seq()[j]], now) ==> r@.contains(
                    *it.seq()[j],
                ),
    {
        proof {
            assert(it.seq().unref()[it.index() as int] == *k);
            assert(it.seq().unref().to_set().contains(*k));
        }
        let ghost before = r@;
        let sent = *outstanding.get(k).unwrap();
        if (sent as u128) + (RTT_TIMEOUT_MICROS as u128) < now as u128 {
            r.push(*k);
            proof {
                assert(r@[before.len() as int] == *k);
                assert forall|x: u64| before.contains(x) implies r@.contains(x) by {
                    let j = choose|j: int| 0 <= j < before.len() && before[j] == x;
                    assert(r@[j] == x);
                }
                assert forall|x: u64| r@.contains(x) implies (outstanding@.contains_key(x)
                    && send_expired(outstanding@[x], now)) by {
                    let j = choose|j: int| 0 <= j < r@.len() && r@[j] == x;
                    if j < before.len() {
                        assert(before[j] == x);
                        assert(before.contains(x));
                    }
                }
            }
        }
    }
    proof {
        assert forall|x: u64|
            outstanding@.contains_key(x) && send_expired(outstanding@[x], now) implies r@.contains(
            x,
        ) by {
            assert(all.unref().to_set().contains(x));
            let j = choose|j: int| 0 <= j < all.unref().len() && all.unref()[j] == x;
            assert(*all[j] == x);
        }
    }
    r
}

/// The client's analyzer: the session tracker, the probes awaiting a reply
/// (sequence number to send time), and the time of the last sweep.
pub struct ClientAnalyzer {
    pub tracker: ClientSessionTracker,
    pub outstanding: HashMap<u64, u64>,
    pub last_scan: u64,
}

impl ClientAnalyzer {
    /// The tracker is well formed and every awaited probe is in flight.
    pub open spec fn wf(&self) -> bool {
        &&& self.tracker.wf()
        &&& self.outstanding@.dom().len() <= self.tracker.inflight_messages
    }

    /// An analyzer with nothing sent, received or awaited.
    pub fn new() -> (r: ClientAnalyzer)
        ensures
            r.wf(),
            r.tracker.is_fresh(),
            r.outstanding@.dom().is_empty(),
            r.last_scan == 0,
    {
        let r = ClientAnalyzer {
            tracker: ClientSessionTracker::new(),
            outstanding: HashMap::new(),
            last_scan: 0,
        };
        assert(r.outstanding@.dom() =~= Set::<u64>::empty());
        r
    }

    /// Records that probe `m.seq` went out at `m.timestamp`: it is counted as
    /// sent and awaits its reply.
    pub fn record_sent(&mut self, m: RTTMeasurement)
        requires
            old(self).wf(),
            old(self).tracker.sent_messages < u64::MAX,
        ensures
            final(self).wf(),
            send_counted(&old(self).tracker, &final(self).tracker, m.timestamp),
            receptions_unchanged(&old(self).tracker, &final(self).tracker),
            never_decreasing(&old(self).tracker, &final(self).tracker),
            final(self).outstanding@ == old(self).outstanding@.insert(m.seq, m.timestamp),
            final(self).last_scan == old(self).last_scan,
    {
        self.tracker.outgoing(m.timestamp);
        self.outstanding.insert(m.seq, m.timestamp);
        proof {
            if old(self).outstanding@.contains_key(m.seq) {
                assert(self.outstanding@.dom() =~= old(self).outstanding@.dom());
            } else {
                assert(self.outstanding@.dom() =~= old(self).outstanding@.dom().insert(m.seq));
            }
        }
    }

    /// Records the reply `seq`, `size` bytes long, received at `timestamp`.
    /// When the probe awaits its reply, this yields its one round-trip sample
    /// and the probe no longer awaits.
    pub fn record_received(&mut self, timestamp: u64, seq: u64, size: usize)
        requires
            old(self).wf(),
            old(self).tracker.has_room(seq, size),
        ensures
            final(self).wf(),
            reception_counted(&old(self).tracker, &final(self).tracker, timestamp, seq, size),
            sends_unchanged(&old(self).tracker, &final(self).tracker),
            never_decreasing(&old(self).tracker, &final(self).tracker),
            if old(self).outstanding@.contains_key(seq) {
                &&& rtt_counted(
                    &old(self).tracker,
                    &final(self).tracker,
                    rtt_sample(old(self).outstanding@[seq], timestamp),
                )
                &&& final(self).outstanding@ == old(self).outstanding@.remove(seq)
            } else {
                &&& rtts_unchanged(&old(self).tracker, &final(self).tracker)
                &&& final(self).outstanding@ == old(self).outstanding@
            },
            final(self).last_scan == old(self).last_scan,
    {
        self.tracker.incoming(timestamp, seq, size);
        match self.outstanding.remove(&seq) {
            Some(sent) => {
                proof {
                    assert(old(self).outstanding@.dom().contains(seq));
                    assert(self.outstanding@.dom() =~= old(self).outstanding@.dom().remove(seq));
                    vstd::set_lib::lemma_len_subset(
                        old(self).outstanding@.dom().remove(seq),
                        old(self).outstanding@.dom(),
                    );
                }
                self.tracker.rtt_success(sent, timestamp);
            },
            None => {},
        }
    }

    /// Counts every probe that has waited longer than the timeout at `now`
    /// as lost, exactly once, and stops awaiting it.
    pub fn sweep(&mut self, now: u64)
        requires
            old(self).wf(),
        ensures
            final(self).wf(),
            final(self).outstanding@ == unexpired_sends(old(self).outstanding@, now),
            losses_counted(
                &old(self).tracker,
                &final(self).tracker,
                expired_seqs(old(self).outstanding@, now).len() as int,
            ),
            receptions_unchanged(&old(self).tracker, &final(self).tracker),
            never_decreasing(&old(self).tracker, &final(self).tracker),
            final(self).last_scan == old(self).last_scan,
    {
        proof {
            lemma_sample_or_loss(self.outstanding@, 0, now);
        }
        let expired = expired_sends(&self.outstanding, now);
        let removed = remove_keys(&mut self.outstanding, &expired);
        proof {
            let target = unexpired_sends(old(self).outstanding@, now);
            assert forall|k: u64| self.outstanding@.contains_key(k) <==> target.contains_key(k) by {
                if old(self).outstanding@.contains_key(k) && send_expired(
                    old(self).outstanding@[k],
                    now,
                ) {
                    assert(expired@.contains(k));
                } else if old(self).outstanding@.contains_key(k) {
                    assert(!expired@.contains(k));
                }
            }
            assert(self.outstanding@ =~= target);
        }
        let ghost start = self.tracker;
        let mut i: u64 = 0;
        while i < removed
            invariant
                self.tracker.wf(),
                start == old(self).tracker,
                i <= removed,
                removed == old(self).outstanding@.dom().len() - self.outstanding@.dom().len(),
                old(self).outstanding@.dom().len() <= start.inflight_messages,
                self.outstanding@ == unexpired_sends(old(self).outstanding@, now),
                self.last_scan == old(self).last_scan,
                losses_counted(&start, &self.tracker, i as int),
                receptions_unchanged(&start, &self.tracker),
                never_decreasing(&start, &self.tracker),
            decreases removed - i,
        {
            self.tracker.rtt_timeout();
            i = i + 1;
        }
    }

    /// Decides at `now` whether the periodic report is due: when the last
    /// sweep lies more than `stats_interval` back, sweeps the timed-out
    /// probes, stamps the sweep, and returns true.
    pub fn tick(&mut self, now: u64, stats_interval: u64) -> (due: bool)
        requires
            old(self).wf(),
        ensures
            final(self).wf(),
            due == older_than(old(self).last_scan, stats_interval, now),
            due ==> {
                &&& final(self).outstanding@ == unexpired_sends(old(self).outstanding@, now)
                &&& losses_counted(
                    &old(self).tracker,
                    &final(self).tracker,
                    expired_seqs(old(self).outstanding@, now).len() as int,
                )
                &&& receptions_unchanged(&old(self).tracker, &final(self).tracker)
                &&& final(self).last_scan == now
            },
            !due ==> {
                &&& final(self).outstanding@ == old(self).outstanding@
                &&& final(self).tracker == old(self).tracker
                &&& final(self).last_scan == old(self).last_scan
            },
            never_decreasing(&old(self).tracker, &final(self).tracker),
    {
        if is_older_than(self.last_scan, stats_interval, now) {
            self.sweep(now);
            self.last_scan = now;
            true
        } else {
            false
        }
    }
}

/// A snapshot of the client session, as published.
pub struct ClientSessionStatistics {
    pub clocktower_type: String,
    pub sid: String,
    pub timestamp: u64,
    pub seq_unexpected_increment: u64,
    pub seq_unexpected_decrement: u64,
    pub sent_messages: u64,
    pub received_messages: u64,
    pub timely_received_messages: u64,
    pub lost_messages: u64,
    pub inflight_messages: u64,
    pub received_bytes: u64,
    pub rtt_worst: Option<u64>,
    pub rtt_best: Option<u64>,
    pub rtt_mavg: Option<u64>,
    pub intermessage_gap_mavg: Option<u64>,
    pub receive_time_windows: Vec<u64>,
}

impl ClientSessionStatistics {
    /// The snapshot of tracker `st` of session `sid`, taken at `timestamp`.
    pub fn from_session_tracker(timestamp: u64, sid: &String, st: &ClientSessionTracker) -> (r:
        ClientSessionStatistics)
        ensures
            r.clocktower_type@ == "client_session_statistics"@,
            r.sid@ == sid@,
            r.timestamp == timestamp,
            r.seq_unexpected_increment == st.seq_unexpected_increment,
            r.seq_unexpected_decrement == st.seq_unexpected_decrement,
            r.sent_messages == st.sent_messages,
            r.received_messages == st.received_messages,
            r.timely_received_messages == st.timely_received_messages,
            r.lost_messages == st.lost_messages,
            r.inflight_messages == st.inflight_messages,
            r.received_bytes == st.received_bytes,
            r.rtt_worst == st.rtt_worst,
            r.rtt_best == st.rtt_best,
            r.rtt_mavg == st.rtt_mavg,
            r.intermessage_gap_mavg == st.intermessage_gap_mavg,
            r.receive_time_windows@ == st.receive_time_windows@,
    {
        proof {
            reveal_strlit("client_session_statistics");
        }
        ClientSessionStatistics {
            clocktower_type: "client_session_statistics".to_owned(),
            sid: sid.clone(),
            timestamp,
            seq_unexpected_increment: st.seq_unexpected_increment,
            seq_unexpected_decrement: st.seq_unexpected_decrement,
            sent_messages: st.sent_messages,
            received_messages: st.received_messages,
            timely_received_messages: st.timely_received_messages,
            lost_messages: st.lost_messages,
            inflight_messages: st.inflight_messages,
            received_bytes: st.received_bytes,
            rtt_worst: st.rtt_worst,
            rtt_best: st.rtt_best,
            rtt_mavg: st.rtt_mavg,
            intermessage_gap_mavg: st.intermessage_gap_mavg,
            receive_time_windows: st.receive_time_windows.clone(),
        }
    }
}

} // verus!
