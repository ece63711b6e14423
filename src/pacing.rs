//! Pacing of the client's probes and throttling of repeated error reports.

use vstd::prelude::*;
use crate::client::RTTMeasurement;
use crate::timing::MICROS_PER_SECOND;

verus! {

/// How far behind the schedule the transmitter may fall before it stops
/// catching up: one second.
pub const CATCH_UP_MICROS: u64 = 1_000_000;

/// The least time between two reports of the same failure: ten seconds.
pub const ERROR_REPORT_INTERVAL_MICROS: u64 = 10_000_000;

/// The offset from the anchor, in whole microseconds rounded up, of the
/// `k`-th probe slot at `rate` probes per second: slot `k` lies exactly
/// `k * 1_000_000 / rate` microseconds after the anchor.
pub open spec fn slot_offset(k: int, rate: int) -> int {
    (k * 1_000_000 + rate - 1) / rate
}

/// The number of slots, counted from slot zero at `anchor`, that lie at or
/// before `now` at `rate` probes per second.
pub open spec fn slots_through(anchor: int, now: int, rate: int) -> int {
    (now - anchor) * rate / 1_000_000 + 1
}

/// The anchor and slot count a burst at `now` starts from: a new rate
/// re-anchors the schedule at its next slot, and a schedule more than one
/// second behind is re-anchored one second back.
pub open spec fn burst_origin(t: Transmitter, now: u64, pps: u64) -> (int, int) {
    let (a, k) = if pps != t.rate {
        (t.next_tx_at as int, 0int)
    } else {
        (t.anchor as int, t.slots as int)
    };
    if now >= CATCH_UP_MICROS && t.next_tx_at < now - CATCH_UP_MICROS {
        (now - CATCH_UP_MICROS, 0int)
    } else {
        (a, k)
    }
}

proof fn lemma_ceil_div(x: int, r: int)
    requires
        x >= 0,
        r > 0,
    ensures
        ((x + r - 1) / r) * r >= x,
        ((x + r - 1) / r) * r < x + r,
        (x + r - 1) / r >= 0,
{
    let q = (x + r - 1) / r;
    assert(q * r <= x + r - 1 && x + r - 1 < q * r + r) by (nonlinear_arith)
        requires
            r > 0,
            x + r - 1 >= 0,
            q == (x + r - 1) / r,
    ;
    assert(q >= 0) by (nonlinear_arith)
        requires
            r > 0,
            x + r - 1 >= 0,
            q == (x + r - 1) / r,
    ;
}

proof fn lemma_floor_div(x: int, r: int)
    requires
        x >= 0,
        r > 0,
    ensures
        (x / r) * r <= x,
        x < (x / r) * r + r,
        x / r >= 0,
{
    let q = x / r;
    assert(q * r <= x && x < q * r + r && q >= 0) by (nonlinear_arith)
        requires
            r > 0,
            x >= 0,
            q == x / r,
    ;
}

/// The transmitter's schedule. Probe slots lie exactly `1_000_000 / rate`
/// microseconds apart from `anchor`; `slots` of them have been handed out
/// since the anchor, and `next_tx_at` is the time of the next one, rounded up
/// to the microsecond. `msg_seq` is the number the next probe carries.
pub struct Transmitter {
    pub next_tx_at: u64,
    pub anchor: u64,
    pub slots: u128,
    pub rate: u64,
    pub msg_seq: u64,
}

impl Transmitter {
    /// The next slot lies at its exact place, rounded up, after the anchor;
    /// with no rate yet the schedule stands at the anchor.
    pub open spec fn wf(&self) -> bool {
        &&& self.anchor <= self.next_tx_at
        &&& self.rate > 0 ==> self.next_tx_at == self.anchor + slot_offset(
            self.slots as int,
            self.rate as int,
        )
        &&& self.rate == 0 ==> self.slots == 0 && self.next_tx_at == self.anchor
        &&& self.slots <= (u64::MAX as int) * (u64::MAX as int) / 1_000_000 + 1
    }

    /// A schedule whose first probe, number zero, is due at `now`.
    pub fn new(now: u64) -> (r: Transmitter)
        ensures
            r.wf(),
            r.next_tx_at == now,
            r.anchor == now,
            r.slots == 0,
            r.rate == 0,
            r.msg_seq == 0,
    {
        Transmitter { next_tx_at: now, anchor: now, slots: 0, rate: 0, msg_seq: 0 }
    }

    /// Returns how many probes are due at `now` at a rate of `pps` per
    /// second, and moves the schedule past them.
    ///
    /// Nothing is due before the next slot. At a rate of zero nothing is due
    /// and the schedule waits at `now`, so that probing resumes at once when
    /// the rate rises. Otherwise every slot from the burst's origin up to
    /// `now` is due, one second of them at most when the schedule fell behind.
    pub fn schedule(&mut self, now: u64, pps: u64) -> (n: u128)
        requires
            old(self).wf(),
            now <= u64::MAX - 2 * MICROS_PER_SECOND,
        ensures
            final(self).wf(),
            final(self).msg_seq == old(self).msg_seq,
            final(self).rate == pps,
            if now < old(self).next_tx_at {
                &&& n == 0
                &&& final(self).next_tx_at == old(self).next_tx_at
            } else if pps == 0 {
                &&& n == 0
                &&& final(self).next_tx_at == now
                &&& final(self).anchor == now
            } else {
                let (a, k) = burst_origin(*old(self), now, pps);
                &&& n == slots_through(a, now as int, pps as int) - k
                &&& n >= 1
                &&& final(self).anchor == a
                &&& final(self).slots == slots_through(a, now as int, pps as int)
                &&& final(self).next_tx_at == a + slot_offset(final(self).slots as int, pps as int)
                &&& final(self).next_tx_at > now
            },
    {
        if pps != self.rate {
            self.anchor = self.next_tx_at;
            self.slots = 0;
            self.rate = pps;
            proof {
                if pps > 0 {
                    assert(slot_offset(0, pps as int) == 0) by (nonlinear_arith)
                        requires
                            pps > 0,
                    ;
                }
            }
        }
        if now < self.next_tx_at {
            return 0;
        }
        if pps == 0 {
            self.anchor = now;
            self.next_tx_at = now;
            return 0;
        }
        if now >= CATCH_UP_MICROS && self.next_tx_at < now - CATCH_UP_MICROS {
            self.anchor = now - CATCH_UP_MICROS;
            self.slots = 0;
            self.next_tx_at = self.anchor;
        }
        let ghost a = self.anchor as int;
        let ghost k0 = self.slots as int;
        let ghost p = pps as int;
        let d: u64 = now - self.anchor;
        assert((d as int) * p <= (u64::MAX as int) * (u64::MAX as int)) by (nonlinear_arith)
            requires
                d <= u64::MAX,
                p <= u64::MAX,
                d >= 0,
                p >= 0,
        ;
        let last: u128 = (d as u128) * (pps as u128) / 1_000_000;
        proof {
            lemma_floor_div(d * p, 1_000_000);
            assert(last as int <= (u64::MAX as int) * (u64::MAX as int) / 1_000_000) by (nonlinear_arith)
                requires
                    last as int == d * p / 1_000_000,
                    d * p <= (u64::MAX as int) * (u64::MAX as int),
            ;
            // the slot the schedule stands at is due
            if k0 > 0 {
                lemma_ceil_div(k0 * 1_000_000, p);
                assert(slot_offset(k0, p) <= d);
                assert(k0 * 1_000_000 <= d * p) by (nonlinear_arith)
                    requires
                        slot_offset(k0, p) * p >= k0 * 1_000_000,
                        slot_offset(k0, p) <= d,
                        p > 0,
                ;
                assert(k0 <= last) by (nonlinear_arith)
                    requires
                        k0 * 1_000_000 <= d * p,
                        (last as int) * 1_000_000 <= d * p,
                        d * p < (last as int) * 1_000_000 + 1_000_000,
                ;
            }
        }
        let k: u128 = last + 1;
        let n: u128 = k - self.slots;
        assert((k as int) * 1_000_000 + p - 1 <= u128::MAX) by (nonlinear_arith)
            requires
                (k as int) <= (u64::MAX as int) * (u64::MAX as int) / 1_000_000 + 1,
                p <= u64::MAX,
        ;
        let offset: u128 = (k * 1_000_000 + (pps as u128) - 1) / (pps as u128);
        proof {
            lemma_ceil_div(k * 1_000_000, p);
            // the new slot lies after now, and less than a second plus one
            // microsecond after it
            assert(d * p < (k as int) * 1_000_000);
            assert(offset > d) by (nonlinear_arith)
                requires
                    (offset as int) * p >= (k as int) * 1_000_000,
                    d * p < (k as int) * 1_000_000,
                    p > 0,
            ;
            assert(offset <= d as int + 1_000_001) by (nonlinear_arith)
                requires
                    (offset as int) * p < (k as int) * 1_000_000 + p,
                    (k as int) * 1_000_000 <= d * p + 1_000_000,
                    p > 0,
            ;
        }
        self.slots = k;
        self.next_tx_at = self.anchor + offset as u64;
        n
    }

    /// Records that the probe carrying `msg_seq` went out at `now`: returns
    /// its send time, and the next probe carries the next number.
    pub fn confirm_sent(&mut self, now: u64) -> (m: RTTMeasurement)
        requires
            old(self).msg_seq < u64::MAX,
        ensures
            m == (RTTMeasurement { seq: old(self).msg_seq, timestamp: now }),
            final(self).msg_seq == old(self).msg_seq + 1,
            final(self).next_tx_at == old(self).next_tx_at,
            final(self).anchor == old(self).anchor,
            final(self).slots == old(self).slots,
            final(self).rate == old(self).rate,
    {
        let m = RTTMeasurement { seq: self.msg_seq, timestamp: now };
        self.msg_seq = self.msg_seq + 1;
        m
    }
}

/// Whether a failure seen at `now` is to be reported, the last report having
/// been made at `last_report`: only when more than ten seconds have passed.
pub fn report_due(last_report: u64, now: u64) -> (r: bool)
    ensures
        r == (now > last_report + ERROR_REPORT_INTERVAL_MICROS),
{
    now >= last_report && now - last_report > ERROR_REPORT_INTERVAL_MICROS
}

} // verus!
