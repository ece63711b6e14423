//! Timestamps, sub-second arrival windows and moving averages.

use vstd::prelude::*;

verus! {

/// Microseconds in one second.
pub const MICROS_PER_SECOND: u64 = 1_000_000;

/// Number of sub-second arrival windows kept per session.
pub const WINDOW_COUNT: usize = 10;

/// Width of one arrival window, in microseconds.
pub const MICROS_PER_WINDOW: u64 = 100_000;

/// Whether a time `t` lies more than `age` before `now`.
pub open spec fn older_than(t: u64, age: u64, now: u64) -> bool {
    t + age < now
}

/// Returns whether `t` lies more than `age` before `now`.
pub fn is_older_than(t: u64, age: u64, now: u64) -> (r: bool)
    ensures
        r == older_than(t, age, now),
{
    (t as u128) + (age as u128) < now as u128
}

/// The arrival window of a timestamp: its fractional second, in tenths.
pub open spec fn window_of(ts: u64) -> int {
    ((ts % 1_000_000) / 100_000) as int
}

/// Returns the arrival window of `ts`.
pub fn window_index(ts: u64) -> (r: usize)
    ensures
        r == window_of(ts),
        r < WINDOW_COUNT,
{
    ((ts % MICROS_PER_SECOND) / MICROS_PER_WINDOW) as usize
}

/// Sum of the counters of an arrival window sequence.
pub open spec fn window_total(w: Seq<u64>) -> int
    decreases w.len(),
{
    if w.len() == 0 {
        0
    } else {
        window_total(w.drop_last()) + w.last()
    }
}

/// Setting one counter changes the sum by the difference.
pub proof fn lemma_window_total_update(w: Seq<u64>, i: int, v: u64)
    requires
        0 <= i < w.len(),
    ensures
        window_total(w.update(i, v)) == window_total(w) - w[i] + v,
    decreases w.len(),
{
    let u = w.update(i, v);
    if i == w.len() - 1 {
        assert(u.drop_last() =~= w.drop_last());
    } else {
        lemma_window_total_update(w.drop_last(), i, v);
        assert(u.drop_last() =~= w.drop_last().update(i, v));
    }
}

/// No counter exceeds the sum.
pub proof fn lemma_window_le_total(w: Seq<u64>, i: int)
    requires
        0 <= i < w.len(),
    ensures
        w[i] <= window_total(w),
    decreases w.len(),
{
    lemma_window_total_nonneg(w.drop_last());
    if i < w.len() - 1 {
        lemma_window_le_total(w.drop_last(), i);
    }
}

/// The sum of counters is never negative.
pub proof fn lemma_window_total_nonneg(w: Seq<u64>)
    ensures
        window_total(w) >= 0,
    decreases w.len(),
{
    if w.len() > 0 {
        lemma_window_total_nonneg(w.drop_last());
    }
}

/// A fresh set of arrival windows, all zero.
pub fn empty_windows() -> (r: Vec<u64>)
    ensures
        r@.len() == WINDOW_COUNT,
        forall|i: int| 0 <= i < r@.len() ==> r@[i] == 0,
        window_total(r@) == 0,
{
    let mut r: Vec<u64> = Vec::new();
    for _i in 0..WINDOW_COUNT
        invariant
            r@.len() == _i,
            forall|j: int| 0 <= j < r@.len() ==> r@[j] == 0,
            window_total(r@) == 0,
    {
        proof {
            assert(r@.push(0).drop_last() =~= r@);
        }
        r.push(0);
    }
    r
}

/// Counts one arrival at `ts` in its window.
pub fn count_arrival(windows: &mut Vec<u64>, ts: u64)
    requires
        old(windows)@.len() == WINDOW_COUNT,
        window_total(old(windows)@) < u64::MAX,
    ensures
        final(windows)@ == old(windows)@.update(
            window_of(ts),
            (old(windows)@[window_of(ts)] + 1) as u64,
        ),
        final(windows)@.len() == WINDOW_COUNT,
        window_total(final(windows)@) == window_total(old(windows)@) + 1,
{
    let i = window_index(ts);
    proof {
        lemma_window_le_total(windows@, i as int);
        lemma_window_total_update(windows@, i as int, (windows@[i as int] + 1) as u64);
    }
    windows[i] = windows[i] + 1;
}

/// One step of the moving average: weight nine tenths on the prior value and
/// one tenth on the new sample, rounded down.
pub open spec fn mavg_step(avg: int, sample: int) -> int {
    (9 * avg + sample) / 10
}

/// The moving average after `sample`: the sample itself when there was none.
pub open spec fn mavg_after(avg: Option<u64>, sample: u64) -> int {
    match avg {
        Some(a) => mavg_step(a as int, sample as int),
        None => sample as int,
    }
}

/// Returns the moving average after `sample`.
pub fn next_mavg(avg: Option<u64>, sample: u64) -> (r: u64)
    ensures
        r == mavg_after(avg, sample),
{
    match avg {
        Some(a) => {
            let total: u128 = 9 * (a as u128) + (sample as u128);
            let r: u128 = total / 10;
            assert(r <= u64::MAX) by (nonlinear_arith)
                requires
                    total == 9 * (a as int) + (sample as int),
                    r == total / 10,
                    a <= u64::MAX,
                    sample <= u64::MAX,
            ;
            r as u64
        },
        None => sample,
    }
}

/// The inter-arrival gap average after an arrival at `ts`: updated with the
/// gap to the previous arrival when that one is known and earlier.
pub open spec fn gap_after(last_rx: Option<u64>, gap: Option<u64>, ts: u64) -> Option<u64> {
    match last_rx {
        Some(l) => if ts > l {
            Some(mavg_after(gap, (ts - l) as u64) as u64)
        } else {
            gap
        },
        None => gap,
    }
}

/// Returns the inter-arrival gap average after an arrival at `ts`.
pub fn next_gap(last_rx: Option<u64>, gap: Option<u64>, ts: u64) -> (r: Option<u64>)
    ensures
        r == gap_after(last_rx, gap, ts),
{
    match last_rx {
        Some(l) => if ts > l {
            Some(next_mavg(gap, ts - l))
        } else {
            gap
        },
        None => gap,
    }
}

} // verus!
