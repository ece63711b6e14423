//! Per-session state kept by the hub: sequence holes, counters and the
//! decisions of the periodic sweep.

use std::collections::HashMap;
use vstd::prelude::*;
use crate::keyed::remove_keys;
use crate::timing::{
    count_arrival, empty_windows, gap_after, is_older_than, next_gap, older_than, window_of,
    window_total, WINDOW_COUNT,
};

verus! {

/// How long a hole may stay open before it counts as timed out.
pub const HOLE_TIMEOUT_MICROS: u64 = 1_000_000;

/// How long a session may stay silent before it is removed (seven days).
pub const SESSION_TIMEOUT_MICROS: u64 = 604_800_000_000;

/// A sequence number that the hub expected and has not seen yet.
#[derive(Clone, Copy)]
pub struct Hole {
    pub created: u64,
}

/// What the hub knows of one session.
pub struct SessionContainer {
    pub last_stats: u64,
    pub last_rx: u64,
    pub last_seq: u64,
    pub received_messages: u64,
    pub holes_created: u64,
    pub holes_closed: u64,
    pub holes_timed_out: u64,
    pub holes: HashMap<u64, Hole>,
    pub received_bytes: u64,
    pub intermessage_gap_mavg: Option<u64>,
    pub receive_time_windows: Vec<u64>,
}

/// Whether `seq` continues the sequence after `last_seq`, or restarts it.
pub open spec fn in_sequence(last_seq: u64, seq: u64) -> bool {
    seq == last_seq + 1 || seq == 0
}

/// `holes` with a hole, created at `ts`, for every number strictly between
/// `lo` and `hi` that is not a hole yet.
pub open spec fn with_gap_holes(holes: Map<u64, Hole>, lo: u64, hi: u64, ts: u64) -> Map<
    u64,
    Hole,
> {
    Map::new(
        |k: u64| holes.contains_key(k) || (lo < k && k < hi),
        |k: u64|
            if holes.contains_key(k) {
                holes[k]
            } else {
                Hole { created: ts }
            },
    )
}

/// The holes of `holes` created at or after `deadline`.
pub open spec fn unexpired_holes(holes: Map<u64, Hole>, deadline: u64) -> Map<u64, Hole> {
    Map::new(|k: u64| holes.contains_key(k) && holes[k].created >= deadline, |k: u64| holes[k])
}

/// Opens a hole, created at `ts`, for every number strictly between `lo` and
/// `hi` that is not a hole yet; returns how many were opened.
fn open_gap_holes(holes: &mut HashMap<u64, Hole>, lo: u64, hi: u64, ts: u64) -> (added: u64)
    requires
        lo < hi,
    ensures
        final(holes)@ == with_gap_holes(old(holes)@, lo, hi, ts),
        added == final(holes)@.dom().len() - old(holes)@.dom().len(),
        added <= hi - lo - 1,
{
    let ghost start = holes@;
    let mut added: u64 = 0;
    let mut i: u64 = lo + 1;
    assert(start =~= with_gap_holes(start, lo, i, ts));
    while i < hi
        invariant
            lo < i <= hi,
            holes@ == with_gap_holes(start, lo, i, ts),
            added == holes@.dom().len() - start.dom().len(),
            added <= i - lo - 1,
            start.dom().subset_of(holes@.dom()),
            start == old(holes)@,
        decreases hi - i,
    {
        if !holes.contains_key(&i) {
            holes.insert(i, Hole { created: ts });
            added = added + 1;
        }
        assert(holes@ =~= with_gap_holes(start, lo, (i + 1) as u64, ts));
        i = i + 1;
    }
    added
}

/// The numbers of the holes created before `deadline`.
fn expired_holes(holes: &HashMap<u64, Hole>, deadline: u64) -> (r: Vec<u64>)
    ensures
        forall|k: u64|
            #![trigger r@.contains(k)]
            #![trigger holes@.contains_key(k)]
            r@.contains(k) <==> (holes@.contains_key(k) && holes@[k].created < deadline),
{
    let mut r: Vec<u64> = Vec::new();
    let ghost all = vstd::std_specs::iter::IteratorSpec::remaining(
        &vstd::std_specs::hash::spec_keys_iter(holes),
    );
    for k in it: holes.keys()
        invariant
            it.seq() == all,
            it.seq().unref().to_set() == holes@.dom(),
            forall|x: u64|
                r@.contains(x) ==> (holes@.contains_key(x) && holes@[x].created < deadline),
            forall|j: int|
                0 <= j < it.index() && holes@[*it.seq()[j]].created < deadline ==> r@.contains(
                    *it.seq()[j],
                ),
    {
        proof {
            assert(it.seq().unref()[it.index() as int] == *k);
            assert(it.seq().unref().to_set().contains(*k));
        }
        let ghost before = r@;
        let created = holes.get(k).unwrap().created;
        if created < deadline {
            r.push(*k);
            proof {
                assert(r@[before.len() as int] == *k);
                assert forall|x: u64| before.contains(x) implies r@.contains(x) by {
                    let j = choose|j: int| 0 <= j < before.len() && before[j] == x;
                    assert(r@[j] == x);
                }
                assert forall|x: u64| r@.contains(x) implies (holes@.contains_key(x)
                    && holes@[x].created < deadline) by {
                    let j = choose|j: int| 0 <= j < r@.len() && r@[j] == x;
                    if j < before.len() {
                        assert(before[j] == x);
                        assert(before.contains(x));
                    }
                }
            }
        }
    }
    proof {
        assert forall|x: u64| holes@.contains_key(x) && holes@[x].created < deadline implies r@.contains(
            x,
        ) by {
            assert(all.unref().to_set().contains(x));
            let j = choose|j: int| 0 <= j < all.unref().len() && all.unref()[j] == x;
            assert(*all[j] == x);
        }
    }
    r
}

/// What the sweep decided for a session.
#[derive(Debug, Clone, Copy, PartialEq, Eq, Structural)]
pub enum SweepOutcome {
    /// Silent for longer than the session timeout: publish a last time and remove.
    Expired,
    /// Due for its periodic publication.
    Publish,
    /// Nothing to publish.
    Quiet,
}

/// The creation time before which a hole has timed out at `now`.
pub open spec fn hole_deadline(now: u64) -> u64 {
    if now >= HOLE_TIMEOUT_MICROS {
        (now - HOLE_TIMEOUT_MICROS) as u64
    } else {
        0
    }
}

/// How often the hub sweeps its sessions: the shortest of the session
/// timeout, the statistics interval and the hole timeout.
pub fn sweep_interval(stats_interval: u64) -> (r: u64)
    ensures
        r <= SESSION_TIMEOUT_MICROS,
        r <= stats_interval,
        r <= HOLE_TIMEOUT_MICROS,
        r == SESSION_TIMEOUT_MICROS || r == stats_interval || r == HOLE_TIMEOUT_MICROS,
{
    let mut r = SESSION_TIMEOUT_MICROS;
    if stats_interval < r {
        r = stats_interval;
    }
    if HOLE_TIMEOUT_MICROS < r {
        r = HOLE_TIMEOUT_MICROS;
    }
    r
}

/// `s` is a session whose first message, `seq` with `size` bytes, arrived at
/// `ts`: no holes, nothing published, one message counted in its window.
pub open spec fn opened(s: &SessionContainer, seq: u64, size: usize, ts: u64) -> bool {
    &&& s.last_stats == 0
    &&& s.last_rx == ts
    &&& s.last_seq == seq
    &&& s.received_messages == 1
    &&& s.holes_created == 0
    &&& s.holes_closed == 0
    &&& s.holes_timed_out == 0
    &&& s.holes@.dom().is_empty()
    &&& s.received_bytes == size
    &&& s.intermessage_gap_mavg.is_none()
    &&& s.receive_time_windows@ == Seq::new(
        WINDOW_COUNT as nat,
        |i: int| if i == window_of(ts) { 1u64 } else { 0u64 },
    )
}

/// `b` is session `a` after the reception of `seq`, `size` bytes long, at
/// `ts`: counters, arrival window, gap average, and holes. The next number
/// in sequence, or zero, moves the last sequence number; a number that fills
/// a hole closes it; a number further ahead opens a hole for every number
/// skipped; an older number leaves holes alone.
pub open spec fn analyzed(
    a: &SessionContainer,
    b: &SessionContainer,
    seq: u64,
    size: usize,
    ts: u64,
) -> bool {
    &&& b.received_messages == a.received_messages + 1
    &&& b.last_rx == ts
    &&& b.received_bytes == a.received_bytes + size
    &&& b.last_stats == a.last_stats
    &&& b.holes_timed_out == a.holes_timed_out
    &&& b.intermessage_gap_mavg == gap_after(Some(a.last_rx), a.intermessage_gap_mavg, ts)
    &&& b.receive_time_windows@ == a.receive_time_windows@.update(
        window_of(ts),
        (a.receive_time_windows@[window_of(ts)] + 1) as u64,
    )
    &&& if in_sequence(a.last_seq, seq) {
        &&& b.last_seq == seq
        &&& b.holes@ == a.holes@
        &&& b.holes_created == a.holes_created
        &&& b.holes_closed == a.holes_closed
    } else if a.holes@.contains_key(seq) {
        &&& b.last_seq == a.last_seq
        &&& b.holes@ == a.holes@.remove(seq)
        &&& b.holes_created == a.holes_created
        &&& b.holes_closed == a.holes_closed + 1
    } else if seq > a.last_seq {
        &&& b.last_seq == seq
        &&& b.holes@ == with_gap_holes(a.holes@, a.last_seq, seq, ts)
        &&& b.holes_created == a.holes_created + b.holes@.dom().len() - a.holes@.dom().len()
        &&& b.holes_closed == a.holes_closed
    } else {
        &&& b.last_seq == a.last_seq
        &&& b.holes@ == a.holes@
        &&& b.holes_created == a.holes_created
        &&& b.holes_closed == a.holes_closed
    }
}

/// What the sweep at `now` decides for session `s`: expired when silent for
/// longer than the session timeout, else due for publication when the last
/// one lies more than `stats_interval` back.
pub open spec fn sweep_outcome(s: &SessionContainer, now: u64, stats_interval: u64) -> SweepOutcome {
    if older_than(s.last_rx, SESSION_TIMEOUT_MICROS, now) {
        SweepOutcome::Expired
    } else if older_than(s.last_stats, stats_interval, now) {
        SweepOutcome::Publish
    } else {
        SweepOutcome::Quiet
    }
}

/// `b` is session `a` after the sweep at `now`: its stale holes timed out,
/// and the time of publication stamped unless nothing is published.
pub open spec fn swept(a: &SessionContainer, b: &SessionContainer, now: u64, stats_interval: u64) -> bool {
    &&& b.holes@ == unexpired_holes(a.holes@, hole_deadline(now))
    &&& b.holes_timed_out == a.holes_timed_out + a.holes@.dom().len() - b.holes@.dom().len()
    &&& b.holes_created == a.holes_created
    &&& b.holes_closed == a.holes_closed
    &&& b.last_seq == a.last_seq
    &&& b.last_rx == a.last_rx
    &&& b.received_messages == a.received_messages
    &&& b.received_bytes == a.received_bytes
    &&& b.intermessage_gap_mavg == a.intermessage_gap_mavg
    &&& b.receive_time_windows@ == a.receive_time_windows@
    &&& b.last_stats == if sweep_outcome(a, now, stats_interval) == SweepOutcome::Quiet {
        a.last_stats
    } else {
        now
    }
}

/// `st` is the published snapshot of session `s` under identifier `sid`.
pub open spec fn snapshot_of(st: &ServerSessionStatistics, sid: Seq<char>, s: &SessionContainer) -> bool {
    &&& st.clocktower_type@ == "hub_session_statistics"@
    &&& st.sid@ == sid
    &&& st.timestamp == s.last_rx
    &&& st.received_messages == s.received_messages
    &&& st.holes_created == s.holes_created
    &&& st.holes_closed == s.holes_closed
    &&& st.holes_timed_out == s.holes_timed_out
    &&& st.holes_current == s.holes@.dom().len()
    &&& st.received_bytes == s.received_bytes
    &&& st.intermessage_gap_mavg == s.intermessage_gap_mavg
    &&& st.receive_time_windows@ == s.receive_time_windows@
}

impl SessionContainer {
    /// The arrival windows are ten counters summing to the received messages,
    /// and every hole ever created is either still open, closed or timed out.
    pub open spec fn wf(&self) -> bool {
        &&& self.receive_time_windows@.len() == WINDOW_COUNT
        &&& window_total(self.receive_time_windows@) == self.received_messages
        &&& self.holes_closed + self.holes_timed_out + self.holes@.dom().len()
            == self.holes_created
    }

    /// Every open hole lies below the last sequence number.
    pub open spec fn holes_below_last_seq(&self) -> bool {
        forall|k: u64| self.holes@.contains_key(k) ==> k < self.last_seq
    }

    /// Whether the counters leave room for one more reception of `seq` with
    /// `size` bytes.
    pub open spec fn has_room(&self, seq: u64, size: usize) -> bool {
        &&& self.received_messages < u64::MAX
        &&& self.received_bytes + size <= u64::MAX
        &&& seq > self.last_seq + 1 ==> self.holes_created + (seq - self.last_seq - 1)
            <= u64::MAX
    }

    /// A session whose first message, `seq` with `received_bytes` bytes,
    /// arrived at `rx_time`.
    pub fn new(seq: u64, received_bytes: usize, rx_time: u64) -> (r: SessionContainer)
        ensures
            r.wf(),
            opened(&r, seq, received_bytes, rx_time),
            r.holes_below_last_seq(),
    {
        let mut windows = empty_windows();
        count_arrival(&mut windows, rx_time);
        let r = SessionContainer {
            last_stats: 0,
            last_rx: rx_time,
            last_seq: seq,
            received_messages: 1,
            holes_created: 0,
            holes_closed: 0,
            holes_timed_out: 0,
            holes: HashMap::new(),
            received_bytes: received_bytes as u64,
            intermessage_gap_mavg: None,
            receive_time_windows: windows,
        };
        assert(r.receive_time_windows@ =~= Seq::new(
            WINDOW_COUNT as nat,
            |i: int| if i == window_of(rx_time) { 1u64 } else { 0u64 },
        ));
        r
    }

    /// Accounts for the reception of `seq`, `size` bytes long, at
    /// `current_time`: counters, arrival window, gap average, and holes.
    ///
    /// The next number in sequence, or zero, moves the last sequence number;
    /// a number that fills a hole closes it; a number further ahead opens a
    /// hole for every number skipped; an older number leaves holes alone.
    pub fn seq_analyze(&mut self, seq: u64, size: usize, current_time: u64)
        requires
            old(self).wf(),
            old(self).has_room(seq, size),
        ensures
            final(self).wf(),
            analyzed(old(self), final(self), seq, size, current_time),
            old(self).holes_below_last_seq() && (seq != 0 || old(self).holes@.dom().is_empty())
                ==> final(self).holes_below_last_seq(),
    {
        proof {
            crate::timing::lemma_window_total_nonneg(self.receive_time_windows@);
        }
        self.received_messages = self.received_messages + 1;
        self.intermessage_gap_mavg = next_gap(
            Some(self.last_rx),
            self.intermessage_gap_mavg,
            current_time,
        );
        self.last_rx = current_time;
        self.received_bytes = self.received_bytes + size as u64;
        count_arrival(&mut self.receive_time_windows, current_time);
        if (self.last_seq < u64::MAX && seq == self.last_seq + 1) || seq == 0 {
            self.last_seq = seq;
        } else if self.holes.contains_key(&seq) {
            self.holes_closed = self.holes_closed + 1;
            self.holes.remove(&seq);
        } else if seq > self.last_seq {
            let added = open_gap_holes(&mut self.holes, self.last_seq, seq, current_time);
            self.holes_created = self.holes_created + added;
            self.last_seq = seq;
        }
    }

    /// Removes every hole created before `deadline`, counting each as timed
    /// out.
    pub fn prune_holes(&mut self, deadline: u64)
        requires
            old(self).wf(),
        ensures
            final(self).wf(),
            final(self).holes@ == unexpired_holes(old(self).holes@, deadline),
            final(self).holes_timed_out == old(self).holes_timed_out + old(
                self,
            ).holes@.dom().len() - final(self).holes@.dom().len(),
            final(self).holes_created == old(self).holes_created,
            final(self).holes_closed == old(self).holes_closed,
            final(self).last_seq == old(self).last_seq,
            final(self).last_rx == old(self).last_rx,
            final(self).last_stats == old(self).last_stats,
            final(self).received_messages == old(self).received_messages,
            final(self).received_bytes == old(self).received_bytes,
            final(self).intermessage_gap_mavg == old(self).intermessage_gap_mavg,
            final(self).receive_time_windows@ == old(self).receive_time_windows@,
            old(self).holes_below_last_seq() ==> final(self).holes_below_last_seq(),
    {
        let expired = expired_holes(&self.holes, deadline);
        let removed = remove_keys(&mut self.holes, &expired);
        proof {
            let target = unexpired_holes(old(self).holes@, deadline);
            assert forall|k: u64| self.holes@.contains_key(k) <==> target.contains_key(k) by {
                if old(self).holes@.contains_key(k) && old(self).holes@[k].created < deadline {
                    assert(expired@.contains(k));
                } else if old(self).holes@.contains_key(k) {
                    assert(!expired@.contains(k));
                }
            }
            assert(self.holes@ =~= target);
        }
        self.holes_timed_out = self.holes_timed_out + removed;
    }

    /// One pass of the periodic sweep at `now`: times out stale holes, then
    /// decides whether the session has expired or is due for publication.
    /// Either of those stamps the time of the last publication.
    pub fn sweep(&mut self, now: u64, stats_interval: u64) -> (r: SweepOutcome)
        requires
            old(self).wf(),
        ensures
            final(self).wf(),
            r == sweep_outcome(old(self), now, stats_interval),
            swept(old(self), final(self), now, stats_interval),
            old(self).holes_below_last_seq() ==> final(self).holes_below_last_seq(),
    {
        let deadline = if now >= HOLE_TIMEOUT_MICROS {
            now - HOLE_TIMEOUT_MICROS
        } else {
            0
        };
        self.prune_holes(deadline);
        if is_older_than(self.last_rx, SESSION_TIMEOUT_MICROS, now) {
            self.last_stats = now;
            SweepOutcome::Expired
        } else if is_older_than(self.last_stats, stats_interval, now) {
            self.last_stats = now;
            SweepOutcome::Publish
        } else {
            SweepOutcome::Quiet
        }
    }

    /// Whether the counters leave room for one more reception.
    pub fn can_analyze(&self, seq: u64, size: usize) -> (r: bool)
        ensures
            r == self.has_room(seq, size),
    {
        if self.received_messages == u64::MAX {
            return false;
        }
        if self.received_bytes > u64::MAX - size as u64 {
            return false;
        }
        if self.last_seq < u64::MAX && seq > self.last_seq + 1 {
            self.holes_created <= u64::MAX - (seq - self.last_seq - 1)
        } else {
            true
        }
    }
}

/// The hub's arrival windows are ten counters that sum to the messages
/// received in the session.
pub proof fn lemma_hub_windows_count_receptions(s: &SessionContainer)
    requires
        s.wf(),
    ensures
        s.receive_time_windows@.len() == 10,
        window_total(s.receive_time_windows@) == s.received_messages,
{
}

/// A snapshot of a hub session, as published.
pub struct ServerSessionStatistics {
    pub clocktower_type: String,
    pub sid: String,
    pub timestamp: u64,
    pub received_messages: u64,
    pub holes_created: u64,
    pub holes_closed: u64,
    pub holes_timed_out: u64,
    pub holes_current: u64,
    pub received_bytes: u64,
    pub intermessage_gap_mavg: Option<u64>,
    pub receive_time_windows: Vec<u64>,
}

impl ServerSessionStatistics {
    /// The snapshot of session `sid`, stamped with its last reception.
    pub fn from_session_container(sid: &String, session_container: &SessionContainer) -> (r:
        ServerSessionStatistics)
        ensures
            snapshot_of(&r, sid@, session_container),
    {
        proof {
            reveal_strlit("hub_session_statistics");
        }
        ServerSessionStatistics {
            clocktower_type: "hub_session_statistics".to_owned(),
            sid: sid.clone(),
            timestamp: session_container.last_rx,
            received_messages: session_container.received_messages,
            holes_created: session_container.holes_created,
            holes_closed: session_container.holes_closed,
            holes_timed_out: session_container.holes_timed_out,
            holes_current: session_container.holes.len() as u64,
            received_bytes: session_container.received_bytes,
            intermessage_gap_mavg: session_container.intermessage_gap_mavg,
            receive_time_windows: session_container.receive_time_windows.clone(),
        }
    }
}

/// `idx` lists, in increasing order, exactly the indices below `n` that
/// satisfy `keep`.
pub open spec fn selects(idx: Seq<int>, n: int, keep: spec_fn(int) -> bool) -> bool {
    &&& forall|i: int| 0 <= i < idx.len() ==> 0 <= #[trigger] idx[i] < n && keep(idx[i])
    &&& forall|i1: int, i2: int| 0 <= i1 < i2 < idx.len() ==> idx[i1] < idx[i2]
    &&& forall|j: int| 0 <= j < n && #[trigger] keep(j) ==> idx.contains(j)
}

/// One session of the hub, under the identifier its client chose.
pub struct SessionEntry {
    pub sid: String,
    pub session: SessionContainer,
}

/// The hub's sessions, each under its own identifier.
pub struct HubSessions {
    pub entries: Vec<SessionEntry>,
}

impl HubSessions {
    /// Every session is well formed and no identifier appears twice.
    pub open spec fn wf(&self) -> bool {
        &&& forall|i: int| 0 <= i < self.entries@.len() ==> (#[trigger] self.entries@[i]).session.wf()
        &&& forall|i: int, j: int|
            0 <= i < self.entries@.len() && 0 <= j < self.entries@.len() && i != j
                ==> (#[trigger] self.entries@[i]).sid@ != (#[trigger] self.entries@[j]).sid@
    }

    /// No sessions.
    pub fn new() -> (r: HubSessions)
        ensures
            r.wf(),
            r.entries@.len() == 0,
    {
        HubSessions { entries: Vec::new() }
    }

    /// The index of the session under `sid`, if there is one.
    pub fn find(&self, sid: &String) -> (r: Option<usize>)
        requires
            self.wf(),
        ensures
            match r {
                Some(i) => i < self.entries@.len() && self.entries@[i as int].sid@ == sid@,
                None => forall|i: int|
                    0 <= i < self.entries@.len() ==> (#[trigger] self.entries@[i]).sid@ != sid@,
            },
    {
        let mut i: usize = 0;
        while i < self.entries.len()
            invariant
                i <= self.entries@.len(),
                forall|j: int| 0 <= j < i ==> (#[trigger] self.entries@[j]).sid@ != sid@,
            decreases self.entries@.len() - i,
        {
            if self.entries[i].sid == *sid {
                return Some(i);
            }
            i = i + 1;
        }
        None
    }

    /// Accounts for the reception of `seq`, `size` bytes long, at `ts` in
    /// session `sid`: a new session when `sid` is unseen, else the reception
    /// is analyzed in its session. A reception the session's counters cannot
    /// take is dropped; returns whether the reception was taken.
    pub fn insert_reception(&mut self, sid: &String, seq: u64, size: usize, ts: u64) -> (taken: bool)
        requires
            old(self).wf(),
        ensures
            final(self).wf(),
            match find_index(old(self), sid@) {
                Some(i) => {
                    &&& taken == old(self).entries@[i].session.has_room(seq, size)
                    &&& taken ==> {
                        &&& final(self).entries@.len() == old(self).entries@.len()
                        &&& final(self).entries@[i].sid@ == sid@
                        &&& analyzed(
                            &old(self).entries@[i].session,
                            &final(self).entries@[i].session,
                            seq,
                            size,
                            ts,
                        )
                        &&& forall|j: int|
                            0 <= j < old(self).entries@.len() && j != i ==> final(self).entries@[j]
                                == old(self).entries@[j]
                    }
                    &&& !taken ==> final(self).entries@ == old(self).entries@
                },
                None => {
                    &&& taken
                    &&& final(self).entries@.len() == old(self).entries@.len() + 1
                    &&& final(self).entries@.take(old(self).entries@.len() as int)
                        == old(self).entries@
                    &&& final(self).entries@.last().sid@ == sid@
                    &&& opened(&final(self).entries@.last().session, seq, size, ts)
                },
            },
    {
        match self.find(sid) {
            Some(i) => {
                if !self.entries[i].session.can_analyze(seq, size) {
                    return false;
                }
                proof {
                    lemma_find_index(old(self), sid@, i as int);
                }
                let mut e = self.entries.remove(i);
                e.session.seq_analyze(seq, size, ts);
                self.entries.insert(i, e);
                proof {
                    assert forall|j: int|
                        0 <= j < old(self).entries@.len() && j != i implies self.entries@[j]
                        == old(self).entries@[j] by {
                        if j < i {
                        } else {
                        }
                    }
                    assert forall|a: int, b: int|
                        0 <= a < self.entries@.len() && 0 <= b < self.entries@.len() && a != b
                        implies (#[trigger] self.entries@[a]).sid@ != (#[trigger] self.entries@[b]).sid@ by {
                        assert(old(self).entries@[a].sid@ == self.entries@[a].sid@);
                        assert(old(self).entries@[b].sid@ == self.entries@[b].sid@);
                    }
                }
                true
            },
            None => {
                proof {
                    lemma_find_none(old(self), sid@);
                }
                let session = SessionContainer::new(seq, size, ts);
                self.entries.push(SessionEntry { sid: sid.clone(), session });
                proof {
                    assert(self.entries@.take(old(self).entries@.len() as int) =~= old(self).entries@);
                    assert forall|a: int, b: int|
                        0 <= a < self.entries@.len() && 0 <= b < self.entries@.len() && a != b
                        implies (#[trigger] self.entries@[a]).sid@ != (#[trigger] self.entries@[b]).sid@ by {
                        if a < old(self).entries@.len() && b < old(self).entries@.len() {
                            assert(old(self).entries@[a] == self.entries@[a]);
                            assert(old(self).entries@[b] == self.entries@[b]);
                        } else if a < old(self).entries@.len() {
                            assert(old(self).entries@[a] == self.entries@[a]);
                        } else {
                            assert(old(self).entries@[b] == self.entries@[b]);
                        }
                    }
                }
                true
            },
        }
    }

    /// One pass of the periodic sweep at `now` over every session. Each
    /// session is swept; the snapshots of those expired or due for
    /// publication are returned in order, and the expired ones are removed.
    pub fn sweep(&mut self, now: u64, stats_interval: u64) -> (published: Vec<
        ServerSessionStatistics,
    >)
        requires
            old(self).wf(),
        ensures
            final(self).wf(),
            exists|after: Seq<SessionContainer>, kept: Seq<int>, shown: Seq<int>|
                #[trigger] sweep_result(
                    old(self).entries@,
                    final(self).entries@,
                    published@,
                    now,
                    stats_interval,
                    after,
                    kept,
                    shown,
                ),
    {
        let ghost start = self.entries@;
        let mut rest: Vec<SessionEntry> = Vec::new();
        std::mem::swap(&mut rest, &mut self.entries);
        let mut published: Vec<ServerSessionStatistics> = Vec::new();
        let ghost mut after: Seq<SessionContainer> = Seq::empty();
        let ghost mut kept: Seq<int> = Seq::empty();
        let ghost mut shown: Seq<int> = Seq::empty();
        let n = rest.len();
        let mut j: usize = 0;
        while j < n
            invariant
                n == start.len(),
                j <= n,
                rest@ == start.skip(j as int),
                after.len() == j,
                forall|x: int|
                    0 <= x < j ==> swept(&start[x].session, &#[trigger] after[x], now, stats_interval),
                forall|x: int| 0 <= x < j ==> (#[trigger] after[x]).wf(),
                forall|i: int| 0 <= i < kept.len() ==> 0 <= #[trigger] kept[i] < j && kept_by_sweep(start, kept[i], now, stats_interval),
                forall|i1: int, i2: int| 0 <= i1 < i2 < kept.len() ==> kept[i1] < kept[i2],
                forall|x: int| 0 <= x < j && #[trigger] kept_by_sweep(start, x, now, stats_interval) ==> kept.contains(x),
                forall|i: int| 0 <= i < shown.len() ==> 0 <= #[trigger] shown[i] < j && shown_by_sweep(start, shown[i], now, stats_interval),
                forall|i1: int, i2: int| 0 <= i1 < i2 < shown.len() ==> shown[i1] < shown[i2],
                forall|x: int| 0 <= x < j && #[trigger] shown_by_sweep(start, x, now, stats_interval) ==> shown.contains(x),
                self.entries@.len() == kept.len(),
                forall|i: int|
                    0 <= i < kept.len() ==> {
                        &&& (#[trigger] self.entries@[i]).sid@ == start[kept[i]].sid@
                        &&& self.entries@[i].session == after[kept[i]]
                    },
                published@.len() == shown.len(),
                forall|i: int|
                    0 <= i < shown.len() ==> snapshot_of(
                        &#[trigger] published@[i],
                        start[shown[i]].sid@,
                        &after[shown[i]],
                    ),
                forall|x: int| 0 <= x < start.len() ==> (#[trigger] start[x]).session.wf(),
                forall|a: int, b: int|
                    0 <= a < start.len() && 0 <= b < start.len() && a != b
                        ==> (#[trigger] start[a]).sid@ != (#[trigger] start[b]).sid@,
            decreases n - j,
        {
            let mut e = rest.remove(0);
            proof {
                assert(e == start[j as int]);
                assert(rest@ =~= start.skip(j + 1));
            }
            let ghost before = e.session;
            let outcome = e.session.sweep(now, stats_interval);
            let ghost kept_before = kept;
            let ghost shown_before = shown;
            proof {
                after = after.push(e.session);
                assert(before == start[j as int].session);
                assert(outcome == sweep_outcome(&start[j as int].session, now, stats_interval));
                assert(kept_by_sweep(start, j as int, now, stats_interval) <==> outcome != SweepOutcome::Expired);
                assert(shown_by_sweep(start, j as int, now, stats_interval) <==> outcome != SweepOutcome::Quiet);
            }
            match outcome {
                SweepOutcome::Quiet => {},
                _ => {
                    let st = ServerSessionStatistics::from_session_container(&e.sid, &e.session);
                    published.push(st);
                    proof {
                        shown = shown.push(j as int);
                    }
                },
            }
            match outcome {
                SweepOutcome::Expired => {},
                _ => {
                    self.entries.push(e);
                    proof {
                        kept = kept.push(j as int);
                    }
                },
            }
            proof {
                assert forall|x: int| 0 <= x < j + 1 && #[trigger] kept_by_sweep(start, x, now, stats_interval) implies kept.contains(x) by {
                    if x == j {
                        assert(kept == kept_before.push(j as int));
                        assert(kept[kept.len() - 1] == x);
                    } else {
                        assert(kept_before.contains(x));
                        let w = choose|w: int| 0 <= w < kept_before.len() && kept_before[w] == x;
                        assert(kept[w] == x);
                    }
                }
                assert forall|x: int| 0 <= x < j + 1 && #[trigger] shown_by_sweep(start, x, now, stats_interval) implies shown.contains(x) by {
                    if x == j {
                        assert(shown == shown_before.push(j as int));
                        assert(shown[shown.len() - 1] == x);
                    } else {
                        assert(shown_before.contains(x));
                        let w = choose|w: int| 0 <= w < shown_before.len() && shown_before[w] == x;
                        assert(shown[w] == x);
                    }
                }
            }
            j = j + 1;
        }
        proof {
            assert forall|a: int, b: int|
                0 <= a < self.entries@.len() && 0 <= b < self.entries@.len() && a != b
                implies (#[trigger] self.entries@[a]).sid@ != (#[trigger] self.entries@[b]).sid@ by {
                if a < b {
                    assert(kept[a] < kept[b]);
                } else {
                    assert(kept[b] < kept[a]);
                }
            }
            assert(selects(
                kept,
                start.len() as int,
                |j: int| kept_by_sweep(start, j, now, stats_interval),
            ));
            assert(selects(
                shown,
                start.len() as int,
                |j: int| shown_by_sweep(start, j, now, stats_interval),
            ));
            assert(sweep_result(start, self.entries@, published@, now, stats_interval, after, kept, shown));
        }
        published
    }
}

/// Whether session `j` of `start` survives the sweep at `now`.
pub open spec fn kept_by_sweep(start: Seq<SessionEntry>, j: int, now: u64, stats_interval: u64) -> bool {
    sweep_outcome(&start[j].session, now, stats_interval) != SweepOutcome::Expired
}

/// Whether the sweep at `now` publishes session `j` of `start`.
pub open spec fn shown_by_sweep(start: Seq<SessionEntry>, j: int, now: u64, stats_interval: u64) -> bool {
    sweep_outcome(&start[j].session, now, stats_interval) != SweepOutcome::Quiet
}

/// `fin` and `published` are what the sweep at `now` makes of the sessions
/// `start`: `after` holds each session swept, `kept` the indices of those not
/// expired, which remain in order, and `shown` the indices of those expired
/// or due for publication, whose snapshots are published in order.
pub open spec fn sweep_result(
    start: Seq<SessionEntry>,
    fin: Seq<SessionEntry>,
    published: Seq<ServerSessionStatistics>,
    now: u64,
    stats_interval: u64,
    after: Seq<SessionContainer>,
    kept: Seq<int>,
    shown: Seq<int>,
) -> bool {
    &&& after.len() == start.len()
    &&& forall|j: int|
        0 <= j < after.len() ==> swept(&start[j].session, &#[trigger] after[j], now, stats_interval)
    &&& selects(
        kept,
        after.len() as int,
        |j: int| kept_by_sweep(start, j, now, stats_interval),
    )
    &&& fin.len() == kept.len()
    &&& forall|i: int|
        0 <= i < kept.len() ==> {
            &&& (#[trigger] fin[i]).sid@ == start[kept[i]].sid@
            &&& fin[i].session == after[kept[i]]
        }
    &&& selects(
        shown,
        after.len() as int,
        |j: int| shown_by_sweep(start, j, now, stats_interval),
    )
    &&& published.len() == shown.len()
    &&& forall|i: int|
        0 <= i < shown.len() ==> snapshot_of(
            &#[trigger] published[i],
            start[shown[i]].sid@,
            &after[shown[i]],
        )
}

/// The index of the session under `sid` in `h`, if there is one.
pub open spec fn find_index(h: &HubSessions, sid: Seq<char>) -> Option<int> {
    if exists|i: int| 0 <= i < h.entries@.len() && (#[trigger] h.entries@[i]).sid@ == sid {
        Some(choose|i: int| 0 <= i < h.entries@.len() && (#[trigger] h.entries@[i]).sid@ == sid)
    } else {
        None
    }
}

proof fn lemma_find_index(h: &HubSessions, sid: Seq<char>, i: int)
    requires
        h.wf(),
        0 <= i < h.entries@.len(),
        h.entries@[i].sid@ == sid,
    ensures
        find_index(h, sid) == Some(i),
{
    let j = choose|j: int| 0 <= j < h.entries@.len() && (#[trigger] h.entries@[j]).sid@ == sid;
    assert(h.entries@[j].sid@ == sid);
    if j != i {
        assert(h.entries@[i].sid@ != h.entries@[j].sid@);
    }
}

proof fn lemma_find_none(h: &HubSessions, sid: Seq<char>)
    requires
        forall|i: int| 0 <= i < h.entries@.len() ==> (#[trigger] h.entries@[i]).sid@ != sid,
    ensures
        find_index(h, sid) is None,
{
}

/// Summary counters of one session as seen by the hub.
#[derive(Clone)]
pub struct HubStatistics {
    pub sid: String,
    pub last_rx: u64,
    pub recv: u64,
    pub noncontigous: u64,
}

/// Summary counters of one session as seen by a reflecting server.
#[derive(Clone)]
pub struct ServerStatistics {
    pub sid: String,
    pub last_rx: u64,
    pub recv: u64,
    pub noncontigous: u64,
}

} // verus!
