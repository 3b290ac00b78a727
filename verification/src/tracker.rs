//! Ping bookkeeping of one session: outstanding pings, the running average
//! of the measured round trips, and the number of samples behind it.

use vstd::prelude::*;
use std::collections::HashMap;
use crate::types::{PingID, RouteScalar, SessionError};

verus! {

/// Mathematical content of a [`PingTracker`].
pub struct PingTrackerView {
    pub next_ping_id: PingID,
    pub pending: Map<PingID, usize>,
    pub dist_avg: RouteScalar,
    pub ping_count: usize,
}

/// Round trip measured when a ping sent at `sent` is answered at `now`.
/// A send time that lies in the future counts as a round trip of zero.
pub open spec fn round_trip(sent: usize, now: usize) -> RouteScalar {
    if now >= sent {
        (now - sent) as RouteScalar
    } else {
        0
    }
}

/// Running average after one more `sample` joins `count` samples that average to `avg`.
pub open spec fn next_average(avg: RouteScalar, count: usize, sample: RouteScalar) -> RouteScalar {
    ((avg as int * count as int + sample as int) / (count as int + 1)) as RouteScalar
}

impl PingTrackerView {
    /// The state of a tracker that has not issued any ping.
    pub open spec fn fresh() -> PingTrackerView {
        PingTrackerView { next_ping_id: 0, pending: Map::empty(), dist_avg: 0, ping_count: 0 }
    }

    /// Every outstanding ping carries an identifier that was already issued,
    /// and every issued identifier is either outstanding or answered.
    pub open spec fn wf(self) -> bool {
        &&& self.pending.dom().finite()
        &&& forall|id: PingID| self.pending.contains_key(id) ==> id < self.next_ping_id
        &&& self.ping_count + self.pending.len() == self.next_ping_id
    }

    /// State after a ping is issued at tick `now`.
    pub open spec fn gen_ping(self, now: usize) -> PingTrackerView {
        PingTrackerView {
            next_ping_id: (self.next_ping_id + 1) as PingID,
            pending: self.pending.insert(self.next_ping_id, now),
            ..self
        }
    }

    /// State after the answer to the outstanding ping `id` arrives at tick
    /// `now`: the ping is retired and its round trip joins the running
    /// average. The count of samples stops at the largest number there is,
    /// which a well-formed tracker never reaches.
    pub open spec fn acknowledge_ping(self, id: PingID, now: usize) -> PingTrackerView {
        PingTrackerView {
            pending: self.pending.remove(id),
            dist_avg: next_average(self.dist_avg, self.ping_count, round_trip(self.pending[id], now)),
            ping_count: if self.ping_count < usize::MAX {
                (self.ping_count + 1) as usize
            } else {
                self.ping_count
            },
            ..self
        }
    }
}

/// The running average never exceeds the larger of the old average and the
/// new sample, so it fits wherever they fit.
pub proof fn lemma_average_bounded(avg: RouteScalar, count: usize, sample: RouteScalar)
    ensures
        0 <= avg as int * count as int + sample as int <= u128::MAX,
        0 <= (avg as int * count as int + sample as int) / (count as int + 1) <= RouteScalar::MAX,
        next_average(avg, count, sample) <= if avg >= sample { avg } else { sample },
        count == 0 ==> next_average(avg, count, sample) == sample,
{
    let a = avg as int;
    let c = count as int;
    let s = sample as int;
    let m: int = if a >= s { a } else { s };
    assert(0 <= a * c <= m * c) by (nonlinear_arith)
        requires 0 <= a <= m, 0 <= c;
    assert(m * c <= 0xffff_ffff_ffff_ffff * 0xffff_ffff_ffff_ffff) by (nonlinear_arith)
        requires 0 <= m <= 0xffff_ffff_ffff_ffff, 0 <= c <= 0xffff_ffff_ffff_ffff;
    assert(m * (c + 1) == m * c + m) by (nonlinear_arith);
    assert(0 <= (a * c + s) / (c + 1) <= m) by (nonlinear_arith)
        requires 0 <= a * c + s <= m * (c + 1), c + 1 > 0;
    if count == 0 {
        assert((a * c + s) / (c + 1) == s) by (nonlinear_arith)
            requires c == 0;
    }
}

/// Issues ping identifiers and turns the answers into latency samples.
#[derive(Debug)]
pub struct PingTracker {
    next_ping_id: PingID,
    pending: HashMap<PingID, usize>,
    dist_avg: RouteScalar,
    ping_count: usize,
}

impl View for PingTracker {
    type V = PingTrackerView;

    closed spec fn view(&self) -> PingTrackerView {
        PingTrackerView {
            next_ping_id: self.next_ping_id,
            pending: self.pending@,
            dist_avg: self.dist_avg,
            ping_count: self.ping_count,
        }
    }
}

impl PingTracker {
    /// Creates a tracker with no ping issued and no sample taken.
    pub fn new() -> (t: PingTracker)
        ensures
            t@ == PingTrackerView::fresh(),
            t@.wf(),
    {
        PingTracker { next_ping_id: 0, pending: HashMap::new(), dist_avg: 0, ping_count: 0 }
    }

    /// Issues the next ping identifier and remembers that it was sent at `now`.
    pub fn gen_ping(&mut self, now: usize) -> (id: PingID)
        requires
            old(self)@.next_ping_id < PingID::MAX,
        ensures
            id == old(self)@.next_ping_id,
            final(self)@ == old(self)@.gen_ping(now),
            old(self)@.wf() ==> final(self)@.wf(),
    {
        let id = self.next_ping_id;
        self.pending.insert(id, now);
        self.next_ping_id = id + 1;
        id
    }

    /// Matches the answer to ping `id`, arriving at `now`, against the
    /// outstanding pings. On a match the ping is retired, its round trip
    /// joins the running average and is returned; an identifier that is not
    /// outstanding is an error and changes nothing.
    pub fn acknowledge_ping(&mut self, id: PingID, now: usize) -> (r: Result<RouteScalar, SessionError>)
        ensures
            old(self)@.wf() ==> final(self)@.wf(),
            old(self)@.pending.contains_key(id) ==> {
                &&& r == Ok::<RouteScalar, SessionError>(round_trip(old(self)@.pending[id], now))
                &&& final(self)@ == old(self)@.acknowledge_ping(id, now)
            },
            !old(self)@.pending.contains_key(id) ==> {
                &&& r == Err::<RouteScalar, SessionError>(SessionError::UnknownPingID { ping_id: id })
                &&& final(self)@ == old(self)@
            },
    {
        match self.pending.remove(&id) {
            Some(sent) => {
                let sample: RouteScalar = if now >= sent { (now - sent) as RouteScalar } else { 0 };
                proof {
                    lemma_average_bounded(self.dist_avg, self.ping_count, sample);
                }
                let total: u128 = self.dist_avg as u128 * self.ping_count as u128 + sample as u128;
                let avg: u128 = total / (self.ping_count as u128 + 1);
                self.dist_avg = avg as RouteScalar;
                if self.ping_count < usize::MAX {
                    self.ping_count = self.ping_count + 1;
                }
                Ok(sample)
            },
            None => {
                assert(self.pending@ =~= old(self)@.pending);
                Err(SessionError::UnknownPingID { ping_id: id })
            },
        }
    }

    /// Number of pings that were issued and not yet answered.
    pub fn pending_pings(&self) -> (n: usize)
        ensures
            n == self@.pending.len(),
    {
        self.pending.len()
    }

    /// Current running average of the measured round trips.
    pub fn distance(&self) -> (d: RouteScalar)
        ensures
            d == self@.dist_avg,
    {
        self.dist_avg
    }

    /// Number of round trips measured so far.
    pub fn ping_count(&self) -> (n: usize)
        ensures
            n == self@.ping_count,
    {
        self.ping_count
    }
}

} // verus!
