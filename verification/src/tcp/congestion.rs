//! Slow start and congestion avoidance.

use vstd::prelude::*;

verus! {

/// The segment size that the congestion window is counted in.
pub const MSS: usize = 1460;

/// The slow-start threshold that a connection starts with.
pub const INITIAL_SSTHRESH: usize = 65_535;

/// The congestion window and the slow-start threshold of one connection.
#[derive(Debug, Clone, Copy)]
pub struct Reno {
    pub cwnd: usize,
    pub ssthresh: usize,
}

/// `a + b`, held at `usize::MAX`.
pub open spec fn capped_sum(a: usize, b: usize) -> usize {
    if a + b > usize::MAX {
        usize::MAX
    } else {
        (a + b) as usize
    }
}

/// What one acknowledgment adds to a window that is at or above the
/// threshold: a segment's share of the window, so that a window's worth of
/// acknowledgments adds about one segment; never less than one byte.
pub open spec fn avoidance_step(cwnd: usize) -> usize {
    if cwnd == 0 || cwnd > MSS * MSS {
        1
    } else {
        ((MSS * MSS) / cwnd as int) as usize
    }
}

impl Reno {
    /// The controller after an acknowledgment of new data: below the
    /// threshold the window grows by one segment, at or above it by
    /// `avoidance_step`.
    pub open spec fn after_ack(self) -> Reno {
        if self.cwnd < self.ssthresh {
            Reno { cwnd: capped_sum(self.cwnd, MSS), ssthresh: self.ssthresh }
        } else {
            Reno { cwnd: capped_sum(self.cwnd, avoidance_step(self.cwnd)), ssthresh: self.ssthresh }
        }
    }

    /// The controller after a retransmission timeout with `flight` bytes
    /// unacknowledged: the threshold is half the flight, at least two
    /// segments, and the window is one segment.
    pub open spec fn after_timeout(self, flight: usize) -> Reno {
        Reno { cwnd: MSS, ssthresh: if flight / 2 < 2 * MSS {
            (2 * MSS) as usize
        } else {
            flight / 2
        } }
    }

    /// Records an acknowledgment of new data.
    pub fn on_ack(&mut self)
        ensures
            *final(self) == old(self).after_ack(),
            final(self).cwnd >= old(self).cwnd,
    {
        if self.cwnd < self.ssthresh {
            self.cwnd = self.cwnd.saturating_add(MSS);
        } else {
            let step: usize = if self.cwnd == 0 || self.cwnd > MSS * MSS {
                1
            } else {
                (MSS * MSS) / self.cwnd
            };
            self.cwnd = self.cwnd.saturating_add(step);
        }
    }

    /// Records a retransmission timeout with `flight` bytes unacknowledged.
    pub fn on_timeout(&mut self, flight: usize)
        ensures
            *final(self) == old(self).after_timeout(flight),
            final(self).cwnd == MSS,
            final(self).ssthresh >= 2 * MSS,
    {
        let half: usize = flight / 2;
        self.ssthresh = if half < 2 * MSS {
            2 * MSS
        } else {
            half
        };
        self.cwnd = MSS;
    }
}

impl Default for Reno {
    /// A window of one segment under the initial threshold.
    fn default() -> (r: Self)
        ensures
            r.cwnd == MSS,
            r.ssthresh == INITIAL_SSTHRESH,
    {
        Reno { cwnd: MSS, ssthresh: INITIAL_SSTHRESH }
    }
}

} // verus!
