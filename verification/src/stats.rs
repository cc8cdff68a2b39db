//! The totals that a run of pings reports at its end.

use core::time::Duration;
use vstd::prelude::*;

verus! {

/// Requests sent, replies received, the run's duration and every reply's
/// round-trip time, in order.
#[derive(Debug, Default)]
pub struct Total {
    pub transmitted: usize,
    pub received: usize,
    pub time: Duration,
    pub rtts: Vec<Duration>,
}

impl Total {
    /// Counts one more request sent.
    pub fn record_request(&mut self)
        requires
            old(self).transmitted < usize::MAX,
        ensures
            final(self).transmitted == old(self).transmitted + 1,
            final(self).received == old(self).received,
            final(self).rtts@ == old(self).rtts@,
            final(self).time == old(self).time,
    {
        self.transmitted = self.transmitted + 1;
    }

    /// Counts one more reply received, with its round-trip time.
    pub fn record_reply(&mut self, rtt: Duration)
        requires
            old(self).received < usize::MAX,
        ensures
            final(self).received == old(self).received + 1,
            final(self).rtts@ == old(self).rtts@.push(rtt),
            final(self).transmitted == old(self).transmitted,
            final(self).time == old(self).time,
    {
        self.received = self.received + 1;
        self.rtts.push(rtt);
    }

    /// Requests that got no reply (none where more replies than requests
    /// were counted).
    pub fn lost(&self) -> (r: usize)
        ensures
            r == if self.transmitted >= self.received {
                (self.transmitted - self.received) as usize
            } else {
                0
            },
    {
        self.transmitted.saturating_sub(self.received)
    }
}

} // verus!
