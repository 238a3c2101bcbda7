//! The decisions of one host's probe sequence: which echo exchange comes
//! next, and what each outcome adds to the host's result. The exchanges
//! themselves are run by the caller.
use vstd::prelude::*;
use crate::rank::{IpAddress, ProbeResult};

verus! {

/// How many echo exchanges a host gets unless told otherwise.
pub const DEFAULT_ATTEMPTS: u16 = 4;

/// The state of one host's probe sequence.
pub struct ProbeSession {
    address: IpAddress,
    attempts: u16,
    sent: u16,
    delays: Vec<u64>,
}

impl ProbeSession {
    /// The host being probed.
    pub closed spec fn host(&self) -> IpAddress {
        self.address
    }

    /// How many exchanges the sequence runs.
    pub closed spec fn planned(&self) -> nat {
        self.attempts as nat
    }

    /// How many exchanges have had their outcome recorded.
    pub closed spec fn done(&self) -> nat {
        self.sent as nat
    }

    /// The round trips of the successful exchanges so far, in nanoseconds.
    pub closed spec fn measured(&self) -> Seq<u64> {
        self.delays@
    }

    /// The session never records more exchanges than it plans.
    pub closed spec fn wf(&self) -> bool {
        self.sent <= self.attempts
    }

    /// A session for `attempts` exchanges with the host, none run yet.
    pub fn new(address: IpAddress, attempts: u16) -> (r: ProbeSession)
        ensures
            r.wf(),
            r.host() == address,
            r.planned() == attempts,
            r.done() == 0,
            r.measured() == Seq::<u64>::empty(),
    {
        ProbeSession { address, attempts, sent: 0, delays: Vec::new() }
    }

    /// The sequence number of the next exchange, counting from zero, or
    /// `None` once every planned exchange has been recorded.
    pub fn next_sequence(&self) -> (r: Option<u16>)
        requires
            self.wf(),
        ensures
            self.done() < self.planned() ==> r == Some(self.done() as u16),
            self.done() >= self.planned() ==> r is None,
    {
        if self.sent < self.attempts {
            Some(self.sent)
        } else {
            None
        }
    }

    /// Records the outcome of the current exchange: its round trip in
    /// nanoseconds, or `None` for a loss, which is dropped without retry.
    /// Once every planned exchange is recorded, further outcomes are ignored.
    pub fn record(&mut self, rtt_ns: Option<u64>)
        requires
            old(self).wf(),
        ensures
            final(self).wf(),
            final(self).host() == old(self).host(),
            final(self).planned() == old(self).planned(),
            old(self).done() < old(self).planned() ==> final(self).done() == old(self).done() + 1
                && final(self).measured() == match rtt_ns {
                Some(d) => old(self).measured().push(d),
                None => old(self).measured(),
            },
            old(self).done() >= old(self).planned() ==> *final(self) == *old(self),
    {
        if self.sent < self.attempts {
            self.sent = self.sent + 1;
            if let Some(d) = rtt_ns {
                self.delays.push(d);
            }
        }
    }

    /// The host's result: its address, the measured round trips and the
    /// number of planned exchanges.
    pub fn finish(self) -> (r: ProbeResult)
        ensures
            r.address == self.host(),
            r.delays@ == self.measured(),
            r.attempts as nat == self.planned(),
    {
        ProbeResult { address: self.address, delays: self.delays, attempts: self.attempts }
    }
}

} // verus!
