//! The server lifecycle: accepting, paused, draining, stopped.
//!
//! The embedding server loop performs the listening and the waiting;
//! this state machine makes the decisions. New work is admitted only
//! while accepting; a stop request drains the in-flight handlers
//! before the stopped phase is reached, so a slow handler always runs
//! to completion unless the drain bound forces termination.

use vstd::prelude::*;

verus! {

/// The phase a server is in.
#[derive(Clone, Copy, PartialEq, Eq, Structural, Debug)]
pub enum Phase {
    /// Listening: new requests are admitted.
    Accepting,
    /// Not admitting new requests, but ready to resume.
    Paused,
    /// Stop requested: in-flight handlers are finishing, nothing new
    /// is admitted.
    Draining,
    /// Fully stopped: nothing in flight, nothing admitted.
    Stopped,
}

/// The lifecycle state: the phase, and how many admitted requests are
/// still being handled.
pub struct ServerCtl {
    pub phase: Phase,
    pub in_flight: u64,
}

/// The state after a stop request: stopped at once when nothing is in
/// flight, otherwise draining.
pub open spec fn stop_spec(s: ServerCtl) -> ServerCtl {
    if s.in_flight == 0 {
        ServerCtl { phase: Phase::Stopped, in_flight: 0 }
    } else {
        ServerCtl { phase: Phase::Draining, in_flight: s.in_flight }
    }
}

/// The state after one in-flight handler finishes: the last one to
/// finish while draining stops the server.
pub open spec fn finish_spec(s: ServerCtl) -> ServerCtl {
    let left = (s.in_flight - 1) as u64;
    if s.phase is Draining && left == 0 {
        ServerCtl { phase: Phase::Stopped, in_flight: 0 }
    } else {
        ServerCtl { phase: s.phase, in_flight: left }
    }
}

impl ServerCtl {
    /// A stopped server has nothing in flight.
    pub open spec fn wf(self) -> bool {
        self.phase is Stopped ==> self.in_flight == 0
    }

    /// Whether a new request would be admitted.
    pub open spec fn accepts(self) -> bool {
        self.phase is Accepting
    }

    /// A freshly started server: accepting, nothing in flight.
    pub fn new() -> (r: ServerCtl)
        ensures
            r.phase is Accepting,
            r.in_flight == 0,
            r.wf(),
    {
        ServerCtl { phase: Phase::Accepting, in_flight: 0 }
    }

    /// Stops accepting new connections; in-flight work is unaffected.
    /// Only an accepting server moves to the paused phase.
    pub fn pause(&mut self)
        ensures
            final(self).in_flight == old(self).in_flight,
            final(self).phase == (if old(self).phase is Accepting {
                Phase::Paused
            } else {
                old(self).phase
            }),
            old(self).wf() ==> final(self).wf(),
    {
        if self.phase == Phase::Accepting {
            self.phase = Phase::Paused;
        }
    }

    /// Resumes accepting connections; only a paused server does.
    pub fn resume(&mut self)
        ensures
            final(self).in_flight == old(self).in_flight,
            final(self).phase == (if old(self).phase is Paused {
                Phase::Accepting
            } else {
                old(self).phase
            }),
            old(self).wf() ==> final(self).wf(),
    {
        if self.phase == Phase::Paused {
            self.phase = Phase::Accepting;
        }
    }

    /// Offers one incoming request. It is admitted if and only if the
    /// server is accepting; an admitted request is counted in flight.
    pub fn try_accept(&mut self) -> (accepted: bool)
        requires
            old(self).in_flight < u64::MAX,
        ensures
            accepted == old(self).accepts(),
            final(self).phase == old(self).phase,
            final(self).in_flight == old(self).in_flight + (if accepted {
                1int
            } else {
                0int
            }),
            old(self).wf() ==> final(self).wf(),
    {
        if self.phase == Phase::Accepting {
            self.in_flight = self.in_flight + 1;
            true
        } else {
            false
        }
    }

    /// Records that one in-flight handler ran to completion.
    pub fn finish_one(&mut self)
        requires
            old(self).in_flight > 0,
        ensures
            *final(self) == finish_spec(*old(self)),
            old(self).wf() ==> final(self).wf(),
    {
        self.in_flight = self.in_flight - 1;
        if self.phase == Phase::Draining && self.in_flight == 0 {
            self.phase = Phase::Stopped;
        }
    }

    /// Requests a graceful stop: nothing new is admitted, and the
    /// server is stopped as soon as the in-flight handlers finish.
    pub fn request_stop(&mut self)
        ensures
            *final(self) == stop_spec(*old(self)),
            !final(self).accepts(),
            final(self).wf(),
    {
        if self.in_flight == 0 {
            self.phase = Phase::Stopped;
        } else {
            self.phase = Phase::Draining;
        }
    }

    /// The drain bound was exceeded: remaining work is terminated and
    /// the server stops at once.
    pub fn force_stop(&mut self)
        ensures
            final(self).phase is Stopped,
            final(self).in_flight == 0,
            final(self).wf(),
    {
        self.phase = Phase::Stopped;
        self.in_flight = 0;
    }
}

/// Graceful stop lets handlers finish: the stopped phase is reached
/// only once nothing is in flight, so a slow handler still mid-flight
/// keeps the server draining until it completes.
pub proof fn lemma_stop_waits_for_handlers(s: ServerCtl)
    requires
        s.wf(),
        s.phase is Stopped,
    ensures
        s.in_flight == 0,
{
}

/// A request arriving after a stop was requested is rejected, not
/// queued: the post-stop state admits nothing.
pub proof fn lemma_rejected_after_stop(s: ServerCtl)
    ensures
        !stop_spec(s).accepts(),
{
}

/// While draining, the completion of the last in-flight handler is
/// exactly what stops the server.
pub proof fn lemma_drain_completes(s: ServerCtl)
    requires
        s.phase is Draining,
        s.in_flight == 1,
    ensures
        finish_spec(s).phase is Stopped,
        finish_spec(s).in_flight == 0,
{
}

} // verus!
