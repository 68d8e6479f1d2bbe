//! When the node bootstraps.
//!
//! The timers themselves run elsewhere. What happens to them is recorded, and that one of
//! them has fired is noted.

use vstd::prelude::*;

use crate::time::Duration;

verus! {

/// What the timers of the bootstrap are told.
#[derive(Clone, Copy, Debug, PartialEq, Eq, Structural)]
pub enum Signal {
    /// Start anew.
    ResetTimers,
    /// A bootstrap was started.
    Started,
    /// A bootstrap is over.
    Finished,
    /// A bootstrap should be started soon.
    Trigger,
}

/// The status of the bootstrap.
#[derive(Debug)]
pub struct Status {
    /// The interval at which the node bootstraps.
    pub interval: Option<Duration>,
    /// The time between the insertion of a peer and the bootstrap that it triggers.
    pub automatic_throttle: Option<Duration>,
    /// What the timers are to be told.
    pub signals: Vec<Signal>,
    /// Whether one of the timers has fired.
    pub due: bool,
}

impl Status {
    /// Whether `after` is this status once the timers are to be told one thing more.
    pub open spec fn signaled(self, after: Status, signal: Signal) -> bool {
        &&& after == (Status { signals: after.signals, ..self })
        &&& after.signals@ == self.signals@.push(signal)
    }

    /// The status before anything has happened.
    pub fn new(interval: Option<Duration>, automatic_throttle: Option<Duration>) -> (r: Self)
        ensures
            r.interval == interval,
            r.automatic_throttle == automatic_throttle,
            r.signals@.len() == 0,
            !r.due,
    {
        Status { interval, automatic_throttle, signals: Vec::new(), due: false }
    }

    /// Tells the timers to start anew.
    pub fn reset_timers(&mut self)
        ensures
            old(self).signaled(*final(self), Signal::ResetTimers),
    {
        self.signals.push(Signal::ResetTimers);
    }

    /// Tells the timers that a bootstrap was started.
    pub fn on_started(&mut self)
        ensures
            old(self).signaled(*final(self), Signal::Started),
    {
        self.signals.push(Signal::Started);
    }

    /// Tells the timers that a bootstrap is over.
    pub fn on_finish(&mut self)
        ensures
            old(self).signaled(*final(self), Signal::Finished),
    {
        self.signals.push(Signal::Finished);
    }

    /// Tells the timers that a bootstrap should be started soon.
    pub fn trigger(&mut self)
        ensures
            old(self).signaled(*final(self), Signal::Trigger),
    {
        self.signals.push(Signal::Trigger);
    }

    /// Whether one of the timers has fired since this was last asked.
    pub fn poll_next_bootstrap(&mut self) -> (r: bool)
        ensures
            r == old(self).due,
            *final(self) == (Status { due: false, ..*old(self) }),
    {
        let due = self.due;
        self.due = false;
        due
    }

    /// Takes what the timers are to be told.
    pub fn take_signals(&mut self) -> (r: Vec<Signal>)
        ensures
            r@ == old(self).signals@,
            *final(self) == (Status { signals: final(self).signals, ..*old(self) }),
            final(self).signals@.len() == 0,
    {
        let mut r: Vec<Signal> = Vec::new();
        r.append(&mut self.signals);
        assert(r@ =~= old(self).signals@);
        r
    }
}

} // verus!
