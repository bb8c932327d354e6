//! The reconciler: the decision core of the poll–detect–notify loop.
//!
//! The loop itself performs outside work — sleeping, an HTTP request per
//! resolution, a delivery per reporter — so a driver runs it: the driver
//! performs each returned [`Action`] and hands the outcome back as the next
//! [`Event`]. Every decision in between — when to resolve, whether the
//! address changed, which reporter to invoke next, when to stop — is made
//! here.

use vstd::prelude::*;

use crate::ip::IpAddress;
use crate::ip::chars_of;
use crate::ip::spec_ip_text;
use crate::reporter::Data;
use crate::resolution::ResolutionError;
use crate::state::State;
use crate::state::UpdateEffect;
use crate::state::spec_update;

verus! {

/// A reconciler error. Both variants are terminal to the loop: recovery is
/// the supervising caller's responsibility.
#[derive(Debug)]
pub enum Error<E> {
    /// An error occurred during an IP resolution.
    IpResolution(ResolutionError),
    /// An error occurred during reporting.
    Reporting(E),
}

/// The outcome of the outside work a driver was last asked to perform,
/// handed back to [`Reconciler::step`].
pub enum Event<E> {
    /// The configured delay has elapsed.
    DelayElapsed,
    /// IP resolution finished with this outcome.
    Resolved(Result<IpAddress, ResolutionError>),
    /// Delivery to the reporter named by the last action finished with this
    /// outcome.
    Reported(Result<(), E>),
}

/// What a driver must do next.
pub enum Action<E> {
    /// Sleep for the carried number of milliseconds, then hand back
    /// `DelayElapsed`.
    Wait(u64),
    /// Invoke IP resolution, then hand back `Resolved`.
    Resolve,
    /// Deliver the carried payload to the reporter at the carried index,
    /// then hand back `Reported`.
    Report(usize, Data),
    /// Stop running: the loop has terminated with the carried error.
    Stop(Error<E>),
}

/// Where the loop stands between two events.
pub enum Phase {
    /// Waiting for the delay to elapse.
    Idle,
    /// Waiting for the resolution outcome.
    Resolving,
    /// Delivering the current address, to the reporter at the carried index
    /// next.
    Delivering(usize),
    /// Stopped on an error.
    Stopped,
}

/// Which event a driver may hand in at each phase: exactly the outcome of
/// the action the phase is waiting for.
pub open spec fn event_fits<E>(p: Phase, event: Event<E>) -> bool {
    match (p, event) {
        (Phase::Idle, Event::DelayElapsed) => true,
        (Phase::Resolving, Event::Resolved(_)) => true,
        (Phase::Delivering(_), Event::Reported(_)) => true,
        _ => false,
    }
}

/// Reconciler encapsulates the logic to maintain the reconciliation loop.
///
/// Across a driver's loop it obtains the current IP address and, if it is a
/// new one, has it reported to all of the reporters, in order, failing fast
/// on the first reporter error.
pub struct Reconciler {
    /// The delay between the reconciliation attempts, in milliseconds.
    pub delay: u64,
    /// How many reporters are registered.
    pub reporter_count: usize,
    /// The state to maintain.
    pub current_ip: State,
    /// Where the loop stands between two events.
    pub phase: Phase,
}

impl Reconciler {
    /// Where the loop stands.
    pub open spec fn phase(&self) -> Phase {
        self.phase
    }

    /// The loop's bookkeeping is consistent: while delivering, the next
    /// reporter index is in range and an address is stored.
    pub open spec fn wf(&self) -> bool {
        self.phase() matches Phase::Delivering(next) ==> next < self.reporter_count
            && self.current_ip@ is Some
    }

    /// A fresh reconciler: no address known yet, waiting out the delay
    /// before the first resolution.
    pub fn new(delay: u64, reporter_count: usize) -> (r: Self)
        ensures
            r.delay == delay,
            r.reporter_count == reporter_count,
            r.current_ip@ is None,
            r.phase() is Idle,
            r.wf(),
    {
        Reconciler { delay, reporter_count, current_ip: State::uninitialized(), phase: Phase::Idle }
    }

    /// The first action of a run: wait out the delay.
    pub fn first_action<E>(&self) -> (action: Action<E>)
        requires
            self.phase() is Idle,
        ensures
            action matches Action::Wait(d) && d == self.delay,
    {
        Action::Wait(self.delay)
    }

    /// Advance the loop by one event, deciding the next action.
    ///
    /// A cycle begins when the delay has elapsed: the address is resolved. A
    /// failed resolution stops the loop with a resolution error. A resolved
    /// address is fed to the state tracker; when the tracker reports no
    /// change — and only then — no reporter is invoked and the loop waits
    /// out the delay again. Otherwise the new address's text is delivered to
    /// the reporters one at a time, in registration order; the first
    /// delivery failure stops the loop with a reporting error, skipping the
    /// remaining reporters; once every reporter has accepted the payload the
    /// loop waits out the delay again.
    pub fn step<E>(&mut self, event: Event<E>) -> (action: Action<E>)
        requires
            old(self).wf(),
            event_fits(old(self).phase(), event),
        ensures
            final(self).wf(),
            final(self).delay == old(self).delay,
            final(self).reporter_count == old(self).reporter_count,
            match (old(self).phase(), event) {
                (Phase::Idle, Event::DelayElapsed) => {
                    &&& final(self).phase() is Resolving
                    &&& final(self).current_ip == old(self).current_ip
                    &&& action is Resolve
                },
                (Phase::Resolving, Event::Resolved(res)) => match res {
                    Err(e) => {
                        &&& final(self).phase() is Stopped
                        &&& final(self).current_ip == old(self).current_ip
                        &&& action matches Action::Stop(Error::IpResolution(e2)) && e2 == e
                    },
                    Ok(ip) => {
                        &&& final(self).current_ip@ == spec_update(old(self).current_ip@, ip).0
                        &&& ((spec_update(old(self).current_ip@, ip).1 is Unchanged || old(
                            self,
                        ).reporter_count == 0) ==> {
                            &&& final(self).phase() is Idle
                            &&& action matches Action::Wait(d) && d == old(self).delay
                        })
                        &&& ((!(spec_update(old(self).current_ip@, ip).1 is Unchanged) && old(
                            self,
                        ).reporter_count > 0) ==> {
                            &&& final(self).phase() == Phase::Delivering(0)
                            &&& action matches Action::Report(i, data) && i == 0 && data.ip@
                                == chars_of(spec_ip_text(ip))
                        })
                    },
                },
                (Phase::Delivering(next), Event::Reported(res)) => match res {
                    Ok(_) => {
                        &&& final(self).current_ip == old(self).current_ip
                        &&& (next + 1 < old(self).reporter_count ==> {
                            &&& final(self).phase() == Phase::Delivering((next + 1) as usize)
                            &&& action matches Action::Report(i, data) && i == next + 1 && (old(
                                self,
                            ).current_ip@ matches Some(cur) && data.ip@ == chars_of(
                                spec_ip_text(cur),
                            ))
                        })
                        &&& (next + 1 >= old(self).reporter_count ==> {
                            &&& final(self).phase() is Idle
                            &&& action matches Action::Wait(d) && d == old(self).delay
                        })
                    },
                    Err(e) => {
                        &&& final(self).phase() is Stopped
                        &&& final(self).current_ip == old(self).current_ip
                        &&& action matches Action::Stop(Error::Reporting(e2)) && e2 == e
                    },
                },
                _ => true,
            },
    {
        match event {
            Event::DelayElapsed => {
                self.phase = Phase::Resolving;
                Action::Resolve
            },
            Event::Resolved(res) => match res {
                Err(e) => {
                    self.phase = Phase::Stopped;
                    Action::Stop(Error::IpResolution(e))
                },
                Ok(ip) => {
                    let effect = self.current_ip.update(ip);
                    match effect {
                        UpdateEffect::Unchanged => {
                            self.phase = Phase::Idle;
                            Action::Wait(self.delay)
                        },
                        _ => {
                            if self.reporter_count == 0 {
                                self.phase = Phase::Idle;
                                Action::Wait(self.delay)
                            } else {
                                self.phase = Phase::Delivering(0);
                                Action::Report(0, Data { ip: ip.text() })
                            }
                        },
                    }
                },
            },
            Event::Reported(res) => {
                let next = match self.phase {
                    Phase::Delivering(n) => n,
                    // A reported outcome fits only the delivering phase.
                    _ => {
                        proof {
                            assert(false);
                        }
                        0
                    },
                };
                match res {
                    Err(e) => {
                        self.phase = Phase::Stopped;
                        Action::Stop(Error::Reporting(e))
                    },
                    Ok(()) => {
                        if next + 1 < self.reporter_count {
                            let cur = match self.current_ip.current() {
                                Some(ip) => ip,
                                // While delivering, an address is stored.
                                None => {
                                    proof {
                                        assert(false);
                                    }
                                    IpAddress::V4 { a: 0, b: 0, c: 0, d: 0 }
                                },
                            };
                            self.phase = Phase::Delivering(next + 1);
                            Action::Report(next + 1, Data { ip: cur.text() })
                        } else {
                            self.phase = Phase::Idle;
                            Action::Wait(self.delay)
                        }
                    },
                }
            },
        }
    }
}

} // verus!
