//! Taking all captured devices away from the desktop, or none of them.
use vstd::prelude::*;

verus! {

/// How often a device that refuses to be grabbed is asked.
pub const GRAB_ATTEMPTS: u32 = 5;

/// Nanoseconds between two attempts.
pub const GRAB_RETRY_DELAY: u64 = 20_000_000;

/// What to do after a failed attempt to grab one device.
#[derive(Debug, Clone, Copy, PartialEq, Eq, Structural)]
pub enum GrabRetry {
    RetryAfter(u64),
    GiveUp,
}

/// What to do after the `attempt`-th attempt, counted from zero, failed.
pub fn after_failed_attempt(attempt: u32) -> (retry: GrabRetry)
    ensures
        retry == (if attempt + 1 < GRAB_ATTEMPTS {
            GrabRetry::RetryAfter(GRAB_RETRY_DELAY)
        } else {
            GrabRetry::GiveUp
        }),
        retry == GrabRetry::GiveUp <==> attempt >= 4,
        retry matches GrabRetry::RetryAfter(delay) ==> delay == 20_000_000,
{
    if attempt < GRAB_ATTEMPTS - 1 {
        GrabRetry::RetryAfter(GRAB_RETRY_DELAY)
    } else {
        GrabRetry::GiveUp
    }
}

/// What the devices are asked for next.
#[derive(Debug, Clone, Copy, PartialEq, Eq, Structural)]
pub enum GrabAction {
    /// Open and grab the device with this index.
    Open(usize),
    /// Start reading the device with this index.
    Start(usize),
    /// All devices are grabbed and read.
    Done,
    /// A device could not be grabbed: let go of the ones before it.
    Ungrab(usize),
    /// A device could not be read: stop reading the ones before it.
    Stop(usize),
    /// There is nothing to grab.
    NoDevices,
}

/// How far the grab has come: all devices are opened before any is read.
#[derive(Debug, Clone, Copy, PartialEq, Eq, Structural)]
pub struct Grab {
    pub total: usize,
    pub opened: usize,
    pub started: usize,
}

impl Grab {
    pub open spec fn wf(self) -> bool {
        &&& self.opened <= self.total
        &&& self.started <= self.total
        &&& self.opened < self.total ==> self.started == 0
    }

    /// What comes next, as long as everything succeeds.
    pub open spec fn next_action(self) -> GrabAction {
        if self.opened < self.total {
            GrabAction::Open(self.opened)
        } else if self.started < self.total {
            GrabAction::Start(self.started)
        } else {
            GrabAction::Done
        }
    }

    /// The grab after one more success.
    pub open spec fn advanced(self) -> Grab {
        if self.opened < self.total {
            Grab { opened: (self.opened + 1) as usize, ..self }
        } else {
            Grab { started: (self.started + 1) as usize, ..self }
        }
    }

    /// The grab after a success or a failure, and what comes then. What was taken before a failure is
    /// given back.
    pub open spec fn stepped(self, succeeded: bool) -> (Grab, GrabAction) {
        if succeeded {
            (self.advanced(), self.advanced().next_action())
        } else if self.opened < self.total {
            (self, GrabAction::Ungrab(self.opened))
        } else {
            (self, GrabAction::Stop(self.started))
        }
    }

    /// Begin to grab `total` devices while `workers` are being read. Devices that are being read
    /// are grabbed already.
    pub fn begin(workers: usize, total: usize) -> (res: (Grab, GrabAction))
        ensures
            res.0 == (Grab { total, opened: 0, started: 0 }),
            res.0.wf(),
            res.1 == (if workers > 0 {
                GrabAction::Done
            } else if total == 0 {
                GrabAction::NoDevices
            } else {
                GrabAction::Open(0)
            }),
    {
        let grab = Grab { total, opened: 0, started: 0 };
        if workers > 0 {
            (grab, GrabAction::Done)
        } else if total == 0 {
            (grab, GrabAction::NoDevices)
        } else {
            (grab, GrabAction::Open(0))
        }
    }

    /// What comes after the last action succeeded or failed.
    pub fn step(&mut self, succeeded: bool) -> (action: GrabAction)
        requires
            old(self).wf(),
            !(old(self).next_action() is Done),
        ensures
            final(self).wf(),
            if succeeded {
                *final(self) == old(self).advanced() && action == final(self).next_action()
            } else {
                *final(self) == *old(self) && action == (if old(self).opened < old(self).total {
                    GrabAction::Ungrab(old(self).opened)
                } else {
                    GrabAction::Stop(old(self).started)
                })
            },
            (*final(self), action) == old(self).stepped(succeeded),
    {
        if !succeeded {
            if self.opened < self.total {
                return GrabAction::Ungrab(self.opened);
            }
            return GrabAction::Stop(self.started);
        }
        if self.opened < self.total {
            self.opened += 1;
        } else {
            self.started += 1;
        }
        if self.opened < self.total {
            GrabAction::Open(self.opened)
        } else if self.started < self.total {
            GrabAction::Start(self.started)
        } else {
            GrabAction::Done
        }
    }
}

/// The grab after `n` successes.
pub open spec fn after_successes(grab: Grab, n: nat) -> Grab
    decreases n,
{
    if n == 0 {
        grab
    } else {
        after_successes(grab, (n - 1) as nat).advanced()
    }
}

/// A grab in which everything succeeds opens each device once, in order, then reads each once, in
/// order, and is done after that.
pub proof fn law_grab_takes_each_device_once(total: usize, n: nat)
    requires
        n <= 2 * total,
    ensures
        ({
            let grab = after_successes(Grab { total, opened: 0, started: 0 }, n);
            &&& grab.wf()
            &&& grab.total == total
            &&& grab.opened == (if n < total {
                n
            } else {
                total as nat
            })
            &&& grab.started == n - grab.opened
            &&& grab.next_action() == (if n < total {
                GrabAction::Open(n as usize)
            } else if n < 2 * total {
                GrabAction::Start((n - total) as usize)
            } else {
                GrabAction::Done
            })
        }),
    decreases n,
{
    if n > 0 {
        law_grab_takes_each_device_once(total, (n - 1) as nat);
    }
}

/// Where a device cannot be grabbed or read, exactly the devices before it are let go of.
pub proof fn law_failed_grab_gives_all_back(total: usize, n: nat)
    requires
        n < 2 * total,
    ensures
        ({
            let grab = after_successes(Grab { total, opened: 0, started: 0 }, n);
            grab.stepped(false).1 == (if n < total {
                GrabAction::Ungrab(n as usize)
            } else {
                GrabAction::Stop((n - total) as usize)
            })
        }),
{
    law_grab_takes_each_device_once(total, n);
}

} // verus!
