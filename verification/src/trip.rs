//! The safety trip: a process-wide, one-shot latch that permanently
//! disables manual fan-speed writes, and the one-shot registry guarding
//! installation of the fault and signal traps.

use vstd::prelude::*;

verus! {

/// What triggered the trip, kept for reporting only.
#[derive(Clone, Copy, Debug, PartialEq, Eq, Structural)]
pub enum TripReason {
    /// An unrecoverable fault in the controlling process.
    Fault,
    /// A process-termination request.
    Terminate,
}

/// The sentinel returned in place of a manual write once the trip is
/// engaged: the write was suppressed and never reached the hardware.
#[derive(Clone, Copy, Debug, PartialEq, Eq, Structural)]
pub struct Blocked;

/// An asynchronous event the process supervisor can observe.
#[derive(Clone, Copy, Debug, PartialEq, Eq, Structural)]
pub enum ProcessEvent {
    /// An unrecoverable runtime fault.
    Fault,
    /// A request to terminate the process.
    Terminate,
    /// A request to stop (suspend) the process.
    Stop,
}

/// The one-shot latch: `Armed` (not tripped) until engaged, `Tripped`
/// forever after.
#[derive(Clone, Copy, Debug)]
pub struct TripState {
    pub tripped: bool,
    pub reason: Option<TripReason>,
}

/// The latch after engaging it: tripped, recording the first trigger's
/// reason; a later trigger changes nothing.
pub open spec fn spec_engaged(s: TripState, reason: TripReason) -> TripState {
    if s.tripped {
        s
    } else {
        TripState { tripped: true, reason: Some(reason) }
    }
}

/// What a manual write of `speed` comes to under the latch `s`: the
/// speed, to be written, while the latch is armed; `Blocked` once it is
/// engaged.
pub open spec fn spec_write_verdict(s: TripState, speed: u32) -> Result<u32, Blocked> {
    if s.tripped {
        Err(Blocked)
    } else {
        Ok(speed)
    }
}

/// Whether the trigger for `event` engages the trip, and with which
/// reason: faults and termination requests do, a stop request never does
/// (it is suppressed, so the hardware is not left mid-suspend in an
/// undefined state).
pub open spec fn spec_reason_for_event(event: ProcessEvent) -> Option<TripReason> {
    match event {
        ProcessEvent::Fault => Some(TripReason::Fault),
        ProcessEvent::Terminate => Some(TripReason::Terminate),
        ProcessEvent::Stop => None,
    }
}

impl TripState {
    /// The initial, armed latch.
    pub fn new() -> (s: Self)
        ensures
            !s.tripped,
            s.reason is None,
    {
        TripState { tripped: false, reason: None }
    }

    /// Engages the latch.  Returns whether this call was the first to
    /// engage it: exactly the first caller is owed the restoration pass
    /// over the fans.  The latch never reverts, whatever the restoration
    /// pass later reports.
    pub fn engage(&mut self, reason: TripReason) -> (first: bool)
        ensures
            *final(self) == spec_engaged(*old(self), reason),
            final(self).tripped,
            first == !old(self).tripped,
    {
        if self.tripped {
            false
        } else {
            self.tripped = true;
            self.reason = Some(reason);
            true
        }
    }

    /// Whether the latch has been engaged.
    pub fn is_engaged(&self) -> (engaged: bool)
        ensures
            engaged == self.tripped,
    {
        self.tripped
    }

    /// Guards every manual fan-speed write: hands the speed
    /// back for writing while the latch is armed, and short-circuits with
    /// `Blocked` — the write must not touch the hardware — once it is
    /// engaged.
    pub fn try_manual_write(&self, speed: u32) -> (r: Result<u32, Blocked>)
        ensures
            r == spec_write_verdict(*self, speed),
            r is Ok <==> !self.tripped,
    {
        if self.tripped {
            Err(Blocked)
        } else {
            Ok(speed)
        }
    }
}

/// Engaging the trip is idempotent: after any engagement the latch is
/// tripped; a second engagement, from whichever concurrent initiator,
/// changes nothing — so the first engagement alone owes the restoration
/// pass — and every manual write after an engagement is blocked.
pub proof fn lemma_trip_one_shot(s: TripState, r1: TripReason, r2: TripReason, speed: u32)
    ensures
        spec_engaged(s, r1).tripped,
        spec_engaged(spec_engaged(s, r1), r2) == spec_engaged(s, r1),
        !s.tripped ==> spec_engaged(s, r1).reason == Some(r1),
        spec_write_verdict(spec_engaged(s, r1), speed) == Result::<u32, Blocked>::Err(Blocked),
{
}

/// Maps a process event to the trip it demands: `None` exactly for stop
/// requests, which are ignored.
pub fn trip_reason_for_event(event: ProcessEvent) -> (r: Option<TripReason>)
    ensures
        r == spec_reason_for_event(event),
        r is None <==> event is Stop,
{
    match event {
        ProcessEvent::Fault => Some(TripReason::Fault),
        ProcessEvent::Terminate => Some(TripReason::Terminate),
        ProcessEvent::Stop => None,
    }
}

/// Guards installation of the fault and signal traps: they are installed
/// exactly once per process.
#[derive(Clone, Copy, Debug, PartialEq, Eq, Structural)]
pub struct TrapRegistry {
    pub installed: bool,
}

impl TrapRegistry {
    /// A registry with nothing installed yet.
    pub fn new() -> (s: Self)
        ensures
            !s.installed,
    {
        TrapRegistry { installed: false }
    }

    /// Claims installation.  Returns whether this caller is the one to
    /// install the traps; every later call is a no-op.
    pub fn mark_installed(&mut self) -> (first: bool)
        ensures
            final(self).installed,
            first == !old(self).installed,
    {
        if self.installed {
            false
        } else {
            self.installed = true;
            true
        }
    }
}

} // verus!
