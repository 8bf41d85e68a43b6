//! One lock per guest on the node, so the daemon and a hand-run `apply` on
//! the same vmid take turns. `pct` has its own config lock for the wrapper;
//! this one covers the whole reconcile, including what runs inside the guest.

use vstd::prelude::*;

use crate::error::Error;
use crate::num;
use crate::text::{self, Text};
use crate::world::{self, Act, ActV, Stop, StopV, World, WorldV};

verus! {

/// Where the locks are.
pub const DIR: &'static str = "/run/lock/pve-compose";

/// The lock of a guest, held.
#[derive(Debug)]
pub struct GuestLock {
    pub vmid: u32,
}

/// The file of a guest's lock.
pub open spec fn path_of(vmid: u32) -> Text {
    DIR@ + "/"@ + num::dec(vmid as nat) + ".lock"@
}

/// What to do after an attempt to take a lock.
#[derive(Debug, Clone, Copy, PartialEq, Eq, Structural)]
pub enum Attempt {
    /// It is held.
    Held,
    /// It failed, other than by another holder.
    Broken,
    /// Another holds it and the wait is over.
    Busy,
    /// Another holds it: try again in a moment.
    Again,
}

/// What to do after an attempt: whether it was taken, whether another holds
/// it, and whether the wait is over.
pub fn attempt(taken: bool, held: bool, late: bool) -> (r: Attempt)
    ensures
        r == Attempt::Held <==> taken,
        r == Attempt::Broken <==> !taken && !held,
        r == Attempt::Busy <==> !taken && held && late,
        r == Attempt::Again <==> !taken && held && !late,
{
    if taken {
        Attempt::Held
    } else if !held {
        Attempt::Broken
    } else if late {
        Attempt::Busy
    } else {
        Attempt::Again
    }
}

/// The file of a guest's lock.
pub fn path(vmid: u32) -> (r: String)
    ensures
        r@ == path_of(vmid),
{
    text::cat4(DIR, "/", num::print(vmid as u64).as_str(), ".lock")
}

/// The error when the wait for another holder is over.
pub fn busy_error(vmid: u32) -> (r: Error)
    ensures
        r@ == seq![
            "guest "@ + num::dec(vmid as nat) + " is busy (another pve-compose holds "@ + path_of(
                vmid,
            ) + ")"@,
        ],
{
    Error::new(
        text::cat5(
            "guest ",
            num::print(vmid as u64).as_str(),
            " is busy (another pve-compose holds ",
            path(vmid).as_str(),
            ")",
        ),
    )
}

pub open spec fn take_s(w: WorldV, vmid: u32, wait_secs: u32) -> (WorldV, Result<(), StopV>) {
    match w.act(ActV::Lock { vmid, wait: wait_secs }) {
        (w, Ok(_)) => (w, Ok(())),
        (w, Err(e)) => (w, Err(e)),
    }
}

pub open spec fn release_s(w: WorldV, vmid: u32) -> (WorldV, Result<(), StopV>) {
    match w.act(ActV::Unlock { vmid }) {
        (w, Err(StopV::Act(a))) => (w, Err(StopV::Act(a))),
        (w, _) => (w, Ok(())),
    }
}

/// A verb that ended gives its lock back, however it ended; one that still
/// waits for an action holds it.
pub open spec fn released<T>(x: (WorldV, Result<T, StopV>), vmid: u32) -> (
    WorldV,
    Result<T, StopV>,
) {
    match x.1 {
        Err(StopV::Act(a)) => x,
        _ => match release_s(x.0, vmid) {
            (w, Err(e)) => (w, Err(e)),
            (w, Ok(_)) => (w, x.1),
        },
    }
}

impl View for GuestLock {
    type V = ();

    open spec fn view(&self) -> () {
        ()
    }
}

impl GuestLock {
    /// Takes the lock, waiting up to `wait_secs` for another holder.
    pub fn take(w: &mut World, vmid: u32, wait_secs: u32) -> (r: Result<GuestLock, Stop>)
        ensures
            (final(w)@, world::res(r)) == take_s(old(w)@, vmid, wait_secs),
            r matches Ok(l) ==> l.vmid == vmid,
    {
        match w.act(Act::Lock { vmid, wait: wait_secs }) {
            Ok(_) => Ok(GuestLock { vmid }),
            Err(e) => Err(e),
        }
    }

    /// Gives the lock back; that it fails is nobody's concern.
    pub fn release(self, w: &mut World) -> (r: Result<(), Stop>)
        ensures
            (final(w)@, world::res(r)) == release_s(old(w)@, self.vmid),
    {
        match w.act(Act::Unlock { vmid: self.vmid }) {
            Err(Stop::Act(a)) => Err(Stop::Act(a)),
            _ => Ok(()),
        }
    }

    /// The end of a verb that holds the lock: gives it back, unless an action
    /// is still to be performed under it.
    pub fn finish<T: View>(self, w: &mut World, r: Result<T, Stop>) -> (s: Result<T, Stop>)
        ensures
            (final(w)@, world::res(s)) == released((old(w)@, world::res(r)), self.vmid),
    {
        match r {
            Err(Stop::Act(a)) => Err(Stop::Act(a)),
            Err(Stop::Fail(e)) => match self.release(w) {
                Ok(_) => Err(Stop::Fail(e)),
                Err(s) => Err(s),
            },
            Ok(x) => match self.release(w) {
                Ok(_) => Ok(x),
                Err(s) => Err(s),
            },
        }
    }
}

/// A verb that ended under the lock gave it back, whether it failed or not.
pub proof fn law_lock_is_given_back<T>(x: (WorldV, Result<T, StopV>), vmid: u32)
    ensures
        !(released(x, vmid).1 matches Err(StopV::Act(_))) ==> {
            &&& !(x.1 matches Err(StopV::Act(_)))
            &&& released(x, vmid).1 == x.1
            &&& released(x, vmid).0 == release_s(x.0, vmid).0
            &&& released(x, vmid).0.pos == x.0.pos + 1
        },
{
}

} // verus!
