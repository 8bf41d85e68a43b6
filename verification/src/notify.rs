//! systemd's readiness and watchdog protocol: one datagram to
//! `$NOTIFY_SOCKET` is all `sd_notify(3)` is for a single-process daemon.
//!
//! Without that variable -- a `pve-compose daemon` run at a terminal -- every
//! message goes nowhere, so the loop never has to ask whether it is under
//! systemd. Nothing is ever reported as an error: a daemon that cannot tell
//! systemd how it is doing still reconciles guests.

use vstd::prelude::*;

use crate::text::{self, Text};
use crate::world::{self, Act, ActV, Stop, StopV, World, WorldV};

verus! {

/// A message sent; that it fails is nobody's concern.
pub open spec fn send_s(w: WorldV, message: Text) -> (WorldV, Result<(), StopV>) {
    match w.act(ActV::Notify { message }) {
        (w, Err(StopV::Act(a))) => (w, Err(StopV::Act(a))),
        (w, _) => (w, Ok(())),
    }
}

pub open spec fn ready_s(w: WorldV) -> (WorldV, Result<(), StopV>) {
    send_s(w, "READY=1\n"@)
}

pub open spec fn watchdog_s(w: WorldV) -> (WorldV, Result<(), StopV>) {
    send_s(w, "WATCHDOG=1\n"@)
}

fn send(w: &mut World, message: &str) -> (r: Result<(), Stop>)
    ensures
        (final(w)@, world::res(r)) == send_s(old(w)@, message@),
{
    match w.act(Act::Notify { message: message.to_owned() }) {
        Err(Stop::Act(a)) => Err(Stop::Act(a)),
        _ => Ok(()),
    }
}

/// `READY=1`: the loop is polling. The unit is `Type=notify`, so systemd
/// waits for this before it calls the service started.
pub fn ready(w: &mut World) -> (r: Result<(), Stop>)
    ensures
        (final(w)@, world::res(r)) == ready_s(old(w)@),
{
    send(w, "READY=1\n")
}

/// `WATCHDOG=1`: sent around every poll and after every guest, so the unit's
/// `WatchdogSec` measures the loop making progress and not just the process
/// existing.
pub fn watchdog(w: &mut World) -> (r: Result<(), Stop>)
    ensures
        (final(w)@, world::res(r)) == watchdog_s(old(w)@),
{
    send(w, "WATCHDOG=1\n")
}

/// Where the messages go.
#[derive(Debug)]
pub enum Address {
    /// A name in the abstract namespace.
    Abstract(String),
    Path(String),
}

/// systemd's own rule: a leading `@` means the abstract namespace, anything
/// else is a path.
pub fn address(path: &str) -> (r: Address)
    ensures
        match r {
            Address::Abstract(n) => path@.len() > 0 && path@[0] == '@' && n@ == path@.skip(1),
            Address::Path(p) => !(path@.len() > 0 && path@[0] == '@') && p@ == path@,
        },
{
    proof {
        reveal_strlit("@");
    }
    match text::strip_prefix(path, "@") {
        Some(name) => {
            assert("@"@.is_prefix_of(path@));
            assert(path@[0] == "@"@[0]);
            Address::Abstract(name)
        },
        None => {
            assert(path@.len() > 0 && path@[0] == '@' ==> "@"@ =~= path@.take(1));
            Address::Path(path.to_owned())
        },
    }
}

} // verus!
