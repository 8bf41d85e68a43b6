//! Making a Debian container able to run the stack: docker from
//! get.docker.com, once. Idempotent, so it runs on every `new` and, when
//! docker is found missing, on `docker apply`.
//! There is no prebuilt docker template: this takes about two minutes and
//! happens a few times a year, and a template would be an artifact to keep
//! fresh for those minutes.

use vstd::prelude::*;

use crate::cmd;
use crate::error;
use crate::num;
use crate::pct;
use crate::stack;
use crate::text;
use crate::world::{self, Stop, StopV, World, WorldV};

verus! {

/// The script that installs docker, unless it is there.
pub const SCRIPT: &'static str =
    "set -e\nexport LC_ALL=C.UTF-8 LANG=C.UTF-8\nif docker info >/dev/null 2>&1; then echo \"docker: present\"; exit 0; fi\nif ! command -v apt-get >/dev/null 2>&1; then echo \"not a Debian-family guest\" >&2; exit 4; fi\necho \"docker: installing from get.docker.com\"\nexport DEBIAN_FRONTEND=noninteractive\napt-get update -qq\napt-get install -y -qq curl ca-certificates >/dev/null\ncurl -fsSL https://get.docker.com | sh\nsystemctl enable --now docker >/dev/null 2>&1 || true\ndocker info >/dev/null 2>&1\necho \"docker: smoke test\"\ndocker run --rm hello-world >/dev/null\ndocker image rm hello-world >/dev/null 2>&1 || true\n";

pub open spec fn ensure_docker_s(w: WorldV, vmid: u32) -> (WorldV, Result<(), StopV>) {
    match stack::docker_ok_s(w, vmid) {
        (w, Err(e)) => (w, Err(e)),
        (w, Ok(true)) => (w, Ok(())),
        (w, Ok(false)) => match pct::exec_stream_s(
            w,
            vmid,
            SCRIPT@,
            Some(cmd::LONG_TIMEOUT),
        ) {
            (w, Ok(_)) => (w, Ok(())),
            (w, Err(StopV::Act(a))) => (w, Err(StopV::Act(a))),
            (w, Err(StopV::Fail(c))) => (
                w,
                Err(
                    world::failed(
                        "guest "@ + pct::vm(vmid) + ": docker install failed: "@ + error::head(c),
                    ),
                ),
            ),
        },
    }
}

/// Installs docker in the guest if it is not there. Output on the terminal.
pub fn ensure_docker(w: &mut World, vmid: u32) -> (r: Result<(), Stop>)
    ensures
        (final(w)@, world::res(r)) == ensure_docker_s(old(w)@, vmid),
{
    match stack::docker_ok(w, vmid) {
        Ok(ok) => {
            if ok {
                return Ok(());
            }
        },
        Err(e) => return Err(e),
    }
    match pct::exec_stream_within(w, vmid, SCRIPT, cmd::LONG_TIMEOUT) {
        Ok(_) => Ok(()),
        Err(Stop::Act(a)) => Err(Stop::Act(a)),
        Err(Stop::Fail(e)) => Err(
            Stop::fail(
                text::cat4(
                    "guest ",
                    num::print(vmid as u64).as_str(),
                    ": docker install failed: ",
                    e.head().as_str(),
                ),
            ),
        ),
    }
}

} // verus!
