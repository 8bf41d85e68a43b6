//! `apply`: make the wrapper and the stack match the document.
//!
//! `pct apply` runs the plan (disks, features, tag). `docker apply` renders
//! the compose file, pushes it, brings the stack up, and writes the facts.
//! The bare `apply` is both, pct first, because the volumes have to be
//! mounted before compose binds them.
//!
//! A changed `features` line only takes effect on restart, and docker cannot
//! start without `nesting`. So when the plan changed features, `apply` stops
//! after the pct half and says so.

use vstd::prelude::*;

use crate::cmd;
use crate::doc;
use crate::error::{self, Chain, Error};
use crate::lock::{self, GuestLock};
use crate::num;
use crate::ops::{self, Ctx, CtxV, Guest, GuestV, provision};
use crate::pct::{self, GuestConfigV};
use crate::plan::{self, Inputs, InputsV, Op, OpV, Plan, PlanV};
use crate::spec::{self, Vars, VarsV, Volume, VolumeV};
use crate::stack::{self, COMPOSE_FILE};
use crate::text::{self, Text};
use crate::world::{self, ActV, ReplyV, Shape, Stop, StopV, World, WorldV};
use crate::yaml::{self, Tree, Yaml};

verus! {

/// How long a verb waits for another holder of a guest's lock, in seconds.
pub const LOCK_WAIT: u32 = 60;

/// How `apply` and `upgrade` behave beyond the default.
#[derive(Debug, Clone, Copy, PartialEq, Eq, Structural)]
pub struct Options {
    /// `docker compose pull` before `up`.
    pub pull: bool,
    /// Render and push the compose file, write the facts, but never
    /// `compose up`.
    pub no_up: bool,
    /// `compose up` only if the stack is already up (some container of it
    /// running); otherwise behave as `no_up`. The loop's mode: a document
    /// change lands in the file, and starting the stack stays a human's act.
    pub only_if_up: bool,
}

impl Default for Options {
    fn default() -> (r: Options)
        ensures
            r == (Options { pull: false, no_up: false, only_if_up: false }),
    {
        Options { pull: false, no_up: false, only_if_up: false }
    }
}

// ---------------------------------------------------------------------------
// The pct half.

/// What the plan of a guest is made from.
pub open spec fn inputs_of(c: CtxV, g: GuestV) -> InputsV {
    InputsV {
        node: c.node,
        config: c.config,
        tag: c.tag,
        guest: g.config,
        volumes: g.volumes,
    }
}

/// The plan of a guest.
pub open spec fn planned(c: CtxV, g: GuestV) -> Result<PlanV, Chain> {
    plan::plan_of(inputs_of(c, g))
}

/// Whether a plan changes the features.
pub open spec fn changes_features(ops: Seq<OpV>) -> bool {
    exists|i: int| 0 <= i < ops.len() && (#[trigger] ops[i]) is SetFeatures
}

/// The notes of a plan, said.
pub open spec fn noted(w: WorldV, notes: Seq<Text>) -> WorldV
    decreases notes.len(),
{
    if notes.len() == 0 {
        w
    } else {
        noted(w, notes.drop_last()).note("note: "@ + notes.last())
    }
}

/// The message for a guest whose features changed.
pub open spec fn restart_needed(vmid: u32) -> Text {
    "guest "@ + pct::vm(vmid) + ": features changed and take effect on restart; `pct reboot "@
        + pct::vm(vmid) + "`, then apply again"@
}

/// The line for a guest whose features changed before another step failed.
pub open spec fn restart_line(vmid: u32, e: Text) -> Text {
    "pct: features were changed before this failed and take effect on restart; `pct reboot "@
        + pct::vm(vmid) + "` before the next apply ("@ + e + ")"@
}

/// What follows the plan's run.
pub open spec fn after_run(x: (WorldV, Result<(), StopV>), vmid: u32, ops: Seq<OpV>) -> (
    WorldV,
    Result<usize, StopV>,
) {
    match x.1 {
        Err(StopV::Act(a)) => (x.0, Err(StopV::Act(a))),
        Err(StopV::Fail(e)) => (
            if changes_features(ops) {
                x.0.note(restart_line(vmid, error::head(e)))
            } else {
                x.0
            },
            Err(StopV::Fail(e)),
        ),
        Ok(_) => if changes_features(ops) {
            (x.0, Err(world::failed(restart_needed(vmid))))
        } else {
            (x.0, Ok(ops.len() as usize))
        },
    }
}

pub open spec fn pct_apply_guest_s(w: WorldV, c: CtxV, g: GuestV) -> (
    WorldV,
    Result<usize, StopV>,
) {
    match planned(c, g) {
        Err(e) => (w, Err(StopV::Fail(e))),
        Ok(p) => {
            let w = noted(w, p.notes);
            if p.ops.len() == 0 {
                (w.note("pct: nothing to do"@), Ok(0))
            } else {
                let w = w.note(
                    "pct: applying "@ + num::dec(p.ops.len()) + " change(s) to "@ + pct::vm(
                        g.config.vmid,
                    ),
                );
                after_run(plan::execute_s(w, g.config, p), g.config.vmid, p.ops)
            }
        },
    }
}

/// A verb on a running, loaded guest.
pub open spec fn loaded_s(w: WorldV, c: CtxV, vmid: u32) -> (WorldV, Result<GuestV, StopV>) {
    match ops::require_running_s(w, c, vmid) {
        (w, Err(e)) => (w, Err(e)),
        (w, Ok(_)) => ops::load_s(w, c, vmid),
    }
}

pub open spec fn pct_apply_locked_s(w: WorldV, c: CtxV, vmid: u32) -> (
    WorldV,
    Result<usize, StopV>,
) {
    match loaded_s(w, c, vmid) {
        (w, Err(e)) => (w, Err(e)),
        (w, Ok(g)) => pct_apply_guest_s(w, c, g),
    }
}

pub open spec fn pct_apply_s(w: WorldV, c: CtxV, vmid: u32) -> (WorldV, Result<usize, StopV>) {
    match lock::take_s(w, vmid, LOCK_WAIT) {
        (w, Err(e)) => (w, Err(e)),
        (w, Ok(_)) => lock::released(pct_apply_locked_s(w, c, vmid), vmid),
    }
}

/// Builds the pct-level plan for a loaded guest.
pub fn pct_plan(ctx: &Ctx, g: &Guest) -> (r: Result<Plan, Error>)
    ensures
        match r {
            Ok(p) => planned(ctx@, g@) == Ok::<PlanV, Chain>(p@),
            Err(e) => planned(ctx@, g@) == Err::<PlanV, Chain>(e@),
        },
{
    let tag = match &ctx.tag {
        Some(t) => Some(t.as_str()),
        None => None,
    };
    plan::build(
        &Inputs {
            node: ctx.node.as_str(),
            config: &ctx.config,
            tag,
            guest: &g.config,
            doc: &g.read.doc,
            volumes: &g.volumes,
        },
    )
}

fn say_notes(w: &mut World, notes: &Vec<String>)
    ensures
        final(w)@ == noted(old(w)@, text::views(notes@)),
{
    let ghost all = text::views(notes@);
    assert(all.take(0) =~= Seq::empty());
    for i in 0..notes.len()
        invariant
            all == text::views(notes@),
            w@ == noted(old(w)@, all.take(i as int)),
    {
        assert(all.take(i + 1).drop_last() =~= all.take(i as int));
        assert(all.take(i + 1).last() == notes@[i as int]@);
        w.note(text::cat("note: ", notes[i].as_str()));
    }
    assert(all.take(all.len() as int) =~= all);
}

fn sets_features(ops: &Vec<Op>) -> (r: bool)
    ensures
        r == changes_features(text::views(ops@)),
{
    let ghost all = text::views(ops@);
    for i in 0..ops.len()
        invariant
            all == text::views(ops@),
            forall|j: int| 0 <= j < i ==> !((#[trigger] all[j]) is SetFeatures),
    {
        assert(all[i as int] == ops@[i as int]@);
        if let Op::SetFeatures(_) = &ops[i] {
            return true;
        }
    }
    false
}

/// The pct half, under the guest's lock.
pub fn pct_apply(w: &mut World, ctx: &Ctx, vmid: u32) -> (r: Result<usize, Stop>)
    ensures
        (final(w)@, world::res(r)) == pct_apply_s(old(w)@, ctx@, vmid),
{
    let lock = match GuestLock::take(w, vmid, LOCK_WAIT) {
        Ok(l) => l,
        Err(e) => return Err(e),
    };
    let r = match running(w, ctx, vmid) {
        Ok(g) => pct_apply_guest(w, ctx, &g),
        Err(e) => Err(e),
    };
    lock.finish(w, r)
}

/// A guest that is running, loaded.
fn running(w: &mut World, ctx: &Ctx, vmid: u32) -> (r: Result<Guest, Stop>)
    ensures
        (final(w)@, world::res(r)) == loaded_s(old(w)@, ctx@, vmid),
{
    match ops::require_running(w, ctx, vmid) {
        Ok(_) => ops::load(w, ctx, vmid),
        Err(e) => Err(e),
    }
}

/// The pct half for a loaded guest whose lock the caller holds. Returns the
/// number of operations run.
pub fn pct_apply_guest(w: &mut World, ctx: &Ctx, g: &Guest) -> (r: Result<usize, Stop>)
    ensures
        (final(w)@, world::res(r)) == pct_apply_guest_s(old(w)@, ctx@, g@),
{
    let vmid = g.vmid();
    let p = match pct_plan(ctx, g) {
        Ok(p) => p,
        Err(e) => return Err(Stop::Fail(e)),
    };
    say_notes(w, &p.notes);
    if p.is_empty() {
        w.note("pct: nothing to do".to_owned());
        return Ok(0);
    }
    let n = num::print(vmid as u64);
    w.note(
        text::cat4(
            "pct: applying ",
            num::print(p.ops.len() as u64).as_str(),
            " change(s) to ",
            n.as_str(),
        ),
    );
    // Features are the first op, so they are set even when a later op
    // fails; the restart they need must be said either way, or the next
    // plan sees them already set and the message is lost for good.
    let features_changed = sets_features(&p.ops);
    match plan::execute(w, &g.config, &p) {
        Err(Stop::Act(a)) => Err(Stop::Act(a)),
        Err(Stop::Fail(e)) => {
            if features_changed {
                w.note(
                    text::cat5(
                        "pct: features were changed before this failed and take effect on restart; `pct reboot ",
                        n.as_str(),
                        "` before the next apply (",
                        e.head().as_str(),
                        ")",
                    ),
                );
            }
            Err(Stop::Fail(e))
        },
        Ok(_) => if features_changed {
            Err(
                Stop::fail(
                    text::cat5(
                        "guest ",
                        n.as_str(),
                        ": features changed and take effect on restart; `pct reboot ",
                        n.as_str(),
                        "`, then apply again",
                    ),
                ),
            )
        } else {
            Ok(p.ops.len())
        },
    }
}

// ---------------------------------------------------------------------------
// What the document renders to.

/// The substitution values for a guest.
pub open spec fn vars_of(c: CtxV, g: GuestV) -> Result<VarsV, Chain> {
    let o = ops::owner_of(g, c);
    if spec::owner_ok(o) {
        Ok(
            VarsV {
                vmid: g.config.vmid,
                uid: spec::owner_parts(o).0,
                gid: spec::owner_parts(o).1,
                name: match g.config.hostname {
                    Some(h) => h,
                    None => Seq::empty(),
                },
                project: ops::project_of(g),
            },
        )
    } else {
        Err(seq![spec::owner_error(o)])
    }
}

/// The compose text the guest should have.
pub open spec fn rendered(c: CtxV, g: GuestV) -> Result<Text, Chain> {
    match vars_of(c, g) {
        Err(e) => Err(e),
        Ok(v) => spec::rendered(g.read.doc.spec, g.volumes, v),
    }
}

/// The substitution values for a guest.
pub fn vars(ctx: &Ctx, g: &Guest) -> (r: Result<Vars, Error>)
    ensures
        match r {
            Ok(v) => vars_of(ctx@, g@) == Ok::<VarsV, Chain>(v@),
            Err(e) => vars_of(ctx@, g@) == Err::<VarsV, Chain>(e@),
        },
{
    let owner = g.owner(ctx);
    let (uid, gid) = match spec::split_owner(owner.as_str()) {
        Ok(p) => p,
        Err(e) => {
            assert(e@ =~= seq![spec::owner_error(owner@)]);
            return Err(e);
        },
    };
    Ok(
        Vars {
            vmid: g.vmid(),
            uid,
            gid,
            name: match &g.config.hostname {
                Some(h) => h.clone(),
                None => {
                    let s = String::new();
                    assert(s@ =~= Seq::<char>::empty());
                    s
                },
            },
            project: g.project(),
        },
    )
}

/// The compose text the guest should have.
pub fn render(ctx: &Ctx, g: &Guest) -> (r: Result<String, Error>)
    ensures
        match r {
            Ok(t) => rendered(ctx@, g@) == Ok::<Text, Chain>(t@),
            Err(e) => rendered(ctx@, g@) == Err::<Text, Chain>(e@),
        },
{
    match vars(ctx, g) {
        Ok(v) => spec::render(&g.read.doc.spec, &g.volumes, &v),
        Err(e) => Err(e),
    }
}

// ---------------------------------------------------------------------------
// The docker half.

/// The directory of every volume with its owner.
pub open spec fn owners_of(v: Seq<VolumeV>, default: Text) -> Seq<(Text, Text)> {
    v.map_values(
        |x: VolumeV|
            (
                spec::dir_of(x.name),
                match x.owner {
                    Some(o) => o,
                    None => default,
                },
            ),
    )
}

/// Whether the document has a service.
pub open spec fn has_services(spec: Tree) -> bool {
    match yaml::get(spec, "services"@) {
        None => false,
        Some(s) => match yaml::dict(s) {
            None => false,
            Some(m) => m.len() > 0,
        },
    }
}

/// Whether the stack is to be brought up. Up means: a compose file was there
/// and one of its containers runs.
pub open spec fn start_s(w: WorldV, vmid: u32, o: Options, services: bool, present: bool) -> (
    WorldV,
    Result<bool, StopV>,
) {
    if o.no_up || !services {
        (w, Ok(false))
    } else if o.only_if_up {
        if !present {
            (w, Ok(false))
        } else {
            match stack::ps_s(w, vmid) {
                (w, Err(e)) => (w, Err(e)),
                (w, Ok(l)) => (w, Ok(stack::any_running(l))),
            }
        }
    } else {
        (w, Ok(true))
    }
}

/// The compose file, written where it differs.
pub open spec fn file_s(w: WorldV, vmid: u32, current: Option<Text>, t: Text) -> (
    WorldV,
    Result<(), StopV>,
) {
    if current == Some(t) {
        (w, Ok(()))
    } else {
        pct::write_file_s(
            w.note("docker: writing "@ + COMPOSE_FILE@),
            vmid,
            COMPOSE_FILE@,
            t,
            "0644"@,
        )
    }
}

/// The stack, pulled and brought up, or what is said instead.
pub open spec fn up_s(w: WorldV, vmid: u32, o: Options, services: bool, start: bool) -> (
    WorldV,
    Result<(), StopV>,
) {
    if start {
        match (if o.pull {
            stack::pull_s(w.note("docker: pull"@), vmid)
        } else {
            (w, Ok(()))
        }) {
            (w, Err(e)) => (w, Err(e)),
            (w, Ok(_)) => stack::up_s(w.note("docker: up"@), vmid),
        }
    } else if !services {
        (
            w.note(
                "docker: file written; no services in the document, nothing to start"@,
            ),
            Ok(()),
        )
    } else {
        (
            w.note(
                "docker: file written, stack not started; `pve-compose docker apply "@ + pct::vm(
                    vmid,
                ) + "` brings it up"@,
            ),
            Ok(()),
        )
    }
}

/// The facts of what was applied, written.
pub open spec fn facts_s(w: WorldV, vmid: u32, digest: Text) -> (WorldV, Result<(), StopV>) {
    match stack::read_facts_s(w, vmid) {
        (w, Err(e)) => (w, Err(e)),
        (w, Ok(f)) => stack::write_facts_s(w, vmid, stack::new_facts(digest, f, w.stamp)),
    }
}

/// What follows once docker is there and the directories are.
pub open spec fn land_s(w: WorldV, c: CtxV, g: GuestV, o: Options) -> (
    WorldV,
    Result<bool, StopV>,
) {
    let vmid = g.config.vmid;
    let services = has_services(g.read.doc.spec);
    match rendered(c, g) {
        Err(e) => (w, Err(StopV::Fail(e))),
        Ok(t) => match pct::read_file_s(w, vmid, COMPOSE_FILE@) {
            (w, Err(e)) => (w, Err(e)),
            (w, Ok(current)) => match start_s(w, vmid, o, services, current is Some) {
                (w, Err(e)) => (w, Err(e)),
                (w, Ok(start)) => match file_s(w, vmid, current, t) {
                    (w, Err(e)) => (w, Err(e)),
                    (w, Ok(_)) => match up_s(w, vmid, o, services, start) {
                        (w, Err(e)) => (w, Err(e)),
                        (w, Ok(_)) => match facts_s(w, vmid, g.read.digest) {
                            (w, Err(e)) => (w, Err(e)),
                            (w, Ok(_)) => (w, Ok(start)),
                        },
                    },
                },
            },
        },
    }
}

pub open spec fn docker_apply_guest_s(w: WorldV, c: CtxV, g: GuestV, o: Options) -> (
    WorldV,
    Result<bool, StopV>,
) {
    match provision::ensure_docker_s(w, g.config.vmid) {
        (w, Err(e)) => (w, Err(e)),
        (w, Ok(_)) => match stack::ensure_layout_s(
            w,
            g.config.vmid,
            owners_of(g.volumes, ops::owner_of(g, c)),
        ) {
            (w, Err(e)) => (w, Err(e)),
            (w, Ok(_)) => land_s(w, c, g, o),
        },
    }
}

/// The outcome of the docker half, without whether it started the stack.
pub open spec fn quietly(x: (WorldV, Result<bool, StopV>)) -> (WorldV, Result<(), StopV>) {
    match x {
        (w, Ok(_)) => (w, Ok(())),
        (w, Err(e)) => (w, Err(e)),
    }
}

pub open spec fn docker_apply_locked_s(w: WorldV, c: CtxV, vmid: u32, o: Options) -> (
    WorldV,
    Result<(), StopV>,
) {
    match loaded_s(w, c, vmid) {
        (w, Err(e)) => (w, Err(e)),
        (w, Ok(g)) => quietly(docker_apply_guest_s(w, c, g, o)),
    }
}

pub open spec fn docker_apply_s(w: WorldV, c: CtxV, vmid: u32, o: Options) -> (
    WorldV,
    Result<(), StopV>,
) {
    match lock::take_s(w, vmid, LOCK_WAIT) {
        (w, Err(e)) => (w, Err(e)),
        (w, Ok(_)) => lock::released(docker_apply_locked_s(w, c, vmid, o), vmid),
    }
}

/// The docker half, under the guest's lock.
pub fn docker_apply(w: &mut World, ctx: &Ctx, vmid: u32, o: Options) -> (r: Result<(), Stop>)
    ensures
        (final(w)@, world::res(r)) == docker_apply_s(old(w)@, ctx@, vmid, o),
{
    let lock = match GuestLock::take(w, vmid, LOCK_WAIT) {
        Ok(l) => l,
        Err(e) => return Err(e),
    };
    let r = match running(w, ctx, vmid) {
        Ok(g) => match docker_apply_guest(w, ctx, &g, o) {
            Ok(_) => Ok(()),
            Err(e) => Err(e),
        },
        Err(e) => Err(e),
    };
    lock.finish(w, r)
}

fn owners(v: &Vec<Volume>, default: &str) -> (r: Vec<(String, String)>)
    ensures
        stack::pairs(r@) == owners_of(text::views(v@), default@),
{
    let mut out: Vec<(String, String)> = Vec::new();
    let ghost all = owners_of(text::views(v@), default@);
    assert(stack::pairs(out@) =~= all.take(0));
    for i in 0..v.len()
        invariant
            all == owners_of(text::views(v@), default@),
            stack::pairs(out@) == all.take(i as int),
    {
        let x = &v[i];
        let o = match &x.owner {
            Some(o) => o.clone(),
            None => default.to_owned(),
        };
        let ghost before = out@;
        assert(text::views(v@)[i as int] == x@);
        out.push((x.dir(), o));
        assert(all.take(i + 1) =~= all.take(i as int).push(all[i as int]));
        assert(stack::pairs(out@) =~= stack::pairs(before).push(all[i as int]));
    }
    assert(all.take(all.len() as int) =~= all);
    out
}

/// Whether the document has a service.
fn any_service(spec: &Yaml) -> (r: bool)
    ensures
        r == has_services(spec@),
{
    match spec.get("services") {
        None => false,
        Some(s) => match s.as_map() {
            None => false,
            Some(m) => {
                assert(yaml::entries(m@).len() == m@.len());
                m.len() > 0
            },
        },
    }
}

/// Whether the stack is to be brought up. Decided before the file is
/// rewritten, since `ps` reads the file.
fn to_start(w: &mut World, vmid: u32, o: Options, services: bool, present: bool) -> (r: Result<
    bool,
    Stop,
>)
    ensures
        (final(w)@, world::res(r)) == start_s(old(w)@, vmid, o, services, present),
{
    if o.no_up || !services {
        Ok(false)
    } else if o.only_if_up {
        if !present {
            Ok(false)
        } else {
            match stack::ps(w, vmid) {
                Ok(l) => Ok(stack::is_up(&l)),
                Err(e) => Err(e),
            }
        }
    } else {
        Ok(true)
    }
}

fn put_file(w: &mut World, vmid: u32, current: &Option<String>, t: &str) -> (r: Result<(), Stop>)
    ensures
        (final(w)@, world::res(r)) == file_s(old(w)@, vmid, text::opt(*current), t@),
{
    let same = match current {
        Some(c) => text::same(c.as_str(), t),
        None => false,
    };
    if same {
        Ok(())
    } else {
        w.note(text::cat("docker: writing ", COMPOSE_FILE));
        stack::write_compose(w, vmid, t)
    }
}

fn bring_up(w: &mut World, vmid: u32, o: Options, services: bool, start: bool) -> (r: Result<
    (),
    Stop,
>)
    ensures
        (final(w)@, world::res(r)) == up_s(old(w)@, vmid, o, services, start),
{
    if start {
        if o.pull {
            w.note("docker: pull".to_owned());
            match stack::pull(w, vmid) {
                Ok(_) => {},
                Err(e) => return Err(e),
            }
        }
        w.note("docker: up".to_owned());
        stack::up(w, vmid)
    } else if !services {
        w.note(
            "docker: file written; no services in the document, nothing to start".to_owned(),
        );
        Ok(())
    } else {
        w.note(
            text::cat3(
                "docker: file written, stack not started; `pve-compose docker apply ",
                num::print(vmid as u64).as_str(),
                "` brings it up",
            ),
        );
        Ok(())
    }
}

fn record(w: &mut World, vmid: u32, digest: &str) -> (r: Result<(), Stop>)
    ensures
        (final(w)@, world::res(r)) == facts_s(old(w)@, vmid, digest@),
{
    match stack::read_facts(w, vmid) {
        Ok(previous) => {
            let f = stack::facts_now(w, digest, previous);
            stack::write_facts(w, vmid, &f)
        },
        Err(e) => Err(e),
    }
}

/// The docker half for a loaded guest whose lock the caller holds. The
/// config must be current: after a pct half, refresh it. Returns whether
/// the stack was brought up.
pub fn docker_apply_guest(w: &mut World, ctx: &Ctx, g: &Guest, o: Options) -> (r: Result<
    bool,
    Stop,
>)
    ensures
        (final(w)@, world::res(r)) == docker_apply_guest_s(old(w)@, ctx@, g@, o),
{
    let vmid = g.vmid();
    match provision::ensure_docker(w, vmid) {
        Ok(_) => {},
        Err(e) => return Err(e),
    }
    let owners = owners(&g.volumes, g.owner(ctx).as_str());
    match stack::ensure_layout(w, vmid, &owners) {
        Ok(_) => {},
        Err(e) => return Err(e),
    }
    let t = match render(ctx, g) {
        Ok(t) => t,
        Err(e) => return Err(Stop::Fail(e)),
    };
    let current = match stack::read_compose(w, vmid) {
        Ok(c) => c,
        Err(e) => return Err(e),
    };
    let services = any_service(&g.read.doc.spec);
    let start = match to_start(w, vmid, o, services, current.is_some()) {
        Ok(s) => s,
        Err(e) => return Err(e),
    };
    match put_file(w, vmid, &current, t.as_str()) {
        Ok(_) => {},
        Err(e) => return Err(e),
    }
    match bring_up(w, vmid, o, services, start) {
        Ok(_) => {},
        Err(e) => return Err(e),
    }
    match record(w, vmid, g.read.digest.as_str()) {
        Ok(_) => Ok(start),
        Err(e) => Err(e),
    }
}

// ---------------------------------------------------------------------------
// Both halves.

/// The guest that the docker half sees: its config is read again after a pct
/// half that changed something.
pub open spec fn refreshed_s(w: WorldV, c: CtxV, g: GuestV, changed: usize) -> (
    WorldV,
    Result<GuestV, StopV>,
) {
    if changed > 0 {
        ops::refresh_config_s(w, c, g)
    } else {
        (w, Ok(g))
    }
}

pub open spec fn apply_locked_s(w: WorldV, c: CtxV, vmid: u32, o: Options) -> (
    WorldV,
    Result<(), StopV>,
) {
    match loaded_s(w, c, vmid) {
        (w, Err(e)) => (w, Err(e)),
        (w, Ok(g)) => match pct_apply_guest_s(w, c, g) {
            (w, Err(e)) => (w, Err(e)),
            (w, Ok(n)) => match refreshed_s(w, c, g, n) {
                (w, Err(e)) => (w, Err(e)),
                (w, Ok(g)) => quietly(docker_apply_guest_s(w, c, g, o)),
            },
        },
    }
}

pub open spec fn apply_s(w: WorldV, c: CtxV, vmid: u32, o: Options) -> (
    WorldV,
    Result<(), StopV>,
) {
    match lock::take_s(w, vmid, LOCK_WAIT) {
        (w, Err(e)) => (w, Err(e)),
        (w, Ok(_)) => lock::released(apply_locked_s(w, c, vmid, o), vmid),
    }
}

/// Both halves, pct first, under one lock.
pub fn apply(w: &mut World, ctx: &Ctx, vmid: u32, o: Options) -> (r: Result<(), Stop>)
    ensures
        (final(w)@, world::res(r)) == apply_s(old(w)@, ctx@, vmid, o),
{
    let lock = match GuestLock::take(w, vmid, LOCK_WAIT) {
        Ok(l) => l,
        Err(e) => return Err(e),
    };
    let r = apply_locked(w, ctx, vmid, o);
    lock.finish(w, r)
}

/// The guest with its config read again, where something changed.
pub fn refreshed(w: &mut World, ctx: &Ctx, g: Guest, changed: usize) -> (r: Result<Guest, Stop>)
    ensures
        (final(w)@, world::res(r)) == refreshed_s(old(w)@, ctx@, g@, changed),
{
    if changed > 0 {
        ops::refresh_config(w, ctx, g)
    } else {
        Ok(g)
    }
}

/// [`apply`] for a caller that already holds the guest's lock. The config is
/// read again after a pct half that changed something: the docker half must
/// see the mounts it created.
pub fn apply_locked(w: &mut World, ctx: &Ctx, vmid: u32, o: Options) -> (r: Result<(), Stop>)
    ensures
        (final(w)@, world::res(r)) == apply_locked_s(old(w)@, ctx@, vmid, o),
{
    let g = match running(w, ctx, vmid) {
        Ok(g) => g,
        Err(e) => return Err(e),
    };
    let changed = match pct_apply_guest(w, ctx, &g) {
        Ok(n) => n,
        Err(e) => return Err(e),
    };
    let g = match refreshed(w, ctx, g, changed) {
        Ok(g) => g,
        Err(e) => return Err(e),
    };
    match docker_apply_guest(w, ctx, &g, o) {
        Ok(_) => Ok(()),
        Err(e) => Err(e),
    }
}

// ---------------------------------------------------------------------------
// What holds of it.

/// A plan that changes the features ends the pct half with a failure,
/// whatever the replies, so that nothing of the docker half follows.
pub proof fn law_features_stop_apply(w: WorldV, c: CtxV, g: GuestV)
    requires
        planned(c, g) matches Ok(p) && changes_features(p.ops),
    ensures
        pct_apply_guest_s(w, c, g).1 is Err,
{
}

/// The docker half follows the pct half: where that fails or still waits,
/// so does the whole.
pub proof fn law_pct_half_comes_first(w: WorldV, c: CtxV, vmid: u32, o: Options)
    requires
        loaded_s(w, c, vmid).1 is Ok,
        pct_apply_guest_s(loaded_s(w, c, vmid).0, c, loaded_s(w, c, vmid).1->Ok_0).1 is Err,
    ensures
        ({
            let (v, r) = pct_apply_guest_s(
                loaded_s(w, c, vmid).0,
                c,
                loaded_s(w, c, vmid).1->Ok_0,
            );
            apply_locked_s(w, c, vmid, o) == (v, Err::<(), StopV>(r->Err_0))
        }),
{
}

/// A guest that is not running is refused before anything else is asked of
/// it, by either half and by both.
pub proof fn law_stopped_is_refused(w: WorldV, c: CtxV, vmid: u32, o: Options)
    requires
        pct::status_s(w, c.node, vmid).1 matches Ok(s) && s != pct::Status::Running,
    ensures
        apply_locked_s(w, c, vmid, o) == (
            pct::status_s(w, c.node, vmid).0,
            Err::<(), StopV>(ops::require_running_s(w, c, vmid).1->Err_0),
        ),
        ops::require_running_s(w, c, vmid).1 matches Err(StopV::Fail(_)),
        docker_apply_locked_s(w, c, vmid, o) == apply_locked_s(w, c, vmid, o),
        pct_apply_locked_s(w, c, vmid).0 == apply_locked_s(w, c, vmid, o).0,
        pct_apply_locked_s(w, c, vmid).1 is Err,
{
}

/// Whether an action is `compose up` in a guest.
pub open spec fn is_up_act(a: ActV, vmid: u32) -> bool {
    a == ActV::Run(
        pct::exec_call(vmid, stack::up_script()).streamed(Some(cmd::LONG_TIMEOUT)),
    )
}

/// Whether an action is `compose pull` in a guest.
pub open spec fn is_pull_act(a: ActV, vmid: u32) -> bool {
    a == ActV::Run(
        pct::exec_call(vmid, stack::pull_script()).streamed(Some(cmd::LONG_TIMEOUT)),
    )
}

/// Whether some reply lists a container that runs.
pub open spec fn shown_running(replies: Seq<ReplyV>) -> bool {
    exists|i: int|
        0 <= i < replies.len() && ((#[trigger] replies[i]).result matches Ok(o) && (stack::ps_of(
            o.stdout,
        ) matches Ok(l) && stack::any_running(l)))
}

/// Whether a verb that waits for an action waits for none that is shown on
/// the terminal while it runs.
pub open spec fn waits_quietly<T>(r: Result<T, StopV>) -> bool {
    r matches Err(StopV::Act(ActV::Run(c))) ==> c.shape == Shape::Capture
}

/// The commands of a write have their output captured.
pub proof fn lemma_write_is_quiet(w: WorldV, vmid: u32, path: Text, t: Text, perms: Text)
    ensures
        waits_quietly(pct::write_file_s(w, vmid, path, t, perms).1),
        pct::write_file_s(w, vmid, path, t, perms).0.replies == w.replies,
{
}

proof fn lemma_facts_are_quiet(w: WorldV, vmid: u32, digest: Text)
    ensures
        waits_quietly(facts_s(w, vmid, digest).1),
{
    match stack::read_facts_s(w, vmid) {
        (v, Ok(f)) => {
            match yaml::yaml_text(stack::facts_tree(stack::new_facts(digest, f, v.stamp))) {
                Ok(t) => {
                    lemma_write_is_quiet(v, vmid, stack::FACTS_FILE@, t, "0644"@);
                },
                Err(_) => {},
            }
        },
        _ => {},
    }
}

proof fn lemma_provision_starts_nothing(w: WorldV, vmid: u32, v: u32)
    ensures
        provision::ensure_docker_s(w, vmid).1 matches Err(StopV::Act(a)) ==> !is_up_act(a, v)
            && !is_pull_act(a, v),
        provision::ensure_docker_s(w, vmid).0.replies == w.replies,
{
    let script = provision::SCRIPT@;
    let a = pct::exec_call(vmid, script);
    let up = pct::exec_call(v, stack::up_script());
    let pull = pct::exec_call(v, stack::pull_script());
    reveal_strlit(
        "set -e\nexport LC_ALL=C.UTF-8 LANG=C.UTF-8\nif docker info >/dev/null 2>&1; then echo \"docker: present\"; exit 0; fi\nif ! command -v apt-get >/dev/null 2>&1; then echo \"not a Debian-family guest\" >&2; exit 4; fi\necho \"docker: installing from get.docker.com\"\nexport DEBIAN_FRONTEND=noninteractive\napt-get update -qq\napt-get install -y -qq curl ca-certificates >/dev/null\ncurl -fsSL https://get.docker.com | sh\nsystemctl enable --now docker >/dev/null 2>&1 || true\ndocker info >/dev/null 2>&1\necho \"docker: smoke test\"\ndocker run --rm hello-world >/dev/null\ndocker image rm hello-world >/dev/null 2>&1 || true\n",
    );
    reveal_strlit("cd ");
    assert(script[0] == 's');
    assert(stack::up_script()[0] == "cd "@[0]);
    assert(stack::pull_script()[0] == "cd "@[0]);
    assert(a.args.last() == script);
    assert(up.args.last() == stack::up_script());
    assert(pull.args.last() == stack::pull_script());
}

/// `compose up` and `compose pull` are run only where the document has a
/// service and `no_up` was not asked for; a pull only where it was asked for;
/// and where only a stack that is up is to be touched, only after the guest
/// listed a container that runs.
pub proof fn law_what_starts_a_stack(
    w: WorldV,
    c: CtxV,
    g: GuestV,
    o: Options,
    a: ActV,
    v: u32,
)
    requires
        docker_apply_guest_s(w, c, g, o).1 == Err::<bool, StopV>(StopV::Act(a)),
        is_up_act(a, v) || is_pull_act(a, v),
    ensures
        !o.no_up,
        has_services(g.read.doc.spec),
        is_pull_act(a, v) ==> o.pull,
        o.only_if_up ==> shown_running(w.replies),
{
    let vmid = g.config.vmid;
    let services = has_services(g.read.doc.spec);
    reveal_strlit("pull");
    reveal_strlit("up -d --remove-orphans");
    assert(stack::up_script().len() != stack::pull_script().len());
    assert(pct::exec_call(vmid, stack::up_script()).args.last() == stack::up_script());
    assert(pct::exec_call(v, stack::pull_script()).args.last() == stack::pull_script());
    lemma_provision_starts_nothing(w, vmid, v);
    let (w1, r1) = provision::ensure_docker_s(w, vmid);
    assert(r1 is Ok);
    let owners = owners_of(g.volumes, ops::owner_of(g, c));
    let (w2, r2) = stack::ensure_layout_s(w1, vmid, owners);
    assert(waits_quietly(r2));
    assert(r2 is Ok);
    assert(w2.replies == w.replies);
    let t = rendered(c, g)->Ok_0;
    let (w3, r3) = pct::read_file_s(w2, vmid, COMPOSE_FILE@);
    assert(waits_quietly(r3));
    assert(r3 is Ok);
    assert(w3.replies == w.replies);
    let current = r3->Ok_0;
    let (w4, r4) = start_s(w3, vmid, o, services, current is Some);
    assert(waits_quietly(r4));
    assert(r4 is Ok);
    let (w5, r5) = file_s(w4, vmid, current, t);
    lemma_write_is_quiet(
        w4.note("docker: writing "@ + COMPOSE_FILE@),
        vmid,
        COMPOSE_FILE@,
        t,
        "0644"@,
    );
    assert(waits_quietly(r5));
    assert(r5 is Ok);
    let (w6, r6) = up_s(w5, vmid, o, services, r4->Ok_0);
    if r6 is Ok {
        lemma_facts_are_quiet(w6, vmid, g.read.digest);
        assert(false);
    }
    assert(r4->Ok_0);
    if o.only_if_up {
        let l = stack::ps_s(w3, vmid).1;
        assert(l is Ok && stack::any_running(l->Ok_0));
        assert(w3.replies[w3.pos as int].result is Ok);
    }
}

proof fn lemma_ops_are_quiet(w: WorldV, g: GuestConfigV, l: Seq<OpV>, next: nat)
    ensures
        waits_quietly(plan::ops_s(w, g, l, next).1),
    decreases l.len(),
{
    if l.len() > 0 {
        match plan::op_s(w.note("  "@ + plan::op_shown(l[0])), g, l[0], next) {
            (v, Ok(_)) => {
                lemma_ops_are_quiet(
                    v,
                    g,
                    l.skip(1),
                    if plan::creates(l[0]) {
                        plan::unused_from(g.mounts, next) + 1
                    } else {
                        next
                    },
                );
            },
            _ => {},
        }
    }
}

/// The commands of the pct half have their output captured.
pub proof fn lemma_pct_is_quiet(w: WorldV, c: CtxV, g: GuestV)
    ensures
        waits_quietly(pct_apply_guest_s(w, c, g).1),
{
    match planned(c, g) {
        Ok(plan) => {
            lemma_ops_are_quiet(
                noted(w, plan.notes).note(
                    "pct: applying "@ + num::dec(plan.ops.len()) + " change(s) to "@ + pct::vm(
                        g.config.vmid,
                    ),
                ),
                g.config,
                plan.ops,
                pct::free_from(g.config.mounts, 0),
            );
        },
        _ => {},
    }
}

/// An `apply` with `no_up` brings nothing up and pulls nothing.
pub proof fn law_no_up_starts_nothing(
    w: WorldV,
    c: CtxV,
    vmid: u32,
    o: Options,
    a: ActV,
    v: u32,
)
    requires
        o.no_up,
        apply_locked_s(w, c, vmid, o).1 == Err::<(), StopV>(StopV::Act(a)),
    ensures
        !is_up_act(a, v),
        !is_pull_act(a, v),
{
    if is_up_act(a, v) || is_pull_act(a, v) {
        let (w1, r1) = loaded_s(w, c, vmid);
        assert(waits_quietly(r1));
        let g = r1->Ok_0;
        lemma_pct_is_quiet(w1, c, g);
        let (w2, r2) = pct_apply_guest_s(w1, c, g);
        let (w3, r3) = refreshed_s(w2, c, g, r2->Ok_0);
        assert(waits_quietly(r3));
        law_what_starts_a_stack(w3, c, r3->Ok_0, o, a, v);
    }
}

/// Nothing from a document reaches a shell with a meaning there: of a guest
/// whose document was read and whose default owner is an owner, every
/// directory and every owner in the script that makes the volumes is made of
/// characters that no shell reads.
pub proof fn law_document_words_are_inert(
    w: WorldV,
    c: CtxV,
    vmid: u32,
    t: Text,
    g: GuestV,
    i: int,
)
    requires
        doc::read_of(vmid, t) matches Ok(read) && ops::load_with_s(w, c, read).1 == Ok::<
            GuestV,
            StopV,
        >(g),
        spec::owner_ok(c.config.defaults.owner),
        0 <= i < g.volumes.len(),
    ensures
        stack::all_inert(owners_of(g.volumes, ops::owner_of(g, c))[i].0),
        stack::all_inert(owners_of(g.volumes, ops::owner_of(g, c))[i].1),
{
    let read = doc::read_of(vmid, t)->Ok_0;
    doc::law_parsed_is_safe(t);
    let l = ops::limits_of(c);
    spec::law_volumes_are_allowed(read.doc.spec, l);
    let v = g.volumes[i];
    assert(spec::allowed(v, l));
    reveal_strlit("-_./:=@,");
    let marks = "-_./:=@,"@;
    assert(marks[0] == '-' && marks[1] == '_' && marks[2] == '.' && marks[3] == '/' && marks[4]
        == ':');
    assert(marks.contains('-') && marks.contains('_') && marks.contains('.') && marks.contains('/')
        && marks.contains(':'));
    let dir = spec::dir_of(v.name);
    reveal_strlit("/opt/stack/volumes");
    reveal_strlit("/");
    assert forall|j: int| 0 <= j < dir.len() implies stack::inert(#[trigger] dir[j]) by {
        let base = crate::VOLUMES_DIR@ + "/"@;
        if j < base.len() {
            assert(dir[j] == base[j]);
        } else {
            assert(dir[j] == v.name[j - base.len()]);
            assert(spec::name_char(v.name[j - base.len()]));
        }
    }
    let default = ops::owner_of(g, c);
    let o = match v.owner {
        Some(o) => o,
        None => default,
    };
    assert(spec::owner_ok(o));
    spec::law_owner_is_inert(o);
    assert forall|j: int| 0 <= j < o.len() implies stack::inert(#[trigger] o[j]) by {
        assert(text::is_digit(o[j]) || o[j] == ':');
    }
    text::lemma_first(o, ':');
    assert(o.len() > 0);
}

} // verus!
