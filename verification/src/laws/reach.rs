//! What a verb touches.

use vstd::prelude::*;

use crate::cmd;
use crate::doc::{self, ReadV};
use crate::json::{self, JsonV};
use crate::laws::guest::{lemma_exec, lemma_status, lemma_stream};
use crate::laws::wrapper::{self, command, mount_key};
use crate::laws::{self, further, lemma_further, settled};
use crate::lock;
use crate::num;
use crate::ops::apply::{self, Options};
use crate::ops::{self, CtxV, GuestV, provision};
use crate::pct::{self, GuestConfigV};
use crate::plan::OpV;
use crate::stack;
use crate::text::Text;
use crate::world::{ActV, CallV, StopV, WorldV};
use crate::yaml;

verus! {

/// What may be asked for.
pub struct May {
    /// Commands inside the guest, and copies on the node of files for it.
    pub inside: bool,
    /// Changes of the guest's container.
    pub set: bool,
    /// Reads from PVE and of documents.
    pub look: bool,
    /// The guest's lock.
    pub lock: bool,
}

/// Whether a command is one of `pct` on a guest, under a deadline.
pub open spec fn on_guest(c: CallV, vmid: u32) -> bool {
    &&& c.program == "pct"@
    &&& c.args.len() >= 2
    &&& c.args[1] == num::dec(vmid as nat)
    &&& c.within == Some(120u64) || c.within == Some(1800u64)
}

/// Whether an action is among those that may be asked for, on one guest.
pub open spec fn may(m: May, vmid: u32, a: ActV) -> bool {
    match a {
        ActV::Run(c) => {
            ||| m.inside && on_guest(c, vmid) && (c.args[0] == "exec"@ || c.args[0] == "push"@)
            ||| m.set && on_guest(c, vmid) && (c.args[0] == "set"@ || c.args[0] == "resize"@)
            ||| m.look && (c.program == "pvesh"@ || c.program == "pve-meta"@) && c.args.len() > 0
                && c.args[0] == "get"@ && c.within == Some(120u64)
        },
        ActV::Temp { .. } => m.inside,
        ActV::Remove { .. } => m.inside,
        ActV::Lock { vmid: n, .. } => m.lock && n == vmid,
        ActV::Unlock { vmid: n } => m.lock && n == vmid,
        _ => false,
    }
}

/// Whether all that was asked for on the way is among what may be.
pub open spec fn only<T>(m: May, vmid: u32, w: WorldV, v: WorldV, r: Result<T, StopV>) -> bool {
    &&& further(w, v, r)
    &&& forall|i: int| w.asked.len() <= i < v.asked.len() ==> may(m, vmid, #[trigger] v.asked[i])
}

/// Whether what may be asked for is among what else may be.
pub open spec fn under(m: May, n: May) -> bool {
    (m.inside ==> n.inside) && (m.set ==> n.set) && (m.look ==> n.look) && (m.lock ==> n.lock)
}

pub proof fn lemma_only<A, B>(
    m: May,
    n: May,
    vmid: u32,
    w: WorldV,
    u: WorldV,
    a: Result<A, StopV>,
    v: WorldV,
    b: Result<B, StopV>,
)
    requires
        only(m, vmid, w, u, a),
        !(a matches Err(StopV::Act(_))),
        only(n, vmid, u, v, b),
    ensures
        forall|x: May| under(m, x) && under(n, x) ==> #[trigger] only(x, vmid, w, v, b),
{
    lemma_further(w, u, a, v, b);
    assert forall|x: May| under(m, x) && under(n, x) implies #[trigger] only(x, vmid, w, v, b) by {
        assert forall|i: int| w.asked.len() <= i < v.asked.len() implies may(
            x,
            vmid,
            #[trigger] v.asked[i],
        ) by {
            if i < u.asked.len() {
                assert(v.asked[i] == u.asked[i]);
            }
        }
    }
}

pub proof fn lemma_wider<A>(m: May, n: May, vmid: u32, w: WorldV, v: WorldV, a: Result<A, StopV>)
    requires
        only(m, vmid, w, v, a),
        under(m, n),
    ensures
        only(n, vmid, w, v, a),
{
}

pub open spec fn inside() -> May {
    May { inside: true, set: false, look: false, lock: false }
}

pub open spec fn setting() -> May {
    May { inside: false, set: true, look: false, lock: false }
}

pub open spec fn looking() -> May {
    May { inside: false, set: false, look: true, lock: false }
}

// ---------------------------------------------------------------------------
// Inside the guest.

pub proof fn lemma_write(w: WorldV, vmid: u32, path: Text, t: Text, perms: Text)
    requires
        settled(w),
    ensures
        only(
            inside(),
            vmid,
            w,
            pct::write_file_s(w, vmid, path, t, perms).0,
            pct::write_file_s(w, vmid, path, t, perms).1,
        ),
{
    let mkdir = "mkdir -p '"@ + pct::parent_of(path) + "'"@;
    lemma_exec(w, vmid, mkdir);
    let (w1, r1) = pct::exec_s(w, vmid, mkdir);
    let (v, r) = pct::write_file_s(w, vmid, path, t, perms);
    assert(only(inside(), vmid, w, w1, r1));
    if r1 is Ok {
        let a = ActV::Temp { name: "pve-compose-push-"@ + pct::vm(vmid), text: t };
        let (w2, r2) = w1.act(a);
        assert(only(inside(), vmid, w1, w2, r2));
        lemma_only(inside(), inside(), vmid, w, w1, r1, w2, r2);
        if r2 is Ok {
            let o = r2->Ok_0;
            lemma_place(w2, vmid, o.stdout, path, perms);
            let (w3, r3) = pct::place_s(w2, vmid, o.stdout, path, perms);
            lemma_only(inside(), inside(), vmid, w, w2, r2, w3, r3);
            if !(r3 matches Err(StopV::Act(_))) {
                let (w4, r4) = w3.act(ActV::Remove { path: o.stdout });
                assert(only(inside(), vmid, w3, w4, r4));
                lemma_only(inside(), inside(), vmid, w, w3, r3, w4, r4);
                assert(v == w4);
                assert(only(inside(), vmid, w, w4, r4));
            }
        }
    }
}

proof fn lemma_place(w: WorldV, vmid: u32, from: Text, path: Text, perms: Text)
    requires
        settled(w),
    ensures
        only(
            inside(),
            vmid,
            w,
            pct::place_s(w, vmid, from, path, perms).0,
            pct::place_s(w, vmid, from, path, perms).1,
        ),
{
    let c = pct::push_call(vmid, from, path, perms);
    assert(c.args[0] == "push"@ && c.args[1] == num::dec(vmid as nat));
    let (w1, r1) = cmd::run_s(w, c);
    assert(only(inside(), vmid, w, w1, r1));
    if r1 is Ok {
        let mv = "mv -f '"@ + pct::sibling_of(path) + "' '"@ + path + "'"@;
        lemma_exec(w1, vmid, mv);
        let (w2, r2) = pct::exec_s(w1, vmid, mv);
        assert(only(inside(), vmid, w1, w2, r2));
        lemma_only(inside(), inside(), vmid, w, w1, r1, w2, r2);
    }
}

proof fn lemma_install(w: WorldV, vmid: u32)
    requires
        settled(w),
    ensures
        only(
            inside(),
            vmid,
            w,
            provision::ensure_docker_s(w, vmid).0,
            provision::ensure_docker_s(w, vmid).1,
        ),
{
    let probe = "docker info >/dev/null 2>&1"@;
    lemma_status(w, vmid, probe);
    let (w1, r1) = pct::exec_status_s(w, vmid, probe);
    assert(only(inside(), vmid, w, w1, r1));
    if r1 is Ok && r1->Ok_0.status != 0 {
        lemma_stream(w1, vmid, provision::SCRIPT@);
        let (w2, r2) = pct::exec_stream_s(w1, vmid, provision::SCRIPT@, Some(1800));
        assert(only(inside(), vmid, w1, w2, r2));
        lemma_only(inside(), inside(), vmid, w, w1, r1, w2, r2);
        assert(only(inside(), vmid, w, w2, r2));
    }
}

pub proof fn lemma_read_facts(w: WorldV, vmid: u32)
    requires
        settled(w),
    ensures
        only(
            inside(),
            vmid,
            w,
            stack::read_facts_s(w, vmid).0,
            stack::read_facts_s(w, vmid).1,
        ),
{
    lemma_status(w, vmid, pct::cat_script(stack::FACTS_FILE@));
}

proof fn lemma_facts(w: WorldV, vmid: u32, digest: Text)
    requires
        settled(w),
    ensures
        only(
            inside(),
            vmid,
            w,
            apply::facts_s(w, vmid, digest).0,
            apply::facts_s(w, vmid, digest).1,
        ),
{
    lemma_read_facts(w, vmid);
    let (w1, r1) = stack::read_facts_s(w, vmid);
    if r1 is Ok {
        let f = stack::new_facts(digest, r1->Ok_0, w1.stamp);
        if yaml::yaml_text(stack::facts_tree(f)) is Ok {
            let t = yaml::yaml_text(stack::facts_tree(f))->Ok_0;
            lemma_write(w1, vmid, stack::FACTS_FILE@, t, "0644"@);
            let (w2, r2) = pct::write_file_s(w1, vmid, stack::FACTS_FILE@, t, "0644"@);
            lemma_only(inside(), inside(), vmid, w, w1, r1, w2, r2);
        }
    }
}

proof fn lemma_up(w: WorldV, vmid: u32, o: Options, services: bool, start: bool)
    requires
        settled(w),
    ensures
        only(
            inside(),
            vmid,
            w,
            apply::up_s(w, vmid, o, services, start).0,
            apply::up_s(w, vmid, o, services, start).1,
        ),
{
    if start {
        if o.pull {
            let u = w.note("docker: pull"@);
            lemma_stream(u, vmid, stack::pull_script());
            let (w1, r1) = stack::pull_s(u, vmid);
            assert(only(inside(), vmid, w, w1, r1));
            if r1 is Ok {
                let u1 = w1.note("docker: up"@);
                lemma_stream(u1, vmid, stack::up_script());
                let (w2, r2) = stack::up_s(u1, vmid);
                assert(only(inside(), vmid, w1, w2, r2));
                lemma_only(inside(), inside(), vmid, w, w1, r1, w2, r2);
            }
        } else {
            lemma_stream(w.note("docker: up"@), vmid, stack::up_script());
        }
    }
}

proof fn lemma_start(w: WorldV, vmid: u32, o: Options, services: bool, present: bool)
    requires
        settled(w),
    ensures
        only(
            inside(),
            vmid,
            w,
            apply::start_s(w, vmid, o, services, present).0,
            apply::start_s(w, vmid, o, services, present).1,
        ),
{
    lemma_exec(w, vmid, stack::compose("ps -a --format json"@));
}

proof fn lemma_land(w: WorldV, c: CtxV, g: GuestV, o: Options)
    requires
        settled(w),
    ensures
        only(
            inside(),
            g.config.vmid,
            w,
            apply::land_s(w, c, g, o).0,
            apply::land_s(w, c, g, o).1,
        ),
{
    let vmid = g.config.vmid;
    let m = inside();
    let services = apply::has_services(g.read.doc.spec);
    if apply::rendered(c, g) is Ok {
        let t = apply::rendered(c, g)->Ok_0;
        lemma_status(w, vmid, pct::cat_script(stack::COMPOSE_FILE@));
        let (w1, r1) = pct::read_file_s(w, vmid, stack::COMPOSE_FILE@);
        assert(only(m, vmid, w, w1, r1));
        if r1 is Ok {
            let current = r1->Ok_0;
            lemma_start(w1, vmid, o, services, current is Some);
            let (w2, r2) = apply::start_s(w1, vmid, o, services, current is Some);
            lemma_only(m, m, vmid, w, w1, r1, w2, r2);
            assert(only(m, vmid, w, w2, r2));
            if r2 is Ok {
                let u = w2.note("docker: writing "@ + stack::COMPOSE_FILE@);
                lemma_write(u, vmid, stack::COMPOSE_FILE@, t, "0644"@);
                let (w3, r3) = apply::file_s(w2, vmid, current, t);
                assert(only(m, vmid, w2, w3, r3));
                lemma_only(m, m, vmid, w, w2, r2, w3, r3);
                assert(only(m, vmid, w, w3, r3));
                if r3 is Ok {
                    lemma_up(w3, vmid, o, services, r2->Ok_0);
                    let (w4, r4) = apply::up_s(w3, vmid, o, services, r2->Ok_0);
                    lemma_only(m, m, vmid, w, w3, r3, w4, r4);
                    assert(only(m, vmid, w, w4, r4));
                    if r4 is Ok {
                        lemma_facts(w4, vmid, g.read.digest);
                        let (w5, r5) = apply::facts_s(w4, vmid, g.read.digest);
                        lemma_only(m, m, vmid, w, w4, r4, w5, r5);
                        assert(only(m, vmid, w, w5, r5));
                    }
                }
            }
        }
    }
}

/// The docker half is done inside its guest: it runs commands there, pushes
/// files there, each under a deadline, and does nothing else.
pub proof fn law_the_docker_half_stays_inside(w: WorldV, c: CtxV, g: GuestV, o: Options)
    requires
        settled(w),
    ensures
        only(
            inside(),
            g.config.vmid,
            w,
            apply::docker_apply_guest_s(w, c, g, o).0,
            apply::docker_apply_guest_s(w, c, g, o).1,
        ),
{
    let vmid = g.config.vmid;
    let m = inside();
    lemma_install(w, vmid);
    let (w1, r1) = provision::ensure_docker_s(w, vmid);
    if r1 is Ok {
        let owners = apply::owners_of(g.volumes, ops::owner_of(g, c));
        lemma_exec(w1, vmid, stack::layout_script(owners));
        let (w2, r2) = stack::ensure_layout_s(w1, vmid, owners);
        assert(only(m, vmid, w1, w2, r2));
        lemma_only(m, m, vmid, w, w1, r1, w2, r2);
        assert(only(m, vmid, w, w2, r2));
        if r2 is Ok {
            lemma_land(w2, c, g, o);
            let (v, r) = apply::land_s(w2, c, g, o);
            lemma_only(m, m, vmid, w, w2, r2, v, r);
            assert(only(m, vmid, w, v, r));
        }
    }
}

// ---------------------------------------------------------------------------
// From the node.

proof fn lemma_ran(
    w: WorldV,
    v: WorldV,
    r: Result<(), StopV>,
    g: GuestConfigV,
    ops: Seq<OpV>,
    at: Seq<nat>,
)
    requires
        wrapper::ran(w, v, r, g, ops, at),
    ensures
        only(setting(), g.vmid, w, v, r),
{
    assert forall|i: int| w.asked.len() <= i < v.asked.len() implies may(
        setting(),
        g.vmid,
        #[trigger] v.asked[i],
    ) by {
        let j = i - w.asked.len();
        assert(v.asked[i] == command(g, ops[j], mount_key(at[j])));
        let c = command(g, ops[j], mount_key(at[j]))->Run_0;
        assert(c.args[1] == num::dec(g.vmid as nat));
        assert(c.args[0] == "set"@ || c.args[0] == "resize"@);
    }
}

/// The pct half sets options of its guest's container and resizes its disks,
/// each under a deadline, and does nothing else.
pub proof fn law_the_pct_half_only_sets(w: WorldV, c: CtxV, g: GuestV)
    requires
        settled(w),
    ensures
        only(
            setting(),
            g.config.vmid,
            w,
            apply::pct_apply_guest_s(w, c, g).0,
            apply::pct_apply_guest_s(w, c, g).1,
        ),
{
    let (v, r) = apply::pct_apply_guest_s(w, c, g);
    wrapper::law_the_pct_half_runs_the_plan(w, v, r, c, g);
    if wrapper::plan_for(c, g) is Ok {
        let p = wrapper::plan_for(c, g)->Ok_0;
        let (x, at) = choose|x: Result<(), StopV>, at: Seq<nat>|
            {
                &&& #[trigger] wrapper::ran(w, v, x, g.config, p.ops, at) && wrapper::apart(
                    g.config,
                    p.ops,
                    at,
                )
                &&& x is Ok && (forall|i: int|
                    0 <= i < p.ops.len() ==> !((#[trigger] p.ops[i]) is SetFeatures)) ==> r == Ok::<
                    usize,
                    StopV,
                >(p.ops.len() as usize)
                &&& x is Ok && (exists|i: int|
                    0 <= i < p.ops.len() && (#[trigger] p.ops[i]) is SetFeatures) ==> (r
                    matches Err(StopV::Fail(_)))
                &&& x matches Err(e) ==> r == Err::<usize, StopV>(e)
            };
        lemma_ran(w, v, x, g.config, p.ops, at);
        assert(further(w, v, r));
    } else {
        assert(v == w);
    }
}

pub proof fn lemma_pvesh(w: WorldV, path: Text, args: Seq<Text>, vmid: u32)
    requires
        settled(w),
    ensures
        only(
            looking(),
            vmid,
            w,
            cmd::pvesh_get_s(w, path, args).0,
            cmd::pvesh_get_s(w, path, args).1,
        ),
        cmd::pvesh_get_s(w, path, args).0.asked == w.asked.push(
            ActV::Run(cmd::pvesh(path, args).captured(120)),
        ),
{
    let c = cmd::pvesh(path, args);
    assert(c.args[0] == "get"@);
}

pub proof fn lemma_document(w: WorldV, n: u32, vmid: u32)
    requires
        settled(w),
    ensures
        only(looking(), vmid, w, doc::read_s(w, n).0, doc::read_s(w, n).1),
{
    let c = doc::get_call(n);
    assert(c.args[0] == "get"@);
}

proof fn lemma_members_vmid(c: GuestConfigV, m: Seq<(Text, JsonV)>)
    ensures
        pct::with_members(c, m) matches Ok(d) ==> d.vmid == c.vmid,
    decreases m.len(),
{
    if m.len() > 0 {
        lemma_members_vmid(c, m.drop_last());
    }
}

proof fn lemma_config_vmid(vmid: u32, v: JsonV)
    ensures
        pct::config_of(vmid, v) matches Ok(c) ==> c.vmid == vmid,
{
    if let JsonV::Dict(m, _) = v {
        lemma_members_vmid(pct::no_config(vmid), m);
    }
}

pub proof fn lemma_load_with(w: WorldV, c: CtxV, read: ReadV, vmid: u32)
    requires
        settled(w),
    ensures
        only(looking(), vmid, w, ops::load_with_s(w, c, read).0, ops::load_with_s(w, c, read).1),
        ops::load_with_s(w, c, read).1 matches Ok(g) ==> g.config.vmid == read.vmid && g.read
            == read,
{
    lemma_pvesh(w, pct::lxc_path(c.node, read.vmid, "/config"@), Seq::empty(), vmid);
    let (v, r) = pct::config_s(w, c.node, read.vmid);
    assert(only(looking(), vmid, w, v, r));
    if r is Ok {
        lemma_config_vmid(read.vmid, cmd::pvesh_get_s(
            w,
            pct::lxc_path(c.node, read.vmid, "/config"@),
            Seq::empty(),
        ).1->Ok_0);
    }
}

pub proof fn lemma_refresh(w: WorldV, c: CtxV, g: GuestV, vmid: u32)
    requires
        settled(w),
    ensures
        only(
            looking(),
            vmid,
            w,
            ops::refresh_config_s(w, c, g).0,
            ops::refresh_config_s(w, c, g).1,
        ),
        ops::refresh_config_s(w, c, g).1 matches Ok(h) ==> h.config.vmid == g.config.vmid && h.read
            == g.read && h.volumes == g.volumes,
{
    lemma_pvesh(w, pct::lxc_path(c.node, g.config.vmid, "/config"@), Seq::empty(), vmid);
    let (v, r) = pct::config_s(w, c.node, g.config.vmid);
    assert(only(looking(), vmid, w, v, r));
    if r is Ok {
        lemma_config_vmid(g.config.vmid, cmd::pvesh_get_s(
            w,
            pct::lxc_path(c.node, g.config.vmid, "/config"@),
            Seq::empty(),
        ).1->Ok_0);
    }
}

pub proof fn lemma_running(w: WorldV, c: CtxV, n: u32, vmid: u32)
    requires
        settled(w),
    ensures
        only(
            looking(),
            vmid,
            w,
            ops::require_running_s(w, c, n).0,
            ops::require_running_s(w, c, n).1,
        ),
{
    lemma_pvesh(w, pct::lxc_path(c.node, n, "/status/current"@), Seq::empty(), vmid);
    let (v, r) = pct::status_s(w, c.node, n);
    assert(only(looking(), vmid, w, v, r));
}

/// A running guest, loaded.
pub proof fn lemma_loaded(w: WorldV, c: CtxV, n: u32, vmid: u32)
    requires
        settled(w),
    ensures
        only(looking(), vmid, w, apply::loaded_s(w, c, n).0, apply::loaded_s(w, c, n).1),
        apply::loaded_s(w, c, n).1 matches Ok(g) ==> g.config.vmid == n,
{
    let m = looking();
    lemma_running(w, c, n, vmid);
    let (w1, r1) = ops::require_running_s(w, c, n);
    if r1 is Ok {
        lemma_document(w1, n, vmid);
        let (w2, r2) = doc::read_s(w1, n);
        lemma_only(m, m, vmid, w, w1, r1, w2, r2);
        assert(only(m, vmid, w, w2, r2));
        if r2 is Ok && r2->Ok_0 is Some {
            let read = r2->Ok_0->0;
            lemma_load_with(w2, c, read, vmid);
            let (w3, r3) = ops::load_with_s(w2, c, read);
            lemma_only(m, m, vmid, w, w2, r2, w3, r3);
            assert(only(m, vmid, w, w3, r3));
        }
    }
}

pub open spec fn applying() -> May {
    May { inside: true, set: true, look: true, lock: false }
}

pub open spec fn locking() -> May {
    May { inside: false, set: false, look: false, lock: true }
}

pub proof fn lemma_docker_locked(w: WorldV, c: CtxV, vmid: u32, o: Options)
    requires
        settled(w),
    ensures
        only(
            May { inside: true, set: false, look: true, lock: false },
            vmid,
            w,
            apply::docker_apply_locked_s(w, c, vmid, o).0,
            apply::docker_apply_locked_s(w, c, vmid, o).1,
        ),
{
    lemma_loaded(w, c, vmid, vmid);
    let (w1, r1) = apply::loaded_s(w, c, vmid);
    let m = May { inside: true, set: false, look: true, lock: false };
    lemma_wider(looking(), m, vmid, w, w1, r1);
    if r1 is Ok {
        let g = r1->Ok_0;
        law_the_docker_half_stays_inside(w1, c, g, o);
        let (w2, r2) = apply::docker_apply_guest_s(w1, c, g, o);
        lemma_only(looking(), inside(), vmid, w, w1, r1, w2, r2);
        assert(only(m, vmid, w, w2, r2));
    }
}

pub proof fn lemma_pct_locked(w: WorldV, c: CtxV, vmid: u32)
    requires
        settled(w),
    ensures
        only(
            May { inside: false, set: true, look: true, lock: false },
            vmid,
            w,
            apply::pct_apply_locked_s(w, c, vmid).0,
            apply::pct_apply_locked_s(w, c, vmid).1,
        ),
{
    lemma_loaded(w, c, vmid, vmid);
    let (w1, r1) = apply::loaded_s(w, c, vmid);
    let m = May { inside: false, set: true, look: true, lock: false };
    lemma_wider(looking(), m, vmid, w, w1, r1);
    if r1 is Ok {
        let g = r1->Ok_0;
        law_the_pct_half_only_sets(w1, c, g);
        let (w2, r2) = apply::pct_apply_guest_s(w1, c, g);
        lemma_only(looking(), setting(), vmid, w, w1, r1, w2, r2);
        assert(only(m, vmid, w, w2, r2));
    }
}

/// What comes before the docker half of an apply: the guest is loaded, its
/// plan is run, and its config is read again.
pub open spec fn before_docker_s(w: WorldV, c: CtxV, vmid: u32) -> (WorldV, Result<GuestV, StopV>) {
    match apply::loaded_s(w, c, vmid) {
        (w, Err(e)) => (w, Err(e)),
        (w, Ok(g)) => match apply::pct_apply_guest_s(w, c, g) {
            (w, Err(e)) => (w, Err(e)),
            (w, Ok(n)) => apply::refreshed_s(w, c, g, n),
        },
    }
}

pub proof fn lemma_before_docker(w: WorldV, c: CtxV, vmid: u32)
    requires
        settled(w),
    ensures
        only(
            May { inside: false, set: true, look: true, lock: false },
            vmid,
            w,
            before_docker_s(w, c, vmid).0,
            before_docker_s(w, c, vmid).1,
        ),
        before_docker_s(w, c, vmid).1 matches Ok(g) ==> g.config.vmid == vmid,
{
    let m = May { inside: false, set: true, look: true, lock: false };
    lemma_loaded(w, c, vmid, vmid);
    let (w1, r1) = apply::loaded_s(w, c, vmid);
    lemma_wider(looking(), m, vmid, w, w1, r1);
    if r1 is Ok {
        let g = r1->Ok_0;
        law_the_pct_half_only_sets(w1, c, g);
        let (w2, r2) = apply::pct_apply_guest_s(w1, c, g);
        lemma_only(looking(), setting(), vmid, w, w1, r1, w2, r2);
        assert(only(m, vmid, w, w2, r2));
        if r2 is Ok {
            lemma_refresh(w2, c, g, vmid);
            let (w3, r3) = apply::refreshed_s(w2, c, g, r2->Ok_0);
            assert(only(looking(), vmid, w2, w3, r3));
            lemma_only(m, looking(), vmid, w, w2, r2, w3, r3);
            assert(only(m, vmid, w, w3, r3));
        }
    }
}

pub proof fn lemma_apply_locked(w: WorldV, c: CtxV, vmid: u32, o: Options)
    requires
        settled(w),
    ensures
        only(
            applying(),
            vmid,
            w,
            apply::apply_locked_s(w, c, vmid, o).0,
            apply::apply_locked_s(w, c, vmid, o).1,
        ),
        ({
            let (u, x) = before_docker_s(w, c, vmid);
            apply::apply_locked_s(w, c, vmid, o) == match x {
                Err(e) => (u, Err(e)),
                Ok(g) => apply::quietly(apply::docker_apply_guest_s(u, c, g, o)),
            }
        }),
{
    let m = May { inside: false, set: true, look: true, lock: false };
    lemma_before_docker(w, c, vmid);
    let (u, x) = before_docker_s(w, c, vmid);
    lemma_wider(m, applying(), vmid, w, u, x);
    if x is Ok {
        let g = x->Ok_0;
        law_the_docker_half_stays_inside(u, c, g, o);
        let (v, r) = apply::docker_apply_guest_s(u, c, g, o);
        lemma_only(m, inside(), vmid, w, u, x, v, r);
        assert(only(applying(), vmid, w, v, r));
    }
}

/// A verb under the lock of its guest: the lock is asked for first, nothing is
/// done without it, and it is given back in the end.
pub open spec fn under_lock<T>(
    m: May,
    vmid: u32,
    w: WorldV,
    v: WorldV,
    r: Result<T, StopV>,
) -> bool {
    let i = w.asked.len() as int;
    &&& only(May { lock: true, ..m }, vmid, w, v, r)
    &&& v.asked[i] == (ActV::Lock { vmid, wait: 60 })
    &&& v.asked.len() > i + 1 ==> v.replies[i].result is Ok
    &&& !(r matches Err(StopV::Act(_))) && v.asked.len() > i + 1 ==> v.asked.last()
        == (ActV::Unlock { vmid })
    &&& forall|j: int| i < j < v.asked.len() - 1 ==> may(m, vmid, #[trigger] v.asked[j])
}

pub proof fn lemma_locked<T>(
    m: May,
    vmid: u32,
    w: WorldV,
    u: WorldV,
    x: Result<T, StopV>,
    v: WorldV,
    r: Result<T, StopV>,
)
    requires
        settled(w),
        !m.lock,
        ({
            let (w1, r1) = lock::take_s(w, vmid, 60);
            match r1 {
                Err(e) => v == w1 && r == Err::<T, StopV>(e),
                Ok(_) => only(m, vmid, w1, u, x) && (v, r) == lock::released((u, x), vmid),
            }
        }),
    ensures
        under_lock(m, vmid, w, v, r),
{
    let n = May { lock: true, ..m };
    let (w1, r1) = lock::take_s(w, vmid, 60);
    let i = w.asked.len() as int;
    assert(only(locking(), vmid, w, w1, r1));
    if r1 is Ok {
        lemma_only(locking(), m, vmid, w, w1, r1, u, x);
        assert(only(n, vmid, w, u, x));
        assert(u.asked[i] == w1.asked[i]);
        if !(x matches Err(StopV::Act(_))) {
            let (w2, r2) = lock::release_s(u, vmid);
            assert(only(locking(), vmid, u, w2, r2));
            lemma_only(n, locking(), vmid, w, u, x, w2, r2);
            assert(only(n, vmid, w, w2, r2));
            assert(v == w2);
            assert(v.asked[i] == u.asked[i]);
            assert forall|j: int| i < j < v.asked.len() - 1 implies may(
                m,
                vmid,
                #[trigger] v.asked[j],
            ) by {
                assert(v.asked[j] == u.asked[j]);
            }
        } else {
            assert(v == u);
        }
    } else {
        assert(only(n, vmid, w, v, r));
    }
}

/// `apply` holds the guest's lock, and touches that guest alone.
pub proof fn law_apply_touches_its_guest(w: WorldV, c: CtxV, vmid: u32, o: Options)
    requires
        settled(w),
    ensures
        under_lock(
            applying(),
            vmid,
            w,
            apply::apply_s(w, c, vmid, o).0,
            apply::apply_s(w, c, vmid, o).1,
        ),
{
    let (w1, r1) = lock::take_s(w, vmid, 60);
    let (v, r) = apply::apply_s(w, c, vmid, o);
    if r1 is Ok {
        lemma_apply_locked(w1, c, vmid, o);
        let (u, x) = apply::apply_locked_s(w1, c, vmid, o);
        lemma_locked(applying(), vmid, w, u, x, v, r);
    } else {
        lemma_locked(applying(), vmid, w, w1, r, v, r);
    }
}

/// `docker apply` holds the guest's lock, touches that guest alone, and
/// changes nothing of its container.
pub proof fn law_docker_apply_touches_its_guest(w: WorldV, c: CtxV, vmid: u32, o: Options)
    requires
        settled(w),
    ensures
        under_lock(
            May { inside: true, set: false, look: true, lock: false },
            vmid,
            w,
            apply::docker_apply_s(w, c, vmid, o).0,
            apply::docker_apply_s(w, c, vmid, o).1,
        ),
{
    let m = May { inside: true, set: false, look: true, lock: false };
    let (w1, r1) = lock::take_s(w, vmid, 60);
    let (v, r) = apply::docker_apply_s(w, c, vmid, o);
    if r1 is Ok {
        lemma_docker_locked(w1, c, vmid, o);
        let (u, x) = apply::docker_apply_locked_s(w1, c, vmid, o);
        lemma_locked(m, vmid, w, u, x, v, r);
    } else {
        lemma_locked(m, vmid, w, w1, r, v, r);
    }
}

/// `pct apply` holds the guest's lock, touches that guest's container alone,
/// and does nothing inside it.
pub proof fn law_pct_apply_touches_its_guest(w: WorldV, c: CtxV, vmid: u32)
    requires
        settled(w),
    ensures
        under_lock(
            May { inside: false, set: true, look: true, lock: false },
            vmid,
            w,
            apply::pct_apply_s(w, c, vmid).0,
            apply::pct_apply_s(w, c, vmid).1,
        ),
{
    let m = May { inside: false, set: true, look: true, lock: false };
    let (w1, r1) = lock::take_s(w, vmid, 60);
    let (v, r) = apply::pct_apply_s(w, c, vmid);
    if r1 is Ok {
        lemma_pct_locked(w1, c, vmid);
        let (u, x) = apply::pct_apply_locked_s(w1, c, vmid);
        lemma_locked(m, vmid, w, u, x, v, r);
    } else {
        lemma_locked(m, vmid, w, w1, r, v, r);
    }
}

// ---------------------------------------------------------------------------
// What comes first.

/// A read from PVE.
pub open spec fn get_from(path: Text) -> ActV {
    laws::captured("pvesh"@, seq!["get"@, path, "--output-format"@, "json"@], 120)
}

proof fn lemma_get(w: WorldV, path: Text)
    ensures
        cmd::pvesh_get_s(w, path, Seq::empty()).0.asked == w.asked.push(get_from(path)),
{
    let call = cmd::pvesh(path, Seq::empty()).captured(120);
    assert(call.args =~= seq!["get"@, path, "--output-format"@, "json"@]);
}

/// A guest is loaded only once its status was read and is `running`: then its
/// document is read, and then its config.
pub proof fn law_a_guest_is_loaded_only_if_it_runs(
    w: WorldV,
    v: WorldV,
    r: Result<GuestV, StopV>,
    c: CtxV,
    vmid: u32,
)
    requires
        settled(w),
        apply::loaded_s(w, c, vmid) == (v, r),
    ensures
        ({
            let i = w.asked.len() as int;
            let at = "/nodes/"@ + c.node + "/lxc/"@ + num::dec(vmid as nat);
            &&& v.asked[i] == get_from(at + "/status/current"@)
            &&& v.asked.len() > i + 1 ==> runs(v, i) && v.asked[i + 1] == laws::captured(
                "pve-meta"@,
                seq!["get"@, num::dec(vmid as nat), "compose"@, "--format"@, "yaml"@],
                120,
            )
            &&& v.asked.len() > i + 2 ==> v.asked[i + 2] == get_from(at + "/config"@)
            &&& v.asked.len() <= i + 3
            &&& r is Ok ==> v.asked.len() == i + 3
        }),
{
    let i = w.asked.len() as int;
    lemma_get(w, pct::lxc_path(c.node, vmid, "/status/current"@));
    let (w1, r1) = ops::require_running_s(w, c, vmid);
    if r1 is Ok {
        let call = doc::get_call(vmid).captured(120);
        assert(call.args =~= seq![
            "get"@,
            num::dec(vmid as nat),
            "compose"@,
            "--format"@,
            "yaml"@,
        ]);
        let (w2, r2) = doc::read_s(w1, vmid);
        assert(w2.asked == w1.asked.push(ActV::Run(call)));
        assert(w2.asked[i] == w1.asked[i]);
        if r2 is Ok && r2->Ok_0 is Some {
            let read = r2->Ok_0->0;
            assert(read.vmid == vmid);
            lemma_get(w2, pct::lxc_path(c.node, vmid, "/config"@));
            let (w3, r3) = ops::load_with_s(w2, c, read);
            assert(w3.asked[i] == w2.asked[i]);
            assert(w3.asked[i + 1] == w2.asked[i + 1]);
        }
    }
}

/// Whether a reply says that a guest runs.
pub open spec fn runs(v: WorldV, i: int) -> bool {
    v.replies[i].result matches Ok(o) && o.status == 0 && (json::json_of(o.stdout) matches Ok(x)
        && json::get(x, "status"@) == Some(JsonV::Str("running"@)))
}

/// Where the pct half changed something, the config is read again before the
/// docker half begins; where it did not, it is not.
pub proof fn law_a_changed_config_is_read_again(
    w: WorldV,
    c: CtxV,
    g: GuestV,
    n: usize,
    v: WorldV,
    r: Result<GuestV, StopV>,
)
    requires
        settled(w),
        apply::refreshed_s(w, c, g, n) == (v, r),
    ensures
        n == 0 ==> v == w && r == Ok::<GuestV, StopV>(g),
        n > 0 ==> v.asked == w.asked.push(
            get_from(
                "/nodes/"@ + c.node + "/lxc/"@ + num::dec(g.config.vmid as nat) + "/config"@,
            ),
        ),
        r matches Ok(h) ==> h.read == g.read && h.volumes == g.volumes && h.config.vmid
            == g.config.vmid,
{
    if n > 0 {
        lemma_get(w, pct::lxc_path(c.node, g.config.vmid, "/config"@));
        lemma_refresh(w, c, g, g.config.vmid);
    }
}

} // verus!
