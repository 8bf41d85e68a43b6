//! What the verbs come to.

use vstd::prelude::*;

use crate::cli::{self, CommandV};
use crate::cmd;
use crate::laws::guest;
use crate::laws::reach::{
    self, May, before_docker_s, lemma_before_docker, lemma_loaded, lemma_pvesh, locking, looking,
    may, only,
};
use crate::laws::wrapper::{self, half_ran, plan_for};
use crate::laws::{
    begins, captured, compose_pull, compose_up, further, lemma_further, settled, went_well,
};
use crate::lock;
use crate::num;
use crate::ops::apply::{self, Options};
use crate::ops::status::Level;
use crate::ops::{self, CtxV, GuestV, configcmd, diff, new};
use crate::pct;
use crate::stack;
use crate::text::Text;
use crate::world::{ActV, CallV, Shape, StopV, WorldV};

verus! {

// ---------------------------------------------------------------------------
// Bringing a stack up.

/// Whether `compose up` and `compose pull` on the way are those of options for
/// a guest: none without leave, a pull only where asked for, and then before
/// every up.
pub open spec fn composes<T>(
    w: WorldV,
    v: WorldV,
    r: Result<T, StopV>,
    vmid: u32,
    o: Options,
) -> bool {
    let from = w.asked.len() as int;
    &&& further(w, v, r)
    &&& forall|i: int, n: u32|
        from <= i < v.asked.len() && #[trigger] v.asked[i] == #[trigger] compose_up(n) ==> n
            == vmid && !o.no_up && (o.pull ==> pulled(v, from, i, n))
    &&& forall|i: int, n: u32|
        from <= i < v.asked.len() && #[trigger] v.asked[i] == #[trigger] compose_pull(n) ==> n
            == vmid && !o.no_up && o.pull
}

/// Whether `compose pull` was run with success between two points.
pub open spec fn pulled(v: WorldV, from: int, to: int, n: u32) -> bool {
    exists|j: int| from <= j < to && #[trigger] v.asked[j] == compose_pull(n) && went_well(v, j)
}

proof fn lemma_composes<A, B>(
    w: WorldV,
    u: WorldV,
    a: Result<A, StopV>,
    v: WorldV,
    b: Result<B, StopV>,
    vmid: u32,
    o: Options,
)
    requires
        composes(w, u, a, vmid, o),
        !(a matches Err(StopV::Act(_))),
        composes(u, v, b, vmid, o),
    ensures
        composes(w, v, b, vmid, o),
{
    lemma_further(w, u, a, v, b);
    let from = w.asked.len() as int;
    assert forall|i: int| 0 <= i < u.asked.len() implies #[trigger] v.asked[i] == u.asked[i] by {}
    assert forall|i: int, n: u32|
        from <= i < v.asked.len() && #[trigger] v.asked[i] == #[trigger] compose_up(n) implies n
        == vmid && !o.no_up && (o.pull ==> pulled(v, from, i, n)) by {
        if i < u.asked.len() {
            assert(u.asked[i] == compose_up(n));
            if o.pull {
                let j = choose|j: int|
                    from <= j < i && #[trigger] u.asked[j] == compose_pull(n) && went_well(u, j);
                assert(v.asked[j] == compose_pull(n));
            }
        } else if o.pull {
            assert(pulled(v, u.asked.len() as int, i, n));
            let j = choose|j: int|
                u.asked.len() <= j < i && #[trigger] v.asked[j] == compose_pull(n) && went_well(
                    v,
                    j,
                );
            assert(v.asked[j] == compose_pull(n));
        }
    }
    assert forall|i: int, n: u32|
        from <= i < v.asked.len() && #[trigger] v.asked[i] == #[trigger] compose_pull(n) implies n
        == vmid && !o.no_up && o.pull by {
        if i < u.asked.len() {
            assert(u.asked[i] == compose_pull(n));
        }
    }
}

proof fn lemma_without<T>(
    m: May,
    w: WorldV,
    v: WorldV,
    r: Result<T, StopV>,
    vmid: u32,
    o: Options,
)
    requires
        only(m, vmid, w, v, r),
        !m.inside,
    ensures
        composes(w, v, r, vmid, o),
{
    reveal_strlit("set");
    reveal_strlit("resize");
    reveal_strlit("exec");
    reveal_strlit("get");
    assert("set"@[0] == 's' && "resize"@[0] == 'r' && "exec"@[0] == 'e' && "get"@[0] == 'g');
    assert forall|i: int, n: u32| w.asked.len() <= i < v.asked.len() implies #[trigger] v.asked[i]
        != #[trigger] compose_up(n) by {
        assert(may(m, vmid, v.asked[i]));
        assert(compose_up(n)->Run_0.args[0] == "exec"@);
    }
    assert forall|i: int, n: u32| w.asked.len() <= i < v.asked.len() implies #[trigger] v.asked[i]
        != #[trigger] compose_pull(n) by {
        assert(may(m, vmid, v.asked[i]));
        assert(compose_pull(n)->Run_0.args[0] == "exec"@);
    }
}

proof fn lemma_half(
    w: WorldV,
    v: WorldV,
    r: Result<bool, StopV>,
    c: CtxV,
    g: GuestV,
    o: Options,
)
    requires
        settled(w),
        apply::docker_apply_guest_s(w, c, g, o) == (v, r),
        further(w, v, r),
    ensures
        composes(w, v, r, g.config.vmid, o),
{
    let from = w.asked.len() as int;
    assert forall|i: int, n: u32|
        from <= i < v.asked.len() && #[trigger] v.asked[i] == #[trigger] compose_up(n) implies n
        == g.config.vmid && !o.no_up && (o.pull ==> pulled(v, from, i, n)) by {
        guest::law_compose_is_run_where_asked(w, v, r, c, g, o, n, i);
        if o.pull {
            guest::law_pull_comes_before_up(w, v, r, c, g, o, n, i);
        }
    }
    assert forall|i: int, n: u32|
        from <= i < v.asked.len() && #[trigger] v.asked[i] == #[trigger] compose_pull(n) implies n
        == g.config.vmid && !o.no_up && o.pull by {
        guest::law_compose_is_run_where_asked(w, v, r, c, g, o, n, i);
    }
}

proof fn lemma_locked<T>(
    w: WorldV,
    w1: WorldV,
    u: WorldV,
    x: Result<T, StopV>,
    v: WorldV,
    r: Result<T, StopV>,
    vmid: u32,
    o: Options,
)
    requires
        settled(w),
        lock::take_s(w, vmid, 60) == (w1, Ok::<(), StopV>(())),
        composes(w1, u, x, vmid, o),
        lock::released((u, x), vmid) == (v, r),
    ensures
        composes(w, v, r, vmid, o),
{
    let k = Ok::<(), StopV>(());
    assert(only(locking(), vmid, w, w1, k));
    lemma_without(locking(), w, w1, k, vmid, o);
    lemma_composes(w, w1, k, u, x, vmid, o);
    if !(x matches Err(StopV::Act(_))) {
        let (y, z) = lock::release_s(u, vmid);
        assert(only(locking(), vmid, u, y, z));
        lemma_without(locking(), u, y, z, vmid, o);
        lemma_composes(w, u, x, y, z, vmid, o);
        assert(v == y);
        assert(further(w, v, r));
    }
}

/// `docker apply` brings the stack up by its options: with a pull, only after
/// it; without leave, not at all.
#[verifier::rlimit(40)]
pub proof fn law_docker_apply_composes(w: WorldV, c: CtxV, vmid: u32, o: Options)
    requires
        settled(w),
    ensures
        composes(
            w,
            apply::docker_apply_s(w, c, vmid, o).0,
            apply::docker_apply_s(w, c, vmid, o).1,
            vmid,
            o,
        ),
{
    let (w1, r1) = lock::take_s(w, vmid, 60);
    let (v, r) = apply::docker_apply_s(w, c, vmid, o);
    assert(only(locking(), vmid, w, w1, r1));
    if r1 is Ok {
        lemma_loaded(w1, c, vmid, vmid);
        let (w2, r2) = apply::loaded_s(w1, c, vmid);
        lemma_without(looking(), w1, w2, r2, vmid, o);
        let (u, x) = apply::docker_apply_locked_s(w1, c, vmid, o);
        if r2 is Ok {
            let g = r2->Ok_0;
            reach::law_the_docker_half_stays_inside(w2, c, g, o);
            let (w3, r3) = apply::docker_apply_guest_s(w2, c, g, o);
            lemma_half(w2, w3, r3, c, g, o);
            lemma_composes(w1, w2, r2, w3, r3, vmid, o);
            assert(composes(w1, u, x, vmid, o));
        }
        lemma_locked(w, w1, u, x, v, r, vmid, o);
    } else {
        lemma_without(locking(), w, w1, r1, vmid, o);
    }
}

/// `apply` brings the stack up by its options: with a pull, only after it;
/// without leave, not at all.
#[verifier::rlimit(40)]
pub proof fn law_apply_composes(w: WorldV, c: CtxV, vmid: u32, o: Options)
    requires
        settled(w),
    ensures
        composes(
            w,
            apply::apply_s(w, c, vmid, o).0,
            apply::apply_s(w, c, vmid, o).1,
            vmid,
            o,
        ),
{
    let m = May { inside: false, set: true, look: true, lock: false };
    let (w1, r1) = lock::take_s(w, vmid, 60);
    let (v, r) = apply::apply_s(w, c, vmid, o);
    assert(only(locking(), vmid, w, w1, r1));
    if r1 is Ok {
        lemma_before_docker(w1, c, vmid);
        reach::lemma_apply_locked(w1, c, vmid, o);
        let (w2, r2) = before_docker_s(w1, c, vmid);
        lemma_without(m, w1, w2, r2, vmid, o);
        let (u, x) = apply::apply_locked_s(w1, c, vmid, o);
        if r2 is Ok {
            let g = r2->Ok_0;
            reach::law_the_docker_half_stays_inside(w2, c, g, o);
            let (w3, r3) = apply::docker_apply_guest_s(w2, c, g, o);
            lemma_half(w2, w3, r3, c, g, o);
            lemma_composes(w1, w2, r2, w3, r3, vmid, o);
            assert(composes(w1, u, x, vmid, o));
        }
        lemma_locked(w, w1, u, x, v, r, vmid, o);
    } else {
        lemma_without(locking(), w, w1, r1, vmid, o);
    }
}

proof fn lemma_done<T>(w: WorldV, y: (WorldV, Result<T, StopV>), vmid: u32, o: Options)
    requires
        composes(w, y.0, y.1, vmid, o),
    ensures
        composes(w, cli::done(y).0, cli::done(y).1, vmid, o),
{
}

/// An upgrade pulls before it ups.
pub proof fn law_upgrade_pulls_first(w: WorldV, c: CtxV, vmid: u32)
    requires
        settled(w),
    ensures
        composes(
            w,
            cli::verb_s(w, c, CommandV::Upgrade { vmid }).0,
            cli::verb_s(w, c, CommandV::Upgrade { vmid }).1,
            vmid,
            Options { pull: true, no_up: false, only_if_up: false },
        ),
{
    let o = Options { pull: true, no_up: false, only_if_up: false };
    law_apply_composes(w, c, vmid, o);
    lemma_done(w, apply::apply_s(w, c, vmid, o), vmid, o);
}

/// An upgrade of the docker half alone pulls before it ups, too.
pub proof fn law_docker_upgrade_pulls_first(w: WorldV, c: CtxV, vmid: u32)
    requires
        settled(w),
    ensures
        composes(
            w,
            cli::verb_s(w, c, CommandV::DockerUpgrade { vmid }).0,
            cli::verb_s(w, c, CommandV::DockerUpgrade { vmid }).1,
            vmid,
            Options { pull: true, no_up: false, only_if_up: false },
        ),
{
    let o = Options { pull: true, no_up: false, only_if_up: false };
    law_docker_apply_composes(w, c, vmid, o);
    lemma_done(w, apply::docker_apply_s(w, c, vmid, o), vmid, o);
}

/// An apply never pulls, and with `--no-up` brings nothing up.
pub proof fn law_apply_never_pulls(w: WorldV, c: CtxV, vmid: u32, no_up: bool)
    requires
        settled(w),
    ensures
        composes(
            w,
            cli::verb_s(w, c, CommandV::Apply { vmid, no_up }).0,
            cli::verb_s(w, c, CommandV::Apply { vmid, no_up }).1,
            vmid,
            Options { pull: false, no_up, only_if_up: false },
        ),
{
    let o = Options { pull: false, no_up, only_if_up: false };
    law_apply_composes(w, c, vmid, o);
    lemma_done(w, apply::apply_s(w, c, vmid, o), vmid, o);
}

/// An apply of the docker half alone never pulls, and with `--no-up` brings
/// nothing up.
pub proof fn law_docker_apply_never_pulls(w: WorldV, c: CtxV, vmid: u32, no_up: bool)
    requires
        settled(w),
    ensures
        composes(
            w,
            cli::verb_s(w, c, CommandV::DockerApply { vmid, no_up }).0,
            cli::verb_s(w, c, CommandV::DockerApply { vmid, no_up }).1,
            vmid,
            Options { pull: false, no_up, only_if_up: false },
        ),
{
    let o = Options { pull: false, no_up, only_if_up: false };
    law_docker_apply_composes(w, c, vmid, o);
    lemma_done(w, apply::docker_apply_s(w, c, vmid, o), vmid, o);
}

/// Each command line is the verb that it names, on the guest that it names:
/// the two halves, or one of them; `status` at the level of the half.
pub proof fn law_each_command_is_its_verb(w: WorldV, c: CtxV, vmid: u32, no_up: bool)
    ensures
        ({
            let up = Options { pull: true, no_up: false, only_if_up: false };
            let plain = Options { pull: false, no_up, only_if_up: false };
            &&& cli::verb_s(w, c, CommandV::Apply { vmid, no_up }) == cli::done(
                apply::apply_s(w, c, vmid, plain),
            )
            &&& cli::verb_s(w, c, CommandV::Upgrade { vmid }) == cli::done(
                apply::apply_s(w, c, vmid, up),
            )
            &&& cli::verb_s(w, c, CommandV::DockerApply { vmid, no_up }) == cli::done(
                apply::docker_apply_s(w, c, vmid, plain),
            )
            &&& cli::verb_s(w, c, CommandV::DockerUpgrade { vmid }) == cli::done(
                apply::docker_apply_s(w, c, vmid, up),
            )
            &&& cli::verb_s(w, c, CommandV::PctApply { vmid }) == cli::done(
                apply::pct_apply_s(w, c, vmid),
            )
            &&& cli::verb_s(w, c, CommandV::Diff { vmid }) == cli::done(diff::diff_s(w, c, vmid))
            &&& cli::verb_s(w, c, CommandV::PctDiff { vmid }) == cli::done(
                diff::pct_diff_s(w, c, vmid),
            )
            &&& cli::verb_s(w, c, CommandV::DockerDiff { vmid }) == cli::done(
                diff::docker_diff_s(w, c, vmid),
            )
            &&& cli::verb_s(w, c, CommandV::Daemon) == (
                w,
                Ok::<cli::OutcomeV, StopV>(cli::OutcomeV::Loop(c)),
            )
        }),
        forall|a: new::NewArgsV|
            cli::verb_s(w, c, CommandV::New(a)) == cli::done(#[trigger] new::new_s(w, c, a)),
        forall|key: Text, value: Text|
            cli::verb_s(w, c, CommandV::ConfigSet { key, value }) == cli::done(
                #[trigger] configcmd::set_s(w, c, key, value),
            ),
        forall|key: Text|
            cli::verb_s(w, c, CommandV::ConfigUnset { key }) == cli::done(
                #[trigger] configcmd::unset_s(w, c, key),
            ),
        forall|only: Option<u32>, json: bool|
            cli::verb_s(w, c, CommandV::Status { only, json }) == #[trigger] cli::show_status_s(
                w,
                c,
                only,
                json,
                Level::Both,
            ),
        forall|only: Option<u32>, json: bool|
            cli::verb_s(w, c, CommandV::PctStatus { only, json }) == #[trigger] cli::show_status_s(
                w,
                c,
                only,
                json,
                Level::Pct,
            ),
        forall|only: Option<u32>, json: bool|
            cli::verb_s(w, c, CommandV::DockerStatus { only, json })
                == #[trigger] cli::show_status_s(w, c, only, json, Level::Docker),
{
}

/// A command line about one guest is about the guest that it names, so that it
/// is run on that guest's node.
pub proof fn law_each_command_has_its_guest(vmid: u32, b: bool, rest: Seq<Text>, verb: Text)
    ensures
        cli::target_of(CommandV::Apply { vmid, no_up: b }) == Some(vmid),
        cli::target_of(CommandV::Diff { vmid }) == Some(vmid),
        cli::target_of(CommandV::Upgrade { vmid }) == Some(vmid),
        cli::target_of(CommandV::PctApply { vmid }) == Some(vmid),
        cli::target_of(CommandV::PctDiff { vmid }) == Some(vmid),
        cli::target_of(CommandV::DockerApply { vmid, no_up: b }) == Some(vmid),
        cli::target_of(CommandV::DockerDiff { vmid }) == Some(vmid),
        cli::target_of(CommandV::DockerUpgrade { vmid }) == Some(vmid),
        cli::target_of(CommandV::Status { only: Some(vmid), json: b }) == Some(vmid),
        cli::target_of(CommandV::PctStatus { only: Some(vmid), json: b }) == Some(vmid),
        cli::target_of(CommandV::DockerStatus { only: Some(vmid), json: b }) == Some(vmid),
        cli::target_of(CommandV::Compose(seq![verb, num::dec(vmid as nat)] + rest)) == Some(vmid),
        cli::target_of(CommandV::Config) is None,
        cli::target_of(CommandV::Daemon) is None,
{
    num::law_print_parse(vmid as nat);
    let args = seq![verb, num::dec(vmid as nat)] + rest;
    assert(args[1] == num::dec(vmid as nat));
}

// ---------------------------------------------------------------------------
// What is handed to compose.

/// What a human hands through to compose is run in the stack directory of the
/// guest as one command line, each word quoted, the vmid left out, with no
/// deadline; under the guest's lock, and only if it runs.
pub proof fn law_the_rest_is_handed_through(
    w: WorldV,
    c: CtxV,
    verb: Text,
    vmid: u32,
    rest: Seq<Text>,
)
    requires
        settled(w),
    ensures
        ({
            let v = cli::compose_s(w, c, seq![verb, num::dec(vmid as nat)] + rest).0;
            let i = w.asked.len() as int;
            &&& v.asked[i] == (ActV::Lock { vmid, wait: 60 })
            &&& v.asked.len() > i + 1 ==> v.asked[i + 1] == captured(
                "pvesh"@,
                seq![
                    "get"@,
                    "/nodes/"@ + c.node + "/lxc/"@ + num::dec(vmid as nat) + "/status/current"@,
                    "--output-format"@,
                    "json"@,
                ],
                120,
            )
            &&& v.asked.len() > i + 2 ==> v.asked[i + 2] == (ActV::Unlock { vmid }) || v.asked[i
                + 2] == ActV::Run(
                CallV {
                    program: "pct"@,
                    args: seq![
                        "exec"@,
                        num::dec(vmid as nat),
                        "--"@,
                        "/bin/sh"@,
                        "-c"@,
                        "cd /opt/stack && docker compose "@ + stack::quoted_all(
                            seq![verb] + rest,
                        ),
                    ],
                    within: None,
                    shape: Shape::Stream,
                },
            )
            &&& v.asked.len() > i + 3 ==> v.asked[i + 3] == (ActV::Unlock { vmid }) && v.asked.len()
                == i + 4
        }),
{
    let args = seq![verb, num::dec(vmid as nat)] + rest;
    let i = w.asked.len() as int;
    num::law_print_parse(vmid as nat);
    assert(args[1] == num::dec(vmid as nat));
    assert(cli::compose_vmid(args) == Some(vmid));
    assert(cli::rest_of(args) =~= seq![verb] + rest) by {
        if args.len() > 2 {
            assert(args.skip(2) =~= rest);
        } else {
            assert(rest.len() == 0);
        }
    }
    let (w1, r1) = lock::take_s(w, vmid, 60);
    if r1 is Ok {
        let path = pct::lxc_path(c.node, vmid, "/status/current"@);
        let call = cmd::pvesh(path, Seq::empty()).captured(120);
        assert(call.args =~= seq!["get"@, path, "--output-format"@, "json"@]);
        lemma_pvesh(w1, path, Seq::empty(), vmid);
        let (w2, r2) = ops::require_running_s(w1, c, vmid);
        assert(w2.asked == w1.asked.push(ActV::Run(call)));
        if r2 is Ok {
            reveal_strlit("cd ");
            reveal_strlit("/opt/stack");
            reveal_strlit(" && docker compose ");
            reveal_strlit("cd /opt/stack && docker compose ");
            let q = stack::quoted_all(seq![verb] + rest);
            assert(stack::compose(q) =~= "cd /opt/stack && docker compose "@ + q);
            let e = pct::exec_call(vmid, stack::compose(q)).streamed(None);
            assert(e.args =~= seq![
                "exec"@,
                num::dec(vmid as nat),
                "--"@,
                "/bin/sh"@,
                "-c"@,
                stack::compose(q),
            ]);
            let (w3, r3) = stack::passthrough_s(w2, vmid, seq![verb] + rest);
            assert(w3.asked == w2.asked.push(ActV::Run(e)));
        }
    }
}

// ---------------------------------------------------------------------------
// What was done once a verb succeeds.

/// Whether the docker half of a guest was done on the way, from a point on.
pub open spec fn docker_done(u: WorldV, v: WorldV, c: CtxV, vmid: u32, o: Options) -> bool {
    exists|y: WorldV, x: WorldV, g: GuestV, b: bool|
        {
            &&& #[trigger] guest::applied_in_order(y, x, c, g, b)
            &&& g.config.vmid == vmid
            &&& begins(u, y) && begins(x, v)
            &&& !o.only_if_up ==> b == (guest::serves(g.read.doc.spec) && !o.no_up)
        }
}

/// Whether the whole plan of a guest was run on the way, none of it features.
pub open spec fn pct_done(u: WorldV, v: WorldV, c: CtxV, vmid: u32) -> bool {
    exists|y: WorldV, x: WorldV, g: GuestV, n: usize|
        {
            &&& plan_for(c, g) is Ok && #[trigger] half_ran(
                y,
                x,
                Ok::<usize, StopV>(n),
                g.config,
                plan_for(c, g)->Ok_0,
            )
            &&& g.config.vmid == vmid
            &&& begins(u, y) && begins(x, v)
        }
}

proof fn lemma_docker_done(
    u: WorldV,
    y: WorldV,
    x: WorldV,
    v: WorldV,
    c: CtxV,
    g: GuestV,
    o: Options,
    b: bool,
)
    requires
        settled(y),
        apply::docker_apply_guest_s(y, c, g, o) == (x, Ok::<bool, StopV>(b)),
        begins(u, y),
        begins(x, v),
    ensures
        docker_done(u, v, c, g.config.vmid, o),
{
    guest::law_applied_is_recorded(y, x, c, g, o, b);
    assert(guest::applied_in_order(y, x, c, g, b));
}

/// A `docker apply` that succeeds loaded the guest and did its docker half.
#[verifier::rlimit(40)]
pub proof fn law_docker_apply_does_its_half(
    w: WorldV,
    v: WorldV,
    c: CtxV,
    vmid: u32,
    o: Options,
)
    requires
        settled(w),
        apply::docker_apply_s(w, c, vmid, o) == (v, Ok::<(), StopV>(())),
    ensures
        docker_done(w, v, c, vmid, o),
{
    let (w1, r1) = lock::take_s(w, vmid, 60);
    lemma_loaded(w1, c, vmid, vmid);
    let (w2, r2) = apply::loaded_s(w1, c, vmid);
    let g = r2->Ok_0;
    let (w3, r3) = apply::docker_apply_guest_s(w2, c, g, o);
    assert(begins(w, w2));
    assert(begins(w3, v));
    lemma_docker_done(w, w2, w3, v, c, g, o, r3->Ok_0);
}

/// An `apply` that succeeds ran the guest's whole plan, and then did its
/// docker half.
#[verifier::rlimit(40)]
pub proof fn law_apply_does_both_halves(w: WorldV, v: WorldV, c: CtxV, vmid: u32, o: Options)
    requires
        settled(w),
        apply::apply_s(w, c, vmid, o) == (v, Ok::<(), StopV>(())),
    ensures
        exists|u: WorldV|
            #[trigger] pct_done(w, u, c, vmid) && docker_done(u, v, c, vmid, o),
{
    let (w1, r1) = lock::take_s(w, vmid, 60);
    lemma_loaded(w1, c, vmid, vmid);
    let (w2, r2) = apply::loaded_s(w1, c, vmid);
    let g = r2->Ok_0;
    let (w3, r3) = apply::pct_apply_guest_s(w2, c, g);
    reach::law_the_pct_half_only_sets(w2, c, g);
    wrapper::law_the_pct_half_runs_the_plan(w2, w3, r3, c, g);
    let n = r3->Ok_0;
    reach::lemma_refresh(w3, c, g, vmid);
    let (w4, r4) = apply::refreshed_s(w3, c, g, n);
    let h = r4->Ok_0;
    assert(begins(w, w2));
    assert(begins(w3, w4));
    assert(half_ran(w2, w3, Ok::<usize, StopV>(n), g.config, plan_for(c, g)->Ok_0));
    assert(pct_done(w, w4, c, vmid));
    let (w5, r5) = apply::docker_apply_guest_s(w4, c, h, o);
    assert(begins(w5, v));
    lemma_docker_done(w4, w4, w5, v, c, h, o, r5->Ok_0);
}

/// A `pct apply` that succeeds ran the guest's whole plan.
#[verifier::rlimit(40)]
pub proof fn law_pct_apply_does_its_half(w: WorldV, v: WorldV, c: CtxV, vmid: u32, n: usize)
    requires
        settled(w),
        apply::pct_apply_s(w, c, vmid) == (v, Ok::<usize, StopV>(n)),
    ensures
        pct_done(w, v, c, vmid),
{
    let (w1, r1) = lock::take_s(w, vmid, 60);
    lemma_loaded(w1, c, vmid, vmid);
    let (w2, r2) = apply::loaded_s(w1, c, vmid);
    let g = r2->Ok_0;
    let (w3, r3) = apply::pct_apply_guest_s(w2, c, g);
    wrapper::law_the_pct_half_runs_the_plan(w2, w3, r3, c, g);
    assert(begins(w, w2));
    assert(begins(w3, v));
    assert(half_ran(w2, w3, Ok::<usize, StopV>(n), g.config, plan_for(c, g)->Ok_0));
}

} // verus!
