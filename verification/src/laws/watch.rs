//! What the loop does on its own.

use vstd::prelude::*;

use crate::cmd;
use crate::doc::{self, Mode, ReadV};
use crate::laws::guest::{self, seen_running};
use crate::laws::reach::{self, May, inside, locking, looking, may, only, setting};
use crate::laws::wrapper::{self, half_ran, plan_for};
use crate::laws::{
    begins, captured, compose_pull, compose_up, further, lemma_begins, lemma_further, settled, sh,
    went_well,
};
use crate::lock;
use crate::num;
use crate::ops::apply::{self, Options};
use crate::ops::daemon::{self, LoopV};
use crate::ops::{self, CtxV, GuestV};
use crate::pct::{self, ListedV};
use crate::stack::{self, FactsV};
use crate::text::Text;
use crate::world::{ActV, StopV, WorldV};

verus! {

/// Whether an action is a `pct set` or a `pct resize`.
pub open spec fn changes_container(a: ActV) -> bool {
    a matches ActV::Run(c) && c.program == "pct"@ && c.args.len() > 0 && (c.args[0] == "set"@
        || c.args[0] == "resize"@)
}

/// Whether an action is done inside a guest or for it: a `pct exec`, a `pct
/// push`, or a copy of a file on the node.
pub open spec fn acts_inside(a: ActV) -> bool {
    match a {
        ActV::Run(c) => c.program == "pct"@ && c.args.len() > 0 && (c.args[0] == "exec"@
            || c.args[0] == "push"@),
        ActV::Temp { .. } => true,
        ActV::Remove { .. } => true,
        _ => false,
    }
}

/// The read of the facts in a guest.
pub open spec fn facts_read(vmid: u32) -> ActV {
    sh(
        vmid,
        "if [ -e '/opt/stack/.pve-compose/applied.yaml' ]; then cat '/opt/stack/.pve-compose/applied.yaml'; else exit 3; fi"@,
    )
}

/// What holds of an action of the loop on a guest, by the policy of its
/// document.
pub open spec fn permitted(v: WorldV, from: int, i: int, read: ReadV) -> bool {
    let p = read.doc.policy;
    let a = v.asked[i];
    &&& changes_container(a) ==> p.pct == Mode::Auto
    &&& acts_inside(a) && a != facts_read(read.vmid) ==> p.docker == Mode::Auto
    &&& forall|n: u32| #[trigger]
        compose_up(n) == a ==> {
            &&& n == read.vmid
            &&& p.docker == Mode::Auto && p.up != Mode::Manual
            &&& exists|j: int| from <= j < i && #[trigger] seen_running(v, j, n)
            &&& p.pull == Mode::Auto ==> exists|j: int|
                from <= j < i && #[trigger] v.asked[j] == compose_pull(n) && went_well(v, j)
        }
    &&& forall|n: u32| #[trigger]
        compose_pull(n) == a ==> {
            &&& n == read.vmid
            &&& p.docker == Mode::Auto && p.up != Mode::Manual && p.pull == Mode::Auto
            &&& exists|j: int| from <= j < i && #[trigger] seen_running(v, j, n)
        }
}

/// Whether every action on the way is permitted.
pub open spec fn by_policy<T>(w: WorldV, v: WorldV, r: Result<T, StopV>, read: ReadV) -> bool {
    &&& further(w, v, r)
    &&& forall|i: int|
        w.asked.len() <= i < v.asked.len() ==> #[trigger] permitted(
            v,
            w.asked.len() as int,
            i,
            read,
        )
}

proof fn lemma_words()
    ensures
        "set"@ != "exec"@ && "set"@ != "push"@ && "set"@ != "get"@,
        "resize"@ != "exec"@ && "resize"@ != "push"@ && "resize"@ != "get"@,
        "exec"@ != "push"@ && "exec"@ != "get"@ && "push"@ != "get"@,
        "pct"@ != "pvesh"@ && "pct"@ != "pve-meta"@,
{
    reveal_strlit("set");
    reveal_strlit("resize");
    reveal_strlit("exec");
    reveal_strlit("push");
    reveal_strlit("get");
    reveal_strlit("pct");
    reveal_strlit("pvesh");
    reveal_strlit("pve-meta");
    assert("set"@[0] == 's' && "resize"@[0] == 'r' && "exec"@[0] == 'e' && "push"@[0] == 'p'
        && "get"@[0] == 'g');
    assert("pct"@.len() == 3 && "pvesh"@.len() == 5 && "pve-meta"@.len() == 8);
}

/// What is permitted stays so.
proof fn lemma_still<A, B>(
    w: WorldV,
    u: WorldV,
    a: Result<A, StopV>,
    v: WorldV,
    b: Result<B, StopV>,
    read: ReadV,
)
    requires
        by_policy(w, u, a, read),
        !(a matches Err(StopV::Act(_))),
        by_policy(u, v, b, read),
    ensures
        by_policy(w, v, b, read),
{
    lemma_further(w, u, a, v, b);
    let from = w.asked.len() as int;
    assert forall|i: int| from <= i < v.asked.len() implies #[trigger] permitted(
        v,
        from,
        i,
        read,
    ) by {
        if i < u.asked.len() {
            assert(permitted(u, from, i, read));
            assert(v.asked[i] == u.asked[i]);
            assert forall|j: int| from <= j < i && #[trigger] seen_running(
                u,
                j,
                read.vmid,
            ) implies seen_running(v, j, read.vmid) by {
                assert(v.asked[j] == u.asked[j]);
            }
            assert forall|j: int| from <= j < i implies #[trigger] v.asked[j] == u.asked[j] by {}
            assert forall|n: u32| #[trigger] compose_up(n) == v.asked[i] implies ({
                &&& exists|j: int| from <= j < i && #[trigger] seen_running(v, j, n)
                &&& read.doc.policy.pull == Mode::Auto ==> exists|j: int|
                    from <= j < i && #[trigger] v.asked[j] == compose_pull(n) && went_well(v, j)
            }) by {
                let j = choose|j: int| from <= j < i && #[trigger] seen_running(u, j, n);
                assert(seen_running(v, j, n));
                if read.doc.policy.pull == Mode::Auto {
                    let k = choose|k: int|
                        from <= k < i && #[trigger] u.asked[k] == compose_pull(n) && went_well(u, k);
                    assert(v.asked[k] == compose_pull(n));
                }
            }
            assert forall|n: u32| #[trigger] compose_pull(n) == v.asked[i] implies ({
                exists|j: int| from <= j < i && #[trigger] seen_running(v, j, n)
            }) by {
                let j = choose|j: int| from <= j < i && #[trigger] seen_running(u, j, n);
                assert(seen_running(v, j, n));
            }
        } else {
            assert(permitted(v, u.asked.len() as int, i, read));
        }
    }
}

/// What only looks, or takes or gives the lock, is permitted.
proof fn lemma_plain<T>(m: May, w: WorldV, v: WorldV, r: Result<T, StopV>, read: ReadV, vmid: u32)
    requires
        only(m, vmid, w, v, r),
        !m.inside,
        m.set ==> read.doc.policy.pct == Mode::Auto,
    ensures
        by_policy(w, v, r, read),
{
    lemma_words();
    assert forall|i: int| w.asked.len() <= i < v.asked.len() implies #[trigger] permitted(
        v,
        w.asked.len() as int,
        i,
        read,
    ) by {
        assert(may(m, vmid, v.asked[i]));
        assert forall|n: u32| #[trigger] compose_up(n) != v.asked[i] by {
            assert(compose_up(n)->Run_0.args[0] == "exec"@);
        }
        assert forall|n: u32| #[trigger] compose_pull(n) != v.asked[i] by {
            assert(compose_pull(n)->Run_0.args[0] == "exec"@);
        }
    }
}

#[verifier::rlimit(40)]
proof fn lemma_pct_half(w: WorldV, c: CtxV, g: GuestV, read: ReadV)
    requires
        settled(w),
        g.read == read,
        g.config.vmid == read.vmid,
    ensures
        by_policy(
            w,
            daemon::pct_half_s(w, c, g, read.doc.policy).0,
            daemon::pct_half_s(w, c, g, read.doc.policy).1,
            read,
        ),
        daemon::pct_half_s(w, c, g, read.doc.policy).1 matches Ok(h) ==> h.config.vmid == read.vmid
            && h.read == read,
        read.doc.policy.pct == Mode::Auto ==> ({
            let (y, x) = apply::pct_apply_guest_s(w, c, g);
            further(y, daemon::pct_half_s(w, c, g, read.doc.policy).0, daemon::pct_half_s(
                w,
                c,
                g,
                read.doc.policy,
            ).1) || x is Err && daemon::pct_half_s(w, c, g, read.doc.policy).0 == y
        }),
{
    let p = read.doc.policy;
    let vmid = read.vmid;
    let (v, r) = daemon::pct_half_s(w, c, g, p);
    if p.pct == Mode::Auto {
        reach::law_the_pct_half_only_sets(w, c, g);
        let (w1, r1) = apply::pct_apply_guest_s(w, c, g);
        lemma_plain(setting(), w, w1, r1, read, vmid);
        if r1 is Ok && r1->Ok_0 > 0 {
            let u = w1.note(
                pct::vm(g.config.vmid) + ": pct applied "@ + num::dec(r1->Ok_0 as nat)
                    + " change(s)"@,
            );
            reach::lemma_refresh(u, c, g, vmid);
            lemma_plain(looking(), w1, v, r, read, vmid);
            lemma_still(w, w1, r1, v, r, read);
        }
    }
}

/// The options of the loop's apply.
pub open spec fn loop_apply(read: ReadV) -> Options {
    Options {
        pull: read.doc.policy.pull == Mode::Auto,
        no_up: read.doc.policy.up == Mode::Manual,
        only_if_up: true,
    }
}

proof fn lemma_facts_first(w: WorldV, vmid: u32, read: ReadV)
    requires
        settled(w),
        vmid == read.vmid,
    ensures
        by_policy(w, stack::read_facts_s(w, vmid).0, stack::read_facts_s(w, vmid).1, read),
        stack::read_facts_s(w, vmid).0.asked == w.asked.push(facts_read(vmid)),
{
    lemma_words();
    reveal_strlit("if [ -e '");
    reveal_strlit("' ]; then cat '");
    reveal_strlit("'; else exit 3; fi");
    reveal_strlit("/opt/stack/.pve-compose/applied.yaml");
    reveal_strlit(
        "if [ -e '/opt/stack/.pve-compose/applied.yaml' ]; then cat '/opt/stack/.pve-compose/applied.yaml'; else exit 3; fi",
    );
    let cat = pct::cat_script(stack::FACTS_FILE@);
    assert(cat
        =~= "if [ -e '/opt/stack/.pve-compose/applied.yaml' ]; then cat '/opt/stack/.pve-compose/applied.yaml'; else exit 3; fi"@);
    guest::lemma_status(w, vmid, cat);
    let (w1, r1) = stack::read_facts_s(w, vmid);
    let from = w.asked.len() as int;
    assert(w1.asked == w.asked.push(facts_read(vmid)));
    assert(further(w, w1, r1));
    assert(facts_read(vmid)->Run_0.args[0] == "exec"@);
    assert(w1.asked[from] == facts_read(vmid));
    assert forall|n: u32| #[trigger] compose_up(n) != facts_read(vmid) by {}
    assert forall|n: u32| #[trigger] compose_pull(n) != facts_read(vmid) by {}
    assert(permitted(w1, from, from, read));
}

proof fn lemma_apply_permitted(
    w: WorldV,
    v: WorldV,
    r: Result<bool, StopV>,
    c: CtxV,
    g: GuestV,
    read: ReadV,
    i: int,
)
    requires
        settled(w),
        g.read == read,
        g.config.vmid == read.vmid,
        read.doc.policy.docker == Mode::Auto,
        apply::docker_apply_guest_s(w, c, g, loop_apply(read)) == (v, r),
        w.asked.len() <= i < v.asked.len(),
        may(inside(), read.vmid, v.asked[i]),
    ensures
        permitted(v, w.asked.len() as int, i, read),
{
    lemma_words();
    let p = read.doc.policy;
    let o = loop_apply(read);
    let f = w.asked.len() as int;
    assert forall|n: u32| #[trigger] compose_up(n) == v.asked[i] implies ({
        &&& n == read.vmid
        &&& p.up != Mode::Manual
        &&& exists|j: int| f <= j < i && #[trigger] seen_running(v, j, n)
        &&& p.pull == Mode::Auto ==> exists|j: int|
            f <= j < i && #[trigger] v.asked[j] == compose_pull(n) && went_well(v, j)
    }) by {
        guest::law_compose_is_run_where_asked(w, v, r, c, g, o, n, i);
        if o.pull {
            guest::law_pull_comes_before_up(w, v, r, c, g, o, n, i);
        }
    }
    assert forall|n: u32| #[trigger] compose_pull(n) == v.asked[i] implies ({
        &&& n == read.vmid
        &&& p.up != Mode::Manual && p.pull == Mode::Auto
        &&& exists|j: int| f <= j < i && #[trigger] seen_running(v, j, n)
    }) by {
        guest::law_compose_is_run_where_asked(w, v, r, c, g, o, n, i);
    }
}

proof fn lemma_apply_by_policy(w: WorldV, c: CtxV, g: GuestV, read: ReadV)
    requires
        settled(w),
        g.read == read,
        g.config.vmid == read.vmid,
        read.doc.policy.docker == Mode::Auto,
    ensures
        by_policy(
            w,
            apply::docker_apply_guest_s(w, c, g, loop_apply(read)).0,
            apply::docker_apply_guest_s(w, c, g, loop_apply(read)).1,
            read,
        ),
{
    let o = loop_apply(read);
    reach::law_the_docker_half_stays_inside(w, c, g, o);
    let (v, r) = apply::docker_apply_guest_s(w, c, g, o);
    assert forall|i: int| w.asked.len() <= i < v.asked.len() implies #[trigger] permitted(
        v,
        w.asked.len() as int,
        i,
        read,
    ) by {
        assert(may(inside(), read.vmid, v.asked[i]));
        lemma_apply_permitted(w, v, r, c, g, read, i);
    }
}

proof fn lemma_said<A, B>(
    w: WorldV,
    u: WorldV,
    a: Result<A, StopV>,
    v: WorldV,
    b: Result<B, StopV>,
    read: ReadV,
)
    requires
        by_policy(w, u, a, read),
        v.asked == u.asked,
        v.replies == u.replies,
        v.pos == u.pos,
        (a matches Err(StopV::Act(x))) ==> b == Err::<B, StopV>(StopV::Act(a->Err_0->Act_0)),
        !(a matches Err(StopV::Act(x))) ==> !(b matches Err(StopV::Act(x))),
    ensures
        by_policy(w, v, b, read),
{
    assert forall|i: int| w.asked.len() <= i < v.asked.len() implies #[trigger] permitted(
        v,
        w.asked.len() as int,
        i,
        read,
    ) by {
        assert(permitted(u, w.asked.len() as int, i, read));
        lemma_same(u, v, w.asked.len() as int, i, read);
    }
}

#[verifier::rlimit(40)]
proof fn lemma_docker_half(w: WorldV, c: CtxV, g: GuestV, read: ReadV)
    requires
        settled(w),
        g.read == read,
        g.config.vmid == read.vmid,
    ensures
        by_policy(
            w,
            daemon::docker_half_s(w, c, g, read.doc.policy).0,
            daemon::docker_half_s(w, c, g, read.doc.policy).1,
            read,
        ),
{
    let p = read.doc.policy;
    let vmid = read.vmid;
    let (v, r) = daemon::docker_half_s(w, c, g, p);
    lemma_facts_first(w, vmid, read);
    let (w1, r1) = stack::read_facts_s(w, vmid);
    if r1 is Ok && p.docker == Mode::Auto && !(r1->Ok_0 is Some && r1->Ok_0->0.digest
        == g.read.digest) {
        let o = loop_apply(read);
        assert(o == daemon::loop_options(p));
        lemma_apply_by_policy(w1, c, g, read);
        let (w2, r2) = apply::docker_apply_guest_s(w1, c, g, o);
        lemma_still(w, w1, r1, w2, r2, read);
        lemma_said(w, w2, r2, v, r, read);
    } else {
        lemma_said(w, w1, r1, v, r, read);
    }
}

/// Lines for the human change nothing of what is permitted.
proof fn lemma_same(u: WorldV, v: WorldV, from: int, i: int, read: ReadV)
    requires
        permitted(u, from, i, read),
        v.asked == u.asked,
        v.replies == u.replies,
    ensures
        permitted(v, from, i, read),
{
    assert forall|n: u32| #[trigger] compose_up(n) == v.asked[i] implies ({
        &&& exists|j: int| from <= j < i && #[trigger] seen_running(v, j, n)
        &&& read.doc.policy.pull == Mode::Auto ==> exists|j: int|
            from <= j < i && #[trigger] v.asked[j] == compose_pull(n) && went_well(v, j)
    }) by {
        let j = choose|j: int| from <= j < i && #[trigger] seen_running(u, j, n);
        assert(seen_running(v, j, n));
        if read.doc.policy.pull == Mode::Auto {
            let k = choose|k: int|
                from <= k < i && #[trigger] u.asked[k] == compose_pull(n) && went_well(u, k);
            assert(v.asked[k] == compose_pull(n));
            assert(went_well(v, k));
        }
    }
    assert forall|n: u32| #[trigger] compose_pull(n) == v.asked[i] implies ({
        exists|j: int| from <= j < i && #[trigger] seen_running(v, j, n)
    }) by {
        let j = choose|j: int| from <= j < i && #[trigger] seen_running(u, j, n);
        assert(seen_running(v, j, n));
    }
}

#[verifier::rlimit(40)]
proof fn lemma_halves(w: WorldV, c: CtxV, read: ReadV)
    requires
        settled(w),
    ensures
        by_policy(w, daemon::halves_s(w, c, read).0, daemon::halves_s(w, c, read).1, read),
{
    let vmid = read.vmid;
    reach::lemma_load_with(w, c, read, vmid);
    let (w1, r1) = ops::load_with_s(w, c, read);
    lemma_plain(looking(), w, w1, r1, read, vmid);
    if r1 is Ok {
        let g = r1->Ok_0;
        lemma_pct_half(w1, c, g, read);
        let (w2, r2) = daemon::pct_half_s(w1, c, g, read.doc.policy);
        lemma_still(w, w1, r1, w2, r2, read);
        if r2 is Ok {
            let h = r2->Ok_0;
            lemma_docker_half(w2, c, h, read);
            let (w3, r3) = daemon::docker_half_s(w2, c, h, read.doc.policy);
            lemma_still(w, w2, r2, w3, r3, read);
        }
    }
}

proof fn lemma_given_back<T>(w: WorldV, u: WorldV, x: Result<T, StopV>, read: ReadV)
    requires
        by_policy(w, u, x, read),
    ensures
        by_policy(
            w,
            lock::released((u, x), read.vmid).0,
            lock::released((u, x), read.vmid).1,
            read,
        ),
{
    let vmid = read.vmid;
    if !(x matches Err(StopV::Act(_))) {
        let (v, r) = lock::release_s(u, vmid);
        assert(only(locking(), vmid, u, v, r));
        lemma_plain(locking(), u, v, r, read, vmid);
        lemma_still(w, u, x, v, r, read);
        if r is Ok {
            lemma_said(w, v, r, v, x, read);
        } else {
            lemma_said(w, v, r, v, lock::released((u, x), vmid).1, read);
        }
    }
}

/// The loop does on its own only what the policy of the guest's document lets
/// it: it changes the container only with `pct: auto`; it does anything
/// inside the guest, but read the facts, only with `docker: auto`; it runs
/// `compose up` only with `up: auto`, and only after the guest listed a
/// container that runs; and it runs `compose pull` only with `pull: auto`,
/// and then before every `up`.
#[verifier::rlimit(40)]
pub proof fn law_the_loop_keeps_to_the_policy(w: WorldV, c: CtxV, read: ReadV)
    requires
        settled(w),
    ensures
        by_policy(w, daemon::reconcile_s(w, c, read).0, daemon::reconcile_s(w, c, read).1, read),
{
    let vmid = read.vmid;
    let (w1, r1) = lock::take_s(w, vmid, 60);
    assert(only(locking(), vmid, w, w1, r1));
    lemma_plain(locking(), w, w1, r1, read, vmid);
    if r1 is Ok {
        lemma_halves(w1, c, read);
        let (u, x) = daemon::halves_s(w1, c, read);
        lemma_still(w, w1, r1, u, x, read);
        lemma_given_back(w, u, x, read);
    }
}

/// With `pct: auto` the loop runs the guest's plan once the guest is loaded,
/// whatever the other policies are; with `pct: manual` it does not.
#[verifier::rlimit(40)]
pub proof fn law_the_loop_runs_the_plan(
    w: WorldV,
    c: CtxV,
    read: ReadV,
    w1: WorldV,
    u: WorldV,
    g: GuestV,
)
    requires
        settled(w),
        lock::take_s(w, read.vmid, 60) == (w1, Ok::<(), StopV>(())),
        ops::load_with_s(w1, c, read) == (u, Ok::<GuestV, StopV>(g)),
        read.doc.policy.pct == Mode::Auto,
        plan_for(c, g) is Ok,
    ensures
        exists|y: WorldV, x: Result<usize, StopV>|
            #[trigger] half_ran(u, y, x, g.config, plan_for(c, g)->Ok_0) && begins(
                y,
                daemon::reconcile_s(w, c, read).0,
            ),
{
    let vmid = read.vmid;
    let p = plan_for(c, g)->Ok_0;
    assert(only(locking(), vmid, w, w1, Ok::<(), StopV>(())));
    reach::lemma_load_with(w1, c, read, vmid);
    let (y, x) = apply::pct_apply_guest_s(u, c, g);
    wrapper::law_the_pct_half_runs_the_plan(u, y, x, c, g);
    assert(half_ran(u, y, x, g.config, p));
    reach::law_the_pct_half_only_sets(u, c, g);
    lemma_pct_half(u, c, g, read);
    let (w2, r2) = daemon::pct_half_s(u, c, g, read.doc.policy);
    assert(begins(y, w2));
    let (w3, r3) = daemon::halves_s(w1, c, read);
    if r2 is Ok {
        lemma_docker_half(w2, c, r2->Ok_0, read);
    }
    assert(begins(w2, w3));
    lemma_begins(y, w2, w3);
    let v = lock::released((w3, r3), vmid).0;
    assert(begins(w3, v));
    lemma_begins(y, w3, v);
    assert(v == daemon::reconcile_s(w, c, read).0);
}

/// With `docker: auto` the loop lands a document that the facts in the guest
/// do not name, under the options that the policy gives, whatever the other
/// policies are.
#[verifier::rlimit(40)]
pub proof fn law_the_loop_lands_the_document(
    w: WorldV,
    c: CtxV,
    g: GuestV,
    read: ReadV,
    w1: WorldV,
    f: Option<FactsV>,
)
    requires
        settled(w),
        g.read == read,
        g.config.vmid == read.vmid,
        stack::read_facts_s(w, read.vmid) == (w1, Ok::<Option<FactsV>, StopV>(f)),
    ensures
        ({
            let v = daemon::docker_half_s(w, c, g, read.doc.policy).0;
            &&& v.asked[w.asked.len() as int] == facts_read(read.vmid)
            &&& read.doc.policy.docker == Mode::Auto && (f matches Some(f) ==> f.digest
                != read.digest) ==> v.asked
                == apply::docker_apply_guest_s(w1, c, g, loop_apply(read)).0.asked
            &&& read.doc.policy.docker == Mode::Manual || (f matches Some(f) && f.digest
                == read.digest) ==> v.asked.len() == w.asked.len() + 1
        }),
{
    lemma_facts_first(w, read.vmid, read);
    assert(w1.asked[w.asked.len() as int] == facts_read(read.vmid));
    assert(loop_apply(read) == daemon::loop_options(read.doc.policy));
    if read.doc.policy.docker == Mode::Auto && (f is Some ==> f->0.digest != read.digest) {
        reach::law_the_docker_half_stays_inside(w1, c, g, loop_apply(read));
    }
}

/// Whether the prefix reaches a guest with these tags.
pub open spec fn reached(tag: Option<Text>, tags: Seq<Text>) -> bool {
    tag matches Some(t) ==> exists|i: int| 0 <= i < tags.len() && #[trigger] tags[i] == t
}

/// The loop looks at a guest of the node exactly where it runs, is no
/// template, and is one that the prefix reaches: then it reads its document.
#[verifier::rlimit(40)]
pub proof fn law_what_the_loop_looks_at(w: WorldV, c: CtxV, l: ListedV, memo: Map<u32, Text>)
    requires
        settled(w),
    ensures
        ({
            let (v, r) = daemon::visit_s(w, c, l, memo);
            if l.running && !l.is_template && reached(c.tag, l.tags) {
                &&& v.asked.len() > w.asked.len()
                &&& v.asked[w.asked.len() as int] == captured(
                    "pve-meta"@,
                    seq!["get"@, num::dec(l.vmid as nat), "compose"@, "--format"@, "yaml"@],
                    120,
                )
            } else {
                v == w && r == Ok::<Map<u32, Text>, StopV>(memo)
            }
        }),
{
    let (v, r) = daemon::visit_s(w, c, l, memo);
    assert(reached(c.tag, l.tags) == ops::is_selected(c, l.tags)) by {
        if let Some(t) = c.tag {
            if l.tags.contains(t) {
                let i = choose|i: int| 0 <= i < l.tags.len() && l.tags[i] == t;
                assert(l.tags[i] == t);
            }
        }
    }
    if daemon::watched(c, l) {
        let call = doc::get_call(l.vmid).captured(120);
        assert(call.args =~= seq![
            "get"@,
            num::dec(l.vmid as nat),
            "compose"@,
            "--format"@,
            "yaml"@,
        ]);
        reach::lemma_document(w, l.vmid, l.vmid);
        let (w1, r1) = doc::read_s(w, l.vmid);
        assert(w1.asked == w.asked.push(ActV::Run(call)));
        if r1 is Ok && r1->Ok_0 is Some {
            let read = r1->Ok_0->0;
            if !daemon::handled(memo, l.vmid, read.digest) {
                law_the_loop_keeps_to_the_policy(w1, c, read);
                lemma_handle(w1, c, read, memo);
                assert(begins(w1, v));
            }
        }
        assert(v.asked[w.asked.len() as int] == w1.asked[w.asked.len() as int]);
    }
}

proof fn lemma_handle(w: WorldV, c: CtxV, read: ReadV, memo: Map<u32, Text>)
    requires
        settled(w),
    ensures
        ({
            let (v, r) = daemon::handle_s(w, c, read, memo);
            let (y, x) = daemon::reconcile_s(w, c, read);
            &&& begins(w, v) && begins(y, v)
            &&& x matches Err(StopV::Act(_)) ==> v.asked == y.asked
            &&& !(x matches Err(StopV::Act(_))) ==> v.asked == y.asked.push(
                ActV::Notify { message: "WATCHDOG=1\n"@ },
            )
            &&& r matches Ok(m) ==> m == memo.insert(read.vmid, read.digest)
        }),
{
    law_the_loop_keeps_to_the_policy(w, c, read);
}

/// A guest whose document was not handled yet is reconciled, and nothing else
/// is done but to tell the service manager; then the document counts as
/// handled, whether or not that failed. One that was handled is left alone.
#[verifier::rlimit(40)]
pub proof fn law_a_visit_reconciles(
    w: WorldV,
    c: CtxV,
    l: ListedV,
    memo: Map<u32, Text>,
    w1: WorldV,
    read: ReadV,
)
    requires
        settled(w),
        l.running,
        !l.is_template,
        reached(c.tag, l.tags),
        doc::read_s(w, l.vmid) == (w1, Ok::<Option<ReadV>, StopV>(Some(read))),
    ensures
        ({
            let (v, r) = daemon::visit_s(w, c, l, memo);
            let (y, x) = daemon::reconcile_s(w1, c, read);
            if memo.contains_key(l.vmid) && memo[l.vmid] == read.digest {
                v.asked == w1.asked && r == Ok::<Map<u32, Text>, StopV>(memo)
            } else {
                &&& x matches Err(StopV::Act(_)) ==> v.asked == y.asked
                &&& !(x matches Err(StopV::Act(_))) ==> v.asked == y.asked.push(
                    ActV::Notify { message: "WATCHDOG=1\n"@ },
                )
                &&& r matches Ok(m) ==> m == memo.insert(l.vmid, read.digest)
            }
        }),
{
    assert(ops::is_selected(c, l.tags)) by {
        if let Some(t) = c.tag {
            let i = choose|i: int| 0 <= i < l.tags.len() && #[trigger] l.tags[i] == t;
            assert(l.tags.contains(t));
        }
    }
    reach::lemma_document(w, l.vmid, l.vmid);
    assert(read.vmid == l.vmid);
    lemma_handle(w1, c, read, memo);
}

/// The loop polls at most every 5 seconds and plans every guest at most every
/// 60, else as often as is stored; between two polls it waits that long.
pub proof fn law_how_often_the_loop_polls(w: WorldV, c: CtxV)
    ensures
        ({
            let s = daemon::fresh(c);
            &&& s.ctx == c && s.last_full is None && s.token.len() == 0
            &&& s.memo == Map::<u32, Text>::empty()
            &&& s.interval >= 5 && s.interval >= c.config.daemon.interval && (s.interval == 5
                || s.interval == c.config.daemon.interval)
            &&& s.full_every >= 60 && s.full_every >= c.config.daemon.full_every && (s.full_every
                == 60 || s.full_every == c.config.daemon.full_every)
        }),
        forall|s: LoopV| #[trigger]
            daemon::sleep_s(w, s).0.asked.last() is Sleep && (s.interval <= 1000000
                ==> daemon::sleep_s(w, s).0.asked.last()->Sleep_millis == s.interval * 1000),
{
}

/// A pass is made where the token moved or it is time for a full one, and only
/// then; a full one forgets what was handled. It begins with the list of the
/// node's containers.
#[verifier::rlimit(40)]
pub proof fn law_when_a_pass_is_made(w: WorldV, s: LoopV, token: Text, full: bool)
    requires
        settled(w),
    ensures
        ({
            let (v, r) = daemon::passed_s(w, s, token, full);
            let (y, x) = daemon::pass_s(
                w,
                s.ctx,
                if full {
                    Map::empty()
                } else {
                    s.memo
                },
            );
            if token == s.token && !full {
                v == w && r == Ok::<LoopV, StopV>(s)
            } else {
                &&& v.asked == y.asked
                &&& v.asked[w.asked.len() as int] == captured(
                    "pvesh"@,
                    seq![
                        "get"@,
                        "/nodes/"@ + s.ctx.node + "/lxc"@,
                        "--output-format"@,
                        "json"@,
                    ],
                    120,
                )
                &&& x matches Ok(m) ==> r == Ok::<LoopV, StopV>(
                    LoopV {
                        memo: m,
                        token,
                        last_full: if full {
                            Some(w.now)
                        } else {
                            s.last_full
                        },
                        ..s
                    },
                )
            }
        }),
{
    let memo = if full {
        Map::empty()
    } else {
        s.memo
    };
    let path = "/nodes/"@ + s.ctx.node + "/lxc"@;
    let call = cmd::pvesh(path, Seq::empty()).captured(120);
    assert(call.args =~= seq!["get"@, path, "--output-format"@, "json"@]);
    reach::lemma_pvesh(w, path, Seq::empty(), 0);
    let (w1, r1) = pct::list_s(w, s.ctx.node);
    assert(w1.asked == w.asked.push(ActV::Run(call)));
    assert(further(w, w1, r1));
    if r1 is Ok {
        lemma_visits(w1, s.ctx, r1->Ok_0, memo);
        let y = daemon::pass_s(w, s.ctx, memo).0;
        assert(begins(w1, y));
        assert(y.asked[w.asked.len() as int] == w1.asked[w.asked.len() as int]);
    }
}

proof fn lemma_visit(w: WorldV, c: CtxV, l: ListedV, memo: Map<u32, Text>)
    requires
        settled(w),
    ensures
        ({
            let (v, r) = daemon::visit_s(w, c, l, memo);
            begins(w, v) && further(w, v, r)
        }),
{
    let (v, r) = daemon::visit_s(w, c, l, memo);
    if daemon::watched(c, l) {
        reach::lemma_document(w, l.vmid, l.vmid);
        let (w1, r1) = doc::read_s(w, l.vmid);
        if r1 is Ok && r1->Ok_0 is Some && !daemon::handled(memo, l.vmid, r1->Ok_0->0.digest) {
            let read = r1->Ok_0->0;
            law_the_loop_keeps_to_the_policy(w1, c, read);
            let (y, x) = daemon::reconcile_s(w1, c, read);
            lemma_further(w, w1, r1, y, x);
            lemma_handle(w1, c, read, memo);
            assert(further(w, v, r));
        }
    }
}

proof fn lemma_visits(w: WorldV, c: CtxV, l: Seq<ListedV>, memo: Map<u32, Text>)
    requires
        settled(w),
    ensures
        begins(w, daemon::visits_s(w, c, l, memo).0),
    decreases l.len(),
{
    if l.len() > 0 {
        lemma_visit(w, c, l[0], memo);
        let (v, r) = daemon::visit_s(w, c, l[0], memo);
        if r is Ok {
            lemma_visits(v, c, l.skip(1), r->Ok_0);
            lemma_begins(w, v, daemon::visits_s(v, c, l.skip(1), r->Ok_0).0);
        }
    }
}

} // verus!
