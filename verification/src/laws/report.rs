//! What `status` and `diff` tell.

use vstd::prelude::*;

use crate::doc::{Mode, ReadV};
use crate::laws::guest::{lemma_exec, lemma_status};
use crate::laws::reach::{lemma_load_with, looking, may, only};
use crate::laws::watch::facts_read;
use crate::laws::wrapper::plan_for;
use crate::laws::{further, lemma_further, settled, sh};
use crate::ops::apply;
use crate::ops::diff;
use crate::ops::status::{self, ContainerRowV, Level, RowV};
use crate::ops::{self, CtxV, GuestV};
use crate::pct::{self, ListedV};
use crate::plan::{OpV, PlanV};
use crate::size;
use crate::stack::{self, ContainerV, FactsV};
use crate::text::Text;
use crate::world::{ActV, LineV, StopV, WorldV};

verus! {

// ---------------------------------------------------------------------------
// What is read.

/// The list of the containers of a stack.
pub open spec fn listing(vmid: u32) -> ActV {
    sh(vmid, "cd /opt/stack && docker compose ps -a --format json"@)
}

/// The read of the compose file.
pub open spec fn file_read(vmid: u32) -> ActV {
    sh(
        vmid,
        "if [ -e '/opt/stack/compose.yaml' ]; then cat '/opt/stack/compose.yaml'; else exit 3; fi"@,
    )
}

/// Whether an action only reads: from PVE, a document, or a guest's facts,
/// compose file or containers.
pub open spec fn only_reads(a: ActV, vmid: u32) -> bool {
    ||| may(looking(), vmid, a)
    ||| a == facts_read(vmid)
    ||| a == listing(vmid)
    ||| a == file_read(vmid)
}

/// Whether everything on the way only reads.
pub open spec fn reading<T>(w: WorldV, v: WorldV, r: Result<T, StopV>, vmid: u32) -> bool {
    &&& further(w, v, r)
    &&& forall|i: int|
        w.asked.len() <= i < v.asked.len() ==> only_reads(#[trigger] v.asked[i], vmid)
}

proof fn lemma_reading<A, B>(
    w: WorldV,
    u: WorldV,
    a: Result<A, StopV>,
    v: WorldV,
    b: Result<B, StopV>,
    vmid: u32,
)
    requires
        reading(w, u, a, vmid),
        !(a matches Err(StopV::Act(_))),
        reading(u, v, b, vmid),
    ensures
        reading(w, v, b, vmid),
{
    lemma_further(w, u, a, v, b);
    assert forall|i: int| w.asked.len() <= i < v.asked.len() implies only_reads(
        #[trigger] v.asked[i],
        vmid,
    ) by {
        if i < u.asked.len() {
            assert(v.asked[i] == u.asked[i]);
        }
    }
}

proof fn lemma_looks<T>(w: WorldV, v: WorldV, r: Result<T, StopV>, vmid: u32)
    requires
        only(looking(), vmid, w, v, r),
    ensures
        reading(w, v, r, vmid),
{
    assert forall|i: int| w.asked.len() <= i < v.asked.len() implies only_reads(
        #[trigger] v.asked[i],
        vmid,
    ) by {
        assert(may(looking(), vmid, v.asked[i]));
    }
}

proof fn lemma_facts(w: WorldV, vmid: u32)
    requires
        settled(w),
    ensures
        reading(w, stack::read_facts_s(w, vmid).0, stack::read_facts_s(w, vmid).1, vmid),
{
    reveal_strlit("if [ -e '");
    reveal_strlit("' ]; then cat '");
    reveal_strlit("'; else exit 3; fi");
    reveal_strlit("/opt/stack/.pve-compose/applied.yaml");
    reveal_strlit(
        "if [ -e '/opt/stack/.pve-compose/applied.yaml' ]; then cat '/opt/stack/.pve-compose/applied.yaml'; else exit 3; fi",
    );
    let cat = pct::cat_script(stack::FACTS_FILE@);
    assert(cat
        =~= "if [ -e '/opt/stack/.pve-compose/applied.yaml' ]; then cat '/opt/stack/.pve-compose/applied.yaml'; else exit 3; fi"@);
    lemma_status(w, vmid, cat);
}

proof fn lemma_file(w: WorldV, vmid: u32)
    requires
        settled(w),
    ensures
        ({
            let (v, r) = pct::read_file_s(w, vmid, stack::COMPOSE_FILE@);
            reading(w, v, r, vmid)
        }),
{
    reveal_strlit("if [ -e '");
    reveal_strlit("' ]; then cat '");
    reveal_strlit("'; else exit 3; fi");
    reveal_strlit("/opt/stack/compose.yaml");
    reveal_strlit(
        "if [ -e '/opt/stack/compose.yaml' ]; then cat '/opt/stack/compose.yaml'; else exit 3; fi",
    );
    let cat = pct::cat_script(stack::COMPOSE_FILE@);
    assert(cat
        =~= "if [ -e '/opt/stack/compose.yaml' ]; then cat '/opt/stack/compose.yaml'; else exit 3; fi"@);
    lemma_status(w, vmid, cat);
}

proof fn lemma_ps(w: WorldV, vmid: u32)
    requires
        settled(w),
    ensures
        reading(w, stack::ps_s(w, vmid).0, stack::ps_s(w, vmid).1, vmid),
{
    reveal_strlit("cd ");
    reveal_strlit("/opt/stack");
    reveal_strlit(" && docker compose ");
    reveal_strlit("ps -a --format json");
    reveal_strlit("cd /opt/stack && docker compose ps -a --format json");
    let script = stack::compose("ps -a --format json"@);
    assert(script =~= "cd /opt/stack && docker compose ps -a --format json"@);
    lemma_exec(w, vmid, script);
}

proof fn lemma_stack_row(w: WorldV, r: RowV, digest: Text, level: Level)
    requires
        settled(w),
    ensures
        reading(
            w,
            status::stack_row_s(w, r, digest, level).0,
            status::stack_row_s(w, r, digest, level).1,
            r.vmid,
        ),
{
    let vmid = r.vmid;
    lemma_facts(w, vmid);
    let (w1, r1) = stack::read_facts_s(w, vmid);
    let (v, x) = status::stack_row_s(w, r, digest, level);
    if r1 is Ok {
        lemma_ps(w1, vmid);
        let (w2, r2) = stack::ps_s(w1, vmid);
        lemma_reading(w, w1, r1, w2, r2, vmid);
        assert(v == w2);
        assert(reading(w, v, x, vmid));
    } else {
        assert(reading(w, v, x, vmid));
    }
}

/// The row of a guest is made by reading alone; one without a document, and
/// one that is stopped, is not looked into at all; and the pct level alone
/// does not look inside.
pub proof fn law_a_row_only_reads(
    w: WorldV,
    c: CtxV,
    l: ListedV,
    read: Option<ReadV>,
    level: Level,
)
    requires
        settled(w),
        read matches Some(x) ==> x.vmid == l.vmid,
    ensures
        ({
            let (v, r) = status::row_s(w, c, l, read, level);
            &&& reading(w, v, r, l.vmid)
            &&& read is None || !l.running ==> v == w
            &&& level == Level::Pct ==> only(looking(), l.vmid, w, v, r)
        }),
{
    let (v, r) = status::row_s(w, c, l, read, level);
    if read is Some && l.running {
        let x = read->0;
        lemma_load_with(w, c, x, l.vmid);
        let (w1, r1) = ops::load_with_s(w, c, x);
        lemma_looks(w, w1, r1, l.vmid);
        if r1 is Ok {
            let g = r1->Ok_0;
            let row = RowV {
                policy: Some(status::policy_shown(x.doc.policy)),
                ..status::blank(c, l)
            };
            if level == Level::Docker {
                lemma_stack_row(w1, row, g.read.digest, level);
                lemma_reading(w, w1, r1, v, r, l.vmid);
            } else if apply::planned(c, g) is Ok && level == Level::Both {
                let p = apply::planned(c, g)->Ok_0;
                let row = RowV { pct_pending: Some(p.ops.len() as usize), ..row };
                lemma_stack_row(w1, row, g.read.digest, level);
                lemma_reading(w, w1, r1, v, r, l.vmid);
            } else {
                assert(v == w1);
                assert(reading(w, v, r, l.vmid));
            }
        } else {
            assert(v == w1);
        }
    }
}

// ---------------------------------------------------------------------------
// What a row says.

/// A mode as it is written.
pub open spec fn word_of(m: Mode) -> Text {
    if m == Mode::Auto {
        "auto"@
    } else {
        "manual"@
    }
}

/// A row is about its guest and names its policy; one without a document says
/// so, one that is stopped says so, and neither says more.
pub proof fn law_a_row_is_about_its_guest(
    w: WorldV,
    c: CtxV,
    l: ListedV,
    read: Option<ReadV>,
    level: Level,
    row: RowV,
)
    requires
        status::row_s(w, c, l, read, level).1 == Ok::<RowV, StopV>(row),
    ensures
        row.vmid == l.vmid,
        row.name == l.name,
        row.node == c.node,
        row.running == l.running,
        read is None ==> row.state == "no document"@ && row.policy is None,
        read matches Some(x) ==> row.policy == Some(
            "pct="@ + word_of(x.doc.policy.pct) + " docker="@ + word_of(x.doc.policy.docker)
                + " pull="@ + word_of(x.doc.policy.pull),
        ),
        read is Some && !l.running ==> row.state == "stopped"@,
        read is None || !l.running ==> row.pct_pending is None && row.applied_at is None
            && row.template is None && row.containers.len() == 0,
        level == Level::Docker ==> row.pct_pending is None,
        level != Level::Both ==> row.containers.len() == 0,
{
}

/// At the pct level a row counts the operations of the guest's plan, and says
/// `applied` where there is none and `pending` where there is one.
pub proof fn law_a_pct_row_counts_the_plan(
    w: WorldV,
    c: CtxV,
    r: RowV,
    g: GuestV,
    p: PlanV,
)
    requires
        plan_for(c, g) == Ok::<PlanV, Seq<Text>>(p),
    ensures
        status::guest_row_s(w, c, r, g, Level::Pct).1 matches Ok(x) && x.pct_pending == Some(
            p.ops.len() as usize,
        ) && x.state == (if p.ops.len() == 0 {
            "applied"@
        } else {
            "pending"@
        }),
{
}

/// A row with the facts and containers of a guest says `never` without facts,
/// `pending` where they name another document or something is left for pct,
/// and else whether a container runs: `applied` or `down`.
pub proof fn law_what_a_state_means(
    w: WorldV,
    r: RowV,
    digest: Text,
    level: Level,
    w1: WorldV,
    f: Option<FactsV>,
    w2: WorldV,
    l: Seq<ContainerV>,
)
    requires
        stack::read_facts_s(w, r.vmid) == (w1, Ok::<Option<FactsV>, StopV>(f)),
        stack::ps_s(w1, r.vmid) == (w2, Ok::<Seq<ContainerV>, StopV>(l)),
    ensures
        status::stack_row_s(w, r, digest, level).1 matches Ok(x) && {
            &&& f is None ==> x.state == "never"@
            &&& f matches Some(f) ==> {
                &&& x.applied_at == Some(f.applied_at) && x.template == f.template
                &&& f.digest != digest || (r.pct_pending matches Some(n) && n > 0) ==> x.state
                    == "pending"@
                &&& f.digest == digest && (r.pct_pending matches Some(n) ==> n == 0) ==> x.state
                    == (if exists|i: int| 0 <= i < l.len() && (#[trigger] l[i]).state == "running"@ {
                    "applied"@
                } else {
                    "down"@
                })
            }
            &&& level == Level::Both ==> x.containers.len() == l.len() && forall|i: int|
                0 <= i < l.len() ==> #[trigger] x.containers[i] == (ContainerRowV {
                    service: l[i].service,
                    name: l[i].name,
                    state: l[i].state,
                    status: l[i].status,
                })
        },
{
    reveal_strlit("applied");
    reveal_strlit("pending");
    reveal_strlit("never");
    assert("applied"@[0] == 'a' && "pending"@[0] == 'p' && "never"@[0] == 'n');
}

/// Where the containers cannot be listed, the row says what the facts say, and
/// where the facts cannot be read, why.
pub proof fn law_a_row_outlives_failures(
    w: WorldV,
    r: RowV,
    digest: Text,
    level: Level,
    w1: WorldV,
    e: Seq<Text>,
)
    requires
        stack::read_facts_s(w, r.vmid) == (
            w1,
            Err::<Option<FactsV>, StopV>(StopV::Fail(e)),
        ),
        e.len() > 0,
    ensures
        status::stack_row_s(w, r, digest, level).1 matches Ok(x) && x.state == "error: "@ + e[0],
{
}

// ---------------------------------------------------------------------------
// What `diff` prints.

proof fn lemma_listed(w: WorldV, before: Text, l: Seq<Text>)
    ensures
        ({
            let v = diff::listed(w, before, l);
            &&& v.said == w.said + Seq::new(l.len(), |i: int| LineV::Out(before + l[i]))
            &&& v.asked == w.asked && v.replies == w.replies && v.pos == w.pos
        }),
    decreases l.len(),
{
    let v = diff::listed(w, before, l);
    if l.len() > 0 {
        let f = l.drop_last();
        lemma_listed(w, before, f);
        assert(v.said =~= w.said + Seq::new(l.len(), |i: int| LineV::Out(before + l[i])));
    } else {
        assert(v.said =~= w.said + Seq::new(l.len(), |i: int| LineV::Out(before + l[i])));
    }
}

/// An operation as it is told.
pub open spec fn told(o: OpV) -> Text {
    match o {
        OpV::SetFeatures(s) => "features: "@ + s + " (takes effect on restart)"@,
        OpV::AddTag(t) => "tag: add '"@ + t + "'"@,
        OpV::CreateDisk { mp, storage, size, backup } => "disk: create "@ + size::shown(size)
            + " on "@ + storage + " at "@ + mp + (if backup {
            Seq::empty()
        } else {
            " (backup=0)"@
        }),
        OpV::CreateBind { mp, path } => "bind: "@ + path + " at "@ + mp,
        OpV::Resize { key, mp, from, to } => "disk: grow "@ + key + " ("@ + mp + ") "@
            + size::shown(from) + " -> "@ + size::shown(to),
        OpV::SetBackup { mount, backup } => "disk: "@ + mount.key + " ("@ + (match mount.mp {
            Some(p) => p,
            None => "?"@,
        }) + ") backup="@ + (if backup {
            "1"@
        } else {
            "0"@
        }),
    }
}

/// `pct diff` prints every note of the plan and then every operation, in their
/// order, or that there is none; and nothing else.
pub proof fn law_pct_diff_prints_the_plan(
    w: WorldV,
    w1: WorldV,
    c: CtxV,
    g: GuestV,
    p: PlanV,
)
    requires
        ops::require_running_s(w, c, g.config.vmid) == (w1, Ok::<(), StopV>(())),
        plan_for(c, g) == Ok::<PlanV, Seq<Text>>(p),
    ensures
        ({
            let (v, r) = diff::pct_diff_guest_s(w, c, g);
            &&& r is Ok && v.asked == w1.asked
            &&& v.said == w1.said + Seq::new(
                p.notes.len(),
                |i: int| LineV::Out("note: "@ + p.notes[i]),
            ) + (if p.ops.len() == 0 {
                seq![LineV::Out("pct: up to date"@)]
            } else {
                Seq::new(p.ops.len(), |i: int| LineV::Out("pct: "@ + told(p.ops[i])))
            })
        }),
{
    let (v, r) = diff::pct_diff_guest_s(w, c, g);
    lemma_listed(w1, "note: "@, p.notes);
    let u = diff::listed(w1, "note: "@, p.notes);
    let shown = diff::ops_shown(p.ops);
    lemma_listed(u, "pct: "@, shown);
    if p.ops.len() == 0 {
        assert(v.said =~= u.said + seq![LineV::Out("pct: up to date"@)]);
    } else {
        assert forall|i: int| 0 <= i < p.ops.len() implies shown[i] == told(p.ops[i]) by {}
        assert(Seq::new(shown.len(), |i: int| LineV::Out("pct: "@ + shown[i])) =~= Seq::new(
            p.ops.len(),
            |i: int| LineV::Out("pct: "@ + told(p.ops[i])),
        ));
    }
}

/// `docker diff` says whether the document is the one that was applied, and
/// whether the file in the guest is what it renders to; where not, it prints
/// the difference of the two, the guest's file first.
pub proof fn law_docker_diff_compares_the_file(
    w: WorldV,
    w1: WorldV,
    w2: WorldV,
    w3: WorldV,
    c: CtxV,
    g: GuestV,
    want: Text,
    have: Option<Text>,
    f: Option<FactsV>,
)
    requires
        ops::require_running_s(w, c, g.config.vmid) == (w1, Ok::<(), StopV>(())),
        apply::rendered(c, g) == Ok::<Text, Seq<Text>>(want),
        pct::read_file_s(w1, g.config.vmid, "/opt/stack/compose.yaml"@) == (
            w2,
            Ok::<Option<Text>, StopV>(have),
        ),
        stack::read_facts_s(w2, g.config.vmid) == (w3, Ok::<Option<FactsV>, StopV>(f)),
    ensures
        ({
            let (v, r) = diff::docker_diff_guest_s(w, c, g);
            let first = LineV::Out(
                match f {
                    None => "docker: never applied"@,
                    Some(f) => if f.digest == g.read.digest {
                        "docker: document unchanged since last apply ("@ + f.applied_at + ")"@
                    } else {
                        "docker: document changed since last apply ("@ + f.applied_at + ")"@
                    },
                },
            );
            let there = match have {
                Some(t) => t,
                None => Seq::empty(),
            };
            &&& r is Ok && v.asked == w3.asked
            &&& there == want ==> v.said == w3.said.push(first).push(
                LineV::Out("docker: /opt/stack/compose.yaml up to date"@),
            )
            &&& there != want ==> v.said == w3.said.push(first).push(
                LineV::Out("docker: /opt/stack/compose.yaml differs:"@),
            ) + Seq::new(
                diff::diff_lines(there, want).len(),
                |i: int| LineV::Out(diff::diff_lines(there, want)[i]),
            )
        }),
{
    reveal_strlit("docker: ");
    reveal_strlit("/opt/stack/compose.yaml");
    reveal_strlit(" differs:");
    reveal_strlit(" up to date");
    reveal_strlit("docker: /opt/stack/compose.yaml differs:");
    reveal_strlit("docker: /opt/stack/compose.yaml up to date");
    assert("docker: "@ + stack::COMPOSE_FILE@ + " differs:"@
        =~= "docker: /opt/stack/compose.yaml differs:"@);
    assert("docker: "@ + stack::COMPOSE_FILE@ + " up to date"@
        =~= "docker: /opt/stack/compose.yaml up to date"@);
    let there = match have {
        Some(t) => t,
        None => Seq::empty(),
    };
    let u = w3.out(diff::facts_line(f, g.read.digest)).out(
        "docker: /opt/stack/compose.yaml differs:"@,
    );
    let l = diff::diff_lines(there, want);
    lemma_listed(u, Seq::empty(), l);
    assert forall|i: int| 0 <= i < l.len() implies Seq::<char>::empty() + l[i] == l[i] by {
        assert(Seq::<char>::empty() + l[i] =~= l[i]);
    }
    assert(Seq::new(l.len(), |i: int| LineV::Out(Seq::<char>::empty() + l[i])) =~= Seq::new(
        l.len(),
        |i: int| LineV::Out(l[i]),
    ));
}

} // verus!
