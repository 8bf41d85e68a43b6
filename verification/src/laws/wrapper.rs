//! What is done to a guest's container from its node.

use vstd::prelude::*;

use crate::laws::{self, further, lemma_further, settled, went_well};
use crate::num;
use crate::ops::apply;
use crate::ops::{CtxV, GuestV};
use crate::pct::{self, GuestConfigV, MountV};
use crate::plan::{self, InputsV, OpV, PlanV};
use crate::size;
use crate::text::{self, Text};
use crate::world::{ActV, StopV, WorldV};

verus! {

/// Whether an operation makes a mount that was not there.
pub open spec fn is_new_mount(o: OpV) -> bool {
    match o {
        OpV::CreateDisk { .. } => true,
        OpV::CreateBind { .. } => true,
        _ => false,
    }
}

/// The command of an operation, with the key of a new mount.
pub open spec fn command(g: GuestConfigV, o: OpV, key: Text) -> ActV {
    let n = num::dec(g.vmid as nat);
    laws::captured(
        "pct"@,
        match o {
            OpV::SetFeatures(s) => seq!["set"@, n, "--features"@, s],
            OpV::AddTag(t) => seq!["set"@, n, "--tags"@, text::joined(g.tags.push(t), ";"@)],
            OpV::CreateDisk { mp, storage, size, backup } => seq![
                "set"@,
                n,
                "--"@ + key,
                storage + ":"@ + size::gib(size) + ",mp="@ + mp + ",backup="@ + (if backup {
                    "1"@
                } else {
                    "0"@
                }),
            ],
            OpV::CreateBind { mp, path } => seq!["set"@, n, "--"@ + key, path + ",mp="@ + mp],
            OpV::Resize { key: disk, mp, from, to } => seq!["resize"@, n, disk, size::shown(to)],
            OpV::SetBackup { mount, backup } => seq![
                "set"@,
                n,
                "--"@ + mount.key,
                pct::mount_shown(MountV { backup, ..mount }),
            ],
        },
        1800,
    )
}

/// The key of a mount by its index.
pub open spec fn mount_key(n: nat) -> Text {
    "mp"@ + num::dec(n)
}

proof fn lemma_key(n: nat)
    ensures
        "--mp"@ + num::dec(n) == "--"@ + mount_key(n),
{
    reveal_strlit("--mp");
    reveal_strlit("--");
    reveal_strlit("mp");
    assert("--mp"@ + num::dec(n) =~= "--"@ + mount_key(n));
}

proof fn lemma_op(w: WorldV, g: GuestConfigV, o: OpV, next: nat)
    requires
        settled(w),
    ensures
        ({
            let (v, r) = plan::op_s(w, g, o, next);
            &&& further(w, v, r)
            &&& v.asked == w.asked.push(
                command(g, o, mount_key(plan::unused_from(g.mounts, next))),
            )
            &&& r is Ok ==> went_well(v, w.pos as int)
        }),
{
    let x = plan::unused_from(g.mounts, next);
    lemma_key(x);
    let c = command(g, o, mount_key(x))->Run_0;
    match o {
        OpV::Resize { key, mp, from, to } => {
            let d = pct::pct_call("resize"@, g.vmid).arg(key).arg(size::shown(to)).captured(1800);
            assert(d.args =~= c.args);
        },
        _ => {
            let d = pct::pct_call("set"@, g.vmid).args(plan::set_args(g, o, x)).captured(1800);
            assert(d.args =~= c.args);
        },
    }
}

proof fn lemma_next(m: Seq<MountV>, i: nat)
    ensures
        !pct::index_used(m, plan::unused_from(m, i)),
        plan::unused_from(m, i) <= 0x1_0000_0000,
        i <= 0x1_0000_0000 ==> plan::unused_from(m, i) >= i,
        i >= 0x1_0000_0000 ==> plan::unused_from(m, i) == 0x1_0000_0000,
    decreases 0x1_0000_0000 - i,
{
    if i < 0x1_0000_0000 && pct::index_used(m, i) {
        lemma_next(m, i + 1);
    } else if i >= 0x1_0000_0000 {
        assert forall|j: int| 0 <= j < m.len() implies (#[trigger] m[j]).index() != Some(
            0x1_0000_0000nat,
        ) by {}
    }
}

/// No mount of the guest has the key of an index that none uses.
proof fn lemma_key_is_free(m: Seq<MountV>, n: nat, j: int)
    requires
        !pct::index_used(m, n),
        n <= u32::MAX,
        0 <= j < m.len(),
    ensures
        m[j].key != mount_key(n),
{
    if m[j].key == mount_key(n) {
        reveal_strlit("mp");
        assert("mp"@.is_prefix_of(m[j].key));
        assert(m[j].key.skip(2) =~= num::dec(n));
        num::law_print_parse(n);
        assert(m[j].index() == Some(n));
    }
}

/// Whether operations were run one after the other, each after the one before
/// it went well, a new mount under the key of its index.
pub open spec fn ran(
    w: WorldV,
    v: WorldV,
    r: Result<(), StopV>,
    g: GuestConfigV,
    ops: Seq<OpV>,
    at: Seq<nat>,
) -> bool {
    let from = w.asked.len() as int;
    &&& further(w, v, r)
    &&& v.asked.len() <= from + ops.len()
    &&& forall|i: int|
        from <= i < v.asked.len() ==> #[trigger] v.asked[i] == command(
            g,
            ops[i - from],
            mount_key(at[i - from]),
        )
    &&& forall|i: int| from <= i < v.asked.len() - 1 ==> #[trigger] went_well(v, i)
    &&& r is Ok ==> v.asked.len() == from + ops.len() && forall|i: int|
        from <= i < v.asked.len() ==> #[trigger] went_well(v, i)
    &&& r is Err ==> from < v.asked.len() && !went_well(v, v.asked.len() - 1)
}

/// Whether the indexes of new mounts are apart from each other and free.
pub open spec fn apart(g: GuestConfigV, ops: Seq<OpV>, at: Seq<nat>) -> bool {
    &&& at.len() == ops.len()
    &&& forall|i: int, j: int|
        0 <= i < j < ops.len() && is_new_mount(ops[i]) && is_new_mount(ops[j]) && at[i]
            < 0x1_0000_0000 ==> #[trigger] at[i] < #[trigger] at[j]
    &&& forall|i: int|
        0 <= i < ops.len() && is_new_mount(ops[i]) ==> !pct::index_used(g.mounts, #[trigger] at[i])
            && at[i] <= 0x1_0000_0000
}

/// The index that each operation finds free, from one on.
spec fn indexes(m: Seq<MountV>, ops: Seq<OpV>, next: nat) -> Seq<nat>
    decreases ops.len(),
{
    if ops.len() == 0 {
        Seq::empty()
    } else {
        let x = plan::unused_from(m, next);
        seq![x] + indexes(
            m,
            ops.skip(1),
            if is_new_mount(ops[0]) {
                x + 1
            } else {
                next
            },
        )
    }
}

proof fn lemma_apart(g: GuestConfigV, ops: Seq<OpV>, next: nat)
    ensures
        apart(g, ops, indexes(g.mounts, ops, next)),
        forall|i: int|
            0 <= i < ops.len() ==> #[trigger] indexes(g.mounts, ops, next)[i] >= if next
                <= 0x1_0000_0000 {
                next
            } else {
                0x1_0000_0000
            },
    decreases ops.len(),
{
    if ops.len() > 0 {
        let x = plan::unused_from(g.mounts, next);
        lemma_next(g.mounts, next);
        let next2 = if is_new_mount(ops[0]) {
            x + 1
        } else {
            next
        };
        let l = ops.skip(1);
        lemma_apart(g, l, next2);
        let rest = indexes(g.mounts, l, next2);
        let at = indexes(g.mounts, ops, next);
        assert(at == seq![x] + rest);
        assert(forall|i: int| 0 < i < ops.len() ==> #[trigger] at[i] == rest[i - 1]);
        assert(forall|i: int| 0 < i < ops.len() ==> #[trigger] ops[i] == l[i - 1]);
        assert forall|i: int, j: int|
            0 <= i < j < ops.len() && is_new_mount(ops[i]) && is_new_mount(ops[j]) && at[i]
                < 0x1_0000_0000 implies #[trigger] at[i] < #[trigger] at[j] by {
            assert(at[j] == rest[j - 1] && ops[j] == l[j - 1]);
            if i > 0 {
                assert(at[i] == rest[i - 1] && ops[i] == l[i - 1]);
                assert(rest[i - 1] < rest[j - 1]);
            }
        }
        assert forall|i: int| 0 <= i < ops.len() && is_new_mount(ops[i]) implies !pct::index_used(
            g.mounts,
            #[trigger] at[i],
        ) && at[i] <= 0x1_0000_0000 by {
            if i > 0 {
                assert(ops[i] == l[i - 1]);
            }
        }
    }
}

#[verifier::rlimit(40)]
proof fn lemma_ops(w: WorldV, g: GuestConfigV, ops: Seq<OpV>, next: nat)
    requires
        settled(w),
    ensures
        ran(
            w,
            plan::ops_s(w, g, ops, next).0,
            plan::ops_s(w, g, ops, next).1,
            g,
            ops,
            indexes(g.mounts, ops, next),
        ),
    decreases ops.len(),
{
    let (v, r) = plan::ops_s(w, g, ops, next);
    let from = w.asked.len() as int;
    if ops.len() > 0 {
        let x = plan::unused_from(g.mounts, next);
        let u = w.note("  "@ + plan::op_shown(ops[0]));
        lemma_op(u, g, ops[0], next);
        let (w1, r1) = plan::op_s(u, g, ops[0], next);
        let at = indexes(g.mounts, ops, next);
        assert(at[0] == x);
        if r1 is Ok {
            let next2 = if is_new_mount(ops[0]) {
                x + 1
            } else {
                next
            };
            let l = ops.skip(1);
            lemma_ops(w1, g, l, next2);
            lemma_apart(g, l, next2);
            let rest = indexes(g.mounts, l, next2);
            assert(at == seq![x] + rest);
            assert(plan::ops_s(w1, g, l, next2) == (v, r));
            lemma_further(w, w1, r1, v, r);
            assert forall|i: int| from <= i < v.asked.len() implies #[trigger] v.asked[i]
                == command(g, ops[i - from], mount_key(at[i - from])) by {
                if i == from {
                    assert(v.asked[i] == w1.asked[i]);
                } else {
                    assert(at[i - from] == rest[i - from - 1]);
                    assert(ops[i - from] == l[i - from - 1]);
                }
            }
            assert(went_well(v, from));
        } else {
            assert(v == w1);
        }
    }
}

/// A plan is run operation by operation, each by its own command, in the
/// order of the plan: the next one only once the one before it went well, all
/// of them where the run succeeds, and none more once one fails.
pub proof fn law_a_plan_is_run_in_order(
    w: WorldV,
    v: WorldV,
    r: Result<(), StopV>,
    g: GuestConfigV,
    p: PlanV,
)
    requires
        settled(w),
        plan::execute_s(w, g, p) == (v, r),
    ensures
        exists|at: Seq<nat>| #[trigger] ran(w, v, r, g, p.ops, at) && apart(g, p.ops, at),
{
    let next = pct::free_from(g.mounts, 0);
    let at = indexes(g.mounts, p.ops, next);
    lemma_ops(w, g, p.ops, next);
    lemma_apart(g, p.ops, next);
    assert(ran(w, v, r, g, p.ops, at));
}

/// New mounts of one plan are made under keys that differ from each other and
/// from those of the mounts that are there. (An index past 32 bits is one
/// that no mount can have.)
pub proof fn law_new_mounts_are_apart(
    w: WorldV,
    v: WorldV,
    r: Result<(), StopV>,
    g: GuestConfigV,
    p: PlanV,
    i: int,
    j: int,
)
    requires
        settled(w),
        plan::execute_s(w, g, p) == (v, r),
        0 <= i < j < p.ops.len(),
        w.asked.len() + j < v.asked.len(),
        is_new_mount(p.ops[i]),
        is_new_mount(p.ops[j]),
        v.asked[w.asked.len() + i]->Run_0.args[2] != "--"@ + mount_key(0x1_0000_0000),
    ensures
        v.asked[w.asked.len() + i]->Run_0.args[2] != v.asked[w.asked.len() + j]->Run_0.args[2],
        forall|k: int|
            0 <= k < g.mounts.len() ==> v.asked[w.asked.len() + i]->Run_0.args[2] != "--"@ + (
            #[trigger] g.mounts[k]).key,
{
    let next = pct::free_from(g.mounts, 0);
    let at = indexes(g.mounts, p.ops, next);
    lemma_ops(w, g, p.ops, next);
    lemma_apart(g, p.ops, next);
    assert(ran(w, v, r, g, p.ops, at));
    let a = v.asked[w.asked.len() + i]->Run_0.args;
    let b = v.asked[w.asked.len() + j]->Run_0.args;
    assert(v.asked[w.asked.len() + i] == command(g, p.ops[i], mount_key(at[i])));
    assert(v.asked[w.asked.len() + j] == command(g, p.ops[j], mount_key(at[j])));
    assert(a[2] == "--"@ + mount_key(at[i]));
    assert(b[2] == "--"@ + mount_key(at[j]));
    if at[i] >= 0x1_0000_0000 {
        assert(at[i] == 0x1_0000_0000);
        assert(false);
    }
    if a[2] == b[2] {
        reveal_strlit("--");
        reveal_strlit("mp");
        assert(a[2].skip(4) =~= num::dec(at[i]));
        assert(b[2].skip(4) =~= num::dec(at[j]));
        num::law_print_is_injective(at[i], at[j]);
        assert(at[i] < at[j]);
    }
    assert forall|k: int| 0 <= k < g.mounts.len() implies a[2] != "--"@ + (
    #[trigger] g.mounts[k]).key by {
        lemma_key_is_free(g.mounts, at[i], k);
        if a[2] == "--"@ + g.mounts[k].key {
            reveal_strlit("--");
            assert(a[2].skip(2) =~= g.mounts[k].key);
            assert(a[2].skip(2) =~= mount_key(at[i]));
        }
    }
}

/// A new mount is made under a key that no mount of the guest has.
pub proof fn law_a_new_mount_takes_a_free_key(
    w: WorldV,
    v: WorldV,
    r: Result<(), StopV>,
    g: GuestConfigV,
    p: PlanV,
    i: int,
    k: int,
)
    requires
        settled(w),
        plan::execute_s(w, g, p) == (v, r),
        0 <= i < p.ops.len(),
        w.asked.len() + i < v.asked.len(),
        is_new_mount(p.ops[i]),
        v.asked[w.asked.len() + i]->Run_0.args[2] != "--"@ + mount_key(0x1_0000_0000),
        0 <= k < g.mounts.len(),
    ensures
        v.asked[w.asked.len() + i]->Run_0.args[2] != "--"@ + g.mounts[k].key,
        exists|n: nat|
            v.asked[w.asked.len() + i] == #[trigger] command(g, p.ops[i], mount_key(n)),
{
    let next = pct::free_from(g.mounts, 0);
    let at = indexes(g.mounts, p.ops, next);
    lemma_ops(w, g, p.ops, next);
    lemma_apart(g, p.ops, next);
    let a = v.asked[w.asked.len() + i]->Run_0.args;
    assert(v.asked[w.asked.len() + i] == command(g, p.ops[i], mount_key(at[i])));
    assert(a[2] == "--"@ + mount_key(at[i]));
    if at[i] >= 0x1_0000_0000 {
        assert(at[i] == 0x1_0000_0000);
        assert(false);
    }
    lemma_key_is_free(g.mounts, at[i], k);
    if a[2] == "--"@ + g.mounts[k].key {
        reveal_strlit("--");
        assert(a[2].skip(2) =~= g.mounts[k].key);
        assert(a[2].skip(2) =~= mount_key(at[i]));
    }
}

// ---------------------------------------------------------------------------
// The pct half.

proof fn lemma_noted(w: WorldV, notes: Seq<Text>)
    ensures
        ({
            let v = apply::noted(w, notes);
            v.asked == w.asked && v.replies == w.replies && v.pos == w.pos && v.stamp == w.stamp
        }),
    decreases notes.len(),
{
    if notes.len() > 0 {
        lemma_noted(w, notes.drop_last());
    }
}

/// The plan of a guest, from its document and config, the stored choices and
/// the tag.
pub open spec fn plan_for(c: CtxV, g: GuestV) -> Result<PlanV, Seq<Text>> {
    plan::plan_of(
        InputsV {
            node: c.node,
            config: c.config,
            tag: c.tag,
            guest: g.config,
            volumes: g.volumes,
        },
    )
}

/// Whether a pct half ran a plan: all of it where it succeeds, and then it
/// counts the operations; but where features were set it ends in an error,
/// for they take effect on a restart.
pub open spec fn half_ran(
    w: WorldV,
    v: WorldV,
    r: Result<usize, StopV>,
    g: GuestConfigV,
    p: PlanV,
) -> bool {
    exists|x: Result<(), StopV>, at: Seq<nat>|
        {
            &&& #[trigger] ran(w, v, x, g, p.ops, at) && apart(g, p.ops, at)
            &&& x is Ok && (forall|i: int|
                0 <= i < p.ops.len() ==> !((#[trigger] p.ops[i]) is SetFeatures)) ==> r == Ok::<
                usize,
                StopV,
            >(p.ops.len() as usize)
            &&& x is Ok && (exists|i: int|
                0 <= i < p.ops.len() && (#[trigger] p.ops[i]) is SetFeatures) ==> (r matches Err(
                StopV::Fail(_),
            ))
            &&& x matches Err(e) ==> r == Err::<usize, StopV>(e)
        }
}

/// The pct half of a guest runs the guest's plan, and nothing where there is
/// nothing to do or no plan.
#[verifier::rlimit(40)]
pub proof fn law_the_pct_half_runs_the_plan(
    w: WorldV,
    v: WorldV,
    r: Result<usize, StopV>,
    c: CtxV,
    g: GuestV,
)
    requires
        settled(w),
        apply::pct_apply_guest_s(w, c, g) == (v, r),
    ensures
        match plan_for(c, g) {
            Err(e) => v.asked == w.asked && r == Err::<usize, StopV>(StopV::Fail(e)),
            Ok(p) => half_ran(w, v, r, g.config, p) && (p.ops.len() == 0 ==> v.asked == w.asked
                && r == Ok::<usize, StopV>(0)),
        },
{
    if let Ok(p) = plan_for(c, g) {
        lemma_noted(w, p.notes);
        let u = apply::noted(w, p.notes);
        if p.ops.len() == 0 {
            let at = Seq::<nat>::empty();
            let x = Ok::<(), StopV>(());
            assert(ran(w, v, x, g.config, p.ops, at));
        } else {
            let u = u.note(
                "pct: applying "@ + num::dec(p.ops.len()) + " change(s) to "@ + pct::vm(
                    g.config.vmid,
                ),
            );
            let (y, x) = plan::execute_s(u, g.config, p);
            law_a_plan_is_run_in_order(u, y, x, g.config, p);
            let at = choose|at: Seq<nat>|
                #[trigger] ran(u, y, x, g.config, p.ops, at) && apart(g.config, p.ops, at);
            assert forall|i: int| w.asked.len() <= i < v.asked.len() - 1 implies #[trigger] went_well(
                v,
                i,
            ) by {
                assert(went_well(y, i));
            }
            if x is Ok {
                assert forall|i: int| w.asked.len() <= i < v.asked.len() implies #[trigger] went_well(
                    v,
                    i,
                ) by {
                    assert(went_well(y, i));
                }
            }
            assert(ran(w, v, x, g.config, p.ops, at));
        }
    }
}

} // verus!
