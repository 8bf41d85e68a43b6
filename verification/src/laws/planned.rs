//! What a plan holds: every operation that is called for, and no other.

use vstd::prelude::*;

use crate::config;
use crate::pct::{self, MountV};
use crate::plan::{self, InputsV, OpV, PlanV};
use crate::size;
use crate::spec::{self, KindV, VolumeV};
use crate::table;
use crate::text::{self, Text};

verus! {

/// The directory of a volume in the guest.
pub open spec fn volume_dir(name: Text) -> Text {
    "/opt/stack/volumes/"@ + name
}

/// Whether a mount is the one of the guest at a path: the first that is there.
pub open spec fn mounted(mounts: Seq<MountV>, path: Text, m: MountV) -> bool {
    exists|k: int|
        0 <= k < mounts.len() && (#[trigger] mounts[k]) == m && m.mp == Some(path) && forall|l: int|
            0 <= l < k ==> (#[trigger] mounts[l]).mp != Some(path)
}

/// Whether nothing is mounted at a path.
pub open spec fn unmounted(mounts: Seq<MountV>, path: Text) -> bool {
    forall|k: int| 0 <= k < mounts.len() ==> (#[trigger] mounts[k]).mp != Some(path)
}

/// Whether a mount is a disk and not a directory of the node.
pub open spec fn is_disk(m: MountV) -> bool {
    !(m.volume.len() > 0 && m.volume[0] == '/')
}

/// Whether features are others with the two that docker needs: each of the
/// two is set to 1 unless it was set, and nothing else changes.
pub open spec fn with_needed(f: Seq<(Text, Text)>, g: Seq<(Text, Text)>) -> bool {
    forall|k: Text|
        #[trigger] table::lookup(g, k) == if table::lookup(f, k) is None && (k == "nesting"@ || k
            == "keyctl"@) {
            Some("1"@)
        } else {
            table::lookup(f, k)
        }
}

/// Whether an operation is called for by a volume.
pub open spec fn wanted_by(o: OpV, v: VolumeV, i: InputsV) -> bool {
    let dir = volume_dir(v.name);
    match o {
        OpV::CreateDisk { mp, storage, size, backup } => {
            &&& mp == dir && unmounted(i.guest.mounts, dir) && backup == v.backup
            &&& v.kind matches KindV::Disk { storage: s, size: z } && z == size && (match s {
                Some(s) => s == storage,
                None => table::lookup(i.config.nodes, i.node) == Some(Some(storage)),
            })
        },
        OpV::CreateBind { mp, path } => {
            &&& mp == dir && unmounted(i.guest.mounts, dir)
            &&& v.kind == (KindV::Bind { path })
        },
        OpV::Resize { key, mp, from, to } => {
            &&& mp == dir
            &&& v.kind matches KindV::Disk { size, .. } && size == to
            &&& exists|m: MountV| #[trigger] mounted(i.guest.mounts, dir, m) && is_disk(m) && m.key
                == key && (match m.size {
                Some(s) => from == s && s + 1048576 < to,
                None => from == 0,
            })
        },
        OpV::SetBackup { mount, backup } => {
            &&& v.kind is Disk && mounted(i.guest.mounts, dir, mount) && is_disk(mount)
            &&& backup == v.backup && mount.backup != v.backup
        },
        _ => false,
    }
}

/// Whether an operation is called for.
pub open spec fn called_for(o: OpV, i: InputsV) -> bool {
    match o {
        OpV::SetFeatures(s) => {
            &&& table::lookup(i.guest.features, "nesting"@) is None || table::lookup(
                i.guest.features,
                "keyctl"@,
            ) is None
            &&& exists|g: Seq<(Text, Text)>|
                #[trigger] with_needed(i.guest.features, g) && s == text::joined(
                    g.map_values(|e: (Text, Text)| e.0 + "="@ + e.1),
                    ","@,
                )
        },
        OpV::AddTag(t) => i.tag == Some(t) && !i.guest.tags.contains(t),
        _ => exists|j: int| 0 <= j < i.volumes.len() && wanted_by(o, #[trigger] i.volumes[j], i),
    }
}

/// Whether a plan sees to a volume: what is missing is created, a disk that is
/// too small grows, and the backup flag is set as asked for.
pub open spec fn seen_to(ops: Seq<OpV>, v: VolumeV, i: InputsV) -> bool {
    let dir = volume_dir(v.name);
    match v.kind {
        KindV::Plain => true,
        KindV::Bind { path } => unmounted(i.guest.mounts, dir) ==> ops.contains(
            OpV::CreateBind { mp: dir, path },
        ),
        KindV::Disk { storage, size } => {
            &&& unmounted(i.guest.mounts, dir) ==> exists|s: Text|
                #[trigger] ops.contains(
                    OpV::CreateDisk { mp: dir, storage: s, size, backup: v.backup },
                )
            &&& forall|m: MountV|
                #[trigger] mounted(i.guest.mounts, dir, m) && is_disk(m) ==> {
                    &&& (match m.size {
                        Some(s) => s + 1048576 < size,
                        None => true,
                    }) ==> ops.contains(
                        OpV::Resize { key: m.key, mp: dir, from: m.size.unwrap_or(0), to: size },
                    )
                    &&& m.backup != v.backup ==> ops.contains(
                        OpV::SetBackup { mount: m, backup: v.backup },
                    )
                }
        },
    }
}

/// Whether two operations do the same thing at the same place.
pub open spec fn twice(a: OpV, b: OpV) -> bool {
    match (a, b) {
        (OpV::SetFeatures(_), OpV::SetFeatures(_)) => true,
        (OpV::AddTag(_), OpV::AddTag(_)) => true,
        (OpV::CreateDisk { mp, .. }, OpV::CreateDisk { mp: q, .. }) => mp == q,
        (OpV::CreateDisk { mp, .. }, OpV::CreateBind { mp: q, .. }) => mp == q,
        (OpV::CreateBind { mp, .. }, OpV::CreateDisk { mp: q, .. }) => mp == q,
        (OpV::CreateBind { mp, .. }, OpV::CreateBind { mp: q, .. }) => mp == q,
        (OpV::Resize { mp, .. }, OpV::Resize { mp: q, .. }) => mp == q,
        (OpV::SetBackup { mount, .. }, OpV::SetBackup { mount: m, .. }) => mount.mp == m.mp,
        _ => false,
    }
}

/// Whether no two volumes have one name.
pub open spec fn named_apart(v: Seq<VolumeV>) -> bool {
    forall|j: int, k: int|
        0 <= j < k < v.len() ==> (#[trigger] v[j]).name != (#[trigger] v[k]).name
}

// ---------------------------------------------------------------------------
// How it comes about.

proof fn lemma_dir(name: Text)
    ensures
        spec::dir_of(name) == volume_dir(name),
{
    reveal_strlit("/opt/stack/volumes");
    reveal_strlit("/");
    reveal_strlit("/opt/stack/volumes/");
    assert(spec::dir_of(name) =~= volume_dir(name));
}

proof fn lemma_dir_apart(a: Text, b: Text)
    requires
        volume_dir(a) == volume_dir(b),
    ensures
        a == b,
{
    let n = "/opt/stack/volumes/"@.len() as int;
    assert(volume_dir(a).skip(n) =~= a);
    assert(volume_dir(b).skip(n) =~= b);
}

proof fn lemma_mount(mounts: Seq<MountV>, path: Text)
    ensures
        match pct::mount_at(mounts, path) {
            Some(m) => mounted(mounts, path, m) && !unmounted(mounts, path) && forall|x: MountV|
                mounted(mounts, path, x) ==> x == m,
            None => unmounted(mounts, path) && forall|x: MountV| !mounted(mounts, path, x),
        },
    decreases mounts.len(),
{
    if mounts.len() > 0 {
        let rest = mounts.skip(1);
        if mounts[0].mp == Some(path) {
            assert(mounted(mounts, path, mounts[0]));
        } else {
            lemma_mount(rest, path);
            assert(forall|k: int| 0 <= k < rest.len() ==> #[trigger] rest[k] == mounts[k + 1]);
            assert(forall|k: int| 0 < k < mounts.len() ==> #[trigger] mounts[k] == rest[k - 1]);
            match pct::mount_at(rest, path) {
                Some(m) => {
                    let k = choose|k: int|
                        0 <= k < rest.len() && (#[trigger] rest[k]) == m && m.mp == Some(path)
                            && forall|l: int| 0 <= l < k ==> (#[trigger] rest[l]).mp != Some(path);
                    assert(mounts[k + 1] == m);
                    assert forall|l: int| 0 <= l < k + 1 implies (#[trigger] mounts[l]).mp != Some(
                        path,
                    ) by {
                        if l > 0 {
                            assert(mounts[l] == rest[l - 1]);
                        }
                    }
                    assert(mounted(mounts, path, m));
                    assert forall|x: MountV| mounted(mounts, path, x) implies x == m by {
                        let j = choose|j: int|
                            0 <= j < mounts.len() && (#[trigger] mounts[j]) == x && x.mp == Some(
                                path,
                            ) && forall|l: int|
                                0 <= l < j ==> (#[trigger] mounts[l]).mp != Some(path);
                        assert(j == k + 1);
                    }
                },
                None => {
                    assert forall|k: int| 0 <= k < mounts.len() implies (#[trigger] mounts[k]).mp
                        != Some(path) by {
                        if k > 0 {
                            assert(mounts[k] == rest[k - 1]);
                        }
                    }
                },
            }
        }
    }
}

/// The operations that one more volume adds.
proof fn lemma_volume(p: PlanV, v: VolumeV, i: InputsV) -> (more: Seq<OpV>)
    requires
        plan::volume_step(p, v, i) is Ok,
    ensures
        plan::volume_step(p, v, i)->Ok_0.ops == p.ops + more,
        forall|k: int| 0 <= k < more.len() ==> wanted_by(#[trigger] more[k], v, i),
        seen_to(more, v, i),
        forall|j: int, k: int|
            0 <= j < k < more.len() ==> !twice(#[trigger] more[j], #[trigger] more[k]),
{
    let q = plan::volume_step(p, v, i)->Ok_0;
    let dir = spec::dir_of(v.name);
    lemma_dir(v.name);
    lemma_mount(i.guest.mounts, dir);
    let m = pct::mount_at(i.guest.mounts, dir);
    let n = p.ops.len() as int;
    let more = q.ops.skip(n);
    match (v.kind, m) {
        (KindV::Bind { path }, None) => {
            let o = OpV::CreateBind { mp: dir, path };
            assert(more =~= seq![o]);
            assert(more[0] == o);
        },
        (KindV::Disk { storage, size }, None) => {
            let s = match storage {
                Some(s) => Some(s),
                None => config::storage_for(i.config, i.node),
            };
            let o = OpV::CreateDisk { mp: dir, storage: s->0, size, backup: v.backup };
            assert(more =~= seq![o]);
            assert(more[0] == o);
            assert(more.contains(o));
        },
        (KindV::Disk { storage, size }, Some(m)) => {
            let a = OpV::Resize { key: m.key, mp: dir, from: m.size.unwrap_or(0), to: size };
            let b = OpV::SetBackup { mount: m, backup: v.backup };
            if !m.is_bind() {
                let grows = !plan::satisfied(m.size, size);
                let flag = m.backup != v.backup;
                if grows && flag {
                    assert(more =~= seq![a, b]);
                    assert(more[0] == a && more[1] == b);
                } else if grows {
                    assert(more =~= seq![a]);
                    assert(more[0] == a);
                } else if flag {
                    assert(more =~= seq![b]);
                    assert(more[0] == b);
                } else {
                    assert(more =~= Seq::empty());
                }
            } else {
                assert(more =~= Seq::empty());
            }
        },
        _ => {
            assert(more =~= Seq::empty());
        },
    }
    assert(q.ops =~= p.ops + more);
    more
}

/// Whether operations are those of the wrapper and of the first volumes.
spec fn so_far(ops: Seq<OpV>, n: int, i: InputsV) -> bool {
    &&& forall|k: int|
        0 <= k < ops.len() ==> ({
            ||| (#[trigger] ops[k]) is SetFeatures && called_for(ops[k], i)
            ||| ops[k] is AddTag && called_for(ops[k], i)
            ||| exists|j: int| 0 <= j < n && wanted_by(ops[k], #[trigger] i.volumes[j], i)
        })
    &&& forall|j: int| 0 <= j < n ==> seen_to(ops, #[trigger] i.volumes[j], i)
    &&& named_apart(i.volumes) ==> forall|j: int, k: int|
        0 <= j < k < ops.len() ==> !twice(#[trigger] ops[j], #[trigger] ops[k])
    &&& (table::lookup(i.guest.features, "nesting"@) is None || table::lookup(
        i.guest.features,
        "keyctl"@,
    ) is None) ==> exists|k: int| 0 <= k < ops.len() && (#[trigger] ops[k]) is SetFeatures
    &&& (i.tag matches Some(t) && !i.guest.tags.contains(t)) ==> ops.contains(OpV::AddTag(i.tag->0))
}

proof fn lemma_features(f: Seq<(Text, Text)>)
    ensures
        with_needed(f, plan::wanted_features(f)),
        plan::wanted_features(f) != f <==> table::lookup(f, "nesting"@) is None || table::lookup(
            f,
            "keyctl"@,
        ) is None,
{
    let g = plan::with_feature(f, "nesting"@);
    let h = plan::wanted_features(f);
    reveal_strlit("nesting");
    reveal_strlit("keyctl");
    assert("nesting"@.len() != "keyctl"@.len());
    assert forall|k: Text|
        #[trigger] table::lookup(h, k) == if table::lookup(f, k) is None && (k == "nesting"@ || k
            == "keyctl"@) {
            Some("1"@)
        } else {
            table::lookup(f, k)
        } by {
        table::law_insert_lookup(f, "nesting"@, "1"@, k);
        table::law_insert_lookup(f, "nesting"@, "1"@, "keyctl"@);
        table::law_insert_lookup(g, "keyctl"@, "1"@, k);
    }
    if table::lookup(f, "nesting"@) is None {
        assert(table::lookup(h, "nesting"@) is Some);
    }
    if table::lookup(f, "keyctl"@) is None {
        assert(table::lookup(h, "keyctl"@) is Some);
    }
}

proof fn lemma_wrapper(i: InputsV)
    ensures
        so_far(plan::wrapper_plan(i).ops, 0, i),
{
    let f = i.guest.features;
    lemma_features(f);
    let ops = plan::wrapper_plan(i).ops;
    let s = plan::features_shown(plan::wanted_features(f));
    let changed = plan::wanted_features(f) != f;
    if changed {
        assert(ops[0] == OpV::SetFeatures(s));
        assert(called_for(ops[0], i));
    }
    if i.tag is Some && !i.guest.tags.contains(i.tag->0) {
        assert(ops.last() == OpV::AddTag(i.tag->0));
        assert(ops.contains(ops.last()));
    }
}

proof fn lemma_seen_more(ops: Seq<OpV>, more: Seq<OpV>, v: VolumeV, i: InputsV)
    requires
        seen_to(ops, v, i) || seen_to(more, v, i),
    ensures
        seen_to(ops + more, v, i),
{
    let all = ops + more;
    assert forall|o: OpV| #[trigger] ops.contains(o) implies all.contains(o) by {
        let k = choose|k: int| 0 <= k < ops.len() && ops[k] == o;
        assert(all[k] == o);
    }
    assert forall|o: OpV| #[trigger] more.contains(o) implies all.contains(o) by {
        let k = choose|k: int| 0 <= k < more.len() && more[k] == o;
        assert(all[ops.len() + k] == o);
    }
    let dir = volume_dir(v.name);
    let one = if seen_to(ops, v, i) {
        ops
    } else {
        more
    };
    if let KindV::Disk { storage, size } = v.kind {
        if unmounted(i.guest.mounts, dir) {
            let s = choose|s: Text|
                #[trigger] one.contains(
                    OpV::CreateDisk { mp: dir, storage: s, size, backup: v.backup },
                );
            assert(all.contains(OpV::CreateDisk { mp: dir, storage: s, size, backup: v.backup }));
        }
    }
}

proof fn lemma_not_twice(a: OpV, u: VolumeV, b: OpV, v: VolumeV, i: InputsV)
    requires
        wanted_by(a, u, i),
        wanted_by(b, v, i),
        u.name != v.name,
    ensures
        !twice(a, b),
{
    if volume_dir(u.name) == volume_dir(v.name) {
        lemma_dir_apart(u.name, v.name);
    }
}

#[verifier::spinoff_prover]
proof fn lemma_steps(n: int, i: InputsV)
    requires
        0 <= n <= i.volumes.len(),
        plan::volume_steps(plan::wrapper_plan(i), i.volumes.take(n), i) is Ok,
    ensures
        so_far(
            plan::volume_steps(plan::wrapper_plan(i), i.volumes.take(n), i)->Ok_0.ops,
            n,
            i,
        ),
    decreases n,
{
    let p = plan::wrapper_plan(i);
    let l = i.volumes.take(n);
    if n == 0 {
        lemma_wrapper(i);
    } else {
        assert(l.drop_last() =~= i.volumes.take(n - 1));
        assert(l.last() == i.volumes[n - 1]);
        lemma_steps(n - 1, i);
        let q = plan::volume_steps(p, i.volumes.take(n - 1), i)->Ok_0;
        let v = i.volumes[n - 1];
        let more = lemma_volume(q, v, i);
        let all = q.ops + more;
        assert(plan::volume_steps(p, l, i)->Ok_0.ops == all);
        assert forall|k: int| 0 <= k < all.len() implies ({
            ||| (#[trigger] all[k]) is SetFeatures && called_for(all[k], i)
            ||| all[k] is AddTag && called_for(all[k], i)
            ||| exists|j: int| 0 <= j < n && wanted_by(all[k], #[trigger] i.volumes[j], i)
        }) by {
            if k < q.ops.len() {
                assert(all[k] == q.ops[k]);
            } else {
                assert(all[k] == more[k - q.ops.len()]);
                assert(wanted_by(all[k], i.volumes[n - 1], i));
            }
        }
        assert forall|j: int| 0 <= j < n implies seen_to(all, #[trigger] i.volumes[j], i) by {
            lemma_seen_more(q.ops, more, i.volumes[j], i);
        }
        if named_apart(i.volumes) {
            assert forall|j: int, k: int| 0 <= j < k < all.len() implies !twice(
                #[trigger] all[j],
                #[trigger] all[k],
            ) by {
                if k < q.ops.len() {
                    assert(all[j] == q.ops[j] && all[k] == q.ops[k]);
                } else if j >= q.ops.len() {
                    assert(all[j] == more[j - q.ops.len()] && all[k] == more[k - q.ops.len()]);
                } else {
                    assert(all[j] == q.ops[j] && all[k] == more[k - q.ops.len()]);
                    assert(wanted_by(all[k], v, i));
                    if !(all[j] is SetFeatures) && !(all[j] is AddTag) {
                        let x = choose|x: int|
                            0 <= x < n - 1 && wanted_by(q.ops[j], #[trigger] i.volumes[x], i);
                        lemma_not_twice(all[j], i.volumes[x], all[k], v, i);
                    }
                }
            }
        }
        if exists|k: int| 0 <= k < q.ops.len() && (#[trigger] q.ops[k]) is SetFeatures {
            let k = choose|k: int| 0 <= k < q.ops.len() && (#[trigger] q.ops[k]) is SetFeatures;
            assert(all[k] is SetFeatures);
        }
        if i.tag is Some && q.ops.contains(OpV::AddTag(i.tag->0)) {
            let k = choose|k: int| 0 <= k < q.ops.len() && q.ops[k] == OpV::AddTag(i.tag->0);
            assert(all[k] == OpV::AddTag(i.tag->0));
        }
    }
}

proof fn lemma_orphans(p: PlanV, m: Seq<MountV>, v: Seq<VolumeV>)
    ensures
        plan::orphan_notes(p, m, v).ops == p.ops,
    decreases m.len(),
{
    if m.len() > 0 {
        lemma_orphans(p, m.drop_last(), v);
    }
}

proof fn lemma_plan(i: InputsV)
    requires
        plan::plan_of(i) is Ok,
    ensures
        so_far(plan::plan_of(i)->Ok_0.ops, i.volumes.len() as int, i),
{
    let n = i.volumes.len() as int;
    assert(i.volumes.take(n) =~= i.volumes);
    lemma_steps(n, i);
    lemma_orphans(
        plan::volume_steps(plan::wrapper_plan(i), i.volumes, i)->Ok_0,
        i.guest.mounts,
        i.volumes,
    );
}

/// Every operation of a plan is called for: the features that docker needs and
/// the guest lacks, the tag that it lacks, and what a volume of the document
/// lacks at its directory. A disk grows to the size that its volume asks
/// for, from a smaller one; what is created is what its volume asks for, on
/// the storage that it names or else on the node's.
pub proof fn law_every_operation_is_called_for(i: InputsV, k: int)
    requires
        plan::plan_of(i) is Ok,
        0 <= k < plan::plan_of(i)->Ok_0.ops.len(),
    ensures
        called_for(plan::plan_of(i)->Ok_0.ops[k], i),
{
    lemma_plan(i);
    let o = plan::plan_of(i)->Ok_0.ops[k];
}

/// A plan leaves nothing out: every volume is seen to, the features that are
/// lacking are set, and a tag that is lacking is added.
pub proof fn law_nothing_is_left_out(i: InputsV)
    requires
        plan::plan_of(i) is Ok,
    ensures
        ({
            let ops = plan::plan_of(i)->Ok_0.ops;
            &&& forall|j: int|
                0 <= j < i.volumes.len() ==> seen_to(ops, #[trigger] i.volumes[j], i)
            &&& (table::lookup(i.guest.features, "nesting"@) is None || table::lookup(
                i.guest.features,
                "keyctl"@,
            ) is None) ==> exists|k: int| 0 <= k < ops.len() && (#[trigger] ops[k]) is SetFeatures
            &&& (i.tag matches Some(t) && !i.guest.tags.contains(t)) ==> ops.contains(
                OpV::AddTag(i.tag->0),
            )
        }),
{
    lemma_plan(i);
}

/// A plan does nothing twice.
pub proof fn law_nothing_is_done_twice(i: InputsV, j: int, k: int)
    requires
        plan::plan_of(i) is Ok,
        named_apart(i.volumes),
        0 <= j < k < plan::plan_of(i)->Ok_0.ops.len(),
    ensures
        !twice(plan::plan_of(i)->Ok_0.ops[j], plan::plan_of(i)->Ok_0.ops[k]),
{
    lemma_plan(i);
}

/// There is no plan only for a template, and for a disk that would have to be
/// created on no storage in particular.
pub proof fn law_what_has_no_plan(i: InputsV)
    ensures
        plan::plan_of(i) is Err <==> i.guest.is_template || exists|j: int|
            0 <= j < i.volumes.len() && homeless(#[trigger] i.volumes[j], i),
{
    let n = i.volumes.len() as int;
    assert(i.volumes.take(n) =~= i.volumes);
    lemma_refused(n, i);
}

/// Whether a volume is a disk that is not there, and no storage is named for
/// it or stored for the node.
pub open spec fn homeless(v: VolumeV, i: InputsV) -> bool {
    &&& v.kind matches KindV::Disk { storage, .. } && storage is None
    &&& unmounted(i.guest.mounts, volume_dir(v.name))
    &&& !(table::lookup(i.config.nodes, i.node) matches Some(s) && s is Some)
}

proof fn lemma_refused(n: int, i: InputsV)
    requires
        0 <= n <= i.volumes.len(),
    ensures
        plan::volume_steps(plan::wrapper_plan(i), i.volumes.take(n), i) is Err <==> exists|j: int|
            0 <= j < n && homeless(#[trigger] i.volumes[j], i),
    decreases n,
{
    let l = i.volumes.take(n);
    if n > 0 {
        assert(l.drop_last() =~= i.volumes.take(n - 1));
        assert(l.last() == i.volumes[n - 1]);
        lemma_refused(n - 1, i);
        lemma_dir(i.volumes[n - 1].name);
        lemma_mount(i.guest.mounts, spec::dir_of(i.volumes[n - 1].name));
        assert(homeless(i.volumes[n - 1], i) || !homeless(i.volumes[n - 1], i));
    }
}

// ---------------------------------------------------------------------------
// What a plan reports.

proof fn lemma_notes_stay(p: PlanV, v: VolumeV, i: InputsV, t: Text)
    requires
        plan::volume_step(p, v, i) is Ok,
        p.notes.contains(t),
    ensures
        plan::volume_step(p, v, i)->Ok_0.notes.contains(t),
{
    let q = plan::volume_step(p, v, i)->Ok_0;
    let k = choose|k: int| 0 <= k < p.notes.len() && p.notes[k] == t;
    assert(q.notes.len() >= p.notes.len());
    assert(q.notes[k] == t);
}

/// The note that a volume calls for, if it calls for one: what the document
/// says and the guest has otherwise is left as it is, and told.
pub open spec fn to_be_noted(v: VolumeV, i: InputsV, m: MountV, t: Text) -> bool {
    let dir = volume_dir(v.name);
    &&& mounted(i.guest.mounts, dir, m)
    &&& match v.kind {
        KindV::Plain => t == "volume "@ + v.name + ": document says plain directory but "@ + m.key
            + " is mounted at "@ + dir + "; leaving it"@,
        KindV::Bind { path } => if is_disk(m) {
            t == "volume "@ + v.name + ": document says bind of "@ + path + " but "@ + m.key
                + " at "@ + dir + " is a disk; leaving it"@
        } else {
            m.volume != path && t == "volume "@ + v.name + ": bound to "@ + m.volume
                + " but document says "@ + path + "; change it by hand"@
        },
        KindV::Disk { storage, size } => {
            ||| !is_disk(m) && t == "volume "@ + v.name + ": document says a disk but "@ + m.key
                + " at "@ + dir + " is a bind of "@ + m.volume + "; leaving it"@
            ||| is_disk(m) && (m.size matches Some(z) && z > size + 1048576 && t == "volume "@
                + v.name + ": is "@ + size::shown(z) + ", document says "@ + size::shown(size)
                + "; disks never shrink"@)
            ||| is_disk(m) && exists|st: Text, want: Text|
                on_storage(m, st) && st != want && (match storage {
                    Some(s) => s == want,
                    None => table::lookup(i.config.nodes, i.node) == Some(Some(want)),
                }) && t == #[trigger] moved(v.name, st, want)
        },
    }
}

/// Whether a disk is on a storage: its volume begins with it and a colon.
pub open spec fn on_storage(m: MountV, st: Text) -> bool {
    !st.contains(':') && (st + ":"@).is_prefix_of(m.volume)
}

/// The note about a disk on another storage.
pub open spec fn moved(name: Text, st: Text, want: Text) -> Text {
    "volume "@ + name + ": on "@ + st + ", document says "@ + want + "; disks are never moved"@
}

proof fn lemma_storage(m: MountV, st: Text)
    requires
        is_disk(m),
        on_storage(m, st),
    ensures
        m.storage() == Some(st),
{
    reveal_strlit(":");
    let p = st + ":"@;
    let n = st.len() as int;
    assert forall|k: int| 0 <= k < p.len() implies m.volume[k] == p[k] by {
        assert(m.volume.subrange(0, p.len() as int)[k] == p[k]);
    }
    assert(m.volume[n] == p[n]);
    assert forall|k: int| 0 <= k < n implies m.volume[k] != ':' by {
        assert(m.volume[k] == p[k]);
        assert(p[k] == st[k]);
        assert(st.contains(st[k]));
    }
    text::lemma_first_is(m.volume, ':', n);
    assert(m.volume.take(n) =~= st);
}

proof fn lemma_noted_now(p: PlanV, v: VolumeV, i: InputsV, m: MountV, t: Text)
    requires
        plan::volume_step(p, v, i) is Ok,
        to_be_noted(v, i, m, t),
    ensures
        plan::volume_step(p, v, i)->Ok_0.notes.contains(t),
{
    let q = plan::volume_step(p, v, i)->Ok_0;
    lemma_dir(v.name);
    lemma_mount(i.guest.mounts, spec::dir_of(v.name));
    assert(pct::mount_at(i.guest.mounts, spec::dir_of(v.name)) == Some(m));
    if let KindV::Disk { storage, size } = v.kind {
        if is_disk(m) && exists|st: Text, want: Text|
            on_storage(m, st) && st != want && (match storage {
                Some(s) => s == want,
                None => table::lookup(i.config.nodes, i.node) == Some(Some(want)),
            }) && t == #[trigger] moved(v.name, st, want) {
            let (st, want) = choose|st: Text, want: Text|
                on_storage(m, st) && st != want && (match storage {
                    Some(s) => s == want,
                    None => table::lookup(i.config.nodes, i.node) == Some(Some(want)),
                }) && t == #[trigger] moved(v.name, st, want);
            lemma_storage(m, st);
            assert(q.notes[p.notes.len() as int] == t);
        } else {
            assert(q.notes[q.notes.len() - 1] == t);
        }
    } else {
        assert(q.notes[q.notes.len() - 1] == t);
    }
}

proof fn lemma_noted(n: int, i: InputsV, j: int, m: MountV, t: Text)
    requires
        0 <= j < n <= i.volumes.len(),
        plan::volume_steps(plan::wrapper_plan(i), i.volumes.take(n), i) is Ok,
        to_be_noted(i.volumes[j], i, m, t),
    ensures
        plan::volume_steps(
            plan::wrapper_plan(i),
            i.volumes.take(n),
            i,
        )->Ok_0.notes.contains(t),
    decreases n,
{
    let p = plan::wrapper_plan(i);
    let l = i.volumes.take(n);
    assert(l.drop_last() =~= i.volumes.take(n - 1));
    assert(l.last() == i.volumes[n - 1]);
    let q = plan::volume_steps(p, i.volumes.take(n - 1), i)->Ok_0;
    if j < n - 1 {
        lemma_noted(n - 1, i, j, m, t);
        lemma_notes_stay(q, i.volumes[n - 1], i, t);
    } else {
        lemma_noted_now(q, i.volumes[j], i, m, t);
    }
}

proof fn lemma_orphan(p: PlanV, m: Seq<MountV>, v: Seq<VolumeV>, k: int, name: Text)
    requires
        0 <= k < m.len(),
        m[k].mp == Some(volume_dir(name)),
        forall|j: int| 0 <= j < v.len() ==> (#[trigger] v[j]).name != name,
    ensures
        plan::orphan_notes(p, m, v).notes.contains(orphaned(m[k], name)),
    decreases m.len(),
{
    let f = m.drop_last();
    let q = plan::orphan_notes(p, f, v);
    let r = plan::orphan_notes(p, m, v);
    reveal_strlit("/opt/stack/volumes");
    reveal_strlit("/");
    reveal_strlit("/opt/stack/volumes/");
    assert(plan::volumes_prefix() =~= "/opt/stack/volumes/"@);
    if k < f.len() {
        assert(f[k] == m[k]);
        lemma_orphan(p, f, v, k, name);
        let x = choose|x: int| 0 <= x < q.notes.len() && q.notes[x] == orphaned(m[k], name);
        assert(r.notes[x] == q.notes[x]);
    } else {
        let mp = volume_dir(name);
        let pre = plan::volumes_prefix();
        assert(mp.subrange(0, pre.len() as int) =~= pre);
        assert(mp.skip(pre.len() as int) =~= name);
        assert(r.notes.last() == orphaned(m[k], name));
        assert(r.notes[r.notes.len() - 1] == orphaned(m[k], name));
    }
}

/// The note about a mount whose volume is gone.
pub open spec fn orphaned(m: MountV, name: Text) -> Text {
    "orphan: "@ + m.key + " at "@ + volume_dir(name) + " has no volume '"@ + name
        + "' in the document; kept (remove it by hand)"@
}

proof fn lemma_orphans_keep(p: PlanV, m: Seq<MountV>, v: Seq<VolumeV>, t: Text)
    requires
        p.notes.contains(t),
    ensures
        plan::orphan_notes(p, m, v).notes.contains(t),
    decreases m.len(),
{
    if m.len() > 0 {
        lemma_orphans_keep(p, m.drop_last(), v, t);
        let q = plan::orphan_notes(p, m.drop_last(), v);
        let r = plan::orphan_notes(p, m, v);
        let x = choose|x: int| 0 <= x < q.notes.len() && q.notes[x] == t;
        assert(r.notes[x] == t);
    }
}

/// What the guest has otherwise than the document says, and no plan changes,
/// is told: a mount where a plain directory is meant, a disk where a bind is
/// meant, a bind of another path, a bind where a disk is meant, a disk that is
/// larger, and a disk on another storage.
pub proof fn law_differences_are_told(i: InputsV, j: int, m: MountV, t: Text)
    requires
        plan::plan_of(i) is Ok,
        0 <= j < i.volumes.len(),
        to_be_noted(i.volumes[j], i, m, t),
    ensures
        plan::plan_of(i)->Ok_0.notes.contains(t),
{
    let n = i.volumes.len() as int;
    assert(i.volumes.take(n) =~= i.volumes);
    lemma_noted(n, i, j, m, t);
    lemma_orphans_keep(
        plan::volume_steps(plan::wrapper_plan(i), i.volumes, i)->Ok_0,
        i.guest.mounts,
        i.volumes,
        t,
    );
}

/// A mount at the directory of a volume that the document does not have is
/// kept, and told.
pub proof fn law_a_mount_without_a_volume_is_told(i: InputsV, k: int, name: Text)
    requires
        plan::plan_of(i) is Ok,
        0 <= k < i.guest.mounts.len(),
        i.guest.mounts[k].mp == Some(volume_dir(name)),
        forall|j: int| 0 <= j < i.volumes.len() ==> (#[trigger] i.volumes[j]).name != name,
    ensures
        plan::plan_of(i)->Ok_0.notes.contains(orphaned(i.guest.mounts[k], name)),
{
    lemma_orphan(
        plan::volume_steps(plan::wrapper_plan(i), i.volumes, i)->Ok_0,
        i.guest.mounts,
        i.volumes,
        k,
        name,
    );
}

proof fn lemma_steps_keep_notes(n: int, i: InputsV, t: Text)
    requires
        0 <= n <= i.volumes.len(),
        plan::volume_steps(plan::wrapper_plan(i), i.volumes.take(n), i) is Ok,
        plan::wrapper_plan(i).notes.contains(t),
    ensures
        plan::volume_steps(
            plan::wrapper_plan(i),
            i.volumes.take(n),
            i,
        )->Ok_0.notes.contains(t),
    decreases n,
{
    let p = plan::wrapper_plan(i);
    let l = i.volumes.take(n);
    if n > 0 {
        assert(l.drop_last() =~= i.volumes.take(n - 1));
        assert(l.last() == i.volumes[n - 1]);
        lemma_steps_keep_notes(n - 1, i, t);
        let q = plan::volume_steps(p, i.volumes.take(n - 1), i)->Ok_0;
        lemma_notes_stay(q, i.volumes[n - 1], i, t);
    }
}

/// A privileged guest is told of.
pub proof fn law_a_privileged_guest_is_told(i: InputsV)
    requires
        plan::plan_of(i) is Ok,
        !i.guest.unprivileged,
    ensures
        plan::plan_of(i)->Ok_0.notes.contains(
            "guest is privileged; pve-compose expects unprivileged wrappers, continuing"@,
        ),
{
    let t = "guest is privileged; pve-compose expects unprivileged wrappers, continuing"@;
    let n = i.volumes.len() as int;
    assert(i.volumes.take(n) =~= i.volumes);
    assert(plan::wrapper_plan(i).notes[0] == t);
    lemma_steps_keep_notes(n, i, t);
    lemma_orphans_keep(
        plan::volume_steps(plan::wrapper_plan(i), i.volumes, i)->Ok_0,
        i.guest.mounts,
        i.volumes,
        t,
    );
}

} // verus!
