//! The pct-level plan: what turns the wrapper's config into what the document
//! asks for. Pure: reads a `GuestConfig` and the document's volumes, produces
//! operations and notes. `execute` runs the operations through `pct`.
//!
//! Rules:
//! * a managed disk is identified by its mount path, never by its index;
//! * disks grow, never shrink, never move, are never deleted by this tool;
//! * a mount under the volumes directory with no volume in the document is
//!   an orphan: reported, kept;
//! * a disk that is to be created needs a storage, named by the document or
//!   stored for the node; it is never guessed.

use vstd::prelude::*;

use crate::VOLUMES_DIR;
use crate::config::{self, Config, ConfigV};
use crate::doc::Doc;
use crate::error::{Chain, Error};
use crate::num;
use crate::pct::{self, GuestConfig, GuestConfigV, Mount, MountV};
use crate::size::{self, Size};
use crate::spec::{self, Kind, KindV, Volume, VolumeV};
use crate::table::{self, Table};
use crate::text::{self, Text};
use crate::world::{self, Stop, StopV, World, WorldV};

verus! {

/// One change to the wrapper.
#[derive(Debug)]
pub enum Op {
    SetFeatures(String),
    AddTag(String),
    CreateDisk { mp: String, storage: String, size: Size, backup: bool },
    CreateBind { mp: String, path: String },
    Resize { key: String, mp: String, from: Size, to: Size },
    /// Rewrites an existing mount line with a changed `backup` flag.
    SetBackup { mount: Mount, backup: bool },
}

/// What an [`Op`] is, as mathematics.
pub enum OpV {
    SetFeatures(Text),
    AddTag(Text),
    CreateDisk { mp: Text, storage: Text, size: nat, backup: bool },
    CreateBind { mp: Text, path: Text },
    Resize { key: Text, mp: Text, from: nat, to: nat },
    SetBackup { mount: MountV, backup: bool },
}

impl View for Op {
    type V = OpV;

    open spec fn view(&self) -> OpV {
        match *self {
            Op::SetFeatures(s) => OpV::SetFeatures(s@),
            Op::AddTag(t) => OpV::AddTag(t@),
            Op::CreateDisk { mp, storage, size, backup } => OpV::CreateDisk {
                mp: mp@,
                storage: storage@,
                size: size@,
                backup,
            },
            Op::CreateBind { mp, path } => OpV::CreateBind { mp: mp@, path: path@ },
            Op::Resize { key, mp, from, to } => OpV::Resize {
                key: key@,
                mp: mp@,
                from: from@,
                to: to@,
            },
            Op::SetBackup { mount, backup } => OpV::SetBackup { mount: mount@, backup },
        }
    }
}

/// A flag as PVE writes it.
pub open spec fn bit(b: bool) -> Text {
    if b {
        "1"@
    } else {
        "0"@
    }
}

/// An operation as it is shown.
pub open spec fn op_shown(o: OpV) -> Text {
    match o {
        OpV::SetFeatures(s) => "features: "@ + s + " (takes effect on restart)"@,
        OpV::AddTag(t) => "tag: add '"@ + t + "'"@,
        OpV::CreateDisk { mp, storage, size, backup } => "disk: create "@ + size::shown(size)
            + " on "@ + storage + " at "@ + mp + (if backup {
            Seq::empty()
        } else {
            " (backup=0)"@
        }),
        OpV::CreateBind { mp, path } => "bind: "@ + path + " at "@ + mp,
        OpV::Resize { key, mp, from, to } => "disk: grow "@ + key + " ("@ + mp + ") "@
            + size::shown(from) + " -> "@ + size::shown(to),
        OpV::SetBackup { mount, backup } => "disk: "@ + mount.key + " ("@ + (match mount.mp {
            Some(p) => p,
            None => "?"@,
        }) + ") backup="@ + bit(backup),
    }
}

fn print_bit(b: bool) -> (r: String)
    ensures
        r@ == bit(b),
{
    if b {
        "1".to_owned()
    } else {
        "0".to_owned()
    }
}

impl Op {
    /// The operation as it is shown.
    pub fn to_string(&self) -> (r: String)
        ensures
            r@ == op_shown(self@),
    {
        match self {
            Op::SetFeatures(s) => text::cat3("features: ", s.as_str(), " (takes effect on restart)"),
            Op::AddTag(t) => text::cat3("tag: add '", t.as_str(), "'"),
            Op::CreateDisk { mp, storage, size, backup } => {
                let none = String::new();
                text::cat7(
                    "disk: create ",
                    size.to_string().as_str(),
                    " on ",
                    storage.as_str(),
                    " at ",
                    mp.as_str(),
                    if *backup {
                        none.as_str()
                    } else {
                        " (backup=0)"
                    },
                )
            },
            Op::CreateBind { mp, path } => text::cat4("bind: ", path.as_str(), " at ", mp.as_str()),
            Op::Resize { key, mp, from, to } => text::cat8(
                "disk: grow ",
                key.as_str(),
                " (",
                mp.as_str(),
                ") ",
                from.to_string().as_str(),
                " -> ",
                to.to_string().as_str(),
            ),
            Op::SetBackup { mount, backup } => {
                let p = match &mount.mp {
                    Some(p) => p.clone(),
                    None => "?".to_owned(),
                };
                text::cat6(
                    "disk: ",
                    mount.key.as_str(),
                    " (",
                    p.as_str(),
                    ") backup=",
                    print_bit(*backup).as_str(),
                )
            },
        }
    }
}

/// What is to be done, and what the operator should know beside it.
#[derive(Debug)]
pub struct Plan {
    pub ops: Vec<Op>,
    /// Things the plan does not do but the operator should know.
    pub notes: Vec<String>,
}

/// What a [`Plan`] is, as mathematics.
pub struct PlanV {
    pub ops: Seq<OpV>,
    pub notes: Seq<Text>,
}

impl View for Plan {
    type V = PlanV;

    open spec fn view(&self) -> PlanV {
        PlanV { ops: text::views(self.ops@), notes: text::views(self.notes@) }
    }
}

impl PlanV {
    pub open spec fn op(self, o: OpV) -> PlanV {
        PlanV { ops: self.ops.push(o), ..self }
    }

    pub open spec fn note(self, t: Text) -> PlanV {
        PlanV { notes: self.notes.push(t), ..self }
    }
}

impl Plan {
    pub fn is_empty(&self) -> (r: bool)
        ensures
            r == (self@.ops.len() == 0),
    {
        self.ops.len() == 0
    }

    fn op(&mut self, o: Op)
        ensures
            final(self)@ == old(self)@.op(o@),
    {
        let ghost before = self.ops@;
        self.ops.push(o);
        assert(text::views(self.ops@) =~= text::views(before).push(o@));
    }

    fn note(&mut self, t: String)
        ensures
            final(self)@ == old(self)@.note(t@),
    {
        let ghost before = self.notes@;
        self.notes.push(t);
        assert(text::views(self.notes@) =~= text::views(before).push(t@));
    }
}

/// Every setting the plan derives from the document, config and node.
pub struct Inputs<'a> {
    pub node: &'a str,
    pub config: &'a Config,
    /// The tag the prefix selects on; `None` when it reaches every guest.
    pub tag: Option<&'a str>,
    pub guest: &'a GuestConfig,
    pub doc: &'a Doc,
    pub volumes: &'a Vec<Volume>,
}

/// What [`Inputs`] are, as mathematics. The plan reads the document through
/// its volumes.
pub struct InputsV {
    pub node: Text,
    pub config: ConfigV,
    pub tag: Option<Text>,
    pub guest: GuestConfigV,
    pub volumes: Seq<VolumeV>,
}

impl<'a> View for Inputs<'a> {
    type V = InputsV;

    open spec fn view(&self) -> InputsV {
        InputsV {
            node: self.node@,
            config: self.config@,
            tag: text::opt(self.tag),
            guest: self.guest@,
            volumes: text::views(self.volumes@),
        }
    }
}

// ---------------------------------------------------------------------------
// What the plan is.

/// Whether a disk is as large as asked for. PVE reports the size it has; a
/// fraction of a GiB rounds in the tool that created it, so a difference
/// under 1 MiB is no difference.
pub open spec fn satisfied(have: Option<nat>, want: nat) -> bool {
    match have {
        Some(h) => h + size::MIB >= want,
        None => false,
    }
}

pub fn disk_size_satisfied(have: Option<Size>, want: Size) -> (r: bool)
    ensures
        r == satisfied(text::opt(have), want@),
{
    match have {
        Some(h) => h.0 as u128 + size::MIB as u128 >= want.0 as u128,
        None => false,
    }
}

/// The features with one of them on, unless it has been set.
pub open spec fn with_feature(f: Seq<(Text, Text)>, k: Text) -> Seq<(Text, Text)> {
    match table::lookup(f, k) {
        Some(_) => f,
        None => table::inserted(f, k, "1"@),
    }
}

/// The features with the two that docker needs.
pub open spec fn wanted_features(f: Seq<(Text, Text)>) -> Seq<(Text, Text)> {
    with_feature(with_feature(f, "nesting"@), "keyctl"@)
}

/// The features as PVE writes them.
pub open spec fn features_shown(f: Seq<(Text, Text)>) -> Text {
    text::joined(f.map_values(|e: (Text, Text)| e.0 + "="@ + e.1), ","@)
}

/// The plan for the wrapper itself: its features and its tag.
pub open spec fn wrapper_plan(i: InputsV) -> PlanV {
    let p = PlanV { ops: Seq::empty(), notes: Seq::empty() };
    let p = if !i.guest.unprivileged {
        p.note("guest is privileged; pve-compose expects unprivileged wrappers, continuing"@)
    } else {
        p
    };
    let p = if wanted_features(i.guest.features) != i.guest.features {
        p.op(OpV::SetFeatures(features_shown(wanted_features(i.guest.features))))
    } else {
        p
    };
    match i.tag {
        Some(t) => if !i.guest.tags.contains(t) {
            p.op(OpV::AddTag(t))
        } else {
            p
        },
        None => p,
    }
}

/// What becomes of a plain volume.
pub open spec fn plain_step(p: PlanV, v: VolumeV, m: Option<MountV>) -> PlanV {
    match m {
        Some(m) => p.note(
            "volume "@ + v.name + ": document says plain directory but "@ + m.key
                + " is mounted at "@ + spec::dir_of(v.name) + "; leaving it"@,
        ),
        None => p,
    }
}

/// What becomes of a volume that is to be a bind mount.
pub open spec fn bind_step(p: PlanV, v: VolumeV, path: Text, m: Option<MountV>) -> PlanV {
    match m {
        None => p.op(OpV::CreateBind { mp: spec::dir_of(v.name), path }),
        Some(m) => if !m.is_bind() {
            p.note(
                "volume "@ + v.name + ": document says bind of "@ + path + " but "@ + m.key
                    + " at "@ + spec::dir_of(v.name) + " is a disk; leaving it"@,
            )
        } else if m.volume != path {
            p.note(
                "volume "@ + v.name + ": bound to "@ + m.volume + " but document says "@ + path
                    + "; change it by hand"@,
            )
        } else {
            p
        },
    }
}

/// What is noted about a disk that is on another storage than asked for.
pub open spec fn storage_note(p: PlanV, v: VolumeV, m: MountV, storage: Option<Text>) -> PlanV {
    match (m.storage(), storage) {
        (Some(st), Some(want)) => if st != want {
            p.note(
                "volume "@ + v.name + ": on "@ + st + ", document says "@ + want
                    + "; disks are never moved"@,
            )
        } else {
            p
        },
        _ => p,
    }
}

/// A disk that is too small grows; one that is larger than asked for is
/// noted.
pub open spec fn size_step(p: PlanV, v: VolumeV, m: MountV, size: nat) -> PlanV {
    if !satisfied(m.size, size) {
        p.op(
            OpV::Resize {
                key: m.key,
                mp: spec::dir_of(v.name),
                from: m.size.unwrap_or(0),
                to: size,
            },
        )
    } else if m.size.unwrap_or(0) > size + size::MIB {
        p.note(
            "volume "@ + v.name + ": is "@ + size::shown(m.size.unwrap_or(0))
                + ", document says "@ + size::shown(size) + "; disks never shrink"@,
        )
    } else {
        p
    }
}

pub open spec fn backup_step(p: PlanV, v: VolumeV, m: MountV) -> PlanV {
    if m.backup != v.backup {
        p.op(OpV::SetBackup { mount: m, backup: v.backup })
    } else {
        p
    }
}

/// The refusal of a disk that would have to be created somewhere.
pub open spec fn no_storage(v: VolumeV, node: Text) -> Text {
    "volume "@ + v.name + ": no storage named and none stored for "@ + node
        + "; `pve-compose config set storage <storage>`"@
}

/// What becomes of a volume that is to be a disk.
pub open spec fn disk_step(
    p: PlanV,
    v: VolumeV,
    storage: Option<Text>,
    size: nat,
    m: Option<MountV>,
    node: Text,
) -> Result<PlanV, Chain> {
    match m {
        None => match storage {
            Some(s) => Ok(
                p.op(
                    OpV::CreateDisk {
                        mp: spec::dir_of(v.name),
                        storage: s,
                        size,
                        backup: v.backup,
                    },
                ),
            ),
            None => Err(seq![no_storage(v, node)]),
        },
        Some(m) => if m.is_bind() {
            Ok(
                p.note(
                    "volume "@ + v.name + ": document says a disk but "@ + m.key + " at "@
                        + spec::dir_of(v.name) + " is a bind of "@ + m.volume
                        + "; leaving it"@,
                ),
            )
        } else {
            Ok(backup_step(size_step(storage_note(p, v, m, storage), v, m, size), v, m))
        },
    }
}

/// What becomes of a volume.
pub open spec fn volume_step(p: PlanV, v: VolumeV, i: InputsV) -> Result<PlanV, Chain> {
    let m = pct::mount_at(i.guest.mounts, spec::dir_of(v.name));
    match v.kind {
        KindV::Plain => Ok(plain_step(p, v, m)),
        KindV::Bind { path } => Ok(bind_step(p, v, path, m)),
        KindV::Disk { storage, size } => disk_step(
            p,
            v,
            match storage {
                Some(s) => Some(s),
                None => config::storage_for(i.config, i.node),
            },
            size,
            m,
            i.node,
        ),
    }
}

pub open spec fn volume_steps(p: PlanV, v: Seq<VolumeV>, i: InputsV) -> Result<PlanV, Chain>
    decreases v.len(),
{
    if v.len() == 0 {
        Ok(p)
    } else {
        match volume_steps(p, v.drop_last(), i) {
            Err(c) => Err(c),
            Ok(p) => volume_step(p, v.last(), i),
        }
    }
}

/// Whether a document has a volume of a name.
pub open spec fn has_volume(v: Seq<VolumeV>, name: Text) -> bool {
    exists|i: int| 0 <= i < v.len() && (#[trigger] v[i]).name == name
}

/// The path that every managed mount is under.
pub open spec fn volumes_prefix() -> Text {
    VOLUMES_DIR@ + "/"@
}

/// The name of the volume that a mount is for, if it is under the volumes
/// directory and the document has no such volume.
pub open spec fn orphan(m: MountV, v: Seq<VolumeV>) -> Option<Text> {
    match m.mp {
        Some(mp) => if volumes_prefix().is_prefix_of(mp) && !has_volume(
            v,
            mp.skip(volumes_prefix().len() as int),
        ) {
            Some(mp.skip(volumes_prefix().len() as int))
        } else {
            None
        },
        None => None,
    }
}

pub open spec fn orphan_note(m: MountV, name: Text) -> Text {
    "orphan: "@ + m.key + " at "@ + m.mp->0 + " has no volume '"@ + name
        + "' in the document; kept (remove it by hand)"@
}

pub open spec fn orphan_notes(p: PlanV, m: Seq<MountV>, v: Seq<VolumeV>) -> PlanV
    decreases m.len(),
{
    if m.len() == 0 {
        p
    } else {
        let p = orphan_notes(p, m.drop_last(), v);
        match orphan(m.last(), v) {
            Some(name) => p.note(orphan_note(m.last(), name)),
            None => p,
        }
    }
}

/// What turns the wrapper into what the document asks for, or why nothing
/// does.
pub open spec fn plan_of(i: InputsV) -> Result<PlanV, Chain> {
    if i.guest.is_template {
        Err(seq!["guest "@ + num::dec(i.guest.vmid as nat) + " is a template"@])
    } else {
        match volume_steps(wrapper_plan(i), i.volumes, i) {
            Err(c) => Err(c),
            Ok(p) => Ok(orphan_notes(p, i.guest.mounts, i.volumes)),
        }
    }
}

// ---------------------------------------------------------------------------
// Building it.

fn same_features(a: &Table<String>, b: &Table<String>) -> (r: bool)
    ensures
        r == (a@ == b@),
{
    if a.entries.len() != b.entries.len() {
        assert(a@.len() != b@.len());
        return false;
    }
    for i in 0..a.entries.len()
        invariant
            a.entries@.len() == b.entries@.len(),
            forall|j: int| 0 <= j < i ==> a@[j] == b@[j],
    {
        if !text::same(a.entries[i].0.as_str(), b.entries[i].0.as_str()) || !text::same(
            a.entries[i].1.as_str(),
            b.entries[i].1.as_str(),
        ) {
            assert(a@[i as int] != b@[i as int]);
            return false;
        }
    }
    assert(a@ =~= b@);
    true
}

fn print_features(f: &Table<String>) -> (r: String)
    ensures
        r@ == features_shown(f@),
{
    let mut items: Vec<String> = Vec::new();
    for i in 0..f.entries.len()
        invariant
            items@.len() == i,
            forall|j: int|
                0 <= j < i ==> (#[trigger] items@[j])@ == f.entries@[j].0@ + "="@
                    + f.entries@[j].1@,
    {
        items.push(text::cat3(f.entries[i].0.as_str(), "=", f.entries[i].1.as_str()));
    }
    assert(text::views(items@) =~= f@.map_values(|e: (Text, Text)| e.0 + "="@ + e.1));
    text::join(&items, ",")
}

fn want_feature(f: &mut Table<String>, k: &str)
    ensures
        final(f)@ == with_feature(old(f)@, k@),
{
    if f.get(k).is_none() {
        f.insert(k.to_owned(), "1".to_owned());
    }
}

fn plan_wrapper(i: &Inputs<'_>) -> (r: Plan)
    ensures
        r@ == wrapper_plan(i@),
{
    let mut p = Plan { ops: Vec::new(), notes: Vec::new() };
    assert(p@.ops =~= Seq::empty());
    assert(p@.notes =~= Seq::empty());
    let g = i.guest;
    if !g.unprivileged {
        p.note(
            "guest is privileged; pve-compose expects unprivileged wrappers, continuing".to_owned(),
        );
    }
    // The two features docker needs. Everything else about the wrapper
    // (cores, memory, other features, network) is PVE config and not this
    // tool's to touch.
    let mut want = table::copied(&g.features);
    want_feature(&mut want, "nesting");
    want_feature(&mut want, "keyctl");
    if !same_features(&want, &g.features) {
        p.op(Op::SetFeatures(print_features(&want)));
    }
    if let Some(t) = i.tag {
        if !g.has_tag(t) {
            p.op(Op::AddTag(t.to_owned()));
        }
    }
    p
}

fn plan_disk(
    p: &mut Plan,
    v: &Volume,
    storage: Option<String>,
    size: Size,
    i: &Inputs<'_>,
) -> (r: Result<(), Error>)
    ensures
        match r {
            Ok(_) => disk_step(
                old(p)@,
                v@,
                text::opt(storage),
                size@,
                pct::mount_at(i@.guest.mounts, spec::dir_of(v@.name)),
                i@.node,
            ) == Ok::<PlanV, Chain>(final(p)@),
            Err(e) => disk_step(
                old(p)@,
                v@,
                text::opt(storage),
                size@,
                pct::mount_at(i@.guest.mounts, spec::dir_of(v@.name)),
                i@.node,
            ) == Err::<PlanV, Chain>(e@),
        },
{
    let dir = v.dir();
    match i.guest.mount_at(dir.as_str()) {
        None => match storage {
            Some(s) => {
                p.op(Op::CreateDisk { mp: dir, storage: s, size, backup: v.backup });
                Ok(())
            },
            None => Err(
                Error::new(
                    text::cat5(
                        "volume ",
                        v.name.as_str(),
                        ": no storage named and none stored for ",
                        i.node,
                        "; `pve-compose config set storage <storage>`",
                    ),
                ),
            ),
        },
        Some(m) => {
            if m.is_bind() {
                p.note(
                    text::cat9(
                        "volume ",
                        v.name.as_str(),
                        ": document says a disk but ",
                        m.key.as_str(),
                        " at ",
                        dir.as_str(),
                        " is a bind of ",
                        m.volume.as_str(),
                        "; leaving it",
                    ),
                );
                return Ok(());
            }
            if let Some(st) = m.storage() {
                if let Some(want) = storage {
                    if !text::same(st.as_str(), want.as_str()) {
                        p.note(
                            text::cat7(
                                "volume ",
                                v.name.as_str(),
                                ": on ",
                                st.as_str(),
                                ", document says ",
                                want.as_str(),
                                "; disks are never moved",
                            ),
                        );
                    }
                }
            }
            let have = match m.size {
                Some(h) => h,
                None => Size(0),
            };
            if !disk_size_satisfied(m.size, size) {
                p.op(Op::Resize { key: m.key.clone(), mp: dir, from: have, to: size });
            } else if have.0 as u128 > size.0 as u128 + size::MIB as u128 {
                p.note(
                    text::cat7(
                        "volume ",
                        v.name.as_str(),
                        ": is ",
                        have.to_string().as_str(),
                        ", document says ",
                        size.to_string().as_str(),
                        "; disks never shrink",
                    ),
                );
            }
            if m.backup != v.backup {
                p.op(Op::SetBackup { mount: m.clone(), backup: v.backup });
            }
            Ok(())
        },
    }
}

fn plan_volume(p: &mut Plan, v: &Volume, i: &Inputs<'_>) -> (r: Result<(), Error>)
    ensures
        match r {
            Ok(_) => volume_step(old(p)@, v@, i@) == Ok::<PlanV, Chain>(final(p)@),
            Err(e) => volume_step(old(p)@, v@, i@) == Err::<PlanV, Chain>(e@),
        },
{
    let dir = v.dir();
    match &v.kind {
        Kind::Plain => {
            if let Some(m) = i.guest.mount_at(dir.as_str()) {
                p.note(
                    text::cat7(
                        "volume ",
                        v.name.as_str(),
                        ": document says plain directory but ",
                        m.key.as_str(),
                        " is mounted at ",
                        dir.as_str(),
                        "; leaving it",
                    ),
                );
            }
            Ok(())
        },
        Kind::Bind { path } => {
            match i.guest.mount_at(dir.as_str()) {
                None => {
                    p.op(Op::CreateBind { mp: dir, path: path.clone() });
                },
                Some(m) => {
                    if !m.is_bind() {
                        p.note(
                            text::cat9(
                                "volume ",
                                v.name.as_str(),
                                ": document says bind of ",
                                path.as_str(),
                                " but ",
                                m.key.as_str(),
                                " at ",
                                dir.as_str(),
                                " is a disk; leaving it",
                            ),
                        );
                    } else if !text::same(m.volume.as_str(), path.as_str()) {
                        p.note(
                            text::cat7(
                                "volume ",
                                v.name.as_str(),
                                ": bound to ",
                                m.volume.as_str(),
                                " but document says ",
                                path.as_str(),
                                "; change it by hand",
                            ),
                        );
                    }
                },
            }
            Ok(())
        },
        Kind::Disk { storage, size } => {
            let storage = match storage {
                Some(s) => Some(s.clone()),
                None => i.config.storage_for(i.node),
            };
            plan_disk(p, v, storage, *size, i)
        },
    }
}

proof fn lemma_steps_fail(p: PlanV, v: Seq<VolumeV>, i: InputsV, n: int)
    requires
        0 <= n <= v.len(),
        volume_steps(p, v.take(n), i) is Err,
    ensures
        volume_steps(p, v, i) == volume_steps(p, v.take(n), i),
    decreases v.len(),
{
    if n < v.len() {
        assert(v.drop_last().take(n) =~= v.take(n));
        lemma_steps_fail(p, v.drop_last(), i, n);
    } else {
        assert(v.take(n) =~= v);
    }
}

fn names_volume(v: &Vec<Volume>, name: &str) -> (r: bool)
    ensures
        r == has_volume(text::views(v@), name@),
{
    let ghost all = text::views(v@);
    for i in 0..v.len()
        invariant
            all == text::views(v@),
            forall|j: int| 0 <= j < i ==> (#[trigger] all[j]).name != name@,
    {
        assert(all[i as int] == v@[i as int]@);
        if text::same(v[i].name.as_str(), name) {
            return true;
        }
    }
    false
}

fn note_orphans(p: &mut Plan, i: &Inputs<'_>)
    ensures
        final(p)@ == orphan_notes(old(p)@, i@.guest.mounts, i@.volumes),
{
    let prefix = text::cat(VOLUMES_DIR, "/");
    let ghost all = i@.guest.mounts;
    let ghost start = p@;
    assert(all.take(0) =~= Seq::empty());
    for n in 0..i.guest.mounts.len()
        invariant
            prefix@ == volumes_prefix(),
            all == text::views(i.guest.mounts@),
            p@ == orphan_notes(start, all.take(n as int), i@.volumes),
    {
        assert(all.take(n + 1).drop_last() =~= all.take(n as int));
        assert(all.take(n + 1).last() == i.guest.mounts@[n as int]@);
        let m = &i.guest.mounts[n];
        if let Some(mp) = &m.mp {
            if let Some(name) = text::strip_prefix(mp.as_str(), prefix.as_str()) {
                if !names_volume(i.volumes, name.as_str()) {
                    p.note(
                        text::cat7(
                            "orphan: ",
                            m.key.as_str(),
                            " at ",
                            mp.as_str(),
                            " has no volume '",
                            name.as_str(),
                            "' in the document; kept (remove it by hand)",
                        ),
                    );
                }
            }
        }
    }
    assert(all.take(all.len() as int) =~= all);
}

/// The plan for a guest.
pub fn build(i: &Inputs<'_>) -> (r: Result<Plan, Error>)
    ensures
        match r {
            Ok(p) => plan_of(i@) == Ok::<PlanV, Chain>(p@),
            Err(e) => plan_of(i@) == Err::<PlanV, Chain>(e@),
        },
{
    if i.guest.is_template {
        return Err(
            Error::new(
                text::cat3("guest ", num::print(i.guest.vmid as u64).as_str(), " is a template"),
            ),
        );
    }
    let mut p = plan_wrapper(i);
    let ghost start = p@;
    let ghost all = i@.volumes;
    assert(all.take(0) =~= Seq::empty());
    for n in 0..i.volumes.len()
        invariant
            all == text::views(i.volumes@),
            start == wrapper_plan(i@),
            plan_of(i@) == (match volume_steps(start, all, i@) {
                Err(c) => Err(c),
                Ok(p) => Ok(orphan_notes(p, i@.guest.mounts, i@.volumes)),
            }),
            volume_steps(start, all.take(n as int), i@) == Ok::<PlanV, Chain>(p@),
    {
        assert(all.take(n + 1).drop_last() =~= all.take(n as int));
        assert(all.take(n + 1).last() == i.volumes@[n as int]@);
        match plan_volume(&mut p, &i.volumes[n], i) {
            Ok(_) => {},
            Err(e) => {
                proof {
                    lemma_steps_fail(start, all, i@, n + 1);
                }
                return Err(e);
            },
        }
    }
    assert(all.take(all.len() as int) =~= all);
    note_orphans(&mut p, i);
    Ok(p)
}

// ---------------------------------------------------------------------------
// Running it.

/// The lowest index from `i` on that no mount of the guest uses; none can use
/// one beyond 32 bits.
pub open spec fn unused_from(m: Seq<MountV>, i: nat) -> nat
    decreases 0x1_0000_0000 - i,
{
    if i >= 0x1_0000_0000 {
        0x1_0000_0000
    } else if pct::index_used(m, i) {
        unused_from(m, i + 1)
    } else {
        i
    }
}

/// The line of a disk that is to be created.
pub open spec fn disk_line(mp: Text, storage: Text, size: nat, backup: bool) -> Text {
    storage + ":"@ + size::gib(size) + ",mp="@ + mp + ",backup="@ + bit(backup)
}

/// The arguments of `pct set` for an operation that is one, with the index
/// that a new mount takes.
pub open spec fn set_args(g: GuestConfigV, o: OpV, index: nat) -> Seq<Text> {
    match o {
        OpV::SetFeatures(s) => seq!["--features"@, s],
        OpV::AddTag(t) => seq!["--tags"@, text::joined(g.tags.push(t), ";"@)],
        OpV::CreateDisk { mp, storage, size, backup } => seq![
            "--mp"@ + num::dec(index),
            disk_line(mp, storage, size, backup),
        ],
        OpV::CreateBind { mp, path } => seq!["--mp"@ + num::dec(index), path + ",mp="@ + mp],
        OpV::SetBackup { mount, backup } => seq![
            "--"@ + mount.key,
            pct::mount_shown(MountV { backup, ..mount }),
        ],
        OpV::Resize { .. } => Seq::empty(),
    }
}

/// Whether an operation makes a new mount.
pub open spec fn creates(o: OpV) -> bool {
    o is CreateDisk || o is CreateBind
}

/// One operation run.
pub open spec fn op_s(w: WorldV, g: GuestConfigV, o: OpV, next: nat) -> (
    WorldV,
    Result<(), StopV>,
) {
    match o {
        OpV::Resize { key, to, .. } => pct::resize_s(w, g.vmid, key, to),
        _ => pct::set_s(w, g.vmid, set_args(g, o, unused_from(g.mounts, next))),
    }
}

/// The operations run one after the other, each shown before it is run.
pub open spec fn ops_s(w: WorldV, g: GuestConfigV, ops: Seq<OpV>, next: nat) -> (
    WorldV,
    Result<(), StopV>,
)
    decreases ops.len(),
{
    if ops.len() == 0 {
        (w, Ok(()))
    } else {
        match op_s(w.note("  "@ + op_shown(ops[0])), g, ops[0], next) {
            (w, Err(e)) => (w, Err(e)),
            (w, Ok(_)) => ops_s(
                w,
                g,
                ops.skip(1),
                if creates(ops[0]) {
                    unused_from(g.mounts, next) + 1
                } else {
                    next
                },
            ),
        }
    }
}

pub open spec fn execute_s(w: WorldV, g: GuestConfigV, p: PlanV) -> (WorldV, Result<(), StopV>) {
    ops_s(w, g, p.ops, pct::free_from(g.mounts, 0))
}

fn next_index(g: &GuestConfig, from: u64) -> (r: u64)
    ensures
        r == unused_from(g@.mounts, from as nat),
        r <= 0x1_0000_0000,
{
    let mut i: u64 = from;
    while i < 0x1_0000_0000 && pct::uses_index(&g.mounts, i)
        invariant
            unused_from(g@.mounts, from as nat) == unused_from(g@.mounts, i as nat),
        decreases 0x1_0000_0000 - i,
    {
        i = i + 1;
    }
    if i < 0x1_0000_0000 {
        i
    } else {
        0x1_0000_0000
    }
}

fn two(a: &str, b: &str) -> (r: Vec<String>)
    ensures
        text::views(r@) == seq![a@, b@],
{
    let v = vec![a.to_owned(), b.to_owned()];
    assert(text::views(v@) =~= seq![a@, b@]);
    v
}

fn run_op(w: &mut World, g: &GuestConfig, o: &Op, index: u64) -> (r: Result<(), Stop>)
    ensures
        forall|next: nat| #[trigger]
            unused_from(g@.mounts, next) == index || !creates(o@) ==> (
                final(w)@,
                world::res(r),
            ) == op_s(old(w)@, g@, o@, next),
{
    match o {
        Op::SetFeatures(s) => pct::set(w, g.vmid, &two("--features", s.as_str())),
        Op::AddTag(t) => {
            let mut tags = text::copies(&g.tags);
            let ghost before = tags@;
            tags.push(t.clone());
            assert(text::views(tags@) =~= g@.tags.push(t@));
            pct::set(w, g.vmid, &two("--tags", text::join(&tags, ";").as_str()))
        },
        Op::CreateDisk { mp, storage, size, backup } => {
            let key = text::cat("--mp", num::print(index).as_str());
            let line = text::cat7(
                storage.as_str(),
                ":",
                size.to_pct_gib().as_str(),
                ",mp=",
                mp.as_str(),
                ",backup=",
                print_bit(*backup).as_str(),
            );
            pct::set(w, g.vmid, &two(key.as_str(), line.as_str()))
        },
        Op::CreateBind { mp, path } => {
            let key = text::cat("--mp", num::print(index).as_str());
            let line = text::cat3(path.as_str(), ",mp=", mp.as_str());
            pct::set(w, g.vmid, &two(key.as_str(), line.as_str()))
        },
        Op::Resize { key, to, .. } => pct::resize(w, g.vmid, key.as_str(), *to),
        Op::SetBackup { mount, backup } => {
            let mut m = mount.clone();
            m.backup = *backup;
            let key = text::cat("--", m.key.as_str());
            pct::set(w, g.vmid, &two(key.as_str(), m.to_string().as_str()))
        },
    }
}

/// Runs the plan against the guest. A create allocates the next free `mpN`
/// at execution time, since earlier creates in the same plan take indexes.
pub fn execute(w: &mut World, guest: &GuestConfig, plan: &Plan) -> (r: Result<(), Stop>)
    ensures
        (final(w)@, world::res(r)) == execute_s(old(w)@, guest@, plan@),
{
    let mut next: u64 = guest.free_mp_index() as u64;
    let ghost all = plan@.ops;
    assert(all.skip(0) =~= all);
    for i in 0..plan.ops.len()
        invariant
            all == text::views(plan.ops@),
            ops_s(w@, guest@, all.skip(i as int), next as nat) == execute_s(
                old(w)@,
                guest@,
                plan@,
            ),
    {
        let ghost rest = all.skip(i as int);
        assert(rest[0] == plan.ops@[i as int]@);
        assert(rest.skip(1) =~= all.skip(i + 1));
        let op = &plan.ops[i];
        w.note(text::cat("  ", op.to_string().as_str()));
        let index = next_index(guest, next);
        match run_op(w, guest, op, index) {
            Ok(_) => {},
            Err(e) => return Err(e),
        }
        match op {
            Op::CreateDisk { .. } => {
                next = index + 1;
            },
            Op::CreateBind { .. } => {
                next = index + 1;
            },
            _ => {},
        }
    }
    Ok(())
}

// ---------------------------------------------------------------------------
// What holds of every plan.

/// Whether an operation is one that a plan may hold: it never shrinks, moves
/// or deletes anything, and what it changes or creates is at the directory of
/// a volume of the document.
pub open spec fn benign(o: OpV, i: InputsV) -> bool {
    match o {
        OpV::SetFeatures(_) => true,
        OpV::AddTag(_) => true,
        OpV::CreateDisk { mp, storage, size, backup } => exists|j: int|
            0 <= j < i.volumes.len() && mp == spec::dir_of((#[trigger] i.volumes[j]).name)
                && pct::mount_at(i.guest.mounts, mp) is None && i.volumes[j].backup == backup && (
            i.volumes[j].kind matches KindV::Disk { storage: s, size: z } && z == size && (s
                == Some(storage) || (s is None && config::storage_for(i.config, i.node) == Some(
                storage,
            )))),
        OpV::CreateBind { mp, path } => exists|j: int|
            0 <= j < i.volumes.len() && mp == spec::dir_of((#[trigger] i.volumes[j]).name)
                && pct::mount_at(i.guest.mounts, mp) is None && i.volumes[j].kind == (KindV::Bind {
                path,
            }),
        OpV::Resize { key, mp, from, to } => from < to && (pct::mount_at(i.guest.mounts, mp)
            matches Some(m) && m.key == key && !m.is_bind() && from == m.size.unwrap_or(0))
            && has_volume(i.volumes, mp.skip(volumes_prefix().len() as int))
            && volumes_prefix().is_prefix_of(mp),
        OpV::SetBackup { mount, backup } => mount.backup != backup && (mount.mp matches Some(mp)
            && pct::mount_at(i.guest.mounts, mp) == Some(mount) && has_volume(
            i.volumes,
            mp.skip(volumes_prefix().len() as int),
        )),
    }
}

/// Whether every disk that is asked for has a size, as one that was read has.
pub open spec fn sized(v: Seq<VolumeV>) -> bool {
    forall|j: int|
        0 <= j < v.len() ==> ((#[trigger] v[j]).kind matches KindV::Disk { size, .. } ==> size > 0)
}

pub open spec fn all_benign(ops: Seq<OpV>, i: InputsV) -> bool {
    forall|j: int| 0 <= j < ops.len() ==> benign(#[trigger] ops[j], i)
}

proof fn lemma_mount_at(m: Seq<MountV>, path: Text)
    ensures
        pct::mount_at(m, path) matches Some(x) ==> x.mp == Some(path) && m.contains(x),
    decreases m.len(),
{
    if m.len() > 0 && m[0].mp != Some(path) {
        lemma_mount_at(m.skip(1), path);
        if let Some(x) = pct::mount_at(m.skip(1), path) {
            let j = choose|j: int| 0 <= j < m.skip(1).len() && m.skip(1)[j] == x;
            assert(m[j + 1] == x);
        }
    } else if m.len() > 0 {
        assert(m[0] == m[0]);
    }
}

proof fn lemma_dir(name: Text)
    ensures
        volumes_prefix().is_prefix_of(spec::dir_of(name)),
        spec::dir_of(name).skip(volumes_prefix().len() as int) == name,
{
    let d = spec::dir_of(name);
    let p = volumes_prefix();
    assert(d.subrange(0, p.len() as int) =~= p);
    assert(d.skip(p.len() as int) =~= name);
}

proof fn lemma_volume_benign(p: PlanV, j: int, i: InputsV)
    requires
        0 <= j < i.volumes.len(),
        sized(i.volumes),
        all_benign(p.ops, i),
        volume_step(p, i.volumes[j], i) is Ok,
    ensures
        all_benign(volume_step(p, i.volumes[j], i)->Ok_0.ops, i),
{
    let v = i.volumes[j];
    let dir = spec::dir_of(v.name);
    lemma_dir(v.name);
    lemma_mount_at(i.guest.mounts, dir);
    assert(has_volume(i.volumes, v.name));
    let q = volume_step(p, v, i)->Ok_0;
    let n = p.ops.len() as int;
    assert forall|x: int| 0 <= x < n implies #[trigger] q.ops[x] == p.ops[x] by {}
    match v.kind {
        KindV::Plain => {},
        KindV::Bind { path } => {
            if q.ops.len() > n {
                assert(benign(q.ops[n], i)) by {
                    assert(q.ops[n] == (OpV::CreateBind { mp: dir, path }));
                    assert(i.volumes[j].kind == (KindV::Bind { path }));
                }
            }
        },
        KindV::Disk { storage, size } => {
            assert(i.volumes[j].kind == (KindV::Disk { storage, size }));
            match pct::mount_at(i.guest.mounts, dir) {
                None => {
                    assert(q.ops[n] is CreateDisk);
                    assert(benign(q.ops[n], i));
                },
                Some(m) => {
                    let backup = OpV::SetBackup { mount: m, backup: v.backup };
                    let grow = OpV::Resize {
                        key: m.key,
                        mp: dir,
                        from: m.size.unwrap_or(0),
                        to: size,
                    };
                    if !satisfied(m.size, size) && !m.is_bind() {
                        assert(benign(grow, i));
                    }
                    if m.backup != v.backup {
                        assert(benign(backup, i));
                    }
                    assert(forall|x: int|
                        n <= x < q.ops.len() ==> (#[trigger] q.ops[x] == grow && !satisfied(
                            m.size,
                            size,
                        ) && !m.is_bind()) || (q.ops[x] == backup && m.backup != v.backup));
                },
            }
        },
    }
    assert forall|x: int| 0 <= x < q.ops.len() implies benign(#[trigger] q.ops[x], i) by {
        if x < n {
            assert(q.ops[x] == p.ops[x]);
        }
    }
}

proof fn lemma_steps_benign(p: PlanV, n: int, i: InputsV)
    requires
        0 <= n <= i.volumes.len(),
        sized(i.volumes),
        all_benign(p.ops, i),
        volume_steps(p, i.volumes.take(n), i) is Ok,
    ensures
        all_benign(volume_steps(p, i.volumes.take(n), i)->Ok_0.ops, i),
    decreases n,
{
    if n > 0 {
        let v = i.volumes.take(n);
        assert(v.drop_last() =~= i.volumes.take(n - 1));
        assert(v.last() == i.volumes[n - 1]);
        lemma_steps_benign(p, n - 1, i);
        lemma_volume_benign(volume_steps(p, v.drop_last(), i)->Ok_0, n - 1, i);
    }
}

proof fn lemma_orphans_keep_ops(p: PlanV, m: Seq<MountV>, v: Seq<VolumeV>)
    ensures
        orphan_notes(p, m, v).ops == p.ops,
    decreases m.len(),
{
    if m.len() > 0 {
        lemma_orphans_keep_ops(p, m.drop_last(), v);
    }
}

/// No plan shrinks, moves or deletes a disk. A disk grows only where its
/// mount is at the directory of a volume; a line is rewritten only for its
/// `backup` flag; a mount is created only where there is none. Which mount is
/// meant is told by its path.
pub proof fn law_plan_is_benign(i: InputsV)
    requires
        plan_of(i) is Ok,
        sized(i.volumes),
    ensures
        all_benign(plan_of(i)->Ok_0.ops, i),
{
    let p = wrapper_plan(i);
    assert(all_benign(p.ops, i));
    assert(i.volumes.take(i.volumes.len() as int) =~= i.volumes);
    lemma_steps_benign(p, i.volumes.len() as int, i);
    lemma_orphans_keep_ops(
        volume_steps(p, i.volumes, i)->Ok_0,
        i.guest.mounts,
        i.volumes,
    );
}

/// Whether a volume is as the document asks for, as far as the plan would
/// change it.
pub open spec fn volume_settled(v: VolumeV, i: InputsV) -> bool {
    let m = pct::mount_at(i.guest.mounts, spec::dir_of(v.name));
    match v.kind {
        KindV::Plain => true,
        KindV::Bind { .. } => m is Some,
        KindV::Disk { size, .. } => m matches Some(m) && (m.is_bind() || (satisfied(m.size, size)
            && m.backup == v.backup)),
    }
}

/// Whether the wrapper is as the document asks for.
pub open spec fn converged(i: InputsV) -> bool {
    &&& wanted_features(i.guest.features) == i.guest.features
    &&& i.tag matches Some(t) ==> i.guest.tags.contains(t)
    &&& forall|j: int| 0 <= j < i.volumes.len() ==> volume_settled(#[trigger] i.volumes[j], i)
}

proof fn lemma_steps_settled(p: PlanV, n: int, i: InputsV)
    requires
        0 <= n <= i.volumes.len(),
    ensures
        volume_steps(p, i.volumes.take(n), i) matches Ok(q) ==> (q.ops.len() >= p.ops.len() && (
        q.ops.len() == p.ops.len() <==> forall|j: int|
            0 <= j < n ==> volume_settled(#[trigger] i.volumes[j], i))),
        (forall|j: int| 0 <= j < n ==> volume_settled(#[trigger] i.volumes[j], i))
            ==> volume_steps(p, i.volumes.take(n), i) is Ok,
    decreases n,
{
    if n > 0 {
        let v = i.volumes.take(n);
        assert(v.drop_last() =~= i.volumes.take(n - 1));
        assert(v.last() == i.volumes[n - 1]);
        lemma_steps_settled(p, n - 1, i);
        assert((forall|j: int| 0 <= j < n ==> volume_settled(#[trigger] i.volumes[j], i)) <==> (
        forall|j: int| 0 <= j < n - 1 ==> volume_settled(#[trigger] i.volumes[j], i))
            && volume_settled(i.volumes[n - 1], i)) by {
            if (forall|j: int| 0 <= j < n - 1 ==> volume_settled(#[trigger] i.volumes[j], i))
                && volume_settled(i.volumes[n - 1], i) {
                assert forall|j: int| 0 <= j < n implies volume_settled(
                    #[trigger] i.volumes[j],
                    i,
                ) by {}
            }
        }
    } else {
        assert(i.volumes.take(0) =~= Seq::empty());
    }
}

/// A wrapper that is as the document asks for gets an empty plan, and no
/// other does.
pub proof fn law_converged_is_empty(i: InputsV)
    requires
        !i.guest.is_template,
    ensures
        converged(i) <==> (plan_of(i) matches Ok(p) && p.ops.len() == 0),
{
    let p = wrapper_plan(i);
    let n = i.volumes.len() as int;
    assert(i.volumes.take(n) =~= i.volumes);
    lemma_steps_settled(p, n, i);
    if volume_steps(p, i.volumes, i) is Ok {
        lemma_orphans_keep_ops(
            volume_steps(p, i.volumes, i)->Ok_0,
            i.guest.mounts,
            i.volumes,
        );
    }
}

proof fn lemma_orphan_noted(p: PlanV, m: Seq<MountV>, v: Seq<VolumeV>, j: int)
    requires
        0 <= j < m.len(),
        orphan(m[j], v) is Some,
    ensures
        orphan_notes(p, m, v).notes.contains(orphan_note(m[j], orphan(m[j], v)->0)),
    decreases m.len(),
{
    let before = orphan_notes(p, m.drop_last(), v);
    let after = orphan_notes(p, m, v);
    let note = orphan_note(m[j], orphan(m[j], v)->0);
    if j < m.len() - 1 {
        lemma_orphan_noted(p, m.drop_last(), v, j);
        assert(m.drop_last()[j] == m[j]);
        let x = choose|x: int| 0 <= x < before.notes.len() && before.notes[x] == note;
        assert(after.notes[x] == note);
    } else {
        assert(after.notes[after.notes.len() - 1] == note);
    }
}

/// Every mount under the volumes directory whose volume is gone from the
/// document is reported.
pub proof fn law_orphans_are_reported(i: InputsV, j: int)
    requires
        plan_of(i) is Ok,
        0 <= j < i.guest.mounts.len(),
        orphan(i.guest.mounts[j], i.volumes) is Some,
    ensures
        plan_of(i)->Ok_0.notes.contains(
            orphan_note(i.guest.mounts[j], orphan(i.guest.mounts[j], i.volumes)->0),
        ),
{
    lemma_orphan_noted(
        volume_steps(wrapper_plan(i), i.volumes, i)->Ok_0,
        i.guest.mounts,
        i.volumes,
        j,
    );
}

/// The features that docker needs are added; every feature that was set keeps
/// its value.
pub proof fn law_features_are_only_added(f: Seq<(Text, Text)>, k: Text)
    ensures
        table::lookup(wanted_features(f), "nesting"@) is Some,
        table::lookup(wanted_features(f), "keyctl"@) is Some,
        table::lookup(f, k) is Some ==> table::lookup(wanted_features(f), k) == table::lookup(f, k),
        k != "nesting"@ && k != "keyctl"@ ==> table::lookup(wanted_features(f), k)
            == table::lookup(f, k),
{
    let g = with_feature(f, "nesting"@);
    table::law_insert_lookup(f, "nesting"@, "1"@, k);
    table::law_insert_lookup(f, "nesting"@, "1"@, "keyctl"@);
    table::law_insert_lookup(g, "keyctl"@, "1"@, k);
    table::law_insert_lookup(g, "keyctl"@, "1"@, "nesting"@);
}

proof fn lemma_steps_keep(p: PlanV, v: Seq<VolumeV>, i: InputsV)
    requires
        volume_steps(p, v, i) is Ok,
    ensures
        p.ops.is_prefix_of(volume_steps(p, v, i)->Ok_0.ops),
        forall|j: int|
            p.ops.len() <= j < volume_steps(p, v, i)->Ok_0.ops.len() ==> !((
            #[trigger] volume_steps(p, v, i)->Ok_0.ops[j]) is SetFeatures),
    decreases v.len(),
{
    let q = volume_steps(p, v, i)->Ok_0;
    if v.len() > 0 {
        lemma_steps_keep(p, v.drop_last(), i);
        let b = volume_steps(p, v.drop_last(), i)->Ok_0;
        assert(b.ops.subrange(0, p.ops.len() as int) =~= p.ops);
        assert forall|j: int| 0 <= j < p.ops.len() implies q.ops[j] == p.ops[j] by {
            assert(b.ops[j] == b.ops.subrange(0, p.ops.len() as int)[j]);
            assert(q.ops[j] == b.ops[j]);
        }
        assert forall|j: int| p.ops.len() <= j < q.ops.len() implies !((#[trigger] q.ops[j])
            is SetFeatures) by {
            if j < b.ops.len() {
                assert(q.ops[j] == b.ops[j]);
            }
        }
    }
    assert(q.ops.subrange(0, p.ops.len() as int) =~= p.ops);
}

/// Features are the first operation where they are one, so that they are set
/// even when a later one fails.
pub proof fn law_features_come_first(i: InputsV, j: int)
    requires
        plan_of(i) is Ok,
        0 <= j < plan_of(i)->Ok_0.ops.len(),
        plan_of(i)->Ok_0.ops[j] is SetFeatures,
    ensures
        j == 0,
{
    let p = wrapper_plan(i);
    let q = volume_steps(p, i.volumes, i)->Ok_0;
    lemma_steps_keep(p, i.volumes, i);
    lemma_orphans_keep_ops(q, i.guest.mounts, i.volumes);
    if j < p.ops.len() {
        assert(q.ops[j] == q.ops.subrange(0, p.ops.len() as int)[j]);
    }
}

proof fn lemma_unused(m: Seq<MountV>, i: nat)
    ensures
        !pct::index_used(m, unused_from(m, i)),
        i <= 0x1_0000_0000 ==> unused_from(m, i) >= i,
    decreases 0x1_0000_0000 - i,
{
    if i < 0x1_0000_0000 && pct::index_used(m, i) {
        lemma_unused(m, i + 1);
    } else if i >= 0x1_0000_0000 {
        assert forall|j: int| 0 <= j < m.len() implies (#[trigger] m[j]).index() != Some(
            0x1_0000_0000nat,
        ) by {}
    }
}

/// A new mount takes an index that no mount of the guest uses.
pub proof fn law_new_index_is_free(m: Seq<MountV>, next: nat)
    ensures
        !pct::index_used(m, unused_from(m, next)),
{
    lemma_unused(m, next);
}

} // verus!
