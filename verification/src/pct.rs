//! The wrapper as PVE sees it. Reads go through `pvesh` (JSON), writes
//! through `pct`, and anything inside the guest through `pct exec` and
//! `pct push`. Nothing here knows about compose.

use vstd::prelude::*;

use crate::cmd;
use crate::error::{Chain, Error};
use crate::json::{self, Json, JsonV};
use crate::num;
use crate::size::{self, Size};
use crate::table::{self, Table};
use crate::text::{self, Text};
use crate::world::{self, Act, ActV, Call, CallV, MISSING, Output, OutputV, Stop, StopV, World, WorldV};

verus! {

/// One `mpN` (or `rootfs`) line of a container config, parsed.
#[derive(Debug, PartialEq)]
pub struct Mount {
    /// `mp0`, `mp1`, ... or `rootfs`.
    pub key: String,
    /// A volid (`local-lvm:vm-105-disk-1`) or a host path for a bind mount.
    pub volume: String,
    /// The mount path inside the guest; absent for `rootfs`.
    pub mp: Option<String>,
    pub size: Option<Size>,
    /// `backup=1`; PVE's default for a volume mountpoint is off, and for
    /// `rootfs` it is always on.
    pub backup: bool,
    /// Every other option, kept so a rewrite loses nothing.
    pub other: Table<String>,
}

/// What a [`Mount`] is, as mathematics.
pub struct MountV {
    pub key: Text,
    pub volume: Text,
    pub mp: Option<Text>,
    pub size: Option<nat>,
    pub backup: bool,
    pub other: Seq<(Text, Text)>,
}

impl View for Mount {
    type V = MountV;

    open spec fn view(&self) -> MountV {
        MountV {
            key: self.key@,
            volume: self.volume@,
            mp: text::opt(self.mp),
            size: text::opt(self.size),
            backup: self.backup,
            other: self.other@,
        }
    }
}

impl Clone for Mount {
    fn clone(&self) -> (r: Mount)
        ensures
            r@ == self@,
    {
        Mount {
            key: self.key.clone(),
            volume: self.volume.clone(),
            mp: text::copy(&self.mp),
            size: self.size,
            backup: self.backup,
            other: table::copied(&self.other),
        }
    }
}

impl MountV {
    /// Whether a host path is mounted, not a volume of a storage.
    pub open spec fn is_bind(self) -> bool {
        self.volume.len() > 0 && self.volume[0] == '/'
    }

    /// The storage that holds the volume.
    pub open spec fn storage(self) -> Option<Text> {
        if self.is_bind() {
            None
        } else {
            Some(self.volume.take(text::first(self.volume, ':') as int))
        }
    }

    /// The `N` of `mpN`.
    pub open spec fn index(self) -> Option<nat> {
        if "mp"@.is_prefix_of(self.key) {
            num::parsed(self.key.skip(2), u32::MAX as nat)
        } else {
            None
        }
    }
}

/// One option of a mount line added.
pub open spec fn with_option(m: MountV, p: Text) -> Result<MountV, Chain> {
    let i = text::first(p, '=') as int;
    if i == p.len() {
        Err(seq!["bad mountpoint option '"@ + p + "' in "@ + m.key])
    } else {
        let k = p.take(i);
        let v = p.skip(i + 1);
        if k == "mp"@ {
            Ok(MountV { mp: Some(v), ..m })
        } else if k == "size"@ {
            match size::parsed(v) {
                Ok(z) => Ok(MountV { size: Some(z), ..m }),
                Err(e) => Err(seq![m.key + ": size"@, e]),
            }
        } else if k == "backup"@ {
            Ok(MountV { backup: v == "1"@, ..m })
        } else if k == "volume"@ {
            Ok(MountV { volume: v, ..m })
        } else {
            Ok(MountV { other: table::inserted(m.other, k, v), ..m })
        }
    }
}

/// The options of a mount line added, in their order.
pub open spec fn with_options(m: MountV, p: Seq<Text>) -> Result<MountV, Chain>
    decreases p.len(),
{
    if p.len() == 0 {
        Ok(m)
    } else {
        match with_options(m, p.drop_last()) {
            Err(c) => Err(c),
            Ok(m) => with_option(m, p.last()),
        }
    }
}

/// A mount line before its options: the volume, spelled `volume=...` or bare.
pub open spec fn mount_start(key: Text, first: Text) -> MountV {
    let f = text::trimmed(first);
    MountV {
        key,
        volume: if "volume="@.is_prefix_of(f) {
            f.skip("volume="@.len() as int)
        } else {
            f
        },
        mp: None,
        size: None,
        backup: false,
        other: Seq::empty(),
    }
}

/// The mount that a line describes, or why it describes none.
pub open spec fn mount_of(key: Text, line: Text) -> Result<MountV, Chain> {
    let p = text::pieces(line, ',');
    match with_options(mount_start(key, p[0]), p.skip(1)) {
        Err(c) => Err(c),
        Ok(m) => if m.volume.len() == 0 {
            Err(seq![key + ": no volume"@])
        } else {
            Ok(m)
        },
    }
}

/// The other options as they are printed.
pub open spec fn other_shown(o: Seq<(Text, Text)>) -> Text
    decreases o.len(),
{
    if o.len() == 0 {
        Seq::empty()
    } else {
        other_shown(o.drop_last()) + ","@ + o.last().0 + "="@ + o.last().1
    }
}

/// The line of a mount.
pub open spec fn mount_shown(m: MountV) -> Text {
    m.volume + (match m.mp {
        Some(p) => ",mp="@ + p,
        None => Seq::empty(),
    }) + (match m.size {
        Some(s) => ",size="@ + size::shown(s),
        None => Seq::empty(),
    }) + (if m.backup {
        ",backup=1"@
    } else {
        Seq::empty()
    }) + other_shown(m.other)
}

proof fn lemma_options_fail(m: MountV, p: Seq<Text>, i: int)
    requires
        0 <= i <= p.len(),
        with_options(m, p.take(i)) is Err,
    ensures
        with_options(m, p) == with_options(m, p.take(i)),
    decreases p.len(),
{
    if i < p.len() {
        assert(p.drop_last().take(i) =~= p.take(i));
        lemma_options_fail(m, p.drop_last(), i);
    } else {
        assert(p.take(i) =~= p);
    }
}

impl Mount {
    pub fn is_bind(&self) -> (r: bool)
        ensures
            r == self@.is_bind(),
    {
        let cs = text::chars(self.volume.as_str());
        cs.len() > 0 && cs[0] == '/'
    }

    pub fn storage(&self) -> (r: Option<String>)
        ensures
            text::opt(r) == self@.storage(),
    {
        if self.is_bind() {
            None
        } else {
            let cs = text::chars(self.volume.as_str());
            let at = text::find(&cs, ':');
            let s = text::part(&cs, 0, at);
            assert(s@ =~= self@.volume.take(text::first(self@.volume, ':') as int));
            Some(s)
        }
    }

    pub fn index(&self) -> (r: Option<u32>)
        ensures
            match r {
                Some(i) => self@.index() == Some(i as nat),
                None => self@.index() is None,
            },
    {
        proof {
            reveal_strlit("mp");
        }
        match text::strip_prefix(self.key.as_str(), "mp") {
            Some(n) => match num::parse(n.as_str(), u32::MAX as u64) {
                Some(i) => Some(i as u32),
                None => None,
            },
            None => None,
        }
    }

    fn add_option(&mut self, p: &str) -> (r: Result<(), Error>)
        ensures
            match r {
                Ok(_) => with_option(old(self)@, p@) == Ok::<MountV, Chain>(final(self)@),
                Err(e) => with_option(old(self)@, p@) == Err::<MountV, Chain>(e@),
            },
    {
        let (k, v) = match text::split_once(p, '=') {
            Some((k, v)) => (k, v),
            None => return Err(
                Error::new(
                    text::cat4("bad mountpoint option '", p, "' in ", self.key.as_str()),
                ),
            ),
        };
        if text::same(k.as_str(), "mp") {
            self.mp = Some(v);
        } else if text::same(k.as_str(), "size") {
            match Size::parse(v.as_str()) {
                Ok(z) => {
                    self.size = Some(z);
                },
                Err(e) => {
                    let ghost m = e@[0];
                    let e = e.context(text::cat(self.key.as_str(), ": size"));
                    assert(e@ =~= seq![self@.key + ": size"@, m]);
                    return Err(e);
                },
            }
        } else if text::same(k.as_str(), "backup") {
            self.backup = text::same(v.as_str(), "1");
        } else if text::same(k.as_str(), "volume") {
            self.volume = v;
        } else {
            self.other.insert(k, v);
        }
        Ok(())
    }

    /// Parses `local-lvm:vm-105-disk-1,mp=/x,size=8G,backup=1`.
    pub fn parse(key: &str, line: &str) -> (r: Result<Mount, Error>)
        ensures
            match r {
                Ok(m) => mount_of(key@, line@) == Ok::<MountV, Chain>(m@),
                Err(e) => mount_of(key@, line@) == Err::<MountV, Chain>(e@),
            },
    {
        let parts = text::split(line, ',');
        let ghost all = text::pieces(line@, ',');
        assert(all[0] == parts@[0]@);
        let first = text::trim(parts[0].as_str());
        // The volume may be spelled `volume=...` or bare, PVE accepts both.
        let volume = match text::strip_prefix(first.as_str(), "volume=") {
            Some(v) => v,
            None => first,
        };
        let mut m = Mount {
            key: key.to_owned(),
            volume,
            mp: None,
            size: None,
            backup: false,
            other: Table::new(),
        };
        let ghost start = m@;
        assert(start == mount_start(key@, all[0]));
        let ghost rest = all.skip(1);
        assert(rest.take(0) =~= Seq::empty());
        let mut i: usize = 1;
        while i < parts.len()
            invariant
                1 <= i <= parts@.len(),
                text::views(parts@) == all,
                rest == all.skip(1),
                mount_of(key@, line@) == (match with_options(start, rest) {
                    Err(c) => Err(c),
                    Ok(m) => if m.volume.len() == 0 {
                        Err(seq![key@ + ": no volume"@])
                    } else {
                        Ok(m)
                    },
                }),
                with_options(start, rest.take(i - 1)) == Ok::<MountV, Chain>(m@),
            decreases parts@.len() - i,
        {
            assert(rest.take(i as int).drop_last() =~= rest.take(i - 1));
            assert(rest.take(i as int).last() == parts@[i as int]@);
            match m.add_option(parts[i].as_str()) {
                Ok(_) => {},
                Err(e) => {
                    proof {
                        lemma_options_fail(start, rest, i as int);
                    }
                    return Err(e);
                },
            }
            i = i + 1;
        }
        assert(rest.take(rest.len() as int) =~= rest);
        if text::empty(m.volume.as_str()) {
            return Err(Error::new(text::cat(key, ": no volume")));
        }
        Ok(m)
    }

    /// The line of the mount.
    pub fn to_string(&self) -> (r: String)
        ensures
            r@ == mount_shown(self@),
    {
        let mp = match &self.mp {
            Some(p) => text::cat(",mp=", p.as_str()),
            None => String::new(),
        };
        let size = match self.size {
            Some(s) => text::cat(",size=", s.to_string().as_str()),
            None => String::new(),
        };
        let backup = if self.backup {
            ",backup=1".to_owned()
        } else {
            String::new()
        };
        let ghost all = self@.other;
        let mut other = String::new();
        assert(all.take(0) =~= Seq::empty());
        for i in 0..self.other.entries.len()
            invariant
                all == self.other@,
                other@ == other_shown(all.take(i as int)),
        {
            assert(all.take(i + 1).drop_last() =~= all.take(i as int));
            assert(all.take(i + 1).last() == (
                self.other.entries@[i as int].0@,
                self.other.entries@[i as int].1@,
            ));
            other.append(",");
            other.append(self.other.entries[i].0.as_str());
            other.append("=");
            other.append(self.other.entries[i].1.as_str());
        }
        assert(all.take(all.len() as int) =~= all);
        text::cat5(
            self.volume.as_str(),
            mp.as_str(),
            size.as_str(),
            backup.as_str(),
            other.as_str(),
        )
    }
}

// ---------------------------------------------------------------------------
// A container's config.

/// A container's config, the parts this tool reads.
#[derive(Debug)]
pub struct GuestConfig {
    pub vmid: u32,
    pub hostname: Option<String>,
    pub unprivileged: bool,
    pub features: Table<String>,
    pub tags: Vec<String>,
    pub rootfs: Option<Mount>,
    pub mounts: Vec<Mount>,
    pub is_template: bool,
}

/// What a [`GuestConfig`] is, as mathematics.
pub struct GuestConfigV {
    pub vmid: u32,
    pub hostname: Option<Text>,
    pub unprivileged: bool,
    pub features: Seq<(Text, Text)>,
    pub tags: Seq<Text>,
    pub rootfs: Option<MountV>,
    pub mounts: Seq<MountV>,
    pub is_template: bool,
}

impl View for GuestConfig {
    type V = GuestConfigV;

    open spec fn view(&self) -> GuestConfigV {
        GuestConfigV {
            vmid: self.vmid,
            hostname: text::opt(self.hostname),
            unprivileged: self.unprivileged,
            features: self.features@,
            tags: text::views(self.tags@),
            rootfs: text::opt(self.rootfs),
            mounts: text::views(self.mounts@),
            is_template: self.is_template,
        }
    }
}

/// A config of which nothing is known.
pub open spec fn no_config(vmid: u32) -> GuestConfigV {
    GuestConfigV {
        vmid,
        hostname: None,
        unprivileged: false,
        features: Seq::empty(),
        tags: Seq::empty(),
        rootfs: None,
        mounts: Seq::empty(),
        is_template: false,
    }
}

/// The first mount at a path.
pub open spec fn mount_at(m: Seq<MountV>, path: Text) -> Option<MountV>
    decreases m.len(),
{
    if m.len() == 0 {
        None
    } else if m[0].mp == Some(path) {
        Some(m[0])
    } else {
        mount_at(m.skip(1), path)
    }
}

/// Whether an index is in use.
pub open spec fn index_used(m: Seq<MountV>, i: nat) -> bool {
    exists|j: int| 0 <= j < m.len() && (#[trigger] m[j]).index() == Some(i)
}

/// The lowest index from `i` on that is not in use, up to 256.
pub open spec fn free_from(m: Seq<MountV>, i: nat) -> nat
    decreases 256 - i,
{
    if i >= 256 {
        256
    } else if index_used(m, i) {
        free_from(m, i + 1)
    } else {
        i
    }
}

/// Whether some mount uses an index.
pub fn uses_index(m: &Vec<Mount>, i: u64) -> (r: bool)
    ensures
        r == index_used(text::views(m@), i as nat),
{
    let ghost all = text::views(m@);
    for j in 0..m.len()
        invariant
            all == text::views(m@),
            forall|x: int| 0 <= x < j ==> (#[trigger] all[x]).index() != Some(i as nat),
    {
        assert(all[j as int] == m@[j as int]@);
        if let Some(k) = m[j].index() {
            if k as u64 == i {
                return true;
            }
        }
    }
    false
}

impl GuestConfig {
    pub fn mount_at(&self, path: &str) -> (r: Option<&Mount>)
        ensures
            match r {
                Some(m) => mount_at(self@.mounts, path@) == Some(m@),
                None => mount_at(self@.mounts, path@) is None,
            },
    {
        let ghost all = self@.mounts;
        assert(all.skip(0) =~= all);
        for i in 0..self.mounts.len()
            invariant
                all == text::views(self.mounts@),
                mount_at(all, path@) == mount_at(all.skip(i as int), path@),
        {
            assert(all.skip(i as int)[0] == self.mounts@[i as int]@);
            if let Some(p) = &self.mounts[i].mp {
                if text::same(p.as_str(), path) {
                    return Some(&self.mounts[i]);
                }
            }
            assert(all.skip(i as int).skip(1) =~= all.skip(i + 1));
        }
        None
    }

    /// The lowest `mpN` index not in use.
    pub fn free_mp_index(&self) -> (r: u32)
        ensures
            r == free_from(self@.mounts, 0),
            r <= 256,
    {
        let mut i: u32 = 0;
        while i < 256 && uses_index(&self.mounts, i as u64)
            invariant
                i <= 256,
                free_from(self@.mounts, 0) == free_from(self@.mounts, i as nat),
            decreases 256 - i,
        {
            i = i + 1;
        }
        i
    }

    pub fn has_tag(&self, tag: &str) -> (r: bool)
        ensures
            r == self@.tags.contains(tag@),
    {
        text::among(&self.tags, tag)
    }
}

/// Whether a value is the number one, as a number or a text.
pub open spec fn is_one(v: JsonV) -> bool {
    json::natural(v) == Some(1nat) || json::string(v) == Some("1"@)
}

/// The items of a list that has something in them, trimmed.
pub open spec fn items(p: Seq<Text>) -> Seq<Text>
    decreases p.len(),
{
    if p.len() == 0 {
        Seq::empty()
    } else if text::trimmed(p.last()).len() == 0 {
        items(p.drop_last())
    } else {
        items(p.drop_last()).push(text::trimmed(p.last()))
    }
}

/// The tags of a text like `compose;x`.
pub open spec fn tags_of(s: Text) -> Seq<Text> {
    items(text::pieces(s, ';'))
}

/// One feature like `nesting=1`, or `nesting` for the same, added.
pub open spec fn with_feature(f: Seq<(Text, Text)>, item: Text) -> Seq<(Text, Text)> {
    let i = text::first(item, '=') as int;
    if i < item.len() {
        table::inserted(f, item.take(i), item.skip(i + 1))
    } else {
        table::inserted(f, item, "1"@)
    }
}

pub open spec fn with_features(f: Seq<(Text, Text)>, p: Seq<Text>) -> Seq<(Text, Text)>
    decreases p.len(),
{
    if p.len() == 0 {
        f
    } else {
        with_feature(with_features(f, p.drop_last()), p.last())
    }
}

/// Whether a key is that of a mountpoint.
pub open spec fn is_mp_key(k: Text) -> bool {
    "mp"@.is_prefix_of(k) && text::all_digits(k.skip(2))
}

/// One member of the config added.
pub open spec fn with_member(c: GuestConfigV, k: Text, v: JsonV) -> Result<GuestConfigV, Chain> {
    let s = json::shown(v);
    if k == "hostname"@ {
        Ok(GuestConfigV { hostname: Some(s), ..c })
    } else if k == "unprivileged"@ {
        Ok(GuestConfigV { unprivileged: is_one(v), ..c })
    } else if k == "template"@ {
        Ok(GuestConfigV { is_template: is_one(v), ..c })
    } else if k == "tags"@ {
        Ok(GuestConfigV { tags: tags_of(s), ..c })
    } else if k == "features"@ {
        Ok(
            GuestConfigV {
                features: with_features(c.features, items(text::pieces(s, ','))),
                ..c
            },
        )
    } else if k == "rootfs"@ {
        match mount_of("rootfs"@, s) {
            Ok(m) => Ok(GuestConfigV { rootfs: Some(m), ..c }),
            Err(e) => Err(e),
        }
    } else if is_mp_key(k) {
        match mount_of(k, s) {
            Ok(m) => Ok(GuestConfigV { mounts: c.mounts.push(m), ..c }),
            Err(e) => Err(e),
        }
    } else {
        Ok(c)
    }
}

pub open spec fn with_members(c: GuestConfigV, m: Seq<(Text, JsonV)>) -> Result<
    GuestConfigV,
    Chain,
>
    decreases m.len(),
{
    if m.len() == 0 {
        Ok(c)
    } else {
        match with_members(c, m.drop_last()) {
            Err(e) => Err(e),
            Ok(c) => with_member(c, m.last().0, m.last().1),
        }
    }
}

/// Whether a mount comes before another, by their indexes; one without an
/// index comes first.
pub open spec fn before(a: MountV, b: MountV) -> bool {
    match (a.index(), b.index()) {
        (None, Some(_)) => true,
        (Some(i), Some(j)) => i < j,
        _ => false,
    }
}

/// A mount put into its place, behind its equals.
pub open spec fn placed(m: Seq<MountV>, x: MountV) -> Seq<MountV>
    decreases m.len(),
{
    if m.len() > 0 && before(x, m.last()) {
        placed(m.drop_last(), x).push(m.last())
    } else {
        m.push(x)
    }
}

/// The mounts by their indexes, equals in their order.
pub open spec fn in_order(m: Seq<MountV>) -> Seq<MountV>
    decreases m.len(),
{
    if m.len() == 0 {
        Seq::empty()
    } else {
        placed(in_order(m.drop_last()), m.last())
    }
}

/// The config that the JSON of `GET /nodes/{node}/lxc/{vmid}/config` is.
pub open spec fn config_of(vmid: u32, v: JsonV) -> Result<GuestConfigV, Chain> {
    match v {
        JsonV::Dict(m, _) => match with_members(no_config(vmid), m) {
            Err(e) => Err(e),
            Ok(c) => Ok(GuestConfigV { mounts: in_order(c.mounts), ..c }),
        },
        _ => Err(seq!["config of "@ + num::dec(vmid as nat) + " is not an object"@]),
    }
}

fn one(v: &Json) -> (r: bool)
    ensures
        r == is_one(v@),
{
    if let Some(n) = v.as_u64() {
        if n == 1 {
            return true;
        }
    }
    match v.as_str() {
        Some(s) => text::same(s.as_str(), "1"),
        None => false,
    }
}

/// The items of a list in a text that have something in them, trimmed.
pub fn split_items(s: &str, sep: char) -> (r: Vec<String>)
    ensures
        text::views(r@) == items(text::pieces(s@, sep)),
{
    let parts = text::split(s, sep);
    let ghost all = text::pieces(s@, sep);
    let mut out: Vec<String> = Vec::new();
    assert(text::views(out@) =~= Seq::empty());
    assert(all.take(0) =~= Seq::empty());
    for i in 0..parts.len()
        invariant
            text::views(parts@) == all,
            text::views(out@) == items(all.take(i as int)),
    {
        assert(all.take(i + 1).drop_last() =~= all.take(i as int));
        assert(all.take(i + 1).last() == parts@[i as int]@);
        let t = text::trim(parts[i].as_str());
        if !text::empty(t.as_str()) {
            let ghost so_far = out@;
            out.push(t);
            assert(text::views(out@) =~= text::views(so_far).push(t@));
        }
    }
    assert(all.take(all.len() as int) =~= all);
    out
}

fn add_features(f: &mut Table<String>, s: &str)
    ensures
        final(f)@ == with_features(old(f)@, items(text::pieces(s@, ','))),
{
    let list = split_items(s, ',');
    let ghost all = text::views(list@);
    let ghost start = f@;
    assert(all.take(0) =~= Seq::empty());
    for i in 0..list.len()
        invariant
            all == text::views(list@),
            f@ == with_features(start, all.take(i as int)),
    {
        assert(all.take(i + 1).drop_last() =~= all.take(i as int));
        assert(all.take(i + 1).last() == list@[i as int]@);
        match text::split_once(list[i].as_str(), '=') {
            Some((k, v)) => f.insert(k, v),
            None => f.insert(list[i].clone(), "1".to_owned()),
        }
    }
    assert(all.take(all.len() as int) =~= all);
}

fn mp_key(k: &str) -> (r: bool)
    ensures
        r == is_mp_key(k@),
{
    proof {
        reveal_strlit("mp");
    }
    match text::strip_prefix(k, "mp") {
        Some(n) => text::digits(n.as_str()),
        None => false,
    }
}

impl GuestConfig {
    fn add_member(&mut self, k: &str, v: &Json) -> (r: Result<(), Error>)
        ensures
            match r {
                Ok(_) => with_member(old(self)@, k@, v@) == Ok::<GuestConfigV, Chain>(
                    final(self)@,
                ),
                Err(e) => with_member(old(self)@, k@, v@) == Err::<GuestConfigV, Chain>(e@),
            },
    {
        if text::same(k, "hostname") {
            self.hostname = Some(v.show());
        } else if text::same(k, "unprivileged") {
            self.unprivileged = one(v);
        } else if text::same(k, "template") {
            self.is_template = one(v);
        } else if text::same(k, "tags") {
            self.tags = split_items(v.show().as_str(), ';');
        } else if text::same(k, "features") {
            add_features(&mut self.features, v.show().as_str());
        } else if text::same(k, "rootfs") {
            match Mount::parse("rootfs", v.show().as_str()) {
                Ok(m) => {
                    self.rootfs = Some(m);
                },
                Err(e) => return Err(e),
            }
        } else if mp_key(k) {
            match Mount::parse(k, v.show().as_str()) {
                Ok(m) => {
                    let ghost so_far = self.mounts@;
                    self.mounts.push(m);
                    assert(text::views(self.mounts@) =~= text::views(so_far).push(m@));
                },
                Err(e) => return Err(e),
            }
        }
        Ok(())
    }
}

fn comes_before(a: &Mount, b: &Mount) -> (r: bool)
    ensures
        r == before(a@, b@),
{
    match (a.index(), b.index()) {
        (None, Some(_)) => true,
        (Some(i), Some(j)) => i < j,
        _ => false,
    }
}

fn sort(m: Vec<Mount>) -> (r: Vec<Mount>)
    ensures
        text::views(r@) == in_order(text::views(m@)),
{
    let ghost all = text::views(m@);
    let mut out: Vec<Mount> = Vec::new();
    assert(text::views(out@) =~= Seq::empty());
    assert(all.take(0) =~= Seq::empty());
    for i in 0..m.len()
        invariant
            all == text::views(m@),
            text::views(out@) == in_order(all.take(i as int)),
    {
        assert(all.take(i + 1).drop_last() =~= all.take(i as int));
        assert(all.take(i + 1).last() == m@[i as int]@);
        let x = m[i].clone();
        let ghost sorted = text::views(out@);
        let mut at: usize = out.len();
        assert(sorted.take(at as int) =~= sorted);
        assert(sorted.skip(at as int) =~= Seq::empty());
        assert(placed(sorted, x@) =~= placed(sorted.take(at as int), x@) + sorted.skip(at as int));
        while at > 0 && comes_before(&x, &out[at - 1])
            invariant
                at <= out@.len(),
                sorted == text::views(out@),
                placed(sorted, x@) == placed(sorted.take(at as int), x@) + sorted.skip(
                    at as int,
                ),
            decreases at,
        {
            assert(sorted.take(at as int).last() == out@[at - 1]@);
            assert(sorted.take(at as int).drop_last() =~= sorted.take(at - 1));
            assert(placed(sorted.take(at as int), x@) + sorted.skip(at as int) =~= placed(
                sorted.take(at - 1),
                x@,
            ) + sorted.skip(at - 1));
            at = at - 1;
        }
        if at > 0 {
            assert(sorted.take(at as int).last() == out@[at - 1]@);
        }
        let ghost so_far = out@;
        out.insert(at, x);
        assert(text::views(out@) =~= sorted.take(at as int).push(x@) + sorted.skip(at as int));
    }
    assert(all.take(all.len() as int) =~= all);
    out
}

proof fn lemma_members_fail(c: GuestConfigV, m: Seq<(Text, JsonV)>, i: int)
    requires
        0 <= i <= m.len(),
        with_members(c, m.take(i)) is Err,
    ensures
        with_members(c, m) == with_members(c, m.take(i)),
    decreases m.len(),
{
    if i < m.len() {
        assert(m.drop_last().take(i) =~= m.take(i));
        lemma_members_fail(c, m.drop_last(), i);
    } else {
        assert(m.take(i) =~= m);
    }
}

/// Parses the JSON of `GET /nodes/{node}/lxc/{vmid}/config`.
pub fn parse_config(vmid: u32, v: &Json) -> (r: Result<GuestConfig, Error>)
    ensures
        match r {
            Ok(c) => config_of(vmid, v@) == Ok::<GuestConfigV, Chain>(c@),
            Err(e) => config_of(vmid, v@) == Err::<GuestConfigV, Chain>(e@),
        },
{
    match v {
        Json::Dict(m, t) => {
            proof {
                json::lemma_dict(*m, *t);
            }
            let ghost all = json::entries(m@);
            let mut c = GuestConfig {
                vmid,
                hostname: None,
                unprivileged: false,
                features: Table::new(),
                tags: Vec::new(),
                rootfs: None,
                mounts: Vec::new(),
                is_template: false,
            };
            assert(c@.tags =~= Seq::empty());
            assert(c@.mounts =~= Seq::empty());
            let ghost start = no_config(vmid);
            assert(c@ == start);
            assert(all.take(0) =~= Seq::empty());
            for i in 0..m.len()
                invariant
                    all == json::entries(m@),
                    start == no_config(vmid),
                    config_of(vmid, v@) == (match with_members(start, all) {
                        Err(e) => Err(e),
                        Ok(c) => Ok(GuestConfigV { mounts: in_order(c.mounts), ..c }),
                    }),
                    with_members(start, all.take(i as int)) == Ok::<GuestConfigV, Chain>(c@),
            {
                assert(all.take(i + 1).drop_last() =~= all.take(i as int));
                assert(all.take(i + 1).last() == (m@[i as int].0@, m@[i as int].1@));
                match c.add_member(m[i].0.as_str(), &m[i].1) {
                    Ok(_) => {},
                    Err(e) => {
                        proof {
                            lemma_members_fail(start, all, i + 1);
                        }
                        return Err(e);
                    },
                }
            }
            assert(all.take(all.len() as int) =~= all);
            let mounts = sort(c.mounts);
            Ok(
                GuestConfig {
                    vmid: c.vmid,
                    hostname: c.hostname,
                    unprivileged: c.unprivileged,
                    features: c.features,
                    tags: c.tags,
                    rootfs: c.rootfs,
                    mounts,
                    is_template: c.is_template,
                },
            )
        },
        _ => Err(
            Error::new(
                text::cat3("config of ", num::print(vmid as u64).as_str(), " is not an object"),
            ),
        ),
    }
}

// ---------------------------------------------------------------------------
// Reading from PVE.

/// A guest's number in decimal.
pub open spec fn vm(vmid: u32) -> Text {
    num::dec(vmid as nat)
}

/// The path of a guest's resource on a node.
pub open spec fn lxc_path(node: Text, vmid: u32, rest: Text) -> Text {
    "/nodes/"@ + node + "/lxc/"@ + vm(vmid) + rest
}

pub open spec fn config_s(w: WorldV, node: Text, vmid: u32) -> (
    WorldV,
    Result<GuestConfigV, StopV>,
) {
    match cmd::pvesh_get_s(w, lxc_path(node, vmid, "/config"@), Seq::empty()) {
        (w, Err(e)) => (
            w,
            Err(world::under("guest "@ + vm(vmid) + ": cannot read config"@, e)),
        ),
        (w, Ok(v)) => match config_of(vmid, v) {
            Ok(c) => (w, Ok(c)),
            Err(c) => (w, Err(StopV::Fail(c))),
        },
    }
}

/// No arguments.
pub fn no_args() -> (r: Vec<String>)
    ensures
        text::views(r@) == Seq::<Text>::empty(),
{
    let v: Vec<String> = Vec::new();
    assert(text::views(v@) =~= Seq::empty());
    v
}

/// Reads the config of a container on this node.
pub fn config(w: &mut World, node: &str, vmid: u32) -> (r: Result<GuestConfig, Stop>)
    ensures
        (final(w)@, world::res(r)) == config_s(old(w)@, node@, vmid),
{
    let n = num::print(vmid as u64);
    let path = text::cat5("/nodes/", node, "/lxc/", n.as_str(), "/config");
    let v = match cmd::pvesh_get(w, path.as_str(), &no_args()) {
        Ok(v) => v,
        Err(e) => return Err(
            e.under(text::cat3("guest ", n.as_str(), ": cannot read config")),
        ),
    };
    match parse_config(vmid, &v) {
        Ok(c) => Ok(c),
        Err(e) => Err(Stop::Fail(e)),
    }
}

#[derive(Debug, Clone, Copy, PartialEq, Eq, Structural)]
pub enum Status {
    Running,
    Stopped,
    Other,
}

impl View for Status {
    type V = Status;

    open spec fn view(&self) -> Status {
        *self
    }
}

/// The status in the answer of `GET .../status/current`.
pub open spec fn status_of(v: JsonV) -> Status {
    let s = json::get_str(v, "status"@);
    if s == Some("running"@) {
        Status::Running
    } else if s == Some("stopped"@) {
        Status::Stopped
    } else {
        Status::Other
    }
}

pub open spec fn status_s(w: WorldV, node: Text, vmid: u32) -> (WorldV, Result<Status, StopV>) {
    match cmd::pvesh_get_s(w, lxc_path(node, vmid, "/status/current"@), Seq::empty()) {
        (w, Err(e)) => (
            w,
            Err(world::under("guest "@ + vm(vmid) + ": cannot read status"@, e)),
        ),
        (w, Ok(v)) => (w, Ok(status_of(v))),
    }
}

pub fn status(w: &mut World, node: &str, vmid: u32) -> (r: Result<Status, Stop>)
    ensures
        (final(w)@, world::res(r)) == status_s(old(w)@, node@, vmid),
{
    let n = num::print(vmid as u64);
    let path = text::cat5("/nodes/", node, "/lxc/", n.as_str(), "/status/current");
    let v = match cmd::pvesh_get(w, path.as_str(), &no_args()) {
        Ok(v) => v,
        Err(e) => return Err(
            e.under(text::cat3("guest ", n.as_str(), ": cannot read status")),
        ),
    };
    match v.get_str("status") {
        Some(s) => if text::same(s.as_str(), "running") {
            Ok(Status::Running)
        } else if text::same(s.as_str(), "stopped") {
            Ok(Status::Stopped)
        } else {
            Ok(Status::Other)
        },
        None => Ok(Status::Other),
    }
}

/// One row of `GET /nodes/{node}/lxc`.
#[derive(Debug)]
pub struct Listed {
    pub vmid: u32,
    pub name: String,
    pub running: bool,
    pub tags: Vec<String>,
    pub is_template: bool,
}

/// What a [`Listed`] is, as mathematics.
pub struct ListedV {
    pub vmid: u32,
    pub name: Text,
    pub running: bool,
    pub tags: Seq<Text>,
    pub is_template: bool,
}

impl View for Listed {
    type V = ListedV;

    open spec fn view(&self) -> ListedV {
        ListedV {
            vmid: self.vmid,
            name: self.name@,
            running: self.running,
            tags: text::views(self.tags@),
            is_template: self.is_template,
        }
    }
}

/// The guest's number in a row, zero when there is none; only the low 32 bits
/// of a greater one count.
pub open spec fn row_vmid(r: JsonV) -> u32 {
    match json::get(r, "vmid"@) {
        Some(JsonV::Number(n)) => match num::parsed(n, u64::MAX as nat) {
            Some(x) => (x as u64) as u32,
            None => 0,
        },
        Some(JsonV::Str(s)) => match num::parsed(s, u32::MAX as nat) {
            Some(x) => x as u32,
            None => 0,
        },
        _ => 0,
    }
}

/// The container that a row describes.
pub open spec fn row_of(r: JsonV) -> ListedV {
    ListedV {
        vmid: row_vmid(r),
        name: json::get_str(r, "name"@).unwrap_or(Seq::empty()),
        running: json::get_str(r, "status"@) == Some("running"@),
        tags: tags_of(json::get_str(r, "tags"@).unwrap_or(Seq::empty())),
        is_template: json::get_nat(r, "template"@) == Some(1nat),
    }
}

/// A container put into its place by its number, behind its equals.
pub open spec fn listed_at(l: Seq<ListedV>, x: ListedV) -> Seq<ListedV>
    decreases l.len(),
{
    if l.len() > 0 && x.vmid < l.last().vmid {
        listed_at(l.drop_last(), x).push(l.last())
    } else {
        l.push(x)
    }
}

/// The containers of the rows that have a number, in its order.
pub open spec fn rows_of(rows: Seq<JsonV>) -> Seq<ListedV>
    decreases rows.len(),
{
    if rows.len() == 0 {
        Seq::empty()
    } else if row_vmid(rows.last()) == 0 {
        rows_of(rows.drop_last())
    } else {
        listed_at(rows_of(rows.drop_last()), row_of(rows.last()))
    }
}

pub open spec fn list_of(v: JsonV) -> Result<Seq<ListedV>, Chain> {
    match v {
        JsonV::List(rows, _) => Ok(rows_of(rows)),
        _ => Err(seq!["lxc list is not an array"@]),
    }
}

pub open spec fn list_s(w: WorldV, node: Text) -> (WorldV, Result<Seq<ListedV>, StopV>) {
    match cmd::pvesh_get_s(w, "/nodes/"@ + node + "/lxc"@, Seq::empty()) {
        (w, Err(e)) => (w, Err(e)),
        (w, Ok(v)) => match list_of(v) {
            Ok(l) => (w, Ok(l)),
            Err(c) => (w, Err(StopV::Fail(c))),
        },
    }
}

fn read_vmid(r: &Json) -> (v: u32)
    ensures
        v == row_vmid(r@),
{
    match r.get("vmid") {
        Some(Json::Number(n)) => match num::parse(n.as_str(), u64::MAX) {
            Some(x) => #[verifier::truncate]
            (x as u32),
            None => 0,
        },
        Some(Json::Str(s)) => match num::parse(s.as_str(), u32::MAX as u64) {
            Some(x) => x as u32,
            None => 0,
        },
        _ => 0,
    }
}

fn read_row(r: &Json) -> (l: Listed)
    ensures
        l@ == row_of(r@),
{
    let running = match r.get_str("status") {
        Some(s) => text::same(s.as_str(), "running"),
        None => false,
    };
    let is_template = match r.get_u64("template") {
        Some(n) => n == 1,
        None => false,
    };
    Listed {
        vmid: read_vmid(r),
        name: r.text_or_empty("name"),
        running,
        tags: split_items(r.text_or_empty("tags").as_str(), ';'),
        is_template,
    }
}

fn insert_listed(out: &mut Vec<Listed>, x: Listed)
    ensures
        text::views(final(out)@) == listed_at(text::views(old(out)@), x@),
{
    let ghost sorted = text::views(out@);
    let mut at: usize = out.len();
    assert(sorted.take(at as int) =~= sorted);
    assert(sorted.skip(at as int) =~= Seq::empty());
    assert(listed_at(sorted, x@) =~= listed_at(sorted.take(at as int), x@) + sorted.skip(
        at as int,
    ));
    while at > 0 && x.vmid < out[at - 1].vmid
        invariant
            at <= out@.len(),
            *out == *old(out),
            sorted == text::views(out@),
            listed_at(sorted, x@) == listed_at(sorted.take(at as int), x@) + sorted.skip(
                at as int,
            ),
        decreases at,
    {
        assert(sorted.take(at as int).last() == out@[at - 1]@);
        assert(sorted.take(at as int).drop_last() =~= sorted.take(at - 1));
        assert(listed_at(sorted.take(at as int), x@) + sorted.skip(at as int) =~= listed_at(
            sorted.take(at - 1),
            x@,
        ) + sorted.skip(at - 1));
        at = at - 1;
    }
    if at > 0 {
        assert(sorted.take(at as int).last() == out@[at - 1]@);
    }
    out.insert(at, x);
    assert(text::views(out@) =~= sorted.take(at as int).push(x@) + sorted.skip(at as int));
}

/// The containers in the JSON of `GET /nodes/{node}/lxc`, by their numbers.
pub fn parse_list(v: &Json) -> (r: Result<Vec<Listed>, Error>)
    ensures
        match r {
            Ok(l) => list_of(v@) == Ok::<Seq<ListedV>, Chain>(text::views(l@)),
            Err(e) => list_of(v@) == Err::<Seq<ListedV>, Chain>(e@),
        },
{
    match v {
        Json::List(rows, t) => {
            proof {
                json::lemma_list(*rows, *t);
            }
            let ghost all = text::views(rows@);
            let mut out: Vec<Listed> = Vec::new();
            assert(text::views(out@) =~= Seq::empty());
            assert(all.take(0) =~= Seq::empty());
            for i in 0..rows.len()
                invariant
                    all == text::views(rows@),
                    text::views(out@) == rows_of(all.take(i as int)),
            {
                assert(all.take(i + 1).drop_last() =~= all.take(i as int));
                assert(all.take(i + 1).last() == rows@[i as int]@);
                if read_vmid(&rows[i]) != 0 {
                    let x = read_row(&rows[i]);
                    insert_listed(&mut out, x);
                }
            }
            assert(all.take(all.len() as int) =~= all);
            Ok(out)
        },
        _ => Err(Error::msg("lxc list is not an array")),
    }
}

/// Every container on this node.
pub fn list(w: &mut World, node: &str) -> (r: Result<Vec<Listed>, Stop>)
    ensures
        (final(w)@, world::res_list(r)) == list_s(old(w)@, node@),
{
    let path = text::cat3("/nodes/", node, "/lxc");
    let v = match cmd::pvesh_get(w, path.as_str(), &no_args()) {
        Ok(v) => v,
        Err(e) => return Err(e),
    };
    match parse_list(&v) {
        Ok(l) => Ok(l),
        Err(e) => Err(Stop::Fail(e)),
    }
}

// ---------------------------------------------------------------------------
// Acting on the wrapper.

/// `pct <verb> <vmid>`.
pub open spec fn pct_call(verb: Text, vmid: u32) -> CallV {
    world::program("pct"@).arg(verb).arg(vm(vmid))
}

/// A command whose output does not matter.
pub open spec fn quiet_s(w: WorldV, c: CallV) -> (WorldV, Result<(), StopV>) {
    match cmd::run_within_s(w, c, cmd::LONG_TIMEOUT) {
        (w, Ok(_)) => (w, Ok(())),
        (w, Err(e)) => (w, Err(e)),
    }
}

pub open spec fn set_s(w: WorldV, vmid: u32, args: Seq<Text>) -> (WorldV, Result<(), StopV>) {
    quiet_s(w, pct_call("set"@, vmid).args(args))
}

pub open spec fn resize_s(w: WorldV, vmid: u32, disk: Text, size: nat) -> (
    WorldV,
    Result<(), StopV>,
) {
    quiet_s(w, pct_call("resize"@, vmid).arg(disk).arg(size::shown(size)))
}

pub open spec fn start_s(w: WorldV, vmid: u32) -> (WorldV, Result<(), StopV>) {
    quiet_s(w, pct_call("start"@, vmid))
}

fn pct(verb: &str, vmid: u32) -> (r: Call)
    ensures
        r@ == pct_call(verb@, vmid),
{
    Call::new("pct").arg(verb).arg(num::print(vmid as u64).as_str())
}

/// Runs a slow command for what it does.
pub fn quiet(w: &mut World, c: Call) -> (r: Result<(), Stop>)
    ensures
        (final(w)@, world::res(r)) == quiet_s(old(w)@, c@),
{
    match cmd::run_within(w, c, cmd::LONG_TIMEOUT) {
        Ok(_) => Ok(()),
        Err(e) => Err(e),
    }
}

/// `pct set <vmid> <args>`. Allocating a disk is one of these, so it gets
/// the long deadline.
pub fn set(w: &mut World, vmid: u32, args: &Vec<String>) -> (r: Result<(), Stop>)
    ensures
        (final(w)@, world::res(r)) == set_s(old(w)@, vmid, text::views(args@)),
{
    quiet(w, pct("set", vmid).args(args))
}

/// `pct resize <vmid> <disk> <size>`.
pub fn resize(w: &mut World, vmid: u32, disk: &str, size: Size) -> (r: Result<(), Stop>)
    ensures
        (final(w)@, world::res(r)) == resize_s(old(w)@, vmid, disk@, size@),
{
    quiet(w, pct("resize", vmid).arg(disk).arg(size.to_pct_resize().as_str()))
}

pub fn start(w: &mut World, vmid: u32) -> (r: Result<(), Stop>)
    ensures
        (final(w)@, world::res(r)) == start_s(old(w)@, vmid),
{
    quiet(w, pct("start", vmid))
}

// ---------------------------------------------------------------------------
// Inside the guest.

/// The first line with something in it, or no text.
pub open spec fn first_line(l: Seq<Text>) -> Text
    decreases l.len(),
{
    if l.len() == 0 {
        Seq::empty()
    } else if text::trimmed(l[0]).len() > 0 {
        text::trimmed(l[0])
    } else {
        first_line(l.skip(1))
    }
}

/// The first line of a script, shortened: what names the call in an error
/// about a guest that did not answer.
pub open spec fn brief_of(script: Text) -> Text {
    let l = first_line(text::lines_of(script));
    if l.len() > 60 {
        l.take(59) + "…"@
    } else {
        l
    }
}

/// A shell command line inside the guest.
pub open spec fn exec_call(vmid: u32, script: Text) -> CallV {
    pct_call("exec"@, vmid).arg("--"@).arg("/bin/sh"@).arg("-c"@).arg(script)
}

/// What names the guest and the call in an error.
pub open spec fn in_guest(vmid: u32, script: Text) -> Text {
    "guest "@ + vm(vmid) + ": `"@ + brief_of(script) + "`"@
}

pub open spec fn exec_status_within_s(w: WorldV, vmid: u32, script: Text, within: u64) -> (
    WorldV,
    Result<OutputV, StopV>,
) {
    match cmd::run_status_within_s(w, exec_call(vmid, script), within) {
        (w, Ok(o)) => (w, Ok(o)),
        (w, Err(e)) => (w, Err(world::under(in_guest(vmid, script), e))),
    }
}

pub open spec fn exec_status_s(w: WorldV, vmid: u32, script: Text) -> (
    WorldV,
    Result<OutputV, StopV>,
) {
    exec_status_within_s(w, vmid, script, cmd::TIMEOUT)
}

pub open spec fn exec_s(w: WorldV, vmid: u32, script: Text) -> (WorldV, Result<OutputV, StopV>) {
    match exec_status_s(w, vmid, script) {
        (w, Err(e)) => (w, Err(e)),
        (w, Ok(o)) => if o.status != 0 {
            (
                w,
                Err(
                    world::failed(
                        "in guest "@ + vm(vmid) + ": `"@ + script + "` failed (exit "@
                            + num::signed(o.status as int) + "): "@ + text::trimmed(o.stderr),
                    ),
                ),
            )
        } else {
            (w, Ok(o))
        },
    }
}

pub open spec fn exec_stream_s(w: WorldV, vmid: u32, script: Text, within: Option<u64>) -> (
    WorldV,
    Result<(), StopV>,
) {
    match cmd::streamed_s(w, exec_call(vmid, script).streamed(within)) {
        (w, Ok(_)) => (w, Ok(())),
        (w, Err(e)) => (w, Err(world::under(in_guest(vmid, script), e))),
    }
}

/// The script that prints a file, or exits 3 when there is none.
pub open spec fn cat_script(path: Text) -> Text {
    "if [ -e '"@ + path + "' ]; then cat '"@ + path + "'; else exit 3; fi"@
}

pub open spec fn read_file_s(w: WorldV, vmid: u32, path: Text) -> (
    WorldV,
    Result<Option<Text>, StopV>,
) {
    match exec_status_s(w, vmid, cat_script(path)) {
        (w, Err(e)) => (w, Err(e)),
        (w, Ok(o)) => if o.status == 0 {
            (w, Ok(Some(o.stdout)))
        } else if o.status == 3 {
            (w, Ok(None))
        } else {
            (
                w,
                Err(
                    world::failed(
                        "in guest "@ + vm(vmid) + ": cannot read "@ + path + " (exit "@
                            + num::signed(o.status as int) + "): "@ + text::trimmed(o.stderr),
                    ),
                ),
            )
        },
    }
}

fn brief(script: &str) -> (r: String)
    ensures
        r@ == brief_of(script@),
{
    let lines = text::lines(script);
    let ghost all = text::lines_of(script@);
    let mut line = String::new();
    let mut i: usize = 0;
    let mut found = false;
    assert(all.skip(0) =~= all);
    while i < lines.len() && !found
        invariant
            i <= lines@.len(),
            text::views(lines@) == all,
            !found ==> first_line(all) == first_line(all.skip(i as int)),
            !found ==> line@ == Seq::<char>::empty(),
            found ==> line@ == first_line(all),
        decreases lines@.len() - i + (if found {
            0int
        } else {
            1int
        }),
    {
        assert(all.skip(i as int)[0] == lines@[i as int]@);
        assert(all.skip(i as int).skip(1) =~= all.skip(i + 1));
        let t = text::trim(lines[i].as_str());
        if !text::empty(t.as_str()) {
            line = t;
            found = true;
        } else {
            i = i + 1;
        }
    }
    assert(!found ==> first_line(all.skip(i as int)) =~= Seq::empty());
    let cs = text::chars(line.as_str());
    if cs.len() > 60 {
        let head = text::part(&cs, 0, 59);
        assert(head@ =~= line@.take(59));
        text::cat(head.as_str(), "…")
    } else {
        line
    }
}

fn shell(vmid: u32, script: &str) -> (r: Call)
    ensures
        r@ == exec_call(vmid, script@),
{
    pct("exec", vmid).arg("--").arg("/bin/sh").arg("-c").arg(script)
}

fn where_in(vmid: u32, script: &str) -> (r: String)
    ensures
        r@ == in_guest(vmid, script@),
{
    text::cat5(
        "guest ",
        num::print(vmid as u64).as_str(),
        ": `",
        brief(script).as_str(),
        "`",
    )
}

/// Runs a shell command line inside the guest, capturing output. A non-zero
/// exit is returned in `Output.status`, not as an error; a guest that does
/// not answer within the deadline is one, naming the guest and the call.
pub fn exec_status(w: &mut World, vmid: u32, script: &str) -> (r: Result<Output, Stop>)
    ensures
        (final(w)@, world::res(r)) == exec_status_s(old(w)@, vmid, script@),
{
    exec_status_within(w, vmid, script, cmd::TIMEOUT)
}

/// [`exec_status`] with a deadline of its own.
pub fn exec_status_within(w: &mut World, vmid: u32, script: &str, within: u64) -> (r: Result<
    Output,
    Stop,
>)
    ensures
        (final(w)@, world::res(r)) == exec_status_within_s(old(w)@, vmid, script@, within),
{
    match cmd::run_status_within(w, shell(vmid, script), within) {
        Ok(o) => Ok(o),
        Err(e) => Err(e.under(where_in(vmid, script))),
    }
}

/// Runs a shell command line inside the guest; fails on a non-zero exit.
pub fn exec(w: &mut World, vmid: u32, script: &str) -> (r: Result<Output, Stop>)
    ensures
        (final(w)@, world::res(r)) == exec_s(old(w)@, vmid, script@),
{
    let out = match exec_status(w, vmid, script) {
        Ok(o) => o,
        Err(e) => return Err(e),
    };
    if out.status != 0 {
        return Err(
            Stop::fail(
                text::cat8(
                    "in guest ",
                    num::print(vmid as u64).as_str(),
                    ": `",
                    script,
                    "` failed (exit ",
                    num::print_signed(out.status).as_str(),
                    "): ",
                    text::trim(out.stderr.as_str()).as_str(),
                ),
            ),
        );
    }
    Ok(out)
}

/// Runs a shell command line inside the guest with its output on the
/// terminal and no deadline: for what a human typed and watches.
pub fn exec_stream(w: &mut World, vmid: u32, script: &str) -> (r: Result<(), Stop>)
    ensures
        (final(w)@, world::res(r)) == exec_stream_s(old(w)@, vmid, script@, None),
{
    match cmd::stream(w, shell(vmid, script)) {
        Ok(_) => Ok(()),
        Err(e) => Err(e.under(where_in(vmid, script))),
    }
}

/// [`exec_stream`] with a deadline: for the long ones the daemon runs too.
pub fn exec_stream_within(w: &mut World, vmid: u32, script: &str, within: u64) -> (r: Result<
    (),
    Stop,
>)
    ensures
        (final(w)@, world::res(r)) == exec_stream_s(old(w)@, vmid, script@, Some(within)),
{
    match cmd::stream_within(w, shell(vmid, script), within) {
        Ok(_) => Ok(()),
        Err(e) => Err(e.under(where_in(vmid, script))),
    }
}

/// Reads a file from inside the guest. `Ok(None)` when it does not exist.
pub fn read_file(w: &mut World, vmid: u32, path: &str) -> (r: Result<Option<String>, Stop>)
    ensures
        (final(w)@, world::res_opt(r)) == read_file_s(old(w)@, vmid, path@),
{
    let script = text::cat5("if [ -e '", path, "' ]; then cat '", path, "'; else exit 3; fi");
    let out = match exec_status(w, vmid, script.as_str()) {
        Ok(o) => o,
        Err(e) => return Err(e),
    };
    if out.status == 0 {
        Ok(Some(out.stdout))
    } else if out.status == 3 {
        Ok(None)
    } else {
        Err(
            Stop::fail(
                text::cat8(
                    "in guest ",
                    num::print(vmid as u64).as_str(),
                    ": cannot read ",
                    path,
                    " (exit ",
                    num::print_signed(out.status).as_str(),
                    "): ",
                    text::trim(out.stderr.as_str()).as_str(),
                ),
            ),
        )
    }
}

// ---------------------------------------------------------------------------
// Writing a file into the guest.

/// How many characters a path has up to and without its last slash.
pub open spec fn parent_len(p: Text) -> nat
    decreases p.len(),
{
    if p.len() == 0 {
        0
    } else if p.last() == '/' {
        (p.len() - 1) as nat
    } else {
        parent_len(p.drop_last())
    }
}

/// The directory of a path.
pub open spec fn parent_of(p: Text) -> Text {
    p.take(parent_len(p) as int)
}

/// The sibling that a file is written to before it takes its place.
pub open spec fn sibling_of(p: Text) -> Text {
    parent_of(p) + "/."@ + (if parent_len(p) < p.len() {
        p.skip(parent_len(p) as int + 1)
    } else {
        Seq::empty()
    }) + ".new"@
}

pub open spec fn push_call(vmid: u32, from: Text, path: Text, perms: Text) -> CallV {
    pct_call("push"@, vmid).arg(from).arg(sibling_of(path)).arg("--perms"@).arg(perms).arg(
        "--user"@,
    ).arg("0"@).arg("--group"@).arg("0"@)
}

/// The push to the sibling and the rename over the target, from a file on the
/// node.
pub open spec fn place_s(w: WorldV, vmid: u32, from: Text, path: Text, perms: Text) -> (
    WorldV,
    Result<(), StopV>,
) {
    match cmd::run_s(w, push_call(vmid, from, path, perms)) {
        (w, Err(e)) => (w, Err(e)),
        (w, Ok(_)) => match exec_s(
            w,
            vmid,
            "mv -f '"@ + sibling_of(path) + "' '"@ + path + "'"@,
        ) {
            (w, Err(e)) => (w, Err(e)),
            (w, Ok(_)) => (w, Ok(())),
        },
    }
}

pub open spec fn write_file_s(w: WorldV, vmid: u32, path: Text, t: Text, perms: Text) -> (
    WorldV,
    Result<(), StopV>,
) {
    match exec_s(w, vmid, "mkdir -p '"@ + parent_of(path) + "'"@) {
        (w, Err(e)) => (w, Err(e)),
        (w, Ok(_)) => match w.act(
            ActV::Temp { name: "pve-compose-push-"@ + vm(vmid), text: t },
        ) {
            (w, Err(e)) => (w, Err(e)),
            (w, Ok(o)) => match place_s(w, vmid, o.stdout, path, perms) {
                (w, Err(StopV::Act(a))) => (w, Err(StopV::Act(a))),
                (w, res) => match w.act(ActV::Remove { path: o.stdout }) {
                    (w, Err(StopV::Act(a))) => (w, Err(StopV::Act(a))),
                    (w, _) => (w, res),
                },
            },
        },
    }
}

fn cut_parent(cs: &Vec<char>) -> (r: usize)
    ensures
        r == parent_len(cs@),
        r <= cs@.len(),
{
    let mut i: usize = cs.len();
    assert(cs@.take(i as int) =~= cs@);
    while i > 0 && cs[i - 1] != '/'
        invariant
            i <= cs@.len(),
            parent_len(cs@) == parent_len(cs@.take(i as int)),
        decreases i,
    {
        assert(cs@.take(i as int).drop_last() =~= cs@.take(i - 1));
        i = i - 1;
    }
    if i > 0 {
        assert(cs@.take(i as int).last() == '/');
        i - 1
    } else {
        0
    }
}

fn place(w: &mut World, vmid: u32, from: &str, path: &str, perms: &str, sibling: &str) -> (r:
    Result<(), Stop>)
    requires
        sibling@ == sibling_of(path@),
    ensures
        (final(w)@, world::res(r)) == place_s(old(w)@, vmid, from@, path@, perms@),
{
    match cmd::run(
        w,
        pct("push", vmid).arg(from).arg(sibling).arg("--perms").arg(perms).arg("--user").arg(
            "0",
        ).arg("--group").arg("0"),
    ) {
        Ok(_) => {},
        Err(e) => return Err(e),
    }
    let script = text::cat5("mv -f '", sibling, "' '", path, "'");
    match exec(w, vmid, script.as_str()) {
        Ok(_) => Ok(()),
        Err(e) => Err(e),
    }
}

/// Writes a file inside the guest: pushed to a sibling and renamed over the
/// target, so that a reader sees the old file or the new one. The copy on
/// the node is removed whatever came of it.
pub fn write_file(w: &mut World, vmid: u32, path: &str, text: &str, perms: &str) -> (r: Result<
    (),
    Stop,
>)
    ensures
        (final(w)@, world::res(r)) == write_file_s(old(w)@, vmid, path@, text@, perms@),
{
    let cs = text::chars(path);
    let at = cut_parent(&cs);
    let parent = text::part(&cs, 0, at);
    assert(parent@ =~= parent_of(path@));
    let name = if at < cs.len() {
        text::part(&cs, at + 1, cs.len())
    } else {
        String::new()
    };
    assert(at < cs@.len() ==> name@ =~= path@.skip(parent_len(path@) as int + 1));
    let sibling = text::cat4(parent.as_str(), "/.", name.as_str(), ".new");
    match exec(w, vmid, text::cat3("mkdir -p '", parent.as_str(), "'").as_str()) {
        Ok(_) => {},
        Err(e) => return Err(e),
    }
    let temp = text::cat("pve-compose-push-", num::print(vmid as u64).as_str());
    let from = match w.act(Act::Temp { name: temp, text: text.to_owned() }) {
        Ok(o) => o.stdout,
        Err(e) => return Err(e),
    };
    let res = place(w, vmid, from.as_str(), path, perms, sibling.as_str());
    if let Err(Stop::Act(a)) = res {
        return Err(Stop::Act(a));
    }
    if let Err(Stop::Act(a)) = w.act(Act::Remove { path: from }) {
        return Err(Stop::Act(a));
    }
    res
}

// ---------------------------------------------------------------------------
// Storages and owners.

/// One storage of this node, from `GET /nodes/{node}/storage`.
#[derive(Debug)]
pub struct Storage {
    pub id: String,
    pub kind: String,
    pub avail: u64,
    pub shared: bool,
}

/// What a [`Storage`] is, as mathematics.
pub struct StorageV {
    pub id: Text,
    pub kind: Text,
    pub avail: u64,
    pub shared: bool,
}

impl View for Storage {
    type V = StorageV;

    open spec fn view(&self) -> StorageV {
        StorageV { id: self.id@, kind: self.kind@, avail: self.avail, shared: self.shared }
    }
}

/// The storage that a row describes, unless it is not active.
pub open spec fn storage_of(r: JsonV) -> Option<StorageV> {
    if json::get_nat(r, "active"@) == Some(0nat) {
        None
    } else {
        match json::get_str(r, "storage"@) {
            None => None,
            Some(id) => Some(
                StorageV {
                    id,
                    kind: json::get_str(r, "type"@).unwrap_or(Seq::empty()),
                    avail: json::get_nat(r, "avail"@).unwrap_or(0) as u64,
                    shared: json::get_nat(r, "shared"@) == Some(1nat),
                },
            ),
        }
    }
}

/// A storage put into its place by its name, behind its equals.
pub open spec fn storage_at(l: Seq<StorageV>, x: StorageV) -> Seq<StorageV>
    decreases l.len(),
{
    if l.len() > 0 && table::below(x.id, l.last().id) {
        storage_at(l.drop_last(), x).push(l.last())
    } else {
        l.push(x)
    }
}

pub open spec fn storages_from(rows: Seq<JsonV>) -> Seq<StorageV>
    decreases rows.len(),
{
    if rows.len() == 0 {
        Seq::empty()
    } else {
        match storage_of(rows.last()) {
            None => storages_from(rows.drop_last()),
            Some(x) => storage_at(storages_from(rows.drop_last()), x),
        }
    }
}

/// The active storages of the rows, by their names.
pub open spec fn storages_of(v: JsonV) -> Seq<StorageV> {
    match v {
        JsonV::List(rows, _) => storages_from(rows),
        _ => Seq::empty(),
    }
}

pub open spec fn storages_s(w: WorldV, node: Text, content: Text) -> (
    WorldV,
    Result<Seq<StorageV>, StopV>,
) {
    match cmd::pvesh_get_s(
        w,
        "/nodes/"@ + node + "/storage"@,
        seq!["--content"@, content, "--enabled"@, "1"@],
    ) {
        (w, Err(e)) => (w, Err(e)),
        (w, Ok(v)) => (w, Ok(storages_of(v))),
    }
}

fn read_storage(r: &Json) -> (s: Option<Storage>)
    ensures
        text::opt(s) == storage_of(r@),
{
    if let Some(n) = r.get_u64("active") {
        if n == 0 {
            return None;
        }
    }
    let id = match r.get_str("storage") {
        Some(s) => s.clone(),
        None => return None,
    };
    let avail = match r.get_u64("avail") {
        Some(n) => n,
        None => 0,
    };
    let shared = match r.get_u64("shared") {
        Some(n) => n == 1,
        None => false,
    };
    Some(Storage { id, kind: r.text_or_empty("type"), avail, shared })
}

fn insert_storage(out: &mut Vec<Storage>, x: Storage)
    ensures
        text::views(final(out)@) == storage_at(text::views(old(out)@), x@),
{
    let ghost sorted = text::views(out@);
    let mut at: usize = out.len();
    assert(sorted.take(at as int) =~= sorted);
    assert(sorted.skip(at as int) =~= Seq::empty());
    assert(storage_at(sorted, x@) =~= storage_at(sorted.take(at as int), x@) + sorted.skip(
        at as int,
    ));
    while at > 0 && table::less(x.id.as_str(), out[at - 1].id.as_str())
        invariant
            at <= out@.len(),
            *out == *old(out),
            sorted == text::views(out@),
            storage_at(sorted, x@) == storage_at(sorted.take(at as int), x@) + sorted.skip(
                at as int,
            ),
        decreases at,
    {
        assert(sorted.take(at as int).last() == out@[at - 1]@);
        assert(sorted.take(at as int).drop_last() =~= sorted.take(at - 1));
        assert(storage_at(sorted.take(at as int), x@) + sorted.skip(at as int) =~= storage_at(
            sorted.take(at - 1),
            x@,
        ) + sorted.skip(at - 1));
        at = at - 1;
    }
    if at > 0 {
        assert(sorted.take(at as int).last() == out@[at - 1]@);
    }
    out.insert(at, x);
    assert(text::views(out@) =~= sorted.take(at as int).push(x@) + sorted.skip(at as int));
}

/// The active storages in the JSON of `GET /nodes/{node}/storage`.
pub fn parse_storages(v: &Json) -> (r: Vec<Storage>)
    ensures
        text::views(r@) == storages_of(v@),
{
    let mut out: Vec<Storage> = Vec::new();
    assert(text::views(out@) =~= Seq::empty());
    if let Json::List(rows, t) = v {
        proof {
            json::lemma_list(*rows, *t);
        }
        let ghost all = text::views(rows@);
        assert(all.take(0) =~= Seq::empty());
        for i in 0..rows.len()
            invariant
                all == text::views(rows@),
                text::views(out@) == storages_from(all.take(i as int)),
        {
            assert(all.take(i + 1).drop_last() =~= all.take(i as int));
            assert(all.take(i + 1).last() == rows@[i as int]@);
            if let Some(x) = read_storage(&rows[i]) {
                insert_storage(&mut out, x);
            }
        }
        assert(all.take(all.len() as int) =~= all);
    }
    out
}

/// The enabled, active storages on `node` that accept `content`
/// (`rootdir` for container disks, `vztmpl` for templates).
pub fn storages(w: &mut World, node: &str, content: &str) -> (r: Result<Vec<Storage>, Stop>)
    ensures
        (final(w)@, world::res_list(r)) == storages_s(old(w)@, node@, content@),
{
    let args = vec![
        "--content".to_owned(),
        content.to_owned(),
        "--enabled".to_owned(),
        "1".to_owned(),
    ];
    assert(text::views(args@) =~= seq!["--content"@, content@, "--enabled"@, "1"@]);
    let path = text::cat3("/nodes/", node, "/storage");
    match cmd::pvesh_get(w, path.as_str(), &args) {
        Ok(v) => Ok(parse_storages(&v)),
        Err(e) => Err(e),
    }
}

/// The node and kind of a guest, from the cluster's own vmid map.
pub open spec fn owner_of(v: JsonV, vmid: u32) -> Option<(Text, Text)> {
    match json::get(v, "ids"@) {
        None => None,
        Some(ids) => match json::get(ids, vm(vmid)) {
            None => None,
            Some(e) => Some(
                (
                    json::get_str(e, "node"@).unwrap_or(Seq::empty()),
                    json::get_str(e, "type"@).unwrap_or(Seq::empty()),
                ),
            ),
        },
    }
}

pub open spec fn owner_node_s(w: WorldV, vmid: u32) -> (
    WorldV,
    Result<Option<(Text, Text)>, StopV>,
) {
    match w.act(ActV::Read { path: "/etc/pve/.vmlist"@ }) {
        (w, Err(e)) => (w, Err(world::under("reading /etc/pve/.vmlist"@, e))),
        (w, Ok(o)) => if o.status == MISSING {
            (w, Err(StopV::Fail(seq!["reading /etc/pve/.vmlist"@, "no such file"@])))
        } else {
            match json::json_of(o.stdout) {
                Err(m) => (w, Err(StopV::Fail(seq!["/etc/pve/.vmlist is not JSON"@, m]))),
                Ok(v) => (w, Ok(owner_of(v, vmid))),
            }
        },
    }
}

/// A node and a kind, where there are some.
pub open spec fn pair(o: Option<(String, String)>) -> Option<(Text, Text)> {
    match o {
        Some((a, b)) => Some((a@, b@)),
        None => None,
    }
}

/// The view of what a verb gave back, where that may be a pair.
pub open spec fn res_pair(r: Result<Option<(String, String)>, Stop>) -> Result<
    Option<(Text, Text)>,
    StopV,
> {
    match r {
        Ok(o) => Ok(pair(o)),
        Err(e) => Err(e@),
    }
}

/// The node owning `vmid`, from the cluster's own vmid map, and what kind of
/// guest it is. `Ok(None)` for a vmid that is not a guest anywhere.
pub fn owner_node(w: &mut World, vmid: u32) -> (r: Result<Option<(String, String)>, Stop>)
    ensures
        (final(w)@, res_pair(r)) == owner_node_s(old(w)@, vmid),
{
    let o = match w.act(Act::Read { path: "/etc/pve/.vmlist".to_owned() }) {
        Ok(o) => o,
        Err(e) => return Err(e.under("reading /etc/pve/.vmlist".to_owned())),
    };
    if o.status == MISSING {
        let e = Error::msg("no such file").context("reading /etc/pve/.vmlist".to_owned());
        assert(e@ =~= seq!["reading /etc/pve/.vmlist"@, "no such file"@]);
        return Err(Stop::Fail(e));
    }
    let v = match json::parse(o.stdout.as_str()) {
        Ok(v) => v,
        Err(e) => {
            let ghost m = e@[0];
            let e = e.context("/etc/pve/.vmlist is not JSON".to_owned());
            assert(e@ =~= seq!["/etc/pve/.vmlist is not JSON"@, m]);
            return Err(Stop::Fail(e));
        },
    };
    match v.get("ids") {
        None => Ok(None),
        Some(ids) => match ids.get(num::print(vmid as u64).as_str()) {
            None => Ok(None),
            Some(e) => Ok(Some((e.text_or_empty("node"), e.text_or_empty("type")))),
        },
    }
}

// ---------------------------------------------------------------------------
// Waiting for a guest.

pub open spec fn route_script() -> Text {
    "ip route show default 2>/dev/null | grep -q ."@
}

/// Asking until the guest answers, or the deadline has passed.
pub open spec fn ready_by_s(w: WorldV, vmid: u32, secs: u32, deadline: int) -> (
    WorldV,
    Result<(), StopV>,
)
    decreases w.replies.len() - w.pos,
{
    match exec_status_s(w, vmid, route_script()) {
        (v, Err(StopV::Act(a))) => (v, Err(StopV::Act(a))),
        (v, r) => if r is Ok && r->Ok_0.status == 0 {
            (v, Ok(()))
        } else if v.now >= deadline {
            (
                v,
                Err(
                    world::failed(
                        "guest "@ + vm(vmid) + ": no default route after "@ + num::dec(
                            secs as nat,
                        ) + "s"@,
                    ),
                ),
            )
        } else {
            match v.act(ActV::Sleep { millis: 2000 }) {
                (v, Err(StopV::Act(a))) => (v, Err(StopV::Act(a))),
                (v, _) => ready_by_s(v, vmid, secs, deadline),
            }
        },
    }
}

pub open spec fn wait_ready_s(w: WorldV, vmid: u32, secs: u32) -> (WorldV, Result<(), StopV>) {
    ready_by_s(w, vmid, secs, w.now + secs * 1000)
}

/// Waits until the guest answers `pct exec` and has a default route, for up
/// to `secs` seconds: the signal that apt and docker pulls can run. The
/// address itself is nobody's business here.
pub fn wait_ready(w: &mut World, vmid: u32, secs: u32) -> (r: Result<(), Stop>)
    ensures
        (final(w)@, world::res(r)) == wait_ready_s(old(w)@, vmid, secs),
{
    let deadline: u128 = w.now as u128 + secs as u128 * 1000;
    loop
        invariant
            ready_by_s(w@, vmid, secs, deadline as int) == wait_ready_s(old(w)@, vmid, secs),
        decreases w@.replies.len() - w@.pos,
    {
        let ghost before = w@;
        match exec_status(w, vmid, "ip route show default 2>/dev/null | grep -q .") {
            Ok(o) => {
                if o.status == 0 {
                    return Ok(());
                }
            },
            Err(Stop::Act(a)) => return Err(Stop::Act(a)),
            Err(Stop::Fail(_)) => {},
        }
        if w.now as u128 >= deadline {
            return Err(
                Stop::fail(
                    text::cat5(
                        "guest ",
                        num::print(vmid as u64).as_str(),
                        ": no default route after ",
                        num::print(secs as u64).as_str(),
                        "s",
                    ),
                ),
            );
        }
        if let Err(Stop::Act(a)) = w.act(Act::Sleep { millis: 2000 }) {
            return Err(Stop::Act(a));
        }
    }
}

// ---------------------------------------------------------------------------
// A mount line rewritten.

/// Whether a character does not occur in a text.
pub open spec fn without(s: Text, c: char) -> bool {
    forall|i: int| 0 <= i < s.len() ==> #[trigger] s[i] != c
}

/// Whether a name is one of the options that a [`Mount`] has a field for.
pub open spec fn is_field(k: Text) -> bool {
    k == "mp"@ || k == "size"@ || k == "backup"@ || k == "volume"@
}

/// Whether a volume is spelled so that it stands for itself at the start of a
/// line.
pub open spec fn bare(v: Text) -> bool {
    v.len() > 0 && text::trimmed(v) == v && !"volume="@.is_prefix_of(v)
}

proof fn lemma_pieces_one(b: Text, sep: char)
    requires
        without(b, sep),
    ensures
        text::pieces(b, sep) == seq![b],
    decreases b.len(),
{
    if b.len() > 0 {
        let f = b.drop_last();
        assert forall|i: int| 0 <= i < f.len() implies #[trigger] f[i] != sep by {
            assert(f[i] == b[i]);
        }
        lemma_pieces_one(f, sep);
        assert(b.last() != sep);
        assert(f.push(b.last()) =~= b);
        assert(text::pieces(b, sep) =~= seq![b]);
    } else {
        assert(b =~= Seq::empty());
    }
}

proof fn lemma_pieces_more(a: Text, b: Text, sep: char)
    requires
        without(b, sep),
    ensures
        text::pieces(a + seq![sep] + b, sep) == text::pieces(a, sep).push(b),
    decreases b.len(),
{
    let s = a + seq![sep] + b;
    if b.len() > 0 {
        let f = b.drop_last();
        assert forall|i: int| 0 <= i < f.len() implies #[trigger] f[i] != sep by {
            assert(f[i] == b[i]);
        }
        lemma_pieces_more(a, f, sep);
        assert(s.drop_last() =~= a + seq![sep] + f);
        assert(s.last() == b.last());
        assert(b.last() != sep);
        let before = text::pieces(a, sep).push(f);
        assert(before.drop_last() =~= text::pieces(a, sep));
        assert(f.push(b.last()) =~= b);
        assert(text::pieces(s, sep) =~= text::pieces(a, sep).push(b));
    } else {
        assert(s.drop_last() =~= a);
        assert(b =~= Seq::empty());
    }
}

/// A line with one more option.
proof fn lemma_one_more(key: Text, t: Text, o: Seq<Text>, m: MountV, x: Text, n: MountV)
    requires
        text::pieces(t, ',').len() > 0,
        text::pieces(t, ',').skip(1) == o,
        with_options(mount_start(key, text::pieces(t, ',')[0]), o) == Ok::<MountV, Chain>(m),
        without(x, ','),
        with_option(m, x) == Ok::<MountV, Chain>(n),
    ensures
        text::pieces(t + seq![','] + x, ',') == text::pieces(t, ',').push(x),
        text::pieces(t + seq![','] + x, ',').skip(1) == o.push(x),
        with_options(mount_start(key, text::pieces(t, ',')[0]), o.push(x)) == Ok::<MountV, Chain>(
            n,
        ),
{
    lemma_pieces_more(t, x, ',');
    let p = text::pieces(t, ',');
    assert(p.push(x).skip(1) =~= o.push(x));
    assert(o.push(x).drop_last() =~= o);
}

/// The option that a name and a value spell.
proof fn lemma_option(m: MountV, k: Text, v: Text)
    requires
        without(k, '='),
    ensures
        ({
            let x = k + seq!['='] + v;
            &&& text::first(x, '=') == k.len()
            &&& x.take(k.len() as int) == k
            &&& x.skip(k.len() as int + 1) == v
            &&& without(k, ',') && without(v, ',') ==> without(x, ',')
        }),
{
    let x = k + seq!['='] + v;
    assert forall|j: int| 0 <= j < k.len() implies x[j] != '=' by {
        assert(x[j] == k[j]);
    }
    text::lemma_first_is(x, '=', k.len() as int);
    assert(x.take(k.len() as int) =~= k);
    assert(x.skip(k.len() as int + 1) =~= v);
}

proof fn lemma_size_has_no_comma(s: nat)
    ensures
        without(size::shown(s), ','),
{
    reveal_strlit("T");
    reveal_strlit("G");
    reveal_strlit("M");
    reveal_strlit("K");
    num::law_print_parse(s / (size::TIB as nat));
    num::law_print_parse(s / (size::GIB as nat));
    num::law_print_parse(s / (size::MIB as nat));
    num::law_print_parse(s / (size::KIB as nat));
    num::law_print_parse(s);
    let t = size::shown(s);
    assert forall|i: int| 0 <= i < t.len() implies #[trigger] t[i] != ',' by {
        if i < t.len() - 1 {
            assert(text::is_digit(t[i]));
        }
    }
}

/// Whether every other option can be printed and read back.
pub open spec fn others_plain(o: Seq<(Text, Text)>) -> bool {
    forall|i: int|
        0 <= i < o.len() ==> !is_field((#[trigger] o[i]).0) && without(o[i].0, '=') && without(
            o[i].0,
            ',',
        ) && without(o[i].1, ',')
}

proof fn lemma_others(key: Text, t: Text, m: MountV, o: Seq<(Text, Text)>)
    requires
        text::pieces(t, ',').len() > 0,
        with_options(
            mount_start(key, text::pieces(t, ',')[0]),
            text::pieces(t, ',').skip(1),
        ) == Ok::<MountV, Chain>(m),
        m.other == Seq::<(Text, Text)>::empty(),
        table::sorted(o),
        others_plain(o),
    ensures
        text::pieces(t + other_shown(o), ',').len() > 0,
        text::pieces(t + other_shown(o), ',')[0] == text::pieces(t, ',')[0],
        with_options(
            mount_start(key, text::pieces(t, ',')[0]),
            text::pieces(t + other_shown(o), ',').skip(1),
        ) == Ok::<MountV, Chain>(MountV { other: o, ..m }),
    decreases o.len(),
{
    if o.len() == 0 {
        assert(t + other_shown(o) =~= t);
        assert(o =~= Seq::<(Text, Text)>::empty());
    } else {
        let f = o.drop_last();
        let (k, v) = o.last();
        assert(o[o.len() - 1] == o.last());
        assert forall|i: int| 0 <= i < f.len() implies !is_field((#[trigger] f[i]).0) && without(
            f[i].0,
            '=',
        ) && without(f[i].0, ',') && without(f[i].1, ',') by {
            assert(f[i] == o[i]);
        }
        assert forall|i: int, j: int| 0 <= i < j < f.len() implies table::below(
            #[trigger] f[i].0,
            #[trigger] f[j].0,
        ) by {
            assert(f[i] == o[i] && f[j] == o[j]);
        }
        lemma_others(key, t, m, f);
        reveal_strlit(",");
        reveal_strlit("=");
        let x = k + seq!['='] + v;
        let s = t + other_shown(f);
        assert(t + other_shown(o) =~= s + seq![','] + x);
        lemma_option(m, k, v);
        let n = MountV { other: f, ..m };
        assert forall|i: int| 0 <= i < f.len() implies table::below(#[trigger] f[i].0, k) by {
            assert(f[i] == o[i]);
        }
        table::lemma_insert_last(f, k, v);
        assert(f.push((k, v)) =~= o);
        lemma_one_more(
            key,
            s,
            text::pieces(s, ',').skip(1),
            n,
            x,
            MountV { other: o, ..m },
        );
    }
}

/// Whether the start of a line has been read so far as a mount.
spec fn reads(key: Text, volume: Text, t: Text, m: MountV) -> bool {
    &&& text::pieces(t, ',').len() > 0
    &&& text::pieces(t, ',')[0] == volume
    &&& with_options(mount_start(key, volume), text::pieces(t, ',').skip(1)) == Ok::<
        MountV,
        Chain,
    >(m)
}

proof fn lemma_reads_more(key: Text, volume: Text, t: Text, m: MountV, k: Text, v: Text, n: MountV)
    requires
        reads(key, volume, t, m),
        without(k, '='),
        without(k, ','),
        without(v, ','),
        with_option(m, k + seq!['='] + v) == Ok::<MountV, Chain>(n),
    ensures
        reads(key, volume, t + seq![','] + (k + seq!['='] + v), n),
{
    let x = k + seq!['='] + v;
    lemma_option(m, k, v);
    lemma_one_more(key, t, text::pieces(t, ',').skip(1), m, x, n);
    assert(text::pieces(t, ',').push(x)[0] == volume);
}

proof fn lemma_reads_mp(key: Text, volume: Text, t: Text, m: MountV, p: Text)
    requires
        reads(key, volume, t, m),
        without(p, ','),
    ensures
        reads(key, volume, t + (",mp="@ + p), MountV { mp: Some(p), ..m }),
{
    reveal_strlit(",mp=");
    reveal_strlit("mp");
    assert(t + (",mp="@ + p) =~= t + seq![','] + ("mp"@ + seq!['='] + p));
    lemma_option(m, "mp"@, p);
    lemma_reads_more(key, volume, t, m, "mp"@, p, MountV { mp: Some(p), ..m });
}

proof fn lemma_reads_size(key: Text, volume: Text, t: Text, m: MountV, s: nat)
    requires
        reads(key, volume, t, m),
        size::readable(s),
    ensures
        reads(key, volume, t + (",size="@ + size::shown(s)), MountV { size: Some(s), ..m }),
{
    reveal_strlit(",size=");
    reveal_strlit("size");
    reveal_strlit("mp");
    assert("size"@.len() != "mp"@.len());
    let v = size::shown(s);
    assert(t + (",size="@ + v) =~= t + seq![','] + ("size"@ + seq!['='] + v));
    lemma_size_has_no_comma(s);
    lemma_option(m, "size"@, v);
    size::law_print_parse(s);
    lemma_reads_more(key, volume, t, m, "size"@, v, MountV { size: Some(s), ..m });
}

proof fn lemma_reads_backup(key: Text, volume: Text, t: Text, m: MountV)
    requires
        reads(key, volume, t, m),
    ensures
        reads(key, volume, t + ",backup=1"@, MountV { backup: true, ..m }),
{
    reveal_strlit(",backup=1");
    reveal_strlit("backup");
    reveal_strlit("size");
    reveal_strlit("mp");
    reveal_strlit("1");
    assert("backup"@.len() != "mp"@.len());
    assert("backup"@.len() != "size"@.len());
    assert(t + ",backup=1"@ =~= t + seq![','] + ("backup"@ + seq!['='] + "1"@));
    lemma_option(m, "backup"@, "1"@);
    lemma_reads_more(key, volume, t, m, "backup"@, "1"@, MountV { backup: true, ..m });
}

/// A mount printed and read again is the same mount, the options without a
/// field included.
pub proof fn law_mount_reads_back(m: MountV)
    requires
        bare(m.volume),
        without(m.volume, ','),
        m.mp matches Some(p) ==> without(p, ','),
        m.size matches Some(s) ==> size::readable(s),
        table::sorted(m.other),
        others_plain(m.other),
    ensures
        mount_of(m.key, mount_shown(m)) == Ok::<MountV, Chain>(m),
{
    let t0 = m.volume;
    let m0 = mount_start(m.key, t0);
    lemma_pieces_one(t0, ',');
    assert(text::pieces(t0, ',').skip(1) =~= Seq::empty());
    assert(reads(m.key, t0, t0, m0));
    let t1 = t0 + (match m.mp {
        Some(p) => ",mp="@ + p,
        None => Seq::empty(),
    });
    let m1 = MountV { mp: m.mp, ..m0 };
    match m.mp {
        Some(p) => {
            lemma_reads_mp(m.key, t0, t0, m0, p);
        },
        None => {
            assert(t1 =~= t0);
        },
    }
    let t2 = t1 + (match m.size {
        Some(s) => ",size="@ + size::shown(s),
        None => Seq::empty(),
    });
    let m2 = MountV { size: m.size, ..m1 };
    match m.size {
        Some(s) => {
            lemma_reads_size(m.key, t0, t1, m1, s);
        },
        None => {
            assert(t2 =~= t1);
        },
    }
    let t3 = t2 + (if m.backup {
        ",backup=1"@
    } else {
        Seq::empty()
    });
    let m3 = MountV { backup: m.backup, ..m2 };
    if m.backup {
        lemma_reads_backup(m.key, t0, t2, m2);
    } else {
        assert(t3 =~= t2);
    }
    lemma_others(m.key, t3, m3, m.other);
    assert(mount_shown(m) =~= t3 + other_shown(m.other));
    assert(MountV { other: m.other, ..m3 } == m);
}

proof fn lemma_pieces_free(s: Text, sep: char)
    ensures
        text::pieces(s, sep).len() > 0,
        forall|i: int|
            0 <= i < text::pieces(s, sep).len() ==> without(#[trigger] text::pieces(s, sep)[i], sep),
    decreases s.len(),
{
    if s.len() > 0 {
        lemma_pieces_free(s.drop_last(), sep);
        let before = text::pieces(s.drop_last(), sep);
        let p = text::pieces(s, sep);
        if s.last() != sep {
            assert forall|i: int| 0 <= i < p.len() implies without(#[trigger] p[i], sep) by {
                assert(without(before[i], sep));
                if i == p.len() - 1 {
                    assert(p[i] == before[i].push(s.last()));
                }
            }
        } else {
            assert forall|i: int| 0 <= i < p.len() implies without(#[trigger] p[i], sep) by {
                if i < before.len() {
                    assert(p[i] == before[i]);
                    assert(without(before[i], sep));
                }
            }
        }
    }
}

proof fn lemma_parts_free(x: Text, i: int)
    requires
        without(x, ','),
        0 <= i < x.len(),
    ensures
        without(x.take(i), ','),
        without(x.skip(i + 1), ','),
{
    assert forall|j: int| 0 <= j < x.take(i).len() implies #[trigger] x.take(i)[j] != ',' by {
        assert(x.take(i)[j] == x[j]);
    }
    let t = x.skip(i + 1);
    assert forall|j: int| 0 <= j < t.len() implies #[trigger] t[j] != ',' by {
        assert(t[j] == x[j + i + 1]);
    }
}

proof fn lemma_parsed_plain(m: MountV, p: Seq<Text>)
    requires
        forall|i: int| 0 <= i < p.len() ==> without(#[trigger] p[i], ','),
        without(m.volume, ','),
        m.mp is None,
        m.other == Seq::<(Text, Text)>::empty(),
    ensures
        with_options(m, p) matches Ok(n) ==> {
            &&& n.key == m.key
            &&& without(n.volume, ',')
            &&& n.mp matches Some(q) ==> without(q, ',')
            &&& table::sorted(n.other)
            &&& others_plain(n.other)
        },
    decreases p.len(),
{
    if p.len() > 0 {
        let f = p.drop_last();
        assert forall|i: int| 0 <= i < f.len() implies without(#[trigger] f[i], ',') by {
            assert(f[i] == p[i]);
        }
        lemma_parsed_plain(m, f);
        match with_options(m, f) {
            Ok(n) => {
                let x = p.last();
                assert(x == p[p.len() - 1]);
                text::lemma_first(x, '=');
                let i = text::first(x, '=') as int;
                if i < x.len() {
                    lemma_parts_free(x, i);
                    let k = x.take(i);
                    let v = x.skip(i + 1);
                    assert(without(k, '=')) by {
                        assert forall|j: int| 0 <= j < k.len() implies #[trigger] k[j] != '=' by {
                            assert(k[j] == x[j]);
                        }
                    }
                    if !is_field(k) {
                        table::law_insert_sorted(n.other, k, v);
                        let o = table::inserted(n.other, k, v);
                        assert forall|j: int| 0 <= j < o.len() implies !is_field(
                            (#[trigger] o[j]).0,
                        ) && without(o[j].0, '=') && without(o[j].0, ',') && without(
                            o[j].1,
                            ',',
                        ) by {
                            table::lemma_inserted_entry(n.other, k, v, j);
                        }
                    }
                }
            },
            Err(_) => {},
        }
    }
}

proof fn lemma_trimmed_free(s: Text)
    requires
        without(s, ','),
    ensures
        without(text::trimmed(s), ','),
{
    lemma_trim_start_free(s);
    lemma_trim_end_free(text::trim_start(s));
}

proof fn lemma_trim_start_free(s: Text)
    requires
        without(s, ','),
    ensures
        without(text::trim_start(s), ','),
    decreases s.len(),
{
    if s.len() > 0 && text::is_space(s[0]) {
        let t = s.skip(1);
        assert forall|i: int| 0 <= i < t.len() implies #[trigger] t[i] != ',' by {
            assert(t[i] == s[i + 1]);
        }
        lemma_trim_start_free(t);
    }
}

proof fn lemma_trim_end_free(s: Text)
    requires
        without(s, ','),
    ensures
        without(text::trim_end(s), ','),
    decreases s.len(),
{
    if s.len() > 0 && text::is_space(s.last()) {
        let t = s.drop_last();
        assert forall|i: int| 0 <= i < t.len() implies #[trigger] t[i] != ',' by {
            assert(t[i] == s[i]);
        }
        lemma_trim_end_free(t);
    }
}

/// A line that was read can be written again and means the same, so that a
/// rewrite loses nothing, wherever its volume stands for itself and its size
/// is a whole number of KiB.
pub proof fn law_rewrite_loses_nothing(key: Text, line: Text, m: MountV)
    requires
        mount_of(key, line) == Ok::<MountV, Chain>(m),
        bare(m.volume),
        m.size matches Some(s) ==> size::readable(s),
    ensures
        mount_of(key, mount_shown(m)) == Ok::<MountV, Chain>(m),
{
    let p = text::pieces(line, ',');
    lemma_pieces_free(line, ',');
    let rest = p.skip(1);
    assert forall|i: int| 0 <= i < rest.len() implies without(#[trigger] rest[i], ',') by {
        assert(rest[i] == p[i + 1]);
    }
    let start = mount_start(key, p[0]);
    assert(without(start.volume, ',')) by {
        lemma_trimmed_free(p[0]);
        let f = text::trimmed(p[0]);
        if "volume="@.is_prefix_of(f) {
            let n = "volume="@.len() as int;
            assert forall|j: int| 0 <= j < f.skip(n).len() implies #[trigger] f.skip(n)[j] != ','
            by {
                assert(f.skip(n)[j] == f[j + n]);
            }
        }
    }
    lemma_parsed_plain(start, rest);
    law_mount_reads_back(m);
}

/// A world that knows only the first replies.
pub open spec fn earlier(w: WorldV, n: int) -> WorldV {
    WorldV { replies: w.replies.take(n), ..w }
}

proof fn lemma_earlier_exec(w: WorldV, vmid: u32, script: Text, n: int)
    requires
        w.pos < n <= w.replies.len(),
    ensures
        exec_s(earlier(w, n), vmid, script) == (
            earlier(exec_s(w, vmid, script).0, n),
            exec_s(w, vmid, script).1,
        ),
        exec_s(w, vmid, script).0.pos == w.pos + 1,
        exec_s(w, vmid, script).0.replies == w.replies,
        !(exec_s(w, vmid, script).1 matches Err(StopV::Act(_))),
{
    assert(earlier(w, n).replies[w.pos as int] == w.replies[w.pos as int]);
}

proof fn lemma_earlier_place(w: WorldV, vmid: u32, from: Text, path: Text, perms: Text, n: int)
    requires
        !(place_s(w, vmid, from, path, perms).1 matches Err(StopV::Act(_))),
        n == place_s(w, vmid, from, path, perms).0.pos,
    ensures
        place_s(earlier(w, n), vmid, from, path, perms) == (
            earlier(place_s(w, vmid, from, path, perms).0, n),
            place_s(w, vmid, from, path, perms).1,
        ),
        w.pos < n <= w.replies.len(),
        place_s(w, vmid, from, path, perms).0.replies == w.replies,
{
    let c = push_call(vmid, from, path, perms);
    let mv = "mv -f '"@ + sibling_of(path) + "' '"@ + path + "'"@;
    let (w1, r1) = cmd::run_s(w, c);
    assert(w.pos < w.replies.len());
    if r1 is Ok {
        assert(w1.pos < w1.replies.len());
        lemma_earlier_exec(w1, vmid, mv, w1.pos as int + 1);
    }
    assert(earlier(w, n).replies[w.pos as int] == w.replies[w.pos as int]);
    assert(cmd::run_s(earlier(w, n), c) == (earlier(w1, n), r1));
}

/// The copy of a file on the node is removed whatever happened to the push:
/// the last action of a write that ended, once the copy was made, is its
/// removal.
pub proof fn law_host_copy_is_removed(
    w: WorldV,
    vmid: u32,
    path: Text,
    t: Text,
    perms: Text,
    v: WorldV,
    o: OutputV,
)
    requires
        exec_s(w, vmid, "mkdir -p '"@ + parent_of(path) + "'"@).1 is Ok,
        exec_s(w, vmid, "mkdir -p '"@ + parent_of(path) + "'"@).0.act(
            ActV::Temp { name: "pve-compose-push-"@ + vm(vmid), text: t },
        ) == (v, Ok::<OutputV, StopV>(o)),
        !(write_file_s(w, vmid, path, t, perms).1 matches Err(StopV::Act(_))),
    ensures
        write_file_s(
            earlier(w, write_file_s(w, vmid, path, t, perms).0.pos - 1),
            vmid,
            path,
            t,
            perms,
        ).1 == Err::<(), StopV>(StopV::Act(ActV::Remove { path: o.stdout })),
{
    let mkdir = "mkdir -p '"@ + parent_of(path) + "'"@;
    let a = ActV::Temp { name: "pve-compose-push-"@ + vm(vmid), text: t };
    let (w1, r1) = exec_s(w, vmid, mkdir);
    let (w3, r3) = place_s(v, vmid, o.stdout, path, perms);
    let n = w3.pos as int;
    assert(w.pos < w.replies.len());
    lemma_earlier_place(v, vmid, o.stdout, path, perms, n);
    assert(write_file_s(w, vmid, path, t, perms).0.pos == n + 1);
    lemma_earlier_exec(w, vmid, mkdir, n);
    assert(earlier(w1, n).replies[w1.pos as int] == w1.replies[w1.pos as int]);
    assert(earlier(w1, n).act(a) == (earlier(v, n), Ok::<OutputV, StopV>(o)));
    assert(earlier(w3, n).replies.len() == n);
}

// ---------------------------------------------------------------------------
// The order of a node's list.

proof fn lemma_listed_at(l: Seq<ListedV>, x: ListedV)
    requires
        in_vmid_order(l),
    ensures
        in_vmid_order(listed_at(l, x)),
        listed_at(l, x).to_multiset() == l.to_multiset().insert(x),
        listed_at(l, x).len() == l.len() + 1,
        forall|i: int|
            0 <= i < listed_at(l, x).len() ==> (#[trigger] listed_at(l, x)[i]).vmid <= x.vmid || (
            exists|j: int| 0 <= j < l.len() && l[j] == listed_at(l, x)[i]),
    decreases l.len(),
{
    broadcast use vstd::seq_lib::group_to_multiset_ensures;

    let r = listed_at(l, x);
    if l.len() > 0 && x.vmid < l.last().vmid {
        let f = l.drop_last();
        lemma_listed_at(f, x);
        let g = listed_at(f, x);
        assert(r == g.push(l.last()));
        assert forall|i: int, j: int| 0 <= i < j < r.len() implies (#[trigger] r[i]).vmid <= (
        #[trigger] r[j]).vmid by {
            if j == r.len() - 1 {
                assert(r[i] == g[i]);
                if g[i].vmid > x.vmid {
                    let k = choose|k: int| 0 <= k < f.len() && f[k] == g[i];
                    assert(l[k] == f[k]);
                    assert(l[k].vmid <= l[l.len() - 1].vmid);
                }
            } else {
                assert(r[i] == g[i] && r[j] == g[j]);
            }
        }
        assert forall|i: int| 0 <= i < r.len() implies (#[trigger] r[i]).vmid <= x.vmid || (
        exists|j: int| 0 <= j < l.len() && l[j] == r[i]) by {
            if i < g.len() {
                assert(r[i] == g[i]);
                if g[i].vmid > x.vmid {
                    let k = choose|k: int| 0 <= k < f.len() && f[k] == g[i];
                    assert(l[k] == r[i]);
                }
            } else {
                assert(l[l.len() - 1] == r[i]);
            }
        }
        assert(l =~= f.push(l.last()));
        assert(r.to_multiset() =~= l.to_multiset().insert(x));
    } else {
        assert(r == l.push(x));
        assert forall|i: int, j: int| 0 <= i < j < r.len() implies (#[trigger] r[i]).vmid <= (
        #[trigger] r[j]).vmid by {
            if j == l.len() {
                assert(l[i].vmid <= l[l.len() - 1].vmid);
            }
        }
        assert forall|i: int| 0 <= i < r.len() implies (#[trigger] r[i]).vmid <= x.vmid || (
        exists|j: int| 0 <= j < l.len() && l[j] == r[i]) by {
            if i < l.len() {
                assert(l[i] == r[i]);
            }
        }
    }
}

/// Whether guests are in the order of their vmids.
pub open spec fn in_vmid_order(l: Seq<ListedV>) -> bool {
    forall|i: int, j: int|
        0 <= i < j < l.len() ==> (#[trigger] l[i]).vmid <= (#[trigger] l[j]).vmid
}

/// The guests of a node are listed in the order of their vmids, every one
/// that has one as often as PVE lists it.
pub proof fn law_list_is_in_order(rows: Seq<JsonV>)
    ensures
        in_vmid_order(rows_of(rows)),
        rows_of(rows).to_multiset() == rows.filter(|r: JsonV| row_vmid(r) != 0).map_values(
            |r: JsonV| row_of(r),
        ).to_multiset(),
    decreases rows.len(),
{
    broadcast use vstd::seq_lib::group_to_multiset_ensures;

    reveal(Seq::filter);
    let has = |r: JsonV| row_vmid(r) != 0;
    let f = |r: JsonV| row_of(r);
    if rows.len() > 0 {
        let front = rows.drop_last();
        law_list_is_in_order(front);
        if has(rows.last()) {
            lemma_listed_at(rows_of(front), row_of(rows.last()));
            assert(rows.filter(has) == front.filter(has).push(rows.last()));
            assert(rows.filter(has).map_values(f) =~= front.filter(has).map_values(f).push(
                row_of(rows.last()),
            ));
        } else {
            assert(rows.filter(has) == front.filter(has));
        }
    } else {
        assert(rows.filter(has).map_values(f) =~= Seq::empty());
        assert(rows_of(rows) =~= Seq::empty());
    }
}

/// The list of a node's guests is in order.
pub proof fn lemma_listed_in_order(w: WorldV, node: Text)
    ensures
        list_s(w, node).1 matches Ok(l) ==> in_vmid_order(l),
{
    if let (_, Ok(v)) = cmd::pvesh_get_s(w, "/nodes/"@ + node + "/lxc"@, Seq::empty()) {
        if let JsonV::List(rows, _) = v {
            law_list_is_in_order(rows);
        }
    }
}

} // verus!
