//! The compose document: which of its volumes this tool manages, and the
//! `compose.yaml` that goes into the guest.
//!
//! Every top-level named volume becomes a directory under
//! `/opt/stack/volumes/<name>`, so a rebuilt wrapper keeps every volume:
//!
//! * `x-pve: { storage, size, owner?, backup? }` -- a PVE disk of its own,
//!   mounted there. Grow-only, never moved, never deleted by this tool.
//! * `x-pve: { path, owner? }` -- a bind mount of a host path.
//! * no `x-pve` -- a plain directory on the rootfs.
//! * `external: true` -- left alone entirely.
//!
//! What a document may ask for is bounded by the node's limits; a volume
//! outside them is refused by name and with the key that would allow it.
//!
//! Rendering replaces each managed volume's definition with a bind to that
//! directory, drops `x-pve`, and substitutes `${PVE_VMID}`,
//! `${PVE_UID}`, `${PVE_GID}`, `${PVE_STACK}` and `${PVE_NAME}` in every
//! string. Nothing else is touched: the rendered file is the document with
//! those edits, and it runs with a plain `docker compose up -d` in
//! `/opt/stack`, no override file and no extra env file.

use vstd::prelude::*;

use crate::STACK_DIR;
use crate::VOLUMES_DIR;
use crate::config::{Limits, LimitsV};
use crate::decode;
use crate::doc;
use crate::error::{Chain, Error};
use crate::num;
use crate::size::{self, Size};
use crate::text::{self, Text};
use crate::yaml::{self, Tree, Yaml};

verus! {

/// What backs a volume.
#[derive(Debug, PartialEq, Eq)]
pub enum Kind {
    Disk { storage: Option<String>, size: Size },
    Bind { path: String },
    Plain,
}

/// What a [`Kind`] is, as mathematics.
pub enum KindV {
    Disk { storage: Option<Text>, size: nat },
    Bind { path: Text },
    Plain,
}

impl View for Kind {
    type V = KindV;

    open spec fn view(&self) -> KindV {
        match *self {
            Kind::Disk { storage, size } => KindV::Disk {
                storage: text::opt(storage),
                size: size@,
            },
            Kind::Bind { path } => KindV::Bind { path: path@ },
            Kind::Plain => KindV::Plain,
        }
    }
}

/// A managed volume.
#[derive(Debug, PartialEq, Eq)]
pub struct Volume {
    pub name: String,
    pub kind: Kind,
    pub owner: Option<String>,
    /// `backup` for a disk: PVE's `backup=1`. Default on.
    pub backup: bool,
}

/// What a [`Volume`] is, as mathematics.
pub struct VolumeV {
    pub name: Text,
    pub kind: KindV,
    pub owner: Option<Text>,
    pub backup: bool,
}

impl View for Volume {
    type V = VolumeV;

    open spec fn view(&self) -> VolumeV {
        VolumeV {
            name: self.name@,
            kind: self.kind@,
            owner: text::opt(self.owner),
            backup: self.backup,
        }
    }
}

/// The directory of a volume inside the guest.
pub open spec fn dir_of(name: Text) -> Text {
    VOLUMES_DIR@ + "/"@ + name
}

impl Volume {
    /// The directory inside the guest.
    pub fn dir(&self) -> (r: String)
        ensures
            r@ == dir_of(self@.name),
    {
        text::cat3(VOLUMES_DIR, "/", self.name.as_str())
    }
}

// ---------------------------------------------------------------------------
// Owners and names.

/// The two numbers of `uid:gid`, or of `uid` twice.
pub open spec fn owner_parts(o: Text) -> (Text, Text) {
    let i = text::first(o, ':') as int;
    if i < o.len() {
        (o.take(i), o.skip(i + 1))
    } else {
        (o, o)
    }
}

/// Whether an owner is `uid:gid` or `uid`, in digits.
pub open spec fn owner_ok(o: Text) -> bool {
    let (u, g) = owner_parts(o);
    u.len() > 0 && g.len() > 0 && text::all_digits(u) && text::all_digits(g)
}

/// The message about an owner that is none.
pub open spec fn owner_error(o: Text) -> Text {
    "owner '"@ + o + "' is not uid:gid"@
}

/// An owner is made of digits and at most one colon: nothing in it means
/// anything to a shell.
pub proof fn law_owner_is_inert(o: Text)
    requires
        owner_ok(o),
    ensures
        forall|i: int| 0 <= i < o.len() ==> text::is_digit(#[trigger] o[i]) || o[i] == ':',
{
    text::lemma_first(o, ':');
    let (u, g) = owner_parts(o);
    let n = text::first(o, ':') as int;
    assert forall|i: int| 0 <= i < o.len() implies text::is_digit(#[trigger] o[i]) || o[i]
        == ':' by {
        if n < o.len() {
            if i < n {
                assert(u[i] == o[i]);
            } else if i > n {
                assert(g[i - n - 1] == o[i]);
            }
        }
    }
}

/// Splits `uid:gid` (or `uid`) into the two numbers as text.
pub fn split_owner(owner: &str) -> (r: Result<(String, String), Error>)
    ensures
        match r {
            Ok((u, g)) => owner_ok(owner@) && (u@, g@) == owner_parts(owner@),
            Err(e) => !owner_ok(owner@) && e@ == seq![owner_error(owner@)],
        },
{
    proof {
        text::lemma_first(owner@, ':');
    }
    let (u, g) = match text::split_once(owner, ':') {
        Some((u, g)) => (u, g),
        None => (owner.to_owned(), owner.to_owned()),
    };
    if text::empty(u.as_str()) || text::empty(g.as_str()) || !text::digits(u.as_str())
        || !text::digits(g.as_str()) {
        return Err(Error::new(text::cat3("owner '", owner, "' is not uid:gid")));
    }
    Ok((u, g))
}

/// Whether a character may stand in a volume's name.
pub open spec fn name_char(c: char) -> bool {
    text::is_lower(c) || text::is_upper(c) || text::is_digit(c) || c == '_' || c == '-' || c == '.'
}

/// Whether a name can be a directory's: no separator, no leading dot.
pub open spec fn name_ok(n: Text) -> bool {
    &&& n.len() > 0
    &&& n[0] != '.'
    &&& forall|i: int| 0 <= i < n.len() ==> name_char(#[trigger] n[i])
}

/// Whether a name can be a directory's.
pub fn valid_volume_name(name: &str) -> (r: bool)
    ensures
        r == name_ok(name@),
{
    let cs = text::chars(name);
    if cs.len() == 0 || cs[0] == '.' {
        return false;
    }
    for i in 0..cs.len()
        invariant
            cs@ == name@,
            forall|j: int| 0 <= j < i ==> name_char(#[trigger] name@[j]),
    {
        let c = cs[i];
        if !(('a' <= c && c <= 'z') || ('A' <= c && c <= 'Z') || ('0' <= c && c <= '9') || c == '_'
            || c == '-' || c == '.') {
            assert(!name_char(name@[i as int]));
            return false;
        }
    }
    true
}

// ---------------------------------------------------------------------------
// What `x-pve` says.

/// The fields of `x-pve`.
struct XPve {
    storage: Option<String>,
    size: Option<Size>,
    path: Option<String>,
    owner: Option<String>,
    backup: Option<bool>,
}

/// The fields of `x-pve`, as mathematics.
pub struct XPveV {
    pub storage: Option<Text>,
    pub size: Option<nat>,
    pub path: Option<Text>,
    pub owner: Option<Text>,
    pub backup: Option<bool>,
}

impl View for XPve {
    type V = XPveV;

    closed spec fn view(&self) -> XPveV {
        XPveV {
            storage: text::opt(self.storage),
            size: text::opt(self.size),
            path: text::opt(self.path),
            owner: text::opt(self.owner),
            backup: self.backup,
        }
    }
}

pub open spec fn x_keys() -> Seq<Text> {
    seq!["storage"@, "size"@, "path"@, "owner"@, "backup"@]
}

/// A text that may be missing; anything but a text is refused.
pub open spec fn x_text(t: Option<Tree>) -> Result<Option<Text>, Text> {
    match t {
        None => Ok(None),
        Some(v) => if v == Tree::Null {
            Ok(None)
        } else {
            match yaml::string(v) {
                Some(s) => Ok(Some(s)),
                None => Err("expected a string"@),
            }
        },
    }
}

/// A size that may be missing.
pub open spec fn x_size(t: Option<Tree>) -> Result<Option<nat>, Text> {
    match t {
        None => Ok(None),
        Some(v) => if v == Tree::Null {
            Ok(None)
        } else {
            match decode::size_of(v) {
                Ok(z) => Ok(Some(z)),
                Err(e) => Err(e),
            }
        },
    }
}

/// A flag that may be missing.
pub open spec fn x_flag(t: Option<Tree>) -> Result<Option<bool>, Text> {
    match t {
        None => Ok(None),
        Some(v) => doc::flag_opt_of(v),
    }
}

pub open spec fn x_of(t: Tree) -> Result<XPveV, Text> {
    match decode::fields(t, t, x_keys()) {
        Err(e) => Err(e),
        Ok(m) => match x_text(yaml::at(m, Tree::Str("storage"@))) {
            Err(e) => Err(decode::within("storage"@, e)),
            Ok(storage) => match x_size(yaml::at(m, Tree::Str("size"@))) {
                Err(e) => Err(decode::within("size"@, e)),
                Ok(size) => match x_text(yaml::at(m, Tree::Str("path"@))) {
                    Err(e) => Err(decode::within("path"@, e)),
                    Ok(path) => match x_text(yaml::at(m, Tree::Str("owner"@))) {
                        Err(e) => Err(decode::within("owner"@, e)),
                        Ok(owner) => match x_flag(yaml::at(m, Tree::Str("backup"@))) {
                            Err(e) => Err(decode::within("backup"@, e)),
                            Ok(backup) => Ok(XPveV { storage, size, path, owner, backup }),
                        },
                    },
                },
            },
        },
    }
}

fn x_string(v: Option<&Yaml>) -> (r: Result<Option<String>, Error>)
    ensures
        match r {
            Ok(s) => x_text(text::opt(v)) == Ok::<Option<Text>, Text>(text::opt(s)),
            Err(e) => e@.len() == 1 && x_text(text::opt(v)) == Err::<Option<Text>, Text>(e@[0]),
        },
{
    match v {
        None => Ok(None),
        Some(x) => match x {
            Yaml::Null => Ok(None),
            _ => match x.as_str() {
                Some(s) => Ok(Some(s.clone())),
                None => Err(Error::msg("expected a string")),
            },
        },
    }
}

impl XPve {
    fn decode(v: &Yaml) -> (r: Result<XPve, Error>)
        ensures
            decode::read(r) == x_of(v@),
            decode::plain(r),
    {
        let known = vec![
            "storage".to_owned(),
            "size".to_owned(),
            "path".to_owned(),
            "owner".to_owned(),
            "backup".to_owned(),
        ];
        assert(text::views(known@) =~= x_keys());
        let m = match decode::fields_of(v, v, &known) {
            Ok(m) => m,
            Err(e) => return Err(e),
        };
        let storage = match x_string(decode::field(m, "storage")) {
            Ok(s) => s,
            Err(e) => return Err(decode::inside("storage", e)),
        };
        let size = match decode::field(m, "size") {
            None => None,
            Some(x) => match x {
                Yaml::Null => None,
                _ => match decode::size(x) {
                    Ok(z) => Some(z),
                    Err(e) => return Err(decode::inside("size", e)),
                },
            },
        };
        let path = match x_string(decode::field(m, "path")) {
            Ok(s) => s,
            Err(e) => return Err(decode::inside("path", e)),
        };
        let owner = match x_string(decode::field(m, "owner")) {
            Ok(s) => s,
            Err(e) => return Err(decode::inside("owner", e)),
        };
        let backup = match decode::field(m, "backup") {
            None => None,
            Some(x) => match doc::flag_opt(x) {
                Ok(b) => b,
                Err(e) => return Err(decode::inside("backup", e)),
            },
        };
        Ok(XPve { storage, size, path, owner, backup })
    }
}

// ---------------------------------------------------------------------------
// The node's bounds.

/// Whether a path is absolute and has no `.`, `..` or empty segment: what it
/// names can then be told from its text.
pub open spec fn path_plain(p: Text) -> bool {
    let s = text::pieces(p, '/');
    &&& p.len() > 0 && p[0] == '/'
    &&& forall|i: int|
        1 <= i < s.len() ==> (#[trigger] s[i]).len() > 0 && s[i] != "."@ && s[i] != ".."@
}

/// Whether a path is a root, or lies under it.
pub open spec fn path_under(p: Text, root: Text) -> bool {
    let r = size::strip_end(root, '/');
    root.len() > 0 && root[0] == '/' && (p == r || (r + "/"@).is_prefix_of(p))
}

/// Whether a path is one of the roots, or lies under one.
pub open spec fn path_allowed(p: Text, roots: Seq<Text>) -> bool {
    exists|i: int| 0 <= i < roots.len() && path_under(p, #[trigger] roots[i])
}

/// Whether a size is within the ceiling.
pub open spec fn size_allowed(size: nat, max_gib: u64) -> bool {
    size <= max_gib * (size::GIB as nat)
}

fn plain_path(p: &str) -> (r: bool)
    ensures
        r == path_plain(p@),
{
    if !text::starts_with(p, "/") {
        proof {
            reveal_strlit("/");
            if p@.len() > 0 && p@[0] == '/' {
                assert(p@.subrange(0, 1) =~= "/"@);
            }
        }
        return false;
    }
    proof {
        reveal_strlit("/");
        assert("/"@[0] == p@[0]);
    }
    let s = text::split(p, '/');
    let ghost all = text::pieces(p@, '/');
    let mut i: usize = 1;
    while i < s.len()
        invariant
            text::views(s@) == all,
            all == text::pieces(p@, '/'),
            1 <= i,
            forall|j: int|
                1 <= j < i && j < all.len() ==> (#[trigger] all[j]).len() > 0 && all[j] != "."@
                    && all[j] != ".."@,
        decreases s@.len() - i,
    {
        assert(all[i as int] == s@[i as int]@);
        if text::empty(s[i].as_str()) || text::same(s[i].as_str(), ".") || text::same(
            s[i].as_str(),
            "..",
        ) {
            return false;
        }
        i = i + 1;
    }
    true
}

fn under_root(p: &str, root: &str) -> (r: bool)
    ensures
        r == path_under(p@, root@),
{
    proof {
        reveal_strlit("/");
        if root@.len() > 0 && root@[0] == '/' {
            assert(root@.subrange(0, 1) =~= "/"@);
        }
        if "/"@.is_prefix_of(root@) {
            assert(root@[0] == "/"@[0]);
        }
    }
    if !text::starts_with(root, "/") {
        return false;
    }
    let r = size::strip(root.to_owned(), '/');
    text::same(p, r.as_str()) || text::starts_with(p, text::cat(r.as_str(), "/").as_str())
}

fn under_any(p: &str, roots: &Vec<String>) -> (r: bool)
    ensures
        r == path_allowed(p@, text::views(roots@)),
{
    let ghost all = text::views(roots@);
    for i in 0..roots.len()
        invariant
            all == text::views(roots@),
            forall|j: int| 0 <= j < i ==> !path_under(p@, #[trigger] all[j]),
    {
        assert(all[i as int] == roots@[i as int]@);
        if under_root(p, roots[i].as_str()) {
            return true;
        }
    }
    false
}

// ---------------------------------------------------------------------------
// The managed volumes.

/// What names a volume in a message.
pub open spec fn at_volume(name: Text, rest: Text) -> Text {
    "spec.volumes."@ + name + rest
}

/// What backs a volume, by its `x-pve`, or why that is refused.
pub open spec fn kind_of(name: Text, x: XPveV, l: LimitsV) -> Result<KindV, Text> {
    match (x.path, x.storage, x.size) {
        (Some(p), None, None) => if !(p.len() > 0 && p[0] == '/') {
            Err(at_volume(name, ".x-pve.path must be absolute"@))
        } else if x.backup is Some {
            Err(
                at_volume(
                    name,
                    ".x-pve: backup applies to disks; PVE never backs up a bind mount"@,
                ),
            )
        } else if !path_plain(p) {
            Err(
                at_volume(
                    name,
                    ".x-pve.path: '"@ + p + "' has a '.', '..' or empty segment"@,
                ),
            )
        } else if !path_allowed(p, l.bind_roots) {
            Err(
                at_volume(
                    name,
                    ".x-pve.path: '"@ + p + "' is not under any of limits.bind_roots"@,
                ),
            )
        } else {
            Ok(KindV::Bind { path: p })
        },
        (Some(_), _, _) => Err(at_volume(name, ".x-pve: path and storage/size are exclusive"@)),
        (None, storage, Some(size)) => if storage is Some && !l.storages.contains(storage->0) {
            Err(
                at_volume(
                    name,
                    ".x-pve.storage: '"@ + storage->0 + "' is not in limits.storages"@,
                ),
            )
        } else if !size_allowed(size, l.max_disk_gib) {
            Err(
                at_volume(
                    name,
                    ".x-pve.size: "@ + size::shown(size)
                        + " is more than limits.max_disk_gib allows ("@ + num::dec(
                        l.max_disk_gib as nat,
                    ) + "G)"@,
                ),
            )
        } else {
            Ok(KindV::Disk { storage, size })
        },
        (None, Some(_), None) => Err(at_volume(name, ".x-pve: storage needs a size"@)),
        (None, None, None) => Ok(KindV::Plain),
    }
}

/// The volume that an `x-pve` describes.
pub open spec fn backed(name: Text, x: XPveV, l: LimitsV) -> Result<VolumeV, Chain> {
    if x.owner is Some && !owner_ok(x.owner->0) {
        Err(seq![at_volume(name, ".x-pve.owner"@), owner_error(x.owner->0)])
    } else {
        match kind_of(name, x, l) {
            Err(m) => Err(seq![m]),
            Ok(kind) => Ok(
                VolumeV {
                    name,
                    kind,
                    owner: x.owner,
                    backup: match x.backup {
                        Some(b) => b,
                        None => true,
                    },
                },
            ),
        }
    }
}

/// One entry of `volumes`: the volume, nothing for one that is left alone,
/// or why it is refused.
pub open spec fn volume_of(k: Tree, v: Tree, l: LimitsV) -> Result<Option<VolumeV>, Chain> {
    match yaml::string(k) {
        None => Err(seq!["spec.volumes: a volume name is not a string"@]),
        Some(name) => if !name_ok(name) {
            Err(seq![at_volume(name, ": not a usable directory name"@)])
        } else if !(v is Null || v is Dict) {
            Err(seq![at_volume(name, ": not a map"@)])
        } else if yaml::get(v, "external"@) is Some && doc::flag(yaml::get(v, "external"@)->0)
            == Some(true) {
            Ok(None)
        } else {
            match yaml::get(v, "x-pve"@) {
                Some(xv) => if xv is Null {
                    Ok(
                        Some(VolumeV { name, kind: KindV::Plain, owner: None, backup: true }),
                    )
                } else {
                    match x_of(xv) {
                        Err(m) => Err(seq![at_volume(name, ".x-pve"@), m]),
                        Ok(x) => match backed(name, x, l) {
                            Ok(vol) => Ok(Some(vol)),
                            Err(c) => Err(c),
                        },
                    }
                },
                None => Ok(
                    Some(VolumeV { name, kind: KindV::Plain, owner: None, backup: true }),
                ),
            }
        },
    }
}

/// The volumes of the entries, in their order.
pub open spec fn volumes_from(m: Seq<(Tree, Tree)>, l: LimitsV) -> Result<Seq<VolumeV>, Chain>
    decreases m.len(),
{
    if m.len() == 0 {
        Ok(Seq::empty())
    } else {
        match volumes_from(m.drop_last(), l) {
            Err(c) => Err(c),
            Ok(vols) => match volume_of(m.last().0, m.last().1, l) {
                Err(c) => Err(c),
                Ok(None) => Ok(vols),
                Ok(Some(v)) => Ok(vols.push(v)),
            },
        }
    }
}

/// The managed volumes of a compose document, or why it is refused.
pub open spec fn volumes_of(spec: Tree, l: LimitsV) -> Result<Seq<VolumeV>, Chain> {
    match yaml::get(spec, "volumes"@) {
        None => Ok(Seq::empty()),
        Some(v) => match yaml::untag(v) {
            Tree::Null => Ok(Seq::empty()),
            Tree::Dict(m) => volumes_from(m, l),
            _ => Err(seq!["spec.volumes is not a map"@]),
        },
    }
}

fn at_name(name: &str, rest: &str) -> (r: Error)
    ensures
        r@ == seq![at_volume(name@, rest@)],
{
    Error::new(text::cat3("spec.volumes.", name, rest))
}

fn absolute(p: &str) -> (r: bool)
    ensures
        r == (p@.len() > 0 && p@[0] == '/'),
{
    proof {
        reveal_strlit("/");
        if p@.len() > 0 && p@[0] == '/' {
            assert(p@.subrange(0, 1) =~= "/"@);
        }
        if "/"@.is_prefix_of(p@) {
            assert(p@[0] == "/"@[0]);
        }
    }
    text::starts_with(p, "/")
}

fn settle(name: &str, x: &XPve, l: &Limits) -> (r: Result<Kind, Error>)
    ensures
        match r {
            Ok(k) => kind_of(name@, x@, l@) == Ok::<KindV, Text>(k@),
            Err(e) => e@.len() == 1 && kind_of(name@, x@, l@) == Err::<KindV, Text>(e@[0]),
        },
{
    match &x.path {
        Some(p) => {
            if x.storage.is_some() || x.size.is_some() {
                return Err(at_name(name, ".x-pve: path and storage/size are exclusive"));
            }
            if !absolute(p.as_str()) {
                return Err(at_name(name, ".x-pve.path must be absolute"));
            }
            if x.backup.is_some() {
                return Err(
                    at_name(
                        name,
                        ".x-pve: backup applies to disks; PVE never backs up a bind mount",
                    ),
                );
            }
            if !plain_path(p.as_str()) {
                return Err(
                    at_name(
                        name,
                        text::cat3(
                            ".x-pve.path: '",
                            p.as_str(),
                            "' has a '.', '..' or empty segment",
                        ).as_str(),
                    ),
                );
            }
            if !under_any(p.as_str(), &l.bind_roots) {
                return Err(
                    at_name(
                        name,
                        text::cat3(
                            ".x-pve.path: '",
                            p.as_str(),
                            "' is not under any of limits.bind_roots",
                        ).as_str(),
                    ),
                );
            }
            Ok(Kind::Bind { path: p.clone() })
        },
        None => match x.size {
            Some(size) => {
                if let Some(s) = &x.storage {
                    if !text::among(&l.storages, s.as_str()) {
                        return Err(
                            at_name(
                                name,
                                text::cat3(
                                    ".x-pve.storage: '",
                                    s.as_str(),
                                    "' is not in limits.storages",
                                ).as_str(),
                            ),
                        );
                    }
                }
                let max: u128 = l.max_disk_gib as u128 * size::GIB as u128;
                if size.0 as u128 > max {
                    return Err(
                        at_name(
                            name,
                            text::cat5(
                                ".x-pve.size: ",
                                size.to_string().as_str(),
                                " is more than limits.max_disk_gib allows (",
                                num::print(l.max_disk_gib).as_str(),
                                "G)",
                            ).as_str(),
                        ),
                    );
                }
                Ok(Kind::Disk { storage: text::copy(&x.storage), size })
            },
            None => if x.storage.is_some() {
                Err(at_name(name, ".x-pve: storage needs a size"))
            } else {
                Ok(Kind::Plain)
            },
        },
    }
}

fn volume(k: &Yaml, v: &Yaml, l: &Limits) -> (r: Result<Option<Volume>, Error>)
    ensures
        match r {
            Ok(o) => volume_of(k@, v@, l@) == Ok::<Option<VolumeV>, Chain>(text::opt(o)),
            Err(e) => volume_of(k@, v@, l@) == Err::<Option<VolumeV>, Chain>(e@),
        },
{
    let name = match k.as_str() {
        Some(s) => s.clone(),
        None => return Err(Error::msg("spec.volumes: a volume name is not a string")),
    };
    if !valid_volume_name(name.as_str()) {
        return Err(at_name(name.as_str(), ": not a usable directory name"));
    }
    let map = match v {
        Yaml::Null => true,
        Yaml::Dict(_) => true,
        _ => false,
    };
    if !map {
        return Err(at_name(name.as_str(), ": not a map"));
    }
    if let Some(e) = v.get("external") {
        if let Some(b) = doc::flag_of(e) {
            if b {
                return Ok(None);
            }
        }
    }
    let xv = match v.get("x-pve") {
        None => return Ok(Some(Volume { name, kind: Kind::Plain, owner: None, backup: true })),
        Some(xv) => xv,
    };
    if let Yaml::Null = xv {
        return Ok(Some(Volume { name, kind: Kind::Plain, owner: None, backup: true }));
    }
    let x = match XPve::decode(xv) {
        Ok(x) => x,
        Err(e) => {
            let ghost m = e@[0];
            let e = e.context(text::cat3("spec.volumes.", name.as_str(), ".x-pve"));
            assert(e@ =~= seq![at_volume(name@, ".x-pve"@), m]);
            return Err(e);
        },
    };
    if let Some(o) = &x.owner {
        match split_owner(o.as_str()) {
            Ok(_) => {},
            Err(e) => {
                let e = e.context(text::cat3("spec.volumes.", name.as_str(), ".x-pve.owner"));
                assert(e@ =~= seq![at_volume(name@, ".x-pve.owner"@), owner_error(o@)]);
                return Err(e);
            },
        }
    }
    match settle(name.as_str(), &x, l) {
        Ok(kind) => {
            let backup = match x.backup {
                Some(b) => b,
                None => true,
            };
            Ok(Some(Volume { name, kind, owner: text::copy(&x.owner), backup }))
        },
        Err(e) => {
            assert(e@ =~= seq![e@[0]]);
            Err(e)
        },
    }
}

proof fn lemma_volumes_fail(m: Seq<(Tree, Tree)>, l: LimitsV, i: int)
    requires
        0 <= i <= m.len(),
        volumes_from(m.take(i), l) is Err,
    ensures
        volumes_from(m, l) == volumes_from(m.take(i), l),
    decreases m.len(),
{
    if i < m.len() {
        assert(m.drop_last().take(i) =~= m.take(i));
        lemma_volumes_fail(m.drop_last(), l, i);
    } else {
        assert(m.take(i) =~= m);
    }
}

/// The managed volumes of a compose document, in declaration order, held to
/// what the node allows.
pub fn volumes(spec: &Yaml, l: &Limits) -> (r: Result<Vec<Volume>, Error>)
    ensures
        match r {
            Ok(v) => volumes_of(spec@, l@) == Ok::<Seq<VolumeV>, Chain>(text::views(v@)),
            Err(e) => volumes_of(spec@, l@) == Err::<Seq<VolumeV>, Chain>(e@),
        },
{
    let mut out: Vec<Volume> = Vec::new();
    assert(text::views(out@) =~= Seq::empty());
    let vols = match spec.get("volumes") {
        Some(v) => v,
        None => return Ok(out),
    };
    if vols.is_null() {
        return Ok(out);
    }
    let m = match vols.as_map() {
        Some(m) => m,
        None => return Err(Error::msg("spec.volumes is not a map")),
    };
    let ghost all = yaml::entries(m@);
    assert(all.take(0) =~= Seq::empty());
    for i in 0..m.len()
        invariant
            all == yaml::entries(m@),
            volumes_of(spec@, l@) == volumes_from(all, l@),
            volumes_from(all.take(i as int), l@) == Ok::<Seq<VolumeV>, Chain>(
                text::views(out@),
            ),
    {
        assert(all.take(i + 1).drop_last() =~= all.take(i as int));
        assert(all.take(i + 1).last() == (m@[i as int].0@, m@[i as int].1@));
        match volume(&m[i].0, &m[i].1, l) {
            Ok(Some(v)) => {
                let ghost before = out@;
                out.push(v);
                assert(text::views(out@) =~= text::views(before).push(v@));
            },
            Ok(None) => {},
            Err(e) => {
                proof {
                    lemma_volumes_fail(all, l@, i + 1);
                }
                return Err(e);
            },
        }
    }
    assert(all.take(all.len() as int) =~= all);
    Ok(out)
}

// ---------------------------------------------------------------------------
// What holds of every managed volume.

/// Whether a volume is one that the node allows and that is safe to name in
/// a shell line.
pub open spec fn allowed(v: VolumeV, l: LimitsV) -> bool {
    &&& name_ok(v.name)
    &&& v.owner matches Some(o) ==> owner_ok(o)
    &&& match v.kind {
        KindV::Bind { path } => path_plain(path) && path_allowed(path, l.bind_roots),
        KindV::Disk { storage, size } => (storage matches Some(s) ==> l.storages.contains(s))
            && 0 < size && size_allowed(size, l.max_disk_gib),
        KindV::Plain => true,
    }
}

proof fn lemma_volumes_allowed(m: Seq<(Tree, Tree)>, l: LimitsV)
    requires
        volumes_from(m, l) is Ok,
    ensures
        forall|i: int|
            0 <= i < volumes_from(m, l)->Ok_0.len() ==> allowed(
                #[trigger] volumes_from(m, l)->Ok_0[i],
                l,
            ),
    decreases m.len(),
{
    if m.len() > 0 {
        lemma_volumes_allowed(m.drop_last(), l);
        let before = volumes_from(m.drop_last(), l)->Ok_0;
        let all = volumes_from(m, l)->Ok_0;
        assert forall|i: int| 0 <= i < all.len() implies allowed(#[trigger] all[i], l) by {
            if i < before.len() {
                assert(all[i] == before[i]);
            }
        }
    }
}

/// A document whose volumes were not refused asks for nothing beyond the
/// node's limits: binds of plain paths under the roots, named storages that
/// are listed, disks up to the ceiling. Its names and owners hold nothing
/// that a shell would read.
pub proof fn law_volumes_are_allowed(spec: Tree, l: LimitsV)
    requires
        volumes_of(spec, l) is Ok,
    ensures
        forall|i: int|
            0 <= i < volumes_of(spec, l)->Ok_0.len() ==> allowed(
                #[trigger] volumes_of(spec, l)->Ok_0[i],
                l,
            ),
{
    if let Some(v) = yaml::get(spec, "volumes"@) {
        if let Tree::Dict(m) = yaml::untag(v) {
            lemma_volumes_allowed(m, l);
        }
    }
}

/// Without bind roots no document gets a bind mount.
pub proof fn law_no_roots_no_binds(spec: Tree, l: LimitsV)
    requires
        volumes_of(spec, l) is Ok,
        l.bind_roots.len() == 0,
    ensures
        forall|i: int|
            0 <= i < volumes_of(spec, l)->Ok_0.len() ==> !((
            #[trigger] volumes_of(spec, l)->Ok_0[i]).kind is Bind),
{
    law_volumes_are_allowed(spec, l);
    let all = volumes_of(spec, l)->Ok_0;
    assert forall|i: int| 0 <= i < all.len() implies !((#[trigger] all[i]).kind is Bind) by {
        assert(allowed(all[i], l));
    }
}

// ---------------------------------------------------------------------------
// Rendering.

/// The values substituted into the rendered document.
#[derive(Debug)]
pub struct Vars {
    pub vmid: u32,
    pub uid: String,
    pub gid: String,
    pub name: String,
    /// The compose project name, written as the file's top-level `name:` so
    /// a plain `docker compose` in the stack directory means the same stack.
    pub project: String,
}

/// What [`Vars`] are, as mathematics.
pub struct VarsV {
    pub vmid: u32,
    pub uid: Text,
    pub gid: Text,
    pub name: Text,
    pub project: Text,
}

impl View for Vars {
    type V = VarsV;

    open spec fn view(&self) -> VarsV {
        VarsV {
            vmid: self.vmid,
            uid: self.uid@,
            gid: self.gid@,
            name: self.name@,
            project: self.project@,
        }
    }
}

impl Default for Vars {
    fn default() -> (r: Self)
        ensures
            r@ == (VarsV {
                vmid: 0,
                uid: Seq::empty(),
                gid: Seq::empty(),
                name: Seq::empty(),
                project: Seq::empty(),
            }),
    {
        Vars {
            vmid: 0,
            uid: String::new(),
            gid: String::new(),
            name: String::new(),
            project: String::new(),
        }
    }
}

/// A variable replaced by its value, in both spellings.
pub open spec fn set_var(s: Text, braced: Text, bare: Text, value: Text) -> Text {
    text::replaced(text::replaced(s, braced, value), bare, value)
}

/// A text with the variables of this tool replaced, in the order of their
/// names.
pub open spec fn substituted(s: Text, v: VarsV) -> Text {
    if !text::contains(s, "${PVE_"@) && !text::contains(s, "$PVE_"@) {
        s
    } else {
        let s = set_var(s, "${PVE_GID}"@, "$PVE_GID"@, v.gid);
        let s = set_var(s, "${PVE_NAME}"@, "$PVE_NAME"@, v.name);
        let s = set_var(s, "${PVE_STACK}"@, "$PVE_STACK"@, STACK_DIR@);
        let s = set_var(s, "${PVE_UID}"@, "$PVE_UID"@, v.uid);
        set_var(s, "${PVE_VMID}"@, "$PVE_VMID"@, num::dec(v.vmid as nat))
    }
}

/// Whether a map key is a pve-meta comment key (`foo__` documents `foo`,
/// a bare `__` documents the map). They are notes for the editor, not
/// compose, which rejects unknown keys.
pub open spec fn is_comment(k: Tree) -> bool {
    yaml::string(k) matches Some(s) && "__"@.is_suffix_of(s)
}

/// A value with its texts substituted and without comment keys.
pub open spec fn walked(t: Tree, v: VarsV) -> Tree
    decreases t,
{
    match t {
        Tree::Str(s) => Tree::Str(substituted(s, v)),
        Tree::List(l) => Tree::List(
            Seq::new(
                l.len(),
                |i: int|
                    if 0 <= i < l.len() {
                        walked(l[i], v)
                    } else {
                        Tree::Null
                    },
            ),
        ),
        Tree::Dict(m) => Tree::Dict(walked_entries(m, v)),
        Tree::Tagged(n, b) => Tree::Tagged(n, Box::new(walked(*b, v))),
        _ => t,
    }
}

/// The entries without comment keys, each value walked.
pub open spec fn walked_entries(m: Seq<(Tree, Tree)>, v: VarsV) -> Seq<(Tree, Tree)>
    decreases m,
{
    if m.len() == 0 {
        Seq::empty()
    } else {
        let before = walked_entries(m.drop_last(), v);
        if is_comment(m.last().0) {
            before
        } else {
            before.push((m.last().0, walked(m.last().1, v)))
        }
    }
}

/// The entries without a top-level `name`.
pub open spec fn unnamed(m: Seq<(Tree, Tree)>) -> Seq<(Tree, Tree)>
    decreases m.len(),
{
    if m.len() == 0 {
        Seq::empty()
    } else if yaml::string(m.last().0) == Some("name"@) {
        unnamed(m.drop_last())
    } else {
        unnamed(m.drop_last()).push(m.last())
    }
}

/// The document with the project as its first key.
pub open spec fn named(t: Tree, project: Text) -> Tree {
    match t {
        Tree::Dict(m) => Tree::Dict(
            seq![(Tree::Str("name"@), Tree::Str(project))] + unnamed(m),
        ),
        _ => t,
    }
}

/// With the entry under a key set: in its place, or at the end.
pub open spec fn set_entry(m: Seq<(Tree, Tree)>, k: Tree, v: Tree) -> Seq<(Tree, Tree)>
    decreases m.len(),
{
    if m.len() == 0 {
        seq![(k, v)]
    } else if m[0].0 == k {
        seq![(k, v)] + m.skip(1)
    } else {
        seq![m[0]] + set_entry(m.skip(1), k, v)
    }
}

/// The name that the author gave a volume.
pub open spec fn kept_name(old: Option<Tree>) -> Seq<(Tree, Tree)> {
    match old {
        Some(Tree::Dict(m)) => match yaml::at(m, Tree::Str("name"@)) {
            Some(n) => seq![(Tree::Str("name"@), n)],
            None => Seq::empty(),
        },
        _ => Seq::empty(),
    }
}

/// The definition of a managed volume: bound to its directory.
pub open spec fn bound(name: Text, old: Option<Tree>) -> Tree {
    Tree::Dict(
        seq![
            (Tree::Str("driver"@), Tree::Str("local"@)),
            (
                Tree::Str("driver_opts"@),
                Tree::Dict(
                    seq![
                        (Tree::Str("type"@), Tree::Str("none"@)),
                        (Tree::Str("o"@), Tree::Str("bind"@)),
                        (Tree::Str("device"@), Tree::Str(dir_of(name))),
                    ],
                ),
            ),
        ] + kept_name(old),
    )
}

/// The entries of `volumes` with the managed ones bound.
pub open spec fn bound_all(m: Seq<(Tree, Tree)>, vols: Seq<VolumeV>) -> Seq<(Tree, Tree)>
    decreases vols.len(),
{
    if vols.len() == 0 {
        m
    } else {
        let before = bound_all(m, vols.drop_last());
        let k = Tree::Str(vols.last().name);
        set_entry(before, k, bound(vols.last().name, yaml::at(before, k)))
    }
}

/// The document under its tags replaced.
pub open spec fn retagged(t: Tree, inner: Tree) -> Tree
    decreases t,
{
    match t {
        Tree::Tagged(n, b) => Tree::Tagged(n, Box::new(retagged(*b, inner))),
        _ => inner,
    }
}

/// The document with its managed volumes bound.
pub open spec fn with_binds(t: Tree, vols: Seq<VolumeV>) -> Tree {
    match yaml::untag(t) {
        Tree::Dict(top) => match yaml::at(top, Tree::Str("volumes"@)) {
            Some(Tree::Dict(m)) => retagged(
                t,
                Tree::Dict(
                    set_entry(top, Tree::Str("volumes"@), Tree::Dict(bound_all(m, vols))),
                ),
            ),
            _ => t,
        },
        _ => t,
    }
}

/// The compose document for the guest.
pub open spec fn rendered_tree(spec: Tree, vols: Seq<VolumeV>, v: VarsV) -> Tree {
    with_binds(named(walked(spec, v), v.project), vols)
}

/// The two lines before it.
pub open spec fn render_header() -> Text {
    "# Rendered by pve-compose from this guest's pve-meta document (compose.spec).\n# Edit the document, not this file: the next apply overwrites it.\n"@
}

/// The `compose.yaml` text for the guest.
pub open spec fn rendered(spec: Tree, vols: Seq<VolumeV>, v: VarsV) -> Result<Text, Chain> {
    match yaml::yaml_text(rendered_tree(spec, vols, v)) {
        Ok(t) => Ok(render_header() + t),
        Err(m) => Err(seq!["rendering compose.yaml"@, m]),
    }
}

/// Whether no map in a value has a comment key.
pub open spec fn clean(t: Tree) -> bool
    decreases t,
{
    match t {
        Tree::List(l) => clean_list(l),
        Tree::Dict(m) => clean_entries(m),
        Tree::Tagged(_, b) => clean(*b),
        _ => true,
    }
}

pub open spec fn clean_list(l: Seq<Tree>) -> bool
    decreases l,
{
    l.len() == 0 || (clean_list(l.drop_last()) && clean(l.last()))
}

pub open spec fn clean_entries(m: Seq<(Tree, Tree)>) -> bool
    decreases m,
{
    m.len() == 0 || (clean_entries(m.drop_last()) && !is_comment(m.last().0) && clean(m.last().1))
}

/// Whether no entry of a map has a comment key, each looked at by itself.
pub open spec fn each_clean(m: Seq<(Tree, Tree)>) -> bool {
    forall|i: int| 0 <= i < m.len() ==> !is_comment((#[trigger] m[i]).0) && clean(m[i].1)
}

proof fn lemma_each_clean(m: Seq<(Tree, Tree)>)
    ensures
        clean_entries(m) <==> each_clean(m),
    decreases m.len(),
{
    if m.len() > 0 {
        let d = m.drop_last();
        lemma_each_clean(d);
        assert(m[m.len() - 1] == m.last());
        if clean_entries(m) {
            assert forall|i: int| 0 <= i < m.len() implies !is_comment((#[trigger] m[i]).0)
                && clean(m[i].1) by {
                if i < d.len() {
                    assert(d[i] == m[i]);
                }
            }
        }
        if each_clean(m) {
            assert forall|i: int| 0 <= i < d.len() implies !is_comment((#[trigger] d[i]).0)
                && clean(d[i].1) by {
                assert(d[i] == m[i]);
            }
        }
    }
}

proof fn lemma_walked_clean(t: Tree, v: VarsV)
    ensures
        clean(walked(t, v)),
    decreases t,
{
    match t {
        Tree::List(l) => {
            lemma_list_clean(l, v);
        },
        Tree::Dict(m) => {
            lemma_entries_clean(m, v);
        },
        Tree::Tagged(_, b) => {
            lemma_walked_clean(*b, v);
        },
        _ => {},
    }
}

proof fn lemma_list_clean(l: Seq<Tree>, v: VarsV)
    ensures
        clean_list(walked(Tree::List(l), v)->List_0),
    decreases l,
{
    let r = walked(Tree::List(l), v)->List_0;
    if l.len() > 0 {
        lemma_list_clean(l.drop_last(), v);
        lemma_walked_clean(l.last(), v);
        assert(r.drop_last() =~= walked(Tree::List(l.drop_last()), v)->List_0);
        assert(r.last() == walked(l.last(), v));
    }
}

proof fn lemma_entries_clean(m: Seq<(Tree, Tree)>, v: VarsV)
    ensures
        clean_entries(walked_entries(m, v)),
    decreases m,
{
    if m.len() > 0 {
        let before = walked_entries(m.drop_last(), v);
        lemma_entries_clean(m.drop_last(), v);
        if !is_comment(m.last().0) {
            lemma_walked_clean(m.last().1, v);
            assert(walked_entries(m, v).drop_last() =~= before);
        }
    }
}

proof fn lemma_unnamed_clean(m: Seq<(Tree, Tree)>)
    requires
        clean_entries(m),
    ensures
        clean_entries(unnamed(m)),
    decreases m.len(),
{
    if m.len() > 0 {
        lemma_unnamed_clean(m.drop_last());
        if yaml::string(m.last().0) != Some("name"@) {
            assert(unnamed(m).drop_last() =~= unnamed(m.drop_last()));
        }
    }
}

proof fn lemma_set_each(m: Seq<(Tree, Tree)>, k: Tree, v: Tree)
    requires
        each_clean(m),
        clean(v),
        !is_comment(k),
    ensures
        each_clean(set_entry(m, k, v)),
    decreases m.len(),
{
    if m.len() > 0 {
        let d = m.skip(1);
        assert forall|i: int| 0 <= i < d.len() implies !is_comment((#[trigger] d[i]).0) && clean(
            d[i].1,
        ) by {
            assert(d[i] == m[i + 1]);
        }
        let r = set_entry(m, k, v);
        if m[0].0 == k {
            assert forall|i: int| 0 <= i < r.len() implies !is_comment((#[trigger] r[i]).0)
                && clean(r[i].1) by {
                if i > 0 {
                    assert(r[i] == d[i - 1]);
                }
            }
        } else {
            lemma_set_each(d, k, v);
            let e = set_entry(d, k, v);
            assert forall|i: int| 0 <= i < r.len() implies !is_comment((#[trigger] r[i]).0)
                && clean(r[i].1) by {
                if i > 0 {
                    assert(r[i] == e[i - 1]);
                } else {
                    assert(r[0] == m[0]);
                }
            }
        }
    }
}

proof fn lemma_set_clean(m: Seq<(Tree, Tree)>, k: Tree, v: Tree)
    requires
        clean_entries(m),
        clean(v),
        !is_comment(k),
    ensures
        clean_entries(set_entry(m, k, v)),
{
    lemma_each_clean(m);
    lemma_set_each(m, k, v);
    lemma_each_clean(set_entry(m, k, v));
}

proof fn lemma_at_each(m: Seq<(Tree, Tree)>, k: Tree)
    requires
        each_clean(m),
        yaml::at(m, k) is Some,
    ensures
        clean(yaml::at(m, k)->0),
    decreases m.len(),
{
    if m.len() > 0 && m[0].0 != k {
        let d = m.skip(1);
        assert forall|i: int| 0 <= i < d.len() implies !is_comment((#[trigger] d[i]).0) && clean(
            d[i].1,
        ) by {
            assert(d[i] == m[i + 1]);
        }
        lemma_at_each(d, k);
    } else if m.len() > 0 {
        assert(clean(m[0].1));
    }
}

proof fn lemma_at_clean(m: Seq<(Tree, Tree)>, k: Tree)
    requires
        clean_entries(m),
        yaml::at(m, k) is Some,
    ensures
        clean(yaml::at(m, k)->0),
{
    lemma_each_clean(m);
    lemma_at_each(m, k);
}

proof fn lemma_keywords()
    ensures
        !is_comment(Tree::Str("name"@)),
        !is_comment(Tree::Str("volumes"@)),
        !is_comment(Tree::Str("driver"@)),
        !is_comment(Tree::Str("driver_opts"@)),
        !is_comment(Tree::Str("type"@)),
        !is_comment(Tree::Str("o"@)),
        !is_comment(Tree::Str("device"@)),
        "name"@ != "volumes"@,
        "driver"@ != "x-pve"@,
        "driver_opts"@ != "x-pve"@,
        "name"@ != "x-pve"@,
        "driver"@ != "driver_opts"@,
        "type"@ != "device"@,
        "o"@ != "device"@,
{
    reveal_strlit("__");
    reveal_strlit("name");
    reveal_strlit("volumes");
    reveal_strlit("driver");
    reveal_strlit("driver_opts");
    reveal_strlit("type");
    reveal_strlit("o");
    reveal_strlit("device");
    reveal_strlit("x-pve");
    lemma_no_comment("name"@);
    lemma_no_comment("volumes"@);
    lemma_no_comment("driver"@);
    lemma_no_comment("driver_opts"@);
    lemma_no_comment("type"@);
    lemma_no_comment("o"@);
    lemma_no_comment("device"@);
    assert("name"@.len() == 4 && "volumes"@.len() == 7 && "driver"@.len() == 6);
    assert("driver_opts"@.len() == 11 && "x-pve"@.len() == 5 && "type"@.len() == 4);
    assert("o"@.len() == 1 && "device"@.len() == 6);
}

proof fn lemma_no_comment(s: Text)
    requires
        s.len() > 0,
        s.last() != '_',
    ensures
        !is_comment(Tree::Str(s)),
{
    reveal_strlit("__");
    if "__"@.is_suffix_of(s) {
        let t = s.subrange(s.len() - 2, s.len() as int);
        assert(t[1] == s.last());
        assert("__"@[1] == '_');
    }
}

proof fn lemma_bound_clean(name: Text, o: Option<Tree>)
    requires
        o matches Some(t) ==> clean(t),
    ensures
        clean(bound(name, o)),
{
    lemma_keywords();
    let d = bound(name, o)->Dict_0;
    let opts = d[1].1->Dict_0;
    assert forall|i: int| 0 <= i < opts.len() implies !is_comment((#[trigger] opts[i]).0)
        && clean(opts[i].1) by {
        assert(i == 0 || i == 1 || i == 2);
    }
    lemma_each_clean(opts);
    assert forall|i: int| 0 <= i < d.len() implies !is_comment((#[trigger] d[i]).0) && clean(
        d[i].1,
    ) by {
        if i == 2 {
            lemma_at_clean(o->0->Dict_0, Tree::Str("name"@));
        }
    }
    lemma_each_clean(d);
}

proof fn lemma_bound_all_clean(m: Seq<(Tree, Tree)>, vols: Seq<VolumeV>)
    requires
        clean_entries(m),
        forall|i: int| 0 <= i < vols.len() ==> !is_comment(Tree::Str((#[trigger] vols[i]).name)),
    ensures
        clean_entries(bound_all(m, vols)),
    decreases vols.len(),
{
    if vols.len() > 0 {
        let d = vols.drop_last();
        assert(forall|i: int| 0 <= i < d.len() ==> #[trigger] d[i] == vols[i]);
        lemma_bound_all_clean(m, d);
        let before = bound_all(m, d);
        let k = Tree::Str(vols.last().name);
        assert(vols[vols.len() - 1] == vols.last());
        if yaml::at(before, k) is Some {
            lemma_at_clean(before, k);
        }
        lemma_bound_clean(vols.last().name, yaml::at(before, k));
        lemma_set_clean(before, k, bound(vols.last().name, yaml::at(before, k)));
    }
}

/// pve-meta comment keys never reach the rendered file, wherever they stand
/// in the document. A volume cannot bring one back unless it is named like
/// one.
pub proof fn law_no_comment_keys(spec: Tree, vols: Seq<VolumeV>, v: VarsV)
    requires
        spec is Dict,
        forall|i: int| 0 <= i < vols.len() ==> !is_comment(Tree::Str((#[trigger] vols[i]).name)),
    ensures
        clean(rendered_tree(spec, vols, v)),
{
    lemma_keywords();
    lemma_walked_clean(spec, v);
    let m = walked(spec, v)->Dict_0;
    lemma_unnamed_clean(m);
    let top = named(walked(spec, v), v.project)->Dict_0;
    lemma_each_clean(unnamed(m));
    assert forall|i: int| 0 <= i < top.len() implies !is_comment((#[trigger] top[i]).0) && clean(
        top[i].1,
    ) by {
        if i > 0 {
            assert(top[i] == unnamed(m)[i - 1]);
        }
    }
    lemma_each_clean(top);
    let k = Tree::Str("volumes"@);
    if let Some(Tree::Dict(x)) = yaml::at(top, k) {
        lemma_at_clean(top, k);
        lemma_bound_all_clean(x, vols);
        lemma_set_clean(top, k, Tree::Dict(bound_all(x, vols)));
    }
}

proof fn lemma_set_at(m: Seq<(Tree, Tree)>, k: Tree, v: Tree, other: Tree)
    ensures
        yaml::at(set_entry(m, k, v), k) == Some(v),
        other != k ==> yaml::at(set_entry(m, k, v), other) == yaml::at(m, other),
    decreases m.len(),
{
    let r = set_entry(m, k, v);
    if m.len() == 0 {
        assert(r.skip(1) =~= Seq::empty());
        assert(yaml::at(r.skip(1), other) is None);
    } else if m[0].0 == k {
        assert(r.skip(1) =~= m.skip(1));
    } else {
        lemma_set_at(m.skip(1), k, v, other);
        assert(r.skip(1) =~= set_entry(m.skip(1), k, v));
    }
}

/// Whether a definition binds a volume to its directory and keeps nothing of
/// what was there but the author's name for it.
pub open spec fn is_bound(d: Tree, name: Text) -> bool {
    exists|o: Option<Tree>| d == #[trigger] bound(name, o)
}

proof fn lemma_bound_at(m: Seq<(Tree, Tree)>, vols: Seq<VolumeV>, i: int)
    requires
        0 <= i < vols.len(),
    ensures
        yaml::at(bound_all(m, vols), Tree::Str(vols[i].name)) matches Some(d) && is_bound(
            d,
            vols[i].name,
        ),
    decreases vols.len(),
{
    let d = vols.drop_last();
    let before = bound_all(m, d);
    let k = Tree::Str(vols.last().name);
    let x = bound(vols.last().name, yaml::at(before, k));
    assert(is_bound(x, vols.last().name));
    lemma_set_at(before, k, x, Tree::Str(vols[i].name));
    if vols[i].name != vols.last().name {
        lemma_bound_at(m, d, i);
        assert(d[i] == vols[i]);
    }
}

/// The rendered document begins with the project's name, and binds every
/// managed volume that its `volumes` map is about to the volume's directory.
pub proof fn law_render_names_and_binds(spec: Tree, vols: Seq<VolumeV>, v: VarsV)
    requires
        spec is Dict,
    ensures
        rendered_tree(spec, vols, v) matches Tree::Dict(m) && m.len() > 0 && m[0] == (
            Tree::Str("name"@),
            Tree::Str(v.project),
        ),
        yaml::get(named(walked(spec, v), v.project), "volumes"@) is Some && yaml::get(
            named(walked(spec, v), v.project),
            "volumes"@,
        )->0 is Dict ==> (forall|i: int|
            0 <= i < vols.len() ==> (yaml::get(
                yaml::get(rendered_tree(spec, vols, v), "volumes"@)->0,
                (#[trigger] vols[i]).name,
            ) matches Some(d) && is_bound(d, vols[i].name))),
{
    lemma_keywords();
    let top = named(walked(spec, v), v.project)->Dict_0;
    let k = Tree::Str("volumes"@);
    assert(top[0] == (Tree::Str("name"@), Tree::Str(v.project)));
    if let Some(Tree::Dict(x)) = yaml::at(top, k) {
        let b = Tree::Dict(bound_all(x, vols));
        lemma_set_at(top, k, b, k);
        let r = set_entry(top, k, b);
        assert(r[0] == top[0]);
        assert forall|i: int| 0 <= i < vols.len() implies (yaml::get(
            yaml::get(rendered_tree(spec, vols, v), "volumes"@)->0,
            (#[trigger] vols[i]).name,
        ) matches Some(d) && is_bound(d, vols[i].name)) by {
            lemma_bound_at(x, vols, i);
        }
    }
}

/// A bound definition has no `x-pve`, and its device is the directory.
pub proof fn law_bound_is_the_directory(d: Tree, name: Text)
    requires
        is_bound(d, name),
    ensures
        yaml::get(d, "x-pve"@) is None,
        yaml::get(d, "driver_opts"@) matches Some(o) && yaml::get(o, "device"@) == Some(
            Tree::Str(dir_of(name)),
        ),
{
    lemma_keywords();
    let o = choose|o: Option<Tree>| d == #[trigger] bound(name, o);
    let m = bound(name, o)->Dict_0;
    assert(m.skip(1)[0] == m[1]);
    assert(m.skip(1).skip(1) =~= kept_name(o));
    assert(kept_name(o).len() > 0 ==> kept_name(o).skip(1) =~= Seq::empty());
    assert(yaml::at(kept_name(o), Tree::Str("x-pve"@)) is None) by {
        if kept_name(o).len() > 0 {
            assert(yaml::at(kept_name(o).skip(1), Tree::Str("x-pve"@)) is None);
        }
    }
    assert(yaml::at(m.skip(1), Tree::Str("x-pve"@)) is None);
    assert(yaml::at(m.skip(1), Tree::Str("driver_opts"@)) == Some(m[1].1));
    let opts = m[1].1->Dict_0;
    assert(opts.skip(1)[0] == opts[1]);
    assert(opts.skip(1).skip(1)[0] == opts[2]);
    assert(yaml::at(opts.skip(1).skip(1), Tree::Str("device"@)) == Some(opts[2].1));
    assert(yaml::at(opts.skip(1), Tree::Str("device"@)) == Some(opts[2].1));
}

fn replace_var(s: &str, braced: &str, bare: &str, value: &str) -> (r: String)
    requires
        braced@.len() > 0,
        bare@.len() > 0,
    ensures
        r@ == set_var(s@, braced@, bare@, value@),
{
    text::replace(text::replace(s, braced, value).as_str(), bare, value)
}

fn substitute(s: &str, v: &Vars) -> (r: String)
    ensures
        r@ == substituted(s@, v@),
{
    if !text::has(s, "${PVE_") && !text::has(s, "$PVE_") {
        return s.to_owned();
    }
    proof {
        reveal_strlit("${PVE_GID}");
        reveal_strlit("$PVE_GID");
        reveal_strlit("${PVE_NAME}");
        reveal_strlit("$PVE_NAME");
        reveal_strlit("${PVE_STACK}");
        reveal_strlit("$PVE_STACK");
        reveal_strlit("${PVE_UID}");
        reveal_strlit("$PVE_UID");
        reveal_strlit("${PVE_VMID}");
        reveal_strlit("$PVE_VMID");
    }
    let s = replace_var(s, "${PVE_GID}", "$PVE_GID", v.gid.as_str());
    let s = replace_var(s.as_str(), "${PVE_NAME}", "$PVE_NAME", v.name.as_str());
    let s = replace_var(s.as_str(), "${PVE_STACK}", "$PVE_STACK", STACK_DIR);
    let s = replace_var(s.as_str(), "${PVE_UID}", "$PVE_UID", v.uid.as_str());
    replace_var(
        s.as_str(),
        "${PVE_VMID}",
        "$PVE_VMID",
        num::print(v.vmid as u64).as_str(),
    )
}

fn is_comment_key(k: &Yaml) -> (r: bool)
    ensures
        r == is_comment(k@),
{
    match k.as_str() {
        Some(s) => text::ends_with(s.as_str(), "__"),
        None => false,
    }
}

fn walk(t: &Yaml, v: &Vars) -> (r: Yaml)
    ensures
        r@ == walked(t@, v@),
    decreases t,
{
    match t {
        Yaml::Str(s) => Yaml::Str(substitute(s.as_str(), v)),
        Yaml::List(l) => {
            let mut out: Vec<Yaml> = Vec::new();
            for i in 0..l.len()
                invariant
                    *t == Yaml::List(*l),
                    out@.len() == i,
                    forall|j: int| 0 <= j < i ==> (#[trigger] out@[j])@ == walked(l@[j]@, v@),
            {
                assert(decreases_to!(*t => t->List_0));
                assert(decreases_to!(*l => l@));
                assert(decreases_to!(l@ => l@[i as int]));
                let x = walk(&l[i], v);
                out.push(x);
            }
            proof {
                yaml::lemma_list(*l);
                assert(text::views(out@) =~= walked(t@, v@)->List_0);
            }
            Yaml::seq(out)
        },
        Yaml::Dict(m) => {
            let mut out: Vec<(Yaml, Yaml)> = Vec::new();
            let ghost all = yaml::entries(m@);
            assert(yaml::entries(out@) =~= Seq::empty());
            assert(all.take(0) =~= Seq::empty());
            for i in 0..m.len()
                invariant
                    *t == Yaml::Dict(*m),
                    all == yaml::entries(m@),
                    yaml::entries(out@) == walked_entries(all.take(i as int), v@),
            {
                assert(all.take(i + 1).drop_last() =~= all.take(i as int));
                assert(all.take(i + 1).last() == (m@[i as int].0@, m@[i as int].1@));
                if !is_comment_key(&m[i].0) {
                    assert(decreases_to!(*t => t->Dict_0));
                    assert(decreases_to!(*m => m@));
                    assert(decreases_to!(m@ => m@[i as int]));
                    assert(decreases_to!(m@[i as int] => m@[i as int].1));
                    let x = walk(&m[i].1, v);
                    let ghost before = out@;
                    out.push((m[i].0.clone(), x));
                    assert(yaml::entries(out@) =~= yaml::entries(before).push(
                        (m@[i as int].0@, x@),
                    ));
                }
            }
            proof {
                yaml::lemma_dict(*m);
                assert(all.take(all.len() as int) =~= all);
            }
            Yaml::map(out)
        },
        Yaml::Tagged(n, b) => {
            let x = walk(&**b, v);
            Yaml::Tagged(n.clone(), Box::new(x))
        },
        _ => t.clone(),
    }
}

fn name_first(t: Yaml, project: &str) -> (r: Yaml)
    ensures
        r@ == named(t@, project@),
{
    match &t {
        Yaml::Dict(m) => {
            let mut out: Vec<(Yaml, Yaml)> = Vec::new();
            out.push((Yaml::text("name"), Yaml::text(project)));
            let ghost all = yaml::entries(m@);
            let ghost front = seq![(Tree::Str("name"@), Tree::Str(project@))];
            assert(all.take(0) =~= Seq::empty());
            assert(yaml::entries(out@) =~= front + unnamed(all.take(0)));
            for i in 0..m.len()
                invariant
                    all == yaml::entries(m@),
                    yaml::entries(out@) == front + unnamed(all.take(i as int)),
            {
                assert(all.take(i + 1).drop_last() =~= all.take(i as int));
                assert(all.take(i + 1).last() == (m@[i as int].0@, m@[i as int].1@));
                let is_name = match m[i].0.as_str() {
                    Some(s) => text::same(s.as_str(), "name"),
                    None => false,
                };
                if !is_name {
                    let ghost before = out@;
                    out.push((m[i].0.clone(), m[i].1.clone()));
                    assert(yaml::entries(out@) =~= yaml::entries(before).push(
                        (m@[i as int].0@, m@[i as int].1@),
                    ));
                    assert(yaml::entries(out@) =~= front + unnamed(all.take(i + 1)));
                }
            }
            proof {
                yaml::lemma_dict(*m);
                assert(all.take(all.len() as int) =~= all);
            }
            Yaml::map(out)
        },
        _ => t,
    }
}

/// Sets the entry under a text key.
fn put(m: &mut Vec<(Yaml, Yaml)>, key: &str, v: Yaml)
    ensures
        yaml::entries(final(m)@) == set_entry(yaml::entries(old(m)@), Tree::Str(key@), v@),
{
    let ghost all = yaml::entries(m@);
    let ghost k = Tree::Str(key@);
    assert(all.skip(0) =~= all);
    assert(all.take(0) + set_entry(all.skip(0), k, v@) =~= set_entry(all, k, v@));
    let n = m.len();
    for i in 0..n
        invariant
            *m == *old(m),
            all == yaml::entries(m@),
            n == m@.len(),
            k == Tree::Str(key@),
            all.take(i as int) + set_entry(all.skip(i as int), k, v@) == set_entry(all, k, v@),
    {
        assert(all.skip(i as int)[0] == (m@[i as int].0@, m@[i as int].1@));
        if yaml::is_text(&m[i].0, key) {
            m.set(i, (Yaml::text(key), v));
            assert(yaml::entries(m@) =~= all.take(i as int) + set_entry(
                all.skip(i as int),
                k,
                v@,
            ));
            return;
        }
        assert(all.skip(i as int).skip(1) =~= all.skip(i + 1));
        assert(all.take(i + 1) + set_entry(all.skip(i + 1), k, v@) =~= all.take(i as int)
            + set_entry(all.skip(i as int), k, v@));
    }
    m.push((Yaml::text(key), v));
    assert(yaml::entries(m@) =~= all.take(n as int) + set_entry(all.skip(n as int), k, v@));
}

fn bind(name: &str, old_def: Option<&Yaml>) -> (r: Yaml)
    ensures
        r@ == bound(name@, text::opt(old_def)),
{
    let device = text::cat3(VOLUMES_DIR, "/", name);
    let opts = vec![
        (Yaml::text("type"), Yaml::text("none")),
        (Yaml::text("o"), Yaml::text("bind")),
        (Yaml::text("device"), Yaml::text(device.as_str())),
    ];
    assert(yaml::entries(opts@) =~= seq![
        (Tree::Str("type"@), Tree::Str("none"@)),
        (Tree::Str("o"@), Tree::Str("bind"@)),
        (Tree::Str("device"@), Tree::Str(dir_of(name@))),
    ]);
    let mut def = vec![
        (Yaml::text("driver"), Yaml::text("local")),
        (Yaml::text("driver_opts"), Yaml::map(opts)),
    ];
    if let Some(x) = old_def {
        if let Yaml::Dict(m) = x {
            proof {
                yaml::lemma_dict(*m);
            }
            if let Some(n) = yaml::find(m, "name") {
                def.push((Yaml::text("name"), n.clone()));
            }
        }
    }
    assert(yaml::entries(def@) =~= bound(name@, text::opt(old_def))->Dict_0);
    Yaml::map(def)
}

fn bind_all(m: &Vec<(Yaml, Yaml)>, vols: &Vec<Volume>) -> (r: Vec<(Yaml, Yaml)>)
    ensures
        yaml::entries(r@) == bound_all(yaml::entries(m@), text::views(vols@)),
{
    let mut out: Vec<(Yaml, Yaml)> = Vec::new();
    for i in 0..m.len()
        invariant
            out@.len() == i,
            forall|j: int|
                0 <= j < i ==> (#[trigger] out@[j]).0@ == m@[j].0@ && out@[j].1@ == m@[j].1@,
    {
        out.push((m[i].0.clone(), m[i].1.clone()));
    }
    assert(yaml::entries(out@) =~= yaml::entries(m@));
    let ghost all = text::views(vols@);
    assert(all.take(0) =~= Seq::empty());
    for i in 0..vols.len()
        invariant
            all == text::views(vols@),
            yaml::entries(out@) == bound_all(yaml::entries(m@), all.take(i as int)),
    {
        assert(all.take(i + 1).drop_last() =~= all.take(i as int));
        assert(all.take(i + 1).last() == vols@[i as int]@);
        let def = bind(vols[i].name.as_str(), yaml::find(&out, vols[i].name.as_str()));
        put(&mut out, vols[i].name.as_str(), def);
    }
    assert(all.take(all.len() as int) =~= all);
    out
}

fn bind_volumes(t: Yaml, vols: &Vec<Volume>) -> (r: Yaml)
    ensures
        r@ == with_binds(t@, text::views(vols@)),
    decreases t,
{
    match t {
        Yaml::Tagged(n, b) => {
            let ghost inner = *b;
            let x = bind_volumes(*b, vols);
            Yaml::Tagged(n, Box::new(x))
        },
        Yaml::Dict(m) => {
            proof {
                yaml::lemma_dict(m);
            }
            let bound_volumes = match yaml::find(&m, "volumes") {
                Some(Yaml::Dict(v)) => {
                    proof {
                        yaml::lemma_dict(*v);
                    }
                    Some(bind_all(v, vols))
                },
                _ => None,
            };
            match bound_volumes {
                Some(v) => {
                    let mut m = m;
                    put(&mut m, "volumes", Yaml::map(v));
                    Yaml::map(m)
                },
                None => Yaml::Dict(m),
            }
        },
        other => other,
    }
}

/// The `compose.yaml` text for the guest.
pub fn render(spec: &Yaml, vols: &Vec<Volume>, vars: &Vars) -> (r: Result<String, Error>)
    ensures
        match r {
            Ok(t) => rendered(spec@, text::views(vols@), vars@) == Ok::<Text, Chain>(t@),
            Err(e) => rendered(spec@, text::views(vols@), vars@) == Err::<Text, Chain>(e@),
        },
{
    let doc = bind_volumes(name_first(walk(spec, vars), vars.project.as_str()), vols);
    match yaml::print(&doc) {
        Ok(t) => Ok(
            text::cat(
                "# Rendered by pve-compose from this guest's pve-meta document (compose.spec).\n# Edit the document, not this file: the next apply overwrites it.\n",
                t.as_str(),
            ),
        ),
        Err(e) => {
            let ghost m = e@[0];
            let e = e.context("rendering compose.yaml".to_owned());
            assert(e@ =~= seq!["rendering compose.yaml"@, m]);
            Err(e)
        },
    }
}

} // verus!
