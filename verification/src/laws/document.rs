//! What a document says.

use vstd::prelude::*;

use crate::config::{self, ConfigV, LimitsV};
use crate::decode;
use crate::doc::{self, DocV, Mode, Policy};
use crate::num;
use crate::ops::apply;
use crate::ops::{CtxV, GuestV};
use crate::size;
use crate::spec::{self, KindV, VolumeV, XPveV};
use crate::table;
use crate::text::{self, Text};
use crate::yaml::{self, Tree};

verus! {

// ---------------------------------------------------------------------------
// The policy.

/// Whether a mode is what an entry says, or the default where there is none.
pub open spec fn says(t: Option<Tree>, default: Mode, m: Mode) -> bool {
    &&& t is None ==> m == default
    &&& t == Some(Tree::Str("auto"@)) ==> m == Mode::Auto
    &&& t == Some(Tree::Str("manual"@)) ==> m == Mode::Manual
}

/// Each part of a policy is what its own key says: `pct` and `docker` are
/// automatic unless told otherwise, `up` and `pull` manual.
pub proof fn law_a_policy_is_read_by_its_keys(
    t: Tree,
    u: Tree,
    m: Seq<(Tree, Tree)>,
    p: Policy,
)
    requires
        decode::fields(t, u, seq!["pct"@, "docker"@, "up"@, "pull"@]) == Ok::<
            Seq<(Tree, Tree)>,
            Text,
        >(m),
        doc::policy_of(t, u) == Ok::<Policy, Text>(p),
    ensures
        says(yaml::at(m, Tree::Str("pct"@)), Mode::Auto, p.pct),
        says(yaml::at(m, Tree::Str("docker"@)), Mode::Auto, p.docker),
        says(yaml::at(m, Tree::Str("up"@)), Mode::Manual, p.up),
        says(yaml::at(m, Tree::Str("pull"@)), Mode::Manual, p.pull),
{
    reveal_strlit("auto");
    reveal_strlit("manual");
    assert("auto"@.len() != "manual"@.len());
}

// ---------------------------------------------------------------------------
// Volumes.

/// Whether a name is one that a directory may have.
pub open spec fn usable(n: Text) -> bool {
    &&& n.len() > 0 && n[0] != '.'
    &&& forall|i: int|
        0 <= i < n.len() ==> ({
            let c = #[trigger] n[i];
            'a' <= c <= 'z' || 'A' <= c <= 'Z' || '0' <= c <= '9' || c == '_' || c == '-' || c
                == '.'
        })
}

/// Whether a text is all digits, and some.
pub open spec fn digits(s: Text) -> bool {
    s.len() > 0 && forall|i: int| 0 <= i < s.len() ==> '0' <= #[trigger] s[i] <= '9'
}

/// Whether a text is an owner: a uid and a gid with a colon between them, or
/// one number for both.
pub open spec fn is_owner(o: Text) -> bool {
    digits(o) || exists|u: Text, g: Text|
        #[trigger] (u + ":"@ + g) == o && digits(u) && digits(g)
}

/// Whether a path is a root or lies under it, and the root is absolute.
pub open spec fn lies_under(p: Text, root: Text) -> bool {
    &&& root.len() > 0 && root[0] == '/'
    &&& exists|r: Text|
        {
            &&& #[trigger] r.is_prefix_of(root)
            &&& forall|i: int| r.len() <= i < root.len() ==> root[i] == '/'
            &&& r.len() > 0 ==> r.last() != '/'
            &&& p == r || (r + "/"@).is_prefix_of(p)
        }
}

/// Whether a volume is within the bounds of a node.
pub open spec fn bounded(v: VolumeV, l: LimitsV) -> bool {
    &&& usable(v.name)
    &&& v.owner matches Some(o) ==> is_owner(o)
    &&& match v.kind {
        KindV::Plain => true,
        KindV::Bind { path } => {
            let s = text::pieces(path, '/');
            &&& path.len() > 0 && path[0] == '/'
            &&& forall|i: int|
                1 <= i < s.len() ==> (#[trigger] s[i]).len() > 0 && s[i] != "."@ && s[i] != ".."@
            &&& exists|i: int|
                0 <= i < l.bind_roots.len() && lies_under(path, #[trigger] l.bind_roots[i])
        },
        KindV::Disk { storage, size } => {
            &&& 0 < size <= l.max_disk_gib * 1073741824
            &&& storage matches Some(s) ==> exists|i: int|
                0 <= i < l.storages.len() && #[trigger] l.storages[i] == s
        },
    }
}

proof fn lemma_owner(o: Text)
    requires
        spec::owner_ok(o),
    ensures
        is_owner(o),
{
    text::lemma_first(o, ':');
    reveal_strlit(":");
    let i = text::first(o, ':') as int;
    let (u, g) = spec::owner_parts(o);
    assert(digits(u) && digits(g)) by {
        assert forall|j: int| 0 <= j < u.len() implies '0' <= #[trigger] u[j] <= '9' by {
            assert(text::is_digit(u[j]));
        }
        assert forall|j: int| 0 <= j < g.len() implies '0' <= #[trigger] g[j] <= '9' by {
            assert(text::is_digit(g[j]));
        }
    }
    if i < o.len() {
        assert(u + ":"@ + g =~= o);
    }
}

proof fn lemma_strip(s: Text, c: char)
    ensures
        size::strip_end(s, c).is_prefix_of(s),
        forall|i: int| size::strip_end(s, c).len() <= i < s.len() ==> s[i] == c,
        size::strip_end(s, c).len() > 0 ==> size::strip_end(s, c).last() != c,
    decreases s.len(),
{
    if s.len() > 0 && s.last() == c {
        let t = s.drop_last();
        lemma_strip(t, c);
        let r = size::strip_end(s, c);
        assert(r =~= s.subrange(0, r.len() as int)) by {
            assert(r =~= t.subrange(0, r.len() as int));
        }
        assert forall|i: int| r.len() <= i < s.len() implies s[i] == c by {
            if i < t.len() {
                assert(s[i] == t[i]);
            }
        }
    } else {
        assert(s =~= s.subrange(0, s.len() as int));
    }
}

proof fn lemma_bounded(k: Tree, v: Tree, l: LimitsV)
    ensures
        spec::volume_of(k, v, l) matches Ok(Some(x)) ==> bounded(x, l),
{
    if let Ok(Some(x)) = spec::volume_of(k, v, l) {
        assert(usable(x.name)) by {
            assert(spec::name_ok(x.name));
            assert forall|i: int| 0 <= i < x.name.len() implies ({
                let c = #[trigger] x.name[i];
                'a' <= c <= 'z' || 'A' <= c <= 'Z' || '0' <= c <= '9' || c == '_' || c == '-' || c
                    == '.'
            }) by {
                assert(spec::name_char(x.name[i]));
            }
        }
        if let Some(o) = x.owner {
            lemma_owner(o);
        }
        match x.kind {
            KindV::Bind { path } => {
                assert(spec::path_allowed(path, l.bind_roots));
                let i = choose|i: int|
                    0 <= i < l.bind_roots.len() && spec::path_under(path, #[trigger] l.bind_roots[i]);
                let root = l.bind_roots[i];
                let r = size::strip_end(root, '/');
                lemma_strip(root, '/');
                assert(r.is_prefix_of(root));
                assert(lies_under(path, root));
            },
            KindV::Disk { storage, size } => {
                if let Some(s) = storage {
                    assert(l.storages.contains(s));
                    let i = choose|i: int| 0 <= i < l.storages.len() && l.storages[i] == s;
                    assert(l.storages[i] == s);
                }
                lemma_size(k, v, l);
            },
            KindV::Plain => {},
        }
    }
}

proof fn lemma_size(k: Tree, v: Tree, l: LimitsV)
    ensures
        spec::volume_of(k, v, l) matches Ok(Some(x)) ==> (x.kind matches KindV::Disk { size, .. }
            ==> size > 0),
{
}

proof fn lemma_all_bounded(m: Seq<(Tree, Tree)>, l: LimitsV)
    ensures
        spec::volumes_from(m, l) is Ok ==> forall|j: int|
            0 <= j < spec::volumes_from(m, l)->Ok_0.len() ==> bounded(
                #[trigger] spec::volumes_from(m, l)->Ok_0[j],
                l,
            ),
    decreases m.len(),
{
    if m.len() > 0 {
        lemma_all_bounded(m.drop_last(), l);
        lemma_bounded(m.last().0, m.last().1, l);
    }
}

/// Every volume of a document that is accepted is within the bounds of the
/// node: its name is usable, its owner is one, a bind is under one of the
/// roots and has no segment that leads astray, a disk is no larger than the
/// ceiling, and on a storage that is allowed.
pub proof fn law_volumes_are_bounded(t: Tree, l: LimitsV, v: Seq<VolumeV>, j: int)
    requires
        spec::volumes_of(t, l) == Ok::<Seq<VolumeV>, Seq<Text>>(v),
        0 <= j < v.len(),
    ensures
        bounded(v[j], l),
{
    if let Some(x) = yaml::get(t, "volumes"@) {
        if let Tree::Dict(m) = yaml::untag(x) {
            lemma_all_bounded(m, l);
            let r = spec::volumes_from(m, l)->Ok_0;
            assert(r == v);
            assert(bounded(r[j], l));
        }
    }
}

/// Whether an entry of `volumes` is left alone.
pub open spec fn left_alone(v: Tree) -> bool {
    yaml::get(v, "external"@) matches Some(e) && doc::flag(e) == Some(true)
}

/// Whether volumes are those of entries: in their order, each under its name,
/// with none left out but those that are to be left alone.
pub open spec fn listed_as(m: Seq<(Tree, Tree)>, v: Seq<VolumeV>) -> bool {
    exists|from: Seq<int>|
        {
            &&& #[trigger] from.len() == v.len()
            &&& forall|i: int|
                0 <= i < v.len() ==> 0 <= #[trigger] from[i] < m.len() && !left_alone(
                    m[from[i]].1,
                ) && yaml::string(m[from[i]].0) == Some(v[i].name) && defined_as(
                    m[from[i]].1,
                    v[i],
                )
            &&& forall|i: int, j: int|
                0 <= i < j < v.len() ==> #[trigger] from[i] < #[trigger] from[j]
            &&& forall|k: int|
                0 <= k < m.len() && !left_alone((#[trigger] m[k]).1) ==> from.contains(k)
        }
}

/// Whether a value is not given.
pub open spec fn not_given(t: Option<Tree>) -> bool {
    t is None || t == Some(Tree::Null)
}

/// Whether a volume is what its definition says.
pub open spec fn defined_as(d: Tree, v: VolumeV) -> bool {
    match yaml::get(d, "x-pve"@) {
        None => v.kind is Plain && v.owner is None && v.backup,
        Some(x) => {
            &&& x is Null ==> v.kind is Plain && v.owner is None && v.backup
            &&& x is Dict ==> (decode::fields(
                x,
                x,
                seq!["storage"@, "size"@, "path"@, "owner"@, "backup"@],
            ) matches Ok(m) && described_by(m, v))
        },
    }
}

/// Whether a volume is what the entries of its `x-pve` say.
pub open spec fn described_by(m: Seq<(Tree, Tree)>, v: VolumeV) -> bool {
    let path = yaml::at(m, Tree::Str("path"@));
    let storage = yaml::at(m, Tree::Str("storage"@));
    let size = yaml::at(m, Tree::Str("size"@));
    let owner = yaml::at(m, Tree::Str("owner"@));
    let backup = yaml::at(m, Tree::Str("backup"@));
    &&& v.owner == (if not_given(owner) {
        None
    } else {
        yaml::string(owner->0)
    })
    &&& backup is None ==> v.backup
    &&& backup matches Some(b) ==> (doc::flag(b) matches Some(f) ==> v.backup == f)
    &&& match v.kind {
        KindV::Bind { path: p } => !not_given(path) && yaml::string(path->0) == Some(p)
            && not_given(storage) && not_given(size) && (backup is None || doc::flag(backup->0)
            is None),
        KindV::Disk { storage: s, size: z } => not_given(path) && !not_given(size)
            && decode::size_of(size->0) == Ok::<nat, Text>(z) && s == (if not_given(storage) {
            None
        } else {
            yaml::string(storage->0)
        }),
        KindV::Plain => not_given(path) && not_given(storage) && not_given(size),
    }
}

proof fn lemma_defined(k: Tree, d: Tree, l: LimitsV)
    ensures
        spec::volume_of(k, d, l) matches Ok(Some(v)) ==> !left_alone(d) && yaml::string(k) == Some(
            v.name,
        ) && defined_as(d, v),
        spec::volume_of(k, d, l) matches Ok(None) ==> left_alone(d),
{
    assert(spec::x_keys() == seq!["storage"@, "size"@, "path"@, "owner"@, "backup"@]);
}

proof fn lemma_listed(m: Seq<(Tree, Tree)>, l: LimitsV)
    ensures
        spec::volumes_from(m, l) matches Ok(v) ==> listed_as(m, v),
    decreases m.len(),
{
    if let Ok(v) = spec::volumes_from(m, l) {
        if m.len() == 0 {
            let from = Seq::<int>::empty();
            assert(from.len() == v.len());
        } else {
            let f = m.drop_last();
            let n = m.len() - 1;
            lemma_listed(f, l);
            lemma_defined(m.last().0, m.last().1, l);
            let q = spec::volumes_from(f, l)->Ok_0;
            let g = choose|g: Seq<int>|
                {
                    &&& #[trigger] g.len() == q.len()
                    &&& forall|i: int|
                        0 <= i < q.len() ==> 0 <= #[trigger] g[i] < f.len() && !left_alone(
                            f[g[i]].1,
                        ) && yaml::string(f[g[i]].0) == Some(q[i].name) && defined_as(
                            f[g[i]].1,
                            q[i],
                        )
                    &&& forall|i: int, j: int|
                        0 <= i < j < q.len() ==> #[trigger] g[i] < #[trigger] g[j]
                    &&& forall|k: int|
                        0 <= k < f.len() && !left_alone((#[trigger] f[k]).1) ==> g.contains(k)
                };
            let from = if left_alone(m.last().1) {
                g
            } else {
                g.push(n)
            };
            assert(from.len() == v.len());
            assert forall|i: int| 0 <= i < v.len() implies 0 <= #[trigger] from[i] < m.len()
                && !left_alone(m[from[i]].1) && yaml::string(m[from[i]].0) == Some(v[i].name)
                && defined_as(m[from[i]].1, v[i]) by {
                if i < q.len() {
                    assert(from[i] == g[i]);
                    assert(v[i] == q[i]);
                    assert(m[g[i]] == f[g[i]]);
                }
            }
            assert forall|i: int, j: int| 0 <= i < j < v.len() implies #[trigger] from[i]
                < #[trigger] from[j] by {
                assert(from[i] == g[i]);
                if j < q.len() {
                    assert(from[j] == g[j]);
                }
            }
            assert forall|k: int|
                0 <= k < m.len() && !left_alone((#[trigger] m[k]).1) implies from.contains(k) by {
                if k < n {
                    assert(f[k] == m[k]);
                    assert(g.contains(k));
                    let i = choose|i: int| 0 <= i < g.len() && g[i] == k;
                    assert(from[i] == k);
                } else {
                    assert(from[g.len() as int] == k);
                }
            }
        }
    }
}

/// The volumes of a document are the entries of its `volumes`, in their order,
/// each as it is defined, without those that are external. A document without
/// `volumes` has none.
pub proof fn law_volumes_are_as_defined(t: Tree, l: LimitsV, v: Seq<VolumeV>)
    requires
        spec::volumes_of(t, l) == Ok::<Seq<VolumeV>, Seq<Text>>(v),
    ensures
        match yaml::get(t, "volumes"@) {
            None => v.len() == 0,
            Some(x) => match yaml::untag(x) {
                Tree::Dict(m) => listed_as(m, v),
                y => y is Null && v.len() == 0,
            },
        },
{
    if let Some(x) = yaml::get(t, "volumes"@) {
        if let Tree::Dict(m) = yaml::untag(x) {
            lemma_listed(m, l);
        }
    }
}

/// The bounds of a node are the stored ones; without a list of storages, the
/// node's own is the only one allowed, and where it has none, none is.
pub proof fn law_bounds_of_a_node(c: ConfigV, node: Text, s: Text)
    ensures
        ({
            let l = config::limits_for(c, node);
            &&& l.bind_roots == c.limits.bind_roots
            &&& l.max_disk_gib == c.limits.max_disk_gib
            &&& c.limits.storages.len() > 0 ==> l.storages == c.limits.storages
            &&& c.limits.storages.len() == 0 ==> (l.storages.contains(s) <==> table::lookup(
                c.nodes,
                node,
            ) == Some(Some(s)))
        }),
{
    let l = config::limits_for(c, node);
    if c.limits.storages.len() == 0 {
        if table::lookup(c.nodes, node) == Some(Some(s)) {
            assert(l.storages[0] == s);
        }
    }
}

// ---------------------------------------------------------------------------
// What the variables are.

/// The variables of a guest are its own: its vmid and hostname, and the uid and
/// gid of the owner that the document names, or else of the stored one.
pub proof fn law_the_variables_of_a_guest(c: CtxV, g: GuestV, u: Text, x: Text)
    requires
        digits(u),
        digits(x),
        (match g.read.doc.owner {
            Some(o) => o,
            None => c.config.defaults.owner,
        }) == u + ":"@ + x,
    ensures
        apply::vars_of(c, g) matches Ok(v) && v.uid == u && v.gid == x && v.vmid == g.config.vmid
            && v.name == (match g.config.hostname {
            Some(h) => h,
            None => Seq::empty(),
        }) && v.project == (match g.config.hostname {
            Some(h) => doc::project_name(h),
            None => "ct"@ + num::dec(g.config.vmid as nat),
        }),
{
    reveal_strlit(":");
    let o = u + ":"@ + x;
    assert(o[u.len() as int] == ':');
    assert forall|j: int| 0 <= j < u.len() implies o[j] != ':' by {
        assert(o[j] == u[j]);
    }
    text::lemma_first_is(o, ':', u.len() as int);
    assert(o.take(u.len() as int) =~= u);
    assert(o.skip(u.len() as int + 1) =~= x);
    assert(text::all_digits(u)) by {
        assert forall|i: int| 0 <= i < u.len() implies text::is_digit(#[trigger] u[i]) by {}
    }
    assert(text::all_digits(x)) by {
        assert forall|i: int| 0 <= i < x.len() implies text::is_digit(#[trigger] x[i]) by {}
    }
}

/// The project of a hostname that begins with a letter or digit is the
/// hostname: letters in lower case, digits, dashes and underscores as they
/// are, and a dash for everything else.
pub proof fn law_the_project_is_the_hostname(h: Text, i: int)
    requires
        h.len() > 0,
        'a' <= h[0] <= 'z' || 'A' <= h[0] <= 'Z' || '0' <= h[0] <= '9',
        0 <= i < h.len(),
    ensures
        doc::project_name(h).len() == h.len(),
        'a' <= h[i] <= 'z' || '0' <= h[i] <= '9' || h[i] == '-' || h[i] == '_'
            ==> doc::project_name(h)[i] == h[i],
        'A' <= h[i] <= 'Z' ==> doc::project_name(h)[i] as u32 == h[i] as u32 + 32,
        !('a' <= h[i] <= 'z' || 'A' <= h[i] <= 'Z' || '0' <= h[i] <= '9' || h[i] == '-' || h[i]
            == '_') ==> doc::project_name(h)[i] == '-',
{
    let s = h.map_values(|c: char| doc::project_of(c));
    assert(s[0] == doc::project_of(h[0]));
    assert(doc::project_start(s[0]));
    assert(doc::from_start(s) == s);
    assert(s[i] == doc::project_of(h[i]));
}

// ---------------------------------------------------------------------------
// What is accepted, and what is not.

/// A volume within the bounds is accepted: a disk no larger than the ceiling,
/// on an allowed storage or on none in particular; a bind under one of the
/// roots; and a plain directory.
pub proof fn law_what_is_within_bounds_is_accepted(name: Text, x: XPveV, l: LimitsV)
    requires
        x.owner matches Some(o) ==> spec::owner_ok(o),
    ensures
        x.path is None && x.storage is None && x.size is None ==> (spec::backed(
            name,
            x,
            l,
        ) matches Ok(v) && v.kind is Plain),
        x.path is None && (x.size matches Some(z) && z <= l.max_disk_gib * 1073741824) && (
        x.storage matches Some(s) ==> l.storages.contains(s)) ==> (spec::backed(name, x, l)
            matches Ok(v) && v.kind == (KindV::Disk { storage: x.storage, size: x.size->0 })),
        x.storage is None && x.size is None && x.backup is None && (x.path matches Some(p)
            && spec::path_plain(p) && exists|i: int|
            0 <= i < l.bind_roots.len() && spec::path_under(p, #[trigger] l.bind_roots[i])) ==> (
        spec::backed(name, x, l) matches Ok(v) && v.kind == (KindV::Bind { path: x.path->0 })),
        spec::backed(name, x, l) matches Ok(v) ==> v.name == name && v.owner == x.owner && v.backup
            == (match x.backup {
            Some(b) => b,
            None => true,
        }),
{
}

/// A path is under a root where it is the root, or the root with more
/// segments; and a root that is not absolute has nothing under it.
pub proof fn law_what_lies_under_a_root(root: Text, rest: Text)
    requires
        root.len() > 0,
        root[0] == '/',
        root.last() != '/',
    ensures
        spec::path_under(root, root),
        spec::path_under(root + "/"@ + rest, root),
        spec::path_under(root + "/"@ + rest, root + "/"@),
{
    reveal_strlit("/");
    let p = root + "/"@ + rest;
    let r = root + "/"@;
    assert(p.subrange(0, r.len() as int) =~= r);
    assert(r.drop_last() =~= root);
    assert(size::strip_end(root, '/') == root);
    assert(size::strip_end(r, '/') == root);
}

proof fn lemma_stranger(m: Seq<(Tree, Tree)>, known: Seq<Text>, i: int)
    requires
        0 <= i < m.len(),
        forall|j: int| 0 <= j < known.len() ==> m[i].0 != Tree::Str(#[trigger] known[j]),
    ensures
        decode::stranger(m, known) is Some,
    decreases m.len(),
{
    if i > 0 {
        let n = m.skip(1);
        assert(n[i - 1] == m[i]);
        lemma_stranger(n, known, i - 1);
    }
}

/// A key that is not known is refused, wherever it stands in its section.
pub proof fn law_unknown_keys_are_refused(
    m: Seq<(Tree, Tree)>,
    u: Tree,
    known: Seq<Text>,
    i: int,
    k: Text,
)
    requires
        0 <= i < m.len(),
        m[i].0 == Tree::Str(k),
        !known.contains(k),
    ensures
        decode::fields(Tree::Dict(m), u, known) is Err,
{
    let n = decode::bare_keys(m);
    assert(n[i].0 == Tree::Str(k));
    assert forall|j: int| 0 <= j < known.len() implies n[i].0 != Tree::Str(#[trigger] known[j]) by {
        assert(known.contains(known[j]));
    }
    lemma_stranger(n, known, i);
}

/// The parts of a document are read each from its own key, and a document
/// without `spec` is none.
pub proof fn law_a_document_is_read_by_its_keys(
    t: Tree,
    u: Tree,
    m: Seq<(Tree, Tree)>,
    d: DocV,
)
    requires
        decode::fields(t, u, seq!["stack"@, "policy"@, "spec"@]) == Ok::<Seq<(Tree, Tree)>, Text>(
            m,
        ),
        doc::doc_of(t, u) == Ok::<DocV, Text>(d),
    ensures
        yaml::at(m, Tree::Str("spec"@)) == Some(d.spec),
        yaml::at(m, Tree::Str("policy"@)) matches Some(p) ==> doc::policy_of(
            p,
            decode::beside(t, u, "policy"@),
        ) == Ok::<Policy, Text>(d.policy),
        yaml::at(m, Tree::Str("stack"@)) matches Some(s) ==> doc::stack_of(
            s,
            decode::beside(t, u, "stack"@),
        ) == Ok::<Option<Text>, Text>(d.owner),
{
}

/// The owner of a document is what `stack.owner` says.
pub proof fn law_the_owner_is_read_by_its_key(
    t: Tree,
    u: Tree,
    m: Seq<(Tree, Tree)>,
    o: Option<Text>,
)
    requires
        decode::fields(t, u, seq!["owner"@]) == Ok::<Seq<(Tree, Tree)>, Text>(m),
        doc::stack_of(t, u) == Ok::<Option<Text>, Text>(o),
    ensures
        yaml::at(m, Tree::Str("owner"@)) is None ==> o is None,
        yaml::at(m, Tree::Str("owner"@)) matches Some(Tree::Str(s)) ==> o == Some(s),
{
}

/// A document's `spec` is a map, and its owner is one.
pub proof fn law_a_document_is_sound(s: Text, d: DocV)
    requires
        doc::parsed(s) == Ok::<DocV, Seq<Text>>(d),
    ensures
        yaml::untag(d.spec) is Dict,
        d.owner matches Some(o) ==> is_owner(o),
{
    if let Some(o) = d.owner {
        lemma_owner(o);
    }
}

/// A boolean is true or false as such, as 1 or 0, or as one of the words for
/// it with space around or not, and nothing else is one.
pub proof fn law_what_is_a_flag(b: bool)
    ensures
        doc::flag(Tree::Bool(b)) == Some(b),
        doc::flag(Tree::Number("1"@)) == Some(true),
        doc::flag(Tree::Number("0"@)) == Some(false),
        doc::flag(Tree::Null) is None,
        forall|s: Text|
            #[trigger] doc::flag(Tree::Str(s)) == Some(true) ==> ({
                let t = text::trimmed(s);
                t == "1"@ || t == "true"@ || t == "yes"@ || t == "on"@
            }),
        forall|s: Text|
            #[trigger] doc::flag(Tree::Str(s)) == Some(false) ==> ({
                let t = text::trimmed(s);
                t == "0"@ || t == "false"@ || t == "no"@ || t == "off"@
            }),
{
    reveal_strlit("0");
    reveal_strlit("1");
    assert("0"@[0] == '0' && "1"@[0] == '1');
}

} // verus!
