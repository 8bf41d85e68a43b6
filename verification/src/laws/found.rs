//! What is made of what PVE says, and of sizes.

use vstd::arithmetic::power2::{lemma_pow2_adds, lemma_pow2_pos, lemma2_to64, pow2};
use vstd::prelude::*;

use crate::cmd;
use crate::config;
use crate::doc;
use crate::json::{self, JsonV};
use crate::laws::{captured, settled};
use crate::num;
use crate::ops::daemon::{self, LoopV};
use crate::ops::{CtxV, template};
use crate::pct::{self, GuestConfigV, MountV};
use crate::prompt;
use crate::round;
use crate::size;
use crate::table;
use crate::text::{self, Text};
use crate::world::{self, ActV, CallV, LineV, Shape, StopV, WorldV};

verus! {

// ---------------------------------------------------------------------------
// A guest's config.

/// The last member of an object under a name.
pub open spec fn last_of(m: Seq<(Text, JsonV)>, k: Text) -> Option<JsonV>
    decreases m.len(),
{
    if m.len() == 0 {
        None
    } else if m.last().0 == k {
        Some(m.last().1)
    } else {
        last_of(m.drop_last(), k)
    }
}

/// Whether a member says one, as a number or a text.
pub open spec fn says_one(v: Option<JsonV>) -> bool {
    v matches Some(x) && (x == JsonV::Str("1"@) || (x matches JsonV::Number(n) && num::parsed(
        n,
        u64::MAX as nat,
    ) == Some(1nat)))
}

/// Whether a config is what the members say of it, but for its mounts.
spec fn as_said(c: GuestConfigV, m: Seq<(Text, JsonV)>) -> bool {
    &&& c.hostname == (match last_of(m, "hostname"@) {
        Some(v) => Some(json::shown(v)),
        None => None,
    })
    &&& c.unprivileged == says_one(last_of(m, "unprivileged"@))
    &&& c.is_template == says_one(last_of(m, "template"@))
    &&& c.tags == (match last_of(m, "tags"@) {
        Some(v) => pct::tags_of(json::shown(v)),
        None => Seq::empty(),
    })
    &&& last_of(m, "features"@) is None ==> c.features.len() == 0
}

proof fn lemma_member_keys()
    ensures
        "hostname"@ != "unprivileged"@ && "hostname"@ != "template"@ && "hostname"@ != "tags"@
            && "hostname"@ != "features"@ && "hostname"@ != "rootfs"@,
        "unprivileged"@ != "template"@ && "unprivileged"@ != "tags"@ && "unprivileged"@
            != "features"@ && "unprivileged"@ != "rootfs"@,
        "template"@ != "tags"@ && "template"@ != "features"@ && "template"@ != "rootfs"@,
        "tags"@ != "features"@ && "tags"@ != "rootfs"@ && "features"@ != "rootfs"@,
        !pct::is_mp_key("hostname"@) && !pct::is_mp_key("unprivileged"@) && !pct::is_mp_key(
            "template"@,
        ) && !pct::is_mp_key("tags"@) && !pct::is_mp_key("features"@),
{
    reveal_strlit("hostname");
    reveal_strlit("unprivileged");
    reveal_strlit("template");
    reveal_strlit("tags");
    reveal_strlit("features");
    reveal_strlit("rootfs");
    reveal_strlit("mp");
    assert("hostname"@.len() == 8 && "unprivileged"@.len() == 12 && "template"@.len() == 8
        && "tags"@.len() == 4 && "features"@.len() == 8 && "rootfs"@.len() == 6);
    assert("hostname"@[0] == 'h' && "template"@[0] == 't' && "features"@[0] == 'f'
        && "unprivileged"@[0] == 'u' && "tags"@[0] == 't' && "mp"@[0] == 'm');
    if pct::is_mp_key("hostname"@) {
        assert("hostname"@.subrange(0, 2)[0] == 'm');
    }
    if pct::is_mp_key("unprivileged"@) {
        assert("unprivileged"@.subrange(0, 2)[0] == 'm');
    }
    if pct::is_mp_key("template"@) {
        assert("template"@.subrange(0, 2)[0] == 'm');
    }
    if pct::is_mp_key("tags"@) {
        assert("tags"@.subrange(0, 2)[0] == 'm');
    }
    if pct::is_mp_key("features"@) {
        assert("features"@.subrange(0, 2)[0] == 'm');
    }
}

proof fn lemma_said(vmid: u32, m: Seq<(Text, JsonV)>)
    ensures
        pct::with_members(pct::no_config(vmid), m) matches Ok(c) ==> as_said(c, m) && c.vmid
            == vmid,
    decreases m.len(),
{
    if m.len() > 0 {
        lemma_said(vmid, m.drop_last());
        lemma_member_keys();
    }
}

/// A guest's config is what its members say: the hostname, whether it is
/// unprivileged, whether it is a template, and its tags, each from its own
/// member and off or empty without it.
pub proof fn law_a_config_is_read_by_its_members(
    vmid: u32,
    m: Seq<(Text, JsonV)>,
    s: Text,
    c: GuestConfigV,
)
    requires
        pct::config_of(vmid, JsonV::Dict(m, s)) == Ok::<GuestConfigV, Seq<Text>>(c),
    ensures
        c.vmid == vmid,
        c.hostname == (match last_of(m, "hostname"@) {
            Some(v) => Some(json::shown(v)),
            None => None,
        }),
        c.unprivileged == says_one(last_of(m, "unprivileged"@)),
        c.is_template == says_one(last_of(m, "template"@)),
        c.tags == (match last_of(m, "tags"@) {
            Some(v) => pct::tags_of(json::shown(v)),
            None => Seq::empty(),
        }),
        last_of(m, "features"@) is None ==> c.features.len() == 0,
{
    lemma_said(vmid, m);
}

/// Features are read one by one: a name with a value is set to it, a bare name
/// is on, and nothing else changes.
pub proof fn law_a_feature_is_set(f: Seq<(Text, Text)>, k: Text, v: Text, other: Text)
    requires
        !k.contains('='),
    ensures
        table::lookup(pct::with_feature(f, k + "="@ + v), k) == Some(v),
        table::lookup(pct::with_feature(f, k), k) == Some("1"@),
        other != k ==> table::lookup(pct::with_feature(f, k + "="@ + v), other) == table::lookup(
            f,
            other,
        ) && table::lookup(pct::with_feature(f, k), other) == table::lookup(f, other),
{
    reveal_strlit("=");
    let s = k + "="@ + v;
    assert forall|j: int| 0 <= j < k.len() implies k[j] != '=' by {
        assert(k.contains(k[j]));
    }
    assert forall|j: int| 0 <= j < k.len() implies s[j] != '=' by {
        assert(s[j] == k[j]);
    }
    text::lemma_first_is(s, '=', k.len() as int);
    text::lemma_first_is(k, '=', k.len() as int);
    assert(s.take(k.len() as int) =~= k);
    assert(s.skip(k.len() as int + 1) =~= v);
    table::law_insert_lookup(f, k, v, k);
    table::law_insert_lookup(f, k, v, other);
    table::law_insert_lookup(f, k, "1"@, k);
    table::law_insert_lookup(f, k, "1"@, other);
}

/// A tag is every part between semicolons that has something in it, trimmed,
/// in its order.
pub proof fn law_tags_are_the_parts(p: Seq<Text>, x: Text)
    ensures
        pct::items(Seq::empty()) == Seq::<Text>::empty(),
        pct::items(p.push(x)) == if text::trimmed(x).len() == 0 {
            pct::items(p)
        } else {
            pct::items(p).push(text::trimmed(x))
        },
{
    assert(p.push(x).drop_last() =~= p);
}

/// An option of a mount line sets its own field and no other.
pub proof fn law_a_mount_option_is_set_alone(m: MountV, k: Text, v: Text)
    requires
        !k.contains('='),
    ensures
        k == "mp"@ ==> pct::with_option(m, k + "="@ + v) == Ok::<MountV, Seq<Text>>(
            MountV { mp: Some(v), ..m },
        ),
        k == "backup"@ ==> pct::with_option(m, k + "="@ + v) == Ok::<MountV, Seq<Text>>(
            MountV { backup: v == "1"@, ..m },
        ),
        k == "volume"@ ==> pct::with_option(m, k + "="@ + v) == Ok::<MountV, Seq<Text>>(
            MountV { volume: v, ..m },
        ),
        k == "size"@ ==> (size::parsed(v) matches Ok(n) ==> pct::with_option(m, k + "="@ + v)
            == Ok::<MountV, Seq<Text>>(MountV { size: Some(n), ..m })),
        k != "mp"@ && k != "backup"@ && k != "volume"@ && k != "size"@ ==> pct::with_option(
            m,
            k + "="@ + v,
        ) == Ok::<MountV, Seq<Text>>(MountV { other: table::inserted(m.other, k, v), ..m }),
{
    reveal_strlit("=");
    reveal_strlit("mp");
    reveal_strlit("backup");
    reveal_strlit("volume");
    reveal_strlit("size");
    assert("mp"@.len() == 2 && "backup"@.len() == 6 && "volume"@.len() == 6 && "size"@.len() == 4);
    assert("backup"@[0] == 'b' && "volume"@[0] == 'v');
    let s = k + "="@ + v;
    assert forall|j: int| 0 <= j < k.len() implies s[j] != '=' by {
        assert(k.contains(k[j]));
        assert(s[j] == k[j]);
    }
    text::lemma_first_is(s, '=', k.len() as int);
    assert(s.take(k.len() as int) =~= k);
    assert(s.skip(k.len() as int + 1) =~= v);
}

// ---------------------------------------------------------------------------
// Lists.

/// A guest of the node is listed by its row: it runs where the row says
/// `running`, and is a template where it says so.
pub proof fn law_a_row_lists_its_guest(r: JsonV)
    ensures
        ({
            let l = pct::row_of(r);
            &&& l.running <==> json::get(r, "status"@) == Some(JsonV::Str("running"@))
            &&& l.is_template <==> (json::get(r, "template"@) matches Some(JsonV::Number(n))
                && num::parsed(n, u64::MAX as nat) == Some(1nat))
            &&& json::get(r, "name"@) matches Some(JsonV::Str(s)) ==> l.name == s
            &&& json::get(r, "tags"@) matches Some(JsonV::Str(s)) ==> l.tags == pct::tags_of(s)
            &&& json::get(r, "vmid"@) matches Some(JsonV::Str(s)) ==> (num::parsed(
                s,
                u32::MAX as nat,
            ) matches Some(n) ==> l.vmid == n)
        }),
{
}

/// A storage is offered by its row, unless that says it is not active.
pub proof fn law_a_row_lists_its_storage(r: JsonV, id: Text)
    requires
        json::get(r, "storage"@) == Some(JsonV::Str(id)),
    ensures
        pct::storage_of(r) is None <==> (json::get(r, "active"@) matches Some(JsonV::Number(n))
            && num::parsed(n, u64::MAX as nat) == Some(0nat)),
        pct::storage_of(r) matches Some(s) ==> s.id == id,
{
}

/// The node of a guest is what the list of the cluster says under its vmid.
pub proof fn law_a_guest_is_where_the_list_says(
    v: JsonV,
    vmid: u32,
    ids: JsonV,
    e: JsonV,
    node: Text,
    kind: Text,
)
    requires
        json::get(v, "ids"@) == Some(ids),
        json::get(ids, num::dec(vmid as nat)) == Some(e),
        json::get(e, "node"@) == Some(JsonV::Str(node)),
        json::get(e, "type"@) == Some(JsonV::Str(kind)),
    ensures
        pct::owner_of(v, vmid) == Some((node, kind)),
{
}

// ---------------------------------------------------------------------------
// The template.

/// Whether an action has to do with templates that are not on the node yet.
pub open spec fn fetches(a: ActV) -> bool {
    a matches ActV::Run(c) && c.program == "pveam"@
}

/// A template that was named, with its storage, is taken as it is, and nothing
/// is run; one that was named in part is the newest of the storage that
/// begins like it, and is never fetched.
pub proof fn law_a_named_template_is_not_fetched(
    w: WorldV,
    c: CtxV,
    storage: Text,
    name: Text,
    i: int,
)
    requires
        settled(w),
        w.asked.len() <= i < template::resolve_s(w, c, storage, Some(name)).0.asked.len(),
    ensures
        !fetches(template::resolve_s(w, c, storage, Some(name)).0.asked[i]),
        !text::contains(name, ":vztmpl/"@),
{
    let (w1, r1) = template::arch_s(w);
    reveal_strlit("pveam");
    reveal_strlit("dpkg");
    reveal_strlit("pvesh");
    assert("pveam"@.len() == 5 && "dpkg"@.len() == 4 && "pvesh"@[3] == 's' && "pveam"@[3] == 'a');
    let v = template::resolve_s(w, c, storage, Some(name)).0;
    assert(w1.asked.len() == w.asked.len() + 1);
    if r1 is Ok {
        let path = "/nodes/"@ + c.node + "/storage/"@ + storage + "/content"@;
        let w2 = cmd::pvesh_get_s(w1, path, seq!["--content"@, "vztmpl"@]).0;
        assert(w2.asked.len() == w1.asked.len() + 1);
        assert(v == w2);
        assert(w2.asked[w.asked.len() as int] == w1.asked[w.asked.len() as int]);
    } else {
        assert(v == w1);
    }
}

/// Without a name the newest template of the base on the storage is taken;
/// only where there is none is one fetched, onto that storage, and that one
/// is taken once the download went well.
pub proof fn law_the_base_is_fetched_where_missing(
    w: WorldV,
    c: CtxV,
    storage: Text,
    w1: WorldV,
    newest: Option<Text>,
    t: Text,
)
    requires
        settled(w),
        template::newest_vztmpl_s(w, c, storage, c.config.template.base + "_"@) == (
            w1,
            Ok::<Option<Text>, StopV>(newest),
        ),
        template::resolve_s(w, c, storage, None).1 == Ok::<Text, StopV>(t),
    ensures
        newest matches Some(n) ==> t == n && template::resolve_s(w, c, storage, None).0 == w1,
        newest is None ==> ({
            let v = template::resolve_s(w, c, storage, None).0;
            exists|name: Text|
                t == storage + ":vztmpl/"@ + name && #[trigger] template::fits(
                    name,
                    c.config.template.base + "_"@,
                    text::trimmed(next_said(w1)),
                ) && v.asked.last() == ActV::Run(
                    CallV {
                        program: "pveam"@,
                        args: seq!["download"@, storage, name],
                        within: Some(1800),
                        shape: Shape::Stream,
                    },
                ) && (v.replies[v.pos - 1].result matches Ok(o) && o.status == 0)
        }),
{
    if newest is None {
        let base = c.config.template.base;
        let (w2, r2) = template::arch_s(w1);
        let arch = r2->Ok_0;
        let u2 = w2.note("template: fetching the "@ + base + " template list"@);
        let (w3, r3) = cmd::run_within_s(u2, world::program("pveam"@).arg("update"@), 1800);
        let (w4, r4) = cmd::run_s(
            w3,
            world::program("pveam"@).arg("available"@).arg("--section"@).arg("system"@),
        );
        let lines = text::lines_of(r4->Ok_0.stdout);
        lemma_listed_fits(lines, base + "_"@, arch);
        let name = template::newest_listed(lines, base + "_"@, arch)->0;
        let call = world::program("pveam"@).arg("download"@).arg(storage).arg(name).streamed(
            Some(1800),
        );
        assert(call.args =~= seq!["download"@, storage, name]);
        assert(template::fits(name, base + "_"@, arch));
        assert(arch == text::trimmed(next_said(w1)));
    }
}

/// What the next reply says.
pub open spec fn next_said(w: WorldV) -> Text {
    w.replies[w.pos as int].result->Ok_0.stdout
}

proof fn lemma_listed_fits(l: Seq<Text>, prefix: Text, arch: Text)
    ensures
        template::newest_listed(l, prefix, arch) matches Some(n) ==> template::fits(
            n,
            prefix,
            arch,
        ),
    decreases l.len(),
{
    if l.len() > 0 {
        lemma_listed_fits(l.drop_last(), prefix, arch);
    }
}

/// The template taken from the available ones is listed there, and no other
/// that fits comes after it.
pub proof fn law_the_newest_available_is_taken(l: Seq<Text>, prefix: Text, arch: Text, i: int)
    requires
        0 <= i < l.len(),
        template::words(l[i]).len() > 1,
        template::fits(template::words(l[i])[1], prefix, arch),
    ensures
        template::newest_listed(l, prefix, arch) matches Some(n) && !table::below(
            n,
            template::words(l[i])[1],
        ),
    decreases l.len(),
{
    let f = l.drop_last();
    let x = template::words(l[i])[1];
    let best = template::newest_listed(f, prefix, arch);
    let y = template::words(l.last());
    if i < f.len() {
        assert(f[i] == l[i]);
        law_the_newest_available_is_taken(f, prefix, arch, i);
        if y.len() > 1 && template::fits(y[1], prefix, arch) && !table::below(y[1], best->0) {
            if table::below(y[1], x) {
                table::lemma_below_total(x, best->0);
                if table::below(x, best->0) {
                    table::lemma_below_transitive(y[1], x, best->0);
                }
            }
        }
    } else {
        table::lemma_below_irreflexive(x);
        if best is Some && table::below(x, best->0) {
            table::lemma_below_strict(x, best->0);
        }
    }
}

/// A template fits where its name begins with the prefix and is for the
/// architecture.
pub proof fn law_what_fits(name: Text, prefix: Text, arch: Text)
    ensures
        template::fits(name, prefix, arch) <==> prefix.is_prefix_of(name) && text::contains(
            name,
            "_"@ + arch + "."@,
        ),
{
}

// ---------------------------------------------------------------------------
// A turn of the loop.

/// A full pass is due at the start, and then once as many seconds have passed
/// since the last as are to lie between two.
pub proof fn law_when_a_full_pass_is_due(s: LoopV, now: u64)
    ensures
        s.last_full is None ==> daemon::due(s, now),
        s.last_full matches Some(t) ==> (daemon::due(s, now) <==> now - t >= s.full_every * 1000),
{
    if let Some(t) = s.last_full {
        if t <= now {
            let d = now - t;
            assert(d / 1000 >= s.full_every <==> d >= s.full_every * 1000) by (nonlinear_arith)
                requires
                    d >= 0,
                    s.full_every >= 0,
            ;
        }
    }
}

/// A turn tells the service manager first, then polls the version of the
/// documents.
pub proof fn law_a_turn_polls_first(w: WorldV, s: LoopV)
    requires
        settled(w),
        w.replies.len() == w.pos + 1,
    ensures
        daemon::run_s(w, s).1 == Err::<LoopV, StopV>(
            StopV::Act(
                captured(
                    "pvesh"@,
                    seq!["get"@, "/meta/version"@, "--output-format"@, "json"@],
                    120,
                ),
            ),
        ),
        daemon::run_s(w, s).0.asked[w.asked.len() as int] == (ActV::Notify {
            message: "WATCHDOG=1\n"@,
        }),
{
    let call = cmd::pvesh("/meta/version"@, Seq::empty()).captured(120);
    assert(call.args =~= seq!["get"@, "/meta/version"@, "--output-format"@, "json"@]);
}

/// The choices are read again in every turn, from the file; where they cannot
/// be, the loop goes on with those that it has.
pub proof fn law_choices_are_read_again(w: WorldV, s: LoopV)
    requires
        settled(w),
    ensures
        ({
            let (v, r) = daemon::reread_s(w, s);
            let (y, x) = config::load_from_s(w, "/etc/pve/pve-compose.cfg"@);
            &&& v.asked == w.asked.push(ActV::Read { path: "/etc/pve/pve-compose.cfg"@ })
            &&& x matches Ok(c) ==> (r matches Ok(t) && t.ctx.config == c && t.ctx.node
                == s.ctx.node && t.ctx.tag == s.ctx.tag && t.token == s.token && t.last_full
                == s.last_full && t.interval == s.interval && t.full_every == s.full_every && (c
                == s.ctx.config ==> t.memo == s.memo))
            &&& x matches Err(StopV::Fail(_)) ==> r == Ok::<LoopV, StopV>(s)
        }),
{
}

// ---------------------------------------------------------------------------
// Sizes.

/// A whole number of GiB is written as that number.
pub proof fn law_whole_gib_are_written_whole(n: nat)
    requires
        0 < n < 0x20_0000_0000_0000,
    ensures
        size::gib(n * 1073741824) == num::dec(n),
{
    lemma2_to64();
    round::lemma_exact(n, 30);
    let b = n * 1073741824;
    assert(pow2(30) == 1073741824);
    assert(size::floated(b) == b);
    assert(b % 1073741824 == 0) by (nonlinear_arith)
        requires
            b == n * 1073741824,
    ;
    assert((2 * b + 1073741824) / (2 * 1073741824) == n) by (nonlinear_arith)
        requires
            b == n * 1073741824,
    ;
}

/// The power of 1024 that a unit stands for.
pub open spec fn unit_of_size(u: Text) -> Option<nat> {
    if u == "K"@ || u == "KB"@ || u == "KIB"@ {
        Some(1024)
    } else if u == "M"@ || u == "MB"@ || u == "MIB"@ {
        Some(1048576)
    } else if u == "G"@ || u == "GB"@ || u == "GIB"@ {
        Some(1073741824)
    } else if u == "T"@ || u == "TB"@ || u == "TIB"@ {
        Some(1099511627776)
    } else if u == "B"@ {
        Some(1)
    } else {
        None
    }
}

proof fn lemma_numeric(a: Text, u: Text)
    requires
        text::all_digits(a),
        u.len() > 0 ==> !size::numeric(u[0]),
    ensures
        size::number_len(a + u) == a.len(),
    decreases a.len(),
{
    let s = a + u;
    if a.len() > 0 {
        assert(text::is_digit(a[0]));
        let b = a.skip(1);
        assert(s.skip(1) =~= b + u);
        assert forall|i: int| 0 <= i < b.len() implies text::is_digit(#[trigger] b[i]) by {
            assert(text::is_digit(a[i + 1]));
        }
        lemma_numeric(b, u);
    } else {
        assert(s =~= u);
    }
}

proof fn lemma_unit(u: Text, n: nat) -> (k: nat)
    requires
        unit_of_size(u) == Some(n),
    ensures
        size::unit_power(u) == Some(k),
        pow2(k) == n,
        u.len() > 0,
        !size::numeric(u[0]) && !text::is_space(u[0]) && !text::is_space(u.last()),
        text::uppered(u) == u,
{
    lemma2_to64();
    reveal_strlit("");
    reveal_strlit("B");
    reveal_strlit("K");
    reveal_strlit("KB");
    reveal_strlit("KIB");
    reveal_strlit("M");
    reveal_strlit("MB");
    reveal_strlit("MIB");
    reveal_strlit("G");
    reveal_strlit("GB");
    reveal_strlit("GIB");
    reveal_strlit("T");
    reveal_strlit("TB");
    reveal_strlit("TIB");
    assert(pow2(10) == 1024 && pow2(20) == 1048576 && pow2(30) == 1073741824 && pow2(0) == 1);
    lemma_pow2_adds(20, 20);
    assert(pow2(40) == 1099511627776);
    assert(""@.len() == 0);
    assert("K"@[0] == 'K' && "KB"@[0] == 'K' && "KIB"@[0] == 'K');
    assert("M"@[0] == 'M' && "MB"@[0] == 'M' && "MIB"@[0] == 'M');
    assert("G"@[0] == 'G' && "GB"@[0] == 'G' && "GIB"@[0] == 'G');
    assert("T"@[0] == 'T' && "TB"@[0] == 'T' && "TIB"@[0] == 'T');
    assert("B"@[0] == 'B');
    assert(text::uppered(u) =~= u);
    if n == 1024 {
        10
    } else if n == 1048576 {
        20
    } else if n == 1073741824 {
        30
    } else if n == 1099511627776 {
        40
    } else {
        0
    }
}

/// A whole number with a unit is that many of it, and one without a unit is so
/// many GiB.
pub proof fn law_a_size_is_counted_in_its_unit(v: nat, u: Text, n: nat)
    requires
        0 < v < 0x20_0000_0000_0000,
        unit_of_size(u) == Some(n),
        v * n <= u64::MAX,
    ensures
        size::parsed(num::dec(v) + u) == Ok::<nat, Text>(v * n),
        n == 1073741824 ==> size::parsed(num::dec(v)) == Ok::<nat, Text>(v * n),
{
    let k = lemma_unit(u, n);
    let a = num::dec(v);
    let t = a + u;
    num::law_print_parse(v);
    assert(text::is_digit(a[0]));
    assert(text::is_digit(a[a.len() - 1]));
    assert(t[0] == a[0]);
    assert(t.last() == u.last());
    text::lemma_trimmed(t);
    text::lemma_trimmed(a);
    text::lemma_trimmed(u);
    lemma_numeric(a, u);
    lemma_numeric(a, Seq::empty());
    assert(a + Seq::empty() =~= a);
    assert(size::number_of(t) =~= a);
    assert(size::number_of(a) =~= a);
    assert(size::unit_of(t) =~= u);
    reveal_strlit("G");
    text::lemma_trimmed("G"@);
    assert(text::uppered("G"@) =~= "G"@);
    assert forall|j: int| 0 <= j < a.len() implies a[j] != '.' by {
        assert(text::is_digit(a[j]));
    }
    text::lemma_first_is(a, '.', a.len() as int);
    assert(size::before_point(a) =~= a);
    assert(size::before_point(a) + size::after_point(a) =~= a);
    round::lemma_ten(0);
    round::lemma_exact(v, k);
    assert(v * n > 0) by (nonlinear_arith)
        requires
            v > 0,
            n > 0,
    ;
    lemma_pow2_pos(k);
}

/// The items of a numbered question are printed in their order, each with its
/// number, from one on.
pub proof fn law_items_are_numbered(w: WorldV, items: Seq<Text>)
    ensures
        prompt::listed(w, items).said == w.said + Seq::new(
            items.len(),
            |i: int|
                LineV::Note(
                    "  "@ + prompt::pad_left(num::dec((i + 1) as nat), 2) + ") "@ + items[i],
                ),
        ),
    decreases items.len(),
{
    let f = |i: int|
        LineV::Note("  "@ + prompt::pad_left(num::dec((i + 1) as nat), 2) + ") "@ + items[i]);
    if items.len() > 0 {
        let front = items.drop_last();
        law_items_are_numbered(w, front);
        assert(prompt::listed(w, items).said =~= w.said + Seq::new(items.len(), f));
    } else {
        assert(prompt::listed(w, items).said =~= w.said + Seq::new(items.len(), f));
    }
}

/// A template that is named with its storage is taken as it is.
pub proof fn law_a_full_name_is_taken(w: WorldV, c: CtxV, storage: Text, name: Text)
    requires
        text::contains(name, ":vztmpl/"@),
    ensures
        template::resolve_s(w, c, storage, Some(name)) == (w, Ok::<Text, StopV>(name)),
{
}

/// Two documents have one digest only where they have one hash: its bytes are
/// told apart by their digits.
pub proof fn law_digits_tell_bytes_apart(a: Seq<u8>, b: Seq<u8>)
    requires
        doc::hexed(a) == doc::hexed(b),
    ensures
        a == b,
{
    let x = doc::hexed(a);
    let y = doc::hexed(b);
    assert(x.len() == 2 * a.len() && y.len() == 2 * b.len());
    assert forall|i: int| 0 <= i < a.len() implies a[i] == b[i] by {
        assert(x[2 * i] == y[2 * i]);
        assert(x[2 * i + 1] == y[2 * i + 1]);
        assert((2 * i) / 2 == i && (2 * i + 1) / 2 == i);
        assert((2 * i) % 2 == 0 && (2 * i + 1) % 2 == 1);
        let p = a[i] as nat;
        let q = b[i] as nat;
        assert(x[2 * i] == doc::hex_digit(p / 16));
        assert(y[2 * i] == doc::hex_digit(q / 16));
        assert(x[2 * i + 1] == doc::hex_digit(p % 16));
        assert(y[2 * i + 1] == doc::hex_digit(q % 16));
        assert(doc::hex_digit(p / 16) == doc::hex_digit(q / 16));
        assert(doc::hex_digit(p % 16) == doc::hex_digit(q % 16));
    }
    assert(a =~= b);
}

} // verus!
