//! What is stored, asked, found and read on the node.

use vstd::prelude::*;

use crate::cli;
use crate::cmd;
use crate::config::{self, ConfigV};
use crate::decode;
use crate::doc;
use crate::laws::guest::lemma_status;
use crate::laws::{captured, settled, sh, went_well};
use crate::num;
use crate::ops::configcmd;
use crate::ops::new::{self, Source};
use crate::ops::{self, CtxV};
use crate::pct::{self, StorageV};
use crate::prompt;
use crate::size;
use crate::spec;
use crate::stack;
use crate::table;
use crate::text::{self, Text};
use crate::world::{ActV, CallV, OutputV, Shape, StopV, WorldV};
use crate::yaml::{self, Tree};

verus! {

// ---------------------------------------------------------------------------
// `config set` and `config unset`.

/// What a choice is, by the key under which it is set.
pub open spec fn choice(c: ConfigV, node: Text, key: Text) -> Option<Text> {
    if key == "storage"@ {
        match table::lookup(c.nodes, node) {
            Some(s) => s,
            None => None,
        }
    } else if key == "template-storage"@ {
        c.template.storage
    } else if key == "template-base"@ {
        Some(c.template.base)
    } else if key == "owner"@ {
        Some(c.defaults.owner)
    } else if key == "bridge"@ {
        Some(c.defaults.bridge)
    } else if key == "cores"@ {
        Some(num::dec(c.defaults.cores as nat))
    } else if key == "memory"@ {
        Some(num::dec(c.defaults.memory as nat))
    } else if key == "rootfs-size"@ {
        Some(size::shown(c.defaults.rootfs_size))
    } else {
        None
    }
}

/// Whether a text is a key of `config set`.
pub open spec fn is_key(key: Text) -> bool {
    key == "storage"@ || key == "template-storage"@ || key == "template-base"@ || key == "owner"@
        || key == "bridge"@ || key == "cores"@ || key == "memory"@ || key == "rootfs-size"@
}

/// Whether a key is that of a number or a size.
pub open spec fn is_counted(key: Text) -> bool {
    key == "cores"@ || key == "memory"@ || key == "rootfs-size"@
}

proof fn lemma_keys()
    ensures
        "storage"@ != "template-storage"@ && "storage"@ != "template-base"@ && "storage"@
            != "owner"@ && "storage"@ != "bridge"@ && "storage"@ != "cores"@ && "storage"@
            != "memory"@ && "storage"@ != "rootfs-size"@,
        "template-storage"@ != "template-base"@ && "template-storage"@ != "owner"@
            && "template-storage"@ != "bridge"@ && "template-storage"@ != "cores"@
            && "template-storage"@ != "memory"@ && "template-storage"@ != "rootfs-size"@,
        "template-base"@ != "owner"@ && "template-base"@ != "bridge"@ && "template-base"@
            != "cores"@ && "template-base"@ != "memory"@ && "template-base"@ != "rootfs-size"@,
        "owner"@ != "bridge"@ && "owner"@ != "cores"@ && "owner"@ != "memory"@ && "owner"@
            != "rootfs-size"@,
        "bridge"@ != "cores"@ && "bridge"@ != "memory"@ && "bridge"@ != "rootfs-size"@,
        "cores"@ != "memory"@ && "cores"@ != "rootfs-size"@ && "memory"@ != "rootfs-size"@,
{
    reveal_strlit("storage");
    reveal_strlit("template-storage");
    reveal_strlit("template-base");
    reveal_strlit("owner");
    reveal_strlit("bridge");
    reveal_strlit("cores");
    reveal_strlit("memory");
    reveal_strlit("rootfs-size");
    assert("storage"@.len() == 7 && "template-storage"@.len() == 16 && "template-base"@.len() == 13
        && "owner"@.len() == 5 && "bridge"@.len() == 6 && "cores"@.len() == 5 && "memory"@.len()
        == 6 && "rootfs-size"@.len() == 11);
    assert("owner"@[0] == 'o' && "cores"@[0] == 'c' && "bridge"@[0] == 'b' && "memory"@[0] == 'm');
}

/// A choice that is set is what it was set to, and no other choice, of this
/// node or another, nor a bound nor an interval, changes.
pub proof fn law_a_choice_is_set_alone(
    c: ConfigV,
    d: ConfigV,
    node: Text,
    key: Text,
    value: Text,
    other: Text,
    elsewhere: Text,
)
    requires
        configcmd::with_key(c, node, key, value) == Ok::<ConfigV, Seq<Text>>(d),
    ensures
        is_key(key),
        !is_counted(key) ==> choice(d, node, key) == Some(value),
        key == "cores"@ ==> num::parsed(value, u32::MAX as nat) == Some(d.defaults.cores as nat),
        key == "memory"@ ==> num::parsed(value, u64::MAX as nat) == Some(d.defaults.memory as nat),
        key == "rootfs-size"@ ==> size::parsed(value) == Ok::<nat, Text>(d.defaults.rootfs_size),
        other != key ==> choice(d, node, other) == choice(c, node, other),
        elsewhere != node ==> table::lookup(d.nodes, elsewhere) == table::lookup(
            c.nodes,
            elsewhere,
        ),
        d.limits == c.limits && d.daemon == c.daemon,
{
    lemma_keys();
    table::law_insert_lookup(c.nodes, node, Some(value), node);
    table::law_insert_lookup(c.nodes, node, Some(value), elsewhere);
}

/// Every key can be set: only an owner that is none, and a number or a size
/// that is none, is refused.
pub proof fn law_what_can_be_set(c: ConfigV, node: Text, key: Text, value: Text)
    ensures
        configcmd::with_key(c, node, key, value) is Ok <==> is_key(key) && (key == "owner"@
            ==> spec::owner_ok(value)) && (key == "cores"@ ==> num::parsed(
            value,
            u32::MAX as nat,
        ) is Some) && (key == "memory"@ ==> num::parsed(value, u64::MAX as nat) is Some) && (key
            == "rootfs-size"@ ==> size::parsed(value) is Ok),
{
    lemma_keys();
}

/// A choice that is unset is the built-in one, if there is one, and no other
/// choice changes.
pub proof fn law_a_choice_is_unset_alone(
    c: ConfigV,
    d: ConfigV,
    node: Text,
    key: Text,
    other: Text,
    elsewhere: Text,
)
    requires
        table::sorted(c.nodes),
        configcmd::without_key(c, node, key) == Ok::<ConfigV, Seq<Text>>(d),
    ensures
        is_key(key),
        key == "storage"@ || key == "template-storage"@ ==> choice(d, node, key) is None,
        key == "template-base"@ ==> d.template.base == "debian-13-standard"@,
        key == "owner"@ ==> d.defaults.owner == "1000:1000"@,
        key == "bridge"@ ==> d.defaults.bridge == "vmbr0"@,
        key == "cores"@ ==> d.defaults.cores == 2,
        key == "memory"@ ==> d.defaults.memory == 2048,
        key == "rootfs-size"@ ==> d.defaults.rootfs_size == 8 * 1073741824,
        other != key ==> choice(d, node, other) == choice(c, node, other),
        elsewhere != node ==> table::lookup(d.nodes, elsewhere) == table::lookup(
            c.nodes,
            elsewhere,
        ),
        d.limits == c.limits && d.daemon == c.daemon,
{
    lemma_keys();
    table::law_remove(c.nodes, node, node);
    table::law_remove(c.nodes, node, elsewhere);
}

/// `config set` reads the file as it is now and replaces it by one that holds
/// the changed choices; nothing is written where the change is refused.
pub proof fn law_set_replaces_the_file(
    w: WorldV,
    c: CtxV,
    key: Text,
    value: Text,
    w1: WorldV,
    old: ConfigV,
)
    requires
        settled(w),
        config::load_from_s(w, "/etc/pve/pve-compose.cfg"@) == (w1, Ok::<ConfigV, StopV>(old)),
    ensures
        ({
            let (v, r) = configcmd::set_s(w, c, key, value);
            &&& w1.asked == w.asked.push(ActV::Read { path: "/etc/pve/pve-compose.cfg"@ })
            &&& match configcmd::with_key(old, c.node, key, value) {
                Err(e) => v.asked == w1.asked && r == Err::<(), StopV>(StopV::Fail(e)),
                Ok(d) => config::file_of(d) matches Ok(t) ==> v.asked == w1.asked.push(
                    ActV::Replace { path: "/etc/pve/pve-compose.cfg"@, text: t },
                ),
            }
        }),
{
}

/// `config unset` does the same with a choice taken back.
pub proof fn law_unset_replaces_the_file(
    w: WorldV,
    c: CtxV,
    key: Text,
    w1: WorldV,
    old: ConfigV,
)
    requires
        settled(w),
        config::load_from_s(w, "/etc/pve/pve-compose.cfg"@) == (w1, Ok::<ConfigV, StopV>(old)),
    ensures
        ({
            let (v, r) = configcmd::unset_s(w, c, key);
            &&& match configcmd::without_key(old, c.node, key) {
                Err(e) => v.asked == w1.asked && r == Err::<(), StopV>(StopV::Fail(e)),
                Ok(d) => config::file_of(d) matches Ok(t) ==> v.asked == w1.asked.push(
                    ActV::Replace { path: "/etc/pve/pve-compose.cfg"@, text: t },
                ),
            }
        }),
{
}

/// The value of a choice as it is shown, or a dash.
pub open spec fn shown_choice(c: ConfigV, node: Text, key: Text) -> Text {
    match choice(c, node, key) {
        Some(v) => v,
        None => "-"@,
    }
}

/// A line of the table of choices.
pub open spec fn choice_row(key: Text, value: Text, source: Text) -> Text {
    prompt::pad_right(key, 17) + " "@ + prompt::pad_right(value, 24) + " "@ + source
}

/// `config` shows every choice in one line that begins with its key and holds
/// its value.
pub proof fn law_every_choice_is_shown(c: CtxV, key: Text)
    requires
        is_key(key),
    ensures
        exists|i: int, source: Text|
            0 <= i < configcmd::choices(c).len() && #[trigger] configcmd::choices(c)[i]
                == #[trigger] choice_row(key, shown_choice(c.config, c.node, key), source),
{
    lemma_keys();
    let l = configcmd::choices(c);
    let d = config::d_config();
    let n = if key == "storage"@ {
        1
    } else if key == "template-storage"@ {
        2
    } else if key == "template-base"@ {
        3
    } else if key == "owner"@ {
        4
    } else if key == "bridge"@ {
        5
    } else if key == "cores"@ {
        6
    } else if key == "memory"@ {
        7
    } else {
        8int
    };
    let source = if key == "storage"@ {
        if choice(c.config, c.node, key) is Some {
            "node "@ + c.node
        } else {
            "unset: `new` asks, x-pve disks need a storage"@
        }
    } else if key == "template-storage"@ {
        if c.config.template.storage is Some {
            "cluster"@
        } else {
            "unset: `new` asks"@
        }
    } else if key == "template-base"@ {
        configcmd::source_of(c.config.template.base == d.template.base)
    } else if key == "owner"@ {
        configcmd::source_of(c.config.defaults.owner == d.defaults.owner)
    } else if key == "bridge"@ {
        configcmd::source_of(c.config.defaults.bridge == d.defaults.bridge)
    } else if key == "cores"@ {
        configcmd::source_of(c.config.defaults.cores == d.defaults.cores)
    } else if key == "memory"@ {
        configcmd::source_of(c.config.defaults.memory == d.defaults.memory)
    } else {
        configcmd::source_of(c.config.defaults.rootfs_size == d.defaults.rootfs_size)
    };
    assert(l[n] == choice_row(key, shown_choice(c.config, c.node, key), source));
}

// ---------------------------------------------------------------------------
// The file of choices.

/// Whether a text is what an entry holds, or the default where there is none.
pub open spec fn holds_text(t: Option<Tree>, default: Text, x: Text) -> bool {
    &&& t is None ==> x == default
    &&& t matches Some(Tree::Str(s)) ==> x == s
}

/// Whether a number is what an entry holds, or the default where there is none.
pub open spec fn holds_number(t: Option<Tree>, default: nat, x: nat) -> bool {
    &&& t is None ==> x == default
    &&& t matches Some(Tree::Number(s)) ==> num::parsed(s, u64::MAX as nat) == Some(x)
}

/// The intervals and the ceiling on disks are read each from its own key.
pub proof fn law_numbers_are_read_by_their_keys(
    t: Tree,
    u: Tree,
    m: Seq<(Tree, Tree)>,
)
    requires
        decode::fields(t, u, seq!["interval"@, "full_every"@]) == Ok::<Seq<(Tree, Tree)>, Text>(m),
    ensures
        config::daemon_of(t, u) matches Ok(d) ==> holds_number(
            yaml::at(m, Tree::Str("interval"@)),
            30,
            d.interval as nat,
        ) && holds_number(yaml::at(m, Tree::Str("full_every"@)), 600, d.full_every as nat),
{
}

/// The defaults for `new` are read each from its own key.
pub proof fn law_defaults_are_read_by_their_keys(t: Tree, u: Tree, m: Seq<(Tree, Tree)>)
    requires
        decode::fields(
            t,
            u,
            seq!["rootfs_size"@, "owner"@, "bridge"@, "cores"@, "memory"@],
        ) == Ok::<Seq<(Tree, Tree)>, Text>(m),
    ensures
        config::defaults_of(t, u) matches Ok(d) ==> {
            &&& holds_text(yaml::at(m, Tree::Str("owner"@)), "1000:1000"@, d.owner)
            &&& holds_text(yaml::at(m, Tree::Str("bridge"@)), "vmbr0"@, d.bridge)
            &&& holds_number(yaml::at(m, Tree::Str("cores"@)), 2, d.cores as nat)
            &&& holds_number(yaml::at(m, Tree::Str("memory"@)), 2048, d.memory as nat)
            &&& yaml::at(m, Tree::Str("rootfs_size"@)) is None ==> d.rootfs_size == 8 * 1073741824
            &&& yaml::at(m, Tree::Str("rootfs_size"@)) matches Some(Tree::Str(s)) ==> size::parsed(s)
                == Ok::<nat, Text>(d.rootfs_size)
        },
{
}

/// The bounds are read each from its own key.
pub proof fn law_bounds_are_read_by_their_keys(t: Tree, u: Tree, m: Seq<(Tree, Tree)>)
    requires
        decode::fields(t, u, seq!["bind_roots"@, "storages"@, "max_disk_gib"@]) == Ok::<
            Seq<(Tree, Tree)>,
            Text,
        >(m),
    ensures
        config::limits_of(t, u) matches Ok(l) ==> {
            &&& holds_number(yaml::at(m, Tree::Str("max_disk_gib"@)), 64, l.max_disk_gib as nat)
            &&& holds_list(yaml::at(m, Tree::Str("bind_roots"@)), l.bind_roots)
            &&& holds_list(yaml::at(m, Tree::Str("storages"@)), l.storages)
        },
{
    lemma_list(yaml::at(m, Tree::Str("bind_roots"@)), decode::beside(t, u, "bind_roots"@));
    lemma_list(yaml::at(m, Tree::Str("storages"@)), decode::beside(t, u, "storages"@));
}

/// Whether texts are what an entry lists, in its order, or none where there is
/// none.
pub open spec fn holds_list(t: Option<Tree>, x: Seq<Text>) -> bool {
    &&& t is None ==> x.len() == 0
    &&& t matches Some(Tree::List(l)) ==> x.len() == l.len() && forall|i: int|
        0 <= i < l.len() ==> ((#[trigger] l[i]) matches Tree::Str(s) ==> x[i] == s)
}

proof fn lemma_scalars(l: Seq<Tree>, n: Seq<Tree>)
    ensures
        decode::scalars(l, n) matches Ok(x) ==> holds_list(Some(Tree::List(l)), x),
    decreases l.len(),
{
    if l.len() > 0 && decode::scalars(l, n) is Ok {
        lemma_scalars(l.drop_last(), n.drop_last());
        let f = l.drop_last();
        let y = decode::scalars(f, n.drop_last())->Ok_0;
        let x = decode::scalars(l, n)->Ok_0;
        assert forall|i: int| 0 <= i < l.len() implies ((#[trigger] l[i]) matches Tree::Str(s)
            ==> x[i] == s) by {
            if i < f.len() {
                assert(f[i] == l[i]);
                assert(x[i] == y[i]);
            }
        }
    }
}

proof fn lemma_list(t: Option<Tree>, u: Tree)
    ensures
        decode::list(t, u) matches Ok(x) ==> holds_list(t, x),
{
    if let Some(Tree::List(l)) = t {
        lemma_scalars(l, decode::twin_items(l, u));
    }
}

/// The template's storage and base are read each from its own key.
pub proof fn law_the_template_is_read_by_its_keys(t: Tree, u: Tree, m: Seq<(Tree, Tree)>)
    requires
        decode::fields(t, u, seq!["storage"@, "base"@]) == Ok::<Seq<(Tree, Tree)>, Text>(m),
    ensures
        config::template_of(t, u) matches Ok(x) ==> {
            &&& holds_text(yaml::at(m, Tree::Str("base"@)), "debian-13-standard"@, x.base)
            &&& yaml::at(m, Tree::Str("storage"@)) is None ==> x.storage is None
            &&& yaml::at(m, Tree::Str("storage"@)) matches Some(Tree::Str(s)) ==> x.storage
                == Some(s)
        },
{
}

// ---------------------------------------------------------------------------
// Questions.

/// A numbered question gives back the item whose number was typed last, and
/// asks until one of them is.
pub proof fn law_the_number_typed_is_taken(w: WorldV, n: nat)
    requires
        settled(w),
    ensures
        ({
            let (v, r) = prompt::answer_s(w, n);
            r matches Ok(i) ==> {
                &&& i < n && v.asked.len() > w.asked.len()
                &&& v.asked.last() == (ActV::Ask { question: "> "@ })
                &&& v.pos == v.asked.len() && v.replies == w.replies && v.pos <= v.replies.len()
                &&& v.replies[v.pos - 1].result matches Ok(o) && num::parsed(
                    text::trimmed(o.stdout),
                    usize::MAX as nat,
                ) == Some(i + 1)
            }
        }),
    decreases w.replies.len() - w.pos,
{
    let (u, x) = prompt::read_line_s(w, "> "@);
    if x is Ok {
        law_the_number_typed_is_taken(u.note("a number from 1 to "@ + num::dec(n)), n);
    }
}

/// A storage that is asked for is one of those that the node listed for the
/// content: the one whose number was typed.
pub proof fn law_the_storage_picked_is_taken(
    w: WorldV,
    c: CtxV,
    content: Text,
    what: Text,
    key: Text,
    w1: WorldV,
    l: Seq<StorageV>,
    s: Text,
    source: Source,
)
    requires
        settled(w),
        pct::storages_s(w, c.node, content) == (w1, Ok::<Seq<StorageV>, StopV>(l)),
        new::settle_storage_s(w, c, None, None, content, what, key).1 == Ok::<
            (Text, Source),
            StopV,
        >((s, source)),
    ensures
        ({
            let v = new::settle_storage_s(w, c, None, None, content, what, key).0;
            source == Source::Asked && v.pos <= v.replies.len() && (v.replies[v.pos
                - 1].result matches Ok(o) && exists|i: int|
                0 <= i < l.len() && (#[trigger] l[i]).id == s && num::parsed(
                    text::trimmed(o.stdout),
                    usize::MAX as nat,
                ) == Some((i + 1) as nat))
        }),
{
    let (w2, r2) = prompt::interactive_s(w1);
    assert(r2 == Ok::<bool, StopV>(true));
    let q = "Which storage for "@ + what + " on "@ + c.node + "?"@;
    let items = new::storage_lines(l);
    lemma_said(w2.note(q), items);
    let u = prompt::listed(w2.note(q), items);
    law_the_number_typed_is_taken(u, items.len());
    let i = prompt::answer_s(u, items.len()).1->Ok_0;
    assert(l[i as int].id == s);
}

proof fn lemma_said(w: WorldV, items: Seq<Text>)
    ensures
        ({
            let v = prompt::listed(w, items);
            v.asked == w.asked && v.replies == w.replies && v.pos == w.pos
        }),
    decreases items.len(),
{
    if items.len() > 0 {
        lemma_said(w, items.drop_last());
    }
}

/// The storages that are offered are those that the node lists as enabled for
/// the content.
pub proof fn law_what_storages_are_offered(w: WorldV, node: Text, content: Text)
    ensures
        pct::storages_s(w, node, content).0.asked == w.asked.push(
            captured(
                "pvesh"@,
                seq![
                    "get"@,
                    "/nodes/"@ + node + "/storage"@,
                    "--content"@,
                    content,
                    "--enabled"@,
                    "1"@,
                    "--output-format"@,
                    "json"@,
                ],
                120,
            ),
        ),
{
    let args = seq!["--content"@, content, "--enabled"@, "1"@];
    let call = cmd::pvesh("/nodes/"@ + node + "/storage"@, args).captured(120);
    assert(call.args =~= seq![
        "get"@,
        "/nodes/"@ + node + "/storage"@,
        "--content"@,
        content,
        "--enabled"@,
        "1"@,
        "--output-format"@,
        "json"@,
    ]);
}

/// An answer is offered for storing only where it was asked for, and stored
/// only on a yes.
pub proof fn law_only_answers_are_offered(w: WorldV, source: Source, q: Text)
    requires
        settled(w),
    ensures
        ({
            let (v, r) = new::store_s(w, source, q);
            &&& source != Source::Asked ==> v == w && r == Ok::<bool, StopV>(false)
            &&& source == Source::Asked ==> v.asked == w.asked.push(
                ActV::Ask { question: q + " ["@ + "Y/n"@ + "] "@ },
            )
            &&& source == Source::Asked ==> (r matches Ok(b) ==> (w.replies[w.pos as int].result
                matches Ok(o) && b == prompt::means_yes(text::trimmed(o.stdout), true)))
        }),
{
}

/// What is stored after the questions is what the file holds then, with the
/// answers that are to be stored, each in its place, and nothing else
/// changed; and that is what the wrapper is made with.
pub proof fn law_answers_are_stored(
    w: WorldV,
    c: CtxV,
    d: new::DecidedV,
    cfg: ConfigV,
    w1: WorldV,
    old: ConfigV,
    elsewhere: Text,
)
    requires
        settled(w),
        d.store_template || d.store_storage,
        config::load_from_s(w, "/etc/pve/pve-compose.cfg"@) == (w1, Ok::<ConfigV, StopV>(old)),
        new::stored_s(w, c, d).1 == Ok::<ConfigV, StopV>(cfg),
    ensures
        config::file_of(cfg) matches Ok(t) && new::stored_s(w, c, d).0.asked == w1.asked.push(
            ActV::Replace { path: "/etc/pve/pve-compose.cfg"@, text: t },
        ),
        cfg.template.storage == (if d.store_template {
            Some(d.template_storage)
        } else {
            old.template.storage
        }),
        table::lookup(cfg.nodes, c.node) == (if d.store_storage {
            Some(Some(d.storage))
        } else {
            table::lookup(old.nodes, c.node)
        }),
        elsewhere != c.node ==> table::lookup(cfg.nodes, elsewhere) == table::lookup(
            old.nodes,
            elsewhere,
        ),
        cfg.template.base == old.template.base,
        cfg.defaults == old.defaults && cfg.limits == old.limits && cfg.daemon == old.daemon,
{
    table::law_insert_lookup(old.nodes, c.node, Some(d.storage), c.node);
    table::law_insert_lookup(old.nodes, c.node, Some(d.storage), elsewhere);
}

// ---------------------------------------------------------------------------
// What a verb begins with.

/// The prefix is the cluster's override where there is one, and the packaged
/// file only where there is none; the tag is the one that it selects on.
pub proof fn law_the_override_comes_first(w: WorldV, o: OutputV)
    requires
        settled(w),
        w.pos < w.replies.len(),
        w.replies[w.pos as int].result == Ok::<OutputV, Seq<Text>>(o),
    ensures
        ({
            let (v, r) = ops::selector_from_s(w, ops::prefix_files());
            let first = ActV::Read { path: "/etc/pve/meta.d/prefixes/compose.yaml"@ };
            &&& v.asked[w.asked.len() as int] == first
            &&& o.status == 2 ==> v.asked == w.asked.push(first).push(
                ActV::Read { path: "/usr/share/pve-meta/prefixes/compose.yaml"@ },
            )
            &&& o.status != 2 ==> v.asked == w.asked.push(first) && (r matches Ok(t)
                ==> ops::selector_of("/etc/pve/meta.d/prefixes/compose.yaml"@, o.stdout) == Ok::<
                Option<Text>,
                Seq<Text>,
            >(t))
        }),
{
    reveal_strlit("/etc/pve/meta.d/prefixes/");
    reveal_strlit("/usr/share/pve-meta/prefixes/");
    reveal_strlit("compose");
    reveal_strlit(".yaml");
    reveal_strlit("/etc/pve/meta.d/prefixes/compose.yaml");
    reveal_strlit("/usr/share/pve-meta/prefixes/compose.yaml");
    let l = ops::prefix_files();
    assert(l[0] =~= "/etc/pve/meta.d/prefixes/compose.yaml"@);
    assert(l[1] =~= "/usr/share/pve-meta/prefixes/compose.yaml"@);
    let m = l.skip(1);
    assert(m[0] == l[1]);
    assert(m.skip(1).len() == 0);
    let w1 = w.act(ActV::Read { path: l[0] }).0;
    if o.status == 2 {
        let w2 = w1.act(ActV::Read { path: m[0] }).0;
        assert(ops::selector_from_s(w1, m).0.asked == w2.asked) by {
            assert(ops::selector_from_s(w2, m.skip(1)).0 == w2);
        }
    }
}

/// A prefix selects on the tag that it names; all guests only where it says
/// `all: true` and names no tag.
pub proof fn law_what_a_prefix_selects(path: Text, t: Text, x: Tree, sel: Tree)
    requires
        yaml::yaml_of(t) == Ok::<Tree, Text>(x),
        yaml::get(x, "selector"@) == Some(sel),
    ensures
        yaml::get(sel, "tag"@) matches Some(Tree::Str(s)) ==> ops::selector_of(path, t) == Ok::<
            Option<Text>,
            Seq<Text>,
        >(Some(s)),
        yaml::get(sel, "tag"@) is None ==> (ops::selector_of(path, t) == Ok::<
            Option<Text>,
            Seq<Text>,
        >(None) <==> (yaml::get(sel, "all"@) matches Some(a) && doc::flag(a) == Some(true))),
{
}

/// A command line about a guest of another node is run there, over the node's
/// own SSH, word for word, with the terminal attached; and nothing else is.
pub proof fn law_what_is_run_elsewhere(
    w: WorldV,
    node: Text,
    vmid: u32,
    argv: Seq<Text>,
    o: OutputV,
)
    requires
        settled(w),
        w.pos < w.replies.len(),
        w.replies[w.pos as int].result == Ok::<OutputV, Seq<Text>>(o),
        o.status == 0,
        cli::ssh_words(o.stdout).len() > 0,
    ensures
        ({
            let v = cli::forward_s(w, node, vmid, argv).0;
            let ssh = cli::ssh_words(o.stdout);
            let i = w.asked.len() as int;
            &&& v.asked.len() == i + 2
            &&& v.asked[i] is Run && v.asked[i]->Run_0.program == "perl"@
                && v.asked[i]->Run_0.args.last() == node
            &&& v.asked[i + 1] == ActV::Run(
                CallV {
                    program: ssh[0],
                    args: ssh.skip(1) + seq!["-t"@, "pve-compose "@ + stack::quoted_all(argv)],
                    within: None,
                    shape: Shape::Tty,
                },
            )
        }),
{
    let ssh = cli::ssh_words(o.stdout);
    let c = cli::remote_call(ssh, argv).attached();
    assert(c.args =~= ssh.skip(1) + seq!["-t"@, "pve-compose "@ + stack::quoted_all(argv)]);
}

/// The wait for a guest ends well only once it answered that it has a route,
/// and gives up only past the deadline.
pub proof fn law_ready_means_a_route(w: WorldV, vmid: u32, secs: u32, deadline: int)
    requires
        settled(w),
    ensures
        ({
            let (v, r) = pct::ready_by_s(w, vmid, secs, deadline);
            &&& r is Ok ==> v.asked.len() > 0 && v.asked.last() == sh(
                vmid,
                "ip route show default 2>/dev/null | grep -q ."@,
            ) && went_well(v, v.asked.len() - 1)
            &&& r matches Err(StopV::Fail(_)) ==> v.now >= deadline
        }),
    decreases w.replies.len() - w.pos,
{
    lemma_status(w, vmid, pct::route_script());
    let (w1, r1) = pct::exec_status_s(w, vmid, pct::route_script());
    if !(r1 matches Err(StopV::Act(_))) {
        let (w2, r2) = w1.act(ActV::Sleep { millis: 2000 });
        if !(r2 matches Err(StopV::Act(_))) {
            law_ready_means_a_route(w2, vmid, secs, deadline);
        }
    }
}

} // verus!
