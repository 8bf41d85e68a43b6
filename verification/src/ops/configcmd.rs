//! `config`: the persisted choices, shown or changed, without opening the
//! file. Storage is per node; everything else is cluster-wide.

use vstd::prelude::*;

use crate::config::{self, Config, ConfigV, DefaultsV, TemplateV};
use crate::error::{Chain, Error};
use crate::num;
use crate::ops::{Ctx, CtxV};
use crate::prompt;
use crate::size::{self, Size};
use crate::spec;
use crate::table;
use crate::text::{self, Text};
use crate::world::{self, Stop, StopV, World, WorldV};

verus! {

/// The keys, each with what it is for.
pub open spec fn key_table() -> Seq<(Text, Text)> {
    seq![
        ("storage"@, "disk storage for this node (x-pve volumes without one, and `new`)"@),
        ("template-storage"@, "storage holding the base template (cluster-wide)"@),
        ("template-base"@, "upstream template name prefix (cluster-wide)"@),
        ("owner"@, "default uid:gid for volume directories"@),
        ("bridge"@, "bridge for `new`"@),
        ("cores"@, "cores for `new`"@),
        ("memory"@, "memory in MiB for `new`"@),
        ("rootfs-size"@, "rootfs size for `new`"@),
    ]
}

/// The keys, in a line.
pub open spec fn keys_line() -> Text {
    text::joined(key_table().map_values(|e: (Text, Text)| e.0), ", "@)
}

/// The keys with what they are for, a line each.
pub open spec fn help_text() -> Text {
    text::joined(
        key_table().map_values(
            |e: (Text, Text)| "  "@ + prompt::pad_right(e.0, 17) + " "@ + e.1,
        ),
        "\n"@,
    )
}

/// The line of a choice.
pub open spec fn choice_line(key: Text, value: Text, source: Text) -> Text {
    prompt::pad_right(key, 17) + " "@ + prompt::pad_right(value, 24) + " "@ + source
}

/// Where a choice comes from.
pub open spec fn source_of(same: bool) -> Text {
    if same {
        "default"@
    } else {
        "cluster"@
    }
}

/// The lines that show the choices.
pub open spec fn choices(c: CtxV) -> Seq<Text> {
    let d = config::d_config();
    seq![
        "KEY               VALUE                    SOURCE"@,
        match config::storage_for(c.config, c.node) {
            Some(s) => choice_line("storage"@, s, "node "@ + c.node),
            None => choice_line(
                "storage"@,
                "-"@,
                "unset: `new` asks, x-pve disks need a storage"@,
            ),
        },
        match c.config.template.storage {
            Some(s) => choice_line("template-storage"@, s, "cluster"@),
            None => choice_line("template-storage"@, "-"@, "unset: `new` asks"@),
        },
        choice_line(
            "template-base"@,
            c.config.template.base,
            source_of(c.config.template.base == d.template.base),
        ),
        choice_line(
            "owner"@,
            c.config.defaults.owner,
            source_of(c.config.defaults.owner == d.defaults.owner),
        ),
        choice_line(
            "bridge"@,
            c.config.defaults.bridge,
            source_of(c.config.defaults.bridge == d.defaults.bridge),
        ),
        choice_line(
            "cores"@,
            num::dec(c.config.defaults.cores as nat),
            source_of(c.config.defaults.cores == d.defaults.cores),
        ),
        choice_line(
            "memory"@,
            num::dec(c.config.defaults.memory as nat),
            source_of(c.config.defaults.memory == d.defaults.memory),
        ),
        choice_line(
            "rootfs-size"@,
            size::shown(c.config.defaults.rootfs_size),
            source_of(c.config.defaults.rootfs_size == d.defaults.rootfs_size),
        ),
        "\nfile: "@ + config::PATH@,
    ]
}

/// Lines on standard output.
pub open spec fn printed(w: WorldV, l: Seq<Text>) -> WorldV
    decreases l.len(),
{
    if l.len() == 0 {
        w
    } else {
        printed(w, l.drop_last()).out(l.last())
    }
}

/// The choices with one of the defaults changed.
pub open spec fn with_defaults(c: ConfigV, d: DefaultsV) -> ConfigV {
    ConfigV { defaults: d, ..c }
}

/// The choices with one of the template's changed.
pub open spec fn with_template(c: ConfigV, t: TemplateV) -> ConfigV {
    ConfigV { template: t, ..c }
}

/// The message for a key that is none.
pub open spec fn unknown_key(key: Text) -> Text {
    "unknown key '"@ + key + "'; one of: "@ + keys_line()
}

/// The choices with a key set.
pub open spec fn with_key(c: ConfigV, node: Text, key: Text, value: Text) -> Result<
    ConfigV,
    Chain,
> {
    if key == "storage"@ {
        Ok(config::with_storage(c, node, Some(value)))
    } else if key == "template-storage"@ {
        Ok(with_template(c, TemplateV { storage: Some(value), ..c.template }))
    } else if key == "template-base"@ {
        Ok(with_template(c, TemplateV { base: value, ..c.template }))
    } else if key == "owner"@ {
        if spec::owner_ok(value) {
            Ok(with_defaults(c, DefaultsV { owner: value, ..c.defaults }))
        } else {
            Err(seq![spec::owner_error(value)])
        }
    } else if key == "bridge"@ {
        Ok(with_defaults(c, DefaultsV { bridge: value, ..c.defaults }))
    } else if key == "cores"@ {
        match num::parsed(value, u32::MAX as nat) {
            Some(n) => Ok(with_defaults(c, DefaultsV { cores: n as u32, ..c.defaults })),
            None => Err(seq![num::why_not(value, u32::MAX as nat)]),
        }
    } else if key == "memory"@ {
        match num::parsed(value, u64::MAX as nat) {
            Some(n) => Ok(with_defaults(c, DefaultsV { memory: n as u64, ..c.defaults })),
            None => Err(seq![num::why_not(value, u64::MAX as nat)]),
        }
    } else if key == "rootfs-size"@ {
        match size::parsed(value) {
            Ok(n) => Ok(with_defaults(c, DefaultsV { rootfs_size: n, ..c.defaults })),
            Err(m) => Err(seq![m]),
        }
    } else {
        Err(seq![unknown_key(key)])
    }
}

/// The choices with a key back at its default.
pub open spec fn without_key(c: ConfigV, node: Text, key: Text) -> Result<ConfigV, Chain> {
    let d = config::d_config();
    if key == "storage"@ {
        Ok(config::with_storage(c, node, None))
    } else if key == "template-storage"@ {
        Ok(with_template(c, TemplateV { storage: None, ..c.template }))
    } else if key == "template-base"@ {
        Ok(with_template(c, TemplateV { base: d.template.base, ..c.template }))
    } else if key == "owner"@ {
        Ok(with_defaults(c, DefaultsV { owner: d.defaults.owner, ..c.defaults }))
    } else if key == "bridge"@ {
        Ok(with_defaults(c, DefaultsV { bridge: d.defaults.bridge, ..c.defaults }))
    } else if key == "cores"@ {
        Ok(with_defaults(c, DefaultsV { cores: d.defaults.cores, ..c.defaults }))
    } else if key == "memory"@ {
        Ok(with_defaults(c, DefaultsV { memory: d.defaults.memory, ..c.defaults }))
    } else if key == "rootfs-size"@ {
        Ok(with_defaults(c, DefaultsV { rootfs_size: d.defaults.rootfs_size, ..c.defaults }))
    } else {
        Err(seq![unknown_key(key)])
    }
}

/// Changed choices, saved, with what is said of them.
pub open spec fn saved_s(w: WorldV, c: Result<ConfigV, Chain>, line: Text) -> (
    WorldV,
    Result<(), StopV>,
) {
    match c {
        Err(e) => (w, Err(StopV::Fail(e))),
        Ok(c) => match config::save_to_s(c, w, config::PATH@) {
            (w, Err(e)) => (w, Err(e)),
            (w, Ok(_)) => (w.note(line), Ok(())),
        },
    }
}

pub open spec fn set_s(w: WorldV, c: CtxV, key: Text, value: Text) -> (
    WorldV,
    Result<(), StopV>,
) {
    match config::load_from_s(w, config::PATH@) {
        (w, Err(e)) => (w, Err(e)),
        (w, Ok(cfg)) => saved_s(
            w,
            with_key(cfg, c.node, key, value),
            key + " = "@ + value + " ("@ + (if key == "storage"@ {
                c.node
            } else {
                "cluster"@
            }) + ")"@,
        ),
    }
}

pub open spec fn unset_s(w: WorldV, c: CtxV, key: Text) -> (WorldV, Result<(), StopV>) {
    match config::load_from_s(w, config::PATH@) {
        (w, Err(e)) => (w, Err(e)),
        (w, Ok(cfg)) => saved_s(w, without_key(cfg, c.node, key), key + " unset"@),
    }
}

fn choice(key: &str, value: &str, source: &str) -> (r: String)
    ensures
        r@ == choice_line(key@, value@, source@),
{
    text::cat5(
        prompt::right(key, 17).as_str(),
        " ",
        prompt::right(value, 24).as_str(),
        " ",
        source,
    )
}

fn source(same: bool) -> (r: &'static str)
    ensures
        r@ == source_of(same),
{
    if same {
        "default"
    } else {
        "cluster"
    }
}

/// The lines that show the choices.
pub fn choices_of(ctx: &Ctx) -> (r: Vec<String>)
    ensures
        text::views(r@) == choices(ctx@),
{
    let c = &ctx.config;
    let d = Config::default();
    let storage = match c.storage_for(ctx.node.as_str()) {
        Some(s) => choice("storage", s.as_str(), text::cat("node ", ctx.node.as_str()).as_str()),
        None => choice("storage", "-", "unset: `new` asks, x-pve disks need a storage"),
    };
    let template = match &c.template.storage {
        Some(s) => choice("template-storage", s.as_str(), "cluster"),
        None => choice("template-storage", "-", "unset: `new` asks"),
    };
    let base = choice(
        "template-base",
        c.template.base.as_str(),
        source(text::same(c.template.base.as_str(), d.template.base.as_str())),
    );
    let owner = choice(
        "owner",
        c.defaults.owner.as_str(),
        source(text::same(c.defaults.owner.as_str(), d.defaults.owner.as_str())),
    );
    let bridge = choice(
        "bridge",
        c.defaults.bridge.as_str(),
        source(text::same(c.defaults.bridge.as_str(), d.defaults.bridge.as_str())),
    );
    let cores = choice(
        "cores",
        num::print(c.defaults.cores as u64).as_str(),
        source(c.defaults.cores == d.defaults.cores),
    );
    let memory = choice(
        "memory",
        num::print(c.defaults.memory).as_str(),
        source(c.defaults.memory == d.defaults.memory),
    );
    let rootfs = choice(
        "rootfs-size",
        c.defaults.rootfs_size.to_string().as_str(),
        source(c.defaults.rootfs_size.0 == d.defaults.rootfs_size.0),
    );
    let r = vec![
        "KEY               VALUE                    SOURCE".to_owned(),
        storage,
        template,
        base,
        owner,
        bridge,
        cores,
        memory,
        rootfs,
        text::cat("\nfile: ", config::PATH),
    ];
    assert(text::views(r@) =~= choices(ctx@));
    r
}

pub fn show(w: &mut World, ctx: &Ctx) -> (r: Result<(), Stop>)
    ensures
        (final(w)@, world::res(r)) == (printed(old(w)@, choices(ctx@)), Ok::<(), StopV>(())),
{
    let l = choices_of(ctx);
    let ghost all = text::views(l@);
    assert(all.take(0) =~= Seq::empty());
    for i in 0..l.len()
        invariant
            all == text::views(l@),
            w@ == printed(old(w)@, all.take(i as int)),
    {
        assert(all.take(i + 1).drop_last() =~= all.take(i as int));
        assert(all.take(i + 1).last() == l@[i as int]@);
        w.out(l[i].clone());
    }
    assert(all.take(all.len() as int) =~= all);
    Ok(())
}

fn unknown(key: &str) -> (e: Error)
    ensures
        e@ == seq![unknown_key(key@)],
{
    Error::new(text::cat4("unknown key '", key, "'; one of: ", keys().as_str()))
}

/// The choices with a key set.
pub fn with(c: Config, node: &str, key: &str, value: &str) -> (r: Result<Config, Error>)
    ensures
        match r {
            Ok(x) => with_key(c@, node@, key@, value@) == Ok::<ConfigV, Chain>(x@),
            Err(e) => with_key(c@, node@, key@, value@) == Err::<ConfigV, Chain>(e@),
        },
{
    let mut c = c;
    if text::same(key, "storage") {
        c.set_storage_for(node, Some(value.to_owned()));
    } else if text::same(key, "template-storage") {
        c.template.storage = Some(value.to_owned());
    } else if text::same(key, "template-base") {
        c.template.base = value.to_owned();
    } else if text::same(key, "owner") {
        match spec::split_owner(value) {
            Ok(_) => {
                c.defaults.owner = value.to_owned();
            },
            Err(e) => {
                assert(e@ =~= seq![spec::owner_error(value@)]);
                return Err(e);
            },
        }
    } else if text::same(key, "bridge") {
        c.defaults.bridge = value.to_owned();
    } else if text::same(key, "cores") {
        match num::parse(value, u32::MAX as u64) {
            Some(n) => {
                c.defaults.cores = n as u32;
            },
            None => return Err(Error::new(num::parse_error(value, u32::MAX as u64))),
        }
    } else if text::same(key, "memory") {
        match num::parse(value, u64::MAX) {
            Some(n) => {
                c.defaults.memory = n;
            },
            None => return Err(Error::new(num::parse_error(value, u64::MAX))),
        }
    } else if text::same(key, "rootfs-size") {
        match Size::parse(value) {
            Ok(s) => {
                c.defaults.rootfs_size = s;
            },
            Err(e) => return Err(e),
        }
    } else {
        return Err(unknown(key));
    }
    Ok(c)
}

/// The choices with a key back at its default.
pub fn without(c: Config, node: &str, key: &str) -> (r: Result<Config, Error>)
    ensures
        match r {
            Ok(x) => without_key(c@, node@, key@) == Ok::<ConfigV, Chain>(x@),
            Err(e) => without_key(c@, node@, key@) == Err::<ConfigV, Chain>(e@),
        },
{
    let mut c = c;
    let d = Config::default();
    if text::same(key, "storage") {
        c.set_storage_for(node, None);
    } else if text::same(key, "template-storage") {
        c.template.storage = None;
    } else if text::same(key, "template-base") {
        c.template.base = d.template.base;
    } else if text::same(key, "owner") {
        c.defaults.owner = d.defaults.owner;
    } else if text::same(key, "bridge") {
        c.defaults.bridge = d.defaults.bridge;
    } else if text::same(key, "cores") {
        c.defaults.cores = d.defaults.cores;
    } else if text::same(key, "memory") {
        c.defaults.memory = d.defaults.memory;
    } else if text::same(key, "rootfs-size") {
        c.defaults.rootfs_size = d.defaults.rootfs_size;
    } else {
        return Err(unknown(key));
    }
    Ok(c)
}

pub fn set(w: &mut World, ctx: &Ctx, key: &str, value: &str) -> (r: Result<(), Stop>)
    ensures
        (final(w)@, world::res(r)) == set_s(old(w)@, ctx@, key@, value@),
{
    let c = match Config::load(w) {
        Ok(c) => c,
        Err(e) => return Err(e),
    };
    let c = match with(c, ctx.node.as_str(), key, value) {
        Ok(c) => c,
        Err(e) => return Err(Stop::Fail(e)),
    };
    match c.save(w) {
        Ok(_) => {},
        Err(e) => return Err(e),
    }
    let scope = if text::same(key, "storage") {
        ctx.node.as_str()
    } else {
        "cluster"
    };
    w.note(text::cat6(key, " = ", value, " (", scope, ")"));
    Ok(())
}

pub fn unset(w: &mut World, ctx: &Ctx, key: &str) -> (r: Result<(), Stop>)
    ensures
        (final(w)@, world::res(r)) == unset_s(old(w)@, ctx@, key@),
{
    let c = match Config::load(w) {
        Ok(c) => c,
        Err(e) => return Err(e),
    };
    let c = match without(c, ctx.node.as_str(), key) {
        Ok(c) => c,
        Err(e) => return Err(Stop::Fail(e)),
    };
    match c.save(w) {
        Ok(_) => {},
        Err(e) => return Err(e),
    }
    w.note(text::cat(key, " unset"));
    Ok(())
}

fn table() -> (r: Vec<(&'static str, &'static str)>)
    ensures
        r@.map_values(|e: (&'static str, &'static str)| (e.0@, e.1@)) == key_table(),
{
    let r = vec![
        ("storage", "disk storage for this node (x-pve volumes without one, and `new`)"),
        ("template-storage", "storage holding the base template (cluster-wide)"),
        ("template-base", "upstream template name prefix (cluster-wide)"),
        ("owner", "default uid:gid for volume directories"),
        ("bridge", "bridge for `new`"),
        ("cores", "cores for `new`"),
        ("memory", "memory in MiB for `new`"),
        ("rootfs-size", "rootfs size for `new`"),
    ];
    assert(r@.map_values(|e: (&'static str, &'static str)| (e.0@, e.1@)) =~= key_table());
    r
}

/// The keys, in a line.
pub fn keys() -> (r: String)
    ensures
        r@ == keys_line(),
{
    let t = table();
    let ghost all = key_table().map_values(|e: (Text, Text)| e.0);
    let mut names: Vec<String> = Vec::new();
    assert(text::views(names@) =~= all.take(0));
    for i in 0..t.len()
        invariant
            t@.map_values(|e: (&'static str, &'static str)| (e.0@, e.1@)) == key_table(),
            all == key_table().map_values(|e: (Text, Text)| e.0),
            text::views(names@) == all.take(i as int),
    {
        let ghost prior = names@;
        let ghost v = t@.map_values(|e: (&'static str, &'static str)| (e.0@, e.1@));
        assert(v[i as int] == (t@[i as int].0@, t@[i as int].1@));
        names.push(t[i].0.to_owned());
        assert(all.take(i + 1) =~= all.take(i as int).push(all[i as int]));
        assert(text::views(names@) =~= text::views(prior).push(all[i as int]));
    }
    let ghost v = t@.map_values(|e: (&'static str, &'static str)| (e.0@, e.1@));
    assert(v.len() == t@.len());
    assert(all.take(all.len() as int) =~= all);
    text::join(&names, ", ")
}

/// The keys with what they are for, a line each.
pub fn help() -> (r: String)
    ensures
        r@ == help_text(),
{
    let t = table();
    let ghost f = |e: (Text, Text)| "  "@ + prompt::pad_right(e.0, 17) + " "@ + e.1;
    let ghost all = key_table().map_values(f);
    let mut lines: Vec<String> = Vec::new();
    assert(text::views(lines@) =~= all.take(0));
    for i in 0..t.len()
        invariant
            t@.map_values(|e: (&'static str, &'static str)| (e.0@, e.1@)) == key_table(),
            f == (|e: (Text, Text)| "  "@ + prompt::pad_right(e.0, 17) + " "@ + e.1),
            all == key_table().map_values(f),
            text::views(lines@) == all.take(i as int),
    {
        let ghost prior = lines@;
        let ghost v = t@.map_values(|e: (&'static str, &'static str)| (e.0@, e.1@));
        assert(v[i as int] == (t@[i as int].0@, t@[i as int].1@));
        lines.push(text::cat4("  ", prompt::right(t[i].0, 17).as_str(), " ", t[i].1));
        assert(all.take(i + 1) =~= all.take(i as int).push(all[i as int]));
        assert(text::views(lines@) =~= text::views(prior).push(all[i as int]));
    }
    let ghost v = t@.map_values(|e: (&'static str, &'static str)| (e.0@, e.1@));
    assert(v.len() == t@.len());
    assert(all.take(all.len() as int) =~= all);
    text::join(&lines, "\n")
}

// ---------------------------------------------------------------------------
// What holds of it.

/// Unsetting a key forgets what was set: the choices are as if it had been
/// unset right away.
pub proof fn law_unset_forgets(c: ConfigV, node: Text, key: Text, value: Text)
    requires
        table::sorted(c.nodes),
        with_key(c, node, key, value) is Ok,
    ensures
        without_key(with_key(c, node, key, value)->Ok_0, node, key) == without_key(c, node, key),
{
    if key == "storage"@ {
        table::law_remove_undoes_insert(c.nodes, node, Some(value));
    }
}

} // verus!
