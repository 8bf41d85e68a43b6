//! The verbs. Each takes a [`Ctx`] and a guest and does one thing a human
//! could also do by hand with `pct`, `pve-meta` and `docker compose`.

pub mod apply;
pub mod configcmd;
pub mod daemon;
pub mod diff;
pub mod new;
pub mod provision;
pub mod status;
pub mod template;
pub mod upgrade;

use vstd::prelude::*;

use crate::PREFIX;
use crate::cmd;
use crate::config::{self, Config, ConfigV, Limits, LimitsV};
use crate::doc::{self, Read, ReadV};
use crate::error::{self, Chain, Error};
use crate::num;
use crate::pct::{self, GuestConfig, GuestConfigV, Status};
use crate::spec::{self, Volume, VolumeV};
use crate::text::{self, Text};
use crate::world::{self, Act, ActV, MISSING, Stop, StopV, World, WorldV};
use crate::yaml::{self, Yaml};

verus! {

/// What every verb needs: which node this is, the operator's config, and
/// which guests the `compose` prefix reaches.
#[derive(Debug)]
pub struct Ctx {
    pub node: String,
    pub config: Config,
    /// The tag the prefix's selector names, or `None` for `{ all: true }`:
    /// then any guest with a document is managed and no tag is added.
    pub tag: Option<String>,
}

/// What a [`Ctx`] is, as mathematics.
pub struct CtxV {
    pub node: Text,
    pub config: ConfigV,
    pub tag: Option<Text>,
}

impl Clone for Ctx {
    fn clone(&self) -> (r: Ctx)
        ensures
            r@ == self@,
    {
        Ctx {
            node: self.node.clone(),
            config: self.config.clone(),
            tag: text::copy(&self.tag),
        }
    }
}

impl View for Ctx {
    type V = CtxV;

    open spec fn view(&self) -> CtxV {
        CtxV { node: self.node@, config: self.config@, tag: text::opt(self.tag) }
    }
}

// ---------------------------------------------------------------------------
// Which guests the prefix reaches.

/// The selector of a prefix file: the tag it names, or none for all guests.
pub open spec fn selector_of(path: Text, t: Text) -> Result<Option<Text>, Chain> {
    match yaml::yaml_of(t) {
        Err(m) => Err(seq![path + ": not YAML"@, m]),
        Ok(v) => {
            let sel = doc::or_null(yaml::get(v, "selector"@));
            let tag = yaml::get(sel, "tag"@);
            let all = yaml::get(sel, "all"@);
            if tag is Some && yaml::string(tag->0) is Some {
                Ok(yaml::string(tag->0))
            } else if all is Some && doc::flag(all->0) == Some(true) {
                Ok(None)
            } else {
                Err(
                    seq![
                        path + ": selector is neither { tag: <t> } nor { all: true }"@,
                    ],
                )
            }
        },
    }
}

/// The prefix files, the cluster's override first.
pub open spec fn prefix_files() -> Seq<Text> {
    seq![
        "/etc/pve/meta.d/prefixes/"@ + PREFIX@ + ".yaml"@,
        "/usr/share/pve-meta/prefixes/"@ + PREFIX@ + ".yaml"@,
    ]
}

pub open spec fn selector_from_s(w: WorldV, paths: Seq<Text>) -> (
    WorldV,
    Result<Option<Text>, StopV>,
)
    decreases paths.len(),
{
    if paths.len() == 0 {
        (
            w,
            Err(
                world::failed(
                    "no prefix file for `"@ + PREFIX@
                        + "` under /etc/pve/meta.d/prefixes or /usr/share/pve-meta/prefixes (is pve-compose installed correctly?)"@,
                ),
            ),
        )
    } else {
        match w.act(ActV::Read { path: paths[0] }) {
            (w, Err(e)) => (w, Err(world::under("reading "@ + paths[0], e))),
            (w, Ok(o)) => if o.status == MISSING {
                selector_from_s(w, paths.skip(1))
            } else {
                match selector_of(paths[0], o.stdout) {
                    Ok(t) => (w, Ok(t)),
                    Err(c) => (w, Err(StopV::Fail(c))),
                }
            },
        }
    }
}

/// The tag that a prefix file's text selects on, or none for all guests.
pub fn selector(path: &str, t: &str) -> (r: Result<Option<String>, Error>)
    ensures
        match r {
            Ok(o) => selector_of(path@, t@) == Ok::<Option<Text>, Chain>(text::opt(o)),
            Err(e) => selector_of(path@, t@) == Err::<Option<Text>, Chain>(e@),
        },
{
    let v = match yaml::parse(t) {
        Ok(v) => v,
        Err(e) => {
            let ghost m = e@[0];
            let e = e.context(text::cat(path, ": not YAML"));
            assert(e@ =~= seq![path@ + ": not YAML"@, m]);
            return Err(e);
        },
    };
    let null = Yaml::Null;
    let sel = match v.get("selector") {
        Some(s) => s,
        None => &null,
    };
    if let Some(t) = sel.get("tag") {
        if let Some(s) = t.as_str() {
            return Ok(Some(s.clone()));
        }
    }
    if let Some(a) = sel.get("all") {
        if let Some(b) = doc::flag_of(a) {
            if b {
                return Ok(None);
            }
        }
    }
    Err(
        Error::new(
            text::cat(path, ": selector is neither { tag: <t> } nor { all: true }"),
        ),
    )
}

/// The selector of the `compose` prefix, read from the prefix file itself:
/// the cluster override if there is one, else the packaged file. One source,
/// never a second copy in this tool's config, and no API call to get it.
fn selector_tag(w: &mut World) -> (r: Result<Option<String>, Stop>)
    ensures
        (final(w)@, world::res_opt(r)) == selector_from_s(old(w)@, prefix_files()),
{
    let paths = vec![
        text::cat3("/etc/pve/meta.d/prefixes/", PREFIX, ".yaml"),
        text::cat3("/usr/share/pve-meta/prefixes/", PREFIX, ".yaml"),
    ];
    let ghost all = text::views(paths@);
    assert(all =~= prefix_files());
    assert(all.skip(0) =~= all);
    for i in 0..paths.len()
        invariant
            all == text::views(paths@),
            selector_from_s(w@, all.skip(i as int)) == selector_from_s(
                old(w)@,
                prefix_files(),
            ),
    {
        assert(all.skip(i as int)[0] == paths@[i as int]@);
        assert(all.skip(i as int).skip(1) =~= all.skip(i + 1));
        let o = match w.act(Act::Read { path: paths[i].clone() }) {
            Ok(o) => o,
            Err(e) => return Err(e.under(text::cat("reading ", paths[i].as_str()))),
        };
        if o.status != MISSING {
            match selector(paths[i].as_str(), o.stdout.as_str()) {
                Ok(t) => return Ok(t),
                Err(e) => return Err(Stop::Fail(e)),
            }
        }
    }
    Err(
        Stop::fail(
            text::cat3(
                "no prefix file for `",
                PREFIX,
                "` under /etc/pve/meta.d/prefixes or /usr/share/pve-meta/prefixes (is pve-compose installed correctly?)",
            ),
        ),
    )
}

pub open spec fn load_ctx_s(w: WorldV) -> (WorldV, Result<CtxV, StopV>) {
    match cmd::nodename_s(w) {
        (w, Err(e)) => (w, Err(e)),
        (w, Ok(node)) => match config::load_from_s(w, config::PATH@) {
            (w, Err(e)) => (w, Err(e)),
            (w, Ok(config)) => match selector_from_s(w, prefix_files()) {
                (w, Err(e)) => (w, Err(e)),
                (w, Ok(tag)) => (w, Ok(CtxV { node, config, tag })),
            },
        },
    }
}

/// Whether a guest with these tags is one the prefix reaches.
pub open spec fn is_selected(c: CtxV, tags: Seq<Text>) -> bool {
    match c.tag {
        Some(t) => tags.contains(t),
        None => true,
    }
}

/// What a document on this node may ask for.
pub open spec fn limits_of(c: CtxV) -> LimitsV {
    config::limits_for(c.config, c.node)
}

impl Ctx {
    pub fn load(w: &mut World) -> (r: Result<Ctx, Stop>)
        ensures
            (final(w)@, world::res(r)) == load_ctx_s(old(w)@),
    {
        let node = match cmd::nodename(w) {
            Ok(n) => n,
            Err(e) => return Err(e),
        };
        let config = match Config::load(w) {
            Ok(c) => c,
            Err(e) => return Err(e),
        };
        let tag = match selector_tag(w) {
            Ok(t) => t,
            Err(e) => return Err(e),
        };
        Ok(Ctx { node, config, tag })
    }

    /// What a document on this node may ask for (`config::Limits`).
    pub fn limits(&self) -> (r: Limits)
        ensures
            r@ == limits_of(self@),
    {
        self.config.limits_for(self.node.as_str())
    }

    /// Whether a guest with these tags is one the prefix reaches.
    pub fn selected(&self, tags: &Vec<String>) -> (r: bool)
        ensures
            r == is_selected(self@, text::views(tags@)),
    {
        match &self.tag {
            Some(t) => text::among(tags, t.as_str()),
            None => true,
        }
    }
}

// ---------------------------------------------------------------------------
// A guest.

/// A guest with its config and document loaded, the input of most verbs.
#[derive(Debug)]
pub struct Guest {
    pub config: GuestConfig,
    pub read: Read,
    pub volumes: Vec<Volume>,
}

/// What a [`Guest`] is, as mathematics.
pub struct GuestV {
    pub config: GuestConfigV,
    pub read: ReadV,
    pub volumes: Seq<VolumeV>,
}

impl View for Guest {
    type V = GuestV;

    open spec fn view(&self) -> GuestV {
        GuestV {
            config: self.config@,
            read: self.read@,
            volumes: text::views(self.volumes@),
        }
    }
}

/// The compose project name: the hostname made into one.
pub open spec fn project_of(g: GuestV) -> Text {
    match g.config.hostname {
        Some(h) => doc::project_name(h),
        None => "ct"@ + num::dec(g.config.vmid as nat),
    }
}

/// The default owner for volume directories.
pub open spec fn owner_of(g: GuestV, c: CtxV) -> Text {
    match g.read.doc.owner {
        Some(o) => o,
        None => c.config.defaults.owner,
    }
}

/// Every guest has a project name that compose accepts.
pub proof fn law_project_is_valid(g: GuestV)
    ensures
        doc::project_ok(project_of(g)),
{
    match g.config.hostname {
        Some(h) => {
            doc::law_project_name_is_valid(h);
        },
        None => {
            reveal_strlit("ct");
            let d = num::dec(g.config.vmid as nat);
            num::law_print_parse(g.config.vmid as nat);
            let p = "ct"@ + d;
            assert(p[0] == 'c');
            assert forall|i: int| 0 <= i < p.len() implies doc::project_char(#[trigger] p[i]) by {
                if i >= 2 {
                    assert(p[i] == d[i - 2]);
                    assert(text::is_digit(d[i - 2]));
                } else if i == 1 {
                    assert(p[1] == 't');
                }
            }
        },
    }
}

impl Guest {
    pub fn vmid(&self) -> (r: u32)
        ensures
            r == self@.config.vmid,
    {
        self.config.vmid
    }

    /// The compose project name: the hostname made into one.
    pub fn project(&self) -> (r: String)
        ensures
            r@ == project_of(self@),
    {
        match &self.config.hostname {
            Some(h) => doc::project_name_from(h.as_str()),
            None => text::cat("ct", num::print(self.config.vmid as u64).as_str()),
        }
    }

    /// The default owner for volume directories.
    pub fn owner(&self, ctx: &Ctx) -> (r: String)
        ensures
            r@ == owner_of(self@, ctx@),
    {
        match &self.read.doc.stack.owner {
            Some(o) => o.clone(),
            None => ctx.config.defaults.owner.clone(),
        }
    }
}

pub open spec fn load_with_s(w: WorldV, c: CtxV, read: ReadV) -> (WorldV, Result<GuestV, StopV>) {
    match pct::config_s(w, c.node, read.vmid) {
        (w, Err(e)) => (w, Err(e)),
        (w, Ok(config)) => match spec::volumes_of(read.doc.spec, limits_of(c)) {
            Err(e) => (
                w,
                Err(
                    StopV::Fail(
                        error::with("guest "@ + pct::vm(read.vmid) + ": compose.spec"@, e),
                    ),
                ),
            ),
            Ok(volumes) => (w, Ok(GuestV { config, read, volumes })),
        },
    }
}

pub open spec fn load_s(w: WorldV, c: CtxV, vmid: u32) -> (WorldV, Result<GuestV, StopV>) {
    match doc::read_s(w, vmid) {
        (w, Err(e)) => (w, Err(e)),
        (w, Ok(None)) => (
            w,
            Err(
                world::failed(
                    "guest "@ + pct::vm(vmid) + " has no compose document (no `"@ + PREFIX@
                        + "` subtree)"@,
                ),
            ),
        ),
        (w, Ok(Some(read))) => load_with_s(w, c, read),
    }
}

pub open spec fn refresh_config_s(w: WorldV, c: CtxV, g: GuestV) -> (
    WorldV,
    Result<GuestV, StopV>,
) {
    match pct::config_s(w, c.node, g.config.vmid) {
        (w, Err(e)) => (w, Err(e)),
        (w, Ok(config)) => (w, Ok(GuestV { config, ..g })),
    }
}

pub open spec fn require_running_s(w: WorldV, c: CtxV, vmid: u32) -> (
    WorldV,
    Result<(), StopV>,
) {
    match pct::status_s(w, c.node, vmid) {
        (w, Err(e)) => (w, Err(e)),
        (w, Ok(Status::Running)) => (w, Ok(())),
        (w, Ok(Status::Stopped)) => (
            w,
            Err(
                world::failed(
                    "guest "@ + pct::vm(vmid)
                        + " is stopped; pve-compose only acts on running guests (pct start "@
                        + pct::vm(vmid) + ")"@,
                ),
            ),
        ),
        (w, Ok(Status::Other)) => (
            w,
            Err(world::failed("guest "@ + pct::vm(vmid) + " is in an unexpected state"@)),
        ),
    }
}

/// Loads a guest on this node that has a compose document.
pub fn load(w: &mut World, ctx: &Ctx, vmid: u32) -> (r: Result<Guest, Stop>)
    ensures
        (final(w)@, world::res(r)) == load_s(old(w)@, ctx@, vmid),
{
    match doc::read(w, vmid) {
        Ok(Some(read)) => load_with(w, ctx, read),
        Ok(None) => Err(
            Stop::fail(
                text::cat5(
                    "guest ",
                    num::print(vmid as u64).as_str(),
                    " has no compose document (no `",
                    PREFIX,
                    "` subtree)",
                ),
            ),
        ),
        Err(e) => Err(e),
    }
}

/// Loads the config and volumes for a document already read.
pub fn load_with(w: &mut World, ctx: &Ctx, read: Read) -> (r: Result<Guest, Stop>)
    ensures
        (final(w)@, world::res(r)) == load_with_s(old(w)@, ctx@, read@),
{
    let vmid = read.vmid;
    let config = match pct::config(w, ctx.node.as_str(), vmid) {
        Ok(c) => c,
        Err(e) => return Err(e),
    };
    match spec::volumes(&read.doc.spec, &ctx.limits()) {
        Ok(volumes) => Ok(Guest { config, read, volumes }),
        Err(e) => Err(
            Stop::Fail(
                e.context(
                    text::cat3("guest ", num::print(vmid as u64).as_str(), ": compose.spec"),
                ),
            ),
        ),
    }
}

/// The same guest with its PVE config read again: after the pct half changed
/// mounts, the docker half must see them, and the document has not moved.
pub fn refresh_config(w: &mut World, ctx: &Ctx, g: Guest) -> (r: Result<Guest, Stop>)
    ensures
        (final(w)@, world::res(r)) == refresh_config_s(old(w)@, ctx@, g@),
{
    match pct::config(w, ctx.node.as_str(), g.config.vmid) {
        Ok(config) => Ok(Guest { config, read: g.read, volumes: g.volumes }),
        Err(e) => Err(e),
    }
}

/// Fails unless the guest is running. Stopped guests are never touched:
/// start it, then apply.
pub fn require_running(w: &mut World, ctx: &Ctx, vmid: u32) -> (r: Result<(), Stop>)
    ensures
        (final(w)@, world::res(r)) == require_running_s(old(w)@, ctx@, vmid),
{
    let n = num::print(vmid as u64);
    match pct::status(w, ctx.node.as_str(), vmid) {
        Ok(Status::Running) => Ok(()),
        Ok(Status::Stopped) => Err(
            Stop::fail(
                text::cat5(
                    "guest ",
                    n.as_str(),
                    " is stopped; pve-compose only acts on running guests (pct start ",
                    n.as_str(),
                    ")",
                ),
            ),
        ),
        Ok(Status::Other) => Err(
            Stop::fail(text::cat3("guest ", n.as_str(), " is in an unexpected state")),
        ),
        Err(e) => Err(e),
    }
}

} // verus!
