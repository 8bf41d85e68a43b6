//! `new`: a wrapper from the template, tagged, with an empty document,
//! started, docker installed, applied. The stack is yours to write.
//!
//! Everything it needs to know is settled before it touches anything: a
//! storage for the template and one for the wrapper's disks come from a
//! flag, from the persisted config, or from a question at the terminal, in
//! that order, and a question's answer is offered for persisting. Only then
//! is the guest created.

use vstd::prelude::*;

use crate::PREFIX;
use crate::cmd;
use crate::config::{self, Config, ConfigV};
use crate::doc;
use crate::lock::{self, GuestLock};
use crate::num;
use crate::ops::{self, Ctx, CtxV, apply, template};
use crate::ops::apply::Options;
use crate::pct::{self, Storage, StorageV};
use crate::prompt;
use crate::size::{self, Size};
use crate::stack::{self, Facts, FactsV};
use crate::text::{self, Text};
use crate::world::{self, ActV, Call, CallV, Stop, StopV, World, WorldV};
use crate::yaml;

verus! {

/// How long a started guest has to become ready, in seconds.
pub const READY_WAIT: u32 = 90;

/// Everything `pct create` needs.
#[derive(Debug)]
pub struct WrapperSpec {
    pub vmid: u32,
    pub hostname: String,
    pub template: String,
    pub rootfs_storage: String,
    pub rootfs_size: Size,
    pub unprivileged: bool,
    pub cores: u32,
    pub memory: u64,
    pub net0: String,
    pub features: String,
    pub tags: Vec<String>,
    pub onboot: bool,
}

/// What a [`WrapperSpec`] is, as mathematics.
pub struct WrapperSpecV {
    pub vmid: u32,
    pub hostname: Text,
    pub template: Text,
    pub rootfs_storage: Text,
    pub rootfs_size: nat,
    pub unprivileged: bool,
    pub cores: u32,
    pub memory: u64,
    pub net0: Text,
    pub features: Text,
    pub tags: Seq<Text>,
    pub onboot: bool,
}

impl View for WrapperSpec {
    type V = WrapperSpecV;

    open spec fn view(&self) -> WrapperSpecV {
        WrapperSpecV {
            vmid: self.vmid,
            hostname: self.hostname@,
            template: self.template@,
            rootfs_storage: self.rootfs_storage@,
            rootfs_size: self.rootfs_size@,
            unprivileged: self.unprivileged,
            cores: self.cores,
            memory: self.memory,
            net0: self.net0@,
            features: self.features@,
            tags: text::views(self.tags@),
            onboot: self.onboot,
        }
    }
}

/// `1` or `0`.
pub open spec fn bit(b: bool) -> Text {
    if b {
        "1"@
    } else {
        "0"@
    }
}

/// The call that creates a wrapper.
pub open spec fn create_call(s: WrapperSpecV) -> CallV {
    let tags = text::joined(s.tags, ";"@);
    let c = world::program("pct"@).arg("create"@).arg(pct::vm(s.vmid)).arg(s.template).arg(
        "--hostname"@,
    ).arg(s.hostname).arg("--rootfs"@).arg(
        s.rootfs_storage + ":"@ + size::gib(s.rootfs_size),
    ).arg("--unprivileged"@).arg(bit(s.unprivileged)).arg("--cores"@).arg(
        num::dec(s.cores as nat),
    ).arg("--memory"@).arg(num::dec(s.memory as nat)).arg("--swap"@).arg("0"@).arg(
        "--net0"@,
    ).arg(s.net0).arg("--features"@).arg(s.features).arg("--onboot"@).arg(bit(s.onboot));
    if tags.len() > 0 {
        c.arg("--tags"@).arg(tags)
    } else {
        c
    }
}

fn bit_of(b: bool) -> (r: &'static str)
    ensures
        r@ == bit(b),
{
    if b {
        "1"
    } else {
        "0"
    }
}

/// Creates the wrapper, not started.
pub fn create_wrapper(w: &mut World, s: &WrapperSpec) -> (r: Result<(), Stop>)
    ensures
        (final(w)@, world::res(r)) == pct::quiet_s(old(w)@, create_call(s@)),
{
    let rootfs = text::cat3(
        s.rootfs_storage.as_str(),
        ":",
        s.rootfs_size.to_pct_gib().as_str(),
    );
    let tags = text::join(&s.tags, ";");
    let c = Call::new("pct").arg("create").arg(num::print(s.vmid as u64).as_str()).arg(
        s.template.as_str(),
    ).arg("--hostname").arg(s.hostname.as_str()).arg("--rootfs").arg(rootfs.as_str()).arg(
        "--unprivileged",
    ).arg(bit_of(s.unprivileged)).arg("--cores").arg(num::print(s.cores as u64).as_str()).arg(
        "--memory",
    ).arg(num::print(s.memory).as_str()).arg("--swap").arg("0").arg("--net0").arg(
        s.net0.as_str(),
    ).arg("--features").arg(s.features.as_str()).arg("--onboot").arg(bit_of(s.onboot));
    // Unpacking a template takes minutes on a slow storage.
    if text::empty(tags.as_str()) {
        pct::quiet(w, c)
    } else {
        pct::quiet(w, c.arg("--tags").arg(tags.as_str()))
    }
}

#[derive(Debug)]
pub struct NewArgs {
    pub vmid: u32,
    pub name: String,
    pub template: Option<String>,
    pub storage: Option<String>,
    pub rootfs_size: Option<Size>,
    pub bridge: Option<String>,
    pub ip: Option<String>,
    pub gateway: Option<String>,
    pub cores: Option<u32>,
    pub memory: Option<u64>,
    pub no_up: bool,
}

/// What [`NewArgs`] are, as mathematics.
pub struct NewArgsV {
    pub vmid: u32,
    pub name: Text,
    pub template: Option<Text>,
    pub storage: Option<Text>,
    pub rootfs_size: Option<nat>,
    pub bridge: Option<Text>,
    pub ip: Option<Text>,
    pub gateway: Option<Text>,
    pub cores: Option<u32>,
    pub memory: Option<u64>,
    pub no_up: bool,
}

impl View for NewArgs {
    type V = NewArgsV;

    open spec fn view(&self) -> NewArgsV {
        NewArgsV {
            vmid: self.vmid,
            name: self.name@,
            template: text::opt(self.template),
            storage: text::opt(self.storage),
            rootfs_size: text::opt(self.rootfs_size),
            bridge: text::opt(self.bridge),
            ip: text::opt(self.ip),
            gateway: text::opt(self.gateway),
            cores: self.cores,
            memory: self.memory,
            no_up: self.no_up,
        }
    }
}

/// The document a fresh wrapper gets: the default policy and an empty
/// `spec`, nothing to run until you write the stack.
pub const INITIAL: &'static str =
    "policy:\n  pct: auto\n  docker: auto\n  pull: manual\nspec:\n  services: {}\n";

/// The document a fresh wrapper gets.
pub fn initial_document() -> (r: &'static str)
    ensures
        r@ == INITIAL@,
{
    INITIAL
}

/// Where a settled value came from, for the persist question.
#[derive(Debug, Clone, Copy, PartialEq, Eq, Structural)]
pub enum Source {
    Flag,
    Config,
    Asked,
}

/// The view of a settled storage.
pub open spec fn res_settled(r: Result<(String, Source), Stop>) -> Result<(Text, Source), StopV> {
    match r {
        Ok((s, x)) => Ok((s@, x)),
        Err(e) => Err(e@),
    }
}

/// The line of a storage in the question.
pub open spec fn storage_line(s: StorageV) -> Text {
    prompt::pad_right(s.id, 16) + " "@ + prompt::pad_right(s.kind, 10) + " "@ + prompt::pad_left(
        size::human(s.avail as nat),
        8,
    ) + " free"@ + (if s.shared {
        "  (shared)"@
    } else {
        Seq::empty()
    })
}

/// The lines of the storages in the question.
pub open spec fn storage_lines(l: Seq<StorageV>) -> Seq<Text> {
    l.map_values(|s: StorageV| storage_line(s))
}

/// The names of storages.
pub open spec fn storage_names(l: Seq<StorageV>) -> Seq<Text> {
    l.map_values(|s: StorageV| s.id)
}

/// A storage asked for at the terminal.
pub open spec fn asked_s(w: WorldV, c: CtxV, content: Text, what: Text, key: Text) -> (
    WorldV,
    Result<(Text, Source), StopV>,
) {
    match pct::storages_s(w, c.node, content) {
        (w, Err(e)) => (w, Err(e)),
        (w, Ok(l)) => if l.len() == 0 {
            (
                w,
                Err(
                    world::failed(
                        "no enabled storage on "@ + c.node + " accepts `"@ + content
                            + "` content; allow it on one (Datacenter > Storage > Edit > Content), then run again"@,
                    ),
                ),
            )
        } else {
            match prompt::interactive_s(w) {
                (w, Err(e)) => (w, Err(e)),
                (w, Ok(false)) => (
                    w,
                    Err(
                        world::failed(
                            "no "@ + what
                                + " configured and no terminal to ask on; `pve-compose config set "@
                                + key + " <storage>` (on "@ + c.node + ": "@ + text::joined(
                                storage_names(l),
                                ", "@,
                            ) + ")"@,
                        ),
                    ),
                ),
                (w, Ok(true)) => match prompt::pick_s(
                    w,
                    "Which storage for "@ + what + " on "@ + c.node + "?"@,
                    storage_lines(l),
                ) {
                    (w, Err(e)) => (w, Err(e)),
                    (w, Ok(i)) => (w, Ok((l[i as int].id, Source::Asked))),
                },
            }
        },
    }
}

pub open spec fn settle_storage_s(
    w: WorldV,
    c: CtxV,
    flag: Option<Text>,
    configured: Option<Text>,
    content: Text,
    what: Text,
    key: Text,
) -> (WorldV, Result<(Text, Source), StopV>) {
    match (flag, configured) {
        (Some(s), _) => (w, Ok((s, Source::Flag))),
        (None, Some(s)) => (w, Ok((s, Source::Config))),
        (None, None) => asked_s(w, c, content, what, key),
    }
}

/// A storage comes from the flag, then from the stored choice, and is asked
/// for only where there is neither.
pub proof fn law_storage_order(
    w: WorldV,
    c: CtxV,
    flag: Option<Text>,
    configured: Option<Text>,
    content: Text,
    what: Text,
    key: Text,
)
    ensures
        ({
            let (v, r) = settle_storage_s(w, c, flag, configured, content, what, key);
            &&& flag matches Some(s) ==> v == w && r == Ok::<(Text, Source), StopV>(
                (s, Source::Flag),
            )
            &&& (flag is None && configured matches Some(s)) ==> v == w && r == Ok::<
                (Text, Source),
                StopV,
            >((configured->0, Source::Config))
            &&& r matches Ok(x) ==> (x.1 == Source::Asked <==> flag is None && configured is None)
        }),
{
}

fn describe(s: &Storage) -> (r: String)
    ensures
        r@ == storage_line(s@),
{
    proof {
        reveal_strlit("");
        assert(""@ =~= Seq::<char>::empty());
    }
    text::cat7(
        prompt::right(s.id.as_str(), 16).as_str(),
        " ",
        prompt::right(s.kind.as_str(), 10).as_str(),
        " ",
        prompt::left(Size(s.avail).human().as_str(), 8).as_str(),
        " free",
        if s.shared {
            "  (shared)"
        } else {
            ""
        },
    )
}

fn describe_all(l: &Vec<Storage>) -> (r: Vec<String>)
    ensures
        text::views(r@) == storage_lines(text::views(l@)),
{
    let mut out: Vec<String> = Vec::new();
    let ghost all = storage_lines(text::views(l@));
    assert(text::views(out@) =~= all.take(0));
    for i in 0..l.len()
        invariant
            all == storage_lines(text::views(l@)),
            text::views(out@) == all.take(i as int),
    {
        let ghost prior = out@;
        assert(text::views(l@)[i as int] == l@[i as int]@);
        out.push(describe(&l[i]));
        assert(all.take(i + 1) =~= all.take(i as int).push(all[i as int]));
        assert(text::views(out@) =~= text::views(prior).push(all[i as int]));
    }
    assert(all.take(all.len() as int) =~= all);
    out
}

fn names(l: &Vec<Storage>) -> (r: Vec<String>)
    ensures
        text::views(r@) == storage_names(text::views(l@)),
{
    let mut out: Vec<String> = Vec::new();
    let ghost all = storage_names(text::views(l@));
    assert(text::views(out@) =~= all.take(0));
    for i in 0..l.len()
        invariant
            all == storage_names(text::views(l@)),
            text::views(out@) == all.take(i as int),
    {
        let ghost prior = out@;
        assert(text::views(l@)[i as int] == l@[i as int]@);
        out.push(l[i].id.clone());
        assert(all.take(i + 1) =~= all.take(i as int).push(all[i as int]));
        assert(text::views(out@) =~= text::views(prior).push(all[i as int]));
    }
    assert(all.take(all.len() as int) =~= all);
    out
}

/// A storage settled from a flag, the config, or a question. `content` is
/// what it must accept (`rootdir` or `vztmpl`); `what` names it to the user.
pub fn settle_storage(
    w: &mut World,
    ctx: &Ctx,
    flag: Option<String>,
    configured: Option<String>,
    content: &str,
    what: &str,
    config_key: &str,
) -> (r: Result<(String, Source), Stop>)
    ensures
        (final(w)@, res_settled(r)) == settle_storage_s(
            old(w)@,
            ctx@,
            text::opt(flag),
            text::opt(configured),
            content@,
            what@,
            config_key@,
        ),
{
    if let Some(s) = flag {
        return Ok((s, Source::Flag));
    }
    if let Some(s) = configured {
        return Ok((s, Source::Config));
    }
    let node = ctx.node.as_str();
    let candidates = match pct::storages(w, node, content) {
        Ok(l) => l,
        Err(e) => return Err(e),
    };
    if candidates.len() == 0 {
        return Err(
            Stop::fail(
                text::cat5(
                    "no enabled storage on ",
                    node,
                    " accepts `",
                    content,
                    "` content; allow it on one (Datacenter > Storage > Edit > Content), then run again",
                ),
            ),
        );
    }
    match prompt::interactive(w) {
        Ok(true) => {},
        Ok(false) => return Err(
            Stop::fail(
                text::cat9(
                    "no ",
                    what,
                    " configured and no terminal to ask on; `pve-compose config set ",
                    config_key,
                    " <storage>` (on ",
                    node,
                    ": ",
                    text::join(&names(&candidates), ", ").as_str(),
                    ")",
                ),
            ),
        ),
        Err(e) => return Err(e),
    }
    let question = text::cat5("Which storage for ", what, " on ", node, "?");
    let lines = describe_all(&candidates);
    match prompt::pick(w, question.as_str(), &lines) {
        Ok(i) => {
            assert(text::views(lines@).len() == candidates@.len());
            assert(text::views(candidates@)[i as int] == candidates@[i as int]@);
            Ok((candidates[i].id.clone(), Source::Asked))
        },
        Err(e) => Err(e),
    }
}

// ---------------------------------------------------------------------------
// Everything to decide, decided; nothing touched yet.

/// What was decided: the two storages, and which of them are to be stored.
pub struct DecidedV {
    pub template_storage: Text,
    pub storage: Text,
    pub store_template: bool,
    pub store_storage: bool,
}

#[derive(Debug)]
pub struct Decided {
    pub template_storage: String,
    pub storage: String,
    pub store_template: bool,
    pub store_storage: bool,
}

impl View for Decided {
    type V = DecidedV;

    open spec fn view(&self) -> DecidedV {
        DecidedV {
            template_storage: self.template_storage@,
            storage: self.storage@,
            store_template: self.store_template,
            store_storage: self.store_storage,
        }
    }
}

/// That the vmid is free and without a document.
pub open spec fn free_s(w: WorldV, vmid: u32) -> (WorldV, Result<(), StopV>) {
    match pct::owner_node_s(w, vmid) {
        (w, Err(e)) => (w, Err(e)),
        (w, Ok(Some(_))) => (
            w,
            Err(world::failed("vmid "@ + pct::vm(vmid) + " is already in use"@)),
        ),
        (w, Ok(None)) => match doc::read_s(w, vmid) {
            (w, Err(e)) => (w, Err(e)),
            (w, Ok(Some(_))) => (
                w,
                Err(
                    world::failed(
                        "vmid "@ + pct::vm(vmid) + " already has a document (`"@ + PREFIX@
                            + "` subtree)"@,
                    ),
                ),
            ),
            (w, Ok(None)) => (w, Ok(())),
        },
    }
}

/// The storage of the template.
pub open spec fn template_storage_s(w: WorldV, c: CtxV, explicit: Option<Text>) -> (
    WorldV,
    Result<(Text, Source), StopV>,
) {
    match explicit {
        Some(v) => if template::is_volid(v) {
            (w, Ok((v.take(text::first(v, ':') as int), Source::Flag)))
        } else {
            settle_storage_s(
                w,
                c,
                None,
                c.config.template.storage,
                "vztmpl"@,
                "templates"@,
                "template-storage"@,
            )
        },
        None => settle_storage_s(
            w,
            c,
            None,
            c.config.template.storage,
            "vztmpl"@,
            "templates"@,
            "template-storage"@,
        ),
    }
}

/// A yes/no question on an answer: only what was asked for is offered.
pub open spec fn store_s(w: WorldV, source: Source, question: Text) -> (
    WorldV,
    Result<bool, StopV>,
) {
    if source == Source::Asked {
        prompt::yes_no_s(w, question, true)
    } else {
        (w, Ok(false))
    }
}

pub open spec fn store_template_question(s: Text) -> Text {
    "Store "@ + s + " as the template storage for the cluster?"@
}

pub open spec fn store_storage_question(s: Text, node: Text) -> Text {
    "Store "@ + s + " as the disk storage for "@ + node + "?"@
}

/// The questions on what to store.
pub open spec fn stores_s(w: WorldV, c: CtxV, t: (Text, Source), d: (Text, Source)) -> (
    WorldV,
    Result<DecidedV, StopV>,
) {
    match store_s(w, t.1, store_template_question(t.0)) {
        (w, Err(e)) => (w, Err(e)),
        (w, Ok(store_template)) => match store_s(
            w,
            d.1,
            store_storage_question(d.0, c.node),
        ) {
            (w, Err(e)) => (w, Err(e)),
            (w, Ok(store_storage)) => (
                w,
                Ok(
                    DecidedV {
                        template_storage: t.0,
                        storage: d.0,
                        store_template,
                        store_storage,
                    },
                ),
            ),
        },
    }
}

pub open spec fn decided_s(w: WorldV, c: CtxV, a: NewArgsV) -> (WorldV, Result<DecidedV, StopV>) {
    match free_s(w, a.vmid) {
        (w, Err(e)) => (w, Err(e)),
        (w, Ok(_)) => match template_storage_s(w, c, a.template) {
            (w, Err(e)) => (w, Err(e)),
            (w, Ok(t)) => match settle_storage_s(
                w,
                c,
                a.storage,
                config::storage_for(c.config, c.node),
                "rootdir"@,
                "container disks"@,
                "storage"@,
            ) {
                (w, Err(e)) => (w, Err(e)),
                (w, Ok(d)) => stores_s(w, c, t, d),
            },
        },
    }
}

fn free(w: &mut World, vmid: u32) -> (r: Result<(), Stop>)
    ensures
        (final(w)@, world::res(r)) == free_s(old(w)@, vmid),
{
    let n = num::print(vmid as u64);
    match pct::owner_node(w, vmid) {
        Ok(Some(_)) => return Err(
            Stop::fail(text::cat3("vmid ", n.as_str(), " is already in use")),
        ),
        Ok(None) => {},
        Err(e) => return Err(e),
    }
    match doc::read(w, vmid) {
        Ok(Some(_)) => Err(
            Stop::fail(
                text::cat5("vmid ", n.as_str(), " already has a document (`", PREFIX, "` subtree)"),
            ),
        ),
        Ok(None) => Ok(()),
        Err(e) => Err(e),
    }
}

fn template_storage(w: &mut World, ctx: &Ctx, explicit: &Option<String>) -> (r: Result<
    (String, Source),
    Stop,
>)
    ensures
        (final(w)@, res_settled(r)) == template_storage_s(old(w)@, ctx@, text::opt(*explicit)),
{
    if let Some(v) = explicit {
        if text::has(v.as_str(), ":vztmpl/") {
            let cs = text::chars(v.as_str());
            let i = text::find(&cs, ':');
            return Ok((text::part(&cs, 0, i), Source::Flag));
        }
    }
    settle_storage(
        w,
        ctx,
        None,
        text::copy(&ctx.config.template.storage),
        "vztmpl",
        "templates",
        "template-storage",
    )
}

fn store(w: &mut World, source: Source, question: &str) -> (r: Result<bool, Stop>)
    ensures
        (final(w)@, world::res(r)) == store_s(old(w)@, source, question@),
{
    if source == Source::Asked {
        prompt::yes_no(w, question, true)
    } else {
        Ok(false)
    }
}

/// Settles the two storages and what to store, asking where it must; fails
/// for a vmid that is in use or has a document.
pub fn decide(w: &mut World, ctx: &Ctx, a: &NewArgs) -> (r: Result<Decided, Stop>)
    ensures
        (final(w)@, world::res(r)) == decided_s(old(w)@, ctx@, a@),
{
    match free(w, a.vmid) {
        Ok(_) => {},
        Err(e) => return Err(e),
    }
    let (template_storage, template_source) = match template_storage(w, ctx, &a.template) {
        Ok(t) => t,
        Err(e) => return Err(e),
    };
    let (storage, storage_source) = match settle_storage(
        w,
        ctx,
        text::copy(&a.storage),
        ctx.config.storage_for(ctx.node.as_str()),
        "rootdir",
        "container disks",
        "storage",
    ) {
        Ok(d) => d,
        Err(e) => return Err(e),
    };
    let q = text::cat3(
        "Store ",
        template_storage.as_str(),
        " as the template storage for the cluster?",
    );
    let store_template = match store(w, template_source, q.as_str()) {
        Ok(b) => b,
        Err(e) => return Err(e),
    };
    let q = text::cat5(
        "Store ",
        storage.as_str(),
        " as the disk storage for ",
        ctx.node.as_str(),
        "?",
    );
    let store_storage = match store(w, storage_source, q.as_str()) {
        Ok(b) => b,
        Err(e) => return Err(e),
    };
    Ok(Decided { template_storage, storage, store_template, store_storage })
}

// ---------------------------------------------------------------------------
// The guest.

/// The config after the answers were stored. They are applied to the file as
/// it is now, not as it was loaded before the questions: another node may
/// have written it meanwhile.
pub open spec fn stored_s(w: WorldV, c: CtxV, d: DecidedV) -> (WorldV, Result<ConfigV, StopV>) {
    if d.store_template || d.store_storage {
        match config::update_s(
            w,
            |x: ConfigV|
                config::with_answers(
                    x,
                    if d.store_template {
                        Some(d.template_storage)
                    } else {
                        None
                    },
                    c.node,
                    if d.store_storage {
                        Some(d.storage)
                    } else {
                        None
                    },
                ),
        ) {
            (w, Err(e)) => (w, Err(e)),
            (w, Ok(cfg)) => (w.note("new: stored in "@ + config::PATH@), Ok(cfg)),
        }
    } else {
        (w, Ok(c.config))
    }
}

/// The network line.
pub open spec fn net0_of(cfg: ConfigV, a: NewArgsV) -> Text {
    "name=eth0,bridge="@ + a.bridge.unwrap_or(cfg.defaults.bridge) + ",ip="@ + a.ip.unwrap_or(
        "dhcp"@,
    ) + (match a.gateway {
        Some(g) => ",gw="@ + g,
        None => Seq::empty(),
    })
}

/// What the wrapper is made of.
pub open spec fn wrapper_of(
    c: CtxV,
    cfg: ConfigV,
    a: NewArgsV,
    storage: Text,
    template: Text,
) -> WrapperSpecV {
    WrapperSpecV {
        vmid: a.vmid,
        hostname: a.name,
        template,
        rootfs_storage: storage,
        rootfs_size: a.rootfs_size.unwrap_or(cfg.defaults.rootfs_size),
        unprivileged: true,
        cores: a.cores.unwrap_or(cfg.defaults.cores),
        memory: a.memory.unwrap_or(cfg.defaults.memory),
        net0: net0_of(cfg, a),
        features: "nesting=1,keyctl=1"@,
        tags: match c.tag {
            Some(t) => seq![t],
            None => Seq::empty(),
        },
        onboot: true,
    }
}

/// The facts with the template that the wrapper came from.
pub open spec fn template_facts_s(w: WorldV, vmid: u32, template: Text) -> (
    WorldV,
    Result<(), StopV>,
) {
    match stack::read_facts_s(w, vmid) {
        (w, Err(e)) => (w, Err(e)),
        (w, Ok(f)) => stack::write_facts_s(
            w,
            vmid,
            FactsV {
                template: Some(template),
                ..match f {
                    Some(f) => f,
                    None => stack::no_facts(),
                }
            },
        ),
    }
}

/// What `new` says in the end.
pub open spec fn done_line(vmid: u32, no_up: bool) -> Text {
    "new: done; write the stack into "@ + pct::vm(vmid)
        + "'s `compose.spec` (Metadata tab, or pve-meta set "@ + pct::vm(vmid)
        + " compose.spec), data under /opt/stack/volumes/, secrets in /opt/stack/.env"@ + (
    if no_up {
        ", then `pve-compose docker apply "@ + pct::vm(vmid) + "`"@
    } else {
        Seq::empty()
    })
}

/// A wrapper that was created, started and applied, under its lock.
pub open spec fn started_s(w: WorldV, c: CtxV, a: NewArgsV, template: Text) -> (
    WorldV,
    Result<(), StopV>,
) {
    match pct::start_s(w, a.vmid) {
        (w, Err(e)) => (w, Err(e)),
        (w, Ok(_)) => match pct::wait_ready_s(w, a.vmid, READY_WAIT) {
            (w, Err(e)) => (w, Err(e)),
            (w, Ok(_)) => match apply::apply_locked_s(
                w.note("new: "@ + pct::vm(a.vmid) + " is up"@),
                c,
                a.vmid,
                Options { pull: false, no_up: a.no_up, only_if_up: false },
            ) {
                (w, Err(e)) => (w, Err(e)),
                (w, Ok(_)) => match template_facts_s(w, a.vmid, template) {
                    (w, Err(e)) => (w, Err(e)),
                    (w, Ok(_)) => ops::require_running_s(
                        w.note(done_line(a.vmid, a.no_up)),
                        c,
                        a.vmid,
                    ),
                },
            },
        },
    }
}

/// A wrapper created, with its document.
pub open spec fn created_s(w: WorldV, s: WrapperSpecV) -> (WorldV, Result<(), StopV>) {
    match pct::quiet_s(
        w.note(
            "new: creating "@ + pct::vm(s.vmid) + " ("@ + s.hostname + ") from "@ + s.template,
        ),
        create_call(s),
    ) {
        (w, Err(e)) => (w, Err(e)),
        (w, Ok(_)) => match doc::write_prefix_s(w, s.vmid, PREFIX@, INITIAL@) {
            (w, Err(e)) => (w, Err(e)),
            (w, Ok(_)) => (w.note("new: document written"@), Ok(())),
        },
    }
}

/// A wrapper created, and brought up under its lock.
pub open spec fn wrapped_s(w: WorldV, c: CtxV, a: NewArgsV, s: WrapperSpecV) -> (
    WorldV,
    Result<(), StopV>,
) {
    match created_s(w, s) {
        (w, Err(e)) => (w, Err(e)),
        (w, Ok(_)) => match lock::take_s(w, a.vmid, apply::LOCK_WAIT) {
            (w, Err(e)) => (w, Err(e)),
            (w, Ok(_)) => lock::released(started_s(w, c, a, s.template), a.vmid),
        },
    }
}

/// What follows the decisions.
pub open spec fn made_s(w: WorldV, c: CtxV, a: NewArgsV, d: DecidedV) -> (
    WorldV,
    Result<(), StopV>,
) {
    match stored_s(w, c, d) {
        (w, Err(e)) => (w, Err(e)),
        (w, Ok(cfg)) => match template::resolve_s(w, c, d.template_storage, a.template) {
            (w, Err(e)) => (w, Err(e)),
            (w, Ok(template)) => wrapped_s(w, c, a, wrapper_of(c, cfg, a, d.storage, template)),
        },
    }
}

pub open spec fn new_s(w: WorldV, c: CtxV, a: NewArgsV) -> (WorldV, Result<(), StopV>) {
    match decided_s(w, c, a) {
        (w, Err(e)) => (w, Err(e)),
        (w, Ok(d)) => made_s(w, c, a, d),
    }
}

fn keep(w: &mut World, ctx: &Ctx, d: &Decided) -> (r: Result<Config, Stop>)
    ensures
        (final(w)@, world::res(r)) == stored_s(old(w)@, ctx@, d@),
{
    if d.store_template || d.store_storage {
        let t = if d.store_template {
            Some(d.template_storage.as_str())
        } else {
            None
        };
        let s = if d.store_storage {
            Some(d.storage.as_str())
        } else {
            None
        };
        let node = ctx.node.as_str();
        let change = |c: &mut Config|
            ensures
                final(c)@ == config::with_answers(old(c)@, text::opt(t), node@, text::opt(s)),
            { c.answer(t, node, s) };
        match Config::update(w, change) {
            Ok(c) => {
                w.note(text::cat("new: stored in ", config::PATH));
                Ok(c)
            },
            Err(e) => Err(e),
        }
    } else {
        Ok(ctx.config.clone())
    }
}

fn or_else(o: &Option<String>, default: &str) -> (r: String)
    ensures
        r@ == text::opt(*o).unwrap_or(default@),
{
    match o {
        Some(s) => s.clone(),
        None => default.to_owned(),
    }
}

fn wrapper(ctx: &Ctx, cfg: &Config, a: &NewArgs, storage: &str, template: &str) -> (r: WrapperSpec)
    ensures
        r@ == wrapper_of(ctx@, cfg@, a@, storage@, template@),
{
    let gateway = match &a.gateway {
        Some(g) => text::cat(",gw=", g.as_str()),
        None => {
            let s = String::new();
            assert(s@ =~= Seq::<char>::empty());
            s
        },
    };
    let net0 = text::cat5(
        "name=eth0,bridge=",
        or_else(&a.bridge, cfg.defaults.bridge.as_str()).as_str(),
        ",ip=",
        or_else(&a.ip, "dhcp").as_str(),
        gateway.as_str(),
    );
    let mut tags: Vec<String> = Vec::new();
    assert(text::views(tags@) =~= Seq::empty());
    if let Some(t) = &ctx.tag {
        tags.push(t.clone());
        assert(text::views(tags@) =~= seq![t@]);
    }
    WrapperSpec {
        vmid: a.vmid,
        hostname: a.name.clone(),
        template: template.to_owned(),
        rootfs_storage: storage.to_owned(),
        rootfs_size: match a.rootfs_size {
            Some(s) => s,
            None => cfg.defaults.rootfs_size,
        },
        unprivileged: true,
        cores: match a.cores {
            Some(n) => n,
            None => cfg.defaults.cores,
        },
        memory: match a.memory {
            Some(n) => n,
            None => cfg.defaults.memory,
        },
        net0,
        features: "nesting=1,keyctl=1".to_owned(),
        tags,
        onboot: true,
    }
}

fn note_template(w: &mut World, vmid: u32, template: &str) -> (r: Result<(), Stop>)
    ensures
        (final(w)@, world::res(r)) == template_facts_s(old(w)@, vmid, template@),
{
    let f = match stack::read_facts(w, vmid) {
        Ok(Some(f)) => f,
        Ok(None) => Facts::default(),
        Err(e) => return Err(e),
    };
    stack::write_facts(
        w,
        vmid,
        &Facts { digest: f.digest, template: Some(template.to_owned()), applied_at: f.applied_at, by: f.by },
    )
}

fn create(w: &mut World, s: &WrapperSpec) -> (r: Result<(), Stop>)
    ensures
        (final(w)@, world::res(r)) == created_s(old(w)@, s@),
{
    w.note(
        text::cat6(
            "new: creating ",
            num::print(s.vmid as u64).as_str(),
            " (",
            s.hostname.as_str(),
            ") from ",
            s.template.as_str(),
        ),
    );
    match create_wrapper(w, s) {
        Ok(_) => {},
        Err(e) => return Err(e),
    }
    match doc::write(w, s.vmid, initial_document()) {
        Ok(_) => {
            w.note("new: document written".to_owned());
            Ok(())
        },
        Err(e) => Err(e),
    }
}

fn bring_up(w: &mut World, ctx: &Ctx, a: &NewArgs, template: &str) -> (r: Result<(), Stop>)
    ensures
        (final(w)@, world::res(r)) == started_s(old(w)@, ctx@, a@, template@),
{
    let vmid = a.vmid;
    match pct::start(w, vmid) {
        Ok(_) => {},
        Err(e) => return Err(e),
    }
    match pct::wait_ready(w, vmid, READY_WAIT) {
        Ok(_) => {},
        Err(e) => return Err(e),
    }
    let n = num::print(vmid as u64);
    w.note(text::cat3("new: ", n.as_str(), " is up"));
    let o = Options { pull: false, no_up: a.no_up, only_if_up: false };
    match apply::apply_locked(w, ctx, vmid, o) {
        Ok(_) => {},
        Err(e) => return Err(e),
    }
    match note_template(w, vmid, template) {
        Ok(_) => {},
        Err(e) => return Err(e),
    }
    proof {
        reveal_strlit("");
        assert(""@ =~= Seq::<char>::empty());
    }
    let then = if a.no_up {
        text::cat3(", then `pve-compose docker apply ", n.as_str(), "`")
    } else {
        "".to_owned()
    };
    w.note(
        text::cat6(
            "new: done; write the stack into ",
            n.as_str(),
            "'s `compose.spec` (Metadata tab, or pve-meta set ",
            n.as_str(),
            " compose.spec), data under /opt/stack/volumes/, secrets in /opt/stack/.env",
            then.as_str(),
        ),
    );
    ops::require_running(w, ctx, vmid)
}

/// Creates, documents, starts and applies a wrapper.
pub fn new(w: &mut World, ctx: &Ctx, a: &NewArgs) -> (r: Result<(), Stop>)
    ensures
        (final(w)@, world::res(r)) == new_s(old(w)@, ctx@, a@),
{
    let d = match decide(w, ctx, a) {
        Ok(d) => d,
        Err(e) => return Err(e),
    };
    let cfg = match keep(w, ctx, &d) {
        Ok(c) => c,
        Err(e) => return Err(e),
    };
    let template = match template::resolve(w, ctx, d.template_storage.as_str(), &a.template) {
        Ok(t) => t,
        Err(e) => return Err(e),
    };
    let s = wrapper(ctx, &cfg, a, d.storage.as_str(), template.as_str());
    match create(w, &s) {
        Ok(_) => {},
        Err(e) => return Err(e),
    }
    // Hold the lock from the start, so the daemon's first pass waits for
    // `new` to finish instead of racing it to the first apply.
    let lock = match GuestLock::take(w, a.vmid, apply::LOCK_WAIT) {
        Ok(l) => l,
        Err(e) => return Err(e),
    };
    let r = bring_up(w, ctx, a, template.as_str());
    lock.finish(w, r)
}

// ---------------------------------------------------------------------------
// What holds of it.

/// Whether an action changes nothing: it reads, or asks.
pub open spec fn harmless(a: ActV) -> bool {
    match a {
        ActV::Run(c) => (c.program == "pvesh"@ || c.program == "pve-meta"@) && c.args.len() > 0
            && c.args[0] == "get"@,
        ActV::Read { .. } => true,
        ActV::Link { .. } => true,
        ActV::Terminal => true,
        ActV::Ask { .. } => true,
        _ => false,
    }
}

/// Whether a verb that waits for an action waits for a harmless one.
pub open spec fn waits_harmlessly<T>(r: Result<T, StopV>) -> bool {
    r matches Err(StopV::Act(a)) ==> harmless(a)
}

proof fn lemma_pvesh_harmless(w: WorldV, path: Text, args: Seq<Text>)
    ensures
        waits_harmlessly(cmd::pvesh_get_s(w, path, args).1),
{
    let c = cmd::pvesh(path, args);
    assert(c.args[0] == "get"@);
}

proof fn lemma_answer_harmless(w: WorldV, n: nat)
    ensures
        waits_harmlessly(prompt::answer_s(w, n).1),
    decreases w.replies.len() - w.pos,
{
    match prompt::read_line_s(w, "> "@) {
        (v, Ok(a)) => {
            lemma_answer_harmless(v.note("a number from 1 to "@ + num::dec(n)), n);
        },
        _ => {},
    }
}

proof fn lemma_settle_harmless(
    w: WorldV,
    c: CtxV,
    flag: Option<Text>,
    configured: Option<Text>,
    content: Text,
    what: Text,
    key: Text,
)
    ensures
        waits_harmlessly(settle_storage_s(w, c, flag, configured, content, what, key).1),
{
    if flag is None && configured is None {
        lemma_pvesh_harmless(
            w,
            "/nodes/"@ + c.node + "/storage"@,
            seq!["--content"@, content, "--enabled"@, "1"@],
        );
        match pct::storages_s(w, c.node, content) {
            (v, Ok(l)) => {
                match prompt::interactive_s(v) {
                    (v, Ok(true)) => {
                        let q = "Which storage for "@ + what + " on "@ + c.node + "?"@;
                        lemma_answer_harmless(
                            prompt::listed(v.note(q), storage_lines(l)),
                            storage_lines(l).len(),
                        );
                    },
                    _ => {},
                }
            },
            _ => {},
        }
    }
}

/// Everything is settled before anything is touched: whatever was answered so
/// far, until the last question has its answer `new` only reads and asks.
pub proof fn law_new_settles_first(w: WorldV, c: CtxV, a: NewArgsV)
    ensures
        waits_harmlessly(decided_s(w, c, a).1),
        !(decided_s(w, c, a).1 is Ok) ==> waits_harmlessly(new_s(w, c, a).1),
{
    match pct::owner_node_s(w, a.vmid) {
        (v, Ok(None)) => {
            assert(doc::get_call(a.vmid).args[0] == "get"@);
        },
        _ => {},
    }
    match free_s(w, a.vmid) {
        (v, Ok(_)) => {
            lemma_settle_harmless(
                v,
                c,
                None,
                c.config.template.storage,
                "vztmpl"@,
                "templates"@,
                "template-storage"@,
            );
            match template_storage_s(v, c, a.template) {
                (v, Ok(_)) => {
                    lemma_settle_harmless(
                        v,
                        c,
                        a.storage,
                        config::storage_for(c.config, c.node),
                        "rootdir"@,
                        "container disks"@,
                        "storage"@,
                    );
                },
                _ => {},
            }
        },
        _ => {},
    }
}

proof fn lemma_ready_is_quiet(w: WorldV, vmid: u32, secs: u32, deadline: int)
    ensures
        apply::waits_quietly(pct::ready_by_s(w, vmid, secs, deadline).1),
    decreases w.replies.len() - w.pos,
{
    let (v, r) = pct::exec_status_s(w, vmid, pct::route_script());
    assert(apply::waits_quietly(r));
    if !(r matches Err(StopV::Act(_))) {
        let (u, s) = v.act(ActV::Sleep { millis: 2000 });
        if !(s matches Err(StopV::Act(_))) {
            lemma_ready_is_quiet(u, vmid, secs, deadline);
        }
    }
}

proof fn lemma_resolve_starts_nothing(
    w: WorldV,
    c: CtxV,
    storage: Text,
    explicit: Option<Text>,
    a: ActV,
    v: u32,
)
    requires
        template::resolve_s(w, c, storage, explicit).1 == Err::<Text, StopV>(StopV::Act(a)),
    ensures
        !apply::is_up_act(a, v),
        !apply::is_pull_act(a, v),
{
    reveal_strlit("pveam");
    reveal_strlit("pct");
    assert("pveam"@.len() != "pct"@.len());
}

proof fn lemma_template_facts_are_quiet(w: WorldV, vmid: u32, template: Text)
    ensures
        apply::waits_quietly(template_facts_s(w, vmid, template).1),
{
    match stack::read_facts_s(w, vmid) {
        (v, Ok(f)) => {
            let g = FactsV {
                template: Some(template),
                ..match f {
                    Some(f) => f,
                    None => stack::no_facts(),
                }
            };
            match yaml::yaml_text(stack::facts_tree(g)) {
                Ok(t) => {
                    apply::lemma_write_is_quiet(v, vmid, stack::FACTS_FILE@, t, "0644"@);
                },
                Err(_) => {},
            }
        },
        _ => {},
    }
}

proof fn lemma_stored_is_quiet(w: WorldV, c: CtxV, d: DecidedV)
    ensures
        apply::waits_quietly(stored_s(w, c, d).1),
{
}

proof fn lemma_created_is_quiet(w: WorldV, s: WrapperSpecV)
    ensures
        apply::waits_quietly(created_s(w, s).1),
{
}

proof fn lemma_take_is_quiet(w: WorldV, vmid: u32)
    ensures
        apply::waits_quietly(lock::take_s(w, vmid, apply::LOCK_WAIT).1),
{
}

proof fn lemma_started_starts_nothing(
    w: WorldV,
    c: CtxV,
    n: NewArgsV,
    t: Text,
    a: ActV,
    v: u32,
)
    requires
        n.no_up,
        started_s(w, c, n, t).1 == Err::<(), StopV>(StopV::Act(a)),
    ensures
        !apply::is_up_act(a, v),
        !apply::is_pull_act(a, v),
{
    let (w1, r1) = pct::start_s(w, n.vmid);
    assert(apply::waits_quietly(r1));
    if r1 is Ok {
        lemma_ready_is_quiet(w1, n.vmid, READY_WAIT, w1.now + READY_WAIT * 1000);
        let (w2, r2) = pct::wait_ready_s(w1, n.vmid, READY_WAIT);
        if r2 is Ok {
            let w3 = w2.note("new: "@ + pct::vm(n.vmid) + " is up"@);
            let o = Options { pull: false, no_up: n.no_up, only_if_up: false };
            let (w4, r4) = apply::apply_locked_s(w3, c, n.vmid, o);
            if r4 is Err {
                apply::law_no_up_starts_nothing(w3, c, n.vmid, o, a, v);
            } else {
                lemma_template_facts_are_quiet(w4, n.vmid, t);
                let (w5, _) = template_facts_s(w4, n.vmid, t);
                assert(apply::waits_quietly(
                    ops::require_running_s(w5.note(done_line(n.vmid, n.no_up)), c, n.vmid).1,
                ));
            }
        }
    }
}

proof fn lemma_wrapped_starts_nothing(
    w: WorldV,
    c: CtxV,
    n: NewArgsV,
    s: WrapperSpecV,
    a: ActV,
    v: u32,
)
    requires
        n.no_up,
        wrapped_s(w, c, n, s).1 == Err::<(), StopV>(StopV::Act(a)),
    ensures
        !apply::is_up_act(a, v),
        !apply::is_pull_act(a, v),
{
    lemma_created_is_quiet(w, s);
    let (w1, r1) = created_s(w, s);
    if r1 is Ok {
        lemma_take_is_quiet(w1, n.vmid);
        let (w2, r2) = lock::take_s(w1, n.vmid, apply::LOCK_WAIT);
        if r2 is Ok {
            if started_s(w2, c, n, s.template).1 == Err::<(), StopV>(StopV::Act(a)) {
                lemma_started_starts_nothing(w2, c, n, s.template, a, v);
            }
        }
    }
}

proof fn lemma_made_starts_nothing(
    w: WorldV,
    c: CtxV,
    n: NewArgsV,
    d: DecidedV,
    a: ActV,
    v: u32,
)
    requires
        n.no_up,
        made_s(w, c, n, d).1 == Err::<(), StopV>(StopV::Act(a)),
    ensures
        !apply::is_up_act(a, v),
        !apply::is_pull_act(a, v),
{
    lemma_stored_is_quiet(w, c, d);
    let (w1, r1) = stored_s(w, c, d);
    if r1 is Ok {
        let (w2, r2) = template::resolve_s(w1, c, d.template_storage, n.template);
        if r2 is Err {
            lemma_resolve_starts_nothing(w1, c, d.template_storage, n.template, a, v);
        } else {
            let s = wrapper_of(c, r1->Ok_0, n, d.storage, r2->Ok_0);
            lemma_wrapped_starts_nothing(w2, c, n, s, a, v);
        }
    }
}

/// A `new` with `no_up` brings nothing up and pulls nothing.
pub proof fn law_new_no_up_starts_nothing(w: WorldV, c: CtxV, n: NewArgsV, a: ActV, v: u32)
    requires
        n.no_up,
        new_s(w, c, n).1 == Err::<(), StopV>(StopV::Act(a)),
    ensures
        !apply::is_up_act(a, v),
        !apply::is_pull_act(a, v),
{
    let (w1, r1) = decided_s(w, c, n);
    if r1 is Ok {
        lemma_made_starts_nothing(w1, c, n, r1->Ok_0, a, v);
    } else {
        law_new_settles_first(w, c, n);
        reveal_strlit("pvesh");
        reveal_strlit("pve-meta");
        reveal_strlit("pct");
        assert("pvesh"@.len() != "pct"@.len());
        assert("pve-meta"@.len() != "pct"@.len());
    }
}

} // verus!
