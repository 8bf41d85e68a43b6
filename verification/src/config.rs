//! `/etc/pve/pve-compose.cfg`: the operator's persisted choices. Cluster-wide
//! (pmxcfs), one YAML file, every key optional, and nobody has to open it:
//! `new` asks for what it lacks and offers to store the answer, and
//! `pve-compose config set|unset` writes the same file.
//!
//! ```yaml
//! template:
//!   storage: local                 # a storage with vztmpl content, cluster-wide
//!   base: debian-13-standard       # the upstream template `new` unpacks
//! defaults:
//!   rootfs_size: 8G
//!   owner: "1000:1000"
//!   bridge: vmbr0
//!   cores: 2
//!   memory: 2048
//! nodes:
//!   StorageCube: { storage: NetApp }   # disks on this node; storage names are per node
//! limits:
//!   bind_roots: [/NetApp/FileStore]   # what an x-pve.path may be under; empty: no binds
//!   storages: [NetApp]                # what an x-pve.storage may name; empty: the node's own
//!   max_disk_gib: 64                  # the largest disk one x-pve.size may ask for
//! daemon:
//!   interval: 30                   # seconds between version-token polls
//!   full_every: 600                # seconds between unconditional passes
//! ```
//!
//! There is deliberately no cluster-wide disk storage: storage names differ
//! per node, and a cluster default would be a guess.

use vstd::prelude::*;

use crate::decode;
use crate::error::Error;
use crate::num;
use crate::size::{self, Size};
use crate::spelling;
use crate::table::{self, Table};
use crate::text::{self, Text};
use crate::world::{self, Act, ActV, MISSING, Stop, StopV, World, WorldV};
use crate::yaml::{self, Tree, Yaml};

verus! {

pub const PATH: &'static str = "/etc/pve/pve-compose.cfg";

/// The operator's persisted choices.
#[derive(Debug, PartialEq)]
pub struct Config {
    pub template: Template,
    pub defaults: Defaults,
    pub nodes: Table<NodeOverrides>,
    pub limits: Limits,
    pub daemon: Daemon,
}

#[derive(Debug, PartialEq)]
pub struct Template {
    pub storage: Option<String>,
    pub base: String,
}

#[derive(Debug, PartialEq)]
pub struct Defaults {
    pub rootfs_size: Size,
    pub owner: String,
    pub bridge: String,
    pub cores: u32,
    pub memory: u64,
}

#[derive(Debug, PartialEq)]
pub struct NodeOverrides {
    pub storage: Option<String>,
}

/// What a guest's document may ask the node for. Writing a document takes
/// `VM.Config.Options` on that guest, which is not what PVE asks for a bind
/// mount (`root@pam` only) or for allocating on any storage, so `x-pve` is
/// held to these bounds. Hand-edited: `config set` does not write them.
#[derive(Debug, PartialEq)]
pub struct Limits {
    /// Host directories an `x-pve.path` may be, or be under. Empty (the
    /// default): no document gets a bind mount.
    pub bind_roots: Vec<String>,
    /// Storages an `x-pve.storage` may name. Empty (the default): only the
    /// storage the node is configured with, which is where a volume without
    /// a storage lands anyway.
    pub storages: Vec<String>,
    /// The largest disk one `x-pve.size` may ask for, in GiB.
    pub max_disk_gib: u64,
}

#[derive(Debug, Clone, Copy, PartialEq, Eq, Structural)]
pub struct Daemon {
    pub interval: u64,
    pub full_every: u64,
}

// ---------------------------------------------------------------------------
// The choices as mathematics.

pub struct TemplateV {
    pub storage: Option<Text>,
    pub base: Text,
}

pub struct DefaultsV {
    pub rootfs_size: nat,
    pub owner: Text,
    pub bridge: Text,
    pub cores: u32,
    pub memory: u64,
}

pub struct LimitsV {
    pub bind_roots: Seq<Text>,
    pub storages: Seq<Text>,
    pub max_disk_gib: u64,
}

/// The overrides of a node are its disk storage.
pub struct ConfigV {
    pub template: TemplateV,
    pub defaults: DefaultsV,
    pub nodes: Seq<(Text, Option<Text>)>,
    pub limits: LimitsV,
    pub daemon: Daemon,
}

impl View for Template {
    type V = TemplateV;

    open spec fn view(&self) -> TemplateV {
        TemplateV { storage: text::opt(self.storage), base: self.base@ }
    }
}

impl View for Defaults {
    type V = DefaultsV;

    open spec fn view(&self) -> DefaultsV {
        DefaultsV {
            rootfs_size: self.rootfs_size@,
            owner: self.owner@,
            bridge: self.bridge@,
            cores: self.cores,
            memory: self.memory,
        }
    }
}

impl View for NodeOverrides {
    type V = Option<Text>;

    open spec fn view(&self) -> Option<Text> {
        text::opt(self.storage)
    }
}

impl View for Limits {
    type V = LimitsV;

    open spec fn view(&self) -> LimitsV {
        LimitsV {
            bind_roots: text::views(self.bind_roots@),
            storages: text::views(self.storages@),
            max_disk_gib: self.max_disk_gib,
        }
    }
}

impl View for Config {
    type V = ConfigV;

    open spec fn view(&self) -> ConfigV {
        ConfigV {
            template: self.template@,
            defaults: self.defaults@,
            nodes: self.nodes@,
            limits: self.limits@,
            daemon: self.daemon,
        }
    }
}

// ---------------------------------------------------------------------------
// The built-in choices.

pub open spec fn d_template() -> TemplateV {
    TemplateV { storage: None, base: "debian-13-standard"@ }
}

pub open spec fn d_defaults() -> DefaultsV {
    DefaultsV {
        rootfs_size: 8589934592,
        owner: "1000:1000"@,
        bridge: "vmbr0"@,
        cores: 2,
        memory: 2048,
    }
}

pub open spec fn d_limits() -> LimitsV {
    LimitsV { bind_roots: Seq::empty(), storages: Seq::empty(), max_disk_gib: 64 }
}

pub open spec fn d_daemon() -> Daemon {
    Daemon { interval: 30, full_every: 600 }
}

pub open spec fn d_config() -> ConfigV {
    ConfigV {
        template: d_template(),
        defaults: d_defaults(),
        nodes: Seq::empty(),
        limits: d_limits(),
        daemon: d_daemon(),
    }
}

impl Default for Template {
    fn default() -> (r: Self)
        ensures
            r@ == d_template(),
    {
        Template { storage: None, base: "debian-13-standard".to_owned() }
    }
}

impl Default for Defaults {
    fn default() -> (r: Self)
        ensures
            r@ == d_defaults(),
    {
        Defaults {
            rootfs_size: Size(8589934592),
            owner: "1000:1000".to_owned(),
            bridge: "vmbr0".to_owned(),
            cores: 2,
            memory: 2048,
        }
    }
}

impl Default for Limits {
    fn default() -> (r: Self)
        ensures
            r@ == d_limits(),
    {
        let r = Limits { bind_roots: Vec::new(), storages: Vec::new(), max_disk_gib: 64 };
        assert(text::views(r.bind_roots@) =~= Seq::empty());
        assert(text::views(r.storages@) =~= Seq::empty());
        r
    }
}

impl Default for Daemon {
    fn default() -> (r: Self)
        ensures
            r == d_daemon(),
    {
        Daemon { interval: 30, full_every: 600 }
    }
}

impl Default for Config {
    fn default() -> (r: Self)
        ensures
            r@ == d_config(),
    {
        Config {
            template: Template::default(),
            defaults: Defaults::default(),
            nodes: Table::new(),
            limits: Limits::default(),
            daemon: Daemon::default(),
        }
    }
}

// ---------------------------------------------------------------------------
// What a file says.

pub open spec fn template_keys() -> Seq<Text> {
    seq!["storage"@, "base"@]
}

pub open spec fn template_of(t: Tree, u: Tree) -> Result<TemplateV, Text> {
    match decode::fields(t, u, template_keys()) {
        Err(e) => Err(decode::within("template"@, e)),
        Ok(m) => match decode::optional(
            yaml::at(m, Tree::Str("storage"@)),
            decode::beside(t, u, "storage"@),
        ) {
            Err(e) => Err(decode::within("template.storage"@, e)),
            Ok(storage) => match decode::text_or(
                yaml::at(m, Tree::Str("base"@)),
                decode::beside(t, u, "base"@),
                d_template().base,
            ) {
                Err(e) => Err(decode::within("template.base"@, e)),
                Ok(base) => Ok(TemplateV { storage, base }),
            },
        },
    }
}

pub open spec fn defaults_keys() -> Seq<Text> {
    seq!["rootfs_size"@, "owner"@, "bridge"@, "cores"@, "memory"@]
}

pub open spec fn rootfs_size_of(t: Option<Tree>) -> Result<nat, Text> {
    match t {
        None => Ok(d_defaults().rootfs_size),
        Some(v) => decode::size_of(v),
    }
}

pub open spec fn defaults_of(t: Tree, u: Tree) -> Result<DefaultsV, Text> {
    match decode::fields(t, u, defaults_keys()) {
        Err(e) => Err(decode::within("defaults"@, e)),
        Ok(m) => match rootfs_size_of(yaml::at(m, Tree::Str("rootfs_size"@))) {
            Err(e) => Err(decode::within("defaults.rootfs_size"@, e)),
            Ok(rootfs_size) => match decode::text_or(
                yaml::at(m, Tree::Str("owner"@)),
                decode::beside(t, u, "owner"@),
                d_defaults().owner,
            ) {
                Err(e) => Err(decode::within("defaults.owner"@, e)),
                Ok(owner) => match decode::text_or(
                    yaml::at(m, Tree::Str("bridge"@)),
                    decode::beside(t, u, "bridge"@),
                    d_defaults().bridge,
                ) {
                    Err(e) => Err(decode::within("defaults.bridge"@, e)),
                    Ok(bridge) => match decode::natural_or(
                        yaml::at(m, Tree::Str("cores"@)),
                        u32::MAX as nat,
                        2,
                    ) {
                        Err(e) => Err(decode::within("defaults.cores"@, e)),
                        Ok(cores) => match decode::natural_or(
                            yaml::at(m, Tree::Str("memory"@)),
                            u64::MAX as nat,
                            2048,
                        ) {
                            Err(e) => Err(decode::within("defaults.memory"@, e)),
                            Ok(memory) => Ok(
                                DefaultsV {
                                    rootfs_size,
                                    owner,
                                    bridge,
                                    cores: cores as u32,
                                    memory: memory as u64,
                                },
                            ),
                        },
                    },
                },
            },
        },
    }
}

pub open spec fn node_of(t: Tree, u: Tree) -> Result<Option<Text>, Text> {
    match decode::fields(t, u, seq!["storage"@]) {
        Err(e) => Err(e),
        Ok(m) => decode::optional(
            yaml::at(m, Tree::Str("storage"@)),
            decode::beside(t, u, "storage"@),
        ),
    }
}

/// The overrides by node, from the entries in their order and their twins.
pub open spec fn nodes_from(m: Seq<(Tree, Tree)>, n: Seq<(Tree, Tree)>) -> Result<
    Seq<(Text, Option<Text>)>,
    Text,
>
    decreases m.len(),
{
    if m.len() == 0 {
        Ok(Seq::empty())
    } else {
        match nodes_from(m.drop_last(), n.drop_last()) {
            Err(e) => Err(e),
            Ok(s) => match decode::scalar(m.last().0, n.last().0) {
                None => Err(decode::within("nodes"@, "expected a string"@)),
                Some(name) => match node_of(m.last().1, n.last().1) {
                    Err(e) => Err(decode::within("nodes."@ + name, e)),
                    Ok(n) => Ok(table::inserted(s, name, n)),
                },
            },
        }
    }
}

pub open spec fn nodes_of(t: Tree, u: Tree) -> Result<Seq<(Text, Option<Text>)>, Text> {
    match decode::section(t, u) {
        Err(e) => Err(decode::within("nodes"@, e)),
        Ok(m) => nodes_from(m, decode::twins(m, u)),
    }
}

pub open spec fn limits_keys() -> Seq<Text> {
    seq!["bind_roots"@, "storages"@, "max_disk_gib"@]
}

pub open spec fn limits_of(t: Tree, u: Tree) -> Result<LimitsV, Text> {
    match decode::fields(t, u, limits_keys()) {
        Err(e) => Err(decode::within("limits"@, e)),
        Ok(m) => match decode::list(
            yaml::at(m, Tree::Str("bind_roots"@)),
            decode::beside(t, u, "bind_roots"@),
        ) {
            Err(e) => Err(decode::within("limits.bind_roots"@, e)),
            Ok(bind_roots) => match decode::list(
                yaml::at(m, Tree::Str("storages"@)),
                decode::beside(t, u, "storages"@),
            ) {
                Err(e) => Err(decode::within("limits.storages"@, e)),
                Ok(storages) => match decode::natural_or(
                    yaml::at(m, Tree::Str("max_disk_gib"@)),
                    u64::MAX as nat,
                    64,
                ) {
                    Err(e) => Err(decode::within("limits.max_disk_gib"@, e)),
                    Ok(n) => Ok(LimitsV { bind_roots, storages, max_disk_gib: n as u64 }),
                },
            },
        },
    }
}

pub open spec fn daemon_keys() -> Seq<Text> {
    seq!["interval"@, "full_every"@]
}

pub open spec fn daemon_of(t: Tree, u: Tree) -> Result<Daemon, Text> {
    match decode::fields(t, u, daemon_keys()) {
        Err(e) => Err(decode::within("daemon"@, e)),
        Ok(m) => match decode::natural_or(
            yaml::at(m, Tree::Str("interval"@)),
            u64::MAX as nat,
            30,
        ) {
            Err(e) => Err(decode::within("daemon.interval"@, e)),
            Ok(interval) => match decode::natural_or(
                yaml::at(m, Tree::Str("full_every"@)),
                u64::MAX as nat,
                600,
            ) {
                Err(e) => Err(decode::within("daemon.full_every"@, e)),
                Ok(full_every) => Ok(
                    Daemon { interval: interval as u64, full_every: full_every as u64 },
                ),
            },
        },
    }
}

pub open spec fn config_keys() -> Seq<Text> {
    seq!["template"@, "defaults"@, "nodes"@, "limits"@, "daemon"@]
}

/// A section that is not there is an empty one.
pub open spec fn or_null(t: Option<Tree>) -> Tree {
    match t {
        Some(t) => t,
        None => Tree::Null,
    }
}

/// The choices that a document holds, or why it holds none.
pub open spec fn config_of(t: Tree, u: Tree) -> Result<ConfigV, Text> {
    match decode::fields(t, u, config_keys()) {
        Err(e) => Err(e),
        Ok(m) => match template_of(
            or_null(yaml::at(m, Tree::Str("template"@))),
            decode::beside(t, u, "template"@),
        ) {
            Err(e) => Err(e),
            Ok(template) => match defaults_of(
            or_null(yaml::at(m, Tree::Str("defaults"@))),
            decode::beside(t, u, "defaults"@),
        ) {
                Err(e) => Err(e),
                Ok(defaults) => match nodes_of(
            or_null(yaml::at(m, Tree::Str("nodes"@))),
            decode::beside(t, u, "nodes"@),
        ) {
                    Err(e) => Err(e),
                    Ok(nodes) => match limits_of(
            or_null(yaml::at(m, Tree::Str("limits"@))),
            decode::beside(t, u, "limits"@),
        ) {
                        Err(e) => Err(e),
                        Ok(limits) => match daemon_of(
                            or_null(yaml::at(m, Tree::Str("daemon"@))),
                            decode::beside(t, u, "daemon"@),
                        ) {
                            Err(e) => Err(e),
                            Ok(daemon) => Ok(
                                ConfigV { template, defaults, nodes, limits, daemon },
                            ),
                        },
                    },
                },
            },
        },
    }
}

/// The choices that a text holds: the built-in ones for an empty text.
pub open spec fn parsed(s: Text) -> Result<ConfigV, Text> {
    if text::trimmed(s).len() == 0 {
        Ok(d_config())
    } else {
        match yaml::yaml_of(s) {
            Ok(t) => config_of(t, spelling::twin_of(s, t)),
            Err(e) => Err(e),
        }
    }
}

fn strings(a: &str, b: &str) -> (r: Vec<String>)
    ensures
        text::views(r@) == seq![a@, b@],
{
    let v = vec![a.to_owned(), b.to_owned()];
    assert(text::views(v@) =~= seq![a@, b@]);
    v
}

fn or_nothing<'a>(v: Option<&'a Yaml>, null: &'a Yaml) -> (r: &'a Yaml)
    requires
        null@ == Tree::Null,
    ensures
        r@ == or_null(text::opt(v)),
{
    match v {
        Some(x) => x,
        None => null,
    }
}

impl Template {
    fn decode(v: &Yaml, u: &Yaml) -> (r: Result<Template, Error>)
        ensures
            decode::read(r) == template_of(v@, u@),
            decode::plain(r),
    {
        let null = Yaml::Null;
        let known = strings("storage", "base");
        let m = match decode::fields_of(v, u, &known) {
            Ok(m) => m,
            Err(e) => return Err(decode::inside("template", e)),
        };
        let storage = match decode::optional_of(
            decode::field(m, "storage"),
            decode::beside_of(v, u, "storage", &null),
        ) {
            Ok(s) => s,
            Err(e) => return Err(decode::inside("template.storage", e)),
        };
        let base = match decode::text_of(
            decode::field(m, "base"),
            decode::beside_of(v, u, "base", &null),
            "debian-13-standard",
        ) {
            Ok(s) => s,
            Err(e) => return Err(decode::inside("template.base", e)),
        };
        Ok(Template { storage, base })
    }
}

impl Defaults {
    fn decode(v: &Yaml, u: &Yaml) -> (r: Result<Defaults, Error>)
        ensures
            decode::read(r) == defaults_of(v@, u@),
            decode::plain(r),
    {
        let null = Yaml::Null;
        let known = vec![
            "rootfs_size".to_owned(),
            "owner".to_owned(),
            "bridge".to_owned(),
            "cores".to_owned(),
            "memory".to_owned(),
        ];
        assert(text::views(known@) =~= defaults_keys());
        let m = match decode::fields_of(v, u, &known) {
            Ok(m) => m,
            Err(e) => return Err(decode::inside("defaults", e)),
        };
        let rootfs_size = match decode::field(m, "rootfs_size") {
            None => Size(8589934592),
            Some(x) => match decode::size(x) {
                Ok(z) => z,
                Err(e) => return Err(decode::inside("defaults.rootfs_size", e)),
            },
        };
        let owner = match decode::text_of(
            decode::field(m, "owner"),
            decode::beside_of(v, u, "owner", &null),
            "1000:1000",
        ) {
            Ok(s) => s,
            Err(e) => return Err(decode::inside("defaults.owner", e)),
        };
        let bridge = match decode::text_of(
            decode::field(m, "bridge"),
            decode::beside_of(v, u, "bridge", &null),
            "vmbr0",
        ) {
            Ok(s) => s,
            Err(e) => return Err(decode::inside("defaults.bridge", e)),
        };
        let cores = match decode::natural_of(decode::field(m, "cores"), u32::MAX as u64, 2) {
            Ok(n) => n as u32,
            Err(e) => return Err(decode::inside("defaults.cores", e)),
        };
        let memory = match decode::natural_of(decode::field(m, "memory"), u64::MAX, 2048) {
            Ok(n) => n,
            Err(e) => return Err(decode::inside("defaults.memory", e)),
        };
        Ok(Defaults { rootfs_size, owner, bridge, cores, memory })
    }
}

impl NodeOverrides {
    fn decode(v: &Yaml, u: &Yaml) -> (r: Result<NodeOverrides, Error>)
        ensures
            decode::read(r) == node_of(v@, u@),
            decode::plain(r),
    {
        let null = Yaml::Null;
        let known = vec!["storage".to_owned()];
        assert(text::views(known@) =~= seq!["storage"@]);
        let m = match decode::fields_of(v, u, &known) {
            Ok(m) => m,
            Err(e) => return Err(e),
        };
        match decode::optional_of(
            decode::field(m, "storage"),
            decode::beside_of(v, u, "storage", &null),
        ) {
            Ok(storage) => Ok(NodeOverrides { storage }),
            Err(e) => Err(e),
        }
    }
}

proof fn lemma_nodes_fail(m: Seq<(Tree, Tree)>, n: Seq<(Tree, Tree)>, i: int)
    requires
        0 <= i <= m.len(),
        m.len() == n.len(),
        nodes_from(m.take(i), n.take(i)) is Err,
    ensures
        nodes_from(m, n) == nodes_from(m.take(i), n.take(i)),
    decreases m.len(),
{
    if i < m.len() {
        assert(m.drop_last().take(i) =~= m.take(i));
        assert(n.drop_last().take(i) =~= n.take(i));
        lemma_nodes_fail(m.drop_last(), n.drop_last(), i);
    } else {
        assert(m.take(i) =~= m);
        assert(n.take(i) =~= n);
    }
}

fn decode_nodes(v: &Yaml, u: &Yaml) -> (r: Result<Table<NodeOverrides>, Error>)
    ensures
        decode::read(r) == nodes_of(v@, u@),
        decode::plain(r),
{
    let mut out: Table<NodeOverrides> = Table::new();
    if v.is_null() && u.is_null() {
        return Ok(out);
    }
    let m = match v.as_map() {
        Some(m) => m,
        None => return Err(decode::inside("nodes", Error::msg("expected a map"))),
    };
    let n = match u.as_map() {
        Some(n) => if n.len() == m.len() {
            n
        } else {
            m
        },
        None => m,
    };
    let ghost all = yaml::entries(m@);
    let ghost side = yaml::entries(n@);
    assert(side == decode::twins(all, u@));
    assert(all.take(0) =~= Seq::empty());
    for i in 0..m.len()
        invariant
            m@.len() == n@.len(),
            all == yaml::entries(m@),
            side == yaml::entries(n@),
            nodes_of(v@, u@) == nodes_from(all, side),
            nodes_from(all.take(i as int), side.take(i as int)) == Ok::<
                Seq<(Text, Option<Text>)>,
                Text,
            >(out@),
    {
        assert(all.take(i + 1).drop_last() =~= all.take(i as int));
        assert(side.take(i + 1).drop_last() =~= side.take(i as int));
        assert(all.take(i + 1).last() == (m@[i as int].0@, m@[i as int].1@));
        assert(side.take(i + 1).last() == (n@[i as int].0@, n@[i as int].1@));
        let name = match decode::scalar_of(&m[i].0, &n[i].0) {
            Some(s) => s,
            None => {
                proof {
                    lemma_nodes_fail(all, side, i + 1);
                }
                return Err(decode::inside("nodes", Error::msg("expected a string")));
            },
        };
        match NodeOverrides::decode(&m[i].1, &n[i].1) {
            Ok(x) => {
                out.insert(name, x);
            },
            Err(e) => {
                proof {
                    lemma_nodes_fail(all, side, i + 1);
                }
                return Err(decode::inside(text::cat("nodes.", name.as_str()).as_str(), e));
            },
        }
    }
    assert(all.take(all.len() as int) =~= all);
    assert(side.take(side.len() as int) =~= side);
    Ok(out)
}

impl Limits {
    fn decode(v: &Yaml, u: &Yaml) -> (r: Result<Limits, Error>)
        ensures
            decode::read(r) == limits_of(v@, u@),
            decode::plain(r),
    {
        let null = Yaml::Null;
        let known = vec![
            "bind_roots".to_owned(),
            "storages".to_owned(),
            "max_disk_gib".to_owned(),
        ];
        assert(text::views(known@) =~= limits_keys());
        let m = match decode::fields_of(v, u, &known) {
            Ok(m) => m,
            Err(e) => return Err(decode::inside("limits", e)),
        };
        let bind_roots = match decode::list_of(
            decode::field(m, "bind_roots"),
            decode::beside_of(v, u, "bind_roots", &null),
        ) {
            Ok(l) => l,
            Err(e) => return Err(decode::inside("limits.bind_roots", e)),
        };
        let storages = match decode::list_of(
            decode::field(m, "storages"),
            decode::beside_of(v, u, "storages", &null),
        ) {
            Ok(l) => l,
            Err(e) => return Err(decode::inside("limits.storages", e)),
        };
        let max_disk_gib = match decode::natural_of(
            decode::field(m, "max_disk_gib"),
            u64::MAX,
            64,
        ) {
            Ok(n) => n,
            Err(e) => return Err(decode::inside("limits.max_disk_gib", e)),
        };
        Ok(Limits { bind_roots, storages, max_disk_gib })
    }
}

impl View for Daemon {
    type V = Daemon;

    open spec fn view(&self) -> Daemon {
        *self
    }
}

impl Daemon {
    fn decode(v: &Yaml, u: &Yaml) -> (r: Result<Daemon, Error>)
        ensures
            decode::read(r) == daemon_of(v@, u@),
            decode::plain(r),
    {
        let known = strings("interval", "full_every");
        let m = match decode::fields_of(v, u, &known) {
            Ok(m) => m,
            Err(e) => return Err(decode::inside("daemon", e)),
        };
        let interval = match decode::natural_of(decode::field(m, "interval"), u64::MAX, 30) {
            Ok(n) => n,
            Err(e) => return Err(decode::inside("daemon.interval", e)),
        };
        let full_every = match decode::natural_of(decode::field(m, "full_every"), u64::MAX, 600) {
            Ok(n) => n,
            Err(e) => return Err(decode::inside("daemon.full_every", e)),
        };
        Ok(Daemon { interval, full_every })
    }
}

impl Config {
    /// The choices that a document holds.
    pub fn decode(v: &Yaml, u: &Yaml) -> (r: Result<Config, Error>)
        ensures
            decode::read(r) == config_of(v@, u@),
            decode::plain(r),
    {
        let known = vec![
            "template".to_owned(),
            "defaults".to_owned(),
            "nodes".to_owned(),
            "limits".to_owned(),
            "daemon".to_owned(),
        ];
        assert(text::views(known@) =~= config_keys());
        let null = Yaml::Null;
        let m = match decode::fields_of(v, u, &known) {
            Ok(m) => m,
            Err(e) => return Err(e),
        };
        let template = match Template::decode(
            or_nothing(decode::field(m, "template"), &null),
            decode::beside_of(v, u, "template", &null),
        ) {
            Ok(x) => x,
            Err(e) => return Err(e),
        };
        let defaults = match Defaults::decode(
            or_nothing(decode::field(m, "defaults"), &null),
            decode::beside_of(v, u, "defaults", &null),
        ) {
            Ok(x) => x,
            Err(e) => return Err(e),
        };
        let nodes = match decode_nodes(
            or_nothing(decode::field(m, "nodes"), &null),
            decode::beside_of(v, u, "nodes", &null),
        ) {
            Ok(x) => x,
            Err(e) => return Err(e),
        };
        let limits = match Limits::decode(
            or_nothing(decode::field(m, "limits"), &null),
            decode::beside_of(v, u, "limits", &null),
        ) {
            Ok(x) => x,
            Err(e) => return Err(e),
        };
        let daemon = match Daemon::decode(
            or_nothing(decode::field(m, "daemon"), &null),
            decode::beside_of(v, u, "daemon", &null),
        ) {
            Ok(x) => x,
            Err(e) => return Err(e),
        };
        Ok(Config { template, defaults, nodes, limits, daemon })
    }

    /// The choices that a text holds: the built-in ones for an empty text.
    pub fn parse(s: &str) -> (r: Result<Config, Error>)
        ensures
            decode::read(r) == parsed(s@),
            decode::plain(r),
            yaml::is_comment(s@) ==> parsed(s@) == Ok::<ConfigV, Text>(d_config()),
    {
        proof {
            if yaml::is_comment(s@) {
                lemma_visible(s@);
                law_absent_is_default();
            }
        }
        if text::empty(text::trim(s).as_str()) {
            return Ok(Config::default());
        }
        match spelling::parse(s) {
            Ok((v, u)) => Config::decode(&v, &u),
            Err(e) => Err(e),
        }
    }
}

// ---------------------------------------------------------------------------
// What a file is to say: only what differs from the built-in choices.

/// One entry of a map, where it is to be there.
pub open spec fn entry(on: bool, name: Text, t: Tree) -> Seq<(Tree, Tree)> {
    if on {
        seq![(Tree::Str(name), t)]
    } else {
        Seq::empty()
    }
}

pub open spec fn number(n: nat) -> Tree {
    Tree::Number(num::dec(n))
}

pub open spec fn list_tree(l: Seq<Text>) -> Tree {
    Tree::List(l.map_values(|s: Text| Tree::Str(s)))
}

pub open spec fn storage_entry(s: Option<Text>) -> Seq<(Tree, Tree)> {
    match s {
        Some(s) => seq![(Tree::Str("storage"@), Tree::Str(s))],
        None => Seq::empty(),
    }
}

pub open spec fn template_tree(t: TemplateV) -> Tree {
    Tree::Dict(
        storage_entry(t.storage) + entry(
            t.base != d_template().base,
            "base"@,
            Tree::Str(t.base),
        ),
    )
}

pub open spec fn defaults_tree(d: DefaultsV) -> Tree {
    Tree::Dict(
        entry(
            d.rootfs_size != d_defaults().rootfs_size,
            "rootfs_size"@,
            Tree::Str(size::shown(d.rootfs_size)),
        ) + entry(d.owner != d_defaults().owner, "owner"@, Tree::Str(d.owner)) + entry(
            d.bridge != d_defaults().bridge,
            "bridge"@,
            Tree::Str(d.bridge),
        ) + entry(d.cores != d_defaults().cores, "cores"@, number(d.cores as nat)) + entry(
            d.memory != d_defaults().memory,
            "memory"@,
            number(d.memory as nat),
        ),
    )
}

pub open spec fn node_entry(e: (Text, Option<Text>)) -> (Tree, Tree) {
    (Tree::Str(e.0), Tree::Dict(storage_entry(e.1)))
}

pub open spec fn nodes_tree(n: Seq<(Text, Option<Text>)>) -> Tree {
    Tree::Dict(n.map_values(|e: (Text, Option<Text>)| node_entry(e)))
}

pub open spec fn limits_tree(l: LimitsV) -> Tree {
    Tree::Dict(
        entry(l.bind_roots.len() > 0, "bind_roots"@, list_tree(l.bind_roots)) + entry(
            l.storages.len() > 0,
            "storages"@,
            list_tree(l.storages),
        ) + entry(
            l.max_disk_gib != d_limits().max_disk_gib,
            "max_disk_gib"@,
            number(l.max_disk_gib as nat),
        ),
    )
}

pub open spec fn daemon_tree(d: Daemon) -> Tree {
    Tree::Dict(
        entry(d.interval != d_daemon().interval, "interval"@, number(d.interval as nat)) + entry(
            d.full_every != d_daemon().full_every,
            "full_every"@,
            number(d.full_every as nat),
        ),
    )
}

/// The document that holds the choices: only what differs from the built-in
/// ones.
pub open spec fn tree_of(c: ConfigV) -> Tree {
    Tree::Dict(
        entry(c.template != d_template(), "template"@, template_tree(c.template)) + entry(
            c.defaults != d_defaults(),
            "defaults"@,
            defaults_tree(c.defaults),
        ) + entry(c.nodes.len() > 0, "nodes"@, nodes_tree(c.nodes)) + entry(
            c.limits != d_limits(),
            "limits"@,
            limits_tree(c.limits),
        ) + entry(c.daemon != d_daemon(), "daemon"@, daemon_tree(c.daemon)),
    )
}

/// The first line of the file.
pub open spec fn header() -> Text {
    "# pve-compose: written by `pve-compose config` and `new`; every key optional.\n"@
}

/// The text of the file: the first line alone for the built-in choices.
pub open spec fn file_of(c: ConfigV) -> Result<Text, Text> {
    if c == d_config() {
        Ok(header())
    } else {
        match yaml::yaml_text(tree_of(c)) {
            Ok(t) => Ok(header() + t),
            Err(m) => Err(m),
        }
    }
}

// ---------------------------------------------------------------------------
// What is read back of what was written.

proof fn lemma_at(a: Seq<(Tree, Tree)>, b: Seq<(Tree, Tree)>, k: Tree)
    ensures
        yaml::at(a + b, k) == (match yaml::at(a, k) {
            Some(t) => Some(t),
            None => yaml::at(b, k),
        }),
    decreases a.len(),
{
    if a.len() == 0 {
        assert(a + b =~= b);
    } else {
        assert((a + b).skip(1) =~= a.skip(1) + b);
        lemma_at(a.skip(1), b, k);
    }
}

proof fn lemma_stranger(a: Seq<(Tree, Tree)>, b: Seq<(Tree, Tree)>, known: Seq<Text>)
    ensures
        decode::stranger(a + b, known) == (match decode::stranger(a, known) {
            Some(t) => Some(t),
            None => decode::stranger(b, known),
        }),
    decreases a.len(),
{
    if a.len() == 0 {
        assert(a + b =~= b);
    } else {
        assert((a + b).skip(1) =~= a.skip(1) + b);
        lemma_stranger(a.skip(1), b, known);
    }
}

proof fn lemma_entry(on: bool, name: Text, t: Tree, known: Seq<Text>, i: int)
    requires
        0 <= i < known.len(),
        known[i] == name,
    ensures
        forall|k: Text| #[trigger]
            yaml::at(entry(on, name, t), Tree::Str(k)) == (if on && k == name {
                Some(t)
            } else {
                None::<Tree>
            }),
        decode::stranger(entry(on, name, t), known) is None,
{
    let e = entry(on, name, t);
    if on {
        assert(e.skip(1) =~= Seq::empty());
        assert(e[0].0 == Tree::Str(known[i]));
        assert forall|k: Text| #[trigger]
            yaml::at(e, Tree::Str(k)) == (if k == name {
                Some(t)
            } else {
                None::<Tree>
            }) by {
            assert(yaml::at(e.skip(1), Tree::Str(k)) is None);
        }
        assert(decode::stranger(e.skip(1), known) is None);
    }
}

proof fn lemma_list_back(l: Seq<Text>, n: Seq<Tree>)
    ensures
        decode::scalars(list_tree(l)->List_0, n) == Ok::<Seq<Text>, Text>(l),
    decreases l.len(),
{
    let t = list_tree(l)->List_0;
    if l.len() > 0 {
        lemma_list_back(l.drop_last(), n.drop_last());
        assert(t.drop_last() =~= list_tree(l.drop_last())->List_0);
        assert(l.drop_last().push(l.last()) =~= l);
    } else {
        assert(l =~= Seq::empty());
    }
}

proof fn lemma_template_back(t: TemplateV, u: Tree)
    ensures
        template_of(template_tree(t), u) == Ok::<TemplateV, Text>(t),
{
    reveal_strlit("storage");
    reveal_strlit("base");
    let known = template_keys();
    let a = storage_entry(t.storage);
    let b = entry(t.base != d_template().base, "base"@, Tree::Str(t.base));
    assert(a =~= entry(
        t.storage is Some,
        "storage"@,
        Tree::Str(t.storage.unwrap_or(Seq::empty())),
    ));
    lemma_entry(
        t.storage is Some,
        "storage"@,
        Tree::Str(t.storage.unwrap_or(Seq::empty())),
        known,
        0,
    );
    lemma_entry(t.base != d_template().base, "base"@, Tree::Str(t.base), known, 1);
    lemma_stranger(a, b, known);
    decode::lemma_bare(a + b, known);
    lemma_at(a, b, Tree::Str("storage"@));
    lemma_at(a, b, Tree::Str("base"@));
    assert("storage"@ != "base"@) by {
        assert("storage"@.len() != "base"@.len());
    }
}

proof fn lemma_defaults_back(d: DefaultsV, u: Tree)
    requires
        size::readable(d.rootfs_size),
    ensures
        defaults_of(defaults_tree(d), u) == Ok::<DefaultsV, Text>(d),
{
    reveal_strlit("rootfs_size");
    reveal_strlit("owner");
    reveal_strlit("bridge");
    reveal_strlit("cores");
    reveal_strlit("memory");
    let known = defaults_keys();
    let a = entry(
        d.rootfs_size != d_defaults().rootfs_size,
        "rootfs_size"@,
        Tree::Str(size::shown(d.rootfs_size)),
    );
    let b = entry(d.owner != d_defaults().owner, "owner"@, Tree::Str(d.owner));
    let c = entry(d.bridge != d_defaults().bridge, "bridge"@, Tree::Str(d.bridge));
    let e = entry(d.cores != d_defaults().cores, "cores"@, number(d.cores as nat));
    let f = entry(d.memory != d_defaults().memory, "memory"@, number(d.memory as nat));
    lemma_entry(
        d.rootfs_size != d_defaults().rootfs_size,
        "rootfs_size"@,
        Tree::Str(size::shown(d.rootfs_size)),
        known,
        0,
    );
    lemma_entry(d.owner != d_defaults().owner, "owner"@, Tree::Str(d.owner), known, 1);
    lemma_entry(d.bridge != d_defaults().bridge, "bridge"@, Tree::Str(d.bridge), known, 2);
    lemma_entry(d.cores != d_defaults().cores, "cores"@, number(d.cores as nat), known, 3);
    lemma_entry(d.memory != d_defaults().memory, "memory"@, number(d.memory as nat), known, 4);
    lemma_stranger(a, b, known);
    lemma_stranger(a + b, c, known);
    lemma_stranger(a + b + c, e, known);
    lemma_stranger(a + b + c + e, f, known);
    decode::lemma_bare(a + b + c + e + f, known);
    assert("owner"@[0] != "cores"@[0]);
    assert("bridge"@[0] != "memory"@[0]);
    assert forall|k: Text| #[trigger]
        yaml::at(a + b + c + e + f, Tree::Str(k)) == (match yaml::at(a, Tree::Str(k)) {
            Some(t) => Some(t),
            None => match yaml::at(b, Tree::Str(k)) {
                Some(t) => Some(t),
                None => match yaml::at(c, Tree::Str(k)) {
                    Some(t) => Some(t),
                    None => match yaml::at(e, Tree::Str(k)) {
                        Some(t) => Some(t),
                        None => yaml::at(f, Tree::Str(k)),
                    },
                },
            },
        }) by {
        lemma_at(a, b, Tree::Str(k));
        lemma_at(a + b, c, Tree::Str(k));
        lemma_at(a + b + c, e, Tree::Str(k));
        lemma_at(a + b + c + e, f, Tree::Str(k));
    }
    size::law_print_parse(d.rootfs_size);
    num::law_print_parse(d.cores as nat);
    num::law_print_parse(d.memory as nat);
}

proof fn lemma_node_back(v: Option<Text>, u: Tree)
    ensures
        node_of(Tree::Dict(storage_entry(v)), u) == Ok::<Option<Text>, Text>(v),
{
    let x = Tree::Str(v.unwrap_or(Seq::empty()));
    assert(storage_entry(v) =~= entry(v is Some, "storage"@, x));
    lemma_entry(v is Some, "storage"@, x, seq!["storage"@], 0);
    decode::lemma_bare(storage_entry(v), seq!["storage"@]);
}

proof fn lemma_nodes_back(n: Seq<(Text, Option<Text>)>, side: Seq<(Tree, Tree)>)
    requires
        table::sorted(n),
    ensures
        nodes_from(nodes_tree(n)->Dict_0, side) == Ok::<Seq<(Text, Option<Text>)>, Text>(n),
    decreases n.len(),
{
    let t = nodes_tree(n)->Dict_0;
    if n.len() > 0 {
        let m = n.drop_last();
        assert forall|i: int, j: int| 0 <= i < j < m.len() implies table::below(
            #[trigger] m[i].0,
            #[trigger] m[j].0,
        ) by {
            assert(m[i] == n[i] && m[j] == n[j]);
        }
        lemma_nodes_back(m, side.drop_last());
        assert(t.drop_last() =~= nodes_tree(m)->Dict_0);
        assert(t.last() == node_entry(n.last()));
        lemma_node_back(n.last().1, side.last().1);
        assert forall|i: int| 0 <= i < m.len() implies table::below(
            #[trigger] m[i].0,
            n.last().0,
        ) by {
            assert(m[i] == n[i]);
        }
        table::lemma_insert_last(m, n.last().0, n.last().1);
        assert(m.push(n.last()) =~= n);
    } else {
        assert(n =~= Seq::empty());
    }
}

proof fn lemma_limits_back(l: LimitsV, u: Tree)
    ensures
        limits_of(limits_tree(l), u) == Ok::<LimitsV, Text>(l),
{
    reveal_strlit("bind_roots");
    reveal_strlit("storages");
    reveal_strlit("max_disk_gib");
    let known = limits_keys();
    let a = entry(l.bind_roots.len() > 0, "bind_roots"@, list_tree(l.bind_roots));
    let b = entry(l.storages.len() > 0, "storages"@, list_tree(l.storages));
    let c = entry(
        l.max_disk_gib != d_limits().max_disk_gib,
        "max_disk_gib"@,
        number(l.max_disk_gib as nat),
    );
    lemma_entry(l.bind_roots.len() > 0, "bind_roots"@, list_tree(l.bind_roots), known, 0);
    lemma_entry(l.storages.len() > 0, "storages"@, list_tree(l.storages), known, 1);
    lemma_entry(
        l.max_disk_gib != d_limits().max_disk_gib,
        "max_disk_gib"@,
        number(l.max_disk_gib as nat),
        known,
        2,
    );
    lemma_stranger(a, b, known);
    lemma_stranger(a + b, c, known);
    decode::lemma_bare(a + b + c, known);
    assert forall|k: Text| #[trigger]
        yaml::at(a + b + c, Tree::Str(k)) == (match yaml::at(a, Tree::Str(k)) {
            Some(t) => Some(t),
            None => match yaml::at(b, Tree::Str(k)) {
                Some(t) => Some(t),
                None => yaml::at(c, Tree::Str(k)),
            },
        }) by {
        lemma_at(a, b, Tree::Str(k));
        lemma_at(a + b, c, Tree::Str(k));
    }
    let t = limits_tree(l);
    let x = list_tree(l.bind_roots)->List_0;
    let y = list_tree(l.storages)->List_0;
    lemma_list_back(l.bind_roots, decode::twin_items(x, decode::beside(t, u, "bind_roots"@)));
    lemma_list_back(l.storages, decode::twin_items(y, decode::beside(t, u, "storages"@)));
    num::law_print_parse(l.max_disk_gib as nat);
    assert(l.bind_roots.len() == 0 ==> l.bind_roots =~= Seq::empty());
    assert(l.storages.len() == 0 ==> l.storages =~= Seq::empty());
    assert("bind_roots"@.len() == 10 && "storages"@.len() == 8 && "max_disk_gib"@.len() == 12);
    let m = a + b + c;
    assert(limits_tree(l) == Tree::Dict(m));
    assert(decode::fields(limits_tree(l), u, known) == Ok::<Seq<(Tree, Tree)>, Text>(m));
    assert(decode::list(
        yaml::at(m, Tree::Str("bind_roots"@)),
        decode::beside(t, u, "bind_roots"@),
    ) == Ok::<Seq<Text>, Text>(l.bind_roots));
    assert(decode::list(
        yaml::at(m, Tree::Str("storages"@)),
        decode::beside(t, u, "storages"@),
    ) == Ok::<Seq<Text>, Text>(l.storages));
}

proof fn lemma_daemon_back(d: Daemon, u: Tree)
    ensures
        daemon_of(daemon_tree(d), u) == Ok::<Daemon, Text>(d),
{
    reveal_strlit("interval");
    reveal_strlit("full_every");
    let known = daemon_keys();
    let a = entry(d.interval != d_daemon().interval, "interval"@, number(d.interval as nat));
    let b = entry(
        d.full_every != d_daemon().full_every,
        "full_every"@,
        number(d.full_every as nat),
    );
    lemma_entry(
        d.interval != d_daemon().interval,
        "interval"@,
        number(d.interval as nat),
        known,
        0,
    );
    lemma_entry(
        d.full_every != d_daemon().full_every,
        "full_every"@,
        number(d.full_every as nat),
        known,
        1,
    );
    lemma_stranger(a, b, known);
    decode::lemma_bare(a + b, known);
    lemma_at(a, b, Tree::Str("interval"@));
    lemma_at(a, b, Tree::Str("full_every"@));
    num::law_print_parse(d.interval as nat);
    num::law_print_parse(d.full_every as nat);
    assert("interval"@.len() != "full_every"@.len());
}

/// The document of the choices holds them: what is written is read back. The
/// nodes are in order, as a [`Table`] keeps them, and the root size is a whole
/// number of KiB, without which its printed form says something else.
pub proof fn law_read_back(c: ConfigV, u: Tree)
    requires
        table::sorted(c.nodes),
        size::readable(c.defaults.rootfs_size),
    ensures
        config_of(tree_of(c), u) == Ok::<ConfigV, Text>(c),
{
    reveal_strlit("template");
    reveal_strlit("defaults");
    reveal_strlit("nodes");
    reveal_strlit("limits");
    reveal_strlit("daemon");
    let known = config_keys();
    let a = entry(c.template != d_template(), "template"@, template_tree(c.template));
    let b = entry(c.defaults != d_defaults(), "defaults"@, defaults_tree(c.defaults));
    let n = entry(c.nodes.len() > 0, "nodes"@, nodes_tree(c.nodes));
    let l = entry(c.limits != d_limits(), "limits"@, limits_tree(c.limits));
    let d = entry(c.daemon != d_daemon(), "daemon"@, daemon_tree(c.daemon));
    lemma_entry(c.template != d_template(), "template"@, template_tree(c.template), known, 0);
    lemma_entry(c.defaults != d_defaults(), "defaults"@, defaults_tree(c.defaults), known, 1);
    lemma_entry(c.nodes.len() > 0, "nodes"@, nodes_tree(c.nodes), known, 2);
    lemma_entry(c.limits != d_limits(), "limits"@, limits_tree(c.limits), known, 3);
    lemma_entry(c.daemon != d_daemon(), "daemon"@, daemon_tree(c.daemon), known, 4);
    lemma_stranger(a, b, known);
    lemma_stranger(a + b, n, known);
    lemma_stranger(a + b + n, l, known);
    lemma_stranger(a + b + n + l, d, known);
    decode::lemma_bare(a + b + n + l + d, known);
    assert("template"@[0] != "defaults"@[0]);
    assert("limits"@[0] != "daemon"@[0]);
    assert forall|k: Text| #[trigger]
        yaml::at(a + b + n + l + d, Tree::Str(k)) == (match yaml::at(a, Tree::Str(k)) {
            Some(t) => Some(t),
            None => match yaml::at(b, Tree::Str(k)) {
                Some(t) => Some(t),
                None => match yaml::at(n, Tree::Str(k)) {
                    Some(t) => Some(t),
                    None => match yaml::at(l, Tree::Str(k)) {
                        Some(t) => Some(t),
                        None => yaml::at(d, Tree::Str(k)),
                    },
                },
            },
        }) by {
        lemma_at(a, b, Tree::Str(k));
        lemma_at(a + b, n, Tree::Str(k));
        lemma_at(a + b + n, l, Tree::Str(k));
        lemma_at(a + b + n + l, d, Tree::Str(k));
    }
    let t = tree_of(c);
    let side = decode::beside(t, u, "nodes"@);
    let m = t->Dict_0;
    let w = decode::twins(m, u);
    assert(m == a + b + n + l + d);
    decode::lemma_twin_absent(m, w, "template"@);
    decode::lemma_twin_absent(m, w, "defaults"@);
    decode::lemma_twin_absent(m, w, "nodes"@);
    decode::lemma_twin_absent(m, w, "limits"@);
    decode::lemma_twin_absent(m, w, "daemon"@);
    lemma_template_back(c.template, decode::beside(t, u, "template"@));
    lemma_defaults_back(c.defaults, decode::beside(t, u, "defaults"@));
    lemma_nodes_back(c.nodes, decode::twins(nodes_tree(c.nodes)->Dict_0, side));
    lemma_limits_back(c.limits, decode::beside(t, u, "limits"@));
    lemma_daemon_back(c.daemon, decode::beside(t, u, "daemon"@));
    lemma_absent_is_default();
    assert(c.nodes.len() == 0 ==> c.nodes =~= Seq::empty());
}

proof fn lemma_absent_is_default()
    ensures
        template_of(Tree::Null, Tree::Null) == Ok::<TemplateV, Text>(d_template()),
        defaults_of(Tree::Null, Tree::Null) == Ok::<DefaultsV, Text>(d_defaults()),
        nodes_of(Tree::Null, Tree::Null) == Ok::<Seq<(Text, Option<Text>)>, Text>(Seq::empty()),
        limits_of(Tree::Null, Tree::Null) == Ok::<LimitsV, Text>(d_limits()),
        daemon_of(Tree::Null, Tree::Null) == Ok::<Daemon, Text>(d_daemon()),
{
    decode::lemma_bare(Seq::empty(), template_keys());
    decode::lemma_bare(Seq::empty(), defaults_keys());
    decode::lemma_bare(Seq::empty(), limits_keys());
    decode::lemma_bare(Seq::empty(), daemon_keys());
}

/// An empty document, and one without any key, hold the built-in choices.
pub proof fn law_absent_is_default()
    ensures
        config_of(Tree::Null, Tree::Null) == Ok::<ConfigV, Text>(d_config()),
        config_of(Tree::Dict(Seq::empty()), Tree::Dict(Seq::empty())) == Ok::<ConfigV, Text>(d_config()),
{
    decode::lemma_bare(Seq::empty(), config_keys());
    lemma_absent_is_default();
}

fn put(m: &mut Vec<(Yaml, Yaml)>, on: bool, name: &str, v: Yaml)
    ensures
        yaml::entries(final(m)@) == yaml::entries(old(m)@) + entry(on, name@, v@),
{
    if on {
        m.push((Yaml::text(name), v));
    }
    assert(yaml::entries(m@) =~= yaml::entries(old(m)@) + entry(on, name@, v@));
}

fn put_storage(m: &mut Vec<(Yaml, Yaml)>, s: &Option<String>)
    ensures
        yaml::entries(final(m)@) == yaml::entries(old(m)@) + storage_entry(text::opt(*s)),
{
    if let Some(s) = s {
        m.push((Yaml::text("storage"), Yaml::text(s.as_str())));
    }
    assert(yaml::entries(m@) =~= yaml::entries(old(m)@) + storage_entry(text::opt(*s)));
}

fn encode_number(n: u64) -> (r: Yaml)
    ensures
        r@ == number(n as nat),
{
    Yaml::Number(num::print(n))
}

fn encode_list(l: &Vec<String>) -> (r: Yaml)
    ensures
        r@ == list_tree(text::views(l@)),
{
    let mut out: Vec<Yaml> = Vec::new();
    for i in 0..l.len()
        invariant
            out@.len() == i,
            forall|j: int| 0 <= j < i ==> (#[trigger] out@[j])@ == Tree::Str(l@[j]@),
    {
        out.push(Yaml::text(l[i].as_str()));
    }
    assert(text::views(out@) =~= text::views(l@).map_values(|s: Text| Tree::Str(s)));
    Yaml::seq(out)
}

impl Template {
    fn encode(&self) -> (r: Yaml)
        ensures
            r@ == template_tree(self@),
    {
        let mut m: Vec<(Yaml, Yaml)> = Vec::new();
        assert(yaml::entries(m@) =~= Seq::empty());
        put_storage(&mut m, &self.storage);
        put(
            &mut m,
            !text::same(self.base.as_str(), "debian-13-standard"),
            "base",
            Yaml::text(self.base.as_str()),
        );
        assert(Seq::empty() + storage_entry(self@.storage) =~= storage_entry(self@.storage));
        Yaml::map(m)
    }

    /// Whether these are the same choices.
    pub fn same(&self, o: &Template) -> (r: bool)
        ensures
            r == (self@ == o@),
    {
        same_opt(&self.storage, &o.storage) && text::same(self.base.as_str(), o.base.as_str())
    }
}

fn same_opt(a: &Option<String>, b: &Option<String>) -> (r: bool)
    ensures
        r == (text::opt(*a) == text::opt(*b)),
{
    match (a, b) {
        (Some(x), Some(y)) => text::same(x.as_str(), y.as_str()),
        (None, None) => true,
        _ => false,
    }
}

impl Defaults {
    fn encode(&self) -> (r: Yaml)
        ensures
            r@ == defaults_tree(self@),
    {
        let mut m: Vec<(Yaml, Yaml)> = Vec::new();
        assert(yaml::entries(m@) =~= Seq::empty());
        put(
            &mut m,
            self.rootfs_size.0 != 8589934592,
            "rootfs_size",
            Yaml::text(self.rootfs_size.to_string().as_str()),
        );
        assert(yaml::entries(m@) =~= entry(
            self@.rootfs_size != d_defaults().rootfs_size,
            "rootfs_size"@,
            Tree::Str(size::shown(self@.rootfs_size)),
        ));
        put(
            &mut m,
            !text::same(self.owner.as_str(), "1000:1000"),
            "owner",
            Yaml::text(self.owner.as_str()),
        );
        put(
            &mut m,
            !text::same(self.bridge.as_str(), "vmbr0"),
            "bridge",
            Yaml::text(self.bridge.as_str()),
        );
        put(&mut m, self.cores != 2, "cores", encode_number(self.cores as u64));
        put(&mut m, self.memory != 2048, "memory", encode_number(self.memory));
        Yaml::map(m)
    }

    /// Whether these are the same choices.
    pub fn same(&self, o: &Defaults) -> (r: bool)
        ensures
            r == (self@ == o@),
    {
        self.rootfs_size.0 == o.rootfs_size.0 && text::same(self.owner.as_str(), o.owner.as_str())
            && text::same(self.bridge.as_str(), o.bridge.as_str()) && self.cores == o.cores
            && self.memory == o.memory
    }
}

fn encode_nodes(t: &Table<NodeOverrides>) -> (r: Yaml)
    ensures
        r@ == nodes_tree(t@),
{
    let mut m: Vec<(Yaml, Yaml)> = Vec::new();
    for i in 0..t.entries.len()
        invariant
            m@.len() == i,
            forall|j: int|
                0 <= j < i ==> ((#[trigger] m@[j]).0@, m@[j].1@) == node_entry(
                    (t.entries@[j].0@, t.entries@[j].1@),
                ),
    {
        let mut n: Vec<(Yaml, Yaml)> = Vec::new();
        assert(yaml::entries(n@) =~= Seq::empty());
        put_storage(&mut n, &t.entries[i].1.storage);
        assert(yaml::entries(n@) =~= storage_entry(t.entries@[i as int].1@));
        m.push((Yaml::text(t.entries[i].0.as_str()), Yaml::map(n)));
    }
    assert(yaml::entries(m@) =~= t@.map_values(|e: (Text, Option<Text>)| node_entry(e)));
    Yaml::map(m)
}

fn same_nodes(a: &Table<NodeOverrides>, b: &Table<NodeOverrides>) -> (r: bool)
    ensures
        r == (a@ == b@),
{
    if a.entries.len() != b.entries.len() {
        assert(a@.len() != b@.len());
        return false;
    }
    for i in 0..a.entries.len()
        invariant
            a.entries@.len() == b.entries@.len(),
            forall|j: int| 0 <= j < i ==> a@[j] == b@[j],
    {
        if !text::same(a.entries[i].0.as_str(), b.entries[i].0.as_str()) || !same_opt(
            &a.entries[i].1.storage,
            &b.entries[i].1.storage,
        ) {
            assert(a@[i as int] != b@[i as int]);
            return false;
        }
    }
    assert(a@ =~= b@);
    true
}

impl Limits {
    fn encode(&self) -> (r: Yaml)
        ensures
            r@ == limits_tree(self@),
    {
        let mut m: Vec<(Yaml, Yaml)> = Vec::new();
        assert(yaml::entries(m@) =~= Seq::empty());
        put(&mut m, self.bind_roots.len() > 0, "bind_roots", encode_list(&self.bind_roots));
        assert(yaml::entries(m@) =~= entry(
            self@.bind_roots.len() > 0,
            "bind_roots"@,
            list_tree(self@.bind_roots),
        ));
        put(&mut m, self.storages.len() > 0, "storages", encode_list(&self.storages));
        put(&mut m, self.max_disk_gib != 64, "max_disk_gib", encode_number(self.max_disk_gib));
        Yaml::map(m)
    }

    /// Whether these are the same choices.
    pub fn same(&self, o: &Limits) -> (r: bool)
        ensures
            r == (self@ == o@),
    {
        text::same_list(&self.bind_roots, &o.bind_roots) && text::same_list(
            &self.storages,
            &o.storages,
        ) && self.max_disk_gib == o.max_disk_gib
    }
}

impl Daemon {
    fn encode(&self) -> (r: Yaml)
        ensures
            r@ == daemon_tree(*self),
    {
        let mut m: Vec<(Yaml, Yaml)> = Vec::new();
        assert(yaml::entries(m@) =~= Seq::empty());
        put(&mut m, self.interval != 30, "interval", encode_number(self.interval));
        assert(yaml::entries(m@) =~= entry(
            self.interval != 30,
            "interval"@,
            number(self.interval as nat),
        ));
        put(&mut m, self.full_every != 600, "full_every", encode_number(self.full_every));
        Yaml::map(m)
    }
}

impl Clone for Limits {
    fn clone(&self) -> (r: Limits)
        ensures
            r@ == self@,
    {
        Limits {
            bind_roots: text::copies(&self.bind_roots),
            storages: text::copies(&self.storages),
            max_disk_gib: self.max_disk_gib,
        }
    }
}

impl Clone for Config {
    fn clone(&self) -> (r: Config)
        ensures
            r@ == self@,
    {
        let mut entries: Vec<(String, NodeOverrides)> = Vec::new();
        for i in 0..self.nodes.entries.len()
            invariant
                entries@.len() == i,
                forall|j: int|
                    0 <= j < i ==> (#[trigger] entries@[j]).0@ == self.nodes.entries@[j].0@
                        && entries@[j].1@ == self.nodes.entries@[j].1@,
        {
            let n = NodeOverrides { storage: text::copy(&self.nodes.entries[i].1.storage) };
            entries.push((self.nodes.entries[i].0.clone(), n));
        }
        let nodes = Table { entries };
        assert(nodes@ =~= self.nodes@);
        Config {
            template: Template {
                storage: text::copy(&self.template.storage),
                base: self.template.base.clone(),
            },
            defaults: Defaults {
                rootfs_size: self.defaults.rootfs_size,
                owner: self.defaults.owner.clone(),
                bridge: self.defaults.bridge.clone(),
                cores: self.defaults.cores,
                memory: self.defaults.memory,
            },
            nodes,
            limits: self.limits.clone(),
            daemon: self.daemon,
        }
    }
}

// ---------------------------------------------------------------------------
// The file, and the choices for a node.

pub open spec fn load_from_s(w: WorldV, path: Text) -> (WorldV, Result<ConfigV, StopV>) {
    match w.act(ActV::Read { path }) {
        (w, Err(e)) => (w, Err(world::under("cannot read "@ + path, e))),
        (w, Ok(o)) => if o.status == MISSING {
            (w, Ok(d_config()))
        } else {
            match parsed(o.stdout) {
                Ok(c) => (w, Ok(c)),
                Err(m) => (w, Err(StopV::Fail(seq![path + ": bad configuration"@, m]))),
            }
        },
    }
}

pub open spec fn save_to_s(c: ConfigV, w: WorldV, path: Text) -> (WorldV, Result<(), StopV>) {
    match file_of(c) {
        Err(m) => (w, Err(world::failed(m))),
        Ok(text) => match w.act(ActV::Replace { path, text }) {
            (w, Ok(_)) => (w, Ok(())),
            (w, Err(e)) => (w, Err(e)),
        },
    }
}

/// The disk storage stored for a node.
pub open spec fn storage_for(c: ConfigV, node: Text) -> Option<Text> {
    match table::lookup(c.nodes, node) {
        Some(s) => s,
        None => None,
    }
}

/// The bounds that a document on a node is held to: without a list of
/// storages, the node's own is the one allowed.
pub open spec fn limits_for(c: ConfigV, node: Text) -> LimitsV {
    if c.limits.storages.len() > 0 {
        c.limits
    } else {
        LimitsV {
            storages: match storage_for(c, node) {
                Some(s) => seq![s],
                None => Seq::empty(),
            },
            ..c.limits
        }
    }
}

/// With the disk storage of a node set, or forgotten.
pub open spec fn with_storage(c: ConfigV, node: Text, storage: Option<Text>) -> ConfigV {
    ConfigV {
        nodes: match storage {
            Some(s) => table::inserted(c.nodes, node, Some(s)),
            None => table::removed(c.nodes, node),
        },
        ..c
    }
}

/// What was asked for and is to be stored, applied to the choices.
pub open spec fn with_answers(
    c: ConfigV,
    template: Option<Text>,
    node: Text,
    storage: Option<Text>,
) -> ConfigV {
    let c = match template {
        Some(t) => ConfigV { template: TemplateV { storage: Some(t), ..c.template }, ..c },
        None => c,
    };
    match storage {
        Some(s) => with_storage(c, node, Some(s)),
        None => c,
    }
}

/// The choices stored, and given back.
pub open spec fn stored_s(w: WorldV, c: ConfigV) -> (WorldV, Result<ConfigV, StopV>) {
    match save_to_s(c, w, PATH@) {
        (w, Err(e)) => (w, Err(e)),
        (w, Ok(_)) => (w, Ok(c)),
    }
}

/// The file as it is now, changed and stored.
pub open spec fn update_s(w: WorldV, change: spec_fn(ConfigV) -> ConfigV) -> (
    WorldV,
    Result<ConfigV, StopV>,
) {
    match load_from_s(w, PATH@) {
        (w, Err(e)) => (w, Err(e)),
        (w, Ok(c)) => stored_s(w, change(c)),
    }
}

impl Config {
    /// The document that holds the choices.
    pub fn encode(&self) -> (r: Yaml)
        ensures
            r@ == tree_of(self@),
    {
        let d = Config::default();
        let mut m: Vec<(Yaml, Yaml)> = Vec::new();
        assert(yaml::entries(m@) =~= Seq::empty());
        put(&mut m, !self.template.same(&d.template), "template", self.template.encode());
        assert(yaml::entries(m@) =~= entry(
            self@.template != d_template(),
            "template"@,
            template_tree(self@.template),
        ));
        put(&mut m, !self.defaults.same(&d.defaults), "defaults", self.defaults.encode());
        put(&mut m, !self.nodes.is_empty(), "nodes", encode_nodes(&self.nodes));
        put(&mut m, !self.limits.same(&d.limits), "limits", self.limits.encode());
        put(
            &mut m,
            self.daemon.interval != 30 || self.daemon.full_every != 600,
            "daemon",
            self.daemon.encode(),
        );
        Yaml::map(m)
    }

    /// Whether these are the same choices.
    pub fn same(&self, o: &Config) -> (r: bool)
        ensures
            r == (self@ == o@),
    {
        self.template.same(&o.template) && self.defaults.same(&o.defaults) && same_nodes(
            &self.nodes,
            &o.nodes,
        ) && self.limits.same(&o.limits) && self.daemon.interval == o.daemon.interval
            && self.daemon.full_every == o.daemon.full_every
    }

    /// The text of the file: only what differs from the built-in choices, so
    /// the file says exactly what was chosen.
    pub fn file(&self) -> (r: Result<String, Error>)
        ensures
            decode::read(r) == file_of(self@),
            decode::plain(r),
            r is Ok && writable(self@) ==> reloads(self@),
    {
        let header =
            "# pve-compose: written by `pve-compose config` and `new`; every key optional.\n";
        proof {
            lemma_header();
        }
        if self.same(&Config::default()) {
            // What is about to be written has to be what is read.
            return match Config::parse(header) {
                Ok(_) => Ok(header.to_owned()),
                Err(e) => Err(e),
            };
        }
        match yaml::print(&self.encode()) {
            Ok(t) => {
                proof {
                    if writable(self@) {
                        lemma_config_simple(self@);
                        law_saved_is_loaded(self@, header@ + t@);
                    }
                }
                Ok(text::cat(header, t.as_str()))
            },
            Err(e) => Err(e),
        }
    }

    /// Loads the file, or the built-in defaults when it does not exist.
    pub fn load(w: &mut World) -> (r: Result<Config, Stop>)
        ensures
            (final(w)@, world::res(r)) == load_from_s(old(w)@, PATH@),
    {
        Config::load_from(w, PATH)
    }

    pub fn load_from(w: &mut World, path: &str) -> (r: Result<Config, Stop>)
        ensures
            (final(w)@, world::res(r)) == load_from_s(old(w)@, path@),
    {
        let o = match w.act(Act::Read { path: path.to_owned() }) {
            Ok(o) => o,
            Err(e) => return Err(e.under(text::cat("cannot read ", path))),
        };
        if o.status == MISSING {
            return Ok(Config::default());
        }
        match Config::parse(o.stdout.as_str()) {
            Ok(c) => Ok(c),
            Err(e) => {
                let ghost m = e@[0];
                let e = e.context(text::cat(path, ": bad configuration"));
                assert(e@ =~= seq![path@ + ": bad configuration"@, m]);
                Err(Stop::Fail(e))
            },
        }
    }

    /// Writes the file.
    pub fn save(&self, w: &mut World) -> (r: Result<(), Stop>)
        ensures
            (final(w)@, world::res(r)) == save_to_s(self@, old(w)@, PATH@),
            r is Ok && writable(self@) ==> reloads(self@),
    {
        self.save_to(w, PATH)
    }

    pub fn save_to(&self, w: &mut World, path: &str) -> (r: Result<(), Stop>)
        ensures
            (final(w)@, world::res(r)) == save_to_s(self@, old(w)@, path@),
            r is Ok && writable(self@) ==> reloads(self@),
    {
        let text = match self.file() {
            Ok(t) => t,
            Err(e) => {
                assert(e@ =~= seq![e@[0]]);
                return Err(Stop::Fail(e));
            },
        };
        match w.act(Act::Replace { path: path.to_owned(), text }) {
            Ok(_) => Ok(()),
            Err(e) => Err(e),
        }
    }

    /// Stores what was asked for.
    pub fn answer(&mut self, template: Option<&str>, node: &str, storage: Option<&str>)
        ensures
            final(self)@ == with_answers(
                old(self)@,
                text::opt(template),
                node@,
                text::opt(storage),
            ),
    {
        if let Some(t) = template {
            self.template.storage = Some(t.to_owned());
        }
        if let Some(s) = storage {
            self.set_storage_for(node, Some(s.to_owned()));
        }
    }

    /// Re-reads the file and applies `change` to what is there now, then
    /// saves: a writer that loaded the config a while ago (a `new` that
    /// waited on a question) must not clobber what another node wrote in
    /// between.
    pub fn update(w: &mut World, change: impl FnOnce(&mut Config)) -> (r: Result<Config, Stop>)
        requires
            forall|c: &mut Config| call_requires(change, (c,)),
        ensures
            match load_from_s(old(w)@, PATH@) {
                (v, Err(e)) => final(w)@ == v && world::res(r) == Err::<ConfigV, StopV>(e),
                (v, Ok(c)) => exists|m: &mut Config|
                    call_ensures(change, (m,), ()) && (*m)@ == c && (final(w)@, world::res(r))
                        == stored_s(v, (*final(m))@),
            },
            r matches Ok(c) ==> (writable(c@) ==> reloads(c@)),
    {
        let mut c = match Config::load(w) {
            Ok(c) => c,
            Err(e) => return Err(e),
        };
        change(&mut c);
        match c.save(w) {
            Ok(_) => Ok(c),
            Err(e) => Err(e),
        }
    }

    /// The persisted disk storage for `node`, if any.
    pub fn storage_for(&self, node: &str) -> (r: Option<String>)
        ensures
            text::opt(r) == storage_for(self@, node@),
    {
        match self.nodes.get(node) {
            Some(n) => text::copy(&n.storage),
            None => None,
        }
    }

    /// The bounds a document on `node` is held to, with an empty storage
    /// allow-list resolved to that node's own disk storage: a document may
    /// name the storage its volumes would land on anyway, and nothing else
    /// until `limits.storages` says so.
    pub fn limits_for(&self, node: &str) -> (r: Limits)
        ensures
            r@ == limits_for(self@, node@),
    {
        let mut l = self.limits.clone();
        if l.storages.len() == 0 {
            match self.storage_for(node) {
                Some(s) => {
                    l.storages = vec![s];
                    assert(text::views(l.storages@) =~= seq![s@]);
                },
                None => {
                    assert(text::views(l.storages@) =~= Seq::empty());
                },
            }
        }
        l
    }

    pub fn set_storage_for(&mut self, node: &str, storage: Option<String>)
        ensures
            final(self)@ == with_storage(old(self)@, node@, text::opt(storage)),
    {
        match storage {
            Some(s) => {
                self.nodes.insert(node.to_owned(), NodeOverrides { storage: Some(s) });
            },
            None => {
                self.nodes.remove(node);
            },
        }
    }
}

/// Where a key stands among five parts.
proof fn lemma_five(
    a: Seq<(Tree, Tree)>,
    b: Seq<(Tree, Tree)>,
    c: Seq<(Tree, Tree)>,
    d: Seq<(Tree, Tree)>,
    e: Seq<(Tree, Tree)>,
    k: Tree,
)
    ensures
        yaml::at(a + b + c + d + e, k) is Some <==> yaml::at(a, k) is Some || yaml::at(
            b,
            k,
        ) is Some || yaml::at(c, k) is Some || yaml::at(d, k) is Some || yaml::at(e, k) is Some,
{
    lemma_at(a, b, k);
    lemma_at(a + b, c, k);
    lemma_at(a + b + c, d, k);
    lemma_at(a + b + c + d, e, k);
}

proof fn lemma_entry_is(on: bool, name: Text, t: Tree, k: Text)
    ensures
        yaml::at(entry(on, name, t), Tree::Str(k)) is Some <==> on && k == name,
{
    lemma_entry(on, name, t, seq![name], 0);
}

/// Only what differs from the built-in choices is written: a section stands
/// in the document where the choices in it differ, and so does each of the
/// defaults for `new`.
pub proof fn law_only_choices_are_written(c: ConfigV)
    ensures
        yaml::get(tree_of(c), "template"@) is Some <==> c.template != d_template(),
        yaml::get(tree_of(c), "defaults"@) is Some <==> c.defaults != d_defaults(),
        yaml::get(tree_of(c), "nodes"@) is Some <==> c.nodes.len() > 0,
        yaml::get(tree_of(c), "limits"@) is Some <==> c.limits != d_limits(),
        yaml::get(tree_of(c), "daemon"@) is Some <==> c.daemon != d_daemon(),
        ({
            let t = defaults_tree(c.defaults);
            let d = d_defaults();
            &&& yaml::get(t, "rootfs_size"@) is Some <==> c.defaults.rootfs_size != d.rootfs_size
            &&& yaml::get(t, "owner"@) is Some <==> c.defaults.owner != d.owner
            &&& yaml::get(t, "bridge"@) is Some <==> c.defaults.bridge != d.bridge
            &&& yaml::get(t, "cores"@) is Some <==> c.defaults.cores != d.cores
            &&& yaml::get(t, "memory"@) is Some <==> c.defaults.memory != d.memory
        }),
{
    reveal_strlit("template");
    reveal_strlit("defaults");
    reveal_strlit("nodes");
    reveal_strlit("limits");
    reveal_strlit("daemon");
    assert("template"@[0] == 't' && "defaults"@[0] == 'd' && "nodes"@[0] == 'n' && "limits"@[0]
        == 'l' && "daemon"@[0] == 'd' && "defaults"@.len() != "daemon"@.len());
    lemma_sections(c, "template"@);
    lemma_sections(c, "defaults"@);
    lemma_sections(c, "nodes"@);
    lemma_sections(c, "limits"@);
    lemma_sections(c, "daemon"@);
    reveal_strlit("rootfs_size");
    reveal_strlit("owner");
    reveal_strlit("bridge");
    reveal_strlit("cores");
    reveal_strlit("memory");
    assert("rootfs_size"@[0] == 'r' && "owner"@[0] == 'o' && "bridge"@[0] == 'b' && "cores"@[0]
        == 'c' && "memory"@[0] == 'm');
    lemma_defaults_fields(c.defaults, "rootfs_size"@);
    lemma_defaults_fields(c.defaults, "owner"@);
    lemma_defaults_fields(c.defaults, "bridge"@);
    lemma_defaults_fields(c.defaults, "cores"@);
    lemma_defaults_fields(c.defaults, "memory"@);
}

proof fn lemma_sections(c: ConfigV, k: Text)
    ensures
        yaml::get(tree_of(c), k) is Some <==> {
            ||| c.template != d_template() && k == "template"@
            ||| c.defaults != d_defaults() && k == "defaults"@
            ||| c.nodes.len() > 0 && k == "nodes"@
            ||| c.limits != d_limits() && k == "limits"@
            ||| c.daemon != d_daemon() && k == "daemon"@
        },
{
    lemma_entry_is(c.template != d_template(), "template"@, template_tree(c.template), k);
    lemma_entry_is(c.defaults != d_defaults(), "defaults"@, defaults_tree(c.defaults), k);
    lemma_entry_is(c.nodes.len() > 0, "nodes"@, nodes_tree(c.nodes), k);
    lemma_entry_is(c.limits != d_limits(), "limits"@, limits_tree(c.limits), k);
    lemma_entry_is(c.daemon != d_daemon(), "daemon"@, daemon_tree(c.daemon), k);
    lemma_five(
        entry(c.template != d_template(), "template"@, template_tree(c.template)),
        entry(c.defaults != d_defaults(), "defaults"@, defaults_tree(c.defaults)),
        entry(c.nodes.len() > 0, "nodes"@, nodes_tree(c.nodes)),
        entry(c.limits != d_limits(), "limits"@, limits_tree(c.limits)),
        entry(c.daemon != d_daemon(), "daemon"@, daemon_tree(c.daemon)),
        Tree::Str(k),
    );
}

proof fn lemma_defaults_fields(d: DefaultsV, k: Text)
    ensures
        yaml::get(defaults_tree(d), k) is Some <==> {
            ||| d.rootfs_size != d_defaults().rootfs_size && k == "rootfs_size"@
            ||| d.owner != d_defaults().owner && k == "owner"@
            ||| d.bridge != d_defaults().bridge && k == "bridge"@
            ||| d.cores != d_defaults().cores && k == "cores"@
            ||| d.memory != d_defaults().memory && k == "memory"@
        },
{
    let a = Tree::Str(size::shown(d.rootfs_size));
    let n = d_defaults();
    lemma_entry_is(d.rootfs_size != n.rootfs_size, "rootfs_size"@, a, k);
    lemma_entry_is(d.owner != n.owner, "owner"@, Tree::Str(d.owner), k);
    lemma_entry_is(d.bridge != n.bridge, "bridge"@, Tree::Str(d.bridge), k);
    lemma_entry_is(d.cores != n.cores, "cores"@, number(d.cores as nat), k);
    lemma_entry_is(d.memory != n.memory, "memory"@, number(d.memory as nat), k);
    lemma_five(
        entry(d.rootfs_size != n.rootfs_size, "rootfs_size"@, a),
        entry(d.owner != n.owner, "owner"@, Tree::Str(d.owner)),
        entry(d.bridge != n.bridge, "bridge"@, Tree::Str(d.bridge)),
        entry(d.cores != n.cores, "cores"@, number(d.cores as nat)),
        entry(d.memory != n.memory, "memory"@, number(d.memory as nat)),
        Tree::Str(k),
    );
}

/// What was saved is what is loaded, wherever the printed document reads as
/// the document that was printed.
pub proof fn law_saved_is_loaded(c: ConfigV, t: Text)
    requires
        table::sorted(c.nodes),
        size::readable(c.defaults.rootfs_size),
        file_of(c) == Ok::<Text, Text>(t),
        yaml::yaml_of(t) == Ok::<Tree, Text>(
            if c == d_config() {
                Tree::Null
            } else {
                tree_of(c)
            },
        ),
        c == d_config() ==> spelling::twin_of(t, Tree::Null) == Tree::Null,
    ensures
        parsed(t) == Ok::<ConfigV, Text>(c),
{
    law_absent_is_default();
    law_read_back(c, spelling::twin_of(t, tree_of(c)));
    reveal_strlit(
        "# pve-compose: written by `pve-compose config` and `new`; every key optional.\n",
    );
    assert(t[0] == '#');
    lemma_visible(t);
}

// ---------------------------------------------------------------------------
// What the printed file reads as.

/// Whether entries are some of the first `n` known ones, each once, with
/// simple values.
spec fn built(m: Seq<(Tree, Tree)>, known: Seq<Text>, n: int, depth: nat) -> bool {
    &&& forall|i: int|
        0 <= i < m.len() ==> simple_entry(#[trigger] m[i], known, n, depth)
    &&& forall|i: int, j: int|
        0 <= i < j < m.len() ==> (#[trigger] m[i]).0 != (#[trigger] m[j]).0
}

spec fn simple_entry(e: (Tree, Tree), known: Seq<Text>, n: int, depth: nat) -> bool {
    yaml::simple(e.1, depth) && exists|k: int| 0 <= k < n && e.0 == Tree::Str(#[trigger] known[k])
}

proof fn lemma_built(
    a: Seq<(Tree, Tree)>,
    known: Seq<Text>,
    n: int,
    depth: nat,
    on: bool,
    t: Tree,
)
    requires
        built(a, known, n, depth),
        0 <= n < known.len(),
        known.no_duplicates(),
        on ==> yaml::simple(t, depth),
    ensures
        built(a + entry(on, known[n], t), known, n + 1, depth),
{
    let e = entry(on, known[n], t);
    let m = a + e;
    assert forall|i: int| 0 <= i < m.len() implies simple_entry(
        #[trigger] m[i],
        known,
        n + 1,
        depth,
    ) by {
        if i < a.len() {
            assert(simple_entry(a[i], known, n, depth));
        } else {
            assert(m[i] == e[i - a.len()]);
            assert(m[i].0 == Tree::Str(known[n]));
        }
    }
    assert forall|i: int, j: int| 0 <= i < j < m.len() implies (#[trigger] m[i]).0 != (
    #[trigger] m[j]).0 by {
        assert(simple_entry(a[i], known, n, depth));
        if j < a.len() {
            assert(a[i].0 != a[j].0);
        } else {
            assert(m[j] == e[j - a.len()]);
            let k = choose|k: int| 0 <= k < n && a[i].0 == Tree::Str(#[trigger] known[k]);
            assert(known[k] != known[n]);
        }
    }
}

/// Whether names are different plain keys.
spec fn plain_keys(known: Seq<Text>) -> bool {
    known.no_duplicates() && forall|k: int|
        0 <= k < known.len() ==> yaml::plain_key(#[trigger] known[k])
}

proof fn lemma_simple(m: Seq<(Tree, Tree)>, known: Seq<Text>, depth: nat)
    requires
        built(m, known, known.len() as int, depth),
        plain_keys(known),
    ensures
        yaml::simple(Tree::Dict(m), depth + 1),
{
    assert forall|i: int| 0 <= i < m.len() implies (#[trigger] m[i]).0 is Str && yaml::plain_key(
        m[i].0->Str_0,
    ) && yaml::simple(m[i].1, ((depth + 1) - 1) as nat) by {
        assert(simple_entry(m[i], known, known.len() as int, depth));
        let k = choose|k: int|
            0 <= k < known.len() && m[i].0 == Tree::Str(#[trigger] known[k]);
        assert(yaml::plain_key(known[k]));
    }
}

proof fn lemma_number_simple(n: nat, depth: nat)
    requires
        n <= u64::MAX,
    ensures
        yaml::simple(number(n), depth),
{
    assert(num::dec(n) == num::dec(n));
}

proof fn lemma_none_built(known: Seq<Text>, depth: nat)
    ensures
        built(Seq::empty(), known, 0, depth),
{
}

/// Whether choices can be printed so that they read back: the texts are on
/// one line, the names of the nodes are plain and in order, and the root size
/// has a printed form of its own.
pub open spec fn writable(c: ConfigV) -> bool {
    &&& table::sorted(c.nodes)
    &&& size::readable(c.defaults.rootfs_size)
    &&& c.template.storage matches Some(s) ==> yaml::one_line(s)
    &&& yaml::one_line(c.template.base)
    &&& yaml::one_line(c.defaults.owner)
    &&& yaml::one_line(c.defaults.bridge)
    &&& forall|i: int|
        0 <= i < c.nodes.len() ==> yaml::plain_key((#[trigger] c.nodes[i]).0) && (
        c.nodes[i].1 matches Some(s) ==> yaml::one_line(s))
    &&& forall|i: int|
        0 <= i < c.limits.bind_roots.len() ==> yaml::one_line(#[trigger] c.limits.bind_roots[i])
    &&& forall|i: int|
        0 <= i < c.limits.storages.len() ==> yaml::one_line(#[trigger] c.limits.storages[i])
}

proof fn lemma_template_simple(t: TemplateV)
    requires
        t.storage matches Some(s) ==> yaml::one_line(s),
        yaml::one_line(t.base),
    ensures
        yaml::simple(template_tree(t), 15),
{
    reveal_strlit("storage");
    reveal_strlit("base");
    let known = template_keys();
    assert("storage"@.len() != "base"@.len());
    let x = Tree::Str(t.storage.unwrap_or(Seq::empty()));
    let a = storage_entry(t.storage);
    assert(a =~= Seq::empty() + entry(t.storage is Some, known[0], x));
    lemma_none_built(known, 14);
    lemma_built(Seq::empty(), known, 0, 14, t.storage is Some, x);
    lemma_built(a, known, 1, 14, t.base != d_template().base, Tree::Str(t.base));
    lemma_simple(template_tree(t)->Dict_0, known, 14);
}

proof fn lemma_size_simple(b: nat)
    ensures
        b <= u64::MAX ==> yaml::one_line(size::shown(b)),
{
    if b <= u64::MAX {
        size::lemma_shown_short(b);
    }
}

proof fn lemma_defaults_simple(d: DefaultsV)
    requires
        size::readable(d.rootfs_size),
        yaml::one_line(d.owner),
        yaml::one_line(d.bridge),
    ensures
        yaml::simple(defaults_tree(d), 15),
{
    reveal_strlit("rootfs_size");
    reveal_strlit("owner");
    reveal_strlit("bridge");
    reveal_strlit("cores");
    reveal_strlit("memory");
    let known = defaults_keys();
    assert("owner"@[0] != "cores"@[0]);
    assert("bridge"@[0] != "memory"@[0]);
    let n = d_defaults();
    let e0 = Seq::<(Tree, Tree)>::empty();
    let t0 = Tree::Str(size::shown(d.rootfs_size));
    let e1 = entry(d.rootfs_size != n.rootfs_size, "rootfs_size"@, t0);
    let e2 = e1 + entry(d.owner != n.owner, "owner"@, Tree::Str(d.owner));
    let e3 = e2 + entry(d.bridge != n.bridge, "bridge"@, Tree::Str(d.bridge));
    let e4 = e3 + entry(d.cores != n.cores, "cores"@, number(d.cores as nat));
    assert(e0 + e1 =~= e1);
    lemma_size_simple(d.rootfs_size);
    lemma_number_simple(d.cores as nat, 14);
    lemma_number_simple(d.memory as nat, 14);
    lemma_none_built(known, 14);
    lemma_built(e0, known, 0, 14, d.rootfs_size != n.rootfs_size, t0);
    lemma_built(e1, known, 1, 14, d.owner != n.owner, Tree::Str(d.owner));
    lemma_built(e2, known, 2, 14, d.bridge != n.bridge, Tree::Str(d.bridge));
    lemma_built(e3, known, 3, 14, d.cores != n.cores, number(d.cores as nat));
    lemma_built(e4, known, 4, 14, d.memory != n.memory, number(d.memory as nat));
    lemma_simple(defaults_tree(d)->Dict_0, known, 14);
}

proof fn lemma_nodes_simple(n: Seq<(Text, Option<Text>)>)
    requires
        table::sorted(n),
        forall|i: int|
            0 <= i < n.len() ==> yaml::plain_key((#[trigger] n[i]).0) && (n[i].1 matches Some(s)
                ==> yaml::one_line(s)),
    ensures
        yaml::simple(nodes_tree(n), 15),
{
    reveal_strlit("storage");
    let m = nodes_tree(n)->Dict_0;
    assert forall|i: int| 0 <= i < m.len() implies (#[trigger] m[i]).0 is Str && yaml::plain_key(
        m[i].0->Str_0,
    ) && yaml::simple(m[i].1, 14) by {
        assert(m[i] == node_entry(n[i]));
        let known = seq!["storage"@];
        let x = Tree::Str(n[i].1.unwrap_or(Seq::empty()));
        let a = storage_entry(n[i].1);
        assert(a =~= Seq::empty() + entry(n[i].1 is Some, known[0], x));
        lemma_none_built(known, 13);
        lemma_built(Seq::empty(), known, 0, 13, n[i].1 is Some, x);
        lemma_simple(a, known, 13);
    }
    assert forall|i: int, j: int| 0 <= i < j < m.len() implies (#[trigger] m[i]).0 != (
    #[trigger] m[j]).0 by {
        assert(m[i] == node_entry(n[i]) && m[j] == node_entry(n[j]));
        assert(table::below(n[i].0, n[j].0));
        table::lemma_below_irreflexive(n[i].0);
    }
}

proof fn lemma_list_simple(l: Seq<Text>)
    requires
        forall|i: int| 0 <= i < l.len() ==> yaml::one_line(#[trigger] l[i]),
    ensures
        yaml::simple(list_tree(l), 14),
{
    let t = list_tree(l)->List_0;
    assert forall|i: int| 0 <= i < t.len() implies yaml::simple(#[trigger] t[i], 13) by {
        assert(t[i] == Tree::Str(l[i]));
        assert(yaml::one_line(l[i]));
    }
}

proof fn lemma_limits_simple(l: LimitsV)
    requires
        forall|i: int| 0 <= i < l.bind_roots.len() ==> yaml::one_line(#[trigger] l.bind_roots[i]),
        forall|i: int| 0 <= i < l.storages.len() ==> yaml::one_line(#[trigger] l.storages[i]),
    ensures
        yaml::simple(limits_tree(l), 15),
{
    reveal_strlit("bind_roots");
    reveal_strlit("storages");
    reveal_strlit("max_disk_gib");
    assert("bind_roots"@.len() == 10 && "storages"@.len() == 8 && "max_disk_gib"@.len() == 12);
    let known = limits_keys();
    let e0 = Seq::<(Tree, Tree)>::empty();
    let e1 = entry(l.bind_roots.len() > 0, "bind_roots"@, list_tree(l.bind_roots));
    let e2 = e1 + entry(l.storages.len() > 0, "storages"@, list_tree(l.storages));
    assert(e0 + e1 =~= e1);
    lemma_list_simple(l.bind_roots);
    lemma_list_simple(l.storages);
    lemma_number_simple(l.max_disk_gib as nat, 14);
    lemma_none_built(known, 14);
    lemma_built(e0, known, 0, 14, l.bind_roots.len() > 0, list_tree(l.bind_roots));
    lemma_built(e1, known, 1, 14, l.storages.len() > 0, list_tree(l.storages));
    lemma_built(
        e2,
        known,
        2,
        14,
        l.max_disk_gib != d_limits().max_disk_gib,
        number(l.max_disk_gib as nat),
    );
    lemma_simple(limits_tree(l)->Dict_0, known, 14);
}

proof fn lemma_daemon_simple(d: Daemon)
    ensures
        yaml::simple(daemon_tree(d), 15),
{
    reveal_strlit("interval");
    reveal_strlit("full_every");
    assert("interval"@.len() != "full_every"@.len());
    let known = daemon_keys();
    let e0 = Seq::<(Tree, Tree)>::empty();
    let e1 = entry(d.interval != d_daemon().interval, "interval"@, number(d.interval as nat));
    assert(e0 + e1 =~= e1);
    lemma_number_simple(d.interval as nat, 14);
    lemma_number_simple(d.full_every as nat, 14);
    lemma_none_built(known, 14);
    lemma_built(
        e0,
        known,
        0,
        14,
        d.interval != d_daemon().interval,
        number(d.interval as nat),
    );
    lemma_built(
        e1,
        known,
        1,
        14,
        d.full_every != d_daemon().full_every,
        number(d.full_every as nat),
    );
    lemma_simple(daemon_tree(d)->Dict_0, known, 14);
}

proof fn lemma_config_simple(c: ConfigV)
    requires
        writable(c),
    ensures
        yaml::simple(tree_of(c), 16),
{
    reveal_strlit("template");
    reveal_strlit("defaults");
    reveal_strlit("nodes");
    reveal_strlit("limits");
    reveal_strlit("daemon");
    assert("template"@[0] == 't' && "defaults"@[0] == 'd' && "nodes"@[0] == 'n' && "limits"@[0]
        == 'l' && "daemon"@[0] == 'd' && "defaults"@.len() != "daemon"@.len());
    let known = config_keys();
    let e0 = Seq::<(Tree, Tree)>::empty();
    let e1 = entry(c.template != d_template(), "template"@, template_tree(c.template));
    let e2 = e1 + entry(c.defaults != d_defaults(), "defaults"@, defaults_tree(c.defaults));
    let e3 = e2 + entry(c.nodes.len() > 0, "nodes"@, nodes_tree(c.nodes));
    let e4 = e3 + entry(c.limits != d_limits(), "limits"@, limits_tree(c.limits));
    assert(e0 + e1 =~= e1);
    lemma_template_simple(c.template);
    lemma_defaults_simple(c.defaults);
    lemma_nodes_simple(c.nodes);
    lemma_limits_simple(c.limits);
    lemma_daemon_simple(c.daemon);
    lemma_none_built(known, 15);
    lemma_built(e0, known, 0, 15, c.template != d_template(), template_tree(c.template));
    lemma_built(e1, known, 1, 15, c.defaults != d_defaults(), defaults_tree(c.defaults));
    lemma_built(e2, known, 2, 15, c.nodes.len() > 0, nodes_tree(c.nodes));
    lemma_built(e3, known, 3, 15, c.limits != d_limits(), limits_tree(c.limits));
    lemma_built(e4, known, 4, 15, c.daemon != d_daemon(), daemon_tree(c.daemon));
    lemma_simple(tree_of(c)->Dict_0, known, 15);
}

/// The nodes that a document lists come out in order.
proof fn lemma_nodes_sorted(m: Seq<(Tree, Tree)>, n: Seq<(Tree, Tree)>)
    ensures
        nodes_from(m, n) matches Ok(s) ==> table::sorted(s),
    decreases m.len(),
{
    if m.len() > 0 {
        lemma_nodes_sorted(m.drop_last(), n.drop_last());
        if let (Ok(s), Some(name)) = (
            nodes_from(m.drop_last(), n.drop_last()),
            decode::scalar(m.last().0, n.last().0),
        ) {
            if let Ok(x) = node_of(m.last().1, n.last().1) {
                table::law_insert_sorted(s, name, x);
            }
        }
    }
}

/// Choices that were loaded list their nodes in order.
pub proof fn law_loaded_is_in_order(w: WorldV, path: Text)
    ensures
        load_from_s(w, path).1 matches Ok(c) ==> table::sorted(c.nodes),
{
    if let (_, Ok(o)) = w.act(ActV::Read { path }) {
        if o.status != MISSING && text::trimmed(o.stdout).len() > 0 {
            if let Ok(t) = yaml::yaml_of(o.stdout) {
                let u = spelling::twin_of(o.stdout, t);
                if let Ok(m) = decode::fields(t, u, config_keys()) {
                    let x = or_null(yaml::at(m, Tree::Str("nodes"@)));
                    let y = decode::beside(t, u, "nodes"@);
                    if let Ok(n) = decode::section(x, y) {
                        lemma_nodes_sorted(n, decode::twins(n, y));
                    }
                }
            }
        }
    }
}

/// An update that could not load the file fails as the load did, and writes
/// nothing. One that could changes what was loaded, asks for the file to be
/// replaced by that and by nothing else, and gives it back once that was
/// done.
pub proof fn law_update_changes_what_is_there(w: WorldV, change: spec_fn(ConfigV) -> ConfigV)
    ensures
        match load_from_s(w, PATH@) {
            (v, Err(e)) => update_s(w, change) == (v, Err::<ConfigV, StopV>(e)) && !(
            e matches StopV::Act(ActV::Replace { .. })),
            (v, Ok(c)) => {
                &&& update_s(w, change).1 matches Ok(x) ==> x == change(c)
                &&& update_s(w, change).1 matches Err(StopV::Act(a)) ==> file_of(
                    change(c),
                ) is Ok && a == (ActV::Replace {
                    path: PATH@,
                    text: file_of(change(c))->Ok_0,
                })
            },
        },
{
}

proof fn lemma_header()
    ensures
        yaml::is_comment(header()),
{
    reveal_strlit(
        "# pve-compose: written by `pve-compose config` and `new`; every key optional.\n",
    );
}

/// Whether the file holds a text.
pub open spec fn holds(w: WorldV, text: Text) -> bool {
    w.act(ActV::Read { path: PATH@ }).1 matches Ok(o) && o.status != MISSING && o.stdout == text
}

/// Whether choices that were stored are what is loaded: at any time at which
/// the file holds the text that was written for them.
pub open spec fn reloads(c: ConfigV) -> bool {
    file_of(c) matches Ok(t) && forall|later: WorldV|
        holds(later, t) ==> #[trigger] load_from_s(later, PATH@).1 == Ok::<ConfigV, StopV>(c)
}

/// What an update stored is what a later load gives, wherever the text that it
/// asked to be written reads as the document that was printed. Of choices that
/// are [`writable`] this needs no more: [`Config::update`] says that they
/// reload.
pub proof fn law_updated_is_loaded(
    w: WorldV,
    change: spec_fn(ConfigV) -> ConfigV,
    t: Text,
)
    requires
        update_s(w, change).1 is Ok,
        ({
            let c = update_s(w, change).1->Ok_0;
            &&& table::sorted(c.nodes)
            &&& size::readable(c.defaults.rootfs_size)
            &&& file_of(c) == Ok::<Text, Text>(t)
            &&& c != d_config()
            &&& yaml::yaml_of(t) == Ok::<Tree, Text>(tree_of(c))
        }),
    ensures
        load_from_s(w, PATH@).1 is Ok,
        update_s(w, change).1->Ok_0 == change(load_from_s(w, PATH@).1->Ok_0),
        reloads(update_s(w, change).1->Ok_0),
{
    law_saved_is_loaded(update_s(w, change).1->Ok_0, t);
}

/// Answers that were stored are in order wherever the file was: what is
/// stored can be loaded again.
pub proof fn law_answers_are_in_order(
    w: WorldV,
    template: Option<Text>,
    node: Text,
    storage: Option<Text>,
)
    ensures
        update_s(w, |c: ConfigV| with_answers(c, template, node, storage)).1 matches Ok(c)
            ==> table::sorted(c.nodes),
{
    law_loaded_is_in_order(w, PATH@);
    if let (_, Ok(c)) = load_from_s(w, PATH@) {
        if let Some(s) = storage {
            table::law_insert_sorted(c.nodes, node, Some(s));
        }
    }
}

/// A text that begins with something other than white space is not blank.
proof fn lemma_visible(t: Text)
    requires
        t.len() > 0,
        !text::is_space(t[0]),
    ensures
        text::trimmed(t).len() > 0,
    decreases t.len(),
{
    if text::is_space(t.last()) && t.len() > 1 {
        let f = t.drop_last();
        assert(f[0] == t[0]);
        lemma_visible(f);
        assert(text::trim_start(f) == f);
    }
}

/// The storage stored for a node is the one found for it, none after it was
/// unset, and those of the other nodes stay.
pub proof fn law_storage_is_per_node(c: ConfigV, node: Text, storage: Option<Text>, other: Text)
    requires
        table::sorted(c.nodes),
    ensures
        storage_for(with_storage(c, node, storage), node) == storage,
        other != node ==> storage_for(with_storage(c, node, storage), other) == storage_for(
            c,
            other,
        ),
        table::sorted(with_storage(c, node, storage).nodes),
        with_storage(c, node, storage).template == c.template,
        with_storage(c, node, storage).defaults == c.defaults,
        with_storage(c, node, storage).limits == c.limits,
        with_storage(c, node, storage).daemon == c.daemon,
{
    match storage {
        Some(s) => {
            table::law_insert_lookup(c.nodes, node, Some(s), other);
            table::law_insert_sorted(c.nodes, node, Some(s));
        },
        None => {
            table::law_remove(c.nodes, node, other);
        },
    }
}

} // verus!
