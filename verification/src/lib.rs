//! A docker compose stack per LXC, described by the guest's pve-meta document
//! and reconciled from the node.
//!
//! The layering, top down:
//!
//! * `ops`: the verbs: new, apply, diff, status, upgrade, template, daemon.
//!   Each is a function over the types below.
//! * `plan`: the pct-level plan: what `pct set` calls turn the wrapper into
//!   what the document asks for.
//! * `spec`: the compose document: its managed volumes, and the rendered
//!   `compose.yaml` that goes into the guest.
//! * `stack`: everything done inside the guest: the stack directory, the
//!   facts file, running compose.
//! * `pct`: the wrapper as PVE sees it: config, status, exec, push.
//! * `doc`: the `compose` subtree of the guest's pve-meta document.
//! * `config`: `/etc/pve/pve-compose.cfg`, the operator's persisted choices.
//! * `prompt`: questions for a human, asked before anything is done.
//! * `cmd`: running the node's own tools.
//! * `world`: the actions a verb asks for and the replies it got. A function
//!   that asks for one takes the world; `f_s` says what `f` makes of it.
//! * `laws`: what holds of the verbs as a whole, over what they ask for.
//! * `yaml`, `json`, `decode`: documents as data.
//! * `size`, `round`, `num`, `table`, `text`, `error`: helpers.
//!
//! Facts about what was applied live inside the guest (`stack::Facts`), never
//! in the document: the document is intent.

use vstd::prelude::*;

pub mod cli;
pub mod cmd;
pub mod config;
pub mod decode;
pub mod doc;
pub mod error;
pub mod json;
pub mod laws;
pub mod lock;
pub mod notify;
pub mod num;
pub mod ops;
pub mod pct;
pub mod plan;
pub mod prompt;
pub mod round;
pub mod size;
pub mod spec;
pub mod spelling;
pub mod stack;
pub mod table;
pub mod text;
pub mod world;
pub mod yaml;

verus! {

/// Where the stack lives inside the guest, on the rootfs. Fixed: it is the
/// one path the operator, the rendered compose file and a human at the shell
/// all agree on.
pub const STACK_DIR: &'static str = "/opt/stack";

/// Managed volumes are directories under here, one per compose volume name.
pub const VOLUMES_DIR: &'static str = "/opt/stack/volumes";

/// The operator's own files inside the stack directory.
pub const FACTS_DIR: &'static str = "/opt/stack/.pve-compose";

/// The pve-meta prefix this operator reads. Fixed: the prefix file the
/// package ships declares it, and its selector says which guests it reaches.
pub const PREFIX: &'static str = "compose";

/// The tag the packaged prefix file selects on.
pub const DEFAULT_TAG: &'static str = "compose";

/// The version of this tool.
pub const VERSION: &'static str = "0.0.7";

} // verus!
