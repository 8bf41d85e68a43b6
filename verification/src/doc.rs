//! The `compose` subtree of a guest's pve-meta document, read through the
//! `pve-meta` CLI as root on the node: no token, exact YAML types.
//!
//! ```yaml
//! compose:
//!   stack:  { owner: "1000:1000" }
//!   policy: { pct: auto, docker: auto, up: manual, pull: manual }
//!   spec:   # the compose document, verbatim structure
//!     services: ...
//!     volumes:
//!       db:    { x-pve: { storage: NetApp, size: 20G } }
//!       media: { x-pve: { path: /NetApp/FileStore/Media } }
//! ```
//!
//! Every key but `spec` is optional. Booleans are accepted as `true`/`false`
//! and as `1`/`0`, the spelling a JSON-mode write leaves behind.
//!
//! There is deliberately no `pct` section: cores, memory, extra features,
//! network and onboot are the guest's PVE config, edited there. The wrapper
//! settings this tool owns are derived, not configured: the `nesting` and
//! `keyctl` features docker needs, and the managed volumes. The stack itself
//! lives on the rootfs at `/opt/stack`; only `x-pve` volumes get disks.

use vstd::prelude::*;

use crate::PREFIX;
use crate::cmd;
use crate::decode;
use crate::error::{self, Chain, Error};
use crate::num;
use crate::spec;
use crate::spelling;
use crate::text::{self, Text};
use crate::world::{self, Act, ActV, Call, Stop, StopV, World, WorldV};
use crate::yaml::{self, Tree, Yaml};

verus! {

/// When the daemon acts on its own. `Manual` means only a hand-run verb does.
#[derive(Debug, Clone, Copy, PartialEq, Eq, Structural)]
pub enum Mode {
    Auto,
    Manual,
}

/// What the daemon may do without being asked, one flag per CLI level plus
/// `compose up` and image pulls.
#[derive(Debug, Clone, Copy, PartialEq, Eq, Structural)]
pub struct Policy {
    pub pct: Mode,
    pub docker: Mode,
    pub up: Mode,
    pub pull: Mode,
}

pub open spec fn d_policy() -> Policy {
    Policy { pct: Mode::Auto, docker: Mode::Auto, up: Mode::Manual, pull: Mode::Manual }
}

impl Default for Policy {
    fn default() -> (r: Self)
        ensures
            r == d_policy(),
    {
        Policy { pct: Mode::Auto, docker: Mode::Auto, up: Mode::Manual, pull: Mode::Manual }
    }
}

#[derive(Debug)]
pub struct Stack {
    /// `uid:gid` for volume directories and for `${PVE_UID}`/`${PVE_GID}`.
    pub owner: Option<String>,
}

/// The parsed subtree.
#[derive(Debug)]
pub struct Doc {
    pub stack: Stack,
    pub policy: Policy,
    pub spec: Yaml,
}

/// What a [`Doc`] is, as mathematics.
pub struct DocV {
    pub owner: Option<Text>,
    pub policy: Policy,
    pub spec: Tree,
}

impl View for Doc {
    type V = DocV;

    open spec fn view(&self) -> DocV {
        DocV { owner: text::opt(self.stack.owner), policy: self.policy, spec: self.spec@ }
    }
}

// ---------------------------------------------------------------------------
// Flags.

/// The truth value that a value stands for.
pub open spec fn flag(t: Tree) -> Option<bool> {
    match t {
        Tree::Bool(b) => Some(b),
        Tree::Number(n) => if n == "0"@ {
            Some(false)
        } else if n == "1"@ {
            Some(true)
        } else {
            None
        },
        Tree::Str(s) => {
            let s = text::trimmed(s);
            if s == "1"@ || s == "true"@ || s == "yes"@ || s == "on"@ {
                Some(true)
            } else if s == "0"@ || s == "false"@ || s == "no"@ || s == "off"@ {
                Some(false)
            } else {
                None
            }
        },
        _ => None,
    }
}

/// A flag that may be null.
pub open spec fn flag_opt_of(t: Tree) -> Result<Option<bool>, Text> {
    if yaml::untag(t) == Tree::Null {
        Ok(None)
    } else {
        match flag(t) {
            Some(b) => Ok(Some(b)),
            None => Err("expected a boolean (true/false or 1/0)"@),
        }
    }
}

/// The truth value that a value stands for.
pub fn flag_of(v: &Yaml) -> (r: Option<bool>)
    ensures
        r == flag(v@),
{
    match v {
        Yaml::Bool(b) => Some(*b),
        Yaml::Number(n) => if text::same(n.as_str(), "0") {
            Some(false)
        } else if text::same(n.as_str(), "1") {
            Some(true)
        } else {
            None
        },
        Yaml::Str(s) => {
            let t = text::trim(s.as_str());
            let s = t.as_str();
            if text::same(s, "1") || text::same(s, "true") || text::same(s, "yes") || text::same(
                s,
                "on",
            ) {
                Some(true)
            } else if text::same(s, "0") || text::same(s, "false") || text::same(s, "no")
                || text::same(s, "off") {
                Some(false)
            } else {
                None
            }
        },
        _ => None,
    }
}

/// A flag that may be null.
pub fn flag_opt(v: &Yaml) -> (r: Result<Option<bool>, Error>)
    ensures
        decode::read(r) == flag_opt_of(v@),
        decode::plain(r),
{
    if v.is_null() {
        return Ok(None);
    }
    match flag_of(v) {
        Some(b) => Ok(Some(b)),
        None => Err(Error::msg("expected a boolean (true/false or 1/0)")),
    }
}

// ---------------------------------------------------------------------------
// The subtree.

/// The mode of a name.
pub open spec fn mode_named(s: Text) -> Result<Mode, Text> {
    if s == "auto"@ {
        Ok(Mode::Auto)
    } else if s == "manual"@ {
        Ok(Mode::Manual)
    } else {
        Err("unknown variant `"@ + s + "`, expected `auto` or `manual`"@)
    }
}

/// A mode, with what holds when it is missing. It is named by a text, or by a
/// tag on nothing.
pub open spec fn mode_or(t: Option<Tree>, default: Mode) -> Result<Mode, Text> {
    match t {
        None => Ok(default),
        Some(Tree::Str(s)) => mode_named(s),
        Some(Tree::Tagged(s, b)) => match mode_named(s) {
            Ok(m) => if *b == Tree::Null {
                Ok(m)
            } else {
                Err("expected `auto` or `manual`"@)
            },
            Err(e) => Err(e),
        },
        Some(_) => Err("expected `auto` or `manual`"@),
    }
}

pub open spec fn policy_keys() -> Seq<Text> {
    seq!["pct"@, "docker"@, "up"@, "pull"@]
}

pub open spec fn policy_of(t: Tree, u: Tree) -> Result<Policy, Text> {
    match decode::fields(t, u, policy_keys()) {
        Err(e) => Err(decode::within("policy"@, e)),
        Ok(m) => match mode_or(yaml::at(m, Tree::Str("pct"@)), Mode::Auto) {
            Err(e) => Err(decode::within("policy.pct"@, e)),
            Ok(pct) => match mode_or(yaml::at(m, Tree::Str("docker"@)), Mode::Auto) {
                Err(e) => Err(decode::within("policy.docker"@, e)),
                Ok(docker) => match mode_or(yaml::at(m, Tree::Str("up"@)), Mode::Manual) {
                    Err(e) => Err(decode::within("policy.up"@, e)),
                    Ok(up) => match mode_or(yaml::at(m, Tree::Str("pull"@)), Mode::Manual) {
                        Err(e) => Err(decode::within("policy.pull"@, e)),
                        Ok(pull) => Ok(Policy { pct, docker, up, pull }),
                    },
                },
            },
        },
    }
}

pub open spec fn stack_of(t: Tree, u: Tree) -> Result<Option<Text>, Text> {
    match decode::fields(t, u, seq!["owner"@]) {
        Err(e) => Err(decode::within("stack"@, e)),
        Ok(m) => match decode::optional(
            yaml::at(m, Tree::Str("owner"@)),
            decode::beside(t, u, "owner"@),
        ) {
            Err(e) => Err(decode::within("stack.owner"@, e)),
            Ok(o) => Ok(o),
        },
    }
}

pub open spec fn doc_keys() -> Seq<Text> {
    seq!["stack"@, "policy"@, "spec"@]
}

pub open spec fn or_null(t: Option<Tree>) -> Tree {
    match t {
        Some(t) => t,
        None => Tree::Null,
    }
}

/// The document that a subtree is, before its values are looked at.
pub open spec fn doc_of(t: Tree, u: Tree) -> Result<DocV, Text> {
    match decode::fields(t, u, doc_keys()) {
        Err(e) => Err(e),
        Ok(m) => match stack_of(
            or_null(yaml::at(m, Tree::Str("stack"@))),
            decode::beside(t, u, "stack"@),
        ) {
            Err(e) => Err(e),
            Ok(owner) => match policy_of(
                or_null(yaml::at(m, Tree::Str("policy"@))),
                decode::beside(t, u, "policy"@),
            ) {
                Err(e) => Err(e),
                Ok(policy) => match yaml::at(m, Tree::Str("spec"@)) {
                    None => Err("missing field `spec`"@),
                    Some(spec) => Ok(DocV { owner, policy, spec }),
                },
            },
        },
    }
}

/// The document of a subtree's text, or why it is refused.
pub open spec fn parsed(s: Text) -> Result<DocV, Chain> {
    match yaml::yaml_of(s) {
        Err(m) => Err(seq!["compose subtree"@, m]),
        Ok(t) => match doc_of(t, spelling::twin_of(s, t)) {
            Err(m) => Err(seq!["compose subtree"@, m]),
            Ok(d) => if yaml::dict(d.spec) is None {
                Err(seq!["compose.spec must be a map (the compose document)"@])
            } else if d.owner is Some && !spec::owner_ok(d.owner->0) {
                Err(seq!["compose.stack.owner"@, spec::owner_error(d.owner->0)])
            } else {
                Ok(d)
            },
        },
    }
}

/// A document that was not refused has a map as its `spec`, and an owner that
/// means nothing to a shell.
pub proof fn law_parsed_is_safe(s: Text)
    requires
        parsed(s) is Ok,
    ensures
        yaml::dict(parsed(s)->Ok_0.spec) is Some,
        parsed(s)->Ok_0.owner matches Some(o) ==> spec::owner_ok(o) && (forall|i: int|
            0 <= i < o.len() ==> text::is_digit(#[trigger] o[i]) || o[i] == ':'),
{
    if let Some(o) = parsed(s)->Ok_0.owner {
        spec::law_owner_is_inert(o);
    }
}

fn named(s: &str) -> (r: Result<Mode, Error>)
    ensures
        match r {
            Ok(m) => mode_named(s@) == Ok::<Mode, Text>(m),
            Err(e) => e@.len() == 1 && mode_named(s@) == Err::<Mode, Text>(e@[0]),
        },
{
    if text::same(s, "auto") {
        Ok(Mode::Auto)
    } else if text::same(s, "manual") {
        Ok(Mode::Manual)
    } else {
        Err(Error::new(text::cat3("unknown variant `", s, "`, expected `auto` or `manual`")))
    }
}

fn mode(v: Option<&Yaml>, default: Mode) -> (r: Result<Mode, Error>)
    ensures
        match r {
            Ok(m) => mode_or(text::opt(v), default) == Ok::<Mode, Text>(m),
            Err(e) => e@.len() == 1 && mode_or(text::opt(v), default) == Err::<Mode, Text>(e@[0]),
        },
{
    proof {
        reveal_with_fuel(yaml::tree, 2);
    }
    match v {
        None => Ok(default),
        Some(Yaml::Str(s)) => named(s.as_str()),
        Some(Yaml::Tagged(s, b)) => match named(s.as_str()) {
            Ok(m) => match &**b {
                Yaml::Null => Ok(m),
                _ => Err(Error::msg("expected `auto` or `manual`")),
            },
            Err(e) => Err(e),
        },
        Some(_) => Err(Error::msg("expected `auto` or `manual`")),
    }
}

fn decode_policy(v: &Yaml, u: &Yaml) -> (r: Result<Policy, Error>)
    ensures
        match r {
            Ok(p) => policy_of(v@, u@) == Ok::<Policy, Text>(p),
            Err(e) => e@.len() == 1 && policy_of(v@, u@) == Err::<Policy, Text>(e@[0]),
        },
{
    let known = vec!["pct".to_owned(), "docker".to_owned(), "up".to_owned(), "pull".to_owned()];
    assert(text::views(known@) =~= policy_keys());
    let m = match decode::fields_of(v, u, &known) {
        Ok(m) => m,
        Err(e) => return Err(decode::inside("policy", e)),
    };
    let pct = match mode(decode::field(m, "pct"), Mode::Auto) {
        Ok(x) => x,
        Err(e) => return Err(decode::inside("policy.pct", e)),
    };
    let docker = match mode(decode::field(m, "docker"), Mode::Auto) {
        Ok(x) => x,
        Err(e) => return Err(decode::inside("policy.docker", e)),
    };
    let up = match mode(decode::field(m, "up"), Mode::Manual) {
        Ok(x) => x,
        Err(e) => return Err(decode::inside("policy.up", e)),
    };
    let pull = match mode(decode::field(m, "pull"), Mode::Manual) {
        Ok(x) => x,
        Err(e) => return Err(decode::inside("policy.pull", e)),
    };
    Ok(Policy { pct, docker, up, pull })
}

fn decode_stack(v: &Yaml, u: &Yaml) -> (r: Result<Stack, Error>)
    ensures
        match r {
            Ok(s) => stack_of(v@, u@) == Ok::<Option<Text>, Text>(text::opt(s.owner)),
            Err(e) => e@.len() == 1 && stack_of(v@, u@) == Err::<Option<Text>, Text>(e@[0]),
        },
{
    let known = vec!["owner".to_owned()];
    assert(text::views(known@) =~= seq!["owner"@]);
    let m = match decode::fields_of(v, u, &known) {
        Ok(m) => m,
        Err(e) => return Err(decode::inside("stack", e)),
    };
    let null = Yaml::Null;
    match decode::optional_of(
        decode::field(m, "owner"),
        decode::beside_of(v, u, "owner", &null),
    ) {
        Ok(owner) => Ok(Stack { owner }),
        Err(e) => Err(decode::inside("stack.owner", e)),
    }
}

fn decode_doc(v: &Yaml, u: &Yaml) -> (r: Result<Doc, Error>)
    ensures
        decode::read(r) == doc_of(v@, u@),
        decode::plain(r),
{
    let known = vec!["stack".to_owned(), "policy".to_owned(), "spec".to_owned()];
    assert(text::views(known@) =~= doc_keys());
    let null = Yaml::Null;
    let m = match decode::fields_of(v, u, &known) {
        Ok(m) => m,
        Err(e) => return Err(e),
    };
    let stack = match decode_stack(
        match decode::field(m, "stack") {
            Some(x) => x,
            None => &null,
        },
        decode::beside_of(v, u, "stack", &null),
    ) {
        Ok(s) => s,
        Err(e) => return Err(e),
    };
    let policy = match decode_policy(
        match decode::field(m, "policy") {
            Some(x) => x,
            None => &null,
        },
        decode::beside_of(v, u, "policy", &null),
    ) {
        Ok(p) => p,
        Err(e) => return Err(e),
    };
    match decode::field(m, "spec") {
        Some(s) => Ok(Doc { stack, policy, spec: s.clone() }),
        None => Err(Error::msg("missing field `spec`")),
    }
}

fn subtree_error(e: Error) -> (r: Error)
    requires
        e@.len() == 1,
    ensures
        r@ == seq!["compose subtree"@, e@[0]],
{
    let ghost m = e@[0];
    let e = e.context("compose subtree".to_owned());
    assert(e@ =~= seq!["compose subtree"@, m]);
    e
}

/// Parses the YAML text of a `compose` subtree. Everything that later lands
/// in a shell line inside the guest is validated here, so a document can
/// never become a command.
pub fn parse(s: &str) -> (r: Result<Doc, Error>)
    ensures
        match r {
            Ok(d) => parsed(s@) == Ok::<DocV, Chain>(d@),
            Err(e) => parsed(s@) == Err::<DocV, Chain>(e@),
        },
{
    let (v, u) = match spelling::parse(s) {
        Ok(v) => v,
        Err(e) => return Err(subtree_error(e)),
    };
    let d = match decode_doc(&v, &u) {
        Ok(d) => d,
        Err(e) => return Err(subtree_error(e)),
    };
    if d.spec.as_map().is_none() {
        return Err(Error::msg("compose.spec must be a map (the compose document)"));
    }
    if let Some(o) = &d.stack.owner {
        match spec::split_owner(o.as_str()) {
            Ok(_) => {},
            Err(e) => {
                let e = e.context("compose.stack.owner".to_owned());
                assert(e@ =~= seq!["compose.stack.owner"@, spec::owner_error(o@)]);
                return Err(e);
            },
        }
    }
    Ok(d)
}

// ---------------------------------------------------------------------------
// Project names.

/// Whether a character may begin a project name.
pub open spec fn project_start(c: char) -> bool {
    text::is_lower(c) || text::is_digit(c)
}

/// Whether a character may stand in a project name.
pub open spec fn project_char(c: char) -> bool {
    project_start(c) || c == '-' || c == '_'
}

/// Compose's own rule for a project name.
pub open spec fn project_ok(s: Text) -> bool {
    &&& s.len() > 0
    &&& project_start(s[0])
    &&& forall|i: int| 0 <= i < s.len() ==> project_char(#[trigger] s[i])
}

/// A character of a hostname as it stands in a project name.
pub open spec fn project_of(c: char) -> char {
    if text::is_upper(c) {
        text::lower(c)
    } else if project_char(c) {
        c
    } else {
        '-'
    }
}

/// Without what may not begin a project name.
pub open spec fn from_start(s: Text) -> Text
    decreases s.len(),
{
    if s.len() > 0 && !project_start(s[0]) {
        from_start(s.skip(1))
    } else {
        s
    }
}

/// A hostname turned into a project name.
pub open spec fn project_name(h: Text) -> Text {
    let s = from_start(h.map_values(|c: char| project_of(c)));
    if s.len() == 0 {
        "stack"@
    } else {
        s
    }
}

proof fn lemma_from_start(s: Text)
    requires
        forall|i: int| 0 <= i < s.len() ==> project_char(#[trigger] s[i]),
    ensures
        forall|i: int| 0 <= i < from_start(s).len() ==> project_char(#[trigger] from_start(s)[i]),
        from_start(s).len() > 0 ==> project_start(from_start(s)[0]),
    decreases s.len(),
{
    if s.len() > 0 && !project_start(s[0]) {
        assert forall|i: int| 0 <= i < s.skip(1).len() implies project_char(
            #[trigger] s.skip(1)[i],
        ) by {
            assert(project_char(s[i + 1]));
        }
        lemma_from_start(s.skip(1));
    }
}

/// Every hostname becomes a project name that compose accepts.
pub proof fn law_project_name_is_valid(h: Text)
    ensures
        project_ok(project_name(h)),
{
    let m = h.map_values(|c: char| project_of(c));
    assert forall|i: int| 0 <= i < m.len() implies project_char(#[trigger] m[i]) by {
        assert(m[i] == project_of(h[i]));
    }
    lemma_from_start(m);
    reveal_strlit("stack");
    assert(project_ok("stack"@));
}

/// Compose's own rule for a project name.
pub fn is_project_name(s: &str) -> (r: bool)
    ensures
        r == project_ok(s@),
{
    let cs = text::chars(s);
    if cs.len() == 0 || !starts_project(cs[0]) {
        return false;
    }
    for i in 0..cs.len()
        invariant
            cs@ == s@,
            forall|j: int| 0 <= j < i ==> project_char(#[trigger] s@[j]),
    {
        let c = cs[i];
        if !(starts_project(c) || c == '-' || c == '_') {
            assert(!project_char(s@[i as int]));
            return false;
        }
    }
    true
}

fn starts_project(c: char) -> (r: bool)
    ensures
        r == project_start(c),
{
    ('a' <= c && c <= 'z') || ('0' <= c && c <= '9')
}

/// A hostname turned into a project name: lowercased, anything else `-`.
pub fn project_name_from(hostname: &str) -> (r: String)
    ensures
        r@ == project_name(hostname@),
        project_ok(r@),
{
    proof {
        law_project_name_is_valid(hostname@);
    }
    let cs = text::chars(hostname);
    let ghost m = hostname@.map_values(|c: char| project_of(c));
    let mut out: Vec<char> = Vec::new();
    for i in 0..cs.len()
        invariant
            cs@ == hostname@,
            m == hostname@.map_values(|c: char| project_of(c)),
            out@ == m.take(i as int),
    {
        let c = cs[i];
        let p: char = if 'A' <= c && c <= 'Z' {
            (c as u8 + 32) as char
        } else if starts_project(c) || c == '-' || c == '_' {
            c
        } else {
            '-'
        };
        out.push(p);
        assert(m.take(i + 1) =~= m.take(i as int).push(m[i as int]));
    }
    assert(m.take(m.len() as int) =~= m);
    let mut from: usize = 0;
    assert(m.skip(0) =~= m);
    while from < out.len() && !starts_project(out[from])
        invariant
            out@ == m,
            from <= out@.len(),
            from_start(m) == from_start(m.skip(from as int)),
        decreases out@.len() - from,
    {
        assert(m.skip(from as int).skip(1) =~= m.skip(from + 1));
        from = from + 1;
    }
    let s = text::part(&out, from, out.len());
    assert(s@ =~= m.skip(from as int));
    if text::empty(s.as_str()) {
        "stack".to_owned()
    } else {
        s
    }
}

// ---------------------------------------------------------------------------
// The digest of a document.

/// The SHA-256 digest of a text's bytes.
pub uninterp spec fn sha256_of(text: Text) -> Seq<u8>;

/// `sha2::Sha256::digest` of the text's UTF-8 bytes: 32 bytes that depend on
/// the text alone.
#[verifier::external_body]
fn sha256(text: &str) -> (r: Vec<u8>)
    ensures
        r@ == sha256_of(text@),
        r@.len() == 32,
{
    <sha2::Sha256 as sha2::Digest>::digest(text.as_bytes()).to_vec()
}

/// A digit of a hexadecimal number.
pub open spec fn hex_digit(n: nat) -> char {
    if n < 10 {
        (48 + n) as char
    } else {
        (87 + n) as char
    }
}

/// Bytes as hexadecimal text, two small digits each.
pub open spec fn hexed(b: Seq<u8>) -> Text {
    Seq::new(
        2 * b.len(),
        |i: int|
            if i % 2 == 0 {
                hex_digit(b[i / 2] as nat / 16)
            } else {
                hex_digit(b[i / 2] as nat % 16)
            },
    )
}

/// `hex::encode`: two small hexadecimal digits for each byte, the high one
/// first.
#[verifier::external_body]
fn hex(bytes: &Vec<u8>) -> (r: String)
    ensures
        r@ == hexed(bytes@),
{
    hex::encode(bytes)
}

/// The digest of a text as it is recorded: 64 hexadecimal digits.
pub open spec fn digest_of(text: Text) -> Text {
    hexed(sha256_of(text))
}

pub fn digest(text: &str) -> (r: String)
    ensures
        r@ == digest_of(text@),
        r@.len() == 64,
{
    hex(&sha256(text))
}

// ---------------------------------------------------------------------------
// Reading and writing it.

/// A document as read: the parsed subtree plus the exact text it came from
/// and that text's digest, which is what the facts file records as applied.
#[derive(Debug)]
pub struct Read {
    pub vmid: u32,
    pub text: String,
    pub digest: String,
    pub doc: Doc,
}

/// What a [`Read`] is, as mathematics.
pub struct ReadV {
    pub vmid: u32,
    pub text: Text,
    pub digest: Text,
    pub doc: DocV,
}

impl View for Read {
    type V = ReadV;

    open spec fn view(&self) -> ReadV {
        ReadV {
            vmid: self.vmid,
            text: self.text@,
            digest: self.digest@,
            doc: self.doc@,
        }
    }
}

impl Clone for Read {
    fn clone(&self) -> (r: Read)
        ensures
            r@ == self@,
    {
        Read {
            vmid: self.vmid,
            text: self.text.clone(),
            digest: self.digest.clone(),
            doc: Doc {
                stack: Stack { owner: text::copy(&self.doc.stack.owner) },
                policy: self.doc.policy,
                spec: self.doc.spec.clone(),
            },
        }
    }
}

/// The document that a text is, for a guest.
pub open spec fn read_of(vmid: u32, t: Text) -> Result<ReadV, Chain> {
    match parsed(t) {
        Err(c) => Err(
            error::with("guest "@ + num::dec(vmid as nat) + ": bad compose document"@, c),
        ),
        Ok(doc) => Ok(ReadV { vmid, text: t, digest: digest_of(t), doc }),
    }
}

pub open spec fn get_call(vmid: u32) -> world::CallV {
    world::program("pve-meta"@).arg("get"@).arg(num::dec(vmid as nat)).arg(PREFIX@).arg(
        "--format"@,
    ).arg("yaml"@)
}

pub open spec fn read_s(w: WorldV, vmid: u32) -> (WorldV, Result<Option<ReadV>, StopV>) {
    match cmd::run_status_s(w, get_call(vmid)) {
        (w, Err(e)) => (w, Err(e)),
        (w, Ok(o)) => if o.status == 0 {
            match read_of(vmid, o.stdout) {
                Ok(r) => (w, Ok(Some(r))),
                Err(c) => (w, Err(StopV::Fail(c))),
            }
        } else if o.status == 2 {
            (w, Ok(None))
        } else {
            (
                w,
                Err(
                    world::failed(
                        "pve-meta get "@ + num::dec(vmid as nat) + " "@ + PREFIX@
                            + " failed (exit "@ + num::signed(o.status as int) + "): "@
                            + text::trimmed(o.stderr),
                    ),
                ),
            )
        },
    }
}

pub open spec fn set_call(vmid: u32, prefix: Text, path: Text) -> world::CallV {
    world::program("pve-meta"@).arg("set"@).arg(num::dec(vmid as nat)).arg(prefix).arg(
        "--file"@,
    ).arg(path)
}

pub open spec fn write_prefix_s(w: WorldV, vmid: u32, prefix: Text, t: Text) -> (
    WorldV,
    Result<(), StopV>,
) {
    match w.act(
        ActV::Temp {
            name: "pve-compose-"@ + prefix + "-"@ + num::dec(vmid as nat) + ".yaml"@,
            text: t,
        },
    ) {
        (w, Err(e)) => (w, Err(e)),
        (w, Ok(o)) => {
            let path = o.stdout;
            match cmd::run_s(w, set_call(vmid, prefix, path)) {
                (w, Err(StopV::Act(a))) => (w, Err(StopV::Act(a))),
                (w, res) => match w.act(ActV::Remove { path }) {
                    (w, Err(StopV::Act(a))) => (w, Err(StopV::Act(a))),
                    (w, _) => match res {
                        Ok(_) => (w, Ok(())),
                        Err(e) => (w, Err(e)),
                    },
                },
            }
        },
    }
}

/// Reads guest `vmid`'s `compose` subtree. `Ok(None)` when the guest has no
/// such subtree (or no document at all).
pub fn read(w: &mut World, vmid: u32) -> (r: Result<Option<Read>, Stop>)
    ensures
        (final(w)@, world::res_opt(r)) == read_s(old(w)@, vmid),
{
    let vm = num::print(vmid as u64);
    let out = match cmd::run_status(
        w,
        Call::new("pve-meta").arg("get").arg(vm.as_str()).arg(PREFIX).arg("--format").arg("yaml"),
    ) {
        Ok(o) => o,
        Err(e) => return Err(e),
    };
    if out.status == 2 {
        return Ok(None);
    }
    if out.status != 0 {
        return Err(
            Stop::fail(
                text::cat8(
                    "pve-meta get ",
                    vm.as_str(),
                    " ",
                    PREFIX,
                    " failed (exit ",
                    num::print_signed(out.status).as_str(),
                    "): ",
                    text::trim(out.stderr.as_str()).as_str(),
                ),
            ),
        );
    }
    match parse(out.stdout.as_str()) {
        Ok(doc) => {
            let digest = digest(out.stdout.as_str());
            Ok(Some(Read { vmid, text: out.stdout, digest, doc }))
        },
        Err(e) => Err(
            Stop::Fail(
                e.context(text::cat3("guest ", vm.as_str(), ": bad compose document")),
            ),
        ),
    }
}

/// Writes `text` as guest `vmid`'s whole `compose` subtree.
pub fn write(w: &mut World, vmid: u32, text: &str) -> (r: Result<(), Stop>)
    ensures
        (final(w)@, world::res(r)) == write_prefix_s(old(w)@, vmid, PREFIX@, text@),
{
    write_prefix(w, vmid, PREFIX, text)
}

/// Writes `text` (YAML) as the whole `prefix` subtree of guest `vmid`'s
/// document, through `pve-meta set --file`. The temporary file is removed
/// whatever came of it.
pub fn write_prefix(w: &mut World, vmid: u32, prefix: &str, text: &str) -> (r: Result<(), Stop>)
    ensures
        (final(w)@, world::res(r)) == write_prefix_s(old(w)@, vmid, prefix@, text@),
{
    let vm = num::print(vmid as u64);
    let name = text::cat5("pve-compose-", prefix, "-", vm.as_str(), ".yaml");
    let path = match w.act(Act::Temp { name, text: text.to_owned() }) {
        Ok(o) => o.stdout,
        Err(e) => return Err(e),
    };
    let res = cmd::run(
        w,
        Call::new("pve-meta").arg("set").arg(vm.as_str()).arg(prefix).arg("--file").arg(
            path.as_str(),
        ),
    );
    if let Err(Stop::Act(a)) = res {
        return Err(Stop::Act(a));
    }
    if let Err(Stop::Act(a)) = w.act(Act::Remove { path }) {
        return Err(Stop::Act(a));
    }
    match res {
        Ok(_) => Ok(()),
        Err(e) => Err(e),
    }
}

} // verus!
