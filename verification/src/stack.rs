//! Inside the guest: the stack directory, the facts file, and running compose.
//!
//! ```text
//! /opt/stack/                     on the rootfs
//!   compose.yaml                  rendered from the document (spec::render)
//!   .env                          the user's, never touched
//!   volumes/<name>/               one per compose volume
//!   .pve-compose/
//!     applied.yaml                Facts: what the last apply put here
//! ```
//!
//! Compose is always run as `cd /opt/stack && docker compose ...`: the
//! rendered file carries the project name as its top-level `name:`, so a
//! human typing the same thing gets the same stack.

use vstd::prelude::*;

use crate::FACTS_DIR;
use crate::STACK_DIR;
use crate::VERSION;
use crate::VOLUMES_DIR;
use crate::cmd;
use crate::decode;
use crate::error::{Chain, Error};
use crate::json;
use crate::pct;
use crate::spelling;
use crate::text::{self, Text};
use crate::world::{self, ActV, CallV, Stop, StopV, World, WorldV};
use crate::yaml::{self, Tree, Yaml};

verus! {

pub const COMPOSE_FILE: &'static str = "/opt/stack/compose.yaml";

pub const ENV_FILE: &'static str = "/opt/stack/.env";

pub const FACTS_FILE: &'static str = "/opt/stack/.pve-compose/applied.yaml";

// ---------------------------------------------------------------------------
// Facts.

/// What the last apply recorded. Facts, not intent: the document never
/// holds these.
#[derive(Debug, PartialEq, Eq)]
pub struct Facts {
    /// Digest of the document text that was applied.
    pub digest: String,
    /// The template volid this wrapper was built from, when known.
    pub template: Option<String>,
    /// When, RFC 3339.
    pub applied_at: String,
    /// pve-compose's version that applied it.
    pub by: String,
}

/// What [`Facts`] are, as mathematics.
pub struct FactsV {
    pub digest: Text,
    pub template: Option<Text>,
    pub applied_at: Text,
    pub by: Text,
}

impl View for Facts {
    type V = FactsV;

    open spec fn view(&self) -> FactsV {
        FactsV {
            digest: self.digest@,
            template: text::opt(self.template),
            applied_at: self.applied_at@,
            by: self.by@,
        }
    }
}

/// Facts of which nothing is known.
pub open spec fn no_facts() -> FactsV {
    FactsV {
        digest: Seq::empty(),
        template: None,
        applied_at: Seq::empty(),
        by: Seq::empty(),
    }
}

impl Default for Facts {
    fn default() -> (r: Self)
        ensures
            r@ == no_facts(),
    {
        Facts {
            digest: String::new(),
            template: None,
            applied_at: String::new(),
            by: String::new(),
        }
    }
}

/// A text that must be there, with its twin.
pub open spec fn required(m: Seq<(Tree, Tree)>, u: Tree, name: Text) -> Result<Text, Text> {
    match yaml::at(m, Tree::Str(name)) {
        None => Err("missing field `"@ + name + "`"@),
        Some(v) => match decode::scalar(v, u) {
            Some(s) => Ok(s),
            None => Err(decode::within(name, "expected a string"@)),
        },
    }
}

pub open spec fn facts_keys() -> Seq<Text> {
    seq!["digest"@, "template"@, "applied_at"@, "by"@]
}

/// The facts that a document holds, or why it holds none.
pub open spec fn facts_of(t: Tree, u: Tree) -> Result<FactsV, Text> {
    match decode::lenient(t, u, facts_keys()) {
        Err(e) => Err(e),
        Ok(m) => match required(m, decode::beside(t, u, "digest"@), "digest"@) {
            Err(e) => Err(e),
            Ok(digest) => match decode::optional(
                yaml::at(m, Tree::Str("template"@)),
                decode::beside(t, u, "template"@),
            ) {
                Err(e) => Err(decode::within("template"@, e)),
                Ok(template) => match required(
                    m,
                    decode::beside(t, u, "applied_at"@),
                    "applied_at"@,
                ) {
                    Err(e) => Err(e),
                    Ok(applied_at) => match required(m, decode::beside(t, u, "by"@), "by"@) {
                        Err(e) => Err(e),
                        Ok(by) => Ok(FactsV { digest, template, applied_at, by }),
                    },
                },
            },
        },
    }
}

/// The document that holds the facts.
pub open spec fn facts_tree(f: FactsV) -> Tree {
    Tree::Dict(
        seq![(Tree::Str("digest"@), Tree::Str(f.digest))] + (match f.template {
            Some(t) => seq![(Tree::Str("template"@), Tree::Str(t))],
            None => Seq::empty(),
        }) + seq![
            (Tree::Str("applied_at"@), Tree::Str(f.applied_at)),
            (Tree::Str("by"@), Tree::Str(f.by)),
        ],
    )
}

/// The facts that a text holds, or why it holds none.
pub open spec fn facts_parsed(s: Text) -> Result<FactsV, Text> {
    match yaml::yaml_of(s) {
        Ok(t) => facts_of(t, spelling::twin_of(s, t)),
        Err(m) => Err(m),
    }
}

/// The document of the facts holds them: what is written is read back.
pub proof fn law_facts_read_back(f: FactsV, u: Tree)
    ensures
        facts_of(facts_tree(f), u) == Ok::<FactsV, Text>(f),
{
    reveal_strlit("digest");
    reveal_strlit("template");
    reveal_strlit("applied_at");
    reveal_strlit("by");
    assert("digest"@.len() == 6 && "template"@.len() == 8 && "applied_at"@.len() == 10
        && "by"@.len() == 2);
    let m = facts_tree(f)->Dict_0;
    decode::lemma_bare(m, facts_keys());
    let n1 = m.skip(1);
    let n2 = n1.skip(1);
    let n3 = n2.skip(1);
    let n4 = n3.skip(1);
    match f.template {
        Some(t) => {
            assert(m.len() == 4);
            assert(n1[0] == m[1] && n2[0] == m[2] && n3[0] == m[3]);
            assert(m[1].0 == Tree::Str("template"@) && m[2].0 == Tree::Str("applied_at"@)
                && m[3].0 == Tree::Str("by"@));
            assert(yaml::at(n3, Tree::Str("by"@)) == Some(m[3].1));
            assert(yaml::at(n2, Tree::Str("by"@)) == Some(m[3].1));
            assert(yaml::at(n1, Tree::Str("by"@)) == Some(m[3].1));
            assert(yaml::at(n2, Tree::Str("applied_at"@)) == Some(m[2].1));
            assert(yaml::at(n1, Tree::Str("applied_at"@)) == Some(m[2].1));
            assert(yaml::at(n1, Tree::Str("template"@)) == Some(m[1].1));
        },
        None => {
            assert(m.len() == 3);
            assert(n1[0] == m[1] && n2[0] == m[2]);
            assert(m[1].0 == Tree::Str("applied_at"@) && m[2].0 == Tree::Str("by"@));
            assert(n3 =~= Seq::empty());
            assert(yaml::at(n2, Tree::Str("by"@)) == Some(m[2].1));
            assert(yaml::at(n1, Tree::Str("by"@)) == Some(m[2].1));
            assert(yaml::at(n1, Tree::Str("applied_at"@)) == Some(m[1].1));
            assert(yaml::at(n3, Tree::Str("template"@)) is None);
            assert(yaml::at(n2, Tree::Str("template"@)) is None);
            assert(yaml::at(n1, Tree::Str("template"@)) is None);
        },
    }
}

/// Whether facts can be printed so that they read back: every text is on one
/// line.
pub open spec fn writable(f: FactsV) -> bool {
    &&& yaml::one_line(f.digest)
    &&& f.template matches Some(t) ==> yaml::one_line(t)
    &&& yaml::one_line(f.applied_at)
    &&& yaml::one_line(f.by)
}

proof fn lemma_facts_simple(f: FactsV)
    requires
        writable(f),
    ensures
        yaml::simple(facts_tree(f), yaml::DEPTH as nat),
{
    reveal_strlit("digest");
    reveal_strlit("template");
    reveal_strlit("applied_at");
    reveal_strlit("by");
    assert("digest"@.len() == 6 && "template"@.len() == 8 && "applied_at"@.len() == 10
        && "by"@.len() == 2);
    assert(yaml::plain_key("digest"@) && yaml::plain_key("template"@) && yaml::plain_key(
        "applied_at"@,
    ) && yaml::plain_key("by"@));
    let m = facts_tree(f)->Dict_0;
    if let Some(t) = f.template {
        assert(m =~= seq![
            (Tree::Str("digest"@), Tree::Str(f.digest)),
            (Tree::Str("template"@), Tree::Str(t)),
            (Tree::Str("applied_at"@), Tree::Str(f.applied_at)),
            (Tree::Str("by"@), Tree::Str(f.by)),
        ]);
    } else {
        assert(m =~= seq![
            (Tree::Str("digest"@), Tree::Str(f.digest)),
            (Tree::Str("applied_at"@), Tree::Str(f.applied_at)),
            (Tree::Str("by"@), Tree::Str(f.by)),
        ]);
    }
    let depth = (yaml::DEPTH as nat - 1) as nat;
    assert forall|i: int| 0 <= i < m.len() implies (#[trigger] m[i]).0 is Str && yaml::plain_key(
        m[i].0->Str_0,
    ) && yaml::simple(m[i].1, depth) by {
        assert(m[i].1 is Str && yaml::one_line(m[i].1->Str_0));
    }
}

fn require(m: Option<&Vec<(Yaml, Yaml)>>, u: &Yaml, name: &str) -> (r: Result<String, Error>)
    ensures
        decode::read(r) == required(decode::entries(m), u@, name@),
        decode::plain(r),
{
    match decode::field(m, name) {
        None => Err(Error::new(text::cat3("missing field `", name, "`"))),
        Some(v) => match decode::scalar_of(v, u) {
            Some(s) => Ok(s),
            None => Err(decode::inside(name, Error::msg("expected a string"))),
        },
    }
}

/// The facts of an apply, read from the text that was written, name the
/// document that was applied and keep the template, wherever the printed
/// facts read as what was printed.
pub proof fn law_applied_is_known(digest: Text, previous: Option<FactsV>, at: Text, t: Text)
    requires
        yaml::yaml_text(facts_tree(new_facts(digest, previous, at))) == Ok::<Text, Text>(t),
        yaml::yaml_of(t) == Ok::<Tree, Text>(facts_tree(new_facts(digest, previous, at))),
    ensures
        facts_parsed(t) matches Ok(f) && f.digest == digest && f.applied_at == at && (
        previous matches Some(p) ==> f.template == p.template),
{
    let f = new_facts(digest, previous, at);
    law_facts_read_back(f, spelling::twin_of(t, facts_tree(f)));
}

impl Facts {
    /// The facts that a document holds, by its twin.
    pub fn decode(v: &Yaml, u: &Yaml) -> (r: Result<Facts, Error>)
        ensures
            decode::read(r) == facts_of(v@, u@),
            decode::plain(r),
    {
        let known = vec![
            "digest".to_owned(),
            "template".to_owned(),
            "applied_at".to_owned(),
            "by".to_owned(),
        ];
        assert(text::views(known@) =~= facts_keys());
        let m = match decode::lenient_of(v, u, &known) {
            Ok(m) => m,
            Err(e) => return Err(e),
        };
        let null = Yaml::Null;
        let digest = match require(m, decode::beside_of(v, u, "digest", &null), "digest") {
            Ok(s) => s,
            Err(e) => return Err(e),
        };
        let template = match decode::optional_of(
            decode::field(m, "template"),
            decode::beside_of(v, u, "template", &null),
        ) {
            Ok(s) => s,
            Err(e) => return Err(decode::inside("template", e)),
        };
        let applied_at = match require(
            m,
            decode::beside_of(v, u, "applied_at", &null),
            "applied_at",
        ) {
            Ok(s) => s,
            Err(e) => return Err(e),
        };
        let by = match require(m, decode::beside_of(v, u, "by", &null), "by") {
            Ok(s) => s,
            Err(e) => return Err(e),
        };
        Ok(Facts { digest, template, applied_at, by })
    }

    /// The facts that a text holds.
    pub fn parse(s: &str) -> (r: Result<Facts, Error>)
        ensures
            decode::read(r) == facts_parsed(s@),
            decode::plain(r),
    {
        match spelling::parse(s) {
            Ok((v, u)) => Facts::decode(&v, &u),
            Err(e) => Err(e),
        }
    }

    /// The document that holds the facts.
    pub fn encode(&self) -> (r: Yaml)
        ensures
            r@ == facts_tree(self@),
    {
        let mut m: Vec<(Yaml, Yaml)> = Vec::new();
        m.push((Yaml::text("digest"), Yaml::text(self.digest.as_str())));
        if let Some(t) = &self.template {
            m.push((Yaml::text("template"), Yaml::text(t.as_str())));
        }
        m.push((Yaml::text("applied_at"), Yaml::text(self.applied_at.as_str())));
        m.push((Yaml::text("by"), Yaml::text(self.by.as_str())));
        assert(yaml::entries(m@) =~= facts_tree(self@)->Dict_0);
        Yaml::map(m)
    }
}

pub open spec fn read_facts_s(w: WorldV, vmid: u32) -> (WorldV, Result<Option<FactsV>, StopV>) {
    match pct::read_file_s(w, vmid, FACTS_FILE@) {
        (w, Err(e)) => (w, Err(e)),
        (w, Ok(None)) => (w, Ok(None)),
        (w, Ok(Some(s))) => match facts_parsed(s) {
            Ok(f) => (w, Ok(Some(f))),
            Err(m) => (
                w,
                Err(
                    StopV::Fail(
                        seq![
                            "guest "@ + pct::vm(vmid) + ": "@ + FACTS_FILE@
                                + " is not a facts file"@,
                            m,
                        ],
                    ),
                ),
            ),
        },
    }
}

pub open spec fn write_facts_s(w: WorldV, vmid: u32, f: FactsV) -> (WorldV, Result<(), StopV>) {
    match yaml::yaml_text(facts_tree(f)) {
        Err(m) => (w, Err(world::failed(m))),
        Ok(t) => pct::write_file_s(w, vmid, FACTS_FILE@, t, "0644"@),
    }
}

/// New facts for an apply at a time, keeping what the previous facts knew
/// about the wrapper itself.
pub open spec fn new_facts(digest: Text, previous: Option<FactsV>, at: Text) -> FactsV {
    FactsV {
        digest,
        template: match previous {
            Some(p) => p.template,
            None => None,
        },
        applied_at: at,
        by: VERSION@,
    }
}

pub fn read_facts(w: &mut World, vmid: u32) -> (r: Result<Option<Facts>, Stop>)
    ensures
        (final(w)@, world::res_opt(r)) == read_facts_s(old(w)@, vmid),
{
    let s = match pct::read_file(w, vmid, FACTS_FILE) {
        Ok(Some(s)) => s,
        Ok(None) => return Ok(None),
        Err(e) => return Err(e),
    };
    match Facts::parse(s.as_str()) {
        Ok(f) => Ok(Some(f)),
        Err(e) => {
            let ghost m = e@[0];
            let what = text::cat5(
                "guest ",
                crate::num::print(vmid as u64).as_str(),
                ": ",
                FACTS_FILE,
                " is not a facts file",
            );
            let e = e.context(what);
            assert(e@ =~= seq![
                "guest "@ + pct::vm(vmid) + ": "@ + FACTS_FILE@ + " is not a facts file"@,
                m,
            ]);
            Err(Stop::Fail(e))
        },
    }
}

pub fn write_facts(w: &mut World, vmid: u32, facts: &Facts) -> (r: Result<(), Stop>)
    ensures
        (final(w)@, world::res(r)) == write_facts_s(old(w)@, vmid, facts@),
        writable(facts@) && yaml::yaml_text(facts_tree(facts@)) is Ok ==> facts_parsed(
            yaml::yaml_text(facts_tree(facts@))->Ok_0,
        ) == Ok::<FactsV, Text>(facts@),
{
    proof {
        if writable(facts@) {
            lemma_facts_simple(facts@);
        }
    }
    match yaml::print(&facts.encode()) {
        Ok(t) => {
            proof {
                law_facts_read_back(facts@, spelling::twin_of(t@, facts_tree(facts@)));
            }
            pct::write_file(w, vmid, FACTS_FILE, t.as_str(), "0644")
        },
        Err(e) => Err(Stop::Fail(e)),
    }
}

/// New facts for an apply at a time.
pub fn facts_at(digest: &str, previous: Option<Facts>, at: String) -> (r: Facts)
    ensures
        r@ == new_facts(digest@, text::opt(previous), at@),
{
    let template = match previous {
        Some(p) => p.template,
        None => None,
    };
    Facts { digest: digest.to_owned(), template, applied_at: at, by: VERSION.to_owned() }
}

/// New facts for an apply now, keeping what the previous facts knew about the
/// wrapper itself.
pub fn facts_now(w: &World, digest: &str, previous: Option<Facts>) -> (r: Facts)
    ensures
        r@ == new_facts(digest@, text::opt(previous), w@.stamp),
{
    facts_at(digest, previous, w.stamp.clone())
}

// ---------------------------------------------------------------------------
// The layout and the compose file.

/// The part of the layout script for one volume's directory. Only a directory
/// that is still root's is given away: a running stack owns its files, and an
/// owner change under it is not this tool's call.
pub open spec fn own_script(dir: Text, owner: Text) -> Text {
    " mkdir -p '"@ + dir + "'; if [ \"$(stat -c %u:%g '"@ + dir + "')\" = '0:0' ]; then chown '"@
        + owner + "' '"@ + dir + "'; fi;"@
}

/// The script that makes the stack layout exist.
pub open spec fn layout_script(owners: Seq<(Text, Text)>) -> Text
    decreases owners.len(),
{
    if owners.len() == 0 {
        "set -e; mkdir -p "@ + VOLUMES_DIR@ + " "@ + FACTS_DIR@ + "; chmod 0755 "@ + STACK_DIR@
            + ";"@
    } else {
        layout_script(owners.drop_last()) + own_script(owners.last().0, owners.last().1)
    }
}

/// The views of pairs of strings.
pub open spec fn pairs(v: Seq<(String, String)>) -> Seq<(Text, Text)> {
    v.map_values(|e: (String, String)| (e.0@, e.1@))
}

pub open spec fn ensure_layout_s(w: WorldV, vmid: u32, owners: Seq<(Text, Text)>) -> (
    WorldV,
    Result<(), StopV>,
) {
    match pct::exec_s(w, vmid, layout_script(owners)) {
        (w, Ok(_)) => (w, Ok(())),
        (w, Err(e)) => (w, Err(e)),
    }
}

fn layout(owners: &Vec<(String, String)>) -> (r: String)
    ensures
        r@ == layout_script(pairs(owners@)),
{
    let mut s = text::cat7(
        "set -e; mkdir -p ",
        VOLUMES_DIR,
        " ",
        FACTS_DIR,
        "; chmod 0755 ",
        STACK_DIR,
        ";",
    );
    let ghost all = pairs(owners@);
    assert(all.take(0) =~= Seq::empty());
    for i in 0..owners.len()
        invariant
            all == pairs(owners@),
            s@ == layout_script(all.take(i as int)),
    {
        assert(all.take(i + 1).drop_last() =~= all.take(i as int));
        assert(all.take(i + 1).last() == (owners@[i as int].0@, owners@[i as int].1@));
        let dir = owners[i].0.as_str();
        let owner = owners[i].1.as_str();
        let part = text::cat9(
            " mkdir -p '",
            dir,
            "'; if [ \"$(stat -c %u:%g '",
            dir,
            "')\" = '0:0' ]; then chown '",
            owner,
            "' '",
            dir,
            "'; fi;",
        );
        s.append(part.as_str());
    }
    assert(all.take(all.len() as int) =~= all);
    s
}

/// Makes the stack layout exist, with the volume directories owned as asked.
/// Owners were validated as `uid:gid` when the document was parsed, and
/// directory names when the volumes were.
pub fn ensure_layout(w: &mut World, vmid: u32, owners: &Vec<(String, String)>) -> (r: Result<
    (),
    Stop,
>)
    ensures
        (final(w)@, world::res(r)) == ensure_layout_s(old(w)@, vmid, pairs(owners@)),
{
    match pct::exec(w, vmid, layout(owners).as_str()) {
        Ok(_) => Ok(()),
        Err(e) => Err(e),
    }
}

/// The compose file currently in the guest, if any.
pub fn read_compose(w: &mut World, vmid: u32) -> (r: Result<Option<String>, Stop>)
    ensures
        (final(w)@, world::res_opt(r)) == pct::read_file_s(old(w)@, vmid, COMPOSE_FILE@),
{
    pct::read_file(w, vmid, COMPOSE_FILE)
}

pub fn write_compose(w: &mut World, vmid: u32, text: &str) -> (r: Result<(), Stop>)
    ensures
        (final(w)@, world::res(r)) == pct::write_file_s(
            old(w)@,
            vmid,
            COMPOSE_FILE@,
            text@,
            "0644"@,
        ),
{
    pct::write_file(w, vmid, COMPOSE_FILE, text, "0644")
}

// ---------------------------------------------------------------------------
// Running compose.

/// A `docker compose` command line in the stack directory.
pub open spec fn compose(rest: Text) -> Text {
    "cd "@ + STACK_DIR@ + " && docker compose "@ + rest
}

fn compose_line(rest: &str) -> (r: String)
    ensures
        r@ == compose(rest@),
{
    text::cat4("cd ", STACK_DIR, " && docker compose ", rest)
}

pub open spec fn up_script() -> Text {
    compose("up -d --remove-orphans"@)
}

pub open spec fn pull_script() -> Text {
    compose("pull"@)
}

pub open spec fn up_s(w: WorldV, vmid: u32) -> (WorldV, Result<(), StopV>) {
    pct::exec_stream_s(w, vmid, up_script(), Some(cmd::LONG_TIMEOUT))
}

pub open spec fn pull_s(w: WorldV, vmid: u32) -> (WorldV, Result<(), StopV>) {
    pct::exec_stream_s(w, vmid, pull_script(), Some(cmd::LONG_TIMEOUT))
}

/// `docker compose up -d --remove-orphans`, output on the terminal. It may
/// pull, so it gets the long deadline.
pub fn up(w: &mut World, vmid: u32) -> (r: Result<(), Stop>)
    ensures
        (final(w)@, world::res(r)) == up_s(old(w)@, vmid),
{
    pct::exec_stream_within(
        w,
        vmid,
        compose_line("up -d --remove-orphans").as_str(),
        cmd::LONG_TIMEOUT,
    )
}

/// `docker compose pull`, output on the terminal.
pub fn pull(w: &mut World, vmid: u32) -> (r: Result<(), Stop>)
    ensures
        (final(w)@, world::res(r)) == pull_s(old(w)@, vmid),
{
    pct::exec_stream_within(w, vmid, compose_line("pull").as_str(), cmd::LONG_TIMEOUT)
}

/// Whether a character means nothing to a shell.
pub open spec fn inert(c: char) -> bool {
    text::is_lower(c) || text::is_upper(c) || text::is_digit(c) || "-_./:=@,"@.contains(c)
}

/// Whether a text is a word to a shell as it stands.
pub open spec fn all_inert(s: Text) -> bool {
    s.len() > 0 && forall|i: int| 0 <= i < s.len() ==> inert(#[trigger] s[i])
}

/// A text as one word of a shell line.
pub open spec fn quoted(s: Text) -> Text {
    if all_inert(s) {
        s
    } else {
        "'"@ + text::replaced(s, "'"@, "'\\''"@) + "'"@
    }
}

/// What a shell makes of the characters of one word, inside single quotes or
/// outside: a quote ends or begins them, a backslash outside stands for the
/// character after it, and outside nothing else but what is inert is taken.
pub open spec fn word(t: Text, inside: bool) -> Option<Text>
    decreases t.len(),
{
    if t.len() == 0 {
        if inside {
            None
        } else {
            Some(Seq::empty())
        }
    } else if t[0] == '\'' {
        word(t.skip(1), !inside)
    } else if inside || inert(t[0]) {
        match word(t.skip(1), inside) {
            Some(w) => Some(seq![t[0]] + w),
            None => None,
        }
    } else if t[0] == '\\' && t.len() > 1 {
        match word(t.skip(2), false) {
            Some(w) => Some(seq![t[1]] + w),
            None => None,
        }
    } else {
        None
    }
}

proof fn lemma_inert_word(s: Text)
    requires
        forall|i: int| 0 <= i < s.len() ==> inert(#[trigger] s[i]),
    ensures
        word(s, false) == Some(s),
    decreases s.len(),
{
    if s.len() > 0 {
        reveal_strlit("-_./:=@,");
        assert(inert(s[0]));
        assert(s[0] != '\'');
        assert forall|i: int| 0 <= i < s.skip(1).len() implies inert(#[trigger] s.skip(1)[i]) by {
            assert(inert(s[i + 1]));
        }
        lemma_inert_word(s.skip(1));
        assert(seq![s[0]] + s.skip(1) =~= s);
    } else {
        assert(s =~= Seq::empty());
    }
}

proof fn lemma_quoted_word(s: Text)
    ensures
        word(text::replaced(s, "'"@, "'\\''"@).push('\''), true) == Some(s),
    decreases s.len(),
{
    reveal_strlit("'");
    reveal_strlit("'\\''");
    reveal_strlit("-_./:=@,");
    let q = "'"@;
    let e = "'\\''"@;
    let t = text::replaced(s, q, e).push('\'');
    if s.len() == 0 {
        assert(t.skip(1) =~= Seq::empty());
        assert(word(t.skip(1), false) == Some(Seq::<char>::empty()));
        assert(s =~= Seq::empty());
    } else {
        let rest = s.skip(1);
        let r = text::replaced(rest, q, e).push('\'');
        lemma_quoted_word(rest);
        assert(seq![s[0]] + rest =~= s);
        if s[0] == '\'' {
            assert(s.subrange(0, 1) =~= q);
            assert(q.is_prefix_of(s));
            assert(s.skip(q.len() as int) =~= rest);
            assert(t =~= e + r);
            let t1 = t.skip(1);
            assert(t1[0] == '\\' && t1[1] == '\'');
            let t3 = t1.skip(2);
            assert(t3[0] == '\'');
            assert(t3.skip(1) =~= r);
            assert(word(t3, false) == word(r, true));
            assert(!inert('\\')) by {
                assert(!"-_./:=@,"@.contains('\\'));
            }
            assert(word(t1, false) == Some(seq!['\''] + rest));
        } else {
            if q.is_prefix_of(s) {
                assert(s.subrange(0, 1)[0] == q[0]);
            }
            assert(t =~= seq![s[0]] + r);
            assert(t.skip(1) =~= r);
        }
    }
}

/// A shell reads a quoted text as one word that is the text: nothing in it
/// reaches the shell as anything else.
pub proof fn law_quoting_is_literal(s: Text)
    ensures
        word(quoted(s), false) == Some(s),
{
    if all_inert(s) {
        lemma_inert_word(s);
    } else {
        reveal_strlit("'");
        lemma_quoted_word(s);
        let r = text::replaced(s, "'"@, "'\\''"@);
        let t = quoted(s);
        assert(t =~= seq!['\''] + r.push('\''));
        assert(t.skip(1) =~= r.push('\''));
    }
}

pub fn shell_quote(s: &str) -> (r: String)
    ensures
        r@ == quoted(s@),
{
    let cs = text::chars(s);
    let mut safe = cs.len() > 0;
    for i in 0..cs.len()
        invariant
            cs@ == s@,
            safe == (s@.len() > 0 && forall|j: int| 0 <= j < i ==> inert(#[trigger] s@[j])),
    {
        let c = cs[i];
        proof {
            reveal_strlit("-_./:=@,");
            let x = "-_./:=@,"@;
            assert(x.len() == 8);
            assert(x[0] == '-' && x[1] == '_' && x[2] == '.' && x[3] == '/' && x[4] == ':' && x[5]
                == '=' && x[6] == '@' && x[7] == ',');
        }
        if !(('a' <= c && c <= 'z') || ('A' <= c && c <= 'Z') || ('0' <= c && c <= '9') || c == '-'
            || c == '_' || c == '.' || c == '/' || c == ':' || c == '=' || c == '@' || c == ',') {
            assert(!inert(s@[i as int]));
            safe = false;
        }
    }
    if safe {
        s.to_owned()
    } else {
        proof {
            reveal_strlit("'");
        }
        text::cat3("'", text::replace(s, "'", "'\\''").as_str(), "'")
    }
}

/// The words of a command line, each quoted.
pub open spec fn quoted_all(a: Seq<Text>) -> Text {
    text::joined(a.map_values(|s: Text| quoted(s)), " "@)
}

/// The words quoted, with a space between each two.
pub fn quote_all(a: &Vec<String>) -> (r: String)
    ensures
        r@ == quoted_all(text::views(a@)),
{
    let mut out: Vec<String> = Vec::new();
    for i in 0..a.len()
        invariant
            out@.len() == i,
            forall|j: int| 0 <= j < i ==> (#[trigger] out@[j])@ == quoted(a@[j]@),
    {
        out.push(shell_quote(a[i].as_str()));
    }
    assert(text::views(out@) =~= text::views(a@).map_values(|s: Text| quoted(s)));
    text::join(&out, " ")
}

pub open spec fn passthrough_s(w: WorldV, vmid: u32, args: Seq<Text>) -> (
    WorldV,
    Result<(), StopV>,
) {
    pct::exec_stream_s(w, vmid, compose(quoted_all(args)), None)
}

/// Any `docker compose` command line, output on the terminal.
pub fn passthrough(w: &mut World, vmid: u32, args: &Vec<String>) -> (r: Result<(), Stop>)
    ensures
        (final(w)@, world::res(r)) == passthrough_s(old(w)@, vmid, text::views(args@)),
{
    pct::exec_stream(w, vmid, compose_line(quote_all(args).as_str()).as_str())
}

// ---------------------------------------------------------------------------
// What runs.

/// One container of the stack, from `docker compose ps`.
#[derive(Debug)]
pub struct Container {
    pub name: String,
    pub service: String,
    pub state: String,
    pub status: String,
}

/// What a [`Container`] is, as mathematics.
pub struct ContainerV {
    pub name: Text,
    pub service: Text,
    pub state: Text,
    pub status: Text,
}

impl View for Container {
    type V = ContainerV;

    open spec fn view(&self) -> ContainerV {
        ContainerV {
            name: self.name@,
            service: self.service@,
            state: self.state@,
            status: self.status@,
        }
    }
}

/// Whether a member has a name.
pub open spec fn has(m: Seq<(Text, Option<Text>)>, name: Text) -> bool {
    exists|i: int| 0 <= i < m.len() && (#[trigger] m[i]).0 == name
}

/// What the member of a name holds: a text, or something else. A name that is
/// there twice holds no text.
pub open spec fn found(m: Seq<(Text, Option<Text>)>, name: Text) -> Option<Option<Text>>
    decreases m.len(),
{
    if m.len() == 0 {
        None
    } else if m[0].0 == name {
        Some(if has(m.skip(1), name) {
            None
        } else {
            m[0].1
        })
    } else {
        found(m.skip(1), name)
    }
}

/// A text, no text where there is nothing; `None` where it is no text.
pub open spec fn or_blank(x: Option<Option<Text>>) -> Option<Text> {
    match x {
        None => Some(Seq::empty()),
        Some(t) => t,
    }
}

/// The container with four fields, each of which is a text.
pub open spec fn container_with(
    name: Option<Text>,
    service: Option<Text>,
    state: Option<Text>,
    status: Option<Text>,
) -> Option<ContainerV> {
    match (name, service, state, status) {
        (Some(name), Some(service), Some(state), Some(status)) => Some(
            ContainerV { name, service, state, status },
        ),
        _ => None,
    }
}

/// The container that the members of an object describe; `None` for what
/// describes none. A member that is missing is no text.
pub open spec fn named(m: Seq<(Text, Option<Text>)>) -> Option<ContainerV> {
    container_with(
        or_blank(found(m, "Name"@)),
        or_blank(found(m, "Service"@)),
        or_blank(found(m, "State"@)),
        or_blank(found(m, "Status"@)),
    )
}

/// An item of a list.
pub open spec fn item(l: Seq<Option<Text>>, i: int) -> Option<Option<Text>> {
    if i < l.len() {
        Some(l[i])
    } else {
        None
    }
}

/// The container whose fields are listed in their order; `None` for what is
/// none.
pub open spec fn listed(l: Seq<Option<Text>>) -> Option<ContainerV> {
    if l.len() > 4 {
        None
    } else {
        container_with(
            or_blank(item(l, 0)),
            or_blank(item(l, 1)),
            or_blank(item(l, 2)),
            or_blank(item(l, 3)),
        )
    }
}

/// What a JSON text spells, where it is a string.
pub open spec fn text_of(t: Text) -> Option<Text> {
    match json::json_string(t) {
        Ok(s) => Some(s),
        Err(_) => None,
    }
}

/// The members of an object, with the text of each that is one.
pub open spec fn member_texts(m: Seq<(Text, Text)>) -> Seq<(Text, Option<Text>)> {
    m.map_values(|e: (Text, Text)| (e.0, text_of(e.1)))
}

/// The items of an array, with the text of each that is one.
pub open spec fn item_texts(l: Seq<Text>) -> Seq<Option<Text>> {
    l.map_values(|t: Text| text_of(t))
}

/// The container that a JSON text describes: an object, or its fields in an
/// array; or why there is none.
pub open spec fn container_of(t: Text) -> Result<ContainerV, Text> {
    let c = match json::object_of(t) {
        Ok(m) => Ok(named(member_texts(m))),
        Err(e) => match json::json_items(t) {
            Ok(l) => Ok(listed(item_texts(l))),
            Err(_) => Err(e),
        },
    };
    match c {
        Ok(Some(c)) => Ok(c),
        Ok(None) => Err("not a container"@),
        Err(e) => Err(e),
    }
}

/// The containers of a list; `None` where one of its items describes none.
pub open spec fn containers_of(l: Seq<Text>) -> Option<Seq<ContainerV>>
    decreases l.len(),
{
    if l.len() == 0 {
        Some(Seq::empty())
    } else {
        match (containers_of(l.drop_last()), container_of(l.last())) {
            (Some(s), Ok(c)) => Some(s.push(c)),
            _ => None,
        }
    }
}

/// The containers of lines with an object each.
pub open spec fn lines_containers(l: Seq<Text>) -> Result<Seq<ContainerV>, Chain>
    decreases l.len(),
{
    if l.len() == 0 {
        Ok(Seq::empty())
    } else {
        match lines_containers(l.drop_last()) {
            Err(c) => Err(c),
            Ok(s) => {
                let t = text::trimmed(l.last());
                if t.len() == 0 {
                    Ok(s)
                } else {
                    match container_of(t) {
                        Err(m) => Err(seq!["docker compose ps output"@, m]),
                        Ok(c) => Ok(s.push(c)),
                    }
                }
            },
        }
    }
}

/// The containers of an array, where a text is one of containers.
pub open spec fn array_containers(t: Text) -> Option<Seq<ContainerV>> {
    match json::json_items(t) {
        Ok(l) => containers_of(l),
        Err(_) => None,
    }
}

/// The containers that compose prints: either a JSON array or one object per
/// line depending on its version; both are read.
pub open spec fn ps_of(out: Text) -> Result<Seq<ContainerV>, Chain> {
    let t = text::trimmed(out);
    if t.len() == 0 {
        Ok(Seq::empty())
    } else {
        match array_containers(t) {
            Some(l) => Ok(l),
            None => lines_containers(text::lines_of(t)),
        }
    }
}

/// The view of names with texts, where they are texts.
pub open spec fn member_views(m: Seq<(String, Option<String>)>) -> Seq<(Text, Option<Text>)> {
    m.map_values(|e: (String, Option<String>)| (e.0@, text::opt(e.1)))
}

/// The view of texts, where they are texts.
pub open spec fn item_views(l: Seq<Option<String>>) -> Seq<Option<Text>> {
    l.map_values(|t: Option<String>| text::opt(t))
}

fn with(
    name: Option<String>,
    service: Option<String>,
    state: Option<String>,
    status: Option<String>,
) -> (r: Option<Container>)
    ensures
        text::opt(r) == container_with(
            text::opt(name),
            text::opt(service),
            text::opt(state),
            text::opt(status),
        ),
{
    match (name, service, state, status) {
        (Some(name), Some(service), Some(state), Some(status)) => Some(
            Container { name, service, state, status },
        ),
        _ => None,
    }
}

fn member(m: &Vec<(String, Option<String>)>, name: &str) -> (r: Option<String>)
    ensures
        text::opt(r) == or_blank(found(member_views(m@), name@)),
{
    let ghost all = member_views(m@);
    assert(all.skip(0) =~= all);
    for i in 0..m.len()
        invariant
            all == member_views(m@),
            found(all, name@) == found(all.skip(i as int), name@),
    {
        let ghost here = all.skip(i as int);
        assert(here[0] == (m@[i as int].0@, text::opt(m@[i as int].1)));
        assert(here.skip(1) =~= all.skip(i + 1));
        if text::same(m[i].0.as_str(), name) {
            for j in i + 1..m.len()
                invariant
                    all == member_views(m@),
                    i < m@.len(),
                    here == all.skip(i as int),
                    here.skip(1) == all.skip(i + 1),
                    here[0] == (name@, text::opt(m@[i as int].1)),
                    found(member_views(m@), name@) == found(here, name@),
                    forall|k: int| i < k < j ==> (#[trigger] all[k]).0 != name@,
            {
                assert(all[j as int].0 == m@[j as int].0@);
                if text::same(m[j].0.as_str(), name) {
                    assert(here.skip(1)[j - i - 1] == all[j as int]);
                    return None;
                }
            }
            assert forall|k: int| 0 <= k < here.skip(1).len() implies (
            #[trigger] here.skip(1)[k]).0 != name@ by {
                assert(here.skip(1)[k] == all[i + 1 + k]);
            }
            return text::copy(&m[i].1);
        }
    }
    Some(String::new())
}

fn nth(l: &Vec<Option<String>>, i: usize) -> (r: Option<String>)
    ensures
        text::opt(r) == or_blank(item(item_views(l@), i as int)),
{
    if i < l.len() {
        text::copy(&l[i])
    } else {
        Some(String::new())
    }
}

fn string_of(t: &str) -> (r: Option<String>)
    ensures
        text::opt(r) == text_of(t@),
{
    match json::spelled(t) {
        Ok(s) => Some(s),
        Err(_) => None,
    }
}

impl Container {
    /// The container that the members of an object describe, of which those
    /// that are texts are given.
    pub fn named(m: &Vec<(String, Option<String>)>) -> (r: Option<Container>)
        ensures
            text::opt(r) == named(member_views(m@)),
    {
        with(member(m, "Name"), member(m, "Service"), member(m, "State"), member(m, "Status"))
    }

    /// The container whose fields are listed in their order, of which those
    /// that are texts are given.
    pub fn listed(l: &Vec<Option<String>>) -> (r: Option<Container>)
        ensures
            text::opt(r) == listed(item_views(l@)),
    {
        if l.len() > 4 {
            return None;
        }
        with(nth(l, 0), nth(l, 1), nth(l, 2), nth(l, 3))
    }

    /// The container that a JSON text describes.
    pub fn parse(t: &str) -> (r: Result<Container, Error>)
        ensures
            decode::read(r) == container_of(t@),
            decode::plain(r),
    {
        let c = match json::object(t) {
            Ok(m) => {
                let mut texts: Vec<(String, Option<String>)> = Vec::new();
                for i in 0..m.len()
                    invariant
                        texts@.len() == i,
                        forall|j: int|
                            0 <= j < i ==> (#[trigger] texts@[j]).0@ == m@[j].0@ && text::opt(
                                texts@[j].1,
                            ) == text_of(m@[j].1@),
                {
                    texts.push((m[i].0.clone(), string_of(m[i].1.as_str())));
                }
                assert(member_views(texts@) =~= member_texts(json::pairs(m@)));
                Container::named(&texts)
            },
            Err(e) => match json::items(t) {
                Ok(l) => {
                    let mut texts: Vec<Option<String>> = Vec::new();
                    for i in 0..l.len()
                        invariant
                            texts@.len() == i,
                            forall|j: int|
                                0 <= j < i ==> text::opt(#[trigger] texts@[j]) == text_of(l@[j]@),
                    {
                        texts.push(string_of(l[i].as_str()));
                    }
                    assert(item_views(texts@) =~= item_texts(text::views(l@)));
                    Container::listed(&texts)
                },
                Err(_) => return Err(Error::new(e)),
            },
        };
        match c {
            Some(c) => Ok(c),
            None => Err(Error::msg("not a container")),
        }
    }
}

proof fn lemma_containers_fail(l: Seq<Text>, i: int)
    requires
        0 <= i <= l.len(),
        containers_of(l.take(i)) is None,
    ensures
        containers_of(l) is None,
    decreases l.len(),
{
    if i < l.len() {
        assert(l.drop_last().take(i) =~= l.take(i));
        lemma_containers_fail(l.drop_last(), i);
    } else {
        assert(l.take(i) =~= l);
    }
}

fn read_array(t: &str) -> (r: Option<Vec<Container>>)
    ensures
        match r {
            Some(l) => array_containers(t@) == Some(text::views(l@)),
            None => array_containers(t@) is None,
        },
{
    let l = match json::items(t) {
        Ok(l) => l,
        Err(_) => return None,
    };
    let ghost all = text::views(l@);
    let mut out: Vec<Container> = Vec::new();
    assert(text::views(out@) =~= Seq::empty());
    assert(all.take(0) =~= Seq::empty());
    for i in 0..l.len()
        invariant
            all == text::views(l@),
            array_containers(t@) == containers_of(all),
            containers_of(all.take(i as int)) == Some(text::views(out@)),
    {
        assert(all.take(i + 1).drop_last() =~= all.take(i as int));
        assert(all.take(i + 1).last() == l@[i as int]@);
        match Container::parse(l[i].as_str()) {
            Ok(c) => {
                let ghost before = out@;
                out.push(c);
                assert(text::views(out@) =~= text::views(before).push(c@));
            },
            Err(_) => {
                proof {
                    lemma_containers_fail(all, i + 1);
                }
                return None;
            },
        }
    }
    assert(all.take(all.len() as int) =~= all);
    Some(out)
}

proof fn lemma_lines_fail(l: Seq<Text>, i: int)
    requires
        0 <= i <= l.len(),
        lines_containers(l.take(i)) is Err,
    ensures
        lines_containers(l) == lines_containers(l.take(i)),
    decreases l.len(),
{
    if i < l.len() {
        assert(l.drop_last().take(i) =~= l.take(i));
        lemma_lines_fail(l.drop_last(), i);
    } else {
        assert(l.take(i) =~= l);
    }
}

fn ps_error(e: Error) -> (r: Error)
    requires
        e@.len() == 1,
    ensures
        r@ == seq!["docker compose ps output"@, e@[0]],
{
    let ghost m = e@[0];
    let e = e.context("docker compose ps output".to_owned());
    assert(e@ =~= seq!["docker compose ps output"@, m]);
    e
}

/// The containers that compose printed.
pub fn parse_ps(out: &str) -> (r: Result<Vec<Container>, Error>)
    ensures
        match r {
            Ok(l) => ps_of(out@) == Ok::<Seq<ContainerV>, Chain>(text::views(l@)),
            Err(e) => ps_of(out@) == Err::<Seq<ContainerV>, Chain>(e@),
        },
{
    let t = text::trim(out);
    let mut list: Vec<Container> = Vec::new();
    assert(text::views(list@) =~= Seq::empty());
    if text::empty(t.as_str()) {
        return Ok(list);
    }
    if let Some(l) = read_array(t.as_str()) {
        return Ok(l);
    }
    let lines = text::lines(t.as_str());
    let ghost all = text::lines_of(t@);
    assert(all.take(0) =~= Seq::empty());
    for i in 0..lines.len()
        invariant
            text::views(lines@) == all,
            ps_of(out@) == lines_containers(all),
            lines_containers(all.take(i as int)) == Ok::<Seq<ContainerV>, Chain>(
                text::views(list@),
            ),
    {
        assert(all.take(i + 1).drop_last() =~= all.take(i as int));
        assert(all.take(i + 1).last() == lines@[i as int]@);
        let line = text::trim(lines[i].as_str());
        if !text::empty(line.as_str()) {
            match Container::parse(line.as_str()) {
                Ok(c) => {
                    let ghost before = list@;
                    list.push(c);
                    assert(text::views(list@) =~= text::views(before).push(c@));
                },
                Err(e) => {
                    proof {
                        lemma_lines_fail(all, i + 1);
                    }
                    return Err(ps_error(e));
                },
            }
        }
    }
    assert(all.take(all.len() as int) =~= all);
    Ok(list)
}

pub open spec fn ps_s(w: WorldV, vmid: u32) -> (WorldV, Result<Seq<ContainerV>, StopV>) {
    match pct::exec_s(w, vmid, compose("ps -a --format json"@)) {
        (w, Err(e)) => (w, Err(e)),
        (w, Ok(o)) => match ps_of(o.stdout) {
            Ok(l) => (w, Ok(l)),
            Err(c) => (w, Err(StopV::Fail(c))),
        },
    }
}

/// The stack's containers.
pub fn ps(w: &mut World, vmid: u32) -> (r: Result<Vec<Container>, Stop>)
    ensures
        (final(w)@, world::res_list(r)) == ps_s(old(w)@, vmid),
{
    let o = match pct::exec(w, vmid, compose_line("ps -a --format json").as_str()) {
        Ok(o) => o,
        Err(e) => return Err(e),
    };
    match parse_ps(o.stdout.as_str()) {
        Ok(l) => Ok(l),
        Err(e) => Err(Stop::Fail(e)),
    }
}

/// Whether some container runs.
pub open spec fn any_running(l: Seq<ContainerV>) -> bool {
    exists|i: int| 0 <= i < l.len() && (#[trigger] l[i]).state == "running"@
}

/// Whether some container runs.
pub fn is_up(l: &Vec<Container>) -> (r: bool)
    ensures
        r == any_running(text::views(l@)),
{
    let ghost all = text::views(l@);
    for i in 0..l.len()
        invariant
            all == text::views(l@),
            forall|j: int| 0 <= j < i ==> (#[trigger] all[j]).state != "running"@,
    {
        assert(all[i as int] == l@[i as int]@);
        if text::same(l[i].state.as_str(), "running") {
            return true;
        }
    }
    false
}

pub open spec fn docker_ok_s(w: WorldV, vmid: u32) -> (WorldV, Result<bool, StopV>) {
    match pct::exec_status_s(w, vmid, "docker info >/dev/null 2>&1"@) {
        (w, Err(e)) => (w, Err(e)),
        (w, Ok(o)) => (w, Ok(o.status == 0)),
    }
}

/// Whether docker is installed and answering inside the guest.
pub fn docker_ok(w: &mut World, vmid: u32) -> (r: Result<bool, Stop>)
    ensures
        (final(w)@, world::res(r)) == docker_ok_s(old(w)@, vmid),
{
    match pct::exec_status(w, vmid, "docker info >/dev/null 2>&1") {
        Ok(o) => Ok(o.status == 0),
        Err(e) => Err(e),
    }
}

/// What a human passes through to compose has no deadline.
pub proof fn law_passthrough_has_no_deadline(w: WorldV, vmid: u32, args: Seq<Text>, c: CallV)
    requires
        passthrough_s(w, vmid, args).1 == Err::<(), StopV>(StopV::Act(ActV::Run(c))),
    ensures
        c.within is None,
{
}

} // verus!
