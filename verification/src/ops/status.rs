//! `status`: every compose guest on this node, or one, as a table or JSON.

use vstd::prelude::*;

use crate::doc::{self, Mode, Policy, Read, ReadV};
use crate::error::{self, Chain, Error};
use crate::num;
use crate::ops::{self, Ctx, CtxV, Guest, GuestV, apply};
use crate::pct::{self, Listed, ListedV};
use crate::prompt;
use crate::stack::{self, Container, ContainerV, FactsV};
use crate::text::{self, Text};
use crate::world::{self, Stop, StopV, World, WorldV};

verus! {

#[derive(Debug)]
pub struct Row {
    pub vmid: u32,
    pub name: String,
    pub node: String,
    pub running: bool,
    pub policy: Option<String>,
    /// `applied`, `down` (file applied, no container running), `pending`,
    /// `never`, `stopped`, `no document`, `error: ...`
    pub state: String,
    pub applied_at: Option<String>,
    pub template: Option<String>,
    pub pct_pending: Option<usize>,
    pub containers: Vec<ContainerRow>,
}

/// What a [`Row`] is, as mathematics.
pub struct RowV {
    pub vmid: u32,
    pub name: Text,
    pub node: Text,
    pub running: bool,
    pub policy: Option<Text>,
    pub state: Text,
    pub applied_at: Option<Text>,
    pub template: Option<Text>,
    pub pct_pending: Option<usize>,
    pub containers: Seq<ContainerRowV>,
}

impl View for Row {
    type V = RowV;

    open spec fn view(&self) -> RowV {
        RowV {
            vmid: self.vmid,
            name: self.name@,
            node: self.node@,
            running: self.running,
            policy: text::opt(self.policy),
            state: self.state@,
            applied_at: text::opt(self.applied_at),
            template: text::opt(self.template),
            pct_pending: self.pct_pending,
            containers: text::views(self.containers@),
        }
    }
}

#[derive(Debug)]
pub struct ContainerRow {
    pub service: String,
    pub name: String,
    pub state: String,
    pub status: String,
}

/// What a [`ContainerRow`] is, as mathematics.
pub struct ContainerRowV {
    pub service: Text,
    pub name: Text,
    pub state: Text,
    pub status: Text,
}

impl View for ContainerRow {
    type V = ContainerRowV;

    open spec fn view(&self) -> ContainerRowV {
        ContainerRowV {
            service: self.service@,
            name: self.name@,
            state: self.state@,
            status: self.status@,
        }
    }
}

/// Which level to report. `Both` adds the container list.
#[derive(Debug, Clone, Copy, PartialEq, Eq, Structural)]
pub enum Level {
    Pct,
    Docker,
    Both,
}

/// The name of a mode.
pub open spec fn mode_shown(m: Mode) -> Text {
    match m {
        Mode::Auto => "auto"@,
        Mode::Manual => "manual"@,
    }
}

/// The policy column.
pub open spec fn policy_shown(p: Policy) -> Text {
    "pct="@ + mode_shown(p.pct) + " docker="@ + mode_shown(p.docker) + " pull="@ + mode_shown(
        p.pull,
    )
}

/// A row with nothing known but the guest.
pub open spec fn blank(c: CtxV, l: ListedV) -> RowV {
    RowV {
        vmid: l.vmid,
        name: l.name,
        node: c.node,
        running: l.running,
        policy: None,
        state: Seq::empty(),
        applied_at: None,
        template: None,
        pct_pending: None,
        containers: Seq::empty(),
    }
}

/// The state of a guest that could not be looked at.
pub open spec fn error_state(e: Chain) -> Text {
    "error: "@ + error::head(e)
}

/// The rows of containers.
pub open spec fn container_rows(l: Seq<ContainerV>) -> Seq<ContainerRowV> {
    l.map_values(
        |c: ContainerV|
            ContainerRowV { service: c.service, name: c.name, state: c.state, status: c.status },
    )
}

/// The row with what the containers say: Docker and Both both know whether
/// the stack is up; only Both lists it.
pub open spec fn with_containers(r: RowV, l: Seq<ContainerV>, level: Level) -> RowV {
    RowV {
        containers: if level == Level::Both {
            container_rows(l)
        } else {
            r.containers
        },
        state: if r.state == "applied"@ && !stack::any_running(l) {
            "down"@
        } else {
            r.state
        },
        ..r
    }
}

/// The row with what the facts say.
pub open spec fn with_facts(r: RowV, f: Option<FactsV>, digest: Text) -> RowV {
    match f {
        None => RowV { state: "never"@, ..r },
        Some(f) => RowV {
            applied_at: Some(f.applied_at),
            template: f.template,
            state: if f.digest == digest && r.pct_pending.unwrap_or(0) == 0 {
                "applied"@
            } else {
                "pending"@
            },
            ..r
        },
    }
}

/// The row with what the stack says.
pub open spec fn stack_row_s(w: WorldV, r: RowV, digest: Text, level: Level) -> (
    WorldV,
    Result<RowV, StopV>,
) {
    match stack::read_facts_s(w, r.vmid) {
        (w, Err(StopV::Act(a))) => (w, Err(StopV::Act(a))),
        (w, Err(StopV::Fail(e))) => (w, Ok(RowV { state: error_state(e), ..r })),
        (w, Ok(f)) => {
            let r = with_facts(r, f, digest);
            match stack::ps_s(w, r.vmid) {
                (w, Err(StopV::Act(a))) => (w, Err(StopV::Act(a))),
                (w, Err(StopV::Fail(_))) => (w, Ok(r)),
                (w, Ok(l)) => (w, Ok(with_containers(r, l, level))),
            }
        },
    }
}

/// The row of a running guest with a document.
pub open spec fn guest_row_s(w: WorldV, c: CtxV, r: RowV, g: GuestV, level: Level) -> (
    WorldV,
    Result<RowV, StopV>,
) {
    if level == Level::Docker {
        stack_row_s(w, r, g.read.digest, level)
    } else {
        match apply::planned(c, g) {
            Err(e) => (w, Ok(RowV { state: error_state(e), ..r })),
            Ok(p) => {
                let r = RowV { pct_pending: Some(p.ops.len() as usize), ..r };
                if level == Level::Pct {
                    (
                        w,
                        Ok(
                            RowV {
                                state: if p.ops.len() == 0 {
                                    "applied"@
                                } else {
                                    "pending"@
                                },
                                ..r
                            },
                        ),
                    )
                } else {
                    stack_row_s(w, r, g.read.digest, level)
                }
            },
        }
    }
}

pub open spec fn row_s(w: WorldV, c: CtxV, l: ListedV, read: Option<ReadV>, level: Level) -> (
    WorldV,
    Result<RowV, StopV>,
) {
    match read {
        None => (w, Ok(RowV { state: "no document"@, ..blank(c, l) })),
        Some(read) => {
            let r = RowV { policy: Some(policy_shown(read.doc.policy)), ..blank(c, l) };
            if !l.running {
                (w, Ok(RowV { state: "stopped"@, ..r }))
            } else {
                match ops::load_with_s(w, c, read) {
                    (w, Err(StopV::Act(a))) => (w, Err(StopV::Act(a))),
                    (w, Err(StopV::Fail(e))) => (w, Ok(RowV { state: error_state(e), ..r })),
                    (w, Ok(g)) => guest_row_s(w, c, r, g, level),
                }
            }
        },
    }
}

/// The row of one guest of the node, where it is asked for: not a template,
/// the vmid where one is given, and otherwise one that is selected or has a
/// document, so a forgotten tag shows.
pub open spec fn one_s(w: WorldV, c: CtxV, l: ListedV, vmid: Option<u32>, level: Level) -> (
    WorldV,
    Result<Option<RowV>, StopV>,
) {
    if l.is_template || (vmid is Some && l.vmid != vmid->0) {
        (w, Ok(None))
    } else {
        match doc::read_s(w, l.vmid) {
            (w, Err(StopV::Act(a))) => (w, Err(StopV::Act(a))),
            (w, Err(StopV::Fail(e))) => (
                w,
                Ok(Some(RowV { state: error_state(e), ..blank(c, l) })),
            ),
            (w, Ok(read)) => if vmid is None && read is None && !ops::is_selected(c, l.tags) {
                (w, Ok(None))
            } else {
                match row_s(w, c, l, read, level) {
                    (w, Err(e)) => (w, Err(e)),
                    (w, Ok(r)) => (w, Ok(Some(r))),
                }
            },
        }
    }
}

/// The rows of the guests of the node, after those already there.
pub open spec fn rows_from_s(
    w: WorldV,
    c: CtxV,
    l: Seq<ListedV>,
    vmid: Option<u32>,
    level: Level,
    out: Seq<RowV>,
) -> (WorldV, Result<Seq<RowV>, StopV>)
    decreases l.len(),
{
    if l.len() == 0 {
        (w, Ok(out))
    } else {
        match one_s(w, c, l[0], vmid, level) {
            (w, Err(e)) => (w, Err(e)),
            (w, Ok(None)) => rows_from_s(w, c, l.skip(1), vmid, level, out),
            (w, Ok(Some(r))) => rows_from_s(w, c, l.skip(1), vmid, level, out.push(r)),
        }
    }
}

pub open spec fn rows_s(w: WorldV, c: CtxV, vmid: Option<u32>, level: Level) -> (
    WorldV,
    Result<Seq<RowV>, StopV>,
) {
    match pct::list_s(w, c.node) {
        (w, Err(e)) => (w, Err(e)),
        (w, Ok(l)) => rows_from_s(w, c, l, vmid, level, Seq::empty()),
    }
}

fn mode(m: Mode) -> (r: &'static str)
    ensures
        r@ == mode_shown(m),
{
    match m {
        Mode::Auto => "auto",
        Mode::Manual => "manual",
    }
}

fn policy_of(p: &Policy) -> (r: String)
    ensures
        r@ == policy_shown(*p),
{
    text::cat6("pct=", mode(p.pct), " docker=", mode(p.docker), " pull=", mode(p.pull))
}

fn blank_row(ctx: &Ctx, l: &Listed) -> (r: Row)
    ensures
        r@ == blank(ctx@, l@),
{
    let containers: Vec<ContainerRow> = Vec::new();
    assert(text::views(containers@) =~= Seq::empty());
    let state = String::new();
    assert(state@ =~= Seq::<char>::empty());
    Row {
        vmid: l.vmid,
        name: l.name.clone(),
        node: ctx.node.clone(),
        running: l.running,
        policy: None,
        state,
        applied_at: None,
        template: None,
        pct_pending: None,
        containers,
    }
}

fn failed(e: &Error) -> (r: String)
    ensures
        r@ == error_state(e@),
{
    text::cat("error: ", e.head().as_str())
}

fn listed(l: &Vec<Container>) -> (r: Vec<ContainerRow>)
    ensures
        text::views(r@) == container_rows(text::views(l@)),
{
    let mut out: Vec<ContainerRow> = Vec::new();
    let ghost all = container_rows(text::views(l@));
    assert(text::views(out@) =~= all.take(0));
    for i in 0..l.len()
        invariant
            all == container_rows(text::views(l@)),
            text::views(out@) == all.take(i as int),
    {
        let c = &l[i];
        let ghost prior = out@;
        assert(text::views(l@)[i as int] == c@);
        out.push(
            ContainerRow {
                service: c.service.clone(),
                name: c.name.clone(),
                state: c.state.clone(),
                status: c.status.clone(),
            },
        );
        assert(all.take(i + 1) =~= all.take(i as int).push(all[i as int]));
        assert(text::views(out@) =~= text::views(prior).push(all[i as int]));
    }
    assert(all.take(all.len() as int) =~= all);
    out
}

fn stack_row(w: &mut World, r: Row, digest: &str, level: Level) -> (s: Result<Row, Stop>)
    ensures
        (final(w)@, world::res(s)) == stack_row_s(old(w)@, r@, digest@, level),
{
    let mut r = r;
    match stack::read_facts(w, r.vmid) {
        Err(Stop::Act(a)) => return Err(Stop::Act(a)),
        Err(Stop::Fail(e)) => {
            r.state = failed(&e);
            return Ok(r);
        },
        Ok(None) => {
            r.state = "never".to_owned();
        },
        Ok(Some(f)) => {
            let pending = match r.pct_pending {
                Some(n) => n,
                None => 0,
            };
            r.state = if text::same(f.digest.as_str(), digest) && pending == 0 {
                "applied".to_owned()
            } else {
                "pending".to_owned()
            };
            r.applied_at = Some(f.applied_at);
            r.template = f.template;
        },
    }
    match stack::ps(w, r.vmid) {
        Err(Stop::Act(a)) => Err(Stop::Act(a)),
        Err(Stop::Fail(_)) => Ok(r),
        Ok(l) => {
            let down = text::same(r.state.as_str(), "applied") && !stack::is_up(&l);
            if level == Level::Both {
                r.containers = listed(&l);
            }
            if down {
                r.state = "down".to_owned();
            }
            Ok(r)
        },
    }
}

fn guest_row(w: &mut World, ctx: &Ctx, r: Row, g: &Guest, level: Level) -> (s: Result<Row, Stop>)
    ensures
        (final(w)@, world::res(s)) == guest_row_s(old(w)@, ctx@, r@, g@, level),
{
    let mut r = r;
    if level != Level::Docker {
        match apply::pct_plan(ctx, g) {
            Ok(p) => {
                r.pct_pending = Some(p.ops.len());
                if level == Level::Pct {
                    r.state = if p.is_empty() {
                        "applied".to_owned()
                    } else {
                        "pending".to_owned()
                    };
                    return Ok(r);
                }
            },
            Err(e) => {
                r.state = failed(&e);
                return Ok(r);
            },
        }
    }
    stack_row(w, r, g.read.digest.as_str(), level)
}

/// One row, given the document already read (or not there).
pub fn row(w: &mut World, ctx: &Ctx, l: &Listed, read: Option<Read>, level: Level) -> (s: Result<
    Row,
    Stop,
>)
    ensures
        (final(w)@, world::res(s)) == row_s(old(w)@, ctx@, l@, text::opt(read), level),
{
    let mut r = blank_row(ctx, l);
    let read = match read {
        Some(read) => read,
        None => {
            r.state = "no document".to_owned();
            return Ok(r);
        },
    };
    r.policy = Some(policy_of(&read.doc.policy));
    if !l.running {
        r.state = "stopped".to_owned();
        return Ok(r);
    }
    match ops::load_with(w, ctx, read) {
        Err(Stop::Act(a)) => Err(Stop::Act(a)),
        Err(Stop::Fail(e)) => {
            r.state = failed(&e);
            Ok(r)
        },
        Ok(g) => guest_row(w, ctx, r, &g, level),
    }
}

fn one(w: &mut World, ctx: &Ctx, l: &Listed, vmid: Option<u32>, level: Level) -> (s: Result<
    Option<Row>,
    Stop,
>)
    ensures
        (final(w)@, world::res_opt(s)) == one_s(old(w)@, ctx@, l@, vmid, level),
{
    if l.is_template {
        return Ok(None);
    }
    if let Some(v) = vmid {
        if l.vmid != v {
            return Ok(None);
        }
    }
    let read = match doc::read(w, l.vmid) {
        Ok(r) => r,
        Err(Stop::Act(a)) => return Err(Stop::Act(a)),
        Err(Stop::Fail(e)) => {
            let mut r = blank_row(ctx, l);
            r.state = failed(&e);
            return Ok(Some(r));
        },
    };
    if vmid.is_none() && read.is_none() && !ctx.selected(&l.tags) {
        return Ok(None);
    }
    match row(w, ctx, l, read, level) {
        Ok(r) => Ok(Some(r)),
        Err(e) => Err(e),
    }
}

/// Rows for the guests asked for: one vmid, or every selected guest on this
/// node, plus any guest with a document but without the tag, so a forgotten
/// tag shows. Each document is read once.
#[verifier::rlimit(40)]
pub fn rows(w: &mut World, ctx: &Ctx, vmid: Option<u32>, level: Level) -> (s: Result<
    Vec<Row>,
    Stop,
>)
    ensures
        (final(w)@, world::res_list(s)) == rows_s(old(w)@, ctx@, vmid, level),
{
    let list = match pct::list(w, ctx.node.as_str()) {
        Ok(l) => l,
        Err(e) => return Err(e),
    };
    let mut out: Vec<Row> = Vec::new();
    let ghost all = text::views(list@);
    assert(all.skip(0) =~= all);
    assert(text::views(out@) =~= Seq::empty());
    for i in 0..list.len()
        invariant
            all == text::views(list@),
            rows_from_s(w@, ctx@, all.skip(i as int), vmid, level, text::views(out@)) == rows_s(
                old(w)@,
                ctx@,
                vmid,
                level,
            ),
    {
        assert(all.skip(i as int)[0] == list@[i as int]@);
        assert(all.skip(i as int).skip(1) =~= all.skip(i + 1));
        let ghost prior = out@;
        match one(w, ctx, &list[i], vmid, level) {
            Ok(None) => {},
            Ok(Some(r)) => {
                out.push(r);
                assert(text::views(out@) =~= text::views(prior).push(r@));
            },
            Err(e) => return Err(e),
        }
    }
    Ok(out)
}

// ---------------------------------------------------------------------------
// The table.

/// A text cut to a number of characters.
pub open spec fn cut(s: Text, n: nat) -> Text {
    if s.len() <= n {
        s
    } else {
        s.take(n - 1) + "…"@
    }
}

/// How many bytes a character takes.
pub open spec fn width(c: char) -> nat {
    if (c as u32) < 0x80 {
        1
    } else if (c as u32) < 0x800 {
        2
    } else if (c as u32) < 0x10000 {
        3
    } else {
        4
    }
}

/// How many characters make up exactly so many bytes.
pub open spec fn within(s: Text, n: nat) -> Option<nat>
    decreases s.len(),
{
    if n == 0 {
        Some(0)
    } else if s.len() == 0 || width(s[0]) > n {
        None
    } else {
        match within(s.skip(1), (n - width(s[0])) as nat) {
            Some(k) => Some(k + 1),
            None => None,
        }
    }
}

/// The day of a time: its first ten bytes, where there are so many and no
/// character stands across their end.
pub open spec fn day(s: Text) -> Text {
    match within(s, 10) {
        Some(k) => s.take(k as int),
        None => s,
    }
}

/// The pct column.
pub open spec fn pct_column(p: Option<usize>) -> Text {
    match p {
        None => "-"@,
        Some(n) => if n == 0 {
            "ok"@
        } else {
            num::dec(n as nat) + " pending"@
        },
    }
}

/// The line of a row.
pub open spec fn row_line(r: RowV) -> Text {
    prompt::pad_right(num::dec(r.vmid as nat), 7) + " "@ + prompt::pad_right(
        cut(r.name, 20),
        20,
    ) + " "@ + prompt::pad_right(cut(r.state, 8), 8) + " "@ + prompt::pad_right(
        match r.applied_at {
            Some(t) => day(t),
            None => "-"@,
        },
        10,
    ) + " "@ + prompt::pad_right(pct_column(r.pct_pending), 8) + " "@ + r.policy.unwrap_or("-"@)
}

/// The line of a container.
pub open spec fn container_line(c: ContainerRowV) -> Text {
    "        "@ + prompt::pad_right(cut(c.service, 20), 20) + " "@ + prompt::pad_right(
        cut(c.state, 8),
        8,
    ) + " "@ + c.status
}

/// The containers, printed.
pub open spec fn containers_printed(w: WorldV, l: Seq<ContainerRowV>) -> WorldV
    decreases l.len(),
{
    if l.len() == 0 {
        w
    } else {
        containers_printed(w, l.drop_last()).out(container_line(l.last()))
    }
}

/// The rows, printed.
pub open spec fn rows_printed(w: WorldV, l: Seq<RowV>, level: Level) -> WorldV
    decreases l.len(),
{
    if l.len() == 0 {
        w
    } else {
        let w = rows_printed(w, l.drop_last(), level).out(row_line(l.last()));
        if level == Level::Both {
            containers_printed(w, l.last().containers)
        } else {
            w
        }
    }
}

/// The table, printed.
pub open spec fn table_printed(w: WorldV, l: Seq<RowV>, level: Level) -> WorldV {
    rows_printed(
        w.out("VMID    NAME                 STATE    APPLIED    PCT      POLICY"@),
        l,
        level,
    )
}

fn trunc(s: &str, n: usize) -> (r: String)
    requires
        n > 0,
    ensures
        r@ == cut(s@, n as nat),
{
    if s.unicode_len() <= n {
        s.to_owned()
    } else {
        let cs = text::chars(s);
        let head = text::part(&cs, 0, n - 1);
        assert(head@ =~= s@.take(n - 1));
        text::cat(head.as_str(), "…")
    }
}

proof fn lemma_within(s: Text, n: nat)
    ensures
        within(s, n) matches Some(k) ==> k <= s.len(),
    decreases s.len(),
{
    if n > 0 && s.len() > 0 && width(s[0]) <= n {
        lemma_within(s.skip(1), (n - width(s[0])) as nat);
    }
}

fn bytes(c: char) -> (r: usize)
    ensures
        r == width(c),
{
    let n = c as u32;
    if n < 0x80 {
        1
    } else if n < 0x800 {
        2
    } else if n < 0x10000 {
        3
    } else {
        4
    }
}

fn day_of(s: &str) -> (r: String)
    ensures
        r@ == day(s@),
{
    let cs = text::chars(s);
    let mut left: usize = 10;
    let mut i: usize = 0;
    assert(s@.skip(0) =~= s@);
    while left > 0
        invariant
            cs@ == s@,
            i <= cs.len(),
            left <= 10,
            within(s@, 10) == (match within(s@.skip(i as int), left as nat) {
                Some(k) => Some(k + i as nat),
                None => None,
            }),
        decreases left,
    {
        if i == cs.len() || bytes(cs[i]) > left {
            return s.to_owned();
        }
        let b = bytes(cs[i]);
        assert(s@.skip(i as int)[0] == cs@[i as int]);
        assert(s@.skip(i as int).skip(1) =~= s@.skip(i + 1));
        left = left - b;
        i = i + 1;
    }
    let head = text::part(&cs, 0, i);
    assert(head@ =~= s@.take(i as int));
    head
}

fn pct_of(p: Option<usize>) -> (r: String)
    ensures
        r@ == pct_column(p),
{
    match p {
        None => "-".to_owned(),
        Some(n) => if n == 0 {
            "ok".to_owned()
        } else {
            text::cat(num::print(n as u64).as_str(), " pending")
        },
    }
}

fn line(r: &Row) -> (s: String)
    ensures
        s@ == row_line(r@),
{
    let applied = match &r.applied_at {
        Some(t) => day_of(t.as_str()),
        None => "-".to_owned(),
    };
    let policy = match &r.policy {
        Some(p) => p.clone(),
        None => "-".to_owned(),
    };
    let head = text::cat6(
        prompt::right(num::print(r.vmid as u64).as_str(), 7).as_str(),
        " ",
        prompt::right(trunc(r.name.as_str(), 20).as_str(), 20).as_str(),
        " ",
        prompt::right(trunc(r.state.as_str(), 8).as_str(), 8).as_str(),
        " ",
    );
    text::cat6(
        head.as_str(),
        prompt::right(applied.as_str(), 10).as_str(),
        " ",
        prompt::right(pct_of(r.pct_pending).as_str(), 8).as_str(),
        " ",
        policy.as_str(),
    )
}

fn print_containers(w: &mut World, l: &Vec<ContainerRow>)
    ensures
        final(w)@ == containers_printed(old(w)@, text::views(l@)),
{
    let ghost all = text::views(l@);
    assert(all.take(0) =~= Seq::empty());
    for i in 0..l.len()
        invariant
            all == text::views(l@),
            w@ == containers_printed(old(w)@, all.take(i as int)),
    {
        assert(all.take(i + 1).drop_last() =~= all.take(i as int));
        assert(all.take(i + 1).last() == l@[i as int]@);
        let c = &l[i];
        w.out(
            text::cat6(
                "        ",
                prompt::right(trunc(c.service.as_str(), 20).as_str(), 20).as_str(),
                " ",
                prompt::right(trunc(c.state.as_str(), 8).as_str(), 8).as_str(),
                " ",
                c.status.as_str(),
            ),
        );
    }
    assert(all.take(all.len() as int) =~= all);
}

pub fn print_table(w: &mut World, rows: &Vec<Row>, level: Level)
    ensures
        final(w)@ == table_printed(old(w)@, text::views(rows@), level),
{
    w.out("VMID    NAME                 STATE    APPLIED    PCT      POLICY".to_owned());
    let ghost all = text::views(rows@);
    let ghost start = w@;
    assert(all.take(0) =~= Seq::empty());
    for i in 0..rows.len()
        invariant
            all == text::views(rows@),
            w@ == rows_printed(start, all.take(i as int), level),
    {
        assert(all.take(i + 1).drop_last() =~= all.take(i as int));
        assert(all.take(i + 1).last() == rows@[i as int]@);
        w.out(line(&rows[i]));
        if level == Level::Both {
            print_containers(w, &rows[i].containers);
        }
    }
    assert(all.take(all.len() as int) =~= all);
}

// ---------------------------------------------------------------------------
// What holds of it.

/// Once the containers were listed, `applied` is said only where the facts
/// name the document that the guest has, nothing is left for pct to do and a
/// container runs.
pub proof fn law_applied_is_earned(
    r: RowV,
    f: Option<FactsV>,
    digest: Text,
    l: Seq<ContainerV>,
    level: Level,
)
    ensures
        with_containers(with_facts(r, f, digest), l, level).state == "applied"@ ==> f is Some
            && f->0.digest == digest && r.pct_pending.unwrap_or(0) == 0 && stack::any_running(l),
{
    reveal_strlit("applied");
    reveal_strlit("down");
    reveal_strlit("pending");
    reveal_strlit("never");
    assert("applied"@[0] != "down"@[0]);
    assert("applied"@[0] != "pending"@[0]);
    assert("applied"@[0] != "never"@[0]);
}

/// Whether a guest has a row, when it is its turn: none that is a template,
/// only the one with the vmid where one is given, and otherwise one that is
/// selected, has a document, or whose document cannot be read.
pub open spec fn has_row(w: WorldV, c: CtxV, l: ListedV, vmid: Option<u32>) -> bool {
    &&& !l.is_template
    &&& vmid matches Some(v) ==> l.vmid == v
    &&& vmid is Some || ops::is_selected(c, l.tags) || doc::read_s(w, l.vmid).1 != Ok::<
        Option<ReadV>,
        StopV,
    >(None)
}

/// The guests that have a row, in the order of the list.
pub open spec fn with_rows(
    w: WorldV,
    c: CtxV,
    l: Seq<ListedV>,
    vmid: Option<u32>,
    level: Level,
) -> Seq<ListedV>
    decreases l.len(),
{
    if l.len() == 0 {
        Seq::empty()
    } else {
        let rest = with_rows(one_s(w, c, l[0], vmid, level).0, c, l.skip(1), vmid, level);
        if has_row(w, c, l[0], vmid) {
            seq![l[0]] + rest
        } else {
            rest
        }
    }
}

/// Whether a row is about a guest.
pub open spec fn about(r: RowV, c: CtxV, l: ListedV) -> bool {
    r.vmid == l.vmid && r.name == l.name && r.node == c.node && r.running == l.running
}

proof fn lemma_one_row(w: WorldV, c: CtxV, l: ListedV, vmid: Option<u32>, level: Level)
    ensures
        match one_s(w, c, l, vmid, level).1 {
            Ok(Some(r)) => has_row(w, c, l, vmid) && about(r, c, l),
            Ok(None) => !has_row(w, c, l, vmid),
            Err(e) => e is Act,
        },
{
}

#[verifier::rlimit(40)]
proof fn lemma_rows_from(
    w: WorldV,
    c: CtxV,
    l: Seq<ListedV>,
    vmid: Option<u32>,
    level: Level,
    out: Seq<RowV>,
)
    ensures
        match rows_from_s(w, c, l, vmid, level, out).1 {
            Ok(rows) => {
                let g = with_rows(w, c, l, vmid, level);
                &&& rows.len() == out.len() + g.len()
                &&& rows.take(out.len() as int) == out
                &&& forall|k: int|
                    0 <= k < g.len() ==> about(rows[out.len() + k], c, #[trigger] g[k])
            },
            Err(e) => e is Act,
        },
    decreases l.len(),
{
    if l.len() == 0 {
        assert(out.take(out.len() as int) =~= out);
    } else {
        lemma_one_row(w, c, l[0], vmid, level);
        let (v, r) = one_s(w, c, l[0], vmid, level);
        let rest = with_rows(v, c, l.skip(1), vmid, level);
        let g = with_rows(w, c, l, vmid, level);
        match r {
            Ok(None) => {
                lemma_rows_from(v, c, l.skip(1), vmid, level, out);
            },
            Ok(Some(x)) => {
                let more = out.push(x);
                lemma_rows_from(v, c, l.skip(1), vmid, level, more);
                if let Ok(rows) = rows_from_s(w, c, l, vmid, level, out).1 {
                    assert(rows.take(more.len() as int)[out.len() as int] == x);
                    assert(rows.take(out.len() as int) =~= out) by {
                        assert forall|k: int| 0 <= k < out.len() implies rows[k] == out[k] by {
                            assert(rows.take(more.len() as int)[k] == more[k]);
                        }
                    }
                    assert forall|k: int| 0 <= k < g.len() implies about(
                        rows[out.len() + k],
                        c,
                        #[trigger] g[k],
                    ) by {
                        if k > 0 {
                            assert(g[k] == rest[k - 1]);
                            assert(about(rows[more.len() + (k - 1)], c, rest[k - 1]));
                        }
                    }
                }
            },
            Err(_) => {},
        }
    }
}

proof fn lemma_with_rows_in_order(
    w: WorldV,
    c: CtxV,
    l: Seq<ListedV>,
    vmid: Option<u32>,
    level: Level,
)
    requires
        pct::in_vmid_order(l),
    ensures
        pct::in_vmid_order(with_rows(w, c, l, vmid, level)),
        forall|k: int|
            0 <= k < with_rows(w, c, l, vmid, level).len() ==> (#[trigger] with_rows(
                w,
                c,
                l,
                vmid,
                level,
            )[k]).vmid >= l[0].vmid,
    decreases l.len(),
{
    if l.len() > 0 {
        let v = one_s(w, c, l[0], vmid, level).0;
        let tail = l.skip(1);
        assert(pct::in_vmid_order(tail)) by {
            assert forall|i: int, j: int| 0 <= i < j < tail.len() implies (
            #[trigger] tail[i]).vmid <= (#[trigger] tail[j]).vmid by {
                assert(l[i + 1].vmid <= l[j + 1].vmid);
            }
        }
        lemma_with_rows_in_order(v, c, tail, vmid, level);
        let rest = with_rows(v, c, tail, vmid, level);
        let g = with_rows(w, c, l, vmid, level);
        if tail.len() > 0 {
            assert(l[0].vmid <= l[1].vmid && tail[0] == l[1]);
        }
        assert forall|k: int| 0 <= k < rest.len() implies (#[trigger] rest[k]).vmid >= l[0].vmid by {
            assert(tail.len() > 0);
        }
        if has_row(w, c, l[0], vmid) {
            assert forall|k: int| 0 <= k < g.len() implies (#[trigger] g[k]).vmid >= l[0].vmid by {
                if k > 0 {
                    assert(g[k] == rest[k - 1]);
                }
            }
            assert forall|i: int, j: int| 0 <= i < j < g.len() implies (#[trigger] g[i]).vmid <= (
            #[trigger] g[j]).vmid by {
                assert(g[j] == rest[j - 1]);
                if i > 0 {
                    assert(g[i] == rest[i - 1]);
                }
            }
        }
    }
}

/// The rows are about the guests that have one, each once and in the order of
/// their vmids.
pub proof fn law_rows_are_in_order(w: WorldV, c: CtxV, vmid: Option<u32>, level: Level)
    requires
        rows_s(w, c, vmid, level).1 is Ok,
    ensures
        pct::list_s(w, c.node).1 is Ok,
        ({
            let (v, l) = pct::list_s(w, c.node);
            let g = with_rows(v, c, l->Ok_0, vmid, level);
            let rows = rows_s(w, c, vmid, level).1->Ok_0;
            &&& rows.len() == g.len()
            &&& forall|k: int| 0 <= k < g.len() ==> about(rows[k], c, #[trigger] g[k])
            &&& forall|i: int, j: int|
                0 <= i < j < rows.len() ==> (#[trigger] rows[i]).vmid <= (#[trigger] rows[j]).vmid
        }),
{
    let (v, r) = pct::list_s(w, c.node);
    if let Ok(l) = r {
        pct::lemma_listed_in_order(w, c.node);
        lemma_rows_from(v, c, l, vmid, level, Seq::empty());
        lemma_with_rows_in_order(v, c, l, vmid, level);
        let g = with_rows(v, c, l, vmid, level);
        let rows = rows_s(w, c, vmid, level).1->Ok_0;
        assert forall|k: int| 0 <= k < g.len() implies about(rows[k], c, #[trigger] g[k]) by {
            assert(about(rows[0 + k], c, g[k]));
        }
        assert forall|i: int, j: int| 0 <= i < j < rows.len() implies (#[trigger] rows[i]).vmid <= (
        #[trigger] rows[j]).vmid by {
            assert(g[i].vmid <= g[j].vmid);
        }
    }
}

/// What fails in one guest is the state of its row: the rows as a whole fail
/// only where the guests of the node cannot be listed.
pub proof fn law_one_guest_fails_no_rows(w: WorldV, c: CtxV, vmid: Option<u32>, level: Level)
    requires
        rows_s(w, c, vmid, level).1 matches Err(StopV::Fail(_)),
    ensures
        pct::list_s(w, c.node).1 matches Err(e) && rows_s(w, c, vmid, level).1 == Err::<
            Seq<RowV>,
            StopV,
        >(e),
{
    let (v, r) = pct::list_s(w, c.node);
    if let Ok(l) = r {
        lemma_rows_from(v, c, l, vmid, level, Seq::empty());
    }
}

} // verus!
