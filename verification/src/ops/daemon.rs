//! The reconcile loop, one per node, acting only on guests whose config
//! lives on this node. PVE keeps exactly one owner per guest, so N nodes
//! running this never overlap, and a migration moves the responsibility.
//!
//! Level-triggered: poll pve-meta's version token; when it moves, walk the
//! running selected guests and apply whichever halves the document's policy
//! allows, skipping a guest whose document was already handled. Every
//! `full_every` seconds the memo is dropped and every guest is planned
//! again, which is what catches a change made outside the store.
//!
//! The docker half only ever applies a change to a stack that is up. On a
//! stack that is down, whether never started (`new --no-up`) or taken down
//! by hand, the loop renders and pushes the compose file so the pending
//! state lands, and does not start anything: starting is a human's act.
//!
//! The stored choices are re-read before every pass: a `config set storage`
//! on the node takes effect at the next poll, and a changed config drops the
//! memo so a guest refused for lack of a storage is planned again.
//!
//! Single-threaded on purpose: one guest at a time, in vmid order. A guest
//! whose apply is slow (a first docker install) delays the others on the
//! node for that long. Acceptable for the scale this is built for, and one
//! less thing that can interleave.

use vstd::prelude::*;

use crate::cmd;
use crate::config::{self, Config};
use crate::doc::{self, Mode, Policy, Read, ReadV};
use crate::error;
use crate::json;
use crate::lock::{self, GuestLock};
use crate::notify;
use crate::num;
use crate::ops::{self, Ctx, CtxV, Guest, GuestV, apply, provision};
use crate::ops::apply::Options;
use crate::pct::{self, Listed, ListedV};
use crate::plan::{self, OpV};
use crate::stack;
use crate::text::{self, Text};
use crate::world::{self, Act, ActV, CallV, Stop, StopV, World, WorldV};
use crate::yaml;

verus! {

// ---------------------------------------------------------------------------
// Which documents were handled.

/// The digest of the document last handled, for every guest that had one.
#[derive(Debug)]
pub struct Memo {
    pub entries: Vec<(u32, String)>,
}

/// What the entries say, the later over the earlier.
pub open spec fn memo_of(e: Seq<(u32, String)>) -> Map<u32, Text>
    decreases e.len(),
{
    if e.len() == 0 {
        Map::empty()
    } else {
        memo_of(e.drop_last()).insert(e.last().0, e.last().1@)
    }
}

impl View for Memo {
    type V = Map<u32, Text>;

    open spec fn view(&self) -> Map<u32, Text> {
        memo_of(self.entries@)
    }
}

/// Whether a guest's document was handled.
pub open spec fn handled(m: Map<u32, Text>, vmid: u32, digest: Text) -> bool {
    m.contains_key(vmid) && m[vmid] == digest
}

impl Memo {
    pub fn new() -> (r: Memo)
        ensures
            r@ == Map::<u32, Text>::empty(),
    {
        Memo { entries: Vec::new() }
    }

    /// Whether the guest's document was handled.
    pub fn has(&self, vmid: u32, digest: &str) -> (r: bool)
        ensures
            r == handled(self@, vmid, digest@),
    {
        let ghost all = self.entries@;
        let mut i: usize = self.entries.len();
        assert(all.take(i as int) =~= all);
        while i > 0
            invariant
                i <= self.entries@.len(),
                all == self.entries@,
                handled(self@, vmid, digest@) == handled(
                    memo_of(all.take(i as int)),
                    vmid,
                    digest@,
                ),
            decreases i,
        {
            i = i - 1;
            assert(all.take(i + 1).drop_last() =~= all.take(i as int));
            assert(all.take(i + 1).last() == all[i as int]);
            if self.entries[i].0 == vmid {
                return text::same(self.entries[i].1.as_str(), digest);
            }
        }
        assert(memo_of(all.take(0)) =~= Map::empty());
        false
    }

    /// Remembers the document of a guest as handled.
    pub fn remember(&mut self, vmid: u32, digest: String)
        ensures
            final(self)@ == old(self)@.insert(vmid, digest@),
    {
        let ghost before = self.entries@;
        self.entries.push((vmid, digest));
        assert(self.entries@.drop_last() =~= before);
    }
}

impl Clone for Memo {
    fn clone(&self) -> (r: Memo)
        ensures
            r@ == self@,
    {
        let mut entries: Vec<(u32, String)> = Vec::new();
        let ghost all = self.entries@;
        assert(memo_of(all.take(0)) =~= memo_of(entries@));
        for i in 0..self.entries.len()
            invariant
                all == self.entries@,
                memo_of(entries@) == memo_of(all.take(i as int)),
        {
            let e = &self.entries[i];
            let ghost before = entries@;
            entries.push((e.0, e.1.clone()));
            assert(entries@.drop_last() =~= before);
            assert(all.take(i + 1).drop_last() =~= all.take(i as int));
            assert(all.take(i + 1).last() == all[i as int]);
        }
        assert(all.take(all.len() as int) =~= all);
        Memo { entries }
    }
}

// ---------------------------------------------------------------------------
// A pass over the guests of the node.

/// How the loop applies the docker half: only to a stack that is up.
pub open spec fn loop_options(p: Policy) -> Options {
    Options { pull: p.pull == Mode::Auto, no_up: p.up == Mode::Manual, only_if_up: true }
}

/// A digest, shortened for a line.
pub open spec fn brief_of(digest: Text) -> Text {
    if digest.len() > 12 {
        digest.take(12)
    } else {
        digest
    }
}

/// What is said of the docker half.
pub open spec fn docker_line(vmid: u32, started: bool, p: Policy, digest: Text) -> Text {
    pct::vm(vmid) + ": docker "@ + (if started {
        "applied"@
    } else if p.up == Mode::Manual {
        "rendered (up is manual, not started)"@
    } else {
        "rendered (stack is down, not started)"@
    }) + " "@ + brief_of(digest)
}

/// The pct half, where the policy lets the loop do it.
pub open spec fn pct_half_s(w: WorldV, c: CtxV, g: GuestV, p: Policy) -> (
    WorldV,
    Result<GuestV, StopV>,
) {
    if p.pct == Mode::Auto {
        match apply::pct_apply_guest_s(w, c, g) {
            (w, Err(e)) => (w, Err(e)),
            (w, Ok(n)) => if n > 0 {
                ops::refresh_config_s(
                    w.note(
                        pct::vm(g.config.vmid) + ": pct applied "@ + num::dec(n as nat)
                            + " change(s)"@,
                    ),
                    c,
                    g,
                )
            } else {
                (w, Ok(g))
            },
        }
    } else {
        (w, Ok(g))
    }
}

/// The docker half, where the policy lets the loop do it and the facts do not
/// say that it was done. Facts are read only now: whoever held the lock
/// before (a `new`, a hand-run apply) may have applied this very digest.
pub open spec fn docker_half_s(w: WorldV, c: CtxV, g: GuestV, p: Policy) -> (
    WorldV,
    Result<(), StopV>,
) {
    match stack::read_facts_s(w, g.config.vmid) {
        (w, Err(e)) => (w, Err(e)),
        (w, Ok(f)) => {
            let applied = f is Some && f->0.digest == g.read.digest;
            if p.docker == Mode::Auto && !applied {
                match apply::docker_apply_guest_s(w, c, g, loop_options(p)) {
                    (w, Err(e)) => (w, Err(e)),
                    (w, Ok(started)) => (
                        w.note(docker_line(g.config.vmid, started, p, g.read.digest)),
                        Ok(()),
                    ),
                }
            } else {
                (w, Ok(()))
            }
        },
    }
}

/// Both halves, under the guest's lock.
pub open spec fn halves_s(w: WorldV, c: CtxV, read: ReadV) -> (WorldV, Result<(), StopV>) {
    match ops::load_with_s(w, c, read) {
        (w, Err(e)) => (w, Err(e)),
        (w, Ok(g)) => match pct_half_s(w, c, g, read.doc.policy) {
            (w, Err(e)) => (w, Err(e)),
            (w, Ok(g)) => docker_half_s(w, c, g, read.doc.policy),
        },
    }
}

pub open spec fn reconcile_s(w: WorldV, c: CtxV, read: ReadV) -> (WorldV, Result<(), StopV>) {
    match lock::take_s(w, read.vmid, apply::LOCK_WAIT) {
        (w, Err(e)) => (w, Err(e)),
        (w, Ok(_)) => lock::released(halves_s(w, c, read), read.vmid),
    }
}

/// The view of a memo that a verb gave back.
pub open spec fn res_memo(r: Result<Memo, Stop>) -> Result<Map<u32, Text>, StopV> {
    match r {
        Ok(m) => Ok(m@),
        Err(e) => Err(e@),
    }
}

/// A guest whose document is to be handled. It is remembered either way: a
/// failure is retried on the next full pass or the next document change, not
/// every poll.
pub open spec fn handle_s(w: WorldV, c: CtxV, read: ReadV, memo: Map<u32, Text>) -> (
    WorldV,
    Result<Map<u32, Text>, StopV>,
) {
    let (v, r) = reconcile_s(w, c, read);
    let v = match r {
        Err(StopV::Fail(e)) => v.note(pct::vm(read.vmid) + ": "@ + error::head(e)),
        _ => v,
    };
    match r {
        Err(StopV::Act(a)) => (v, Err(StopV::Act(a))),
        _ => match notify::watchdog_s(v) {
            (v, Err(e)) => (v, Err(e)),
            (v, Ok(_)) => (v, Ok(memo.insert(read.vmid, read.digest))),
        },
    }
}

/// Whether the loop looks at a guest of its node at all.
pub open spec fn watched(c: CtxV, l: ListedV) -> bool {
    !l.is_template && l.running && ops::is_selected(c, l.tags)
}

/// One guest of the node.
pub open spec fn visit_s(w: WorldV, c: CtxV, l: ListedV, memo: Map<u32, Text>) -> (
    WorldV,
    Result<Map<u32, Text>, StopV>,
) {
    if !watched(c, l) {
        (w, Ok(memo))
    } else {
        match doc::read_s(w, l.vmid) {
            (w, Err(StopV::Act(a))) => (w, Err(StopV::Act(a))),
            (w, Err(StopV::Fail(e))) => (
                w.note(pct::vm(l.vmid) + ": "@ + error::head(e)),
                Ok(memo),
            ),
            (w, Ok(None)) => (w, Ok(memo)),
            (w, Ok(Some(read))) => if handled(memo, l.vmid, read.digest) {
                (w, Ok(memo))
            } else {
                handle_s(w, c, read, memo)
            },
        }
    }
}

/// The guests of the node, in order.
pub open spec fn visits_s(w: WorldV, c: CtxV, l: Seq<ListedV>, memo: Map<u32, Text>) -> (
    WorldV,
    Result<Map<u32, Text>, StopV>,
)
    decreases l.len(),
{
    if l.len() == 0 {
        (w, Ok(memo))
    } else {
        match visit_s(w, c, l[0], memo) {
            (w, Err(e)) => (w, Err(e)),
            (w, Ok(m)) => visits_s(w, c, l.skip(1), m),
        }
    }
}

pub open spec fn pass_s(w: WorldV, c: CtxV, memo: Map<u32, Text>) -> (
    WorldV,
    Result<Map<u32, Text>, StopV>,
) {
    match pct::list_s(w, c.node) {
        (w, Err(e)) => (w, Err(e)),
        (w, Ok(l)) => visits_s(w, c, l, memo),
    }
}

fn brief(digest: &str) -> (r: String)
    ensures
        r@ == brief_of(digest@),
{
    let cs = text::chars(digest);
    if cs.len() > 12 {
        let head = text::part(&cs, 0, 12);
        assert(head@ =~= digest@.take(12));
        head
    } else {
        digest.to_owned()
    }
}

fn pct_half(w: &mut World, ctx: &Ctx, g: Guest, p: &Policy) -> (r: Result<Guest, Stop>)
    ensures
        (final(w)@, world::res(r)) == pct_half_s(old(w)@, ctx@, g@, *p),
{
    if p.pct == Mode::Auto {
        match apply::pct_apply_guest(w, ctx, &g) {
            Ok(n) => if n > 0 {
                w.note(
                    text::cat4(
                        num::print(g.vmid() as u64).as_str(),
                        ": pct applied ",
                        num::print(n as u64).as_str(),
                        " change(s)",
                    ),
                );
                ops::refresh_config(w, ctx, g)
            } else {
                Ok(g)
            },
            Err(e) => Err(e),
        }
    } else {
        Ok(g)
    }
}

fn docker_half(w: &mut World, ctx: &Ctx, g: &Guest, p: &Policy) -> (r: Result<(), Stop>)
    ensures
        (final(w)@, world::res(r)) == docker_half_s(old(w)@, ctx@, g@, *p),
{
    let vmid = g.vmid();
    let applied = match stack::read_facts(w, vmid) {
        Ok(Some(f)) => text::same(f.digest.as_str(), g.read.digest.as_str()),
        Ok(None) => false,
        Err(e) => return Err(e),
    };
    if p.docker == Mode::Auto && !applied {
        let o = Options {
            pull: p.pull == Mode::Auto,
            no_up: p.up == Mode::Manual,
            only_if_up: true,
        };
        match apply::docker_apply_guest(w, ctx, g, o) {
            Ok(started) => {
                let what = if started {
                    "applied"
                } else if p.up == Mode::Manual {
                    "rendered (up is manual, not started)"
                } else {
                    "rendered (stack is down, not started)"
                };
                w.note(
                    text::cat5(
                        num::print(vmid as u64).as_str(),
                        ": docker ",
                        what,
                        " ",
                        brief(g.read.digest.as_str()).as_str(),
                    ),
                );
                Ok(())
            },
            Err(e) => Err(e),
        }
    } else {
        Ok(())
    }
}

fn reconcile(w: &mut World, ctx: &Ctx, read: Read) -> (r: Result<(), Stop>)
    ensures
        (final(w)@, world::res(r)) == reconcile_s(old(w)@, ctx@, read@),
{
    let vmid = read.vmid;
    let policy = read.doc.policy;
    let lock = match GuestLock::take(w, vmid, apply::LOCK_WAIT) {
        Ok(l) => l,
        Err(e) => return Err(e),
    };
    let r = match ops::load_with(w, ctx, read) {
        Ok(g) => match pct_half(w, ctx, g, &policy) {
            Ok(g) => docker_half(w, ctx, &g, &policy),
            Err(e) => Err(e),
        },
        Err(e) => Err(e),
    };
    lock.finish(w, r)
}

fn say_error(w: &mut World, vmid: u32, e: &error::Error)
    ensures
        final(w)@ == old(w)@.note(pct::vm(vmid) + ": "@ + error::head(e@)),
{
    w.note(text::cat3(num::print(vmid as u64).as_str(), ": ", e.head().as_str()));
}

fn visit(w: &mut World, ctx: &Ctx, l: &Listed, memo: Memo) -> (r: Result<Memo, Stop>)
    ensures
        (final(w)@, res_memo(r)) == visit_s(old(w)@, ctx@, l@, memo@),
{
    let mut memo = memo;
    if l.is_template || !l.running || !ctx.selected(&l.tags) {
        return Ok(memo);
    }
    let read = match doc::read(w, l.vmid) {
        Ok(Some(r)) => r,
        Ok(None) => return Ok(memo),
        Err(Stop::Act(a)) => return Err(Stop::Act(a)),
        Err(Stop::Fail(e)) => {
            say_error(w, l.vmid, &e);
            return Ok(memo);
        },
    };
    if memo.has(l.vmid, read.digest.as_str()) {
        return Ok(memo);
    }
    let vmid = read.vmid;
    let digest = read.digest.clone();
    match reconcile(w, ctx, read) {
        Err(Stop::Act(a)) => return Err(Stop::Act(a)),
        Err(Stop::Fail(e)) => {
            say_error(w, vmid, &e);
        },
        Ok(_) => {},
    }
    memo.remember(vmid, digest);
    // One guest done is the progress the unit's WatchdogSec measures.
    match notify::watchdog(w) {
        Ok(_) => Ok(memo),
        Err(e) => Err(e),
    }
}

/// A pass over the guests of the node. Gives back which documents have been
/// handled.
pub fn pass(w: &mut World, ctx: &Ctx, memo: &Memo) -> (r: Result<Memo, Stop>)
    ensures
        (final(w)@, res_memo(r)) == pass_s(old(w)@, ctx@, memo@),
{
    let list = match pct::list(w, ctx.node.as_str()) {
        Ok(l) => l,
        Err(e) => return Err(e),
    };
    let ghost all = text::views(list@);
    let mut m = memo.clone();
    assert(all.skip(0) =~= all);
    for i in 0..list.len()
        invariant
            all == text::views(list@),
            visits_s(w@, ctx@, all.skip(i as int), m@) == pass_s(old(w)@, ctx@, memo@),
    {
        assert(all.skip(i as int)[0] == list@[i as int]@);
        assert(all.skip(i as int).skip(1) =~= all.skip(i + 1));
        match visit(w, ctx, &list[i], m) {
            Ok(x) => {
                m = x;
            },
            Err(e) => return Err(e),
        }
    }
    Ok(m)
}

// ---------------------------------------------------------------------------
// The loop.

/// What the loop carries from one turn to the next.
#[derive(Debug)]
pub struct Loop {
    pub ctx: Ctx,
    /// The version token of the last pass.
    pub token: String,
    /// When every guest was last planned again, in milliseconds.
    pub last_full: Option<u64>,
    pub memo: Memo,
    /// Seconds between two polls.
    pub interval: u64,
    /// Seconds between two full passes.
    pub full_every: u64,
}

/// What a [`Loop`] is, as mathematics.
pub struct LoopV {
    pub ctx: CtxV,
    pub token: Text,
    pub last_full: Option<u64>,
    pub memo: Map<u32, Text>,
    pub interval: u64,
    pub full_every: u64,
}

impl View for Loop {
    type V = LoopV;

    open spec fn view(&self) -> LoopV {
        LoopV {
            ctx: self.ctx@,
            token: self.token@,
            last_full: self.last_full,
            memo: self.memo@,
            interval: self.interval,
            full_every: self.full_every,
        }
    }
}

/// The larger of two numbers.
pub open spec fn at_least(n: u64, least: u64) -> u64 {
    if n < least {
        least
    } else {
        n
    }
}

/// The loop before its first turn.
pub open spec fn fresh(c: CtxV) -> LoopV {
    LoopV {
        ctx: c,
        token: Seq::empty(),
        last_full: None,
        memo: Map::empty(),
        interval: at_least(c.config.daemon.interval, 5),
        full_every: at_least(c.config.daemon.full_every, 60),
    }
}

/// Whether it is time to plan every guest again.
pub open spec fn due(s: LoopV, now: u64) -> bool {
    match s.last_full {
        None => true,
        Some(t) => t <= now && (now - t) / 1000 >= s.full_every,
    }
}

/// What the loop says and tells systemd when it starts.
pub open spec fn begin_s(w: WorldV, s: LoopV) -> (WorldV, Result<(), StopV>) {
    notify::ready_s(
        w.note(
            "pve-compose daemon on "@ + s.ctx.node + ": polling every "@ + num::dec(
                s.interval as nat,
            ) + "s, full pass every "@ + num::dec(s.full_every as nat) + "s"@,
        ),
    )
}

/// The wait between two polls.
pub open spec fn sleep_s(w: WorldV, s: LoopV) -> (WorldV, Result<LoopV, StopV>) {
    let millis = if s.interval <= 0x40_0000_0000_0000 {
        (s.interval * 1000) as u64
    } else {
        u64::MAX
    };
    match w.act(ActV::Sleep { millis }) {
        (w, Err(StopV::Act(a))) => (w, Err(StopV::Act(a))),
        (w, _) => (w, Ok(s)),
    }
}

/// The choices, read again; a change drops the memo.
pub open spec fn reread_s(w: WorldV, s: LoopV) -> (WorldV, Result<LoopV, StopV>) {
    match config::load_from_s(w, config::PATH@) {
        (w, Err(StopV::Act(a))) => (w, Err(StopV::Act(a))),
        (w, Err(StopV::Fail(e))) => (
            w.note("configuration not re-read: "@ + error::head(e)),
            Ok(s),
        ),
        (w, Ok(c)) => if c != s.ctx.config {
            (
                w.note("configuration changed; planning every guest again"@),
                Ok(LoopV { ctx: CtxV { config: c, ..s.ctx }, memo: Map::empty(), ..s }),
            )
        } else {
            (w, Ok(s))
        },
    }
}

/// A pass, where the token moved or it is time for a full one.
pub open spec fn passed_s(w: WorldV, s: LoopV, token: Text, full: bool) -> (
    WorldV,
    Result<LoopV, StopV>,
) {
    if token == s.token && !full {
        (w, Ok(s))
    } else {
        let s = if full {
            LoopV { memo: Map::empty(), last_full: Some(w.now), ..s }
        } else {
            s
        };
        match pass_s(w, s.ctx, s.memo) {
            (w, Err(StopV::Act(a))) => (w, Err(StopV::Act(a))),
            (w, Err(StopV::Fail(e))) => (
                w.note("pass failed: "@ + error::head(e)),
                Ok(LoopV { token, ..s }),
            ),
            (w, Ok(memo)) => (w, Ok(LoopV { memo, token, ..s })),
        }
    }
}

/// One turn of the loop, the wait at its end included.
pub open spec fn run_s(w: WorldV, s: LoopV) -> (WorldV, Result<LoopV, StopV>) {
    match notify::watchdog_s(w) {
        (w, Err(e)) => (w, Err(e)),
        (w, Ok(_)) => match cmd::pvesh_get_s(w, "/meta/version"@, Seq::empty()) {
            (w, Err(StopV::Act(a))) => (w, Err(StopV::Act(a))),
            (w, Err(StopV::Fail(e))) => sleep_s(
                w.note("version poll failed: "@ + error::head(e)),
                s,
            ),
            (w, Ok(v)) => {
                let token = json::get_str(v, "token"@).unwrap_or(Seq::empty());
                let full = due(s, w.now);
                match reread_s(w, s) {
                    (w, Err(e)) => (w, Err(e)),
                    (w, Ok(s)) => match passed_s(w, s, token, full) {
                        (w, Err(e)) => (w, Err(e)),
                        (w, Ok(s)) => sleep_s(w, s),
                    },
                }
            },
        },
    }
}

impl Clone for Loop {
    fn clone(&self) -> (r: Loop)
        ensures
            r@ == self@,
    {
        Loop {
            ctx: self.ctx.clone(),
            token: self.token.clone(),
            last_full: self.last_full,
            memo: self.memo.clone(),
            interval: self.interval,
            full_every: self.full_every,
        }
    }
}

impl Loop {
    /// The loop before its first turn.
    pub fn new(ctx: Ctx) -> (r: Loop)
        ensures
            r@ == fresh(ctx@),
    {
        let interval = ctx.config.daemon.interval;
        let full_every = ctx.config.daemon.full_every;
        let token = String::new();
        assert(token@ =~= Seq::<char>::empty());
        Loop {
            ctx,
            token,
            last_full: None,
            memo: Memo::new(),
            interval: if interval < 5 {
                5
            } else {
                interval
            },
            full_every: if full_every < 60 {
                60
            } else {
                full_every
            },
        }
    }

    fn is_due(&self, now: u64) -> (r: bool)
        ensures
            r == due(self@, now),
    {
        match self.last_full {
            None => true,
            Some(t) => t <= now && (now - t) / 1000 >= self.full_every,
        }
    }
}

/// What the loop says and tells systemd when it starts.
pub fn begin(w: &mut World, s: &Loop) -> (r: Result<(), Stop>)
    ensures
        (final(w)@, world::res(r)) == begin_s(old(w)@, s@),
{
    w.note(
        text::cat7(
            "pve-compose daemon on ",
            s.ctx.node.as_str(),
            ": polling every ",
            num::print(s.interval).as_str(),
            "s, full pass every ",
            num::print(s.full_every).as_str(),
            "s",
        ),
    );
    notify::ready(w)
}

fn sleep(w: &mut World, s: Loop) -> (r: Result<Loop, Stop>)
    ensures
        (final(w)@, world::res(r)) == sleep_s(old(w)@, s@),
{
    let millis: u64 = if s.interval <= 0x40_0000_0000_0000 {
        s.interval * 1000
    } else {
        u64::MAX
    };
    match w.act(Act::Sleep { millis }) {
        Err(Stop::Act(a)) => Err(Stop::Act(a)),
        _ => Ok(s),
    }
}

fn reread(w: &mut World, s: Loop) -> (r: Result<Loop, Stop>)
    ensures
        (final(w)@, world::res(r)) == reread_s(old(w)@, s@),
{
    let mut s = s;
    match Config::load(w) {
        Err(Stop::Act(a)) => Err(Stop::Act(a)),
        Err(Stop::Fail(e)) => {
            w.note(text::cat("configuration not re-read: ", e.head().as_str()));
            Ok(s)
        },
        Ok(c) => {
            if !c.same(&s.ctx.config) {
                w.note("configuration changed; planning every guest again".to_owned());
                s.ctx.config = c;
                s.memo = Memo::new();
            }
            Ok(s)
        },
    }
}

fn passed(w: &mut World, s: Loop, token: String, full: bool) -> (r: Result<Loop, Stop>)
    ensures
        (final(w)@, world::res(r)) == passed_s(old(w)@, s@, token@, full),
{
    let mut s = s;
    if text::same(token.as_str(), s.token.as_str()) && !full {
        return Ok(s);
    }
    if full {
        s.memo = Memo::new();
        s.last_full = Some(w.now);
    }
    match pass(w, &s.ctx, &s.memo) {
        Err(Stop::Act(a)) => return Err(Stop::Act(a)),
        Err(Stop::Fail(e)) => {
            w.note(text::cat("pass failed: ", e.head().as_str()));
        },
        Ok(m) => {
            s.memo = m;
        },
    }
    s.token = token;
    Ok(s)
}

/// One turn of the loop, the wait at its end included: the loop for the next
/// turn.
pub fn run(w: &mut World, s: &Loop) -> (r: Result<Loop, Stop>)
    ensures
        (final(w)@, world::res(r)) == run_s(old(w)@, s@),
{
    match notify::watchdog(w) {
        Ok(_) => {},
        Err(e) => return Err(e),
    }
    let s = s.clone();
    let v = match cmd::pvesh_get(w, "/meta/version", &pct::no_args()) {
        Ok(v) => v,
        Err(Stop::Act(a)) => return Err(Stop::Act(a)),
        Err(Stop::Fail(e)) => {
            w.note(text::cat("version poll failed: ", e.head().as_str()));
            return sleep(w, s);
        },
    };
    let token = v.text_or_empty("token");
    let full = s.is_due(w.now);
    let s = match reread(w, s) {
        Ok(s) => s,
        Err(e) => return Err(e),
    };
    let s = match passed(w, s, token, full) {
        Ok(s) => s,
        Err(e) => return Err(e),
    };
    sleep(w, s)
}

// ---------------------------------------------------------------------------
// What holds of it.

/// A guest that is a template, does not run or is not selected is not even
/// looked at.
pub proof fn law_unwatched_is_untouched(w: WorldV, c: CtxV, l: ListedV, memo: Map<u32, Text>)
    requires
        l.is_template || !l.running || !ops::is_selected(c, l.tags),
    ensures
        visit_s(w, c, l, memo) == (w, Ok::<Map<u32, Text>, StopV>(memo)),
{
}

/// A guest whose document was handled is left alone after the document was
/// read, and nothing is said.
pub proof fn law_handled_is_left_alone(w: WorldV, c: CtxV, l: ListedV, memo: Map<u32, Text>)
    requires
        doc::read_s(w, l.vmid).1 matches Ok(Some(read)) && handled(memo, l.vmid, read.digest),
        watched(c, l),
    ensures
        visit_s(w, c, l, memo) == (
            doc::read_s(w, l.vmid).0,
            Ok::<Map<u32, Text>, StopV>(memo),
        ),
{
}

/// A guest that was visited is remembered, whether its apply failed or not,
/// and the memo of every other guest stays.
pub proof fn law_visited_is_remembered(w: WorldV, c: CtxV, l: ListedV, memo: Map<u32, Text>)
    requires
        watched(c, l),
        doc::read_s(w, l.vmid).1 matches Ok(Some(_)),
        visit_s(w, c, l, memo).1 is Ok,
    ensures
        handled(
            visit_s(w, c, l, memo).1->Ok_0,
            l.vmid,
            doc::read_s(w, l.vmid).1->Ok_0->0.digest,
        ),
        forall|v: u32|
            v != l.vmid ==> (#[trigger] memo.contains_key(v) ==> visit_s(
                w,
                c,
                l,
                memo,
            ).1->Ok_0.contains_key(v) && visit_s(w, c, l, memo).1->Ok_0[v] == memo[v]),
{
    let read = doc::read_s(w, l.vmid).1->Ok_0->0;
    assert(read.vmid == l.vmid);
}

/// The documents that a pass over the guests comes upon: for each guest that
/// the loop looks at and that has one, its vmid and the digest.
pub open spec fn documents(w: WorldV, c: CtxV, l: Seq<ListedV>, memo: Map<u32, Text>) -> Seq<
    (u32, Text),
>
    decreases l.len(),
{
    if l.len() == 0 {
        Seq::empty()
    } else {
        let (v, r) = visit_s(w, c, l[0], memo);
        let rest = documents(v, c, l.skip(1), r->Ok_0);
        match doc::read_s(w, l[0].vmid).1 {
            Ok(Some(read)) => if watched(c, l[0]) {
                seq![(l[0].vmid, read.digest)] + rest
            } else {
                rest
            },
            _ => rest,
        }
    }
}

/// Whether a memo is another one with documents remembered: the last of each
/// guest, and nothing else changed.
pub open spec fn remembers(m: Map<u32, Text>, memo: Map<u32, Text>, d: Seq<(u32, Text)>) -> bool {
    &&& forall|i: int|
        0 <= i < d.len() && (forall|j: int| i < j < d.len() ==> (#[trigger] d[j]).0 != d[i].0)
            ==> handled(m, (#[trigger] d[i]).0, d[i].1)
    &&& forall|v: u32|
        (forall|i: int| 0 <= i < d.len() ==> (#[trigger] d[i]).0 != v) ==> {
            &&& #[trigger] m.contains_key(v) == memo.contains_key(v)
            &&& m.contains_key(v) ==> m[v] == memo[v]
        }
}

proof fn lemma_visits_remember(w: WorldV, c: CtxV, l: Seq<ListedV>, memo: Map<u32, Text>)
    ensures
        visits_s(w, c, l, memo).1 matches Ok(m) ==> remembers(m, memo, documents(w, c, l, memo)),
        !(visits_s(w, c, l, memo).1 matches Err(StopV::Fail(_))),
    decreases l.len(),
{
    if l.len() > 0 {
        let (v, r) = visit_s(w, c, l[0], memo);
        lemma_visit_never_fails(w, c, l[0], memo);
        if let Ok(mid) = r {
            lemma_visits_remember(v, c, l.skip(1), mid);
            if let Ok(m) = visits_s(w, c, l, memo).1 {
                let d = documents(w, c, l, memo);
                let rest = documents(v, c, l.skip(1), mid);
                if let (true, Ok(Some(read))) = (watched(c, l[0]), doc::read_s(w, l[0].vmid).1) {
                    law_visited_is_remembered(w, c, l[0], memo);
                    assert(read.vmid == l[0].vmid);
                    assert(d[0] == (l[0].vmid, read.digest));
                    assert(d.len() == rest.len() + 1);
                    assert forall|i: int| 0 <= i < rest.len() implies d[i + 1] == #[trigger] rest[i]
                        by {}
                    assert forall|i: int|
                        0 <= i < d.len() && (forall|j: int|
                            i < j < d.len() ==> (#[trigger] d[j]).0 != d[i].0) implies handled(
                        m,
                        (#[trigger] d[i]).0,
                        d[i].1,
                    ) by {
                        if i > 0 {
                            assert(rest[i - 1] == d[i]);
                            assert forall|j: int| i - 1 < j < rest.len() implies (
                            #[trigger] rest[j]).0 != rest[i - 1].0 by {
                                assert(d[j + 1] == rest[j]);
                            }
                        } else {
                            assert forall|j: int| 0 <= j < rest.len() implies (
                            #[trigger] rest[j]).0 != l[0].vmid by {
                                assert(d[j + 1] == rest[j]);
                            }
                            assert(m.contains_key(l[0].vmid) == mid.contains_key(l[0].vmid));
                        }
                    }
                    assert forall|x: u32|
                        (forall|i: int| 0 <= i < d.len() ==> (#[trigger] d[i]).0 != x) implies {
                        &&& #[trigger] m.contains_key(x) == memo.contains_key(x)
                        &&& m.contains_key(x) ==> m[x] == memo[x]
                    } by {
                        assert(d[0].0 != x);
                        assert forall|j: int| 0 <= j < rest.len() implies (#[trigger] rest[j]).0
                            != x by {
                            assert(d[j + 1] == rest[j]);
                        }
                        assert(m.contains_key(x) == mid.contains_key(x));
                        assert(mid == memo || mid == memo.insert(l[0].vmid, read.digest));
                    }
                } else {
                    assert(mid == memo);
                    assert(d == rest);
                }
            }
        }
    }
}

proof fn lemma_visit_never_fails(w: WorldV, c: CtxV, l: ListedV, memo: Map<u32, Text>)
    ensures
        !(visit_s(w, c, l, memo).1 matches Err(StopV::Fail(_))),
{
}

/// A pass remembers the document of every guest that runs, is selected and
/// has one, whatever came of it, and forgets and changes nothing else.
pub proof fn law_pass_remembers(w: WorldV, c: CtxV, memo: Map<u32, Text>)
    requires
        pass_s(w, c, memo).1 is Ok,
    ensures
        pct::list_s(w, c.node).1 is Ok,
        remembers(
            pass_s(w, c, memo).1->Ok_0,
            memo,
            documents(
                pct::list_s(w, c.node).0,
                c,
                pct::list_s(w, c.node).1->Ok_0,
                memo,
            ),
        ),
{
    let (v, r) = pct::list_s(w, c.node);
    if let Ok(l) = r {
        lemma_visits_remember(v, c, l, memo);
    }
}

/// A pass fails only where the guests of the node cannot be listed: what
/// fails in one guest is said, and the pass goes on.
pub proof fn law_one_guest_fails_no_pass(w: WorldV, c: CtxV, memo: Map<u32, Text>)
    requires
        pass_s(w, c, memo).1 matches Err(StopV::Fail(_)),
    ensures
        pct::list_s(w, c.node).1 matches Err(e) && pass_s(w, c, memo).1 == Err::<
            Map<u32, Text>,
            StopV,
        >(e),
{
    let (v, r) = pct::list_s(w, c.node);
    if let Ok(l) = r {
        lemma_visits_remember(v, c, l, memo);
    }
}

/// The loop brings up or pulls only where the policy says `up: auto`, pulls
/// only where it says `pull: auto`, and does either only on a stack that the
/// guest showed to be up.
pub proof fn law_loop_starts_no_stack(w: WorldV, c: CtxV, g: GuestV, p: Policy, a: ActV, v: u32)
    requires
        docker_half_s(w, c, g, p).1 == Err::<(), StopV>(StopV::Act(a)),
        apply::is_up_act(a, v) || apply::is_pull_act(a, v),
    ensures
        p.docker == Mode::Auto,
        p.up == Mode::Auto,
        apply::is_pull_act(a, v) ==> p.pull == Mode::Auto,
        apply::shown_running(w.replies),
{
    let (u, f) = stack::read_facts_s(w, g.config.vmid);
    assert(u.replies == w.replies);
    assert(f is Ok);
    apply::law_what_starts_a_stack(u, c, g, loop_options(p), a, v);
}

/// A poll that finds neither a new token nor a full pass due visits no guest:
/// the loop is as before.
pub proof fn law_quiet_poll_changes_nothing(w: WorldV, s: LoopV, token: Text)
    requires
        token == s.token,
    ensures
        passed_s(w, s, token, false) == (w, Ok::<LoopV, StopV>(s)),
{
}

/// Changed choices drop the memo, so that every guest is planned again.
pub proof fn law_changed_config_drops_the_memo(w: WorldV, s: LoopV)
    requires
        config::load_from_s(w, config::PATH@).1 matches Ok(c) && c != s.ctx.config,
    ensures
        reread_s(w, s).1 matches Ok(t) && t.memo == Map::<u32, Text>::empty() && t.ctx.config
            == config::load_from_s(w, config::PATH@).1->Ok_0 && t.token == s.token,
{
}

/// Whether a command is one that the loop may run: a read from PVE or of a
/// document under the short deadline, or, under either, one of the four that
/// change a container without stopping, restarting or destroying it.
pub open spec fn loop_call(c: CallV) -> bool {
    &&& c.args.len() > 0
    &&& {
        ||| c.program == "pvesh"@ && c.args[0] == "get"@ && c.within == Some(cmd::TIMEOUT)
        ||| c.program == "pve-meta"@ && c.args[0] == "get"@ && c.within == Some(cmd::TIMEOUT)
        ||| c.program == "pct"@ && (c.args[0] == "set"@ || c.args[0] == "resize"@ || c.args[0]
            == "exec"@ || c.args[0] == "push"@) && (c.within == Some(cmd::TIMEOUT) || c.within
            == Some(cmd::LONG_TIMEOUT))
    }
}

/// Whether a step left the replies as they were, and waits for no command
/// that the loop may not run.
spec fn in_bounds<T>(w: WorldV, x: (WorldV, Result<T, StopV>)) -> bool {
    &&& x.0.replies == w.replies
    &&& x.1 matches Err(StopV::Act(ActV::Run(c))) ==> loop_call(c)
}

proof fn lemma_pvesh_in_bounds(w: WorldV, path: Text, args: Seq<Text>)
    ensures
        in_bounds(w, cmd::pvesh_get_s(w, path, args)),
{
    assert(cmd::pvesh(path, args).args[0] == "get"@);
}

proof fn lemma_read_in_bounds(w: WorldV, vmid: u32)
    ensures
        in_bounds(w, doc::read_s(w, vmid)),
{
    assert(doc::get_call(vmid).args[0] == "get"@);
}

proof fn lemma_exec_in_bounds(w: WorldV, vmid: u32, script: Text)
    ensures
        in_bounds(w, pct::exec_status_s(w, vmid, script)),
        in_bounds(w, pct::exec_s(w, vmid, script)),
        in_bounds(w, pct::exec_stream_s(w, vmid, script, Some(cmd::LONG_TIMEOUT))),
{
    assert(pct::exec_call(vmid, script).args[0] == "exec"@);
}

proof fn lemma_write_in_bounds(w: WorldV, vmid: u32, path: Text, t: Text, perms: Text)
    ensures
        in_bounds(w, pct::write_file_s(w, vmid, path, t, perms)),
{
    let mkdir = "mkdir -p '"@ + pct::parent_of(path) + "'"@;
    lemma_exec_in_bounds(w, vmid, mkdir);
    match pct::exec_s(w, vmid, mkdir) {
        (w1, Ok(_)) => {
            match w1.act(ActV::Temp { name: "pve-compose-push-"@ + pct::vm(vmid), text: t }) {
                (w2, Ok(o)) => {
                    let c = pct::push_call(vmid, o.stdout, path, perms);
                    assert(c.args[0] == "push"@);
                    match cmd::run_s(w2, c) {
                        (w3, Ok(_)) => {
                            lemma_exec_in_bounds(
                                w3,
                                vmid,
                                "mv -f '"@ + pct::sibling_of(path) + "' '"@ + path + "'"@,
                            );
                        },
                        _ => {},
                    }
                },
                _ => {},
            }
        },
        _ => {},
    }
}

proof fn lemma_ops_in_bounds(w: WorldV, g: pct::GuestConfigV, l: Seq<OpV>, next: nat)
    ensures
        in_bounds(w, plan::ops_s(w, g, l, next)),
    decreases l.len(),
{
    if l.len() > 0 {
        let v = w.note("  "@ + plan::op_shown(l[0]));
        let args = plan::set_args(g, l[0], plan::unused_from(g.mounts, next));
        assert(pct::pct_call("set"@, g.vmid).args(args).args[0] == "set"@);
        match l[0] {
            OpV::Resize { key, to, .. } => {
                assert(pct::pct_call("resize"@, g.vmid).args[0] == "resize"@);
            },
            _ => {},
        }
        match plan::op_s(v, g, l[0], next) {
            (v, Ok(_)) => {
                lemma_ops_in_bounds(
                    v,
                    g,
                    l.skip(1),
                    if plan::creates(l[0]) {
                        plan::unused_from(g.mounts, next) + 1
                    } else {
                        next
                    },
                );
            },
            _ => {},
        }
    }
}

proof fn lemma_noted(w: WorldV, notes: Seq<Text>)
    ensures
        apply::noted(w, notes).replies == w.replies,
    decreases notes.len(),
{
    if notes.len() > 0 {
        lemma_noted(w, notes.drop_last());
    }
}

proof fn lemma_pct_half_in_bounds(w: WorldV, c: CtxV, g: GuestV, p: Policy)
    ensures
        in_bounds(w, pct_half_s(w, c, g, p)),
{
    match apply::planned(c, g) {
        Ok(plan) => {
            lemma_noted(w, plan.notes);
            let v = apply::noted(w, plan.notes);
            let v = v.note(
                "pct: applying "@ + num::dec(plan.ops.len()) + " change(s) to "@ + pct::vm(
                    g.config.vmid,
                ),
            );
            lemma_ops_in_bounds(
                v,
                g.config,
                plan.ops,
                pct::free_from(g.config.mounts, 0),
            );
        },
        _ => {},
    }
    match apply::pct_apply_guest_s(w, c, g) {
        (v, Ok(n)) => {
            lemma_pvesh_in_bounds(
                v.note(
                    pct::vm(g.config.vmid) + ": pct applied "@ + num::dec(n as nat)
                        + " change(s)"@,
                ),
                pct::lxc_path(c.node, g.config.vmid, "/config"@),
                Seq::empty(),
            );
        },
        _ => {},
    }
}

proof fn lemma_land_in_bounds(w: WorldV, c: CtxV, g: GuestV, o: Options)
    ensures
        in_bounds(w, apply::land_s(w, c, g, o)),
{
    let vmid = g.config.vmid;
    let services = apply::has_services(g.read.doc.spec);
    match apply::rendered(c, g) {
        Ok(t) => {
            lemma_exec_in_bounds(w, vmid, pct::cat_script(stack::COMPOSE_FILE@));
            match pct::read_file_s(w, vmid, stack::COMPOSE_FILE@) {
                (w1, Ok(current)) => {
                    lemma_exec_in_bounds(w1, vmid, stack::compose("ps -a --format json"@));
                    match apply::start_s(w1, vmid, o, services, current is Some) {
                        (w2, Ok(start)) => {
                            lemma_write_in_bounds(
                                w2.note("docker: writing "@ + stack::COMPOSE_FILE@),
                                vmid,
                                stack::COMPOSE_FILE@,
                                t,
                                "0644"@,
                            );
                            match apply::file_s(w2, vmid, current, t) {
                                (w3, Ok(_)) => {
                                    lemma_up_in_bounds(w3, vmid, o, services, start);
                                    match apply::up_s(w3, vmid, o, services, start) {
                                        (w4, Ok(_)) => {
                                            lemma_facts_in_bounds(w4, vmid, g.read.digest);
                                        },
                                        _ => {},
                                    }
                                },
                                _ => {},
                            }
                        },
                        _ => {},
                    }
                },
                _ => {},
            }
        },
        _ => {},
    }
}

proof fn lemma_up_in_bounds(w: WorldV, vmid: u32, o: Options, services: bool, start: bool)
    ensures
        in_bounds(w, apply::up_s(w, vmid, o, services, start)),
{
    if start {
        let v = w.note("docker: pull"@);
        lemma_exec_in_bounds(v, vmid, stack::pull_script());
        let u = if o.pull {
            stack::pull_s(v, vmid).0
        } else {
            w
        };
        lemma_exec_in_bounds(u.note("docker: up"@), vmid, stack::up_script());
    }
}

proof fn lemma_facts_in_bounds(w: WorldV, vmid: u32, digest: Text)
    ensures
        in_bounds(w, apply::facts_s(w, vmid, digest)),
{
    lemma_exec_in_bounds(w, vmid, pct::cat_script(stack::FACTS_FILE@));
    match stack::read_facts_s(w, vmid) {
        (v, Ok(f)) => {
            match yaml::yaml_text(stack::facts_tree(stack::new_facts(digest, f, v.stamp))) {
                Ok(t) => {
                    lemma_write_in_bounds(v, vmid, stack::FACTS_FILE@, t, "0644"@);
                },
                Err(_) => {},
            }
        },
        _ => {},
    }
}

proof fn lemma_docker_half_in_bounds(w: WorldV, c: CtxV, g: GuestV, p: Policy)
    ensures
        in_bounds(w, docker_half_s(w, c, g, p)),
{
    let vmid = g.config.vmid;
    lemma_exec_in_bounds(w, vmid, pct::cat_script(stack::FACTS_FILE@));
    match stack::read_facts_s(w, vmid) {
        (w1, Ok(_)) => {
            lemma_exec_in_bounds(w1, vmid, "docker info >/dev/null 2>&1"@);
            match stack::docker_ok_s(w1, vmid) {
                (w2, Ok(ok)) => {
                    lemma_exec_in_bounds(w2, vmid, provision::SCRIPT@);
                },
                _ => {},
            }
            match provision::ensure_docker_s(w1, vmid) {
                (w3, Ok(_)) => {
                    let owners = apply::owners_of(g.volumes, ops::owner_of(g, c));
                    lemma_layout_in_bounds(w3, vmid, owners);
                    match stack::ensure_layout_s(w3, vmid, owners) {
                        (w4, Ok(_)) => {
                            lemma_land_in_bounds(w4, c, g, loop_options(p));
                        },
                        _ => {},
                    }
                },
                _ => {},
            }
        },
        _ => {},
    }
}

proof fn lemma_layout_in_bounds(w: WorldV, vmid: u32, owners: Seq<(Text, Text)>)
    ensures
        in_bounds(w, stack::ensure_layout_s(w, vmid, owners)),
{
    lemma_exec_in_bounds(w, vmid, stack::layout_script(owners));
}

proof fn lemma_visit_in_bounds(w: WorldV, c: CtxV, l: ListedV, memo: Map<u32, Text>)
    ensures
        in_bounds(w, visit_s(w, c, l, memo)),
{
    lemma_read_in_bounds(w, l.vmid);
    match doc::read_s(w, l.vmid) {
        (w1, Ok(Some(read))) => {
            match lock::take_s(w1, read.vmid, apply::LOCK_WAIT) {
                (w2, Ok(_)) => {
                    lemma_pvesh_in_bounds(
                        w2,
                        pct::lxc_path(c.node, read.vmid, "/config"@),
                        Seq::empty(),
                    );
                    match ops::load_with_s(w2, c, read) {
                        (w3, Ok(g)) => {
                            lemma_pct_half_in_bounds(w3, c, g, read.doc.policy);
                            match pct_half_s(w3, c, g, read.doc.policy) {
                                (w4, Ok(g)) => {
                                    lemma_docker_half_in_bounds(w4, c, g, read.doc.policy);
                                },
                                _ => {},
                            }
                        },
                        _ => {},
                    }
                },
                _ => {},
            }
        },
        _ => {},
    }
}

proof fn lemma_visits_in_bounds(w: WorldV, c: CtxV, l: Seq<ListedV>, memo: Map<u32, Text>)
    ensures
        in_bounds(w, visits_s(w, c, l, memo)),
    decreases l.len(),
{
    if l.len() > 0 {
        lemma_visit_in_bounds(w, c, l[0], memo);
        match visit_s(w, c, l[0], memo) {
            (v, Ok(m)) => {
                lemma_visits_in_bounds(v, c, l.skip(1), m);
            },
            _ => {},
        }
    }
}

/// Every command of a pass, whatever was replied, is under a deadline and one
/// of a few: the loop reads, sets and resizes, runs and pushes inside a
/// guest. It never restarts, stops or destroys a guest and never writes a
/// document.
pub proof fn law_loop_commands_are_bounded(w: WorldV, c: CtxV, memo: Map<u32, Text>, call: CallV)
    requires
        pass_s(w, c, memo).1 == Err::<Map<u32, Text>, StopV>(StopV::Act(ActV::Run(call))),
    ensures
        loop_call(call),
{
    lemma_pvesh_in_bounds(w, "/nodes/"@ + c.node + "/lxc"@, Seq::empty());
    match pct::list_s(w, c.node) {
        (v, Ok(l)) => {
            lemma_visits_in_bounds(v, c, l, memo);
        },
        _ => {},
    }
}

proof fn lemma_pct_half_is_quiet(w: WorldV, c: CtxV, g: GuestV, p: Policy)
    ensures
        apply::waits_quietly(pct_half_s(w, c, g, p).1),
{
    apply::lemma_pct_is_quiet(w, c, g);
}

proof fn lemma_visit_starts_nothing(
    w: WorldV,
    c: CtxV,
    l: ListedV,
    memo: Map<u32, Text>,
    a: ActV,
    v: u32,
)
    requires
        visit_s(w, c, l, memo).1 == Err::<Map<u32, Text>, StopV>(StopV::Act(a)),
        apply::is_up_act(a, v) || apply::is_pull_act(a, v),
    ensures
        apply::shown_running(w.replies),
{
    let (w1, r1) = doc::read_s(w, l.vmid);
    assert(apply::waits_quietly(r1));
    let read = r1->Ok_0->0;
    let (w2, r2) = lock::take_s(w1, read.vmid, apply::LOCK_WAIT);
    assert(r2 is Ok);
    let p = read.doc.policy;
    let (w3, r3) = ops::load_with_s(w2, c, read);
    assert(apply::waits_quietly(r3));
    assert(w3.replies == w.replies);
    if r3 is Ok {
        let g = r3->Ok_0;
        lemma_pct_half_is_quiet(w3, c, g, p);
        lemma_pct_half_in_bounds(w3, c, g, p);
        let (w4, r4) = pct_half_s(w3, c, g, p);
        if r4 is Ok {
            assert(docker_half_s(w4, c, r4->Ok_0, p).1 == Err::<(), StopV>(StopV::Act(a)));
            law_loop_starts_no_stack(w4, c, r4->Ok_0, p, a, v);
        }
    }
}

proof fn lemma_visits_start_nothing(
    w: WorldV,
    c: CtxV,
    l: Seq<ListedV>,
    memo: Map<u32, Text>,
    a: ActV,
    v: u32,
)
    requires
        visits_s(w, c, l, memo).1 == Err::<Map<u32, Text>, StopV>(StopV::Act(a)),
        apply::is_up_act(a, v) || apply::is_pull_act(a, v),
    ensures
        apply::shown_running(w.replies),
    decreases l.len(),
{
    if l.len() > 0 {
        lemma_visit_in_bounds(w, c, l[0], memo);
        match visit_s(w, c, l[0], memo) {
            (u, Ok(m)) => {
                lemma_visits_start_nothing(u, c, l.skip(1), m, a, v);
            },
            _ => {
                lemma_visit_starts_nothing(w, c, l[0], memo, a, v);
            },
        }
    }
}

/// A pass never starts a stack: it brings up or pulls only after a guest
/// listed a container that runs.
pub proof fn law_pass_starts_no_stack(w: WorldV, c: CtxV, memo: Map<u32, Text>, a: ActV, v: u32)
    requires
        pass_s(w, c, memo).1 == Err::<Map<u32, Text>, StopV>(StopV::Act(a)),
        apply::is_up_act(a, v) || apply::is_pull_act(a, v),
    ensures
        apply::shown_running(w.replies),
{
    let (u, r) = pct::list_s(w, c.node);
    assert(apply::waits_quietly(r));
    lemma_visits_start_nothing(u, c, r->Ok_0, memo, a, v);
}

} // verus!
