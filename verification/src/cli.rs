//! The command line: `pve-compose [pct|docker] <verb> <vmid>`. `pct` verbs
//! act on the wrapper through PVE, `docker` verbs act inside it, and a bare
//! verb does both, pct first. Unknown `docker` verbs pass through to `docker
//! compose` in the stack directory.
//!
//! A vmid on another node is forwarded: the same command line is run there
//! over the cluster's own root SSH, so every verb works from any node while
//! the per-guest lock is always taken on the owning node.

use vstd::prelude::*;

use crate::cmd;
use crate::lock::{self, GuestLock};
use crate::num;
use crate::ops::{self, Ctx, CtxV, apply, configcmd, diff, new, status, upgrade};
use crate::ops::apply::Options;
use crate::ops::new::{NewArgs, NewArgsV};
use crate::ops::status::{Level, Row, RowV};
use crate::pct;
use crate::stack;
use crate::text::{self, Text};
use crate::world::{self, Call, CallV, Stop, StopV, World, WorldV};

verus! {

/// A command line, read.
#[derive(Debug)]
pub enum Command {
    Apply { vmid: u32, no_up: bool },
    Diff { vmid: u32 },
    Status { only: Option<u32>, json: bool },
    Upgrade { vmid: u32 },
    New(NewArgs),
    Config,
    ConfigSet { key: String, value: String },
    ConfigUnset { key: String },
    PctApply { vmid: u32 },
    PctDiff { vmid: u32 },
    PctStatus { only: Option<u32>, json: bool },
    DockerApply { vmid: u32, no_up: bool },
    DockerDiff { vmid: u32 },
    DockerStatus { only: Option<u32>, json: bool },
    DockerUpgrade { vmid: u32 },
    /// `docker <verb> <vmid> [args...]`, passed to `docker compose`.
    Compose(Vec<String>),
    Daemon,
}

/// What a [`Command`] is, as mathematics.
pub enum CommandV {
    Apply { vmid: u32, no_up: bool },
    Diff { vmid: u32 },
    Status { only: Option<u32>, json: bool },
    Upgrade { vmid: u32 },
    New(NewArgsV),
    Config,
    ConfigSet { key: Text, value: Text },
    ConfigUnset { key: Text },
    PctApply { vmid: u32 },
    PctDiff { vmid: u32 },
    PctStatus { only: Option<u32>, json: bool },
    DockerApply { vmid: u32, no_up: bool },
    DockerDiff { vmid: u32 },
    DockerStatus { only: Option<u32>, json: bool },
    DockerUpgrade { vmid: u32 },
    Compose(Seq<Text>),
    Daemon,
}

impl View for Command {
    type V = CommandV;

    open spec fn view(&self) -> CommandV {
        match *self {
            Command::Apply { vmid, no_up } => CommandV::Apply { vmid, no_up },
            Command::Diff { vmid } => CommandV::Diff { vmid },
            Command::Status { only, json } => CommandV::Status { only, json },
            Command::Upgrade { vmid } => CommandV::Upgrade { vmid },
            Command::New(a) => CommandV::New(a@),
            Command::Config => CommandV::Config,
            Command::ConfigSet { key, value } => CommandV::ConfigSet {
                key: key@,
                value: value@,
            },
            Command::ConfigUnset { key } => CommandV::ConfigUnset { key: key@ },
            Command::PctApply { vmid } => CommandV::PctApply { vmid },
            Command::PctDiff { vmid } => CommandV::PctDiff { vmid },
            Command::PctStatus { only, json } => CommandV::PctStatus { only, json },
            Command::DockerApply { vmid, no_up } => CommandV::DockerApply { vmid, no_up },
            Command::DockerDiff { vmid } => CommandV::DockerDiff { vmid },
            Command::DockerStatus { only, json } => CommandV::DockerStatus { only, json },
            Command::DockerUpgrade { vmid } => CommandV::DockerUpgrade { vmid },
            Command::Compose(args) => CommandV::Compose(text::views(args@)),
            Command::Daemon => CommandV::Daemon,
        }
    }
}

/// How a hand-run `apply` behaves.
pub open spec fn apply_options(no_up: bool) -> Options {
    Options { pull: false, no_up, only_if_up: false }
}

/// How a hand-run `upgrade` behaves.
pub open spec fn upgrade_options() -> Options {
    Options { pull: true, no_up: false, only_if_up: false }
}

/// The vmid of a passed-through command line.
pub open spec fn compose_vmid(args: Seq<Text>) -> Option<u32> {
    if args.len() > 1 {
        match num::parsed(args[1], u32::MAX as nat) {
            Some(n) => Some(n as u32),
            None => None,
        }
    } else {
        None
    }
}

/// The vmid a command is about, if it is about one.
pub open spec fn target_of(c: CommandV) -> Option<u32> {
    match c {
        CommandV::Apply { vmid, .. } => Some(vmid),
        CommandV::Diff { vmid } => Some(vmid),
        CommandV::Status { only, .. } => only,
        CommandV::Upgrade { vmid } => Some(vmid),
        CommandV::New(_) => None,
        CommandV::Config => None,
        CommandV::ConfigSet { .. } => None,
        CommandV::ConfigUnset { .. } => None,
        CommandV::PctApply { vmid } => Some(vmid),
        CommandV::PctDiff { vmid } => Some(vmid),
        CommandV::PctStatus { only, .. } => only,
        CommandV::DockerApply { vmid, .. } => Some(vmid),
        CommandV::DockerDiff { vmid } => Some(vmid),
        CommandV::DockerStatus { only, .. } => only,
        CommandV::DockerUpgrade { vmid } => Some(vmid),
        CommandV::Compose(args) => compose_vmid(args),
        CommandV::Daemon => None,
    }
}

fn vmid_of(args: &Vec<String>) -> (r: Option<u32>)
    ensures
        r == compose_vmid(text::views(args@)),
{
    if args.len() > 1 {
        match num::parse(args[1].as_str(), u32::MAX as u64) {
            Some(n) => Some(n as u32),
            None => None,
        }
    } else {
        None
    }
}

/// The vmid a command is about, if it is about one.
pub fn target(c: &Command) -> (r: Option<u32>)
    ensures
        r == target_of(c@),
{
    match c {
        Command::Apply { vmid, .. } => Some(*vmid),
        Command::Diff { vmid } => Some(*vmid),
        Command::Status { only, .. } => *only,
        Command::Upgrade { vmid } => Some(*vmid),
        Command::New(_) => None,
        Command::Config => None,
        Command::ConfigSet { .. } => None,
        Command::ConfigUnset { .. } => None,
        Command::PctApply { vmid } => Some(*vmid),
        Command::PctDiff { vmid } => Some(*vmid),
        Command::PctStatus { only, .. } => *only,
        Command::DockerApply { vmid, .. } => Some(*vmid),
        Command::DockerDiff { vmid } => Some(*vmid),
        Command::DockerStatus { only, .. } => *only,
        Command::DockerUpgrade { vmid } => Some(*vmid),
        Command::Compose(args) => vmid_of(args),
        Command::Daemon => None,
    }
}

// ---------------------------------------------------------------------------
// Forwarding.

/// The Perl line that prints PVE's own inter-node command: the right address,
/// host-key alias and known-hosts file, exactly as a migration uses them.
pub const SSH_SCRIPT: &'static str =
    "print join(\"\\0\", @{PVE::SSHInfo::ssh_info_to_command(PVE::SSHInfo::get_ssh_info($ARGV[0]))})";

/// The words that are not empty.
pub open spec fn filled(l: Seq<Text>) -> Seq<Text>
    decreases l.len(),
{
    if l.len() == 0 {
        Seq::empty()
    } else if l.last().len() == 0 {
        filled(l.drop_last())
    } else {
        filled(l.drop_last()).push(l.last())
    }
}

/// The words of PVE's inter-node command.
pub open spec fn ssh_words(out: Text) -> Seq<Text> {
    filled(text::pieces(out, '\0'))
}

/// The command that runs a command line on another node.
pub open spec fn remote_call(ssh: Seq<Text>, argv: Seq<Text>) -> CallV {
    world::program(ssh[0]).args(ssh.skip(1)).arg("-t"@).arg(
        "pve-compose "@ + stack::quoted_all(argv),
    )
}

pub open spec fn forward_s(w: WorldV, node: Text, vmid: u32, argv: Seq<Text>) -> (
    WorldV,
    Result<bool, StopV>,
) {
    match cmd::run_s(
        w,
        world::program("perl"@).arg("-MPVE::SSHInfo"@).arg("-e"@).arg(SSH_SCRIPT@).arg(node),
    ) {
        (w, Err(e)) => (w, Err(e)),
        (w, Ok(o)) => {
            let ssh = ssh_words(o.stdout);
            if ssh.len() == 0 {
                (
                    w,
                    Err(world::failed("cannot build the ssh command for node "@ + node)),
                )
            } else {
                match cmd::streamed_s(
                    w.note("guest "@ + pct::vm(vmid) + " is on "@ + node + "; running there"@),
                    remote_call(ssh, argv).attached(),
                ) {
                    (w, Err(e)) => (w, Err(e)),
                    (w, Ok(_)) => (w, Ok(true)),
                }
            }
        },
    }
}

pub open spec fn forward_if_remote_s(w: WorldV, c: CtxV, vmid: u32, argv: Seq<Text>) -> (
    WorldV,
    Result<bool, StopV>,
) {
    match pct::owner_node_s(w, vmid) {
        (w, Err(e)) => (w, Err(e)),
        (w, Ok(None)) => (
            w,
            Err(world::failed("no guest "@ + pct::vm(vmid) + " in the cluster"@)),
        ),
        (w, Ok(Some((node, kind)))) => if kind != "lxc"@ {
            (w, Err(world::failed("guest "@ + pct::vm(vmid) + " is not a container"@)))
        } else if node == c.node {
            (w, Ok(false))
        } else {
            forward_s(w, node, vmid, argv)
        },
    }
}

fn words(out: &str) -> (r: Vec<String>)
    ensures
        text::views(r@) == ssh_words(out@),
{
    let p = text::split(out, '\0');
    let ghost all = text::pieces(out@, '\0');
    let mut r: Vec<String> = Vec::new();
    assert(text::views(r@) =~= Seq::empty());
    assert(all.take(0) =~= Seq::empty());
    for i in 0..p.len()
        invariant
            text::views(p@) == all,
            text::views(r@) == filled(all.take(i as int)),
    {
        assert(all.take(i + 1).drop_last() =~= all.take(i as int));
        assert(all.take(i + 1).last() == p@[i as int]@);
        if !text::empty(p[i].as_str()) {
            let ghost before = r@;
            r.push(p[i].clone());
            assert(text::views(r@) =~= text::views(before).push(p@[i as int]@));
        }
    }
    assert(all.take(all.len() as int) =~= all);
    r
}

fn remote(ssh: &Vec<String>, argv: &Vec<String>) -> (r: Call)
    requires
        ssh@.len() > 0,
    ensures
        r@ == remote_call(text::views(ssh@), text::views(argv@)),
{
    let ghost all = text::views(ssh@);
    let mut c = Call::new(ssh[0].as_str());
    assert(c@.args =~= Seq::<Text>::empty() + all.skip(1).take(0));
    for i in 1..ssh.len()
        invariant
            all == text::views(ssh@),
            ssh@.len() > 0,
            c@ == world::program(all[0]).args(all.skip(1).take(i - 1)),
    {
        let ghost before = c@;
        c = c.arg(ssh[i].as_str());
        assert(all.skip(1)[i - 1] == ssh@[i as int]@);
        assert(all.skip(1).take(i as int) =~= all.skip(1).take(i - 1).push(all.skip(1)[i - 1]));
        assert(c@.args =~= Seq::<Text>::empty() + all.skip(1).take(i as int));
    }
    assert(all.skip(1).take(all.len() - 1) =~= all.skip(1));
    c.arg("-t").arg(text::cat("pve-compose ", stack::quote_all(argv).as_str()).as_str())
}

/// Forwards the command line to the node owning `vmid` if that is not this
/// node. Returns `true` when it was forwarded (and has run there).
pub fn forward_if_remote(w: &mut World, ctx: &Ctx, vmid: u32, argv: &Vec<String>) -> (r: Result<
    bool,
    Stop,
>)
    ensures
        (final(w)@, world::res(r)) == forward_if_remote_s(
            old(w)@,
            ctx@,
            vmid,
            text::views(argv@),
        ),
{
    let n = num::print(vmid as u64);
    let (node, kind) = match pct::owner_node(w, vmid) {
        Ok(Some(p)) => p,
        Ok(None) => return Err(
            Stop::fail(text::cat3("no guest ", n.as_str(), " in the cluster")),
        ),
        Err(e) => return Err(e),
    };
    if !text::same(kind.as_str(), "lxc") {
        return Err(Stop::fail(text::cat3("guest ", n.as_str(), " is not a container")));
    }
    if text::same(node.as_str(), ctx.node.as_str()) {
        return Ok(false);
    }
    let out = match cmd::run(
        w,
        Call::new("perl").arg("-MPVE::SSHInfo").arg("-e").arg(SSH_SCRIPT).arg(node.as_str()),
    ) {
        Ok(o) => o,
        Err(e) => return Err(e),
    };
    let ssh = words(out.stdout.as_str());
    assert(text::views(ssh@).len() == ssh@.len());
    if ssh.len() == 0 {
        return Err(
            Stop::fail(text::cat("cannot build the ssh command for node ", node.as_str())),
        );
    }
    w.note(text::cat5("guest ", n.as_str(), " is on ", node.as_str(), "; running there"));
    match cmd::stream_tty(w, remote(&ssh, argv)) {
        Ok(_) => Ok(true),
        Err(e) => Err(e),
    }
}

// ---------------------------------------------------------------------------
// The verbs.

/// What is left to do when a command line has been run.
#[derive(Debug)]
pub enum Outcome {
    Done,
    /// Rows to print as JSON.
    Rows(Vec<Row>),
    /// The reconcile loop to run.
    Loop(Ctx),
}

/// What an [`Outcome`] is, as mathematics.
pub enum OutcomeV {
    Done,
    Rows(Seq<RowV>),
    Loop(CtxV),
}

impl View for Outcome {
    type V = OutcomeV;

    open spec fn view(&self) -> OutcomeV {
        match *self {
            Outcome::Done => OutcomeV::Done,
            Outcome::Rows(r) => OutcomeV::Rows(text::views(r@)),
            Outcome::Loop(c) => OutcomeV::Loop(c@),
        }
    }
}

/// A verb that ended.
pub open spec fn done<T>(x: (WorldV, Result<T, StopV>)) -> (WorldV, Result<OutcomeV, StopV>) {
    match x {
        (w, Ok(_)) => (w, Ok(OutcomeV::Done)),
        (w, Err(e)) => (w, Err(e)),
    }
}

pub open spec fn show_status_s(
    w: WorldV,
    c: CtxV,
    vmid: Option<u32>,
    json: bool,
    level: Level,
) -> (WorldV, Result<OutcomeV, StopV>) {
    match status::rows_s(w, c, vmid, level) {
        (w, Err(e)) => (w, Err(e)),
        (w, Ok(rows)) => if json {
            (w, Ok(OutcomeV::Rows(rows)))
        } else if rows.len() == 0 {
            (w.out("no compose guests on "@ + c.node), Ok(OutcomeV::Done))
        } else {
            (status::table_printed(w, rows, level), Ok(OutcomeV::Done))
        },
    }
}

/// The verb of a passed-through command line.
pub open spec fn verb_of(args: Seq<Text>) -> Text {
    if args.len() > 0 {
        args[0]
    } else {
        Seq::empty()
    }
}

/// The arguments for `docker compose`: the verb, and what follows the vmid.
pub open spec fn rest_of(args: Seq<Text>) -> Seq<Text> {
    seq![verb_of(args)] + (if args.len() > 2 {
        args.skip(2)
    } else {
        Seq::empty()
    })
}

/// A passthrough takes the same lock every other verb takes: it is a `docker
/// compose` in the stack directory like the loop's, and the two must not run
/// there at once.
pub open spec fn compose_s(w: WorldV, c: CtxV, args: Seq<Text>) -> (WorldV, Result<(), StopV>) {
    match compose_vmid(args) {
        None => (
            w,
            Err(
                world::failed(
                    "usage: pve-compose docker "@ + verb_of(args)
                        + " <vmid> [compose arguments]"@,
                ),
            ),
        ),
        Some(vmid) => match lock::take_s(w, vmid, apply::LOCK_WAIT) {
            (w, Err(e)) => (w, Err(e)),
            (w, Ok(_)) => lock::released(
                match ops::require_running_s(w, c, vmid) {
                    (w, Err(e)) => (w, Err(e)),
                    (w, Ok(_)) => stack::passthrough_s(w, vmid, rest_of(args)),
                },
                vmid,
            ),
        },
    }
}

/// A verb on this node.
pub open spec fn verb_s(w: WorldV, c: CtxV, x: CommandV) -> (WorldV, Result<OutcomeV, StopV>) {
    match x {
        CommandV::Apply { vmid, no_up } => done(
            apply::apply_s(w, c, vmid, apply_options(no_up)),
        ),
        CommandV::Diff { vmid } => done(diff::diff_s(w, c, vmid)),
        CommandV::Status { only, json } => show_status_s(w, c, only, json, Level::Both),
        CommandV::Upgrade { vmid } => done(apply::apply_s(w, c, vmid, upgrade_options())),
        CommandV::New(a) => done(new::new_s(w, c, a)),
        CommandV::Config => (
            configcmd::printed(w, configcmd::choices(c)),
            Ok(OutcomeV::Done),
        ),
        CommandV::ConfigSet { key, value } => done(configcmd::set_s(w, c, key, value)),
        CommandV::ConfigUnset { key } => done(configcmd::unset_s(w, c, key)),
        CommandV::PctApply { vmid } => done(apply::pct_apply_s(w, c, vmid)),
        CommandV::PctDiff { vmid } => done(diff::pct_diff_s(w, c, vmid)),
        CommandV::PctStatus { only, json } => show_status_s(w, c, only, json, Level::Pct),
        CommandV::DockerApply { vmid, no_up } => done(
            apply::docker_apply_s(w, c, vmid, apply_options(no_up)),
        ),
        CommandV::DockerDiff { vmid } => done(diff::docker_diff_s(w, c, vmid)),
        CommandV::DockerStatus { only, json } => show_status_s(
            w,
            c,
            only,
            json,
            Level::Docker,
        ),
        CommandV::DockerUpgrade { vmid } => done(
            apply::docker_apply_s(w, c, vmid, upgrade_options()),
        ),
        CommandV::Compose(args) => done(compose_s(w, c, args)),
        CommandV::Daemon => (w, Ok(OutcomeV::Loop(c))),
    }
}

/// Whether a command line was run on another node.
pub open spec fn away_s(w: WorldV, c: CtxV, x: CommandV, argv: Seq<Text>) -> (
    WorldV,
    Result<bool, StopV>,
) {
    match target_of(x) {
        Some(vmid) => forward_if_remote_s(w, c, vmid, argv),
        None => (w, Ok(false)),
    }
}

pub open spec fn run_s(w: WorldV, x: CommandV, argv: Seq<Text>) -> (
    WorldV,
    Result<OutcomeV, StopV>,
) {
    match ops::load_ctx_s(w) {
        (w, Err(e)) => (w, Err(e)),
        (w, Ok(c)) => match away_s(w, c, x, argv) {
            (w, Err(e)) => (w, Err(e)),
            (w, Ok(true)) => (w, Ok(OutcomeV::Done)),
            (w, Ok(false)) => verb_s(w, c, x),
        },
    }
}

fn ended<T: View>(r: Result<T, Stop>) -> (s: Result<Outcome, Stop>)
    ensures
        match r {
            Ok(_) => world::res(s) == Ok::<OutcomeV, StopV>(OutcomeV::Done),
            Err(e) => world::res(s) == Err::<OutcomeV, StopV>(e@),
        },
{
    match r {
        Ok(_) => Ok(Outcome::Done),
        Err(e) => Err(e),
    }
}

fn show_status(w: &mut World, ctx: &Ctx, vmid: Option<u32>, json: bool, level: Level) -> (r: Result<
    Outcome,
    Stop,
>)
    ensures
        (final(w)@, world::res(r)) == show_status_s(old(w)@, ctx@, vmid, json, level),
{
    let rows = match status::rows(w, ctx, vmid, level) {
        Ok(r) => r,
        Err(e) => return Err(e),
    };
    assert(text::views(rows@).len() == rows@.len());
    if json {
        Ok(Outcome::Rows(rows))
    } else if rows.len() == 0 {
        w.out(text::cat("no compose guests on ", ctx.node.as_str()));
        Ok(Outcome::Done)
    } else {
        status::print_table(w, &rows, level);
        Ok(Outcome::Done)
    }
}

fn rest(args: &Vec<String>) -> (r: Vec<String>)
    ensures
        text::views(r@) == rest_of(text::views(args@)),
{
    let ghost all = text::views(args@);
    let mut r: Vec<String> = Vec::new();
    if args.len() > 0 {
        r.push(args[0].clone());
    } else {
        let s = String::new();
        assert(s@ =~= Seq::<char>::empty());
        r.push(s);
    }
    assert(text::views(r@) =~= seq![verb_of(all)]);
    if args.len() > 2 {
        let ghost more = all.skip(2);
        assert(text::views(r@) =~= seq![verb_of(all)] + more.take(0));
        for i in 2..args.len()
            invariant
                all == text::views(args@),
                args@.len() > 2,
                more == all.skip(2),
                text::views(r@) == seq![verb_of(all)] + more.take(i - 2),
        {
            let ghost before = r@;
            r.push(args[i].clone());
            assert(more[i - 2] == args@[i as int]@);
            assert(more.take(i - 1) =~= more.take(i - 2).push(more[i - 2]));
            assert(text::views(r@) =~= text::views(before).push(more[i - 2]));
        }
        assert(more.take(all.len() - 2) =~= more);
    } else {
        assert(text::views(r@) =~= rest_of(all));
    }
    r
}

/// `pve-compose docker <verb> <vmid> [args...]`, passed to `docker compose`.
pub fn compose(w: &mut World, ctx: &Ctx, args: &Vec<String>) -> (r: Result<(), Stop>)
    ensures
        (final(w)@, world::res(r)) == compose_s(old(w)@, ctx@, text::views(args@)),
{
    let vmid = match vmid_of(args) {
        Some(v) => v,
        None => {
            let verb = if args.len() > 0 {
                args[0].clone()
            } else {
                let s = String::new();
                assert(s@ =~= Seq::<char>::empty());
                s
            };
            return Err(
                Stop::fail(
                    text::cat3(
                        "usage: pve-compose docker ",
                        verb.as_str(),
                        " <vmid> [compose arguments]",
                    ),
                ),
            );
        },
    };
    let lock = match GuestLock::take(w, vmid, apply::LOCK_WAIT) {
        Ok(l) => l,
        Err(e) => return Err(e),
    };
    let r = match ops::require_running(w, ctx, vmid) {
        Ok(_) => stack::passthrough(w, vmid, &rest(args)),
        Err(e) => Err(e),
    };
    lock.finish(w, r)
}

/// A verb on this node.
#[verifier::spinoff_prover]
#[verifier::rlimit(60)]
fn verb(w: &mut World, ctx: Ctx, c: &Command) -> (r: Result<Outcome, Stop>)
    ensures
        (final(w)@, world::res(r)) == verb_s(old(w)@, ctx@, c@),
{
    let up = Options { pull: true, no_up: false, only_if_up: false };
    match c {
        Command::Apply { vmid, no_up } => {
            let o = Options { pull: false, no_up: *no_up, only_if_up: false };
            ended(apply::apply(w, &ctx, *vmid, o))
        },
        Command::Diff { vmid } => ended(diff::diff(w, &ctx, *vmid)),
        Command::Status { only, json } => show_status(w, &ctx, *only, *json, Level::Both),
        Command::Upgrade { vmid } => ended(upgrade::upgrade(w, &ctx, *vmid, up)),
        Command::New(a) => ended(new::new(w, &ctx, a)),
        Command::Config => ended(configcmd::show(w, &ctx)),
        Command::ConfigSet { key, value } => ended(
            configcmd::set(w, &ctx, key.as_str(), value.as_str()),
        ),
        Command::ConfigUnset { key } => ended(configcmd::unset(w, &ctx, key.as_str())),
        Command::PctApply { vmid } => ended(apply::pct_apply(w, &ctx, *vmid)),
        Command::PctDiff { vmid } => ended(diff::pct_diff(w, &ctx, *vmid)),
        Command::PctStatus { only, json } => show_status(w, &ctx, *only, *json, Level::Pct),
        Command::DockerApply { vmid, no_up } => {
            let o = Options { pull: false, no_up: *no_up, only_if_up: false };
            ended(apply::docker_apply(w, &ctx, *vmid, o))
        },
        Command::DockerDiff { vmid } => ended(diff::docker_diff(w, &ctx, *vmid)),
        Command::DockerStatus { only, json } => show_status(
            w,
            &ctx,
            *only,
            *json,
            Level::Docker,
        ),
        Command::DockerUpgrade { vmid } => ended(upgrade::docker_upgrade(w, &ctx, *vmid, up)),
        Command::Compose(args) => ended(compose(w, &ctx, args)),
        Command::Daemon => Ok(Outcome::Loop(ctx)),
    }
}

/// Runs a command line; `argv` is the line itself, for the node that owns the
/// guest where that is another.
pub fn run(w: &mut World, c: &Command, argv: &Vec<String>) -> (r: Result<Outcome, Stop>)
    ensures
        (final(w)@, world::res(r)) == run_s(old(w)@, c@, text::views(argv@)),
{
    let ctx = match Ctx::load(w) {
        Ok(c) => c,
        Err(e) => return Err(e),
    };
    if let Some(vmid) = target(c) {
        match forward_if_remote(w, &ctx, vmid, argv) {
            Ok(true) => return Ok(Outcome::Done),
            Ok(false) => {},
            Err(e) => return Err(e),
        }
    }
    verb(w, ctx, c)
}

// ---------------------------------------------------------------------------
// What holds of it.

/// A guest of another node is never acted on from here: a command line about
/// it ends when it has run there, or fails.
pub proof fn law_foreign_guest_is_forwarded(
    w: WorldV,
    x: CommandV,
    argv: Seq<Text>,
    c: CtxV,
    v: WorldV,
    vmid: u32,
    node: Text,
)
    requires
        ops::load_ctx_s(w) == (v, Ok::<CtxV, StopV>(c)),
        target_of(x) == Some(vmid),
        pct::owner_node_s(v, vmid).1 == Ok::<Option<(Text, Text)>, StopV>(
            Some((node, "lxc"@)),
        ),
        node != c.node,
    ensures
        run_s(w, x, argv) == done(forward_s(pct::owner_node_s(v, vmid).0, node, vmid, argv)),
{
}

} // verus!
