//! Running the node's own tools: `pct`, `pvesh`, `pve-meta`, `pveam`.
//!
//! Two shapes: [`run`] captures output and fails on a non-zero exit with the
//! command line and stderr in the error, for anything whose output the tool
//! reads; [`stream`] inherits the terminal, for anything a human wants to
//! watch.
//!
//! Every call the loop makes has a deadline: one hung command in one
//! container must not hold the node's other guests for good. [`TIMEOUT`]
//! covers reads, probes and PVE's own quick verbs; [`LONG_TIMEOUT`] is for
//! the ones that legitimately take minutes and is named at those call sites.

use vstd::prelude::*;

use crate::error::Error;
use crate::json::{self, Json, JsonV};
use crate::num;
use crate::text::{self, Text};
use crate::world::{self, Act, ActV, Call, CallV, Output, OutputV, Stop, StopV, World, WorldV};

verus! {

/// The deadline for a read, a probe or one of PVE's quick verbs, in seconds.
pub const TIMEOUT: u64 = 120;

/// The deadline for the slow ones, in seconds.
pub const LONG_TIMEOUT: u64 = 1800;

/// The most bytes of stdout a captured command may produce.
pub const MAX_OUTPUT: usize = 4194304;

/// The most bytes of stderr a captured command may produce.
pub const STDERR_CAP: usize = 65536;

// ---------------------------------------------------------------------------
// How a command line is shown.

/// An argument as shown: in quotes when it is empty or has a space.
pub open spec fn shown_arg(a: Text) -> Text {
    if a.len() == 0 || a.contains(' ') {
        "'"@ + a + "'"@
    } else {
        a
    }
}

/// The arguments as shown, each after a space.
pub open spec fn shown_args(a: Seq<Text>) -> Text
    decreases a.len(),
{
    if a.len() == 0 {
        Seq::empty()
    } else {
        shown_args(a.drop_last()) + " "@ + shown_arg(a.last())
    }
}

/// The command line as shown.
pub open spec fn rendered(c: CallV) -> Text {
    c.program + shown_args(c.args)
}

fn render_arg(a: &str) -> (r: String)
    ensures
        r@ == shown_arg(a@),
{
    let cs = text::chars(a);
    let at = text::find(&cs, ' ');
    assert(at < a@.len() ==> a@.contains(' ')) by {
        if at < a@.len() {
            assert(a@[at as int] == ' ');
        }
    }
    if cs.len() == 0 || at < cs.len() {
        text::cat3("'", a, "'")
    } else {
        a.to_owned()
    }
}

/// The command line as shown.
pub fn render(c: &Call) -> (r: String)
    ensures
        r@ == rendered(c@),
{
    let mut s = c.program.clone();
    let ghost all = c@.args;
    assert(c@.program + shown_args(all.take(0)) =~= c@.program);
    for i in 0..c.args.len()
        invariant
            all == text::views(c.args@),
            s@ == c@.program + shown_args(all.take(i as int)),
    {
        assert(all.take(i + 1).drop_last() =~= all.take(i as int));
        let ghost before = s@;
        let shown = render_arg(c.args[i].as_str());
        s.append(" ");
        s.append(shown.as_str());
        assert(s@ =~= c@.program + shown_args(all.take(i + 1)));
    }
    assert(all.take(all.len() as int) =~= all);
    s
}

/// What names a call in an error about it: the program and its first word.
pub open spec fn what(c: CallV) -> Text {
    c.program + " "@ + (if c.args.len() > 0 {
        c.args[0]
    } else {
        Seq::empty()
    })
}

fn name_of(c: &Call) -> (r: String)
    ensures
        r@ == what(c@),
{
    if c.args.len() > 0 {
        text::cat3(c.program.as_str(), " ", c.args[0].as_str())
    } else {
        let e = String::new();
        text::cat3(c.program.as_str(), " ", e.as_str())
    }
}

// ---------------------------------------------------------------------------
// Watching a command that runs.

/// What to do about a command that runs.
#[derive(Debug, Clone, Copy, PartialEq, Eq, Structural)]
pub enum Watch {
    /// It produced too much: kill its group, and that is the error.
    Over,
    /// It has exited and both pipes are closed: take its output.
    Done,
    /// Its deadline has passed: kill its group, and that is the error.
    Late,
    /// Look again in a moment.
    Wait,
}

/// A command that produced too much is killed before anything else is
/// looked at. It is done once it has exited and both its pipes are closed:
/// something it left behind that still holds one is under the same deadline.
pub fn watch(over: bool, exited: bool, closed: bool, late: bool) -> (r: Watch)
    ensures
        r == Watch::Over <==> over,
        r == Watch::Done <==> !over && exited && closed,
        r == Watch::Late <==> !over && !(exited && closed) && late,
        r == Watch::Wait <==> !over && !(exited && closed) && !late,
{
    if over {
        Watch::Over
    } else if exited && closed {
        Watch::Done
    } else if late {
        Watch::Late
    } else {
        Watch::Wait
    }
}

/// Whether `more` bytes still fit under the cap.
pub fn fits(have: usize, more: usize, cap: usize) -> (r: bool)
    ensures
        r == (have + more <= cap),
{
    have <= cap && more <= cap - have
}

/// The error of a captured command that produced too much.
pub fn over_error(c: &Call, killed: bool) -> (r: Error)
    ensures
        r@ == seq![what(c@) + ": more output than allowed"@ + (if killed {
            ", killed"@
        } else {
            Seq::empty()
        })],
{
    let e = String::new();
    Error::new(
        text::cat3(
            name_of(c).as_str(),
            ": more output than allowed",
            if killed {
                ", killed"
            } else {
                e.as_str()
            },
        ),
    )
}

/// The error of a command whose deadline passed; a streamed one is named by
/// its whole line.
pub fn late_error(c: &Call, secs: u64) -> (r: Error)
    ensures
        r@ == seq![(if c@.shape is Capture {
            what(c@)
        } else {
            rendered(c@)
        }) + ": no answer after "@ + num::dec(secs as nat) + "s, killed"@],
{
    let name = match c.shape {
        world::Shape::Capture => name_of(c),
        _ => render(c),
    };
    Error::new(
        text::cat4(
            name.as_str(),
            ": no answer after ",
            num::print(secs).as_str(),
            "s, killed",
        ),
    )
}

/// The error of a program that cannot be started, with the cause.
pub fn spawn_error(c: &Call, cause: String) -> (r: Error)
    ensures
        r@ == seq!["cannot run "@ + c@.program, cause@],
{
    let e = Error::new(cause).context(text::cat("cannot run ", c.program.as_str()));
    assert(e@ =~= seq!["cannot run "@ + c@.program, cause@]);
    e
}

// ---------------------------------------------------------------------------
// Asking for a command.

/// The error of a command with a non-zero exit.
pub open spec fn exit_error(c: CallV, o: OutputV) -> StopV {
    world::failed(
        rendered(c) + " failed (exit "@ + num::signed(o.status as int) + ")"@ + (if text::trimmed(
            o.stderr,
        ).len() == 0 {
            Seq::empty()
        } else {
            ": "@ + text::trimmed(o.stderr)
        }),
    )
}

pub open spec fn run_status_within_s(w: WorldV, c: CallV, within: u64) -> (
    WorldV,
    Result<OutputV, StopV>,
) {
    w.act(ActV::Run(c.captured(within)))
}

pub open spec fn run_status_s(w: WorldV, c: CallV) -> (WorldV, Result<OutputV, StopV>) {
    run_status_within_s(w, c, TIMEOUT)
}

pub open spec fn run_within_s(w: WorldV, c: CallV, within: u64) -> (
    WorldV,
    Result<OutputV, StopV>,
) {
    match run_status_within_s(w, c, within) {
        (w, Ok(o)) => if o.status != 0 {
            (w, Err(exit_error(c, o)))
        } else {
            (w, Ok(o))
        },
        (w, Err(e)) => (w, Err(e)),
    }
}

pub open spec fn run_s(w: WorldV, c: CallV) -> (WorldV, Result<OutputV, StopV>) {
    run_within_s(w, c, TIMEOUT)
}

pub open spec fn streamed_s(w: WorldV, c: CallV) -> (WorldV, Result<(), StopV>) {
    match w.act(ActV::Run(c)) {
        (w, Ok(o)) => if o.status != 0 {
            (
                w,
                Err(
                    world::failed(
                        rendered(c) + " failed (exit "@ + num::signed(o.status as int) + ")"@,
                    ),
                ),
            )
        } else {
            (w, Ok(()))
        },
        (w, Err(e)) => (w, Err(e)),
    }
}

pub open spec fn json_s(w: WorldV, c: CallV) -> (WorldV, Result<JsonV, StopV>) {
    match run_s(w, c) {
        (w, Ok(o)) => match json::json_of(o.stdout) {
            Ok(j) => (w, Ok(j)),
            Err(m) => (
                w,
                Err(
                    StopV::Fail(
                        seq![rendered(c) + ": not JSON: "@ + text::trimmed(o.stdout), m],
                    ),
                ),
            ),
        },
        (w, Err(e)) => (w, Err(e)),
    }
}

pub open spec fn pvesh(path: Text, args: Seq<Text>) -> CallV {
    world::program("pvesh"@).arg("get"@).arg(path).args(args).arg("--output-format"@).arg("json"@)
}

pub open spec fn pvesh_get_s(w: WorldV, path: Text, args: Seq<Text>) -> (
    WorldV,
    Result<JsonV, StopV>,
) {
    json_s(w, pvesh(path, args))
}

/// Runs a command, capturing both streams. Fails on a non-zero exit.
pub fn run(w: &mut World, c: Call) -> (r: Result<Output, Stop>)
    ensures
        (final(w)@, world::res(r)) == run_s(old(w)@, c@),
{
    run_within(w, c, TIMEOUT)
}

/// [`run`] with a deadline of its own.
pub fn run_within(w: &mut World, c: Call, within: u64) -> (r: Result<Output, Stop>)
    ensures
        (final(w)@, world::res(r)) == run_within_s(old(w)@, c@, within),
{
    let shown = render(&c);
    let out = match run_status_within(w, c, within) {
        Ok(o) => o,
        Err(e) => return Err(e),
    };
    if out.status != 0 {
        let why = text::trim(out.stderr.as_str());
        let tail = if text::empty(why.as_str()) {
            String::new()
        } else {
            text::cat(": ", why.as_str())
        };
        assert(tail@.len() == 0 ==> tail@ =~= Seq::empty());
        return Err(
            Stop::fail(
                text::cat5(
                    shown.as_str(),
                    " failed (exit ",
                    num::print_signed(out.status).as_str(),
                    ")",
                    tail.as_str(),
                ),
            ),
        );
    }
    Ok(out)
}

/// Like [`run`], but a non-zero exit is returned, not an error. For commands
/// whose exit status carries meaning.
pub fn run_status(w: &mut World, c: Call) -> (r: Result<Output, Stop>)
    ensures
        (final(w)@, world::res(r)) == run_status_s(old(w)@, c@),
{
    run_status_within(w, c, TIMEOUT)
}

/// [`run_status`] with a deadline of its own.
pub fn run_status_within(w: &mut World, c: Call, within: u64) -> (r: Result<Output, Stop>)
    ensures
        (final(w)@, world::res(r)) == run_status_within_s(old(w)@, c@, within),
{
    w.act(Act::Run(c.captured(within)))
}

fn streamed(w: &mut World, c: Call) -> (r: Result<(), Stop>)
    ensures
        (final(w)@, world::res(r)) == streamed_s(old(w)@, c@),
{
    let shown = render(&c);
    let out = match w.act(Act::Run(c)) {
        Ok(o) => o,
        Err(e) => return Err(e),
    };
    if out.status != 0 {
        return Err(
            Stop::fail(
                text::cat4(
                    shown.as_str(),
                    " failed (exit ",
                    num::print_signed(out.status).as_str(),
                    ")",
                ),
            ),
        );
    }
    Ok(())
}

/// Runs a command with its output on the terminal and no deadline: for what
/// a human started and watches. Fails on a non-zero exit.
pub fn stream(w: &mut World, c: Call) -> (r: Result<(), Stop>)
    ensures
        (final(w)@, world::res(r)) == streamed_s(old(w)@, c@.streamed(None)),
{
    streamed(w, c.streamed(None))
}

/// [`stream`] with a deadline: for the long ones the daemon runs too.
pub fn stream_within(w: &mut World, c: Call, within: u64) -> (r: Result<(), Stop>)
    ensures
        (final(w)@, world::res(r)) == streamed_s(old(w)@, c@.streamed(Some(within))),
{
    streamed(w, c.streamed(Some(within)))
}

/// Like [`stream`], with input attached too: for an ssh to another node
/// whose command may ask a question.
pub fn stream_tty(w: &mut World, c: Call) -> (r: Result<(), Stop>)
    ensures
        (final(w)@, world::res(r)) == streamed_s(old(w)@, c@.attached()),
{
    streamed(w, c.attached())
}

/// Runs a command and parses its stdout as JSON.
pub fn json(w: &mut World, c: Call) -> (r: Result<Json, Stop>)
    ensures
        (final(w)@, world::res(r)) == json_s(old(w)@, c@),
{
    let shown = render(&c);
    let out = match run(w, c) {
        Ok(o) => o,
        Err(e) => return Err(e),
    };
    match json::parse(out.stdout.as_str()) {
        Ok(j) => Ok(j),
        Err(e) => {
            let e = e.context(
                text::cat3(
                    shown.as_str(),
                    ": not JSON: ",
                    text::trim(out.stdout.as_str()).as_str(),
                ),
            );
            assert(e@ =~= seq![
                rendered(c@) + ": not JSON: "@ + text::trimmed(out.stdout@),
                json::json_of(out.stdout@)->Err_0,
            ]);
            Err(Stop::Fail(e))
        },
    }
}

/// `pvesh get <path> [args] --output-format json`.
pub fn pvesh_get(w: &mut World, path: &str, args: &Vec<String>) -> (r: Result<Json, Stop>)
    ensures
        (final(w)@, world::res(r)) == pvesh_get_s(old(w)@, path@, text::views(args@)),
{
    json(
        w,
        Call::new("pvesh").arg("get").arg(path).args(args).arg("--output-format").arg("json"),
    )
}

// ---------------------------------------------------------------------------
// Which node this is.

/// The hostname up to its first dot.
pub open spec fn short(h: Text) -> Text {
    h.take(text::first(h, '.') as int)
}

pub open spec fn nodename_s(w: WorldV) -> (WorldV, Result<Text, StopV>) {
    match w.act(ActV::Link { path: "/etc/pve/local"@ }) {
        (w, Err(StopV::Act(a))) => (w, Err(StopV::Act(a))),
        (w, r) => if r is Ok && r->Ok_0.status == 0 && r->Ok_0.stdout.len() > 0 {
            (w, Ok(r->Ok_0.stdout))
        } else {
            match run_s(w, world::program("hostname"@)) {
                (w, Ok(o)) => if short(text::trimmed(o.stdout)).len() == 0 {
                    (w, Err(world::failed("cannot determine the node name"@)))
                } else {
                    (w, Ok(short(text::trimmed(o.stdout))))
                },
                (w, Err(e)) => (w, Err(e)),
            }
        },
    }
}

/// The local node's name, as PVE knows it: where `/etc/pve/local` points
/// (`nodes/<name>`), or the hostname up to the first dot without pmxcfs.
pub fn nodename(w: &mut World) -> (r: Result<String, Stop>)
    ensures
        (final(w)@, world::res(r)) == nodename_s(old(w)@),
{
    match w.act(Act::Link { path: "/etc/pve/local".to_owned() }) {
        Ok(o) => {
            if o.status == 0 && !text::empty(o.stdout.as_str()) {
                return Ok(o.stdout);
            }
        },
        Err(Stop::Act(a)) => return Err(Stop::Act(a)),
        Err(Stop::Fail(_)) => {},
    }
    let out = match run(w, Call::new("hostname")) {
        Ok(o) => o,
        Err(e) => return Err(e),
    };
    let h = text::trim(out.stdout.as_str());
    let cs = text::chars(h.as_str());
    let at = text::find(&cs, '.');
    let name = text::part(&cs, 0, at);
    assert(name@ =~= short(h@));
    if text::empty(name.as_str()) {
        return Err(Stop::fail("cannot determine the node name".to_owned()));
    }
    Ok(name)
}

} // verus!
