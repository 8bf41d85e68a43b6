//! The world outside: the actions a verb asks for, and the replies it got.
//!
//! Nothing in this library runs a command or touches a file. A verb is a
//! function of the replies to the actions it asked for so far: it goes on
//! from the start, takes one reply for each action that has been performed,
//! and stops with the first one that has not. Whoever runs the verb performs
//! that action, appends the reply and calls the verb again, until it ends.
//! Lines for the human are collected on the way; only those after the last
//! reply are still to be printed.

use vstd::prelude::*;

use crate::error::{self, Chain, Error};
use crate::text::{self, Text};

verus! {

/// How a command is run.
#[derive(Debug, Clone, Copy, PartialEq, Eq, Structural)]
pub enum Shape {
    /// Both streams captured.
    Capture,
    /// The output on the terminal.
    Stream,
    /// The terminal attached, input included.
    Tty,
}

/// A command to run.
#[derive(Debug)]
pub struct Call {
    pub program: String,
    pub args: Vec<String>,
    /// The deadline in seconds, past which it is killed.
    pub within: Option<u64>,
    pub shape: Shape,
}

/// What a [`Call`] is, as mathematics.
pub struct CallV {
    pub program: Text,
    pub args: Seq<Text>,
    pub within: Option<u64>,
    pub shape: Shape,
}

impl View for Call {
    type V = CallV;

    open spec fn view(&self) -> CallV {
        CallV {
            program: self.program@,
            args: text::views(self.args@),
            within: self.within,
            shape: self.shape,
        }
    }
}

impl CallV {
    /// The command with one more argument.
    pub open spec fn arg(self, a: Text) -> CallV {
        CallV { args: self.args.push(a), ..self }
    }

    /// The command with more arguments.
    pub open spec fn args(self, a: Seq<Text>) -> CallV {
        CallV { args: self.args + a, ..self }
    }

    /// The command under a deadline, its output captured.
    pub open spec fn captured(self, within: u64) -> CallV {
        CallV { within: Some(within), shape: Shape::Capture, ..self }
    }

    /// The command with its output on the terminal.
    pub open spec fn streamed(self, within: Option<u64>) -> CallV {
        CallV { within, shape: Shape::Stream, ..self }
    }

    /// The command with the terminal attached.
    pub open spec fn attached(self) -> CallV {
        CallV { within: None, shape: Shape::Tty, ..self }
    }
}

/// A command without arguments, captured and without a deadline.
pub open spec fn program(p: Text) -> CallV {
    CallV { program: p, args: Seq::empty(), within: None, shape: Shape::Capture }
}

impl Call {
    /// A command without arguments.
    pub fn new(program: &str) -> (r: Call)
        ensures
            r@ == self::program(program@),
    {
        let args: Vec<String> = Vec::new();
        assert(text::views(args@) =~= Seq::empty());
        Call { program: program.to_owned(), args, within: None, shape: Shape::Capture }
    }

    /// The command with one more argument.
    pub fn arg(self, a: &str) -> (r: Call)
        ensures
            r@ == self@.arg(a@),
    {
        let mut args = self.args;
        args.push(a.to_owned());
        assert(text::views(args@) =~= text::views(self.args@).push(a@));
        Call { program: self.program, args, within: self.within, shape: self.shape }
    }

    /// The command with more arguments.
    pub fn args(self, a: &Vec<String>) -> (r: Call)
        ensures
            r@ == self@.args(text::views(a@)),
    {
        let mut args = self.args;
        let ghost before = text::views(args@);
        let ghost more = text::views(a@);
        assert(before + more.take(0) =~= before);
        for i in 0..a.len()
            invariant
                more == text::views(a@),
                text::views(args@) == before + more.take(i as int),
        {
            let ghost so_far = args@;
            args.push(a[i].clone());
            assert(text::views(args@) =~= text::views(so_far).push(more[i as int]));
            assert(before + more.take(i + 1) =~= (before + more.take(i as int)).push(
                more[i as int],
            ));
        }
        assert(more.take(a@.len() as int) =~= more);
        Call { program: self.program, args, within: self.within, shape: self.shape }
    }

    /// The command under a deadline, its output captured.
    pub fn captured(self, within: u64) -> (r: Call)
        ensures
            r@ == self@.captured(within),
    {
        Call {
            program: self.program,
            args: self.args,
            within: Some(within),
            shape: Shape::Capture,
        }
    }

    /// The command with its output on the terminal.
    pub fn streamed(self, within: Option<u64>) -> (r: Call)
        ensures
            r@ == self@.streamed(within),
    {
        Call { program: self.program, args: self.args, within, shape: Shape::Stream }
    }

    /// The command with the terminal attached.
    pub fn attached(self) -> (r: Call)
        ensures
            r@ == self@.attached(),
    {
        Call { program: self.program, args: self.args, within: None, shape: Shape::Tty }
    }
}

impl Clone for Call {
    fn clone(&self) -> (r: Call)
        ensures
            r@ == self@,
    {
        Call {
            program: self.program.clone(),
            args: text::copies(&self.args),
            within: self.within,
            shape: self.shape,
        }
    }
}

/// What a verb asks to be done.
#[derive(Debug)]
pub enum Act {
    /// Run a command. The reply is its status and output.
    Run(Call),
    /// Take the guest's lock, waiting up to so many seconds.
    Lock { vmid: u32, wait: u32 },
    /// Give the guest's lock back.
    Unlock { vmid: u32 },
    /// Read a file. The reply has status 0 and the text, or [`MISSING`].
    Read { path: String },
    /// Read the last part of what a link points to, as [`Act::Read`] does.
    Link { path: String },
    /// Write a file in one step, by a sibling renamed over it.
    Replace { path: String, text: String },
    /// Write a temporary file of root's alone. The reply is its path.
    Temp { name: String, text: String },
    /// Remove a temporary file.
    Remove { path: String },
    /// Whether a person can answer: status 1 when so, else 0.
    Terminal,
    /// Ask at the terminal. The reply is the line, empty at the end of input.
    Ask { question: String },
    /// Wait.
    Sleep { millis: u64 },
    /// Tell the service manager.
    Notify { message: String },
}

/// What an [`Act`] is, as mathematics.
pub enum ActV {
    Run(CallV),
    Lock { vmid: u32, wait: u32 },
    Unlock { vmid: u32 },
    Read { path: Text },
    Link { path: Text },
    Replace { path: Text, text: Text },
    Temp { name: Text, text: Text },
    Remove { path: Text },
    Terminal,
    Ask { question: Text },
    Sleep { millis: u64 },
    Notify { message: Text },
}

impl View for Act {
    type V = ActV;

    open spec fn view(&self) -> ActV {
        match *self {
            Act::Run(c) => ActV::Run(c@),
            Act::Lock { vmid, wait } => ActV::Lock { vmid, wait },
            Act::Unlock { vmid } => ActV::Unlock { vmid },
            Act::Read { path } => ActV::Read { path: path@ },
            Act::Link { path } => ActV::Link { path: path@ },
            Act::Replace { path, text } => ActV::Replace { path: path@, text: text@ },
            Act::Temp { name, text } => ActV::Temp { name: name@, text: text@ },
            Act::Remove { path } => ActV::Remove { path: path@ },
            Act::Terminal => ActV::Terminal,
            Act::Ask { question } => ActV::Ask { question: question@ },
            Act::Sleep { millis } => ActV::Sleep { millis },
            Act::Notify { message } => ActV::Notify { message: message@ },
        }
    }
}

/// The status of a reply about a file that is not there.
pub const MISSING: i32 = 2;

/// The status and output of a command, or what answers another action.
#[derive(Debug)]
pub struct Output {
    pub status: i32,
    pub stdout: String,
    pub stderr: String,
}

/// What an [`Output`] is, as mathematics.
pub struct OutputV {
    pub status: i32,
    pub stdout: Text,
    pub stderr: Text,
}

impl View for Output {
    type V = OutputV;

    open spec fn view(&self) -> OutputV {
        OutputV { status: self.status, stdout: self.stdout@, stderr: self.stderr@ }
    }
}

impl Clone for Output {
    fn clone(&self) -> (r: Output)
        ensures
            r@ == self@,
    {
        Output {
            status: self.status,
            stdout: self.stdout.clone(),
            stderr: self.stderr.clone(),
        }
    }
}

/// What came of an action, and when: milliseconds on a clock that never goes
/// back.
#[derive(Debug)]
pub struct Reply {
    pub at: u64,
    pub result: Result<Output, Error>,
}

/// What a [`Reply`] is, as mathematics.
pub struct ReplyV {
    pub at: u64,
    pub result: Result<OutputV, Chain>,
}

impl View for Reply {
    type V = ReplyV;

    open spec fn view(&self) -> ReplyV {
        ReplyV {
            at: self.at,
            result: match self.result {
                Ok(o) => Ok(o@),
                Err(e) => Err(e@),
            },
        }
    }
}

/// A line for the human, on standard output or standard error.
#[derive(Debug)]
pub enum Line {
    Out(String),
    Note(String),
}

/// What a [`Line`] is, as mathematics.
pub enum LineV {
    Out(Text),
    Note(Text),
}

impl View for Line {
    type V = LineV;

    open spec fn view(&self) -> LineV {
        match *self {
            Line::Out(s) => LineV::Out(s@),
            Line::Note(s) => LineV::Note(s@),
        }
    }
}

/// Why a verb did not end: it failed, or an action is still to be performed.
#[derive(Debug)]
pub enum Stop {
    Fail(Error),
    Act(Act),
}

/// What a [`Stop`] is, as mathematics.
pub enum StopV {
    Fail(Chain),
    Act(ActV),
}

impl View for Stop {
    type V = StopV;

    open spec fn view(&self) -> StopV {
        match *self {
            Stop::Fail(e) => StopV::Fail(e@),
            Stop::Act(a) => StopV::Act(a@),
        }
    }
}

/// A failure under another message.
pub open spec fn under(message: Text, s: StopV) -> StopV {
    match s {
        StopV::Fail(c) => StopV::Fail(error::with(message, c)),
        StopV::Act(a) => StopV::Act(a),
    }
}

/// A failure with one message.
pub open spec fn failed(message: Text) -> StopV {
    StopV::Fail(seq![message])
}

impl Stop {
    /// A failure with one message.
    pub fn fail(message: String) -> (r: Stop)
        ensures
            r@ == failed(message@),
    {
        Stop::Fail(Error::new(message))
    }

    /// A failure under another message.
    pub fn under(self, message: String) -> (r: Stop)
        ensures
            r@ == under(message@, self@),
    {
        match self {
            Stop::Fail(e) => Stop::Fail(e.context(message)),
            Stop::Act(a) => Stop::Act(a),
        }
    }
}

/// The view of what a verb gave back.
pub open spec fn res<T: View>(r: Result<T, Stop>) -> Result<T::V, StopV> {
    match r {
        Ok(x) => Ok(x@),
        Err(s) => Err(s@),
    }
}

/// The view of what a verb gave back, where that may be nothing.
pub open spec fn res_opt<T: View>(r: Result<Option<T>, Stop>) -> Result<Option<T::V>, StopV> {
    match r {
        Ok(x) => Ok(text::opt(x)),
        Err(s) => Err(s@),
    }
}

/// The view of what a verb gave back, where that is a list.
pub open spec fn res_list<T: View>(r: Result<Vec<T>, Stop>) -> Result<Seq<T::V>, StopV> {
    match r {
        Ok(x) => Ok(text::views(x@)),
        Err(s) => Err(s@),
    }
}

/// The replies so far, how many of them have been taken, the lines still to
/// be printed, the time when it began and that of the last reply taken, and
/// the time of day.
pub struct World {
    pub replies: Vec<Reply>,
    pub pos: usize,
    pub said: Vec<Line>,
    pub began: u64,
    pub now: u64,
    /// The time of day, RFC 3339.
    pub stamp: String,
    /// The actions asked for so far, the one still to be performed included.
    pub asked: Ghost<Seq<ActV>>,
}

/// What a [`World`] is, as mathematics.
pub struct WorldV {
    pub replies: Seq<ReplyV>,
    pub pos: nat,
    pub said: Seq<LineV>,
    pub began: u64,
    pub now: u64,
    pub stamp: Text,
    pub asked: Seq<ActV>,
}

impl View for World {
    type V = WorldV;

    open spec fn view(&self) -> WorldV {
        WorldV {
            replies: text::views(self.replies@),
            pos: self.pos as nat,
            said: text::views(self.said@),
            began: self.began,
            now: self.now,
            stamp: self.stamp@,
            asked: self.asked@,
        }
    }
}

impl WorldV {
    /// With one more line for the human.
    pub open spec fn say(self, l: LineV) -> WorldV {
        WorldV { said: self.said.push(l), ..self }
    }

    /// With one more line on standard error.
    pub open spec fn note(self, t: Text) -> WorldV {
        self.say(LineV::Note(t))
    }

    /// With one more line on standard output.
    pub open spec fn out(self, t: Text) -> WorldV {
        self.say(LineV::Out(t))
    }

    /// An action: its reply is taken if there is one, and the verb stops
    /// there if not.
    pub open spec fn act(self, a: ActV) -> (WorldV, Result<OutputV, StopV>) {
        let asked = self.asked.push(a);
        if self.pos < self.replies.len() {
            let r = self.replies[self.pos as int];
            (
                WorldV { pos: self.pos + 1, said: Seq::empty(), now: r.at, asked, ..self },
                match r.result {
                    Ok(o) => Ok(o),
                    Err(c) => Err(StopV::Fail(c)),
                },
            )
        } else {
            (WorldV { asked, ..self }, Err(StopV::Act(a)))
        }
    }
}

/// `chrono::Local::now().to_rfc3339()`: the time on the node's clock. Nothing
/// is claimed of it: what is verified holds whatever it says.
#[verifier::external_body]
fn time_of_day() -> (r: String)
{
    chrono::Local::now().to_rfc3339()
}

impl World {
    /// The world before the first action, at a time.
    pub fn start(now: u64) -> (r: World)
        ensures
            r@ == (WorldV {
                replies: Seq::empty(),
                pos: 0,
                said: Seq::empty(),
                began: now,
                now,
                stamp: r@.stamp,
                asked: Seq::empty(),
            }),
    {
        let replies: Vec<Reply> = Vec::new();
        let said: Vec<Line> = Vec::new();
        assert(text::views(replies@) =~= Seq::empty());
        assert(text::views(said@) =~= Seq::empty());
        World {
            replies,
            pos: 0,
            said,
            began: now,
            now,
            stamp: time_of_day(),
            asked: Ghost(Seq::empty()),
        }
    }

    /// The world after one more reply, for the verb to be called again.
    pub fn replied(&mut self, r: Reply)
        ensures
            final(self)@ == (WorldV {
                replies: old(self)@.replies.push(r@),
                pos: 0,
                said: Seq::empty(),
                began: old(self)@.began,
                now: old(self)@.began,
                stamp: final(self)@.stamp,
                asked: Seq::empty(),
            }),
    {
        let ghost before = self.replies@;
        self.replies.push(r);
        self.pos = 0;
        self.said = Vec::new();
        self.now = self.began;
        self.stamp = time_of_day();
        self.asked = Ghost(Seq::empty());
        assert(text::views(self.replies@) =~= text::views(before).push(r@));
        assert(text::views(self.said@) =~= Seq::empty());
    }

    fn say(&mut self, l: Line)
        ensures
            final(self)@ == old(self)@.say(l@),
    {
        let ghost before = self.said@;
        self.said.push(l);
        assert(text::views(self.said@) =~= text::views(before).push(l@));
    }

    /// One more line on standard error.
    pub fn note(&mut self, t: String)
        ensures
            final(self)@ == old(self)@.note(t@),
    {
        self.say(Line::Note(t));
    }

    /// One more line on standard output.
    pub fn out(&mut self, t: String)
        ensures
            final(self)@ == old(self)@.out(t@),
    {
        self.say(Line::Out(t));
    }

    /// An action.
    pub fn act(&mut self, a: Act) -> (r: Result<Output, Stop>)
        ensures
            (final(self)@, res(r)) == old(self)@.act(a@),
    {
        self.asked = Ghost(self.asked@.push(a@));
        if self.pos < self.replies.len() {
            let i = self.pos;
            self.pos = i + 1;
            self.said = Vec::new();
            self.now = self.replies[i].at;
            assert(text::views(self.said@) =~= Seq::empty());
            match &self.replies[i].result {
                Ok(o) => Ok(o.clone()),
                Err(e) => Err(Stop::Fail(e.clone())),
            }
        } else {
            Err(Stop::Act(a))
        }
    }
}

} // verus!
