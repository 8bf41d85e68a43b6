//! Questions for a human at a terminal. Every verb that asks does all its
//! asking before it does anything, so an unanswered question never leaves a
//! guest half made. Without a terminal there are no questions: the caller
//! fails with the `config set` command that would have answered.

use vstd::prelude::*;

use crate::num;
use crate::text::{self, Text};
use crate::world::{self, Act, ActV, Stop, StopV, World, WorldV};

verus! {

pub open spec fn interactive_s(w: WorldV) -> (WorldV, Result<bool, StopV>) {
    match w.act(ActV::Terminal) {
        (w, Ok(o)) => (w, Ok(o.status == 1)),
        (w, Err(e)) => (w, Err(e)),
    }
}

/// Whether stdin is a terminal a person can answer on.
pub fn interactive(w: &mut World) -> (r: Result<bool, Stop>)
    ensures
        (final(w)@, world::res(r)) == interactive_s(old(w)@),
{
    match w.act(Act::Terminal) {
        Ok(o) => Ok(o.status == 1),
        Err(e) => Err(e),
    }
}

pub open spec fn read_line_s(w: WorldV, question: Text) -> (WorldV, Result<Text, StopV>) {
    match w.act(ActV::Ask { question }) {
        (w, Err(e)) => (w, Err(world::under("reading the answer"@, e))),
        (w, Ok(o)) => if o.stdout.len() == 0 {
            (w, Err(world::failed("no answer (end of input)"@)))
        } else {
            (w, Ok(text::trimmed(o.stdout)))
        },
    }
}

fn read_line(w: &mut World, question: &str) -> (r: Result<String, Stop>)
    ensures
        (final(w)@, world::res(r)) == read_line_s(old(w)@, question@),
{
    match w.act(Act::Ask { question: question.to_owned() }) {
        Ok(o) => if text::empty(o.stdout.as_str()) {
            Err(Stop::fail("no answer (end of input)".to_owned()))
        } else {
            Ok(text::trim(o.stdout.as_str()))
        },
        Err(e) => Err(e.under("reading the answer".to_owned())),
    }
}

/// A text with spaces before it, so that it is at least so long.
pub open spec fn pad_left(t: Text, n: nat) -> Text
    decreases n - t.len(),
{
    if t.len() >= n {
        t
    } else {
        pad_left(seq![' '] + t, n)
    }
}

/// A text with spaces after it, so that it is at least so long.
pub open spec fn pad_right(t: Text, n: nat) -> Text
    decreases n - t.len(),
{
    if t.len() >= n {
        t
    } else {
        pad_right(t.push(' '), n)
    }
}

/// A text with spaces before it.
pub fn left(t: &str, n: usize) -> (r: String)
    ensures
        r@ == pad_left(t@, n as nat),
{
    let mut s = t.to_owned();
    let mut len: usize = t.unicode_len();
    while len < n
        invariant
            len == s@.len(),
            pad_left(t@, n as nat) == pad_left(s@, n as nat),
        decreases n - len,
    {
        proof {
            reveal_strlit(" ");
        }
        let ghost before = s@;
        s = text::cat(" ", s.as_str());
        assert(s@ =~= seq![' '] + before);
        len = len + 1;
    }
    s
}

/// A text with spaces after it.
pub fn right(t: &str, n: usize) -> (r: String)
    ensures
        r@ == pad_right(t@, n as nat),
{
    let mut s = t.to_owned();
    let mut len: usize = t.unicode_len();
    while len < n
        invariant
            len == s@.len(),
            pad_right(t@, n as nat) == pad_right(s@, n as nat),
        decreases n - len,
    {
        s.push(' ');
        len = len + 1;
    }
    s
}

/// The lines of a numbered list, after the question.
pub open spec fn listed(w: WorldV, items: Seq<Text>) -> WorldV
    decreases items.len(),
{
    if items.len() == 0 {
        w
    } else {
        listed(w, items.drop_last()).note(
            "  "@ + pad_left(num::dec(items.len()), 2) + ") "@ + items.last(),
        )
    }
}

/// Asking until a number of the list is answered.
pub open spec fn answer_s(w: WorldV, n: nat) -> (WorldV, Result<nat, StopV>)
    decreases w.replies.len() - w.pos,
{
    match read_line_s(w, "> "@) {
        (v, Err(e)) => (v, Err(e)),
        (v, Ok(a)) => match num::parsed(a, usize::MAX as nat) {
            Some(x) => if 1 <= x <= n {
                (v, Ok((x - 1) as nat))
            } else {
                answer_s(v.note("a number from 1 to "@ + num::dec(n)), n)
            },
            None => answer_s(v.note("a number from 1 to "@ + num::dec(n)), n),
        },
    }
}

pub open spec fn pick_s(w: WorldV, question: Text, items: Seq<Text>) -> (
    WorldV,
    Result<nat, StopV>,
) {
    if items.len() == 0 {
        (w, Err(world::failed("nothing to choose from"@)))
    } else {
        answer_s(listed(w.note(question), items), items.len())
    }
}

/// The view of an index that a verb gave back.
pub open spec fn res_index(r: Result<usize, Stop>) -> Result<nat, StopV> {
    match r {
        Ok(i) => Ok(i as nat),
        Err(e) => Err(e@),
    }
}

/// One choice from a numbered list; the answer is its place in the list.
pub fn pick(w: &mut World, question: &str, items: &Vec<String>) -> (r: Result<usize, Stop>)
    ensures
        (final(w)@, res_index(r)) == pick_s(old(w)@, question@, text::views(items@)),
        r matches Ok(i) ==> i < items@.len(),
{
    if items.len() == 0 {
        return Err(Stop::fail("nothing to choose from".to_owned()));
    }
    w.note(question.to_owned());
    let ghost all = text::views(items@);
    let ghost start = w@;
    assert(all.take(0) =~= Seq::empty());
    for i in 0..items.len()
        invariant
            all == text::views(items@),
            w@ == listed(start, all.take(i as int)),
    {
        assert(all.take(i + 1).drop_last() =~= all.take(i as int));
        assert(all.take(i + 1).last() == items@[i as int]@);
        let n = num::print(i as u64 + 1);
        w.note(text::cat4("  ", left(n.as_str(), 2).as_str(), ") ", items[i].as_str()));
    }
    assert(all.take(all.len() as int) =~= all);
    let count = items.len();
    loop
        invariant
            count == items@.len(),
            all == text::views(items@),
            count > 0,
            answer_s(w@, all.len()) == pick_s(old(w)@, question@, all),
        decreases w@.replies.len() - w@.pos,
    {
        let a = match read_line(w, "> ") {
            Ok(a) => a,
            Err(e) => return Err(e),
        };
        if let Some(x) = num::parse(a.as_str(), usize::MAX as u64) {
            if 1 <= x && x <= count as u64 {
                return Ok((x - 1) as usize);
            }
        }
        w.note(text::cat("a number from 1 to ", num::print(count as u64).as_str()));
    }
}

/// What an answer to a yes/no question means.
pub open spec fn means_yes(answer: Text, default: bool) -> bool {
    let a = text::lowered(answer);
    if a == ""@ {
        default
    } else {
        a == "y"@ || a == "yes"@
    }
}

pub open spec fn yes_no_s(w: WorldV, question: Text, default: bool) -> (
    WorldV,
    Result<bool, StopV>,
) {
    match read_line_s(
        w,
        question + " ["@ + (if default {
            "Y/n"@
        } else {
            "y/N"@
        }) + "] "@,
    ) {
        (w, Err(e)) => (w, Err(e)),
        (w, Ok(a)) => (w, Ok(means_yes(a, default))),
    }
}

/// A yes/no question; `default` is the answer to an empty line.
pub fn yes_no(w: &mut World, question: &str, default: bool) -> (r: Result<bool, Stop>)
    ensures
        (final(w)@, world::res(r)) == yes_no_s(old(w)@, question@, default),
{
    let q = text::cat4(
        question,
        " [",
        if default {
            "Y/n"
        } else {
            "y/N"
        },
        "] ",
    );
    match read_line(w, q.as_str()) {
        Ok(a) => {
            let a = text::lower_case(a.as_str());
            if text::same(a.as_str(), "") {
                Ok(default)
            } else {
                Ok(text::same(a.as_str(), "y") || text::same(a.as_str(), "yes"))
            }
        },
        Err(e) => Err(e),
    }
}

} // verus!
