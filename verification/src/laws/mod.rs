//! What holds of the verbs as a whole, told by what they ask for: the commands
//! in the order in which they are run, the files written and what they hold,
//! and how that hangs together with the document, the config and the replies.

pub mod choices;
pub mod create;
pub mod document;
pub mod found;
pub mod guest;
pub mod planned;
pub mod reach;
pub mod render;
pub mod report;
pub mod verbs;
pub mod watch;
pub mod words;
pub mod wrapper;

use vstd::prelude::*;

use crate::num;
use crate::text::Text;
use crate::world::{ActV, CallV, Shape, StopV, WorldV};

verus! {

/// Whether every action asked for so far has had its reply, as at the start.
pub open spec fn settled(w: WorldV) -> bool {
    w.asked.len() == w.pos && w.pos <= w.replies.len()
}

/// Whether a world is another one further on: nothing asked for is forgotten,
/// each action but one that is still to be performed has had its reply, and
/// that one is the last.
pub open spec fn further<T>(w: WorldV, v: WorldV, r: Result<T, StopV>) -> bool {
    &&& v.replies == w.replies
    &&& w.asked.len() <= v.asked.len()
    &&& forall|i: int| 0 <= i < w.asked.len() ==> #[trigger] v.asked[i] == w.asked[i]
    &&& match r {
        Err(StopV::Act(a)) => v.asked.len() == v.pos + 1 && v.pos == v.replies.len()
            && v.asked.last() == a,
        _ => settled(v),
    }
}

/// Whether an action was performed, and its command exited with 0.
pub open spec fn went_well(v: WorldV, i: int) -> bool {
    0 <= i < v.replies.len() && (v.replies[i].result matches Ok(o) && o.status == 0)
}

/// A command with its output captured.
pub open spec fn captured(program: Text, args: Seq<Text>, within: u64) -> ActV {
    ActV::Run(CallV { program, args, within: Some(within), shape: Shape::Capture })
}

/// A shell line inside a guest, with its output captured.
pub open spec fn sh(vmid: u32, script: Text) -> ActV {
    captured(
        "pct"@,
        seq!["exec"@, num::dec(vmid as nat), "--"@, "/bin/sh"@, "-c"@, script],
        120,
    )
}

/// A shell line inside a guest that may take its time, with its output on the
/// terminal.
pub open spec fn long_sh(vmid: u32, script: Text) -> ActV {
    ActV::Run(
        CallV {
            program: "pct"@,
            args: seq!["exec"@, num::dec(vmid as nat), "--"@, "/bin/sh"@, "-c"@, script],
            within: Some(1800),
            shape: Shape::Stream,
        },
    )
}

/// `docker compose up` in a guest.
pub open spec fn compose_up(vmid: u32) -> ActV {
    long_sh(vmid, "cd /opt/stack && docker compose up -d --remove-orphans"@)
}

/// `docker compose pull` in a guest.
pub open spec fn compose_pull(vmid: u32) -> ActV {
    long_sh(vmid, "cd /opt/stack && docker compose pull"@)
}

/// Whether a text stands somewhere in another.
pub open spec fn part_of(part: Text, s: Text) -> bool {
    exists|i: int| 0 <= i <= s.len() && part.is_prefix_of(#[trigger] s.skip(i))
}

/// What stands in a text stands in what it is the beginning of.
pub proof fn lemma_part_of_more(part: Text, s: Text, rest: Text)
    requires
        part_of(part, s),
    ensures
        part_of(part, s + rest),
{
    let i = choose|i: int| 0 <= i <= s.len() && part.is_prefix_of(#[trigger] s.skip(i));
    let t = (s + rest).skip(i);
    assert(t =~= s.skip(i) + rest);
    assert(t.take(part.len() as int) =~= s.skip(i).take(part.len() as int));
}

/// The end of a text stands in it.
pub proof fn lemma_part_at_end(s: Text, part: Text)
    ensures
        part_of(part, s + part),
{
    let t = (s + part).skip(s.len() as int);
    assert(t =~= part);
    assert(t.take(part.len() as int) =~= part);
}

/// Whether what one world asked for is the beginning of what another did.
pub open spec fn begins(u: WorldV, v: WorldV) -> bool {
    u.asked.len() <= v.asked.len() && forall|i: int|
        0 <= i < u.asked.len() ==> #[trigger] v.asked[i] == u.asked[i]
}

pub proof fn lemma_begins(u: WorldV, v: WorldV, x: WorldV)
    requires
        begins(u, v),
        begins(v, x),
    ensures
        begins(u, x),
{
    assert forall|i: int| 0 <= i < u.asked.len() implies #[trigger] x.asked[i] == u.asked[i] by {
        assert(v.asked[i] == u.asked[i]);
    }
}

/// A world further on from one that is further on.
pub proof fn lemma_further<A, B>(
    w: WorldV,
    u: WorldV,
    a: Result<A, StopV>,
    v: WorldV,
    b: Result<B, StopV>,
)
    requires
        further(w, u, a),
        !(a matches Err(StopV::Act(_))),
        further(u, v, b),
    ensures
        further(w, v, b),
        u.asked.len() == u.pos,
{
    assert forall|i: int| 0 <= i < w.asked.len() implies #[trigger] v.asked[i] == w.asked[i] by {
        assert(u.asked[i] == w.asked[i]);
    }
}

} // verus!
