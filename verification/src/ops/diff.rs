//! `diff`: what `apply` would do, without doing it. The pct half prints the
//! plan; the docker half prints a line diff of the compose file the guest
//! has against the one the document renders to. Like every verb but `new`,
//! it refuses a stopped guest.

use vstd::prelude::*;

use crate::ops::{self, Ctx, CtxV, Guest, GuestV, apply};
use crate::pct;
use crate::plan::{self, OpV, Plan};
use crate::stack::{self, COMPOSE_FILE, FactsV};
use crate::text::{self, Text};
use crate::world::{self, Stop, StopV, World, WorldV};

verus! {

// ---------------------------------------------------------------------------
// A line diff.

/// Whether a sequence can be had from another by leaving items out.
pub open spec fn is_sub<T>(s: Seq<T>, a: Seq<T>) -> bool
    decreases a.len(),
{
    if s.len() == 0 {
        true
    } else if a.len() == 0 {
        false
    } else {
        (s[0] == a[0] && is_sub(s.skip(1), a.skip(1))) || is_sub(s, a.skip(1))
    }
}

/// The length of a longest common subsequence.
pub open spec fn lcs<T>(a: Seq<T>, b: Seq<T>) -> nat
    decreases a.len() + b.len(),
{
    if a.len() == 0 || b.len() == 0 {
        0
    } else if a[0] == b[0] {
        1 + lcs(a.skip(1), b.skip(1))
    } else if lcs(a.skip(1), b) >= lcs(a, b.skip(1)) {
        lcs(a.skip(1), b)
    } else {
        lcs(a, b.skip(1))
    }
}

proof fn lemma_sub_tail<T>(s: Seq<T>, a: Seq<T>)
    requires
        is_sub(s, a),
        s.len() > 0,
    ensures
        is_sub(s.skip(1), a),
    decreases a.len(),
{
    if !(s[0] == a[0] && is_sub(s.skip(1), a.skip(1))) {
        lemma_sub_tail(s, a.skip(1));
    }
}

proof fn lemma_sub_tails<T>(s: Seq<T>, a: Seq<T>)
    requires
        is_sub(s, a),
        s.len() > 0,
    ensures
        a.len() > 0,
        is_sub(s.skip(1), a.skip(1)),
{
    if !(s[0] == a[0] && is_sub(s.skip(1), a.skip(1))) {
        lemma_sub_tail(s, a.skip(1));
    }
}

/// No common subsequence is longer than [`lcs`] says.
pub proof fn law_lcs_is_longest<T>(s: Seq<T>, a: Seq<T>, b: Seq<T>)
    requires
        is_sub(s, a),
        is_sub(s, b),
    ensures
        s.len() <= lcs(a, b),
    decreases a.len() + b.len(),
{
    if s.len() > 0 {
        if a[0] == b[0] {
            lemma_sub_tails(s, a);
            lemma_sub_tails(s, b);
            law_lcs_is_longest(s.skip(1), a.skip(1), b.skip(1));
        } else if s[0] != a[0] {
            law_lcs_is_longest(s, a.skip(1), b);
        } else {
            law_lcs_is_longest(s, a, b.skip(1));
        }
    }
}

/// A line of a diff: kept, only in the first text, or only in the second.
pub enum EditV {
    Keep(Text),
    Drop(Text),
    Put(Text),
}

/// The diff of two lists of lines.
pub open spec fn edits(a: Seq<Text>, b: Seq<Text>) -> Seq<EditV>
    decreases a.len() + b.len(),
{
    if a.len() == 0 && b.len() == 0 {
        Seq::empty()
    } else if a.len() > 0 && b.len() > 0 && a[0] == b[0] {
        seq![EditV::Keep(a[0])] + edits(a.skip(1), b.skip(1))
    } else if a.len() > 0 && (b.len() == 0 || lcs(a.skip(1), b) >= lcs(a, b.skip(1))) {
        seq![EditV::Drop(a[0])] + edits(a.skip(1), b)
    } else {
        seq![EditV::Put(b[0])] + edits(a, b.skip(1))
    }
}

/// The lines of the first text that a diff shows.
pub open spec fn before(e: Seq<EditV>) -> Seq<Text>
    decreases e.len(),
{
    if e.len() == 0 {
        Seq::empty()
    } else {
        (match e[0] {
            EditV::Keep(t) => seq![t],
            EditV::Drop(t) => seq![t],
            EditV::Put(_) => Seq::empty(),
        }) + before(e.skip(1))
    }
}

/// The lines of the second text that a diff shows.
pub open spec fn after(e: Seq<EditV>) -> Seq<Text>
    decreases e.len(),
{
    if e.len() == 0 {
        Seq::empty()
    } else {
        (match e[0] {
            EditV::Keep(t) => seq![t],
            EditV::Put(t) => seq![t],
            EditV::Drop(_) => Seq::empty(),
        }) + after(e.skip(1))
    }
}

/// The lines that a diff keeps.
pub open spec fn kept(e: Seq<EditV>) -> Seq<Text>
    decreases e.len(),
{
    if e.len() == 0 {
        Seq::empty()
    } else {
        (match e[0] {
            EditV::Keep(t) => seq![t],
            _ => Seq::empty(),
        }) + kept(e.skip(1))
    }
}

/// A diff shows every line of both texts, in order, and keeps as many lines
/// as any common subsequence has.
pub proof fn law_diff_shows_both(a: Seq<Text>, b: Seq<Text>)
    ensures
        before(edits(a, b)) == a,
        after(edits(a, b)) == b,
        kept(edits(a, b)).len() == lcs(a, b),
    decreases a.len() + b.len(),
{
    let e = edits(a, b);
    if a.len() == 0 && b.len() == 0 {
        assert(before(e) =~= a);
        assert(after(e) =~= b);
    } else if a.len() > 0 && b.len() > 0 && a[0] == b[0] {
        law_diff_shows_both(a.skip(1), b.skip(1));
        assert(e.skip(1) =~= edits(a.skip(1), b.skip(1)));
        assert(before(e) =~= a);
        assert(after(e) =~= b);
    } else if a.len() > 0 && (b.len() == 0 || lcs(a.skip(1), b) >= lcs(a, b.skip(1))) {
        law_diff_shows_both(a.skip(1), b);
        assert(e.skip(1) =~= edits(a.skip(1), b));
        assert(before(e) =~= a);
        assert(after(e) =~= b);
    } else {
        law_diff_shows_both(a, b.skip(1));
        assert(e.skip(1) =~= edits(a, b.skip(1)));
        assert(before(e) =~= a);
        assert(after(e) =~= b);
    }
}

/// The line of a diff, as printed.
pub open spec fn edit_line(e: EditV) -> Text {
    match e {
        EditV::Keep(t) => "  "@ + t,
        EditV::Drop(t) => "- "@ + t,
        EditV::Put(t) => "+ "@ + t,
    }
}

/// The diff of two texts, line by line, as printed.
pub open spec fn diff_lines(a: Text, b: Text) -> Seq<Text> {
    edits(text::lines_of(a), text::lines_of(b)).map_values(|e: EditV| edit_line(e))
}

/// Lines, each with its end.
pub open spec fn ended(l: Seq<Text>) -> Text
    decreases l.len(),
{
    if l.len() == 0 {
        Seq::empty()
    } else {
        ended(l.drop_last()) + l.last() + "\n"@
    }
}

proof fn lemma_lcs_bound<T>(a: Seq<T>, b: Seq<T>)
    ensures
        lcs(a, b) <= a.len(),
        lcs(a, b) <= b.len(),
    decreases a.len() + b.len(),
{
    if a.len() > 0 && b.len() > 0 {
        lemma_lcs_bound(a.skip(1), b.skip(1));
        lemma_lcs_bound(a.skip(1), b);
        lemma_lcs_bound(a, b.skip(1));
    }
}

/// Whether a row holds, from the end of `b` on, the common lengths of `a`
/// with every tail of `b`.
spec fn is_row(r: Seq<usize>, a: Seq<Text>, b: Seq<Text>) -> bool {
    r.len() == b.len() + 1 && forall|k: int|
        0 <= k <= b.len() ==> #[trigger] r[k] == lcs(a, b.skip(b.len() - k))
}

fn row(line: &str, b: &Vec<String>, below: &Vec<usize>, Ghost(a): Ghost<Seq<Text>>) -> (r: Vec<
    usize,
>)
    requires
        a.len() > 0,
        a[0] == line@,
        is_row(below@, a.skip(1), text::views(b@)),
    ensures
        is_row(r@, a, text::views(b@)),
{
    let m = b.len();
    let ghost bs = text::views(b@);
    let mut r: Vec<usize> = Vec::new();
    r.push(0);
    for k in 0..m
        invariant
            m == b@.len(),
            bs == text::views(b@),
            a.len() > 0,
            a[0] == line@,
            is_row(below@, a.skip(1), bs),
            r@.len() == k + 1,
            forall|x: int| 0 <= x <= k ==> #[trigger] r@[x] == lcs(a, bs.skip(m - x)),
    {
        let j = m - 1 - k;
        let ghost tail = bs.skip(j as int);
        assert(tail[0] == b@[j as int]@);
        assert(tail.skip(1) =~= bs.skip(m - k));
        assert(below@[k as int] == lcs(a.skip(1), bs.skip(m - k)));
        assert(below@[k + 1] == lcs(a.skip(1), tail));
        proof {
            lemma_lcs_bound(a.skip(1), bs.skip(m - k));
        }
        let x = if text::same(line, b[j].as_str()) {
            below[k] + 1
        } else if below[k + 1] >= r[k] {
            below[k + 1]
        } else {
            r[k]
        };
        assert(x == lcs(a, tail));
        r.push(x);
    }
    r
}

/// The rows of common lengths, from the end of `a` on.
fn rows(a: &Vec<String>, b: &Vec<String>) -> (t: Vec<Vec<usize>>)
    ensures
        t@.len() == a@.len() + 1,
        forall|l: int|
            0 <= l <= a@.len() ==> is_row(
                (#[trigger] t@[l])@,
                text::views(a@).skip(a@.len() - l),
                text::views(b@),
            ),
{
    let n = a.len();
    let m = b.len();
    let ghost xs = text::views(a@);
    let ghost ys = text::views(b@);
    let mut first: Vec<usize> = Vec::new();
    first.push(0);
    for k in 0..m
        invariant
            m == b@.len(),
            first@.len() == k + 1,
            forall|x: int| 0 <= x <= k ==> first@[x] == 0,
    {
        first.push(0);
    }
    assert(is_row(first@, xs.skip(n as int), ys));
    let mut t: Vec<Vec<usize>> = Vec::new();
    t.push(first);
    for l in 0..n
        invariant
            n == a@.len(),
            xs == text::views(a@),
            ys == text::views(b@),
            t@.len() == l + 1,
            forall|x: int| 0 <= x <= l ==> is_row((#[trigger] t@[x])@, xs.skip(n - x), ys),
    {
        let i = n - 1 - l;
        let ghost rest = xs.skip(i as int);
        assert(rest[0] == a@[i as int]@);
        assert(rest.skip(1) =~= xs.skip(n - l));
        let r = row(a[i].as_str(), b, &t[l], Ghost(rest));
        t.push(r);
    }
    t
}

/// The diff of two lists of lines, as printed.
fn compared(a: &Vec<String>, b: &Vec<String>) -> (r: Vec<String>)
    ensures
        text::views(r@) == edits(text::views(a@), text::views(b@)).map_values(
            |e: EditV| edit_line(e),
        ),
{
    let n = a.len();
    let m = b.len();
    let ghost xs = text::views(a@);
    let ghost ys = text::views(b@);
    let t = rows(a, b);
    let mut out: Vec<String> = Vec::new();
    let mut i: usize = 0;
    let mut j: usize = 0;
    let ghost whole = edits(xs, ys).map_values(|e: EditV| edit_line(e));
    let ghost mut left = edits(xs, ys);
    assert(xs.skip(0) =~= xs);
    assert(ys.skip(0) =~= ys);
    assert(text::views(out@) + left.map_values(|e: EditV| edit_line(e)) =~= whole);
    while i < n || j < m
        invariant
            n == a@.len(),
            m == b@.len(),
            i <= n,
            j <= m,
            xs == text::views(a@),
            ys == text::views(b@),
            t@.len() == n + 1,
            forall|l: int| 0 <= l <= n ==> is_row((#[trigger] t@[l])@, xs.skip(n - l), ys),
            left == edits(xs.skip(i as int), ys.skip(j as int)),
            text::views(out@) + left.map_values(|e: EditV| edit_line(e)) == whole,
        decreases (n - i) + (m - j),
    {
        let ghost x = xs.skip(i as int);
        let ghost y = ys.skip(j as int);
        let ghost said = text::views(out@);
        let ghost now = left;
        let ghost prior = out@;
        assert(i < n ==> x[0] == a@[i as int]@);
        assert(j < m ==> y[0] == b@[j as int]@);
        assert(i < n ==> x.skip(1) =~= xs.skip(i + 1));
        assert(j < m ==> y.skip(1) =~= ys.skip(j + 1));
        if i < n && j < m && text::same(a[i].as_str(), b[j].as_str()) {
            out.push(text::cat("  ", a[i].as_str()));
            i = i + 1;
            j = j + 1;
        } else {
            let drop = if i < n {
                if j == m {
                    true
                } else {
                    assert(is_row(t@[n - i - 1]@, xs.skip(i + 1), ys));
                    assert(is_row(t@[n - i]@, x, ys));
                    assert(t@[n - i - 1]@[m - j] == lcs(x.skip(1), y));
                    assert(t@[n - i]@[m - j - 1] == lcs(x, y.skip(1)));
                    t[n - i - 1][m - j] >= t[n - i][m - j - 1]
                }
            } else {
                false
            };
            if drop {
                out.push(text::cat("- ", a[i].as_str()));
                i = i + 1;
            } else {
                out.push(text::cat("+ ", b[j].as_str()));
                j = j + 1;
            }
        }
        proof {
            left = edits(xs.skip(i as int), ys.skip(j as int));
            assert(now.len() > 0);
            assert(left =~= now.skip(1));
            let line = edit_line(now[0]);
            assert(out@.last()@ == line);
            assert(text::views(out@) =~= said.push(line));
            let f = |e: EditV| edit_line(e);
            assert(now.map_values(f) =~= seq![line] + left.map_values(f));
            assert(said.push(line) + left.map_values(f) =~= said + now.map_values(f));
        }
    }
    assert(left.len() == 0);
    assert(text::views(out@) =~= whole);
    out
}

/// The diff of two texts, line by line, as printed.
pub fn changed_lines(a: &str, b: &str) -> (r: Vec<String>)
    ensures
        text::views(r@) == diff_lines(a@, b@),
{
    compared(&text::lines(a), &text::lines(b))
}

/// A plain line diff, `-`/`+`/` ` prefixed, by longest common subsequence.
/// Compose files are small, so the quadratic table is fine.
pub fn line_diff(a: &str, b: &str) -> (r: String)
    ensures
        r@ == ended(diff_lines(a@, b@)),
{
    let lines = changed_lines(a, b);
    let ghost all = text::views(lines@);
    let mut out = String::new();
    assert(all.take(0) =~= Seq::empty());
    assert(out@ =~= Seq::<char>::empty());
    for i in 0..lines.len()
        invariant
            all == text::views(lines@),
            out@ == ended(all.take(i as int)),
    {
        assert(all.take(i + 1).drop_last() =~= all.take(i as int));
        assert(all.take(i + 1).last() == lines@[i as int]@);
        out = text::cat3(out.as_str(), lines[i].as_str(), "\n");
    }
    assert(all.take(all.len() as int) =~= all);
    out
}

// ---------------------------------------------------------------------------
// The verbs.

/// Lines on standard output, each after the same words.
pub open spec fn listed(w: WorldV, before: Text, l: Seq<Text>) -> WorldV
    decreases l.len(),
{
    if l.len() == 0 {
        w
    } else {
        listed(w, before, l.drop_last()).out(before + l.last())
    }
}

/// The operations of a plan, as printed.
pub open spec fn ops_shown(ops: Seq<OpV>) -> Seq<Text> {
    ops.map_values(|o: OpV| plan::op_shown(o))
}

pub open spec fn pct_diff_guest_s(w: WorldV, c: CtxV, g: GuestV) -> (WorldV, Result<(), StopV>) {
    match ops::require_running_s(w, c, g.config.vmid) {
        (w, Err(e)) => (w, Err(e)),
        (w, Ok(_)) => match apply::planned(c, g) {
            Err(e) => (w, Err(StopV::Fail(e))),
            Ok(p) => {
                let w = listed(w, "note: "@, p.notes);
                if p.ops.len() == 0 {
                    (w.out("pct: up to date"@), Ok(()))
                } else {
                    (listed(w, "pct: "@, ops_shown(p.ops)), Ok(()))
                }
            },
        },
    }
}

/// What the facts say of the document.
pub open spec fn facts_line(f: Option<FactsV>, digest: Text) -> Text {
    match f {
        Some(f) => if f.digest == digest {
            "docker: document unchanged since last apply ("@ + f.applied_at + ")"@
        } else {
            "docker: document changed since last apply ("@ + f.applied_at + ")"@
        },
        None => "docker: never applied"@,
    }
}

/// What is said of the file that the guest has and the one that it should
/// have.
pub open spec fn file_lines(w: WorldV, have: Text, want: Text) -> WorldV {
    if have != want {
        listed(
            w.out("docker: "@ + COMPOSE_FILE@ + " differs:"@),
            Seq::empty(),
            diff_lines(have, want),
        )
    } else {
        w.out("docker: "@ + COMPOSE_FILE@ + " up to date"@)
    }
}

pub open spec fn docker_diff_guest_s(w: WorldV, c: CtxV, g: GuestV) -> (
    WorldV,
    Result<(), StopV>,
) {
    match ops::require_running_s(w, c, g.config.vmid) {
        (w, Err(e)) => (w, Err(e)),
        (w, Ok(_)) => match apply::rendered(c, g) {
            Err(e) => (w, Err(StopV::Fail(e))),
            Ok(want) => match pct::read_file_s(w, g.config.vmid, COMPOSE_FILE@) {
                (w, Err(e)) => (w, Err(e)),
                (w, Ok(have)) => match stack::read_facts_s(w, g.config.vmid) {
                    (w, Err(e)) => (w, Err(e)),
                    (w, Ok(f)) => (
                        file_lines(
                            w.out(facts_line(f, g.read.digest)),
                            have.unwrap_or(Seq::empty()),
                            want,
                        ),
                        Ok(()),
                    ),
                },
            },
        },
    }
}

pub open spec fn pct_diff_s(w: WorldV, c: CtxV, vmid: u32) -> (WorldV, Result<(), StopV>) {
    match ops::load_s(w, c, vmid) {
        (w, Err(e)) => (w, Err(e)),
        (w, Ok(g)) => pct_diff_guest_s(w, c, g),
    }
}

pub open spec fn docker_diff_s(w: WorldV, c: CtxV, vmid: u32) -> (WorldV, Result<(), StopV>) {
    match ops::load_s(w, c, vmid) {
        (w, Err(e)) => (w, Err(e)),
        (w, Ok(g)) => docker_diff_guest_s(w, c, g),
    }
}

pub open spec fn diff_s(w: WorldV, c: CtxV, vmid: u32) -> (WorldV, Result<(), StopV>) {
    match ops::load_s(w, c, vmid) {
        (w, Err(e)) => (w, Err(e)),
        (w, Ok(g)) => match pct_diff_guest_s(w, c, g) {
            (w, Err(e)) => (w, Err(e)),
            (w, Ok(_)) => docker_diff_guest_s(w, c, g),
        },
    }
}

fn print_lines(w: &mut World, before: &str, l: &Vec<String>)
    ensures
        final(w)@ == listed(old(w)@, before@, text::views(l@)),
{
    let ghost all = text::views(l@);
    assert(all.take(0) =~= Seq::empty());
    for i in 0..l.len()
        invariant
            all == text::views(l@),
            w@ == listed(old(w)@, before@, all.take(i as int)),
    {
        assert(all.take(i + 1).drop_last() =~= all.take(i as int));
        assert(all.take(i + 1).last() == l@[i as int]@);
        w.out(text::cat(before, l[i].as_str()));
    }
    assert(all.take(all.len() as int) =~= all);
}

fn shown(p: &Plan) -> (r: Vec<String>)
    ensures
        text::views(r@) == ops_shown(p@.ops),
{
    let mut out: Vec<String> = Vec::new();
    let ghost all = ops_shown(p@.ops);
    assert(text::views(out@) =~= all.take(0));
    for i in 0..p.ops.len()
        invariant
            all == ops_shown(p@.ops),
            text::views(out@) == all.take(i as int),
    {
        let ghost prior = out@;
        assert(p@.ops[i as int] == p.ops@[i as int]@);
        out.push(p.ops[i].to_string());
        assert(all.take(i + 1) =~= all.take(i as int).push(all[i as int]));
        assert(text::views(out@) =~= text::views(prior).push(all[i as int]));
    }
    assert(all.take(all.len() as int) =~= all);
    out
}

pub fn pct_diff(w: &mut World, ctx: &Ctx, vmid: u32) -> (r: Result<(), Stop>)
    ensures
        (final(w)@, world::res(r)) == pct_diff_s(old(w)@, ctx@, vmid),
{
    match ops::load(w, ctx, vmid) {
        Ok(g) => pct_diff_guest(w, ctx, &g),
        Err(e) => Err(e),
    }
}

pub fn pct_diff_guest(w: &mut World, ctx: &Ctx, g: &Guest) -> (r: Result<(), Stop>)
    ensures
        (final(w)@, world::res(r)) == pct_diff_guest_s(old(w)@, ctx@, g@),
{
    match ops::require_running(w, ctx, g.vmid()) {
        Ok(_) => {},
        Err(e) => return Err(e),
    }
    let p = match apply::pct_plan(ctx, g) {
        Ok(p) => p,
        Err(e) => return Err(Stop::Fail(e)),
    };
    print_lines(w, "note: ", &p.notes);
    if p.is_empty() {
        w.out("pct: up to date".to_owned());
    } else {
        print_lines(w, "pct: ", &shown(&p));
    }
    Ok(())
}

pub fn docker_diff(w: &mut World, ctx: &Ctx, vmid: u32) -> (r: Result<(), Stop>)
    ensures
        (final(w)@, world::res(r)) == docker_diff_s(old(w)@, ctx@, vmid),
{
    match ops::load(w, ctx, vmid) {
        Ok(g) => docker_diff_guest(w, ctx, &g),
        Err(e) => Err(e),
    }
}

pub fn docker_diff_guest(w: &mut World, ctx: &Ctx, g: &Guest) -> (r: Result<(), Stop>)
    ensures
        (final(w)@, world::res(r)) == docker_diff_guest_s(old(w)@, ctx@, g@),
{
    let vmid = g.vmid();
    match ops::require_running(w, ctx, vmid) {
        Ok(_) => {},
        Err(e) => return Err(e),
    }
    let want = match apply::render(ctx, g) {
        Ok(t) => t,
        Err(e) => return Err(Stop::Fail(e)),
    };
    let have = match stack::read_compose(w, vmid) {
        Ok(Some(t)) => t,
        Ok(None) => {
            let s = String::new();
            assert(s@ =~= Seq::<char>::empty());
            s
        },
        Err(e) => return Err(e),
    };
    let line = match stack::read_facts(w, vmid) {
        Ok(Some(f)) => if text::same(f.digest.as_str(), g.read.digest.as_str()) {
            text::cat3(
                "docker: document unchanged since last apply (",
                f.applied_at.as_str(),
                ")",
            )
        } else {
            text::cat3(
                "docker: document changed since last apply (",
                f.applied_at.as_str(),
                ")",
            )
        },
        Ok(None) => "docker: never applied".to_owned(),
        Err(e) => return Err(e),
    };
    w.out(line);
    if !text::same(have.as_str(), want.as_str()) {
        w.out(text::cat3("docker: ", COMPOSE_FILE, " differs:"));
        let l = changed_lines(have.as_str(), want.as_str());
        proof {
            reveal_strlit("");
            assert(""@ =~= Seq::<char>::empty());
        }
        print_lines(w, "", &l);
    } else {
        w.out(text::cat3("docker: ", COMPOSE_FILE, " up to date"));
    }
    Ok(())
}

pub fn diff(w: &mut World, ctx: &Ctx, vmid: u32) -> (r: Result<(), Stop>)
    ensures
        (final(w)@, world::res(r)) == diff_s(old(w)@, ctx@, vmid),
{
    let g = match ops::load(w, ctx, vmid) {
        Ok(g) => g,
        Err(e) => return Err(e),
    };
    match pct_diff_guest(w, ctx, &g) {
        Ok(_) => docker_diff_guest(w, ctx, &g),
        Err(e) => Err(e),
    }
}

} // verus!
