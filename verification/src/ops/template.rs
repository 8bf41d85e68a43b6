//! Which template `new` unpacks: the newest upstream Debian template on the
//! chosen template storage, downloaded through `pveam` if there is none yet.
//! Docker is installed afterwards by `provision`, every time, so there is no
//! docker-ready template to build or keep fresh.

use vstd::prelude::*;

use crate::cmd;
use crate::json::{self, Json, JsonV};
use crate::ops::{Ctx, CtxV};
use crate::table;
use crate::text::{self, Text};
use crate::world::{self, Call, Stop, StopV, World, WorldV};

verus! {

/// Whether a template file name is for an architecture.
pub open spec fn is_for_arch(name: Text, arch: Text) -> bool {
    text::contains(name, "_"@ + arch + "."@)
}

/// Whether a template file name is for this node's architecture.
pub fn for_arch(name: &str, arch: &str) -> (r: bool)
    ensures
        r == is_for_arch(name@, arch@),
{
    text::has(name, text::cat3("_", arch, ".").as_str())
}

/// What stands after the last slash of a volid.
pub open spec fn file_name(id: Text) -> Text {
    text::pieces(id, '/').last()
}

/// Whether a template file name begins with a prefix and is for an
/// architecture.
pub open spec fn fits(name: Text, prefix: Text, arch: Text) -> bool {
    prefix.is_prefix_of(name) && is_for_arch(name, arch)
}

/// The later of two names, the second one of equals.
pub open spec fn later(best: Option<Text>, x: Text) -> Option<Text> {
    match best {
        Some(b) => if table::below(x, b) {
            Some(b)
        } else {
            Some(x)
        },
        None => Some(x),
    }
}

/// The last in order of the volids whose file names fit.
pub open spec fn newest_of(rows: Seq<JsonV>, prefix: Text, arch: Text) -> Option<Text>
    decreases rows.len(),
{
    if rows.len() == 0 {
        None
    } else {
        let best = newest_of(rows.drop_last(), prefix, arch);
        match json::get_str(rows.last(), "volid"@) {
            Some(id) => if fits(file_name(id), prefix, arch) {
                later(best, id)
            } else {
                best
            },
            None => best,
        }
    }
}

/// The newest template in a storage's listing.
pub open spec fn newest_in(v: JsonV, prefix: Text, arch: Text) -> Option<Text> {
    match v {
        JsonV::List(rows, _) => newest_of(rows, prefix, arch),
        _ => None,
    }
}

/// The words of a line, between white space.
pub open spec fn words(s: Text) -> Seq<Text>
    decreases s.len(),
{
    if s.len() == 0 {
        Seq::empty()
    } else {
        let w = words(s.drop_last());
        if text::is_space(s.last()) {
            w
        } else if s.len() == 1 || text::is_space(s[s.len() - 2]) {
            w.push(seq![s.last()])
        } else {
            w.drop_last().push(w.last().push(s.last()))
        }
    }
}

/// The last in order of the second words of the lines that fit.
pub open spec fn newest_listed(lines: Seq<Text>, prefix: Text, arch: Text) -> Option<Text>
    decreases lines.len(),
{
    if lines.len() == 0 {
        None
    } else {
        let best = newest_listed(lines.drop_last(), prefix, arch);
        let w = words(lines.last());
        if w.len() > 1 && fits(w[1], prefix, arch) {
            later(best, w[1])
        } else {
            best
        }
    }
}

pub open spec fn arch_s(w: WorldV) -> (WorldV, Result<Text, StopV>) {
    match cmd::run_s(w, world::program("dpkg"@).arg("--print-architecture"@)) {
        (w, Err(e)) => (w, Err(e)),
        (w, Ok(o)) => if text::trimmed(o.stdout).len() == 0 {
            (w, Err(world::failed("cannot determine the architecture"@)))
        } else {
            (w, Ok(text::trimmed(o.stdout)))
        },
    }
}

pub open spec fn newest_vztmpl_s(w: WorldV, c: CtxV, storage: Text, prefix: Text) -> (
    WorldV,
    Result<Option<Text>, StopV>,
) {
    match arch_s(w) {
        (w, Err(e)) => (w, Err(e)),
        (w, Ok(arch)) => match cmd::pvesh_get_s(
            w,
            "/nodes/"@ + c.node + "/storage/"@ + storage + "/content"@,
            seq!["--content"@, "vztmpl"@],
        ) {
            (w, Err(e)) => (w, Err(e)),
            (w, Ok(v)) => (w, Ok(newest_in(v, prefix, arch))),
        },
    }
}

pub open spec fn download_base_s(w: WorldV, c: CtxV, storage: Text) -> (
    WorldV,
    Result<Text, StopV>,
) {
    let base = c.config.template.base;
    match arch_s(w) {
        (w, Err(e)) => (w, Err(e)),
        (w, Ok(arch)) => match cmd::run_within_s(
            w.note("template: fetching the "@ + base + " template list"@),
            world::program("pveam"@).arg("update"@),
            cmd::LONG_TIMEOUT,
        ) {
            (w, Err(e)) => (w, Err(e)),
            (w, Ok(_)) => match cmd::run_s(
                w,
                world::program("pveam"@).arg("available"@).arg("--section"@).arg("system"@),
            ) {
                (w, Err(e)) => (w, Err(e)),
                (w, Ok(o)) => match newest_listed(
                    text::lines_of(o.stdout),
                    base + "_"@,
                    arch,
                ) {
                    None => (
                        w,
                        Err(
                            world::failed(
                                "no upstream "@ + arch + " template starts with "@ + base
                                    + "_ (pveam available)"@,
                            ),
                        ),
                    ),
                    Some(name) => match cmd::streamed_s(
                        w.note("template: downloading "@ + name + " to "@ + storage),
                        world::program("pveam"@).arg("download"@).arg(storage).arg(
                            name,
                        ).streamed(Some(cmd::LONG_TIMEOUT)),
                    ) {
                        (w, Err(e)) => (w, Err(e)),
                        (w, Ok(_)) => (w, Ok(storage + ":vztmpl/"@ + name)),
                    },
                },
            },
        },
    }
}

/// Whether a template was given as a volid.
pub open spec fn is_volid(t: Text) -> bool {
    text::contains(t, ":vztmpl/"@)
}

pub open spec fn resolve_s(w: WorldV, c: CtxV, storage: Text, explicit: Option<Text>) -> (
    WorldV,
    Result<Text, StopV>,
) {
    match explicit {
        Some(e) => if is_volid(e) {
            (w, Ok(e))
        } else {
            match newest_vztmpl_s(w, c, storage, e) {
                (w, Err(x)) => (w, Err(x)),
                (w, Ok(Some(v))) => (w, Ok(v)),
                (w, Ok(None)) => (
                    w,
                    Err(
                        world::failed(
                            "no template on "@ + storage + " starts with "@ + e,
                        ),
                    ),
                ),
            }
        },
        None => match newest_vztmpl_s(w, c, storage, c.config.template.base + "_"@) {
            (w, Err(x)) => (w, Err(x)),
            (w, Ok(Some(v))) => (w, Ok(v)),
            (w, Ok(None)) => download_base_s(w, c, storage),
        },
    }
}

/// The node's Debian architecture name, as template file names carry it.
pub fn arch(w: &mut World) -> (r: Result<String, Stop>)
    ensures
        (final(w)@, world::res(r)) == arch_s(old(w)@),
{
    match cmd::run(w, Call::new("dpkg").arg("--print-architecture")) {
        Ok(o) => {
            let a = text::trim(o.stdout.as_str());
            if text::empty(a.as_str()) {
                Err(Stop::fail("cannot determine the architecture".to_owned()))
            } else {
                Ok(a)
            }
        },
        Err(e) => Err(e),
    }
}

fn keep_later(best: Option<String>, x: String) -> (r: Option<String>)
    ensures
        text::opt(r) == later(text::opt(best), x@),
{
    match best {
        Some(b) => if table::less(x.as_str(), b.as_str()) {
            Some(b)
        } else {
            Some(x)
        },
        None => Some(x),
    }
}

fn matches_name(name: &str, prefix: &str, arch: &str) -> (r: bool)
    ensures
        r == fits(name@, prefix@, arch@),
{
    text::starts_with(name, prefix) && for_arch(name, arch)
}

/// The newest template in a storage's listing.
pub fn newest(v: &Json, prefix: &str, arch: &str) -> (r: Option<String>)
    ensures
        text::opt(r) == newest_in(v@, prefix@, arch@),
{
    let mut best: Option<String> = None;
    if let Json::List(rows, t) = v {
        proof {
            json::lemma_list(*rows, *t);
        }
        let ghost all = text::views(rows@);
        assert(all.take(0) =~= Seq::empty());
        for i in 0..rows.len()
            invariant
                all == text::views(rows@),
                text::opt(best) == newest_of(all.take(i as int), prefix@, arch@),
        {
            assert(all.take(i + 1).drop_last() =~= all.take(i as int));
            assert(all.take(i + 1).last() == rows@[i as int]@);
            if let Some(id) = rows[i].get_str("volid") {
                let parts = text::split(id.as_str(), '/');
                assert(text::pieces(id@, '/').last() == parts@[parts@.len() - 1]@);
                if matches_name(parts[parts.len() - 1].as_str(), prefix, arch) {
                    best = keep_later(best, id.clone());
                }
            }
        }
        assert(all.take(all.len() as int) =~= all);
    }
    best
}

/// The newest vztmpl on `storage` whose file name starts with `prefix`, for
/// this node's architecture.
pub fn newest_vztmpl(w: &mut World, ctx: &Ctx, storage: &str, prefix: &str) -> (r: Result<
    Option<String>,
    Stop,
>)
    ensures
        (final(w)@, world::res_opt(r)) == newest_vztmpl_s(old(w)@, ctx@, storage@, prefix@),
{
    let arch = match arch(w) {
        Ok(a) => a,
        Err(e) => return Err(e),
    };
    let path = text::cat5("/nodes/", ctx.node.as_str(), "/storage/", storage, "/content");
    let args = vec!["--content".to_owned(), "vztmpl".to_owned()];
    assert(text::views(args@) =~= seq!["--content"@, "vztmpl"@]);
    match cmd::pvesh_get(w, path.as_str(), &args) {
        Ok(v) => Ok(newest(&v, prefix, arch.as_str())),
        Err(e) => Err(e),
    }
}

proof fn lemma_words(s: Text)
    ensures
        s.len() > 0 && !text::is_space(s.last()) ==> words(s).len() > 0,
    decreases s.len(),
{
    if s.len() > 1 {
        lemma_words(s.drop_last());
    }
}

/// The words of a line, between white space.
pub fn split_words(s: &str) -> (r: Vec<String>)
    ensures
        text::views(r@) == words(s@),
{
    let cs = text::chars(s);
    let mut out: Vec<String> = Vec::new();
    assert(text::views(out@) =~= Seq::empty());
    assert(s@.take(0) =~= Seq::empty());
    for i in 0..cs.len()
        invariant
            cs@ == s@,
            text::views(out@) == words(s@.take(i as int)),
    {
        let ghost t = s@.take(i + 1);
        assert(t.drop_last() =~= s@.take(i as int));
        let c = cs[i];
        if !text::space(c) {
            if i == 0 || text::space(cs[i - 1]) {
                let mut x = String::new();
                x.push(c);
                let ghost before = out@;
                assert(x@ =~= seq![c]);
                out.push(x);
                assert(text::views(out@) =~= text::views(before).push(x@));
            } else {
                proof {
                    lemma_words(s@.take(i as int));
                    assert(s@.take(i as int).last() == cs@[i - 1]);
                    assert(t[t.len() - 2] == cs@[i - 1]);
                }
                let ghost before = text::views(out@);
                match out.pop() {
                    Some(x) => {
                        let mut x = x;
                        let ghost y = x@;
                        let ghost front = out@;
                        assert(y == before.last());
                        assert(text::views(front) =~= before.drop_last());
                        x.push(c);
                        out.push(x);
                        assert(text::views(out@) =~= before.drop_last().push(y.push(c)));
                    },
                    None => {},
                }
            }
        }
    }
    assert(s@.take(s@.len() as int) =~= s@);
    out
}

/// The newest template in the listing of `pveam available`.
pub fn newest_available(out: &str, prefix: &str, arch: &str) -> (r: Option<String>)
    ensures
        text::opt(r) == newest_listed(text::lines_of(out@), prefix@, arch@),
{
    let lines = text::lines(out);
    let ghost all = text::lines_of(out@);
    let mut best: Option<String> = None;
    assert(all.take(0) =~= Seq::empty());
    for i in 0..lines.len()
        invariant
            text::views(lines@) == all,
            text::opt(best) == newest_listed(all.take(i as int), prefix@, arch@),
    {
        assert(all.take(i + 1).drop_last() =~= all.take(i as int));
        assert(all.take(i + 1).last() == lines@[i as int]@);
        let ws = split_words(lines[i].as_str());
        if ws.len() > 1 {
            assert(words(lines@[i as int]@)[1] == ws@[1]@);
            if matches_name(ws[1].as_str(), prefix, arch) {
                best = keep_later(best, ws[1].clone());
            }
        }
    }
    assert(all.take(all.len() as int) =~= all);
    best
}

/// Downloads the newest upstream template matching the configured base to
/// `storage`.
pub fn download_base(w: &mut World, ctx: &Ctx, storage: &str) -> (r: Result<String, Stop>)
    ensures
        (final(w)@, world::res(r)) == download_base_s(old(w)@, ctx@, storage@),
{
    let base = ctx.config.template.base.as_str();
    let arch = match arch(w) {
        Ok(a) => a,
        Err(e) => return Err(e),
    };
    w.note(text::cat3("template: fetching the ", base, " template list"));
    match cmd::run_within(w, Call::new("pveam").arg("update"), cmd::LONG_TIMEOUT) {
        Ok(_) => {},
        Err(e) => return Err(e),
    }
    let out = match cmd::run(
        w,
        Call::new("pveam").arg("available").arg("--section").arg("system"),
    ) {
        Ok(o) => o,
        Err(e) => return Err(e),
    };
    let prefix = text::cat(base, "_");
    let name = match newest_available(out.stdout.as_str(), prefix.as_str(), arch.as_str()) {
        Some(n) => n,
        None => return Err(
            Stop::fail(
                text::cat5(
                    "no upstream ",
                    arch.as_str(),
                    " template starts with ",
                    base,
                    "_ (pveam available)",
                ),
            ),
        ),
    };
    w.note(text::cat4("template: downloading ", name.as_str(), " to ", storage));
    match cmd::stream_within(
        w,
        Call::new("pveam").arg("download").arg(storage).arg(name.as_str()),
        cmd::LONG_TIMEOUT,
    ) {
        Ok(_) => Ok(text::cat3(storage, ":vztmpl/", name.as_str())),
        Err(e) => Err(e),
    }
}

/// Resolves the vztmpl volid to use. `explicit` may be a volid (then
/// `storage` is not consulted) or a file-name prefix on `storage`. With
/// nothing given: the newest configured base template on `storage`,
/// downloaded if missing.
pub fn resolve(w: &mut World, ctx: &Ctx, storage: &str, explicit: &Option<String>) -> (r: Result<
    String,
    Stop,
>)
    ensures
        (final(w)@, world::res(r)) == resolve_s(old(w)@, ctx@, storage@, text::opt(*explicit)),
{
    if let Some(e) = explicit {
        if text::has(e.as_str(), ":vztmpl/") {
            return Ok(e.clone());
        }
        return match newest_vztmpl(w, ctx, storage, e.as_str()) {
            Ok(Some(v)) => Ok(v),
            Ok(None) => Err(
                Stop::fail(
                    text::cat4("no template on ", storage, " starts with ", e.as_str()),
                ),
            ),
            Err(x) => Err(x),
        };
    }
    let prefix = text::cat(ctx.config.template.base.as_str(), "_");
    match newest_vztmpl(w, ctx, storage, prefix.as_str()) {
        Ok(Some(v)) => Ok(v),
        Ok(None) => download_base(w, ctx, storage),
        Err(x) => Err(x),
    }
}

// ---------------------------------------------------------------------------
// What holds of it.

proof fn lemma_later(best: Option<Text>, x: Text, y: Text)
    requires
        y == x || (best matches Some(b) && !table::below(b, y)),
    ensures
        later(best, x) matches Some(n) && !table::below(n, y),
{
    match best {
        Some(b) => {
            if table::below(x, b) {
                table::lemma_below_strict(x, b);
            } else {
                table::lemma_below_irreflexive(x);
                if y != x && table::below(x, y) {
                    table::lemma_below_total(y, b);
                    if table::below(y, b) {
                        table::lemma_below_transitive(x, y, b);
                    }
                }
            }
        },
        None => {
            table::lemma_below_irreflexive(x);
        },
    }
}

/// The template taken from a storage fits, and no template there that fits
/// comes after it.
pub proof fn law_newest_is_last(rows: Seq<JsonV>, prefix: Text, arch: Text)
    ensures
        newest_of(rows, prefix, arch) matches Some(n) ==> fits(file_name(n), prefix, arch) && (
        exists|i: int|
            0 <= i < rows.len() && json::get_str(#[trigger] rows[i], "volid"@) == Some(n)),
        forall|i: int, id: Text|
            0 <= i < rows.len() && #[trigger] json::get_str(rows[i], "volid"@) == Some(id) && fits(
                #[trigger] file_name(id),
                prefix,
                arch,
            ) ==> newest_of(rows, prefix, arch) is Some && !table::below(
                newest_of(rows, prefix, arch)->0,
                id,
            ),
    decreases rows.len(),
{
    if rows.len() > 0 {
        let front = rows.drop_last();
        law_newest_is_last(front, prefix, arch);
        let best = newest_of(front, prefix, arch);
        let last = json::get_str(rows.last(), "volid"@);
        let n = newest_of(rows, prefix, arch);
        assert(rows[rows.len() - 1] == rows.last());
        if n is Some && n == best {
            let i = choose|i: int|
                0 <= i < front.len() && json::get_str(#[trigger] front[i], "volid"@) == n;
            assert(rows[i] == front[i]);
        }
        assert forall|i: int, id: Text|
            0 <= i < rows.len() && #[trigger] json::get_str(rows[i], "volid"@) == Some(id) && fits(
                #[trigger] file_name(id),
                prefix,
                arch,
            ) implies n is Some && !table::below(n->0, id) by {
            if i < front.len() {
                assert(front[i] == rows[i]);
                assert(json::get_str(front[i], "volid"@) == Some(id));
            }
            if let Some(x) = last {
                if fits(file_name(x), prefix, arch) {
                    lemma_later(best, x, id);
                }
            }
        }
    }
}

} // verus!
