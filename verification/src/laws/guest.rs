//! What is done inside a guest.

use vstd::prelude::*;

use crate::cmd;
use crate::laws::{
    self, compose_pull, compose_up, further, lemma_further, lemma_part_at_end, lemma_part_of_more,
    long_sh, part_of, settled, sh, went_well,
};
use crate::num;
use crate::ops::apply::{self, Options};
use crate::ops::provision;
use crate::ops::{self, CtxV, GuestV};
use crate::pct;
use crate::spec::{self, VolumeV};
use crate::stack;
use crate::text::Text;
use crate::world::{ActV, OutputV, Shape, StopV, WorldV};
use crate::yaml::{self, Tree};

verus! {

// ---------------------------------------------------------------------------
// Single commands.

pub proof fn lemma_status(w: WorldV, vmid: u32, script: Text)
    requires
        settled(w),
    ensures
        ({
            let (v, r) = pct::exec_status_s(w, vmid, script);
            &&& further(w, v, r)
            &&& v.asked == w.asked.push(sh(vmid, script))
            &&& r matches Ok(o) ==> v.replies[w.pos as int].result == Ok::<OutputV, Seq<Text>>(o)
        }),
{
    let c = pct::exec_call(vmid, script).captured(120);
    assert(c.args =~= seq!["exec"@, num::dec(vmid as nat), "--"@, "/bin/sh"@, "-c"@, script]);
    assert(ActV::Run(c) == sh(vmid, script));
}

pub proof fn lemma_exec(w: WorldV, vmid: u32, script: Text)
    requires
        settled(w),
    ensures
        ({
            let (v, r) = pct::exec_s(w, vmid, script);
            &&& further(w, v, r)
            &&& v.asked == w.asked.push(sh(vmid, script))
            &&& r matches Ok(o) ==> went_well(v, w.pos as int) && v.replies[w.pos as int].result
                == Ok::<OutputV, Seq<Text>>(o)
        }),
{
    lemma_status(w, vmid, script);
}

pub proof fn lemma_stream(w: WorldV, vmid: u32, script: Text)
    requires
        settled(w),
    ensures
        ({
            let (v, r) = pct::exec_stream_s(w, vmid, script, Some(1800));
            &&& further(w, v, r)
            &&& v.asked == w.asked.push(long_sh(vmid, script))
            &&& r is Ok ==> went_well(v, w.pos as int)
        }),
{
    let c = pct::exec_call(vmid, script).streamed(Some(1800));
    assert(c.args =~= seq!["exec"@, num::dec(vmid as nat), "--"@, "/bin/sh"@, "-c"@, script]);
    assert(ActV::Run(c) == long_sh(vmid, script));
}

/// Whether a range of what was asked for holds no command with its output on
/// the terminal.
pub open spec fn quiet_between(v: WorldV, from: int, to: int) -> bool {
    forall|i: int|
        from <= i < to ==> !(#[trigger] v.asked[i] matches ActV::Run(c) && c.shape
            == Shape::Stream)
}

// ---------------------------------------------------------------------------
// Files.

/// Whether a file in a guest was replaced by a text: its directory was made,
/// the text was pushed to a sibling from a copy on the node, and the sibling
/// was moved over the file, all of it with success. The action at `k` made
/// the copy.
pub open spec fn replaced_at(
    v: WorldV,
    k: int,
    vmid: u32,
    dir: Text,
    name: Text,
    t: Text,
) -> bool {
    let file = dir + "/"@ + name;
    let sibling = dir + "/."@ + name + ".new"@;
    &&& 1 <= k && k + 2 < v.asked.len() && k + 2 < v.replies.len()
    &&& v.asked[k - 1] == sh(vmid, "mkdir -p '"@ + dir + "'"@)
    &&& v.asked[k] is Temp && v.asked[k]->Temp_text == t
    &&& v.replies[k].result is Ok
    &&& v.asked[k + 1] == laws::captured(
        "pct"@,
        seq![
            "push"@,
            num::dec(vmid as nat),
            v.replies[k].result->Ok_0.stdout,
            sibling,
            "--perms"@,
            "0644"@,
            "--user"@,
            "0"@,
            "--group"@,
            "0"@,
        ],
        120,
    )
    &&& v.asked[k + 2] == sh(vmid, "mv -f '"@ + sibling + "' '"@ + file + "'"@)
    &&& went_well(v, k - 1) && went_well(v, k + 1) && went_well(v, k + 2)
}

/// A replaced file stays so as the verb goes on.
proof fn lemma_still_replaced<T>(
    u: WorldV,
    v: WorldV,
    r: Result<T, StopV>,
    k: int,
    vmid: u32,
    dir: Text,
    name: Text,
    t: Text,
)
    requires
        further(u, v, r),
        replaced_at(u, k, vmid, dir, name, t),
    ensures
        replaced_at(v, k, vmid, dir, name, t),
{
    assert(v.asked[k - 1] == u.asked[k - 1]);
    assert(v.asked[k] == u.asked[k]);
    assert(v.asked[k + 1] == u.asked[k + 1]);
    assert(v.asked[k + 2] == u.asked[k + 2]);
}

proof fn lemma_parent(dir: Text, name: Text)
    requires
        !name.contains('/'),
    ensures
        pct::parent_len(dir + "/"@ + name) == dir.len(),
    decreases name.len(),
{
    reveal_strlit("/");
    let p = dir + "/"@ + name;
    if name.len() == 0 {
        assert(p.last() == '/');
    } else {
        assert(p.last() == name.last());
        assert(name.contains(name.last()));
        assert(p.drop_last() =~= dir + "/"@ + name.drop_last());
        assert forall|i: int| 0 <= i < name.drop_last().len() implies name.drop_last()[i] != '/' by {
            assert(name.contains(name[i]));
        }
        lemma_parent(dir, name.drop_last());
    }
}

proof fn lemma_place(w: WorldV, vmid: u32, from: Text, dir: Text, name: Text)
    requires
        settled(w),
        !name.contains('/'),
    ensures
        ({
            let file = dir + "/"@ + name;
            let sibling = dir + "/."@ + name + ".new"@;
            let (v, r) = pct::place_s(w, vmid, from, file, "0644"@);
            &&& further(w, v, r)
            &&& quiet_between(v, w.asked.len() as int, v.asked.len() as int)
            &&& forall|i: int|
                w.asked.len() <= i < v.asked.len() ==> !(#[trigger] v.asked[i] matches ActV::Run(c)
                    && c.args[0] == "push"@ && c.args[3] == file)
            &&& r is Ok ==> v.asked == w.asked.push(
                laws::captured(
                    "pct"@,
                    seq![
                        "push"@,
                        num::dec(vmid as nat),
                        from,
                        sibling,
                        "--perms"@,
                        "0644"@,
                        "--user"@,
                        "0"@,
                        "--group"@,
                        "0"@,
                    ],
                    120,
                ),
            ).push(sh(vmid, "mv -f '"@ + sibling + "' '"@ + file + "'"@)) && went_well(
                v,
                w.pos as int,
            ) && went_well(v, w.pos as int + 1)
        }),
{
    let file = dir + "/"@ + name;
    let sibling = dir + "/."@ + name + ".new"@;
    lemma_parent(dir, name);
    reveal_strlit("/");
    assert(pct::parent_of(file) =~= dir);
    assert(file.skip(dir.len() as int + 1) =~= name);
    assert(dir.len() < file.len());
    assert(pct::sibling_of(file) =~= sibling);
    reveal_strlit("/.");
    reveal_strlit(".new");
    reveal_strlit("push");
    reveal_strlit("exec");
    assert(sibling.len() == file.len() + 5);
    assert("push"@[0] == 'p' && "exec"@[0] == 'e');
    let c = pct::push_call(vmid, from, file, "0644"@);
    assert(c.args =~= seq![
        "push"@,
        num::dec(vmid as nat),
        from,
        sibling,
        "--perms"@,
        "0644"@,
        "--user"@,
        "0"@,
        "--group"@,
        "0"@,
    ]);
    let (w1, r1) = cmd::run_s(w, c);
    assert(further(w, w1, r1));
    if r1 is Ok {
        lemma_exec(w1, vmid, "mv -f '"@ + sibling + "' '"@ + file + "'"@);
        let (v, r) = pct::place_s(w, vmid, from, file, "0644"@);
        lemma_further(w, w1, r1, v, r);
    }
}

/// A file is written beside the old one and moved over it: a reader sees the
/// old text or the new one, whenever the write is cut short. A write that
/// succeeds replaced the file by that very text.
pub proof fn law_a_file_is_replaced_whole(
    w: WorldV,
    vmid: u32,
    dir: Text,
    name: Text,
    t: Text,
)
    requires
        settled(w),
        !name.contains('/'),
    ensures
        ({
            let (v, r) = pct::write_file_s(w, vmid, dir + "/"@ + name, t, "0644"@);
            &&& further(w, v, r)
            &&& quiet_between(v, w.asked.len() as int, v.asked.len() as int)
            &&& r is Ok ==> replaced_at(v, w.asked.len() as int + 1, vmid, dir, name, t)
            &&& forall|i: int|
                w.asked.len() <= i < v.asked.len() ==> !(#[trigger] v.asked[i] matches ActV::Run(c)
                    && c.args[0] == "push"@ && c.args[3] == dir + "/"@ + name)
        }),
{
    let file = dir + "/"@ + name;
    lemma_parent(dir, name);
    reveal_strlit("/");
    assert(pct::parent_of(file) =~= dir);
    reveal_strlit("push");
    reveal_strlit("exec");
    assert("push"@[0] == 'p' && "exec"@[0] == 'e');
    let mkdir = "mkdir -p '"@ + dir + "'"@;
    lemma_exec(w, vmid, mkdir);
    let (w1, r1) = pct::exec_s(w, vmid, mkdir);
    let (v, r) = pct::write_file_s(w, vmid, file, t, "0644"@);
    if r1 is Ok {
        let a = ActV::Temp { name: "pve-compose-push-"@ + pct::vm(vmid), text: t };
        let (w2, r2) = w1.act(a);
        assert(further(w1, w2, r2));
        lemma_further(w, w1, r1, w2, r2);
        if r2 is Ok {
            let o = r2->Ok_0;
            lemma_place(w2, vmid, o.stdout, dir, name);
            let (w3, r3) = pct::place_s(w2, vmid, o.stdout, file, "0644"@);
            lemma_further(w, w2, r2, w3, r3);
            if !(r3 matches Err(StopV::Act(_))) {
                let (w4, r4) = w3.act(ActV::Remove { path: o.stdout });
                assert(further(w3, w4, r4));
                lemma_further(w, w3, r3, w4, r4);
                assert(v == w4);
            } else {
                assert(v == w3);
            }
        }
    }
}

// ---------------------------------------------------------------------------
// The docker half.

/// Whether a range of what was asked for holds neither `compose up` nor
/// `compose pull` in a guest.
pub open spec fn no_compose(v: WorldV, from: int, to: int, n: u32) -> bool {
    forall|i: int|
        from <= i < to ==> #[trigger] v.asked[i] != compose_up(n) && v.asked[i] != compose_pull(n)
}

/// Whether the compose file of a guest was read and found to be a text.
pub open spec fn read_as(v: WorldV, j: int, vmid: u32, t: Text) -> bool {
    &&& 0 <= j < v.replies.len() && j < v.asked.len()
    &&& v.asked[j] == sh(
        vmid,
        "if [ -e '/opt/stack/compose.yaml' ]; then cat '/opt/stack/compose.yaml'; else exit 3; fi"@,
    )
    &&& v.replies[j].result matches Ok(o) && o.status == 0 && o.stdout == t
}

/// Whether the compose file of a guest is a text, by what was read or written.
pub open spec fn file_is(v: WorldV, j: int, vmid: u32, t: Text) -> bool {
    read_as(v, j, vmid, t) || replaced_at(v, j, vmid, "/opt/stack"@, "compose.yaml"@, t)
}

/// Whether a guest listed its containers and one of them runs.
pub open spec fn seen_running(v: WorldV, j: int, vmid: u32) -> bool {
    &&& went_well(v, j) && j < v.asked.len()
    &&& v.asked[j] == sh(vmid, "cd /opt/stack && docker compose ps -a --format json"@)
    &&& stack::ps_of(v.replies[j].result->Ok_0.stdout) matches Ok(l) && exists|k: int|
        0 <= k < l.len() && (#[trigger] l[k]).state == "running"@
}

/// Whether a guest was found without a compose file, or listed its containers
/// and none of them runs.
pub open spec fn seen_down(v: WorldV, j: int, vmid: u32) -> bool {
    &&& 0 <= j < v.replies.len() && j < v.asked.len()
    &&& {
        ||| v.asked[j] == sh(
            vmid,
            "if [ -e '/opt/stack/compose.yaml' ]; then cat '/opt/stack/compose.yaml'; else exit 3; fi"@,
        ) && (v.replies[j].result matches Ok(o) && o.status == 3)
        ||| v.asked[j] == sh(vmid, "cd /opt/stack && docker compose ps -a --format json"@)
            && went_well(v, j) && !seen_running(v, j, vmid)
    }
}

/// Whether that was so from some point on.
pub open spec fn found_down(v: WorldV, from: int, vmid: u32) -> bool {
    exists|j: int| from <= j && #[trigger] seen_down(v, j, vmid)
}

proof fn lemma_down_stays<T>(u: WorldV, v: WorldV, r: Result<T, StopV>, from: int, vmid: u32)
    requires
        further(u, v, r),
        found_down(u, from, vmid),
    ensures
        found_down(v, from, vmid),
{
    let j = choose|j: int| from <= j && #[trigger] seen_down(u, j, vmid);
    assert(v.asked[j] == u.asked[j]);
    assert(seen_down(v, j, vmid));
}

pub proof fn lemma_scripts(n: u32, vmid: u32)
    ensures
        long_sh(vmid, stack::up_script()) == compose_up(vmid),
        long_sh(vmid, stack::pull_script()) == compose_pull(vmid),
        compose_up(n) != compose_pull(vmid),
        long_sh(vmid, provision::SCRIPT@) != compose_up(n),
        long_sh(vmid, provision::SCRIPT@) != compose_pull(n),
        compose_up(n) == compose_up(vmid) ==> n == vmid,
        compose_pull(n) == compose_pull(vmid) ==> n == vmid,
{
    reveal_strlit("cd ");
    reveal_strlit("/opt/stack");
    reveal_strlit(" && docker compose ");
    reveal_strlit("up -d --remove-orphans");
    reveal_strlit("pull");
    reveal_strlit("cd /opt/stack && docker compose up -d --remove-orphans");
    reveal_strlit("cd /opt/stack && docker compose pull");
    reveal_strlit(
        "set -e\nexport LC_ALL=C.UTF-8 LANG=C.UTF-8\nif docker info >/dev/null 2>&1; then echo \"docker: present\"; exit 0; fi\nif ! command -v apt-get >/dev/null 2>&1; then echo \"not a Debian-family guest\" >&2; exit 4; fi\necho \"docker: installing from get.docker.com\"\nexport DEBIAN_FRONTEND=noninteractive\napt-get update -qq\napt-get install -y -qq curl ca-certificates >/dev/null\ncurl -fsSL https://get.docker.com | sh\nsystemctl enable --now docker >/dev/null 2>&1 || true\ndocker info >/dev/null 2>&1\necho \"docker: smoke test\"\ndocker run --rm hello-world >/dev/null\ndocker image rm hello-world >/dev/null 2>&1 || true\n",
    );
    assert(stack::up_script() =~= "cd /opt/stack && docker compose up -d --remove-orphans"@);
    assert(stack::pull_script() =~= "cd /opt/stack && docker compose pull"@);
    let up = compose_up(n)->Run_0.args;
    let up2 = compose_up(vmid)->Run_0.args;
    let pull = compose_pull(vmid)->Run_0.args;
    let install = long_sh(vmid, provision::SCRIPT@)->Run_0.args;
    assert(up[5].len() != pull[5].len());
    assert(install[5][0] == 's');
    assert(up[5][0] == 'c');
    assert(compose_pull(n)->Run_0.args[5][0] == 'c');
    if compose_up(n) == compose_up(vmid) {
        assert(up[1] == up2[1]);
        num::law_print_is_injective(n as nat, vmid as nat);
    }
    if compose_pull(n) == compose_pull(vmid) {
        assert(compose_pull(n)->Run_0.args[1] == pull[1]);
        num::law_print_is_injective(n as nat, vmid as nat);
    }
}

proof fn lemma_quiet_is_no_compose(v: WorldV, from: int, to: int, n: u32)
    requires
        quiet_between(v, from, to),
    ensures
        no_compose(v, from, to, n),
{
}

proof fn lemma_docker(w: WorldV, vmid: u32, n: u32)
    requires
        settled(w),
    ensures
        ({
            let (v, r) = provision::ensure_docker_s(w, vmid);
            &&& further(w, v, r)
            &&& no_compose(v, w.asked.len() as int, v.asked.len() as int, n)
            &&& v.asked[w.asked.len() as int] == sh(vmid, "docker info >/dev/null 2>&1"@)
            &&& v.asked.len() <= w.asked.len() + 2
            &&& v.asked.len() == w.asked.len() + 2 ==> !went_well(v, w.pos as int)
                && v.asked[w.asked.len() as int + 1] == long_sh(vmid, provision::SCRIPT@)
            &&& r is Ok ==> went_well(v, w.pos as int) && v.asked.len() == w.asked.len() + 1
                || went_well(v, w.pos as int + 1) && v.asked.len() == w.asked.len() + 2
                && v.asked[w.asked.len() as int + 1] == long_sh(vmid, provision::SCRIPT@)
        }),
{
    let probe = "docker info >/dev/null 2>&1"@;
    lemma_status(w, vmid, probe);
    let (w1, r1) = pct::exec_status_s(w, vmid, probe);
    let (v, r) = provision::ensure_docker_s(w, vmid);
    if r1 is Ok && r1->Ok_0.status != 0 {
        lemma_stream(w1, vmid, provision::SCRIPT@);
        let (w2, r2) = pct::exec_stream_s(w1, vmid, provision::SCRIPT@, Some(1800));
        lemma_further(w, w1, r1, w2, r2);
        lemma_scripts(n, vmid);
        assert(v == w2);
        assert(v.asked[w.asked.len() as int] == w1.asked[w.asked.len() as int]);
        if r2 is Err {
            assert(further(w, v, r));
        }
    }
}

proof fn lemma_read(w: WorldV, vmid: u32)
    requires
        settled(w),
    ensures
        ({
            let (v, r) = pct::read_file_s(w, vmid, stack::COMPOSE_FILE@);
            &&& further(w, v, r)
            &&& quiet_between(v, w.asked.len() as int, v.asked.len() as int)
            &&& r matches Ok(Some(t)) ==> read_as(v, w.pos as int, vmid, t)
            &&& r matches Ok(None) ==> v.replies[w.pos as int].result matches Ok(o) && o.status
                == 3
            &&& v.asked == w.asked.push(
                sh(
                    vmid,
                    "if [ -e '/opt/stack/compose.yaml' ]; then cat '/opt/stack/compose.yaml'; else exit 3; fi"@,
                ),
            )
        }),
{
    reveal_strlit("if [ -e '");
    reveal_strlit("' ]; then cat '");
    reveal_strlit("'; else exit 3; fi");
    reveal_strlit("/opt/stack/compose.yaml");
    reveal_strlit(
        "if [ -e '/opt/stack/compose.yaml' ]; then cat '/opt/stack/compose.yaml'; else exit 3; fi",
    );
    let script = pct::cat_script(stack::COMPOSE_FILE@);
    assert(script
        =~= "if [ -e '/opt/stack/compose.yaml' ]; then cat '/opt/stack/compose.yaml'; else exit 3; fi"@);
    lemma_status(w, vmid, script);
}

proof fn lemma_start(w: WorldV, vmid: u32, o: Options, services: bool, present: bool)
    requires
        settled(w),
    ensures
        ({
            let (v, r) = apply::start_s(w, vmid, o, services, present);
            &&& further(w, v, r)
            &&& quiet_between(v, w.asked.len() as int, v.asked.len() as int)
            &&& r matches Ok(true) ==> services && !o.no_up && (o.only_if_up ==> present
                && seen_running(v, w.pos as int, vmid))
            &&& r matches Ok(false) ==> !services || o.no_up || (o.only_if_up && (present
                ==> went_well(v, w.pos as int) && !seen_running(v, w.pos as int, vmid)))
            &&& v.asked == w.asked || v.asked == w.asked.push(
                sh(vmid, "cd /opt/stack && docker compose ps -a --format json"@),
            )
        }),
{
    reveal_strlit("cd ");
    reveal_strlit("/opt/stack");
    reveal_strlit(" && docker compose ");
    reveal_strlit("ps -a --format json");
    reveal_strlit("cd /opt/stack && docker compose ps -a --format json");
    let script = stack::compose("ps -a --format json"@);
    assert(script =~= "cd /opt/stack && docker compose ps -a --format json"@);
    lemma_exec(w, vmid, script);
    let (v, r) = apply::start_s(w, vmid, o, services, present);
    if services && !o.no_up && o.only_if_up && present {
        let (w1, r1) = pct::exec_s(w, vmid, script);
        assert(v == w1);
        if r is Ok {
            let l = stack::ps_of(r1->Ok_0.stdout)->Ok_0;
            assert(r->Ok_0 == stack::any_running(l));
        }
    }
}

proof fn lemma_file(w: WorldV, vmid: u32, current: Option<Text>, t: Text)
    requires
        settled(w),
    ensures
        ({
            let (v, r) = apply::file_s(w, vmid, current, t);
            &&& further(w, v, r)
            &&& quiet_between(v, w.asked.len() as int, v.asked.len() as int)
            &&& current == Some(t) ==> v == w && r is Ok
            &&& current != Some(t) && r is Ok ==> replaced_at(
                v,
                w.asked.len() as int + 1,
                vmid,
                "/opt/stack"@,
                "compose.yaml"@,
                t,
            )
        }),
{
    reveal_strlit("/opt/stack");
    reveal_strlit("/");
    reveal_strlit("compose.yaml");
    reveal_strlit("/opt/stack/compose.yaml");
    assert(stack::COMPOSE_FILE@ =~= "/opt/stack"@ + "/"@ + "compose.yaml"@);
    let u = w.note("docker: writing "@ + stack::COMPOSE_FILE@);
    law_a_file_is_replaced_whole(u, vmid, "/opt/stack"@, "compose.yaml"@, t);
}

proof fn lemma_up(w: WorldV, vmid: u32, o: Options, services: bool, start: bool, n: u32)
    requires
        settled(w),
    ensures
        ({
            let (v, r) = apply::up_s(w, vmid, o, services, start);
            let from = w.asked.len() as int;
            &&& further(w, v, r)
            &&& !start ==> v.asked == w.asked && r is Ok
            &&& start && !o.pull ==> v.asked == w.asked.push(compose_up(vmid))
            &&& start && o.pull ==> v.asked == w.asked.push(compose_pull(vmid)) || (v.asked
                == w.asked.push(compose_pull(vmid)).push(compose_up(vmid)) && went_well(v, from))
            &&& start && r is Ok ==> v.asked.last() == compose_up(vmid) && went_well(
                v,
                v.asked.len() - 1,
            )
        }),
{
    lemma_scripts(n, vmid);
    if start {
        if o.pull {
            let u = w.note("docker: pull"@);
            lemma_stream(u, vmid, stack::pull_script());
            let (w1, r1) = stack::pull_s(u, vmid);
            if r1 is Ok {
                let u1 = w1.note("docker: up"@);
                lemma_stream(u1, vmid, stack::up_script());
                let (w2, r2) = stack::up_s(u1, vmid);
                lemma_further(w, w1, r1, w2, r2);
            }
        } else {
            lemma_stream(w.note("docker: up"@), vmid, stack::up_script());
        }
    }
}

/// The document of the facts that an apply leaves.
pub open spec fn facts_doc(digest: Text, template: Option<Text>, at: Text) -> Tree {
    Tree::Dict(
        seq![(Tree::Str("digest"@), Tree::Str(digest))] + (match template {
            Some(t) => seq![(Tree::Str("template"@), Tree::Str(t))],
            None => Seq::empty(),
        }) + seq![
            (Tree::Str("applied_at"@), Tree::Str(at)),
            (Tree::Str("by"@), Tree::Str("0.0.7"@)),
        ],
    )
}

/// Whether the facts in a guest were replaced by those of an apply of a
/// document, with the template that was known before.
pub open spec fn recorded_at(v: WorldV, k: int, vmid: u32, digest: Text, at: Text) -> bool {
    exists|t: Text, template: Option<Text>|
        {
            &&& #[trigger] replaced_at(
                v,
                k,
                vmid,
                "/opt/stack/.pve-compose"@,
                "applied.yaml"@,
                t,
            )
            &&& yaml::yaml_text(#[trigger] facts_doc(digest, template, at)) == Ok::<Text, Text>(t)
            &&& template_known(v, k - 2, vmid) == template
        }
}

/// The template that the facts named when they were read.
pub open spec fn template_known(v: WorldV, j: int, vmid: u32) -> Option<Text> {
    if v.asked[j] == sh(
        vmid,
        "if [ -e '/opt/stack/.pve-compose/applied.yaml' ]; then cat '/opt/stack/.pve-compose/applied.yaml'; else exit 3; fi"@,
    ) && went_well(v, j) && stack::facts_parsed(v.replies[j].result->Ok_0.stdout) is Ok {
        stack::facts_parsed(v.replies[j].result->Ok_0.stdout)->Ok_0.template
    } else {
        None
    }
}

#[verifier::rlimit(40)]
proof fn lemma_facts(w: WorldV, vmid: u32, digest: Text)
    requires
        settled(w),
    ensures
        ({
            let (v, r) = apply::facts_s(w, vmid, digest);
            &&& further(w, v, r)
            &&& quiet_between(v, w.asked.len() as int, v.asked.len() as int)
            &&& r is Ok ==> recorded_at(v, w.asked.len() as int + 2, vmid, digest, w.stamp)
        }),
{
    reveal_strlit("if [ -e '");
    reveal_strlit("' ]; then cat '");
    reveal_strlit("'; else exit 3; fi");
    reveal_strlit("/opt/stack/.pve-compose/applied.yaml");
    reveal_strlit(
        "if [ -e '/opt/stack/.pve-compose/applied.yaml' ]; then cat '/opt/stack/.pve-compose/applied.yaml'; else exit 3; fi",
    );
    let cat = pct::cat_script(stack::FACTS_FILE@);
    assert(cat
        =~= "if [ -e '/opt/stack/.pve-compose/applied.yaml' ]; then cat '/opt/stack/.pve-compose/applied.yaml'; else exit 3; fi"@);
    lemma_status(w, vmid, cat);
    let (w1, r1) = stack::read_facts_s(w, vmid);
    let (v, r) = apply::facts_s(w, vmid, digest);
    let j = w.pos as int;
    if r1 is Ok {
        let f = stack::new_facts(digest, r1->Ok_0, w1.stamp);
        let template = f.template;
        assert(w1.stamp == w.stamp);
        assert(stack::facts_tree(f) == facts_doc(digest, template, w.stamp));
        if yaml::yaml_text(stack::facts_tree(f)) is Ok {
            let t = yaml::yaml_text(stack::facts_tree(f))->Ok_0;
            reveal_strlit("/opt/stack/.pve-compose");
            reveal_strlit("/");
            reveal_strlit("applied.yaml");
            assert(stack::FACTS_FILE@ =~= "/opt/stack/.pve-compose"@ + "/"@ + "applied.yaml"@);
            law_a_file_is_replaced_whole(
                w1,
                vmid,
                "/opt/stack/.pve-compose"@,
                "applied.yaml"@,
                t,
            );
            lemma_further(w, w1, r1, v, r);
            assert(v.asked[j] == w1.asked[j]);
            if r is Ok {
                let k = w.asked.len() as int + 2;
                assert(replaced_at(
                    v,
                    k,
                    vmid,
                    "/opt/stack/.pve-compose"@,
                    "applied.yaml"@,
                    t,
                ));
                assert(template_known(v, j, vmid) == template);
            }
        }
    }
}

/// Whether a document has a service.
pub open spec fn serves(t: Tree) -> bool {
    yaml::get(t, "services"@) matches Some(s) && (yaml::untag(s) matches Tree::Dict(m) && m.len()
        > 0)
}

/// What comes before the stack is brought up: the file is read, it is found
/// out whether the stack is to be brought up, and the file is written.
spec fn prepared_s(w: WorldV, vmid: u32, o: Options, services: bool, t: Text) -> (
    WorldV,
    Result<bool, StopV>,
) {
    match pct::read_file_s(w, vmid, stack::COMPOSE_FILE@) {
        (w, Err(e)) => (w, Err(e)),
        (w, Ok(current)) => match apply::start_s(w, vmid, o, services, current is Some) {
            (w, Err(e)) => (w, Err(e)),
            (w, Ok(start)) => match apply::file_s(w, vmid, current, t) {
                (w, Err(e)) => (w, Err(e)),
                (w, Ok(_)) => (w, Ok(start)),
            },
        },
    }
}

proof fn lemma_quiet_on<T>(u: WorldV, v: WorldV, r: Result<T, StopV>, from: int)
    requires
        further(u, v, r),
        from >= 0,
        quiet_between(u, from, u.asked.len() as int),
        quiet_between(v, u.asked.len() as int, v.asked.len() as int),
    ensures
        quiet_between(v, from, v.asked.len() as int),
{
    assert forall|i: int| from <= i < v.asked.len() implies !(#[trigger] v.asked[i] matches ActV::Run(
        c,
    ) && c.shape == Shape::Stream) by {
        if i < u.asked.len() {
            assert(v.asked[i] == u.asked[i]);
        }
    }
}

proof fn lemma_file_stays<T>(u: WorldV, v: WorldV, r: Result<T, StopV>, j: int, vmid: u32, t: Text)
    requires
        further(u, v, r),
        file_is(u, j, vmid, t),
    ensures
        file_is(v, j, vmid, t),
{
    if read_as(u, j, vmid, t) {
        assert(v.asked[j] == u.asked[j]);
    } else {
        lemma_still_replaced(u, v, r, j, vmid, "/opt/stack"@, "compose.yaml"@, t);
    }
}

#[verifier::rlimit(40)]
proof fn lemma_prepared(w: WorldV, vmid: u32, o: Options, services: bool, t: Text) -> (p: (int, int))
    requires
        settled(w),
    ensures
        ({
            let (v, r) = prepared_s(w, vmid, o, services, t);
            let from = w.asked.len() as int;
            &&& further(w, v, r)
            &&& v.stamp == w.stamp
            &&& quiet_between(v, from, v.asked.len() as int)
            &&& r matches Ok(b) ==> {
                &&& from <= p.0 < v.asked.len() && file_is(v, p.0, vmid, t)
                &&& b ==> services && !o.no_up
                &&& b && o.only_if_up ==> from <= p.1 < v.asked.len() && seen_running(
                    v,
                    p.1,
                    vmid,
                )
                &&& !o.only_if_up ==> b == (services && !o.no_up)
                &&& !b && services && !o.no_up ==> found_down(v, from, vmid)
            }
        }),
{
    let from = w.asked.len() as int;
    lemma_read(w, vmid);
    let (w1, r1) = pct::read_file_s(w, vmid, stack::COMPOSE_FILE@);
    let q = w1.pos as int;
    let mut p: (int, int) = (0, 0);
    if r1 is Ok {
        let current = r1->Ok_0;
        lemma_start(w1, vmid, o, services, current is Some);
        let (w2, r2) = apply::start_s(w1, vmid, o, services, current is Some);
        lemma_further(w, w1, r1, w2, r2);
        lemma_quiet_on(w1, w2, r2, from);
        if r2 is Ok {
            lemma_file(w2, vmid, current, t);
            let (w3, r3) = apply::file_s(w2, vmid, current, t);
            lemma_further(w, w2, r2, w3, r3);
            lemma_quiet_on(w2, w3, r3, from);
            let j = if current == Some(t) {
                w.pos as int
            } else {
                w2.asked.len() as int + 1
            };
            if r3 is Ok {
                if current == Some(t) {
                    lemma_file_stays(w1, w2, r2, j, vmid, t);
                    lemma_file_stays(w2, w3, r3, j, vmid, t);
                }
                assert(file_is(w3, j, vmid, t));
                if r2->Ok_0 && o.only_if_up {
                    assert(w3.asked[q] == w2.asked[q]);
                }
                if !r2->Ok_0 && services && !o.no_up {
                    if current is None {
                        assert(seen_down(w1, w.pos as int, vmid));
                        lemma_down_stays(w1, w2, r2, from, vmid);
                    } else {
                        assert(seen_down(w2, q, vmid));
                    }
                    lemma_down_stays(w2, w3, r3, from, vmid);
                }
            }
            p = (j, q);
        }
    }
    p
}

/// What holds of `compose up` or `compose pull` in a guest, asked for at `i`.
spec fn justified(
    v: WorldV,
    i: int,
    from: int,
    c: CtxV,
    g: GuestV,
    o: Options,
    n: u32,
    p: (int, int, int, int),
) -> bool {
    let vmid = g.config.vmid;
    &&& apply::rendered(c, g) is Ok && file_is(v, p.0, vmid, apply::rendered(c, g)->Ok_0)
    &&& from <= p.0 < i && n == vmid
    &&& serves(g.read.doc.spec) && !o.no_up
    &&& o.only_if_up ==> from <= p.1 < i && seen_running(v, p.1, vmid)
    &&& v.asked[i] == compose_up(n) && o.pull ==> from < i && v.asked[i - 1] == compose_pull(n)
        && went_well(v, i - 1)
    &&& v.asked[i] == compose_pull(n) ==> o.pull
}

/// What holds of the docker half once the directories are there.
spec fn landed(
    w: WorldV,
    c: CtxV,
    g: GuestV,
    o: Options,
    n: u32,
    p: (int, int, int, int),
) -> bool {
    let (v, r) = apply::land_s(w, c, g, o);
    let from = w.asked.len() as int;
    let vmid = g.config.vmid;
    let (j, q, u, k) = p;
    &&& further(w, v, r)
    &&& forall|i: int|
        from <= i < v.asked.len() && (#[trigger] v.asked[i] == compose_up(n) || v.asked[i]
            == compose_pull(n)) ==> justified(v, i, from, c, g, o, n, p) && (i < v.pos
            && !went_well(v, i) ==> v.asked.len() == i + 1 && r is Err)
    &&& r matches Ok(b) ==> {
        &&& apply::rendered(c, g) is Ok && file_is(v, j, vmid, apply::rendered(c, g)->Ok_0)
        &&& from <= j < k
        &&& recorded_at(v, k, vmid, g.read.digest, w.stamp)
        &&& no_compose(v, k - 2, v.asked.len() as int, n)
        &&& b ==> j < u < k - 2 && v.asked[u] == compose_up(vmid) && went_well(v, u)
        &&& !b ==> no_compose(v, from, v.asked.len() as int, n)
        &&& b && o.only_if_up ==> from <= q < u && seen_running(v, q, vmid)
        &&& !o.only_if_up ==> b == (serves(g.read.doc.spec) && !o.no_up)
        &&& !b && serves(g.read.doc.spec) && !o.no_up ==> found_down(v, from, vmid)
    }
}

#[verifier::spinoff_prover]
#[verifier::rlimit(40)]
proof fn lemma_land(w: WorldV, c: CtxV, g: GuestV, o: Options, n: u32) -> (p: (int, int, int, int))
    requires
        settled(w),
    ensures
        landed(w, c, g, o, n, p),
{
    let (v, r) = apply::land_s(w, c, g, o);
    let from = w.asked.len() as int;
    let vmid = g.config.vmid;
    let services = apply::has_services(g.read.doc.spec);
    assert(services == serves(g.read.doc.spec));
    let mut p: (int, int, int, int) = (0, 0, 0, 0);
    if apply::rendered(c, g) is Ok {
        let t = apply::rendered(c, g)->Ok_0;
        lemma_scripts(n, vmid);
        let (j, q) = lemma_prepared(w, vmid, o, services, t);
        let (w3, r3) = prepared_s(w, vmid, o, services, t);
        lemma_quiet_is_no_compose(w3, from, w3.asked.len() as int, n);
        if r3 is Ok {
            let start = r3->Ok_0;
            lemma_up(w3, vmid, o, services, start, n);
            let (w4, r4) = apply::up_s(w3, vmid, o, services, start);
            lemma_further(w, w3, r3, w4, r4);
            lemma_file_stays(w3, w4, r4, j, vmid, t);
            let u = w4.asked.len() - 1;
            let k = w4.asked.len() as int + 2;
            p = (j, q, u, k);
            if start && o.only_if_up {
                assert(w4.asked[q] == w3.asked[q]);
            }
            assert forall|i: int|
                from <= i < w4.asked.len() && (#[trigger] w4.asked[i] == compose_up(n)
                    || w4.asked[i] == compose_pull(n)) implies justified(
                w4,
                i,
                from,
                c,
                g,
                o,
                n,
                p,
            ) && (i < w4.pos && !went_well(w4, i) ==> w4.asked.len() == i + 1 && r4 is Err) by {
                if i < w3.asked.len() {
                    assert(w4.asked[i] == w3.asked[i]);
                }
            }
            if r4 is Ok {
                lemma_facts(w4, vmid, g.read.digest);
                let (w5, r5) = apply::facts_s(w4, vmid, g.read.digest);
                lemma_further(w, w4, r4, w5, r5);
                lemma_file_stays(w4, w5, r5, j, vmid, t);
                assert(v == w5);
                assert(w4.stamp == w.stamp);
                if start && o.only_if_up {
                    assert(w5.asked[q] == w4.asked[q]);
                }
                lemma_quiet_is_no_compose(w5, w4.asked.len() as int, w5.asked.len() as int, n);
                assert forall|i: int|
                    from <= i < w5.asked.len() && (#[trigger] w5.asked[i] == compose_up(n)
                        || w5.asked[i] == compose_pull(n)) implies justified(
                    w5,
                    i,
                    from,
                    c,
                    g,
                    o,
                    n,
                    p,
                ) && went_well(w5, i) by {
                    assert(i < w4.asked.len());
                    assert(w5.asked[i] == w4.asked[i]);
                    assert(justified(w4, i, from, c, g, o, n, p));
                    if from < i {
                        assert(w5.asked[i - 1] == w4.asked[i - 1]);
                    }
                }
                if start {
                    assert(w5.asked[u] == w4.asked[u]);
                } else {
                    if services && !o.no_up {
                        lemma_down_stays(w3, w4, r4, from, vmid);
                        lemma_down_stays(w4, w5, r5, from, vmid);
                    }
                    assert forall|i: int| from <= i < w5.asked.len() implies #[trigger] w5.asked[i]
                        != compose_up(n) && w5.asked[i] != compose_pull(n) by {
                        if i < w4.asked.len() {
                            assert(w5.asked[i] == w3.asked[i]);
                        }
                    }
                }
            }
        }
    }
    p
}

/// The part of the layout line that is for one volume: its directory is made,
/// and given to its owner where it is still root's.
pub open spec fn made_and_owned(name: Text, owner: Text) -> Text {
    " mkdir -p '/opt/stack/volumes/"@ + name
        + "'; if [ \"$(stat -c %u:%g '/opt/stack/volumes/"@ + name
        + "')\" = '0:0' ]; then chown '"@ + owner + "' '/opt/stack/volumes/"@ + name + "'; fi;"@
}

/// Whether a shell line makes the stack directory and that of every volume,
/// each for its owner, or the one given.
pub open spec fn lays_out(script: Text, v: Seq<VolumeV>, owner: Text) -> bool {
    &&& "set -e; mkdir -p /opt/stack/volumes /opt/stack/.pve-compose; chmod 0755 /opt/stack;"@.is_prefix_of(
        script)
    &&& forall|i: int|
        0 <= i < v.len() ==> part_of(
            made_and_owned(
                (#[trigger] v[i]).name,
                match v[i].owner {
                    Some(o) => o,
                    None => owner,
                },
            ),
            script,
        )
}

proof fn lemma_own(name: Text, owner: Text)
    ensures
        stack::own_script(spec::dir_of(name), owner) == made_and_owned(name, owner),
{
    reveal_strlit("/opt/stack/volumes");
    reveal_strlit("/");
    reveal_strlit(" mkdir -p '");
    reveal_strlit("'; if [ \"$(stat -c %u:%g '");
    reveal_strlit("')\" = '0:0' ]; then chown '");
    reveal_strlit("' '");
    reveal_strlit("'; fi;");
    reveal_strlit(" mkdir -p '/opt/stack/volumes/");
    reveal_strlit("'; if [ \"$(stat -c %u:%g '/opt/stack/volumes/");
    reveal_strlit("' '/opt/stack/volumes/");
    let d = spec::dir_of(name);
    assert(" mkdir -p '"@ + d =~= " mkdir -p '/opt/stack/volumes/"@ + name);
    let a = " mkdir -p '"@ + d + "'; if [ \"$(stat -c %u:%g '"@ + d;
    let b = " mkdir -p '/opt/stack/volumes/"@ + name
        + "'; if [ \"$(stat -c %u:%g '/opt/stack/volumes/"@ + name;
    assert(a =~= b);
    assert(stack::own_script(d, owner) =~= made_and_owned(name, owner));
}

proof fn lemma_layout(v: Seq<VolumeV>, owner: Text)
    ensures
        lays_out(stack::layout_script(apply::owners_of(v, owner)), v, owner),
    decreases v.len(),
{
    let owners = apply::owners_of(v, owner);
    let s = stack::layout_script(owners);
    reveal_strlit("set -e; mkdir -p ");
    reveal_strlit("/opt/stack/volumes");
    reveal_strlit(" ");
    reveal_strlit("/opt/stack/.pve-compose");
    reveal_strlit("; chmod 0755 ");
    reveal_strlit("/opt/stack");
    reveal_strlit(";");
    reveal_strlit(
        "set -e; mkdir -p /opt/stack/volumes /opt/stack/.pve-compose; chmod 0755 /opt/stack;",
    );
    let first =
        "set -e; mkdir -p /opt/stack/volumes /opt/stack/.pve-compose; chmod 0755 /opt/stack;"@;
    if v.len() == 0 {
        assert(s =~= first);
    } else {
        let f = v.drop_last();
        lemma_layout(f, owner);
        assert(owners.drop_last() =~= apply::owners_of(f, owner));
        let before = stack::layout_script(apply::owners_of(f, owner));
        let o = match v.last().owner {
            Some(o) => o,
            None => owner,
        };
        lemma_own(v.last().name, o);
        let last = made_and_owned(v.last().name, o);
        assert(s == before + last);
        assert(s.take(first.len() as int) =~= before.take(first.len() as int));
        assert forall|i: int| 0 <= i < v.len() implies part_of(
            made_and_owned(
                (#[trigger] v[i]).name,
                match v[i].owner {
                    Some(o) => o,
                    None => owner,
                },
            ),
            s,
        ) by {
            if i < f.len() {
                assert(f[i] == v[i]);
                let w = made_and_owned(
                    f[i].name,
                    match f[i].owner {
                        Some(o) => o,
                        None => owner,
                    },
                );
                assert(part_of(w, before));
                lemma_part_of_more(w, before, last);
            } else {
                lemma_part_at_end(before, last);
            }
        }
    }
}

/// What holds of the docker half: `m` is where the directories are made.
spec fn half(
    w: WorldV,
    v: WorldV,
    r: Result<bool, StopV>,
    c: CtxV,
    g: GuestV,
    o: Options,
    n: u32,
    p: (int, int, int, int),
    m: int,
) -> bool {
    let from = w.asked.len() as int;
    let vmid = g.config.vmid;
    let (j, q, u, k) = p;
    &&& further(w, v, r)
    &&& forall|i: int|
        from <= i < v.asked.len() && (#[trigger] v.asked[i] == compose_up(n) || v.asked[i]
            == compose_pull(n)) ==> from < m < i && directories_made(v, m, c, g) && justified(
            v,
            i,
            m + 1,
            c,
            g,
            o,
            n,
            p,
        ) && (i < v.pos && !went_well(v, i) ==> v.asked.len() == i + 1 && r is Err)
    &&& r matches Ok(b) ==> {
        &&& from < m < j && directories_made(v, m, c, g)
        &&& apply::rendered(c, g) is Ok && file_is(v, j, vmid, apply::rendered(c, g)->Ok_0)
        &&& j < k
        &&& recorded_at(v, k, vmid, g.read.digest, w.stamp)
        &&& no_compose(v, k - 2, v.asked.len() as int, n)
        &&& b ==> j < u < k - 2 && v.asked[u] == compose_up(vmid) && went_well(v, u)
        &&& !b ==> no_compose(v, from, v.asked.len() as int, n)
        &&& b && o.only_if_up ==> m < q < u && seen_running(v, q, vmid)
        &&& !o.only_if_up ==> b == (serves(g.read.doc.spec) && !o.no_up)
        &&& !b && serves(g.read.doc.spec) && !o.no_up ==> found_down(v, from, vmid)
    }
}

/// Whether the directories of the volumes were made in a guest, each for the
/// owner that its volume names, the document's, or the stored one.
pub open spec fn directories_made(v: WorldV, m: int, c: CtxV, g: GuestV) -> bool {
    &&& went_well(v, m) && m < v.asked.len()
    &&& exists|script: Text|
        v.asked[m] == #[trigger] sh(g.config.vmid, script) && lays_out(
            script,
            g.volumes,
            match g.read.doc.owner {
                Some(o) => o,
                None => c.config.defaults.owner,
            },
        )
}

#[verifier::spinoff_prover]
#[verifier::rlimit(40)]
proof fn lemma_half(w: WorldV, c: CtxV, g: GuestV, o: Options, n: u32) -> (p: (
    (int, int, int, int),
    int,
))
    requires
        settled(w),
    ensures
        half(
            w,
            apply::docker_apply_guest_s(w, c, g, o).0,
            apply::docker_apply_guest_s(w, c, g, o).1,
            c,
            g,
            o,
            n,
            p.0,
            p.1,
        ),
{
    let (v, r) = apply::docker_apply_guest_s(w, c, g, o);
    let from = w.asked.len() as int;
    let vmid = g.config.vmid;
    let mut p: (int, int, int, int) = (0, 0, 0, 0);
    let mut m: int = 0;
    lemma_docker(w, vmid, n);
    let (w1, r1) = provision::ensure_docker_s(w, vmid);
    if r1 is Ok {
        let owner = ops::owner_of(g, c);
        let script = stack::layout_script(apply::owners_of(g.volumes, owner));
        lemma_layout(g.volumes, owner);
        lemma_exec(w1, vmid, script);
        let (w2, r2) = stack::ensure_layout_s(w1, vmid, apply::owners_of(g.volumes, owner));
        lemma_further(w, w1, r1, w2, r2);
        m = w1.asked.len() as int;
        assert(w2.asked[m] == sh(vmid, script));
        assert forall|i: int| from <= i < w2.asked.len() implies #[trigger] w2.asked[i]
            != compose_up(n) && w2.asked[i] != compose_pull(n) by {
            if i < w1.asked.len() {
                assert(w2.asked[i] == w1.asked[i]);
            }
        }
        if r2 is Ok {
            assert(directories_made(w2, m, c, g));
            p = lemma_land(w2, c, g, o, n);
            assert(apply::land_s(w2, c, g, o) == (v, r));
            lemma_further(w, w2, r2, v, r);
            assert(v.asked[m] == w2.asked[m]);
            assert(directories_made(v, m, c, g));
            if r == Ok::<bool, StopV>(false) && serves(g.read.doc.spec) && !o.no_up {
                let j = choose|j: int|
                    w2.asked.len() <= j && #[trigger] seen_down(v, j, vmid);
                assert(seen_down(v, j, vmid));
            }
            assert forall|i: int| from <= i < w2.asked.len() implies #[trigger] v.asked[i]
                != compose_up(n) && v.asked[i] != compose_pull(n) by {
                assert(v.asked[i] == w2.asked[i]);
            }
        }
    }
    (p, m)
}

/// Where a pull was asked for, `compose up` is run only after `compose pull`
/// was run, with success.
#[verifier::rlimit(40)]
pub proof fn law_pull_comes_before_up(
    w: WorldV,
    v: WorldV,
    r: Result<bool, StopV>,
    c: CtxV,
    g: GuestV,
    o: Options,
    n: u32,
    i: int,
)
    requires
        settled(w),
        apply::docker_apply_guest_s(w, c, g, o) == (v, r),
        o.pull,
        w.asked.len() <= i < v.asked.len(),
        v.asked[i] == compose_up(n),
    ensures
        exists|j: int|
            w.asked.len() <= j < i && #[trigger] v.asked[j] == compose_pull(n) && went_well(v, j),
{
    let (p, m) = lemma_half(w, c, g, o, n);
    lemma_compose(w, v, r, c, g, o, n, p, m, i);
}

proof fn lemma_compose(
    w: WorldV,
    v: WorldV,
    r: Result<bool, StopV>,
    c: CtxV,
    g: GuestV,
    o: Options,
    n: u32,
    p: (int, int, int, int),
    m: int,
    i: int,
)
    requires
        half(w, v, r, c, g, o, n, p, m),
        w.asked.len() <= i < v.asked.len(),
        v.asked[i] == compose_up(n) || v.asked[i] == compose_pull(n),
    ensures
        o.pull && v.asked[i] == compose_up(n) ==> exists|j: int|
            w.asked.len() <= j < i && #[trigger] v.asked[j] == compose_pull(n) && went_well(v, j),
        n == g.config.vmid,
        serves(g.read.doc.spec),
        !o.no_up,
        v.asked[i] == compose_pull(n) ==> o.pull,
        o.only_if_up ==> exists|j: int| w.asked.len() <= j < i && #[trigger] seen_running(v, j, n),
        apply::rendered(c, g) is Ok,
        exists|j: int|
            w.asked.len() <= j < i && #[trigger] file_is(
                v,
                j,
                g.config.vmid,
                apply::rendered(c, g)->Ok_0,
            ),
        exists|m: int| w.asked.len() <= m < i && #[trigger] directories_made(v, m, c, g),
        i < v.pos && !went_well(v, i) ==> v.asked.len() == i + 1 && r is Err,
{
    assert(justified(v, i, m + 1, c, g, o, n, p));
    assert(v.asked[i - 1] == v.asked[i - 1]);
    assert(file_is(v, p.0, g.config.vmid, apply::rendered(c, g)->Ok_0));
    assert(directories_made(v, m, c, g));
}

/// `compose up` and `compose pull` are run in no guest but this one, only where
/// its document has a service and starting was not ruled out, a pull only
/// where it was asked for; and where only a stack that is up is to be
/// touched, only after the guest listed a container that runs.
#[verifier::rlimit(40)]
pub proof fn law_compose_is_run_where_asked(
    w: WorldV,
    v: WorldV,
    r: Result<bool, StopV>,
    c: CtxV,
    g: GuestV,
    o: Options,
    n: u32,
    i: int,
)
    requires
        settled(w),
        apply::docker_apply_guest_s(w, c, g, o) == (v, r),
        w.asked.len() <= i < v.asked.len(),
        v.asked[i] == compose_up(n) || v.asked[i] == compose_pull(n),
    ensures
        n == g.config.vmid,
        serves(g.read.doc.spec),
        !o.no_up,
        v.asked[i] == compose_pull(n) ==> o.pull,
        o.only_if_up ==> exists|j: int| w.asked.len() <= j < i && #[trigger] seen_running(v, j, n),
{
    let (p, m) = lemma_half(w, c, g, o, n);
    lemma_compose(w, v, r, c, g, o, n, p, m, i);
}

/// Whenever `compose up` is run, the compose file in the guest is what the
/// document renders to, and every volume has its directory.
#[verifier::rlimit(40)]
pub proof fn law_what_is_up_is_what_was_rendered(
    w: WorldV,
    v: WorldV,
    r: Result<bool, StopV>,
    c: CtxV,
    g: GuestV,
    o: Options,
    i: int,
)
    requires
        settled(w),
        apply::docker_apply_guest_s(w, c, g, o) == (v, r),
        w.asked.len() <= i < v.asked.len(),
        v.asked[i] == compose_up(g.config.vmid),
    ensures
        apply::rendered(c, g) is Ok,
        exists|j: int|
            w.asked.len() <= j < i && #[trigger] file_is(
                v,
                j,
                g.config.vmid,
                apply::rendered(c, g)->Ok_0,
            ),
        exists|m: int| w.asked.len() <= m < i && #[trigger] directories_made(v, m, c, g),
{
    let (p, m) = lemma_half(w, c, g, o, g.config.vmid);
    lemma_compose(w, v, r, c, g, o, g.config.vmid, p, m, i);
}

/// A `compose pull` or `compose up` that fails is the last thing that is run,
/// and fails the docker half.
#[verifier::rlimit(40)]
pub proof fn law_failed_compose_ends_it(
    w: WorldV,
    v: WorldV,
    r: Result<bool, StopV>,
    c: CtxV,
    g: GuestV,
    o: Options,
    i: int,
)
    requires
        settled(w),
        apply::docker_apply_guest_s(w, c, g, o) == (v, r),
        w.asked.len() <= i < v.asked.len(),
        i < v.pos,
        v.asked[i] == compose_up(g.config.vmid) || v.asked[i] == compose_pull(g.config.vmid),
        !went_well(v, i),
    ensures
        v.asked.len() == i + 1,
        r is Err,
{
    let (p, m) = lemma_half(w, c, g, o, g.config.vmid);
    lemma_compose(w, v, r, c, g, o, g.config.vmid, p, m, i);
}

/// A docker half that succeeds made the directories, left the rendered file in
/// place, and in the end recorded the document's digest with the template
/// that was known; before that it brought the stack up, where it says so,
/// and ran neither `compose up` nor `compose pull` where it says not. A stack
/// that may be started is left as it is only where it was found down.
#[verifier::rlimit(40)]
pub proof fn law_applied_is_recorded(
    w: WorldV,
    v: WorldV,
    c: CtxV,
    g: GuestV,
    o: Options,
    b: bool,
)
    requires
        settled(w),
        apply::docker_apply_guest_s(w, c, g, o) == (v, Ok::<bool, StopV>(b)),
    ensures
        applied_in_order(w, v, c, g, b),
        !o.only_if_up ==> b == (serves(g.read.doc.spec) && !o.no_up),
        !b && serves(g.read.doc.spec) && !o.no_up ==> found_down(
            v,
            w.asked.len() as int,
            g.config.vmid,
        ),
{
    let (p, m) = lemma_half(w, c, g, o, g.config.vmid);
    lemma_applied(w, v, c, g, o, p, m, b);
}

/// Whether a docker half that succeeded did its steps in their order.
pub open spec fn applied_in_order(w: WorldV, v: WorldV, c: CtxV, g: GuestV, b: bool) -> bool {
    let vmid = g.config.vmid;
    let from = w.asked.len() as int;
    exists|m: int, j: int, u: int, k: int|
        {
            &&& #[trigger] directories_made(v, m, c, g)
            &&& apply::rendered(c, g) is Ok && #[trigger] file_is(
                v,
                j,
                vmid,
                apply::rendered(c, g)->Ok_0,
            )
            &&& #[trigger] recorded_at(v, k, vmid, g.read.digest, w.stamp)
            &&& from < m < j < k
            &&& b ==> j < u < k && #[trigger] v.asked[u] == compose_up(vmid) && went_well(v, u)
            &&& !b ==> no_compose(v, from, v.asked.len() as int, vmid)
            &&& no_compose(v, k - 2, v.asked.len() as int, vmid)
        }
}

proof fn lemma_applied(
    w: WorldV,
    v: WorldV,
    c: CtxV,
    g: GuestV,
    o: Options,
    p: (int, int, int, int),
    m: int,
    b: bool,
)
    requires
        half(w, v, Ok::<bool, StopV>(b), c, g, o, g.config.vmid, p, m),
    ensures
        applied_in_order(w, v, c, g, b),
        !o.only_if_up ==> b == (serves(g.read.doc.spec) && !o.no_up),
        !b && serves(g.read.doc.spec) && !o.no_up ==> found_down(
            v,
            w.asked.len() as int,
            g.config.vmid,
        ),
{
    let (j, q, u, k) = p;
    assert(directories_made(v, m, c, g));
    assert(file_is(v, j, g.config.vmid, apply::rendered(c, g)->Ok_0));
    assert(recorded_at(v, k, g.config.vmid, g.read.digest, w.stamp));
    assert(v.asked[u] == v.asked[u]);
}

/// Docker is looked for before anything else is done in a guest, and where it
/// does not answer it is installed before anything else is.
#[verifier::rlimit(40)]
pub proof fn law_docker_comes_first(w: WorldV, c: CtxV, g: GuestV, o: Options)
    requires
        settled(w),
    ensures
        ({
            let v = apply::docker_apply_guest_s(w, c, g, o).0;
            let i = w.asked.len() as int;
            let vmid = g.config.vmid;
            &&& v.asked[i] == sh(vmid, "docker info >/dev/null 2>&1"@)
            &&& i + 1 < v.asked.len() && !went_well(v, i) ==> v.asked[i + 1] == long_sh(
                vmid,
                provision::SCRIPT@,
            ) && (i + 2 < v.asked.len() ==> went_well(v, i + 1))
            &&& i + 1 < v.asked.len() && went_well(v, i) ==> v.asked[i + 1] != long_sh(
                vmid,
                provision::SCRIPT@,
            )
        }),
{
    let vmid = g.config.vmid;
    let i = w.asked.len() as int;
    lemma_docker(w, vmid, vmid);
    let (p, m) = lemma_half(w, c, g, o, vmid);
    let (w1, r1) = provision::ensure_docker_s(w, vmid);
    let (v, r) = apply::docker_apply_guest_s(w, c, g, o);
    let owner = ops::owner_of(g, c);
    let script = stack::layout_script(apply::owners_of(g.volumes, owner));
    if r1 is Ok {
        lemma_exec(w1, vmid, script);
        let (w2, r2) = stack::ensure_layout_s(w1, vmid, apply::owners_of(g.volumes, owner));
        let q = w1.asked.len() as int;
        assert(w2.asked[q] == sh(vmid, script));
        if r2 is Ok {
            let x = lemma_land(w2, c, g, o, vmid);
            assert(v.asked[q] == w2.asked[q]);
            assert(v.asked[i] == w2.asked[i]);
            assert(w2.asked[i] == w1.asked[i]);
            assert(w1.asked.len() == i + 2 ==> v.asked[i + 1] == w2.asked[i + 1] && w2.asked[i + 1]
                == w1.asked[i + 1]);
        } else {
            assert(w2.asked[i] == w1.asked[i]);
            assert(w1.asked.len() == i + 2 ==> w2.asked[i + 1] == w1.asked[i + 1]);
        }
    }
}

} // verus!
