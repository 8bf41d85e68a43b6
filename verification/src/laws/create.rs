//! What `new` makes, and in which order.

use vstd::prelude::*;

use crate::cmd;
use crate::config::{self, ConfigV};
use crate::doc;
use crate::json;
use crate::laws::reach::{self, May, applying, inside, looking, may, only};
use crate::laws::{
    begins, captured, further, lemma_begins, lemma_further, settled, went_well,
};
use crate::laws::guest;
use crate::lock;
use crate::num;
use crate::ops::apply::{self, Options};
use crate::ops::new::{self, DecidedV, NewArgsV, Source, WrapperSpecV};
use crate::ops::{CtxV, template};
use crate::pct;
use crate::prompt;
use crate::size;
use crate::stack;
use crate::table;
use crate::text::{self, Text};
use crate::world::{self, ActV, StopV, WorldV};
use crate::yaml::{self, Tree};

verus! {

/// Whether an action is a `pct create`.
pub open spec fn is_create(a: ActV) -> bool {
    a matches ActV::Run(c) && c.program == "pct"@ && c.args.len() > 0 && c.args[0] == "create"@
}

/// Whether an action reads or asks, and changes nothing.
pub open spec fn finds_out(a: ActV) -> bool {
    match a {
        ActV::Run(c) => (c.program == "pvesh"@ || c.program == "pve-meta"@) && c.args.len() > 0
            && c.args[0] == "get"@,
        ActV::Read { .. } => true,
        ActV::Terminal => true,
        ActV::Ask { .. } => true,
        _ => false,
    }
}

/// Whether an action is a question.
pub open spec fn is_question(a: ActV) -> bool {
    a is Terminal || a is Ask
}

/// Whether all on the way finds out.
spec fn finding<T>(w: WorldV, v: WorldV, r: Result<T, StopV>) -> bool {
    &&& further(w, v, r)
    &&& forall|i: int| w.asked.len() <= i < v.asked.len() ==> finds_out(#[trigger] v.asked[i])
}

/// Whether nothing on the way is a question or creates anything.
spec fn working<T>(w: WorldV, v: WorldV, r: Result<T, StopV>) -> bool {
    &&& further(w, v, r)
    &&& forall|i: int|
        w.asked.len() <= i < v.asked.len() ==> !is_question(#[trigger] v.asked[i]) && !is_create(
            v.asked[i],
        )
}

proof fn lemma_finding<A, B>(
    w: WorldV,
    u: WorldV,
    a: Result<A, StopV>,
    v: WorldV,
    b: Result<B, StopV>,
)
    requires
        finding(w, u, a),
        !(a matches Err(StopV::Act(_))),
        finding(u, v, b),
    ensures
        finding(w, v, b),
{
    lemma_further(w, u, a, v, b);
    assert forall|i: int| w.asked.len() <= i < v.asked.len() implies finds_out(
        #[trigger] v.asked[i],
    ) by {
        if i < u.asked.len() {
            assert(v.asked[i] == u.asked[i]);
        }
    }
}

proof fn lemma_working<A, B>(
    w: WorldV,
    u: WorldV,
    a: Result<A, StopV>,
    v: WorldV,
    b: Result<B, StopV>,
)
    requires
        working(w, u, a),
        !(a matches Err(StopV::Act(_))),
        working(u, v, b),
    ensures
        working(w, v, b),
{
    lemma_further(w, u, a, v, b);
    assert forall|i: int| w.asked.len() <= i < v.asked.len() implies !is_question(
        #[trigger] v.asked[i],
    ) && !is_create(v.asked[i]) by {
        if i < u.asked.len() {
            assert(v.asked[i] == u.asked[i]);
        }
    }
}

proof fn lemma_words()
    ensures
        "create"@ != "exec"@ && "create"@ != "push"@ && "create"@ != "set"@ && "create"@
            != "resize"@ && "create"@ != "start"@,
        "pct"@ != "pvesh"@ && "pct"@ != "pve-meta"@ && "pct"@ != "dpkg"@ && "pct"@ != "pveam"@,
{
    reveal_strlit("create");
    reveal_strlit("exec");
    reveal_strlit("push");
    reveal_strlit("set");
    reveal_strlit("resize");
    reveal_strlit("start");
    reveal_strlit("pct");
    reveal_strlit("pvesh");
    reveal_strlit("pve-meta");
    reveal_strlit("dpkg");
    reveal_strlit("pveam");
    assert("create"@[0] == 'c' && "resize"@[0] == 'r');
    assert("create"@.len() == 6 && "exec"@.len() == 4 && "push"@.len() == 4 && "set"@.len() == 3
        && "start"@.len() == 5);
    assert("pct"@.len() == 3 && "pvesh"@.len() == 5 && "pve-meta"@.len() == 8 && "dpkg"@.len() == 4
        && "pveam"@.len() == 5);
}

/// What touches a guest asks nothing and creates nothing.
proof fn lemma_only_works<T>(m: May, vmid: u32, w: WorldV, v: WorldV, r: Result<T, StopV>)
    requires
        only(m, vmid, w, v, r),
    ensures
        working(w, v, r),
{
    lemma_words();
    assert forall|i: int| w.asked.len() <= i < v.asked.len() implies !is_question(
        #[trigger] v.asked[i],
    ) && !is_create(v.asked[i]) by {
        assert(may(m, vmid, v.asked[i]));
    }
}

proof fn lemma_only_looks<T>(vmid: u32, w: WorldV, v: WorldV, r: Result<T, StopV>)
    requires
        only(looking(), vmid, w, v, r),
    ensures
        finding(w, v, r),
{
    assert forall|i: int| w.asked.len() <= i < v.asked.len() implies finds_out(
        #[trigger] v.asked[i],
    ) by {
        assert(may(looking(), vmid, v.asked[i]));
    }
}

// ---------------------------------------------------------------------------
// The decisions.

proof fn lemma_answer(w: WorldV, n: nat)
    requires
        settled(w),
    ensures
        finding(w, prompt::answer_s(w, n).0, prompt::answer_s(w, n).1),
    decreases w.replies.len() - w.pos,
{
    let (u, x) = prompt::read_line_s(w, "> "@);
    assert(finding(w, u, x));
    if x is Ok {
        let y = u.note("a number from 1 to "@ + num::dec(n));
        lemma_answer(y, n);
        let (v, r) = prompt::answer_s(y, n);
        assert(finding(u, v, r));
        lemma_finding(w, u, x, v, r);
    }
}

proof fn lemma_listed(w: WorldV, items: Seq<Text>)
    ensures
        ({
            let v = prompt::listed(w, items);
            v.asked == w.asked && v.replies == w.replies && v.pos == w.pos
        }),
    decreases items.len(),
{
    if items.len() > 0 {
        lemma_listed(w, items.drop_last());
    }
}

proof fn lemma_settle(
    w: WorldV,
    c: CtxV,
    flag: Option<Text>,
    configured: Option<Text>,
    content: Text,
    what: Text,
    key: Text,
)
    requires
        settled(w),
    ensures
        finding(
            w,
            new::settle_storage_s(w, c, flag, configured, content, what, key).0,
            new::settle_storage_s(w, c, flag, configured, content, what, key).1,
        ),
{
    if flag is None && configured is None {
        let args = seq!["--content"@, content, "--enabled"@, "1"@];
        reach::lemma_pvesh(w, "/nodes/"@ + c.node + "/storage"@, args, 0);
        let (w1, r1) = pct::storages_s(w, c.node, content);
        assert(only(looking(), 0, w, w1, r1));
        lemma_only_looks(0, w, w1, r1);
        if r1 is Ok && r1->Ok_0.len() > 0 {
            let l = r1->Ok_0;
            let (w2, r2) = prompt::interactive_s(w1);
            assert(finding(w1, w2, r2));
            lemma_finding(w, w1, r1, w2, r2);
            if r2 matches Ok(true) {
                let q = "Which storage for "@ + what + " on "@ + c.node + "?"@;
                let items = new::storage_lines(l);
                lemma_listed(w2.note(q), items);
                let u = prompt::listed(w2.note(q), items);
                assert(items.len() == l.len());
                lemma_answer(u, items.len());
                let (w3, r3) = prompt::pick_s(w2, q, items);
                assert(finding(w2, w3, r3));
                lemma_finding(w, w2, r2, w3, r3);
            }
        }
    }
}

proof fn lemma_store(w: WorldV, source: Source, question: Text)
    requires
        settled(w),
    ensures
        finding(w, new::store_s(w, source, question).0, new::store_s(w, source, question).1),
{
}

#[verifier::rlimit(40)]
proof fn lemma_decided(w: WorldV, c: CtxV, a: NewArgsV)
    requires
        settled(w),
    ensures
        finding(w, new::decided_s(w, c, a).0, new::decided_s(w, c, a).1),
        new::decided_s(w, c, a).1 matches Ok(d) ==> ({
            &&& a.storage matches Some(s) ==> d.storage == s
            &&& a.storage is None ==> (table::lookup(c.config.nodes, c.node) matches Some(Some(s))
                ==> d.storage == s)
        }),
{
    let (w1, r1) = pct::owner_node_s(w, a.vmid);
    assert(finding(w, w1, r1));
    let (w3, r3) = new::free_s(w, a.vmid);
    if r1 matches Ok(None) {
        reach::lemma_document(w1, a.vmid, 0);
        let (w2, r2) = doc::read_s(w1, a.vmid);
        lemma_only_looks(0, w1, w2, r2);
        lemma_finding(w, w1, r1, w2, r2);
        assert(finding(w, w3, r3));
    }
    assert(finding(w, w3, r3));
    if r3 is Ok {
        lemma_settle(
            w3,
            c,
            None,
            c.config.template.storage,
            "vztmpl"@,
            "templates"@,
            "template-storage"@,
        );
        let (w4, r4) = new::template_storage_s(w3, c, a.template);
        assert(finding(w3, w4, r4));
        lemma_finding(w, w3, r3, w4, r4);
        if r4 is Ok {
            let configured = config::storage_for(c.config, c.node);
            lemma_settle(
                w4,
                c,
                a.storage,
                configured,
                "rootdir"@,
                "container disks"@,
                "storage"@,
            );
            let (w5, r5) = new::settle_storage_s(
                w4,
                c,
                a.storage,
                configured,
                "rootdir"@,
                "container disks"@,
                "storage"@,
            );
            lemma_finding(w, w4, r4, w5, r5);
            if r5 is Ok {
                let t = r4->Ok_0;
                let d = r5->Ok_0;
                lemma_store(w5, t.1, new::store_template_question(t.0));
                let (w6, r6) = new::store_s(w5, t.1, new::store_template_question(t.0));
                lemma_finding(w, w5, r5, w6, r6);
                if r6 is Ok {
                    let q = new::store_storage_question(d.0, c.node);
                    lemma_store(w6, d.1, q);
                    let (w7, r7) = new::store_s(w6, d.1, q);
                    lemma_finding(w, w6, r6, w7, r7);
                    let (v, r) = new::stores_s(w5, c, t, d);
                    assert(finding(w, v, r));
                }
            }
        }
    }
}

// ---------------------------------------------------------------------------
// What follows them.

proof fn lemma_stored(w: WorldV, c: CtxV, d: DecidedV)
    requires
        settled(w),
    ensures
        working(w, new::stored_s(w, c, d).0, new::stored_s(w, c, d).1),
        new::stored_s(w, c, d).1 matches Ok(cfg) ==> cfg == c.config || (
        new::stored_s(w, c, d).0.asked.last() is Replace && new::stored_s(w, c, d).0.asked.len()
            > w.asked.len()),
{
    let (v, r) = new::stored_s(w, c, d);
    if d.store_template || d.store_storage {
        let (w1, r1) = config::load_from_s(w, config::PATH@);
        assert(working(w, w1, r1));
        if r1 is Ok {
            let x = config::with_answers(
                r1->Ok_0,
                if d.store_template {
                    Some(d.template_storage)
                } else {
                    None
                },
                c.node,
                if d.store_storage {
                    Some(d.storage)
                } else {
                    None
                },
            );
            let (w2, r2) = config::stored_s(w1, x);
            assert(working(w1, w2, r2));
            lemma_working(w, w1, r1, w2, r2);
        }
    }
}

proof fn lemma_newest(w: WorldV, c: CtxV, storage: Text, prefix: Text)
    requires
        settled(w),
    ensures
        working(
            w,
            template::newest_vztmpl_s(w, c, storage, prefix).0,
            template::newest_vztmpl_s(w, c, storage, prefix).1,
        ),
{
    lemma_words();
    let (w1, r1) = template::arch_s(w);
    assert(working(w, w1, r1));
    if r1 is Ok {
        let path = "/nodes/"@ + c.node + "/storage/"@ + storage + "/content"@;
        let args = seq!["--content"@, "vztmpl"@];
        reach::lemma_pvesh(w1, path, args, 0);
        let (w2, r2) = cmd::pvesh_get_s(w1, path, args);
        lemma_only_works(looking(), 0, w1, w2, r2);
        lemma_working(w, w1, r1, w2, r2);
    }
}

proof fn lemma_download(w: WorldV, c: CtxV, storage: Text)
    requires
        settled(w),
    ensures
        working(
            w,
            template::download_base_s(w, c, storage).0,
            template::download_base_s(w, c, storage).1,
        ),
{
    lemma_words();
    let base = c.config.template.base;
    let (w1, r1) = template::arch_s(w);
    assert(working(w, w1, r1));
    if r1 is Ok {
        let arch = r1->Ok_0;
        let u1 = w1.note("template: fetching the "@ + base + " template list"@);
        let (w2, r2) = cmd::run_within_s(u1, world::program("pveam"@).arg("update"@), 1800);
        assert(working(w1, w2, r2));
        lemma_working(w, w1, r1, w2, r2);
        if r2 is Ok {
            let (w3, r3) = cmd::run_s(
                w2,
                world::program("pveam"@).arg("available"@).arg("--section"@).arg("system"@),
            );
            assert(working(w2, w3, r3));
            lemma_working(w, w2, r2, w3, r3);
            if r3 is Ok {
                let l = template::newest_listed(
                    text::lines_of(r3->Ok_0.stdout),
                    base + "_"@,
                    arch,
                );
                if l is Some {
                    let name = l->0;
                    let u3 = w3.note("template: downloading "@ + name + " to "@ + storage);
                    let (w4, r4) = cmd::streamed_s(
                        u3,
                        world::program("pveam"@).arg("download"@).arg(storage).arg(name).streamed(
                            Some(1800),
                        ),
                    );
                    assert(working(w3, w4, r4));
                    lemma_working(w, w3, r3, w4, r4);
                }
            }
        }
    }
}

proof fn lemma_resolve(w: WorldV, c: CtxV, storage: Text, explicit: Option<Text>)
    requires
        settled(w),
    ensures
        working(
            w,
            template::resolve_s(w, c, storage, explicit).0,
            template::resolve_s(w, c, storage, explicit).1,
        ),
{
    match explicit {
        Some(e) => {
            lemma_newest(w, c, storage, e);
        },
        None => {
            let p = c.config.template.base + "_"@;
            lemma_newest(w, c, storage, p);
            let (w1, r1) = template::newest_vztmpl_s(w, c, storage, p);
            if r1 matches Ok(None) {
                lemma_download(w1, c, storage);
                let (v, r) = template::download_base_s(w1, c, storage);
                lemma_working(w, w1, r1, v, r);
            }
        },
    }
}

proof fn lemma_wait(w: WorldV, vmid: u32, secs: u32, deadline: int)
    requires
        settled(w),
    ensures
        working(
            w,
            pct::ready_by_s(w, vmid, secs, deadline).0,
            pct::ready_by_s(w, vmid, secs, deadline).1,
        ),
    decreases w.replies.len() - w.pos,
{
    lemma_words();
    guest::lemma_status(w, vmid, pct::route_script());
    let (w1, r1) = pct::exec_status_s(w, vmid, pct::route_script());
    assert(working(w, w1, r1));
    if !(r1 matches Err(StopV::Act(_))) {
        let (w2, r2) = w1.act(ActV::Sleep { millis: 2000 });
        assert(working(w1, w2, r2));
        lemma_working(w, w1, r1, w2, r2);
        if !(r2 matches Err(StopV::Act(_))) {
            lemma_wait(w2, vmid, secs, deadline);
            let (v, r) = pct::ready_by_s(w2, vmid, secs, deadline);
            lemma_working(w, w2, r2, v, r);
        }
    }
}

proof fn lemma_template_facts(w: WorldV, vmid: u32, t: Text)
    requires
        settled(w),
    ensures
        only(
            inside(),
            vmid,
            w,
            new::template_facts_s(w, vmid, t).0,
            new::template_facts_s(w, vmid, t).1,
        ),
{
    reach::lemma_read_facts(w, vmid);
    let (w1, r1) = stack::read_facts_s(w, vmid);
    if r1 is Ok {
        let f = stack::FactsV {
            template: Some(t),
            ..match r1->Ok_0 {
                Some(f) => f,
                None => stack::no_facts(),
            }
        };
        if yaml::yaml_text(stack::facts_tree(f)) is Ok {
            let x = yaml::yaml_text(stack::facts_tree(f))->Ok_0;
            reach::lemma_write(w1, vmid, stack::FACTS_FILE@, x, "0644"@);
            let (w2, r2) = pct::write_file_s(w1, vmid, stack::FACTS_FILE@, x, "0644"@);
            reach::lemma_only(inside(), inside(), vmid, w, w1, r1, w2, r2);
        }
    }
}

/// The options of the apply of a new wrapper.
pub open spec fn first_apply(a: NewArgsV) -> Options {
    Options { pull: false, no_up: a.no_up, only_if_up: false }
}

/// Whether a guest was applied with success on the way.
#[verifier::opaque]
pub open spec fn started_and_applied(w: WorldV, v: WorldV, c: CtxV, a: NewArgsV) -> bool {
    exists|u: WorldV|
        #[trigger] settled(u) && apply::apply_locked_s(u, c, a.vmid, first_apply(a)).1 is Ok
            && begins(w, u) && begins(
            apply::apply_locked_s(u, c, a.vmid, first_apply(a)).0,
            v,
        )
}

#[verifier::rlimit(40)]
proof fn lemma_started(w: WorldV, c: CtxV, a: NewArgsV, t: Text)
    requires
        settled(w),
    ensures
        upstarted(w, new::started_s(w, c, a, t).0, new::started_s(w, c, a, t).1, c, a),
{
    lemma_words();
    let vmid = a.vmid;
    let (v, r) = new::started_s(w, c, a, t);
    let call = pct::pct_call("start"@, vmid).captured(1800);
    assert(call.args =~= seq!["start"@, num::dec(vmid as nat)]);
    let (w1, r1) = pct::start_s(w, vmid);
    assert(w1.asked == w.asked.push(ActV::Run(call)));
    assert(working(w, w1, r1));
    let i = w.asked.len() as int;
    if r1 is Ok {
        lemma_wait(w1, vmid, 90, w1.now + 90 * 1000);
        let (w2, r2) = pct::wait_ready_s(w1, vmid, 90);
        lemma_working(w, w1, r1, w2, r2);
        assert(w2.asked[i] == w1.asked[i]);
        if r2 is Ok {
            let u = w2.note("new: "@ + pct::vm(vmid) + " is up"@);
            let o = first_apply(a);
            reach::lemma_apply_locked(u, c, vmid, o);
            let (w3, r3) = apply::apply_locked_s(u, c, vmid, o);
            lemma_only_works(applying(), vmid, w2, w3, r3);
            lemma_working(w, w2, r2, w3, r3);
            assert(w3.asked[i] == w2.asked[i]);
            if r3 is Ok {
                lemma_template_facts(w3, vmid, t);
                let (w4, r4) = new::template_facts_s(w3, vmid, t);
                lemma_only_works(inside(), vmid, w3, w4, r4);
                lemma_working(w, w3, r3, w4, r4);
                assert(w4.asked[i] == w3.asked[i]);
                if r4 is Ok {
                    let u4 = w4.note(new::done_line(vmid, a.no_up));
                    reach::lemma_running(u4, c, vmid, vmid);
                    lemma_only_works(looking(), vmid, w4, v, r);
                    lemma_working(w, w4, r4, v, r);
                    assert(v.asked[i] == w4.asked[i]);
                    if r is Ok {
                        reveal(started_and_applied);
                        assert(settled(u));
                        assert(begins(w3, v)) by {
                            lemma_further(w3, w4, r4, v, r);
                        }
                        assert(begins(w, u));
                    }
                }
            }
        }
    }
}

/// The command that creates a wrapper.
pub open spec fn create_command(
    a: NewArgsV,
    cfg: ConfigV,
    tag: Option<Text>,
    storage: Text,
    template: Text,
) -> ActV {
    captured(
        "pct"@,
        seq![
            "create"@,
            num::dec(a.vmid as nat),
            template,
            "--hostname"@,
            a.name,
            "--rootfs"@,
            storage + ":"@ + size::gib(
                match a.rootfs_size {
                    Some(n) => n,
                    None => cfg.defaults.rootfs_size,
                },
            ),
            "--unprivileged"@,
            "1"@,
            "--cores"@,
            num::dec(
                match a.cores {
                    Some(n) => n as nat,
                    None => cfg.defaults.cores as nat,
                },
            ),
            "--memory"@,
            num::dec(
                match a.memory {
                    Some(n) => n as nat,
                    None => cfg.defaults.memory as nat,
                },
            ),
            "--swap"@,
            "0"@,
            "--net0"@,
            "name=eth0,bridge="@ + (match a.bridge {
                Some(b) => b,
                None => cfg.defaults.bridge,
            }) + ",ip="@ + (match a.ip {
                Some(i) => i,
                None => "dhcp"@,
            }) + (match a.gateway {
                Some(g) => ",gw="@ + g,
                None => Seq::empty(),
            }),
            "--features"@,
            "nesting=1,keyctl=1"@,
            "--onboot"@,
            "1"@,
        ] + (match tag {
            Some(t) => if t.len() > 0 {
                seq!["--tags"@, t]
            } else {
                Seq::empty()
            },
            None => Seq::empty(),
        }),
        1800,
    )
}

proof fn lemma_command(a: NewArgsV, cfg: ConfigV, c: CtxV, storage: Text, t: Text)
    ensures
        ActV::Run(new::create_call(new::wrapper_of(c, cfg, a, storage, t)).captured(1800))
            == create_command(a, cfg, c.tag, storage, t),
{
    let s = new::wrapper_of(c, cfg, a, storage, t);
    let tags = text::joined(s.tags, ";"@);
    match c.tag {
        Some(x) => {
            assert(tags == x);
        },
        None => {
            assert(tags.len() == 0);
        },
    }
    let call = new::create_call(s).captured(1800);
    assert(call.args =~= create_command(a, cfg, c.tag, storage, t)->Run_0.args);
}

/// The document that a new wrapper gets.
pub open spec fn first_document() -> Text {
    "policy:\n  pct: auto\n  docker: auto\n  pull: manual\nspec:\n  services: {}\n"@
}

/// What follows a `pct create` at `i`: nothing more unless it went well; then
/// the document is written, the lock taken, and the guest started, each after
/// the one before it went well.
pub open spec fn goes_on(v: WorldV, i: int, vmid: u32) -> bool {
    let n = v.asked.len();
    &&& n > i + 1 ==> went_well(v, i) && v.asked[i + 1] is Temp && v.asked[i + 1]->Temp_text
        == first_document()
    &&& n > i + 2 ==> v.replies[i + 1].result is Ok && v.asked[i + 2] == captured(
        "pve-meta"@,
        seq![
            "set"@,
            num::dec(vmid as nat),
            "compose"@,
            "--file"@,
            v.replies[i + 1].result->Ok_0.stdout,
        ],
        120,
    )
    &&& n > i + 3 ==> v.asked[i + 3] == (ActV::Remove {
        path: v.replies[i + 1].result->Ok_0.stdout,
    })
    &&& n > i + 4 ==> went_well(v, i + 2) && v.asked[i + 4] == (ActV::Lock { vmid, wait: 60 })
    &&& n > i + 5 ==> v.replies[i + 4].result is Ok && v.asked[i + 5] == captured(
        "pct"@,
        seq!["start"@, num::dec(vmid as nat)],
        1800,
    )
}

proof fn lemma_written(w: WorldV, vmid: u32)
    requires
        settled(w),
    ensures
        ({
            let (v, r) = doc::write_prefix_s(w, vmid, "compose"@, first_document());
            let i = w.asked.len() as int;
            &&& working(w, v, r)
            &&& v.asked.len() <= i + 3
            &&& v.asked[i] is Temp && v.asked[i]->Temp_text == first_document()
            &&& v.asked.len() > i + 1 ==> v.replies[i].result is Ok && v.asked[i + 1] == captured(
                "pve-meta"@,
                seq![
                    "set"@,
                    num::dec(vmid as nat),
                    "compose"@,
                    "--file"@,
                    v.replies[i].result->Ok_0.stdout,
                ],
                120,
            )
            &&& v.asked.len() > i + 2 ==> v.asked[i + 2] == (ActV::Remove {
                path: v.replies[i].result->Ok_0.stdout,
            })
            &&& r is Ok ==> v.asked.len() == i + 3 && went_well(v, i + 1)
        }),
{
    lemma_words();
    let (v, r) = doc::write_prefix_s(w, vmid, "compose"@, first_document());
    let name = "pve-compose-"@ + "compose"@ + "-"@ + num::dec(vmid as nat) + ".yaml"@;
    let (w1, r1) = w.act(ActV::Temp { name, text: first_document() });
    assert(working(w, w1, r1));
    if r1 is Ok {
        let path = r1->Ok_0.stdout;
        let call = doc::set_call(vmid, "compose"@, path).captured(120);
        assert(call.args =~= seq!["set"@, num::dec(vmid as nat), "compose"@, "--file"@, path]);
        let (w2, r2) = cmd::run_s(w1, doc::set_call(vmid, "compose"@, path));
        assert(w2.asked == w1.asked.push(ActV::Run(call)));
        assert(working(w1, w2, r2));
        lemma_working(w, w1, r1, w2, r2);
        if !(r2 matches Err(StopV::Act(_))) {
            let (w3, r3) = w2.act(ActV::Remove { path });
            assert(working(w2, w3, r3));
            lemma_working(w, w2, r2, w3, r3);
            assert(v == w3);
        } else {
            assert(v == w2);
        }
    }
}

/// What holds of a wrapper that is made: it is created once, first of all.
spec fn made_once<T>(
    w: WorldV,
    v: WorldV,
    r: Result<T, StopV>,
    a: NewArgsV,
    create: ActV,
) -> bool {
    let i = w.asked.len() as int;
    &&& further(w, v, r)
    &&& v.asked.len() > i && v.asked[i] == create
    &&& goes_on(v, i, a.vmid)
    &&& forall|j: int|
        i < j < v.asked.len() ==> !is_question(#[trigger] v.asked[j]) && !is_create(v.asked[j])
}

/// What holds once the wrapper is created and its document written.
spec fn documented(w: WorldV, v: WorldV, r: Result<(), StopV>, vmid: u32, create: ActV) -> bool {
    let i = w.asked.len() as int;
    &&& further(w, v, r)
    &&& v.asked.len() > i && v.asked[i] == create
    &&& goes_on(v, i, vmid)
    &&& forall|j: int|
        i < j < v.asked.len() ==> !is_question(#[trigger] v.asked[j]) && !is_create(v.asked[j])
    &&& v.asked.len() <= i + 4
    &&& r is Ok ==> v.asked.len() == i + 4 && went_well(v, i + 2)
}

/// What holds once the wrapper is started.
spec fn upstarted(
    w: WorldV,
    v: WorldV,
    r: Result<(), StopV>,
    c: CtxV,
    a: NewArgsV,
) -> bool {
    &&& working(w, v, r)
    &&& v.asked.len() > w.asked.len()
    &&& v.asked[w.asked.len() as int] == captured(
        "pct"@,
        seq!["start"@, num::dec(a.vmid as nat)],
        1800,
    )
    &&& r is Ok ==> started_and_applied(w, v, c, a)
}

#[verifier::rlimit(40)]
proof fn lemma_created(w: WorldV, s: WrapperSpecV)
    requires
        settled(w),
    ensures
        documented(
            w,
            new::created_s(w, s).0,
            new::created_s(w, s).1,
            s.vmid,
            ActV::Run(new::create_call(s).captured(1800)),
        ),
{
    let (v, r) = new::created_s(w, s);
    let i = w.asked.len() as int;
    let u = w.note(
        "new: creating "@ + pct::vm(s.vmid) + " ("@ + s.hostname + ") from "@ + s.template,
    );
    let (w1, r1) = pct::quiet_s(u, new::create_call(s));
    assert(w1.asked == w.asked.push(ActV::Run(new::create_call(s).captured(1800))));
    assert(further(w, w1, r1));
    if r1 is Ok {
        lemma_written(w1, s.vmid);
        let (w2, r2) = doc::write_prefix_s(w1, s.vmid, "compose"@, first_document());
        lemma_further(w, w1, r1, w2, r2);
        assert(w2.asked[i] == w1.asked[i]);
        assert(v.asked == w2.asked && v.replies == w2.replies && v.pos == w2.pos);
        assert(went_well(v, i));
        assert(v.asked[i + 1] == w2.asked[i + 1]);
    }
}

/// The parts of a made wrapper put together: `w1` after the document was
/// written, `w2` with the lock, `w3` once started.
proof fn lemma_assembled<T>(
    w: WorldV,
    w1: WorldV,
    w2: WorldV,
    w3: WorldV,
    x: Result<(), StopV>,
    v: WorldV,
    r: Result<T, StopV>,
    a: NewArgsV,
    create: ActV,
)
    requires
        settled(w),
        further(w, w1, Ok::<(), StopV>(())),
        w1.asked.len() == w.asked.len() + 4,
        w1.asked[w.asked.len() as int] == create,
        goes_on(w1, w.asked.len() as int, a.vmid),
        went_well(w1, w.asked.len() as int + 2),
        forall|j: int|
            w.asked.len() < j < w1.asked.len() ==> !is_question(#[trigger] w1.asked[j])
                && !is_create(w1.asked[j]),
        further(w1, w2, Ok::<(), StopV>(())),
        w2.asked == w1.asked.push(ActV::Lock { vmid: a.vmid, wait: 60 }),
        w2.replies[w1.asked.len() as int].result is Ok,
        working(w2, w3, x),
        w3.asked.len() > w2.asked.len(),
        w3.asked[w2.asked.len() as int] == captured(
            "pct"@,
            seq!["start"@, num::dec(a.vmid as nat)],
            1800,
        ),
        further(w3, v, r),
        v.asked == w3.asked || v.asked == w3.asked.push(ActV::Unlock { vmid: a.vmid }),
    ensures
        ({
            let i = w.asked.len() as int;
            &&& v.asked.len() > i && v.asked[i] == create
            &&& goes_on(v, i, a.vmid)
            &&& forall|j: int|
                i < j < v.asked.len() ==> !is_question(#[trigger] v.asked[j]) && !is_create(
                    v.asked[j],
                )
        }),
{
    let i = w.asked.len() as int;
    assert forall|j: int| 0 <= j < w3.asked.len() implies #[trigger] v.asked[j] == w3.asked[j] by {}
    assert forall|j: int| 0 <= j < w2.asked.len() implies #[trigger] v.asked[j] == w2.asked[j] by {
        assert(w3.asked[j] == w2.asked[j]);
    }
    assert forall|j: int| 0 <= j < w1.asked.len() implies #[trigger] v.asked[j] == w1.asked[j] by {
        assert(w2.asked[j] == w1.asked[j]);
    }
    assert(v.asked[i] == create);
    assert(v.asked[i + 1] == w1.asked[i + 1]);
    assert(v.asked[i + 2] == w1.asked[i + 2]);
    assert(v.asked[i + 3] == w1.asked[i + 3]);
    assert(v.asked[i + 4] == w2.asked[i + 4]);
    assert(v.asked[i + 5] == w3.asked[i + 5]);
    assert(went_well(v, i) && went_well(v, i + 2));
}

proof fn lemma_carried(w: WorldV, w2: WorldV, w3: WorldV, v: WorldV, c: CtxV, a: NewArgsV)
    requires
        started_and_applied(w2, w3, c, a),
        begins(w, w2),
        begins(w3, v),
    ensures
        started_and_applied(w, v, c, a),
{
    reveal(started_and_applied);
    let u = choose|u: WorldV|
        #[trigger] settled(u) && apply::apply_locked_s(u, c, a.vmid, first_apply(a)).1 is Ok
            && begins(w2, u) && begins(
            apply::apply_locked_s(u, c, a.vmid, first_apply(a)).0,
            w3,
        );
    let x = apply::apply_locked_s(u, c, a.vmid, first_apply(a)).0;
    lemma_begins(w, w2, u);
    lemma_begins(x, w3, v);
    assert(settled(u));
}

#[verifier::rlimit(40)]
proof fn lemma_parts(
    w: WorldV,
    w1: WorldV,
    r1: Result<(), StopV>,
    w3: WorldV,
    r3: Result<(), StopV>,
    v: WorldV,
    r: Result<(), StopV>,
    c: CtxV,
    a: NewArgsV,
    create: ActV,
)
    requires
        settled(w),
        documented(w, w1, r1, a.vmid, create),
        ({
            let (w2, r2) = lock::take_s(w1, a.vmid, 60);
            &&& r1 is Ok && r2 is Ok ==> upstarted(w2, w3, r3, c, a)
            &&& (v, r) == match r1 {
                Err(e) => (w1, Err(e)),
                Ok(_) => match r2 {
                    Err(e) => (w2, Err(e)),
                    Ok(_) => lock::released((w3, r3), a.vmid),
                },
            }
        }),
    ensures
        made_once(w, v, r, a, create),
        r is Ok ==> started_and_applied(w, v, c, a),
{
    let vmid = a.vmid;
    let i = w.asked.len() as int;
    if r1 is Ok {
        let (w2, r2) = lock::take_s(w1, vmid, 60);
        assert(w2.asked == w1.asked.push(ActV::Lock { vmid, wait: 60 }));
        assert(further(w1, w2, r2));
        lemma_further(w, w1, r1, w2, r2);
        if r2 is Ok {
            lemma_further(w, w2, r2, w3, r3);
            lemma_ended(w3, r3, v, r, vmid);
            assert(further(w, v, r)) by {
                if !(r3 matches Err(StopV::Act(_))) {
                    lemma_further(w, w3, r3, v, r);
                }
            }
            lemma_assembled(w, w1, w2, w3, r3, v, r, a, create);
            if r is Ok {
                assert(begins(w, w2));
                lemma_carried(w, w2, w3, v, c, a);
            }
        } else {
            assert(v == w2);
            assert forall|j: int| 0 <= j <= i + 3 implies #[trigger] w2.asked[j] == w1.asked[j] by {}
        }
    }
}

proof fn lemma_wrapped(w: WorldV, c: CtxV, a: NewArgsV, s: WrapperSpecV)
    requires
        settled(w),
        s.vmid == a.vmid,
    ensures
        made_once(
            w,
            new::wrapped_s(w, c, a, s).0,
            new::wrapped_s(w, c, a, s).1,
            a,
            ActV::Run(new::create_call(s).captured(1800)),
        ),
        new::wrapped_s(w, c, a, s).1 is Ok ==> started_and_applied(
            w,
            new::wrapped_s(w, c, a, s).0,
            c,
            a,
        ),
{
    let (v, r) = new::wrapped_s(w, c, a, s);
    let create = ActV::Run(new::create_call(s).captured(1800));
    lemma_created(w, s);
    let (w1, r1) = new::created_s(w, s);
    let (w2, r2) = lock::take_s(w1, a.vmid, 60);
    let (w3, r3) = new::started_s(w2, c, a, s.template);
    if r1 is Ok && r2 is Ok {
        assert(further(w1, w2, r2));
        lemma_started(w2, c, a, s.template);
    }
    lemma_parts(w, w1, r1, w3, r3, v, r, c, a, create);
}

proof fn lemma_ended<T>(
    u: WorldV,
    x: Result<T, StopV>,
    v: WorldV,
    r: Result<T, StopV>,
    vmid: u32,
)
    requires
        !(x matches Err(StopV::Act(_))) ==> settled(u),
        x matches Err(StopV::Act(a)) ==> u.asked.len() == u.pos + 1 && u.pos == u.replies.len()
            && u.asked.last() == a,
        lock::released((u, x), vmid) == (v, r),
    ensures
        further(u, v, r),
        begins(u, v),
        v.asked == u.asked || v.asked == u.asked.push(ActV::Unlock { vmid }),
        r is Ok ==> x is Ok && v.asked == u.asked.push(ActV::Unlock { vmid }),
{
}

/// What holds of `new`: up to `d` it finds out, and at `x`, if it gets there,
/// it creates the wrapper.
spec fn newly(
    w: WorldV,
    v: WorldV,
    r: Result<(), StopV>,
    c: CtxV,
    a: NewArgsV,
    d: int,
    x: int,
    cfg: ConfigV,
    storage: Text,
    template: Text,
) -> bool {
    let from = w.asked.len() as int;
    let n = v.asked.len() as int;
    &&& further(w, v, r)
    &&& from <= d <= n
    &&& forall|i: int| from <= i < d ==> finds_out(#[trigger] v.asked[i])
    &&& forall|i: int| d <= i < n ==> !is_question(#[trigger] v.asked[i])
    &&& forall|i: int| from <= i < n && i != x ==> !is_create(#[trigger] v.asked[i])
    &&& d <= x < n ==> ({
        &&& v.asked[x] == create_command(a, cfg, c.tag, storage, template)
        &&& goes_on(v, x, a.vmid)
        &&& cfg == c.config || exists|j: int| d <= j < x && (#[trigger] v.asked[j]) is Replace
        &&& a.storage matches Some(s) ==> storage == s
        &&& a.storage is None ==> (table::lookup(c.config.nodes, c.node) matches Some(Some(s))
            ==> storage == s)
        &&& a.template matches Some(t) ==> (template::is_volid(t) ==> template == t)
    })
    &&& r is Ok ==> d <= x < n && started_and_applied(w, v, c, a)
}

proof fn lemma_finds_is_no_create(a: ActV)
    requires
        finds_out(a),
    ensures
        !is_create(a),
{
    lemma_words();
}

/// `new` put together: `w1` once decided, `w2` once stored, `w3` with the
/// template.
proof fn lemma_newly(
    w: WorldV,
    w1: WorldV,
    w2: WorldV,
    w3: WorldV,
    v: WorldV,
    r: Result<(), StopV>,
    c: CtxV,
    a: NewArgsV,
    cfg: ConfigV,
    storage: Text,
    template: Text,
)
    requires
        finding(w, w1, Ok::<(), StopV>(())),
        working(w1, w2, Ok::<(), StopV>(())),
        cfg == c.config || (w2.asked.last() is Replace && w2.asked.len() > w1.asked.len()),
        working(w2, w3, Ok::<(), StopV>(())),
        made_once(w3, v, r, a, create_command(a, cfg, c.tag, storage, template)),
        r is Ok ==> started_and_applied(w3, v, c, a),
        a.storage matches Some(s) ==> storage == s,
        a.storage is None ==> (table::lookup(c.config.nodes, c.node) matches Some(Some(s))
            ==> storage == s),
        a.template matches Some(t) ==> (template::is_volid(t) ==> template == t),
    ensures
        newly(
            w,
            v,
            r,
            c,
            a,
            w1.asked.len() as int,
            w3.asked.len() as int,
            cfg,
            storage,
            template,
        ),
{
    let k = Ok::<(), StopV>(());
    lemma_further(w, w1, k, w2, k);
    lemma_further(w, w2, k, w3, k);
    lemma_further(w, w3, k, v, r);
    lemma_working(w1, w2, k, w3, k);
    let d = w1.asked.len() as int;
    let x = w3.asked.len() as int;
    assert forall|i: int| 0 <= i < x implies #[trigger] v.asked[i] == w3.asked[i] by {}
    assert forall|i: int| w.asked.len() <= i < d implies finds_out(#[trigger] v.asked[i])
        && !is_create(v.asked[i]) by {
        assert(v.asked[i] == w3.asked[i]);
        assert(w3.asked[i] == w1.asked[i]);
        lemma_finds_is_no_create(w1.asked[i]);
    }
    assert forall|i: int| d <= i < v.asked.len() && i != x implies !is_question(
        #[trigger] v.asked[i],
    ) && !is_create(v.asked[i]) by {
        if i < x {
            assert(v.asked[i] == w3.asked[i]);
        }
    }
    if cfg != c.config {
        let j = w2.asked.len() - 1;
        assert(w3.asked[j] == w2.asked[j]);
        assert(v.asked[j] == w3.asked[j]);
        assert(v.asked[j] is Replace);
    }
    if r is Ok {
        assert(begins(w, w3));
        lemma_carried(w, w3, v, v, c, a);
    }
}

#[verifier::rlimit(40)]
proof fn lemma_new(w: WorldV, v: WorldV, r: Result<(), StopV>, c: CtxV, a: NewArgsV) -> (p: (
    int,
    int,
    ConfigV,
    Text,
    Text,
))
    requires
        settled(w),
        new::new_s(w, c, a) == (v, r),
    ensures
        newly(w, v, r, c, a, p.0, p.1, p.2, p.3, p.4),
{
    let none = Seq::<char>::empty();
    lemma_decided(w, c, a);
    let (w1, r1) = new::decided_s(w, c, a);
    let from = w.asked.len() as int;
    if r1 is Err {
        assert forall|i: int| from <= i < v.asked.len() implies !is_create(
            #[trigger] v.asked[i],
        ) by {
            lemma_finds_is_no_create(v.asked[i]);
        }
        (v.asked.len() as int, v.asked.len() as int, c.config, none, none)
    } else {
        let d = r1->Ok_0;
        lemma_stored(w1, c, d);
        let (w2, r2) = new::stored_s(w1, c, d);
        let k = w1.asked.len() as int;
        if r2 is Err {
            lemma_stopped(w, w1, r1, v, r);
            (k, v.asked.len() as int, c.config, none, none)
        } else {
            let cfg = r2->Ok_0;
            lemma_resolve(w2, c, d.template_storage, a.template);
            let (w3, r3) = template::resolve_s(w2, c, d.template_storage, a.template);
            if r3 is Err {
                lemma_working(w1, w2, r2, w3, r3);
                lemma_stopped(w, w1, r1, v, r);
                (k, v.asked.len() as int, c.config, none, none)
            } else {
                let t = r3->Ok_0;
                let s = new::wrapper_of(c, cfg, a, d.storage, t);
                lemma_command(a, cfg, c, d.storage, t);
                lemma_wrapped(w3, c, a, s);
                lemma_newly(w, w1, w2, w3, v, r, c, a, cfg, d.storage, t);
                (k, w3.asked.len() as int, cfg, d.storage, t)
            }
        }
    }
}

proof fn lemma_stopped<T>(
    w: WorldV,
    w1: WorldV,
    r1: Result<T, StopV>,
    v: WorldV,
    r: Result<(), StopV>,
)
    requires
        finding(w, w1, r1),
        r1 is Ok,
        working(w1, v, r),
    ensures
        further(w, v, r),
        forall|i: int|
            w.asked.len() <= i < w1.asked.len() ==> finds_out(#[trigger] v.asked[i]) && !is_create(
                v.asked[i],
            ),
        forall|i: int|
            w1.asked.len() <= i < v.asked.len() ==> !is_question(#[trigger] v.asked[i])
                && !is_create(v.asked[i]),
{
    lemma_further(w, w1, r1, v, r);
    assert forall|i: int| w.asked.len() <= i < w1.asked.len() implies finds_out(
        #[trigger] v.asked[i],
    ) && !is_create(v.asked[i]) by {
        assert(v.asked[i] == w1.asked[i]);
        lemma_finds_is_no_create(w1.asked[i]);
    }
}

/// Whether a command creates the wrapper as asked for.
pub open spec fn carried(w: WorldV, v: WorldV, c: CtxV, a: NewArgsV, i: int) -> bool {
    exists|cfg: ConfigV, storage: Text, template: Text|
        {
            &&& v.asked[i] == #[trigger] create_command(a, cfg, c.tag, storage, template)
            &&& cfg == c.config || exists|j: int|
                w.asked.len() <= j < i && (#[trigger] v.asked[j]) is Replace
            &&& a.storage matches Some(s) ==> storage == s
            &&& a.storage is None ==> (table::lookup(c.config.nodes, c.node) matches Some(Some(s))
                ==> storage == s)
            &&& a.template matches Some(t) ==> (text::contains(t, ":vztmpl/"@) ==> template == t)
        }
}

proof fn lemma_told(
    w: WorldV,
    v: WorldV,
    r: Result<(), StopV>,
    c: CtxV,
    a: NewArgsV,
    p: (int, int, ConfigV, Text, Text),
)
    requires
        newly(w, v, r, c, a, p.0, p.1, p.2, p.3, p.4),
    ensures
        forall|i: int|
            w.asked.len() <= i < v.asked.len() && is_create(#[trigger] v.asked[i]) ==> i == p.1
                && carried(w, v, c, a, i) && goes_on(v, i, a.vmid),
        forall|i: int, j: int|
            w.asked.len() <= i <= j < v.asked.len() && !finds_out(#[trigger] v.asked[i])
                ==> !is_question(#[trigger] v.asked[j]),
        r is Ok ==> started_and_applied(w, v, c, a) && exists|i: int|
            w.asked.len() <= i < v.asked.len() && is_create(#[trigger] v.asked[i]),
{
    let (d, x, cfg, storage, template) = p;
    assert forall|i: int| w.asked.len() <= i < v.asked.len() && is_create(
        #[trigger] v.asked[i],
    ) implies i == x && carried(w, v, c, a, i) && goes_on(v, i, a.vmid) by {
        assert(i == x);
        if i < d {
            lemma_finds_is_no_create(v.asked[i]);
        }
        assert(v.asked[i] == create_command(a, cfg, c.tag, storage, template));
    }
    if r is Ok {
        assert(create_command(a, cfg, c.tag, storage, template)->Run_0.args[0] == "create"@);
        assert(is_create(v.asked[x]));
    }
}

/// The one `pct create` that `new` runs carries the value of every flag that
/// was given, and a stored default only where the flag is absent: the stored
/// ones are those of the config, unless answers were stored on the way, into
/// the file as it was then. The storage is the flag's, or the one stored for
/// the node; a template that names its storage is taken as it is; the tag is
/// the prefix's.
#[verifier::rlimit(40)]
pub proof fn law_the_flags_are_carried(
    w: WorldV,
    v: WorldV,
    r: Result<(), StopV>,
    c: CtxV,
    a: NewArgsV,
    i: int,
)
    requires
        settled(w),
        new::new_s(w, c, a) == (v, r),
        w.asked.len() <= i < v.asked.len(),
        is_create(v.asked[i]),
    ensures
        carried(w, v, c, a, i),
{
    let p = lemma_new(w, v, r, c, a);
    lemma_told(w, v, r, c, a, p);
}

/// `new` settles everything before it touches anything: whatever it asks at
/// the terminal, it asks before the first action that changes something.
#[verifier::rlimit(40)]
pub proof fn law_questions_come_first(
    w: WorldV,
    v: WorldV,
    r: Result<(), StopV>,
    c: CtxV,
    a: NewArgsV,
    i: int,
    j: int,
)
    requires
        settled(w),
        new::new_s(w, c, a) == (v, r),
        w.asked.len() <= i <= j < v.asked.len(),
        !finds_out(v.asked[i]),
    ensures
        !is_question(v.asked[j]),
{
    let p = lemma_new(w, v, r, c, a);
    lemma_told(w, v, r, c, a, p);
}

/// A wrapper is created once; only when that went well does it get its
/// document, then it is locked, and then started.
#[verifier::rlimit(40)]
pub proof fn law_new_goes_step_by_step(
    w: WorldV,
    v: WorldV,
    r: Result<(), StopV>,
    c: CtxV,
    a: NewArgsV,
    i: int,
    j: int,
)
    requires
        settled(w),
        new::new_s(w, c, a) == (v, r),
        w.asked.len() <= i < v.asked.len(),
        is_create(v.asked[i]),
        w.asked.len() <= j < v.asked.len(),
        is_create(v.asked[j]),
    ensures
        i == j,
        goes_on(v, i, a.vmid),
{
    let p = lemma_new(w, v, r, c, a);
    lemma_told(w, v, r, c, a, p);
}

/// A `new` that succeeds created the wrapper, and applied it, its stack brought
/// up unless that was ruled out.
#[verifier::rlimit(40)]
pub proof fn law_new_applies(w: WorldV, v: WorldV, c: CtxV, a: NewArgsV)
    requires
        settled(w),
        new::new_s(w, c, a) == (v, Ok::<(), StopV>(())),
    ensures
        exists|i: int| w.asked.len() <= i < v.asked.len() && is_create(#[trigger] v.asked[i]),
        started_and_applied(w, v, c, a),
{
    let p = lemma_new(w, v, Ok(()), c, a);
    lemma_told(w, v, Ok(()), c, a, p);
}

/// `new` looks first whether the vmid is taken, then whether it has a document;
/// it goes on only where the cluster lists no such guest and there is no
/// document.
#[verifier::spinoff_prover]
#[verifier::rlimit(60)]
pub proof fn law_what_is_there_is_not_replaced(
    w: WorldV,
    v: WorldV,
    r: Result<(), StopV>,
    c: CtxV,
    a: NewArgsV,
)
    requires
        settled(w),
        new::new_s(w, c, a) == (v, r),
    ensures
        ({
            let i = w.asked.len() as int;
            &&& v.asked[i] == (ActV::Read { path: "/etc/pve/.vmlist"@ })
            &&& v.asked.len() > i + 1 ==> unlisted(v, i, a.vmid) && v.asked[i + 1] == captured(
                "pve-meta"@,
                seq!["get"@, num::dec(a.vmid as nat), "compose"@, "--format"@, "yaml"@],
                120,
            )
            &&& v.asked.len() > i + 2 || r is Ok ==> (v.replies[i + 1].result matches Ok(o)
                && o.status == 2)
        }),
{
    let i = w.asked.len() as int;
    let (w1, r1) = pct::owner_node_s(w, a.vmid);
    assert(w1.asked == w.asked.push(ActV::Read { path: "/etc/pve/.vmlist"@ }));
    if r1 matches Ok(None) {
        let call = doc::get_call(a.vmid).captured(120);
        assert(call.args =~= seq![
            "get"@,
            num::dec(a.vmid as nat),
            "compose"@,
            "--format"@,
            "yaml"@,
        ]);
        let (w2, r2) = doc::read_s(w1, a.vmid);
        assert(w2.asked == w1.asked.push(ActV::Run(call)));
        assert(w2.asked[i] == w1.asked[i]);
        if r2 matches Ok(None) {
            lemma_goes_on_from(w, w2, c, a, v, r);
            assert(v.asked[i] == w2.asked[i]);
            assert(v.asked[i + 1] == w2.asked[i + 1]);
        } else {
            assert(v == w2);
        }
    } else {
        assert(v == w1);
    }
}

/// Whether the list of the cluster has no guest of a vmid.
pub open spec fn unlisted(v: WorldV, i: int, vmid: u32) -> bool {
    v.replies[i].result matches Ok(o) && (json::json_of(o.stdout) matches Ok(x) && (json::get(
        x,
        "ids"@,
    ) matches Some(ids) ==> json::get(ids, num::dec(vmid as nat)) is None))
}

#[verifier::rlimit(40)]
proof fn lemma_goes_on_from(
    w: WorldV,
    w2: WorldV,
    c: CtxV,
    a: NewArgsV,
    v: WorldV,
    r: Result<(), StopV>,
)
    requires
        settled(w2),
        w2.replies == w.replies,
        new::free_s(w, a.vmid) == (w2, Ok::<(), StopV>(())),
        new::new_s(w, c, a) == (v, r),
    ensures
        begins(w2, v),
        v.replies == w2.replies,
{
    lemma_settle(
        w2,
        c,
        None,
        c.config.template.storage,
        "vztmpl"@,
        "templates"@,
        "template-storage"@,
    );
    let (w4, r4) = new::template_storage_s(w2, c, a.template);
    if r4 is Ok {
        let configured = config::storage_for(c.config, c.node);
        lemma_settle(w4, c, a.storage, configured, "rootdir"@, "container disks"@, "storage"@);
        let (w5, r5) = new::settle_storage_s(
            w4,
            c,
            a.storage,
            configured,
            "rootdir"@,
            "container disks"@,
            "storage"@,
        );
        lemma_begins(w2, w4, w5);
        if r5 is Ok {
            let t = r4->Ok_0;
            let d = r5->Ok_0;
            lemma_store(w5, t.1, new::store_template_question(t.0));
            let (w6, r6) = new::store_s(w5, t.1, new::store_template_question(t.0));
            lemma_begins(w2, w5, w6);
            if r6 is Ok {
                let q = new::store_storage_question(d.0, c.node);
                lemma_store(w6, d.1, q);
                let (w7, r7) = new::store_s(w6, d.1, q);
                lemma_begins(w2, w6, w7);
                if r7 is Ok {
                    let x = new::decided_s(w, c, a).1->Ok_0;
                    assert(new::decided_s(w, c, a).0 == w7);
                    lemma_stored(w7, c, x);
                    let (w8, r8) = new::stored_s(w7, c, x);
                    lemma_begins(w2, w7, w8);
                    if r8 is Ok {
                        lemma_resolve(w8, c, x.template_storage, a.template);
                        let (w9, r9) = template::resolve_s(w8, c, x.template_storage, a.template);
                        lemma_begins(w2, w8, w9);
                        if r9 is Ok {
                            let s = new::wrapper_of(c, r8->Ok_0, a, x.storage, r9->Ok_0);
                            lemma_wrapped(w9, c, a, s);
                            assert(begins(w9, v));
                            lemma_begins(w2, w9, v);
                        }
                    }
                }
            }
        }
    }
}

/// The facts of a new wrapper name the template that it came from; what else
/// they held stays.
pub proof fn law_the_template_is_recorded(
    w: WorldV,
    vmid: u32,
    t: Text,
    w1: WorldV,
    f: stack::FactsV,
    v: WorldV,
)
    requires
        settled(w),
        stack::read_facts_s(w, vmid) == (w1, Ok::<Option<stack::FactsV>, StopV>(Some(f))),
        new::template_facts_s(w, vmid, t) == (v, Ok::<(), StopV>(())),
    ensures
        exists|y: Text|
            #[trigger] guest::replaced_at(
                v,
                w1.asked.len() as int + 1,
                vmid,
                "/opt/stack/.pve-compose"@,
                "applied.yaml"@,
                y,
            ) && yaml::yaml_text(
                Tree::Dict(
                    seq![
                        (Tree::Str("digest"@), Tree::Str(f.digest)),
                        (Tree::Str("template"@), Tree::Str(t)),
                        (Tree::Str("applied_at"@), Tree::Str(f.applied_at)),
                        (Tree::Str("by"@), Tree::Str(f.by)),
                    ],
                ),
            ) == Ok::<Text, Text>(y),
{
    let g = stack::FactsV { template: Some(t), ..f };
    reach::lemma_read_facts(w, vmid);
    assert(stack::facts_tree(g)->Dict_0 =~= seq![
        (Tree::Str("digest"@), Tree::Str(f.digest)),
        (Tree::Str("template"@), Tree::Str(t)),
        (Tree::Str("applied_at"@), Tree::Str(f.applied_at)),
        (Tree::Str("by"@), Tree::Str(f.by)),
    ]);
    let y = yaml::yaml_text(stack::facts_tree(g))->Ok_0;
    reveal_strlit("/opt/stack/.pve-compose");
    reveal_strlit("/");
    reveal_strlit("applied.yaml");
    reveal_strlit("/opt/stack/.pve-compose/applied.yaml");
    assert(stack::FACTS_FILE@ =~= "/opt/stack/.pve-compose"@ + "/"@ + "applied.yaml"@);
    guest::law_a_file_is_replaced_whole(
        w1,
        vmid,
        "/opt/stack/.pve-compose"@,
        "applied.yaml"@,
        y,
    );
}

} // verus!
