use std::cell::RefCell;
use std::collections::BTreeMap;

use pve_compose::cli::{self, Command, Outcome};
use pve_compose::cmd;
use pve_compose::config::{self, Config};
use pve_compose::error::Error;
use pve_compose::lock::GuestLock;
use pve_compose::ops::apply::{self, Options};
use pve_compose::ops::configcmd;
use pve_compose::ops::daemon::{self, Loop, Memo};
use pve_compose::ops::diff;
use pve_compose::ops::new::{self, NewArgs};
use pve_compose::ops::status::{self, Level};
use pve_compose::ops::{self, Ctx};
use pve_compose::pct;
use pve_compose::prompt;
use pve_compose::size::Size;
use pve_compose::stack;
use pve_compose::world::{Act, Call, Line, Output, Reply, Shape, Stop, World};

/// A node that answers actions from what a test puts into it.
#[derive(Default)]
struct Node {
    /// Files of the node.
    files: BTreeMap<String, String>,
    /// What a command that begins so prints, and its status.
    commands: Vec<(String, i32, String)>,
    /// Files of the guest.
    guest: BTreeMap<String, String>,
    /// Files on the node that await a push.
    temps: BTreeMap<String, String>,
    terminal: bool,
    answers: Vec<String>,
    /// Everything that was done, in order.
    log: Vec<String>,
    clock: u64,
}

fn ok(status: i32, stdout: &str) -> Result<Output, Error> {
    Ok(Output { status, stdout: stdout.to_string(), stderr: String::new() })
}

impl Node {
    fn run(&mut self, c: &Call) -> Result<Output, Error> {
        let line = cmd::render(c);
        self.log.push(line.clone());
        if c.program == "pct" && c.args[0] == "push" {
            let t = self.temps.get(&c.args[2]).cloned().unwrap();
            self.guest.insert(c.args[3].clone(), t);
            return ok(0, "");
        }
        let script = c.args.last().cloned().unwrap_or_default();
        if c.program == "pct" && c.args[0] == "exec" {
            if let Some(rest) = script.strip_prefix("mv -f '") {
                let (from, to) = rest.split_once("' '").unwrap();
                let t = self.guest.remove(from).unwrap();
                self.guest.insert(to.trim_end_matches('\'').to_string(), t);
                return ok(0, "");
            }
            if script.starts_with("mkdir -p '") && !script.contains(';') {
                return ok(0, "");
            }
            if let Some(rest) = script.strip_prefix("if [ -e '") {
                let path = rest.split('\'').next().unwrap();
                return match self.guest.get(path) {
                    Some(t) => ok(0, t),
                    None => ok(3, ""),
                };
            }
        }
        for (start, status, out) in &self.commands {
            if line.starts_with(start.as_str()) {
                return ok(*status, out);
            }
        }
        ok(0, "")
    }

    fn act(&mut self, a: &Act) -> Result<Output, Error> {
        self.clock += 10;
        match a {
            Act::Run(c) => self.run(c),
            Act::Read { path } => match self.files.get(path) {
                Some(t) => ok(0, t),
                None => ok(2, ""),
            },
            Act::Link { .. } => ok(0, "n1"),
            Act::Replace { path, text } => {
                self.log.push(format!("replace {path}"));
                self.files.insert(path.clone(), text.clone());
                ok(0, "")
            }
            Act::Temp { name, text } => {
                let path = format!("/tmp/{name}");
                self.temps.insert(path.clone(), text.clone());
                ok(0, &path)
            }
            Act::Remove { path } => {
                assert!(self.temps.remove(path).is_some());
                ok(0, "")
            }
            Act::Lock { vmid, wait } => {
                self.log.push(format!("lock {vmid} {wait}"));
                ok(0, "")
            }
            Act::Unlock { vmid } => {
                self.log.push(format!("unlock {vmid}"));
                ok(0, "")
            }
            Act::Terminal => ok(self.terminal as i32, ""),
            Act::Ask { question } => {
                self.log.push(format!("ask {question}"));
                if self.answers.is_empty() {
                    ok(0, "")
                } else {
                    let a = self.answers.remove(0);
                    ok(0, &format!("{a}\n"))
                }
            }
            Act::Sleep { millis } => {
                self.log.push(format!("sleep {millis}"));
                self.clock += millis;
                ok(0, "")
            }
            Act::Notify { message } => {
                self.log.push(format!("notify {}", message.trim()));
                ok(0, "")
            }
        }
    }

    fn did(&self, start: &str) -> usize {
        self.log.iter().filter(|l| l.starts_with(start)).count()
    }
}

/// Runs a verb to its end: what it gave, and what it printed.
fn drive<T>(
    node: &RefCell<Node>,
    verb: impl Fn(&mut World) -> Result<T, Stop>,
) -> (Result<T, Error>, Vec<String>) {
    let mut said: Vec<String> = Vec::new();
    let mut w = World::start(node.borrow().clock);
    loop {
        let r = verb(&mut w);
        for l in &w.said {
            match l {
                Line::Out(t) => said.push(t.clone()),
                Line::Note(t) => said.push(format!("! {t}")),
            }
        }
        match r {
            Ok(x) => return (Ok(x), said),
            Err(Stop::Fail(e)) => return (Err(e), said),
            Err(Stop::Act(a)) => {
                let result = node.borrow_mut().act(&a);
                let at = node.borrow().clock;
                w.replied(Reply { at, result });
            }
        }
    }
}

const DOC: &str = "spec:\n  services:\n    app: { image: x }\n  volumes:\n    data: {}\n";

const SETTLED: &str =
    r#"{"hostname":"Wiki","unprivileged":1,"tags":"compose","features":"nesting=1,keyctl=1"}"#;

/// A node with one running guest, its document and its config.
fn node(doc: &str, guest: &str) -> RefCell<Node> {
    let mut n = Node::default();
    let c = |a: &str, s: i32, o: &str| (a.to_string(), s, o.to_string());
    n.commands = vec![
        c("pve-meta get 105 compose", 0, doc),
        c("pvesh get /nodes/n1/lxc/105/config", 0, guest),
        c("pvesh get /nodes/n1/lxc/105/status/current", 0, r#"{"status":"running"}"#),
        c(
            "pvesh get /nodes/n1/lxc ",
            0,
            r#"[{"vmid":105,"name":"wiki","status":"running","tags":"compose"}]"#,
        ),
        c("pvesh get /meta/version", 0, r#"{"token":"t1"}"#),
        c("dpkg --print-architecture", 0, "amd64\n"),
    ];
    n.files.insert(
        "/usr/share/pve-meta/prefixes/compose.yaml".to_string(),
        "selector: { tag: compose }\n".to_string(),
    );
    n.files.insert(
        "/etc/pve/.vmlist".to_string(),
        r#"{"ids":{"105":{"node":"n1","type":"lxc"},"200":{"node":"n2","type":"lxc"},"300":{"node":"n1","type":"qemu"}}}"#
            .to_string(),
    );
    RefCell::new(n)
}

fn before(node: &RefCell<Node>, start: &str, status: i32, out: &str) {
    node.borrow_mut().commands.insert(0, (start.to_string(), status, out.to_string()));
}

fn ctx() -> Ctx {
    Ctx {
        node: "n1".to_string(),
        config: Config::default(),
        tag: Some("compose".to_string()),
    }
}

fn hand() -> Options {
    Options { pull: false, no_up: false, only_if_up: false }
}

const UP: &str = "pct exec 105 -- /bin/sh -c 'cd /opt/stack && docker compose up";
const PULL: &str = "pct exec 105 -- /bin/sh -c 'cd /opt/stack && docker compose pull";
const PS: &str = "pct exec 105 -- /bin/sh -c 'cd /opt/stack && docker compose ps";

// ---------------------------------------------------------------------------
// Commands.

#[test]
fn a_missing_program_is_an_error_naming_it() {
    let n = RefCell::new(Node::default());
    let mut w = World::start(0);
    let c = match cmd::run_status(&mut w, Call::new("/nonexistent/pve-compose-test")) {
        Err(Stop::Act(Act::Run(c))) => c,
        _ => panic!("not asked to run"),
    };
    let cause = "No such file or directory (os error 2)".to_string();
    w.replied(Reply { at: n.borrow().clock, result: Err(cmd::spawn_error(&c, cause)) });
    let err = match cmd::run_status(&mut w, Call::new("/nonexistent/pve-compose-test")) {
        Err(Stop::Fail(e)) => e.head(),
        _ => panic!("no error"),
    };
    assert!(
        err.contains("cannot run /nonexistent/pve-compose-test"),
        "{err}"
    );
}

#[test]
fn output_and_status_come_back() {
    let answer = |status: i32, out: &str, err: &str| Reply {
        at: 1,
        result: Ok(Output { status, stdout: out.to_string(), stderr: err.to_string() }),
    };
    let sh = |s: &str| Call::new("sh").arg("-c").arg(s);
    let mut w = World::start(0);
    w.replied(answer(3, "out\n", "err\n"));
    let out = match cmd::run_status(&mut w, sh("echo out; echo err >&2; exit 3")) {
        Ok(o) => o,
        Err(_) => panic!("no output"),
    };
    assert_eq!(
        (out.status, out.stdout.trim(), out.stderr.trim()),
        (3, "out", "err")
    );
    let mut w = World::start(0);
    w.replied(answer(1, "", "nope\n"));
    let err = match cmd::run(&mut w, sh("echo nope >&2; exit 1")) {
        Err(Stop::Fail(e)) => e.head(),
        _ => panic!("no error"),
    };
    assert!(err.contains("exit 1") && err.contains("nope"), "{err}");
    let mut w = World::start(0);
    w.replied(answer(0, "", ""));
    assert!(cmd::stream(&mut w, sh("exit 0")).is_ok());
}

#[test]
fn reads_have_the_short_deadline_and_a_passthrough_none() {
    let mut w = World::start(0);
    match pct::status(&mut w, "n1", 105) {
        Err(Stop::Act(Act::Run(c))) => assert_eq!((c.within, c.shape), (Some(120), Shape::Capture)),
        _ => panic!(),
    }
    match stack::up(&mut World::start(0), 105) {
        Err(Stop::Act(Act::Run(c))) => assert_eq!((c.within, c.shape), (Some(1800), Shape::Stream)),
        _ => panic!(),
    }
    match stack::passthrough(&mut World::start(0), 105, &vec!["logs".to_string(), "-f".to_string()]) {
        Err(Stop::Act(Act::Run(c))) => {
            assert_eq!((c.within, c.shape), (None, Shape::Stream));
            assert!(cmd::render(&c).ends_with("docker compose logs -f'"), "{}", cmd::render(&c));
        }
        _ => panic!(),
    }
}

// ---------------------------------------------------------------------------
// The stored choices.

#[test]
fn save_writes_only_choices_and_round_trips() {
    let n = RefCell::new(Node::default());
    let path = "/etc/pve/cfg.yaml";
    let text = || n.borrow().files.get(path).cloned().unwrap();
    let mut c = Config::default();
    drive(&n, |w| c.save_to(w, path)).0.unwrap();
    assert_eq!(drive(&n, |w| Config::load_from(w, path)).0.unwrap(), Config::default());
    assert!(!text().contains("rootfs_size"));
    c.set_storage_for("n1", Some("NetApp".into()));
    c.template.storage = Some("local".into());
    drive(&n, |w| c.save_to(w, path)).0.unwrap();
    let back = drive(&n, |w| Config::load_from(w, path)).0.unwrap();
    assert_eq!(back, c);
    assert!(text().contains("NetApp") && text().contains("local"));
    assert!(!text().contains("cores") && !text().contains("owner") && !text().contains("base"));
    c.defaults.cores = 3;
    drive(&n, |w| c.save_to(w, path)).0.unwrap();
    assert!(text().contains("cores: 3") && !text().contains("memory"));
    c.set_storage_for("n1", None);
    assert!(c.nodes.is_empty());
}

#[test]
fn a_missing_file_is_the_built_in_choices() {
    let n = RefCell::new(Node::default());
    assert_eq!(drive(&n, Config::load).0.unwrap(), Config::default());
    n.borrow_mut().files.insert(config::PATH.to_string(), "bogus: 1\n".to_string());
    let e = drive(&n, Config::load).0.unwrap_err();
    assert!(e.full().contains(config::PATH) && e.full().contains("bogus"), "{}", e.full());
}

#[test]
fn an_update_keeps_what_another_node_wrote() {
    let n = RefCell::new(Node::default());
    n.borrow_mut()
        .files
        .insert(config::PATH.to_string(), "nodes: { n2: { storage: x } }\n".to_string());
    let change = |c: &mut Config| {
        c.template.storage = Some("local".to_string());
        c.set_storage_for("n1", Some("fast".to_string()));
    };
    let c = drive(&n, |w| Config::update(w, change)).0.unwrap();
    assert_eq!(c.storage_for("n2").as_deref(), Some("x"));
    assert_eq!(c.storage_for("n1").as_deref(), Some("fast"));
    let again = drive(&n, Config::load).0.unwrap();
    assert_eq!(again, c);
    assert_eq!(again.template.storage.as_deref(), Some("local"));
    // A file that cannot be read is not written.
    n.borrow_mut().files.insert(config::PATH.to_string(), "bogus: 1\n".to_string());
    let e = drive(&n, |w| Config::update(w, change)).0.unwrap_err();
    assert!(e.full().contains("bogus"), "{}", e.full());
    assert_eq!(n.borrow().files[config::PATH], "bogus: 1\n");
}

#[test]
fn choices_are_set_unset_and_shown() {
    let n = RefCell::new(Node::default());
    let c = ctx();
    let set = |k: &str, v: &str| drive(&n, |w| configcmd::set(w, &c, k, v));
    assert_eq!(set("storage", "fast").1, vec!["! storage = fast (n1)"]);
    assert_eq!(set("cores", "8").1, vec!["! cores = 8 (cluster)"]);
    set("rootfs-size", "12G").0.unwrap();
    set("owner", "33:33").0.unwrap();
    set("template-storage", "local").0.unwrap();
    set("template-base", "debian-12").0.unwrap();
    set("bridge", "vmbr1").0.unwrap();
    set("memory", "512").0.unwrap();
    let saved = drive(&n, Config::load).0.unwrap();
    assert_eq!(saved.storage_for("n1").as_deref(), Some("fast"));
    assert_eq!((saved.defaults.cores, saved.defaults.memory), (8, 512));
    assert_eq!(saved.defaults.rootfs_size, Size(12 << 30));
    assert_eq!(set("cores", "x").0.unwrap_err().head(), "invalid digit found in string");
    assert_eq!(set("memory", "").0.unwrap_err().head(), "cannot parse integer from empty string");
    assert_eq!(set("owner", "me").0.unwrap_err().head(), "owner 'me' is not uid:gid");
    assert_eq!(set("rootfs-size", "0").0.unwrap_err().head(), "size '0' is zero");
    assert_eq!(
        set("colour", "1").0.unwrap_err().head(),
        "unknown key 'colour'; one of: storage, template-storage, template-base, owner, bridge, cores, memory, rootfs-size"
    );
    let full = Ctx { config: saved, ..ctx() };
    let shown = drive(&n, |w| configcmd::show(w, &full)).1;
    assert_eq!(shown[0], "KEY               VALUE                    SOURCE");
    assert_eq!(shown[1], "storage           fast                     node n1");
    assert_eq!(shown[6], "cores             8                        cluster");
    assert_eq!(shown[9], "\nfile: /etc/pve/pve-compose.cfg");
    let plain = drive(&n, |w| configcmd::show(w, &c)).1;
    assert_eq!(plain[6], "cores             2                        default");
    assert_eq!(plain[2], "template-storage  -                        unset: `new` asks");
    for k in configcmd::keys().split(", ") {
        let r = drive(&n, |w| configcmd::unset(w, &c, k));
        assert_eq!(r.1, vec![format!("! {k} unset")]);
    }
    assert_eq!(drive(&n, Config::load).0.unwrap(), Config::default());
    assert!(drive(&n, |w| configcmd::unset(w, &c, "colour")).0.is_err());
    assert!(configcmd::help().starts_with(
        "  storage           disk storage for this node (x-pve volumes without one, and `new`)\n"
    ));
}

// ---------------------------------------------------------------------------
// Which guests the prefix reaches.

#[test]
fn the_selector_is_read_from_the_prefix_file() {
    let n = node(DOC, SETTLED);
    let c = drive(&n, Ctx::load).0.unwrap();
    assert_eq!((c.node.as_str(), c.tag.as_deref()), ("n1", Some("compose")));
    assert!(c.selected(&vec!["compose".to_string()]) && !c.selected(&vec![]));
    n.borrow_mut().files.insert(
        "/etc/pve/meta.d/prefixes/compose.yaml".to_string(),
        "selector: { all: true }\n".to_string(),
    );
    let c = drive(&n, Ctx::load).0.unwrap();
    assert!(c.tag.is_none() && c.selected(&vec![]));
    assert!(ops::selector("p", "selector: {}\n")
        .unwrap_err()
        .head()
        .contains("selector is neither { tag: <t> } nor { all: true }"));
    assert!(ops::selector("p", "[").unwrap_err().head().contains("p: not YAML"));
    let empty = RefCell::new(Node::default());
    assert!(drive(&empty, Ctx::load).0.unwrap_err().head().contains("no prefix file"));
}

#[test]
fn a_guest_without_a_document_is_refused() {
    let n = node(DOC, SETTLED);
    before(&n, "pve-meta get 105", 2, "");
    let e = drive(&n, |w| ops::load(w, &ctx(), 105)).0.err().unwrap();
    assert_eq!(e.head(), "guest 105 has no compose document (no `compose` subtree)");
    before(&n, "pve-meta get 105", 0, "spec: { volumes: { ../x: {} } }\n");
    let e = drive(&n, |w| ops::load(w, &ctx(), 105)).0.err().unwrap();
    assert_eq!(e.head(), "guest 105: compose.spec");
    before(&n, "pve-meta get 105", 1, "");
    assert!(drive(&n, |w| ops::load(w, &ctx(), 105)).0.is_err());
}

// ---------------------------------------------------------------------------
// Apply.

#[test]
fn apply_writes_brings_up_and_records() {
    let n = node(DOC, SETTLED);
    let (r, said) = drive(&n, |w| apply::apply(w, &ctx(), 105, hand()));
    r.unwrap();
    assert_eq!(
        said,
        vec!["! pct: nothing to do", "! docker: writing /opt/stack/compose.yaml", "! docker: up"]
    );
    let n = n.borrow();
    let file = n.guest.get("/opt/stack/compose.yaml").unwrap();
    assert!(file.contains("name: wiki") && file.contains("device: /opt/stack/volumes/data"), "{file}");
    let facts = n.guest.get("/opt/stack/.pve-compose/applied.yaml").unwrap();
    let f = stack::Facts::parse(facts).unwrap();
    assert_eq!(f.digest, pve_compose::doc::digest(DOC));
    assert!(f.applied_at.len() >= 20 && f.applied_at.contains('T'), "{}", f.applied_at);
    assert_eq!(n.did(UP), 1);
    assert_eq!(n.did(PULL), 0);
    assert_eq!(n.log.first().unwrap(), "lock 105 60");
    assert_eq!(n.log.last().unwrap(), "unlock 105");
    assert!(n.temps.is_empty());
}

#[test]
fn directories_are_made_and_owned() {
    let n = node(
        "stack: { owner: \"33:34\" }\nspec:\n  volumes:\n    a: {}\n    b: { x-pve: { owner: \"7:8\" } }\n",
        SETTLED,
    );
    drive(&n, |w| apply::docker_apply(w, &ctx(), 105, hand())).0.unwrap();
    let own = |d: &str, o: &str| {
        format!(
            " mkdir -p '{d}'; if [ \"$(stat -c %u:%g '{d}')\" = '0:0' ]; then chown '{o}' '{d}'; fi;"
        )
    };
    let want = format!(
        "pct exec 105 -- /bin/sh -c 'set -e; mkdir -p /opt/stack/volumes /opt/stack/.pve-compose; chmod 0755 /opt/stack;{}{}'",
        own("/opt/stack/volumes/a", "33:34"),
        own("/opt/stack/volumes/b", "7:8")
    );
    assert!(n.borrow().log.contains(&want), "{:?}", n.borrow().log);
}

#[test]
fn no_up_writes_and_starts_nothing() {
    let n = node(DOC, SETTLED);
    let o = Options { pull: true, no_up: true, only_if_up: false };
    let (r, said) = drive(&n, |w| apply::docker_apply(w, &ctx(), 105, o));
    r.unwrap();
    assert_eq!(
        said[1],
        "! docker: file written, stack not started; `pve-compose docker apply 105` brings it up"
    );
    assert_eq!(n.borrow().did(UP) + n.borrow().did(PULL), 0);
    assert!(n.borrow().guest.contains_key("/opt/stack/compose.yaml"));
}

#[test]
fn without_services_nothing_is_started() {
    let n = node("spec:\n  services: {}\n", SETTLED);
    let (r, said) = drive(&n, |w| apply::docker_apply(w, &ctx(), 105, hand()));
    r.unwrap();
    assert_eq!(
        said[1],
        "! docker: file written; no services in the document, nothing to start"
    );
    assert_eq!(n.borrow().did(UP), 0);
}

#[test]
fn only_a_stack_that_is_up_is_touched_by_the_loop() {
    let o = Options { pull: true, no_up: false, only_if_up: true };
    let running = r#"[{"Name":"a","Service":"app","State":"running","Status":"Up"}]"#;
    let exited = r#"[{"Name":"a","Service":"app","State":"exited","Status":"Exited"}]"#;
    for (file, ps, ups) in [(false, running, 0), (true, exited, 0), (true, running, 1)] {
        let n = node(DOC, SETTLED);
        before(&n, PS, 0, ps);
        if file {
            n.borrow_mut().guest.insert("/opt/stack/compose.yaml".to_string(), "old\n".to_string());
        }
        let r = drive(&n, |w| {
            let g = ops::load(w, &ctx(), 105)?;
            apply::docker_apply_guest(w, &ctx(), &g, o)
        });
        assert_eq!(r.0.unwrap(), ups == 1);
        assert_eq!((n.borrow().did(UP), n.borrow().did(PULL)), (ups, ups));
        assert_ne!(n.borrow().guest.get("/opt/stack/compose.yaml").unwrap(), "old\n");
    }
}

#[test]
fn a_file_that_is_as_it_should_be_is_not_written() {
    let n = node(DOC, SETTLED);
    drive(&n, |w| apply::apply(w, &ctx(), 105, hand())).0.unwrap();
    n.borrow_mut().log.clear();
    let (_, said) = drive(&n, |w| apply::apply(w, &ctx(), 105, hand()));
    assert_eq!(said, vec!["! pct: nothing to do", "! docker: up"]);
}

#[test]
fn changed_features_stop_apply() {
    let n = node(DOC, r#"{"unprivileged":1,"tags":"compose"}"#);
    let (r, said) = drive(&n, |w| apply::apply(w, &ctx(), 105, hand()));
    assert_eq!(
        r.unwrap_err().head(),
        "guest 105: features changed and take effect on restart; `pct reboot 105`, then apply again"
    );
    assert_eq!(said[0], "! pct: applying 1 change(s) to 105");
    let n = n.borrow();
    assert_eq!(n.did("pct set 105 --features keyctl=1,nesting=1"), 1);
    assert_eq!(n.did("pct exec"), 0);
    assert_eq!(n.log.last().unwrap(), "unlock 105");
}

#[test]
fn a_failure_after_changed_features_says_so() {
    let n = node(DOC, r#"{"unprivileged":1}"#);
    before(&n, "pct set 105 --tags", 1, "");
    let (r, said) = drive(&n, |w| apply::pct_apply(w, &ctx(), 105));
    let e = r.unwrap_err().head();
    assert!(e.starts_with("pct set 105 --tags compose failed (exit 1)"), "{e}");
    assert!(
        said.last().unwrap().contains("`pct reboot 105` before the next apply ("),
        "{said:?}"
    );
}

#[test]
fn pct_apply_creates_grows_and_keeps() {
    let d = "spec:\n  volumes:\n    db: { x-pve: { size: 20G } }\n    big: { x-pve: { size: 5G, backup: 0 } }\n";
    let n = node(
        d,
        r#"{"unprivileged":1,"tags":"compose","features":"nesting=1,keyctl=1",
           "mp0":"local:v0,mp=/opt/stack/volumes/big,size=2G,backup=1,ro=1"}"#,
    );
    let mut c = ctx();
    c.config.set_storage_for("n1", Some("fast".to_string()));
    let r = drive(&n, |w| apply::pct_apply(w, &c, 105));
    assert_eq!(r.0.unwrap(), 3);
    let n = n.borrow();
    assert_eq!(n.did("pct set 105 --mp1 fast:20,mp=/opt/stack/volumes/db,backup=1"), 1);
    assert_eq!(n.did("pct resize 105 mp0 5G"), 1);
    assert_eq!(n.did("pct set 105 --mp0 local:v0,mp=/opt/stack/volumes/big,size=2G,ro=1"), 1);
}

#[test]
fn stopped_guests_are_refused() {
    for (s, want) in [
        (
            "stopped",
            "guest 105 is stopped; pve-compose only acts on running guests (pct start 105)",
        ),
        ("paused", "guest 105 is in an unexpected state"),
    ] {
        let n = node(DOC, SETTLED);
        before(
            &n,
            "pvesh get /nodes/n1/lxc/105/status/current",
            0,
            &format!("{{\"status\":\"{s}\"}}"),
        );
        for r in [
            drive(&n, |w| apply::apply(w, &ctx(), 105, hand())).0,
            drive(&n, |w| apply::docker_apply(w, &ctx(), 105, hand())).0,
            drive(&n, |w| apply::pct_apply(w, &ctx(), 105)).0.map(|_| ()),
            drive(&n, |w| diff::diff(w, &ctx(), 105)).0,
            drive(&n, |w| diff::pct_diff(w, &ctx(), 105)).0,
            drive(&n, |w| diff::docker_diff(w, &ctx(), 105)).0,
        ] {
            assert_eq!(r.unwrap_err().head(), want);
        }
        assert_eq!(n.borrow().did("pct "), 0);
        assert_eq!(n.borrow().did("lock"), n.borrow().did("unlock"));
    }
}

#[test]
fn docker_is_installed_where_it_is_missing() {
    let n = node(DOC, SETTLED);
    before(&n, "pct exec 105 -- /bin/sh -c 'docker info", 1, "");
    drive(&n, |w| apply::docker_apply(w, &ctx(), 105, hand())).0.unwrap();
    assert_eq!(n.borrow().did("pct exec 105 -- /bin/sh -c 'set -e\nexport"), 1);
    before(&n, "pct exec 105 -- /bin/sh -c 'set -e\nexport", 4, "");
    let e = drive(&n, |w| apply::docker_apply(w, &ctx(), 105, hand())).0.unwrap_err();
    assert!(e.head().starts_with("guest 105: docker install failed: "), "{}", e.head());
}

#[test]
fn the_host_copy_is_removed_when_the_push_fails() {
    let n = node(DOC, SETTLED);
    let r = drive(&n, |w| pct::write_file(w, 105, "/opt/stack/x", "t", "0644"));
    r.0.unwrap();
    assert_eq!(n.borrow().guest.get("/opt/stack/x").unwrap(), "t");
    assert_eq!(
        n.borrow().log[1],
        "pct push 105 /tmp/pve-compose-push-105 /opt/stack/.x.new --perms 0644 --user 0 --group 0"
    );
    let mut w = World::start(0);
    let reply = |status: i32, out: &str| Reply { at: 0, result: ok(status, out) };
    w.replied(reply(0, ""));
    w.replied(reply(0, "/tmp/p"));
    w.replied(reply(1, ""));
    match pct::write_file(&mut w, 105, "/opt/stack/x", "t", "0644") {
        Err(Stop::Act(Act::Remove { path })) => assert_eq!(path, "/tmp/p"),
        r => panic!("{r:?}"),
    }
    w.replied(reply(0, ""));
    assert!(matches!(pct::write_file(&mut w, 105, "/opt/stack/x", "t", "0644"), Err(Stop::Fail(_))));
}

// ---------------------------------------------------------------------------
// Diff and status.

#[test]
fn diff_prints_the_plan_and_the_lines() {
    let n = node(DOC, r#"{"hostname":"wiki","unprivileged":1,"features":"nesting=1,keyctl=1"}"#);
    let (r, said) = drive(&n, |w| diff::diff(w, &ctx(), 105));
    r.unwrap();
    assert_eq!(said[0], "pct: tag: add 'compose'");
    assert_eq!(said[1], "docker: never applied");
    assert_eq!(said[2], "docker: /opt/stack/compose.yaml differs:");
    assert!(said[3].starts_with("+ # Rendered by pve-compose"), "{}", said[3]);
    let n = node(DOC, SETTLED);
    drive(&n, |w| apply::apply(w, &ctx(), 105, hand())).0.unwrap();
    let (_, said) = drive(&n, |w| diff::diff(w, &ctx(), 105));
    assert_eq!(said[0], "pct: up to date");
    assert!(said[1].starts_with("docker: document unchanged since last apply ("), "{said:?}");
    assert_eq!(said[2], "docker: /opt/stack/compose.yaml up to date");
    before(&n, "pve-meta get 105", 0, "spec: {}\n");
    let (_, said) = drive(&n, |w| diff::docker_diff(w, &ctx(), 105));
    assert!(said[0].starts_with("docker: document changed since last apply ("), "{said:?}");
    assert!(said.iter().any(|l| l.starts_with("- ")), "{said:?}");
}

fn state(n: &RefCell<Node>, level: Level) -> String {
    drive(n, |w| status::rows(w, &ctx(), None, level)).0.unwrap()[0].state.clone()
}

#[test]
fn status_says_what_is_known() {
    let running = r#"[{"Name":"wiki-app-1","Service":"app","State":"running","Status":"Up 2 hours"}]"#;
    let n = node(DOC, SETTLED);
    assert_eq!(state(&n, Level::Both), "never");
    assert_eq!(state(&n, Level::Pct), "applied");
    drive(&n, |w| apply::apply(w, &ctx(), 105, hand())).0.unwrap();
    assert_eq!(state(&n, Level::Both), "down");
    before(&n, PS, 0, running);
    assert_eq!(state(&n, Level::Both), "applied");
    assert_eq!(state(&n, Level::Docker), "applied");
    let (rows, _) = drive(&n, |w| status::rows(w, &ctx(), Some(105), Level::Both));
    let rows = rows.unwrap();
    assert_eq!(rows[0].pct_pending, Some(0));
    assert_eq!(rows[0].policy.as_deref(), Some("pct=auto docker=auto pull=manual"));
    assert_eq!(rows[0].containers[0].service, "app");
    let (_, table) = drive(&n, |w| {
        status::print_table(w, &rows, Level::Both);
        Ok::<(), Stop>(())
    });
    let day = rows[0].applied_at.clone().unwrap()[..10].to_string();
    assert_eq!(table[0], "VMID    NAME                 STATE    APPLIED    PCT      POLICY");
    assert_eq!(
        table[1],
        format!(
            "105     wiki                 applied  {day} ok       pct=auto docker=auto pull=manual"
        )
    );
    assert_eq!(table[2], "        app                  running  Up 2 hours");
    before(&n, "pvesh get /nodes/n1/lxc/105/config", 0, r#"{"unprivileged":1}"#);
    assert_eq!(state(&n, Level::Both), "pending");
    assert_eq!(state(&n, Level::Pct), "pending");
    before(&n, "pve-meta get 105", 0, "spec: 3\n");
    assert!(state(&n, Level::Both).starts_with("error: guest 105: bad compose document"));
    before(&n, "pve-meta get 105", 2, "");
    assert_eq!(state(&n, Level::Both), "no document");
    before(&n, "pve-meta get 105", 0, DOC);
    before(&n, "pvesh get /nodes/n1/lxc ", 0, r#"[{"vmid":105,"name":"wiki","status":"stopped"}]"#);
    assert_eq!(state(&n, Level::Both), "stopped");
    before(&n, "pve-meta get 105", 2, "");
    assert!(drive(&n, |w| status::rows(w, &ctx(), None, Level::Both)).0.unwrap().is_empty());
    assert!(drive(&n, |w| status::rows(w, &ctx(), Some(9), Level::Both)).0.unwrap().is_empty());
}

#[test]
fn rows_are_in_order_and_fail_one_by_one() {
    let n = node(DOC, SETTLED);
    before(
        &n,
        "pvesh get /nodes/n1/lxc ",
        0,
        r#"[{"vmid":105,"name":"wiki","status":"stopped","tags":"compose"},
            {"vmid":104,"name":"bad","status":"running","tags":""},
            {"vmid":103,"name":"plain","status":"running","tags":""},
            {"vmid":102,"name":"untagged","status":"stopped","tags":""},
            {"vmid":101,"name":"tmpl","status":"running","tags":"compose","template":1},
            {"vmid":100,"name":"empty","status":"running","tags":"compose"}]"#,
    );
    before(&n, "pve-meta get 104", 1, "");
    before(&n, "pve-meta get 103", 2, "");
    before(&n, "pve-meta get 102", 0, DOC);
    before(&n, "pve-meta get 100", 2, "");
    let rows = drive(&n, |w| status::rows(w, &ctx(), None, Level::Both)).0.unwrap();
    let what: Vec<(u32, &str)> = rows.iter().map(|r| (r.vmid, r.state.as_str())).collect();
    assert_eq!((what[0], what[1]), ((100, "no document"), (102, "stopped")));
    assert!(what[2].0 == 104 && what[2].1.starts_with("error: "), "{what:?}");
    assert_eq!((what[3], what.len()), ((105, "stopped"), 4));
    before(&n, "pvesh get /nodes/n1/lxc ", 1, "");
    assert!(drive(&n, |w| status::rows(w, &ctx(), None, Level::Both)).0.is_err());
}

#[test]
fn long_names_are_cut() {
    let row = status::Row {
        vmid: 1,
        name: "a-very-long-name-for-a-guest".to_string(),
        node: "n".to_string(),
        running: true,
        policy: None,
        state: "error: it broke".to_string(),
        applied_at: Some("2026-0é-01T".to_string()),
        template: None,
        pct_pending: Some(3),
        containers: vec![],
    };
    let n = RefCell::new(Node::default());
    let rows = vec![row];
    let (_, t) = drive(&n, |w| {
        status::print_table(w, &rows, Level::Pct);
        Ok::<(), Stop>(())
    });
    assert_eq!(t[1], "1       a-very-long-name-fo… error: … 2026-0é-0  3 pending -");
}

// ---------------------------------------------------------------------------
// Questions.

#[test]
fn a_choice_is_asked_until_it_is_one() {
    let n = RefCell::new(Node::default());
    n.borrow_mut().answers = vec!["x".to_string(), "3".to_string(), "2".to_string()];
    let items = vec!["one".to_string(), "two".to_string()];
    let (r, said) = drive(&n, |w| prompt::pick(w, "Which?", &items));
    assert_eq!(r.unwrap(), 1);
    assert_eq!(
        said,
        vec!["! Which?", "!    1) one", "!    2) two", "! a number from 1 to 2", "! a number from 1 to 2"]
    );
    assert_eq!(n.borrow().log, vec!["ask > ", "ask > ", "ask > "]);
    let (r, _) = drive(&n, |w| prompt::pick(w, "Which?", &items));
    assert_eq!(r.unwrap_err().head(), "no answer (end of input)");
    let (r, _) = drive(&n, |w| prompt::pick(w, "Which?", &vec![]));
    assert_eq!(r.unwrap_err().head(), "nothing to choose from");
}

#[test]
fn yes_and_no_are_understood() {
    for (a, default, want) in [
        ("", true, true),
        ("", false, false),
        ("Y", false, true),
        ("yes", false, true),
        ("n", true, false),
        ("maybe", true, false),
    ] {
        let n = RefCell::new(Node::default());
        n.borrow_mut().answers = vec![a.to_string()];
        let (r, _) = drive(&n, |w| prompt::yes_no(w, "Sure?", default));
        assert_eq!(r.unwrap(), want);
        let q = if default { "ask Sure? [Y/n] " } else { "ask Sure? [y/N] " };
        assert_eq!(n.borrow().log[0], q);
    }
}

// ---------------------------------------------------------------------------
// New.

fn args() -> NewArgs {
    NewArgs {
        vmid: 106,
        name: "shop".to_string(),
        template: None,
        storage: None,
        rootfs_size: None,
        bridge: None,
        ip: None,
        gateway: None,
        cores: None,
        memory: None,
        no_up: false,
    }
}

/// A node where 106 is free and becomes a guest with the initial document.
fn fresh() -> RefCell<Node> {
    let n = node(DOC, SETTLED);
    before(&n, "pve-meta get 106 compose", 2, "");
    before(
        &n,
        "pvesh get /nodes/n1/lxc/106/config",
        0,
        r#"{"hostname":"shop","unprivileged":1,"tags":"compose","features":"nesting=1,keyctl=1"}"#,
    );
    before(&n, "pvesh get /nodes/n1/lxc/106/status/current", 0, r#"{"status":"running"}"#);
    before(
        &n,
        "pvesh get /nodes/n1/storage ",
        0,
        r#"[{"storage":"fast","type":"zfspool","avail":107374182400,"shared":1},{"storage":"slow","type":"dir","avail":1024}]"#,
    );
    before(
        &n,
        "pvesh get /nodes/n1/storage/local/content",
        0,
        r#"[{"volid":"local:vztmpl/debian-13-standard_13.6-1_amd64.tar.zst"}]"#,
    );
    n
}

#[test]
fn new_is_settled_by_flags_and_choices() {
    let n = fresh();
    let mut c = ctx();
    c.config.template.storage = Some("local".to_string());
    let a = NewArgs {
        storage: Some("fast".to_string()),
        ip: Some("10.0.0.5/24".to_string()),
        gateway: Some("10.0.0.1".to_string()),
        rootfs_size: Some(Size(12 << 30)),
        ..args()
    };
    // The document is there once it was written.
    let (r, said) = drive(&n, |w| {
        if n.borrow().did("pve-meta set") > 0 && n.borrow().commands[0].0 != "pve-meta get 106" {
            before(&n, "pve-meta get 106", 0, new::initial_document());
        }
        new::new(w, &c, &a)
    });
    r.unwrap();
    assert_eq!(
        said[0],
        "! new: creating 106 (shop) from local:vztmpl/debian-13-standard_13.6-1_amd64.tar.zst"
    );
    assert_eq!(said[1], "! new: document written");
    assert_eq!(said[2], "! new: 106 is up");
    assert!(said.last().unwrap().ends_with("secrets in /opt/stack/.env"), "{said:?}");
    let n = n.borrow();
    assert_eq!(
        n.log.iter().find(|l| l.starts_with("pct create")).unwrap(),
        "pct create 106 local:vztmpl/debian-13-standard_13.6-1_amd64.tar.zst --hostname shop --rootfs fast:12 --unprivileged 1 --cores 2 --memory 2048 --swap 0 --net0 name=eth0,bridge=vmbr0,ip=10.0.0.5/24,gw=10.0.0.1 --features nesting=1,keyctl=1 --onboot 1 --tags compose"
    );
    let f = stack::Facts::parse(n.guest.get("/opt/stack/.pve-compose/applied.yaml").unwrap()).unwrap();
    assert_eq!(
        f.template.as_deref(),
        Some("local:vztmpl/debian-13-standard_13.6-1_amd64.tar.zst")
    );
    assert_eq!(n.did("ask"), 0);
    assert_eq!(n.log.last().unwrap(), "unlock 106");
}

#[test]
fn new_without_up_starts_nothing() {
    for no_up in [true, false] {
        let n = fresh();
        let mut c = ctx();
        c.config.template.storage = Some("local".to_string());
        let a = NewArgs { storage: Some("fast".to_string()), no_up, ..args() };
        // Somebody wrote a stack with services into the new document at once.
        let (r, said) = drive(&n, |w| {
            if n.borrow().did("pve-meta set") > 0 && n.borrow().commands[0].0 != "pve-meta get 106" {
                before(&n, "pve-meta get 106", 0, DOC);
            }
            new::new(w, &c, &a)
        });
        r.unwrap();
        let up = UP.replace("105", "106");
        assert_eq!(n.borrow().did(&up) == 0, no_up, "{:?}", n.borrow().log);
        assert_eq!(
            said.last().unwrap().ends_with(", then `pve-compose docker apply 106`"),
            no_up,
            "{said:?}"
        );
        assert!(n.borrow().guest.contains_key("/opt/stack/compose.yaml"));
    }
}

#[test]
fn new_asks_and_stores_the_answers() {
    let n = fresh();
    n.borrow_mut().terminal = true;
    before(&n, "pvesh get /nodes/n1/storage/slow/content", 0, r#"[{"volid":"slow:vztmpl/debian-13-standard_1_amd64.tar"}]"#);
    n.borrow_mut().answers =
        vec!["2".to_string(), "1".to_string(), "".to_string(), "y".to_string()];
    before(&n, "pct create", 1, "");
    let (r, said) = drive(&n, |w| new::new(w, &ctx(), &args()));
    assert!(r.is_err());
    assert_eq!(said[0], "! Which storage for templates on n1?");
    assert_eq!(said[1], "!    1) fast             zfspool      100.0G free  (shared)");
    assert_eq!(said[2], "!    2) slow             dir            1.0K free");
    let n = n.borrow();
    let asked: Vec<&String> = n.log.iter().filter(|l| l.starts_with("ask")).collect();
    assert_eq!(asked[2], "ask Store slow as the template storage for the cluster? [Y/n] ");
    assert_eq!(asked[3], "ask Store fast as the disk storage for n1? [Y/n] ");
    let c = Config::parse(n.files.get(config::PATH).unwrap()).unwrap();
    assert_eq!(c.template.storage.as_deref(), Some("slow"));
    assert_eq!(c.storage_for("n1").as_deref(), Some("fast"));
}

#[test]
fn an_unanswered_question_leaves_nothing_behind() {
    let n = fresh();
    n.borrow_mut().terminal = true;
    n.borrow_mut().answers = vec!["1".to_string(), "1".to_string(), "y".to_string()];
    let (r, _) = drive(&n, |w| new::new(w, &ctx(), &args()));
    assert_eq!(r.unwrap_err().head(), "no answer (end of input)");
    let n = n.borrow();
    assert!(n.log.iter().all(|l| l.starts_with("ask") || l.starts_with("pvesh get") || l.starts_with("pve-meta get")), "{:?}", n.log);
    assert!(!n.files.contains_key(config::PATH));
}

#[test]
fn without_a_terminal_new_names_the_command() {
    let n = fresh();
    let (r, _) = drive(&n, |w| new::new(w, &ctx(), &args()));
    assert_eq!(
        r.unwrap_err().head(),
        "no templates configured and no terminal to ask on; `pve-compose config set template-storage <storage>` (on n1: fast, slow)"
    );
    before(&n, "pvesh get /nodes/n1/storage ", 0, "[]");
    let (r, _) = drive(&n, |w| new::new(w, &ctx(), &args()));
    assert!(r.unwrap_err().head().starts_with("no enabled storage on n1 accepts `vztmpl` content"));
}

#[test]
fn new_refuses_a_vmid_in_use_or_with_a_document() {
    let n = fresh();
    let (r, _) = drive(&n, |w| new::new(w, &ctx(), &NewArgs { vmid: 105, ..args() }));
    assert_eq!(r.unwrap_err().head(), "vmid 105 is already in use");
    before(&n, "pve-meta get 106 compose", 0, DOC);
    let (r, _) = drive(&n, |w| new::new(w, &ctx(), &args()));
    assert_eq!(r.unwrap_err().head(), "vmid 106 already has a document (`compose` subtree)");
    assert_eq!(n.borrow().did("pct "), 0);
}

#[test]
fn a_missing_template_is_downloaded() {
    let n = fresh();
    before(&n, "pvesh get /nodes/n1/storage/local/content", 0, "[]");
    before(&n, "pveam available", 0, "system debian-13-standard_13.6-1_amd64.tar.zst\n");
    let (r, said) = drive(&n, |w| {
        pve_compose::ops::template::resolve(w, &ctx(), "local", &None)
    });
    assert_eq!(r.unwrap(), "local:vztmpl/debian-13-standard_13.6-1_amd64.tar.zst");
    assert_eq!(said[1], "! template: downloading debian-13-standard_13.6-1_amd64.tar.zst to local");
    assert_eq!(
        n.borrow().did("pveam download local debian-13-standard_13.6-1_amd64.tar.zst"),
        1
    );
    let (r, _) = drive(&n, |w| {
        pve_compose::ops::template::resolve(w, &ctx(), "local", &Some("alpine".to_string()))
    });
    assert_eq!(r.unwrap_err().head(), "no template on local starts with alpine");
    before(&n, "pveam available", 0, "");
    let (r, _) = drive(&n, |w| {
        pve_compose::ops::template::resolve(w, &ctx(), "local", &None)
    });
    assert_eq!(
        r.unwrap_err().head(),
        "no upstream amd64 template starts with debian-13-standard_ (pveam available)"
    );
}

// ---------------------------------------------------------------------------
// The loop.

#[test]
fn a_pass_renders_and_starts_nothing() {
    let n = node(DOC, SETTLED);
    let (m, said) = drive(&n, |w| daemon::pass(w, &ctx(), &Memo::new()));
    let m = m.unwrap();
    let digest = pve_compose::doc::digest(DOC);
    assert!(m.has(105, &digest));
    assert_eq!(
        said.last().unwrap(),
        &format!("! 105: docker rendered (up is manual, not started) {}", &digest[..12])
    );
    assert_eq!(n.borrow().did(UP), 0);
    // Handled: nothing but the list and the document is read.
    n.borrow_mut().log.clear();
    let (again, said) = drive(&n, |w| daemon::pass(w, &ctx(), &m));
    assert!(again.unwrap().has(105, &digest));
    assert!(said.is_empty());
    assert_eq!(n.borrow().log.len(), 2);
    // Applied by someone else meanwhile: the facts say so.
    n.borrow_mut().log.clear();
    drive(&n, |w| daemon::pass(w, &ctx(), &Memo::new())).0.unwrap();
    assert_eq!(n.borrow().did("pct exec 105 -- /bin/sh -c 'docker info"), 0);
}

#[test]
fn a_pass_ups_a_stack_that_is_up_where_the_policy_says_so() {
    let d = "policy: { up: auto, pull: auto }\nspec:\n  services: { app: { image: x } }\n";
    let n = node(d, SETTLED);
    before(&n, PS, 0, r#"[{"Name":"a","State":"running"}]"#);
    n.borrow_mut().guest.insert("/opt/stack/compose.yaml".to_string(), "old\n".to_string());
    let (_, said) = drive(&n, |w| daemon::pass(w, &ctx(), &Memo::new()));
    assert!(said.last().unwrap().contains("105: docker applied "), "{said:?}");
    assert_eq!((n.borrow().did(PULL), n.borrow().did(UP)), (1, 1));
    let n = node(d, SETTLED);
    before(&n, PS, 0, "");
    n.borrow_mut().guest.insert("/opt/stack/compose.yaml".to_string(), "old\n".to_string());
    let (_, said) = drive(&n, |w| daemon::pass(w, &ctx(), &Memo::new()));
    assert!(said.last().unwrap().contains("rendered (stack is down, not started)"), "{said:?}");
    assert_eq!(n.borrow().did(UP), 0);
}

#[test]
fn a_failed_guest_is_remembered_and_the_others_go_on() {
    let n = node(DOC, SETTLED);
    before(
        &n,
        "pvesh get /nodes/n1/lxc ",
        0,
        r#"[{"vmid":105,"name":"wiki","status":"running","tags":"compose"},
            {"vmid":104,"name":"bad","status":"running","tags":"compose"},
            {"vmid":103,"name":"off","status":"stopped","tags":"compose"},
            {"vmid":102,"name":"other","status":"running","tags":""},
            {"vmid":101,"name":"tmpl","status":"running","tags":"compose","template":1}]"#,
    );
    before(&n, "pve-meta get 104", 0, DOC);
    before(&n, "pvesh get /nodes/n1/lxc/104/config", 1, "");
    let mut earlier = Memo::new();
    earlier.remember(103, "d".to_string());
    earlier.remember(105, "d".to_string());
    let (m, said) = drive(&n, |w| daemon::pass(w, &ctx(), &earlier));
    let m = m.unwrap();
    let digest = pve_compose::doc::digest(DOC);
    assert!(m.has(104, &digest) && m.has(105, &digest) && m.has(103, "d"));
    assert!(said[0].starts_with("! 104: "), "{said:?}");
    let n = n.borrow();
    assert_eq!(n.did("pve-meta get 103") + n.did("pve-meta get 102") + n.did("pve-meta get 101"), 0);
    assert_eq!(n.did("notify WATCHDOG=1"), 2);
    assert_eq!((n.did("lock 104"), n.did("unlock 104")), (1, 1));
}

#[test]
fn the_loop_passes_when_the_token_moves_or_it_is_time() {
    let n = node(DOC, SETTLED);
    let s = Loop::new(ctx());
    assert_eq!((s.interval, s.full_every), (30, 600));
    let (_, said) = drive(&n, |w| daemon::begin(w, &s));
    assert_eq!(
        said,
        vec!["! pve-compose daemon on n1: polling every 30s, full pass every 600s"]
    );
    let s1 = drive(&n, |w| daemon::run(w, &s)).0.unwrap();
    assert_eq!(s1.token, "t1");
    assert_eq!(n.borrow().did("pvesh get /nodes/n1/lxc "), 1);
    assert_eq!(n.borrow().did("sleep 30000"), 1);
    // The same token: no pass.
    let s2 = drive(&n, |w| daemon::run(w, &s1)).0.unwrap();
    assert_eq!(n.borrow().did("pvesh get /nodes/n1/lxc "), 1);
    // A moved token: a pass, and the document was handled.
    before(&n, "pvesh get /meta/version", 0, r#"{"token":"t2"}"#);
    let s3 = drive(&n, |w| daemon::run(w, &s2)).0.unwrap();
    assert_eq!(n.borrow().did("pvesh get /nodes/n1/lxc "), 2);
    assert_eq!(n.borrow().did("lock 105"), 1);
    // Ten minutes on: everything again.
    n.borrow_mut().clock += 600_000;
    let s4 = drive(&n, |w| daemon::run(w, &s3)).0.unwrap();
    assert_eq!(n.borrow().did("lock 105"), 2);
    // Changed choices drop the memo.
    n.borrow_mut().files.insert(config::PATH.to_string(), "defaults: { cores: 7 }\n".to_string());
    let (s5, said) = drive(&n, |w| daemon::run(w, &s4));
    let s5 = s5.unwrap();
    assert_eq!(said, vec!["! configuration changed; planning every guest again"]);
    assert_eq!(s5.ctx.config.defaults.cores, 7);
    assert!(s5.memo.entries.is_empty());
    // A poll that fails is said, and the loop is as before.
    before(&n, "pvesh get /meta/version", 1, "");
    let (s6, said) = drive(&n, |w| daemon::run(w, &s5));
    assert!(said[0].starts_with("! version poll failed: "), "{said:?}");
    assert_eq!(s6.unwrap().token, "t2");
}

#[test]
fn the_intervals_have_a_least() {
    let mut c = ctx();
    c.config.daemon.interval = 1;
    c.config.daemon.full_every = 1;
    let s = Loop::new(c);
    assert_eq!((s.interval, s.full_every), (5, 60));
}

// ---------------------------------------------------------------------------
// The command line.

fn run(n: &RefCell<Node>, c: &Command, argv: &[&str]) -> (Result<Outcome, Error>, Vec<String>) {
    let argv: Vec<String> = argv.iter().map(|s| s.to_string()).collect();
    drive(n, |w| cli::run(w, c, &argv))
}

#[test]
fn a_guest_of_another_node_is_forwarded() {
    let n = node(DOC, SETTLED);
    before(&n, "perl -MPVE::SSHInfo", 0, "ssh\0-o\0Host=x\0root@n2\0");
    let (r, said) = run(&n, &Command::Apply { vmid: 200, no_up: true }, &["apply", "200", "a b"]);
    assert!(matches!(r.unwrap(), Outcome::Done));
    assert_eq!(said, vec!["! guest 200 is on n2; running there"]);
    let n = n.borrow();
    assert_eq!(
        n.log.last().unwrap(),
        "ssh -o Host=x root@n2 -t 'pve-compose apply 200 'a b''"
    );
    assert_eq!(n.did("lock"), 0);
}

#[test]
fn what_is_no_container_is_refused() {
    let n = node(DOC, SETTLED);
    let (r, _) = run(&n, &Command::Diff { vmid: 300 }, &[]);
    assert_eq!(r.err().unwrap().head(), "guest 300 is not a container");
    let (r, _) = run(&n, &Command::Diff { vmid: 301 }, &[]);
    assert_eq!(r.err().unwrap().head(), "no guest 301 in the cluster");
    before(&n, "perl", 0, "");
    let (r, _) = run(&n, &Command::Upgrade { vmid: 200 }, &[]);
    assert_eq!(r.err().unwrap().head(), "cannot build the ssh command for node n2");
}

#[test]
fn verbs_reach_what_they_name() {
    let n = node(DOC, SETTLED);
    run(&n, &Command::Upgrade { vmid: 105 }, &[]).0.unwrap();
    assert_eq!((n.borrow().did(PULL), n.borrow().did(UP)), (1, 1));
    run(&n, &Command::DockerUpgrade { vmid: 105 }, &[]).0.unwrap();
    assert_eq!((n.borrow().did(PULL), n.borrow().did(UP)), (2, 2));
    run(&n, &Command::Apply { vmid: 105, no_up: true }, &[]).0.unwrap();
    run(&n, &Command::DockerApply { vmid: 105, no_up: false }, &[]).0.unwrap();
    assert_eq!((n.borrow().did(PULL), n.borrow().did(UP)), (2, 3));
    run(&n, &Command::PctApply { vmid: 105 }, &[]).0.unwrap();
    run(&n, &Command::PctDiff { vmid: 105 }, &[]).0.unwrap();
    run(&n, &Command::DockerDiff { vmid: 105 }, &[]).0.unwrap();
    assert!(matches!(
        run(&n, &Command::Status { only: None, json: true }, &[]).0.unwrap(),
        Outcome::Rows(r) if r.len() == 1
    ));
    let (_, said) = run(&n, &Command::PctStatus { only: None, json: false }, &[]);
    assert_eq!(said.len(), 2);
    assert!(matches!(
        run(&n, &Command::Daemon, &[]).0.unwrap(),
        Outcome::Loop(c) if c.node == "n1"
    ));
    run(&n, &Command::ConfigSet { key: "cores".to_string(), value: "4".to_string() }, &[]).0.unwrap();
    let (_, said) = run(&n, &Command::Config, &[]);
    assert_eq!(said[6], "cores             4                        cluster");
    run(&n, &Command::ConfigUnset { key: "cores".to_string() }, &[]).0.unwrap();
    before(&n, "pvesh get /nodes/n1/lxc ", 0, "[]");
    let (_, said) = run(&n, &Command::DockerStatus { only: None, json: false }, &[]);
    assert_eq!(said, vec!["no compose guests on n1"]);
}

#[test]
fn other_docker_verbs_pass_through() {
    let words = |w: &[&str]| Command::Compose(w.iter().map(|s| s.to_string()).collect());
    let n = node(DOC, SETTLED);
    run(&n, &words(&["logs", "105", "-f", "it's"]), &[]).0.unwrap();
    let n2 = n.borrow();
    assert!(
        n2.log.iter().any(|l| l.contains("docker compose logs -f 'it'\\''s'")),
        "{:?}",
        n2.log
    );
    assert_eq!((n2.did("lock 105 60"), n2.did("unlock 105")), (1, 1));
    drop(n2);
    let (r, _) = run(&n, &words(&["logs"]), &[]);
    assert_eq!(
        r.err().unwrap().head(),
        "usage: pve-compose docker logs <vmid> [compose arguments]"
    );
    assert_eq!(cli::target(&words(&["logs", "200"])), Some(200));
    assert_eq!(cli::target(&words(&["logs", "x"])), None);
    assert_eq!(cli::target(&Command::Daemon), None);
}

#[test]
fn a_lock_is_given_back() {
    let n = RefCell::new(Node::default());
    let (r, _) = drive(&n, |w| {
        let l = GuestLock::take(w, 7, 60)?;
        let r: Result<(), Stop> = Err(Stop::fail("broken".to_string()));
        l.finish(w, r)
    });
    assert_eq!(r.unwrap_err().head(), "broken");
    assert_eq!(n.borrow().log, vec!["lock 7 60", "unlock 7"]);
}

#[test]
fn a_started_guest_is_waited_for() {
    let n = node(DOC, SETTLED);
    drive(&n, |w| pct::wait_ready(w, 105, 90)).0.unwrap();
    assert_eq!(n.borrow().did("sleep"), 0);
    before(&n, "pct exec 105", 1, "");
    let e = drive(&n, |w| pct::wait_ready(w, 105, 5)).0.unwrap_err();
    assert!(e.head().contains("105") && e.head().contains("5"), "{}", e.head());
    assert!(n.borrow().did("sleep") > 0);
}

#[test]
fn the_owner_of_a_guest_is_read_from_the_cluster() {
    let n = node(DOC, SETTLED);
    let o = drive(&n, |w| pct::owner_node(w, 200)).0.unwrap();
    assert_eq!(o, Some(("n2".to_string(), "lxc".to_string())));
    assert_eq!(drive(&n, |w| pct::owner_node(w, 999)).0.unwrap(), None);
}
