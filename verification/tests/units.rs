use pve_compose::cmd;
use pve_compose::config::{Config, Limits};
use pve_compose::doc::{self, Mode};
use pve_compose::error::Error;
use pve_compose::json;
use pve_compose::lock;
use pve_compose::notify;
use pve_compose::num;
use pve_compose::ops::daemon::Memo;
use pve_compose::ops::diff;
use pve_compose::ops::template;
use pve_compose::pct::{self, GuestConfig, Mount};
use pve_compose::plan::{self, Inputs};
use pve_compose::prompt;
use pve_compose::size::{self, Size};
use pve_compose::spec::{self, Kind, Vars};
use pve_compose::stack::{self, Facts};
use pve_compose::table::Table;
use pve_compose::text;
use pve_compose::world::Call;
use pve_compose::yaml::{self, Yaml};

// ---------------------------------------------------------------------------
// Sizes.

#[test]
fn parses_and_prints() {
    assert_eq!("20G".parse::<Size>().unwrap(), Size(20 * size::GIB));
    assert_eq!("512M".parse::<Size>().unwrap().to_string(), "512M");
    assert_eq!("2T".parse::<Size>().unwrap().to_pct_gib(), "2048");
    assert_eq!("4".parse::<Size>().unwrap().to_pct_gib(), "4");
    assert_eq!("512M".parse::<Size>().unwrap().to_pct_gib(), "0.5");
    assert_eq!("1.5G".parse::<Size>().unwrap().to_string(), "1536M");
    assert!("x".parse::<Size>().is_err());
    assert_eq!(Size(14910224 * 1024).human(), "14.2G");
    assert_eq!(Size(512).human(), "512");
}

#[test]
fn sizes_that_are_none_say_why() {
    let e = |s: &str| Size::parse(s).unwrap_err().head();
    assert_eq!(e(""), "empty size");
    assert_eq!(e("  "), "empty size");
    assert_eq!(e("x"), "bad size 'x'");
    assert_eq!(e("1.2.3G"), "bad size '1.2.3G'");
    assert_eq!(e("20Q"), "bad size unit in '20Q'");
    assert_eq!(e("0G"), "size '0G' is zero");
    assert_eq!(e("0.00001K"), "size '0.00001K' is zero");
}

#[test]
fn sizes_print_and_read_back() {
    let large = [(1u64 << 63) + 2048, u64::MAX - 2047, u64::MAX - ((1 << 20) - 1)];
    for b in [1024u64, 4096, 1536 * 1024, 20 << 30, 3 << 40, 1023 << 20, 5 << 50].iter().chain(&large) {
        let s = Size(*b).to_string();
        assert_eq!(Size::parse(s.as_str()).unwrap(), Size(*b), "{s}");
    }
    // Past 53 bits a number of KiB is read as the nearest one that has them.
    assert_ne!(Size::parse(&Size((1 << 63) + 1024).to_string()).unwrap(), Size((1 << 63) + 1024));
    assert_eq!(Size(20 << 30).to_pct_resize(), "20G");
}

/// What `f64` arithmetic makes of a number and a unit.
fn by_floats(number: &str, unit: f64) -> u64 {
    (number.parse::<f64>().unwrap() * unit).round() as u64
}

#[test]
fn fractions_are_as_floating_point_has_them() {
    let units = [("K", 1024.0), ("M", 1048576.0), ("G", 1073741824.0), ("T", 1099511627776.0)];
    let numbers = [
        "0.1", "0.3", "1.5", "2.7", "0.33333333", "7.000001", "123.456789", "0.999999999999",
        "1024.5", "99999.99999", "3.14159265358979323846", "0.5000000000000001",
    ];
    for (u, f) in units {
        for n in numbers {
            assert_eq!(Size::parse(&format!("{n}{u}")).unwrap().bytes(), by_floats(n, f), "{n}{u}");
        }
    }
}

/// The GiB of a size with six decimals at most, as `f64` prints them.
fn gib_by_floats(b: u64) -> String {
    let g = b as f64 / 1073741824.0;
    if (g - g.round()).abs() < 1e-9 {
        format!("{}", g.round() as u64)
    } else {
        format!("{g:.6}").trim_end_matches('0').trim_end_matches('.').to_string()
    }
}

#[test]
fn gibibytes_are_as_floating_point_has_them() {
    for b in [
        1u64 << 29, 1 << 30, 3 << 29, 5 << 28, 123456789, 987654321012, 1, 1 << 20,
        (1 << 30) + 1, (1 << 30) - 1, (7 << 30) + 4096, 64 << 30,
    ] {
        assert_eq!(Size(b).to_pct_gib(), gib_by_floats(b), "{b}");
    }
}

#[test]
fn for_a_human_one_decimal() {
    assert_eq!(Size(1024).human(), "1.0K");
    assert_eq!(Size(1536).human(), "1.5K");
    assert_eq!(Size(10 << 20).human(), "10.0M");
    assert_eq!(Size(3 << 40).human(), "3.0T");
    for b in [1100u64, 5 << 19, 14910224 * 1024, 123456789012, 9 << 41] {
        let f = b as f64;
        let want = if f >= 1099511627776.0 {
            format!("{:.1}T", f / 1099511627776.0)
        } else if f >= 1073741824.0 {
            format!("{:.1}G", f / 1073741824.0)
        } else if f >= 1048576.0 {
            format!("{:.1}M", f / 1048576.0)
        } else {
            format!("{:.1}K", f / 1024.0)
        };
        assert_eq!(Size(b).human(), want);
    }
}

// ---------------------------------------------------------------------------
// Numbers, texts, tables, errors.

#[test]
fn numbers_print_and_parse() {
    assert_eq!(num::print(0), "0");
    assert_eq!(num::print(u64::MAX), "18446744073709551615");
    assert_eq!(num::print_signed(-7), "-7");
    assert_eq!(num::parse("105", u32::MAX as u64), Some(105));
    assert_eq!(num::parse("+5", 10), Some(5));
    assert_eq!(num::parse("11", 10), None);
    assert_eq!(num::parse("", 10), None);
    assert_eq!(num::parse("-1", 10), None);
}

#[test]
fn numbers_that_are_none_say_why() {
    for s in ["", "+", "-", "x", "12x", "-4", "+-3", "4294967296", "99999999999x", "4294967295x"] {
        let want = s.parse::<u32>().unwrap_err().to_string();
        assert_eq!(num::parse_error(s, u32::MAX as u64), want, "{s}");
    }
    let s = "18446744073709551616";
    assert_eq!(num::parse_error(s, u64::MAX), s.parse::<u64>().unwrap_err().to_string());
}

#[test]
fn texts_are_cut_and_joined_as_std_does() {
    for s in ["", " a ", "\ta\u{2003}", "a\nb", "\u{85}x\u{a0}"] {
        assert_eq!(text::trim(s), s.trim());
    }
    for s in ["", "a", "a\n", "a\r\nb", "a\n\nb\n", "\n", "a\r", "\r\n"] {
        let want: Vec<String> = s.lines().map(String::from).collect();
        assert_eq!(text::lines(s), want, "{s:?}");
    }
    for s in ["", "a,b", ",", "a,,b,"] {
        let want: Vec<String> = s.split(',').map(String::from).collect();
        assert_eq!(text::split(s, ','), want);
    }
    assert_eq!(text::replace("a$b$", "$", "--"), "a$b$".replace('$', "--"));
    assert_eq!(text::upper_case("aßZ9"), "aßZ9".to_ascii_uppercase());
    assert_eq!(text::lower_case("AÄz9"), "AÄz9".to_ascii_lowercase());
}

#[test]
fn a_table_is_in_order() {
    let mut t: Table<String> = Table::new();
    t.insert("b".to_string(), "1".to_string());
    t.insert("a".to_string(), "2".to_string());
    t.insert("c".to_string(), "3".to_string());
    t.insert("b".to_string(), "4".to_string());
    let keys: Vec<&str> = t.entries.iter().map(|e| e.0.as_str()).collect();
    assert_eq!(keys, vec!["a", "b", "c"]);
    assert_eq!(t.get("b"), Some(&"4".to_string()));
    t.remove("a");
    assert_eq!(t.get("a"), None);
    assert_eq!(t.get("c"), Some(&"3".to_string()));
    assert!(!t.is_empty());
}

#[test]
fn an_error_has_a_head_and_its_causes() {
    let e = Error::msg("inner").context("outer".to_string());
    assert_eq!(e.head(), "outer");
    assert_eq!(e.full(), "outer: inner");
}

// ---------------------------------------------------------------------------
// YAML and JSON.

#[test]
fn yaml_is_read_and_printed() {
    let v = yaml::parse("a: 1\nb: [x, true, ~]\nc: !tag {d: 0x10}\n").unwrap();
    assert!(matches!(v.get("a"), Some(Yaml::Number(n)) if n == "1"));
    match v.get("b") {
        Some(Yaml::List(l)) => {
            assert_eq!(l.len(), 3);
            assert_eq!(l[0].as_str().map(|s| s.as_str()), Some("x"));
            assert!(matches!(l[1], Yaml::Bool(true)));
            assert!(l[2].is_null());
        }
        x => panic!("{x:?}"),
    }
    assert!(matches!(v.get("c"), Some(Yaml::Tagged(t, _)) if t == "tag"));
    assert!(matches!(v.get("c").unwrap().get("d"), Some(Yaml::Number(n)) if n == "16"));
    let t = yaml::print(&v).unwrap();
    assert_eq!(t, "a: 1\nb:\n- x\n- true\n- null\nc: !tag\n  d: 16\n");
    let want: serde_yaml_ng::Value = serde_yaml_ng::from_str(&t).unwrap();
    let have: serde_yaml_ng::Value =
        serde_yaml_ng::from_str("a: 1\nb: [x, true, ~]\nc: !tag {d: 0x10}\n").unwrap();
    assert_eq!(want, have);
}

#[test]
fn yaml_keeps_texts_that_look_like_something_else() {
    let v = Yaml::map(vec![(Yaml::text("k"), Yaml::text("1:30")), (Yaml::text("n"), Yaml::text("no"))]);
    let t = yaml::print(&v).unwrap();
    let back = yaml::parse(&t).unwrap();
    assert_eq!(back.get("k").unwrap().as_str().map(|s| s.as_str()), Some("1:30"));
    assert_eq!(back.get("n").unwrap().as_str().map(|s| s.as_str()), Some("no"));
}

#[test]
fn what_is_no_yaml_is_refused_with_its_message() {
    let e = yaml::parse("a: [").unwrap_err();
    let want = serde_yaml_ng::from_str::<serde_yaml_ng::Value>("a: [").unwrap_err().to_string();
    assert_eq!(e.head(), want);
}

#[test]
fn json_is_read() {
    let v = json::parse(r#"{"a": 1, "b": [true, null, "x"], "c": 2.5}"#).unwrap();
    assert_eq!(v.get_u64("a"), Some(1));
    assert_eq!(v.get_u64("c"), None);
    assert_eq!(v.get("b").unwrap().show(), "[true,null,\"x\"]");
    assert_eq!(v.get("c").unwrap().show(), "2.5");
    assert_eq!(v.text_or_empty("missing"), "");
    let want = serde_json::from_str::<serde_json::Value>("{").unwrap_err().to_string();
    assert_eq!(json::parse("{").unwrap_err().head(), want);
}

// ---------------------------------------------------------------------------
// The stored choices.

#[test]
fn empty_is_default() {
    let c = Config::parse("defaults: {}\n").unwrap();
    assert_eq!(c.defaults.owner, "1000:1000");
    assert_eq!(c.daemon.interval, 30);
    assert_eq!(c.storage_for("x"), None);
    assert_eq!(c.template.storage, None);
}

#[test]
fn node_storage_is_per_node() {
    let c = Config::parse("nodes:\n  a: { storage: NetApp }\n").unwrap();
    assert_eq!(c.storage_for("a").as_deref(), Some("NetApp"));
    assert_eq!(c.storage_for("b"), None);
}

#[test]
fn unknown_keys_are_refused() {
    assert!(Config::parse("defaults: { storage: x }\n").is_err());
    assert!(Config::parse("defaults: { stack_size: 4G }\n").is_err());
}

#[test]
fn the_file_holds_every_choice() {
    let t = "template:\n  storage: local\n  base: debian-12\ndefaults:\n  rootfs_size: 12G\n  owner: 33:33\n  bridge: vmbr1\n  cores: 4\n  memory: 512\nnodes:\n  a:\n    storage: fast\n  b: {}\nlimits:\n  bind_roots:\n  - /srv\n  storages:\n  - fast\n  max_disk_gib: 200\ndaemon:\n  interval: 10\n  full_every: 100\n";
    let c = Config::parse(t).unwrap();
    let f = c.file().unwrap();
    let again = Config::parse(&f).unwrap();
    assert!(again.same(&c));
    assert_eq!(again.defaults.rootfs_size, Size(12 << 30));
    assert_eq!(again.limits.bind_roots, vec!["/srv"]);
    assert_eq!(again.daemon.full_every, 100);
}

#[test]
fn a_field_is_read_by_its_kind() {
    // A text field takes any scalar, and no text where nothing stands.
    let c = Config::parse("defaults:\n  bridge:\n  owner: 1000\n  cores: 3\n").unwrap();
    assert_eq!(c.defaults.bridge, "");
    assert_eq!((c.defaults.owner.as_str(), c.defaults.cores), ("1000", 3));
    assert!(Config::parse("defaults: { bridge: [a] }\n").is_err());
    // One that may be missing is missing where nothing stands.
    assert_eq!(Config::parse("template: { storage: }\n").unwrap().template.storage, None);
    assert_eq!(
        Config::parse("template: { storage: !x }\n").unwrap().template.storage.as_deref(),
        Some("")
    );
    // A list and a section may be left empty.
    let c = Config::parse("limits:\n  bind_roots:\n  storages: [a, 7, true]\ndaemon:\n").unwrap();
    assert!(c.limits.bind_roots.is_empty());
    assert_eq!(c.limits.storages, vec!["a", "7", "true"]);
    // A key may have a tag, as long as it is there once.
    assert_eq!(Config::parse("!s defaults: { !k cores: 5 }\n").unwrap().defaults.cores, 5);
    assert!(Config::parse("daemon: { interval: 5, !k interval: 6 }\n").is_err());
    let f = "digest: d\n!k by: x\napplied_at: t\nmore: [1]\n";
    assert_eq!(stack::Facts::parse(f).unwrap().by, "x");
    assert!(stack::Facts::parse(&format!("{f}by: y\n")).is_err());
    assert!(stack::Facts::parse(&format!("{f}? [a]\n: b\n")).is_err());
    // A number may have a tag, a size may not.
    assert_eq!(Config::parse("defaults: { cores: !n 4 }\n").unwrap().defaults.cores, 4);
    assert!(Config::parse("defaults: { rootfs_size: !n 4 }\n").is_err());
    assert_eq!(
        Config::parse("defaults: { rootfs_size: 4 }\n").unwrap().defaults.rootfs_size,
        Size(4 << 30)
    );
    assert!(Config::parse("defaults: { cores: \"4\" }\n").is_err());
    assert!(Config::parse("defaults: { cores: 4294967296 }\n").is_err());
}

#[test]
fn limits_default_to_the_nodes_storage() {
    let c = Config::parse("nodes:\n  a: { storage: NetApp }\n").unwrap();
    assert_eq!(c.limits_for("a").storages, vec!["NetApp"]);
    assert!(c.limits_for("b").storages.is_empty());
    let c = Config::parse("limits: { storages: [x] }\nnodes:\n  a: { storage: NetApp }\n").unwrap();
    assert_eq!(c.limits_for("a").storages, vec!["x"]);
}

// ---------------------------------------------------------------------------
// Documents.

#[test]
fn minimal_document() {
    let d = doc::parse("spec:\n  services: {}\n").unwrap();
    assert_eq!(d.policy.pct, Mode::Auto);
    assert_eq!(d.policy.docker, Mode::Auto);
    assert_eq!(d.policy.pull, Mode::Manual);
    assert!(d.stack.owner.is_none());
}

#[test]
fn flags_in_both_spellings() {
    let one = yaml::parse("1").unwrap();
    let t = yaml::parse("true").unwrap();
    let no = yaml::parse("\"no\"").unwrap();
    assert_eq!(doc::flag_of(&one), Some(true));
    assert_eq!(doc::flag_of(&t), Some(true));
    assert_eq!(doc::flag_of(&no), Some(false));
}

#[test]
fn policy_keys() {
    let d = doc::parse("policy: { docker: manual }\nspec: {}\n").unwrap();
    assert_eq!(d.policy.pct, Mode::Auto);
    assert_eq!(d.policy.docker, Mode::Manual);
    assert!(doc::parse("policy: { apply: auto }\nspec: {}\n").is_err());
}

#[test]
fn a_mode_is_a_name_or_a_tag() {
    let up = |t: &str| doc::parse(&format!("policy: {{ up: {t} }}\nspec: {{}}\n")).map(|d| d.policy.up);
    assert_eq!(up("\"auto\"").unwrap(), Mode::Auto);
    assert_eq!(up("!auto").unwrap(), Mode::Auto);
    assert!(up("!auto x").is_err());
    assert!(up("!x auto").is_err());
    assert!(up("Auto").is_err());
    assert!(up("1").is_err());
    assert!(up("").is_err());
}

#[test]
fn unknown_key_is_refused() {
    assert!(doc::parse("stak: {}\nspec: {}\n").is_err());
}

#[test]
fn project_and_owner_are_validated() {
    assert!(doc::parse("stack: { project: wiki }\nspec: {}\n").is_err());
    assert!(doc::parse("stack: { storage: x }\nspec: {}\n").is_err());
    assert!(doc::parse("stack: { owner: \"1000:1000\" }\nspec: {}\n").is_ok());
    assert!(doc::parse("stack: { owner: \"root:root\" }\nspec: {}\n").is_err());
    assert_eq!(doc::project_name_from("Wiki"), "wiki");
    assert_eq!(doc::project_name_from("My Stack.local"), "my-stack-local");
    assert_eq!(doc::project_name_from("--x"), "x");
    assert_eq!(doc::project_name_from("!!!"), "stack");
}

#[test]
fn spec_must_be_a_map() {
    assert!(doc::parse("spec: 3\n").is_err());
    assert!(doc::parse("policy: {}\n").is_err());
}

#[test]
fn up_is_manual_unless_the_document_says_auto() {
    assert_eq!(doc::parse("spec: {}\n").unwrap().policy.up, Mode::Manual);
    assert_eq!(doc::parse("policy: { up: auto }\nspec: {}\n").unwrap().policy.up, Mode::Auto);
}

#[test]
fn project_names_are_what_compose_accepts() {
    for (s, want) in [("wiki", true), ("9-a_b", true), ("", false), ("-a", false), ("_a", false), ("A", false), ("a.b", false)] {
        assert_eq!(doc::is_project_name(s), want, "{s}");
    }
    for h in ["", "X", "..", "Ünï", "a b", "1.2.3"] {
        assert!(doc::is_project_name(&doc::project_name_from(h)), "{h}");
    }
}

#[test]
fn a_digest_is_sha256_in_hexadecimal() {
    assert_eq!(
        doc::digest("abc"),
        "ba7816bf8f01cfea414140de5dae2223b00361a396177a9cb410ff61f20015ad"
    );
    assert_eq!(
        doc::digest(""),
        "e3b0c44298fc1c149afbf4c8996fb92427ae41e4649b934ca495991b7852b855"
    );
}

// ---------------------------------------------------------------------------
// Volumes and rendering.

const SPEC: &str = r#"
services:
  app:
    image: x
    user: "${PVE_UID}:${PVE_GID}"
    volumes: ["db:/var/lib/postgresql", "media:/data", "cache:/cache", "ext:/e"]
volumes:
  db:    { x-pve: { storage: NetApp, size: 20G } }
  media: { x-pve: { path: /NetApp/FileStore/Media, owner: "1500:1500" } }
  cache:
  ext:   { external: true }
"#;

fn wide() -> Limits {
    Limits {
        bind_roots: vec!["/NetApp/FileStore".to_string(), "/p".to_string()],
        storages: vec!["NetApp".to_string(), "s".to_string()],
        max_disk_gib: 64,
    }
}

fn refused(spec: &str) -> String {
    spec::volumes(&yaml::parse(spec).unwrap(), &wide()).unwrap_err().full()
}

#[test]
fn classifies_volumes() {
    let v = spec::volumes(&yaml::parse(SPEC).unwrap(), &wide()).unwrap();
    assert_eq!(v.len(), 3);
    assert_eq!(v[0].name, "db");
    assert!(
        matches!(&v[0].kind, Kind::Disk { storage: Some(s), size } if s == "NetApp" && size.to_string() == "20G")
    );
    assert!(matches!(&v[1].kind, Kind::Bind { path } if path == "/NetApp/FileStore/Media"));
    assert_eq!(v[1].owner.as_deref(), Some("1500:1500"));
    assert_eq!(v[2].kind, Kind::Plain);
    assert_eq!(v[2].dir(), "/opt/stack/volumes/cache");
}

#[test]
fn volume_names_are_directory_names() {
    assert!(spec::valid_volume_name("db"));
    assert!(spec::valid_volume_name("my_data-1.0"));
    assert!(!spec::valid_volume_name(""));
    assert!(!spec::valid_volume_name("../etc"));
    assert!(!spec::valid_volume_name("a/b"));
    assert!(!spec::valid_volume_name(".hidden"));
    assert!(!spec::valid_volume_name("a b"));
    assert!(!spec::valid_volume_name("it's"));
    let spec = yaml::parse("volumes:\n  ../x: {}\n").unwrap();
    assert!(spec::volumes(&spec, &wide()).is_err());
}

#[test]
fn refuses_bad_x_pve() {
    for s in [
        "volumes:\n  a: { x-pve: { storage: s } }\n",
        "volumes:\n  a: { x-pve: { path: rel } }\n",
        "volumes:\n  a: { x-pve: { bogus: 1 } }\n",
        "volumes:\n  a: { x-pve: { path: /p, backup: 0 } }\n",
        "volumes:\n  a: { x-pve: { size: 1G, owner: \"x;id\" } }\n",
    ] {
        assert!(spec::volumes(&yaml::parse(s).unwrap(), &wide()).is_err(), "{s}");
    }
}

#[test]
fn what_is_beyond_the_limits_is_refused_by_name() {
    for (s, key) in [
        ("volumes: { a: { x-pve: { size: 65G } } }", "max_disk_gib"),
        ("volumes: { a: { x-pve: { size: 1G, storage: other } } }", "storages"),
        ("volumes: { a: { x-pve: { path: /etc } } }", "bind_roots"),
        ("volumes: { a: { x-pve: { path: /pq } } }", "bind_roots"),
    ] {
        let e = refused(s);
        assert!(e.contains("spec.volumes.a") && e.contains(key), "{e}");
    }
    for s in [
        "volumes: { a: { x-pve: { path: /p/../etc } } }",
        "volumes: { a: { x-pve: { path: /p//x } } }",
        "volumes: { a: { x-pve: { path: /p/./x } } }",
    ] {
        assert!(refused(s).contains("spec.volumes.a"), "{s}");
    }
    let none = Limits::default();
    let v = yaml::parse("volumes: { a: { x-pve: { path: /p/x } } }").unwrap();
    assert!(spec::volumes(&v, &none).is_err());
    assert!(spec::volumes(&v, &wide()).is_ok());
}

#[test]
fn comment_keys_never_reach_compose() {
    let spec = yaml::parse(
        "__: the stack\nservices:\n  app:\n    image: x\n    image__: pinned on purpose\n    environment:\n      A: 1\n      A__: why\n",
    )
    .unwrap();
    let text = spec::render(&spec, &vec![], &Vars::default()).unwrap();
    assert!(!text.contains("__"), "{text}");
    let back: serde_yaml_ng::Value = serde_yaml_ng::from_str(&text).unwrap();
    assert_eq!(
        back["services"]["app"]["environment"]["A"],
        serde_yaml_ng::Value::from(1)
    );
}

#[test]
fn renders_binds_and_vars() {
    let spec = yaml::parse(SPEC).unwrap();
    let v = spec::volumes(&spec, &wide()).unwrap();
    let vars = Vars {
        vmid: 105,
        uid: "1000".into(),
        gid: "1000".into(),
        name: "wiki".into(),
        project: "wiki".into(),
    };
    let text = spec::render(&spec, &v, &vars).unwrap();
    let back: serde_yaml_ng::Value = serde_yaml_ng::from_str(&text).unwrap();
    assert_eq!(back["name"].as_str(), Some("wiki"));
    assert!(
        text.lines().nth(2).unwrap().starts_with("name: wiki"),
        "{text}"
    );
    assert_eq!(back["services"]["app"]["user"].as_str(), Some("1000:1000"));
    assert_eq!(
        back["volumes"]["db"]["driver_opts"]["device"].as_str(),
        Some("/opt/stack/volumes/db")
    );
    assert!(back["volumes"]["db"].get("x-pve").is_none());
    assert_eq!(back["volumes"]["ext"]["external"].as_bool(), Some(true));
    assert!(text.starts_with("# Rendered by pve-compose"));
}

#[test]
fn every_variable_is_substituted_and_no_other() {
    let spec = yaml::parse(
        "services: { a: { x: \"${PVE_VMID} $PVE_NAME ${PVE_STACK} ${OTHER} $PVE_UID:$PVE_GID\" } }",
    )
    .unwrap();
    let vars = Vars {
        vmid: 7,
        uid: "1".into(),
        gid: "2".into(),
        name: "n".into(),
        project: "p".into(),
    };
    let text = spec::render(&spec, &vec![], &vars).unwrap();
    assert!(text.contains("7 n /opt/stack ${OTHER} 1:2"), "{text}");
}

#[test]
fn owners_are_two_numbers() {
    assert_eq!(spec::split_owner("33:44").unwrap(), ("33".to_string(), "44".to_string()));
    assert_eq!(spec::split_owner("33").unwrap(), ("33".to_string(), "33".to_string()));
    for o in ["", "33:", ":44", "a:1", "1:2:3", "1 :2"] {
        assert_eq!(spec::split_owner(o).unwrap_err().head(), format!("owner '{o}' is not uid:gid"));
    }
}

// ---------------------------------------------------------------------------
// Guests and plans.

#[test]
fn parses_mount_lines() {
    let m = Mount::parse(
        "mp1",
        "local-lvm:vm-201-disk-1,mp=/mnt/frac,size=512M,backup=1",
    )
    .unwrap();
    assert_eq!(m.storage().as_deref(), Some("local-lvm"));
    assert_eq!(m.mp.as_deref(), Some("/mnt/frac"));
    assert_eq!(m.size.unwrap().to_string(), "512M");
    assert!(m.backup);
    assert_eq!(m.index(), Some(1));
    assert_eq!(
        m.to_string(),
        "local-lvm:vm-201-disk-1,mp=/mnt/frac,size=512M,backup=1"
    );

    let b = Mount::parse("mp0", "/NetApp/FileStore/Media,mp=/mnt/media").unwrap();
    assert!(b.is_bind());
    assert_eq!(b.storage(), None);
}

#[test]
fn a_rewritten_mount_keeps_every_option() {
    let line = "volume=s:v,size=4G,shared=1,mp=/x,acl=0,quota=1";
    let m = Mount::parse("mp3", line).unwrap();
    assert_eq!(m.to_string(), "s:v,mp=/x,size=4G,acl=0,quota=1,shared=1");
    let n = Mount::parse("mp3", &m.to_string()).unwrap();
    assert_eq!(n.to_string(), m.to_string());
    assert_eq!(Mount::parse("mp0", "").unwrap_err().head(), "mp0: no volume");
    assert_eq!(
        Mount::parse("mp0", "v,ro").unwrap_err().head(),
        "bad mountpoint option 'ro' in mp0"
    );
    assert_eq!(Mount::parse("mp0", "v,size=x").unwrap_err().full(), "mp0: size: bad size 'x'");
}

#[test]
fn parses_config_json() {
    let v = json::parse(
        r#"{"arch":"amd64","cores":2,"features":"nesting=1,keyctl=1","hostname":"x","memory":1024,
            "mp0":"local-lvm:vm-9-disk-1,mp=/opt/stack,size=4G,backup=1","mp3":"/h,mp=/b",
            "rootfs":"local-lvm:vm-9-disk-0,size=6G","tags":"compose;x","unprivileged":1}"#,
    )
    .unwrap();
    let c = pct::parse_config(9, &v).unwrap();
    assert!(c.unprivileged);
    assert_eq!(c.features.get("keyctl").map(String::as_str), Some("1"));
    assert_eq!(c.tags, vec!["compose", "x"]);
    assert_eq!(c.mounts.len(), 2);
    assert_eq!(c.free_mp_index(), 1);
    assert!(c.mount_at("/opt/stack").is_some());
    assert_eq!(c.rootfs.unwrap().size.unwrap().to_string(), "6G");
}

fn guest(s: &str) -> GuestConfig {
    pct::parse_config(9, &json::parse(s).unwrap()).unwrap()
}

fn planned(g: &str, d: &str, c: &Config, l: &Limits) -> Result<plan::Plan, Error> {
    let g = guest(g);
    let d = doc::parse(d).unwrap();
    let vols = spec::volumes(&d.spec, l).unwrap();
    plan::build(&Inputs {
        node: "n",
        config: c,
        tag: Some("compose"),
        guest: &g,
        doc: &d,
        volumes: &vols,
    })
}

fn shown(p: &plan::Plan) -> Vec<String> {
    p.ops.iter().map(|o| o.to_string()).collect()
}

#[test]
fn size_tolerance_is_one_mib() {
    let want = Size(20 << 30);
    assert!(plan::disk_size_satisfied(Some(want), want));
    assert!(plan::disk_size_satisfied(
        Some(Size(want.bytes() - (1 << 20))),
        want
    ));
    assert!(!plan::disk_size_satisfied(
        Some(Size(want.bytes() - (1 << 20) - 1)),
        want
    ));
    assert!(plan::disk_size_satisfied(Some(Size(want.bytes() + 1)), want));
    assert!(!plan::disk_size_satisfied(None, want));
}

#[test]
fn converged_wrapper_is_empty() {
    let p = planned(
        r#"{"unprivileged":1,"tags":"compose","features":"nesting=1,keyctl=1",
        "mp0":"local-lvm:vm-9-disk-1,mp=/opt/stack,size=4G,backup=1",
        "mp1":"local-lvm:vm-9-disk-2,mp=/opt/stack/volumes/db,size=20G,backup=1"}"#,
        "spec:\n  volumes:\n    db: { x-pve: { size: 20G } }\n",
        &Config::default(),
        &Limits::default(),
    )
    .unwrap();
    assert!(p.is_empty(), "{:?}", p.ops);
    assert!(p.notes.is_empty(), "{:?}", p.notes);
}

#[test]
fn grows_never_shrinks_and_reports_orphans() {
    let p = planned(
        r#"{"unprivileged":1,"tags":"compose","features":"nesting=1,keyctl=1",
        "mp0":"local-lvm:vm-9-disk-1,mp=/opt/stack,size=4G,backup=1",
        "mp1":"local-lvm:vm-9-disk-2,mp=/opt/stack/volumes/db,size=10G,backup=1",
        "mp2":"local-lvm:vm-9-disk-3,mp=/opt/stack/volumes/old,size=1G,backup=1",
        "mp3":"local-lvm:vm-9-disk-4,mp=/opt/stack/volumes/big,size=50G,backup=1"}"#,
        "spec:\n  volumes:\n    db: { x-pve: { size: 20G } }\n    big: { x-pve: { size: 10G, backup: 0 } }\n",
        &Config::default(),
        &Limits::default(),
    )
    .unwrap();
    assert_eq!(
        shown(&p),
        vec![
            "disk: grow mp1 (/opt/stack/volumes/db) 10G -> 20G",
            "disk: mp3 (/opt/stack/volumes/big) backup=0",
        ]
    );
    assert!(p.notes.iter().any(|n| n.starts_with("orphan: mp2")));
    assert!(p.notes.iter().any(|n| n.contains("never shrink")));
}

#[test]
fn a_fresh_wrapper_gets_its_volumes_features_and_tag() {
    let c = Config::parse("nodes: { n: { storage: fast } }").unwrap();
    let l = Limits {
        bind_roots: vec!["/m".to_string()],
        storages: vec![],
        max_disk_gib: 64,
    };
    let p = planned(
        r#"{"unprivileged":1,"rootfs":"local-lvm:vm-9-disk-0,size=6G","features":"nesting=1"}"#,
        "spec:\n  volumes:\n    db: { x-pve: { size: 20G } }\n    media: { x-pve: { path: /m } }\n    c:\n",
        &c,
        &l,
    )
    .unwrap();
    assert_eq!(
        shown(&p),
        vec![
            "features: keyctl=1,nesting=1 (takes effect on restart)",
            "tag: add 'compose'",
            "disk: create 20G on fast at /opt/stack/volumes/db",
            "bind: /m at /opt/stack/volumes/media",
        ]
    );
}

#[test]
fn features_are_added_and_never_changed() {
    let p = planned(
        r#"{"unprivileged":1,"tags":"compose","features":"nesting=0,fuse=1"}"#,
        "spec: {}",
        &Config::default(),
        &Limits::default(),
    )
    .unwrap();
    assert_eq!(
        shown(&p),
        vec!["features: fuse=1,keyctl=1,nesting=0 (takes effect on restart)"]
    );
    let p = planned(
        r#"{"tags":"compose","features":"nesting=0,keyctl=1"}"#,
        "spec: {}",
        &Config::default(),
        &Limits::default(),
    )
    .unwrap();
    assert!(p.is_empty());
    assert_eq!(
        p.notes,
        vec!["guest is privileged; pve-compose expects unprivileged wrappers, continuing"]
    );
}

#[test]
fn mounts_that_differ_are_reported_and_left() {
    let l = Limits { bind_roots: vec!["/".to_string()], ..Limits::default() };
    let p = planned(
        r#"{"unprivileged":1,"tags":"compose","features":"nesting=1,keyctl=1",
        "mp0":"/a,mp=/opt/stack/volumes/bind","mp1":"s:v,mp=/opt/stack/volumes/plain",
        "mp2":"s:w,mp=/opt/stack/volumes/todisk,size=1G","mp3":"/x,mp=/opt/stack/volumes/tobind"}"#,
        "spec: { volumes: { bind: { x-pve: { path: /b } }, plain: {}, todisk: { x-pve: { path: /c } }, tobind: { x-pve: { size: 1G } } } }",
        &Config::default(),
        &l,
    )
    .unwrap();
    assert!(p.is_empty());
    assert_eq!(
        p.notes,
        vec![
            "volume bind: bound to /a but document says /b; change it by hand",
            "volume plain: document says plain directory but mp1 is mounted at /opt/stack/volumes/plain; leaving it",
            "volume todisk: document says bind of /c but mp2 at /opt/stack/volumes/todisk is a disk; leaving it",
            "volume tobind: document says a disk but mp3 at /opt/stack/volumes/tobind is a bind of /x; leaving it",
        ]
    );
}

#[test]
fn a_disk_without_a_storage_is_refused_with_the_command() {
    let e = planned(
        r#"{"unprivileged":1}"#,
        "spec: { volumes: { db: { x-pve: { size: 20G } } } }",
        &Config::default(),
        &Limits::default(),
    )
    .unwrap_err();
    assert_eq!(
        e.head(),
        "volume db: no storage named and none stored for n; `pve-compose config set storage <storage>`"
    );
    let t = planned(
        r#"{"template":1}"#,
        "spec: {}",
        &Config::default(),
        &Limits::default(),
    );
    assert_eq!(t.unwrap_err().head(), "guest 9 is a template");
}

#[test]
fn the_list_of_a_node_is_in_vmid_order() {
    let v = json::parse(
        r#"[{"vmid":"110","name":"b","status":"running","tags":"compose;x"},
            {"vmid":9,"name":"a","status":"stopped","template":1}]"#,
    )
    .unwrap();
    let l = pct::parse_list(&v).unwrap();
    assert_eq!(l.iter().map(|x| x.vmid).collect::<Vec<_>>(), vec![9, 110]);
    assert!(l[0].is_template && !l[0].running);
    assert!(l[1].running);
    assert_eq!(l[1].tags, vec!["compose", "x"]);
    let e = pct::parse_list(&json::parse("{}").unwrap()).unwrap_err();
    assert_eq!(e.head(), "lxc list is not an array");
}

#[test]
fn storages_that_are_not_active_are_left_out() {
    let v = json::parse(
        r#"[{"storage":"z","type":"dir","avail":100,"active":1,"shared":1},
            {"storage":"a","type":"lvm","avail":5,"active":0},
            {"storage":"m","type":"zfs","avail":7}]"#,
    )
    .unwrap();
    let l = pct::parse_storages(&v);
    assert_eq!(l.iter().map(|s| s.id.as_str()).collect::<Vec<_>>(), vec!["m", "z"]);
    assert!(l[1].shared && l[1].avail == 100 && l[1].kind == "dir");
}

// ---------------------------------------------------------------------------
// The stack.

#[test]
fn quoting() {
    assert_eq!(stack::shell_quote("ps"), "ps");
    assert_eq!(stack::shell_quote("a b"), "'a b'");
    assert_eq!(stack::shell_quote("it's"), "'it'\\''s'");
}

#[test]
fn ps_both_shapes() {
    let arr = r#"[{"Name":"a","Service":"s","State":"running","Status":"Up"}]"#;
    let v = stack::parse_ps(arr).unwrap();
    assert_eq!(v[0].service, "s");
    let lines = "{\"Name\":\"a\",\"Service\":\"s\",\"State\":\"exited\"}\n\n{\"Name\":\"b\"}\n";
    let v = stack::parse_ps(lines).unwrap();
    assert_eq!(v.len(), 2);
    assert_eq!((v[0].state.as_str(), v[1].name.as_str()), ("exited", "b"));
    assert!(!stack::is_up(&v));
    assert!(stack::parse_ps("  ").unwrap().is_empty());
    assert!(stack::parse_ps("nonsense").is_err());
}

#[test]
fn a_container_is_an_object_or_its_fields() {
    let c = stack::Container::parse(r#"["a","s","running"]"#).unwrap();
    assert_eq!((c.name.as_str(), c.service.as_str(), c.state.as_str()), ("a", "s", "running"));
    assert_eq!(c.status, "");
    assert_eq!(stack::Container::parse("[]").unwrap().name, "");
    assert!(stack::Container::parse(r#"["a","b","c","d","e"]"#).is_err());
    assert!(stack::Container::parse(r#"["a",1]"#).is_err());
    // What is not asked for may be anything, a number beyond all bounds too.
    let c = stack::Container::parse(r#"{"N\u0061me":"\u00e9","Size":1e999,"Ports":[{}]}"#).unwrap();
    assert_eq!(c.name, "\u{e9}");
    assert!(stack::Container::parse(r#"{"Name":1}"#).is_err());
    assert!(stack::Container::parse(r#"{"Name":null}"#).is_err());
    assert!(stack::Container::parse("\"a\"").is_err());
    // A field that is asked for is there once, any other as often as it likes.
    assert!(stack::Container::parse(r#"{"Name":"a","N\u0061me":"a"}"#).is_err());
    assert!(stack::Container::parse(r#"{"State":"a","X":["}",{"State":"b"}],"State":"a"}"#).is_err());
    let c = stack::Container::parse(" { \"X\" : \"a,\\\"},{\" , \"X\":[1,{}], \"Name\" : \"n\" } ").unwrap();
    assert_eq!(c.name, "n");
    assert_eq!(stack::Container::parse("{ }").unwrap().name, "");
    assert_eq!(
        json::pieces(r#""a":[1,2],"b":"x,\",y","c":{"d":1,"e":2}"#),
        vec![r#""a":[1,2]"#, r#""b":"x,\",y""#, r#""c":{"d":1,"e":2}"#]
    );
    let l = stack::parse_ps(r#"[["a"],{"Name":"b"}]"#).unwrap();
    assert_eq!((l[0].name.as_str(), l[1].name.as_str()), ("a", "b"));
    let m = vec![("Name".to_string(), Some("x".to_string())), ("Extra".to_string(), None)];
    assert_eq!(stack::Container::named(&m).unwrap().name, "x");
    assert!(stack::Container::named(&vec![("State".to_string(), None)]).is_none());
    assert!(stack::Container::listed(&vec![None]).is_none());
}

#[test]
fn facts_are_printed_and_read() {
    let f = stack::facts_at("d1", None, "2026-01-02T03:04:05+00:00".to_string());
    let t = yaml::print(&f.encode()).unwrap();
    let g = Facts::parse(&t).unwrap();
    assert_eq!((g.digest.as_str(), g.template), ("d1", None));
    let h = stack::facts_at(
        "d2",
        Some(Facts { template: Some("t".to_string()), ..Facts::default() }),
        "x".to_string(),
    );
    assert_eq!(h.template.as_deref(), Some("t"));
    assert!(Facts::parse("template: x\n").is_err());
}

// ---------------------------------------------------------------------------
// The rest.

#[test]
fn diff_marks_lines() {
    let d = diff::line_diff("a\nb\nc\n", "a\nx\nc\n");
    assert_eq!(d, "  a\n- b\n+ x\n  c\n");
}

#[test]
fn a_diff_shows_every_line_of_both() {
    for (a, b) in [
        ("", ""),
        ("a\n", ""),
        ("", "b\n"),
        ("1\n2\n3\n4\n", "2\n4\n5\n"),
        ("x\ny\nx\ny\n", "y\nx\ny\nx\n"),
    ] {
        let d = diff::line_diff(a, b);
        let old: Vec<&str> = d.lines().filter(|l| !l.starts_with('+')).map(|l| &l[2..]).collect();
        let new: Vec<&str> = d.lines().filter(|l| !l.starts_with('-')).map(|l| &l[2..]).collect();
        assert_eq!(old, a.lines().collect::<Vec<_>>());
        assert_eq!(new, b.lines().collect::<Vec<_>>());
    }
    let d = diff::line_diff("x\ny\nx\ny\n", "y\nx\ny\nx\n");
    assert_eq!(d.lines().filter(|l| l.starts_with("  ")).count(), 3);
}

#[test]
fn architecture_filter() {
    assert!(template::for_arch("debian-13-standard_13.6-1_amd64.tar.zst", "amd64"));
    assert!(!template::for_arch(
        "debian-13-standard_13.6-1_arm64.tar.zst",
        "amd64"
    ));
}

#[test]
fn the_newest_template_is_the_last_in_order() {
    let v = json::parse(
        r#"[{"volid":"local:vztmpl/debian-13-standard_13.1-2_amd64.tar.zst"},
            {"volid":"local:vztmpl/debian-13-standard_13.6-1_amd64.tar.zst"},
            {"volid":"local:vztmpl/debian-13-standard_13.9-1_arm64.tar.zst"},
            {"volid":"local:vztmpl/alpine-3_amd64.tar.xz"},{"x":1}]"#,
    )
    .unwrap();
    assert_eq!(
        template::newest(&v, "debian-13-standard_", "amd64").as_deref(),
        Some("local:vztmpl/debian-13-standard_13.6-1_amd64.tar.zst")
    );
    assert_eq!(template::newest(&v, "ubuntu", "amd64"), None);
    let l = "system          debian-13-standard_13.1-2_amd64.tar.zst\nsystem\tdebian-13-standard_13.6-1_amd64.tar.zst\nsystem\n\nmail x_1_amd64.tar\n";
    assert_eq!(
        template::newest_available(l, "debian-13-standard_", "amd64").as_deref(),
        Some("debian-13-standard_13.6-1_amd64.tar.zst")
    );
    assert_eq!(template::split_words(" a  b\tc "), vec!["a", "b", "c"]);
}

#[test]
fn a_lock_names_its_file() {
    assert_eq!(lock::path(105), "/run/lock/pve-compose/105.lock");
    assert_eq!(
        lock::busy_error(105).head(),
        "guest 105 is busy (another pve-compose holds /run/lock/pve-compose/105.lock)"
    );
    assert_eq!(lock::attempt(true, true, true), lock::Attempt::Held);
    assert_eq!(lock::attempt(false, false, false), lock::Attempt::Broken);
    assert_eq!(lock::attempt(false, true, true), lock::Attempt::Busy);
    assert_eq!(lock::attempt(false, true, false), lock::Attempt::Again);
}

#[test]
fn an_at_sign_means_the_abstract_namespace() {
    assert!(matches!(notify::address("@abstract-notify"), notify::Address::Abstract(n) if n == "abstract-notify"));
    assert!(matches!(notify::address("/run/systemd/notify"), notify::Address::Path(p) if p == "/run/systemd/notify"));
}

#[test]
fn columns_are_padded() {
    assert_eq!(prompt::left("7", 2), format!("{:>2}", "7"));
    assert_eq!(prompt::left("1234", 2), "1234");
    assert_eq!(prompt::right("é", 3), format!("{:<3}", "é"));
}

#[test]
fn a_command_is_watched_until_it_is_done() {
    assert_eq!(cmd::watch(true, true, true, true), cmd::Watch::Over);
    assert_eq!(cmd::watch(false, true, true, true), cmd::Watch::Done);
    assert!(cmd::watch(false, true, false, true) != cmd::Watch::Done);
    assert!(cmd::fits(cmd::MAX_OUTPUT - 1, 1, cmd::MAX_OUTPUT));
    assert!(!cmd::fits(cmd::MAX_OUTPUT, 1, cmd::MAX_OUTPUT));
    let c = Call::new("sh").arg("-c").arg("yes");
    assert!(cmd::over_error(&c, true).head().contains("more output than allowed"));
    let e = cmd::late_error(&c, 0).head();
    assert!(e.contains("no answer after 0s, killed"), "{e}");
    assert_eq!(cmd::render(&c), "sh -c yes");
}

#[test]
fn the_memo_keeps_the_last_digest_of_each_guest() {
    let mut m = Memo::new();
    assert!(!m.has(1, "a"));
    m.remember(1, "a".to_string());
    m.remember(2, "b".to_string());
    m.remember(1, "c".to_string());
    assert!(m.has(1, "c") && !m.has(1, "a") && m.has(2, "b"));
    assert!(m.clone().has(2, "b"));
}
