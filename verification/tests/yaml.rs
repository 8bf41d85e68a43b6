use pve_compose::config::{Config, Limits};
use pve_compose::doc;
use pve_compose::spelling;
use pve_compose::stack::Facts;
use pve_compose::yaml::{self, Yaml};
use std::collections::BTreeMap;

type Section<T> = BTreeMap<String, BTreeMap<String, T>>;

/// Scalars in every spelling that YAML gives a meaning to, and some that it
/// does not.
const SCALARS: &[&str] = &[
    "vmbr0", "1.10", "1e3", "0x10", "0o17", "0b11", "+5", "-5", "007", "5", "1_000", "1.", ".5",
    "-.5", ".inf", "-.Inf", "+.INF", ".nan", ".NaN", "18446744073709551615", "-9223372036854775808",
    "123456789012345678901234567890123456789012345", "true", "True", "TRUE", "false", "False",
    "yes", "null", "Null", "NULL", "nUll", "~", "~x", "", "''", "\"\"", "'null'", "\"1.10\"",
    "'it''s 5'", "\"a\\x41\\u00e9\\U0001F600\\t5\"", "!x 5", "!x ~", "!x null", "!x", "!x 'a 5'",
    "!!str 1.10", "!!str ~", "!x \"\\x35\"", "a b  c", "a:b", "1:30", "2026-01-02", "C:\\Users\\5",
    "a#5", "5 # five", "http://h/5?a=1&b=2", "x!5", "5!", "a|5", "5>4", "\u{e9}5", "\u{c5}",
    "|\n    5\n    x\n", ">-\n    1e3\n", "|2\n     5\n", "5\n    6", "&a 1.10",
];

fn text(s: &str) -> Option<String> {
    s.parse().ok()
}

#[test]
fn a_text_field_holds_what_was_written() {
    for s in SCALARS {
        let t = format!("defaults:\n  bridge: {s}\n");
        let want = serde_yaml_ng::from_str::<Section<String>>(&t).map(|m| m["defaults"]["bridge"].clone());
        let have = Config::parse(&t).map(|c| c.defaults.bridge);
        assert_eq!(have.ok(), want.ok(), "{t:?}");
    }
}

#[test]
fn a_field_that_may_be_missing_holds_what_was_written() {
    for s in SCALARS {
        let t = format!("template:\n  storage: {s}\n");
        let want = serde_yaml_ng::from_str::<Section<Option<String>>>(&t)
            .map(|m| m["template"]["storage"].clone());
        let have = Config::parse(&t).map(|c| c.template.storage);
        assert_eq!(have.ok(), want.ok(), "{t:?}");
    }
}

#[test]
fn a_list_holds_what_was_written() {
    for s in SCALARS {
        let t = format!("limits:\n  storages:\n  - a\n  - {s}\n  - 1e3\n");
        let want = serde_yaml_ng::from_str::<Section<Vec<String>>>(&t).map(|m| m["limits"]["storages"].clone());
        let have = Config::parse(&t).map(|c| c.limits.storages);
        assert_eq!(have.ok(), want.ok(), "{t:?}");
        let t = format!("limits:\n  storages: {s}\n");
        let want = serde_yaml_ng::from_str::<Section<Vec<String>>>(&t).map(|m| m["limits"]["storages"].clone());
        let have = Config::parse(&t).map(|c| c.limits.storages);
        assert_eq!(have.ok(), want.ok(), "{t:?}");
    }
}

#[test]
fn the_name_of_a_node_is_what_was_written() {
    for s in SCALARS {
        let t = format!("nodes:\n  {s}: {{ storage: {s} }}\n  b: {{ storage: 0x10 }}\n");
        let want = serde_yaml_ng::from_str::<BTreeMap<String, Section<Option<String>>>>(&t);
        let have = Config::parse(&t);
        assert_eq!(have.is_ok(), want.is_ok(), "{t:?}");
        if let (Ok(have), Ok(want)) = (have, want) {
            for (k, v) in &want["nodes"] {
                assert_eq!(have.storage_for(k), v["storage"], "{t:?}");
            }
        }
    }
}

#[test]
fn a_section_is_a_map_or_nothing() {
    for s in SCALARS.iter().chain(&["{}", "[]", "{ interval: 5 }", "{ interval: 0x10 }", "!x {}", "[5]"]) {
        let t = format!("daemon: {s}\n");
        let want = serde_yaml_ng::from_str::<Section<u64>>(&t).is_ok();
        assert_eq!(Config::parse(&t).is_ok(), want, "{t:?}");
        let t = format!("daemon:\n  interval: {s}\n");
        let want = serde_yaml_ng::from_str::<Section<u64>>(&t).map(|m| m["daemon"]["interval"]);
        // A tag of YAML's own on a number goes by the value.
        if !s.starts_with("!!") {
            assert_eq!(Config::parse(&t).map(|c| c.daemon.interval).ok(), want.ok(), "{t:?}");
        }
    }
    for s in ["null", "~", "Null"] {
        assert!(doc::parse(&format!("stack: {s}\nspec: {{}}\n")).is_err());
        assert!(doc::parse(&format!("policy: {s}\nspec: {{}}\n")).is_err());
        assert!(Config::parse(&format!("{s}\n")).is_err());
    }
    assert!(doc::parse("stack:\npolicy:\nspec: {}\n").is_ok());
}

#[test]
fn an_owner_is_what_was_written() {
    assert!(doc::parse("stack: { owner: 0x10 }\nspec: {}\n").is_err());
    let d = "%YAML 1.1\n---\nspec:\n  a: &x1 !!str \"\\u00e9\\n5\"\n  b: *x1\n  c: |2\n     5\n  d: >-\n    6\nstack: { owner: 33:034 }\n";
    assert_eq!(doc::parse(d).unwrap().stack.owner.as_deref(), Some("33:034"));
}

#[test]
fn facts_hold_what_was_written() {
    let t = "digest: 12e34\nby: 1.10\napplied_at: ~\ntemplate: null\nmore: { a: [1e3] }\n";
    let f = Facts::parse(t).unwrap();
    assert_eq!((f.digest.as_str(), f.by.as_str(), f.applied_at.as_str()), ("12e34", "1.10", "~"));
    assert_eq!(f.template, None);
}

#[test]
fn an_alias_holds_what_its_anchor_does() {
    let t = "template: { base: &b1 1.10 }\ndefaults:\n  owner: *b1\n  bridge: &c 0x10\n";
    let want = serde_yaml_ng::from_str::<Section<String>>(t).unwrap();
    let c = Config::parse(t).unwrap();
    assert_eq!(c.template.base, want["template"]["base"]);
    assert_eq!(c.defaults.owner, want["defaults"]["owner"]);
    assert_eq!(c.defaults.bridge, "0x10");
}

#[test]
fn where_the_twin_cannot_be_read_a_scalar_is_as_it_prints() {
    // Two keys that differ in being a number alone are one key in the twin.
    let c = Config::parse("nodes: { 1: {}, \"1\": {} }\ndefaults: { bridge: 1.50 }\n").unwrap();
    assert_eq!(c.defaults.bridge, "1.5");
}

#[test]
fn a_whole_number_beyond_64_bits_is_no_value() {
    assert!(Config::parse("defaults: { bridge: 18446744073709551616 }\n").is_err());
    assert!(Config::parse("defaults: { bridge: '18446744073709551616' }\n").is_ok());
}

#[test]
fn a_twin_stands_for_its_text() {
    let t = spelling::twin("a: 5\n&b1 \"\\x35\\n6\" !!int 7 |2 ~\n%TAG 8\n");
    assert_eq!(spelling::unveil_text(&t), "a: 5\n&b1 \"\\x35\\n6\" !xint 7 |2 ~\n%TAG 8\n");
    assert!(t.contains("&b1 \"\\x35\\n") && t.contains("!xint ") && t.contains("|2 ") && t.contains("%TAG 8"));
    assert!(!t.contains('a') || !t.starts_with('a'));
    for c in (0u8..128).map(char::from) {
        let s = c.to_string();
        assert_eq!(spelling::unveil_text(&spelling::twin(&s)), s);
    }
}

fn read_back(s: &str) {
    let k = "k".to_string();
    let v = Yaml::Dict(vec![
        (Yaml::Str(k.clone()), Yaml::Str(s.to_string())),
        (Yaml::Str("l".to_string()), Yaml::List(vec![Yaml::Str(s.to_string()), Yaml::Number("7".to_string())])),
    ]);
    let t = yaml::print(&v).unwrap();
    for t in [t.clone(), format!("# a \u{e9} comment\n{t}")] {
        let b = yaml::parse(&t).unwrap();
        assert_eq!(b.get("k").and_then(|x| x.as_str()).map(|x| x.as_str()), Some(s), "{t:?}");
        match b.get("l") {
            Some(Yaml::List(l)) => {
                assert_eq!(l[0].as_str().map(|x| x.as_str()), Some(s), "{t:?}");
                assert!(matches!(&l[1], Yaml::Number(n) if n == "7"));
            }
            x => panic!("{x:?}"),
        }
    }
}

fn read_back_as_key(s: &str) {
    let inner = Yaml::Dict(vec![(Yaml::Str(s.to_string()), Yaml::Str("v".to_string()))]);
    let v = Yaml::Dict(vec![
        (Yaml::Str("the first".to_string()), inner),
        (Yaml::Str(format!("{s}.")), Yaml::Dict(Vec::new())),
        (Yaml::Str(s.to_string()), Yaml::List(Vec::new())),
    ]);
    let t = yaml::print(&v).unwrap();
    match yaml::parse(&t).unwrap() {
        Yaml::Dict(m) => {
            assert_eq!(m.len(), 3, "{t:?}");
            assert!(matches!(&m[1].0, Yaml::Str(k) if *k == format!("{s}.")), "{t:?}");
            assert!(matches!(&m[2].0, Yaml::Str(k) if k == s), "{t:?}");
            assert!(matches!((&m[1].1, &m[2].1), (Yaml::Dict(a), Yaml::List(b)) if a.is_empty() && b.is_empty()));
            match &m[0].1 {
                Yaml::Dict(n) => assert!(matches!(&n[0].0, Yaml::Str(k) if k == s), "{t:?}"),
                x => panic!("{x:?}"),
            }
        }
        x => panic!("{x:?}"),
    }
}

#[test]
fn a_character_reads_back_as_it_was_printed() {
    for n in (0u32..0x3100).chain(0xd700..0xe100).chain(0xf8f0..0x10010).chain(0x1fff0..0x20010).chain([0x10ffff]) {
        if n == 10 || n == 0x2028 || n == 0x2029 {
            continue;
        }
        if let Some(c) = char::from_u32(n) {
            read_back(&c.to_string());
            read_back(&format!(" {c}a{c} "));
        }
    }
}

#[test]
fn a_text_reads_back_as_it_was_printed() {
    let tricky: Vec<char> = " \t\r#:-?.,[]{}&*!|>'\"%@`~=<\\\u{85}\u{feff}\u{a0}0xe+nay\u{7f}\0".chars().collect();
    for a in &tricky {
        for b in &tricky {
            read_back(&format!("{a}{b}"));
            read_back(&format!("x{a}{b}y"));
        }
    }
    for s in SCALARS.iter().filter(|s| !s.contains('\n')) {
        read_back(s);
    }
    read_back(&"long ".repeat(13000));
    read_back(&"#'\" ".repeat(13000));
}

#[test]
fn three_characters_read_back_as_they_were_printed() {
    let tricky: Vec<char> = " \t#:-?.,['\"!|\\\u{85}~0e".chars().collect();
    for a in &tricky {
        for b in &tricky {
            for c in &tricky {
                read_back(&format!("{a}{b}{c}"));
            }
        }
    }
}

#[test]
fn a_key_reads_back_as_it_was_printed() {
    for a in ' '..='~' {
        read_back_as_key(&a.to_string());
        for b in " #:-?.,[]{}&*!|>'\"%@`~=<\\0xe+".chars() {
            read_back_as_key(&format!("{a}{b}"));
            read_back_as_key(&format!("{b}{a}{b}"));
        }
    }
    read_back_as_key("");
    read_back_as_key(&"k: '".repeat(24));
    for s in SCALARS.iter().filter(|s| s.chars().all(|c| (' '..='~').contains(&c))) {
        read_back_as_key(s);
    }
}

#[test]
fn a_number_and_a_comment_read_back() {
    for n in [0u64, 7, 10, 1 << 53, u64::MAX] {
        let v = Yaml::Dict(vec![(Yaml::Str("n".to_string()), Yaml::Number(n.to_string()))]);
        let b = yaml::parse(&yaml::print(&v).unwrap()).unwrap();
        assert!(matches!(b.get("n"), Some(Yaml::Number(x)) if *x == n.to_string()));
    }
    assert!(matches!(yaml::parse("# - a: b\n").unwrap(), Yaml::Null));
    assert!(matches!(yaml::parse("#\u{ff} ' \"\n").unwrap(), Yaml::Null));
    assert!(matches!(yaml::parse("#\n").unwrap(), Yaml::Null));
}

#[test]
fn odd_choices_read_back() {
    let mut c = Config::parse("").unwrap();
    c.defaults.bridge = "1.10".to_string();
    c.defaults.owner = "~".to_string();
    c.template.storage = text("a: b # c");
    c.limits = Limits { bind_roots: vec!["".to_string(), "null".to_string()], storages: vec!["\t".to_string()], max_disk_gib: 0 };
    c.set_storage_for("1e3", text("0x10"));
    let back = Config::parse(&c.file().unwrap()).unwrap();
    assert!(back.same(&c));
    let d = Config::parse("").unwrap();
    assert!(Config::parse(&d.file().unwrap()).unwrap().same(&d));
}
