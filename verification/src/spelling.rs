//! How the scalars of a YAML text are spelled.
//!
//! A value does not say how a plain scalar that is no text was written: `1.10`
//! is a number there, and `~` is null. A field that holds a text holds what
//! was written. So the text is read a second time, as its *twin*, with every
//! letter and digit replaced by a letter of another script, of which nothing
//! but texts are made; the twin of a scalar says how it is spelled. What YAML
//! itself spells with letters and digits stays: escapes, anchors, aliases,
//! tags, the headers of block scalars and directives. Where the twin cannot be
//! read, as with keys that differ in being a number alone, a scalar is taken as
//! it prints.

use vstd::prelude::*;

use crate::error::Error;
use crate::text::{self, Text};
use crate::yaml::{self, Tree, Yaml};

verus! {

// ---------------------------------------------------------------------------
// Letters for letters.

/// The letter that stands for a letter, a digit or `~` in a twin.
pub open spec fn veiled(c: char) -> char {
    if '0' <= c <= '9' {
        (0xC0 + (c as int - '0' as int)) as char
    } else if 'A' <= c <= 'Z' {
        (0xCA + (c as int - 'A' as int)) as char
    } else if 'a' <= c <= 'z' {
        (0xE4 + (c as int - 'a' as int)) as char
    } else if c == '~' {
        0xFEint as char
    } else {
        c
    }
}

/// What a letter of a twin stands for.
pub open spec fn unveiled(c: char) -> char {
    if 0xC0 <= c as int <= 0xC9 {
        (c as int - 0xC0 + '0' as int) as char
    } else if 0xCA <= c as int <= 0xE3 {
        (c as int - 0xCA + 'A' as int) as char
    } else if 0xE4 <= c as int <= 0xFD {
        (c as int - 0xE4 + 'a' as int) as char
    } else if c as int == 0xFE {
        '~'
    } else {
        c
    }
}

/// What a text of a twin stands for.
pub open spec fn unveiled_text(s: Text) -> Text {
    s.map_values(|c: char| unveiled(c))
}

/// A letter, a digit and `~` are told from their twins.
pub proof fn law_twins_are_told(c: char)
    requires
        (c as int) < 0x80,
    ensures
        unveiled(veiled(c)) == c,
{
}

fn veil(c: char) -> (r: char)
    ensures
        r == veiled(c),
{
    if '0' <= c && c <= '9' {
        (0xC0u8 + (c as u8 - 48u8)) as char
    } else if 'A' <= c && c <= 'Z' {
        (0xCAu8 + (c as u8 - 65u8)) as char
    } else if 'a' <= c && c <= 'z' {
        (0xE4u8 + (c as u8 - 97u8)) as char
    } else if c == '~' {
        0xFEu8 as char
    } else {
        c
    }
}

fn unveil(c: char) -> (r: char)
    ensures
        r == unveiled(c),
{
    let n = c as u32;
    if 0xC0 <= n && n <= 0xC9 {
        ((n - 0xC0) as u8 + 48u8) as char
    } else if 0xCA <= n && n <= 0xE3 {
        ((n - 0xCA) as u8 + 65u8) as char
    } else if 0xE4 <= n && n <= 0xFD {
        ((n - 0xE4) as u8 + 97u8) as char
    } else if n == 0xFE {
        '~'
    } else {
        c
    }
}

/// What a text of a twin stands for.
pub fn unveil_text(s: &str) -> (r: String)
    ensures
        r@ == unveiled_text(s@),
{
    let cs = text::chars(s);
    let mut out = String::new();
    for i in 0..cs.len()
        invariant
            cs@ == s@,
            out@ == unveiled_text(s@).take(i as int),
    {
        out.push(unveil(cs[i]));
        assert(out@ =~= unveiled_text(s@).take(i + 1));
    }
    assert(unveiled_text(s@).take(s@.len() as int) =~= unveiled_text(s@));
    out
}

// ---------------------------------------------------------------------------
// The text of a twin.

/// Where in a YAML text a reader stands.
#[derive(Clone, Copy, PartialEq, Eq, Structural)]
pub struct Spot {
    /// The character before.
    pub last: char,
    /// How many characters of an escape are still to come.
    pub escape: u8,
    /// In an anchor, an alias, a tag or the header of a block scalar.
    pub word: bool,
    /// In a directive.
    pub directive: bool,
}

/// At the start of a text.
pub open spec fn start() -> Spot {
    Spot { last: '\n', escape: 0, word: false, directive: false }
}

/// How many more characters an escape takes behind its first.
pub open spec fn escape_of(c: char) -> u8 {
    if c == 'x' {
        2
    } else if c == 'u' {
        4
    } else if c == 'U' {
        8
    } else {
        0
    }
}

/// Whether a character ends an anchor, an alias, a tag or a header.
pub open spec fn ends_word(c: char) -> bool {
    c == ' ' || c == '\t' || c == '\n' || c == '\r' || c == ',' || c == '[' || c == ']' || c == '{'
        || c == '}'
}

/// Whether a character begins an anchor, an alias, a tag or a header.
pub open spec fn begins_word(c: char) -> bool {
    c == '&' || c == '*' || c == '!' || c == '|' || c == '>'
}

/// Where the reader stands behind the next character.
pub open spec fn behind(x: Spot, c: char) -> Spot {
    if x.directive {
        Spot { last: c, directive: c != '\n', ..x }
    } else if x.escape > 0 {
        Spot {
            last: c,
            escape: if c == '\n' {
                0
            } else if x.last == '\\' && x.escape == 1 {
                escape_of(c)
            } else {
                (x.escape - 1) as u8
            },
            ..x
        }
    } else if x.word {
        Spot { last: c, word: !ends_word(c), ..x }
    } else if c == '\\' {
        Spot { last: c, escape: 1, ..x }
    } else if begins_word(c) {
        Spot { last: c, word: true, ..x }
    } else if c == '%' && x.last == '\n' {
        Spot { last: c, directive: true, ..x }
    } else {
        Spot { last: c, ..x }
    }
}

/// The twin of the next character. A tag of YAML's own (`!!int`) becomes one
/// that means nothing.
pub open spec fn twin_char(x: Spot, c: char) -> char {
    if x.directive || x.escape > 0 {
        c
    } else if x.word {
        if x.last == '!' && c == '!' {
            'x'
        } else {
            c
        }
    } else {
        veiled(c)
    }
}

/// The text of the twin, from a place on.
pub open spec fn twin_from(s: Text, x: Spot) -> Text
    decreases s.len(),
{
    if s.len() == 0 {
        Seq::empty()
    } else {
        seq![twin_char(x, s[0])] + twin_from(s.skip(1), behind(x, s[0]))
    }
}

/// The text of the twin.
pub open spec fn twin_text(s: Text) -> Text {
    twin_from(s, start())
}

fn next(x: Spot, c: char) -> (r: Spot)
    ensures
        r == behind(x, c),
{
    let Spot { last, escape, word, directive } = x;
    if directive {
        Spot { last: c, directive: c != '\n', escape, word }
    } else if escape > 0 {
        let escape: u8 = if c == '\n' {
            0
        } else if last == '\\' && escape == 1 {
            if c == 'x' {
                2
            } else if c == 'u' {
                4
            } else if c == 'U' {
                8
            } else {
                0
            }
        } else {
            escape - 1
        };
        Spot { last: c, escape, word, directive }
    } else if word {
        let ends = c == ' ' || c == '\t' || c == '\n' || c == '\r' || c == ',' || c == '[' || c
            == ']' || c == '{' || c == '}';
        Spot { last: c, word: !ends, escape, directive }
    } else if c == '\\' {
        Spot { last: c, escape: 1, word, directive }
    } else if c == '&' || c == '*' || c == '!' || c == '|' || c == '>' {
        Spot { last: c, word: true, escape, directive }
    } else if c == '%' && last == '\n' {
        Spot { last: c, directive: true, escape, word }
    } else {
        Spot { last: c, escape, word, directive }
    }
}

fn twin_of_char(x: Spot, c: char) -> (r: char)
    ensures
        r == twin_char(x, c),
{
    if x.directive || x.escape > 0 {
        c
    } else if x.word {
        if x.last == '!' && c == '!' {
            'x'
        } else {
            c
        }
    } else {
        veil(c)
    }
}

/// The text of the twin.
pub fn twin(s: &str) -> (r: String)
    ensures
        r@ == twin_text(s@),
{
    let cs = text::chars(s);
    let mut out = String::new();
    let mut x = Spot { last: '\n', escape: 0, word: false, directive: false };
    assert(s@.skip(0) =~= s@);
    assert(out@ + twin_from(s@, x) =~= twin_text(s@));
    for i in 0..cs.len()
        invariant
            cs@ == s@,
            out@ + twin_from(s@.skip(i as int), x) == twin_text(s@),
    {
        let ghost rest = s@.skip(i as int);
        assert(rest[0] == cs@[i as int]);
        assert(rest.skip(1) =~= s@.skip(i + 1));
        let c = cs[i];
        let ghost before = out@;
        let ghost more = twin_from(s@.skip(i + 1), behind(x, c));
        let t = twin_of_char(x, c);
        out.push(t);
        assert(before + (seq![t] + more) =~= before.push(t) + more);
        x = next(x, c);
    }
    assert(s@.skip(s@.len() as int) =~= Seq::empty());
    assert(out@ + twin_from(Seq::empty(), x) =~= out@);
    out
}

proof fn lemma_twin_from(s: Text, x: Spot)
    ensures
        twin_from(s, x).len() == s.len(),
        forall|i: int| 0 <= i < s.len() ==> like(s[i], #[trigger] twin_from(s, x)[i]),
    decreases s.len(),
{
    if s.len() > 0 {
        let t = twin_from(s, x);
        let rest = twin_from(s.skip(1), behind(x, s[0]));
        lemma_twin_from(s.skip(1), behind(x, s[0]));
        assert forall|i: int| 0 <= i < s.len() implies like(s[i], #[trigger] t[i]) by {
            if i > 0 {
                assert(t[i] == rest[i - 1]);
                assert(s.skip(1)[i - 1] == s[i]);
            }
        }
    }
}

/// What the twin of a character may be.
pub open spec fn like(c: char, t: char) -> bool {
    t == c || t == veiled(c) || (c == '!' && t == 'x')
}

/// The twin of a comment is one.
pub proof fn lemma_comment(s: Text)
    requires
        yaml::is_comment(s),
    ensures
        yaml::is_comment(twin_text(s)),
{
    let t = twin_text(s);
    lemma_twin_from(s, start());
    assert(like(s[0], t[0]));
    assert(like(s[s.len() - 1], t[s.len() - 1]));
    assert forall|i: int| 0 <= i < t.len() - 1 implies yaml::in_comment(#[trigger] t[i]) by {
        assert(like(s[i], t[i]));
        assert(yaml::in_comment(s[i]));
    }
}

// ---------------------------------------------------------------------------
// A text and its twin.

/// The twin of what a text holds; the same, where the twin cannot be read.
pub open spec fn twin_of(s: Text, t: Tree) -> Tree {
    match yaml::yaml_of(twin_text(s)) {
        Ok(u) => u,
        Err(_) => t,
    }
}

/// What a text holds, and the twin of it.
pub fn parse(s: &str) -> (r: Result<(Yaml, Yaml), Error>)
    ensures
        match r {
            Ok(p) => yaml::yaml_of(s@) == Ok::<Tree, Text>(p.0@) && p.1@ == twin_of(s@, p.0@),
            Err(e) => yaml::yaml_of(s@) is Err && e@ == seq![yaml::yaml_of(s@)->Err_0],
        },
        yaml::is_comment(s@) ==> yaml::yaml_of(s@) == Ok::<Tree, Text>(Tree::Null) && twin_of(
            s@,
            Tree::Null,
        ) == Tree::Null,
{
    proof {
        if yaml::is_comment(s@) {
            lemma_comment(s@);
        }
    }
    match yaml::parse(s) {
        Ok(v) => {
            let u = match yaml::parse(twin(s).as_str()) {
                Ok(u) => u,
                Err(_) => v.clone(),
            };
            Ok((v, u))
        },
        Err(e) => Err(e),
    }
}

/// A scalar that is no text, as it prints.
pub open spec fn printed(t: Tree) -> Text {
    match t {
        Tree::Number(n) => n,
        Tree::Bool(b) => if b {
            "true"@
        } else {
            "false"@
        },
        _ => Seq::empty(),
    }
}

/// How a scalar that is no text is spelled, by its twin.
pub open spec fn spelled(t: Tree, u: Tree) -> Text {
    match yaml::untag(u) {
        Tree::Str(s) => unveiled_text(s),
        Tree::Null => Seq::empty(),
        _ => printed(t),
    }
}

fn print(v: &Yaml) -> (r: String)
    ensures
        r@ == printed(v@),
{
    match v {
        Yaml::Number(n) => n.clone(),
        Yaml::Bool(b) => if *b {
            "true".to_owned()
        } else {
            "false".to_owned()
        },
        _ => String::new(),
    }
}

/// How a scalar that is no text is spelled, by its twin.
pub fn spell(v: &Yaml, u: &Yaml) -> (r: String)
    ensures
        r@ == spelled(v@, u@),
{
    match u.bare() {
        Yaml::Str(s) => unveil_text(s.as_str()),
        Yaml::Null => String::new(),
        _ => print(v),
    }
}

} // verus!
