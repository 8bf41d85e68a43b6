//! Documents as data: what a YAML text holds, read and printed with
//! `serde_yaml_ng`.

use vstd::prelude::*;

use serde_yaml_ng::value::{Tag, TaggedValue};

use crate::error::Error;
use crate::num;
use crate::text::{self, Text};

verus! {

/// A YAML value. A number is kept as the text it prints as, a
/// tag without its exclamation mark.
#[derive(Debug)]
pub enum Yaml {
    Null,
    Bool(bool),
    Number(String),
    Str(String),
    List(Vec<Yaml>),
    Dict(Vec<(Yaml, Yaml)>),
    Tagged(String, Box<Yaml>),
}

/// What a [`Yaml`] is, as mathematics.
pub enum Tree {
    Null,
    Bool(bool),
    Number(Text),
    Str(Text),
    List(Seq<Tree>),
    Dict(Seq<(Tree, Tree)>),
    Tagged(Text, Box<Tree>),
}

pub open spec fn tree(v: Yaml) -> Tree
    decreases v,
{
    match v {
        Yaml::Null => Tree::Null,
        Yaml::Bool(b) => Tree::Bool(b),
        Yaml::Number(n) => Tree::Number(n@),
        Yaml::Str(s) => Tree::Str(s@),
        Yaml::List(l) => Tree::List(
            Seq::new(
                l@.len(),
                |i: int|
                    if 0 <= i < l@.len() {
                        tree(l@[i])
                    } else {
                        Tree::Null
                    },
            ),
        ),
        Yaml::Dict(m) => Tree::Dict(
            Seq::new(
                m@.len(),
                |i: int|
                    if 0 <= i < m@.len() {
                        (tree(m@[i].0), tree(m@[i].1))
                    } else {
                        (Tree::Null, Tree::Null)
                    },
            ),
        ),
        Yaml::Tagged(t, b) => Tree::Tagged(t@, Box::new(tree(*b))),
    }
}

impl View for Yaml {
    type V = Tree;

    open spec fn view(&self) -> Tree {
        tree(*self)
    }
}

/// The value under its tags, if it has any.
pub open spec fn untag(t: Tree) -> Tree
    decreases t,
{
    match t {
        Tree::Tagged(_, b) => untag(*b),
        _ => t,
    }
}

/// The first entry under `key`.
pub open spec fn at(entries: Seq<(Tree, Tree)>, key: Tree) -> Option<Tree>
    decreases entries.len(),
{
    if entries.len() == 0 {
        None
    } else if entries[0].0 == key {
        Some(entries[0].1)
    } else {
        at(entries.skip(1), key)
    }
}

/// The entry of a map under a text key; nothing for what is no map.
pub open spec fn get(t: Tree, key: Text) -> Option<Tree> {
    match untag(t) {
        Tree::Dict(m) => at(m, Tree::Str(key)),
        _ => None,
    }
}

/// The text of a text.
pub open spec fn string(t: Tree) -> Option<Text> {
    match untag(t) {
        Tree::Str(s) => Some(s),
        _ => None,
    }
}

/// The entries of a map.
pub open spec fn dict(t: Tree) -> Option<Seq<(Tree, Tree)>> {
    match untag(t) {
        Tree::Dict(m) => Some(m),
        _ => None,
    }
}

/// The entries of a map of values.
pub open spec fn entries(m: Seq<(Yaml, Yaml)>) -> Seq<(Tree, Tree)> {
    m.map_values(|e: (Yaml, Yaml)| (e.0@, e.1@))
}

pub proof fn lemma_dict(m: Vec<(Yaml, Yaml)>)
    ensures
        tree(Yaml::Dict(m)) == Tree::Dict(entries(m@)),
{
    assert(tree(Yaml::Dict(m))->Dict_0 =~= entries(m@));
}

pub proof fn lemma_list(l: Vec<Yaml>)
    ensures
        tree(Yaml::List(l)) == Tree::List(text::views(l@)),
{
    assert(tree(Yaml::List(l))->List_0 =~= text::views(l@));
}

impl Yaml {
    /// A text.
    pub fn text(s: &str) -> (r: Yaml)
        ensures
            r@ == Tree::Str(s@),
    {
        Yaml::Str(s.to_owned())
    }

    /// A map.
    pub fn map(m: Vec<(Yaml, Yaml)>) -> (r: Yaml)
        ensures
            r@ == Tree::Dict(entries(m@)),
    {
        proof {
            lemma_dict(m);
        }
        Yaml::Dict(m)
    }

    /// A list.
    pub fn seq(l: Vec<Yaml>) -> (r: Yaml)
        ensures
            r@ == Tree::List(text::views(l@)),
    {
        proof {
            lemma_list(l);
        }
        Yaml::List(l)
    }

    /// The value under its tags.
    pub fn bare(&self) -> (r: &Yaml)
        ensures
            r@ == untag(self@),
        decreases self,
    {
        match self {
            Yaml::Tagged(_, b) => b.bare(),
            _ => self,
        }
    }

    /// The entry under a text key of a map.
    pub fn get(&self, key: &str) -> (r: Option<&Yaml>)
        ensures
            match r {
                Some(v) => get(self@, key@) == Some(v@),
                None => get(self@, key@) is None,
            },
    {
        match self.bare() {
            Yaml::Dict(m) => {
                proof {
                    lemma_dict(*m);
                }
                find(m, key)
            },
            _ => None,
        }
    }

    /// The text of a text.
    pub fn as_str(&self) -> (r: Option<&String>)
        ensures
            match r {
                Some(s) => string(self@) == Some(s@),
                None => string(self@) is None,
            },
    {
        match self.bare() {
            Yaml::Str(s) => Some(s),
            _ => None,
        }
    }

    /// The entries of a map.
    pub fn as_map(&self) -> (r: Option<&Vec<(Yaml, Yaml)>>)
        ensures
            match r {
                Some(m) => dict(self@) == Some(entries(m@)),
                None => dict(self@) is None,
            },
    {
        match self.bare() {
            Yaml::Dict(m) => {
                proof {
                    lemma_dict(*m);
                }
                Some(m)
            },
            _ => None,
        }
    }

    pub fn is_null(&self) -> (r: bool)
        ensures
            r == (untag(self@) == Tree::Null),
    {
        match self.bare() {
            Yaml::Null => true,
            _ => false,
        }
    }
}

/// Whether a value is this very text.
pub fn is_text(v: &Yaml, s: &str) -> (r: bool)
    ensures
        r == (v@ == Tree::Str(s@)),
{
    match v {
        Yaml::Str(t) => text::same(t.as_str(), s),
        _ => false,
    }
}

/// The first entry under a text key.
pub fn find<'a>(m: &'a Vec<(Yaml, Yaml)>, key: &str) -> (r: Option<&'a Yaml>)
    ensures
        match r {
            Some(v) => at(entries(m@), Tree::Str(key@)) == Some(v@),
            None => at(entries(m@), Tree::Str(key@)) is None,
        },
{
    let ghost all = entries(m@);
    assert(all.skip(0) =~= all);
    for i in 0..m.len()
        invariant
            all == entries(m@),
            at(all, Tree::Str(key@)) == at(all.skip(i as int), Tree::Str(key@)),
    {
        assert(all.skip(i as int)[0] == (m@[i as int].0@, m@[i as int].1@));
        if is_text(&m[i].0, key) {
            return Some(&m[i].1);
        }
        assert(all.skip(i as int).skip(1) =~= all.skip(i + 1));
    }
    None
}

impl Clone for Yaml {
    fn clone(&self) -> (r: Yaml)
        ensures
            r@ == self@,
        decreases self,
    {
        match self {
            Yaml::Null => Yaml::Null,
            Yaml::Bool(b) => Yaml::Bool(*b),
            Yaml::Number(n) => Yaml::Number(n.clone()),
            Yaml::Str(s) => Yaml::Str(s.clone()),
            Yaml::List(l) => {
                let mut out: Vec<Yaml> = Vec::new();
                for i in 0..l.len()
                    invariant
                        *self == Yaml::List(*l),
                        out@.len() == i,
                        forall|j: int| 0 <= j < i ==> (#[trigger] out@[j])@ == l@[j]@,
                {
                    assert(decreases_to!(*self => self->List_0));
                    assert(decreases_to!(*l => l@));
                    assert(decreases_to!(l@ => l@[i as int]));
                    let x = l[i].clone();
                    out.push(x);
                }
                proof {
                    lemma_list(*l);
                    lemma_list(out);
                    assert(text::views(out@) =~= text::views(l@));
                }
                Yaml::List(out)
            },
            Yaml::Dict(m) => {
                let mut out: Vec<(Yaml, Yaml)> = Vec::new();
                for i in 0..m.len()
                    invariant
                        *self == Yaml::Dict(*m),
                        out@.len() == i,
                        forall|j: int|
                            0 <= j < i ==> (#[trigger] out@[j]).0@ == m@[j].0@ && out@[j].1@
                                == m@[j].1@,
                {
                    assert(decreases_to!(*self => self->Dict_0));
                    assert(decreases_to!(*m => m@));
                    assert(decreases_to!(m@ => m@[i as int]));
                    assert(decreases_to!(m@[i as int] => m@[i as int].0));
                    assert(decreases_to!(m@[i as int] => m@[i as int].1));
                    let k = m[i].0.clone();
                    let v = m[i].1.clone();
                    out.push((k, v));
                }
                proof {
                    lemma_dict(*m);
                    lemma_dict(out);
                    assert(entries(out@) =~= entries(m@));
                }
                Yaml::Dict(out)
            },
            Yaml::Tagged(t, b) => {
                let x = (&**b).clone();
                Yaml::Tagged(t.clone(), Box::new(x))
            },
        }
    }
}

// ---------------------------------------------------------------------------
// Reading and printing, by `serde_yaml_ng`.

/// A value of `serde_yaml_ng`.
#[verifier::external_type_specification]
#[verifier::external_body]
pub struct ExYamlNg(serde_yaml_ng::Value);

/// What `serde_yaml_ng` reads from a text: the value, or its message.
pub uninterp spec fn yaml_read(text: Text) -> Result<serde_yaml_ng::Value, Text>;

/// What a value of `serde_yaml_ng` holds.
pub uninterp spec fn yaml_contents(v: serde_yaml_ng::Value) -> Tree;

/// The value of `serde_yaml_ng` for what is to be printed.
pub uninterp spec fn yaml_value(t: Tree) -> serde_yaml_ng::Value;

/// What `serde_yaml_ng` prints for a value: the text, or its message.
pub uninterp spec fn yaml_written(v: serde_yaml_ng::Value) -> Result<Text, Text>;

/// Whether a text has no line break that YAML would have to fold or to keep.
pub open spec fn one_line(s: Text) -> bool {
    &&& s.len() < 0x1_0000
    &&& forall|i: int|
        0 <= i < s.len() ==> #[trigger] s[i] != '\n' && s[i] != '\u{2028}' && s[i] != '\u{2029}'
}

/// Whether a text is short and of printable ASCII characters.
pub open spec fn plain_key(s: Text) -> bool {
    s.len() <= 100 && forall|i: int| 0 <= i < s.len() ==> ' ' <= #[trigger] s[i] <= '~'
}

/// Whether a value is made of texts on one line, natural numbers, lists and
/// maps with plain keys, no two of them the same, up to a depth.
pub open spec fn simple(t: Tree, depth: nat) -> bool
    decreases t,
{
    match t {
        Tree::Str(s) => one_line(s),
        Tree::Number(n) => exists|x: nat| x <= u64::MAX && n == #[trigger] num::dec(x),
        Tree::List(l) => depth > 0 && forall|i: int|
            0 <= i < l.len() ==> simple(#[trigger] l[i], (depth - 1) as nat),
        Tree::Dict(m) => {
            &&& depth > 0
            &&& forall|i: int|
                0 <= i < m.len() ==> (#[trigger] m[i]).0 is Str && plain_key(m[i].0->Str_0)
                    && simple(m[i].1, (depth - 1) as nat)
            &&& forall|i: int, j: int|
                0 <= i < j < m.len() ==> (#[trigger] m[i]).0 != (#[trigger] m[j]).0
        },
        _ => false,
    }
}

/// How deep a value may be that is said to read back.
pub const DEPTH: u64 = 16;

/// Whether a text is one line of comment.
pub open spec fn is_comment(c: Text) -> bool {
    &&& c.len() > 1
    &&& c[0] == '#'
    &&& c.last() == '\n'
    &&& forall|i: int| 0 <= i < c.len() - 1 ==> in_comment(#[trigger] c[i])
}

/// Whether a character is printable ASCII or a letter of the Latin alphabet
/// beyond it.
pub open spec fn in_comment(c: char) -> bool {
    ' ' <= c <= '~' || '\u{c0}' <= c <= '\u{ff}'
}

/// Whether a text reads as a value, and does so too behind a line of comment.
pub open spec fn reads_as(s: Text, t: Tree) -> bool {
    &&& yaml_of(s) == Ok::<Tree, Text>(t)
    &&& forall|c: Text| is_comment(c) ==> yaml_of(#[trigger] (c + s)) == Ok::<Tree, Text>(t)
}

/// `serde_yaml_ng::from_str` to a value: what it reads depends on the text
/// alone, and so does the message of a failure. A comment alone is null.
#[verifier::external_body]
fn read(text: &str) -> (r: Result<serde_yaml_ng::Value, String>)
    ensures
        match r {
            Ok(v) => yaml_read(text@) == Ok::<serde_yaml_ng::Value, Text>(v) && (is_comment(text@)
                ==> yaml_contents(v) == Tree::Null),
            Err(m) => yaml_read(text@) == Err::<serde_yaml_ng::Value, Text>(m@) && !is_comment(
                text@,
            ),
        },
{
    serde_yaml_ng::from_str(text).map_err(|e| e.to_string())
}

/// A `serde_yaml_ng::Value` taken apart, variant by variant, into the
/// library's own type: the result is what the value holds.
#[verifier::external_body]
fn open(v: serde_yaml_ng::Value) -> (r: Yaml)
    ensures
        r@ == yaml_contents(v),
{
    match v {
        serde_yaml_ng::Value::Null => Yaml::Null,
        serde_yaml_ng::Value::Bool(b) => Yaml::Bool(b),
        serde_yaml_ng::Value::Number(n) => Yaml::Number(n.to_string()),
        serde_yaml_ng::Value::String(s) => Yaml::Str(s),
        serde_yaml_ng::Value::Sequence(l) => Yaml::List(l.into_iter().map(open).collect()),
        serde_yaml_ng::Value::Mapping(m) => Yaml::Dict(
            m.into_iter().map(|(k, x)| (open(k), open(x))).collect(),
        ),
        serde_yaml_ng::Value::Tagged(t) => Yaml::Tagged(
            t.tag.to_string().split_off(1),
            Box::new(open(t.value)),
        ),
    }
}

/// The `serde_yaml_ng::Value` built, variant by variant, from the library's
/// own type. It is a function of what the argument holds; a number goes back
/// through `serde_yaml_ng`'s own reading of its text. Of two entries with one
/// key the value keeps the later, and it has its own spelling of a number;
/// where the argument is simple, the value holds just that.
#[verifier::external_body]
fn close(v: &Yaml) -> (r: serde_yaml_ng::Value)
    ensures
        r == yaml_value(v@),
        simple(v@, DEPTH as nat) ==> yaml_contents(r) == v@,
{
    match v {
        Yaml::Null => serde_yaml_ng::Value::Null,
        Yaml::Bool(b) => (*b).into(),
        Yaml::Number(n) => n.parse().map_or(n.as_str().into(), serde_yaml_ng::Value::Number),
        Yaml::Str(s) => s.as_str().into(),
        Yaml::List(l) => l.iter().map(close).collect(),
        Yaml::Dict(m) => serde_yaml_ng::Value::Mapping(
            m.iter().map(|(k, x)| (close(k), close(x))).collect(),
        ),
        Yaml::Tagged(t, x) => serde_yaml_ng::Value::Tagged(Box::new(
            TaggedValue { tag: Tag::new(format!("!{t}")), value: close(x) })),
    }
}

/// `serde_yaml_ng::to_string`: what it prints depends on the value alone, and
/// so does the message of a failure. A simple value reads back, also behind a
/// line of comment: `serialize_str` leaves a text plain only where the reader's
/// own `visit_untagged_scalar` takes it for a text, and libyaml's emitter, which
/// folds no line as its width is unlimited, puts in single quotes what has an
/// indicator or a space at an end, and in double quotes, escaped, what is not
/// printable; numbers are printed in decimal, and lists and maps as blocks. Of
/// other values it is left unsaid (`.nan` is no number equal to itself, and a
/// text with line breaks is printed as a block of its own).
#[verifier::external_body]
fn write(v: &serde_yaml_ng::Value) -> (r: Result<String, String>)
    ensures
        match r {
            Ok(s) => yaml_written(*v) == Ok::<Text, Text>(s@) && (simple(
                yaml_contents(*v),
                DEPTH as nat,
            ) ==> reads_as(s@, yaml_contents(*v))),
            Err(m) => yaml_written(*v) == Err::<Text, Text>(m@),
        },
{
    serde_yaml_ng::to_string(v).map_err(|e| e.to_string())
}

/// What a YAML text holds, or the message of its refusal.
pub open spec fn yaml_of(text: Text) -> Result<Tree, Text> {
    match yaml_read(text) {
        Ok(v) => Ok(yaml_contents(v)),
        Err(m) => Err(m),
    }
}

/// The YAML text of a value, or the message of its refusal.
pub open spec fn yaml_text(t: Tree) -> Result<Text, Text> {
    yaml_written(yaml_value(t))
}

/// What a YAML text holds.
pub fn parse(text: &str) -> (r: Result<Yaml, Error>)
    ensures
        match r {
            Ok(v) => yaml_of(text@) == Ok::<Tree, Text>(v@),
            Err(e) => yaml_of(text@) is Err && e@ == seq![yaml_of(text@)->Err_0],
        },
        is_comment(text@) ==> yaml_of(text@) == Ok::<Tree, Text>(Tree::Null),
{
    match read(text) {
        Ok(v) => Ok(open(v)),
        Err(m) => Err(Error::new(m)),
    }
}

/// The YAML text of a value. That of a simple value reads as the value.
pub fn print(v: &Yaml) -> (r: Result<String, Error>)
    ensures
        match r {
            Ok(s) => yaml_text(v@) == Ok::<Text, Text>(s@) && (simple(v@, DEPTH as nat)
                ==> reads_as(s@, v@)),
            Err(e) => yaml_text(v@) is Err && e@ == seq![yaml_text(v@)->Err_0],
        },
{
    match write(&close(v)) {
        Ok(s) => Ok(s),
        Err(m) => Err(Error::new(m)),
    }
}

} // verus!
