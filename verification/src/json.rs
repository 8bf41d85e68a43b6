//! What a command answers as JSON, read with `serde_json`.

use std::collections::BTreeMap;

use serde_json::value::RawValue;
use vstd::prelude::*;

use crate::error::Error;
use crate::num;
use crate::text::{self, Text};

verus! {

/// A JSON value. What is no text carries the text it prints as, and an
/// object its entries in the order of their keys.
#[derive(Debug)]
pub enum Json {
    Str(String),
    Number(String),
    /// `null`, `true` or `false`.
    Word(String),
    List(Vec<Json>, String),
    Dict(Vec<(String, Json)>, String),
}

/// What a [`Json`] is, as mathematics.
pub enum JsonV {
    Str(Text),
    Number(Text),
    Word(Text),
    List(Seq<JsonV>, Text),
    Dict(Seq<(Text, JsonV)>, Text),
}

pub open spec fn tree(v: Json) -> JsonV
    decreases v,
{
    match v {
        Json::Str(s) => JsonV::Str(s@),
        Json::Number(n) => JsonV::Number(n@),
        Json::Word(w) => JsonV::Word(w@),
        Json::List(l, t) => JsonV::List(
            Seq::new(
                l@.len(),
                |i: int|
                    if 0 <= i < l@.len() {
                        tree(l@[i])
                    } else {
                        JsonV::Word(Seq::empty())
                    },
            ),
            t@,
        ),
        Json::Dict(m, t) => JsonV::Dict(
            Seq::new(
                m@.len(),
                |i: int|
                    if 0 <= i < m@.len() {
                        (m@[i].0@, tree(m@[i].1))
                    } else {
                        (Seq::empty(), JsonV::Word(Seq::empty()))
                    },
            ),
            t@,
        ),
    }
}

impl View for Json {
    type V = JsonV;

    open spec fn view(&self) -> JsonV {
        tree(*self)
    }
}

/// The entries of an object of values.
pub open spec fn entries(m: Seq<(String, Json)>) -> Seq<(Text, JsonV)> {
    m.map_values(|e: (String, Json)| (e.0@, e.1@))
}

/// The first entry under `key`.
pub open spec fn at(m: Seq<(Text, JsonV)>, key: Text) -> Option<JsonV>
    decreases m.len(),
{
    if m.len() == 0 {
        None
    } else if m[0].0 == key {
        Some(m[0].1)
    } else {
        at(m.skip(1), key)
    }
}

/// The member of an object; nothing for what is no object.
pub open spec fn get(t: JsonV, key: Text) -> Option<JsonV> {
    match t {
        JsonV::Dict(m, _) => at(m, key),
        _ => None,
    }
}

/// The text of a text.
pub open spec fn string(t: JsonV) -> Option<Text> {
    match t {
        JsonV::Str(s) => Some(s),
        _ => None,
    }
}

/// The natural number of a number that is one and fits 64 bits.
pub open spec fn natural(t: JsonV) -> Option<nat> {
    match t {
        JsonV::Number(n) => num::parsed(n, u64::MAX as nat),
        _ => None,
    }
}

/// The member of an object, where it is a text.
pub open spec fn get_str(t: JsonV, key: Text) -> Option<Text> {
    match get(t, key) {
        Some(v) => string(v),
        None => None,
    }
}

/// The member of an object, where it is a natural number.
pub open spec fn get_nat(t: JsonV, key: Text) -> Option<nat> {
    match get(t, key) {
        Some(v) => natural(v),
        None => None,
    }
}

/// A text as it is, anything else as it prints.
pub open spec fn shown(t: JsonV) -> Text {
    match t {
        JsonV::Str(s) => s,
        JsonV::Number(s) => s,
        JsonV::Word(s) => s,
        JsonV::List(_, s) => s,
        JsonV::Dict(_, s) => s,
    }
}

pub proof fn lemma_dict(m: Vec<(String, Json)>, t: String)
    ensures
        tree(Json::Dict(m, t)) == JsonV::Dict(entries(m@), t@),
{
    assert(tree(Json::Dict(m, t))->Dict_0 =~= entries(m@));
}

pub proof fn lemma_list(l: Vec<Json>, t: String)
    ensures
        tree(Json::List(l, t)) == JsonV::List(text::views(l@), t@),
{
    assert(tree(Json::List(l, t))->List_0 =~= text::views(l@));
}

impl Json {
    /// The member of an object.
    pub fn get(&self, key: &str) -> (r: Option<&Json>)
        ensures
            match r {
                Some(v) => get(self@, key@) == Some(v@),
                None => get(self@, key@) is None,
            },
    {
        match self {
            Json::Dict(m, t) => {
                proof {
                    lemma_dict(*m, *t);
                }
                let ghost all = entries(m@);
                assert(all.skip(0) =~= all);
                for i in 0..m.len()
                    invariant
                        all == entries(m@),
                        get(self@, key@) == at(all.skip(i as int), key@),
                {
                    assert(all.skip(i as int)[0] == (m@[i as int].0@, m@[i as int].1@));
                    if text::same(m[i].0.as_str(), key) {
                        return Some(&m[i].1);
                    }
                    assert(all.skip(i as int).skip(1) =~= all.skip(i + 1));
                }
                None
            },
            _ => None,
        }
    }

    /// The text of a text.
    pub fn as_str(&self) -> (r: Option<&String>)
        ensures
            match r {
                Some(s) => string(self@) == Some(s@),
                None => string(self@) is None,
            },
    {
        match self {
            Json::Str(s) => Some(s),
            _ => None,
        }
    }

    /// The natural number of a number that is one.
    pub fn as_u64(&self) -> (r: Option<u64>)
        ensures
            match r {
                Some(n) => natural(self@) == Some(n as nat),
                None => natural(self@) is None,
            },
    {
        match self {
            Json::Number(n) => num::parse(n.as_str(), u64::MAX),
            _ => None,
        }
    }

    /// The text of a member that is one.
    pub fn get_str(&self, key: &str) -> (r: Option<&String>)
        ensures
            match r {
                Some(s) => get_str(self@, key@) == Some(s@),
                None => get_str(self@, key@) is None,
            },
    {
        match self.get(key) {
            Some(v) => v.as_str(),
            None => None,
        }
    }

    /// The text of a member that is one, or no text.
    pub fn text_or_empty(&self, key: &str) -> (r: String)
        ensures
            r@ == get_str(self@, key@).unwrap_or(Seq::empty()),
    {
        match self.get_str(key) {
            Some(s) => s.clone(),
            None => String::new(),
        }
    }

    /// The number of a member that is a natural one.
    pub fn get_u64(&self, key: &str) -> (r: Option<u64>)
        ensures
            match r {
                Some(n) => get_nat(self@, key@) == Some(n as nat),
                None => get_nat(self@, key@) is None,
            },
    {
        match self.get(key) {
            Some(v) => v.as_u64(),
            None => None,
        }
    }

    /// A text as it is, anything else as it prints.
    pub fn show(&self) -> (r: String)
        ensures
            r@ == shown(self@),
    {
        match self {
            Json::Str(s) => s.clone(),
            Json::Number(s) => s.clone(),
            Json::Word(s) => s.clone(),
            Json::List(_, s) => s.clone(),
            Json::Dict(_, s) => s.clone(),
        }
    }
}

// ---------------------------------------------------------------------------
// Reading, by `serde_json`.

/// A value of `serde_json`.
#[verifier::external_type_specification]
#[verifier::external_body]
pub struct ExJson(serde_json::Value);

/// What `serde_json` reads from a text: the value, or its message.
pub uninterp spec fn json_read(text: Text) -> Result<serde_json::Value, Text>;

/// What a value of `serde_json` holds, and how its parts print.
pub uninterp spec fn json_contents(v: serde_json::Value) -> JsonV;

/// `serde_json::from_str` to a value: what it reads depends on the text
/// alone, and so does the message of a failure.
#[verifier::external_body]
fn read(text: &str) -> (r: Result<serde_json::Value, String>)
    ensures
        match r {
            Ok(v) => json_read(text@) == Ok::<serde_json::Value, Text>(v),
            Err(m) => json_read(text@) == Err::<serde_json::Value, Text>(m@),
        },
{
    serde_json::from_str(text).map_err(|e| e.to_string())
}

/// What `serde_json` reads from the text of an array: the text of each item,
/// or its message.
pub uninterp spec fn json_items(text: Text) -> Result<Seq<Text>, Text>;

/// What `serde_json` reads from the text of an object: the name of each member
/// and the text of its value, or its message.
pub uninterp spec fn json_members(text: Text) -> Result<Seq<(Text, Text)>, Text>;

/// What `serde_json` reads from the text of a string: what it spells, or its
/// message.
pub uninterp spec fn json_string(text: Text) -> Result<Text, Text>;

/// `serde_json::from_str` to a list of raw values: the items of an array, each
/// as it is written. What it reads depends on the text alone.
#[verifier::external_body]
pub(crate) fn items(text: &str) -> (r: Result<Vec<String>, String>)
    ensures
        match r {
            Ok(l) => json_items(text@) == Ok::<Seq<Text>, Text>(text::views(l@)),
            Err(m) => json_items(text@) == Err::<Seq<Text>, Text>(m@),
        },
{
    serde_json::from_str::<Vec<Box<RawValue>>>(text)
        .map(|l| l.into_iter().map(|v| v.get().to_owned()).collect())
        .map_err(|e| e.to_string())
}

/// `serde_json::from_str` to a map of raw values: the members of an object by
/// name, each value as it is written. What it reads depends on the text alone;
/// of members with one name it keeps the last.
#[verifier::external_body]
pub(crate) fn members(text: &str) -> (r: Result<Vec<(String, String)>, String>)
    ensures
        match r {
            Ok(l) => json_members(text@) == Ok::<Seq<(Text, Text)>, Text>(pairs(l@)),
            Err(m) => json_members(text@) == Err::<Seq<(Text, Text)>, Text>(m@),
        },
{
    serde_json::from_str::<BTreeMap<String, Box<RawValue>>>(text)
        .map(|m| m.into_iter().map(|(k, v)| (k, v.get().to_owned())).collect())
        .map_err(|e| e.to_string())
}

/// `serde_json::from_str` to a string. What it reads depends on the text
/// alone.
#[verifier::external_body]
pub(crate) fn spelled(text: &str) -> (r: Result<String, String>)
    ensures
        match r {
            Ok(s) => json_string(text@) == Ok::<Text, Text>(s@),
            Err(m) => json_string(text@) == Err::<Text, Text>(m@),
        },
{
    serde_json::from_str::<String>(text).map_err(|e| e.to_string())
}

/// The view of names with texts.
pub open spec fn pairs(l: Seq<(String, String)>) -> Seq<(Text, Text)> {
    l.map_values(|e: (String, String)| (e.0@, e.1@))
}

/// A `serde_json::Value` taken apart, variant by variant, into the library's
/// own type, with what `to_string` prints for each part that is no text.
#[verifier::external_body]
fn open(v: serde_json::Value) -> (r: Json)
    ensures
        r@ == json_contents(v),
{
    let text = v.to_string();
    match v {
        serde_json::Value::Null => Json::Word(text),
        serde_json::Value::Bool(_) => Json::Word(text),
        serde_json::Value::Number(_) => Json::Number(text),
        serde_json::Value::String(s) => Json::Str(s),
        serde_json::Value::Array(l) => Json::List(l.into_iter().map(open).collect(), text),
        serde_json::Value::Object(m) => {
            Json::Dict(m.into_iter().map(|(k, x)| (k, open(x))).collect(), text)
        },
    }
}

/// What a JSON text holds, or the message of its refusal.
pub open spec fn json_of(text: Text) -> Result<JsonV, Text> {
    match json_read(text) {
        Ok(v) => Ok(json_contents(v)),
        Err(m) => Err(m),
    }
}

/// What a JSON text holds.
pub fn parse(text: &str) -> (r: Result<Json, Error>)
    ensures
        match r {
            Ok(v) => json_of(text@) == Ok::<JsonV, Text>(v@),
            Err(e) => json_of(text@) is Err && e@ == seq![json_of(text@)->Err_0],
        },
{
    match read(text) {
        Ok(v) => Ok(open(v)),
        Err(m) => Err(Error::new(m)),
    }
}

// ---------------------------------------------------------------------------
// The members of an object, one by one.

/// Where in a JSON text a reader stands: how deep in brackets, and whether in
/// a string and behind a backslash there.
#[derive(Clone, Copy, PartialEq, Eq, Structural)]
pub struct Spot {
    pub depth: usize,
    pub quoted: bool,
    pub escaped: bool,
}

/// Outside every bracket and string.
pub open spec fn outside() -> Spot {
    Spot { depth: 0, quoted: false, escaped: false }
}

/// Where the reader stands behind the next character.
pub open spec fn behind(x: Spot, c: char) -> Spot {
    if x.quoted {
        Spot { quoted: x.escaped || c != '"', escaped: !x.escaped && c == '\\', ..x }
    } else if c == '"' {
        Spot { quoted: true, ..x }
    } else if (c == '{' || c == '[') && x.depth < usize::MAX {
        Spot { depth: (x.depth + 1) as usize, ..x }
    } else if (c == '}' || c == ']') && x.depth > 0 {
        Spot { depth: (x.depth - 1) as usize, ..x }
    } else {
        x
    }
}

/// A text cut at the commas outside every bracket and string, behind `piece`.
pub open spec fn cut(s: Text, x: Spot, piece: Text) -> Seq<Text>
    decreases s.len(),
{
    if s.len() == 0 {
        seq![piece]
    } else if x == outside() && s[0] == ',' {
        seq![piece] + cut(s.skip(1), x, Seq::empty())
    } else {
        cut(s.skip(1), behind(x, s[0]), piece.push(s[0]))
    }
}

/// The text between the first character and the last.
pub open spec fn within_brackets(t: Text) -> Text {
    if t.len() < 2 {
        Seq::empty()
    } else {
        t.subrange(1, t.len() - 1)
    }
}

/// The member that a piece of an object is.
pub open spec fn member_of(piece: Text) -> Option<(Text, Text)> {
    match json_members("{"@ + piece + "}"@) {
        Ok(m) => if m.len() == 1 {
            Some(m[0])
        } else {
            None
        },
        Err(_) => None,
    }
}

/// The members that pieces of an object are.
pub open spec fn members_of(l: Seq<Text>) -> Option<Seq<(Text, Text)>>
    decreases l.len(),
{
    if l.len() == 0 {
        Some(Seq::empty())
    } else {
        match (members_of(l.drop_last()), member_of(l.last())) {
            (Some(m), Some(x)) => Some(m.push(x)),
            _ => None,
        }
    }
}

/// The members of an object in the order of the text, every one of them, also
/// where two have one name; or why there are none.
pub open spec fn object_of(t: Text) -> Result<Seq<(Text, Text)>, Text> {
    match json_members(t) {
        Err(e) => Err(e),
        Ok(m) => if m.len() == 0 {
            Ok(m)
        } else {
            match members_of(cut(within_brackets(text::trimmed(t)), outside(), Seq::empty())) {
                Some(m) => Ok(m),
                None => Err("not an object"@),
            }
        },
    }
}

fn next(x: Spot, c: char) -> (r: Spot)
    ensures
        r == behind(x, c),
{
    if x.quoted {
        Spot { quoted: x.escaped || c != '"', escaped: !x.escaped && c == '\\', depth: x.depth }
    } else if c == '"' {
        Spot { quoted: true, depth: x.depth, escaped: x.escaped }
    } else if (c == '{' || c == '[') && x.depth < usize::MAX {
        Spot { depth: x.depth + 1, quoted: x.quoted, escaped: x.escaped }
    } else if (c == '}' || c == ']') && x.depth > 0 {
        Spot { depth: x.depth - 1, quoted: x.quoted, escaped: x.escaped }
    } else {
        x
    }
}

/// A text cut at the commas outside every bracket and string.
pub fn pieces(s: &str) -> (r: Vec<String>)
    ensures
        text::views(r@) == cut(s@, outside(), Seq::empty()),
{
    let cs = text::chars(s);
    let mut out: Vec<String> = Vec::new();
    let mut piece = String::new();
    let mut x = Spot { depth: 0, quoted: false, escaped: false };
    assert(s@.skip(0) =~= s@);
    assert(piece@ =~= Seq::<char>::empty());
    assert(text::views(out@) + cut(s@, x, piece@) =~= cut(s@, x, piece@));
    for i in 0..cs.len()
        invariant
            cs@ == s@,
            text::views(out@) + cut(s@.skip(i as int), x, piece@) == cut(
                s@,
                outside(),
                Seq::empty(),
            ),
    {
        let ghost rest = s@.skip(i as int);
        let ghost before = text::views(out@);
        assert(rest[0] == cs@[i as int]);
        assert(rest.skip(1) =~= s@.skip(i + 1));
        let c = cs[i];
        if c == ',' && x.depth == 0 && !x.quoted && !x.escaped {
            out.push(piece);
            assert(text::views(out@) =~= before.push(piece@));
            let ghost more = cut(s@.skip(i + 1), x, Seq::empty());
            assert(before + (seq![piece@] + more) =~= before.push(piece@) + more);
            piece = String::new();
            assert(piece@ =~= Seq::<char>::empty());
        } else {
            piece.push(c);
            x = next(x, c);
        }
    }
    assert(s@.skip(s@.len() as int) =~= Seq::empty());
    let ghost before = text::views(out@);
    out.push(piece);
    assert(text::views(out@) =~= before + seq![piece@]);
    out
}

proof fn lemma_members_fail(l: Seq<Text>, i: int)
    requires
        0 <= i <= l.len(),
        members_of(l.take(i)) is None,
    ensures
        members_of(l) is None,
    decreases l.len(),
{
    if i < l.len() {
        assert(l.drop_last().take(i) =~= l.take(i));
        lemma_members_fail(l.drop_last(), i);
    } else {
        assert(l.take(i) =~= l);
    }
}

/// The members of an object in the order of the text, every one of them.
pub fn object(t: &str) -> (r: Result<Vec<(String, String)>, String>)
    ensures
        match r {
            Ok(m) => object_of(t@) == Ok::<Seq<(Text, Text)>, Text>(pairs(m@)),
            Err(e) => object_of(t@) == Err::<Seq<(Text, Text)>, Text>(e@),
        },
{
    let m = match members(t) {
        Ok(m) => m,
        Err(e) => return Err(e),
    };
    if m.len() == 0 {
        return Ok(m);
    }
    let trimmed = text::trim(t);
    let cs = text::chars(trimmed.as_str());
    let inner = if cs.len() < 2 {
        String::new()
    } else {
        text::part(&cs, 1, cs.len() - 1)
    };
    assert(inner@ =~= within_brackets(text::trimmed(t@)));
    let l = pieces(inner.as_str());
    let ghost all = text::views(l@);
    let mut out: Vec<(String, String)> = Vec::new();
    assert(pairs(out@) =~= Seq::empty());
    assert(all.take(0) =~= Seq::empty());
    for i in 0..l.len()
        invariant
            all == text::views(l@),
            object_of(t@) == (match members_of(all) {
                Some(m) => Ok::<Seq<(Text, Text)>, Text>(m),
                None => Err("not an object"@),
            }),
            members_of(all.take(i as int)) == Some(pairs(out@)),
    {
        assert(all.take(i + 1).drop_last() =~= all.take(i as int));
        assert(all.take(i + 1).last() == l@[i as int]@);
        let mut one = match members(text::cat3("{", l[i].as_str(), "}").as_str()) {
            Ok(one) => one,
            Err(_) => {
                proof {
                    lemma_members_fail(all, i + 1);
                }
                return Err("not an object".to_owned());
            },
        };
        if one.len() != 1 {
            proof {
                lemma_members_fail(all, i + 1);
            }
            return Err("not an object".to_owned());
        }
        let ghost before = out@;
        let e = one.remove(0);
        out.push(e);
        assert(pairs(out@) =~= pairs(before).push((e.0@, e.1@)));
    }
    assert(all.take(all.len() as int) =~= all);
    Ok(out)
}

} // verus!
