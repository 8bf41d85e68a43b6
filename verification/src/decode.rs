//! Reading the fields of a document out of its values, and how they were
//! spelled out of their twins.

use vstd::prelude::*;

use crate::error::Error;
use crate::num;
use crate::size::{self, Size};
use crate::spelling;
use crate::text::{self, Text};
use crate::yaml::{self, Tree, Yaml};

verus! {

/// A scalar as text: a text as it is, anything else as it was spelled.
pub open spec fn scalar(t: Tree, u: Tree) -> Option<Text> {
    match yaml::untag(t) {
        Tree::Str(s) => Some(s),
        Tree::List(_) => None,
        Tree::Dict(_) => None,
        x => Some(spelling::spelled(x, u)),
    }
}

/// The name of a key, for a message.
pub open spec fn key_name(k: Tree) -> Text {
    match scalar(k, k) {
        Some(s) => s,
        None => "?"@,
    }
}

/// The entries of a section: a map, or nothing at all. A `null` that was
/// written is something.
pub open spec fn section(t: Tree, u: Tree) -> Result<Seq<(Tree, Tree)>, Text> {
    match yaml::untag(t) {
        Tree::Dict(m) => Ok(m),
        Tree::Null => if yaml::untag(u) == Tree::Null {
            Ok(Seq::empty())
        } else {
            Err("expected a map"@)
        },
        _ => Err("expected a map"@),
    }
}

/// The entries of a map, and none of what is no map.
pub open spec fn map_of(t: Tree) -> Seq<(Tree, Tree)> {
    match yaml::dict(t) {
        Some(m) => m,
        None => Seq::empty(),
    }
}

/// The twins of the entries of a map: the entries themselves, where the twin
/// of the map does not have as many.
pub open spec fn twins(m: Seq<(Tree, Tree)>, u: Tree) -> Seq<(Tree, Tree)> {
    if map_of(u).len() == m.len() {
        map_of(u)
    } else {
        m
    }
}

/// The twin of what stands under a key.
pub open spec fn twin_at(m: Seq<(Tree, Tree)>, n: Seq<(Tree, Tree)>, key: Text) -> Tree
    decreases m.len(),
{
    if m.len() == 0 || n.len() == 0 {
        Tree::Null
    } else if names(m[0].0, key) {
        n[0].1
    } else {
        twin_at(m.skip(1), n.skip(1), key)
    }
}

/// There is no twin of what does not stand there.
pub proof fn lemma_twin_absent(m: Seq<(Tree, Tree)>, n: Seq<(Tree, Tree)>, key: Text)
    ensures
        yaml::at(bare_keys(m), Tree::Str(key)) is None ==> twin_at(m, n, key) == Tree::Null,
    decreases m.len(),
{
    if m.len() > 0 && n.len() > 0 {
        assert(bare_keys(m).skip(1) =~= bare_keys(m.skip(1)));
        lemma_twin_absent(m.skip(1), n.skip(1), key);
    }
}

/// The twin of a field of a section.
pub open spec fn beside(t: Tree, u: Tree, key: Text) -> Tree {
    twin_at(map_of(t), twins(map_of(t), u), key)
}

/// The entries without the tags of their keys.
pub open spec fn bare_keys(m: Seq<(Tree, Tree)>) -> Seq<(Tree, Tree)> {
    m.map_values(|e: (Tree, Tree)| (yaml::untag(e.0), e.1))
}

/// Whether two keys are the same known one, told apart by a tag alone.
pub open spec fn alike(a: Tree, b: Tree, known: Seq<Text>) -> bool {
    &&& a is Tagged || b is Tagged
    &&& exists|k: int|
        0 <= k < known.len() && names(a, #[trigger] known[k]) && names(b, known[k])
}

/// Whether a known key is there twice.
pub open spec fn twice(m: Seq<(Tree, Tree)>, known: Seq<Text>) -> bool {
    exists|i: int, j: int|
        0 <= i < j < m.len() && alike((#[trigger] m[i]).0, (#[trigger] m[j]).0, known)
}

/// Whether a key is a text, with a tag or without.
pub open spec fn names(k: Tree, name: Text) -> bool {
    yaml::untag(k) == Tree::Str(name)
}

/// A value without its tags has none.
pub proof fn lemma_untagged(t: Tree)
    ensures
        !(yaml::untag(t) is Tagged),
        yaml::untag(yaml::untag(t)) == yaml::untag(t),
    decreases t,
{
    if let Tree::Tagged(_, b) = t {
        lemma_untagged(*b);
    }
}

/// Entries whose keys have no tags are what they are without them.
pub proof fn lemma_bare(m: Seq<(Tree, Tree)>, known: Seq<Text>)
    requires
        forall|i: int| 0 <= i < m.len() ==> (#[trigger] m[i]).0 is Str,
    ensures
        bare_keys(m) == m,
        !twice(m, known),
{
    assert(bare_keys(m) =~= m);
    assert forall|i: int| 0 <= i < m.len() implies !((#[trigger] m[i]).0 is Tagged) by {}
}

/// The first key that is none of the known ones.
pub open spec fn stranger(m: Seq<(Tree, Tree)>, known: Seq<Text>) -> Option<Tree>
    decreases m.len(),
{
    if m.len() == 0 {
        None
    } else if exists|i: int| 0 <= i < known.len() && m[0].0 == Tree::Str(#[trigger] known[i]) {
        stranger(m.skip(1), known)
    } else {
        Some(m[0].0)
    }
}

/// The message about a key that is none of the known ones.
pub open spec fn unknown(k: Tree, known: Seq<Text>) -> Text {
    "unknown field `"@ + key_name(k) + "`, expected one of "@ + text::joined(known, ", "@)
}

/// The entries of a section that has no key but the known ones.
pub open spec fn fields(t: Tree, u: Tree, known: Seq<Text>) -> Result<Seq<(Tree, Tree)>, Text> {
    match section(t, u) {
        Ok(m) => match stranger(bare_keys(m), known) {
            Some(k) => Err(unknown(k, known)),
            None => if twice(m, known) {
                Err("duplicate field"@)
            } else {
                Ok(bare_keys(m))
            },
        },
        Err(e) => Err(e),
    }
}

/// A text that may be missing.
pub open spec fn optional(t: Option<Tree>, u: Tree) -> Result<Option<Text>, Text> {
    match t {
        None => Ok(None),
        Some(v) => if v == Tree::Null {
            Ok(None)
        } else {
            match scalar(v, u) {
                Some(s) => Ok(Some(s)),
                None => Err("expected a string"@),
            }
        },
    }
}

/// A text, with what holds when it is missing.
pub open spec fn text_or(t: Option<Tree>, u: Tree, default: Text) -> Result<Text, Text> {
    match t {
        None => Ok(default),
        Some(v) => match scalar(v, u) {
            Some(s) => Ok(s),
            None => Err("expected a string"@),
        },
    }
}

/// A natural number up to `max`, with what holds when it is missing. A tag of
/// YAML's own (`!!int`) counts by the value that it makes.
pub open spec fn natural_or(t: Option<Tree>, max: nat, default: nat) -> Result<nat, Text> {
    match t {
        None => Ok(default),
        Some(v) => match yaml::untag(v) {
            Tree::Number(n) => match num::parsed(n, max) {
                Some(x) => Ok(x),
                None => Err("expected a number"@),
            },
            _ => Err("expected a number"@),
        },
    }
}

/// A size: a text like `20G`, or a number, neither with a tag.
pub open spec fn size_of(v: Tree) -> Result<nat, Text> {
    match v {
        Tree::Str(s) => size::parsed(s),
        Tree::Number(n) => size::parsed(n),
        _ => Err("size must be a string like 20G"@),
    }
}

/// The texts of a list of scalars, by their twins.
pub open spec fn scalars(l: Seq<Tree>, n: Seq<Tree>) -> Result<Seq<Text>, Text>
    decreases l.len(),
{
    if l.len() == 0 {
        Ok(Seq::empty())
    } else {
        match scalars(l.drop_last(), n.drop_last()) {
            Ok(s) => match scalar(l.last(), n.last()) {
                Some(x) => Ok(s.push(x)),
                None => Err("expected a string"@),
            },
            Err(e) => Err(e),
        }
    }
}

/// The items of a list, and none of what is no list.
pub open spec fn items_of(t: Tree) -> Seq<Tree> {
    match yaml::untag(t) {
        Tree::List(l) => l,
        _ => Seq::empty(),
    }
}

/// The twins of the items of a list: the items themselves, where the twin of
/// the list does not have as many.
pub open spec fn twin_items(l: Seq<Tree>, u: Tree) -> Seq<Tree> {
    if items_of(u).len() == l.len() {
        items_of(u)
    } else {
        l
    }
}

/// A list of texts, empty when it is missing or nothing at all.
pub open spec fn list(t: Option<Tree>, u: Tree) -> Result<Seq<Text>, Text> {
    match t {
        None => Ok(Seq::empty()),
        Some(v) => match yaml::untag(v) {
            Tree::Null => if yaml::untag(u) == Tree::Null {
                Ok(Seq::empty())
            } else {
                Err("expected a list"@)
            },
            Tree::List(l) => scalars(l, twin_items(l, u)),
            _ => Err("expected a list"@),
        },
    }
}

/// The view of a reading that went well or has one message.
pub open spec fn read<T: View>(r: Result<T, Error>) -> Result<T::V, Text> {
    match r {
        Ok(x) => Ok(x@),
        Err(e) => Err(e@[0]),
    }
}

/// Whether the reading has one message if it failed.
pub open spec fn plain<T>(r: Result<T, Error>) -> bool {
    r matches Err(e) ==> e@.len() == 1
}

/// A message about a field of a section.
pub open spec fn within(name: Text, message: Text) -> Text {
    name + ": "@ + message
}

/// A scalar as text.
pub fn scalar_of(v: &Yaml, u: &Yaml) -> (r: Option<String>)
    ensures
        text::opt(r) == scalar(v@, u@),
{
    let x = v.bare();
    match x {
        Yaml::Str(s) => Some(s.clone()),
        Yaml::List(_) => None,
        Yaml::Dict(_) => None,
        _ => Some(spelling::spell(x, u)),
    }
}

/// The name of a key, for a message.
pub fn name_of(k: &Yaml) -> (r: String)
    ensures
        r@ == key_name(k@),
{
    match scalar_of(k, k) {
        Some(s) => s,
        None => "?".to_owned(),
    }
}

/// The entries of a section, where there is one, without the tags of their
/// keys.
pub open spec fn entries(m: Option<&Vec<(Yaml, Yaml)>>) -> Seq<(Tree, Tree)> {
    match m {
        Some(m) => bare_keys(yaml::entries(m@)),
        None => Seq::empty(),
    }
}

fn is_named(k: &Yaml, name: &str) -> (r: bool)
    ensures
        r == names(k@, name@),
{
    match k.as_str() {
        Some(s) => text::same(s.as_str(), name),
        None => false,
    }
}

fn is_tagged(k: &Yaml) -> (r: bool)
    ensures
        r == (k@ is Tagged),
{
    match k {
        Yaml::Tagged(_, _) => true,
        _ => false,
    }
}

fn are_alike(a: &Yaml, b: &Yaml, known: &Vec<String>) -> (r: bool)
    ensures
        r == alike(a@, b@, text::views(known@)),
{
    if !is_tagged(a) && !is_tagged(b) {
        return false;
    }
    let ghost list = text::views(known@);
    for k in 0..known.len()
        invariant
            list == text::views(known@),
            a@ is Tagged || b@ is Tagged,
            forall|x: int| 0 <= x < k ==> !(names(a@, #[trigger] list[x]) && names(b@, list[x])),
    {
        assert(list[k as int] == known@[k as int]@);
        if is_named(a, known[k].as_str()) && is_named(b, known[k].as_str()) {
            return true;
        }
    }
    false
}

/// Whether a known key is there twice.
pub fn has_twice(m: &Vec<(Yaml, Yaml)>, known: &Vec<String>) -> (r: bool)
    ensures
        r == twice(yaml::entries(m@), text::views(known@)),
{
    let ghost all = yaml::entries(m@);
    let ghost list = text::views(known@);
    for j in 0..m.len()
        invariant
            all == yaml::entries(m@),
            list == text::views(known@),
            forall|x: int, y: int|
                0 <= x < y < j ==> !alike((#[trigger] all[x]).0, (#[trigger] all[y]).0, list),
    {
        for i in 0..j
            invariant
                j < m@.len(),
                all == yaml::entries(m@),
                list == text::views(known@),
                forall|x: int| 0 <= x < i ==> !alike((#[trigger] all[x]).0, all[j as int].0, list),
        {
            assert(all[i as int].0 == m@[i as int].0@ && all[j as int].0 == m@[j as int].0@);
            if are_alike(&m[i].0, &m[j].0, known) {
                return true;
            }
        }
    }
    false
}

/// The entries of a section that has no key but the known ones; `None` for
/// one with nothing in it.
pub fn fields_of<'a>(v: &'a Yaml, u: &Yaml, known: &Vec<String>) -> (r: Result<
    Option<&'a Vec<(Yaml, Yaml)>>,
    Error,
>)
    ensures
        match r {
            Ok(m) => fields(v@, u@, text::views(known@)) == Ok::<Seq<(Tree, Tree)>, Text>(entries(m)),
            Err(e) => fields(v@, u@, text::views(known@)) is Err && e@ == seq![
                fields(v@, u@, text::views(known@))->Err_0,
            ],
        },
{
    if v.is_null() {
        proof {
            lemma_bare(Seq::empty(), text::views(known@));
        }
        if u.is_null() {
            return Ok(None);
        }
        return Err(Error::msg("expected a map"));
    }
    let ghost list = text::views(known@);
    match v.as_map() {
        None => Err(Error::msg("expected a map")),
        Some(m) => {
            let ghost all = bare_keys(yaml::entries(m@));
            assert(all.skip(0) =~= all);
            for i in 0..m.len()
                invariant
                    all == bare_keys(yaml::entries(m@)),
                    list == text::views(known@),
                    fields(v@, u@, list) == (match stranger(all.skip(i as int), list) {
                        Some(k) => Err(unknown(k, list)),
                        None => if twice(yaml::entries(m@), list) {
                            Err("duplicate field"@)
                        } else {
                            Ok(all)
                        },
                    }),
            {
                let ghost here = all.skip(i as int);
                assert(here[0].0 == yaml::untag(m@[i as int].0@));
                let mut found = false;
                for j in 0..known.len()
                    invariant
                        list == text::views(known@),
                        i < m@.len(),
                        found == (exists|x: int|
                            0 <= x < j && yaml::untag(m@[i as int].0@) == Tree::Str(
                                #[trigger] list[x],
                            )),
                {
                    assert(list[j as int] == known@[j as int]@);
                    if is_named(&m[i].0, known[j].as_str()) {
                        found = true;
                    }
                }
                assert(here.skip(1) =~= all.skip(i + 1));
                if !found {
                    proof {
                        lemma_untagged(m@[i as int].0@);
                    }
                    return Err(
                        Error::new(
                            text::cat4(
                                "unknown field `",
                                name_of(&m[i].0).as_str(),
                                "`, expected one of ",
                                text::join(known, ", ").as_str(),
                            ),
                        ),
                    );
                }
            }
            if has_twice(m, known) {
                return Err(Error::msg("duplicate field"));
            }
            Ok(Some(m))
        },
    }
}

/// The field of a section.
pub fn field<'a>(m: Option<&'a Vec<(Yaml, Yaml)>>, key: &str) -> (r: Option<&'a Yaml>)
    ensures
        text::opt(r) == yaml::at(entries(m), Tree::Str(key@)),
{
    match m {
        Some(l) => {
            let ghost all = bare_keys(yaml::entries(l@));
            assert(all.skip(0) =~= all);
            for i in 0..l.len()
                invariant
                    all == bare_keys(yaml::entries(l@)),
                    all == entries(m),
                    yaml::at(all, Tree::Str(key@)) == yaml::at(
                        all.skip(i as int),
                        Tree::Str(key@),
                    ),
            {
                assert(all.skip(i as int)[0] == (yaml::untag(l@[i as int].0@), l@[i as int].1@));
                if is_named(&l[i].0, key) {
                    assert(yaml::at(all.skip(i as int), Tree::Str(key@)) == Some(l@[i as int].1@));
                    return Some(&l[i].1);
                }
                assert(all.skip(i as int).skip(1) =~= all.skip(i + 1));
            }
            None
        },
        None => None,
    }
}

/// The twin of a field of a section.
pub fn beside_of<'a>(v: &'a Yaml, u: &'a Yaml, key: &str, null: &'a Yaml) -> (r: &'a Yaml)
    requires
        null@ == Tree::Null,
    ensures
        r@ == beside(v@, u@, key@),
{
    let m = match v.as_map() {
        Some(m) => m,
        None => return null,
    };
    let n = match u.as_map() {
        Some(n) => if n.len() == m.len() {
            n
        } else {
            m
        },
        None => m,
    };
    let ghost all = yaml::entries(m@);
    let ghost side = yaml::entries(n@);
    assert(side == twins(all, u@));
    assert(all.skip(0) =~= all);
    assert(side.skip(0) =~= side);
    for i in 0..m.len()
        invariant
            m@.len() == n@.len(),
            all == yaml::entries(m@),
            side == yaml::entries(n@),
            beside(v@, u@, key@) == twin_at(all.skip(i as int), side.skip(i as int), key@),
    {
        assert(all.skip(i as int)[0].0 == m@[i as int].0@);
        assert(side.skip(i as int)[0].1 == n@[i as int].1@);
        if is_named(&m[i].0, key) {
            return &n[i].1;
        }
        assert(all.skip(i as int).skip(1) =~= all.skip(i + 1));
        assert(side.skip(i as int).skip(1) =~= side.skip(i + 1));
    }
    null
}

/// Whether every key is a scalar.
pub open spec fn scalar_keys(m: Seq<(Tree, Tree)>) -> bool {
    forall|i: int| 0 <= i < m.len() ==> scalar((#[trigger] m[i]).0, m[i].0) is Some
}

/// The entries of a section, of which only the known ones matter.
pub open spec fn lenient(t: Tree, u: Tree, known: Seq<Text>) -> Result<Seq<(Tree, Tree)>, Text> {
    match section(t, u) {
        Ok(m) => if !scalar_keys(m) {
            Err("expected a string"@)
        } else if twice(m, known) {
            Err("duplicate field"@)
        } else {
            Ok(bare_keys(m))
        },
        Err(e) => Err(e),
    }
}

/// The entries of a section, of which only the known ones matter; `None` for
/// one with nothing in it.
pub fn lenient_of<'a>(v: &'a Yaml, u: &Yaml, known: &Vec<String>) -> (r: Result<
    Option<&'a Vec<(Yaml, Yaml)>>,
    Error,
>)
    ensures
        match r {
            Ok(m) => lenient(v@, u@, text::views(known@)) == Ok::<Seq<(Tree, Tree)>, Text>(entries(m)),
            Err(e) => lenient(v@, u@, text::views(known@)) is Err && e@ == seq![
                lenient(v@, u@, text::views(known@))->Err_0,
            ],
        },
{
    if v.is_null() {
        proof {
            lemma_bare(Seq::empty(), text::views(known@));
        }
        if u.is_null() {
            return Ok(None);
        }
        return Err(Error::msg("expected a map"));
    }
    match v.as_map() {
        None => Err(Error::msg("expected a map")),
        Some(m) => {
            let ghost all = yaml::entries(m@);
            for i in 0..m.len()
                invariant
                    all == yaml::entries(m@),
                    section(v@, u@) == Ok::<Seq<(Tree, Tree)>, Text>(all),
                    forall|j: int| 0 <= j < i ==> scalar((#[trigger] all[j]).0, all[j].0) is Some,
            {
                assert(all[i as int].0 == m@[i as int].0@);
                if scalar_of(&m[i].0, &m[i].0).is_none() {
                    return Err(Error::msg("expected a string"));
                }
            }
            if has_twice(m, known) {
                return Err(Error::msg("duplicate field"));
            }
            Ok(Some(m))
        },
    }
}

/// The error about a field of a section.
pub fn inside(name: &str, e: Error) -> (r: Error)
    requires
        e@.len() == 1,
    ensures
        r@ == seq![within(name@, e@[0])],
{
    Error::new(text::cat3(name, ": ", e.head().as_str()))
}

/// A text that may be missing.
pub fn optional_of(v: Option<&Yaml>, u: &Yaml) -> (r: Result<Option<String>, Error>)
    ensures
        match r {
            Ok(s) => optional(text::opt(v), u@) == Ok::<Option<Text>, Text>(text::opt(s)),
            Err(e) => optional(text::opt(v), u@) is Err && e@ == seq![optional(text::opt(v), u@)->Err_0],
        },
{
    match v {
        None => Ok(None),
        Some(v) => match v {
            Yaml::Null => Ok(None),
            _ => match scalar_of(v, u) {
                Some(s) => Ok(Some(s)),
                None => Err(Error::msg("expected a string")),
            },
        },
    }
}

/// A text, with what holds when it is missing.
pub fn text_of(v: Option<&Yaml>, u: &Yaml, default: &str) -> (r: Result<String, Error>)
    ensures
        match r {
            Ok(s) => text_or(text::opt(v), u@, default@) == Ok::<Text, Text>(s@),
            Err(e) => text_or(text::opt(v), u@, default@) is Err && e@ == seq![
                text_or(text::opt(v), u@, default@)->Err_0,
            ],
        },
{
    match v {
        None => Ok(default.to_owned()),
        Some(v) => match scalar_of(v, u) {
            Some(s) => Ok(s),
            None => Err(Error::msg("expected a string")),
        },
    }
}

/// A natural number up to `max`, with what holds when it is missing.
pub fn natural_of(v: Option<&Yaml>, max: u64, default: u64) -> (r: Result<u64, Error>)
    requires
        default <= max,
    ensures
        match r {
            Ok(n) => natural_or(text::opt(v), max as nat, default as nat) == Ok::<nat, Text>(
                n as nat,
            ) && n <= max,
            Err(e) => natural_or(text::opt(v), max as nat, default as nat) is Err && e@ == seq![
                natural_or(text::opt(v), max as nat, default as nat)->Err_0,
            ],
        },
{
    match v {
        None => Ok(default),
        Some(v) => match v.bare() {
            Yaml::Number(n) => match num::parse(n.as_str(), max) {
                Some(x) => Ok(x),
                None => Err(Error::msg("expected a number")),
            },
            _ => Err(Error::msg("expected a number")),
        },
    }
}

/// A size.
pub fn size(v: &Yaml) -> (r: Result<Size, Error>)
    ensures
        match r {
            Ok(z) => size_of(v@) == Ok::<nat, Text>(z@) && z@ > 0,
            Err(e) => size_of(v@) is Err && e@ == seq![size_of(v@)->Err_0],
        },
{
    match v {
        Yaml::Str(s) => Size::parse(s.as_str()),
        Yaml::Number(n) => Size::parse(n.as_str()),
        _ => Err(Error::msg("size must be a string like 20G")),
    }
}

proof fn lemma_scalars_fail(l: Seq<Tree>, n: Seq<Tree>, i: int)
    requires
        0 <= i <= l.len(),
        l.len() == n.len(),
        scalars(l.take(i), n.take(i)) is Err,
    ensures
        scalars(l, n) == scalars(l.take(i), n.take(i)),
    decreases l.len(),
{
    if i < l.len() {
        assert(l.drop_last().take(i) =~= l.take(i));
        assert(n.drop_last().take(i) =~= n.take(i));
        lemma_scalars_fail(l.drop_last(), n.drop_last(), i);
    } else {
        assert(l.take(i) =~= l);
        assert(n.take(i) =~= n);
    }
}

fn items<'a>(v: &'a Yaml) -> (r: Option<&'a Vec<Yaml>>)
    ensures
        match r {
            Some(l) => yaml::untag(v@) == Tree::List(text::views(l@)),
            None => !(yaml::untag(v@) is List),
        },
{
    match v.bare() {
        Yaml::List(l) => {
            proof {
                yaml::lemma_list(*l);
            }
            Some(l)
        },
        _ => None,
    }
}

/// A list of texts, empty when it is missing or nothing at all.
pub fn list_of(v: Option<&Yaml>, u: &Yaml) -> (r: Result<Vec<String>, Error>)
    ensures
        match r {
            Ok(s) => list(text::opt(v), u@) == Ok::<Seq<Text>, Text>(text::views(s@)),
            Err(e) => list(text::opt(v), u@) is Err && e@ == seq![list(text::opt(v), u@)->Err_0],
        },
{
    let mut out: Vec<String> = Vec::new();
    assert(text::views(out@) =~= Seq::empty());
    let x = match v {
        None => return Ok(out),
        Some(x) => x,
    };
    if x.is_null() && u.is_null() {
        return Ok(out);
    }
    let l = match items(x) {
        Some(l) => l,
        None => return Err(Error::msg("expected a list")),
    };
    let n = match items(u) {
        Some(n) => if n.len() == l.len() {
            n
        } else {
            l
        },
        None => l,
    };
    let ghost all = text::views(l@);
    let ghost side = text::views(n@);
    assert(side == twin_items(all, u@));
    assert(all.take(0) =~= Seq::empty());
    for i in 0..l.len()
        invariant
            l@.len() == n@.len(),
            all == text::views(l@),
            side == text::views(n@),
            list(text::opt(v), u@) == scalars(all, side),
            scalars(all.take(i as int), side.take(i as int)) == Ok::<Seq<Text>, Text>(
                text::views(out@),
            ),
    {
        assert(all.take(i + 1).drop_last() =~= all.take(i as int));
        assert(side.take(i + 1).drop_last() =~= side.take(i as int));
        assert(all.take(i + 1).last() == l@[i as int]@);
        assert(side.take(i + 1).last() == n@[i as int]@);
        match scalar_of(&l[i], &n[i]) {
            Some(s) => {
                let ghost before = out@;
                out.push(s);
                assert(text::views(out@) =~= text::views(before).push(s@));
            },
            None => {
                proof {
                    lemma_scalars_fail(all, side, i + 1);
                }
                return Err(Error::msg("expected a string"));
            },
        }
    }
    assert(all.take(all.len() as int) =~= all);
    assert(side.take(side.len() as int) =~= side);
    Ok(out)
}

} // verus!
