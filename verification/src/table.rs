//! A small map from names, kept in the order of the names.

use vstd::prelude::*;

use crate::text::{self, Text};

verus! {

/// Names with a value each, in the order of the names.
#[derive(Debug, PartialEq)]
pub struct Table<V> {
    pub entries: Vec<(String, V)>,
}

/// Whether `a` comes before `b`, character by character.
pub open spec fn below(a: Text, b: Text) -> bool
    decreases b.len(),
{
    if b.len() == 0 {
        false
    } else if a.len() == 0 {
        true
    } else {
        a[0] < b[0] || (a[0] == b[0] && below(a.skip(1), b.skip(1)))
    }
}

/// Whether every name comes before the next, so that none is there twice.
pub open spec fn sorted<V>(s: Seq<(Text, V)>) -> bool {
    forall|i: int, j: int| 0 <= i < j < s.len() ==> below(#[trigger] s[i].0, #[trigger] s[j].0)
}

/// The value under a name.
pub open spec fn lookup<V>(s: Seq<(Text, V)>, k: Text) -> Option<V>
    decreases s.len(),
{
    if s.len() == 0 {
        None
    } else if s[0].0 == k {
        Some(s[0].1)
    } else {
        lookup(s.skip(1), k)
    }
}

/// With the value under a name set.
pub open spec fn inserted<V>(s: Seq<(Text, V)>, k: Text, v: V) -> Seq<(Text, V)>
    decreases s.len(),
{
    if s.len() == 0 {
        seq![(k, v)]
    } else if s[0].0 == k {
        seq![(k, v)] + s.skip(1)
    } else if below(k, s[0].0) {
        seq![(k, v)] + s
    } else {
        seq![s[0]] + inserted(s.skip(1), k, v)
    }
}

/// Without a name.
pub open spec fn removed<V>(s: Seq<(Text, V)>, k: Text) -> Seq<(Text, V)>
    decreases s.len(),
{
    if s.len() == 0 {
        s
    } else if s[0].0 == k {
        s.skip(1)
    } else {
        seq![s[0]] + removed(s.skip(1), k)
    }
}

/// What was set under a name is found there, and nothing else has changed.
pub proof fn law_insert_lookup<V>(s: Seq<(Text, V)>, k: Text, v: V, other: Text)
    ensures
        lookup(inserted(s, k, v), k) == Some(v),
        other != k ==> lookup(inserted(s, k, v), other) == lookup(s, other),
    decreases s.len(),
{
    let r = inserted(s, k, v);
    if s.len() == 0 {
        assert(r.skip(1) =~= Seq::empty());
        assert(lookup(r.skip(1), other) is None);
    } else if s[0].0 == k {
        assert(r.skip(1) =~= s.skip(1));
    } else if below(k, s[0].0) {
        assert(r.skip(1) =~= s);
    } else {
        law_insert_lookup(s.skip(1), k, v, other);
        assert(r.skip(1) =~= inserted(s.skip(1), k, v));
    }
}

/// No text comes before itself.
pub proof fn lemma_below_irreflexive(a: Text)
    ensures
        !below(a, a),
    decreases a.len(),
{
    if a.len() > 0 {
        lemma_below_irreflexive(a.skip(1));
    }
}

/// Of two texts that differ one comes before the other.
pub proof fn lemma_below_total(a: Text, b: Text)
    ensures
        a == b || below(a, b) || below(b, a),
    decreases b.len(),
{
    if a.len() == 0 {
        if b.len() == 0 {
            assert(a =~= b);
        }
    } else if b.len() > 0 && a[0] == b[0] {
        lemma_below_total(a.skip(1), b.skip(1));
        if a.skip(1) == b.skip(1) {
            assert(a =~= seq![a[0]] + a.skip(1));
            assert(b =~= seq![b[0]] + b.skip(1));
        }
    }
}

/// What comes before what comes before comes before.
pub proof fn lemma_below_transitive(a: Text, b: Text, c: Text)
    requires
        below(a, b),
        below(b, c),
    ensures
        below(a, c),
    decreases c.len(),
{
    if a.len() > 0 && a[0] == b[0] && b[0] == c[0] {
        lemma_below_transitive(a.skip(1), b.skip(1), c.skip(1));
    }
}

proof fn lemma_inserted_names<V>(s: Seq<(Text, V)>, k: Text, v: V, i: int)
    requires
        0 <= i < inserted(s, k, v).len(),
    ensures
        inserted(s, k, v)[i].0 == k || (exists|j: int|
            0 <= j < s.len() && (#[trigger] s[j]).0 == inserted(s, k, v)[i].0),
    decreases s.len(),
{
    let r = inserted(s, k, v);
    if s.len() > 0 && s[0].0 != k && !below(k, s[0].0) {
        if i == 0 {
            assert(s[0].0 == r[0].0);
        } else {
            let t = s.skip(1);
            lemma_inserted_names(t, k, v, i - 1);
            if r[i].0 != k {
                let j = choose|j: int|
                    0 <= j < t.len() && (#[trigger] t[j]).0 == inserted(t, k, v)[i - 1].0;
                assert(s[j + 1].0 == r[i].0);
            }
        }
    } else if s.len() > 0 && s[0].0 == k {
        if i > 0 {
            assert(s[i].0 == r[i].0);
        }
    } else if s.len() > 0 {
        if i > 0 {
            assert(s[i - 1].0 == r[i].0);
        }
    }
}

/// Setting a value keeps the order.
pub proof fn law_insert_sorted<V>(s: Seq<(Text, V)>, k: Text, v: V)
    requires
        sorted(s),
    ensures
        sorted(inserted(s, k, v)),
    decreases s.len(),
{
    let r = inserted(s, k, v);
    if s.len() == 0 {
    } else if s[0].0 == k {
        assert forall|i: int, j: int| 0 <= i < j < r.len() implies below(
            #[trigger] r[i].0,
            #[trigger] r[j].0,
        ) by {
            assert(r[i].0 == s[i].0 && r[j].0 == s[j].0);
        }
    } else if below(k, s[0].0) {
        assert forall|i: int, j: int| 0 <= i < j < r.len() implies below(
            #[trigger] r[i].0,
            #[trigger] r[j].0,
        ) by {
            assert(r[j].0 == s[j - 1].0);
            if i > 0 {
                assert(r[i].0 == s[i - 1].0);
            } else if j > 1 {
                lemma_below_transitive(k, s[0].0, s[j - 1].0);
            }
        }
    } else {
        let t = s.skip(1);
        assert forall|i: int, j: int| 0 <= i < j < t.len() implies below(
            #[trigger] t[i].0,
            #[trigger] t[j].0,
        ) by {
            assert(t[i] == s[i + 1] && t[j] == s[j + 1]);
        }
        law_insert_sorted(t, k, v);
        let u = inserted(t, k, v);
        assert forall|i: int, j: int| 0 <= i < j < r.len() implies below(
            #[trigger] r[i].0,
            #[trigger] r[j].0,
        ) by {
            assert(r[j] == u[j - 1]);
            if i > 0 {
                assert(r[i] == u[i - 1]);
            } else {
                lemma_below_total(k, s[0].0);
                lemma_inserted_names(t, k, v, j - 1);
                if u[j - 1].0 != k {
                    let x = choose|x: int|
                        0 <= x < t.len() && (#[trigger] t[x]).0 == u[j - 1].0;
                    assert(t[x] == s[x + 1]);
                }
            }
        }
    }
}

/// Taking a name out keeps the order and every other name, and the name is
/// gone.
pub proof fn law_remove<V>(s: Seq<(Text, V)>, k: Text, other: Text)
    requires
        sorted(s),
    ensures
        sorted(removed(s, k)),
        lookup(removed(s, k), k) is None,
        other != k ==> lookup(removed(s, k), other) == lookup(s, other),
        forall|i: int|
            0 <= i < removed(s, k).len() ==> exists|j: int|
                0 <= j < s.len() && s[j] == #[trigger] removed(s, k)[i],
    decreases s.len(),
{
    let r = removed(s, k);
    if s.len() == 0 {
    } else {
        let t = s.skip(1);
        assert forall|i: int, j: int| 0 <= i < j < t.len() implies below(
            #[trigger] t[i].0,
            #[trigger] t[j].0,
        ) by {
            assert(t[i] == s[i + 1] && t[j] == s[j + 1]);
        }
        if s[0].0 == k {
            lemma_absent(t, k);
            assert(forall|i: int| 0 <= i < r.len() ==> s[i + 1] == #[trigger] r[i]);
        } else {
            law_remove(t, k, other);
            let u = removed(t, k);
            assert(r.skip(1) =~= u);
            assert forall|i: int| 0 <= i < r.len() implies exists|j: int|
                0 <= j < s.len() && s[j] == #[trigger] r[i] by {
                if i == 0 {
                    assert(s[0] == r[0]);
                } else {
                    assert(u[i - 1] == r[i]);
                    let j = choose|j: int| 0 <= j < t.len() && t[j] == u[i - 1];
                    assert(s[j + 1] == r[i]);
                }
            }
            assert forall|i: int, j: int| 0 <= i < j < r.len() implies below(
                #[trigger] r[i].0,
                #[trigger] r[j].0,
            ) by {
                assert(r[j] == u[j - 1]);
                if i > 0 {
                    assert(r[i] == u[i - 1]);
                } else {
                    let x = choose|x: int| 0 <= x < t.len() && t[x] == u[j - 1];
                    assert(t[x] == s[x + 1]);
                }
            }
        }
    }
}

/// A name that comes before another is another, and does not come after it.
pub proof fn lemma_below_strict(a: Text, b: Text)
    requires
        below(a, b),
    ensures
        a != b,
        !below(b, a),
{
    lemma_below_irreflexive(a);
    if below(b, a) {
        lemma_below_transitive(a, b, a);
    }
}

proof fn lemma_nothing_to_remove<V>(s: Seq<(Text, V)>, k: Text)
    requires
        forall|i: int| 0 <= i < s.len() ==> (#[trigger] s[i]).0 != k,
    ensures
        removed(s, k) == s,
    decreases s.len(),
{
    if s.len() > 0 {
        assert(s[0].0 != k);
        let t = s.skip(1);
        assert forall|i: int| 0 <= i < t.len() implies (#[trigger] t[i]).0 != k by {
            assert(t[i] == s[i + 1]);
        }
        lemma_nothing_to_remove(t, k);
        assert(seq![s[0]] + t =~= s);
    }
}

/// Removing a name forgets what was set under it.
pub proof fn law_remove_undoes_insert<V>(s: Seq<(Text, V)>, k: Text, v: V)
    requires
        sorted(s),
    ensures
        removed(inserted(s, k, v), k) == removed(s, k),
    decreases s.len(),
{
    let r = inserted(s, k, v);
    if s.len() == 0 {
        assert(r.skip(1) =~= s);
    } else if s[0].0 == k {
        assert(r.skip(1) =~= s.skip(1));
    } else if below(k, s[0].0) {
        assert(r.skip(1) =~= s);
        assert forall|i: int| 0 <= i < s.len() implies (#[trigger] s[i]).0 != k by {
            if i > 0 {
                lemma_below_transitive(k, s[0].0, s[i].0);
            }
            lemma_below_strict(k, s[i].0);
        }
        lemma_nothing_to_remove(s, k);
    } else {
        let t = s.skip(1);
        assert forall|i: int, j: int| 0 <= i < j < t.len() implies below(
            #[trigger] t[i].0,
            #[trigger] t[j].0,
        ) by {
            assert(t[i] == s[i + 1] && t[j] == s[j + 1]);
        }
        law_remove_undoes_insert(t, k, v);
        assert(r.skip(1) =~= inserted(t, k, v));
        assert(r[0] == s[0]);
    }
}

/// A name that comes after all others is set at the end.
pub proof fn lemma_insert_last<V>(s: Seq<(Text, V)>, k: Text, v: V)
    requires
        forall|i: int| 0 <= i < s.len() ==> below(#[trigger] s[i].0, k),
    ensures
        inserted(s, k, v) == s.push((k, v)),
    decreases s.len(),
{
    if s.len() > 0 {
        lemma_below_strict(s[0].0, k);
        let t = s.skip(1);
        assert forall|i: int| 0 <= i < t.len() implies below(#[trigger] t[i].0, k) by {
            assert(t[i] == s[i + 1]);
        }
        lemma_insert_last(t, k, v);
        assert(seq![s[0]] + t.push((k, v)) =~= s.push((k, v)));
    } else {
        assert(s.push((k, v)) =~= seq![(k, v)]);
    }
}

/// What is there after a value was set was there before, or is the new one.
pub proof fn lemma_inserted_entry<V>(s: Seq<(Text, V)>, k: Text, v: V, i: int)
    requires
        0 <= i < inserted(s, k, v).len(),
    ensures
        inserted(s, k, v)[i] == (k, v) || (exists|j: int|
            0 <= j < s.len() && s[j] == inserted(s, k, v)[i]),
    decreases s.len(),
{
    let r = inserted(s, k, v);
    if s.len() == 0 {
    } else if s[0].0 == k {
        if i > 0 {
            assert(r[i] == s[i]);
        }
    } else if below(k, s[0].0) {
        if i > 0 {
            assert(r[i] == s[i - 1]);
        }
    } else if i == 0 {
        assert(r[0] == s[0]);
    } else {
        let t = s.skip(1);
        lemma_inserted_entry(t, k, v, i - 1);
        assert(r[i] == inserted(t, k, v)[i - 1]);
        if r[i] != (k, v) {
            let j = choose|j: int| 0 <= j < t.len() && t[j] == inserted(t, k, v)[i - 1];
            assert(s[j + 1] == t[j]);
        }
    }
}

/// A name that comes before all others is not among them.
proof fn lemma_absent<V>(t: Seq<(Text, V)>, k: Text)
    requires
        forall|i: int| 0 <= i < t.len() ==> below(k, #[trigger] t[i].0),
    ensures
        lookup(t, k) is None,
    decreases t.len(),
{
    if t.len() > 0 {
        lemma_below_irreflexive(k);
        assert(t[0].0 != k);
        assert forall|i: int| 0 <= i < t.skip(1).len() implies below(
            k,
            #[trigger] t.skip(1)[i].0,
        ) by {
            assert(t.skip(1)[i] == t[i + 1]);
        }
        lemma_absent(t.skip(1), k);
    }
}

/// Whether `a` comes before `b`.
pub fn less(a: &str, b: &str) -> (r: bool)
    ensures
        r == below(a@, b@),
{
    let x = text::chars(a);
    let y = text::chars(b);
    let mut i: usize = 0;
    assert(x@.skip(0) =~= a@);
    assert(y@.skip(0) =~= b@);
    while i < x.len() && i < y.len() && x[i] == y[i]
        invariant
            i <= x@.len(),
            i <= y@.len(),
            below(a@, b@) == below(x@.skip(i as int), y@.skip(i as int)),
        decreases x@.len() - i,
    {
        assert(x@.skip(i as int).skip(1) =~= x@.skip(i + 1));
        assert(y@.skip(i as int).skip(1) =~= y@.skip(i + 1));
        i = i + 1;
    }
    if i >= y.len() {
        false
    } else if i >= x.len() {
        true
    } else {
        x[i] < y[i]
    }
}

impl<V: View> View for Table<V> {
    type V = Seq<(Text, V::V)>;

    open spec fn view(&self) -> Seq<(Text, V::V)> {
        self.entries@.map_values(|e: (String, V)| (e.0@, e.1@))
    }
}

impl<V: View> Table<V> {
    /// No names.
    pub fn new() -> (r: Self)
        ensures
            r@ == Seq::<(Text, V::V)>::empty(),
    {
        let t = Table { entries: Vec::new() };
        assert(t@ =~= Seq::empty());
        t
    }

    pub fn is_empty(&self) -> (r: bool)
        ensures
            r == (self@.len() == 0),
    {
        self.entries.len() == 0
    }

    /// The value under a name.
    pub fn get(&self, k: &str) -> (r: Option<&V>)
        ensures
            match r {
                Some(v) => lookup(self@, k@) == Some(v@),
                None => lookup(self@, k@) is None,
            },
    {
        let ghost all = self@;
        assert(all.skip(0) =~= all);
        for i in 0..self.entries.len()
            invariant
                all == self@,
                lookup(all, k@) == lookup(all.skip(i as int), k@),
        {
            assert(all.skip(i as int)[0] == (
                self.entries@[i as int].0@,
                self.entries@[i as int].1@,
            ));
            if text::same(self.entries[i].0.as_str(), k) {
                return Some(&self.entries[i].1);
            }
            assert(all.skip(i as int).skip(1) =~= all.skip(i + 1));
        }
        None
    }

    /// Sets the value under a name.
    pub fn insert(&mut self, k: String, v: V)
        ensures
            final(self)@ == inserted(old(self)@, k@, v@),
    {
        let ghost all = self@;
        assert(all.skip(0) =~= all);
        assert(all.take(0) + inserted(all.skip(0), k@, v@) =~= inserted(all, k@, v@));
        let n = self.entries.len();
        for i in 0..n
            invariant
                *self == *old(self),
                all == self@,
                n == self.entries@.len(),
                all.take(i as int) + inserted(all.skip(i as int), k@, v@) == inserted(
                    all,
                    k@,
                    v@,
                ),
        {
            assert(all.skip(i as int)[0] == (
                self.entries@[i as int].0@,
                self.entries@[i as int].1@,
            ));
            if text::same(self.entries[i].0.as_str(), k.as_str()) {
                self.entries.set(i, (k, v));
                assert(self@ =~= all.take(i as int) + inserted(all.skip(i as int), k@, v@));
                return;
            }
            if less(k.as_str(), self.entries[i].0.as_str()) {
                self.entries.insert(i, (k, v));
                assert(self@ =~= all.take(i as int) + inserted(all.skip(i as int), k@, v@));
                return;
            }
            assert(all.skip(i as int).skip(1) =~= all.skip(i + 1));
            assert(all.take(i + 1) + inserted(all.skip(i + 1), k@, v@) =~= all.take(i as int)
                + inserted(all.skip(i as int), k@, v@));
        }
        self.entries.push((k, v));
        assert(self@ =~= all.take(n as int) + inserted(all.skip(n as int), k@, v@));
    }

    /// Takes a name out.
    pub fn remove(&mut self, k: &str)
        ensures
            final(self)@ == removed(old(self)@, k@),
    {
        let ghost all = self@;
        assert(all.skip(0) =~= all);
        assert(all.take(0) + removed(all.skip(0), k@) =~= removed(all, k@));
        let n = self.entries.len();
        for i in 0..n
            invariant
                *self == *old(self),
                all == self@,
                n == self.entries@.len(),
                all.take(i as int) + removed(all.skip(i as int), k@) == removed(all, k@),
        {
            assert(all.skip(i as int)[0] == (
                self.entries@[i as int].0@,
                self.entries@[i as int].1@,
            ));
            if text::same(self.entries[i].0.as_str(), k) {
                let gone = self.entries.remove(i);
                assert(self@ =~= all.take(i as int) + removed(all.skip(i as int), k@));
                return;
            }
            assert(all.skip(i as int).skip(1) =~= all.skip(i + 1));
            assert(all.take(i + 1) + removed(all.skip(i + 1), k@) =~= all.take(i as int)
                + removed(all.skip(i as int), k@));
        }
        assert(all.take(n as int) + removed(all.skip(n as int), k@) =~= all);
    }
}

/// A copy of a table of strings.
pub fn copied(t: &Table<String>) -> (r: Table<String>)
    ensures
        r@ == t@,
{
    let mut out: Vec<(String, String)> = Vec::new();
    for i in 0..t.entries.len()
        invariant
            out@.len() == i,
            forall|j: int|
                0 <= j < i ==> (#[trigger] out@[j]).0@ == t.entries@[j].0@ && out@[j].1@
                    == t.entries@[j].1@,
    {
        out.push((t.entries[i].0.clone(), t.entries[i].1.clone()));
    }
    let r = Table { entries: out };
    assert(r@ =~= t@);
    r
}

} // verus!
