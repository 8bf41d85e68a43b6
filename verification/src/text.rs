//! Text as sequences of characters: the few operations on strings that the
//! rest of the library is built from, each stated over `Seq<char>`.

use vstd::prelude::*;

verus! {

/// Text in specifications.
pub type Text = Seq<char>;

/// `String::push`: "appends the given `char` to the end of this `String`".
pub assume_specification[ String::push ](s: &mut String, ch: char)
    ensures
        final(s)@ == old(s)@.push(ch),
;

/// The characters of a string.
pub fn chars(s: &str) -> (r: Vec<char>)
    ensures
        r@ == s@,
{
    let mut v: Vec<char> = Vec::new();
    for c in it: s.chars()
        invariant
            it.seq() == s@,
            v@ == s@.take(it.index()),
    {
        v.push(c);
    }
    v
}

/// The string of some characters.
pub fn string(cs: &[char]) -> (r: String)
    ensures
        r@ == cs@,
{
    let mut s = String::new();
    for i in 0..cs.len()
        invariant
            s@ == cs@.take(i as int),
    {
        s.push(cs[i]);
    }
    s
}

/// Whether two strings are the same text.
pub fn same(a: &str, b: &str) -> (r: bool)
    ensures
        r == (a@ == b@),
{
    a.to_owned() == b.to_owned()
}


// ---------------------------------------------------------------------------
// What the operations mean.

/// Unicode's `White_Space`, the characters that trimming removes.
pub open spec fn is_space(c: char) -> bool {
    ||| '\u{9}' <= c <= '\u{d}'
    ||| c == '\u{20}' || c == '\u{85}' || c == '\u{a0}' || c == '\u{1680}'
    ||| '\u{2000}' <= c <= '\u{200a}'
    ||| c == '\u{2028}' || c == '\u{2029}' || c == '\u{202f}' || c == '\u{205f}' || c == '\u{3000}'
}

pub open spec fn trim_start(s: Text) -> Text
    decreases s.len(),
{
    if s.len() > 0 && is_space(s[0]) {
        trim_start(s.skip(1))
    } else {
        s
    }
}

pub open spec fn trim_end(s: Text) -> Text
    decreases s.len(),
{
    if s.len() > 0 && is_space(s.last()) {
        trim_end(s.drop_last())
    } else {
        s
    }
}

/// The text without the white space around it.
pub open spec fn trimmed(s: Text) -> Text {
    trim_end(trim_start(s))
}

/// Where `c` first stands in `s`, or the length of `s` when it does not.
pub open spec fn first(s: Text, c: char) -> nat
    decreases s.len(),
{
    if s.len() == 0 || s[0] == c {
        0
    } else {
        1 + first(s.skip(1), c)
    }
}

/// The pieces of `s` between the separators; always at least one.
pub open spec fn pieces(s: Text, sep: char) -> Seq<Text>
    decreases s.len(),
{
    if s.len() == 0 {
        seq![Seq::empty()]
    } else {
        let before = pieces(s.drop_last(), sep);
        if s.last() == sep {
            before.push(Seq::empty())
        } else {
            before.drop_last().push(before.last().push(s.last()))
        }
    }
}

/// The parts, with the separator between each two.
pub open spec fn joined(parts: Seq<Text>, sep: Text) -> Text
    decreases parts.len(),
{
    if parts.len() == 0 {
        Seq::empty()
    } else if parts.len() == 1 {
        parts[0]
    } else {
        joined(parts.drop_last(), sep) + sep + parts.last()
    }
}

/// Whether `pat` stands in `s` at `i`.
pub open spec fn stands_at(s: Text, pat: Text, i: int) -> bool {
    0 <= i && i + pat.len() <= s.len() && s.subrange(i, i + pat.len()) == pat
}

pub open spec fn contains(s: Text, pat: Text) -> bool {
    exists|i: int| stands_at(s, pat, i)
}

/// `s` with every occurrence of `pat`, found from the left and not
/// overlapping, replaced.
pub open spec fn replaced(s: Text, pat: Text, with: Text) -> Text
    decreases s.len(),
{
    if s.len() == 0 || pat.len() == 0 {
        s
    } else if pat.is_prefix_of(s) {
        with + replaced(s.skip(pat.len() as int), pat, with)
    } else {
        seq![s[0]] + replaced(s.skip(1), pat, with)
    }
}

/// A line without the carriage return before its line feed.
pub open spec fn without_cr(s: Text) -> Text {
    if s.len() > 0 && s.last() == '\r' {
        s.drop_last()
    } else {
        s
    }
}

/// The lines of a text: what stands before each line feed, and what follows
/// the last one unless that is empty.
pub open spec fn lines_of(s: Text) -> Seq<Text> {
    let p = pieces(s, '\n');
    let ended = p.drop_last().map_values(|l: Text| without_cr(l));
    if p.last().len() == 0 {
        ended
    } else {
        ended.push(p.last())
    }
}

pub open spec fn is_digit(c: char) -> bool {
    '0' <= c <= '9'
}

pub open spec fn is_lower(c: char) -> bool {
    'a' <= c <= 'z'
}

pub open spec fn is_upper(c: char) -> bool {
    'A' <= c <= 'Z'
}

/// Whether every character is an ASCII digit.
pub open spec fn all_digits(s: Text) -> bool {
    forall|i: int| 0 <= i < s.len() ==> is_digit(#[trigger] s[i])
}

/// An ASCII capital made small, any other character kept.
pub open spec fn lower(c: char) -> char {
    if is_upper(c) {
        ((c as u32) + 32) as char
    } else {
        c
    }
}

/// An ASCII small letter made a capital, any other character kept.
pub open spec fn upper(c: char) -> char {
    if is_lower(c) {
        ((c as u32) - 32) as char
    } else {
        c
    }
}

pub open spec fn lowered(s: Text) -> Text {
    s.map_values(|c: char| lower(c))
}

pub open spec fn uppered(s: Text) -> Text {
    s.map_values(|c: char| upper(c))
}

/// The views of a list's items.
pub open spec fn views<T: View>(v: Seq<T>) -> Seq<T::V> {
    v.map_values(|x: T| x@)
}

/// The view of an optional value.
pub open spec fn opt<T: View>(o: Option<T>) -> Option<T::V> {
    match o {
        Some(x) => Some(x@),
        None => None,
    }
}

// ---------------------------------------------------------------------------
// What follows from it.

/// Where a character first stands: before it, it does not.
pub proof fn lemma_first(s: Text, c: char)
    ensures
        first(s, c) <= s.len(),
        first(s, c) < s.len() ==> s[first(s, c) as int] == c,
        forall|i: int| 0 <= i < first(s, c) ==> s[i] != c,
    decreases s.len(),
{
    if s.len() > 0 && s[0] != c {
        lemma_first(s.skip(1), c);
        assert forall|i: int| 0 <= i < first(s, c) implies s[i] != c by {
            if i > 0 {
                assert(s.skip(1)[i - 1] == s[i]);
            }
        }
    }
}

/// Where a character stands that does not stand before.
pub proof fn lemma_first_is(s: Text, c: char, i: int)
    requires
        0 <= i <= s.len(),
        i < s.len() ==> s[i] == c,
        forall|j: int| 0 <= j < i ==> s[j] != c,
    ensures
        first(s, c) == i,
{
    lemma_first(s, c);
}

/// A text without white space at its ends is its own trimming.
pub proof fn lemma_trimmed(s: Text)
    requires
        s.len() > 0 ==> !is_space(s[0]) && !is_space(s.last()),
    ensures
        trimmed(s) == s,
{
}

// ---------------------------------------------------------------------------
// The operations.

pub fn space(c: char) -> (r: bool)
    ensures
        r == is_space(c),
{
    ('\u{9}' <= c && c <= '\u{d}') || c == '\u{20}' || c == '\u{85}' || c == '\u{a0}' || c
        == '\u{1680}' || ('\u{2000}' <= c && c <= '\u{200a}') || c == '\u{2028}' || c
        == '\u{2029}' || c == '\u{202f}' || c == '\u{205f}' || c == '\u{3000}'
}

pub fn digit(c: char) -> (r: bool)
    ensures
        r == is_digit(c),
{
    '0' <= c && c <= '9'
}

/// The string of the characters from `from` up to `to`.
pub fn part(cs: &Vec<char>, from: usize, to: usize) -> (r: String)
    requires
        from <= to <= cs@.len(),
    ensures
        r@ == cs@.subrange(from as int, to as int),
{
    let mut s = String::new();
    for i in from..to
        invariant
            from <= to <= cs@.len(),
            s@ == cs@.subrange(from as int, i as int),
    {
        s.push(cs[i]);
        assert(cs@.subrange(from as int, i + 1) == cs@.subrange(from as int, i as int).push(
            cs@[i as int],
        ));
    }
    s
}

/// `s` without the white space around it.
pub fn trim(s: &str) -> (r: String)
    ensures
        r@ == trimmed(s@),
{
    let cs = chars(s);
    let mut from: usize = 0;
    assert(cs@.skip(0) == cs@);
    while from < cs.len() && space(cs[from])
        invariant
            from <= cs@.len(),
            trim_start(cs@) == trim_start(cs@.skip(from as int)),
        decreases cs@.len() - from,
    {
        assert(cs@.skip(from as int).skip(1) == cs@.skip(from + 1));
        from = from + 1;
    }
    let ghost rest = cs@.skip(from as int);
    assert(trim_start(cs@) == rest);
    let mut to: usize = cs.len();
    assert(cs@.subrange(from as int, to as int) == rest);
    while from < to && space(cs[to - 1])
        invariant
            from <= to <= cs@.len(),
            trim_end(rest) == trim_end(cs@.subrange(from as int, to as int)),
        decreases to,
    {
        assert(cs@.subrange(from as int, to as int).drop_last() == cs@.subrange(
            from as int,
            to - 1,
        ));
        to = to - 1;
    }
    part(&cs, from, to)
}

/// Where `c` first stands in `s`, or its length.
pub fn find(cs: &Vec<char>, c: char) -> (r: usize)
    ensures
        r == first(cs@, c),
        r <= cs@.len(),
        r < cs@.len() ==> cs@[r as int] == c,
        forall|i: int| 0 <= i < r ==> cs@[i] != c,
{
    let mut i: usize = 0;
    assert(cs@.skip(0) == cs@);
    while i < cs.len() && cs[i] != c
        invariant
            i <= cs@.len(),
            first(cs@, c) == i + first(cs@.skip(i as int), c),
            forall|j: int| 0 <= j < i ==> cs@[j] != c,
        decreases cs@.len() - i,
    {
        assert(cs@.skip(i as int).skip(1) == cs@.skip(i + 1));
        i = i + 1;
    }
    i
}

/// What stands before the first `sep` and after it.
pub fn split_once(s: &str, sep: char) -> (r: Option<(String, String)>)
    ensures
        match r {
            Some((a, b)) => {
                &&& first(s@, sep) < s@.len()
                &&& a@ == s@.take(first(s@, sep) as int)
                &&& b@ == s@.skip(first(s@, sep) as int + 1)
            },
            None => first(s@, sep) == s@.len(),
        },
{
    let cs = chars(s);
    let i = find(&cs, sep);
    if i < cs.len() {
        let a = part(&cs, 0, i);
        let b = part(&cs, i + 1, cs.len());
        assert(a@ == s@.take(i as int));
        assert(b@ == s@.skip(i as int + 1));
        Some((a, b))
    } else {
        None
    }
}

proof fn lemma_pieces_some(s: Text, sep: char)
    ensures
        pieces(s, sep).len() > 0,
    decreases s.len(),
{
    if s.len() > 0 {
        lemma_pieces_some(s.drop_last(), sep);
    }
}

/// The pieces of `s` between the separators.
pub fn split(s: &str, sep: char) -> (r: Vec<String>)
    ensures
        views(r@) == pieces(s@, sep),
        r@.len() > 0,
{
    let cs = chars(s);
    let mut done: Vec<String> = Vec::new();
    let mut cur = String::new();
    assert(views(done@).push(cur@) =~= pieces(cs@.take(0), sep));
    for i in 0..cs.len()
        invariant
            views(done@).push(cur@) == pieces(cs@.take(i as int), sep),
    {
        let ghost before = views(done@).push(cur@);
        proof {
            lemma_pieces_some(cs@.take(i as int), sep);
            assert(cs@.take(i + 1).drop_last() == cs@.take(i as int));
            assert(before.drop_last() == views(done@));
        }
        if cs[i] == sep {
            let ghost d = done@;
            let ghost c = cur;
            done.push(cur);
            cur = String::new();
            assert(views(done@) =~= views(d).push(c@));
            assert(views(done@).push(cur@) =~= before.push(Seq::empty()));
        } else {
            cur.push(cs[i]);
        }
    }
    assert(cs@.take(cs@.len() as int) == cs@);
    let ghost d = done@;
    let ghost c = cur;
    done.push(cur);
    assert(views(done@) =~= views(d).push(c@));
    done
}

/// The strings, with `sep` between each two.
pub fn join(parts: &Vec<String>, sep: &str) -> (r: String)
    ensures
        r@ == joined(views(parts@), sep@),
{
    let ghost p = views(parts@);
    let mut s = String::new();
    for i in 0..parts.len()
        invariant
            p == views(parts@),
            s@ == joined(p.take(i as int), sep@),
    {
        assert(p.take(i + 1).drop_last() == p.take(i as int));
        if i > 0 {
            s.append(sep);
        }
        s.append(parts[i].as_str());
        assert(s@ =~= joined(p.take(i + 1), sep@));
    }
    assert(p.take(p.len() as int) == p);
    s
}

/// Whether `pat` stands in `cs` at `i`.
pub fn at(cs: &Vec<char>, pat: &Vec<char>, i: usize) -> (r: bool)
    requires
        i <= cs@.len(),
    ensures
        r == stands_at(cs@, pat@, i as int),
{
    if cs.len() - i < pat.len() {
        return false;
    }
    for j in 0..pat.len()
        invariant
            i + pat.len() <= cs.len(),
            forall|k: int| 0 <= k < j ==> cs@[i + k] == pat@[k],
    {
        if cs[i + j] != pat[j] {
            assert(cs@.subrange(i as int, i + pat@.len())[j as int] != pat@[j as int]);
            return false;
        }
    }
    assert(cs@.subrange(i as int, i + pat@.len()) =~= pat@);
    true
}

pub fn starts_with(s: &str, pat: &str) -> (r: bool)
    ensures
        r == pat@.is_prefix_of(s@),
{
    let cs = chars(s);
    let r = at(&cs, &chars(pat), 0);
    assert(pat@.len() <= s@.len() ==> s@.subrange(0, pat@.len() as int) == s@.subrange(
        0,
        0 + pat@.len() as int,
    ));
    r
}

pub fn ends_with(s: &str, pat: &str) -> (r: bool)
    ensures
        r == pat@.is_suffix_of(s@),
{
    let cs = chars(s);
    let ps = chars(pat);
    if ps.len() > cs.len() {
        return false;
    }
    let r = at(&cs, &ps, cs.len() - ps.len());
    assert(s@.subrange(s@.len() - pat@.len(), s@.len() as int) == s@.subrange(
        s@.len() - pat@.len(),
        (s@.len() - pat@.len()) + pat@.len(),
    ));
    r
}

/// What follows `pat` at the start of `s`.
pub fn strip_prefix(s: &str, pat: &str) -> (r: Option<String>)
    ensures
        match r {
            Some(t) => pat@.is_prefix_of(s@) && t@ == s@.skip(pat@.len() as int),
            None => !pat@.is_prefix_of(s@),
        },
{
    if starts_with(s, pat) {
        let cs = chars(s);
        let n = pat.unicode_len();
        let t = part(&cs, n, cs.len());
        assert(t@ == s@.skip(pat@.len() as int));
        Some(t)
    } else {
        None
    }
}

pub fn has(s: &str, pat: &str) -> (r: bool)
    ensures
        r == contains(s@, pat@),
{
    let cs = chars(s);
    let ps = chars(pat);
    for i in 0..cs.len()
        invariant
            cs@ == s@,
            ps@ == pat@,
            forall|j: int| 0 <= j < i ==> !stands_at(cs@, ps@, j),
    {
        if at(&cs, &ps, i) {
            assert(stands_at(s@, pat@, i as int));
            return true;
        }
    }
    let r = at(&cs, &ps, cs.len());
    assert(r ==> stands_at(s@, pat@, s@.len() as int));
    r
}

/// `s` with every occurrence of `pat` replaced.
pub fn replace(s: &str, pat: &str, with: &str) -> (r: String)
    requires
        pat@.len() > 0,
    ensures
        r@ == replaced(s@, pat@, with@),
{
    let cs = chars(s);
    let ps = chars(pat);
    let mut out = String::new();
    let mut i: usize = 0;
    assert(cs@.skip(0) == cs@);
    while i < cs.len()
        invariant
            i <= cs@.len(),
            ps@ == pat@,
            pat@.len() > 0,
            out@ + replaced(cs@.skip(i as int), pat@, with@) == replaced(cs@, pat@, with@),
        decreases cs@.len() - i,
    {
        let ghost rest = cs@.skip(i as int);
        let ghost so_far = out@;
        if at(&cs, &ps, i) {
            proof {
                assert(rest.subrange(0, pat@.len() as int) == cs@.subrange(
                    i as int,
                    i + pat@.len(),
                ));
                assert(rest.skip(pat@.len() as int) == cs@.skip(i + pat@.len()));
            }
            out.append(with);
            i = i + ps.len();
            assert(out@ + replaced(cs@.skip(i as int), pat@, with@) =~= so_far + (with@
                + replaced(cs@.skip(i as int), pat@, with@)));
        } else {
            proof {
                if pat@.is_prefix_of(rest) {
                    assert(rest.subrange(0, pat@.len() as int) == cs@.subrange(
                        i as int,
                        i + pat@.len(),
                    ));
                }
                assert(rest.skip(1) == cs@.skip(i + 1));
            }
            out.push(cs[i]);
            i = i + 1;
            assert(out@ + replaced(cs@.skip(i as int), pat@, with@) =~= so_far + (seq![rest[0]]
                + replaced(cs@.skip(i as int), pat@, with@)));
        }
    }
    assert(replaced(cs@.skip(i as int), pat@, with@) =~= Seq::empty());
    out
}

fn drop_cr(s: String) -> (r: String)
    ensures
        r@ == without_cr(s@),
{
    let cs = chars(s.as_str());
    if cs.len() > 0 && cs[cs.len() - 1] == '\r' {
        let r = part(&cs, 0, cs.len() - 1);
        assert(r@ == s@.drop_last());
        r
    } else {
        s
    }
}

/// The lines of a text.
pub fn lines(s: &str) -> (r: Vec<String>)
    ensures
        views(r@) == lines_of(s@),
{
    let mut p = split(s, '\n');
    let ghost all = views(p@);
    let last = match p.pop() {
        Some(l) => l,
        None => String::new(),
    };
    assert(views(p@) =~= all.drop_last());
    let mut out: Vec<String> = Vec::new();
    let ghost ended = all.drop_last().map_values(|l: Text| without_cr(l));
    for i in 0..p.len()
        invariant
            views(p@) == all.drop_last(),
            ended == all.drop_last().map_values(|l: Text| without_cr(l)),
            views(out@) == ended.take(i as int),
    {
        let ghost before = out@;
        let l = drop_cr(p[i].clone());
        out.push(l);
        assert(views(p@)[i as int] == p@[i as int]@);
        assert(views(out@) =~= views(before).push(l@));
        assert(ended.take(i + 1) =~= ended.take(i as int).push(ended[i as int]));
    }
    assert(ended.take(ended.len() as int) == ended);
    if last.as_str().unicode_len() > 0 {
        let ghost before = out@;
        let ghost l = last;
        out.push(last);
        assert(views(out@) =~= views(before).push(l@));
    }
    out
}

/// Whether every character is an ASCII digit.
pub fn digits(s: &str) -> (r: bool)
    ensures
        r == all_digits(s@),
{
    let cs = chars(s);
    for i in 0..cs.len()
        invariant
            cs@ == s@,
            forall|j: int| 0 <= j < i ==> is_digit(#[trigger] cs@[j]),
    {
        if !digit(cs[i]) {
            assert(!is_digit(s@[i as int]));
            return false;
        }
    }
    true
}

/// `s` with its ASCII letters as capitals.
pub fn upper_case(s: &str) -> (r: String)
    ensures
        r@ == uppered(s@),
{
    let cs = chars(s);
    let mut out = String::new();
    for i in 0..cs.len()
        invariant
            cs@ == s@,
            out@ == uppered(s@).take(i as int),
    {
        let c = cs[i];
        let up: char = if 'a' <= c && c <= 'z' {
            (c as u8 - 32) as char
        } else {
            c
        };
        out.push(up);
        assert(uppered(s@).take(i + 1) =~= uppered(s@).take(i as int).push(upper(c)));
    }
    assert(uppered(s@).take(s@.len() as int) =~= uppered(s@));
    out
}

/// `s` with its ASCII letters as small ones.
pub fn lower_case(s: &str) -> (r: String)
    ensures
        r@ == lowered(s@),
{
    let cs = chars(s);
    let mut out = String::new();
    for i in 0..cs.len()
        invariant
            cs@ == s@,
            out@ == lowered(s@).take(i as int),
    {
        let c = cs[i];
        let low: char = if 'A' <= c && c <= 'Z' {
            (c as u8 + 32) as char
        } else {
            c
        };
        out.push(low);
        assert(lowered(s@).take(i + 1) =~= lowered(s@).take(i as int).push(lower(c)));
    }
    assert(lowered(s@).take(s@.len() as int) =~= lowered(s@));
    out
}

/// Whether there is no text.
pub fn empty(s: &str) -> (r: bool)
    ensures
        r == (s@.len() == 0),
{
    s.unicode_len() == 0
}

/// A copy of a list of strings.
pub fn copies(v: &Vec<String>) -> (r: Vec<String>)
    ensures
        views(r@) == views(v@),
{
    let mut out: Vec<String> = Vec::new();
    for i in 0..v.len()
        invariant
            views(out@) == views(v@).take(i as int),
    {
        let ghost before = out@;
        out.push(v[i].clone());
        assert(views(out@) =~= views(before).push(v@[i as int]@));
        assert(views(v@).take(i + 1) =~= views(v@).take(i as int).push(views(v@)[i as int]));
    }
    assert(views(v@).take(v@.len() as int) =~= views(v@));
    out
}

/// A copy of an optional string.
pub fn copy(o: &Option<String>) -> (r: Option<String>)
    ensures
        opt(r) == opt(*o),
{
    match o {
        Some(s) => Some(s.clone()),
        None => None,
    }
}

/// Whether the lists hold the same strings.
pub fn same_list(a: &Vec<String>, b: &Vec<String>) -> (r: bool)
    ensures
        r == (views(a@) == views(b@)),
{
    if a.len() != b.len() {
        assert(views(a@).len() != views(b@).len());
        return false;
    }
    for i in 0..a.len()
        invariant
            a@.len() == b@.len(),
            forall|j: int| 0 <= j < i ==> views(a@)[j] == views(b@)[j],
    {
        if !same(a[i].as_str(), b[i].as_str()) {
            assert(views(a@)[i as int] != views(b@)[i as int]);
            return false;
        }
    }
    assert(views(a@) =~= views(b@));
    true
}

/// Whether one of the strings is `s`.
pub fn among(v: &Vec<String>, s: &str) -> (r: bool)
    ensures
        r == views(v@).contains(s@),
{
    for i in 0..v.len()
        invariant
            forall|j: int| 0 <= j < i ==> v@[j]@ != s@,
    {
        if same(v[i].as_str(), s) {
            assert(views(v@)[i as int] == s@);
            return true;
        }
    }
    assert(forall|j: int| 0 <= j < v@.len() ==> views(v@)[j] == v@[j]@);
    false
}

/// `a` followed by `b`.
pub fn cat(a: &str, b: &str) -> (r: String)
    ensures
        r@ == a@ + b@,
{
    let mut s = a.to_owned();
    s.append(b);
    s
}

pub fn cat3(a: &str, b: &str, c: &str) -> (r: String)
    ensures
        r@ == a@ + b@ + c@,
{
    let mut s = a.to_owned();
    s.append(b);
    s.append(c);
    s
}

pub fn cat4(a: &str, b: &str, c: &str, d: &str) -> (r: String)
    ensures
        r@ == a@ + b@ + c@ + d@,
{
    let mut s = a.to_owned();
    s.append(b);
    s.append(c);
    s.append(d);
    s
}

pub fn cat5(a: &str, b: &str, c: &str, d: &str, e: &str) -> (r: String)
    ensures
        r@ == a@ + b@ + c@ + d@ + e@,
{
    let mut s = a.to_owned();
    s.append(b);
    s.append(c);
    s.append(d);
    s.append(e);
    s
}

pub fn cat6(a: &str, b: &str, c: &str, d: &str, e: &str, f: &str) -> (r: String)
    ensures
        r@ == a@ + b@ + c@ + d@ + e@ + f@,
{
    let mut s = a.to_owned();
    s.append(b);
    s.append(c);
    s.append(d);
    s.append(e);
    s.append(f);
    s
}

pub fn cat7(a: &str, b: &str, c: &str, d: &str, e: &str, f: &str, g: &str) -> (r: String)
    ensures
        r@ == a@ + b@ + c@ + d@ + e@ + f@ + g@,
{
    let mut s = a.to_owned();
    s.append(b);
    s.append(c);
    s.append(d);
    s.append(e);
    s.append(f);
    s.append(g);
    s
}

pub fn cat8(a: &str, b: &str, c: &str, d: &str, e: &str, f: &str, g: &str, h: &str) -> (r: String)
    ensures
        r@ == a@ + b@ + c@ + d@ + e@ + f@ + g@ + h@,
{
    let mut s = a.to_owned();
    s.append(b);
    s.append(c);
    s.append(d);
    s.append(e);
    s.append(f);
    s.append(g);
    s.append(h);
    s
}

pub fn cat9(a: &str, b: &str, c: &str, d: &str, e: &str, f: &str, g: &str, h: &str, i: &str) -> (r: String)
    ensures
        r@ == a@ + b@ + c@ + d@ + e@ + f@ + g@ + h@ + i@,
{
    let mut s = a.to_owned();
    s.append(b);
    s.append(c);
    s.append(d);
    s.append(e);
    s.append(f);
    s.append(g);
    s.append(h);
    s.append(i);
    s
}

} // verus!
