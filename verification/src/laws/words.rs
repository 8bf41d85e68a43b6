//! What holds of texts.

use vstd::prelude::*;

use crate::prompt;
use crate::text::{self, Text};

verus! {

/// Whether a text is all white space.
pub open spec fn blank(s: Text) -> bool {
    forall|i: int| 0 <= i < s.len() ==> text::is_space(#[trigger] s[i])
}

proof fn lemma_trim_start(s: Text) -> (a: Text)
    ensures
        s == a + text::trim_start(s),
        blank(a),
        text::trim_start(s).len() > 0 ==> !text::is_space(text::trim_start(s)[0]),
    decreases s.len(),
{
    if s.len() > 0 && text::is_space(s[0]) {
        let a = lemma_trim_start(s.skip(1));
        let r = seq![s[0]] + a;
        let t = text::trim_start(s);
        assert(s.skip(1) == a + t);
        assert(s =~= seq![s[0]] + s.skip(1));
        assert(seq![s[0]] + (a + t) =~= r + t);
        assert forall|i: int| 0 <= i < r.len() implies text::is_space(#[trigger] r[i]) by {
            if i > 0 {
                assert(r[i] == a[i - 1]);
            }
        }
        r
    } else {
        assert(s =~= Seq::empty() + s);
        Seq::empty()
    }
}

proof fn lemma_trim_end(s: Text) -> (b: Text)
    ensures
        s == text::trim_end(s) + b,
        blank(b),
        text::trim_end(s).len() > 0 ==> !text::is_space(text::trim_end(s).last()),
    decreases s.len(),
{
    if s.len() > 0 && text::is_space(s.last()) {
        let b = lemma_trim_end(s.drop_last());
        let r = b.push(s.last());
        let t = text::trim_end(s);
        assert(s.drop_last() == t + b);
        assert(s =~= s.drop_last().push(s.last()));
        assert((t + b).push(s.last()) =~= t + r);
        r
    } else {
        assert(s =~= s + Seq::empty());
        Seq::empty()
    }
}

/// A trimmed text is the text without the white space at its two ends, and
/// nothing more is taken away.
pub proof fn law_only_the_ends_are_trimmed(s: Text)
    ensures
        exists|a: Text, b: Text|
            s == #[trigger] (a + text::trimmed(s) + b) && blank(a) && blank(b),
        text::trimmed(s).len() > 0 ==> !text::is_space(text::trimmed(s)[0]) && !text::is_space(
            text::trimmed(s).last(),
        ),
{
    let a = lemma_trim_start(s);
    let t = text::trim_start(s);
    let b = lemma_trim_end(t);
    let u = text::trim_end(t);
    assert(u == text::trimmed(s));
    assert(a + (u + b) =~= a + u + b);
    assert(s == a + text::trimmed(s) + b);
    if u.len() > 0 {
        assert(u[0] == t[0]);
    }
}

/// The pieces between separators, joined by them again, are the text; and no
/// piece has a separator in it.
pub proof fn law_pieces_join_again(s: Text, sep: char)
    ensures
        text::joined(text::pieces(s, sep), seq![sep]) == s,
        text::pieces(s, sep).len() > 0,
        forall|i: int|
            0 <= i < text::pieces(s, sep).len() ==> !(#[trigger] text::pieces(s, sep)[i]).contains(
                sep,
            ),
    decreases s.len(),
{
    let p = text::pieces(s, sep);
    if s.len() > 0 {
        let f = s.drop_last();
        law_pieces_join_again(f, sep);
        let q = text::pieces(f, sep);
        assert(s =~= f.push(s.last()));
        if s.last() == sep {
            assert(p.drop_last() =~= q);
            assert(p.last().len() == 0);
            assert(text::joined(p, seq![sep]) == text::joined(q, seq![sep]) + seq![sep] + p.last());
            assert(text::joined(p, seq![sep]) =~= s);
            assert forall|i: int| 0 <= i < p.len() implies !(#[trigger] p[i]).contains(sep) by {
                if i < q.len() {
                    assert(p[i] == q[i]);
                }
            }
        } else {
            let last = q.last().push(s.last());
            assert(p.drop_last() =~= q.drop_last());
            assert(p.last() == last);
            if q.len() == 1 {
                assert(q[0] == f);
                assert(p[0] == last);
                assert(last =~= s);
            } else {
                assert(text::joined(p, seq![sep]) == text::joined(q.drop_last(), seq![sep])
                    + seq![sep] + last);
                assert(text::joined(p, seq![sep]) =~= s);
            }
            assert forall|i: int| 0 <= i < p.len() implies !(#[trigger] p[i]).contains(sep) by {
                if i < q.len() - 1 {
                    assert(p[i] == q[i]);
                } else {
                    assert(!q[q.len() - 1].contains(sep));
                    if last.contains(sep) {
                        let j = choose|j: int| 0 <= j < last.len() && last[j] == sep;
                        assert(q.last()[j] == sep);
                    }
                }
            }
        }
    } else {
        assert(p[0] =~= s);
    }
}

/// Joined texts follow each other with the separator between each two, and
/// nothing before or after.
pub proof fn law_joined_in_order(a: Seq<Text>, x: Text, sep: Text)
    ensures
        text::joined(Seq::empty(), sep) == Seq::<char>::empty(),
        text::joined(seq![x], sep) == x,
        a.len() > 0 ==> text::joined(a.push(x), sep) == text::joined(a, sep) + sep + x,
{
    assert(a.push(x).drop_last() =~= a);
}

proof fn lemma_pieces_after(a: Text, rest: Text, sep: char)
    requires
        !a.contains(sep),
    ensures
        text::pieces(a + seq![sep] + rest, sep) == seq![a] + text::pieces(rest, sep),
    decreases rest.len(),
{
    let s = a + seq![sep] + rest;
    if rest.len() == 0 {
        assert(s.drop_last() =~= a);
        lemma_one_piece(a, sep);
        assert(text::pieces(s, sep) =~= seq![a] + text::pieces(rest, sep));
    } else {
        let f = rest.drop_last();
        assert(s.drop_last() =~= a + seq![sep] + f);
        assert(s.last() == rest.last());
        lemma_pieces_after(a, f, sep);
        let q = text::pieces(f, sep);
        law_pieces_join_again(f, sep);
        assert((seq![a] + q).last() == q.last());
        assert((seq![a] + q).drop_last() =~= seq![a] + q.drop_last());
        assert(text::pieces(s, sep) =~= seq![a] + text::pieces(rest, sep));
    }
}

proof fn lemma_one_piece(a: Text, sep: char)
    requires
        !a.contains(sep),
    ensures
        text::pieces(a, sep) == seq![a],
    decreases a.len(),
{
    if a.len() > 0 {
        let f = a.drop_last();
        assert(!f.contains(sep)) by {
            if f.contains(sep) {
                let i = choose|i: int| 0 <= i < f.len() && f[i] == sep;
                assert(a[i] == sep);
            }
        }
        lemma_one_piece(f, sep);
        assert(a[a.len() - 1] != sep);
        assert(f.push(a.last()) =~= a);
        assert(text::pieces(a, sep) =~= seq![a]);
    } else {
        assert(a =~= Seq::empty());
    }
}

/// The lines of a text are what stands before each line feed, one after the
/// other, a carriage return before it left out; what follows the last line
/// feed is a line unless there is nothing.
pub proof fn law_lines_are_in_order(a: Text, rest: Text)
    requires
        !a.contains('\n'),
    ensures
        text::lines_of(a + seq!['\n'] + rest) == seq![
            if a.len() > 0 && a.last() == '\r' {
                a.drop_last()
            } else {
                a
            },
        ] + text::lines_of(rest),
        text::lines_of(a) == if a.len() == 0 {
            Seq::<Text>::empty()
        } else {
            seq![a]
        },
{
    lemma_pieces_after(a, rest, '\n');
    lemma_one_piece(a, '\n');
    law_pieces_join_again(rest, '\n');
    let p = text::pieces(rest, '\n');
    let q = seq![a] + p;
    assert(q.last() == p.last());
    assert(q.drop_last() =~= seq![a] + p.drop_last());
    let s = a + seq!['\n'] + rest;
    let first = text::without_cr(a);
    let tail = p.drop_last().map_values(|l: Text| text::without_cr(l));
    assert(q.drop_last().map_values(|l: Text| text::without_cr(l)) =~= seq![first] + tail);
    assert(text::lines_of(s) =~= seq![first] + text::lines_of(rest));
    assert(seq![a].drop_last().map_values(|l: Text| text::without_cr(l)) =~= Seq::<Text>::empty());
    assert(text::lines_of(a) =~= if a.len() == 0 {
        Seq::<Text>::empty()
    } else {
        seq![a]
    });
}

/// A padded text is the text with spaces on one side, as long as asked for
/// unless it was longer.
pub proof fn law_padding_is_spaces(t: Text, n: nat)
    ensures
        ({
            let l = prompt::pad_left(t, n);
            let r = prompt::pad_right(t, n);
            let m = if t.len() >= n {
                0
            } else {
                (n - t.len()) as nat
            };
            &&& l == Seq::new(m, |i: int| ' ') + t
            &&& r == t + Seq::new(m, |i: int| ' ')
        }),
    decreases n - t.len(),
{
    let m: nat = if t.len() >= n {
        0
    } else {
        (n - t.len()) as nat
    };
    let spaces = Seq::new(m, |i: int| ' ');
    if t.len() >= n {
        assert(spaces + t =~= t);
        assert(t + spaces =~= t);
    } else {
        let k = (m - 1) as nat;
        let fewer = Seq::new(k, |i: int| ' ');
        law_padding_is_spaces(seq![' '] + t, n);
        law_padding_is_spaces(t.push(' '), n);
        assert(fewer + (seq![' '] + t) =~= spaces + t);
        assert(t.push(' ') + fewer =~= t + spaces);
    }
}

/// A yes is `y` or `yes` in any case, nothing at all is the default, and
/// everything else is a no.
pub proof fn law_what_means_yes(a: Text, default: bool)
    ensures
        prompt::means_yes(a, default) <==> {
            ||| a.len() == 0 && default
            ||| a.len() == 1 && (a[0] == 'y' || a[0] == 'Y')
            ||| a.len() == 3 && (a[0] == 'y' || a[0] == 'Y') && (a[1] == 'e' || a[1] == 'E') && (
            a[2] == 's' || a[2] == 'S')
        },
{
    reveal_strlit("y");
    reveal_strlit("yes");
    reveal_strlit("");
    let l = text::lowered(a);
    assert(l.len() == a.len());
    assert(l =~= ""@ <==> a.len() == 0);
    if a.len() == 1 {
        assert(l[0] == text::lower(a[0]));
        assert(l =~= "y"@ <==> l[0] == 'y');
    } else if a.len() == 3 {
        assert(l[0] == text::lower(a[0]) && l[1] == text::lower(a[1]) && l[2] == text::lower(a[2]));
        assert(l =~= "yes"@ <==> l[0] == 'y' && l[1] == 'e' && l[2] == 's');
    }
}

} // verus!
