//! What the rendered compose file keeps of the document.

use vstd::prelude::*;

use crate::laws::part_of;
use crate::laws::planned::volume_dir;
use crate::num;
use crate::spec::{self, VarsV, VolumeV};
use crate::text::{self, Text};
use crate::yaml::{self, Tree};

verus! {

// ---------------------------------------------------------------------------
// Variables.

/// Whether a text has no dollar sign.
pub open spec fn no_dollar(s: Text) -> bool {
    forall|i: int| 0 <= i < s.len() ==> #[trigger] s[i] != '$'
}

/// Whether a text begins with a dollar sign and has no other.
spec fn one_dollar(s: Text) -> bool {
    s.len() > 0 && s[0] == '$' && forall|i: int| 1 <= i < s.len() ==> #[trigger] s[i] != '$'
}

/// Before the first dollar sign nothing is replaced.
proof fn lemma_before(a: Text, rest: Text, pat: Text, with: Text)
    requires
        no_dollar(a),
        pat.len() > 0,
        pat[0] == '$',
    ensures
        text::replaced(a + rest, pat, with) == a + text::replaced(rest, pat, with),
    decreases a.len(),
{
    let s = a + rest;
    if a.len() == 0 {
        assert(s =~= rest);
        assert(a + text::replaced(rest, pat, with) =~= text::replaced(rest, pat, with));
    } else {
        assert(s[0] == a[0]);
        if pat.is_prefix_of(s) {
            assert(s.subrange(0, pat.len() as int)[0] == pat[0]);
        }
        let b = a.skip(1);
        assert(s.skip(1) =~= b + rest);
        lemma_before(b, rest, pat, with);
        assert(seq![s[0]] + (b + text::replaced(rest, pat, with)) =~= a + text::replaced(
            rest,
            pat,
            with,
        ));
    }
}

/// A pattern that stands at the beginning is replaced.
proof fn lemma_here(rest: Text, pat: Text, with: Text)
    requires
        pat.len() > 0,
    ensures
        text::replaced(pat + rest, pat, with) == with + text::replaced(rest, pat, with),
{
    let s = pat + rest;
    assert(s.subrange(0, pat.len() as int) =~= pat);
    assert(s.skip(pat.len() as int) =~= rest);
}

/// A name that differs from the pattern is left where it stands.
proof fn lemma_other(x: Text, rest: Text, pat: Text, with: Text, i: int)
    requires
        one_dollar(x),
        one_dollar(pat),
        0 < i < x.len(),
        i < pat.len(),
        x[i] != pat[i],
    ensures
        text::replaced(x + rest, pat, with) == x + text::replaced(rest, pat, with),
{
    let s = x + rest;
    if pat.is_prefix_of(s) {
        assert(s.subrange(0, pat.len() as int)[i] == pat[i]);
    }
    let y = x.skip(1);
    assert(s.skip(1) =~= y + rest);
    lemma_before(y, rest, pat, with);
    assert(seq![s[0]] + (y + text::replaced(rest, pat, with)) =~= x + text::replaced(
        rest,
        pat,
        with,
    ));
}

proof fn lemma_absent(s: Text, head: Text, pat: Text, with: Text)
    requires
        head.len() > 0,
        head.is_prefix_of(pat),
        !part_of(head, s),
    ensures
        text::replaced(s, pat, with) == s,
    decreases s.len(),
{
    if s.len() > 0 {
        if pat.is_prefix_of(s) {
            assert(s.skip(0) =~= s);
            assert(head =~= s.subrange(0, head.len() as int)) by {
                assert forall|i: int| 0 <= i < head.len() implies head[i] == s.subrange(
                    0,
                    head.len() as int,
                )[i] by {
                    assert(head[i] == pat.subrange(0, head.len() as int)[i]);
                    assert(pat[i] == s.subrange(0, pat.len() as int)[i]);
                }
            }
            assert(head.is_prefix_of(s.skip(0)));
            assert(part_of(head, s));
        }
        let t = s.skip(1);
        if part_of(head, t) {
            let i = choose|i: int| 0 <= i <= t.len() && head.is_prefix_of(#[trigger] t.skip(i));
            assert(s.skip(i + 1) =~= t.skip(i));
            assert(head.is_prefix_of(s.skip(i + 1)));
        }
        lemma_absent(t, head, pat, with);
        assert(seq![s[0]] + t =~= s);
    }
}

/// The five variables, each in both of its forms.
spec fn braced(n: int) -> Text {
    if n == 0 {
        "${PVE_GID}"@
    } else if n == 1 {
        "${PVE_NAME}"@
    } else if n == 2 {
        "${PVE_STACK}"@
    } else if n == 3 {
        "${PVE_UID}"@
    } else {
        "${PVE_VMID}"@
    }
}

spec fn bare(n: int) -> Text {
    if n == 0 {
        "$PVE_GID"@
    } else if n == 1 {
        "$PVE_NAME"@
    } else if n == 2 {
        "$PVE_STACK"@
    } else if n == 3 {
        "$PVE_UID"@
    } else {
        "$PVE_VMID"@
    }
}

spec fn value(n: int, v: VarsV) -> Text {
    if n == 0 {
        v.gid
    } else if n == 1 {
        v.name
    } else if n == 2 {
        "/opt/stack"@
    } else if n == 3 {
        v.uid
    } else {
        num::dec(v.vmid as nat)
    }
}

proof fn lemma_names(n: int, m: int)
    requires
        0 <= n < 5,
        0 <= m < 5,
    ensures
        one_dollar(braced(n)) && one_dollar(bare(n)),
        braced(n).len() > 6 && bare(n).len() > 5,
        braced(n)[1] == '{' && bare(n)[1] == 'P',
        n != m ==> braced(n)[6] != braced(m)[6] && bare(n)[5] != bare(m)[5],
        "${PVE_"@.is_prefix_of(braced(n)),
        "$PVE_"@.is_prefix_of(bare(n)),
        "${PVE_"@.len() > 0 && "$PVE_"@.len() > 0,
{
    reveal_strlit("${PVE_GID}");
    reveal_strlit("${PVE_NAME}");
    reveal_strlit("${PVE_STACK}");
    reveal_strlit("${PVE_UID}");
    reveal_strlit("${PVE_VMID}");
    reveal_strlit("$PVE_GID");
    reveal_strlit("$PVE_NAME");
    reveal_strlit("$PVE_STACK");
    reveal_strlit("$PVE_UID");
    reveal_strlit("$PVE_VMID");
    reveal_strlit("${PVE_");
    reveal_strlit("$PVE_");
    assert("${PVE_"@ =~= braced(n).subrange(0, 6));
    assert("$PVE_"@ =~= bare(n).subrange(0, 5));
}

/// The first `k` variables replaced.
spec fn chain(s: Text, v: VarsV, k: int) -> Text
    decreases k,
{
    if k <= 0 {
        s
    } else {
        spec::set_var(chain(s, v, k - 1), braced(k - 1), bare(k - 1), value(k - 1, v))
    }
}

proof fn lemma_chain(s: Text, v: VarsV)
    ensures
        spec::substituted(s, v) == chain(s, v, 5),
{
    assert(chain(s, v, 0) == s);
    assert(chain(s, v, 1) == spec::set_var(s, "${PVE_GID}"@, "$PVE_GID"@, v.gid));
    assert(chain(s, v, 2) == spec::set_var(chain(s, v, 1), braced(1), bare(1), value(1, v)));
    assert(chain(s, v, 3) == spec::set_var(chain(s, v, 2), braced(2), bare(2), value(2, v)));
    assert(chain(s, v, 4) == spec::set_var(chain(s, v, 3), braced(3), bare(3), value(3, v)));
    assert(chain(s, v, 5) == spec::set_var(chain(s, v, 4), braced(4), bare(4), value(4, v)));
    if !text::contains(s, "${PVE_"@) && !text::contains(s, "$PVE_"@) {
        lemma_not_part(s, "${PVE_"@);
        lemma_not_part(s, "$PVE_"@);
        lemma_chain_absent(s, v, 5);
    }
}

proof fn lemma_not_part(s: Text, pat: Text)
    ensures
        part_of(pat, s) ==> text::contains(s, pat),
{
    if part_of(pat, s) {
        let i = choose|i: int| 0 <= i <= s.len() && pat.is_prefix_of(#[trigger] s.skip(i));
        let t = s.skip(i);
        assert(s.subrange(i, i + pat.len()) =~= t.subrange(0, pat.len() as int));
        assert(text::stands_at(s, pat, i));
    }
}

proof fn lemma_chain_absent(s: Text, v: VarsV, k: int)
    requires
        0 <= k <= 5,
        !part_of("${PVE_"@, s),
        !part_of("$PVE_"@, s),
    ensures
        chain(s, v, k) == s,
    decreases k,
{
    if k > 0 {
        lemma_chain_absent(s, v, k - 1);
        lemma_names(k - 1, k - 1);
        lemma_absent(s, "${PVE_"@, braced(k - 1), value(k - 1, v));
        lemma_absent(s, "$PVE_"@, bare(k - 1), value(k - 1, v));
    }
}

/// A name passes the replacements of the others by, and is replaced by its
/// own.
proof fn lemma_chain_step(
    a: Text,
    x: Text,
    n: int,
    in_braces: bool,
    rest: Text,
    v: VarsV,
    k: int,
)
    requires
        0 <= n < 5,
        0 <= k <= 5,
        no_dollar(a),
        no_dollar(value(n, v)),
        x == if in_braces {
            braced(n)
        } else {
            bare(n)
        },
    ensures
        chain(a + x + rest, v, k) == if k <= n {
            a + x + chain(rest, v, k)
        } else {
            a + value(n, v) + chain(rest, v, k)
        },
    decreases k,
{
    let s = a + x + rest;
    if k > 0 {
        let m = k - 1;
        lemma_chain_step(a, x, n, in_braces, rest, v, m);
        lemma_names(n, m);
        lemma_names(m, n);
        let b = braced(m);
        let c = bare(m);
        let val = value(m, v);
        let t = chain(rest, v, m);
        let t1 = text::replaced(t, b, val);
        let t2 = text::replaced(t1, c, val);
        assert(chain(rest, v, k) == t2);
        if m < n {
            assert(a + x + t =~= a + (x + t));
            lemma_before(a, x + t, b, val);
            if in_braces {
                lemma_other(x, t, b, val, 6);
            } else {
                lemma_other(x, t, b, val, 1);
            }
            assert(a + (x + t1) =~= a + x + t1);
            lemma_before(a, x + t1, c, val);
            if in_braces {
                lemma_other(x, t1, c, val, 1);
            } else {
                lemma_other(x, t1, c, val, 5);
            }
            assert(a + (x + t2) =~= a + x + t2);
        } else if m == n {
            assert(a + x + t =~= a + (x + t));
            lemma_before(a, x + t, b, val);
            if in_braces {
                lemma_here(t, b, val);
                let a2 = a + val;
                assert(no_dollar(a2));
                assert(a + (val + t1) =~= a2 + t1);
                lemma_before(a2, t1, c, val);
            } else {
                lemma_other(x, t, b, val, 1);
                assert(a + (x + t1) =~= a + x + t1);
                lemma_before(a, x + t1, c, val);
                lemma_here(t1, c, val);
                assert(a + (val + t2) =~= a + val + t2);
            }
        } else {
            let a2 = a + value(n, v);
            assert(no_dollar(a2));
            lemma_before(a2, t, b, val);
            lemma_before(a2, t1, c, val);
        }
    }
}

/// Each of the five variables, in braces or bare, gives way to its value
/// wherever it stands, and what follows is dealt with in the same way. (A
/// value that has a dollar sign of its own may run into what follows.)
pub proof fn law_variables_give_way(a: Text, rest: Text, v: VarsV)
    requires
        no_dollar(a),
        no_dollar(v.uid),
        no_dollar(v.gid),
        no_dollar(v.name),
    ensures
        spec::substituted(a + "${PVE_UID}"@ + rest, v) == a + v.uid + spec::substituted(rest, v),
        spec::substituted(a + "$PVE_UID"@ + rest, v) == a + v.uid + spec::substituted(rest, v),
        spec::substituted(a + "${PVE_GID}"@ + rest, v) == a + v.gid + spec::substituted(rest, v),
        spec::substituted(a + "$PVE_GID"@ + rest, v) == a + v.gid + spec::substituted(rest, v),
        spec::substituted(a + "${PVE_NAME}"@ + rest, v) == a + v.name + spec::substituted(rest, v),
        spec::substituted(a + "$PVE_NAME"@ + rest, v) == a + v.name + spec::substituted(rest, v),
        spec::substituted(a + "${PVE_STACK}"@ + rest, v) == a + "/opt/stack"@ + spec::substituted(
            rest,
            v,
        ),
        spec::substituted(a + "$PVE_STACK"@ + rest, v) == a + "/opt/stack"@ + spec::substituted(
            rest,
            v,
        ),
        spec::substituted(a + "${PVE_VMID}"@ + rest, v) == a + num::dec(v.vmid as nat)
            + spec::substituted(rest, v),
        spec::substituted(a + "$PVE_VMID"@ + rest, v) == a + num::dec(v.vmid as nat)
            + spec::substituted(rest, v),
{
    reveal_strlit("/opt/stack");
    num::law_print_parse(v.vmid as nat);
    assert(no_dollar(num::dec(v.vmid as nat))) by {
        let d = num::dec(v.vmid as nat);
        assert forall|i: int| 0 <= i < d.len() implies #[trigger] d[i] != '$' by {
            assert(text::is_digit(d[i]));
        }
    }
    lemma_chain(rest, v);
    lemma_pair(a, 0, rest, v);
    lemma_pair(a, 1, rest, v);
    lemma_pair(a, 2, rest, v);
    lemma_pair(a, 3, rest, v);
    lemma_pair(a, 4, rest, v);
}

proof fn lemma_pair(a: Text, n: int, rest: Text, v: VarsV)
    requires
        0 <= n < 5,
        no_dollar(a),
        no_dollar(value(n, v)),
    ensures
        spec::substituted(a + braced(n) + rest, v) == a + value(n, v) + chain(rest, v, 5),
        spec::substituted(a + bare(n) + rest, v) == a + value(n, v) + chain(rest, v, 5),
{
    lemma_chain(a + braced(n) + rest, v);
    lemma_chain(a + bare(n) + rest, v);
    lemma_chain_step(a, braced(n), n, true, rest, v, 5);
    lemma_chain_step(a, bare(n), n, false, rest, v, 5);
}

/// A text that names none of the tool's variables is left as it is.
pub proof fn law_other_texts_are_left(s: Text, v: VarsV)
    requires
        !part_of("${PVE_"@, s),
        !part_of("$PVE_"@, s),
    ensures
        spec::substituted(s, v) == s,
{
    lemma_chain(s, v);
    lemma_chain_absent(s, v, 5);
}

// ---------------------------------------------------------------------------
// The document.

/// Whether a key is a comment: a text that ends in two underscores.
pub open spec fn commented(k: Tree) -> bool {
    yaml::string(k) matches Some(s) && s.len() >= 2 && s[s.len() - 1] == '_' && s[s.len() - 2]
        == '_'
}

proof fn lemma_commented(k: Tree)
    ensures
        spec::is_comment(k) == commented(k),
{
    reveal_strlit("__");
    if let Some(s) = yaml::string(k) {
        if "__"@.is_suffix_of(s) {
            let e = s.subrange(s.len() - 2, s.len() as int);
            assert(e[0] == '_' && e[1] == '_');
        }
        if commented(k) {
            assert("__"@ =~= s.subrange(s.len() - 2, s.len() as int));
        }
    }
}

/// Whether a value names none of the tool's variables and has no comment,
/// however deep.
pub open spec fn unmarked(t: Tree) -> bool
    decreases t,
{
    match t {
        Tree::Str(s) => !part_of("${PVE_"@, s) && !part_of("$PVE_"@, s),
        Tree::List(l) => forall|i: int| 0 <= i < l.len() ==> unmarked(#[trigger] l[i]),
        Tree::Dict(m) => forall|i: int|
            0 <= i < m.len() ==> !commented((#[trigger] m[i]).0) && unmarked(m[i].1),
        Tree::Tagged(_, b) => unmarked(*b),
        _ => true,
    }
}

/// Rendering keeps every list: as many items in the same order, each of them
/// rendered.
pub proof fn law_lists_are_kept(l: Seq<Tree>, v: VarsV)
    ensures
        spec::walked(Tree::List(l), v) matches Tree::List(r) && r.len() == l.len() && forall|i: int|
            0 <= i < l.len() ==> #[trigger] r[i] == spec::walked(l[i], v),
{
}

/// Rendering keeps every map: each entry in its order under its key, its
/// value rendered, and only comments left out.
pub proof fn law_maps_are_kept(m: Seq<(Tree, Tree)>, v: VarsV)
    ensures
        spec::walked(Tree::Dict(m), v) matches Tree::Dict(r) && kept(m, r, v),
{
    lemma_kept(m, v);
}

/// Whether entries are others without the comments, rendered.
pub open spec fn kept(m: Seq<(Tree, Tree)>, r: Seq<(Tree, Tree)>, v: VarsV) -> bool {
    exists|from: Seq<int>|
        {
            &&& #[trigger] from.len() == r.len()
            &&& forall|i: int|
                0 <= i < r.len() ==> 0 <= #[trigger] from[i] < m.len() && !commented(
                    m[from[i]].0,
                ) && r[i].0 == m[from[i]].0 && r[i].1 == spec::walked(m[from[i]].1, v)
            &&& forall|i: int, j: int|
                0 <= i < j < r.len() ==> #[trigger] from[i] < #[trigger] from[j]
            &&& forall|k: int|
                0 <= k < m.len() && !commented((#[trigger] m[k]).0) ==> from.contains(k)
        }
}

proof fn lemma_kept(m: Seq<(Tree, Tree)>, v: VarsV)
    ensures
        kept(m, spec::walked_entries(m, v), v),
    decreases m.len(),
{
    let r = spec::walked_entries(m, v);
    if m.len() == 0 {
        let from = Seq::<int>::empty();
        assert(from.len() == r.len());
    } else {
        let f = m.drop_last();
        let n = m.len() - 1;
        let q = spec::walked_entries(f, v);
        lemma_kept(f, v);
        lemma_commented(m.last().0);
        let g = choose|g: Seq<int>|
            {
                &&& #[trigger] g.len() == q.len()
                &&& forall|i: int|
                    0 <= i < q.len() ==> 0 <= #[trigger] g[i] < f.len() && !commented(
                        f[g[i]].0,
                    ) && q[i].0 == f[g[i]].0 && q[i].1 == spec::walked(f[g[i]].1, v)
                &&& forall|i: int, j: int|
                    0 <= i < j < q.len() ==> #[trigger] g[i] < #[trigger] g[j]
                &&& forall|k: int|
                    0 <= k < f.len() && !commented((#[trigger] f[k]).0) ==> g.contains(k)
            };
        let from = if commented(m.last().0) {
            g
        } else {
            g.push(n)
        };
        assert(from.len() == r.len());
        assert forall|i: int| 0 <= i < r.len() implies 0 <= #[trigger] from[i] < m.len()
            && !commented(m[from[i]].0) && r[i].0 == m[from[i]].0 && r[i].1 == spec::walked(
            m[from[i]].1,
            v,
        ) by {
            if i < q.len() {
                assert(from[i] == g[i]);
                assert(r[i] == q[i]);
                assert(m[g[i]] == f[g[i]]);
            }
        }
        assert forall|i: int, j: int| 0 <= i < j < r.len() implies #[trigger] from[i]
            < #[trigger] from[j] by {
            assert(from[i] == g[i]);
            if j < q.len() {
                assert(from[j] == g[j]);
            }
        }
        assert forall|k: int| 0 <= k < m.len() && !commented((#[trigger] m[k]).0) implies from.contains(
            k,
        ) by {
            if k < n {
                assert(f[k] == m[k]);
                assert(g.contains(k));
                let i = choose|i: int| 0 <= i < g.len() && g[i] == k;
                assert(from[i] == k);
            } else {
                assert(from[g.len() as int] == k);
            }
        }
    }
}

/// Rendering changes texts by their variables alone, and leaves tags, numbers,
/// booleans and nulls as they are.
pub proof fn law_values_are_kept(t: Tree, v: VarsV)
    ensures
        t matches Tree::Str(s) ==> spec::walked(t, v) == Tree::Str(spec::substituted(s, v)),
        t matches Tree::Tagged(n, b) ==> (spec::walked(t, v) matches Tree::Tagged(k, c) && k == n
            && *c == spec::walked(*b, v)),
        t is Null || t is Bool || t is Number ==> spec::walked(t, v) == t,
{
}

/// A value that names none of the tool's variables and has no comment renders
/// to itself.
pub proof fn law_unmarked_renders_to_itself(t: Tree, v: VarsV)
    requires
        unmarked(t),
    ensures
        spec::walked(t, v) == t,
    decreases t,
{
    match t {
        Tree::Str(s) => {
            law_other_texts_are_left(s, v);
        },
        Tree::List(l) => {
            assert forall|i: int| 0 <= i < l.len() implies spec::walked(#[trigger] l[i], v)
                == l[i] by {
                law_unmarked_renders_to_itself(l[i], v);
            }
            assert(spec::walked(t, v)->List_0 =~= l);
        },
        Tree::Dict(m) => {
            lemma_unmarked_entries(m, v);
        },
        Tree::Tagged(n, b) => {
            law_unmarked_renders_to_itself(*b, v);
        },
        _ => {},
    }
}

proof fn lemma_unmarked_entries(m: Seq<(Tree, Tree)>, v: VarsV)
    requires
        forall|i: int| 0 <= i < m.len() ==> !commented((#[trigger] m[i]).0) && unmarked(m[i].1),
    ensures
        spec::walked_entries(m, v) == m,
    decreases m,
{
    if m.len() > 0 {
        let f = m.drop_last();
        assert forall|i: int| 0 <= i < f.len() implies !commented((#[trigger] f[i]).0) && unmarked(
            f[i].1,
        ) by {
            assert(f[i] == m[i]);
        }
        lemma_unmarked_entries(f, v);
        let e = m[m.len() - 1];
        lemma_commented(e.0);
        law_unmarked_renders_to_itself(e.1, v);
        assert(spec::walked_entries(m, v) =~= m);
    }
}

// ---------------------------------------------------------------------------
// The top level.

proof fn lemma_at_push(m: Seq<(Tree, Tree)>, e: (Tree, Tree), k: Tree)
    ensures
        yaml::at(m.push(e), k) == match yaml::at(m, k) {
            Some(x) => Some(x),
            None => if e.0 == k {
                Some(e.1)
            } else {
                None
            },
        },
    decreases m.len(),
{
    let n = m.push(e);
    if m.len() == 0 {
        assert(n.skip(1).len() == 0);
        assert(yaml::at(n.skip(1), k) is None);
        assert(n[0] == e);
    } else {
        assert(n[0] == m[0]);
        assert(n.skip(1) =~= m.skip(1).push(e));
        lemma_at_push(m.skip(1), e, k);
    }
}

proof fn lemma_at_walked(m: Seq<(Tree, Tree)>, v: VarsV, k: Tree)
    requires
        !commented(k),
    ensures
        yaml::at(spec::walked_entries(m, v), k) == match yaml::at(m, k) {
            Some(x) => Some(spec::walked(x, v)),
            None => None,
        },
    decreases m.len(),
{
    if m.len() > 0 {
        let f = m.drop_last();
        lemma_at_walked(f, v, k);
        lemma_commented(m.last().0);
        lemma_at_push(f, m.last(), k);
        assert(f.push(m.last()) =~= m);
        lemma_at_push(
            spec::walked_entries(f, v),
            (m.last().0, spec::walked(m.last().1, v)),
            k,
        );
    }
}

proof fn lemma_at_unnamed(m: Seq<(Tree, Tree)>, k: Tree)
    requires
        yaml::string(k) != Some("name"@),
    ensures
        yaml::at(spec::unnamed(m), k) == yaml::at(m, k),
    decreases m.len(),
{
    if m.len() > 0 {
        let f = m.drop_last();
        lemma_at_unnamed(f, k);
        lemma_at_push(f, m.last(), k);
        assert(f.push(m.last()) =~= m);
        lemma_at_push(spec::unnamed(f), m.last(), k);
    }
}

proof fn lemma_at_set(m: Seq<(Tree, Tree)>, k: Tree, v: Tree, other: Tree)
    ensures
        yaml::at(spec::set_entry(m, k, v), other) == if other == k {
            Some(v)
        } else {
            yaml::at(m, other)
        },
    decreases m.len(),
{
    let r = spec::set_entry(m, k, v);
    if m.len() == 0 {
        assert(r.skip(1).len() == 0);
        assert(yaml::at(r.skip(1), other) is None);
    } else if m[0].0 == k {
        assert(r.skip(1) =~= m.skip(1));
    } else {
        lemma_at_set(m.skip(1), k, v, other);
        assert(r.skip(1) =~= spec::set_entry(m.skip(1), k, v));
    }
}

proof fn lemma_at_top(m: Seq<(Tree, Tree)>, v: VarsV, k: Tree)
    requires
        !commented(k),
        yaml::string(k) != Some("name"@),
    ensures
        yaml::at(spec::named(spec::walked(Tree::Dict(m), v), v.project)->Dict_0, k) == match yaml::at(
            m,
            k,
        ) {
            Some(x) => Some(spec::walked(x, v)),
            None => None,
        },
{
    let r = spec::walked_entries(m, v);
    let top = seq![(Tree::Str("name"@), Tree::Str(v.project))] + spec::unnamed(r);
    assert(top.skip(1) =~= spec::unnamed(r));
    assert(top[0].0 != k);
    lemma_at_unnamed(r, k);
    lemma_at_walked(m, v, k);
}

/// Every entry at the top of the document but its name, its volumes and its
/// comments stands in the rendered file under its key, rendered; and nothing
/// else does. The name is the project.
pub proof fn law_the_top_level_is_kept(
    m: Seq<(Tree, Tree)>,
    vols: Seq<VolumeV>,
    v: VarsV,
    k: Tree,
)
    requires
        !commented(k),
        yaml::string(k) != Some("name"@),
        k != Tree::Str("volumes"@),
    ensures
        spec::rendered_tree(Tree::Dict(m), vols, v) matches Tree::Dict(r) && yaml::at(r, k)
            == match yaml::at(m, k) {
            Some(x) => Some(spec::walked(x, v)),
            None => None,
        } && yaml::at(r, Tree::Str("name"@)) == Some(Tree::Str(v.project)),
{
    let top = spec::named(spec::walked(Tree::Dict(m), v), v.project)->Dict_0;
    lemma_at_top(m, v, k);
    reveal_strlit("name");
    reveal_strlit("volumes");
    assert("name"@.len() != "volumes"@.len());
    let vk = Tree::Str("volumes"@);
    assert(top[0] == (Tree::Str("name"@), Tree::Str(v.project)));
    if let Some(Tree::Dict(x)) = yaml::at(top, vk) {
        let b = Tree::Dict(spec::bound_all(x, vols));
        lemma_at_set(top, vk, b, k);
        lemma_at_set(top, vk, b, Tree::Str("name"@));
    }
}

/// The definition that a volume has in the rendered file.
pub open spec fn bound_there(name: Text, kept: Seq<(Tree, Tree)>) -> Tree {
    Tree::Dict(
        seq![
            (Tree::Str("driver"@), Tree::Str("local"@)),
            (
                Tree::Str("driver_opts"@),
                Tree::Dict(
                    seq![
                        (Tree::Str("type"@), Tree::Str("none"@)),
                        (Tree::Str("o"@), Tree::Str("bind"@)),
                        (Tree::Str("device"@), Tree::Str(volume_dir(name))),
                    ],
                ),
            ),
        ] + kept,
    )
}

/// What a volume's definition keeps of the document's: a name, if it has one.
pub open spec fn kept_of(old: Option<Tree>) -> Seq<(Tree, Tree)> {
    match old {
        Some(Tree::Dict(m)) => match yaml::at(m, Tree::Str("name"@)) {
            Some(n) => seq![(Tree::Str("name"@), n)],
            None => Seq::empty(),
        },
        _ => Seq::empty(),
    }
}

proof fn lemma_bound(name: Text, old: Option<Tree>)
    ensures
        spec::bound(name, old) == bound_there(name, kept_of(old)),
{
    reveal_strlit("/opt/stack/volumes");
    reveal_strlit("/");
    reveal_strlit("/opt/stack/volumes/");
    assert(spec::dir_of(name) =~= volume_dir(name));
}

proof fn lemma_bound_all(m: Seq<(Tree, Tree)>, vols: Seq<VolumeV>, k: Tree)
    requires
        forall|i: int, j: int|
            0 <= i < j < vols.len() ==> (#[trigger] vols[i]).name != (#[trigger] vols[j]).name,
    ensures
        (forall|i: int| 0 <= i < vols.len() ==> k != Tree::Str((#[trigger] vols[i]).name))
            ==> yaml::at(spec::bound_all(m, vols), k) == yaml::at(m, k),
        forall|i: int|
            0 <= i < vols.len() && k == Tree::Str((#[trigger] vols[i]).name) ==> yaml::at(
                spec::bound_all(m, vols),
                k,
            ) == Some(bound_there(vols[i].name, kept_of(yaml::at(m, k)))),
    decreases vols.len(),
{
    if vols.len() > 0 {
        let f = vols.drop_last();
        assert forall|i: int, j: int| 0 <= i < j < f.len() implies (#[trigger] f[i]).name != (
        #[trigger] f[j]).name by {
            assert(f[i] == vols[i] && f[j] == vols[j]);
        }
        let last = vols.last();
        let lk = Tree::Str(last.name);
        lemma_bound_all(m, f, k);
        lemma_bound_all(m, f, lk);
        let before = spec::bound_all(m, f);
        assert forall|i: int| 0 <= i < f.len() implies lk != Tree::Str((#[trigger] f[i]).name) by {
            assert(f[i] == vols[i]);
            assert(vols[i].name != vols[vols.len() - 1].name);
        }
        assert(yaml::at(before, lk) == yaml::at(m, lk));
        lemma_bound(last.name, yaml::at(before, lk));
        lemma_at_set(before, lk, spec::bound(last.name, yaml::at(before, lk)), k);
        if forall|i: int| 0 <= i < vols.len() ==> k != Tree::Str((#[trigger] vols[i]).name) {
            assert forall|i: int| 0 <= i < f.len() implies k != Tree::Str((#[trigger] f[i]).name) by {
                assert(f[i] == vols[i]);
            }
            assert(k != Tree::Str(vols[vols.len() - 1].name));
        }
        assert forall|i: int|
            0 <= i < vols.len() && k == Tree::Str((#[trigger] vols[i]).name) implies yaml::at(
            spec::bound_all(m, vols),
            k,
        ) == Some(bound_there(vols[i].name, kept_of(yaml::at(m, k)))) by {
            if i < f.len() {
                assert(f[i] == vols[i]);
            }
        }
    }
}

/// Every managed volume is, in the rendered file, a local volume bound to its
/// directory; a volume that is not managed keeps its definition, rendered.
pub proof fn law_volumes_are_bound(
    m: Seq<(Tree, Tree)>,
    x: Seq<(Tree, Tree)>,
    vols: Seq<VolumeV>,
    v: VarsV,
    name: Text,
)
    requires
        yaml::at(m, Tree::Str("volumes"@)) == Some(Tree::Dict(x)),
        forall|i: int, j: int|
            0 <= i < j < vols.len() ==> (#[trigger] vols[i]).name != (#[trigger] vols[j]).name,
        !commented(Tree::Str(name)),
    ensures
        spec::rendered_tree(Tree::Dict(m), vols, v) matches Tree::Dict(r) && (yaml::at(
            r,
            Tree::Str("volumes"@),
        ) matches Some(Tree::Dict(y)) && {
            let old = match yaml::at(x, Tree::Str(name)) {
                Some(d) => Some(spec::walked(d, v)),
                None => None,
            };
            yaml::at(y, Tree::Str(name)) == if exists|i: int|
                0 <= i < vols.len() && (#[trigger] vols[i]).name == name {
                Some(bound_there(name, kept_of(old)))
            } else {
                old
            }
        }),
{
    let top = spec::named(spec::walked(Tree::Dict(m), v), v.project)->Dict_0;
    let vk = Tree::Str("volumes"@);
    reveal_strlit("name");
    reveal_strlit("volumes");
    assert("name"@.len() != "volumes"@.len());
    assert("volumes"@[6] == 's');
    assert(!commented(vk));
    lemma_at_top(m, v, vk);
    let y = spec::walked_entries(x, v);
    assert(yaml::at(top, vk) == Some(Tree::Dict(y)));
    let b = Tree::Dict(spec::bound_all(y, vols));
    lemma_at_set(top, vk, b, vk);
    lemma_at_walked(x, v, Tree::Str(name));
    lemma_bound_all(y, vols, Tree::Str(name));
}

/// The file is the header, two lines of comment, and the rendered document.
pub proof fn law_the_file_is_the_document(t: Tree, vols: Seq<VolumeV>, v: VarsV, y: Text)
    requires
        yaml::yaml_text(spec::rendered_tree(t, vols, v)) == Ok::<Text, Text>(y),
    ensures
        spec::rendered(t, vols, v) == Ok::<Text, Seq<Text>>(
            "# Rendered by pve-compose from this guest's pve-meta document (compose.spec).\n# Edit the document, not this file: the next apply overwrites it.\n"@
                + y,
        ),
{
}

} // verus!
