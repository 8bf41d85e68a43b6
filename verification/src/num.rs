//! Whole numbers as decimal text.

use vstd::prelude::*;
use vstd::string::*;

use crate::text::{self, Text, chars, digit};

verus! {

/// The digit character of a number below ten.
pub open spec fn digit_char(d: nat) -> char {
    (48 + d) as char
}

/// A number in decimal, without leading zeros.
pub open spec fn dec(n: nat) -> Text
    decreases n,
{
    if n < 10 {
        seq![digit_char(n)]
    } else {
        dec(n / 10).push(digit_char(n % 10))
    }
}

/// A number in decimal with a sign where it is negative.
pub open spec fn signed(n: int) -> Text {
    if n < 0 {
        "-"@ + dec((-n) as nat)
    } else {
        dec(n as nat)
    }
}

/// The number that a run of digits spells.
pub open spec fn value(s: Text) -> nat
    decreases s.len(),
{
    if s.len() == 0 {
        0
    } else {
        value(s.drop_last()) * 10 + (s.last() as nat - 48) as nat
    }
}

/// The number that a text spells: digits, perhaps after a `+`, up to `max`.
pub open spec fn parsed(s: Text, max: nat) -> Option<nat> {
    let d = if s.len() > 1 && s[0] == '+' {
        s.skip(1)
    } else {
        s
    };
    if d.len() > 0 && text::all_digits(d) && value(d) <= max {
        Some(value(d))
    } else {
        None
    }
}

/// How many digits a text begins with.
pub open spec fn run(s: Text) -> nat
    decreases s.len(),
{
    if s.len() == 0 || !text::is_digit(s[0]) {
        0
    } else {
        1 + run(s.skip(1))
    }
}

/// Why a text spells no number up to `max`: it is empty, its digits are too
/// many, or something else stands in it.
pub open spec fn why_not(s: Text, max: nat) -> Text {
    let d = if s.len() > 1 && s[0] == '+' {
        s.skip(1)
    } else {
        s
    };
    if s.len() == 0 {
        "cannot parse integer from empty string"@
    } else if value(d.take(run(d) as int)) > max {
        "number too large to fit in target type"@
    } else {
        "invalid digit found in string"@
    }
}

/// Printing a number gives digits that spell it.
pub proof fn law_print_parse(n: nat)
    ensures
        text::all_digits(dec(n)),
        dec(n).len() > 0,
        value(dec(n)) == n,
        forall|max: nat| n <= max ==> #[trigger] parsed(dec(n), max) == Some(n),
    decreases n,
{
    if n < 10 {
        assert(dec(n).drop_last() =~= Seq::empty());
        assert(value(dec(n).drop_last()) == 0);
    } else {
        law_print_parse(n / 10);
        assert(dec(n).drop_last() =~= dec(n / 10));
    }
    assert(text::is_digit(dec(n)[0]));
}

/// Two numbers that print alike are the same.
pub proof fn law_print_is_injective(a: nat, b: nat)
    requires
        dec(a) == dec(b),
    ensures
        a == b,
{
    law_print_parse(a);
    law_print_parse(b);
}

proof fn lemma_value_grows(s: Text, i: int)
    requires
        0 <= i <= s.len(),
    ensures
        value(s.take(i)) <= value(s),
    decreases s.len(),
{
    if i < s.len() {
        lemma_value_grows(s.drop_last(), i);
        assert(s.drop_last().take(i) =~= s.take(i));
    } else {
        assert(s.take(i) =~= s);
    }
}

/// The digit character of a number below ten.
pub fn digit_of(d: u64) -> (c: char)
    requires
        d < 10,
    ensures
        c == digit_char(d as nat),
{
    (48 + d as u8) as char
}

fn push(s: &mut String, n: u64)
    ensures
        final(s)@ == old(s)@ + dec(n as nat),
    decreases n,
{
    if n < 10 {
        s.push(digit_of(n));
        assert(s@ =~= old(s)@ + dec(n as nat));
    } else {
        push(s, n / 10);
        s.push(digit_of(n % 10));
        assert(s@ =~= old(s)@ + dec(n as nat));
    }
}

/// `n` in decimal.
pub fn print(n: u64) -> (r: String)
    ensures
        r@ == dec(n as nat),
{
    let mut s = String::new();
    push(&mut s, n);
    assert(s@ =~= dec(n as nat));
    s
}

/// `n` in decimal, with its sign.
pub fn print_signed(n: i32) -> (r: String)
    ensures
        r@ == signed(n as int),
{
    if n < 0 {
        let mut s = "-".to_owned();
        push(&mut s, (-(n as i64)) as u64);
        s
    } else {
        print(n as u64)
    }
}

/// The number that `s` spells, if it does and is at most `max`.
pub fn parse(s: &str, max: u64) -> (r: Option<u64>)
    ensures
        match r {
            Some(n) => parsed(s@, max as nat) == Some(n as nat),
            None => parsed(s@, max as nat) is None,
        },
{
    let cs = chars(s);
    let from: usize = if cs.len() > 1 && cs[0] == '+' {
        1
    } else {
        0
    };
    let ghost d = s@.skip(from as int);
    assert(from == 0 ==> d =~= s@);
    if from == cs.len() {
        return None;
    }
    let mut n: u64 = 0;
    assert(d.take(0) =~= Seq::empty());
    for i in from..cs.len()
        invariant
            cs@ == s@,
            from <= cs.len(),
            d == s@.skip(from as int),
            parsed(s@, max as nat) == (if d.len() > 0 && text::all_digits(d) && value(d) <= max {
                Some(value(d))
            } else {
                None::<nat>
            }),
            n == value(d.take(i - from)),
            n <= max,
            forall|j: int| 0 <= j < i - from ==> text::is_digit(#[trigger] d[j]),
    {
        let c = cs[i];
        assert(d[i - from] == c);
        if !digit(c) {
            assert(!text::all_digits(d));
            return None;
        }
        let v: u64 = (c as u32 - 48) as u64;
        assert(d.take(i - from + 1).drop_last() =~= d.take(i - from));
        assert(value(d.take(i - from + 1)) == n * 10 + v);
        let wide: u128 = n as u128 * 10 + v as u128;
        if wide > max as u128 {
            proof {
                lemma_value_grows(d, i - from + 1);
            }
            return None;
        }
        n = wide as u64;
    }
    assert(d.take(d.len() as int) =~= d);
    Some(n)
}

proof fn lemma_run(s: Text, i: int)
    requires
        0 <= i <= s.len(),
        forall|j: int| 0 <= j < i ==> text::is_digit(#[trigger] s[j]),
        i == s.len() || !text::is_digit(s[i]),
    ensures
        run(s) == i,
    decreases i,
{
    if i > 0 {
        let t = s.skip(1);
        assert(text::is_digit(s[0]));
        assert forall|j: int| 0 <= j < i - 1 implies text::is_digit(#[trigger] t[j]) by {
            assert(t[j] == s[j + 1]);
        }
        lemma_run(t, i - 1);
    }
}

/// Why `s` spells no number up to `max`.
pub fn parse_error(s: &str, max: u64) -> (r: String)
    ensures
        r@ == why_not(s@, max as nat),
{
    let cs = chars(s);
    if cs.len() == 0 {
        return "cannot parse integer from empty string".to_owned();
    }
    let from: usize = if cs.len() > 1 && cs[0] == '+' {
        1
    } else {
        0
    };
    let ghost d = s@.skip(from as int);
    assert(from == 0 ==> d =~= s@);
    let mut n: u64 = 0;
    let mut i: usize = from;
    assert(d.take(0) =~= Seq::empty());
    while i < cs.len() && digit(cs[i])
        invariant
            cs@ == s@,
            from <= i <= cs.len(),
            cs@.len() > 0,
            d == s@.skip(from as int),
            why_not(s@, max as nat) == (if value(d.take(run(d) as int)) > max {
                "number too large to fit in target type"@
            } else {
                "invalid digit found in string"@
            }),
            n == value(d.take(i - from)),
            n <= max,
            forall|j: int| 0 <= j < i - from ==> text::is_digit(#[trigger] d[j]),
        decreases cs.len() - i,
    {
        let c = cs[i];
        assert(d[i - from] == c);
        let v: u64 = (c as u32 - 48) as u64;
        assert(d.take(i - from + 1).drop_last() =~= d.take(i - from));
        let wide: u128 = n as u128 * 10 + v as u128;
        if wide > max as u128 {
            proof {
                lemma_run_reaches(d, i - from + 1);
                lemma_value_grows(d.take(run(d) as int), i - from + 1);
                assert(d.take(run(d) as int).take(i - from + 1) =~= d.take(i - from + 1));
            }
            return "number too large to fit in target type".to_owned();
        }
        n = wide as u64;
        i = i + 1;
    }
    proof {
        assert(i < cs@.len() ==> d[i - from] == cs@[i as int]);
        lemma_run(d, i - from);
    }
    "invalid digit found in string".to_owned()
}

proof fn lemma_run_reaches(s: Text, i: int)
    requires
        0 <= i <= s.len(),
        forall|j: int| 0 <= j < i ==> text::is_digit(#[trigger] s[j]),
    ensures
        i <= run(s) <= s.len(),
    decreases s.len(),
{
    if s.len() > 0 && text::is_digit(s[0]) {
        let t = s.skip(1);
        assert forall|j: int| 0 <= j < i - 1 implies text::is_digit(#[trigger] t[j]) by {
            assert(t[j] == s[j + 1]);
        }
        if i > 0 {
            lemma_run_reaches(t, i - 1);
        } else {
            lemma_run_reaches(t, 0);
        }
    } else if i > 0 {
        assert(text::is_digit(s[0]));
    }
}

} // verus!
