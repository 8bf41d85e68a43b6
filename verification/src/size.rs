//! Sizes as PVE spells them: `20G`, `512M`, `2T`, or a bare number of GiB.
//!
//! PVE takes a mountpoint size as GiB (`storage:20`, fractions allowed) and
//! reports it back as `size=20G` / `size=512M`; a document says `20G`. One
//! type, bytes inside, so the two never disagree by rounding.

use vstd::arithmetic::div_mod::*;
use vstd::arithmetic::mul::*;
use vstd::arithmetic::power2::*;
use vstd::prelude::*;

use crate::error::Error;
use crate::num;
use crate::round;
use crate::text::{self, Text};

verus! {

/// A number of bytes.
#[derive(Debug, Clone, Copy, PartialEq, Eq, PartialOrd, Ord, Structural)]
pub struct Size(pub u64);

impl View for Size {
    type V = nat;

    open spec fn view(&self) -> nat {
        self.0 as nat
    }
}

pub const KIB: u64 = 1024;

pub const MIB: u64 = 1048576;

pub const GIB: u64 = 1073741824;

pub const TIB: u64 = 1099511627776;

// ---------------------------------------------------------------------------
// Reading.

/// Whether a character may stand in the number of a size.
pub open spec fn numeric(c: char) -> bool {
    text::is_digit(c) || c == '.'
}

/// How many characters at the start of a text may stand in a number.
pub open spec fn number_len(s: Text) -> nat
    decreases s.len(),
{
    if s.len() > 0 && numeric(s[0]) {
        1 + number_len(s.skip(1))
    } else {
        0
    }
}

/// The digits before the point.
pub open spec fn before_point(s: Text) -> Text {
    s.take(text::first(s, '.') as int)
}

/// The digits after the point.
pub open spec fn after_point(s: Text) -> Text {
    if text::first(s, '.') < s.len() {
        s.skip(text::first(s, '.') as int + 1)
    } else {
        Seq::empty()
    }
}

/// Whether a text is a decimal number: digits with at most one point among
/// or around them.
pub open spec fn is_number(s: Text) -> bool {
    &&& text::all_digits(before_point(s))
    &&& text::all_digits(after_point(s))
    &&& before_point(s).len() + after_point(s).len() > 0
}

/// The power of two of a unit, in capitals.
pub open spec fn unit_power(u: Text) -> Option<nat> {
    if u == ""@ || u == "G"@ || u == "GB"@ || u == "GIB"@ {
        Some(30)
    } else if u == "M"@ || u == "MB"@ || u == "MIB"@ {
        Some(20)
    } else if u == "T"@ || u == "TB"@ || u == "TIB"@ {
        Some(40)
    } else if u == "K"@ || u == "KB"@ || u == "KIB"@ {
        Some(10)
    } else if u == "B"@ {
        Some(0)
    } else {
        None
    }
}

/// The bytes that a decimal number of units of `2^k` bytes is, whole.
pub open spec fn bytes_of(number: Text, k: nat) -> nat {
    round::whole(
        num::value(before_point(number) + after_point(number)) * pow2(k),
        round::ten(after_point(number).len()),
    )
}

/// The number of a size and its unit.
pub open spec fn number_of(t: Text) -> Text {
    t.take(number_len(t) as int)
}

pub open spec fn unit_of(t: Text) -> Text {
    if number_len(t) == t.len() {
        "G"@
    } else {
        t.skip(number_len(t) as int)
    }
}

/// What a text says of a size: the bytes, or why not.
pub open spec fn parsed(s: Text) -> Result<nat, Text> {
    let t = text::trimmed(s);
    if t.len() == 0 {
        Err("empty size"@)
    } else if !is_number(number_of(t)) {
        Err("bad size '"@ + t + "'"@)
    } else {
        match unit_power(text::uppered(text::trimmed(unit_of(t)))) {
            None => Err("bad size unit in '"@ + t + "'"@),
            Some(k) => {
                let b = bytes_of(number_of(t), k);
                if b == 0 {
                    Err("size '"@ + t + "' is zero"@)
                } else if b > u64::MAX {
                    Ok(u64::MAX as nat)
                } else {
                    Ok(b)
                }
            },
        }
    }
}

/// The digits of a text as numbers.
pub open spec fn digits(s: Text) -> Seq<u8> {
    s.map_values(|c: char| (c as nat - 48) as u8)
}

proof fn lemma_split(a: Text, f: Text)
    requires
        text::all_digits(f),
    ensures
        round::decimal(digits(f)),
        num::value(a + f) == num::value(a) * round::ten(f.len()) + round::spelled(digits(f)),
    decreases f.len(),
{
    if f.len() == 0 {
        round::lemma_ten(0);
        assert(a + f =~= a);
        assert(num::value(a) * 1 == num::value(a));
    } else {
        let c = f[0];
        let g = f.skip(1);
        let b = a.push(c);
        let v = (c as nat - 48) as nat;
        assert(text::is_digit(f[0]));
        assert forall|i: int| 0 <= i < g.len() implies text::is_digit(#[trigger] g[i]) by {
            assert(text::is_digit(f[i + 1]));
        }
        lemma_split(b, g);
        assert(a + f =~= b + g);
        assert(b.drop_last() =~= a);
        round::lemma_ten(g.len());
        assert(digits(f).skip(1) =~= digits(g));
        assert(digits(f)[0] == v);
        assert forall|i: int| 0 <= i < digits(f).len() implies #[trigger] digits(f)[i] < 10 by {
            assert(text::is_digit(f[i]));
        }
        assert((num::value(a) * 10 + v) * round::ten(g.len()) == num::value(a) * (10 * round::ten(
            g.len(),
        )) + v * round::ten(g.len())) by (nonlinear_arith);
    }
}

fn count_numeric(cs: &Vec<char>) -> (r: usize)
    ensures
        r == number_len(cs@),
        r <= cs@.len(),
{
    let mut i: usize = 0;
    assert(cs@.skip(0) =~= cs@);
    while i < cs.len() && (text::digit(cs[i]) || cs[i] == '.')
        invariant
            i <= cs@.len(),
            number_len(cs@) == i + number_len(cs@.skip(i as int)),
        decreases cs@.len() - i,
    {
        assert(cs@.skip(i as int).skip(1) =~= cs@.skip(i + 1));
        i = i + 1;
    }
    i
}

fn power_of(unit: &str) -> (r: Option<u32>)
    ensures
        match r {
            Some(k) => unit_power(unit@) == Some(k as nat) && k <= 40,
            None => unit_power(unit@) is None,
        },
{
    if text::same(unit, "") || text::same(unit, "G") || text::same(unit, "GB") || text::same(
        unit,
        "GIB",
    ) {
        Some(30)
    } else if text::same(unit, "M") || text::same(unit, "MB") || text::same(unit, "MIB") {
        Some(20)
    } else if text::same(unit, "T") || text::same(unit, "TB") || text::same(unit, "TIB") {
        Some(40)
    } else if text::same(unit, "K") || text::same(unit, "KB") || text::same(unit, "KIB") {
        Some(10)
    } else if text::same(unit, "B") {
        Some(0)
    } else {
        None
    }
}

fn digit_values(s: &str) -> (r: Vec<u8>)
    requires
        text::all_digits(s@),
    ensures
        r@ == digits(s@),
{
    let cs = text::chars(s);
    let mut out: Vec<u8> = Vec::new();
    for i in 0..cs.len()
        invariant
            cs@ == s@,
            text::all_digits(s@),
            out@ == digits(s@).take(i as int),
    {
        assert(text::is_digit(s@[i as int]));
        out.push((cs[i] as u32 - 48) as u8);
        assert(digits(s@).take(i + 1) =~= digits(s@).take(i as int).push(digits(s@)[i as int]));
    }
    assert(digits(s@).take(s@.len() as int) =~= digits(s@));
    out
}

/// The bytes of a number of units, whole; `u64::MAX` for what is beyond.
fn bytes(number: &str, k: u32) -> (r: u64)
    requires
        is_number(number@),
        k <= 40,
    ensures
        r as nat == (if bytes_of(number@, k as nat) > u64::MAX {
            u64::MAX as nat
        } else {
            bytes_of(number@, k as nat)
        }),
{
    let cs = text::chars(number);
    let dot = text::find(&cs, '.');
    let before = text::part(&cs, 0, dot);
    let after = if dot < cs.len() {
        text::part(&cs, dot + 1, cs.len())
    } else {
        String::new()
    };
    assert(before@ =~= before_point(number@));
    assert(after@ =~= after_point(number@));
    let ghost d = round::ten(after@.len());
    let ghost n = num::value(before@ + after@) * pow2(k as nat);
    proof {
        lemma_split(before@, after@);
        round::lemma_ten(after@.len());
        lemma_pow2_pos(k as nat);
    }
    let units: u64 = if text::empty(before.as_str()) {
        0
    } else {
        match num::parse(before.as_str(), u64::MAX) {
            Some(u) => u,
            None => {
                proof {
                    let v = num::value(before@);
                    assert(text::is_digit(before@[0]));
                    assert(v >= 0x1_0000_0000_0000_0000);
                    assert(n >= 0x1_0000_0000_0000_0000 * d) by (nonlinear_arith)
                        requires
                            n == (v * d + round::spelled(digits(after@))) * pow2(k as nat),
                            v >= 0x1_0000_0000_0000_0000,
                            pow2(k as nat) >= 1,
                            d > 0,
                    ;
                    round::lemma_huge(n, d);
                }
                return u64::MAX;
            },
        }
    };
    assert(units == num::value(before@)) by {
        if before@.len() > 0 {
            assert(text::is_digit(before@[0]));
        }
    }
    match round::nearest(units, digit_values(after.as_str()), k) {
        Some(v) => if v > u64::MAX as u128 {
            u64::MAX
        } else {
            v as u64
        },
        None => {
            proof {
                round::lemma_huge(n, d);
            }
            u64::MAX
        },
    }
}

// ---------------------------------------------------------------------------
// Printing.

/// The size with the largest unit that divides it, or in bytes.
pub open spec fn shown(b: nat) -> Text {
    if b >= TIB && b % (TIB as nat) == 0 {
        num::dec(b / (TIB as nat)) + "T"@
    } else if b >= GIB && b % (GIB as nat) == 0 {
        num::dec(b / (GIB as nat)) + "G"@
    } else if b >= MIB && b % (MIB as nat) == 0 {
        num::dec(b / (MIB as nat)) + "M"@
    } else if b >= KIB && b % (KIB as nat) == 0 {
        num::dec(b / (KIB as nat)) + "K"@
    } else {
        num::dec(b)
    }
}

/// The number of bytes as floating point holds it.
pub open spec fn floated(b: nat) -> nat {
    round::whole(b, 1)
}

/// Six digits, with leading zeros.
pub open spec fn six(n: nat) -> Text {
    seq![
        num::digit_char(n / 100000 % 10),
        num::digit_char(n / 10000 % 10),
        num::digit_char(n / 1000 % 10),
        num::digit_char(n / 100 % 10),
        num::digit_char(n / 10 % 10),
        num::digit_char(n % 10),
    ]
}

/// The text without the characters `c` at its end.
pub open spec fn strip_end(s: Text, c: char) -> Text
    decreases s.len(),
{
    if s.len() > 0 && s.last() == c {
        strip_end(s.drop_last(), c)
    } else {
        s
    }
}

/// The size in GiB: whole when it is, within a byte; else with up to six
/// decimals, without zeros at the end.
pub open spec fn gib(b: nat) -> Text {
    let f = floated(b);
    let r = f % (GIB as nat);
    if r <= 1 || r >= GIB - 1 {
        num::dec(round::half_up(f, GIB as nat))
    } else {
        let micro = round::half_even(f * 1000000, GIB as nat);
        strip_end(
            strip_end(num::dec(micro / 1000000) + "."@ + six(micro % 1000000), '0'),
            '.',
        )
    }
}

/// `n` tenths, with one decimal.
pub open spec fn tenths(n: nat) -> Text {
    num::dec(n / 10) + "."@ + num::dec(n % 10)
}

/// The size in the largest unit that it reaches, with one decimal.
pub open spec fn human(b: nat) -> Text {
    let f = floated(b);
    if f >= TIB {
        tenths(round::half_even(f * 10, TIB as nat)) + "T"@
    } else if f >= GIB {
        tenths(round::half_even(f * 10, GIB as nat)) + "G"@
    } else if f >= MIB {
        tenths(round::half_even(f * 10, MIB as nat)) + "M"@
    } else if f >= KIB {
        tenths(round::half_even(f * 10, KIB as nat)) + "K"@
    } else {
        num::dec(b)
    }
}

proof fn lemma_number_len(a: Text, u: char)
    requires
        text::all_digits(a),
        !numeric(u),
    ensures
        number_len(a.push(u)) == a.len(),
    decreases a.len(),
{
    let s = a.push(u);
    if a.len() > 0 {
        assert(text::is_digit(a[0]));
        assert(s.skip(1) =~= a.skip(1).push(u));
        assert forall|i: int| 0 <= i < a.skip(1).len() implies text::is_digit(
            #[trigger] a.skip(1)[i],
        ) by {
            assert(text::is_digit(a[i + 1]));
        }
        lemma_number_len(a.skip(1), u);
    }
}

proof fn lemma_reads_back(v: nat, u: char, k: nat, b: nat)
    requires
        0 < v < 0x40_0000_0000_0000,
        v < 0x20_0000_0000_0000 || v % 2 == 0,
        u == 'T' || u == 'G' || u == 'M' || u == 'K',
        unit_power(seq![u]) == Some(k),
        b == v * pow2(k),
        b <= u64::MAX,
    ensures
        parsed(num::dec(v).push(u)) == Ok::<nat, Text>(b),
{
    let a = num::dec(v);
    let t = a.push(u);
    num::law_print_parse(v);
    assert(text::is_digit(a[0]));
    assert(t[0] == a[0]);
    text::lemma_trimmed(t);
    lemma_number_len(a, u);
    assert(number_of(t) =~= a);
    assert(unit_of(t) =~= seq![u]);
    text::lemma_trimmed(seq![u]);
    assert(text::uppered(seq![u]) =~= seq![u]);
    assert forall|j: int| 0 <= j < a.len() implies a[j] != '.' by {
        assert(text::is_digit(a[j]));
    }
    text::lemma_first_is(a, '.', a.len() as int);
    assert(before_point(a) =~= a);
    assert(before_point(a) + after_point(a) =~= a);
    round::lemma_ten(0);
    if v < 0x20_0000_0000_0000 {
        round::lemma_exact(v, k);
    } else {
        round::lemma_exact(v / 2, k + 1);
        lemma_pow2_unfold(k + 1);
        assert((v / 2) * pow2(k + 1) == v * pow2(k)) by (nonlinear_arith)
            requires
                v % 2 == 0,
                pow2(k + 1) == 2 * pow2(k),
        ;
    }
    lemma_pow2_pos(k);
    assert(b > 0) by (nonlinear_arith)
        requires
            b == v * pow2(k),
            v > 0,
            pow2(k) > 0,
    ;
}

/// Whether a size has a printed form of its own: a whole number of KiB, and
/// one that 53 bits hold. A size that is no whole number of KiB is printed
/// without a unit, which reads as GiB.
pub open spec fn readable(b: nat) -> bool {
    &&& 0 < b <= u64::MAX
    &&& b % (KIB as nat) == 0
    &&& b < 0x8000_0000_0000_0000 || b % 2048 == 0
}

/// A size is read back from its printed form.
pub proof fn law_print_parse(b: nat)
    requires
        readable(b),
    ensures
        parsed(shown(b)) == Ok::<nat, Text>(b),
{
    reveal_strlit("");
    reveal_strlit("G");
    reveal_strlit("GB");
    reveal_strlit("GIB");
    reveal_strlit("M");
    reveal_strlit("MB");
    reveal_strlit("MIB");
    reveal_strlit("T");
    reveal_strlit("TB");
    reveal_strlit("TIB");
    reveal_strlit("K");
    reveal_strlit("KB");
    reveal_strlit("KIB");
    reveal_strlit("B");
    lemma2_to64();
    lemma2_to64_rest();
    assert("T"@ =~= seq!['T'] && "G"@ =~= seq!['G'] && "M"@ =~= seq!['M'] && "K"@ =~= seq!['K']);
    assert("T"@[0] == 'T' && "G"@[0] == 'G' && "M"@[0] == 'M' && "K"@[0] == 'K');
    if b >= TIB && b % (TIB as nat) == 0 {
        let v = b / (TIB as nat);
        assert(num::dec(v) + "T"@ =~= num::dec(v).push('T'));
        lemma_reads_back(v, 'T', 40, b);
    } else if b >= GIB && b % (GIB as nat) == 0 {
        let v = b / (GIB as nat);
        assert(num::dec(v) + "G"@ =~= num::dec(v).push('G'));
        lemma_reads_back(v, 'G', 30, b);
    } else if b >= MIB && b % (MIB as nat) == 0 {
        let v = b / (MIB as nat);
        assert(num::dec(v) + "M"@ =~= num::dec(v).push('M'));
        lemma_reads_back(v, 'M', 20, b);
    } else {
        let v = b / (KIB as nat);
        assert(num::dec(v) + "K"@ =~= num::dec(v).push('K'));
        lemma_reads_back(v, 'K', 10, b);
    }
}

proof fn lemma_dec_len(n: nat, k: nat)
    requires
        k >= 1,
        n < round::ten(k),
    ensures
        num::dec(n).len() <= k,
    decreases k,
{
    round::lemma_ten((k - 1) as nat);
    if n >= 10 {
        assert(k >= 2) by {
            round::lemma_ten(0);
        }
        lemma_dec_len(n / 10, (k - 1) as nat);
    }
}

/// A printed size is short, and on one line.
pub proof fn lemma_shown_short(b: nat)
    requires
        b <= u64::MAX,
    ensures
        shown(b).len() <= 21,
        forall|i: int| 0 <= i < shown(b).len() ==> ' ' <= #[trigger] shown(b)[i] <= '~',
{
    reveal_strlit("T");
    reveal_strlit("G");
    reveal_strlit("M");
    reveal_strlit("K");
    round::lemma_ten(0);
    round::lemma_ten(1);
    round::lemma_ten(2);
    round::lemma_ten(3);
    round::lemma_ten(4);
    round::lemma_ten(5);
    round::lemma_ten(6);
    round::lemma_ten(7);
    round::lemma_ten(8);
    round::lemma_ten(9);
    round::lemma_ten(10);
    round::lemma_ten(11);
    round::lemma_ten(12);
    round::lemma_ten(13);
    round::lemma_ten(14);
    round::lemma_ten(15);
    round::lemma_ten(16);
    round::lemma_ten(17);
    round::lemma_ten(18);
    round::lemma_ten(19);
    assert(round::ten(20) == 100_000_000_000_000_000_000nat);
    let n = if b >= TIB && b % (TIB as nat) == 0 {
        b / (TIB as nat)
    } else if b >= GIB && b % (GIB as nat) == 0 {
        b / (GIB as nat)
    } else if b >= MIB && b % (MIB as nat) == 0 {
        b / (MIB as nat)
    } else if b >= KIB && b % (KIB as nat) == 0 {
        b / (KIB as nat)
    } else {
        b
    };
    lemma_dec_len(n, 20);
    num::law_print_parse(n);
    assert forall|i: int| 0 <= i < shown(b).len() implies ' ' <= #[trigger] shown(b)[i] <= '~' by {
        if i < num::dec(n).len() {
            assert(shown(b)[i] == num::dec(n)[i]);
            assert(text::is_digit(num::dec(n)[i]));
        }
    }
}

fn float(b: u64) -> (r: u128)
    ensures
        r == floated(b as nat),
        r <= 0x1_0000_0000_0000_0000,
{
    let none: Vec<u8> = Vec::new();
    proof {
        round::lemma_ten(0);
        lemma2_to64();
        assert((b * 1 + 0) as nat * pow2(0) == b) by (nonlinear_arith)
            requires
                pow2(0) == 1,
        ;
    }
    match round::nearest(b, none, 0) {
        Some(v) => v,
        None => 0,
    }
}

fn half_even(n: u128, d: u128) -> (r: u128)
    requires
        0 < d <= 0x1_0000_0000_0000,
        n <= 0x1000_0000_0000_0000_0000_0000,
    ensures
        r == round::half_even(n as nat, d as nat),
        r <= n + 1,
{
    let q: u128 = n / d;
    let r: u128 = n % d;
    proof {
        lemma_div_is_ordered_by_denominator(n as int, 1, d as int);
        assert(n as int / 1 == n);
    }
    if 2 * r > d || (2 * r == d && q % 2 == 1) {
        q + 1
    } else {
        q
    }
}

/// The text without the characters `c` at its end.
pub fn strip(s: String, c: char) -> (r: String)
    ensures
        r@ == strip_end(s@, c),
{
    let cs = text::chars(s.as_str());
    let mut to: usize = cs.len();
    assert(cs@.take(to as int) =~= s@);
    while to > 0 && cs[to - 1] == c
        invariant
            to <= cs@.len(),
            strip_end(s@, c) == strip_end(cs@.take(to as int), c),
        decreases to,
    {
        assert(cs@.take(to as int).drop_last() =~= cs@.take(to - 1));
        to = to - 1;
    }
    let r = text::part(&cs, 0, to);
    assert(r@ =~= cs@.take(to as int));
    r
}

fn print_six(n: u64) -> (r: String)
    requires
        n < 1000000,
    ensures
        r@ == six(n as nat),
{
    let mut s = String::new();
    s.push(num::digit_of(n / 100000 % 10));
    s.push(num::digit_of(n / 10000 % 10));
    s.push(num::digit_of(n / 1000 % 10));
    s.push(num::digit_of(n / 100 % 10));
    s.push(num::digit_of(n / 10 % 10));
    s.push(num::digit_of(n % 10));
    assert(s@ =~= six(n as nat));
    s
}

fn print_tenths(f: u128, unit: u64, name: &str) -> (r: String)
    requires
        unit == KIB || unit == MIB || unit == GIB || unit == TIB,
        f <= 0x1_0000_0000_0000_0000,
    ensures
        r@ == tenths(round::half_even((f * 10) as nat, unit as nat)) + name@,
{
    let n = half_even(f * 10, unit as u128);
    proof {
        assert(n <= 0x1000_0000_0000_0000) by {
            lemma_div_is_ordered_by_denominator((f * 10) as int, 1024, unit as int);
            assert((f * 10) / 1024 <= 0x300_0000_0000_0000);
        }
    }
    let n = n as u64;
    text::cat4(num::print(n / 10).as_str(), ".", num::print(n % 10).as_str(), name)
}

impl Size {
    pub fn bytes(self) -> (r: u64)
        ensures
            r == self.0,
    {
        self.0
    }

    /// What a text says of a size.
    pub fn parse(s: &str) -> (r: Result<Size, Error>)
        ensures
            match r {
                Ok(z) => parsed(s@) == Ok::<nat, Text>(z@) && z@ > 0,
                Err(e) => parsed(s@) is Err && e@ == seq![parsed(s@)->Err_0],
            },
    {
        let t = text::trim(s);
        let cs = text::chars(t.as_str());
        if cs.len() == 0 {
            return Err(Error::msg("empty size"));
        }
        let i = count_numeric(&cs);
        let number = text::part(&cs, 0, i);
        assert(number@ =~= number_of(t@));
        let unit = if i == cs.len() {
            "G".to_owned()
        } else {
            text::part(&cs, i, cs.len())
        };
        assert(unit@ =~= unit_of(t@));
        let ns = text::chars(number.as_str());
        let dot = text::find(&ns, '.');
        let before = text::part(&ns, 0, dot);
        let after = if dot < ns.len() {
            text::part(&ns, dot + 1, ns.len())
        } else {
            String::new()
        };
        assert(before@ =~= before_point(number@));
        assert(after@ =~= after_point(number@));
        if !text::digits(before.as_str()) || !text::digits(after.as_str()) || (text::empty(
            before.as_str(),
        ) && text::empty(after.as_str())) {
            return Err(Error::new(text::cat3("bad size '", t.as_str(), "'")));
        }
        let unit = text::upper_case(text::trim(unit.as_str()).as_str());
        match power_of(unit.as_str()) {
            None => Err(Error::new(text::cat3("bad size unit in '", t.as_str(), "'"))),
            Some(k) => {
                let b = bytes(number.as_str(), k);
                if b == 0 {
                    Err(Error::new(text::cat3("size '", t.as_str(), "' is zero")))
                } else {
                    Ok(Size(b))
                }
            },
        }
    }

    /// The size with the largest unit that divides it.
    pub fn to_string(self) -> (r: String)
        ensures
            r@ == shown(self@),
    {
        let b = self.0;
        if b >= TIB && b % TIB == 0 {
            text::cat(num::print(b / TIB).as_str(), "T")
        } else if b >= GIB && b % GIB == 0 {
            text::cat(num::print(b / GIB).as_str(), "G")
        } else if b >= MIB && b % MIB == 0 {
            text::cat(num::print(b / MIB).as_str(), "M")
        } else if b >= KIB && b % KIB == 0 {
            text::cat(num::print(b / KIB).as_str(), "K")
        } else {
            num::print(b)
        }
    }

    /// The size as `pct set` wants it in `storage:<size>`: GiB, fractional
    /// when needed, with no trailing zeros (`0.5`, `20`).
    pub fn to_pct_gib(self) -> (r: String)
        ensures
            r@ == gib(self@),
    {
        let f = float(self.0);
        let r: u128 = f % (GIB as u128);
        if r <= 1 || r >= (GIB - 1) as u128 {
            let x: u128 = 2 * f + GIB as u128;
            let n: u128 = x / (2 * GIB as u128);
            assert(x / 0x8000_0000u128 <= 0x10_0000_0000u128) by (nonlinear_arith)
                requires
                    x < 0x8_0000_0000_0000_0000u128,
            ;
            num::print(n as u64)
        } else {
            let micro = half_even(f * 1000000, GIB as u128);
            proof {
                assert(micro <= 0x1000_0000_0000_0000) by {
                    assert((f * 1000000) / (GIB as int) <= 0x800_0000_0000_0000);
                }
            }
            let micro = micro as u64;
            let s = text::cat3(
                num::print(micro / 1000000).as_str(),
                ".",
                print_six(micro % 1000000).as_str(),
            );
            strip(strip(s, '0'), '.')
        }
    }

    /// The size as `pct resize` wants it: an absolute size with a unit.
    pub fn to_pct_resize(self) -> (r: String)
        ensures
            r@ == shown(self@),
    {
        self.to_string()
    }

    /// For a human: the largest unit that fits, one decimal (`14.2G`).
    pub fn human(self) -> (r: String)
        ensures
            r@ == human(self@),
    {
        let f = float(self.0);
        if f >= TIB as u128 {
            print_tenths(f, TIB, "T")
        } else if f >= GIB as u128 {
            print_tenths(f, GIB, "G")
        } else if f >= MIB as u128 {
            print_tenths(f, MIB, "M")
        } else if f >= KIB as u128 {
            print_tenths(f, KIB, "K")
        } else {
            num::print(self.0)
        }
    }
}

impl std::str::FromStr for Size {
    type Err = Error;

    fn from_str(s: &str) -> Result<Size, Error> {
        Size::parse(s)
    }
}

} // verus!
