//! Decimal fractions times a power of two, rounded the way binary floating
//! point rounds them: to the nearest number with a significand of 53 bits,
//! and from there to a whole number.

use vstd::arithmetic::div_mod::*;
use vstd::arithmetic::mul::*;
use vstd::arithmetic::power::*;
use vstd::arithmetic::power2::*;
use vstd::prelude::*;

verus! {

/// `n / d` to the nearest whole number, a tie to the even one.
pub open spec fn half_even(n: nat, d: nat) -> nat {
    let q = n / d;
    let r = n % d;
    if 2 * r > d || (2 * r == d && q % 2 == 1) {
        q + 1
    } else {
        q
    }
}

/// `n / d` to the nearest whole number, a tie to the greater one.
pub open spec fn half_up(n: nat, d: nat) -> nat {
    (2 * n + d) / (2 * d)
}

/// The numerator of `n / d` times two to the power `s`.
pub open spec fn top(n: nat, s: int) -> nat {
    if s >= 0 {
        n * pow2(s as nat)
    } else {
        n
    }
}

/// The denominator of `n / d` times two to the power `s`.
pub open spec fn bottom(d: nat, s: int) -> nat {
    if s >= 0 {
        d
    } else {
        d * pow2((-s) as nat)
    }
}

/// Whether `n / d` times two to the power `s` has 53 bits before the point.
pub open spec fn fits(n: nat, d: nat, s: int) -> bool {
    0x10_0000_0000_0000 * bottom(d, s) <= top(n, s) < 0x20_0000_0000_0000 * bottom(d, s)
}

/// The power of two that brings `n / d` to 53 bits before the point.
pub open spec fn shift(n: nat, d: nat) -> int {
    choose|s: int| fits(n, d, s)
}

/// The significand of the number nearest to `n / d` that has one of 53 bits.
pub open spec fn significand(n: nat, d: nat) -> nat {
    half_even(top(n, shift(n, d)), bottom(d, shift(n, d)))
}

/// That number, to the nearest whole one, a tie to the greater.
pub open spec fn whole(n: nat, d: nat) -> nat {
    let s = shift(n, d);
    if n == 0 {
        0
    } else if s > 0 {
        half_up(significand(n, d), pow2(s as nat))
    } else {
        significand(n, d) * pow2((-s) as nat)
    }
}

proof fn lemma_half_even_scales(n: nat, d: nat, c: nat)
    requires
        d > 0,
        c > 0,
    ensures
        half_even(n * c, d * c) == half_even(n, d),
{
    let q = n / d;
    let r = n % d;
    assert(n == q * d + r && 0 <= r < d) by {
        lemma_fundamental_div_mod(n as int, d as int);
        lemma_mul_is_commutative(q as int, d as int);
    }
    assert(d * c > 0 && n * c == q * (d * c) + r * c && 0 <= r * c < d * c) by (nonlinear_arith)
        requires
            n == q * d + r,
            0 <= r < d,
            c > 0,
            d > 0,
            q >= 0,
    ;
    lemma_fundamental_div_mod_converse((n * c) as int, (d * c) as int, q as int, (r * c) as int);
    assert((2 * (r * c) > d * c) == (2 * r > d)) by (nonlinear_arith)
        requires
            c > 0,
    ;
    assert((2 * (r * c) == d * c) == (2 * r == d)) by (nonlinear_arith)
        requires
            c > 0,
    ;
}

/// A finer scale cannot fit as well: the power of two is the only one.
proof fn lemma_fits_once(n: nat, d: nat, s: int, t: int)
    requires
        d > 0,
        fits(n, d, s),
        fits(n, d, t),
    ensures
        s == t,
{
    if s < t {
        lemma_fits_apart(n, d, s, t);
    } else if t < s {
        lemma_fits_apart(n, d, t, s);
    }
}

proof fn lemma_fits_apart(n: nat, d: nat, s: int, t: int)
    requires
        d > 0,
        fits(n, d, s),
        s < t,
    ensures
        !fits(n, d, t),
{
    let k = (t - s) as nat;
    lemma_pow2_pos(k);
    assert(pow2(k) >= 2) by {
        lemma_pow2_unfold(k);
        lemma_pow2_pos((k - 1) as nat);
    }
    // n 2^t / d is at least twice n 2^s / d, compared crosswise.
    let a = top(n, s);
    let b = bottom(d, s);
    let x = top(n, t);
    let y = bottom(d, t);
    assert(x * b == a * y * pow2(k)) by {
        if s >= 0 {
            lemma_pow2_adds(s as nat, k);
            assert((n * (pow2(s as nat) * pow2(k))) * d == n * pow2(s as nat) * d * pow2(k))
                by (nonlinear_arith);
        } else if t >= 0 {
            lemma_pow2_adds((-s) as nat, t as nat);
            assert((n * pow2(t as nat)) * (d * pow2((-s) as nat)) == n * d * (pow2((-s) as nat)
                * pow2(t as nat))) by (nonlinear_arith);
        } else {
            lemma_pow2_adds((-t) as nat, k);
            assert(n * (d * (pow2((-t) as nat) * pow2(k))) == n * (d * pow2((-t) as nat)) * pow2(k))
                by (nonlinear_arith);
        }
    }
    assert(b > 0 && y > 0) by {
        lemma_pow2_pos((-s) as nat);
        lemma_pow2_pos((-t) as nat);
        assert(d * pow2((-s) as nat) > 0) by (nonlinear_arith)
            requires
                d > 0,
                pow2((-s) as nat) > 0,
        ;
        assert(d * pow2((-t) as nat) > 0) by (nonlinear_arith)
            requires
                d > 0,
                pow2((-t) as nat) > 0,
        ;
    }
    let h: nat = 0x10_0000_0000_0000;
    assert(x * b >= h * b * y * 2) by (nonlinear_arith)
        requires
            x * b == a * y * pow2(k),
            a >= h * b,
            pow2(k) >= 2,
            y > 0,
            b > 0,
            h > 0,
    ;
    assert(x >= 2 * h * y) by (nonlinear_arith)
        requires
            x * b >= h * b * y * 2,
            b > 0,
    ;
}

/// What the first bits of `n / d` say of its significand: `acc` is the whole
/// part of `n 2^s / d`, `theta / d` what is left of it, and `x` its first 53
/// bits.
proof fn lemma_significand(
    n: nat,
    d: nat,
    s: nat,
    t: nat,
    acc: nat,
    theta: nat,
    x: nat,
    rem: nat,
    half: nat,
)
    requires
        d > 0,
        n * pow2(s) == acc * d + theta,
        theta < d,
        acc == x * pow2(t) + rem,
        rem < pow2(t),
        2 * half == pow2(t),
        0x10_0000_0000_0000 <= x < 0x20_0000_0000_0000,
    ensures
        shift(n, d) == s - t,
        significand(n, d) == x + (if rem > half || (rem == half && (theta > 0 || x % 2 == 1)) {
            1nat
        } else {
            0nat
        }),
{
    let p = pow2(t);
    let h: nat = 0x10_0000_0000_0000;
    let z = s - t;
    let a = top(n, z);
    let b = bottom(d, z);
    let c: nat = if z >= 0 {
        p
    } else {
        pow2(s)
    };
    lemma_pow2_pos(t);
    lemma_pow2_pos(s);
    lemma_pow2_pos((-z) as nat);
    assert(a * c == n * pow2(s) && b * c == d * p) by {
        if z >= 0 {
            lemma_pow2_adds(z as nat, t);
            assert(n * pow2(z as nat) * p == n * (pow2(z as nat) * p)) by (nonlinear_arith);
        } else {
            lemma_pow2_adds((-z) as nat, s);
            assert(d * pow2((-z) as nat) * pow2(s) == d * (pow2((-z) as nat) * pow2(s)))
                by (nonlinear_arith);
        }
    }
    assert(b > 0) by (nonlinear_arith)
        requires
            b * c == d * p,
            d > 0,
            p > 0,
            b >= 0,
    ;
    assert(h * (d * p) <= acc * d + theta < 2 * h * (d * p)) by (nonlinear_arith)
        requires
            acc == x * p + rem,
            rem < p,
            h <= x,
            x + 1 <= 2 * h,
            theta < d,
            d > 0,
            p > 0,
            theta >= 0,
            rem >= 0,
    ;
    assert(h * b <= a < 2 * h * b) by (nonlinear_arith)
        requires
            a * c == acc * d + theta,
            b * c == d * p,
            h * (d * p) <= acc * d + theta < 2 * h * (d * p),
            c > 0,
    ;
    assert(fits(n, d, z));
    lemma_fits_once(n, d, z, shift(n, d));
    lemma_half_even_scales(a, b, c);
    let r = rem * d + theta;
    assert(acc * d + theta == x * (d * p) + r && 0 <= r < d * p) by (nonlinear_arith)
        requires
            acc == x * p + rem,
            r == rem * d + theta,
            rem + 1 <= p,
            theta < d,
            rem >= 0,
            theta >= 0,
            d > 0,
    ;
    assert(d * p > 0) by (nonlinear_arith)
        requires
            d > 0,
            p > 0,
    ;
    lemma_fundamental_div_mod_converse(
        (acc * d + theta) as int,
        (d * p) as int,
        x as int,
        r as int,
    );
    assert(2 * r > d * p <==> rem > half || (rem == half && theta > 0)) by (nonlinear_arith)
        requires
            r == rem * d + theta,
            p == 2 * half,
            theta < d,
            d > 0,
            theta >= 0,
    ;
    assert(2 * r == d * p <==> rem == half && theta == 0) by (nonlinear_arith)
        requires
            r == rem * d + theta,
            p == 2 * half,
            theta < d,
            d > 0,
            theta >= 0,
    ;
}

proof fn lemma_fits_up(n: nat, d: nat, s: nat)
    requires
        n > 0,
        d > 0,
        n * pow2(s) < 0x20_0000_0000_0000 * d,
    ensures
        exists|z: int| fits(n, d, z),
    decreases 0x20_0000_0000_0000 * d - n * pow2(s),
{
    if n * pow2(s) >= 0x10_0000_0000_0000 * d {
        assert(fits(n, d, s as int));
    } else {
        lemma_pow2_unfold(s + 1);
        lemma_pow2_pos(s);
        assert(n * pow2(s + 1) == 2 * (n * pow2(s))) by (nonlinear_arith)
            requires
                pow2(s + 1) == 2 * pow2(s),
        ;
        assert(n * pow2(s) > 0) by (nonlinear_arith)
            requires
                n > 0,
                pow2(s) > 0,
        ;
        lemma_fits_up(n, d, s + 1);
    }
}

proof fn lemma_fits_down(n: nat, d: nat, j: nat)
    requires
        d > 0,
        n >= 0x10_0000_0000_0000 * (d * pow2(j)),
    ensures
        exists|z: int| fits(n, d, z),
    decreases n - d * pow2(j),
{
    lemma_pow2_pos(j);
    if n < 0x20_0000_0000_0000 * (d * pow2(j)) {
        if j == 0 {
            lemma2_to64();
            assert(d * pow2(0) == d) by (nonlinear_arith)
                requires
                    pow2(0) == 1,
            ;
            assert(n * pow2(0) == n) by (nonlinear_arith)
                requires
                    pow2(0) == 1,
            ;
        }
        assert(fits(n, d, -(j as int)));
    } else {
        lemma_pow2_unfold(j + 1);
        assert(d * pow2(j + 1) == 2 * (d * pow2(j))) by (nonlinear_arith)
            requires
                pow2(j + 1) == 2 * pow2(j),
        ;
        assert(d * pow2(j) > 0) by (nonlinear_arith)
            requires
                d > 0,
                pow2(j) > 0,
        ;
        lemma_fits_down(n, d, j + 1);
    }
}

/// What is far below one half rounds to nothing.
proof fn lemma_tiny(n: nat, d: nat, acc: nat, theta: nat)
    requires
        d > 0,
        n * pow2(60) == acc * d + theta,
        theta < d,
        acc < 0x80_0000_0000_0000,
    ensures
        whole(n, d) == 0,
{
    if n > 0 {
        lemma2_to64();
        lemma2_to64_rest();
        assert(n * pow2(60) < 0x80_0000_0000_0000 * d) by (nonlinear_arith)
            requires
                n * pow2(60) == acc * d + theta,
                theta < d,
                acc + 1 <= 0x80_0000_0000_0000,
        ;
        assert(n * pow2(0) < 0x20_0000_0000_0000 * d) by (nonlinear_arith)
            requires
                n * pow2(60) < 0x80_0000_0000_0000 * d,
                pow2(0) == 1,
                pow2(60) == 0x1000_0000_0000_0000,
                n > 0,
        ;
        lemma_fits_up(n, d, 0);
        let z = shift(n, d);
        assert(fits(n, d, z));
        let h: nat = 0x10_0000_0000_0000;
        assert(z >= 58) by {
            if 0 <= z && z < 58 {
                if z < 57 {
                    lemma_pow2_strictly_increases(z as nat, 57);
                }
                assert(false) by (nonlinear_arith)
                    requires
                        n * pow2(z as nat) >= h * d,
                        pow2(z as nat) <= 0x200_0000_0000_0000,
                        n * pow2(60) < 0x80_0000_0000_0000 * d,
                        pow2(60) == 0x1000_0000_0000_0000,
                        h == 0x10_0000_0000_0000,
                        n > 0,
                        d > 0,
                ;
            } else if z < 0 {
                lemma_pow2_pos((-z) as nat);
                assert(false) by (nonlinear_arith)
                    requires
                        n >= h * (d * pow2((-z) as nat)),
                        pow2((-z) as nat) >= 1,
                        n * pow2(60) < 0x80_0000_0000_0000 * d,
                        pow2(60) == 0x1000_0000_0000_0000,
                        h == 0x10_0000_0000_0000,
                        n > 0,
                        d > 0,
                ;
            }
        }
        let q = significand(n, d);
        assert(q <= 2 * h) by {
            let a = top(n, z);
            assert(a / d < 2 * h) by {
                lemma_fundamental_div_mod(a as int, d as int);
                lemma_mod_bound(a as int, d as int);
                assert(a / d < 2 * h) by (nonlinear_arith)
                    requires
                        a == d * (a / d) + a % d,
                        a % d >= 0,
                        a < 2 * h * d,
                        d > 0,
                ;
            }
        }
        if z > 58 {
            lemma_pow2_strictly_increases(58, z as nat);
        }
        let w = pow2(z as nat);
        assert((2 * q + w) / (2 * w) == 0) by {
            lemma_basic_div((2 * q + w) as int, (2 * w) as int);
        }
    }
}

/// What is beyond 64 bits stays beyond them.
pub proof fn lemma_huge(n: nat, d: nat)
    requires
        d > 0,
        n >= 0x1_0000_0000_0000_0000 * d,
    ensures
        whole(n, d) >= 0x1_0000_0000_0000_0000,
{
    lemma2_to64();
    let h: nat = 0x10_0000_0000_0000;
    assert(d * pow2(0) == d) by (nonlinear_arith)
        requires
            pow2(0) == 1,
    ;
    lemma_fits_down(n, d, 0);
    let z = shift(n, d);
    assert(fits(n, d, z));
    assert(z <= -12) by {
        if z >= 0 {
            lemma_pow2_pos(z as nat);
            assert(false) by (nonlinear_arith)
                requires
                    n * pow2(z as nat) < 2 * h * d,
                    n >= 0x1_0000_0000_0000_0000 * d,
                    pow2(z as nat) >= 1,
                    h == 0x10_0000_0000_0000,
                    d > 0,
            ;
        } else if -12 < z {
            let j = (-z) as nat;
            lemma_pow2_strictly_increases(j, 12);
            assert(false) by (nonlinear_arith)
                requires
                    n < 2 * h * (d * pow2(j)),
                    pow2(j) <= 0x800,
                    n >= 0x1_0000_0000_0000_0000 * d,
                    h == 0x10_0000_0000_0000,
                    d > 0,
            ;
        }
    }
    let j = (-z) as nat;
    let b = d * pow2(j);
    lemma_pow2_pos(j);
    assert(b > 0) by (nonlinear_arith)
        requires
            b == d * pow2(j),
            d > 0,
            pow2(j) > 0,
    ;
    assert(n / b >= h) by {
        lemma_fundamental_div_mod(n as int, b as int);
        lemma_mod_bound(n as int, b as int);
        assert(n / b >= h) by (nonlinear_arith)
            requires
                n == b * (n / b) + n % b,
                n % b < b,
                n >= h * b,
                b > 0,
        ;
    }
    if j > 12 {
        lemma_pow2_strictly_increases(12, j);
    }
    let q = significand(n, d);
    assert(q * pow2(j) >= 0x1_0000_0000_0000_0000) by (nonlinear_arith)
        requires
            q >= h,
            pow2(j) >= 0x1000,
            h == 0x10_0000_0000_0000,
    ;
}

/// A number with a significand of 53 bits is itself.
pub proof fn lemma_exact(v: nat, k: nat)
    requires
        0 < v < 0x20_0000_0000_0000,
    ensures
        whole(v * pow2(k), 1) == v * pow2(k),
{
    let n = v * pow2(k);
    let h: nat = 0x10_0000_0000_0000;
    lemma_pow2_pos(k);
    lemma2_to64();
    assert(n > 0) by (nonlinear_arith)
        requires
            n == v * pow2(k),
            v > 0,
            pow2(k) > 0,
    ;
    if n < 2 * h {
        assert(n * pow2(0) == n) by (nonlinear_arith)
            requires
                pow2(0) == 1,
        ;
        lemma_fits_up(n, 1, 0);
    } else {
        lemma_fits_down(n, 1, 0);
    }
    let z = shift(n, 1);
    assert(fits(n, 1, z));
    if z >= 0 {
        let p = pow2(z as nat);
        lemma_pow2_pos(z as nat);
        let q = n * p;
        assert(q / 1 == q && q % 1 == 0);
        assert(significand(n, 1) == q);
        if z > 0 {
            assert(2 * q + p == (2 * p) * n + p) by (nonlinear_arith)
                requires
                    q == n * p,
            ;
            lemma_fundamental_div_mod_converse(
                (2 * q + p) as int,
                (2 * p) as int,
                n as int,
                p as int,
            );
        } else {
            assert(n * 1 * 1 == n);
        }
    } else {
        let j = (-z) as nat;
        let b = pow2(j);
        lemma_pow2_pos(j);
        assert(1 * b == b);
        assert(j <= k) by {
            if j > k {
                lemma_pow2_unfold(j);
                if j - 1 > k {
                    lemma_pow2_strictly_increases(k, (j - 1) as nat);
                }
                assert(false) by (nonlinear_arith)
                    requires
                        h * b <= n,
                        n == v * pow2(k),
                        v < 2 * h,
                        b >= 2 * pow2(k),
                        pow2(k) > 0,
                ;
            }
        }
        let q = v * pow2((k - j) as nat);
        lemma_pow2_adds((k - j) as nat, j);
        assert(n == q * b) by (nonlinear_arith)
            requires
                n == v * pow2(k),
                q == v * pow2((k - j) as nat),
                pow2((k - j) as nat) * b == pow2(k),
        ;
        lemma_fundamental_div_mod_converse(n as int, b as int, q as int, 0);
        assert(significand(n, 1) == q);
    }
}

// ---------------------------------------------------------------------------
// Computing it.

/// Ten to a power.
pub open spec fn ten(m: nat) -> nat {
    pow(10, m) as nat
}

/// The number that decimal digits spell.
pub open spec fn spelled(f: Seq<u8>) -> nat
    decreases f.len(),
{
    if f.len() == 0 {
        0
    } else {
        f[0] as nat * ten((f.len() - 1) as nat) + spelled(f.skip(1))
    }
}

pub open spec fn decimal(f: Seq<u8>) -> bool {
    forall|i: int| 0 <= i < f.len() ==> #[trigger] f[i] < 10
}

pub proof fn lemma_ten(m: nat)
    ensures
        ten(m) > 0,
        ten(0) == 1,
        ten(m + 1) == 10 * ten(m),
{
    lemma_pow_positive(10, m);
    lemma_pow_positive(10, m + 1);
    lemma_pow0(10);
    reveal(pow);
}

proof fn lemma_spelled_bound(f: Seq<u8>)
    requires
        decimal(f),
    ensures
        spelled(f) < ten(f.len()),
    decreases f.len(),
{
    lemma_ten(0);
    if f.len() > 0 {
        let m = (f.len() - 1) as nat;
        lemma_ten(m);
        lemma_spelled_bound(f.skip(1));
        let x = f[0] as nat;
        assert(x * ten(m) <= 9 * ten(m)) by (nonlinear_arith)
            requires
                x <= 9,
        ;
    }
}

proof fn lemma_spelled_zero(f: Seq<u8>)
    ensures
        spelled(f) == 0 <==> (forall|i: int| 0 <= i < f.len() ==> #[trigger] f[i] == 0),
    decreases f.len(),
{
    if f.len() > 0 {
        let m = (f.len() - 1) as nat;
        let g = f.skip(1);
        lemma_ten(m);
        lemma_spelled_zero(g);
        let x = f[0] as nat;
        assert(x * ten(m) == 0 <==> x == 0) by (nonlinear_arith)
            requires
                ten(m) > 0,
        ;
        assert forall|i: int| 0 <= i < f.len() && spelled(f) == 0 implies #[trigger] f[i] == 0 by {
            if i > 0 {
                assert(g[i - 1] == 0);
            }
        }
        assert(forall|i: int| 0 <= i < g.len() ==> #[trigger] g[i] == f[i + 1]);
    }
}

/// The fraction doubled; whether a one went over the point.
fn double(f: &mut Vec<u8>) -> (carry: bool)
    requires
        decimal(old(f)@),
    ensures
        decimal(final(f)@),
        final(f)@.len() == old(f)@.len(),
        2 * spelled(old(f)@) == spelled(final(f)@) + (if carry {
            ten(old(f)@.len())
        } else {
            0
        }),
{
    let ghost was = f@;
    let m = f.len();
    let mut i: usize = m;
    let mut carry: bool = false;
    assert(was.skip(m as int) =~= Seq::empty());
    assert(f@.skip(m as int) =~= Seq::empty());
    while i > 0
        invariant
            i <= m,
            f@.len() == m == was.len(),
            decimal(was),
            decimal(f@),
            f@.take(i as int) == was.take(i as int),
            2 * spelled(was.skip(i as int)) == spelled(f@.skip(i as int)) + (if carry {
                ten((m - i) as nat)
            } else {
                0
            }),
        decreases i,
    {
        let ghost before = f@;
        let ghost c: nat = if carry {
            1
        } else {
            0
        };
        i = i - 1;
        assert(f@.take(i + 1)[i as int] == was.take(i + 1)[i as int]);
        let x: u8 = 2 * f[i] + (if carry {
            1
        } else {
            0
        });
        let digit: u8 = if x >= 10 {
            x - 10
        } else {
            x
        };
        carry = x >= 10;
        f.set(i, digit);
        proof {
            let k = (m - i - 1) as nat;
            lemma_ten(k);
            assert(was.skip(i as int).skip(1) =~= was.skip(i + 1));
            assert(f@.skip(i as int).skip(1) =~= before.skip(i + 1));
            assert(f@.take(i as int) =~= was.take(i as int)) by {
                assert(f@.take(i as int) =~= before.take(i + 1).take(i as int));
                assert(was.take(i as int) =~= was.take(i + 1).take(i as int));
            }
            let a = was[i as int] as nat;
            let b = digit as nat;
            let o: nat = if carry {
                10
            } else {
                0
            };
            assert(2 * (a * ten(k)) + c * ten(k) == b * ten(k) + o * ten(k)) by (nonlinear_arith)
                requires
                    2 * a + c == b + o,
            ;
            assert(c * ten(k) == (if c == 1 {
                ten(k)
            } else {
                0
            })) by (nonlinear_arith)
                requires
                    c == 0 || c == 1,
            ;
            assert(o * ten(k) == (if o == 10 {
                10 * ten(k)
            } else {
                0
            })) by (nonlinear_arith)
                requires
                    o == 0 || o == 10,
            ;
        }
    }
    assert(was.skip(0) =~= was);
    assert(f@.skip(0) =~= f@);
    carry
}

fn nonzero(f: &Vec<u8>) -> (r: bool)
    ensures
        r == (spelled(f@) > 0),
{
    proof {
        lemma_spelled_zero(f@);
    }
    for i in 0..f.len()
        invariant
            spelled(f@) == 0 <==> (forall|j: int| 0 <= j < f@.len() ==> #[trigger] f@[j] == 0),
            forall|j: int| 0 <= j < i ==> #[trigger] f@[j] == 0,
    {
        if f[i] != 0 {
            return true;
        }
    }
    false
}

/// `whole` of the number that `units` and the digits after its point spell,
/// times two to the power `k`; nothing where that is beyond 64 bits.
pub fn nearest(units: u64, frac: Vec<u8>, k: u32) -> (r: Option<u128>)
    requires
        decimal(frac@),
        k <= 40,
    ensures
        ({
            let d = ten(frac@.len());
            let n = (units * d + spelled(frac@)) as nat * pow2(k as nat);
            match r {
                Some(v) => v == whole(n, d) && v <= 0x1_0000_0000_0000_0000,
                None => n >= 0x1_0000_0000_0000_0000 * d,
            }
        }),
{
    let ghost d = ten(frac@.len());
    let ghost n0 = (units * d + spelled(frac@)) as nat;
    let ghost n = n0 * pow2(k as nat);
    let ghost m = frac@.len();
    proof {
        lemma2_to64();
        lemma2_to64_rest();
        lemma_ten(frac@.len());
        lemma_spelled_bound(frac@);
        assert(n0 * pow2(0) == n0) by (nonlinear_arith)
            requires
                pow2(0) == 1,
        ;
    }
    let mut f = frac;
    let mut acc: u128 = units as u128;
    for i in 0..k
        invariant
            k <= 40,
            d == ten(m),
            d > 0,
            f@.len() == m,
            decimal(f@),
            acc < 0x1_0000_0000_0000_0000 * pow2(i as nat),
            n0 * pow2(i as nat) == acc * d + spelled(f@),
    {
        let ghost a = acc as nat;
        let ghost g = spelled(f@);
        proof {
            lemma2_to64();
            lemma_pow2_unfold((i + 1) as nat);
            if i < 40 {
                lemma_pow2_strictly_increases(i as nat, 40);
            }
            lemma2_to64_rest();
        }
        let carry = double(&mut f);
        acc = 2 * acc + (if carry {
            1
        } else {
            0
        });
        assert(n0 * pow2((i + 1) as nat) == acc * d + spelled(f@)) by (nonlinear_arith)
            requires
                n0 * pow2(i as nat) == a * d + g,
                pow2((i + 1) as nat) == 2 * pow2(i as nat),
                2 * g == spelled(f@) + (if carry {
                    d
                } else {
                    0
                }),
                acc == 2 * a + (if carry {
                    1int
                } else {
                    0int
                }),
        ;
    }
    if acc >= 0x1_0000_0000_0000_0000 {
        proof {
            lemma_spelled_bound(f@);
            assert(n >= 0x1_0000_0000_0000_0000 * d) by (nonlinear_arith)
                requires
                    n == acc * d + spelled(f@),
                    acc >= 0x1_0000_0000_0000_0000,
                    d > 0,
                    spelled(f@) >= 0,
            ;
        }
        return None;
    }
    let mut s: u32 = 0;
    assert(n * pow2(0) == n) by (nonlinear_arith)
        requires
            pow2(0) == 1,
    ;
    while acc < 0x80_0000_0000_0000 && s < 60
        invariant
            s <= 60,
            d == ten(m),
            d > 0,
            f@.len() == m,
            decimal(f@),
            acc < 0x1_0000_0000_0000_0000,
            n * pow2(s as nat) == acc * d + spelled(f@),
            s > 0 ==> acc < 0x100_0000_0000_0000,
        decreases 60 - s,
    {
        let ghost a = acc as nat;
        let ghost g = spelled(f@);
        let carry = double(&mut f);
        acc = 2 * acc + (if carry {
            1
        } else {
            0
        });
        s = s + 1;
        proof {
            lemma_pow2_unfold(s as nat);
            assert(n * pow2(s as nat) == acc * d + spelled(f@)) by (nonlinear_arith)
                requires
                    n * pow2((s - 1) as nat) == a * d + g,
                    pow2(s as nat) == 2 * pow2((s - 1) as nat),
                    2 * g == spelled(f@) + (if carry {
                        d
                    } else {
                        0
                    }),
                    acc == 2 * a + (if carry {
                        1int
                    } else {
                        0int
                    }),
            ;
        }
    }
    proof {
        lemma_spelled_bound(f@);
    }
    if acc < 0x80_0000_0000_0000 {
        proof {
            lemma_tiny(n, d, acc as nat, spelled(f@));
        }
        return Some(0);
    }
    let sticky = nonzero(&f);
    // The first 53 bits, and what is behind them.
    let mut x: u64 = acc as u64;
    let mut p: u64 = 1;
    let mut t: u32 = 0;
    let mut rem: u64 = 0;
    let whole_acc: u64 = acc as u64;
    while x >= 0x20_0000_0000_0000
        invariant
            t <= 11,
            p == pow2(t as nat),
            x >= 0x10_0000_0000_0000,
            whole_acc == x * p + rem,
            rem < p,
            x < 0x20_0000_0000_0000 ==> t >= 1,
            t == 0 ==> x >= 0x80_0000_0000_0000,
            x as nat * pow2(t as nat) <= whole_acc,
            whole_acc <= u64::MAX,
        decreases x,
    {
        let ghost x0 = x as nat;
        let ghost p0 = p as nat;
        let ghost rem0 = rem as nat;
        proof {
            lemma2_to64();
            assert(t < 11) by {
                if t == 11 {
                    assert(x0 * p0 >= 0x1_0000_0000_0000_0000) by (nonlinear_arith)
                        requires
                            x0 >= 0x20_0000_0000_0000,
                            p0 == 0x800,
                    ;
                }
            }
            if t < 11 {
                lemma_pow2_strictly_increases(t as nat, 11);
            }
            lemma_pow2_unfold((t + 1) as nat);
        }
        let odd: u64 = x % 2;
        assert(odd * p <= p) by (nonlinear_arith)
            requires
                odd <= 1,
                p >= 0,
        ;
        rem = rem + odd * p;
        x = x / 2;
        p = p * 2;
        t = t + 1;
        proof {
            assert(x0 == 2 * (x as nat) + odd);
            assert(whole_acc == x * p + rem) by (nonlinear_arith)
                requires
                    whole_acc == x0 * p0 + rem0,
                    x0 == 2 * (x as nat) + odd,
                    p == p0 * 2,
                    rem == rem0 + odd * p0,
            ;
            assert(rem < p) by (nonlinear_arith)
                requires
                    rem == rem0 + odd * p0,
                    rem0 < p0,
                    odd <= 1,
                    p == p0 * 2,
            ;
        }
    }
    let half: u64 = p / 2;
    proof {
        lemma_pow2_unfold(t as nat);
        assert(2 * half == p);
        assert(x as nat * pow2(t as nat) + rem as nat == acc);
        lemma_significand(
            n,
            d,
            s as nat,
            t as nat,
            acc as nat,
            spelled(f@),
            x as nat,
            rem as nat,
            half as nat,
        );
    }
    let q: u64 = x + (if rem > half || (rem == half && (sticky || x % 2 == 1)) {
        1
    } else {
        0
    });
    assert(n > 0) by {
        if n == 0 {
            assert(0 * pow2(s as nat) == 0);
            assert(acc * d > 0) by (nonlinear_arith)
                requires
                    acc > 0,
                    d > 0,
            ;
        }
    }
    assert(q == significand(n, d));
    if s > t {
        let z: u32 = s - t;
        proof {
            lemma_pow2_strictly_increases(0, z as nat);
            lemma2_to64_rest();
            if z < 60 {
                lemma_pow2_strictly_increases(z as nat, 60);
            }
        }
        let w = power(z);
        let r: u128 = (2 * q as u128 + w as u128) / (2 * w as u128);
        proof {
            assert(r <= 2 * q + w);
        }
        Some(r)
    } else {
        let z: u32 = t - s;
        proof {
            lemma2_to64();
            if z < 11 {
                lemma_pow2_strictly_increases(z as nat, 11);
            }
        }
        let w = power(z);
        assert(q * w <= 0x1_0000_0000_0000_0000) by (nonlinear_arith)
            requires
                q <= 0x20_0000_0000_0000,
                w <= 0x800,
        ;
        Some(q as u128 * w as u128)
    }
}

/// Two to a power below 64.
fn power(e: u32) -> (r: u64)
    requires
        e < 64,
    ensures
        r == pow2(e as nat),
{
    let mut p: u64 = 1;
    proof {
        lemma2_to64();
    }
    for i in 0..e
        invariant
            e < 64,
            p == pow2(i as nat),
    {
        proof {
            lemma_pow2_unfold((i + 1) as nat);
            lemma2_to64_rest();
            if i + 1 < 63 {
                lemma_pow2_strictly_increases((i + 1) as nat, 63);
            }
        }
        p = p * 2;
    }
    p
}

} // verus!
