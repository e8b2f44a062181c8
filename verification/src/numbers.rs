//! Numbers for eyes: rounding as double-precision arithmetic rounds, in integers.

use vstd::prelude::*;
use vstd::string::*;
use crate::text::{decimal, push_decimal};

verus! {

/// `a / b` to the nearest integer, ties to even.
pub open spec fn half_even(a: nat, b: nat) -> nat {
    let q = a / b;
    let r = a % b;
    if 2 * r < b || (2 * r == b && q % 2 == 0) {
        q
    } else {
        q + 1
    }
}

/// A quotient is rounded to the nearest integer: it is off by half at most, and of two as near the
/// even one is taken.
pub proof fn law_rounding_is_to_the_nearest(a: nat, b: nat)
    requires
        b > 0,
    ensures
        2 * (half_even(a, b) * b) <= 2 * a + b,
        2 * a <= 2 * (half_even(a, b) * b) + b,
        2 * (half_even(a, b) * b) == 2 * a + b || 2 * a == 2 * (half_even(a, b) * b) + b ==> half_even(
            a,
            b,
        ) % 2 == 0,
        a % b == 0 ==> half_even(a, b) * b == a,
{
    let q = a / b;
    let r = a % b;
    assert(a == q * b + r) by (nonlinear_arith)
        requires
            q == a / b,
            r == a % b,
            b > 0,
    ;
    assert((q + 1) * b == q * b + b) by (nonlinear_arith);
}

/// How far apart the double-precision numbers around `n` are.
pub open spec fn spacing(n: nat) -> nat
    decreases n,
{
    if n < 0x20000000000000 {
        1
    } else {
        2 * spacing(n / 2)
    }
}

/// The double-precision number nearest to `n`, ties to even: `n` itself below 2^53.
pub open spec fn nearest_double(n: nat) -> nat {
    half_even(n, spacing(n)) * spacing(n)
}

/// A number that double precision holds exactly is not changed.
pub proof fn law_small_numbers_are_exact(n: nat)
    requires
        n < 0x20000000000000,
    ensures
        nearest_double(n) == n,
{
    law_rounding_is_to_the_nearest(n, 1);
    assert(half_even(n, 1) == n);
}

/// `a / b` with one decimal, ties to even.
pub open spec fn one_decimal(a: nat, b: nat) -> Seq<char> {
    let t = half_even(a * 10, b);
    decimal(t / 10) + "."@ + decimal(t % 10)
}

/// A whole number of tenths is shown as it is.
pub proof fn law_whole_tenths_are_shown(t: nat, b: nat)
    requires
        b > 0,
    ensures
        one_decimal(t * b, 10 * b) == decimal(t / 10) + "."@ + decimal(t % 10),
{
    law_rounding_is_to_the_nearest(t * b * 10, 10 * b);
    assert(t * b * 10 == t * (10 * b)) by (nonlinear_arith);
    assert((t * (10 * b)) % (10 * b) == 0) by (nonlinear_arith)
        requires
            b > 0,
    ;
    let h = half_even(t * b * 10, 10 * b);
    assert(h * (10 * b) == t * (10 * b));
    assert(h == t) by (nonlinear_arith)
        requires
            h * (10 * b) == t * (10 * b),
            b > 0,
    ;
}

/// `a / b` to the nearest integer, ties to even.
pub fn divide_half_even(a: u128, b: u128) -> (r: u128)
    requires
        0 < b < 0x1000_0000_0000_0000_0000_0000_0000_0000,
        a < 0x1000_0000_0000_0000_0000_0000_0000_0000,
    ensures
        r == half_even(a as nat, b as nat),
        a / b <= r <= a / b + 1,
        r <= a + 1,
{
    let q: u128 = a / b;
    let m: u128 = a % b;
    proof {
        assert(q <= a) by (nonlinear_arith)
            requires
                q == a / b,
                b > 0,
        ;
    }
    if 2 * m < b || (2 * m == b && q % 2 == 0) {
        q
    } else {
        q + 1
    }
}

proof fn lemma_spacing_bound(n: nat)
    ensures
        spacing(n) == 1 || spacing(n) * 0x10000000000000 <= n,
        spacing(n) >= 1,
    decreases n,
{
    if n >= 0x20000000000000 {
        lemma_spacing_bound(n / 2);
    }
}

/// How far apart the double-precision numbers around `n` are.
fn spacing_of(n: u64) -> (r: u64)
    ensures
        r == spacing(n as nat),
        1 <= r <= 4096,
    decreases n,
{
    proof {
        lemma_spacing_bound(n as nat);
    }
    if n < 0x20000000000000 {
        1
    } else {
        2 * spacing_of(n / 2)
    }
}

/// The double-precision number nearest to `n`.
pub fn to_double(n: u64) -> (r: u128)
    ensures
        r == nearest_double(n as nat),
        r <= n + 4096,
        n <= r + 4096,
        n < 0x20000000000000 ==> r == n,
{
    let unit: u64 = spacing_of(n);
    let q: u128 = divide_half_even(n as u128, unit as u128);
    proof {
        let down = n as int / unit as int;
        assert(down * unit <= n < down * unit + unit) by (nonlinear_arith)
            requires
                down == n as int / unit as int,
                unit > 0,
        ;
        assert(down * unit <= q * unit <= down * unit + unit) by (nonlinear_arith)
            requires
                down <= q <= down + 1,
                unit > 0,
        ;
    }
    q * (unit as u128)
}

/// Append `a / b` with one decimal.
pub fn push_one_decimal(out: &mut String, a: u128, b: u128)
    requires
        0 < b < 0x1_0000_0000_0000_0000,
        a <= 0x1_0000_0000_0000_0000_0000,
    ensures
        final(out)@ == old(out)@ + one_decimal(a as nat, b as nat),
{
    let t: u128 = divide_half_even(a * 10, b);
    push_decimal(out, t / 10);
    out.append(".");
    push_decimal(out, t % 10);
    assert(out@ =~= old(out)@ + one_decimal(a as nat, b as nat));
}

/// `a / b` with one decimal, ties to even, and without the decimal where it is zero.
pub open spec fn short_decimal(a: nat, b: nat) -> Seq<char> {
    let t = half_even(a * 10, b);
    if t % 10 == 0 {
        decimal(t / 10)
    } else {
        decimal(t / 10) + "."@ + decimal(t % 10)
    }
}

/// Append `a / b` with one decimal, or none where it is zero.
pub fn push_short_decimal(out: &mut String, a: u128, b: u128)
    requires
        0 < b < 0x1_0000_0000_0000_0000,
        a <= 0x1_0000_0000_0000_0000_0000,
    ensures
        final(out)@ == old(out)@ + short_decimal(a as nat, b as nat),
{
    let t: u128 = divide_half_even(a * 10, b);
    push_decimal(out, t / 10);
    if t % 10 != 0 {
        out.append(".");
        push_decimal(out, t % 10);
    }
    assert(out@ =~= old(out)@ + short_decimal(a as nat, b as nat));
}

/// The double-precision number nearest to the fraction `a / b`, as a fraction: 53 significant
/// bits, ties to even.
pub open spec fn nearest_quotient(a: nat, b: nat) -> (nat, nat)
    decreases
            if a < b * 0x10000000000000 {
                b * 0x10000000000000 - a
            } else {
                0
            },
{
    if a == 0 || b == 0 {
        (0, 1)
    } else if a < b * 0x10000000000000 {
        let (m, d) = nearest_quotient(2 * a, b);
        (m, 2 * d)
    } else {
        let unit = spacing(a / b);
        (half_even(a, b * unit) * unit, 1)
    }
}

/// The double-precision number nearest to a fraction that is at least one.
pub fn divide_double(a: u128, b: u128) -> (r: (u128, u128))
    requires
        1000 <= b < 0x8000_0000_0000_0000,
        b <= a <= 0x2_0000_0000_0000_0000,
    ensures
        (r.0 as nat, r.1 as nat) == nearest_quotient(a as nat, b as nat),
        1 <= r.1 < 0x20000000000000,
        r.0 <= 0x1_0000_0000_0000_0000,
{
    let mut x: u128 = a;
    let mut d: u128 = 1;
    while x < b * 0x10000000000000
        invariant
            1000 <= b < 0x8000_0000_0000_0000,
            b <= a <= 0x2_0000_0000_0000_0000,
            1 <= d < 0x20000000000000,
            x == a * d,
            x < b * 0x20000000000000 || d == 1,
            nearest_quotient(a as nat, b as nat) == ({
                let (m, e) = nearest_quotient(x as nat, b as nat);
                (m, e * d as nat)
            }),
        decreases
                if x < b * 0x10000000000000 {
                    b * 0x10000000000000 - x
                } else {
                    0
                },
    {
        proof {
            assert(d < 0x10000000000000) by (nonlinear_arith)
                requires
                    x == a * d,
                    x < b * 0x10000000000000,
                    b <= a,
            ;
            assert(2 * x == a * (2 * d)) by (nonlinear_arith)
                requires
                    x == a * d,
            ;
            let (m, e) = nearest_quotient((2 * x) as nat, b as nat);
            assert((2 * e) * d as nat == e * (2 * d) as nat) by (nonlinear_arith);
            assert(x > 0) by (nonlinear_arith)
                requires
                    x == a * d,
                    a > 0,
                    d > 0,
            ;
        }
        x = 2 * x;
        d = 2 * d;
    }
    proof {
        assert(x < 0x1000_0000_0000_0000_0000_0000_0000_0000) by (nonlinear_arith)
            requires
                x < b * 0x20000000000000 || (d == 1 && x == a * d),
                b < 0x8000_0000_0000_0000,
                a <= 0x2_0000_0000_0000_0000,
        ;
        assert(x > 0) by (nonlinear_arith)
            requires
                x == a * d,
                a > 0,
                d > 0,
        ;
    }
    let q: u128 = x / b;
    proof {
        assert(q < 0x100_0000_0000_0000) by (nonlinear_arith)
            requires
                q == x / b,
                x < b * 0x20000000000000 || (d == 1 && x == a * d),
                a <= 0x2_0000_0000_0000_0000,
                b >= 1000,
        ;
    }
    let unit: u64 = spacing_of(q as u64);
    proof {
        lemma_spacing_bound(q as nat);
        assert(b * unit < 0x1000_0000_0000_0000_0000_0000_0000_0000) by (nonlinear_arith)
            requires
                b < 0x8000_0000_0000_0000,
                unit <= 4096,
        ;
        assert(b * unit > 0) by (nonlinear_arith)
            requires
                b > 0,
                unit > 0,
        ;
    }
    let m: u128 = divide_half_even(x, b * (unit as u128));
    proof {
        assert(m <= x as int / (b * unit) + 1);
        assert(x as int / (b * unit) <= q) by (nonlinear_arith)
            requires
                q == x / b,
                b > 0,
                unit >= 1,
                b * unit > 0,
        ;
        assert(m * unit <= 0x1_0000_0000_0000_0000) by (nonlinear_arith)
            requires
                m <= q + 1,
                q < 0x100_0000_0000_0000,
                unit == 1 || unit * 0x10000000000000 <= q,
        ;
    }
    let whole: u128 = m * (unit as u128);
    (whole, d)
}

} // verus!
