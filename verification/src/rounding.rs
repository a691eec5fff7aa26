//! What rounding to doubles promises: the nearest double is chosen, what is a
//! double already stays, and order is kept.

use crate::double::{
    leq, lemma_nearest_exists, lemma_nearest_is, lemma_next, lemma_units_increase, lemma_units_zero,
    nearest, scale, significand, units, whole, BINADE, INFINITE, SIGN, UNIT_POWER,
};
use vstd::arithmetic::power2::{lemma2_to64, lemma_pow2_adds, lemma_pow2_pos, pow2};
use vstd::prelude::*;

verus! {

/// How far `a` and `b` are apart.
pub open spec fn apart(a: nat, b: nat) -> int {
    if a < b {
        b - a
    } else {
        a - b
    }
}

/// The number `n`, counted in units.
pub open spec fn in_units(n: nat) -> nat {
    n * pow2(UNIT_POWER as nat)
}

/// No double is closer to `n / d` than the one it is rounded to. Infinity
/// stands for the double that would come after the largest one.
pub proof fn law_nearest_is_closest(n: nat, d: nat, j: nat)
    requires
        d > 0,
        j <= INFINITE,
    ensures
        apart(in_units(n), units(nearest(n, d)) * d) <= apart(
            in_units(n),
            units(j) * d,
        ),
{
    let k = nearest(n, d);
    lemma_nearest_exists(n, d);
    let x = in_units(n);
    assert(2 * n * pow2(UNIT_POWER as nat) == 2 * x) by (nonlinear_arith)
        requires
            x == n * pow2(UNIT_POWER as nat),
    ;
    if j > k {
        lemma_units_increase(k, j);
        if k + 1 < j {
            lemma_units_increase(k + 1, j);
        }
        let (a, b, c) = (units(k), units(k + 1), units(j));
        assert((a + b) * d <= a * d + c * d && a * d < c * d) by (nonlinear_arith)
            requires
                b <= c,
                a < c,
                d > 0,
        ;
    } else if j < k {
        lemma_units_increase(j, k);
        if j < k - 1 {
            lemma_units_increase(j, (k - 1) as nat);
        }
        let (a, b, c) = (units((k - 1) as nat), units(k), units(j));
        assert((a + b) * d >= b * d + c * d && c * d < b * d) by (nonlinear_arith)
            requires
                a >= c,
                c < b,
                d > 0,
        ;
    }
}

/// A number that is a double is rounded to itself.
pub proof fn law_doubles_are_kept(n: nat, d: nat, k: nat)
    requires
        d > 0,
        k < INFINITE,
        in_units(n) == units(k) * d,
    ensures
        nearest(n, d) == k,
{
    let x = in_units(n);
    assert(2 * n * pow2(UNIT_POWER as nat) == 2 * x) by (nonlinear_arith)
        requires
            x == n * pow2(UNIT_POWER as nat),
    ;
    lemma_next(k);
    let (a, b) = (units(k), units(k + 1));
    assert(2 * (a * d) < (a + b) * d) by (nonlinear_arith)
        requires
            a < b,
            d > 0,
    ;
    if k > 0 {
        lemma_next((k - 1) as nat);
        let c = units((k - 1) as nat);
        assert((c + a) * d < 2 * (a * d)) by (nonlinear_arith)
            requires
                c < a,
                d > 0,
        ;
    }
    lemma_nearest_is(n, d, k);
}

/// Rounding keeps order: the smaller of two numbers is not rounded to the
/// larger double.
pub proof fn law_rounding_keeps_order(n: nat, d: nat, m: nat, e: nat)
    requires
        d > 0,
        e > 0,
        n * e <= m * d,
    ensures
        nearest(n, d) <= nearest(m, e),
{
    let j = nearest(n, d);
    let k = nearest(m, e);
    lemma_nearest_exists(n, d);
    lemma_nearest_exists(m, e);
    if j > k {
        // The number n / d lies past the middle above k, and m / e does not.
        let u = pow2(UNIT_POWER as nat);
        lemma_pow2_pos(UNIT_POWER as nat);
        let i = (j - 1) as nat;
        let (a, b) = (units(k) + units(k + 1), units(i) + units(i + 1));
        if k < i {
            lemma_units_increase(k, i);
            lemma_units_increase(k + 1, i + 1);
        }
        let (x, y) = (2 * n * u, 2 * m * u);
        // b * d <= x, y <= a * e and x * e <= y * d.
        assert(x * e <= y * d) by (nonlinear_arith)
            requires
                n * e <= m * d,
                x == 2 * n * u,
                y == 2 * m * u,
                u > 0,
        ;
        assert((b * d) * e <= x * e) by (nonlinear_arith)
            requires
                b * d <= x,
                e > 0,
        ;
        assert(y * d <= (a * e) * d) by (nonlinear_arith)
            requires
                y <= a * e,
                d > 0,
        ;
        assert((a * e) * d == a * (d * e) && (b * d) * e == b * (d * e)) by (nonlinear_arith);
        let de = d * e;
        assert(de > 0) by (nonlinear_arith)
            requires
                de == d * e,
                d > 0,
                e > 0,
        ;
        if k < i {
            assert(a * de < b * de) by (nonlinear_arith)
                requires
                    a < b,
                    de > 0,
            ;
        } else {
            // The same middle: both numbers lie on it, and it is decided the
            // same way for both.
            if x > b * d {
                assert(x * e > (b * d) * e) by (nonlinear_arith)
                    requires
                        x > b * d,
                        e > 0,
                ;
            }
            if y < a * e {
                assert(y * d < (a * e) * d) by (nonlinear_arith)
                    requires
                        y < a * e,
                        d > 0,
                ;
            }
        }
    }
}

/// Brings the significand of a whole number to full width.
proof fn lemma_normal(v: nat, m: nat, e: nat) -> (k: nat)
    requires
        0 < m < 2 * BINADE,
        e <= 53,
        m >= 1,
        m == v * pow2(e),
        m * pow2((53 - e) as nat) >= BINADE,
    ensures
        BINADE <= k < INFINITE,
        units(k) == in_units(v),
    decreases 2 * BINADE - m,
{
    lemma2_to64();
    let b = BINADE as nat;
    if m >= b {
        let s = (UNIT_POWER - e) as nat;
        let k = ((s + 1) * b + (m - b)) as nat;
        assert((s + 1) * b + (m - b) == (m - b) + b * (s + 1)) by (nonlinear_arith);
        vstd::arithmetic::div_mod::lemma_fundamental_div_mod_converse(
            k as int,
            b as int,
            (s + 1) as int,
            m - b,
        );
        assert(k >= b) by (nonlinear_arith)
            requires
                k == (s + 1) * b + (m - b),
                m >= b,
                b > 0,
        ;
        assert(k < INFINITE) by (nonlinear_arith)
            requires
                k == (s + 1) * b + (m - b),
                m < 2 * b,
                s <= 1074,
                b == 0x10_0000_0000_0000nat,
                INFINITE == 0x7ff0_0000_0000_0000u64,
        ;
        assert(significand(k) == m && scale(k) == s);
        lemma_pow2_adds(e, s);
        assert((v * pow2(e)) * pow2(s) == v * (pow2(e) * pow2(s))) by (nonlinear_arith);
        k
    } else {
        lemma_pow2_adds(e, 1);
        if e >= 53 {
            assert(pow2(0) == 1);
            assert(m * 1 == m);
            assert(false);
        }
        lemma_pow2_adds(1, (53 - e - 1) as nat);
        let (p, q) = (pow2(e), pow2((53 - e - 1) as nat));
        assert(2 * m == v * (p * 2)) by (nonlinear_arith)
            requires
                m == v * p,
        ;
        assert((2 * m) * q == m * (2 * q)) by (nonlinear_arith);
        lemma_normal(v, 2 * m, e + 1)
    }
}

/// A whole number of at most 53 bits is a double.
pub proof fn law_whole_numbers_are_kept(v: nat)
    requires
        v < 2 * BINADE,
    ensures
        !whole(v as int).is_nan(),
        !whole(v as int).negative(),
        whole(v as int).number() == in_units(v),
        nearest(v, 1) < INFINITE,
{
    lemma2_to64();
    let k = if v == 0 {
        lemma_units_zero(0);
        assert(in_units(0) == 0) by (nonlinear_arith)
            requires
                in_units(0) == 0 * pow2(UNIT_POWER as nat),
        ;
        0nat
    } else {
        lemma_pow2_adds(32, 21);
        assert(v * pow2(0) == v);
        assert(v * pow2(53) >= BINADE) by (nonlinear_arith)
            requires
                v >= 1,
                pow2(53) == 0x20_0000_0000_0000nat,
                BINADE == 0x10_0000_0000_0000u64,
        ;
        lemma_normal(v, v, 0)
    };
    law_doubles_are_kept(v, 1, k);
    assert(k % (SIGN as nat) == k) by (nonlinear_arith)
        requires
            k < INFINITE,
            INFINITE < SIGN,
    ;
}

/// Whole numbers of at most 53 bits compare as doubles as they do as integers.
pub proof fn law_whole_numbers_compare(a: nat, b: nat)
    requires
        a < 2 * BINADE,
        b < 2 * BINADE,
    ensures
        leq(whole(a as int), whole(b as int)) <==> a <= b,
{
    law_whole_numbers_are_kept(a);
    law_whole_numbers_are_kept(b);
    let u = pow2(UNIT_POWER as nat);
    lemma_pow2_pos(UNIT_POWER as nat);
    if a <= b {
        assert(a * u <= b * u) by (nonlinear_arith)
            requires
                a <= b,
                u > 0,
        ;
    } else {
        assert(a * u > b * u) by (nonlinear_arith)
            requires
                a > b,
                u > 0,
        ;
    }
}

/// Half-way between two doubles the one with the even magnitude is chosen.
pub proof fn law_ties_go_to_even(n: nat, d: nat, j: nat)
    requires
        d > 0,
        j <= INFINITE,
        j != nearest(n, d),
        apart(in_units(n), units(j) * d) == apart(in_units(n), units(nearest(n, d)) * d),
    ensures
        nearest(n, d) % 2 == 0,
{
    let k = nearest(n, d);
    lemma_nearest_exists(n, d);
    let x = in_units(n);
    assert(2 * n * pow2(UNIT_POWER as nat) == 2 * x) by (nonlinear_arith)
        requires
            x == n * pow2(UNIT_POWER as nat),
    ;
    if j > k {
        lemma_units_increase(k, j);
        let (a, b, c) = (units(k), units(k + 1), units(j));
        assert((a + b) * d == a * d + b * d && a * d < c * d) by (nonlinear_arith)
            requires
                a < c,
                d > 0,
        ;
        if k + 1 < j {
            lemma_units_increase(k + 1, j);
            assert(b * d < c * d) by (nonlinear_arith)
                requires
                    b < c,
                    d > 0,
            ;
        }
    } else {
        lemma_units_increase(j, k);
        let (a, b, c) = (units((k - 1) as nat), units(k), units(j));
        assert((a + b) * d == a * d + b * d && c * d < b * d) by (nonlinear_arith)
            requires
                c < b,
                d > 0,
        ;
        if j < k - 1 {
            lemma_units_increase(j, (k - 1) as nat);
            assert(c * d < a * d) by (nonlinear_arith)
                requires
                    c < a,
                    d > 0,
            ;
        }
    }
}

} // verus!
