//! What doubles promise as numbers: how they are ordered, that sums, products
//! and quotients are rounded correctly, and that decimal notation is read and
//! written correctly.

use crate::double::{
    leq, lemma_nearest_exists, lemma_units_increase, lemma_units_zero, nearest, product, quotient,
    scale, significand, sum, units, whole, with_sign, zero, Double, BINADE, INFINITE, SIGN,
    UNIT_POWER,
};
use crate::literal::{
    after_digits, cut, digit_run, half_even, last_digits, leading_digits, literal, lower, pointed,
    spells, tenfold,
};
use crate::numeral::{all_digits, decimal, digit_char, digits_value, is_digit, lemma_decimal};
use crate::procfs::{percentage, seconds, swap_rates, Psi, VmStat};
use crate::rounding::{
    apart, in_units, law_doubles_are_kept, law_nearest_is_closest, law_rounding_keeps_order,
    law_whole_numbers_are_kept,
};
use vstd::arithmetic::div_mod::{lemma_fundamental_div_mod, lemma_fundamental_div_mod_converse};
use vstd::arithmetic::power2::{lemma2_to64, lemma_pow2_adds, lemma_pow2_pos, pow2};
use vstd::prelude::*;

verus! {

/// The doubles, counted in units: up to the second power of two with full
/// precision each magnitude is its own number, and beyond that a number doubles
/// from one range between powers of two to the next.
pub proof fn law_units(k: nat)
    ensures
        k < 2 * BINADE ==> units(k) == k,
        k >= BINADE ==> units(k + BINADE as nat) == 2 * units(k),
{
    let b = BINADE as nat;
    lemma2_to64();
    if k < b {
        assert(k * pow2(0) == k);
    } else {
        if k < 2 * b {
            lemma_fundamental_div_mod_converse(k as int, b as int, 1, k - b);
            assert(significand(k) == k && scale(k) == 0);
            assert(k * pow2(0) == k);
        }
        lemma_fundamental_div_mod(k as int, b as int);
        let (q, r) = (k / b, k % b);
        assert(k + b == b * (q + 1) + r) by (nonlinear_arith)
            requires
                k == b * q + r,
        ;
        lemma_fundamental_div_mod_converse((k + b) as int, b as int, (q + 1) as int, r as int);
        assert(q >= 1) by (nonlinear_arith)
            requires
                k == b * q + r,
                k >= b,
                r < b,
        ;
        let m = significand(k);
        lemma_pow2_adds(scale(k), 1);
        let p = pow2(scale(k));
        assert(m * (p * 2) == 2 * (m * p)) by (nonlinear_arith);
    }
}

/// Comparing goes by the bits: without a sign more bits are more, with a sign
/// they are less; zero is the same with and without a sign, and what is not a
/// number compares with nothing.
pub proof fn law_order(a: Double, b: Double, r: bool, q: bool)
    requires
        call_ensures(Double::at_most, (a, b), r),
        call_ensures(Double::at_least, (a, b), q),
    ensures
        ({
            let x = a.bits as nat % 0x8000_0000_0000_0000;
            let y = b.bits as nat % 0x8000_0000_0000_0000;
            let (minus_a, minus_b) = (a.bits >= 0x8000_0000_0000_0000, b.bits
                >= 0x8000_0000_0000_0000);
            let numbers = x <= 0x7ff0_0000_0000_0000 && y <= 0x7ff0_0000_0000_0000;
            &&& !numbers ==> !r && !q
            &&& numbers && !minus_a && !minus_b ==> r == (x <= y) && q == (x >= y)
            &&& numbers && minus_a && minus_b ==> r == (x >= y) && q == (x <= y)
            &&& numbers && minus_a && !minus_b ==> r && q == (x == 0 && y == 0)
            &&& numbers && !minus_a && minus_b ==> q && r == (x == 0 && y == 0)
        }),
{
    let (x, y) = (a.magnitude(), b.magnitude());
    lemma_units_zero(x);
    lemma_units_zero(y);
    if x < y {
        lemma_units_increase(x, y);
    } else if y < x {
        lemma_units_increase(y, x);
    }
}

proof fn lemma_plain(k: nat)
    requires
        k <= INFINITE,
    ensures
        with_sign(false, k).magnitude() == k,
        !with_sign(false, k).negative(),
        !with_sign(false, k).is_nan(),
        with_sign(false, k).bits == k,
        with_sign(true, k).magnitude() == k,
        with_sign(true, k).negative(),
        with_sign(true, k).bits == k + SIGN,
{
    assert(k % (SIGN as nat) == k) by (nonlinear_arith)
        requires
            k <= INFINITE,
            INFINITE < SIGN,
    ;
    lemma_fundamental_div_mod_converse((k + SIGN) as int, SIGN as int, 1, k as int);
}

/// Whether a double is finite and not negative.
pub open spec fn is_plain(a: Double) -> bool {
    a.bits < 0x7ff0_0000_0000_0000
}

/// No double is closer to the product of two finite doubles than the result; its
/// sign is plus where the signs agree and minus where they differ.
pub proof fn law_products_are_rounded(a: Double, b: Double, r: Double, j: nat)
    requires
        call_ensures(Double::times, (a, b), r),
        a.magnitude() < INFINITE,
        b.magnitude() < INFINITE,
        j <= INFINITE,
    ensures
        r.magnitude() <= INFINITE,
        r.negative() == (a.negative() != b.negative()),
        ({
            let exact = units(a.magnitude()) * units(b.magnitude());
            let u = pow2(UNIT_POWER as nat);
            apart(exact * u, units(r.magnitude()) * (u * u)) <= apart(
                exact * u,
                units(j) * (u * u),
            )
        }),
{
    let n = units(a.magnitude()) * units(b.magnitude());
    let u = pow2(UNIT_POWER as nat);
    lemma_pow2_pos(UNIT_POWER as nat);
    assert(u * u > 0) by (nonlinear_arith)
        requires
            u > 0,
    ;
    lemma_nearest_exists(n, u * u);
    lemma_plain(nearest(n, u * u));
    law_nearest_is_closest(n, u * u, j);
}

/// No double is closer to the quotient of two finite doubles, the second of
/// which is not zero, than the result; its sign is as for a product.
pub proof fn law_quotients_are_rounded(a: Double, b: Double, r: Double, j: nat)
    requires
        call_ensures(Double::over, (a, b), r),
        a.magnitude() < INFINITE,
        0 < b.magnitude() < INFINITE,
        j <= INFINITE,
    ensures
        r.magnitude() <= INFINITE,
        r.negative() == (a.negative() != b.negative()),
        ({
            let (x, y) = (units(a.magnitude()), units(b.magnitude()));
            let u = pow2(UNIT_POWER as nat);
            apart(x * u, units(r.magnitude()) * y) <= apart(x * u, units(j) * y)
        }),
{
    let (x, y) = (units(a.magnitude()), units(b.magnitude()));
    lemma_units_zero(b.magnitude());
    lemma_nearest_exists(x, y);
    lemma_plain(nearest(x, y));
    law_nearest_is_closest(x, y, j);
}

/// No double is closer to the sum of two finite doubles that are not negative
/// than the result, which is not negative either.
pub proof fn law_sums_are_rounded(a: Double, b: Double, r: Double, j: nat)
    requires
        call_ensures(Double::plus, (a, b), r),
        is_plain(a),
        is_plain(b),
        j <= INFINITE,
    ensures
        r.magnitude() <= INFINITE,
        !r.negative(),
        ({
            let exact = units(a.magnitude()) + units(b.magnitude());
            let u = pow2(UNIT_POWER as nat);
            apart(exact * u, units(r.magnitude()) * u) <= apart(exact * u, units(j) * u)
        }),
{
    let n = units(a.magnitude()) + units(b.magnitude());
    let u = pow2(UNIT_POWER as nat);
    lemma_pow2_pos(UNIT_POWER as nat);
    lemma_nearest_exists(n, u);
    lemma_plain(nearest(n, u));
    law_nearest_is_closest(n, u, j);
}

/// Where there is no number to give, none is given: with something that is not a
/// number, with nothing times infinity, and with nothing by nothing or infinity
/// by infinity.
pub proof fn law_what_is_not_a_number(a: Double, b: Double, p: Double, q: Double)
    requires
        call_ensures(Double::times, (a, b), p),
        call_ensures(Double::over, (a, b), q),
    ensures
        ({
            let (x, y) = (a.magnitude(), b.magnitude());
            let none = x > INFINITE || y > INFINITE;
            &&& p.is_nan() <==> none || (x == 0 && y == INFINITE) || (x == INFINITE && y == 0)
            &&& q.is_nan() <==> none || (x == 0 && y == 0) || (x == INFINITE && y == INFINITE)
            &&& !p.is_nan() && (x == INFINITE || y == INFINITE) ==> p.magnitude() == INFINITE
            &&& !q.is_nan() && y == INFINITE ==> q.magnitude() == 0
            &&& !q.is_nan() && x == INFINITE ==> q.magnitude() == INFINITE
            &&& !q.is_nan() && y == 0 ==> q.magnitude() == INFINITE
            &&& !p.is_nan() ==> p.negative() == (a.negative() != b.negative())
            &&& !q.is_nan() ==> q.negative() == (a.negative() != b.negative())
        }),
{
    let (x, y) = (a.magnitude(), b.magnitude());
    let u = pow2(UNIT_POWER as nat);
    let n = units(x) * units(y);
    lemma_nearest_exists(n, u * u);
    lemma_plain(nearest(n, u * u));
    lemma_nearest_exists(units(x), units(y));
    lemma_plain(nearest(units(x), units(y)));
    lemma_plain(INFINITE as nat);
    lemma_plain(0);
    assert(0x7ff8_0000_0000_0000nat % 0x8000_0000_0000_0000nat == 0x7ff8_0000_0000_0000nat);
}

/// An integer becomes the double nearest to it, with its sign.
pub proof fn law_integers_are_rounded(v: u64, w: i64, a: Double, b: Double, j: nat)
    requires
        call_ensures(Double::from_u64, (v,), a),
        call_ensures(Double::from_i64, (w,), b),
        j <= INFINITE,
    ensures
        !a.negative() && a.magnitude() <= INFINITE && b.magnitude() <= INFINITE,
        b.negative() == (w < 0),
        apart(in_units(v as nat), units(a.magnitude())) <= apart(in_units(v as nat), units(j)),
        ({
            let size = if w < 0 {
                (-w) as nat
            } else {
                w as nat
            };
            apart(in_units(size), units(b.magnitude())) <= apart(in_units(size), units(j))
        }),
{
    let size = if w < 0 {
        (-w) as nat
    } else {
        w as nat
    };
    lemma_nearest_exists(v as nat, 1);
    lemma_nearest_exists(size, 1);
    lemma_plain(nearest(v as nat, 1));
    lemma_plain(nearest(size, 1));
    law_nearest_is_closest(v as nat, 1, j);
    law_nearest_is_closest(size, 1, j);
    assert(forall|x: nat| #[trigger] (x * 1) == x);
    assert(units(nearest(v as nat, 1)) * 1 == units(nearest(v as nat, 1)));
    assert(units(nearest(size, 1)) * 1 == units(nearest(size, 1)));
    assert(units(j) * 1 == units(j));
}

/// With whole numbers, products, sums and quotients that are whole come out
/// exactly, as long as they have at most 53 bits.
pub proof fn law_whole_arithmetic(a: nat, b: nat)
    requires
        a < 2 * BINADE,
        b < 2 * BINADE,
    ensures
        a * b < 2 * BINADE ==> product(whole(a as int), whole(b as int)) == whole((a * b) as int),
        a * b < 2 * BINADE && b > 0 ==> quotient(whole((a * b) as int), whole(b as int)) == whole(
            a as int,
        ),
        a + b < 2 * BINADE ==> sum(whole(a as int), whole(b as int)) == whole((a + b) as int),
{
    law_whole_numbers_are_kept(a);
    law_whole_numbers_are_kept(b);
    let u = pow2(UNIT_POWER as nat);
    lemma_pow2_pos(UNIT_POWER as nat);
    let (i, j) = (nearest(a, 1), nearest(b, 1));
    lemma_plain(i);
    lemma_plain(j);
    let (x, y) = (units(i), units(j));
    if a * b < 2 * BINADE {
        let c = a * b;
        law_whole_numbers_are_kept(c);
        let k = nearest(c, 1);
        lemma_plain(k);
        let n = x * y;
        assert(u * u > 0 && n * u == units(k) * (u * u)) by (nonlinear_arith)
            requires
                n == x * y,
                x == a * u,
                y == b * u,
                units(k) == c * u,
                c == a * b,
                u > 0,
        ;
        law_doubles_are_kept(n, u * u, k);
        if b > 0 {
            lemma_units_zero(j);
            assert(y > 0 && units(k) * u == x * y) by (nonlinear_arith)
                requires
                    x == a * u,
                    y == b * u,
                    units(k) == c * u,
                    c == a * b,
                    u > 0,
                    b > 0,
            ;
            law_doubles_are_kept(units(k), y, i);
        }
    }
    if a + b < 2 * BINADE {
        let c = a + b;
        law_whole_numbers_are_kept(c);
        let k = nearest(c, 1);
        lemma_plain(k);
        assert(x + y == units(k)) by (nonlinear_arith)
            requires
                x == a * u,
                y == b * u,
                units(k) == c * u,
                c == a + b,
        ;
        law_doubles_are_kept(x + y, u, k);
    }
}

/// A rate is pages times their size over time: where the numbers are whole and
/// come out even, it is exactly that.
pub proof fn law_rates_are_pages_over_time(
    prev: VmStat,
    cur: VmStat,
    secs: nat,
    page_kb: u64,
    r: (Double, Double),
    rate_in: nat,
    rate_out: nat,
)
    requires
        call_ensures(swap_rates, (&prev, &cur, whole(secs as int), page_kb), r),
        0 < secs < 2 * BINADE,
        0 < page_kb,
        prev.pswpin <= cur.pswpin,
        prev.pswpout <= cur.pswpout,
        (cur.pswpin - prev.pswpin) * page_kb == rate_in * secs,
        (cur.pswpout - prev.pswpout) * page_kb == rate_out * secs,
        rate_in * secs < 2 * BINADE,
        rate_out * secs < 2 * BINADE,
    ensures
        r.0 == whole(rate_in as int),
        r.1 == whole(rate_out as int),
{
    lemma_even_rate((cur.pswpin - prev.pswpin) as nat, page_kb as nat, secs, rate_in);
    lemma_even_rate((cur.pswpout - prev.pswpout) as nat, page_kb as nat, secs, rate_out);
    law_whole_numbers_are_kept(secs);
    lemma_units_zero(0);
    lemma_plain(0);
    let u = pow2(UNIT_POWER as nat);
    lemma_pow2_pos(UNIT_POWER as nat);
    assert(secs * u > 0) by (nonlinear_arith)
        requires
            secs > 0,
            u > 0,
    ;
    assert(zero() == with_sign(false, 0));
}

proof fn lemma_even_rate(pages: nat, page: nat, secs: nat, rate: nat)
    requires
        pages * page == rate * secs,
        rate * secs < 2 * BINADE,
        0 < secs < 2 * BINADE,
        0 < page <= u64::MAX,
        pages <= u64::MAX,
    ensures
        quotient(product(whole(pages as int), whole(page as int)), whole(secs as int)) == whole(
            rate as int,
        ),
{
    let c = rate * secs;
    assert(pages <= c && rate <= c) by (nonlinear_arith)
        requires
            pages * page == c,
            rate * secs == c,
            page > 0,
            secs > 0,
    ;
    if pages == 0 {
        assert(0 * page == 0) by (nonlinear_arith);
        assert(rate == 0) by (nonlinear_arith)
            requires
                rate * secs == 0,
                secs > 0,
        ;
        lemma_zero_times(page);
        law_whole_arithmetic(0, secs);
        assert(0 * secs == 0) by (nonlinear_arith);
    } else {
        assert(page <= c) by (nonlinear_arith)
            requires
                pages * page == c,
                pages > 0,
        ;
        law_whole_arithmetic(pages, page);
        law_whole_arithmetic(rate, secs);
    }
}

/// Nothing times a number is nothing.
proof fn lemma_zero_times(page: nat)
    requires
        page <= u64::MAX,
    ensures
        product(whole(0), whole(page as int)) == whole(0),
{
    law_whole_numbers_are_kept(0);
    let u = pow2(UNIT_POWER as nat);
    lemma_pow2_pos(UNIT_POWER as nat);
    lemma_units_zero(0);
    assert(in_units(0) == 0) by (nonlinear_arith)
        requires
            in_units(0) == 0 * u,
    ;
    assert(units(nearest(0, 1)) == 0);
    lemma_units_zero(nearest(0, 1));
    lemma_nearest_exists(page, 1);
    // No 64-bit number reaches infinity.
    lemma2_to64();
    let top = 0x1_0000_0000_0000_0000nat;
    let b = BINADE as nat;
    let k = (1023 + 64) * b;
    lemma_pow2_adds(32, 20);
    assert(k % b == 0 && k / b == 1087 && b <= k < INFINITE) by (nonlinear_arith)
        requires
            k == (1023 + 64) * b,
            b == 0x10_0000_0000_0000nat,
            INFINITE == 0x7ff0_0000_0000_0000u64,
    ;
    lemma_pow2_adds(52, 1086);
    lemma_pow2_adds(64, UNIT_POWER as nat);
    assert(units(k) == in_units(top));
    assert(units(k) * 1 == units(k));
    law_doubles_are_kept(top, 1, k);
    law_rounding_keeps_order(page, 1, top, 1);
    lemma_plain(nearest(page, 1));
    lemma_plain(0);
    assert(u * u > 0) by (nonlinear_arith)
        requires
            u > 0,
    ;
    let y = units(nearest(page, 1));
    assert(0 * y == 0) by (nonlinear_arith);
    assert(0 * (u * u) == 0) by (nonlinear_arith);
    law_doubles_are_kept(0, u * u, 0);
}

/// A share that comes out even is told exactly; nothing is zero percent, and all
/// is a hundred.
pub proof fn law_percentages_are_shares(part: u64, total: u64, r: Double, share: nat)
    requires
        call_ensures(percentage, (part, total), r),
        0 < total,
        part * 100 == share * total,
        part * 100 < 2 * BINADE,
        total < 2 * BINADE,
    ensures
        r == whole(share as int),
{
    let c = share * total as nat;
    assert(share <= c) by (nonlinear_arith)
        requires
            c == share * total,
            total > 0,
    ;
    law_whole_arithmetic(part as nat, 100);
    law_whole_arithmetic(share, total as nat);
}

/// A whole number of seconds is told exactly.
pub proof fn law_seconds(secs: u64, nanos: u64, r: Double)
    requires
        nanos == secs * 1_000_000_000,
        call_ensures(seconds, (nanos,), r),
    ensures
        r == whole(secs as int),
{
    let n = secs as nat;
    assert(n < 2 * BINADE);
    assert(nanos as int / 1_000_000_000 == secs && nanos as int % 1_000_000_000 == 0);
    law_whole_arithmetic(0, 1_000_000_000);
    assert(0nat * 1_000_000_000nat == 0);
    law_whole_arithmetic(n, 0);
}

/// The whole part of a number is the largest whole number that is not beyond it
/// on the way from zero, with the sign of the number; what does not fit in 64
/// bits becomes the end of their range, and what is not a number becomes zero.
pub proof fn law_whole_parts(a: Double, r: i64)
    requires
        call_ensures(Double::to_i64, (a,), r),
    ensures
        ({
            let x = units(a.magnitude());
            let size = if r < 0 {
                -r as nat
            } else {
                r as nat
            };
            &&& a.is_nan() ==> r == 0
            &&& !a.is_nan() && i64::MIN < r < i64::MAX ==> in_units(size) <= x < in_units(size + 1)
            &&& !a.is_nan() && r == i64::MAX ==> !a.negative() && in_units(size) <= x
            &&& !a.is_nan() && r == i64::MIN ==> a.negative() && in_units(size) <= x
            &&& r > 0 ==> !a.negative()
            &&& r < 0 ==> a.negative()
        }),
{
    let x = units(a.magnitude());
    let u = pow2(UNIT_POWER as nat);
    lemma_pow2_pos(UNIT_POWER as nat);
    lemma_fundamental_div_mod(x as int, u as int);
    let q = x / u;
    assert(q * u <= x < (q + 1) * u) by (nonlinear_arith)
        requires
            x == u * q + x % u,
            0 <= x % u < u,
    ;
    let size = if r < 0 {
        -r as nat
    } else {
        r as nat
    };
    if size < q {
        assert(size * u <= q * u) by (nonlinear_arith)
            requires
                size < q,
        ;
    }
}

proof fn lemma_cut_digits(q: nat, p: nat)
    ensures
        digits_value(decimal(cut(q, p)) + last_digits(q, p)) == q,
        all_digits(decimal(cut(q, p))),
        all_digits(last_digits(q, p)),
        last_digits(q, p).len() == p,
    decreases p,
{
    if p == 0 {
        lemma_decimal(q);
        assert(decimal(q) + last_digits(q, 0) == decimal(q));
    } else {
        let m = (p - 1) as nat;
        lemma_cut_digits(q / 10, m);
        let c = digit_char(q % 10);
        let (a, b) = (decimal(cut(q / 10, m)), last_digits(q / 10, m));
        assert((a + b.push(c)).drop_last() == a + b);
        assert((a + b.push(c)).last() == c);
        assert forall|i: int| 0 <= i < b.push(c).len() implies is_digit(#[trigger] b.push(c)[i]) by {
            if i < b.len() {
                assert(is_digit(b[i]));
            }
        }
    }
}

/// Whether `s` is, without a sign, a numeral with `p` digits behind a point, or
/// without a point where `p` is zero, whose digits stand for `q`.
pub open spec fn is_pointed(s: Seq<char>, p: nat, q: nat) -> bool {
    exists|a: Seq<char>, b: Seq<char>|
        {
            &&& a.len() > 0 && all_digits(a) && all_digits(b) && b.len() == p
            &&& #[trigger] digits_value(a + b) == q
            &&& s == if p == 0 {
                a
            } else {
                a + seq!['.'] + b
            }
        }
}

/// What is written of a number, without its sign.
pub open spec fn behind_sign(negative: bool, s: Seq<char>) -> Seq<char> {
    if negative {
        s.drop_first()
    } else {
        s
    }
}

/// A finite number is written with as many digits behind the point as are asked
/// for. They are the number, rounded to those digits, half-way to the even one,
/// with a minus sign where the number has one.
pub proof fn law_fixed_digits(a: Double, places: u32, r: String)
    requires
        places <= 2,
        call_ensures(Double::to_fixed, (a, places), r),
        a.magnitude() < INFINITE,
    ensures
        ({
            let body = behind_sign(a.negative(), r@);
            let x = units(a.magnitude()) * tenfold(places as nat);
            &&& a.negative() ==> r@.len() > 0 && r@[0] == '-'
            &&& exists|q: nat|
                #[trigger] is_pointed(body, places as nat, q) && 2 * apart(in_units(q), x)
                    <= in_units(1) && (2 * apart(in_units(q), x) == in_units(1) ==> q % 2 == 0)
        }),
{
    let p = places as nat;
    let x = units(a.magnitude()) * tenfold(p);
    let u = pow2(UNIT_POWER as nat);
    lemma_pow2_pos(UNIT_POWER as nat);
    let q = half_even(x, u);
    lemma_fundamental_div_mod(x as int, u as int);
    assert(q * u == (x / u) * u || q * u == (x / u) * u + u) by (nonlinear_arith)
        requires
            q == x / u || q == x / u + 1,
    ;
    assert(x == (x / u) * u + x % u) by (nonlinear_arith)
        requires
            x == u * (x / u) + x % u,
    ;
    if 2 * (x % u) > u || (2 * (x % u) == u && (x / u) % 2 == 1) {
        assert(q * u == (x / u) * u + u) by (nonlinear_arith)
            requires
                q == x / u + 1,
        ;
    } else {
        assert(q * u == (x / u) * u) by (nonlinear_arith)
            requires
                q == x / u,
        ;
    }
    assert(1 * u == u);
    lemma_cut_digits(q, p);
    let (front, back) = (decimal(cut(q, p)), last_digits(q, p));
    lemma_decimal(cut(q, p));
    assert(digits_value(front + back) == q);
    let body = pointed(q, p);
    assert(is_pointed(body, p, q));
    if a.negative() {
        assert(r@ == seq!['-'] + body);
        assert(r@.drop_first() == body);
    } else {
        assert(r@ == Seq::<char>::empty() + body);
        assert(r@ == body);
    }
    assert(is_pointed(behind_sign(a.negative(), r@), p, q));
}

/// What is no finite number has a word of its own.
pub proof fn law_words_for_no_number(a: Double, places: u32, r: String)
    requires
        places <= 2,
        call_ensures(Double::to_fixed, (a, places), r),
    ensures
        a.magnitude() > INFINITE ==> r@ == seq!['N', 'a', 'N'],
        a.magnitude() == INFINITE && !a.negative() ==> r@ == seq!['i', 'n', 'f'],
        a.magnitude() == INFINITE && a.negative() ==> r@ == seq!['-', 'i', 'n', 'f'],
{
    assert(seq!['-'] + seq!['i', 'n', 'f'] =~= seq!['-', 'i', 'n', 'f']);
    assert(Seq::<char>::empty() + seq!['i', 'n', 'f'] =~= seq!['i', 'n', 'f']);
}

proof fn lemma_leading(s: Seq<char>, rest: Seq<char>)
    requires
        all_digits(s),
        rest.len() == 0 || !is_digit(rest[0]),
    ensures
        leading_digits(s + rest) == s.len(),
        digit_run(s + rest) == s,
        after_digits(s + rest) == rest,
    decreases s.len(),
{
    if s.len() == 0 {
        assert(s + rest == rest);
    } else {
        assert(is_digit(s[0]));
        let t = s.drop_first();
        assert((s + rest).drop_first() == t + rest);
        assert forall|i: int| 0 <= i < t.len() implies is_digit(#[trigger] t[i]) by {
            assert(is_digit(s[i + 1]));
        }
        lemma_leading(t, rest);
    }
    assert((s + rest).take(s.len() as int) == s);
    assert((s + rest).skip(s.len() as int) == rest);
}

proof fn lemma_no_word(s: Seq<char>)
    requires
        s.len() > 0,
        is_digit(s[0]),
    ensures
        !spells(s, "inf"@),
        !spells(s, "infinity"@),
        !spells(s, "nan"@),
{
    reveal_strlit("inf");
    reveal_strlit("infinity");
    reveal_strlit("nan");
    let m = s.map_values(|c: char| lower(c));
    assert(m[0] == s[0]);
}

/// A number with digits before and behind a point is read as the double nearest
/// to it, and so it is with an exponent; a sign before it is the sign of the
/// double.
pub proof fn law_notation(a: Seq<char>, b: Seq<char>, e: Seq<char>)
    requires
        a.len() > 0,
        all_digits(a),
        all_digits(b),
        e.len() > 0,
        all_digits(e),
    ensures
        literal(a + seq!['.'] + b) == Some(
            with_sign(false, nearest(digits_value(a + b), tenfold(b.len()))),
        ),
        literal(a + seq!['e'] + e) == Some(
            with_sign(false, nearest(digits_value(a) * tenfold(digits_value(e)), 1)),
        ),
        literal(a + seq!['e', '-'] + e) == Some(
            with_sign(
                false,
                nearest(digits_value(a), tenfold(digits_value(e))),
            ),
        ),
        literal(seq!['-'] + a) == Some(with_sign(true, nearest(digits_value(a), 1))),
        literal(seq!['+'] + a) == literal(a),
        literal(a) == Some(with_sign(false, nearest(digits_value(a), 1))),
{
    let nothing = Seq::<char>::empty();
    assert(is_digit(a[0]));
    assert(tenfold(0) == 1);
    // Digits alone.
    assert(a + nothing == a);
    lemma_leading(a, nothing);
    lemma_no_word(a);
    let v = digits_value(a);
    assert(v * tenfold(0) == v) by (nonlinear_arith)
        requires
            tenfold(0) == 1,
    ;
    assert((seq!['-'] + a).drop_first() == a);
    assert((seq!['+'] + a).drop_first() == a);
    // A point.
    let point = seq!['.'] + b;
    let s = a + seq!['.'] + b;
    assert(s == a + point);
    assert(s[0] == a[0]);
    lemma_leading(a, point);
    lemma_no_word(s);
    assert(point.drop_first() == b);
    assert(b + nothing == b);
    lemma_leading(b, nothing);
    if b.len() == 0 {
        assert(a + b == a);
    }
    // An exponent.
    let tail = seq!['e'] + e;
    let t = a + seq!['e'] + e;
    assert(t == a + tail);
    assert(t[0] == a[0]);
    lemma_leading(a, tail);
    lemma_no_word(t);
    assert(tail.drop_first() == e);
    assert(is_digit(e[0]));
    // An exponent below zero.
    let back = seq!['e', '-'] + e;
    let w = a + seq!['e', '-'] + e;
    assert(w == a + back);
    assert(w[0] == a[0]);
    lemma_leading(a, back);
    lemma_no_word(w);
    assert(back.drop_first() == seq!['-'] + e);
    assert((seq!['-'] + e).drop_first() == e);
    assert(v * 1 == v);
}

/// A percentage is the part times a hundred over the whole, one operation after
/// the other.
pub proof fn law_percentages_step_by_step(
    part: u64,
    total: u64,
    r: Double,
    a: Double,
    hundred: Double,
    t: Double,
    p: Double,
    q: Double,
)
    requires
        call_ensures(percentage, (part, total), r),
        call_ensures(Double::from_u64, (part,), a),
        call_ensures(Double::from_u64, (100,), hundred),
        call_ensures(Double::from_u64, (total,), t),
        call_ensures(Double::times, (a, hundred), p),
        call_ensures(Double::over, (p, t), q),
    ensures
        r == q,
{
}

/// With time and with pages of some size, a rate is the growth of its own
/// counter times the size of a page over the time, one operation after the
/// other.
pub proof fn law_rates_step_by_step(
    prev: VmStat,
    cur: VmStat,
    elapsed: Double,
    page_kb: u64,
    r: (Double, Double),
    page: Double,
    a: Double,
    b: Double,
    p: Double,
    q: Double,
    x: Double,
    y: Double,
)
    requires
        call_ensures(swap_rates, (&prev, &cur, elapsed, page_kb), r),
        !leq(elapsed, zero()),
        page_kb > 0,
        prev.pswpin <= cur.pswpin,
        prev.pswpout <= cur.pswpout,
        call_ensures(Double::from_u64, (page_kb,), page),
        call_ensures(Double::from_u64, ((cur.pswpin - prev.pswpin) as u64,), a),
        call_ensures(Double::from_u64, ((cur.pswpout - prev.pswpout) as u64,), b),
        call_ensures(Double::times, (a, page), p),
        call_ensures(Double::times, (b, page), q),
        call_ensures(Double::over, (p, elapsed), x),
        call_ensures(Double::over, (q, elapsed), y),
    ensures
        r == (x, y),
{
}

/// Seconds are the whole seconds and the rest over a billion.
pub proof fn law_seconds_step_by_step(
    nanos: u64,
    r: Double,
    a: Double,
    b: Double,
    billion: Double,
    part: Double,
    all: Double,
)
    requires
        call_ensures(seconds, (nanos,), r),
        call_ensures(Double::from_u64, (nanos / 1_000_000_000,), a),
        call_ensures(Double::from_u64, (nanos % 1_000_000_000,), b),
        call_ensures(Double::from_u64, (1_000_000_000,), billion),
        call_ensures(Double::over, (b, billion), part),
        call_ensures(Double::plus, (a, part), all),
    ensures
        r == all,
{
}

/// Doubles are equal exactly if neither is less than the other; averages are
/// equal exactly if all six of them are.
pub proof fn law_equality(a: Double, b: Double, r: bool, p: Psi, q: Psi, s: bool)
    requires
        call_ensures(<Double as PartialEq>::eq, (&a, &b), r),
        call_ensures(<Psi as PartialEq>::eq, (&p, &q), s),
    ensures
        r <==> leq(a, b) && leq(b, a),
        s <==> leq(p.some_avg10, q.some_avg10) && leq(q.some_avg10, p.some_avg10) && leq(
            p.some_avg60,
            q.some_avg60,
        ) && leq(q.some_avg60, p.some_avg60) && leq(p.some_avg300, q.some_avg300) && leq(
            q.some_avg300,
            p.some_avg300,
        ) && leq(p.full_avg10, q.full_avg10) && leq(q.full_avg10, p.full_avg10) && leq(
            p.full_avg60,
            q.full_avg60,
        ) && leq(q.full_avg60, p.full_avg60) && leq(p.full_avg300, q.full_avg300) && leq(
            q.full_avg300,
            p.full_avg300,
        ),
{
}

} // verus!
