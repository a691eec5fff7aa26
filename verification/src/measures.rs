//! What the measures of memory pressure promise: rates are never negative, a
//! counter that went backwards gives no rate, and percentages stay in range.

use crate::double::{
    leq, lemma_nearest_exists, lemma_units_increase, lemma_units_zero, nearest, product, scale,
    significand, units, whole, with_sign, zero, Double, BINADE, INFINITE, SIGN, UNIT_POWER,
};
use crate::procfs::{
    fault_in, growth, last_after, percent, rate, rates, sample_at, seconds_in, MemInfo, Psi,
    Readings, VmStat,
};
use crate::rounding::{
    in_units, law_doubles_are_kept, law_rounding_keeps_order, law_whole_numbers_are_kept,
};
use vstd::arithmetic::power2::{lemma2_to64, lemma_pow2_adds, lemma_pow2_pos, pow2};
use vstd::prelude::*;

verus! {

/// Zero is rounded to zero.
proof fn lemma_zero_kept(d: nat)
    requires
        d > 0,
    ensures
        nearest(0, d) == 0,
{
    lemma_units_zero(0);
    assert(in_units(0) == 0) by (nonlinear_arith)
        requires
            in_units(0) == 0 * pow2(UNIT_POWER as nat),
    ;
    assert(0 * d == 0) by (nonlinear_arith);
    law_doubles_are_kept(0, d, 0);
}

/// Where a power of two stands among the doubles.
proof fn lemma_power_kept(p: nat)
    requires
        p <= 1000,
    ensures
        nearest(pow2(p), 1) == (1023 + p) * BINADE,
        nearest(pow2(p), 1) < INFINITE,
{
    let b = BINADE as nat;
    let k = (1023 + p) * b;
    lemma2_to64();
    lemma_pow2_adds(32, 20);
    assert(pow2(52) == b);
    assert(k % b == 0 && k / b == 1023 + p && b <= k < INFINITE) by (nonlinear_arith)
        requires
            k == (1023 + p) * b,
            p <= 1000,
            b == 0x10_0000_0000_0000nat,
            INFINITE == 0x7ff0_0000_0000_0000u64,
    ;
    lemma_pow2_adds(52, (1022 + p) as nat);
    lemma_pow2_adds(p, UNIT_POWER as nat);
    law_doubles_are_kept(pow2(p), 1, k);
}

/// What a sign of plus leaves of a magnitude.
proof fn lemma_plus(k: nat)
    requires
        k <= INFINITE,
    ensures
        with_sign(false, k).magnitude() == k,
        !with_sign(false, k).negative(),
        !with_sign(false, k).is_nan(),
{
    assert(k % (SIGN as nat) == k) by (nonlinear_arith)
        requires
            k <= INFINITE,
            INFINITE < SIGN,
    ;
}

/// A 64-bit number is far from infinity as a double.
proof fn lemma_whole_bounded(v: u64)
    ensures
        whole(v as int) == with_sign(false, nearest(v as nat, 1)),
        nearest(v as nat, 1) < INFINITE,
        units(nearest(v as nat, 1)) <= pow2((64 + UNIT_POWER) as nat),
{
    lemma2_to64();
    lemma_power_kept(64);
    law_rounding_keeps_order(v as nat, 1, pow2(64), 1);
    let b = BINADE as nat;
    let k = (1023 + 64) * b;
    let j = nearest(v as nat, 1);
    if j < k {
        lemma_units_increase(j, k);
    }
    lemma_pow2_adds(32, 20);
    assert(pow2(52) == b);
    assert(k % b == 0 && k / b == 1087 && b <= k) by (nonlinear_arith)
        requires
            k == (1023 + 64) * b,
            b == 0x10_0000_0000_0000nat,
    ;
    lemma_pow2_adds(52, 1086);
}

/// The product of two 64-bit numbers is a finite double that is not negative.
proof fn lemma_product_bounded(a: u64, b: u64)
    ensures
        ({
            let p = product(whole(a as int), whole(b as int));
            p.magnitude() < INFINITE && !p.negative()
        }),
{
    lemma_whole_bounded(a);
    lemma_whole_bounded(b);
    let (j, k) = (nearest(a as nat, 1), nearest(b as nat, 1));
    lemma_plus(j);
    lemma_plus(k);
    let u = pow2(UNIT_POWER as nat);
    lemma_pow2_pos(UNIT_POWER as nat);
    let (x, y, top) = (units(j), units(k), pow2((64 + UNIT_POWER) as nat));
    lemma_pow2_adds(64, UNIT_POWER as nat);
    lemma_pow2_adds(64, 64);
    let (n, d) = (x * y, u * u);
    assert(d > 0) by (nonlinear_arith)
        requires
            d == u * u,
            u > 0,
    ;
    assert(n * 1 <= pow2(128) * d) by (nonlinear_arith)
        requires
            n == x * y,
            d == u * u,
            x <= top,
            y <= top,
            top == pow2(64) * u,
            pow2(128) == pow2(64) * pow2(64),
    ;
    lemma_power_kept(128);
    law_rounding_keeps_order(n, d, pow2(128), 1);
    lemma_plus(nearest(n, d));
}

/// Time that is more than none.
proof fn lemma_time(elapsed: Double)
    requires
        !elapsed.is_nan(),
        !leq(elapsed, zero()),
    ensures
        !elapsed.negative(),
        elapsed.magnitude() > 0,
        units(elapsed.magnitude()) > 0,
{
    lemma_units_zero(0);
    lemma_units_zero(elapsed.magnitude());
    lemma_plus(0);
    assert(zero() == with_sign(false, 0));
}

/// A rate is a number, and not a negative one.
proof fn lemma_rate(pages: u64, page_kb: u64, elapsed: Double)
    requires
        !elapsed.is_nan(),
        !leq(elapsed, zero()),
    ensures
        leq(zero(), rate(pages as int, page_kb, elapsed)),
        pages == 0 ==> rate(pages as int, page_kb, elapsed) == zero(),
{
    lemma_product_bounded(pages, page_kb);
    lemma_time(elapsed);
    let p = product(whole(pages as int), whole(page_kb as int));
    let (x, y) = (p.magnitude(), elapsed.magnitude());
    lemma_plus(0);
    lemma_units_zero(0);
    lemma_nearest_exists(units(x), units(y));
    lemma_plus(nearest(units(x), units(y)));
    lemma_plus(INFINITE as nat);
    if pages == 0 {
        lemma_zero_kept(1);
        lemma_whole_bounded(page_kb);
        let k = nearest(page_kb as nat, 1);
        lemma_plus(k);
        let u = pow2(UNIT_POWER as nat);
        lemma_pow2_pos(UNIT_POWER as nat);
        assert(u * u > 0 && 0 * units(k) == 0) by (nonlinear_arith)
            requires
                u > 0,
        ;
        lemma_zero_kept(u * u);
        assert(p == zero());
        lemma_zero_kept(units(y));
    }
}

/// Unless the time is not a number, rates are numbers and never negative.
pub proof fn law_rates_are_not_negative(prev: VmStat, cur: VmStat, elapsed: Double, page_kb: u64)
    requires
        !elapsed.is_nan(),
    ensures
        leq(zero(), rates(prev, cur, elapsed, page_kb).0),
        leq(zero(), rates(prev, cur, elapsed, page_kb).1),
{
    if leq(elapsed, zero()) || page_kb == 0 {
        lemma_plus(0);
        assert(zero() == with_sign(false, 0));
    } else {
        lemma_rate(growth(prev.pswpin, cur.pswpin) as u64, page_kb, elapsed);
        lemma_rate(growth(prev.pswpout, cur.pswpout) as u64, page_kb, elapsed);
    }
}

/// Unless the time is not a number, a counter that did not grow, be it that it
/// was reset, gives a rate of zero.
pub proof fn law_counter_reset_gives_zero(prev: VmStat, cur: VmStat, elapsed: Double, page_kb: u64)
    requires
        !elapsed.is_nan(),
    ensures
        cur.pswpin <= prev.pswpin ==> rates(prev, cur, elapsed, page_kb).0 == zero(),
        cur.pswpout <= prev.pswpout ==> rates(prev, cur, elapsed, page_kb).1 == zero(),
{
    if !leq(elapsed, zero()) && page_kb != 0 {
        lemma_rate(growth(prev.pswpin, cur.pswpin) as u64, page_kb, elapsed);
        lemma_rate(growth(prev.pswpout, cur.pswpout) as u64, page_kb, elapsed);
    }
}

/// An attempt to take a sample: what came of reading the files, and the time.
pub struct Attempt {
    pub readings: Readings,
    pub now: u64,
}

/// When the last sample was taken and what the counters were then, after a row
/// of attempts.
pub open spec fn last_after_all(last: Option<(u64, VmStat)>, attempts: Seq<Attempt>) -> Option<
    (u64, VmStat),
>
    decreases attempts.len(),
{
    if attempts.len() == 0 {
        last
    } else {
        last_after(
            last_after_all(last, attempts.drop_last()),
            attempts.last().readings,
            attempts.last().now,
        )
    }
}

/// Attempts that fail do not count: after a row of them, the next sample has its
/// rates over the whole time since the last sample that there was.
pub proof fn law_failed_attempts_do_not_count(
    page_kb: u64,
    then: u64,
    prev: VmStat,
    attempts: Seq<Attempt>,
    mem: MemInfo,
    psi: Psi,
    vm: VmStat,
    now: u64,
)
    requires
        forall|i: int|
            0 <= i < attempts.len() ==> fault_in((#[trigger] attempts[i]).readings) is Some,
    ensures
        last_after_all(Some((then, prev)), attempts) == Some((then, prev)),
        last_after_all(None, attempts) is None,
        ({
            let s = sample_at(
                page_kb,
                last_after_all(Some((then, prev)), attempts),
                mem,
                psi,
                vm,
                now,
            );
            (s.swapin_kbs, s.swapout_kbs) == rates(
                prev,
                vm,
                seconds_in(growth(then, now)),
                page_kb,
            )
        }),
    decreases attempts.len(),
{
    if attempts.len() > 0 {
        let t = attempts.drop_last();
        assert forall|i: int| 0 <= i < t.len() implies fault_in(
            (#[trigger] t[i]).readings,
        ) is Some by {
            assert(t[i] == attempts[i]);
        }
        law_failed_attempts_do_not_count(page_kb, then, prev, t, mem, psi, vm, now);
        assert(fault_in(attempts[attempts.len() - 1].readings) is Some);
    }
}

/// A part of a whole is between 0 and 100 percent, and above 0 where there is
/// something of it. This is for wholes of which a hundredfold has at most 53
/// bits; with larger ones, rounding can pass a hundred.
pub proof fn law_percentage_is_in_range(part: u64, total: u64)
    requires
        part <= total,
        0 < total,
        100 * total < 2 * BINADE,
    ensures
        leq(zero(), percent(part as int, total)),
        leq(percent(part as int, total), whole(100)),
        part > 0 ==> !leq(percent(part as int, total), zero()),
{
    let (a, t) = (part as nat, total as nat);
    law_whole_numbers_are_kept(a);
    law_whole_numbers_are_kept(100);
    law_whole_numbers_are_kept(100 * a);
    law_whole_numbers_are_kept(t);
    let (i, h, k, j) = (nearest(a, 1), nearest(100, 1), nearest(100 * a, 1), nearest(t, 1));
    lemma_plus(i);
    lemma_plus(h);
    lemma_plus(k);
    lemma_plus(j);
    let u = pow2(UNIT_POWER as nat);
    lemma_pow2_pos(UNIT_POWER as nat);
    let (n, d) = (units(i) * units(h), u * u);
    assert(d > 0 && n * u == units(k) * d) by (nonlinear_arith)
        requires
            n == units(i) * units(h),
            units(i) == a * u,
            units(h) == 100 * u,
            units(k) == 100 * a * u,
            d == u * u,
            u > 0,
    ;
    law_doubles_are_kept(n, d, k);
    let (x, y) = (units(k), units(j));
    lemma_units_zero(j);
    assert(y > 0 && x * 1 <= 100 * y) by (nonlinear_arith)
        requires
            x == 100 * a * u,
            y == t * u,
            a <= t,
            t > 0,
            u > 0,
    ;
    law_rounding_keeps_order(x, y, 100, 1);
    let r = nearest(x, y);
    lemma_plus(r);
    assert(product(whole(a as int), whole(100)) == with_sign(false, k));
    assert(percent(part as int, total) == with_sign(false, r));
    if r < h {
        lemma_units_increase(r, h);
    }
    lemma_plus(0);
    lemma_units_zero(0);
    lemma_units_zero(r);
    assert(zero() == with_sign(false, 0));
    if part > 0 {
        lemma2_to64();
        lemma_pow2_adds(64, (UNIT_POWER - 64) as nat);
        lemma_pow2_pos((UNIT_POWER - 64) as nat);
        assert(u >= 0x1_0000_0000_0000_0000) by (nonlinear_arith)
            requires
                u == pow2(64) * pow2((UNIT_POWER - 64) as nat),
                pow2(64) == 0x1_0000_0000_0000_0000,
                pow2((UNIT_POWER - 64) as nat) > 0,
        ;
        assert(1 * y <= x * u) by (nonlinear_arith)
            requires
                x == 100 * a * u,
                y == t * u,
                a >= 1,
                t < u,
                u > 0,
        ;
        assert(units(1) == 1 && in_units(1) == units(1) * u) by {
            assert(pow2(0) == 1);
            assert(scale(1) == 0 && significand(1) == 1);
        }
        law_doubles_are_kept(1, u, 1);
        law_rounding_keeps_order(1, u, x, y);
    }
}

} // verus!
