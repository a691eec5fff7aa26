//! Double-precision numbers, held as the 64 bits that IEEE 754 gives them.
//!
//! A number is told by its bits alone: the topmost bit is the sign, and the
//! other 63 bits, its magnitude, number the non-negative doubles in increasing
//! order, from zero up to infinity. Whatever lies above infinity is not a
//! number.

use crate::natural::{Natural, Relation};
use vstd::arithmetic::power2::{lemma2_to64, lemma_pow2_adds, lemma_pow2_pos, pow2};
use vstd::prelude::*;

verus! {

/// The magnitude of infinity.
pub const INFINITE: u64 = 0x7ff0_0000_0000_0000;

/// The magnitude that stands for every result that is not a number.
pub const NOT_A_NUMBER: u64 = 0x7ff8_0000_0000_0000;

/// The number of magnitudes; also the weight of the sign bit.
pub const SIGN: u64 = 0x8000_0000_0000_0000;

/// The number of doubles between one power of two and the next.
pub const BINADE: u64 = 0x10_0000_0000_0000;

/// A double is a whole number of units, and there are this many powers of two
/// in one: the unit is the smallest double above zero.
pub const UNIT_POWER: u32 = 1074;

/// The integer factor of the double with magnitude `k`.
pub open spec fn significand(k: nat) -> nat {
    if k < BINADE {
        k
    } else {
        (BINADE + k % (BINADE as nat)) as nat
    }
}

/// The power of two that goes with `significand`.
pub open spec fn scale(k: nat) -> nat {
    if k < BINADE {
        0
    } else {
        (k / (BINADE as nat) - 1) as nat
    }
}

/// The double with magnitude `k`, counted in units. For infinity this is the
/// value that the next double after the largest finite one would have.
pub open spec fn units(k: nat) -> nat {
    significand(k) * pow2(scale(k))
}

/// Whether the number `n / d` is closer to the double after `k` than to the
/// double `k`; half-way between two doubles the one with the even magnitude is
/// chosen.
pub open spec fn rounds_past(n: nat, d: nat, k: nat) -> bool {
    let twice = 2 * n * pow2(UNIT_POWER as nat);
    let middle = (units(k) + units(k + 1)) * d;
    twice > middle || (twice == middle && k % 2 == 1)
}

/// Whether the double with magnitude `k` is the one that `n / d` rounds to.
pub open spec fn is_nearest(n: nat, d: nat, k: nat) -> bool {
    &&& k <= INFINITE
    &&& k > 0 ==> rounds_past(n, d, (k - 1) as nat)
    &&& k < INFINITE ==> !rounds_past(n, d, k)
}

/// The magnitude of the double nearest to `n / d`.
pub open spec fn nearest(n: nat, d: nat) -> nat {
    choose|k: nat| is_nearest(n, d, k)
}

/// The next double is one significand further on.
pub proof fn lemma_next(k: nat)
    ensures
        units(k + 1) == (significand(k) + 1) * pow2(scale(k)),
        units(k) < units(k + 1),
{
    let b = BINADE as nat;
    lemma2_to64();
    lemma_pow2_pos(scale(k));
    let p = pow2(scale(k));
    if k + 1 < b {
        assert((k + 1) % b == k + 1);
    } else if k + 1 == b {
        assert((k + 1) % b == 0 && (k + 1) / b == 1);
    } else if (k + 1) % b == 0 {
        assert((k + 1) / b == k / b + 1 && k % b == b - 1);
        lemma_pow2_adds(scale(k), 1);
        assert(b * (p * 2) == (2 * b) * p) by (nonlinear_arith);
    } else {
        assert((k + 1) / b == k / b && (k + 1) % b == k % b + 1);
    }
    assert(significand(k) * p < (significand(k) + 1) * p) by (nonlinear_arith)
        requires
            p > 0,
    ;
}

/// A larger magnitude means a larger number.
pub proof fn lemma_units_increase(i: nat, j: nat)
    requires
        i < j,
    ensures
        units(i) < units(j),
    decreases j - i,
{
    lemma_next((j - 1) as nat);
    if i < j - 1 {
        lemma_units_increase(i, (j - 1) as nat);
    }
}

/// A number that lies past one middle lies past every lower one.
proof fn lemma_rounds_past_below(n: nat, d: nat, i: nat, j: nat)
    requires
        d > 0,
        i < j,
        rounds_past(n, d, j),
    ensures
        rounds_past(n, d, i),
{
    lemma_units_increase(i, j);
    lemma_units_increase(i + 1, j + 1);
    let a = units(i) + units(i + 1);
    let b = units(j) + units(j + 1);
    assert(a * d < b * d) by (nonlinear_arith)
        requires
            a < b,
            d > 0,
    ;
}

/// At most one double is the nearest.
pub proof fn lemma_nearest_unique(n: nat, d: nat, i: nat, j: nat)
    requires
        d > 0,
        is_nearest(n, d, i),
        is_nearest(n, d, j),
    ensures
        i == j,
{
    if i < j {
        if i < j - 1 {
            lemma_rounds_past_below(n, d, i, (j - 1) as nat);
        }
    } else if j < i {
        if j < i - 1 {
            lemma_rounds_past_below(n, d, j, (i - 1) as nat);
        }
    }
}

/// A double that meets the description is the one that `nearest` names.
pub proof fn lemma_nearest_is(n: nat, d: nat, k: nat)
    requires
        d > 0,
        is_nearest(n, d, k),
    ensures
        nearest(n, d) == k,
{
    lemma_nearest_unique(n, d, nearest(n, d), k);
}

proof fn lemma_nearest_from(n: nat, d: nat, k: nat)
    requires
        k <= INFINITE,
        k > 0 ==> rounds_past(n, d, (k - 1) as nat),
    ensures
        exists|j: nat| is_nearest(n, d, j),
    decreases INFINITE - k,
{
    if k == INFINITE || !rounds_past(n, d, k) {
        assert(is_nearest(n, d, k));
    } else {
        lemma_nearest_from(n, d, k + 1);
    }
}

/// There always is a nearest double.
pub proof fn lemma_nearest_exists(n: nat, d: nat)
    ensures
        is_nearest(n, d, nearest(n, d)),
{
    lemma_nearest_from(n, d, 0);
}

/// The integer factor of a double, as a machine word.
pub(crate) fn significand_of(k: u64) -> (r: u64)
    requires
        k <= INFINITE,
    ensures
        r == significand(k as nat),
        r < 2 * BINADE,
{
    if k < BINADE {
        k
    } else {
        BINADE + k % BINADE
    }
}

/// The power of two of a double, as a machine word.
pub(crate) fn scale_of(k: u64) -> (r: u32)
    requires
        k <= INFINITE,
    ensures
        r == scale(k as nat),
        r <= 2046,
{
    if k < BINADE {
        0
    } else {
        (k / BINADE - 1) as u32
    }
}

/// A double, counted in units.
fn units_of(k: u64) -> (r: Natural)
    requires
        k <= INFINITE,
    ensures
        r@ == units(k as nat),
{
    let m: Natural = Natural::from_u64(significand_of(k));
    m.shifted(scale_of(k))
}

/// Finds the double nearest to `n / d` by halving the range of magnitudes that
/// are left.
pub(crate) fn nearest_of(n: &Natural, d: &Natural) -> (r: u64)
    requires
        d@ > 0,
    ensures
        r == nearest(n@, d@),
        r <= INFINITE,
{
    let twice: Natural = n.times_plus(2, 0).shifted(UNIT_POWER);
    let mut lo: u64 = 0;
    let mut hi: u64 = INFINITE;
    while lo < hi
        invariant
            d@ > 0,
            lo <= hi <= INFINITE,
            twice@ == 2 * n@ * pow2(UNIT_POWER as nat),
            lo > 0 ==> rounds_past(n@, d@, (lo - 1) as nat),
            hi < INFINITE ==> !rounds_past(n@, d@, hi as nat),
        decreases hi - lo,
    {
        let mid: u64 = lo + (hi - lo) / 2;
        let middle: Natural = d.times_plus(2 * significand_of(mid) + 1, 0).shifted(scale_of(mid));
        proof {
            lemma_next(mid as nat);
            let m = significand(mid as nat);
            let p = pow2(scale(mid as nat));
            assert((m * p + (m + 1) * p) * d@ == (d@ * (2 * m + 1)) * p) by (nonlinear_arith);
            assert(n@ * 2 * pow2(UNIT_POWER as nat) == 2 * n@ * pow2(UNIT_POWER as nat));
        }
        let past: bool = match twice.relate(&middle) {
            Relation::Less => false,
            Relation::Equal => mid % 2 == 1,
            Relation::Greater => true,
        };
        if past {
            lo = mid + 1;
        } else {
            hi = mid;
        }
    }
    proof {
        lemma_nearest_is(n@, d@, lo as nat);
    }
    lo
}

/// A double-precision number.
#[derive(Clone, Copy, Debug)]
pub struct Double {
    /// The 64 bits of the number.
    pub bits: u64,
}

/// The double with magnitude `k` and the given sign.
pub open spec fn with_sign(negative: bool, k: nat) -> Double {
    Double {
        bits: if negative {
            (k + SIGN) as u64
        } else {
            k as u64
        },
    }
}

/// Zero.
pub open spec fn zero() -> Double {
    Double { bits: 0 }
}

/// What arithmetic gives where there is no number to give.
pub open spec fn nan() -> Double {
    with_sign(false, NOT_A_NUMBER as nat)
}

/// The double nearest to the whole number `v`.
pub open spec fn whole(v: int) -> Double {
    if v < 0 {
        with_sign(true, nearest((-v) as nat, 1))
    } else {
        with_sign(false, nearest(v as nat, 1))
    }
}

/// Whether `a` is less than or equal to `b`; with a double that is not a number
/// nothing compares.
pub open spec fn leq(a: Double, b: Double) -> bool {
    !a.is_nan() && !b.is_nan() && a.number() <= b.number()
}

/// The product of `a` and `b`.
pub open spec fn product(a: Double, b: Double) -> Double {
    let negative = a.negative() != b.negative();
    let (x, y) = (a.magnitude(), b.magnitude());
    if a.is_nan() || b.is_nan() {
        nan()
    } else if x == INFINITE || y == INFINITE {
        if x == 0 || y == 0 {
            nan()
        } else {
            with_sign(negative, INFINITE as nat)
        }
    } else {
        with_sign(
            negative,
            nearest(units(x) * units(y), pow2(UNIT_POWER as nat) * pow2(UNIT_POWER as nat)),
        )
    }
}

/// The sum of `a` and `b`, neither of which is negative.
pub open spec fn sum(a: Double, b: Double) -> Double {
    let (x, y) = (a.magnitude(), b.magnitude());
    if a.is_nan() || b.is_nan() {
        nan()
    } else if x == INFINITE || y == INFINITE {
        with_sign(false, INFINITE as nat)
    } else {
        with_sign(false, nearest(units(x) + units(y), pow2(UNIT_POWER as nat)))
    }
}

/// The quotient of `a` by `b`.
pub open spec fn quotient(a: Double, b: Double) -> Double {
    let negative = a.negative() != b.negative();
    let (x, y) = (a.magnitude(), b.magnitude());
    if a.is_nan() || b.is_nan() {
        nan()
    } else if x == INFINITE {
        if y == INFINITE {
            nan()
        } else {
            with_sign(negative, INFINITE as nat)
        }
    } else if y == INFINITE {
        with_sign(negative, 0)
    } else if y == 0 {
        if x == 0 {
            nan()
        } else {
            with_sign(negative, INFINITE as nat)
        }
    } else {
        with_sign(negative, nearest(units(x), units(y)))
    }
}

/// `v`, moved into the range from `lo` to `hi`.
pub open spec fn clamped(v: int, lo: int, hi: int) -> int {
    if v < lo {
        lo
    } else if v > hi {
        hi
    } else {
        v
    }
}

/// The whole part of `a`, moved into the range of 64-bit integers; zero where
/// `a` is not a number.
pub open spec fn truncated(a: Double) -> int {
    let n = (units(a.magnitude()) / pow2(UNIT_POWER as nat)) as int;
    if a.is_nan() {
        0
    } else {
        clamped(
            if a.negative() {
                -n
            } else {
                n
            },
            i64::MIN as int,
            i64::MAX as int,
        )
    }
}

/// Zero is no units at all, and only zero is.
pub proof fn lemma_units_zero(k: nat)
    ensures
        units(k) == 0 <==> k == 0,
{
    assert(units(0) == 0) by (nonlinear_arith)
        requires
            significand(0) == 0,
            units(0) == significand(0) * pow2(scale(0)),
    ;
    if k > 0 {
        lemma_units_increase(0, k);
    }
}

impl Double {
    /// The number without its sign, as its place among the doubles.
    pub open spec fn magnitude(self) -> nat {
        self.bits as nat % SIGN as nat
    }

    /// Whether the sign bit is set.
    pub open spec fn negative(self) -> bool {
        self.bits >= SIGN
    }

    /// Whether this is not a number.
    pub open spec fn is_nan(self) -> bool {
        self.magnitude() > INFINITE
    }

    /// The number, counted in units.
    pub open spec fn number(self) -> int {
        if self.negative() {
            -(units(self.magnitude()) as int)
        } else {
            units(self.magnitude()) as int
        }
    }

    /// Zero.
    pub fn zero() -> (r: Double)
        ensures
            r == zero(),
    {
        Double { bits: 0 }
    }

    /// The double with the bits `bits`.
    pub fn from_bits(bits: u64) -> (r: Double)
        ensures
            r.bits == bits,
    {
        Double { bits }
    }

    /// The bits of this double.
    pub fn to_bits(self) -> (r: u64)
        ensures
            r == self.bits,
    {
        self.bits
    }

    /// The double nearest to `v`.
    pub fn from_u64(v: u64) -> (r: Double)
        ensures
            r == whole(v as int),
    {
        let n: Natural = Natural::from_u64(v);
        let one: Natural = Natural::from_u64(1);
        Double { bits: nearest_of(&n, &one) }
    }

    /// The double nearest to `v`.
    pub fn from_i64(v: i64) -> (r: Double)
        ensures
            r == whole(v as int),
    {
        if v < 0 {
            let size: u64 = if v == i64::MIN {
                0x8000_0000_0000_0000
            } else {
                (-v) as u64
            };
            let n: Natural = Natural::from_u64(size);
            let one: Natural = Natural::from_u64(1);
            Double { bits: nearest_of(&n, &one) + SIGN }
        } else {
            Double::from_u64(v as u64)
        }
    }

    /// Whether this is less than or equal to `other`.
    pub fn at_most(self, other: Double) -> (r: bool)
        ensures
            r == leq(self, other),
    {
        let x: u64 = self.bits % SIGN;
        let y: u64 = other.bits % SIGN;
        if x > INFINITE || y > INFINITE {
            return false;
        }
        proof {
            if x < y {
                lemma_units_increase(x as nat, y as nat);
            } else if y < x {
                lemma_units_increase(y as nat, x as nat);
            }
            lemma_units_zero(x as nat);
            lemma_units_zero(y as nat);
        }
        if self.bits >= SIGN {
            other.bits < SIGN || y <= x
        } else if other.bits >= SIGN {
            x == 0 && y == 0
        } else {
            x <= y
        }
    }

    /// Whether this is greater than or equal to `other`.
    pub fn at_least(self, other: Double) -> (r: bool)
        ensures
            r == leq(other, self),
    {
        other.at_most(self)
    }

    /// The product of this and `other`.
    pub fn times(self, other: Double) -> (r: Double)
        ensures
            r == product(self, other),
    {
        let x: u64 = self.bits % SIGN;
        let y: u64 = other.bits % SIGN;
        let sign: u64 = if (self.bits >= SIGN) != (other.bits >= SIGN) {
            SIGN
        } else {
            0
        };
        if x > INFINITE || y > INFINITE {
            return Double { bits: NOT_A_NUMBER };
        }
        if x == INFINITE || y == INFINITE {
            if x == 0 || y == 0 {
                return Double { bits: NOT_A_NUMBER };
            }
            return Double { bits: INFINITE + sign };
        }
        let n: Natural = Natural::from_u64(significand_of(x)).times_plus(
            significand_of(y),
            0,
        ).shifted(scale_of(x)).shifted(scale_of(y));
        let d: Natural = Natural::from_u64(1).shifted(UNIT_POWER).shifted(UNIT_POWER);
        proof {
            let (a, b) = (significand(x as nat), significand(y as nat));
            let (p, q) = (pow2(scale(x as nat)), pow2(scale(y as nat)));
            assert(a * b * p * q == (a * p) * (b * q)) by (nonlinear_arith);
            let u = pow2(UNIT_POWER as nat);
            lemma_pow2_pos(UNIT_POWER as nat);
            assert(1 * u * u == u * u && u * u > 0) by (nonlinear_arith)
                requires
                    u > 0,
            ;
        }
        Double { bits: nearest_of(&n, &d) + sign }
    }

    /// The sum of this and `other`, neither of which is negative.
    pub fn plus(self, other: Double) -> (r: Double)
        requires
            !self.negative(),
            !other.negative(),
        ensures
            r == sum(self, other),
    {
        if self.bits > INFINITE || other.bits > INFINITE {
            return Double { bits: NOT_A_NUMBER };
        }
        if self.bits == INFINITE || other.bits == INFINITE {
            return Double { bits: INFINITE };
        }
        let (x, y): (u64, u64) = if self.bits >= other.bits {
            (self.bits, other.bits)
        } else {
            (other.bits, self.bits)
        };
        let (e, f): (u32, u32) = (scale_of(x), scale_of(y));
        proof {
            let b = BINADE as nat;
            if y >= BINADE {
                assert(y as nat / b <= x as nat / b) by (nonlinear_arith)
                    requires
                        y <= x,
                        b > 0,
                ;
            }
        }
        let n: Natural = Natural::from_u64(significand_of(x)).shifted(e - f).times_plus(
            1,
            significand_of(y),
        ).shifted(f);
        let d: Natural = Natural::from_u64(1).shifted(UNIT_POWER);
        proof {
            let (a, b) = (significand(x as nat), significand(y as nat));
            let (p, q) = (pow2((e - f) as nat), pow2(f as nat));
            lemma_pow2_adds((e - f) as nat, f as nat);
            lemma_pow2_pos(UNIT_POWER as nat);
            assert((a * p * 1 + b) * q == a * (p * q) + b * q) by (nonlinear_arith);
            assert(1 * pow2(UNIT_POWER as nat) == pow2(UNIT_POWER as nat));
        }
        Double { bits: nearest_of(&n, &d) }
    }

    /// The quotient of this by `other`.
    pub fn over(self, other: Double) -> (r: Double)
        ensures
            r == quotient(self, other),
    {
        let x: u64 = self.bits % SIGN;
        let y: u64 = other.bits % SIGN;
        let sign: u64 = if (self.bits >= SIGN) != (other.bits >= SIGN) {
            SIGN
        } else {
            0
        };
        if x > INFINITE || y > INFINITE {
            return Double { bits: NOT_A_NUMBER };
        }
        if x == INFINITE {
            if y == INFINITE {
                return Double { bits: NOT_A_NUMBER };
            }
            return Double { bits: INFINITE + sign };
        }
        if y == INFINITE {
            return Double { bits: sign };
        }
        if y == 0 {
            if x == 0 {
                return Double { bits: NOT_A_NUMBER };
            }
            return Double { bits: INFINITE + sign };
        }
        let n: Natural = units_of(x);
        let d: Natural = units_of(y);
        proof {
            lemma_units_zero(y as nat);
        }
        Double { bits: nearest_of(&n, &d) + sign }
    }
}

impl PartialEq for Double {
    fn eq(&self, other: &Double) -> (r: bool) {
        self.at_most(*other) && other.at_most(*self)
    }
}

impl vstd::std_specs::cmp::PartialEqSpecImpl for Double {
    open spec fn obeys_eq_spec() -> bool {
        true
    }

    open spec fn eq_spec(&self, other: &Double) -> bool {
        leq(*self, *other) && leq(*other, *self)
    }
}

} // verus!
