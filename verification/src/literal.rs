//! Reading and writing double-precision numbers in decimal notation.

use crate::double::{
    is_nearest, lemma_nearest_is, lemma_units_increase, lemma_units_zero, nan, nearest, nearest_of,
    scale_of, significand_of, truncated, units, with_sign, Double, INFINITE, NOT_A_NUMBER, SIGN,
    UNIT_POWER,
};
use crate::natural::Natural;
use crate::numeral::{
    all_digits, decimal, digit, digit_char, digits_value, is_digit, numeral, value_of,
};
use crate::text::{chars_of, string_of};
use vstd::arithmetic::div_mod::{lemma_fundamental_div_mod, lemma_fundamental_div_mod_converse};
use vstd::arithmetic::power2::{
    lemma2_to64, lemma2_to64_rest, lemma_pow2_adds, lemma_pow2_pos, lemma_pow2_strictly_increases,
    pow2,
};
use vstd::prelude::*;
use vstd::slice::slice_subrange;

verus! {

/// The `p`-th power of ten.
pub open spec fn tenfold(p: nat) -> nat
    decreases p,
{
    if p == 0 {
        1
    } else {
        10 * tenfold((p - 1) as nat)
    }
}

/// `n / d`, rounded to a whole number; half-way to the even one.
pub open spec fn half_even(n: nat, d: nat) -> nat {
    let (q, r) = (n / d, n % d);
    if 2 * r > d || (2 * r == d && q % 2 == 1) {
        q + 1
    } else {
        q
    }
}

/// `q` with its last `p` digits cut off.
pub open spec fn cut(q: nat, p: nat) -> nat
    decreases p,
{
    if p == 0 {
        q
    } else {
        cut(q / 10, (p - 1) as nat)
    }
}

/// The last `p` digits of `q`.
pub open spec fn last_digits(q: nat, p: nat) -> Seq<char>
    decreases p,
{
    if p == 0 {
        seq![]
    } else {
        last_digits(q / 10, (p - 1) as nat).push(digit_char(q % 10))
    }
}

/// The numeral of `q` with a decimal point before its last `p` digits.
pub open spec fn pointed(q: nat, p: nat) -> Seq<char> {
    if p == 0 {
        decimal(q)
    } else {
        decimal(cut(q, p)) + seq!['.'] + last_digits(q, p)
    }
}

/// `a` in decimal notation, rounded to `p` digits after the point.
pub open spec fn fixed(a: Double, p: nat) -> Seq<char> {
    let sign = if a.negative() {
        seq!['-']
    } else {
        seq![]
    };
    if a.is_nan() {
        seq!['N', 'a', 'N']
    } else if a.magnitude() == INFINITE {
        sign + seq!['i', 'n', 'f']
    } else {
        sign + pointed(
            half_even(units(a.magnitude()) * tenfold(p), pow2(UNIT_POWER as nat)),
            p,
        )
    }
}

/// The `k`-th power of two, as a machine word.
fn power_of_two(k: u32) -> (r: u64)
    requires
        k < 64,
    ensures
        r == pow2(k as nat),
{
    proof {
        lemma2_to64();
    }
    let mut r: u64 = 1;
    let mut i: u32 = 0;
    while i < k
        invariant
            i <= k < 64,
            r == pow2(i as nat),
        decreases k - i,
    {
        proof {
            lemma2_to64();
            lemma2_to64_rest();
            lemma_pow2_adds(i as nat, 1);
            if i < 62 {
                lemma_pow2_strictly_increases(i as nat, 62);
            }
        }
        r = r * 2;
        i = i + 1;
    }
    r
}

/// A double with an exponent this large is a whole number.
proof fn lemma_large(m: nat, e: nat, u: nat)
    requires
        e >= u,
    ensures
        m * pow2(e) == (m * pow2((e - u) as nat)) * pow2(u),
        (m * pow2(e)) / pow2(u) == m * pow2((e - u) as nat),
        (m * pow2(e)) % pow2(u) == 0,
{
    lemma_pow2_adds((e - u) as nat, u);
    lemma_pow2_pos(u);
    let a = pow2((e - u) as nat);
    assert(m * (a * pow2(u)) == (m * a) * pow2(u)) by (nonlinear_arith);
    lemma_fundamental_div_mod_converse(
        (m * pow2(e)) as int,
        pow2(u) as int,
        (m * a) as int,
        0,
    );
}

/// A common power of two changes neither the quotient nor how the remainder
/// stands to the divisor.
proof fn lemma_small(n: nat, e: nat, u: nat)
    requires
        e <= u,
    ensures
        ({
            let q = pow2((u - e) as nat);
            &&& q > 0
            &&& pow2(u) == pow2(e) * q
            &&& (n * pow2(e)) / pow2(u) == n / q
            &&& (n * pow2(e)) % pow2(u) == pow2(e) * (n % q)
        }),
{
    let p = pow2(e);
    let q = pow2((u - e) as nat);
    lemma_pow2_adds(e, (u - e) as nat);
    lemma_pow2_pos(e);
    lemma_pow2_pos((u - e) as nat);
    lemma_fundamental_div_mod(n as int, q as int);
    let (a, b) = (n / q, n % q);
    assert(n * p == a * (p * q) + p * b) by (nonlinear_arith)
        requires
            n == q * a + b,
    ;
    assert(0 <= p * b < p * q) by (nonlinear_arith)
        requires
            0 <= b < q,
            p > 0,
    ;
    lemma_fundamental_div_mod_converse((n * p) as int, (p * q) as int, a as int, (p * b) as int);
}

impl Double {
    /// The whole part of this number, moved into the range of 64-bit integers.
    pub fn to_i64(self) -> (r: i64)
        ensures
            r == truncated(self),
    {
        let x: u64 = self.bits % SIGN;
        if x > INFINITE {
            return 0;
        }
        let m: u64 = significand_of(x);
        let e: u32 = scale_of(x);
        proof {
            lemma2_to64();
            lemma2_to64_rest();
        }
        if e >= UNIT_POWER {
            proof {
                lemma_large(m as nat, e as nat, UNIT_POWER as nat);
            }
            if e >= UNIT_POWER + 11 {
                proof {
                    let a = pow2((e - UNIT_POWER) as nat);
                    if e > UNIT_POWER + 11 {
                        lemma_pow2_strictly_increases(11, (e - UNIT_POWER) as nat);
                    }
                    assert(m as nat * a >= 0x8000_0000_0000_0000) by (nonlinear_arith)
                        requires
                            m >= 0x10_0000_0000_0000,
                            a >= 0x800,
                    ;
                }
                if self.bits >= SIGN {
                    i64::MIN
                } else {
                    i64::MAX
                }
            } else {
                let f: u64 = power_of_two(e - UNIT_POWER);
                proof {
                    if e < UNIT_POWER + 10 {
                        lemma_pow2_strictly_increases((e - UNIT_POWER) as nat, 10);
                    }
                    assert(m as nat * f as nat <= 0x1f_ffff_ffff_ffff * 0x400) by (nonlinear_arith)
                        requires
                            m <= 0x1f_ffff_ffff_ffff,
                            f <= 0x400,
                    ;
                }
                let n: i64 = (m * f) as i64;
                if self.bits >= SIGN {
                    -n
                } else {
                    n
                }
            }
        } else {
            proof {
                lemma_small(m as nat, e as nat, UNIT_POWER as nat);
            }
            let s: u32 = UNIT_POWER - e;
            if s >= 53 {
                proof {
                    if s > 53 {
                        lemma_pow2_strictly_increases(53, s as nat);
                    }
                    assert(m as nat / pow2(s as nat) == 0) by {
                        lemma_fundamental_div_mod_converse(
                            m as int,
                            pow2(s as nat) as int,
                            0,
                            m as int,
                        );
                    }
                }
                0
            } else {
                let n: i64 = (m / power_of_two(s)) as i64;
                if self.bits >= SIGN {
                    -n
                } else {
                    n
                }
            }
        }
    }
}

/// Rounding a number that is exact already.
proof fn lemma_half_even_exact(n: nat, d: nat)
    requires
        d > 0,
        n % d == 0,
    ensures
        half_even(n, d) == n / d,
{
}

/// `a` times a power of ten, rounded to a whole number.
fn rounded(x: u64, places: u32) -> (r: Natural)
    requires
        x < INFINITE,
        places <= 2,
    ensures
        r@ == half_even(units(x as nat) * tenfold(places as nat), pow2(UNIT_POWER as nat)),
{
    let m: u64 = significand_of(x);
    let e: u32 = scale_of(x);
    let ten: u64 = if places == 0 {
        1
    } else if places == 1 {
        10
    } else {
        100
    };
    let ghost p = pow2(e as nat);
    proof {
        reveal_with_fuel(tenfold, 3);
        lemma2_to64();
        lemma2_to64_rest();
        assert(m as nat * p * ten as nat == (m as nat * ten as nat) * p) by (nonlinear_arith);
        assert(m as nat * ten as nat <= 0x1f_ffff_ffff_ffff * 100) by (nonlinear_arith)
            requires
                m <= 0x1f_ffff_ffff_ffff,
                ten <= 100,
        ;
    }
    let n: u64 = m * ten;
    if e >= UNIT_POWER {
        proof {
            lemma_large(n as nat, e as nat, UNIT_POWER as nat);
            lemma_pow2_pos(UNIT_POWER as nat);
            lemma_half_even_exact((n as nat * p) as nat, pow2(UNIT_POWER as nat));
        }
        Natural::from_u64(n).shifted(e - UNIT_POWER)
    } else {
        let s: u32 = UNIT_POWER - e;
        let ghost q = pow2(s as nat);
        proof {
            lemma_small(n as nat, e as nat, UNIT_POWER as nat);
            lemma_pow2_pos(e as nat);
            let b = n as nat % q;
            assert(2 * (p * b) > p * q <==> 2 * b > q) by (nonlinear_arith)
                requires
                    p > 0,
            ;
            assert(2 * (p * b) == p * q <==> 2 * b == q) by (nonlinear_arith)
                requires
                    p > 0,
            ;
        }
        if s >= 64 {
            proof {
                if s > 64 {
                    lemma_pow2_strictly_increases(64, s as nat);
                }
                lemma_fundamental_div_mod_converse(n as int, q as int, 0, n as int);
            }
            Natural::from_u64(0)
        } else {
            let d: u64 = power_of_two(s);
            let whole: u64 = n / d;
            let rest: u64 = n % d;
            proof {
                assert(n as nat / d as nat <= n) by (nonlinear_arith)
                    requires
                        d > 0,
                ;
            }
            if 2 * rest as u128 > d as u128 || (2 * rest as u128 == d as u128 && whole % 2 == 1) {
                Natural::from_u64(whole + 1)
            } else {
                Natural::from_u64(whole)
            }
        }
    }
}

impl Double {
    /// This number in decimal notation, rounded to `places` digits after the
    /// point.
    pub fn to_fixed(self, places: u32) -> (r: String)
        requires
            places <= 2,
        ensures
            r@ == fixed(self, places as nat),
    {
        let x: u64 = self.bits % SIGN;
        if x > INFINITE {
            let mut out: String = String::new();
            out.push('N');
            out.push('a');
            out.push('N');
            proof {
                assert(out@ == seq!['N', 'a', 'N']);
            }
            return out;
        }
        let mut out: String = String::new();
        let ghost sign: Seq<char> = if self.negative() {
            seq!['-']
        } else {
            seq![]
        };
        if self.bits >= SIGN {
            out.push('-');
        }
        proof {
            assert(out@ == sign);
        }
        if x == INFINITE {
            out.push('i');
            out.push('n');
            out.push('f');
            proof {
                assert(out@ == sign + seq!['i', 'n', 'f']);
            }
            return out;
        }
        let mut rest: Natural = rounded(x, places);
        let ghost q = rest@;
        let mut tail: Vec<char> = Vec::new();
        let mut i: u32 = places;
        while i > 0
            invariant
                i <= places <= 2,
                cut(q, places as nat) == cut(rest@, i as nat),
                last_digits(q, places as nat) == last_digits(rest@, i as nat) + tail@,
            decreases i,
        {
            let ghost before = rest@;
            let ghost held = tail@;
            let d: u8 = rest.split_digit();
            let c: char = (48 + d) as char;
            let mut next: Vec<char> = Vec::new();
            next.push(c);
            next.append(&mut tail);
            tail = next;
            proof {
                let l = last_digits(before / 10, (i - 1) as nat);
                assert(last_digits(before, i as nat) == l.push(c));
                assert(tail@ == seq![c] + held);
                assert(l.push(c) + held == l + (seq![c] + held));
            }
            i = i - 1;
        }
        let head: Vec<char> = numeral(rest);
        out.append(string_of(head.as_slice()).as_str());
        if places > 0 {
            out.push('.');
            out.append(string_of(tail.as_slice()).as_str());
        }
        proof {
            assert(last_digits(q, places as nat) == tail@);
            if places > 0 {
                assert((sign + decimal(cut(q, places as nat))).push('.') + tail@ == sign + (decimal(
                    cut(q, places as nat),
                ) + seq!['.'] + tail@));
            } else {
                assert(sign + decimal(q) == sign + pointed(q, 0));
            }
        }
        out
    }
}

/// How many digits `s` begins with.
pub open spec fn leading_digits(s: Seq<char>) -> nat
    decreases s.len(),
{
    if s.len() > 0 && is_digit(s[0]) {
        1 + leading_digits(s.drop_first())
    } else {
        0
    }
}

/// The digits that `s` begins with.
pub open spec fn digit_run(s: Seq<char>) -> Seq<char> {
    s.take(leading_digits(s) as int)
}

/// What follows the digits that `s` begins with.
pub open spec fn after_digits(s: Seq<char>) -> Seq<char> {
    s.skip(leading_digits(s) as int)
}

/// An exponent: digits, which may have a sign.
pub open spec fn exponent(s: Seq<char>) -> Option<int> {
    let t = if s.len() > 0 && (s[0] == '-' || s[0] == '+') {
        s.drop_first()
    } else {
        s
    };
    if t.len() == 0 || !all_digits(t) {
        None
    } else if s[0] == '-' {
        Some(-(digits_value(t) as int))
    } else {
        Some(digits_value(t) as int)
    }
}

/// A number in decimal notation: digits with at most one point among, before or
/// behind them, then perhaps an exponent. The digits without the point are the
/// first result; the power of ten that goes with them is the second.
pub open spec fn notation(s: Seq<char>) -> Option<(Seq<char>, int)> {
    let front = digit_run(s);
    let rest = after_digits(s);
    let dotted = rest.len() > 0 && rest[0] == '.';
    let back = if dotted {
        digit_run(rest.drop_first())
    } else {
        seq![]
    };
    let tail = if dotted {
        after_digits(rest.drop_first())
    } else {
        rest
    };
    let digits = front + back;
    if digits.len() == 0 {
        None
    } else if tail.len() == 0 {
        Some((digits, -(back.len() as int)))
    } else if tail[0] == 'e' || tail[0] == 'E' {
        match exponent(tail.drop_first()) {
            None => None,
            Some(x) => Some((digits, x - back.len())),
        }
    } else {
        None
    }
}

/// The double nearest to `n` times the `e`-th power of ten.
pub open spec fn scaled(n: nat, e: int) -> nat {
    if e >= 0 {
        nearest(n * tenfold(e as nat), 1)
    } else {
        nearest(n, tenfold((-e) as nat))
    }
}

/// `c`, in lower case where it is an ASCII letter.
pub open spec fn lower(c: char) -> char {
    if 'A' <= c <= 'Z' {
        (c as int + 32) as char
    } else {
        c
    }
}

/// Whether `s` spells `word` without regard to case.
pub open spec fn spells(s: Seq<char>, word: Seq<char>) -> bool {
    s.map_values(|c: char| lower(c)) == word
}

/// The double that `s` denotes: a number in decimal notation, `inf`,
/// `infinity` or `nan`, each of which may have a sign.
pub open spec fn literal(s: Seq<char>) -> Option<Double> {
    let minus = s.len() > 0 && s[0] == '-';
    let body = if s.len() > 0 && (s[0] == '-' || s[0] == '+') {
        s.drop_first()
    } else {
        s
    };
    if spells(body, "inf"@) || spells(body, "infinity"@) {
        Some(with_sign(minus, INFINITE as nat))
    } else if spells(body, "nan"@) {
        Some(with_sign(minus, NOT_A_NUMBER as nat))
    } else {
        match notation(body) {
            None => None,
            Some((digits, e)) => Some(with_sign(minus, scaled(digits_value(digits), e))),
        }
    }
}

/// A run of digits has at most the characters there are, and holds digits
/// alone.
pub proof fn lemma_leading_digits(s: Seq<char>)
    ensures
        leading_digits(s) <= s.len(),
        all_digits(digit_run(s)),
        leading_digits(s) == s.len() <==> all_digits(s),
    decreases s.len(),
{
    if s.len() > 0 && is_digit(s[0]) {
        let t = s.drop_first();
        lemma_leading_digits(t);
        let r = digit_run(s);
        assert forall|i: int| 0 <= i < r.len() implies is_digit(#[trigger] r[i]) by {
            if i > 0 {
                assert(r[i] == digit_run(t)[i - 1]);
            }
        }
        if all_digits(t) {
            assert forall|i: int| 0 <= i < s.len() implies is_digit(#[trigger] s[i]) by {
                if i > 0 {
                    assert(s[i] == t[i - 1]);
                }
            }
        }
        if all_digits(s) {
            assert forall|i: int| 0 <= i < t.len() implies is_digit(#[trigger] t[i]) by {
                assert(t[i] == s[i + 1]);
            }
        }
    } else if s.len() > 0 {
        assert(!is_digit(s[0]));
    }
}

/// Digits stand for less than the power of ten with as many zeros.
proof fn lemma_digits_bound(s: Seq<char>)
    requires
        all_digits(s),
    ensures
        digits_value(s) < tenfold(s.len()),
    decreases s.len(),
{
    if s.len() > 0 {
        let t = s.drop_last();
        assert forall|i: int| 0 <= i < t.len() implies is_digit(#[trigger] t[i]) by {
            assert(t[i] == s[i]);
        }
        lemma_digits_bound(t);
        assert(is_digit(s[s.len() - 1]));
    }
}

proof fn lemma_tenfold_adds(a: nat, b: nat)
    ensures
        tenfold(a + b) == tenfold(a) * tenfold(b),
        tenfold(a) > 0,
    decreases a,
{
    if a > 0 {
        lemma_tenfold_adds((a - 1) as nat, b);
        let (x, y) = (tenfold((a - 1) as nat), tenfold(b));
        assert(10 * (x * y) == (10 * x) * y) by (nonlinear_arith);
    } else {
        assert(1 * tenfold(b) == tenfold(b));
    }
}

proof fn lemma_tenfold_grows(a: nat, b: nat)
    requires
        a <= b,
    ensures
        0 < tenfold(a) <= tenfold(b),
    decreases b,
{
    if b > 0 {
        if a < b {
            lemma_tenfold_grows(a, (b - 1) as nat);
        } else {
            lemma_tenfold_grows((a - 1) as nat, (b - 1) as nat);
        }
    }
}

/// Three zeros are worth at least nine doublings.
proof fn lemma_tenfold_doublings(k: nat)
    ensures
        tenfold(3 * k) >= pow2(9 * k),
    decreases k,
{
    if k == 0 {
        lemma2_to64();
    } else {
        let j = (k - 1) as nat;
        lemma_tenfold_doublings(j);
        reveal_with_fuel(tenfold, 4);
        lemma_pow2_adds(9 * j, 9);
        lemma2_to64();
        assert(tenfold(3 * k) == 1000 * tenfold(3 * j));
    }
}

/// A number of at least this size is beyond the largest finite double.
proof fn lemma_scaled_infinite(n: nat, e: int)
    requires
        n > 0,
        e >= 342,
    ensures
        scaled(n, e) == INFINITE,
{
    let t = tenfold(e as nat);
    let k = (INFINITE - 1) as nat;
    let u = pow2(UNIT_POWER as nat);
    lemma_tenfold_doublings(114);
    lemma_tenfold_grows(342, e as nat);
    lemma_pow2_adds(1026, UNIT_POWER as nat);
    lemma_pow2_adds(52, 2046);
    lemma_pow2_adds(2098, 2);
    lemma2_to64();
    lemma2_to64_rest();
    lemma_pow2_pos(UNIT_POWER as nat);
    assert(units(INFINITE as nat) == pow2(2098));
    lemma_units_increase(k, INFINITE as nat);
    assert(n * t >= t) by (nonlinear_arith)
        requires
            n > 0,
    ;
    let v = n * t;
    assert(2 * v * u >= 2 * (pow2(1026) * u)) by (nonlinear_arith)
        requires
            v >= pow2(1026),
    ;
    lemma_nearest_is(v, 1, INFINITE as nat);
}

/// Half-way between zero and the first double after it lies half a unit.
proof fn lemma_first_middle(d: nat)
    ensures
        (units(0) + units(1)) * d == d,
{
    lemma_units_zero(0);
    lemma2_to64();
    assert(1nat * pow2(0) == 1);
    let a = units(0) + units(1);
    assert(a * d == d) by (nonlinear_arith)
        requires
            a == 1,
    ;
}

/// A number this close to zero rounds to it.
proof fn lemma_scaled_zero(n: nat, places: nat, e: int)
    requires
        n < tenfold(places),
        e + places <= -360,
    ensures
        scaled(n, e) == 0,
{
    let d = tenfold((-e) as nat);
    let u = pow2(UNIT_POWER as nat);
    lemma_tenfold_grows(places + 360, (-e) as nat);
    lemma_tenfold_adds(places, 360);
    lemma_tenfold_doublings(120);
    lemma_pow2_adds(UNIT_POWER as nat, 6);
    lemma2_to64();
    lemma_tenfold_grows(0, places);
    let t = tenfold(places);
    assert(2 * n * u <= d) by (nonlinear_arith)
        requires
            n < t,
            t * tenfold(360) <= d,
            tenfold(360) >= u * 64,
    ;
    lemma_first_middle(d);
    assert(is_nearest(n, d, 0));
    lemma_nearest_is(n, d, 0);
}

/// No digits but zeros denote zero.
proof fn lemma_scaled_none(e: int)
    ensures
        scaled(0, e) == 0,
{
    let d = if e >= 0 {
        1
    } else {
        tenfold((-e) as nat)
    };
    if e < 0 {
        lemma_tenfold_grows(0, (-e) as nat);
    }
    let u = pow2(UNIT_POWER as nat);
    lemma_first_middle(d);
    assert(2 * 0nat * u == 0) by (nonlinear_arith);
    assert(is_nearest(0, d, 0));
    lemma_nearest_is(0, d, 0);
    if e >= 0 {
        assert(0 * tenfold(e as nat) == 0) by (nonlinear_arith);
    }
}

/// The largest exponent that is told from larger ones; each exponent beyond it
/// leads to zero or to infinity.
const EXPONENT_LIMIT: i128 = 1_000_000_000_000_000_000_000_000_000_000;

/// Whether `x` stands for the exponent `e`.
spec fn tells(x: i128, e: int) -> bool {
    ||| x == e
    ||| x == EXPONENT_LIMIT && e >= EXPONENT_LIMIT
    ||| x == -EXPONENT_LIMIT && e <= -EXPONENT_LIMIT
}

/// The number of digits at the front of `s`.
fn count_digits(s: &[char]) -> (r: usize)
    ensures
        r == leading_digits(s@),
        r <= s@.len(),
{
    let mut i: usize = 0;
    proof {
        assert(s@.skip(0) == s@);
    }
    while i < s.len() && digit(s[i])
        invariant
            i <= s@.len(),
            leading_digits(s@) == i + leading_digits(s@.skip(i as int)),
        decreases s@.len() - i,
    {
        proof {
            assert(s@.skip(i as int).drop_first() == s@.skip(i + 1));
        }
        i = i + 1;
    }
    i
}

/// Appends the digits `s` to the number `n`.
fn append_digits(n: Natural, s: &[char], Ghost(before): Ghost<Seq<char>>) -> (r: Natural)
    requires
        n@ == digits_value(before),
        all_digits(s@),
    ensures
        r@ == digits_value(before + s@),
{
    let mut out: Natural = n;
    let mut i: usize = 0;
    proof {
        assert(before + s@.take(0) == before);
    }
    while i < s.len()
        invariant
            i <= s@.len(),
            all_digits(s@),
            out@ == digits_value(before + s@.take(i as int)),
        decreases s@.len() - i,
    {
        proof {
            assert(is_digit(s@[i as int]));
            assert((before + s@.take(i + 1)).drop_last() == before + s@.take(i as int));
        }
        out = out.times_plus(10, value_of(s[i]));
        i = i + 1;
    }
    proof {
        assert(s@.take(i as int) == s@);
    }
    out
}

/// Reads an exponent.
fn read_exponent(s: &[char]) -> (r: Option<i128>)
    ensures
        r is Some <==> exponent(s@) is Some,
        r matches Some(x) ==> tells(x, exponent(s@)->0) && -EXPONENT_LIMIT <= x <= EXPONENT_LIMIT,
{
    let from: usize = if s.len() > 0 && (s[0] == '-' || s[0] == '+') {
        1
    } else {
        0
    };
    let t: &[char] = slice_subrange(s, from, s.len());
    proof {
        if from == 1 {
            assert(t@ == s@.drop_first());
        } else {
            assert(t@ == s@);
        }
        lemma_leading_digits(t@);
    }
    if t.len() == 0 || count_digits(t) < t.len() {
        return None;
    }
    let mut x: i128 = 0;
    let mut i: usize = 0;
    proof {
        assert(t@.take(0) == Seq::<char>::empty());
    }
    while i < t.len()
        invariant
            i <= t@.len(),
            all_digits(t@),
            0 <= x <= EXPONENT_LIMIT,
            x < EXPONENT_LIMIT ==> x == digits_value(t@.take(i as int)),
            x == EXPONENT_LIMIT ==> digits_value(t@.take(i as int)) >= EXPONENT_LIMIT,
        decreases t@.len() - i,
    {
        proof {
            assert(is_digit(t@[i as int]));
            assert(t@.take(i + 1).drop_last() == t@.take(i as int));
        }
        let next: i128 = 10 * x + value_of(t[i]) as i128;
        x = if next >= EXPONENT_LIMIT {
            EXPONENT_LIMIT
        } else {
            next
        };
        i = i + 1;
    }
    proof {
        assert(t@.take(i as int) == t@);
    }
    if s[0] == '-' {
        Some(-x)
    } else {
        Some(x)
    }
}

/// The double nearest to `n` times a power of ten.
fn scaled_of(n: &Natural, places: usize, x: i128, Ghost(e): Ghost<int>) -> (r: u64)
    requires
        n@ < tenfold(places as nat),
        -EXPONENT_LIMIT - 0x1_0000_0000_0000_0000 <= x <= EXPONENT_LIMIT,
        x == e || (x >= 342 && e >= 342) || (x + places <= -360 && e + places <= -360),
    ensures
        r == scaled(n@, e),
        r <= INFINITE,
{
    if n.is_zero() {
        proof {
            lemma_scaled_none(e);
        }
        return 0;
    }
    if x >= 342 {
        proof {
            lemma_scaled_infinite(n@, e);
        }
        return INFINITE;
    }
    if x + places as i128 <= -360 {
        proof {
            lemma_scaled_zero(n@, places as nat, e);
        }
        return 0;
    }
    let mut power: Natural = Natural::from_u64(1);
    let size: i128 = if x >= 0 {
        x
    } else {
        -x
    };
    let mut i: i128 = 0;
    while i < size
        invariant
            0 <= i <= size,
            power@ == tenfold(i as nat),
        decreases size - i,
    {
        power = power.times_plus(10, 0);
        i = i + 1;
    }
    proof {
        lemma_tenfold_grows(0, size as nat);
    }
    if x >= 0 {
        let mut top: Natural = n.times_plus(1, 0);
        let mut j: i128 = 0;
        proof {
            assert(n@ * tenfold(0) == n@) by (nonlinear_arith)
                requires
                    tenfold(0) == 1,
            ;
        }
        while j < size
            invariant
                0 <= j <= size,
                top@ == n@ * tenfold(j as nat),
            decreases size - j,
        {
            proof {
                let t = tenfold(j as nat);
                assert(n@ * t * 10 == n@ * (10 * t)) by (nonlinear_arith);
            }
            top = top.times_plus(10, 0);
            j = j + 1;
        }
        let one: Natural = Natural::from_u64(1);
        nearest_of(&top, &one)
    } else {
        nearest_of(n, &power)
    }
}

/// Reads a number in decimal notation.
fn read_notation(s: &[char]) -> (r: Option<u64>)
    ensures
        r is Some <==> notation(s@) is Some,
        r matches Some(k) ==> k <= INFINITE,
        notation(s@) matches Some((digits, e)) ==> r->0 == scaled(digits_value(digits), e),
{
    let n: usize = count_digits(s);
    let front: &[char] = slice_subrange(s, 0, n);
    let rest: &[char] = slice_subrange(s, n, s.len());
    proof {
        lemma_leading_digits(s@);
        assert(front@ == digit_run(s@));
        assert(rest@ == after_digits(s@));
    }
    let dotted: bool = rest.len() > 0 && rest[0] == '.';
    let behind: &[char] = if dotted {
        slice_subrange(rest, 1, rest.len())
    } else {
        rest
    };
    let m: usize = if dotted {
        count_digits(behind)
    } else {
        0
    };
    let back: &[char] = slice_subrange(behind, 0, m);
    let tail: &[char] = slice_subrange(behind, m, behind.len());
    let ghost digits = front@ + back@;
    proof {
        if dotted {
            assert(behind@ == rest@.drop_first());
            lemma_leading_digits(behind@);
            assert(back@ == digit_run(rest@.drop_first()));
            assert(tail@ == after_digits(rest@.drop_first()));
        } else {
            assert(back@ == Seq::<char>::empty());
            assert(tail@ == rest@);
        }
    }
    if n + m == 0 {
        return None;
    }
    let x: i128 = if tail.len() == 0 {
        0
    } else if tail[0] == 'e' || tail[0] == 'E' {
        let t: &[char] = slice_subrange(tail, 1, tail.len());
        proof {
            assert(t@ == tail@.drop_first());
        }
        match read_exponent(t) {
            None => {
                return None;
            },
            Some(x) => x,
        }
    } else {
        return None;
    };
    proof {
        assert(Seq::<char>::empty() + front@ == front@);
        assert forall|i: int| 0 <= i < digits.len() implies is_digit(#[trigger] digits[i]) by {
            if i < front@.len() {
                assert(digits[i] == front@[i]);
            } else {
                assert(digits[i] == back@[i - front@.len()]);
            }
        }
        lemma_digits_bound(digits);
    }
    let value: Natural = append_digits(
        append_digits(Natural::from_u64(0), front, Ghost(Seq::<char>::empty())),
        back,
        Ghost(front@),
    );
    let ghost (_, e) = notation(s@)->0;
    Some(scaled_of(&value, n + m, x - m as i128, Ghost(e)))
}

/// Whether `s` spells `word` without regard to case.
fn spelled(s: &[char], word: &str) -> (r: bool)
    ensures
        r == spells(s@, word@),
{
    let w: Vec<char> = chars_of(word);
    let ghost l = s@.map_values(|c: char| lower(c));
    if s.len() != w.len() {
        proof {
            assert(l.len() != word@.len());
        }
        return false;
    }
    let mut i: usize = 0;
    while i < s.len()
        invariant
            i <= s@.len(),
            w@ == word@,
            s@.len() == w@.len(),
            l == s@.map_values(|c: char| lower(c)),
            forall|j: int| 0 <= j < i ==> l[j] == w@[j],
        decreases s@.len() - i,
    {
        let c: char = if 'A' <= s[i] && s[i] <= 'Z' {
            (s[i] as u8 + 32) as char
        } else {
            s[i]
        };
        if c != w[i] {
            proof {
                assert(l[i as int] != word@[i as int]);
            }
            return false;
        }
        i = i + 1;
    }
    proof {
        assert(l =~= word@);
    }
    true
}

impl Double {
    /// Reads the double that `s` denotes.
    pub fn from_chars(s: &[char]) -> (r: Option<Double>)
        ensures
            r == literal(s@),
    {
        let minus: bool = s.len() > 0 && s[0] == '-';
        let from: usize = if s.len() > 0 && (s[0] == '-' || s[0] == '+') {
            1
        } else {
            0
        };
        let body: &[char] = slice_subrange(s, from, s.len());
        proof {
            if from == 1 {
                assert(body@ == s@.drop_first());
            } else {
                assert(body@ == s@);
            }
        }
        let sign: u64 = if minus {
            SIGN
        } else {
            0
        };
        if spelled(body, "inf") || spelled(body, "infinity") {
            return Some(Double { bits: INFINITE + sign });
        }
        if spelled(body, "nan") {
            return Some(Double { bits: NOT_A_NUMBER + sign });
        }
        match read_notation(body) {
            None => None,
            Some(k) => Some(Double { bits: k + sign }),
        }
    }
}

} // verus!
