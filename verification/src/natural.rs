//! Natural numbers of any size, as far as the arithmetic of double-precision
//! numbers needs them: scaling, comparing, and splitting off decimal digits.

use vstd::arithmetic::power2::{lemma2_to64, lemma_pow2_adds, pow2};
use vstd::prelude::*;

verus! {

/// The number of values that one limb can hold.
pub const BASE: u128 = 0x1_0000_0000_0000_0000;

/// The weight of the limb at position `i`.
pub open spec fn weight(i: nat) -> nat
    decreases i,
{
    if i == 0 {
        1
    } else {
        0x1_0000_0000_0000_0000 * weight((i - 1) as nat)
    }
}

/// The limb at position `i`; beyond the stored limbs there are only zeros.
pub open spec fn limb(s: Seq<u64>, i: nat) -> nat {
    if i < s.len() {
        s[i as int] as nat
    } else {
        0
    }
}

/// What the lowest `n` limbs of `s` stand for.
pub open spec fn low(s: Seq<u64>, n: nat) -> nat
    decreases n,
{
    if n == 0 {
        0
    } else {
        low(s, (n - 1) as nat) + limb(s, (n - 1) as nat) * weight((n - 1) as nat)
    }
}

/// How one number stands to another.
#[derive(Clone, Copy, Debug, PartialEq, Eq, Structural)]
pub enum Relation {
    Less,
    Equal,
    Greater,
}

/// The relation in which `a` stands to `b`.
pub open spec fn relation(a: nat, b: nat) -> Relation {
    if a < b {
        Relation::Less
    } else if a == b {
        Relation::Equal
    } else {
        Relation::Greater
    }
}

/// A natural number, written in base 2^64 with the lowest limb first.
#[derive(Debug)]
pub struct Natural {
    limbs: Vec<u64>,
}

impl View for Natural {
    type V = nat;

    closed spec fn view(&self) -> nat {
        low(self.limbs@, self.limbs@.len())
    }
}

/// The lowest `n` limbs decide `low`.
proof fn lemma_low_same(s: Seq<u64>, t: Seq<u64>, n: nat)
    requires
        forall|j: nat| j < n ==> limb(s, j) == limb(t, j),
    ensures
        low(s, n) == low(t, n),
    decreases n,
{
    if n > 0 {
        lemma_low_same(s, t, (n - 1) as nat);
    }
}

/// Limbs beyond the stored ones add nothing.
proof fn lemma_low_beyond(s: Seq<u64>, n: nat)
    requires
        n >= s.len(),
    ensures
        low(s, n) == low(s, s.len()),
    decreases n,
{
    if n > s.len() {
        lemma_low_beyond(s, (n - 1) as nat);
        assert(limb(s, (n - 1) as nat) * weight((n - 1) as nat) == 0) by (nonlinear_arith)
            requires
                limb(s, (n - 1) as nat) == 0,
        ;
    }
}

/// The lowest `n` limbs stand for less than the weight of the next one.
proof fn lemma_low_bound(s: Seq<u64>, n: nat)
    ensures
        low(s, n) < weight(n),
    decreases n,
{
    if n > 0 {
        let m = (n - 1) as nat;
        lemma_low_bound(s, m);
        let x = limb(s, m);
        let w = weight(m);
        assert(x * w <= 0xffff_ffff_ffff_ffff * w) by (nonlinear_arith)
            requires
                x <= 0xffff_ffff_ffff_ffff,
        ;
    }
}

/// What a new limb at position `m` changes.
proof fn lemma_low_update(s: Seq<u64>, m: nat, q: u64, n: nat)
    requires
        m < s.len(),
        n <= s.len(),
    ensures
        n > m ==> low(s.update(m as int, q), n) == low(s, n) + q as nat * weight(m) - s[m as int]
            * weight(m),
        n <= m ==> low(s.update(m as int, q), n) == low(s, n),
    decreases n,
{
    if n > 0 {
        lemma_low_update(s, m, q, (n - 1) as nat);
    }
}

/// One step of multiplying limb by limb.
proof fn lemma_times_step(done: nat, out: nat, w: nat, x: nat, m: nat, a: nat, carry: nat, lo: nat, hi: nat)
    requires
        out + carry * w == done * m + a,
        lo + 0x1_0000_0000_0000_0000 * hi == x * m + carry,
    ensures
        (out + lo * w) + hi * (0x1_0000_0000_0000_0000 * w) == (done + x * w) * m + a,
{
    assert((out + lo * w) + hi * (0x1_0000_0000_0000_0000 * w) == out + (lo
        + 0x1_0000_0000_0000_0000 * hi) * w) by (nonlinear_arith);
    assert((x * m + carry) * w == x * m * w + carry * w) by (nonlinear_arith);
    assert((done + x * w) * m == done * m + x * m * w) by (nonlinear_arith);
}

impl Natural {
    /// The number `x`.
    pub fn from_u64(x: u64) -> (r: Natural)
        ensures
            r@ == x,
    {
        let mut limbs: Vec<u64> = Vec::new();
        limbs.push(x);
        proof {
            reveal_with_fuel(low, 2);
            assert(x as nat * weight(0) == x) by (nonlinear_arith)
                requires
                    weight(0) == 1,
            ;
        }
        Natural { limbs }
    }

    /// `m` times this number, plus `a`.
    pub fn times_plus(&self, m: u64, a: u64) -> (r: Natural)
        ensures
            r@ == self@ * m + a,
    {
        let mut out: Vec<u64> = Vec::new();
        let mut carry: u64 = a;
        let mut i: usize = 0;
        proof {
            assert(a as nat * weight(0) == a && low(self.limbs@, 0) * (m as nat) == 0)
                by (nonlinear_arith)
                requires
                    weight(0) == 1,
                    low(self.limbs@, 0) == 0,
            ;
        }
        while i < self.limbs.len()
            invariant
                i <= self.limbs@.len(),
                out@.len() == i,
                low(out@, i as nat) + carry as nat * weight(i as nat) == low(self.limbs@, i as nat) * (
                m as nat) + a as nat,
            decreases self.limbs@.len() - i,
        {
            let x: u64 = self.limbs[i];
            proof {
                assert(x as nat * m as nat <= 0xffff_ffff_ffff_ffff * 0xffff_ffff_ffff_ffff)
                    by (nonlinear_arith)
                    requires
                        x <= 0xffff_ffff_ffff_ffff,
                        m <= 0xffff_ffff_ffff_ffff,
                ;
            }
            let t: u128 = x as u128 * m as u128 + carry as u128;
            let lo: u64 = (t % BASE) as u64;
            let hi: u64 = (t / BASE) as u64;
            let ghost before = out@;
            out.push(lo);
            proof {
                lemma_low_same(before, out@, i as nat);
                lemma_times_step(
                    low(self.limbs@, i as nat),
                    low(before, i as nat),
                    weight(i as nat),
                    x as nat,
                    m as nat,
                    a as nat,
                    carry as nat,
                    lo as nat,
                    hi as nat,
                );
            }
            carry = hi;
            i = i + 1;
        }
        let ghost before = out@;
        out.push(carry);
        proof {
            lemma_low_same(before, out@, i as nat);
        }
        Natural { limbs: out }
    }

    /// This number times the `k`-th power of two.
    pub fn shifted(&self, k: u32) -> (r: Natural)
        ensures
            r@ == self@ * pow2(k as nat),
    {
        let mut out: Natural = self.times_plus(1, 0);
        let mut left: u32 = k;
        while left > 0
            invariant
                left <= k,
                out@ * pow2(left as nat) == self@ * pow2(k as nat),
            decreases left,
        {
            let step: u32 = if left >= 32 {
                32
            } else {
                1
            };
            let factor: u64 = if left >= 32 {
                0x1_0000_0000
            } else {
                2
            };
            let ghost before = out@;
            out = out.times_plus(factor, 0);
            proof {
                lemma2_to64();
                let rest = (left - step) as nat;
                lemma_pow2_adds(rest, step as nat);
                assert(before * factor as nat * pow2(rest) == before * (pow2(rest) * factor as nat))
                    by (nonlinear_arith);
            }
            left = left - step;
        }
        proof {
            lemma2_to64();
            assert(out@ * 1 == out@);
        }
        out
    }

    /// How this number stands to `other`.
    pub fn relate(&self, other: &Natural) -> (r: Relation)
        ensures
            r == relation(self@, other@),
    {
        let n: usize = if self.limbs.len() >= other.limbs.len() {
            self.limbs.len()
        } else {
            other.limbs.len()
        };
        let ghost s = self.limbs@;
        let ghost t = other.limbs@;
        proof {
            lemma_low_beyond(s, n as nat);
            lemma_low_beyond(t, n as nat);
        }
        let mut i: usize = n;
        while i > 0
            invariant
                i <= n,
                s == self.limbs@,
                t == other.limbs@,
                self@ - low(s, i as nat) == other@ - low(t, i as nat),
            decreases i,
        {
            let x: u64 = if i - 1 < self.limbs.len() {
                self.limbs[i - 1]
            } else {
                0
            };
            let y: u64 = if i - 1 < other.limbs.len() {
                other.limbs[i - 1]
            } else {
                0
            };
            proof {
                let m = (i - 1) as nat;
                lemma_low_bound(s, m);
                lemma_low_bound(t, m);
                let w = weight(m);
                if x < y {
                    assert(x as nat * w + w <= y as nat * w) by (nonlinear_arith)
                        requires
                            x < y,
                    ;
                } else if y < x {
                    assert(y as nat * w + w <= x as nat * w) by (nonlinear_arith)
                        requires
                            y < x,
                    ;
                }
            }
            if x < y {
                return Relation::Less;
            }
            if y < x {
                return Relation::Greater;
            }
            i = i - 1;
        }
        Relation::Equal
    }

    /// Whether this number is zero.
    pub fn is_zero(&self) -> (r: bool)
        ensures
            r == (self@ == 0),
    {
        let zero: Natural = Natural::from_u64(0);
        match self.relate(&zero) {
            Relation::Equal => true,
            _ => false,
        }
    }

    /// Divides this number by ten, and gives back the digit that was split off.
    pub fn split_digit(&mut self) -> (r: u8)
        ensures
            final(self)@ == old(self)@ / 10,
            r == old(self)@ % 10,
    {
        let mut rest: u64 = 0;
        let mut i: usize = self.limbs.len();
        let ghost s = self.limbs@;
        let ghost n = s.len();
        while i > 0
            invariant
                i <= n,
                s.len() == n,
                self.limbs@.len() == n,
                rest < 10,
                forall|j: int| 0 <= j < i ==> self.limbs@[j] == s[j],
                low(s, n) - low(s, i as nat) == 10 * (low(self.limbs@, n) - low(
                    self.limbs@,
                    i as nat,
                )) + rest as nat * weight(i as nat),
            decreases i,
        {
            let x: u64 = self.limbs[i - 1];
            let t: u128 = rest as u128 * BASE + x as u128;
            let q: u64 = (t / 10) as u64;
            let ghost before = self.limbs@;
            self.limbs.set(i - 1, q);
            let after: u64 = (t % 10) as u64;
            proof {
                let m = (i - 1) as nat;
                let w = weight(m);
                lemma_low_update(before, m, q, n);
                lemma_low_same(before, self.limbs@, m);
                lemma_low_same(before, s, m);
                assert(rest as nat * (0x1_0000_0000_0000_0000 * w) + x as nat * w == 10 * (q as nat
                    * w) + after as nat * w) by (nonlinear_arith)
                    requires
                        rest as nat * 0x1_0000_0000_0000_0000 + x as nat == 10 * q as nat
                            + after as nat,
                ;
            }
            rest = after;
            i = i - 1;
        }
        proof {
            assert(rest as nat * weight(0) == rest) by (nonlinear_arith)
                requires
                    weight(0) == 1,
            ;
        }
        rest as u8
    }
}

} // verus!
