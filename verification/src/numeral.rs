//! Decimal numerals: reading and writing whole numbers, and setting text to a
//! width.

use crate::natural::{Natural, Relation};
use crate::text::string_of;
use vstd::prelude::*;
use vstd::slice::slice_subrange;

verus! {

/// Whether `c` is a decimal digit.
pub open spec fn is_digit(c: char) -> bool {
    '0' <= c <= '9'
}

/// What the digit `c` stands for.
pub open spec fn digit_value(c: char) -> nat {
    (c as int - '0' as int) as nat
}

/// The digit that stands for `d`.
pub open spec fn digit_char(d: nat) -> char {
    ('0' as int + d) as char
}

/// Whether `s` holds digits alone.
pub open spec fn all_digits(s: Seq<char>) -> bool {
    forall|i: int| 0 <= i < s.len() ==> is_digit(#[trigger] s[i])
}

/// What the digits `s` stand for.
pub open spec fn digits_value(s: Seq<char>) -> nat
    decreases s.len(),
{
    if s.len() == 0 {
        0
    } else {
        10 * digits_value(s.drop_last()) + digit_value(s.last())
    }
}

/// The numeral of `n`.
pub open spec fn decimal(n: nat) -> Seq<char>
    decreases n,
{
    if n < 10 {
        seq![digit_char(n)]
    } else {
        decimal(n / 10).push(digit_char(n % 10))
    }
}

/// The numeral of `n`, with a sign where `n` is below zero.
pub open spec fn signed_decimal(n: int) -> Seq<char> {
    if n < 0 {
        seq!['-'] + decimal((-n) as nat)
    } else {
        decimal(n as nat)
    }
}

/// A row of `n` spaces.
pub open spec fn spaces(n: nat) -> Seq<char> {
    Seq::new(n, |i: int| ' ')
}

/// `s`, brought to the width `w` by spaces behind it.
pub open spec fn left_aligned(s: Seq<char>, w: nat) -> Seq<char> {
    if s.len() < w {
        s + spaces((w - s.len()) as nat)
    } else {
        s
    }
}

/// `s`, brought to the width `w` by spaces before it.
pub open spec fn right_aligned(s: Seq<char>, w: nat) -> Seq<char> {
    if s.len() < w {
        spaces((w - s.len()) as nat) + s
    } else {
        s
    }
}

/// Why a text is no numeral of the wanted kind.
#[derive(Clone, Copy, Debug, PartialEq, Eq, Structural)]
pub enum IntError {
    /// There is no text at all.
    Empty,
    /// A character that should be a digit is none, or no digit follows a sign.
    InvalidDigit,
    /// The number is larger than the largest that is wanted.
    Overflow,
}

/// Reads the digits `s` from the front, as long as the number they stand for
/// does not go beyond `max`.
pub open spec fn bounded_digits(s: Seq<char>, max: nat) -> Result<nat, IntError>
    decreases s.len(),
{
    if s.len() == 0 {
        Ok(0)
    } else {
        match bounded_digits(s.drop_last(), max) {
            Err(e) => Err(e),
            Ok(n) => if !is_digit(s.last()) {
                Err(IntError::InvalidDigit)
            } else if 10 * n + digit_value(s.last()) > max {
                Err(IntError::Overflow)
            } else {
                Ok(10 * n + digit_value(s.last()))
            },
        }
    }
}

/// Reads a number from zero to `max`; it may have a plus sign.
pub open spec fn unsigned(s: Seq<char>, max: nat) -> Result<nat, IntError> {
    if s.len() == 0 {
        Err(IntError::Empty)
    } else if s.len() == 1 && (s[0] == '+' || s[0] == '-') {
        Err(IntError::InvalidDigit)
    } else if s[0] == '+' {
        bounded_digits(s.drop_first(), max)
    } else {
        bounded_digits(s, max)
    }
}

/// Reads a number that fits in 64 bits; it may have a sign.
pub open spec fn signed(s: Seq<char>) -> Option<int> {
    if s.len() < 2 || s[0] != '-' {
        match unsigned(s, i64::MAX as nat) {
            Ok(n) => Some(n as int),
            Err(_) => None,
        }
    } else {
        match bounded_digits(s.drop_first(), 0x8000_0000_0000_0000) {
            Ok(n) => Some(-(n as int)),
            Err(_) => None,
        }
    }
}

/// Reading digits succeeds exactly on digits whose number is small enough, and
/// gives that number.
pub proof fn lemma_bounded_digits(s: Seq<char>, max: nat)
    ensures
        bounded_digits(s, max) is Ok <==> all_digits(s) && digits_value(s) <= max,
        bounded_digits(s, max) matches Ok(n) ==> n == digits_value(s),
    decreases s.len(),
{
    if s.len() > 0 {
        let t = s.drop_last();
        lemma_bounded_digits(t, max);
        if all_digits(s) {
            assert forall|i: int| 0 <= i < t.len() implies is_digit(#[trigger] t[i]) by {
                assert(is_digit(s[i]));
            }
        }
        if all_digits(t) && is_digit(s.last()) {
            assert forall|i: int| 0 <= i < s.len() implies is_digit(#[trigger] s[i]) by {
                if i < t.len() {
                    assert(is_digit(t[i]));
                }
            }
        }
        assert(is_digit(s.last()) || !all_digits(s));
    }
}

/// The numeral of a number reads as that number.
pub proof fn lemma_decimal(n: nat)
    ensures
        decimal(n).len() > 0,
        all_digits(decimal(n)),
        digits_value(decimal(n)) == n,
    decreases n,
{
    if n < 10 {
        let s = seq![digit_char(n)];
        assert(s.drop_last() == Seq::<char>::empty());
        assert(digits_value(s.drop_last()) == 0);
    } else {
        lemma_decimal(n / 10);
        let s = decimal(n / 10);
        let c = digit_char(n % 10);
        assert(s.push(c).drop_last() == s);
        assert forall|i: int| 0 <= i < s.push(c).len() implies is_digit(#[trigger] s.push(c)[i]) by {
            if i < s.len() {
                assert(is_digit(s[i]));
            }
        }
    }
}

/// Writing a number and reading it again gives it back.
pub proof fn law_numeral_round_trip(n: nat, max: nat)
    requires
        n <= max,
    ensures
        unsigned(decimal(n), max) == Ok::<nat, IntError>(n),
{
    lemma_decimal(n);
    lemma_bounded_digits(decimal(n), max);
    assert(is_digit(decimal(n)[0]));
}

/// Writing a number with its sign and reading it again gives it back.
pub proof fn law_signed_round_trip(n: int)
    requires
        i64::MIN <= n <= i64::MAX,
    ensures
        signed(signed_decimal(n)) == Some(n),
{
    if n < 0 {
        let m = (-n) as nat;
        lemma_decimal(m);
        lemma_bounded_digits(decimal(m), 0x8000_0000_0000_0000);
        let s = signed_decimal(n);
        assert(s.drop_first() == decimal(m));
    } else {
        law_numeral_round_trip(n as nat, i64::MAX as nat);
        lemma_decimal(n as nat);
        assert(is_digit(decimal(n as nat)[0]));
    }
}

/// The digit that stands for `d`.
fn digit_of(d: u8) -> (r: char)
    requires
        d < 10,
    ensures
        r == digit_char(d as nat),
{
    (48 + d) as char
}

/// What the digit `c` stands for.
pub fn value_of(c: char) -> (r: u64)
    requires
        is_digit(c),
    ensures
        r == digit_value(c),
        r < 10,
{
    c as u64 - '0' as u64
}

/// Whether `c` is a decimal digit.
pub fn digit(c: char) -> (r: bool)
    ensures
        r == is_digit(c),
{
    '0' <= c && c <= '9'
}

/// The numeral of `n`.
pub fn numeral(n: Natural) -> (r: Vec<char>)
    ensures
        r@ == decimal(n@),
{
    let ghost whole = n@;
    let mut rest: Natural = n;
    let ten: Natural = Natural::from_u64(10);
    let mut back: Vec<char> = Vec::new();
    proof {
        assert(decimal(rest@) + back@.reverse() == decimal(whole));
    }
    loop
        invariant_except_break
            ten@ == 10,
            decimal(rest@) + back@.reverse() == decimal(whole),
        ensures
            rest@ < 10,
            decimal(rest@) + back@.reverse() == decimal(whole),
        decreases rest@,
    {
        match rest.relate(&ten) {
            Relation::Less => {
                break;
            },
            _ => {},
        }
        let ghost before = rest@;
        let ghost held = back@;
        let d: u8 = rest.split_digit();
        let c: char = digit_of(d);
        back.push(c);
        proof {
            assert(held.push(c).reverse() == seq![c] + held.reverse());
            assert(decimal(before) == decimal(before / 10).push(c));
            assert(decimal(before / 10).push(c) + held.reverse() == decimal(before / 10) + (seq![c]
                + held.reverse()));
        }
    }
    let d: u8 = rest.split_digit();
    let mut out: Vec<char> = Vec::new();
    out.push(digit_of(d));
    let mut i: usize = back.len();
    proof {
        assert(back@.reverse().take(0) == Seq::<char>::empty());
        assert(out@ + back@.reverse().take(0) == out@);
    }
    let ghost first = out@;
    while i > 0
        invariant
            i <= back@.len(),
            out@ == first + back@.reverse().take(back@.len() - i),
        decreases i,
    {
        i = i - 1;
        out.push(back[i]);
        proof {
            let k = back@.len() - i - 1;
            assert(back@.reverse()[k] == back@[i as int]);
            assert(back@.reverse().take(k + 1) == back@.reverse().take(k).push(back@[i as int]));
        }
    }
    proof {
        assert(back@.reverse().take(back@.len() as int) == back@.reverse());
    }
    out
}

/// The numeral of `n`.
pub fn numeral_of(n: u64) -> (r: String)
    ensures
        r@ == decimal(n as nat),
{
    let digits: Vec<char> = numeral(Natural::from_u64(n));
    string_of(digits.as_slice())
}

/// The numeral of `n`, with its sign.
pub fn signed_numeral_of(n: i32) -> (r: String)
    ensures
        r@ == signed_decimal(n as int),
{
    if n < 0 {
        let mut out: String = String::new();
        out.push('-');
        let digits: String = numeral_of((-(n as i64)) as u64);
        out.append(digits.as_str());
        proof {
            assert(Seq::<char>::empty().push('-') == seq!['-']);
        }
        out
    } else {
        numeral_of(n as u64)
    }
}

/// A row of `n` spaces.
fn blank(n: usize) -> (r: String)
    ensures
        r@ == spaces(n as nat),
{
    let mut out: String = String::new();
    let mut i: usize = 0;
    while i < n
        invariant
            i <= n,
            out@ == spaces(i as nat),
        decreases n - i,
    {
        out.push(' ');
        proof {
            assert(spaces(i as nat).push(' ') == spaces((i + 1) as nat));
        }
        i = i + 1;
    }
    out
}

/// `s`, brought to the width `w` by spaces behind it.
pub fn align_left(s: &str, w: usize) -> (r: String)
    ensures
        r@ == left_aligned(s@, w as nat),
{
    let mut out: String = String::from_str(s);
    let n: usize = s.unicode_len();
    if n < w {
        out.append(blank(w - n).as_str());
    }
    out
}

/// `s`, brought to the width `w` by spaces before it.
pub fn align_right(s: &str, w: usize) -> (r: String)
    ensures
        r@ == right_aligned(s@, w as nat),
{
    let n: usize = s.unicode_len();
    if n < w {
        let mut out: String = blank(w - n);
        out.append(s);
        out
    } else {
        String::from_str(s)
    }
}

/// Reads digits, up to the number `max`.
pub fn read_digits(s: &[char], max: u64) -> (r: Result<u64, IntError>)
    ensures
        r is Ok <==> bounded_digits(s@, max as nat) is Ok,
        r matches Ok(n) ==> bounded_digits(s@, max as nat) == Ok::<nat, IntError>(n as nat),
        r matches Err(e) ==> bounded_digits(s@, max as nat) == Err::<nat, IntError>(e),
{
    let mut n: u64 = 0;
    let mut i: usize = 0;
    proof {
        assert(s@.take(0) == Seq::<char>::empty());
    }
    while i < s.len()
        invariant
            i <= s@.len(),
            n <= max,
            bounded_digits(s@.take(i as int), max as nat) == Ok::<nat, IntError>(n as nat),
        decreases s@.len() - i,
    {
        proof {
            assert(s@.take(i + 1).drop_last() == s@.take(i as int));
        }
        if !digit(s[i]) {
            proof {
                lemma_bounded_stays(s@, i + 1, max as nat);
            }
            return Err(IntError::InvalidDigit);
        }
        let next: u128 = 10 * n as u128 + value_of(s[i]) as u128;
        if next > max as u128 {
            proof {
                lemma_bounded_stays(s@, i + 1, max as nat);
            }
            return Err(IntError::Overflow);
        }
        n = next as u64;
        i = i + 1;
    }
    proof {
        assert(s@.take(i as int) == s@);
    }
    Ok(n)
}

/// Once the digits at the front have been refused, no digits behind them help.
pub proof fn lemma_bounded_stays(s: Seq<char>, n: int, max: nat)
    requires
        0 <= n <= s.len(),
        bounded_digits(s.take(n), max) is Err,
    ensures
        bounded_digits(s, max) == bounded_digits(s.take(n), max),
    decreases s.len(),
{
    if n == s.len() {
        assert(s.take(n) == s);
    } else {
        let t = s.drop_last();
        assert(t.take(n) == s.take(n));
        lemma_bounded_stays(t, n, max);
    }
}

/// Reads a number from zero to `max`.
pub fn read_unsigned(s: &[char], max: u64) -> (r: Result<u64, IntError>)
    ensures
        r is Ok <==> unsigned(s@, max as nat) is Ok,
        r matches Ok(n) ==> unsigned(s@, max as nat) == Ok::<nat, IntError>(n as nat),
        r matches Err(e) ==> unsigned(s@, max as nat) == Err::<nat, IntError>(e),
{
    if s.len() == 0 {
        return Err(IntError::Empty);
    }
    if s.len() == 1 && (s[0] == '+' || s[0] == '-') {
        return Err(IntError::InvalidDigit);
    }
    if s[0] == '+' {
        let t: &[char] = slice_subrange(s, 1, s.len());
        proof {
            assert(t@ == s@.drop_first());
        }
        read_digits(t, max)
    } else {
        read_digits(s, max)
    }
}

/// Reads a number that fits in 64 bits.
pub fn read_signed(s: &[char]) -> (r: Option<i64>)
    ensures
        r is Some <==> signed(s@) is Some,
        r matches Some(n) ==> signed(s@) == Some(n as int),
{
    if s.len() < 2 || s[0] != '-' {
        match read_unsigned(s, i64::MAX as u64) {
            Ok(n) => Some(n as i64),
            Err(_) => None,
        }
    } else {
        let t: &[char] = slice_subrange(s, 1, s.len());
        proof {
            assert(t@ == s@.drop_first());
        }
        match read_digits(t, 0x8000_0000_0000_0000) {
            Ok(n) => {
                if n == 0x8000_0000_0000_0000 {
                    Some(i64::MIN)
                } else {
                    Some(-(n as i64))
                }
            },
            Err(_) => None,
        }
    }
}

} // verus!
