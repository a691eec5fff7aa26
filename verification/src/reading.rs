//! What reading and writing text promises: how lines, words and numbers are
//! put together and taken apart.

use crate::numeral::{
    align_left, align_right, all_digits, bounded_digits, decimal, digit_value, digits_value,
    is_digit, lemma_bounded_digits, lemma_bounded_stays, lemma_decimal, numeral_of, read_signed,
    read_unsigned, signed_numeral_of, IntError,
};
use crate::text::{
    begins, find, first_index, is_space, join_spaced, joined, lemma_word_len, lemma_words_trimmed,
    lines, split_lines, split_words, strings, strip_return, texts, trim, trim_end, trim_start,
    trimmed, without_front, word_len, words,
};
use vstd::prelude::*;

verus! {

/// Whether `s` has no white space in it.
pub open spec fn no_space(s: Seq<char>) -> bool {
    forall|i: int| 0 <= i < s.len() ==> !is_space(#[trigger] s[i])
}

/// Whether `s` has nothing but white space in it.
pub open spec fn all_space(s: Seq<char>) -> bool {
    forall|i: int| 0 <= i < s.len() ==> is_space(#[trigger] s[i])
}

/// Whether `c` does not stand in `s`.
pub open spec fn lacks(s: Seq<char>, c: char) -> bool {
    forall|i: int| 0 <= i < s.len() ==> #[trigger] s[i] != c
}

/// What `first_index` says of the characters of `s`.
proof fn lemma_first_index(s: Seq<char>, c: char)
    ensures
        first_index(s, c) <= s.len(),
        first_index(s, c) < s.len() ==> s[first_index(s, c) as int] == c,
        lacks(s.take(first_index(s, c) as int), c),
    decreases s.len(),
{
    if s.len() > 0 && s[0] != c {
        let t = s.drop_first();
        lemma_first_index(t, c);
        let k = first_index(s, c) as int;
        assert forall|i: int| 0 <= i < k implies #[trigger] s.take(k)[i] != c by {
            if i > 0 {
                assert(t.take(k - 1)[i - 1] == s.take(k)[i]);
            }
        }
    }
}

/// What stands before a character, if it is not that character itself, tells
/// where the character first stands.
pub proof fn lemma_first_index_of(a: Seq<char>, c: char, b: Seq<char>)
    requires
        lacks(a, c),
    ensures
        first_index(a + seq![c] + b, c) == a.len(),
{
    let s = a + seq![c] + b;
    lemma_first_index(s, c);
    let k = first_index(s, c) as int;
    assert(s[a.len() as int] == c);
    if k < a.len() {
        assert(s[k] == a[k]);
    }
    if k > a.len() {
        assert(s.take(k)[a.len() as int] == c);
    }
}

/// A search finds the first place of a character, and the end where there is
/// none.
pub proof fn law_search(s: &[char], c: char, r: usize)
    requires
        call_ensures(find, (s, c), r),
    ensures
        r <= s@.len(),
        r < s@.len() ==> s@[r as int] == c,
        lacks(s@.take(r as int), c),
{
    lemma_first_index(s@, c);
}

proof fn lemma_trim_start_split(s: Seq<char>)
    ensures
        ({
            let t = trim_start(s);
            let n = s.len() - t.len();
            &&& 0 <= n <= s.len()
            &&& t == s.skip(n)
            &&& all_space(s.take(n))
            &&& t.len() > 0 ==> !is_space(t[0])
        }),
    decreases s.len(),
{
    if s.len() > 0 && is_space(s[0]) {
        let u = s.drop_first();
        lemma_trim_start_split(u);
        let t = trim_start(s);
        let n = s.len() - t.len();
        assert(t == s.skip(n));
        assert forall|i: int| 0 <= i < n implies is_space(#[trigger] s.take(n)[i]) by {
            if i > 0 {
                assert(u.take(n - 1)[i - 1] == s.take(n)[i]);
            }
        }
    } else {
        assert(s.skip(0) == s);
    }
}

proof fn lemma_trim_end_split(s: Seq<char>)
    ensures
        ({
            let t = trim_end(s);
            let n = t.len() as int;
            &&& n <= s.len()
            &&& t == s.take(n)
            &&& all_space(s.skip(n))
            &&& t.len() > 0 ==> !is_space(t.last())
        }),
    decreases s.len(),
{
    if s.len() > 0 && is_space(s.last()) {
        let u = s.drop_last();
        lemma_trim_end_split(u);
        let n = trim_end(s).len() as int;
        assert(trim_end(s) == s.take(n));
        assert forall|i: int| 0 <= i < s.len() - n implies is_space(#[trigger] s.skip(n)[i]) by {
            if i < u.len() - n {
                assert(u.skip(n)[i] == s.skip(n)[i]);
            }
        }
    } else {
        assert(s.take(s.len() as int) == s);
    }
}

/// Whether `t` is `s` without the white space around it: what is cut off is white
/// space, and what stays neither begins nor ends with any.
pub open spec fn is_trimmed(s: Seq<char>, t: Seq<char>) -> bool {
    &&& t.len() > 0 ==> !is_space(t[0]) && !is_space(t.last())
    &&& exists|a: Seq<char>, b: Seq<char>|
        s == #[trigger] (a + t + b) && all_space(a) && all_space(b)
}

/// Trimming cuts off the white space around a text, all of it and nothing else.
pub proof fn law_trim(s: Seq<char>)
    ensures
        is_trimmed(s, trim(s)),
{
    let u = trim_start(s);
    let t = trim(s);
    lemma_trim_start_split(s);
    lemma_trim_end_split(u);
    let a = s.take(s.len() - u.len());
    let b = u.skip(t.len() as int);
    assert(s == a + t + b);
    if t.len() > 0 {
        assert(t[0] == u[0]);
    }
}

/// Trimming a piece of text, as it is done.
pub proof fn law_trimming(s: &[char], r: &[char])
    requires
        call_ensures(trimmed, (s,), r),
    ensures
        is_trimmed(s@, r@),
{
    law_trim(s@);
}

proof fn lemma_trim_start_skips(a: Seq<char>, t: Seq<char>)
    requires
        all_space(a),
    ensures
        trim_start(a + t) == trim_start(t),
    decreases a.len(),
{
    if a.len() == 0 {
        assert(a + t == t);
    } else {
        assert(is_space(a[0]));
        assert((a + t).drop_first() == a.drop_first() + t);
        assert forall|i: int| 0 <= i < a.drop_first().len() implies is_space(
            #[trigger] a.drop_first()[i],
        ) by {
            assert(is_space(a[i + 1]));
        }
        lemma_trim_start_skips(a.drop_first(), t);
    }
}

proof fn lemma_trim_end_skips(t: Seq<char>, b: Seq<char>)
    requires
        all_space(b),
    ensures
        trim_end(t + b) == trim_end(t),
    decreases b.len(),
{
    if b.len() == 0 {
        assert(t + b == t);
    } else {
        assert(is_space(b[b.len() - 1]));
        assert((t + b).drop_last() == t + b.drop_last());
        assert forall|i: int| 0 <= i < b.drop_last().len() implies is_space(
            #[trigger] b.drop_last()[i],
        ) by {
            assert(is_space(b[i]));
        }
        lemma_trim_end_skips(t, b.drop_last());
    }
}

/// Whatever white space is put around a text that has none at its ends, trimming
/// gives the text back.
pub proof fn law_trim_gives_back(a: Seq<char>, t: Seq<char>, b: Seq<char>)
    requires
        all_space(a),
        all_space(b),
        t.len() > 0 ==> !is_space(t[0]) && !is_space(t.last()),
    ensures
        trim(a + t + b) == t,
{
    assert(a + t + b == a + (t + b));
    lemma_trim_start_skips(a, t + b);
    if t.len() > 0 {
        assert((t + b)[0] == t[0]);
        assert(trim_start(t + b) == t + b);
        lemma_trim_end_skips(t, b);
    } else {
        assert(t + b == b);
        let nothing = Seq::<char>::empty();
        assert(b + nothing == b);
        lemma_trim_start_skips(b, nothing);
        assert(trim_start(b) == nothing);
        assert(t == nothing);
    }
}

proof fn lemma_word_len_of(a: Seq<char>, rest: Seq<char>)
    requires
        rest.len() == 0 || is_space(rest[0]),
    ensures
        word_len(a + rest) == word_len(a),
    decreases a.len(),
{
    if a.len() == 0 {
        assert(a + rest == rest);
    } else if !is_space(a[0]) {
        assert((a + rest).drop_first() == a.drop_first() + rest);
        lemma_word_len_of(a.drop_first(), rest);
    }
}

proof fn lemma_word_len_all(a: Seq<char>)
    requires
        no_space(a),
    ensures
        word_len(a) == a.len(),
    decreases a.len(),
{
    if a.len() > 0 {
        let t = a.drop_first();
        assert(!is_space(a[0]));
        assert forall|i: int| 0 <= i < t.len() implies !is_space(#[trigger] t[i]) by {
            assert(!is_space(a[i + 1]));
        }
        lemma_word_len_all(t);
    }
}

/// White space parts words: the words of a text are those before a space and
/// those behind it; a text without white space is one word, and no text has no
/// words.
pub proof fn law_words(a: Seq<char>, c: char, b: Seq<char>)
    ensures
        is_space(c) ==> words(a + seq![c] + b) == words(a) + words(b),
        a.len() > 0 && no_space(a) ==> words(a) == seq![a],
        words(Seq::<char>::empty()) == Seq::<Seq<char>>::empty(),
    decreases a.len(),
{
    let s = a + seq![c] + b;
    let nothing = Seq::<Seq<char>>::empty();
    assert(words(Seq::<char>::empty()) == nothing);
    if a.len() > 0 && no_space(a) {
        lemma_word_len_all(a);
        assert(!is_space(a[0]));
        assert(trim_start(a) == a);
        assert(a.take(a.len() as int) == a);
        assert(a.skip(a.len() as int) == Seq::<char>::empty());
        assert(words(a) =~= seq![a]);
    }
    if is_space(c) {
        if a.len() == 0 {
            assert(s =~= seq![c] + b);
            assert(s.drop_first() == b);
            assert(trim_start(s) == trim_start(b));
            lemma_words_trimmed(s);
            lemma_words_trimmed(b);
            assert(nothing + words(b) == words(b));
            assert(a =~= Seq::<char>::empty());
        } else if is_space(a[0]) {
            let t = a.drop_first();
            assert(s.drop_first() == t + seq![c] + b);
            law_words(t, c, b);
            assert(trim_start(s) == trim_start(t + seq![c] + b));
            lemma_words_trimmed(s);
            lemma_words_trimmed(t + seq![c] + b);
            lemma_words_trimmed(a);
            lemma_words_trimmed(t);
        } else {
            let n = word_len(a) as int;
            lemma_word_len(a);
            assert(seq![c] + b == (seq![c] + b));
            lemma_word_len_of(a, seq![c] + b);
            assert(s == a + (seq![c] + b));
            assert(trim_start(s) == s && trim_start(a) == a);
            assert(s.take(n) == a.take(n));
            assert(s.skip(n) == a.skip(n) + seq![c] + b);
            law_words(a.skip(n), c, b);
            assert(words(s) == seq![a.take(n)] + words(s.skip(n)));
            assert(words(a) == seq![a.take(n)] + words(a.skip(n)));
            assert(words(s) =~= words(a) + words(b));
        }
    }
}

/// Splitting a text into words, as it is done.
pub proof fn law_splitting_words(s: &[char], r: Vec<Vec<char>>)
    requires
        call_ensures(split_words, (s,), r),
    ensures
        r@.len() == words(s@).len(),
        forall|i: int| 0 <= i < r@.len() ==> (#[trigger] r@[i])@ == words(s@)[i],
{
    assert(texts(r@).len() == r@.len());
    assert forall|i: int| 0 <= i < r@.len() implies (#[trigger] r@[i])@ == words(s@)[i] by {
        assert(texts(r@)[i] == r@[i]@);
    }
}

/// A line feed ends a line, and takes one carriage return before it along; what
/// is left at the end is a line too, as it stands, unless it is nothing.
pub proof fn law_lines(a: Seq<char>, rest: Seq<char>)
    requires
        lacks(a, '\n'),
    ensures
        lines(Seq::<char>::empty()) == Seq::<Seq<char>>::empty(),
        a.len() > 0 ==> lines(a) == seq![a],
        (a.len() == 0 || a.last() != '\r') ==> lines(a + seq!['\n'] + rest) == seq![a] + lines(rest),
        lines(a + seq!['\r'] + seq!['\n'] + rest) == seq![a] + lines(rest),
{
    lemma_first_index(a, '\n');
    let k = first_index(a, '\n') as int;
    if k < a.len() {
        assert(a[k] != '\n');
    }
    lemma_first_index_of(a, '\n', rest);
    let s = a + seq!['\n'] + rest;
    assert(s.take(a.len() as int) == a);
    assert(s.skip(a.len() as int + 1) == rest);
    let b = a + seq!['\r'];
    assert forall|i: int| 0 <= i < b.len() implies #[trigger] b[i] != '\n' by {
        if i < a.len() {
            assert(b[i] == a[i]);
        }
    }
    lemma_first_index_of(b, '\n', rest);
    let t = b + seq!['\n'] + rest;
    assert(t.take(b.len() as int) == b);
    assert(t.skip(b.len() as int + 1) == rest);
    assert(b.drop_last() == a);
    assert(strip_return(b) == a);
}

/// Splitting a text into lines, as it is done.
pub proof fn law_splitting_lines(s: &[char], r: Vec<Vec<char>>)
    requires
        call_ensures(split_lines, (s,), r),
    ensures
        r@.len() == lines(s@).len(),
        forall|i: int| 0 <= i < r@.len() ==> (#[trigger] r@[i])@ == lines(s@)[i],
{
    assert(texts(r@).len() == r@.len());
    assert forall|i: int| 0 <= i < r@.len() implies (#[trigger] r@[i])@ == lines(s@)[i] by {
        assert(texts(r@)[i] == r@[i]@);
    }
}

/// What follows a front is what was put behind it, and only what begins with a
/// front has it taken off.
pub proof fn law_fronts(s: &str, front: &str, r: Option<String>)
    requires
        call_ensures(without_front, (s, front), r),
    ensures
        r matches Some(t) ==> s@ == front@ + t@,
        r is None ==> forall|t: Seq<char>| s@ != #[trigger] (front@ + t),
{
    let n = front@.len() as int;
    if r is Some {
        assert(s@ == front@ + s@.skip(n));
    } else {
        assert forall|t: Seq<char>| s@ != #[trigger] (front@ + t) by {
            if s@ == front@ + t {
                assert(s@.take(n) == front@);
            }
        }
    }
}

/// Joining puts one space between each two texts, and none around them.
pub proof fn law_joins(v: Vec<String>, more: Vec<String>, x: String, r: String, longer: String)
    requires
        v@.len() > 0,
        more@ == v@.push(x),
        call_ensures(join_spaced, (&v,), r),
        call_ensures(join_spaced, (&more,), longer),
    ensures
        longer@ == r@ + " "@ + x@,
        v@.len() == 1 ==> r@ == v@[0]@,
{
    let all = strings(more@);
    assert(all.drop_last() == strings(v@));
    assert(all.last() == x@);
    assert(strings(v@)[0] == v@[0]@);
}

/// Two texts in a row.
pub proof fn law_a_row_of_two(a: &str, b: &str, r: String)
    requires
        call_ensures(joined, (a, b), r),
    ensures
        r@.len() == a@.len() + b@.len(),
        r@.take(a@.len() as int) == a@,
        r@.skip(a@.len() as int) == b@,
{
    assert((a@ + b@).take(a@.len() as int) == a@);
    assert((a@ + b@).skip(a@.len() as int) == b@);
}

/// Digits are the ten characters from `0` on, each with its value, and each
/// further digit makes ten times as much of those before it.
pub proof fn law_digits(s: Seq<char>, c: char)
    ensures
        is_digit(c) <==> 48 <= c as int <= 57,
        is_digit(c) ==> digit_value(c) == c as int - 48,
        digits_value(s.push(c)) == 10 * digits_value(s) + digit_value(c),
        digits_value(Seq::<char>::empty()) == 0,
{
    assert(s.push(c).drop_last() == s);
}

proof fn lemma_no_leading_zero(n: nat)
    ensures
        n > 0 ==> decimal(n)[0] != '0',
        n == 0 ==> decimal(n) == seq!['0'],
    decreases n,
{
    if n >= 10 {
        lemma_no_leading_zero(n / 10);
        lemma_decimal(n / 10);
        assert(decimal(n)[0] == decimal(n / 10)[0]);
    }
}

/// A number is written with digits alone, without a needless zero before them,
/// and they stand for the number. A number below zero has a minus sign.
pub proof fn law_numerals(n: u64, s: String, m: i32, t: String)
    requires
        call_ensures(numeral_of, (n,), s),
        call_ensures(signed_numeral_of, (m,), t),
    ensures
        all_digits(s@) && digits_value(s@) == n && s@.len() > 0,
        n > 0 ==> s@[0] != '0',
        n == 0 ==> s@.len() == 1,
        m >= 0 ==> all_digits(t@) && digits_value(t@) == m && t@.len() > 0,
        m < 0 ==> t@[0] == '-' && all_digits(t@.drop_first()) && digits_value(t@.drop_first()) == -m
            && t@[1] != '0',
{
    lemma_decimal(n as nat);
    lemma_no_leading_zero(n as nat);
    if m < 0 {
        let d = decimal((-m) as nat);
        lemma_decimal((-m) as nat);
        lemma_no_leading_zero((-m) as nat);
        assert(t@ == seq!['-'] + d);
        assert(t@.drop_first() == d);
        assert(t@[1] == d[0]);
    } else {
        lemma_decimal(m as nat);
    }
}

/// A text without a leading plus sign.
pub open spec fn without_plus(s: Seq<char>) -> Seq<char> {
    if s.len() > 0 && s[0] == '+' {
        s.drop_first()
    } else {
        s
    }
}

/// A number is read exactly from digits, perhaps behind a plus sign, that stand
/// for no more than the limit; it is then what they stand for. Nothing at all,
/// something that is no digit, and a number beyond the limit are told apart.
pub proof fn law_reading_numbers(s: &[char], max: u64, r: Result<u64, IntError>)
    requires
        call_ensures(read_unsigned, (s, max), r),
    ensures
        ({
            let d = without_plus(s@);
            &&& r is Ok <==> d.len() > 0 && all_digits(d) && digits_value(d) <= max
            &&& r matches Ok(n) ==> n == digits_value(d)
            &&& r == Err::<u64, IntError>(IntError::Empty) <==> s@.len() == 0
            &&& d.len() > 0 && all_digits(d) && digits_value(d) > max ==> r == Err::<u64, IntError>(
                IntError::Overflow,
            )
            &&& r == Err::<u64, IntError>(IntError::InvalidDigit) ==> d.len() == 0 || !all_digits(d)
        }),
{
    let d = without_plus(s@);
    lemma_bounded_digits(d, max as nat);
    lemma_errors_of_digits(d, max as nat);
    if s@.len() == 1 && (s@[0] == '+' || s@[0] == '-') {
        if s@[0] == '-' {
            assert(!is_digit(d[0]));
        }
    }
}

proof fn lemma_errors_of_digits(s: Seq<char>, max: nat)
    ensures
        bounded_digits(s, max) matches Err(e) ==> e != IntError::Empty,
        all_digits(s) ==> bounded_digits(s, max) != Err::<nat, IntError>(IntError::InvalidDigit),
    decreases s.len(),
{
    if s.len() > 0 {
        let t = s.drop_last();
        lemma_errors_of_digits(t, max);
        if all_digits(s) {
            assert forall|i: int| 0 <= i < t.len() implies is_digit(#[trigger] t[i]) by {
                assert(is_digit(s[i]));
            }
            assert(is_digit(s[s.len() - 1]));
        }
    }
}

/// The first thing that is wrong counts: behind digits that stand for no more
/// than the limit, something that is no digit, or a digit that makes the number
/// too large, whatever follows it.
pub proof fn law_first_fault_counts(
    front: Seq<char>,
    c: char,
    rest: Seq<char>,
    s: &[char],
    max: u64,
    r: Result<u64, IntError>,
)
    requires
        call_ensures(read_unsigned, (s, max), r),
        s@ == front + seq![c] + rest,
        front.len() > 0,
        all_digits(front),
        digits_value(front) <= max,
    ensures
        !is_digit(c) ==> r == Err::<u64, IntError>(IntError::InvalidDigit),
        is_digit(c) && 10 * digits_value(front) + digit_value(c) > max ==> r == Err::<u64, IntError>(
            IntError::Overflow,
        ),
{
    let m = max as nat;
    let t = front.push(c);
    assert(is_digit(front[0]) && s@[0] == front[0]);
    lemma_bounded_digits(front, m);
    assert(t.drop_last() == front);
    assert(s@.take(t.len() as int) == t);
    if bounded_digits(t, m) is Err {
        lemma_bounded_stays(s@, t.len() as int, m);
    }
}

/// A number with a sign is read exactly from digits behind a sign, or without
/// one, that stand for a number of 64 bits.
pub proof fn law_reading_signed_numbers(s: &[char], r: Option<i64>)
    requires
        call_ensures(read_signed, (s,), r),
    ensures
        s@.len() > 0 && s@[0] == '-' ==> {
            let d = s@.drop_first();
            &&& r is Some <==> d.len() > 0 && all_digits(d) && digits_value(d)
                <= 0x8000_0000_0000_0000
            &&& r matches Some(n) ==> n == -digits_value(d)
        },
        s@.len() == 0 || s@[0] != '-' ==> {
            let d = without_plus(s@);
            &&& r is Some <==> d.len() > 0 && all_digits(d) && digits_value(d) <= i64::MAX
            &&& r matches Some(n) ==> n == digits_value(d)
        },
{
    if s@.len() > 0 && s@[0] == '-' {
        lemma_bounded_digits(s@.drop_first(), 0x8000_0000_0000_0000);
    } else {
        lemma_bounded_digits(without_plus(s@), i64::MAX as nat);
    }
}

/// Text that is set to a width keeps all its characters, has spaces on the one
/// side only, and no more of them than the width asks for.
pub proof fn law_widths(s: &str, w: usize, left: String, right: String)
    requires
        call_ensures(align_left, (s, w), left),
        call_ensures(align_right, (s, w), right),
    ensures
        ({
            let n = s@.len();
            let m = if n < w {
                w as nat
            } else {
                n
            };
            &&& left@.len() == m && right@.len() == m
            &&& left@.take(n as int) == s@
            &&& right@.skip(m - n) == s@
            &&& forall|i: int| n <= i < m ==> #[trigger] left@[i] == ' '
            &&& forall|i: int| 0 <= i < m - n ==> #[trigger] right@[i] == ' '
        }),
{
    let n = s@.len();
    assert(left@.take(n as int) =~= s@);
    assert(right@.skip(right@.len() - n) =~= s@);
}

} // verus!
