//! Characters, words and lines.

use vstd::prelude::*;
use vstd::slice::slice_subrange;

verus! {

/// `String::push` appends one character at the end of the string.
pub assume_specification[ String::push ](s: &mut String, ch: char)
    ensures
        final(s)@ == old(s)@.push(ch),
;

/// The characters with the Unicode property White_Space.
pub open spec fn is_space(c: char) -> bool {
    ||| '\u{9}' <= c <= '\u{d}'
    ||| c == ' '
    ||| c == '\u{85}'
    ||| c == '\u{a0}'
    ||| c == '\u{1680}'
    ||| '\u{2000}' <= c <= '\u{200a}'
    ||| c == '\u{2028}'
    ||| c == '\u{2029}'
    ||| c == '\u{202f}'
    ||| c == '\u{205f}'
    ||| c == '\u{3000}'
}

/// Whether a character is white space.
pub fn space(c: char) -> (r: bool)
    ensures
        r == is_space(c),
{
    ('\u{9}' <= c && c <= '\u{d}') || c == ' ' || c == '\u{85}' || c == '\u{a0}' || c == '\u{1680}'
        || ('\u{2000}' <= c && c <= '\u{200a}') || c == '\u{2028}' || c == '\u{2029}' || c
        == '\u{202f}' || c == '\u{205f}' || c == '\u{3000}'
}

/// `s` without the white space at its front.
pub open spec fn trim_start(s: Seq<char>) -> Seq<char>
    decreases s.len(),
{
    if s.len() > 0 && is_space(s[0]) {
        trim_start(s.drop_first())
    } else {
        s
    }
}

/// `s` without the white space at its back.
pub open spec fn trim_end(s: Seq<char>) -> Seq<char>
    decreases s.len(),
{
    if s.len() > 0 && is_space(s.last()) {
        trim_end(s.drop_last())
    } else {
        s
    }
}

/// `s` without the white space around it.
pub open spec fn trim(s: Seq<char>) -> Seq<char> {
    trim_end(trim_start(s))
}

/// How many characters of `s` stand before its first white space.
pub open spec fn word_len(s: Seq<char>) -> nat
    decreases s.len(),
{
    if s.len() > 0 && !is_space(s[0]) {
        1 + word_len(s.drop_first())
    } else {
        0
    }
}

/// The words of `s`: its longest pieces without white space, in order.
pub open spec fn words(s: Seq<char>) -> Seq<Seq<char>>
    decreases s.len(),
{
    let t = trim_start(s);
    if t.len() == 0 {
        seq![]
    } else {
        proof {
            lemma_trim_start(s);
            lemma_word_len(t);
        }
        seq![t.take(word_len(t) as int)] + words(t.skip(word_len(t) as int))
    }
}

/// Where `c` first stands in `s`; the length of `s` where it does not.
pub open spec fn first_index(s: Seq<char>, c: char) -> nat
    decreases s.len(),
{
    if s.len() > 0 && s[0] != c {
        1 + first_index(s.drop_first(), c)
    } else {
        0
    }
}

/// A line without the carriage return that its line ending may have had.
pub open spec fn strip_return(s: Seq<char>) -> Seq<char> {
    if s.len() > 0 && s.last() == '\r' {
        s.drop_last()
    } else {
        s
    }
}

/// The lines of `s`. A line ends with a line feed, which may follow a carriage
/// return; the last line may go without.
pub open spec fn lines(s: Seq<char>) -> Seq<Seq<char>>
    decreases s.len(),
{
    let n = first_index(s, '\n');
    if s.len() == 0 {
        seq![]
    } else if n >= s.len() {
        seq![s]
    } else {
        seq![strip_return(s.take(n as int))] + lines(s.skip(n as int + 1))
    }
}

/// What stays of `s` at the front begins without white space.
pub proof fn lemma_trim_start(s: Seq<char>)
    ensures
        trim_start(s).len() <= s.len(),
        trim_start(s).len() > 0 ==> !is_space(trim_start(s)[0]),
    decreases s.len(),
{
    if s.len() > 0 && is_space(s[0]) {
        lemma_trim_start(s.drop_first());
    }
}

/// A word has at most the characters there are, and at least one where the
/// first is not white space.
pub proof fn lemma_word_len(s: Seq<char>)
    ensures
        word_len(s) <= s.len(),
        s.len() > 0 && !is_space(s[0]) ==> word_len(s) > 0,
    decreases s.len(),
{
    if s.len() > 0 && !is_space(s[0]) {
        lemma_word_len(s.drop_first());
    }
}

/// The character sequences that a vector of vectors stands for.
pub open spec fn texts(v: Seq<Vec<char>>) -> Seq<Seq<char>> {
    v.map_values(|x: Vec<char>| x@)
}

/// The character sequences that a vector of strings stands for.
pub open spec fn strings(v: Seq<String>) -> Seq<Seq<char>> {
    v.map_values(|x: String| x@)
}

/// The characters of `s`.
pub fn chars_of(s: &str) -> (r: Vec<char>)
    ensures
        r@ == s@,
{
    let mut out: Vec<char> = Vec::new();
    for c in it: s.chars()
        invariant
            out@ == it.seq().take(it.index()),
    {
        out.push(c);
    }
    out
}

/// The string with the characters `s`.
pub fn string_of(s: &[char]) -> (r: String)
    ensures
        r@ == s@,
{
    let mut out: String = String::new();
    let mut i: usize = 0;
    while i < s.len()
        invariant
            i <= s@.len(),
            out@ == s@.take(i as int),
        decreases s@.len() - i,
    {
        out.push(s[i]);
        proof {
            assert(s@.take(i + 1) == s@.take(i as int).push(s@[i as int]));
        }
        i = i + 1;
    }
    proof {
        assert(s@.take(i as int) == s@);
    }
    out
}

/// A copy of `s`.
pub fn copied(s: &[char]) -> (r: Vec<char>)
    ensures
        r@ == s@,
{
    let mut out: Vec<char> = Vec::new();
    let mut i: usize = 0;
    while i < s.len()
        invariant
            i <= s@.len(),
            out@ == s@.take(i as int),
        decreases s@.len() - i,
    {
        out.push(s[i]);
        proof {
            assert(s@.take(i + 1) == s@.take(i as int).push(s@[i as int]));
        }
        i = i + 1;
    }
    proof {
        assert(s@.take(i as int) == s@);
    }
    out
}

/// Whether two character sequences are the same.
pub fn same(s: &[char], t: &[char]) -> (r: bool)
    ensures
        r == (s@ == t@),
{
    if s.len() != t.len() {
        return false;
    }
    let mut i: usize = 0;
    while i < s.len()
        invariant
            i <= s@.len(),
            s@.len() == t@.len(),
            s@.take(i as int) == t@.take(i as int),
        decreases s@.len() - i,
    {
        if s[i] != t[i] {
            return false;
        }
        proof {
            assert(s@.take(i + 1) == s@.take(i as int).push(s@[i as int]));
            assert(t@.take(i + 1) == t@.take(i as int).push(t@[i as int]));
        }
        i = i + 1;
    }
    proof {
        assert(s@.take(i as int) == s@);
        assert(t@.take(i as int) == t@);
    }
    true
}

/// Whether `s` has exactly the characters of `t`.
pub fn reads(s: &[char], t: &str) -> (r: bool)
    ensures
        r == (s@ == t@),
{
    let u: Vec<char> = chars_of(t);
    same(s, u.as_slice())
}

/// Where `c` first stands in `s`.
pub fn find(s: &[char], c: char) -> (r: usize)
    ensures
        r == first_index(s@, c),
        r <= s@.len(),
{
    let mut i: usize = 0;
    proof {
        assert(s@.skip(0) == s@);
    }
    while i < s.len() && s[i] != c
        invariant
            i <= s@.len(),
            first_index(s@, c) == i + first_index(s@.skip(i as int), c),
        decreases s@.len() - i,
    {
        proof {
            assert(s@.skip(i as int).drop_first() == s@.skip(i + 1));
        }
        i = i + 1;
    }
    i
}

/// `s` without the white space at its front.
pub fn trimmed_start<'a>(s: &'a [char]) -> (r: &'a [char])
    ensures
        r@ == trim_start(s@),
{
    let mut i: usize = 0;
    proof {
        assert(s@.skip(0) == s@);
    }
    while i < s.len() && space(s[i])
        invariant
            i <= s@.len(),
            trim_start(s@) == trim_start(s@.skip(i as int)),
        decreases s@.len() - i,
    {
        proof {
            assert(s@.skip(i as int).drop_first() == s@.skip(i + 1));
        }
        i = i + 1;
    }
    proof {
        assert(s@.subrange(i as int, s@.len() as int) == s@.skip(i as int));
    }
    slice_subrange(s, i, s.len())
}

/// `s` without the white space at its back.
pub fn trimmed_end<'a>(s: &'a [char]) -> (r: &'a [char])
    ensures
        r@ == trim_end(s@),
{
    let mut i: usize = s.len();
    proof {
        assert(s@.take(i as int) == s@);
    }
    while i > 0 && space(s[i - 1])
        invariant
            i <= s@.len(),
            trim_end(s@) == trim_end(s@.take(i as int)),
        decreases i,
    {
        proof {
            assert(s@.take(i as int).drop_last() == s@.take(i - 1));
        }
        i = i - 1;
    }
    proof {
        assert(s@.subrange(0, i as int) == s@.take(i as int));
    }
    slice_subrange(s, 0, i)
}

/// `s` without the white space around it.
pub fn trimmed<'a>(s: &'a [char]) -> (r: &'a [char])
    ensures
        r@ == trim(s@),
{
    trimmed_end(trimmed_start(s))
}

/// The words of `s`.
pub fn split_words(s: &[char]) -> (r: Vec<Vec<char>>)
    ensures
        texts(r@) == words(s@),
{
    let mut out: Vec<Vec<char>> = Vec::new();
    let mut rest: &[char] = trimmed_start(s);
    let ghost all = words(s@);
    proof {
        assert(texts(out@) + words(s@) == all);
        lemma_trim_start(s@);
    }
    proof {
        lemma_words_trimmed(s@);
    }
    while rest.len() > 0
        invariant
            rest@.len() > 0 ==> !is_space(rest@[0]),
            trim_start(rest@) == rest@,
            texts(out@) + words(rest@) == all,
        decreases rest@.len(),
    {
        let mut n: usize = 0;
        proof {
            assert(rest@.skip(0) == rest@);
        }
        while n < rest.len() && !space(rest[n])
            invariant
                n <= rest@.len(),
                word_len(rest@) == n + word_len(rest@.skip(n as int)),
            decreases rest@.len() - n,
        {
            proof {
                assert(rest@.skip(n as int).drop_first() == rest@.skip(n + 1));
            }
            n = n + 1;
        }
        let word: &[char] = slice_subrange(rest, 0, n);
        let tail: &[char] = slice_subrange(rest, n, rest.len());
        let ghost before = texts(out@);
        out.push(copied(word));
        proof {
            lemma_word_len(rest@);
            assert(word@ == rest@.take(n as int));
            assert(tail@ == rest@.skip(n as int));
            assert(texts(out@) == before.push(word@));
            assert(words(rest@) == seq![word@] + words(tail@));
            assert(before.push(word@) + words(tail@) == before + (seq![word@] + words(tail@)));
            lemma_trim_start(tail@);
            lemma_words_trimmed(tail@);
        }
        rest = trimmed_start(tail);
    }
    proof {
        assert(texts(out@) + words(rest@) == texts(out@));
    }
    out
}

/// White space at the front changes no words.
pub proof fn lemma_words_trimmed(s: Seq<char>)
    ensures
        trim_start(trim_start(s)) == trim_start(s),
        words(trim_start(s)) == words(s),
{
    lemma_trim_start(s);
}

/// The lines of `s`.
pub fn split_lines(s: &[char]) -> (r: Vec<Vec<char>>)
    ensures
        texts(r@) == lines(s@),
        r@.len() <= s@.len(),
{
    let mut out: Vec<Vec<char>> = Vec::new();
    let mut rest: &[char] = s;
    proof {
        assert(texts(out@) + lines(s@) == lines(s@));
    }
    while rest.len() > 0
        invariant
            rest@.len() <= s@.len(),
            out@.len() + rest@.len() <= s@.len(),
            texts(out@) + lines(rest@) == lines(s@),
        decreases rest@.len(),
    {
        let n: usize = find(rest, '\n');
        let ghost before = texts(out@);
        if n >= rest.len() {
            out.push(copied(rest));
            proof {
                assert(texts(out@) == before.push(rest@));
                assert(before.push(rest@) == before + seq![rest@]);
            }
            return out;
        }
        let mut line: &[char] = slice_subrange(rest, 0, n);
        proof {
            assert(line@ == rest@.take(n as int));
        }
        if n > 0 && rest[n - 1] == '\r' {
            line = slice_subrange(rest, 0, n - 1);
            proof {
                assert(line@ == rest@.take(n as int).drop_last());
            }
        }
        let tail: &[char] = slice_subrange(rest, n + 1, rest.len());
        out.push(copied(line));
        proof {
            assert(tail@ == rest@.skip(n + 1));
            assert(line@ == strip_return(rest@.take(n as int)));
            assert(texts(out@) == before.push(line@));
            assert(before.push(line@) + lines(tail@) == before + (seq![line@] + lines(tail@)));
        }
        rest = tail;
    }
    proof {
        assert(texts(out@) + lines(rest@) == texts(out@));
    }
    out
}

/// Whether one of the strings `v` reads `s`.
pub fn holds(v: &Vec<String>, s: &String) -> (r: bool)
    ensures
        r == strings(v@).contains(s@),
{
    let mut i: usize = 0;
    while i < v.len()
        invariant
            i <= v@.len(),
            forall|j: int| 0 <= j < i ==> strings(v@)[j] != s@,
        decreases v@.len() - i,
    {
        if v[i] == *s {
            proof {
                assert(strings(v@)[i as int] == s@);
            }
            return true;
        }
        i = i + 1;
    }
    proof {
        if strings(v@).contains(s@) {
            let j = choose|j: int| 0 <= j < strings(v@).len() && strings(v@)[j] == s@;
            assert(strings(v@)[j] != s@);
        }
    }
    false
}

/// Whether `s` begins with `front`.
pub open spec fn begins(s: Seq<char>, front: Seq<char>) -> bool {
    front.len() <= s.len() && s.take(front.len() as int) == front
}

/// What follows `front` at the beginning of `s`, if it stands there.
pub fn without_front(s: &str, front: &str) -> (r: Option<String>)
    ensures
        r is Some <==> begins(s@, front@),
        r matches Some(t) ==> t@ == s@.skip(front@.len() as int),
{
    let c: Vec<char> = chars_of(s);
    let f: Vec<char> = chars_of(front);
    if f.len() > c.len() {
        return None;
    }
    let head: &[char] = slice_subrange(c.as_slice(), 0, f.len());
    proof {
        assert(head@ == s@.take(front@.len() as int));
    }
    if same(head, f.as_slice()) {
        let tail: &[char] = slice_subrange(c.as_slice(), f.len(), c.len());
        proof {
            assert(tail@ == s@.skip(front@.len() as int));
        }
        Some(string_of(tail))
    } else {
        None
    }
}

/// What follows the first item of `s`; nothing where there is none.
pub open spec fn behind_first(s: Seq<Seq<char>>) -> Seq<Seq<char>> {
    if s.len() == 0 {
        s
    } else {
        s.drop_first()
    }
}

/// The texts `s` in a row, with one space between each two.
pub open spec fn spaced(s: Seq<Seq<char>>) -> Seq<char>
    decreases s.len(),
{
    if s.len() == 0 {
        seq![]
    } else if s.len() == 1 {
        s[0]
    } else {
        spaced(s.drop_last()) + " "@ + s.last()
    }
}

/// The strings `v` in a row, with one space between each two.
pub fn join_spaced(v: &Vec<String>) -> (r: String)
    ensures
        r@ == spaced(strings(v@)),
{
    let ghost all = strings(v@);
    let mut out: String = String::new();
    let mut i: usize = 0;
    proof {
        assert(all.take(0) == Seq::<Seq<char>>::empty());
    }
    while i < v.len()
        invariant
            i <= v@.len(),
            all == strings(v@),
            out@ == spaced(all.take(i as int)),
        decreases v@.len() - i,
    {
        proof {
            assert(all.take(i + 1).drop_last() == all.take(i as int));
            assert(all.take(i + 1).last() == v@[i as int]@);
        }
        if i > 0 {
            out.append(" ");
        }
        out.append(v[i].as_str());
        i = i + 1;
    }
    proof {
        assert(all.take(i as int) == all);
    }
    out
}

/// `a` followed by `b`.
pub fn joined(a: &str, b: &str) -> (r: String)
    ensures
        r@ == a@ + b@,
{
    let mut out: String = String::from_str(a);
    out.append(b);
    out
}

} // verus!
