//! What the lines of a configuration promise: how sections, keys and values are
//! written, and what is wrong with a line that is neither.

use crate::config::{
    comment_start, complaint, content, invalid_value_message, line_of, parse_value, quoted, scalar,
    Config, Line, Scalar, Settings, Value,
};
use crate::defaults::{is_bare_hash, law_comment_starts_at_first_bare_hash, reading};
use crate::literal::literal;
use crate::numeral::{
    decimal, law_signed_round_trip, lemma_decimal, is_digit, signed, signed_decimal,
};
use crate::procfs::ReadError;
use crate::reading::{all_space, lacks, law_trim, law_trim_gives_back, lemma_first_index_of};
use crate::text::{first_index, is_space, lines, trim};
use vstd::prelude::*;

verus! {

/// Whether a line has no comment.
pub open spec fn no_comment(s: Seq<char>) -> bool {
    forall|i: int| 0 <= i < s.len() ==> !is_bare_hash(s, i)
}

/// A line without a comment is all that counts of it, but for the white space
/// around it.
proof fn lemma_content(s: Seq<char>)
    requires
        no_comment(s),
    ensures
        content(s) == trim(s),
{
    law_comment_starts_at_first_bare_hash(s);
    let k = comment_start(s, false) as int;
    assert(k == s.len());
    assert(s.take(k) == s);
}

/// Text in quotes is a string, as it stands between them; the numeral of an
/// integer of 64 bits is that integer; anything else is a number exactly if it is
/// one in decimal notation.
pub proof fn law_values(s: Seq<char>, n: int, t: Seq<char>)
    requires
        i64::MIN <= n <= i64::MAX,
    ensures
        scalar(seq!['"'] + s + seq!['"']) == Some(Scalar::Str(s)),
        scalar(signed_decimal(n)) == Some(Scalar::Int(n)),
        (t.len() < 2 || t[0] != '"' || t.last() != '"') ==> {
            &&& signed(t) matches Some(m) ==> scalar(t) == Some(Scalar::Int(m))
            &&& signed(t) is None ==> (literal(t) matches Some(d) ==> scalar(t) == Some(
                Scalar::Float(d),
            ))
            &&& signed(t) is None && literal(t) is None ==> scalar(t) is None
        },
{
    let q = seq!['"'] + s + seq!['"'];
    assert(q.len() == s.len() + 2 && q[0] == '"' && q.last() == '"');
    assert(q.subrange(1, q.len() - 1) == s);
    law_signed_round_trip(n);
    let d = signed_decimal(n);
    if n < 0 {
        assert(d[0] == '-');
    } else {
        lemma_decimal(n as nat);
        assert(is_digit(d[0]));
    }
}

/// Reading a value, as it is done.
pub proof fn law_reading_values(s: &[char], r: Result<Value, String>)
    requires
        call_ensures(parse_value, (s,), r),
    ensures
        r matches Ok(v) ==> scalar(s@) == Some(v@) && match v {
            Value::Int(n) => scalar(s@) == Some(Scalar::Int(n as int)),
            Value::Float(d) => scalar(s@) == Some(Scalar::Float(d)),
            Value::Str(t) => scalar(s@) == Some(Scalar::Str(t@)),
        },
        r matches Err(m) ==> scalar(s@) is None && m@ == "invalid value: "@ + quoted(s@),
{
}

/// Both parts of a trimmed text.
proof fn lemma_around(s: Seq<char>) -> (r: (Seq<char>, Seq<char>))
    ensures
        s == r.0 + trim(s) + r.1,
        all_space(r.0),
        all_space(r.1),
        trim(s).len() > 0 ==> !is_space(trim(s)[0]) && !is_space(trim(s).last()),
{
    law_trim(s);
    let t = trim(s);
    let (a, b) = choose|a: Seq<char>, b: Seq<char>|
        s == #[trigger] (a + t + b) && all_space(a) && all_space(b);
    (a, b)
}

proof fn lemma_all_space_joins(a: Seq<char>, b: Seq<char>)
    requires
        all_space(a),
        all_space(b),
    ensures
        all_space(a + b),
{
    assert forall|i: int| 0 <= i < (a + b).len() implies is_space(#[trigger] (a + b)[i]) by {
        if i < a.len() {
            assert((a + b)[i] == a[i]);
        } else {
            assert((a + b)[i] == b[i - a.len()]);
        }
    }
}

/// What `key = value` is trimmed to, and where its sign stands.
proof fn lemma_entry(key: Seq<char>, value: Seq<char>)
    requires
        lacks(key, '='),
    ensures
        ({
            let s = trim(key + seq!['='] + value);
            let cut = first_index(s, '=') as int;
            &&& 0 <= cut < s.len()
            &&& trim(s.take(cut)) == trim(key)
            &&& trim(s.skip(cut + 1)) == trim(value)
            &&& trim(key).len() > 0 ==> s[0] == trim(key)[0]
            &&& trim(key).len() == 0 ==> s[0] == '='
        }),
{
    let nothing = Seq::<char>::empty();
    let (a1, a2) = lemma_around(key);
    let (b1, b2) = lemma_around(value);
    let (k, v) = (trim(key), trim(value));
    let line = key + seq!['='] + value;
    // What stays of the key in front of the sign.
    let front = if k.len() > 0 {
        k + a2
    } else {
        nothing
    };
    let before = if k.len() > 0 {
        a1
    } else {
        key
    };
    if k.len() == 0 {
        lemma_all_space_joins(a1, a2);
        assert(key == a1 + a2);
    }
    // What stays of the value behind the sign.
    let back = if v.len() > 0 {
        b1 + v
    } else {
        nothing
    };
    let behind = if v.len() > 0 {
        b2
    } else {
        value
    };
    if v.len() == 0 {
        lemma_all_space_joins(b1, b2);
        assert(value == b1 + b2);
    }
    let t = front + seq!['='] + back;
    assert(key == before + front);
    assert(value == back + behind);
    assert(line == before + t + behind);
    assert(!is_space('='));
    if k.len() > 0 {
        assert(t[0] == k[0]);
    } else {
        assert(t[0] == '=');
    }
    if v.len() > 0 {
        assert(t.last() == v.last());
    } else {
        assert(t.last() == '=');
    }
    law_trim_gives_back(before, t, behind);
    assert forall|i: int| 0 <= i < front.len() implies #[trigger] front[i] != '=' by {
        assert(front[i] == key[before.len() + i]);
    }
    lemma_first_index_of(front, '=', back);
    let cut = front.len() as int;
    assert(t.take(cut) == front);
    assert(t.skip(cut + 1) == back);
    if k.len() > 0 {
        law_trim_gives_back(nothing, k, a2);
        assert(nothing + k + a2 == front);
    } else {
        law_trim_gives_back(nothing, nothing, nothing);
        assert(nothing + nothing + nothing == front);
    }
    if v.len() > 0 {
        law_trim_gives_back(b1, v, nothing);
        assert(b1 + v + nothing == back);
    } else {
        law_trim_gives_back(nothing, nothing, nothing);
        assert(nothing + nothing + nothing == back);
    }
}

/// A key, an equals sign and a value give the key this value; the white space
/// around the key and the value does not matter. Without a key, without a
/// section, or without a value that is one, the line is wrong, and it is said in
/// which way.
pub proof fn law_entries(section: Seq<char>, key: Seq<char>, value: Seq<char>)
    requires
        lacks(key, '='),
        no_comment(key + seq!['='] + value),
        trim(key).len() > 0 ==> trim(key)[0] != '[',
    ensures
        ({
            let line = line_of(section, key + seq!['='] + value);
            &&& trim(key).len() == 0 ==> line == Line::Wrong("empty key"@)
            &&& trim(key).len() > 0 && section.len() == 0 ==> line == Line::Wrong(
                "key outside any section"@,
            )
            &&& trim(key).len() > 0 && section.len() > 0 ==> match scalar(trim(value)) {
                Some(v) => line == Line::Entry(trim(key), v),
                None => line == Line::Wrong("invalid value: "@ + quoted(trim(value))),
            }
        }),
{
    lemma_content(key + seq!['='] + value);
    lemma_entry(key, value);
}

/// A name in brackets begins a section; the white space around the name and the
/// brackets does not matter. Without a name, the line is wrong.
pub proof fn law_sections(
    section: Seq<char>,
    before: Seq<char>,
    name: Seq<char>,
    behind: Seq<char>,
)
    requires
        all_space(before),
        all_space(behind),
        no_comment(before + (seq!['['] + name + seq![']']) + behind),
    ensures
        ({
            let line = line_of(section, before + (seq!['['] + name + seq![']']) + behind);
            &&& trim(name).len() > 0 ==> line == Line::Section(trim(name))
            &&& trim(name).len() == 0 && name.len() > 0 ==> line == Line::Wrong(
                "empty section name"@,
            )
            &&& name.len() == 0 ==> line == Line::Wrong("malformed section header"@)
        }),
{
    let t = seq!['['] + name + seq![']'];
    lemma_content(before + t + behind);
    assert(!is_space('[') && !is_space(']'));
    assert(t[0] == '[' && t.last() == ']');
    law_trim_gives_back(before, t, behind);
    assert(t.subrange(1, t.len() - 1) == name);
    if name.len() == 0 {
        let nothing = Seq::<char>::empty();
        law_trim_gives_back(nothing, nothing, nothing);
        assert(nothing + nothing + nothing == name);
    }
}

/// A line with nothing but white space says nothing; one that begins with a
/// bracket and does not end with one, and one that has neither a bracket at its
/// beginning nor an equals sign, are wrong, each in its own way.
pub proof fn law_other_lines(section: Seq<char>, line: Seq<char>)
    requires
        no_comment(line),
    ensures
        all_space(line) ==> line_of(section, line) == Line::Blank,
        ({
            let s = trim(line);
            &&& s.len() == 0 <==> line_of(section, line) == Line::Blank
            &&& s.len() > 0 && s[0] == '[' && s.last() != ']' ==> line_of(section, line)
                == Line::Wrong("malformed section header"@)
            &&& s.len() > 0 && s[0] != '[' && lacks(s, '=') ==> line_of(section, line)
                == Line::Wrong("expected `key = value`"@)
        }),
{
    lemma_content(line);
    let s = trim(line);
    if all_space(line) {
        let nothing = Seq::<char>::empty();
        law_trim_gives_back(line, nothing, nothing);
        assert(line + nothing + nothing == line);
    }
    if lacks(s, '=') {
        lemma_no_sign(s);
    }
}

proof fn lemma_no_sign(s: Seq<char>)
    requires
        lacks(s, '='),
    ensures
        first_index(s, '=') >= s.len(),
    decreases s.len(),
{
    if s.len() > 0 {
        let t = s.drop_first();
        assert(s[0] != '=');
        assert forall|i: int| 0 <= i < t.len() implies #[trigger] t[i] != '=' by {
            assert(s[i + 1] != '=');
        }
        lemma_no_sign(t);
    }
}

/// What is said of a wrong line begins with its number, counted from one.
pub proof fn law_complaints(at: nat, message: Seq<char>)
    ensures
        complaint(at, message) == "line "@ + decimal(at + 1) + ": "@ + message,
{
}

/// A configuration is what the lines of its text say, one after the other; a
/// file that cannot be read, or whose text is wrong, is told with its name.
pub proof fn law_configurations(
    text: &str,
    r: Result<Config, String>,
    path: &str,
    whole_text: String,
    e: String,
    loaded: Result<Config, ReadError>,
    unread: Result<Config, ReadError>,
)
    requires
        call_ensures(Config::from_str, (text,), r),
        whole_text@ == text@,
        call_ensures(Config::load, (path, Ok(whole_text)), loaded),
        call_ensures(Config::load, (path, Err(e)), unread),
    ensures
        r matches Ok(c) ==> reading(lines(text@)) == Ok::<Settings, Seq<char>>(c@),
        r matches Err(m) ==> reading(lines(text@)) == Err::<Settings, Seq<char>>(m@),
        r matches Ok(c) ==> (loaded matches Ok(d) && d@ == c@),
        r matches Err(m) ==> (loaded matches Err(ReadError::Invalid(f)) && f.message@ == path@
            + ": "@ + m@),
        unread matches Err(ReadError::Unread(f)) && f@ == e@,
{
}

/// Nothing is set in a configuration that was never read, and what is said of an
/// error is what went wrong.
pub proof fn law_nothing_and_errors(
    c: Config,
    e: ReadError,
    m: String,
    in_quotes: &str,
    invalid: String,
)
    requires
        call_ensures(<Config as Default>::default, (), c),
        call_ensures(ReadError::message, (e,), m),
        call_ensures(invalid_value_message, (in_quotes,), invalid),
    ensures
        forall|k: (Seq<char>, Seq<char>)| !(#[trigger] c@.dom().contains(k)),
        e matches ReadError::Unread(x) ==> m@ == x@,
        e matches ReadError::Invalid(x) ==> m@ == x.message@,
        invalid@ == "invalid value: "@ + in_quotes@,
{
}

} // verus!
