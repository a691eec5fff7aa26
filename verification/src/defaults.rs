//! What a configuration promises: comments do not matter, a later value takes
//! the place of an earlier one, and what is left out has a default.

use crate::config::{
    at_least, comment_start, complaint, count_setting, int_setting, line_of, policy_of, settings,
    settings_from, Line, Settings,
};
use crate::double::whole;
use crate::literal::{after_digits, digit_run, leading_digits, literal, lower, spells, tenfold};
use crate::numeral::{all_digits, decimal, digits_value, is_digit, lemma_decimal};
use crate::policy::{cache_pressure_in, swappiness_in, State};
use crate::rounding::{law_rounding_keeps_order, law_whole_numbers_compare};
use crate::text::lines;
use vstd::prelude::*;

verus! {

/// Whether the end of `s` stands inside a string.
pub open spec fn ends_in_string(s: Seq<char>) -> bool
    decreases s.len(),
{
    if s.len() == 0 {
        false
    } else if s.last() == '"' {
        !ends_in_string(s.drop_last())
    } else {
        ends_in_string(s.drop_last())
    }
}

/// Whether a comment starts at the position `i` of `s`.
pub open spec fn is_bare_hash(s: Seq<char>, i: int) -> bool {
    0 <= i < s.len() && s[i] == '#' && !ends_in_string(s.take(i))
}

proof fn lemma_comment_start(s: Seq<char>, at: int)
    requires
        0 <= at <= s.len(),
        forall|i: int| 0 <= i < at ==> !is_bare_hash(s, i),
    ensures
        ({
            let k = at + comment_start(s.skip(at), ends_in_string(s.take(at)));
            &&& at <= k <= s.len()
            &&& k < s.len() ==> is_bare_hash(s, k)
            &&& forall|i: int| 0 <= i < k ==> !is_bare_hash(s, i)
        }),
    decreases s.len() - at,
{
    if at < s.len() && !is_bare_hash(s, at) {
        assert(s.take(at + 1).drop_last() == s.take(at));
        assert(s.skip(at).drop_first() == s.skip(at + 1));
        lemma_comment_start(s, at + 1);
    }
}

/// A comment starts at the first `#` outside a string; a `#` inside a string
/// starts none.
pub proof fn law_comment_starts_at_first_bare_hash(s: Seq<char>)
    ensures
        ({
            let k = comment_start(s, false) as int;
            &&& k <= s.len()
            &&& k < s.len() ==> is_bare_hash(s, k)
            &&& forall|i: int| 0 <= i < k ==> !is_bare_hash(s, i)
        }),
{
    assert(s.skip(0) == s);
    assert(s.take(0) == Seq::<char>::empty());
    lemma_comment_start(s, 0);
}

/// What stands behind the `#` of a comment does not matter.
pub proof fn law_comments_do_not_matter(section: Seq<char>, s: Seq<char>, comment: Seq<char>)
    requires
        !ends_in_string(s),
    ensures
        line_of(section, s + seq!['#'] + comment) == line_of(section, s),
{
    let t = s + seq!['#'] + comment;
    law_comment_starts_at_first_bare_hash(s);
    law_comment_starts_at_first_bare_hash(t);
    let j = comment_start(s, false) as int;
    let k = comment_start(t, false) as int;
    assert(t.take(s.len() as int) == s);
    assert(is_bare_hash(t, s.len() as int));
    assert forall|i: int| 0 <= i < s.len() implies is_bare_hash(s, i) == is_bare_hash(t, i) by {
        assert(s.take(i) == t.take(i));
    }
    if j < s.len() {
        assert(is_bare_hash(t, j));
        if k < j {
            assert(is_bare_hash(s, k));
        }
    } else {
        if k < s.len() {
            assert(is_bare_hash(s, k));
        }
    }
    assert(t.take(k) == s.take(j));
}

/// The section that keys belong to after the lines `all`.
pub open spec fn section_after(all: Seq<Seq<char>>) -> Seq<char>
    decreases all.len(),
{
    if all.len() == 0 {
        seq![]
    } else {
        match line_of(section_after(all.drop_last()), all.last()) {
            Line::Section(name) => name,
            _ => section_after(all.drop_last()),
        }
    }
}

/// What the lines `all` say.
pub open spec fn reading(all: Seq<Seq<char>>) -> Result<Settings, Seq<char>> {
    settings_from(all, 0, seq![], Map::empty())
}

/// The reading of a front part of the lines goes on where it stopped.
proof fn lemma_reading_from(
    all: Seq<Seq<char>>,
    at: nat,
    from: nat,
    section: Seq<char>,
    held: Settings,
)
    requires
        from <= at <= all.len(),
        section == section_after(all.take(from as int)),
    ensures
        match settings_from(all.take(at as int), from, section, held) {
            Ok(m) => settings_from(all, from, section, held) == settings_from(
                all,
                at,
                section_after(all.take(at as int)),
                m,
            ),
            Err(e) => settings_from(all, from, section, held) == Err::<Settings, Seq<char>>(e),
        },
    decreases at - from,
{
    if from < at {
        let next = all.take(from as int + 1);
        assert(next.drop_last() == all.take(from as int));
        assert(next.last() == all[from as int]);
        assert(all.take(at as int)[from as int] == all[from as int]);
        match line_of(section, all[from as int]) {
            Line::Blank => lemma_reading_from(all, at, from + 1, section, held),
            Line::Section(name) => lemma_reading_from(all, at, from + 1, name, held),
            Line::Entry(key, v) => lemma_reading_from(
                all,
                at,
                from + 1,
                section,
                held.insert((section, key), v),
            ),
            Line::Wrong(_) => {},
        }
    }
}

/// Lines add up: a further line adds its value in place of an earlier one for
/// the same key, and a wrong line ends the reading with its number.
pub proof fn law_a_later_value_wins(all: Seq<Seq<char>>)
    requires
        all.len() > 0,
    ensures
        ({
            let before = all.drop_last();
            reading(all) == match reading(before) {
                Err(e) => Err::<Settings, Seq<char>>(e),
                Ok(m) => match line_of(section_after(before), all.last()) {
                    Line::Blank => Ok(m),
                    Line::Section(_) => Ok(m),
                    Line::Entry(key, v) => Ok(m.insert((section_after(before), key), v)),
                    Line::Wrong(message) => Err(complaint((all.len() - 1) as nat, message)),
                },
            }
        }),
{
    let n = (all.len() - 1) as nat;
    assert(all.take(n as int) == all.drop_last());
    assert(all.take(0) == Seq::<Seq<char>>::empty());
    lemma_reading_from(all, n, 0, seq![], Map::empty());
    reveal_with_fuel(settings_from, 2);
}

/// An empty text is a configuration with nothing set.
pub proof fn law_empty_text_sets_nothing()
    ensures
        settings(seq![]) == Ok::<Settings, Seq<char>>(Map::empty()),
{
    assert(lines(seq![]).len() == 0);
}

/// With nothing set, the policy is the documented one, and it is valid.
pub proof fn law_defaults()
    ensures
        ({
            let p = policy_of(Map::empty());
            &&& swappiness_in(p, State::Calm) == 60 && cache_pressure_in(p, State::Calm) == 100
            &&& swappiness_in(p, State::Pressured) == 120 && cache_pressure_in(p, State::Pressured)
                == 50
            &&& swappiness_in(p, State::Critical) == 180 && cache_pressure_in(p, State::Critical)
                == 50
            &&& swappiness_in(p, State::ThrashGuard) == 30 && cache_pressure_in(
                p,
                State::ThrashGuard,
            ) == 50
            &&& p.psi_pressure_threshold == whole(5) && p.psi_critical_threshold == whole(20)
            &&& p.mem_pressure_available_pct == whole(15) && p.mem_critical_available_pct == whole(
                5,
            )
            &&& p.thrash_swapin_kbs == whole(51200) && p.thrash_psi_full_avg10 == whole(5)
            &&& p.enter_samples == 2 && p.exit_samples == 10 && p.watchdog_swappiness == 10
            &&& p.fault() is None
        }),
{
    law_whole_numbers_compare(20, 5);
    law_whole_numbers_compare(15, 5);
    law_whole_numbers_compare(0, 15);
    law_whole_numbers_compare(15, 100);
    law_whole_numbers_compare(51200, 0);
}

/// Digits are all there is of them.
proof fn lemma_all_leading(s: Seq<char>, rest: Seq<char>)
    requires
        all_digits(s),
        rest.len() == 0 || !is_digit(rest[0]),
    ensures
        leading_digits(s + rest) == s.len(),
    decreases s.len(),
{
    if s.len() == 0 {
        assert(s + rest == rest);
    } else {
        assert(is_digit(s[0]));
        assert((s + rest).drop_first() == s.drop_first() + rest);
        assert forall|i: int| 0 <= i < s.drop_first().len() implies is_digit(
            #[trigger] s.drop_first()[i],
        ) by {
            assert(is_digit(s[i + 1]));
        }
        lemma_all_leading(s.drop_first(), rest);
    }
}

/// A text that begins with a digit spells no word.
proof fn lemma_digit_spells_nothing(s: Seq<char>)
    requires
        s.len() > 0,
        is_digit(s[0]),
    ensures
        !spells(s, "inf"@),
        !spells(s, "infinity"@),
        !spells(s, "nan"@),
{
    reveal_strlit("inf");
    reveal_strlit("infinity");
    reveal_strlit("nan");
    let m = s.map_values(|c: char| lower(c));
    assert(m[0] == s[0]);
}

/// A whole number means the same with and without a point: as an integer that
/// is taken as a double, as digits, and as digits with a point and a zero.
pub proof fn law_whole_number_needs_no_point(n: nat)
    ensures
        literal(decimal(n)) == Some(whole(n as int)),
        literal(decimal(n) + seq!['.', '0']) == Some(whole(n as int)),
{
    lemma_decimal(n);
    let d = decimal(n);
    let nothing = Seq::<char>::empty();
    assert(is_digit(d[0]));
    lemma_digit_spells_nothing(d);
    lemma_all_leading(d, nothing);
    assert(d + nothing == d);
    assert(digit_run(d) == d);
    assert(after_digits(d) == nothing);
    assert(tenfold(0) == 1);
    assert(n * 1 == n);
    let point = seq!['.', '0'];
    let s = d + point;
    assert(s[0] == d[0]);
    lemma_digit_spells_nothing(s);
    lemma_all_leading(d, point);
    assert(digit_run(s) == d);
    assert(after_digits(s) == point);
    let back = point.drop_first();
    assert(back == seq!['0']);
    lemma_all_leading(back, nothing);
    assert(back + nothing == back);
    assert(digit_run(back) == back && after_digits(back) == nothing);
    assert((d + back).drop_last() == d);
    assert(digits_value(d + back) == 10 * n);
    reveal_with_fuel(tenfold, 2);
    assert(tenfold(1) == 10);
    law_rounding_keeps_order(10 * n, 10, n, 1);
    law_rounding_keeps_order(n, 1, 10 * n, 10);
}

/// Whatever is set, every swappiness is one that the kernel takes.
pub proof fn law_swappiness_is_in_range(m: Settings, state: State)
    ensures
        swappiness_in(policy_of(m), state) <= 200,
        policy_of(m).watchdog_swappiness <= 200,
{
}

/// A count is at least one, unless a number beyond 32 bits was asked for.
pub proof fn law_counts_are_at_least_one(m: Settings, key: Seq<char>, default: int)
    requires
        int_setting(m, "policy"@, key, default) <= u32::MAX,
    ensures
        count_setting(m, key, default) >= 1,
        count_setting(m, key, default) == at_least(int_setting(m, "policy"@, key, default), 1),
{
}

} // verus!
