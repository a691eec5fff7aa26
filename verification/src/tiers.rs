//! Actuators: sysctl writes, swap device management, ZRAM setup. Each of them
//! is told as what to do next, given what came of the step before.

use crate::numeral::{
    decimal, is_digit, lemma_decimal, law_numeral_round_trip, numeral_of, read_unsigned,
    signed_decimal, signed_numeral_of, unsigned, IntError,
};
use crate::procfs::InvalidData;
use crate::text::{
    behind_first, chars_of, is_space, join_spaced, lines, spaced, split_lines, split_words,
    string_of, strings, texts, trim, trim_start, trimmed, words,
};
use vstd::prelude::*;

verus! {

/// The file that holds the swappiness.
pub const SWAPPINESS: &'static str = "/proc/sys/vm/swappiness";

/// The file that holds the cache pressure.
pub const CACHE_PRESSURE: &'static str = "/proc/sys/vm/vfs_cache_pressure";

/// A step that somebody has to take outside.
#[derive(Debug)]
pub enum Action {
    /// See whether the path exists. It counts as a success if it does.
    Probe(String),
    /// Run the program with the arguments.
    Run(String, Vec<String>),
    /// Read the file; its text is what comes of a success.
    Read(String),
    /// Write the text to the file.
    Write(String, String),
}

/// A step, as the contracts see it.
pub enum Deed {
    Probe(Seq<char>),
    Run(Seq<char>, Seq<Seq<char>>),
    Read(Seq<char>),
    Write(Seq<char>, Seq<char>),
}

impl View for Action {
    type V = Deed;

    open spec fn view(&self) -> Deed {
        match *self {
            Action::Probe(path) => Deed::Probe(path@),
            Action::Run(program, args) => Deed::Run(program@, strings(args@)),
            Action::Read(path) => Deed::Read(path@),
            Action::Write(path, text) => Deed::Write(path@, text@),
        }
    }
}

/// What came of a step: a text, or what went wrong.
pub type Outcome = Result<String, String>;

/// What came of a step, as the contracts see it.
pub open spec fn outcome(o: Outcome) -> Result<Seq<char>, Seq<char>> {
    match o {
        Ok(s) => Ok(s@),
        Err(e) => Err(e@),
    }
}

/// What to do to set a tunable of the kernel.
pub fn sysctl_write(path: &str, value: u32) -> (r: Action)
    ensures
        r@ == Deed::Write(path@, decimal(value as nat)),
{
    Action::Write(String::from_str(path), numeral_of(value as u64))
}

/// What is said of a text that is no numeral.
pub open spec fn int_complaint(e: IntError) -> Seq<char> {
    match e {
        IntError::Empty => "cannot parse integer from empty string"@,
        IntError::InvalidDigit => "invalid digit found in string"@,
        IntError::Overflow => "number too large to fit in target type"@,
    }
}

/// Reads the text of a tunable.
pub fn sysctl_read(text: &str) -> (r: Result<u32, InvalidData>)
    ensures
        r is Ok <==> unsigned(trim(text@), u32::MAX as nat) is Ok,
        r matches Ok(v) ==> unsigned(trim(text@), u32::MAX as nat) == Ok::<nat, IntError>(v as nat),
        r matches Err(e) ==> exists|k: IntError|
            unsigned(trim(text@), u32::MAX as nat) == Err::<nat, IntError>(k) && e.message@
                == #[trigger] int_complaint(k),
{
    let c: Vec<char> = chars_of(text);
    match read_unsigned(trimmed(c.as_slice()), u32::MAX as u64) {
        Ok(v) => Ok(v as u32),
        Err(k) => {
            let message: String = match k {
                IntError::Empty => String::from_str("cannot parse integer from empty string"),
                IntError::InvalidDigit => String::from_str("invalid digit found in string"),
                IntError::Overflow => String::from_str("number too large to fit in target type"),
            };
            proof {
                assert(message@ == int_complaint(k));
            }
            Err(InvalidData { message })
        },
    }
}

/// A numeral has no white space to trim, before or behind it.
proof fn lemma_numeral_trimmed(n: nat, behind: Seq<char>)
    requires
        forall|i: int| 0 <= i < behind.len() ==> is_space(#[trigger] behind[i]),
    ensures
        trim(decimal(n) + behind) == decimal(n),
    decreases behind.len(),
{
    lemma_decimal(n);
    let d = decimal(n);
    let s = d + behind;
    assert(is_digit(d[0]) && is_digit(d[d.len() - 1]));
    assert(s[0] == d[0]);
    assert(trim_start(s) == s);
    if behind.len() == 0 {
        assert(s == d);
    } else {
        let t = behind.drop_last();
        assert(is_space(behind[behind.len() - 1]));
        assert(s.drop_last() == d + t);
        assert forall|i: int| 0 <= i < t.len() implies is_space(#[trigger] t[i]) by {
            assert(is_space(behind[i]));
        }
        lemma_numeral_trimmed(n, t);
        assert((d + t)[0] == d[0]);
        assert(trim_start(d + t) == d + t);
    }
}

/// What was written to a tunable is read back, also with the line end that the
/// kernel puts behind it.
pub proof fn law_sysctl_round_trip(v: u32, behind: Seq<char>)
    requires
        forall|i: int| 0 <= i < behind.len() ==> is_space(#[trigger] behind[i]),
    ensures
        unsigned(trim(decimal(v as nat) + behind), u32::MAX as nat) == Ok::<nat, IntError>(v as nat),
{
    lemma_numeral_trimmed(v as nat, behind);
    law_numeral_round_trip(v as nat, u32::MAX as nat);
}

/// The first words of those of the lines that have one.
pub open spec fn first_words(all: Seq<Seq<char>>) -> Seq<Seq<char>>
    decreases all.len(),
{
    if all.len() == 0 {
        seq![]
    } else if words(all.last()).len() == 0 {
        first_words(all.drop_last())
    } else {
        first_words(all.drop_last()).push(words(all.last())[0])
    }
}

/// Device/file paths of currently active swap areas (first column of
/// /proc/swaps, whose text is given; its first line is a heading).
pub fn active_swaps(text: &str) -> (r: Vec<String>)
    ensures
        strings(r@) == first_words(behind_first(lines(text@))),
{
    let all: Vec<Vec<char>> = split_lines(chars_of(text).as_slice());
    let ghost raws = lines(text@);
    let ghost rows = behind_first(raws);
    let mut out: Vec<String> = Vec::new();
    let mut at: usize = 1;
    proof {
        assert(rows.take(0) == Seq::<Seq<char>>::empty());
        assert(strings(out@) == Seq::<Seq<char>>::empty());
    }
    while at < all.len()
        invariant
            1 <= at,
            texts(all@) == raws,
            rows == behind_first(raws),
            at <= all@.len() || all@.len() == 0,
            all@.len() > 0 ==> strings(out@) == first_words(rows.take(at - 1)),
            all@.len() == 0 ==> strings(out@) == first_words(rows),
        decreases all@.len() - at,
    {
        let w: Vec<Vec<char>> = split_words(all[at].as_slice());
        proof {
            assert(rows[at - 1] == all@[at as int]@);
            assert(rows.take(at as int).drop_last() == rows.take(at - 1));
            assert(texts(w@).len() == w@.len());
        }
        if w.len() > 0 {
            let ghost before = strings(out@);
            out.push(string_of(w[0].as_slice()));
            proof {
                assert(texts(w@)[0] == w@[0]@);
                assert(strings(out@) == before.push(w@[0]@));
            }
        }
        at = at + 1;
    }
    proof {
        if all@.len() > 0 {
            assert(rows.take(at - 1) == rows);
        }
    }
    out
}

/// What is said of a program that failed.
pub open spec fn failure(
    program: Seq<char>,
    args: Seq<Seq<char>>,
    status: Seq<char>,
    stderr: Seq<char>,
) -> Seq<char> {
    program + " "@ + spaced(args) + " exited with "@ + status + ": "@ + trim(stderr)
}

/// What is said of a program that failed, given how it ended and what it wrote
/// to its error output.
pub fn failure_text(program: &str, args: &Vec<String>, status: &str, stderr: &str) -> (r: String)
    ensures
        r@ == failure(program@, strings(args@), status@, stderr@),
{
    let mut out: String = String::from_str(program);
    out.append(" ");
    out.append(join_spaced(args).as_str());
    out.append(" exited with ");
    out.append(status);
    out.append(": ");
    let c: Vec<char> = chars_of(stderr);
    out.append(string_of(trimmed(c.as_slice())).as_str());
    out
}

/// What to do to write a swap signature on a device.
pub open spec fn format_deed(dev: Seq<char>) -> Deed {
    Deed::Run("mkswap"@, seq!["-f"@, dev])
}

/// What to do to make a device a swap area.
pub open spec fn activate_deed(dev: Seq<char>, priority: i32) -> Deed {
    Deed::Run("swapon"@, seq!["--priority"@, signed_decimal(priority as int), dev])
}

/// What to do to stop a device being a swap area.
pub open spec fn deactivate_deed(dev: Seq<char>) -> Deed {
    Deed::Run("swapoff"@, seq![dev])
}

/// What to do to write a swap signature on a device.
pub fn mkswap(dev: &str) -> (r: Action)
    ensures
        r@ == format_deed(dev@),
{
    let mut args: Vec<String> = Vec::new();
    args.push(String::from_str("-f"));
    args.push(String::from_str(dev));
    proof {
        assert(strings(args@) =~= seq!["-f"@, dev@]);
    }
    Action::Run(String::from_str("mkswap"), args)
}

/// What to do to make a device a swap area.
pub fn swapon(dev: &str, priority: i32) -> (r: Action)
    ensures
        r@ == activate_deed(dev@, priority),
{
    let mut args: Vec<String> = Vec::new();
    args.push(String::from_str("--priority"));
    args.push(signed_numeral_of(priority));
    args.push(String::from_str(dev));
    proof {
        assert(strings(args@) =~= seq!["--priority"@, signed_decimal(priority as int), dev@]);
    }
    Action::Run(String::from_str("swapon"), args)
}

/// What to do to stop a device being a swap area.
pub fn swapoff(dev: &str) -> (r: Action)
    ensures
        r@ == deactivate_deed(dev@),
{
    let mut args: Vec<String> = Vec::new();
    args.push(String::from_str(dev));
    proof {
        assert(strings(args@) =~= seq![dev@]);
    }
    Action::Run(String::from_str("swapoff"), args)
}

} // verus!
