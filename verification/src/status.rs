//! The status report.

use crate::double::Double;
use crate::literal::fixed;
use crate::numeral::{
    align_left, align_right, decimal, left_aligned, numeral_of, read_unsigned, right_aligned,
    unsigned,
};
use crate::procfs::{growth, percent, percentage, MemInfo, Psi};
use crate::text::{
    behind_first, chars_of, lines, split_lines, split_words, string_of, strings, texts, words,
};
use vstd::prelude::*;

verus! {

/// A size in KiB, in whole MiB.
pub open spec fn mebibytes(word: Seq<char>) -> nat {
    match unsigned(word, u64::MAX as nat) {
        Ok(n) => n / 1024,
        Err(_) => 0,
    }
}

/// A row of the table of swap areas.
pub open spec fn swap_row(f: Seq<Seq<char>>) -> Seq<char> {
    "  "@ + left_aligned(f[0], 40) + " "@ + left_aligned(f[1], 10) + " size="@ + right_aligned(
        decimal(mebibytes(f[2])),
        8,
    ) + " MiB used="@ + right_aligned(decimal(mebibytes(f[3])), 8) + " MiB priority="@ + f[4]
}

/// A row for each line that tells of a swap area.
pub open spec fn swap_rows(all: Seq<Seq<char>>) -> Seq<Seq<char>>
    decreases all.len(),
{
    if all.len() == 0 {
        seq![]
    } else if words(all.last()).len() < 5 {
        swap_rows(all.drop_last())
    } else {
        swap_rows(all.drop_last()).push(swap_row(words(all.last())))
    }
}

/// A size in KiB, in whole MiB.
fn mebibytes_of(word: &[char]) -> (r: u64)
    ensures
        r == mebibytes(word@),
{
    match read_unsigned(word, u64::MAX) {
        Ok(n) => n / 1024,
        Err(_) => 0,
    }
}

/// A row of the table of swap areas.
fn row(f: &Vec<Vec<char>>) -> (r: String)
    requires
        f@.len() >= 5,
    ensures
        r@ == swap_row(texts(f@)),
{
    proof {
        assert(forall|i: int| 0 <= i < 5 ==> texts(f@)[i] == f@[i]@);
    }
    let mut out: String = String::from_str("  ");
    out.append(align_left(string_of(f[0].as_slice()).as_str(), 40).as_str());
    out.append(" ");
    out.append(align_left(string_of(f[1].as_slice()).as_str(), 10).as_str());
    out.append(" size=");
    out.append(
        align_right(numeral_of(mebibytes_of(f[2].as_slice())).as_str(), 8).as_str(),
    );
    out.append(" MiB used=");
    out.append(
        align_right(numeral_of(mebibytes_of(f[3].as_slice())).as_str(), 8).as_str(),
    );
    out.append(" MiB priority=");
    out.append(string_of(f[4].as_slice()).as_str());
    out
}

/// The table of swap areas, from the text of /proc/swaps, whose first line is a
/// heading.
pub fn swap_table(text: &str) -> (r: Vec<String>)
    ensures
        strings(r@) == swap_rows(behind_first(lines(text@))),
{
    let all: Vec<Vec<char>> = split_lines(chars_of(text).as_slice());
    let ghost raws = lines(text@);
    let ghost rows = behind_first(raws);
    let mut out: Vec<String> = Vec::new();
    let mut at: usize = 1;
    proof {
        assert(rows.take(0) == Seq::<Seq<char>>::empty());
        assert(strings(out@) == Seq::<Seq<char>>::empty());
    }
    while at < all.len()
        invariant
            1 <= at,
            texts(all@) == raws,
            rows == behind_first(raws),
            at <= all@.len() || all@.len() == 0,
            all@.len() > 0 ==> strings(out@) == swap_rows(rows.take(at - 1)),
            all@.len() == 0 ==> strings(out@) == swap_rows(rows),
        decreases all@.len() - at,
    {
        let w: Vec<Vec<char>> = split_words(all[at].as_slice());
        proof {
            assert(rows[at - 1] == all@[at as int]@);
            assert(rows.take(at as int).drop_last() == rows.take(at - 1));
            assert(texts(w@).len() == w@.len());
        }
        if w.len() >= 5 {
            let ghost before = strings(out@);
            out.push(row(&w));
            proof {
                assert(strings(out@) == before.push(swap_row(texts(w@))));
            }
        }
        at = at + 1;
    }
    proof {
        if all@.len() > 0 {
            assert(rows.take(at - 1) == rows);
        }
    }
    out
}

/// The report on memory.
pub open spec fn memory_report(m: MemInfo) -> Seq<Seq<char>> {
    seq![
        "memory:"@,
        "  total         "@ + right_aligned(decimal((m.total_kb / 1024) as nat), 10) + " MiB"@,
        "  available     "@ + right_aligned(decimal((m.available_kb / 1024) as nat), 10) + " MiB ("@
            + fixed(percent(m.available_kb as int, m.total_kb), 1) + "%)"@,
        "  swap          "@ + right_aligned(decimal((m.swap_total_kb / 1024) as nat), 10)
            + " MiB total, "@ + decimal((growth(m.swap_free_kb, m.swap_total_kb) / 1024) as nat)
            + " MiB used"@,
    ]
}

/// The lines of the report on memory.
pub fn memory_lines(m: &MemInfo) -> (r: Vec<String>)
    ensures
        strings(r@) == memory_report(*m),
{
    let used: u64 = m.swap_total_kb.saturating_sub(m.swap_free_kb);
    let mut total: String = String::from_str("  total         ");
    total.append(align_right(numeral_of(m.total_kb / 1024).as_str(), 10).as_str());
    total.append(" MiB");
    let mut available: String = String::from_str("  available     ");
    available.append(align_right(numeral_of(m.available_kb / 1024).as_str(), 10).as_str());
    available.append(" MiB (");
    available.append(percentage(m.available_kb, m.total_kb).to_fixed(1).as_str());
    available.append("%)");
    let mut swap: String = String::from_str("  swap          ");
    swap.append(align_right(numeral_of(m.swap_total_kb / 1024).as_str(), 10).as_str());
    swap.append(" MiB total, ");
    swap.append(numeral_of(used / 1024).as_str());
    swap.append(" MiB used");
    let mut out: Vec<String> = Vec::new();
    out.push(String::from_str("memory:"));
    out.push(total);
    out.push(available);
    out.push(swap);
    proof {
        assert(strings(out@) =~= memory_report(*m));
    }
    out
}

/// The averages of one scope.
pub open spec fn averages(scope: Seq<char>, avg10: Double, avg60: Double, avg300: Double) -> Seq<
    char,
> {
    "  "@ + scope + "  avg10="@ + fixed(avg10, 2) + " avg60="@ + fixed(avg60, 2) + " avg300="@
        + fixed(avg300, 2)
}

/// The report on memory pressure.
pub open spec fn pressure_report(p: Psi) -> Seq<Seq<char>> {
    seq![
        "memory pressure (PSI):"@,
        averages("some"@, p.some_avg10, p.some_avg60, p.some_avg300),
        averages("full"@, p.full_avg10, p.full_avg60, p.full_avg300),
    ]
}

/// The averages of one scope.
fn averages_line(scope: &str, avg10: Double, avg60: Double, avg300: Double) -> (r: String)
    ensures
        r@ == averages(scope@, avg10, avg60, avg300),
{
    let mut out: String = String::from_str("  ");
    out.append(scope);
    out.append("  avg10=");
    out.append(avg10.to_fixed(2).as_str());
    out.append(" avg60=");
    out.append(avg60.to_fixed(2).as_str());
    out.append(" avg300=");
    out.append(avg300.to_fixed(2).as_str());
    out
}

/// The lines of the report on memory pressure.
pub fn pressure_lines(p: &Psi) -> (r: Vec<String>)
    ensures
        strings(r@) == pressure_report(*p),
{
    let mut out: Vec<String> = Vec::new();
    out.push(String::from_str("memory pressure (PSI):"));
    out.push(averages_line("some", p.some_avg10, p.some_avg60, p.some_avg300));
    out.push(averages_line("full", p.full_avg10, p.full_avg60, p.full_avg300));
    proof {
        assert(strings(out@) =~= pressure_report(*p));
    }
    out
}

/// The lines of the report on the tunables.
pub open spec fn tunable_line(name: Seq<char>, v: u32) -> Seq<char> {
    "  "@ + left_aligned(name, 20) + " = "@ + decimal(v as nat)
}

/// The line of the report for the swappiness.
pub fn swappiness_line(v: u32) -> (r: String)
    ensures
        r@ == tunable_line("vm.swappiness"@, v),
{
    let mut out: String = String::from_str("  ");
    out.append(align_left("vm.swappiness", 20).as_str());
    out.append(" = ");
    out.append(numeral_of(v as u64).as_str());
    out
}

/// The line of the report for the cache pressure.
pub fn cache_pressure_line(v: u32) -> (r: String)
    ensures
        r@ == tunable_line("vm.vfs_cache_pressure"@, v),
{
    let mut out: String = String::from_str("  ");
    out.append(align_left("vm.vfs_cache_pressure", 20).as_str());
    out.append(" = ");
    out.append(numeral_of(v as u64).as_str());
    out
}

} // verus!
