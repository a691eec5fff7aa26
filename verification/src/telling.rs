//! What reading the kernel's files and reporting on them promises: each number
//! comes from its own line and goes to its own place.

use crate::double::{leq, whole, zero, Double};
use crate::literal::{fixed, literal};
use crate::log::{log_line, Level};
use crate::numeral::{decimal, left_aligned, right_aligned, unsigned, IntError};
use crate::procfs::{
    assignment, field, last_assignment, last_field, last_scoped, page_size_kb, parse_meminfo,
    parse_psi, parse_vmstat, percentage, seconds, swap_rates, word_value, InvalidData, MemInfo,
    Monitor, Psi, ReadError, Sample, VmStat,
};
use crate::reading::{lacks, lemma_first_index_of};
use crate::status::{
    cache_pressure_line, memory_lines, mebibytes, pressure_lines, swap_rows, swap_table,
    swappiness_line,
};
use crate::text::{first_index, lines, spaced, strings, trim, words};
use crate::tiers::{active_swaps, failure_text, first_words, sysctl_read};
use vstd::prelude::*;

verus! {

/// A line counts for a key if its first word is the key and its second word is
/// a number of 64 bits; a later line that counts takes the place of the earlier
/// ones, any other line changes nothing, and without a line the number is zero.
pub proof fn law_a_later_line_wins(all: Seq<Seq<char>>, line: Seq<char>, key: Seq<char>)
    ensures
        last_field(Seq::<Seq<char>>::empty(), key) == 0,
        ({
            let w = words(line);
            let counts = w.len() >= 2 && w[0] == key && unsigned(w[1], u64::MAX as nat) is Ok;
            &&& counts ==> last_field(all.push(line), key) == unsigned(
                w[1],
                u64::MAX as nat,
            )->Ok_0
            &&& !counts ==> last_field(all.push(line), key) == last_field(all, key)
        }),
{
    assert(all.push(line).drop_last() == all);
}

/// Each size is the one that its own key has in the text; without a size of the
/// memory there is an error.
pub proof fn law_meminfo(text: &str, r: Result<MemInfo, InvalidData>)
    requires
        call_ensures(parse_meminfo, (text,), r),
    ensures
        ({
            let all = lines(text@);
            &&& r is Err <==> last_field(all, "MemTotal:"@) == 0
            &&& r matches Err(e) ==> e.message@ == "MemTotal missing from /proc/meminfo"@
            &&& r matches Ok(m) ==> m.total_kb == last_field(all, "MemTotal:"@) && m.available_kb
                == last_field(all, "MemAvailable:"@) && m.swap_total_kb == last_field(
                all,
                "SwapTotal:"@,
            ) && m.swap_free_kb == last_field(all, "SwapFree:"@)
        }),
{
}

/// Each counter is the one that its own key has in the text.
pub proof fn law_vmstat(text: &str, r: Result<VmStat, InvalidData>)
    requires
        call_ensures(parse_vmstat, (text,), r),
    ensures
        r matches Ok(v) && v.pswpin == last_field(lines(text@), "pswpin"@) && v.pswpout
            == last_field(lines(text@), "pswpout"@),
{
}

/// A word gives a key its value if it is the key, an equals sign and a number.
pub proof fn law_assignments(k: Seq<char>, v: Seq<char>, key: Seq<char>)
    requires
        lacks(k, '='),
    ensures
        k == key ==> assignment(k + seq!['='] + v, key) == literal(v),
        k != key ==> assignment(k + seq!['='] + v, key) is None,
        assignment(k, key) is None,
{
    let w = k + seq!['='] + v;
    lemma_first_index_of(k, '=', v);
    assert(w.take(k.len() as int) == k);
    assert(w.skip(k.len() as int + 1) == v);
    lemma_no_index(k, '=');
}

proof fn lemma_no_index(s: Seq<char>, c: char)
    requires
        lacks(s, c),
    ensures
        first_index(s, c) >= s.len(),
    decreases s.len(),
{
    if s.len() > 0 {
        assert(s[0] != c);
        let t = s.drop_first();
        assert forall|i: int| 0 <= i < t.len() implies #[trigger] t[i] != c by {
            assert(s[i + 1] != c);
        }
        lemma_no_index(t, c);
    }
}

/// A later word, and a later line of the same scope, take the place of earlier
/// ones; lines of another scope, and words that give the key nothing, change
/// nothing.
pub proof fn law_later_assignments_win(
    all: Seq<Seq<char>>,
    line: Seq<char>,
    w: Seq<Seq<char>>,
    word: Seq<char>,
    scope: Seq<char>,
    key: Seq<char>,
)
    ensures
        last_scoped(Seq::<Seq<char>>::empty(), scope, key) == zero(),
        assignment(word, key) is Some ==> last_assignment(w.push(word), key) == assignment(
            word,
            key,
        ),
        assignment(word, key) is None ==> last_assignment(w.push(word), key) == last_assignment(
            w,
            key,
        ),
        ({
            let v = words(line);
            let given = last_assignment(v.drop_first(), key);
            let counts = v.len() > 0 && v[0] == scope && given is Some;
            &&& counts ==> last_scoped(all.push(line), scope, key) == given->0
            &&& !counts ==> last_scoped(all.push(line), scope, key) == last_scoped(
                all,
                scope,
                key,
            )
        }),
{
    assert(all.push(line).drop_last() == all);
    assert(w.push(word).drop_last() == w);
}

/// Each average is the one that its own key has under its own scope.
pub proof fn law_psi(text: &str, r: Result<Psi, InvalidData>)
    requires
        call_ensures(parse_psi, (text,), r),
    ensures
        ({
            let all = lines(text@);
            r matches Ok(p) && p.some_avg10 == last_scoped(all, "some"@, "avg10"@) && p.some_avg60
                == last_scoped(all, "some"@, "avg60"@) && p.some_avg300 == last_scoped(
                all,
                "some"@,
                "avg300"@,
            ) && p.full_avg10 == last_scoped(all, "full"@, "avg10"@) && p.full_avg60 == last_scoped(
                all,
                "full"@,
                "avg60"@,
            ) && p.full_avg300 == last_scoped(all, "full"@, "avg300"@)
        }),
{
}

/// A sample holds, each in its own field: the share of the memory that is
/// available, the share of the swap that is used, the two averages over ten
/// seconds, and the rates since the last sample, of which there are none at the
/// first. The counters and the time are kept for the next sample.
pub proof fn law_samples(
    m: &mut Monitor,
    mem: MemInfo,
    psi: Psi,
    vm: VmStat,
    now: u64,
    s: Sample,
    available: Double,
    used: Double,
    since: Double,
    then: u64,
    prev: VmStat,
    rates: (Double, Double),
)
    requires
        mem.swap_total_kb == 0 || mem.swap_free_kb <= mem.swap_total_kb,
        call_ensures(Monitor::sample, (m, &mem, &psi, vm, now), s),
        call_ensures(percentage, (mem.available_kb, mem.total_kb), available),
        mem.swap_total_kb > 0 ==> call_ensures(
            percentage,
            ((mem.swap_total_kb - mem.swap_free_kb) as u64, mem.swap_total_kb),
            used,
        ),
        old(m).last() == Some((then, prev)) ==> call_ensures(
            seconds,
            (if now < then {
                0
            } else {
                (now - then) as u64
            },),
            since,
        ),
        old(m).last() == Some((then, prev)) ==> call_ensures(
            swap_rates,
            (&prev, &vm, since, old(m).page_kb()),
            rates,
        ),
    ensures
        s.mem_available_pct == available,
        mem.swap_total_kb > 0 ==> s.swap_used_pct == used,
        mem.swap_total_kb == 0 ==> s.swap_used_pct == zero(),
        s.psi_some_avg10 == psi.some_avg10,
        s.psi_full_avg10 == psi.full_avg10,
        old(m).last() is None ==> s.swapin_kbs == zero() && s.swapout_kbs == zero(),
        old(m).last() == Some((then, prev)) ==> s.swapin_kbs == rates.0 && s.swapout_kbs == rates.1,
        final(m).last() == Some((now, vm)),
        final(m).page_kb() == old(m).page_kb(),
{
}

/// A sample from what came of reading the files is the sample from what they
/// say; where one of them could not be read or used there is none, and the
/// monitor is as it was.
pub proof fn law_samples_from_files(
    m: &mut Monitor,
    mem: String,
    psi: String,
    vm: String,
    now: u64,
    r: Result<Sample, ReadError>,
    a: &str,
    b: &str,
    c: &str,
    x: Result<MemInfo, InvalidData>,
    y: Result<Psi, InvalidData>,
    z: Result<VmStat, InvalidData>,
    n: &mut Monitor,
    s: Sample,
)
    requires
        a@ == mem@ && b@ == psi@ && c@ == vm@,
        call_ensures(parse_meminfo, (a,), x),
        call_ensures(parse_psi, (b,), y),
        call_ensures(parse_vmstat, (c,), z),
        x matches Ok(info) ==> info.swap_total_kb == 0 || info.swap_free_kb <= info.swap_total_kb,
        call_ensures(Monitor::sample_from, (m, Ok(mem), Ok(psi), Ok(vm), now), r),
        x is Ok ==> *old(n) == *old(m) && call_ensures(
            Monitor::sample,
            (n, &x->Ok_0, &y->Ok_0, z->Ok_0, now),
            s,
        ),
    ensures
        r is Ok <==> x is Ok,
        x is Ok ==> r == Ok::<Sample, ReadError>(s),
        x matches Err(e) ==> (r matches Err(ReadError::Invalid(f)) && f.message@ == e.message@)
            && *final(m) == *old(m),
{
}

/// A file that cannot be read means an error with what was said of it, the
/// first of them if there are more, and leaves the monitor as it was.
pub proof fn law_unread_files(
    m: &mut Monitor,
    mem: Result<String, String>,
    psi: Result<String, String>,
    vm: Result<String, String>,
    now: u64,
    r: Result<Sample, ReadError>,
)
    requires
        call_ensures(Monitor::sample_from, (m, mem, psi, vm, now), r),
        mem is Err || psi is Err || vm is Err,
    ensures
        r is Err,
        *final(m) == *old(m),
        mem matches Err(e) ==> (r matches Err(ReadError::Unread(f)) && f@ == e@),
        mem matches Ok(text) ==> {
            &&& last_field(lines(text@), "MemTotal:"@) == 0 ==> r->Err_0 is Invalid
            &&& last_field(lines(text@), "MemTotal:"@) != 0 ==> (
            r matches Err(ReadError::Unread(f)) && f@ == if psi is Err {
                psi->Err_0@
            } else {
                vm->Err_0@
            })
        },
{
}

/// Without time, or with pages of no size, there are no rates; and a counter
/// that stands still or goes back has none of its own.
pub proof fn law_no_rates(
    prev: VmStat,
    cur: VmStat,
    other: VmStat,
    elapsed: Double,
    page_kb: u64,
    r: (Double, Double),
    q: (Double, Double),
)
    requires
        call_ensures(swap_rates, (&prev, &cur, elapsed, page_kb), r),
        call_ensures(swap_rates, (&prev, &other, elapsed, page_kb), q),
    ensures
        leq(elapsed, zero()) || page_kb == 0 ==> r == (zero(), zero()),
        cur.pswpin == other.pswpin ==> r.0 == q.0,
        cur.pswpout == other.pswpout ==> r.1 == q.1,
        cur.pswpin <= prev.pswpin && other.pswpin <= prev.pswpin ==> r.0 == q.0,
        cur.pswpout <= prev.pswpout && other.pswpout <= prev.pswpout ==> r.1 == q.1,
{
}

/// Swap-in and swap-out are measured alike: with the counters exchanged, the
/// rates are exchanged.
pub proof fn law_both_ways_alike(
    prev: VmStat,
    cur: VmStat,
    elapsed: Double,
    page_kb: u64,
    r: (Double, Double),
    q: (Double, Double),
)
    requires
        call_ensures(swap_rates, (&prev, &cur, elapsed, page_kb), r),
        call_ensures(
            swap_rates,
            (
                &(VmStat { pswpin: prev.pswpout, pswpout: prev.pswpin }),
                &(VmStat { pswpin: cur.pswpout, pswpout: cur.pswpin }),
                elapsed,
                page_kb,
            ),
            q,
        ),
    ensures
        r.0 == q.1,
        r.1 == q.0,
{
}

/// The first pair of words with the key for the page size and at least 1024 for
/// its value tells the size; pairs before it do not matter, nor what follows it.
pub proof fn law_page_size(front: Vec<u8>, rest: Vec<u8>, all: Vec<u8>, big_endian: bool, r: u64, q: u64)
    requires
        all@ == front@ + rest@,
        front@.len() == 16,
        call_ensures(page_size_kb, (Some(&all), big_endian), r),
        call_ensures(page_size_kb, (Some(&rest), big_endian), q),
    ensures
        ({
            let key = word_value(front@.take(8), big_endian);
            let value = word_value(front@.skip(8), big_endian);
            if key == 6 && value >= 1024 {
                r == value / 1024
            } else {
                r == q
            }
        }),
{
    assert(all@.subrange(0, 8) == front@.take(8));
    assert(all@.subrange(8, 16) == front@.skip(8));
    assert(all@.skip(16) == rest@);
}

/// Without a pair of words in it, a vector says nothing, and a page has 4 KiB.
pub proof fn law_page_size_unknown(v: Vec<u8>, big_endian: bool, r: u64, q: u64)
    requires
        v@.len() < 16,
        call_ensures(page_size_kb, (Some(&v), big_endian), r),
        call_ensures(page_size_kb, (None::<&Vec<u8>>, big_endian), q),
    ensures
        r == 4,
        q == 4,
{
}

/// A word is told by its bytes, the first of which weighs most in the one order
/// and least in the other.
pub proof fn law_bytes(s: Seq<u8>, b: u8)
    ensures
        word_value(Seq::<u8>::empty(), true) == 0,
        word_value(s.push(b), true) == 256 * word_value(s, true) + b,
        word_value(s.reverse(), false) == word_value(s, true),
{
    assert(s.push(b).drop_last() == s);
    assert(s.reverse().reverse() == s);
}

/// The swap areas are the first words of the lines behind the heading, in their
/// order; a line without words tells of none.
pub proof fn law_swap_areas(text: &str, r: Vec<String>, all: Seq<Seq<char>>, line: Seq<char>)
    requires
        call_ensures(active_swaps, (text,), r),
    ensures
        lines(text@).len() == 0 ==> r@.len() == 0,
        lines(text@).len() > 0 ==> strings(r@) == first_words(lines(text@).skip(1)),
        first_words(Seq::<Seq<char>>::empty()) == Seq::<Seq<char>>::empty(),
        words(line).len() == 0 ==> first_words(all.push(line)) == first_words(all),
        words(line).len() > 0 ==> first_words(all.push(line)) == first_words(all).push(
            words(line)[0],
        ),
{
    assert(all.push(line).drop_last() == all);
    assert(strings(r@).len() == r@.len());
    if lines(text@).len() > 0 {
        assert(lines(text@).drop_first() == lines(text@).skip(1));
    }
}

/// A tunable is the number that its text holds, without the white space around
/// it; other texts are refused, each for its own reason.
pub proof fn law_tunables_are_read(text: &str, r: Result<u32, InvalidData>)
    requires
        call_ensures(sysctl_read, (text,), r),
    ensures
        ({
            let n = unsigned(trim(text@), u32::MAX as nat);
            &&& r is Ok <==> n is Ok
            &&& r matches Ok(v) ==> n == Ok::<nat, IntError>(v as nat)
            &&& n == Err::<nat, IntError>(IntError::Empty) ==> r->Err_0.message@
                == "cannot parse integer from empty string"@
            &&& n == Err::<nat, IntError>(IntError::InvalidDigit) ==> r->Err_0.message@
                == "invalid digit found in string"@
            &&& n == Err::<nat, IntError>(IntError::Overflow) ==> r->Err_0.message@
                == "number too large to fit in target type"@
        }),
{
}

/// A program that failed is told with its arguments, how it ended, and what it
/// said.
pub proof fn law_failures(program: &str, args: Vec<String>, status: &str, stderr: &str, r: String)
    requires
        call_ensures(failure_text, (program, &args, status, stderr), r),
    ensures
        r@ == program@ + " "@ + spaced(strings(args@)) + " exited with "@ + status@ + ": "@ + trim(
            stderr@,
        ),
{
}

/// The table of swap areas has a row for each line behind the heading that has
/// five words or more, in their order: the area, its kind, its size and what of
/// it is used, in whole MiB, and its priority.
pub proof fn law_swap_table(text: &str, r: Vec<String>, all: Seq<Seq<char>>, line: Seq<char>)
    requires
        call_ensures(swap_table, (text,), r),
    ensures
        lines(text@).len() == 0 ==> r@.len() == 0,
        lines(text@).len() > 0 ==> strings(r@) == swap_rows(lines(text@).skip(1)),
        swap_rows(Seq::<Seq<char>>::empty()) == Seq::<Seq<char>>::empty(),
        words(line).len() < 5 ==> swap_rows(all.push(line)) == swap_rows(all),
        words(line).len() >= 5 ==> {
            let w = words(line);
            swap_rows(all.push(line)) == swap_rows(all).push(
                "  "@ + left_aligned(w[0], 40) + " "@ + left_aligned(w[1], 10) + " size="@
                    + right_aligned(decimal(mebibytes(w[2])), 8) + " MiB used="@ + right_aligned(
                    decimal(mebibytes(w[3])),
                    8,
                ) + " MiB priority="@ + w[4],
            )
        },
{
    assert(all.push(line).drop_last() == all);
    assert(strings(r@).len() == r@.len());
    if lines(text@).len() > 0 {
        assert(lines(text@).drop_first() == lines(text@).skip(1));
    }
}

/// A size in KiB is told in whole MiB, rounded down; what is no number counts as
/// nothing.
pub proof fn law_mebibytes(word: Seq<char>)
    ensures
        unsigned(word, u64::MAX as nat) matches Ok(n) ==> mebibytes(word) * 1024 <= n < (mebibytes(
            word,
        ) + 1) * 1024,
        unsigned(word, u64::MAX as nat) is Err ==> mebibytes(word) == 0,
{
}

/// The report on memory tells the total, what is available of it, also as a
/// share, and the swap, with what of it is used.
pub proof fn law_memory_report(m: MemInfo, r: Vec<String>, share: Double)
    requires
        call_ensures(memory_lines, (&m,), r),
        call_ensures(percentage, (m.available_kb, m.total_kb), share),
    ensures
        ({
            let used = if m.swap_free_kb > m.swap_total_kb {
                0nat
            } else {
                (m.swap_total_kb - m.swap_free_kb) as nat
            };
            &&& r@.len() == 4
            &&& r@[0]@ == "memory:"@
            &&& r@[1]@ == "  total         "@ + right_aligned(
                decimal(m.total_kb as nat / 1024),
                10,
            ) + " MiB"@
            &&& r@[2]@ == "  available     "@ + right_aligned(
                decimal(m.available_kb as nat / 1024),
                10,
            ) + " MiB ("@ + fixed(share, 1) + "%)"@
            &&& r@[3]@ == "  swap          "@ + right_aligned(
                decimal(m.swap_total_kb as nat / 1024),
                10,
            ) + " MiB total, "@ + decimal(used / 1024) + " MiB used"@
        }),
{
    assert(strings(r@).len() == r@.len());
    assert(strings(r@)[0] == r@[0]@ && strings(r@)[1] == r@[1]@ && strings(r@)[2] == r@[2]@
        && strings(r@)[3] == r@[3]@);
}

/// The report on memory pressure tells the three averages of each scope.
pub proof fn law_pressure_report(p: Psi, r: Vec<String>)
    requires
        call_ensures(pressure_lines, (&p,), r),
    ensures
        r@.len() == 3,
        r@[0]@ == "memory pressure (PSI):"@,
        r@[1]@ == "  "@ + "some"@ + "  avg10="@ + fixed(p.some_avg10, 2) + " avg60="@ + fixed(
            p.some_avg60,
            2,
        ) + " avg300="@ + fixed(p.some_avg300, 2),
        r@[2]@ == "  "@ + "full"@ + "  avg10="@ + fixed(p.full_avg10, 2) + " avg60="@ + fixed(
            p.full_avg60,
            2,
        ) + " avg300="@ + fixed(p.full_avg300, 2),
{
    assert(strings(r@).len() == r@.len());
    assert(strings(r@)[0] == r@[0]@ && strings(r@)[1] == r@[1]@ && strings(r@)[2] == r@[2]@);
}

/// The report on the tunables, and a line of the log.
pub proof fn law_report_lines(
    v: u32,
    a: String,
    b: String,
    elapsed: Double,
    level: Level,
    text: &str,
    l: String,
)
    requires
        call_ensures(swappiness_line, (v,), a),
        call_ensures(cache_pressure_line, (v,), b),
        call_ensures(log_line, (elapsed, level, text), l),
    ensures
        a@ == "  "@ + left_aligned("vm.swappiness"@, 20) + " = "@ + decimal(v as nat),
        b@ == "  "@ + left_aligned("vm.vfs_cache_pressure"@, 20) + " = "@ + decimal(v as nat),
        ({
            let name = match level {
                Level::Info => "INFO"@,
                Level::Warn => "WARN"@,
                Level::Error => "ERROR"@,
            };
            l@ == "["@ + right_aligned(fixed(elapsed, 1), 8) + "s] ["@ + left_aligned(name, 5)
                + "] "@ + text@
        }),
{
}

} // verus!
