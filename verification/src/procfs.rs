//! What the kernel tells about memory: /proc/meminfo, /proc/vmstat,
//! /proc/pressure/memory and the auxiliary vector.

use crate::double::{
    leq, lemma_nearest_exists, nearest, product, quotient, sum, units, whole, zero, Double,
    INFINITE, SIGN,
};
use crate::literal::literal;
use crate::numeral::{read_unsigned, unsigned};
use crate::text::{
    chars_of, find, first_index, lines, reads, split_lines, split_words, texts, words,
};
use crate::tiers::outcome;
use vstd::prelude::*;
use vstd::slice::slice_subrange;

verus! {

/// One instantaneous view of system memory pressure.
#[derive(Clone, Copy, Debug)]
pub struct Sample {
    /// MemAvailable as a percentage of MemTotal.
    pub mem_available_pct: Double,
    /// Used swap as a percentage of total swap (0 when no swap exists).
    pub swap_used_pct: Double,
    /// PSI "some" avg10 for memory: % of wall time any task stalled on memory.
    pub psi_some_avg10: Double,
    /// PSI "full" avg10 for memory: % of wall time all non-idle tasks stalled.
    pub psi_full_avg10: Double,
    /// Swap-in rate over the sampling interval, KiB/s.
    pub swapin_kbs: Double,
    /// Swap-out rate over the sampling interval, KiB/s.
    pub swapout_kbs: Double,
}

/// The sizes that /proc/meminfo gives, in KiB.
#[derive(Clone, Copy, Debug, PartialEq, Eq, Structural)]
pub struct MemInfo {
    pub total_kb: u64,
    pub available_kb: u64,
    pub swap_total_kb: u64,
    pub swap_free_kb: u64,
}

/// The swap counters that /proc/vmstat gives.
#[derive(Clone, Copy, Debug, Default, PartialEq, Eq, Structural)]
pub struct VmStat {
    /// Pages swapped in since boot.
    pub pswpin: u64,
    /// Pages swapped out since boot.
    pub pswpout: u64,
}

/// The averages that /proc/pressure/memory gives.
#[derive(Clone, Copy, Debug)]
pub struct Psi {
    pub some_avg10: Double,
    pub some_avg60: Double,
    pub some_avg300: Double,
    pub full_avg10: Double,
    pub full_avg60: Double,
    pub full_avg300: Double,
}

impl PartialEq for Psi {
    fn eq(&self, other: &Psi) -> (r: bool) {
        self.some_avg10 == other.some_avg10 && self.some_avg60 == other.some_avg60
            && self.some_avg300 == other.some_avg300 && self.full_avg10 == other.full_avg10
            && self.full_avg60 == other.full_avg60 && self.full_avg300 == other.full_avg300
    }
}

impl vstd::std_specs::cmp::PartialEqSpecImpl for Psi {
    open spec fn obeys_eq_spec() -> bool {
        true
    }

    open spec fn eq_spec(&self, other: &Psi) -> bool {
        &&& leq(self.some_avg10, other.some_avg10) && leq(other.some_avg10, self.some_avg10)
        &&& leq(self.some_avg60, other.some_avg60) && leq(other.some_avg60, self.some_avg60)
        &&& leq(self.some_avg300, other.some_avg300) && leq(other.some_avg300, self.some_avg300)
        &&& leq(self.full_avg10, other.full_avg10) && leq(other.full_avg10, self.full_avg10)
        &&& leq(self.full_avg60, other.full_avg60) && leq(other.full_avg60, self.full_avg60)
        &&& leq(self.full_avg300, other.full_avg300) && leq(other.full_avg300, self.full_avg300)
    }
}

/// A text from the kernel that cannot be used.
#[derive(Debug)]
pub struct InvalidData {
    pub message: String,
}

/// Why what a file should tell is not known.
#[derive(Debug)]
pub enum ReadError {
    /// The file could not be read, for this reason.
    Unread(String),
    /// The file was read, but its text cannot be used.
    Invalid(InvalidData),
}

/// Why what a file should tell is not known, as the contracts see it.
pub enum ReadFault {
    Unread(Seq<char>),
    Invalid(Seq<char>),
}

impl View for ReadError {
    type V = ReadFault;

    open spec fn view(&self) -> ReadFault {
        match *self {
            ReadError::Unread(e) => ReadFault::Unread(e@),
            ReadError::Invalid(e) => ReadFault::Invalid(e.message@),
        }
    }
}

/// What is said of a fault.
pub open spec fn fault_text(f: ReadFault) -> Seq<char> {
    match f {
        ReadFault::Unread(e) => e,
        ReadFault::Invalid(e) => e,
    }
}

impl ReadError {
    /// What is said of this error.
    pub fn message(self) -> (r: String)
        ensures
            r@ == fault_text(self@),
    {
        match self {
            ReadError::Unread(e) => e,
            ReadError::Invalid(e) => e.message,
        }
    }
}

/// The number that a line gives for `key`: the key is the first word of the
/// line and the number the second.
pub open spec fn field(line: Seq<char>, key: Seq<char>) -> Option<nat> {
    let w = words(line);
    if w.len() >= 2 && w[0] == key {
        match unsigned(w[1], u64::MAX as nat) {
            Ok(n) => Some(n),
            Err(_) => None,
        }
    } else {
        None
    }
}

/// The number that the last line with one gives for `key`; zero where no line
/// has one.
pub open spec fn last_field(all: Seq<Seq<char>>, key: Seq<char>) -> nat
    decreases all.len(),
{
    if all.len() == 0 {
        0
    } else {
        match field(all.last(), key) {
            Some(n) => n,
            None => last_field(all.drop_last(), key),
        }
    }
}

/// The double that a word of the form `key=value` gives for `key`.
pub open spec fn assignment(word: Seq<char>, key: Seq<char>) -> Option<Double> {
    let i = first_index(word, '=');
    if i < word.len() && word.take(i as int) == key {
        literal(word.skip(i as int + 1))
    } else {
        None
    }
}

/// The double that the last of the words `w` with one gives for `key`.
pub open spec fn last_assignment(w: Seq<Seq<char>>, key: Seq<char>) -> Option<Double>
    decreases w.len(),
{
    if w.len() == 0 {
        None
    } else {
        match assignment(w.last(), key) {
            Some(d) => Some(d),
            None => last_assignment(w.drop_last(), key),
        }
    }
}

/// The double that a line gives for `key`, where its first word is `scope`.
pub open spec fn scoped(line: Seq<char>, scope: Seq<char>, key: Seq<char>) -> Option<Double> {
    let w = words(line);
    if w.len() > 0 && w[0] == scope {
        last_assignment(w.drop_first(), key)
    } else {
        None
    }
}

/// The double that the last line with one gives for `key` under `scope`; zero
/// where no line has one.
pub open spec fn last_scoped(all: Seq<Seq<char>>, scope: Seq<char>, key: Seq<char>) -> Double
    decreases all.len(),
{
    if all.len() == 0 {
        zero()
    } else {
        match scoped(all.last(), scope, key) {
            Some(d) => d,
            None => last_scoped(all.drop_last(), scope, key),
        }
    }
}

/// Reads /proc/meminfo.
pub fn parse_meminfo(text: &str) -> (r: Result<MemInfo, InvalidData>)
    ensures
        r is Ok <==> last_field(lines(text@), "MemTotal:"@) != 0,
        r matches Ok(m) ==> {
            &&& m.total_kb == last_field(lines(text@), "MemTotal:"@)
            &&& m.available_kb == last_field(lines(text@), "MemAvailable:"@)
            &&& m.swap_total_kb == last_field(lines(text@), "SwapTotal:"@)
            &&& m.swap_free_kb == last_field(lines(text@), "SwapFree:"@)
        },
        r matches Err(e) ==> e.message@ == "MemTotal missing from /proc/meminfo"@,
{
    let all: Vec<Vec<char>> = split_lines(chars_of(text).as_slice());
    let ghost raws = lines(text@);
    let mut m: MemInfo = MemInfo { total_kb: 0, available_kb: 0, swap_total_kb: 0, swap_free_kb: 0 };
    let mut at: usize = 0;
    while at < all.len()
        invariant
            at <= all@.len(),
            texts(all@) == raws,
            m.total_kb == last_field(raws.take(at as int), "MemTotal:"@),
            m.available_kb == last_field(raws.take(at as int), "MemAvailable:"@),
            m.swap_total_kb == last_field(raws.take(at as int), "SwapTotal:"@),
            m.swap_free_kb == last_field(raws.take(at as int), "SwapFree:"@),
        decreases all@.len() - at,
    {
        let w: Vec<Vec<char>> = split_words(all[at].as_slice());
        proof {
            assert(raws[at as int] == all@[at as int]@);
            assert(raws.take(at + 1).drop_last() == raws.take(at as int));
            assert(texts(w@).len() == w@.len());
        }
        at = at + 1;
        if w.len() < 2 {
            continue;
        }
        proof {
            assert(texts(w@)[0] == w@[0]@ && texts(w@)[1] == w@[1]@);
        }
        match read_unsigned(w[1].as_slice(), u64::MAX) {
            Ok(val) => {
                let key: &[char] = w[0].as_slice();
                if reads(key, "MemTotal:") {
                    m.total_kb = val;
                }
                if reads(key, "MemAvailable:") {
                    m.available_kb = val;
                }
                if reads(key, "SwapTotal:") {
                    m.swap_total_kb = val;
                }
                if reads(key, "SwapFree:") {
                    m.swap_free_kb = val;
                }
            },
            Err(_) => {},
        }
    }
    proof {
        assert(raws.take(at as int) == raws);
    }
    if m.total_kb == 0 {
        return Err(InvalidData { message: String::from_str("MemTotal missing from /proc/meminfo") });
    }
    Ok(m)
}

/// Reads /proc/vmstat.
pub fn parse_vmstat(text: &str) -> (r: Result<VmStat, InvalidData>)
    ensures
        r is Ok,
        r->Ok_0.pswpin == last_field(lines(text@), "pswpin"@),
        r->Ok_0.pswpout == last_field(lines(text@), "pswpout"@),
{
    let all: Vec<Vec<char>> = split_lines(chars_of(text).as_slice());
    let ghost raws = lines(text@);
    let mut vm: VmStat = VmStat { pswpin: 0, pswpout: 0 };
    let mut at: usize = 0;
    while at < all.len()
        invariant
            at <= all@.len(),
            texts(all@) == raws,
            vm.pswpin == last_field(raws.take(at as int), "pswpin"@),
            vm.pswpout == last_field(raws.take(at as int), "pswpout"@),
        decreases all@.len() - at,
    {
        let w: Vec<Vec<char>> = split_words(all[at].as_slice());
        proof {
            assert(raws[at as int] == all@[at as int]@);
            assert(raws.take(at + 1).drop_last() == raws.take(at as int));
            assert(texts(w@).len() == w@.len());
        }
        at = at + 1;
        if w.len() < 2 {
            continue;
        }
        proof {
            assert(texts(w@)[0] == w@[0]@ && texts(w@)[1] == w@[1]@);
        }
        match read_unsigned(w[1].as_slice(), u64::MAX) {
            Ok(val) => {
                let key: &[char] = w[0].as_slice();
                if reads(key, "pswpin") {
                    vm.pswpin = val;
                }
                if reads(key, "pswpout") {
                    vm.pswpout = val;
                }
            },
            Err(_) => {},
        }
    }
    proof {
        assert(raws.take(at as int) == raws);
    }
    Ok(vm)
}

/// The double that the words behind the first one give for `key`.
fn assigned(w: &Vec<Vec<char>>, key: &str) -> (r: Option<Double>)
    requires
        w@.len() > 0,
    ensures
        r == last_assignment(texts(w@).drop_first(), key@),
{
    let ghost all = texts(w@).drop_first();
    let mut found: Option<Double> = None;
    let mut i: usize = 1;
    proof {
        assert(all.take(0) == Seq::<Seq<char>>::empty());
    }
    while i < w.len()
        invariant
            1 <= i <= w@.len(),
            all == texts(w@).drop_first(),
            found == last_assignment(all.take(i - 1), key@),
        decreases w@.len() - i,
    {
        let word: &[char] = w[i].as_slice();
        let cut: usize = find(word, '=');
        proof {
            assert(all[i - 1] == word@);
            assert(all.take(i as int).drop_last() == all.take(i - 1));
        }
        if cut < word.len() {
            let name: &[char] = slice_subrange(word, 0, cut);
            let value: &[char] = slice_subrange(word, cut + 1, word.len());
            proof {
                assert(name@ == word@.take(cut as int));
                assert(value@ == word@.skip(cut + 1));
            }
            if reads(name, key) {
                if let Some(d) = Double::from_chars(value) {
                    found = Some(d);
                }
            }
        }
        i = i + 1;
    }
    proof {
        assert(all.take(i - 1) == all);
    }
    found
}

/// Reads /proc/pressure/memory.
pub fn parse_psi(text: &str) -> (r: Result<Psi, InvalidData>)
    ensures
        r is Ok,
        r->Ok_0.some_avg10 == last_scoped(lines(text@), "some"@, "avg10"@),
        r->Ok_0.some_avg60 == last_scoped(lines(text@), "some"@, "avg60"@),
        r->Ok_0.some_avg300 == last_scoped(lines(text@), "some"@, "avg300"@),
        r->Ok_0.full_avg10 == last_scoped(lines(text@), "full"@, "avg10"@),
        r->Ok_0.full_avg60 == last_scoped(lines(text@), "full"@, "avg60"@),
        r->Ok_0.full_avg300 == last_scoped(lines(text@), "full"@, "avg300"@),
{
    let all: Vec<Vec<char>> = split_lines(chars_of(text).as_slice());
    let ghost raws = lines(text@);
    let mut psi: Psi = Psi {
        some_avg10: Double::zero(),
        some_avg60: Double::zero(),
        some_avg300: Double::zero(),
        full_avg10: Double::zero(),
        full_avg60: Double::zero(),
        full_avg300: Double::zero(),
    };
    let mut at: usize = 0;
    while at < all.len()
        invariant
            at <= all@.len(),
            texts(all@) == raws,
            psi.some_avg10 == last_scoped(raws.take(at as int), "some"@, "avg10"@),
            psi.some_avg60 == last_scoped(raws.take(at as int), "some"@, "avg60"@),
            psi.some_avg300 == last_scoped(raws.take(at as int), "some"@, "avg300"@),
            psi.full_avg10 == last_scoped(raws.take(at as int), "full"@, "avg10"@),
            psi.full_avg60 == last_scoped(raws.take(at as int), "full"@, "avg60"@),
            psi.full_avg300 == last_scoped(raws.take(at as int), "full"@, "avg300"@),
        decreases all@.len() - at,
    {
        let w: Vec<Vec<char>> = split_words(all[at].as_slice());
        proof {
            assert(raws[at as int] == all@[at as int]@);
            assert(raws.take(at + 1).drop_last() == raws.take(at as int));
            assert(texts(w@).len() == w@.len());
        }
        at = at + 1;
        if w.len() == 0 {
            continue;
        }
        proof {
            assert(texts(w@)[0] == w@[0]@);
        }
        if reads(w[0].as_slice(), "some") {
            if let Some(d) = assigned(&w, "avg10") {
                psi.some_avg10 = d;
            }
            if let Some(d) = assigned(&w, "avg60") {
                psi.some_avg60 = d;
            }
            if let Some(d) = assigned(&w, "avg300") {
                psi.some_avg300 = d;
            }
        }
        if reads(w[0].as_slice(), "full") {
            if let Some(d) = assigned(&w, "avg10") {
                psi.full_avg10 = d;
            }
            if let Some(d) = assigned(&w, "avg60") {
                psi.full_avg60 = d;
            }
            if let Some(d) = assigned(&w, "avg300") {
                psi.full_avg300 = d;
            }
        }
    }
    proof {
        assert(raws.take(at as int) == raws);
    }
    Ok(psi)
}

/// By how much a counter has grown; nothing where it went backwards.
pub open spec fn growth(then: u64, now: u64) -> int {
    if now < then {
        0
    } else {
        now - then
    }
}

/// Pages over time, in KiB/s.
pub open spec fn rate(pages: int, page_kb: u64, elapsed: Double) -> Double {
    quotient(product(whole(pages), whole(page_kb as int)), elapsed)
}

/// The swap-in and swap-out rates between two snapshots.
pub open spec fn rates(prev: VmStat, cur: VmStat, elapsed: Double, page_kb: u64) -> (
    Double,
    Double,
) {
    if leq(elapsed, zero()) || page_kb == 0 {
        (zero(), zero())
    } else {
        (
            rate(growth(prev.pswpin, cur.pswpin), page_kb, elapsed),
            rate(growth(prev.pswpout, cur.pswpout), page_kb, elapsed),
        )
    }
}

/// Swap-in / swap-out rates in KiB/s between two vmstat snapshots.
/// Saturating: a counter reset (or boot wrap) yields 0, not a huge number.
pub fn swap_rates(prev: &VmStat, cur: &VmStat, elapsed_secs: Double, page_kb: u64) -> (r: (
    Double,
    Double,
))
    ensures
        r == rates(*prev, *cur, elapsed_secs, page_kb),
{
    if elapsed_secs.at_most(Double::zero()) || page_kb == 0 {
        return (Double::zero(), Double::zero());
    }
    let pages_in: u64 = cur.pswpin.saturating_sub(prev.pswpin);
    let pages_out: u64 = cur.pswpout.saturating_sub(prev.pswpout);
    let page: Double = Double::from_u64(page_kb);
    (
        Double::from_u64(pages_in).times(page).over(elapsed_secs),
        Double::from_u64(pages_out).times(page).over(elapsed_secs),
    )
}

/// The number that the bytes `s` stand for, with the most significant first.
pub open spec fn bytes_value(s: Seq<u8>) -> nat
    decreases s.len(),
{
    if s.len() == 0 {
        0
    } else {
        256 * bytes_value(s.drop_last()) + s.last() as nat
    }
}

/// The number that the bytes `s` stand for in the given order.
pub open spec fn word_value(s: Seq<u8>, big_endian: bool) -> nat {
    if big_endian {
        bytes_value(s)
    } else {
        bytes_value(s.reverse())
    }
}

/// The page size in KiB that an auxiliary vector gives: pairs of 64-bit words,
/// a key and a value. The first usable value for the key 6 (`AT_PAGESZ`)
/// counts; without one a page is taken to have 4 KiB.
pub open spec fn page_kb_in(auxv: Seq<u8>, big_endian: bool) -> nat
    decreases auxv.len(),
{
    if auxv.len() < 16 {
        4
    } else {
        let key = word_value(auxv.subrange(0, 8), big_endian);
        let value = word_value(auxv.subrange(8, 16), big_endian);
        if key == 6 && value >= 1024 {
            value / 1024
        } else {
            page_kb_in(auxv.skip(16), big_endian)
        }
    }
}

/// Eight bytes as a 64-bit word.
fn word_at(bytes: &[u8], from: usize, big_endian: bool) -> (r: u64)
    requires
        from + 8 <= bytes@.len(),
    ensures
        r == word_value(bytes@.subrange(from as int, from + 8), big_endian),
{
    let ghost raw = bytes@.subrange(from as int, from + 8);
    let ghost s = if big_endian {
        raw
    } else {
        raw.reverse()
    };
    let mut r: u64 = 0;
    let mut i: usize = 0;
    proof {
        assert(s.take(0) == Seq::<u8>::empty());
    }
    let ghost mut limit: nat = 1;
    let n: usize = bytes.len();
    while i < 8
        invariant
            i <= 8,
            from + 8 <= n,
            n == bytes@.len(),
            raw == bytes@.subrange(from as int, from + 8),
            s == if big_endian {
                raw
            } else {
                raw.reverse()
            },
            r == bytes_value(s.take(i as int)),
            r < limit,
            i == 0 ==> limit == 1,
            i == 1 ==> limit == 0x100,
            i == 2 ==> limit == 0x1_0000,
            i == 3 ==> limit == 0x100_0000,
            i == 4 ==> limit == 0x1_0000_0000,
            i == 5 ==> limit == 0x100_0000_0000,
            i == 6 ==> limit == 0x1_0000_0000_0000,
            i == 7 ==> limit == 0x100_0000_0000_0000,
        decreases 8 - i,
    {
        let b: u8 = if big_endian {
            bytes[from + i]
        } else {
            bytes[from + 7 - i]
        };
        proof {
            assert(b == s[i as int]);
            assert(s.take(i + 1).drop_last() == s.take(i as int));
            limit = 256 * limit;
        }
        r = 256 * r + b as u64;
        i = i + 1;
    }
    proof {
        assert(s.take(8) == s);
    }
    r
}

/// Kernel page size in KiB, read from AT_PAGESZ in the aux vector; 4 KiB where
/// there is no vector to read.
pub fn page_size_kb(auxv: Option<&Vec<u8>>, big_endian: bool) -> (r: u64)
    ensures
        auxv is None ==> r == 4,
        auxv matches Some(v) ==> r == page_kb_in(v@, big_endian),
        r > 0,
{
    match auxv {
        None => 4,
        Some(bytes) => {
            let mut from: usize = 0;
            proof {
                assert(bytes@.skip(0) == bytes@);
            }
            while bytes.len() - from >= 16
                invariant
                    from <= bytes@.len(),
                    auxv == Some(bytes),
                    page_kb_in(bytes@, big_endian) == page_kb_in(
                        bytes@.skip(from as int),
                        big_endian,
                    ),
                decreases bytes@.len() - from,
            {
                let key: u64 = word_at(bytes.as_slice(), from, big_endian);
                let val: u64 = word_at(bytes.as_slice(), from + 8, big_endian);
                proof {
                    let rest = bytes@.skip(from as int);
                    assert(rest.subrange(0, 8) == bytes@.subrange(from as int, from + 8));
                    assert(rest.subrange(8, 16) == bytes@.subrange(from + 8, from + 16));
                    assert(rest.skip(16) == bytes@.skip(from + 16));
                }
                if key == 6 && val >= 1024 {
                    return val / 1024;
                }
                from = from + 16;
            }
            4
        },
    }
}

/// A part of a whole, in percent.
pub open spec fn percent(part: int, total: u64) -> Double {
    quotient(product(whole(part), whole(100)), whole(total as int))
}

/// The percentage of the swap that is used.
pub open spec fn swap_used(mem: MemInfo) -> Double {
    if mem.swap_total_kb == 0 {
        zero()
    } else {
        percent(mem.swap_total_kb - mem.swap_free_kb, mem.swap_total_kb)
    }
}

/// A part of a whole, in percent.
pub fn percentage(part: u64, total: u64) -> (r: Double)
    ensures
        r == percent(part as int, total),
{
    Double::from_u64(part).times(Double::from_u64(100)).over(Double::from_u64(total))
}

/// A number of nanoseconds, in seconds: the whole seconds and the rest, each
/// as a double.
pub open spec fn seconds_in(nanos: int) -> Double {
    sum(
        whole(nanos / 1_000_000_000),
        quotient(whole(nanos % 1_000_000_000), whole(1_000_000_000)),
    )
}

/// A double that stands for a whole number from zero on has no sign.
proof fn lemma_whole_has_no_sign(n: nat)
    ensures
        !whole(n as int).negative(),
        whole(n as int).magnitude() <= INFINITE,
{
    lemma_nearest_exists(n, 1);
    assert(nearest(n, 1) % (SIGN as nat) == nearest(n, 1)) by (nonlinear_arith)
        requires
            nearest(n, 1) <= INFINITE,
            INFINITE < SIGN,
    ;
}

/// A number of nanoseconds, in seconds.
pub fn seconds(nanos: u64) -> (r: Double)
    ensures
        r == seconds_in(nanos as int),
{
    let whole_part: Double = Double::from_u64(nanos / 1_000_000_000);
    let rest: Double = Double::from_u64(nanos % 1_000_000_000);
    let billion: Double = Double::from_u64(1_000_000_000);
    let part: Double = rest.over(billion);
    proof {
        lemma_whole_has_no_sign((nanos / 1_000_000_000) as nat);
        lemma_whole_has_no_sign((nanos % 1_000_000_000) as nat);
        lemma_whole_has_no_sign(1_000_000_000);
        lemma_nearest_exists(units(rest.magnitude()), units(billion.magnitude()));
    }
    whole_part.plus(part)
}

/// What /proc/meminfo says.
pub open spec fn meminfo_in(text: Seq<char>) -> MemInfo {
    MemInfo {
        total_kb: last_field(lines(text), "MemTotal:"@) as u64,
        available_kb: last_field(lines(text), "MemAvailable:"@) as u64,
        swap_total_kb: last_field(lines(text), "SwapTotal:"@) as u64,
        swap_free_kb: last_field(lines(text), "SwapFree:"@) as u64,
    }
}

/// What /proc/pressure/memory says.
pub open spec fn psi_in(text: Seq<char>) -> Psi {
    Psi {
        some_avg10: last_scoped(lines(text), "some"@, "avg10"@),
        some_avg60: last_scoped(lines(text), "some"@, "avg60"@),
        some_avg300: last_scoped(lines(text), "some"@, "avg300"@),
        full_avg10: last_scoped(lines(text), "full"@, "avg10"@),
        full_avg60: last_scoped(lines(text), "full"@, "avg60"@),
        full_avg300: last_scoped(lines(text), "full"@, "avg300"@),
    }
}

/// What /proc/vmstat says.
pub open spec fn vmstat_in(text: Seq<char>) -> VmStat {
    VmStat {
        pswpin: last_field(lines(text), "pswpin"@) as u64,
        pswpout: last_field(lines(text), "pswpout"@) as u64,
    }
}

/// Whether no more swap is free than there is.
pub open spec fn swap_adds_up(mem: MemInfo) -> bool {
    mem.swap_total_kb == 0 || mem.swap_free_kb <= mem.swap_total_kb
}

/// The sample that is taken at the time `now`, where `last` tells when the last
/// one was taken and what the counters were then.
pub open spec fn sample_at(
    page_kb: u64,
    last: Option<(u64, VmStat)>,
    mem: MemInfo,
    psi: Psi,
    vm: VmStat,
    now: u64,
) -> Sample {
    let (swapin_kbs, swapout_kbs) = match last {
        Some((then, prev)) => rates(prev, vm, seconds_in(growth(then, now)), page_kb),
        None => (zero(), zero()),
    };
    Sample {
        mem_available_pct: percent(mem.available_kb as int, mem.total_kb),
        swap_used_pct: swap_used(mem),
        psi_some_avg10: psi.some_avg10,
        psi_full_avg10: psi.full_avg10,
        swapin_kbs,
        swapout_kbs,
    }
}

/// What came of reading /proc/meminfo, /proc/pressure/memory and /proc/vmstat.
pub struct Readings {
    pub mem: Result<Seq<char>, Seq<char>>,
    pub psi: Result<Seq<char>, Seq<char>>,
    pub vm: Result<Seq<char>, Seq<char>>,
}

/// Why there is no sample, if there is none: a file that could not be read, or
/// a /proc/meminfo that does not tell the size of the memory.
pub open spec fn fault_in(r: Readings) -> Option<ReadFault> {
    match r.mem {
        Err(e) => Some(ReadFault::Unread(e)),
        Ok(text) => if last_field(lines(text), "MemTotal:"@) == 0 {
            Some(ReadFault::Invalid("MemTotal missing from /proc/meminfo"@))
        } else {
            match (r.psi, r.vm) {
                (Err(e), _) => Some(ReadFault::Unread(e)),
                (Ok(_), Err(e)) => Some(ReadFault::Unread(e)),
                (Ok(_), Ok(_)) => None,
            }
        },
    }
}

/// When the last sample was taken and what the counters were then, after one
/// more attempt at the time `now`.
pub open spec fn last_after(last: Option<(u64, VmStat)>, r: Readings, now: u64) -> Option<
    (u64, VmStat),
> {
    if fault_in(r) is None {
        Some((now, vmstat_in(r.vm->Ok_0)))
    } else {
        last
    }
}

/// Derives samples, with rates between consecutive ones. Times are nanoseconds
/// since a moment that does not change.
#[derive(Debug)]
pub struct Monitor {
    page_kb: u64,
    last: Option<(u64, VmStat)>,
}

impl Monitor {
    /// The size of a page in KiB.
    pub closed spec fn page_kb(&self) -> u64 {
        self.page_kb
    }

    /// When the last sample was taken and what the counters were then, if there
    /// was one.
    pub closed spec fn last(&self) -> Option<(u64, VmStat)> {
        self.last
    }

    /// A monitor that has taken no sample yet.
    pub fn new(page_kb: u64) -> (r: Monitor)
        ensures
            r.page_kb() == page_kb,
            r.last() is None,
    {
        Monitor { page_kb, last: None }
    }

    /// Takes a sample from what the kernel tells at the time `now`.
    pub fn sample(&mut self, mem: &MemInfo, psi: &Psi, vm: VmStat, now: u64) -> (r: Sample)
        requires
            swap_adds_up(*mem),
        ensures
            final(self).page_kb() == old(self).page_kb(),
            final(self).last() == Some((now, vm)),
            r == sample_at(old(self).page_kb(), old(self).last(), *mem, *psi, vm, now),
    {
        let (swapin_kbs, swapout_kbs): (Double, Double) = match self.last {
            Some((then, prev)) => swap_rates(
                &prev,
                &vm,
                seconds(now.saturating_sub(then)),
                self.page_kb,
            ),
            None => (Double::zero(), Double::zero()),
        };
        self.last = Some((now, vm));
        Sample {
            mem_available_pct: percentage(mem.available_kb, mem.total_kb),
            swap_used_pct: if mem.swap_total_kb == 0 {
                Double::zero()
            } else {
                percentage(mem.swap_total_kb - mem.swap_free_kb, mem.swap_total_kb)
            },
            psi_some_avg10: psi.some_avg10,
            psi_full_avg10: psi.full_avg10,
            swapin_kbs,
            swapout_kbs,
        }
    }

    /// Takes a sample from what came of reading the three files at the time
    /// `now`. Without a sample the monitor stays as it was.
    pub fn sample_from(
        &mut self,
        mem: Result<String, String>,
        psi: Result<String, String>,
        vm: Result<String, String>,
        now: u64,
    ) -> (r: Result<Sample, ReadError>)
        requires
            ({
                let all = Readings { mem: outcome(mem), psi: outcome(psi), vm: outcome(vm) };
                fault_in(all) is None ==> swap_adds_up(meminfo_in(all.mem->Ok_0))
            }),
        ensures
            ({
                let all = Readings { mem: outcome(mem), psi: outcome(psi), vm: outcome(vm) };
                &&& r is Ok <==> fault_in(all) is None
                &&& r matches Ok(s) ==> s == sample_at(
                    old(self).page_kb(),
                    old(self).last(),
                    meminfo_in(all.mem->Ok_0),
                    psi_in(all.psi->Ok_0),
                    vmstat_in(all.vm->Ok_0),
                    now,
                )
                &&& r matches Err(e) ==> fault_in(all) == Some(e@)
                &&& final(self).page_kb() == old(self).page_kb()
                &&& final(self).last() == last_after(old(self).last(), all, now)
            }),
            r is Err ==> *final(self) == *old(self),
    {
        let mem: MemInfo = match mem {
            Err(e) => {
                return Err(ReadError::Unread(e));
            },
            Ok(text) => match parse_meminfo(text.as_str()) {
                Err(e) => {
                    return Err(ReadError::Invalid(e));
                },
                Ok(m) => m,
            },
        };
        let psi: Psi = match psi {
            Err(e) => {
                return Err(ReadError::Unread(e));
            },
            Ok(text) => match parse_psi(text.as_str()) {
                Err(e) => {
                    return Err(ReadError::Invalid(e));
                },
                Ok(p) => p,
            },
        };
        let vm: VmStat = match vm {
            Err(e) => {
                return Err(ReadError::Unread(e));
            },
            Ok(text) => match parse_vmstat(text.as_str()) {
                Err(e) => {
                    return Err(ReadError::Invalid(e));
                },
                Ok(v) => v,
            },
        };
        Ok(self.sample(&mem, &psi, vm, now))
    }
}

} // verus!
