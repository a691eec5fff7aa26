//! Configuration: a minimal TOML subset (sections, `key = value` scalars,
//! `#` comments).

use crate::double::{clamped, leq, truncated, whole, Double};
use crate::literal::literal;
use crate::numeral::{decimal, numeral_of, read_signed, signed};
use crate::procfs::{InvalidData, ReadError, ReadFault};
use crate::text::{
    chars_of, find, first_index, joined, lines, split_lines, string_of, texts, trim, trimmed,
};
use crate::tiers::outcome;
use vstd::prelude::*;
use vstd::slice::slice_subrange;

verus! {

/// A scalar from the configuration.
#[derive(Debug)]
pub enum Value {
    Int(i64),
    Float(Double),
    Str(String),
}

/// What a scalar stands for.
pub enum Scalar {
    Int(int),
    Float(Double),
    Str(Seq<char>),
}

impl View for Value {
    type V = Scalar;

    open spec fn view(&self) -> Scalar {
        match *self {
            Value::Int(n) => Scalar::Int(n as int),
            Value::Float(d) => Scalar::Float(d),
            Value::Str(s) => Scalar::Str(s@),
        }
    }
}

/// What the sections of a configuration hold, by section and key.
pub type Settings = Map<(Seq<char>, Seq<char>), Scalar>;

/// How many characters of a line stand before its comment. A comment starts at
/// the first `#` that stands outside a string.
pub open spec fn comment_start(s: Seq<char>, in_string: bool) -> nat
    decreases s.len(),
{
    if s.len() == 0 || (s[0] == '#' && !in_string) {
        0
    } else {
        1 + comment_start(
            s.drop_first(),
            if s[0] == '"' {
                !in_string
            } else {
                in_string
            },
        )
    }
}

/// A line without its comment and the white space around what is left.
pub open spec fn content(s: Seq<char>) -> Seq<char> {
    trim(s.take(comment_start(s, false) as int))
}

/// The scalar that `s` denotes: a string in quotes, an integer or another
/// number.
pub open spec fn scalar(s: Seq<char>) -> Option<Scalar> {
    if s.len() >= 2 && s[0] == '"' && s.last() == '"' {
        Some(Scalar::Str(s.subrange(1, s.len() - 1)))
    } else if let Some(n) = signed(s) {
        Some(Scalar::Int(n))
    } else if let Some(d) = literal(s) {
        Some(Scalar::Float(d))
    } else {
        None
    }
}

/// `s` in quotes, with the escapes that make it readable in a message: the
/// text that the standard library's `Debug` gives a string.
pub uninterp spec fn quoted(s: Seq<char>) -> Seq<char>;

/// What is said of a value that is none.
pub open spec fn invalid_value(quoted: Seq<char>) -> Seq<char> {
    "invalid value: "@ + quoted
}

/// What one line of the text says.
pub enum Line {
    /// Nothing.
    Blank,
    /// From here on, keys belong to this section.
    Section(Seq<char>),
    /// This key has this value.
    Entry(Seq<char>, Scalar),
    /// The line is wrong in this way.
    Wrong(Seq<char>),
}

/// What a line says while keys belong to `section`.
pub open spec fn line_of(section: Seq<char>, raw: Seq<char>) -> Line {
    let s = content(raw);
    let cut = first_index(s, '=');
    let key = trim(s.take(cut as int));
    let right = trim(s.skip(cut as int + 1));
    if s.len() == 0 {
        Line::Blank
    } else if s[0] == '[' {
        if s.last() != ']' || s.len() <= 2 {
            Line::Wrong("malformed section header"@)
        } else if trim(s.subrange(1, s.len() - 1)).len() == 0 {
            Line::Wrong("empty section name"@)
        } else {
            Line::Section(trim(s.subrange(1, s.len() - 1)))
        }
    } else if cut >= s.len() {
        Line::Wrong("expected `key = value`"@)
    } else if key.len() == 0 {
        Line::Wrong("empty key"@)
    } else if section.len() == 0 {
        Line::Wrong("key outside any section"@)
    } else {
        match scalar(right) {
            Some(v) => Line::Entry(key, v),
            None => Line::Wrong(invalid_value(quoted(right))),
        }
    }
}

/// What is said of the wrong line with index `at`.
pub open spec fn complaint(at: nat, message: Seq<char>) -> Seq<char> {
    "line "@ + decimal(at + 1) + ": "@ + message
}

/// Reads the lines from index `at` on, while keys belong to `section` and
/// `held` has been read already. The first wrong line ends the reading.
pub open spec fn settings_from(
    all: Seq<Seq<char>>,
    at: nat,
    section: Seq<char>,
    held: Settings,
) -> Result<Settings, Seq<char>>
    decreases all.len() - at,
{
    if at >= all.len() {
        Ok(held)
    } else {
        match line_of(section, all[at as int]) {
            Line::Blank => settings_from(all, at + 1, section, held),
            Line::Section(name) => settings_from(all, at + 1, name, held),
            Line::Entry(key, v) => settings_from(all, at + 1, section, held.insert((section, key), v)),
            Line::Wrong(message) => Err(complaint(at, message)),
        }
    }
}

/// What a configuration text says.
pub open spec fn settings(text: Seq<char>) -> Result<Settings, Seq<char>> {
    settings_from(lines(text), 0, seq![], Map::empty())
}

/// What the file at `path` says, given what came of reading it.
pub open spec fn loading(path: Seq<char>, read: Result<Seq<char>, Seq<char>>) -> Result<
    Settings,
    ReadFault,
> {
    match read {
        Err(e) => Err(ReadFault::Unread(e)),
        Ok(text) => match settings(text) {
            Ok(m) => Ok(m),
            Err(e) => Err(ReadFault::Invalid(path + ": "@ + e)),
        },
    }
}

/// The text of `line` before its comment.
pub fn strip_comment<'a>(line: &'a [char]) -> (r: &'a [char])
    ensures
        r@ == line@.take(comment_start(line@, false) as int),
{
    let mut in_string: bool = false;
    let mut i: usize = 0;
    proof {
        assert(line@.skip(0) == line@);
    }
    while i < line.len()
        invariant
            i <= line@.len(),
            comment_start(line@, false) == i + comment_start(line@.skip(i as int), in_string),
        decreases line@.len() - i,
    {
        let c: char = line[i];
        if c == '#' && !in_string {
            proof {
                assert(line@.subrange(0, i as int) == line@.take(i as int));
            }
            return slice_subrange(line, 0, i);
        }
        proof {
            assert(line@.skip(i as int).drop_first() == line@.skip(i + 1));
        }
        if c == '"' {
            in_string = !in_string;
        }
        i = i + 1;
    }
    proof {
        assert(line@.take(i as int) == line@);
    }
    line
}

/// The standard library's `Debug` for `str`: the text in quotes, with escapes.
/// The claim is that the result depends on the text alone; how a character is
/// escaped is not stated.
#[verifier::external_body]
fn quote(s: &str) -> (r: String)
    ensures
        r@ == quoted(s@),
{
    format!("{:?}", s)
}

/// What is said of a value that is none, given the value in quotes.
pub fn invalid_value_message(in_quotes: &str) -> (r: String)
    ensures
        r@ == invalid_value(in_quotes@),
{
    let mut out: String = String::from_str("invalid value: ");
    out.append(in_quotes);
    out
}

/// Reads a scalar.
pub fn parse_value(s: &[char]) -> (r: Result<Value, String>)
    ensures
        r is Ok <==> scalar(s@) is Some,
        r matches Ok(v) ==> scalar(s@) == Some(v@),
        r matches Err(m) ==> m@ == invalid_value(quoted(s@)),
{
    if s.len() >= 2 && s[0] == '"' && s[s.len() - 1] == '"' {
        return Ok(Value::Str(string_of(slice_subrange(s, 1, s.len() - 1))));
    }
    if let Some(n) = read_signed(s) {
        return Ok(Value::Int(n));
    }
    if let Some(d) = Double::from_chars(s) {
        return Ok(Value::Float(d));
    }
    Err(invalid_value_message(quote(string_of(s).as_str()).as_str()))
}

/// A key of a section and its value.
#[derive(Debug)]
struct Entry {
    section: String,
    key: String,
    value: Value,
}

/// The section and the key of an entry.
spec fn place(e: Entry) -> (Seq<char>, Seq<char>) {
    (e.section@, e.key@)
}

/// Whether no key occurs twice.
spec fn distinct(s: Seq<Entry>) -> bool {
    forall|i: int, j: int| 0 <= i < j < s.len() ==> place(s[i]) != #[trigger] place(s[j]) && place(
        #[trigger] s[i],
    ) != place(s[j])
}

/// What the entries `s` hold.
spec fn settings_of(s: Seq<Entry>) -> Settings
    decreases s.len(),
{
    if s.len() == 0 {
        Map::empty()
    } else {
        settings_of(s.drop_last()).insert(place(s.last()), s.last().value@)
    }
}

/// A key is held exactly where an entry has it, with the value of that entry.
proof fn lemma_settings_of(s: Seq<Entry>, k: (Seq<char>, Seq<char>))
    requires
        distinct(s),
    ensures
        settings_of(s).dom().contains(k) <==> exists|i: int| 0 <= i < s.len() && place(#[trigger] s[i]) == k,
        forall|i: int| 0 <= i < s.len() && place(#[trigger] s[i]) == k ==> settings_of(s)[k] == s[i].value@,
    decreases s.len(),
{
    if s.len() > 0 {
        let t = s.drop_last();
        assert(distinct(t)) by {
            assert forall|i: int, j: int| 0 <= i < j < t.len() implies place(t[i]) != #[trigger] place(t[j]) && place(
                #[trigger] t[i],
            ) != place(t[j]) by {
                assert(place(s[i]) != place(s[j]));
            }
        }
        lemma_settings_of(t, k);
        let n = s.len() - 1;
        assert forall|i: int| 0 <= i < s.len() && place(#[trigger] s[i]) == k implies settings_of(s)[k]
            == s[i].value@ by {
            if i < n {
                assert(place(s[i]) != place(s[n]));
                assert(t[i] == s[i]);
            }
        }
        if place(s[n]) != k && settings_of(s).dom().contains(k) {
            let i = choose|i: int| 0 <= i < t.len() && place(#[trigger] t[i]) == k;
            assert(place(s[i]) == k);
        }
        if exists|i: int| 0 <= i < s.len() && place(#[trigger] s[i]) == k {
            let i = choose|i: int| 0 <= i < s.len() && place(#[trigger] s[i]) == k;
            if i < n {
                assert(place(t[i]) == k);
            }
        }
    }
}

/// The index of the entry for a key, or the number of entries.
fn position(entries: &Vec<Entry>, section: &String, key: &String) -> (r: usize)
    ensures
        r <= entries@.len(),
        r < entries@.len() ==> place(entries@[r as int]) == (section@, key@),
        r == entries@.len() ==> forall|i: int|
            0 <= i < entries@.len() ==> place(#[trigger] entries@[i]) != (section@, key@),
{
    let mut i: usize = 0;
    while i < entries.len()
        invariant
            i <= entries@.len(),
            forall|j: int| 0 <= j < i ==> place(#[trigger] entries@[j]) != (section@, key@),
        decreases entries@.len() - i,
    {
        if entries[i].section == *section && entries[i].key == *key {
            return i;
        }
        i = i + 1;
    }
    i
}

/// Gives a key a value, in place of the one it may have had.
fn put(entries: &mut Vec<Entry>, section: String, key: String, value: Value)
    requires
        distinct(old(entries)@),
    ensures
        distinct(final(entries)@),
        settings_of(final(entries)@) == settings_of(old(entries)@).insert((section@, key@), value@),
{
    let i: usize = position(entries, &section, &key);
    let ghost k = (section@, key@);
    let ghost v = value@;
    let ghost before = entries@;
    let e: Entry = Entry { section, key, value };
    if i < entries.len() {
        entries.set(i, e);
    } else {
        entries.push(e);
    }
    proof {
        let after = entries@;
        assert forall|a: int, b: int| 0 <= a < b < after.len() implies place(after[a]) != #[trigger] place(after[b])
            && place(#[trigger] after[a]) != place(after[b]) by {
            if i < before.len() {
                assert(place(after[a]) == place(before[a]));
                assert(place(after[b]) == place(before[b]));
                assert(place(before[a]) != place(before[b]));
            } else {
                assert(after[a] == before[a]);
                if b < before.len() {
                    assert(after[b] == before[b]);
                    assert(place(before[a]) != place(before[b]));
                } else {
                    assert(place(after[b]) == k);
                }
            }
        }
        let m = settings_of(before).insert(k, v);
        assert forall|q: (Seq<char>, Seq<char>)|
            #![trigger settings_of(after).dom().contains(q)]
            #![trigger m.dom().contains(q)]
            #![trigger settings_of(after)[q]]
            #![trigger m[q]]
            settings_of(after).dom().contains(q) == m.dom().contains(q) && (m.dom().contains(q)
                ==> settings_of(after)[q] == m[q]) by {
            lemma_settings_of(before, q);
            lemma_settings_of(after, q);
            assert(place(after[i as int]) == k && after[i as int].value@ == v);
            if q != k {
                if settings_of(before).dom().contains(q) {
                    let j = choose|j: int| 0 <= j < before.len() && place(#[trigger] before[j]) == q;
                    assert(after[j] == before[j]);
                    assert(place(after[j]) == q);
                }
                if settings_of(after).dom().contains(q) {
                    let j = choose|j: int| 0 <= j < after.len() && place(#[trigger] after[j]) == q;
                    assert(j != i);
                    assert(after[j] == before[j]);
                    assert(place(before[j]) == q);
                }
            }
        }
        assert(settings_of(after).dom() =~= m.dom());
        assert(settings_of(after) =~= m);
    }
}

/// A configuration that has been read.
#[derive(Debug)]
pub struct Config {
    entries: Vec<Entry>,
}

impl View for Config {
    type V = Settings;

    closed spec fn view(&self) -> Settings {
        settings_of(self.entries@)
    }
}

impl Default for Config {
    fn default() -> (r: Config)
        ensures
            r@ == Map::<(Seq<char>, Seq<char>), Scalar>::empty(),
    {
        Config { entries: Vec::new() }
    }
}

/// What is said of a wrong line.
fn complaint_of(at: usize, message: &str) -> (r: String)
    requires
        at < usize::MAX,
    ensures
        r@ == complaint(at as nat, message@),
{
    let mut out: String = String::from_str("line ");
    out.append(numeral_of((at + 1) as u64).as_str());
    out.append(": ");
    out.append(message);
    out
}

impl Config {
    #[verifier::type_invariant]
    spec fn wf(self) -> bool {
        distinct(self.entries@)
    }

    /// Reads a configuration text.
    pub fn from_str(text: &str) -> (r: Result<Config, String>)
        ensures
            r is Ok <==> settings(text@) is Ok,
            r matches Ok(c) ==> settings(text@) == Ok::<Settings, Seq<char>>(c@),
            r matches Err(m) ==> settings(text@) == Err::<Settings, Seq<char>>(m@),
    {
        let all: Vec<Vec<char>> = split_lines(chars_of(text).as_slice());
        let ghost raws = lines(text@);
        let mut entries: Vec<Entry> = Vec::new();
        let mut section: String = String::new();
        let mut at: usize = 0;
        while at < all.len()
            invariant
                at <= all@.len(),
                raws == lines(text@),
                texts(all@) == raws,
                distinct(entries@),
                settings(text@) == settings_from(
                    raws,
                    at as nat,
                    section@,
                    settings_of(entries@),
                ),
            decreases all@.len() - at,
        {
            proof {
                assert(raws[at as int] == all@[at as int]@);
            }
            let line: &[char] = trimmed(strip_comment(all[at].as_slice()));
            if line.len() == 0 {
                at = at + 1;
                continue;
            }
            if line[0] == '[' {
                if line[line.len() - 1] != ']' || line.len() <= 2 {
                    return Err(complaint_of(at, "malformed section header"));
                }
                let name: &[char] = trimmed(slice_subrange(line, 1, line.len() - 1));
                if name.len() == 0 {
                    return Err(complaint_of(at, "empty section name"));
                }
                section = string_of(name);
                at = at + 1;
                continue;
            }
            let cut: usize = find(line, '=');
            if cut >= line.len() {
                return Err(complaint_of(at, "expected `key = value`"));
            }
            let key: &[char] = trimmed(slice_subrange(line, 0, cut));
            let right: &[char] = trimmed(slice_subrange(line, cut + 1, line.len()));
            proof {
                assert(line@.subrange(0, cut as int) == line@.take(cut as int));
                assert(line@.subrange(cut + 1, line@.len() as int) == line@.skip(cut + 1));
            }
            if key.len() == 0 {
                return Err(complaint_of(at, "empty key"));
            }
            if section.as_str().is_empty() {
                return Err(complaint_of(at, "key outside any section"));
            }
            match parse_value(right) {
                Err(message) => {
                    return Err(complaint_of(at, message.as_str()));
                },
                Ok(value) => {
                    put(&mut entries, section.clone(), string_of(key), value);
                },
            }
            at = at + 1;
        }
        Ok(Config { entries })
    }

    /// Reads the configuration of the file at `path`, given what came of
    /// reading the file.
    pub fn load(path: &str, read: Result<String, String>) -> (r: Result<Config, ReadError>)
        ensures
            r is Ok <==> loading(path@, outcome(read)) is Ok,
            r matches Ok(c) ==> loading(path@, outcome(read)) == Ok::<Settings, ReadFault>(c@),
            r matches Err(e) ==> loading(path@, outcome(read)) == Err::<Settings, ReadFault>(e@),
    {
        match read {
            Err(e) => Err(ReadError::Unread(e)),
            Ok(text) => match Config::from_str(text.as_str()) {
                Ok(c) => Ok(c),
                Err(e) => {
                    let mut message: String = joined(path, ": ");
                    message.append(e.as_str());
                    Err(ReadError::Invalid(InvalidData { message }))
                },
            },
        }
    }
}

/// The setting for a key, as an integer: the whole part of a number, and the
/// default where there is none.
pub open spec fn int_setting(m: Settings, section: Seq<char>, key: Seq<char>, default: int) -> int {
    if m.dom().contains((section, key)) {
        match m[(section, key)] {
            Scalar::Int(n) => n,
            Scalar::Float(d) => truncated(d),
            Scalar::Str(_) => default,
        }
    } else {
        default
    }
}

/// The setting for a key, as a double; the default where there is no number.
pub open spec fn float_setting(
    m: Settings,
    section: Seq<char>,
    key: Seq<char>,
    default: Double,
) -> Double {
    if m.dom().contains((section, key)) {
        match m[(section, key)] {
            Scalar::Float(d) => d,
            Scalar::Int(n) => whole(n),
            Scalar::Str(_) => default,
        }
    } else {
        default
    }
}

/// The setting for a key, as a string; the default where there is none.
pub open spec fn str_setting(
    m: Settings,
    section: Seq<char>,
    key: Seq<char>,
    default: Seq<char>,
) -> Seq<char> {
    if m.dom().contains((section, key)) {
        match m[(section, key)] {
            Scalar::Str(s) => s,
            _ => default,
        }
    } else {
        default
    }
}

/// The low 32 bits of `v`, without a sign.
pub open spec fn low_u32(v: int) -> u32 {
    (v % 0x1_0000_0000) as u32
}

/// The low 32 bits of `v`, with a sign.
pub open spec fn low_i32(v: int) -> i32 {
    let r = v % 0x1_0000_0000;
    if r >= 0x8000_0000 {
        (r - 0x1_0000_0000) as i32
    } else {
        r as i32
    }
}

/// The larger of two integers.
pub open spec fn at_least(v: int, lo: int) -> int {
    if v < lo {
        lo
    } else {
        v
    }
}

/// How often the daemon looks.
#[derive(Clone, Copy, Debug)]
pub struct DaemonCfg {
    pub interval_ms: u64,
}

/// The tiers that the daemon manages.
#[derive(Debug)]
pub struct TiersCfg {
    /// ZRAM swap size in MiB; 0 disables the ZRAM tier.
    pub zram_size_mb: u64,
    pub zram_algorithm: String,
    pub zram_priority: i32,
    /// Block device for the flash tier; empty means unmanaged.
    pub umami_device: String,
    pub umami_priority: i32,
    /// Last-resort disk swap path; empty means unmanaged.
    pub fallback_swap: String,
    pub fallback_priority: i32,
}

impl Clone for TiersCfg {
    fn clone(&self) -> (r: TiersCfg)
        ensures
            r == *self,
    {
        TiersCfg {
            zram_size_mb: self.zram_size_mb,
            zram_algorithm: self.zram_algorithm.clone(),
            zram_priority: self.zram_priority,
            umami_device: self.umami_device.clone(),
            umami_priority: self.umami_priority,
            fallback_swap: self.fallback_swap.clone(),
            fallback_priority: self.fallback_priority,
        }
    }
}

/// The thresholds and tunables of the control policy.
#[derive(Clone, Copy, Debug)]
pub struct PolicyCfg {
    pub swappiness_calm: u32,
    pub swappiness_pressured: u32,
    pub swappiness_critical: u32,
    pub swappiness_thrash_guard: u32,
    pub cache_pressure_calm: u32,
    pub cache_pressure_pressured: u32,
    pub psi_pressure_threshold: Double,
    pub psi_critical_threshold: Double,
    pub mem_pressure_available_pct: Double,
    pub mem_critical_available_pct: Double,
    pub thrash_swapin_kbs: Double,
    pub thrash_psi_full_avg10: Double,
    pub enter_samples: u32,
    pub exit_samples: u32,
    /// Swappiness pinned while the flash tier is missing (USB pulled).
    pub watchdog_swappiness: u32,
}

/// A swappiness from the policy section; the kernel takes 0 to 200.
pub open spec fn swappiness_setting(m: Settings, key: Seq<char>, default: int) -> u32 {
    clamped(int_setting(m, "policy"@, key, default), 0, 200) as u32
}

/// A count from the policy section, which is at least one.
pub open spec fn count_setting(m: Settings, key: Seq<char>, default: int) -> u32 {
    low_u32(at_least(int_setting(m, "policy"@, key, default), 1))
}

/// A threshold from the policy section.
pub open spec fn threshold_setting(m: Settings, key: Seq<char>, default: int) -> Double {
    float_setting(m, "policy"@, key, whole(default))
}

/// The control policy that the settings `m` ask for.
pub open spec fn policy_of(m: Settings) -> PolicyCfg {
    PolicyCfg {
        swappiness_calm: swappiness_setting(m, "swappiness_calm"@, 60),
        swappiness_pressured: swappiness_setting(m, "swappiness_pressured"@, 120),
        swappiness_critical: swappiness_setting(m, "swappiness_critical"@, 180),
        swappiness_thrash_guard: swappiness_setting(m, "swappiness_thrash_guard"@, 30),
        cache_pressure_calm: count_setting(m, "cache_pressure_calm"@, 100),
        cache_pressure_pressured: count_setting(m, "cache_pressure_pressured"@, 50),
        psi_pressure_threshold: threshold_setting(m, "psi_pressure_threshold"@, 5),
        psi_critical_threshold: threshold_setting(m, "psi_critical_threshold"@, 20),
        mem_pressure_available_pct: threshold_setting(m, "mem_pressure_available_pct"@, 15),
        mem_critical_available_pct: threshold_setting(m, "mem_critical_available_pct"@, 5),
        thrash_swapin_kbs: threshold_setting(m, "thrash_swapin_kbs"@, 51200),
        thrash_psi_full_avg10: threshold_setting(m, "thrash_psi_full_avg10"@, 5),
        enter_samples: count_setting(m, "enter_samples"@, 2),
        exit_samples: count_setting(m, "exit_samples"@, 10),
        watchdog_swappiness: swappiness_setting(m, "watchdog_swappiness"@, 10),
    }
}

impl Config {
    /// The value for a key.
    pub fn get(&self, section: &str, key: &str) -> (r: Option<&Value>)
        ensures
            r is Some <==> self@.dom().contains((section@, key@)),
            r matches Some(v) ==> v@ == self@[(section@, key@)],
    {
        proof {
            use_type_invariant(&*self);
            lemma_settings_of(self.entries@, (section@, key@));
        }
        let i: usize = position(&self.entries, &String::from_str(section), &String::from_str(key));
        if i < self.entries.len() {
            Some(&self.entries[i].value)
        } else {
            None
        }
    }

    /// The setting for a key, as an integer.
    pub fn int_or(&self, section: &str, key: &str, default: i64) -> (r: i64)
        ensures
            r == int_setting(self@, section@, key@, default as int),
    {
        match self.get(section, key) {
            Some(Value::Int(v)) => *v,
            Some(Value::Float(v)) => v.to_i64(),
            _ => default,
        }
    }

    /// The setting for a key, as a double.
    pub fn float_or(&self, section: &str, key: &str, default: Double) -> (r: Double)
        ensures
            r == float_setting(self@, section@, key@, default),
    {
        match self.get(section, key) {
            Some(Value::Float(v)) => *v,
            Some(Value::Int(v)) => Double::from_i64(*v),
            _ => default,
        }
    }

    /// The setting for a key, as a string.
    pub fn str_or(&self, section: &str, key: &str, default: &str) -> (r: String)
        ensures
            r@ == str_setting(self@, section@, key@, default@),
    {
        match self.get(section, key) {
            Some(Value::Str(v)) => v.clone(),
            _ => String::from_str(default),
        }
    }

    /// A swappiness from the policy section.
    fn swappiness(&self, key: &str, default: i64) -> (r: u32)
        ensures
            r == swappiness_setting(self@, key@, default as int),
    {
        let v: i64 = self.int_or("policy", key, default);
        if v < 0 {
            0
        } else if v > 200 {
            200
        } else {
            v as u32
        }
    }

    /// A count from the policy section.
    fn count(&self, key: &str, default: i64) -> (r: u32)
        ensures
            r == count_setting(self@, key@, default as int),
    {
        let v: i64 = self.int_or("policy", key, default);
        if v < 1 {
            1
        } else {
            let r: u32 = #[verifier::truncate]
            (v as u32);
            proof {
                assert(r as i64 == v % 0x1_0000_0000) by (bit_vector)
                    requires
                        r == v as u32,
                        v >= 0,
                ;
            }
            r
        }
    }

    /// A threshold from the policy section.
    fn threshold(&self, key: &str, default: i64) -> (r: Double)
        ensures
            r == threshold_setting(self@, key@, default as int),
    {
        self.float_or("policy", key, Double::from_i64(default))
    }

    /// A swap priority from the tiers section.
    fn priority(&self, key: &str, default: i64) -> (r: i32)
        ensures
            r == low_i32(int_setting(self@, "tiers"@, key@, default as int)),
    {
        let v: i64 = self.int_or("tiers", key, default);
        let r: i32 = #[verifier::truncate]
        (v as i32);
        proof {
            assert(r == if v % 0x1_0000_0000 >= 0x8000_0000 {
                v % 0x1_0000_0000 - 0x1_0000_0000
            } else {
                (v % 0x1_0000_0000) as int
            }) by (bit_vector)
                requires
                    r == v as i32,
            ;
        }
        r
    }

    /// How often the daemon should look.
    pub fn daemon(&self) -> (r: DaemonCfg)
        ensures
            r.interval_ms == at_least(int_setting(self@, "daemon"@, "interval_ms"@, 1000), 100),
    {
        let v: i64 = self.int_or("daemon", "interval_ms", 1000);
        DaemonCfg {
            interval_ms: if v < 100 {
                100
            } else {
                v as u64
            },
        }
    }

    /// The tiers to manage.
    pub fn tiers(&self) -> (r: TiersCfg)
        ensures
            r.zram_size_mb == at_least(int_setting(self@, "tiers"@, "zram_size_mb"@, 8192), 0),
            r.zram_algorithm@ == str_setting(self@, "tiers"@, "zram_algorithm"@, "lz4"@),
            r.zram_priority == low_i32(int_setting(self@, "tiers"@, "zram_priority"@, 200)),
            r.umami_device@ == str_setting(self@, "tiers"@, "umami_device"@, ""@),
            r.umami_priority == low_i32(int_setting(self@, "tiers"@, "umami_priority"@, 100)),
            r.fallback_swap@ == str_setting(self@, "tiers"@, "fallback_swap"@, ""@),
            r.fallback_priority == low_i32(int_setting(self@, "tiers"@, "fallback_priority"@, 10)),
    {
        let size: i64 = self.int_or("tiers", "zram_size_mb", 8192);
        TiersCfg {
            zram_size_mb: if size < 0 {
                0
            } else {
                size as u64
            },
            zram_algorithm: self.str_or("tiers", "zram_algorithm", "lz4"),
            zram_priority: self.priority("zram_priority", 200),
            umami_device: self.str_or("tiers", "umami_device", ""),
            umami_priority: self.priority("umami_priority", 100),
            fallback_swap: self.str_or("tiers", "fallback_swap", ""),
            fallback_priority: self.priority("fallback_priority", 10),
        }
    }

    /// The control policy to follow.
    pub fn policy(&self) -> (r: PolicyCfg)
        ensures
            r == policy_of(self@),
    {
        PolicyCfg {
            swappiness_calm: self.swappiness("swappiness_calm", 60),
            swappiness_pressured: self.swappiness("swappiness_pressured", 120),
            swappiness_critical: self.swappiness("swappiness_critical", 180),
            swappiness_thrash_guard: self.swappiness("swappiness_thrash_guard", 30),
            cache_pressure_calm: self.count("cache_pressure_calm", 100),
            cache_pressure_pressured: self.count("cache_pressure_pressured", 50),
            psi_pressure_threshold: self.threshold("psi_pressure_threshold", 5),
            psi_critical_threshold: self.threshold("psi_critical_threshold", 20),
            mem_pressure_available_pct: self.threshold("mem_pressure_available_pct", 15),
            mem_critical_available_pct: self.threshold("mem_critical_available_pct", 5),
            thrash_swapin_kbs: self.threshold("thrash_swapin_kbs", 51200),
            thrash_psi_full_avg10: self.threshold("thrash_psi_full_avg10", 5),
            enter_samples: self.count("enter_samples", 2),
            exit_samples: self.count("exit_samples", 10),
            watchdog_swappiness: self.swappiness("watchdog_swappiness", 10),
        }
    }
}

impl PolicyCfg {
    /// What is wrong with this policy, if anything is.
    pub open spec fn fault(self) -> Option<Seq<char>> {
        if leq(self.psi_critical_threshold, self.psi_pressure_threshold) {
            Some("psi_pressure_threshold must be < psi_critical_threshold"@)
        } else if leq(self.mem_pressure_available_pct, self.mem_critical_available_pct) {
            Some("mem_pressure_available_pct must be > mem_critical_available_pct"@)
        } else if !(leq(whole(0), self.mem_pressure_available_pct) && leq(
            self.mem_pressure_available_pct,
            whole(100),
        )) {
            Some("mem_pressure_available_pct out of range"@)
        } else if leq(self.thrash_swapin_kbs, whole(0)) {
            Some("thrash_swapin_kbs must be positive"@)
        } else {
            None
        }
    }

    /// Checks that the thresholds make sense together.
    pub fn validate(&self) -> (r: Result<(), String>)
        ensures
            r is Ok <==> self.fault() is None,
            r matches Err(m) ==> self.fault() == Some(m@),
    {
        if self.psi_pressure_threshold.at_least(self.psi_critical_threshold) {
            return Err(String::from_str("psi_pressure_threshold must be < psi_critical_threshold"));
        }
        if self.mem_pressure_available_pct.at_most(self.mem_critical_available_pct) {
            return Err(
                String::from_str("mem_pressure_available_pct must be > mem_critical_available_pct"),
            );
        }
        if !(self.mem_pressure_available_pct.at_least(Double::from_i64(0))
            && self.mem_pressure_available_pct.at_most(Double::from_i64(100))) {
            return Err(String::from_str("mem_pressure_available_pct out of range"));
        }
        if self.thrash_swapin_kbs.at_most(Double::from_i64(0)) {
            return Err(String::from_str("thrash_swapin_kbs must be positive"));
        }
        Ok(())
    }
}

} // verus!
