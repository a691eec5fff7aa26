//! What a setting promises: each one goes by the key of its own name, and by
//! nothing else.

use crate::config::{Config, DaemonCfg, PolicyCfg, Scalar, Settings, TiersCfg, Value};
use crate::double::{leq, whole, Double};
use vstd::prelude::*;

verus! {

/// Whether a key of a section has this value.
pub open spec fn holds_at(m: Settings, section: Seq<char>, key: Seq<char>, v: Scalar) -> bool {
    m.dom().contains((section, key)) && m[(section, key)] == v
}

/// Whether a key of a section has an integer for its value.
pub open spec fn holds_int(m: Settings, section: Seq<char>, key: Seq<char>) -> bool {
    m.dom().contains((section, key)) && m[(section, key)] is Int
}

/// The integer that a key of a section has for its value.
pub open spec fn int_at(m: Settings, section: Seq<char>, key: Seq<char>) -> int {
    m[(section, key)]->Int_0
}

/// Whether a key of a section has no number for its value.
pub open spec fn no_number(m: Settings, section: Seq<char>, key: Seq<char>) -> bool {
    !m.dom().contains((section, key)) || m[(section, key)] is Str
}

/// Whether two configurations have the same at a key of a section.
pub open spec fn agree(a: Settings, b: Settings, section: Seq<char>, key: Seq<char>) -> bool {
    &&& a.dom().contains((section, key)) == b.dom().contains((section, key))
    &&& a.dom().contains((section, key)) ==> a[(section, key)] == b[(section, key)]
}

/// Every swappiness is the one that is set under its own name, whatever else is
/// set; numbers out of range are moved to the end of the range from 0 to 200.
pub proof fn law_a_swappiness_goes_by_its_name(c: Config, p: PolicyCfg)
    requires
        call_ensures(Config::policy, (&c,), p),
    ensures
        holds_int(c@, "policy"@, "swappiness_calm"@) ==> {
            let v = int_at(c@, "policy"@, "swappiness_calm"@);
            &&& 0 <= v <= 200 ==> p.swappiness_calm == v
            &&& v < 0 ==> p.swappiness_calm == 0
            &&& v > 200 ==> p.swappiness_calm == 200
        },
        holds_int(c@, "policy"@, "swappiness_pressured"@) ==> {
            let v = int_at(c@, "policy"@, "swappiness_pressured"@);
            &&& 0 <= v <= 200 ==> p.swappiness_pressured == v
            &&& v < 0 ==> p.swappiness_pressured == 0
            &&& v > 200 ==> p.swappiness_pressured == 200
        },
        holds_int(c@, "policy"@, "swappiness_critical"@) ==> {
            let v = int_at(c@, "policy"@, "swappiness_critical"@);
            &&& 0 <= v <= 200 ==> p.swappiness_critical == v
            &&& v < 0 ==> p.swappiness_critical == 0
            &&& v > 200 ==> p.swappiness_critical == 200
        },
        holds_int(c@, "policy"@, "swappiness_thrash_guard"@) ==> {
            let v = int_at(c@, "policy"@, "swappiness_thrash_guard"@);
            &&& 0 <= v <= 200 ==> p.swappiness_thrash_guard == v
            &&& v < 0 ==> p.swappiness_thrash_guard == 0
            &&& v > 200 ==> p.swappiness_thrash_guard == 200
        },
        holds_int(c@, "policy"@, "watchdog_swappiness"@) ==> {
            let v = int_at(c@, "policy"@, "watchdog_swappiness"@);
            &&& 0 <= v <= 200 ==> p.watchdog_swappiness == v
            &&& v < 0 ==> p.watchdog_swappiness == 0
            &&& v > 200 ==> p.watchdog_swappiness == 200
        },
{
}

/// Every count is the one that is set under its own name, whatever else is set;
/// numbers below one are taken as one. This is for numbers of at most 32 bits.
pub proof fn law_a_count_goes_by_its_name(c: Config, p: PolicyCfg)
    requires
        call_ensures(Config::policy, (&c,), p),
    ensures
        holds_int(c@, "policy"@, "cache_pressure_calm"@) ==> {
            let v = int_at(c@, "policy"@, "cache_pressure_calm"@);
            &&& 1 <= v <= u32::MAX ==> p.cache_pressure_calm == v
            &&& v < 1 ==> p.cache_pressure_calm == 1
        },
        holds_int(c@, "policy"@, "cache_pressure_pressured"@) ==> {
            let v = int_at(c@, "policy"@, "cache_pressure_pressured"@);
            &&& 1 <= v <= u32::MAX ==> p.cache_pressure_pressured == v
            &&& v < 1 ==> p.cache_pressure_pressured == 1
        },
        holds_int(c@, "policy"@, "enter_samples"@) ==> {
            let v = int_at(c@, "policy"@, "enter_samples"@);
            &&& 1 <= v <= u32::MAX ==> p.enter_samples == v
            &&& v < 1 ==> p.enter_samples == 1
        },
        holds_int(c@, "policy"@, "exit_samples"@) ==> {
            let v = int_at(c@, "policy"@, "exit_samples"@);
            &&& 1 <= v <= u32::MAX ==> p.exit_samples == v
            &&& v < 1 ==> p.exit_samples == 1
        },
{
}

/// Every threshold is the one that is set under its own name, whatever else is
/// set: a double as it is, an integer as the double nearest to it.
pub proof fn law_a_threshold_goes_by_its_name(c: Config, p: PolicyCfg, d: Double)
    requires
        call_ensures(Config::policy, (&c,), p),
    ensures
        holds_at(c@, "policy"@, "psi_pressure_threshold"@, Scalar::Float(d)) ==> p.psi_pressure_threshold == d,
        holds_int(c@, "policy"@, "psi_pressure_threshold"@) ==> p.psi_pressure_threshold == whole(
            int_at(c@, "policy"@, "psi_pressure_threshold"@),
        ),
        holds_at(c@, "policy"@, "psi_critical_threshold"@, Scalar::Float(d)) ==> p.psi_critical_threshold == d,
        holds_int(c@, "policy"@, "psi_critical_threshold"@) ==> p.psi_critical_threshold == whole(
            int_at(c@, "policy"@, "psi_critical_threshold"@),
        ),
        holds_at(c@, "policy"@, "mem_pressure_available_pct"@, Scalar::Float(d)) ==> p.mem_pressure_available_pct == d,
        holds_int(c@, "policy"@, "mem_pressure_available_pct"@) ==> p.mem_pressure_available_pct == whole(
            int_at(c@, "policy"@, "mem_pressure_available_pct"@),
        ),
        holds_at(c@, "policy"@, "mem_critical_available_pct"@, Scalar::Float(d)) ==> p.mem_critical_available_pct == d,
        holds_int(c@, "policy"@, "mem_critical_available_pct"@) ==> p.mem_critical_available_pct == whole(
            int_at(c@, "policy"@, "mem_critical_available_pct"@),
        ),
        holds_at(c@, "policy"@, "thrash_swapin_kbs"@, Scalar::Float(d)) ==> p.thrash_swapin_kbs == d,
        holds_int(c@, "policy"@, "thrash_swapin_kbs"@) ==> p.thrash_swapin_kbs == whole(
            int_at(c@, "policy"@, "thrash_swapin_kbs"@),
        ),
        holds_at(c@, "policy"@, "thrash_psi_full_avg10"@, Scalar::Float(d)) ==> p.thrash_psi_full_avg10 == d,
        holds_int(c@, "policy"@, "thrash_psi_full_avg10"@) ==> p.thrash_psi_full_avg10 == whole(
            int_at(c@, "policy"@, "thrash_psi_full_avg10"@),
        ),
{
}

/// A setting of the policy that has no number for its value has its default,
/// whatever else is set.
pub proof fn law_a_policy_without_a_number_has_its_default(c: Config, p: PolicyCfg)
    requires
        call_ensures(Config::policy, (&c,), p),
    ensures
        no_number(c@, "policy"@, "swappiness_calm"@) ==> p.swappiness_calm == 60,
        no_number(c@, "policy"@, "swappiness_pressured"@) ==> p.swappiness_pressured == 120,
        no_number(c@, "policy"@, "swappiness_critical"@) ==> p.swappiness_critical == 180,
        no_number(c@, "policy"@, "swappiness_thrash_guard"@) ==> p.swappiness_thrash_guard == 30,
        no_number(c@, "policy"@, "watchdog_swappiness"@) ==> p.watchdog_swappiness == 10,
        no_number(c@, "policy"@, "cache_pressure_calm"@) ==> p.cache_pressure_calm == 100,
        no_number(c@, "policy"@, "cache_pressure_pressured"@) ==> p.cache_pressure_pressured == 50,
        no_number(c@, "policy"@, "enter_samples"@) ==> p.enter_samples == 2,
        no_number(c@, "policy"@, "exit_samples"@) ==> p.exit_samples == 10,
        no_number(c@, "policy"@, "psi_pressure_threshold"@) ==> p.psi_pressure_threshold == whole(5),
        no_number(c@, "policy"@, "psi_critical_threshold"@) ==> p.psi_critical_threshold == whole(20),
        no_number(c@, "policy"@, "mem_pressure_available_pct"@) ==> p.mem_pressure_available_pct == whole(15),
        no_number(c@, "policy"@, "mem_critical_available_pct"@) ==> p.mem_critical_available_pct == whole(5),
        no_number(c@, "policy"@, "thrash_swapin_kbs"@) ==> p.thrash_swapin_kbs == whole(51200),
        no_number(c@, "policy"@, "thrash_psi_full_avg10"@) ==> p.thrash_psi_full_avg10 == whole(5),
{
}

/// A setting of the policy depends on the key of its own name alone: two
/// configurations that have the same there have the same setting.
pub proof fn law_a_policy_setting_depends_on_its_key_alone(
    a: Config,
    b: Config,
    p: PolicyCfg,
    q: PolicyCfg,
)
    requires
        call_ensures(Config::policy, (&a,), p),
        call_ensures(Config::policy, (&b,), q),
    ensures
        agree(a@, b@, "policy"@, "swappiness_calm"@) ==> p.swappiness_calm
            == q.swappiness_calm,
        agree(a@, b@, "policy"@, "swappiness_pressured"@) ==> p.swappiness_pressured
            == q.swappiness_pressured,
        agree(a@, b@, "policy"@, "swappiness_critical"@) ==> p.swappiness_critical
            == q.swappiness_critical,
        agree(a@, b@, "policy"@, "swappiness_thrash_guard"@) ==> p.swappiness_thrash_guard
            == q.swappiness_thrash_guard,
        agree(a@, b@, "policy"@, "watchdog_swappiness"@) ==> p.watchdog_swappiness
            == q.watchdog_swappiness,
        agree(a@, b@, "policy"@, "cache_pressure_calm"@) ==> p.cache_pressure_calm
            == q.cache_pressure_calm,
        agree(a@, b@, "policy"@, "cache_pressure_pressured"@) ==> p.cache_pressure_pressured
            == q.cache_pressure_pressured,
        agree(a@, b@, "policy"@, "enter_samples"@) ==> p.enter_samples
            == q.enter_samples,
        agree(a@, b@, "policy"@, "exit_samples"@) ==> p.exit_samples
            == q.exit_samples,
        agree(a@, b@, "policy"@, "psi_pressure_threshold"@) ==> p.psi_pressure_threshold
            == q.psi_pressure_threshold,
        agree(a@, b@, "policy"@, "psi_critical_threshold"@) ==> p.psi_critical_threshold
            == q.psi_critical_threshold,
        agree(a@, b@, "policy"@, "mem_pressure_available_pct"@) ==> p.mem_pressure_available_pct
            == q.mem_pressure_available_pct,
        agree(a@, b@, "policy"@, "mem_critical_available_pct"@) ==> p.mem_critical_available_pct
            == q.mem_critical_available_pct,
        agree(a@, b@, "policy"@, "thrash_swapin_kbs"@) ==> p.thrash_swapin_kbs
            == q.thrash_swapin_kbs,
        agree(a@, b@, "policy"@, "thrash_psi_full_avg10"@) ==> p.thrash_psi_full_avg10
            == q.thrash_psi_full_avg10,
{
}

/// Every setting of the tiers is the one that is set under its own name,
/// whatever else is set. A size below zero is taken as none. Priorities are
/// stated for numbers of 32 bits.
pub proof fn law_a_tier_setting_goes_by_its_name(c: Config, t: TiersCfg, s: Seq<char>)
    requires
        call_ensures(Config::tiers, (&c,), t),
    ensures
        holds_at(c@, "tiers"@, "zram_algorithm"@, Scalar::Str(s)) ==> t.zram_algorithm@ == s,
        holds_at(c@, "tiers"@, "umami_device"@, Scalar::Str(s)) ==> t.umami_device@ == s,
        holds_at(c@, "tiers"@, "fallback_swap"@, Scalar::Str(s)) ==> t.fallback_swap@ == s,
        holds_int(c@, "tiers"@, "zram_priority"@) ==> {
            let v = int_at(c@, "tiers"@, "zram_priority"@);
            i32::MIN <= v <= i32::MAX ==> t.zram_priority == v
        },
        holds_int(c@, "tiers"@, "umami_priority"@) ==> {
            let v = int_at(c@, "tiers"@, "umami_priority"@);
            i32::MIN <= v <= i32::MAX ==> t.umami_priority == v
        },
        holds_int(c@, "tiers"@, "fallback_priority"@) ==> {
            let v = int_at(c@, "tiers"@, "fallback_priority"@);
            i32::MIN <= v <= i32::MAX ==> t.fallback_priority == v
        },
        holds_int(c@, "tiers"@, "zram_size_mb"@) ==> {
            let v = int_at(c@, "tiers"@, "zram_size_mb"@);
            &&& v >= 0 ==> t.zram_size_mb == v
            &&& v < 0 ==> t.zram_size_mb == 0
        },
{
}

/// Whether a key of a section has no string for its value.
pub open spec fn no_string(m: Settings, section: Seq<char>, key: Seq<char>) -> bool {
    !m.dom().contains((section, key)) || !(m[(section, key)] is Str)
}

/// A setting of the tiers that has no value of its kind has its default,
/// whatever else is set: ZRAM of 8 GiB with lz4 at priority 200, flash at 100,
/// the fallback at 10, and no device that is managed.
pub proof fn law_a_tier_setting_has_its_default(c: Config, t: TiersCfg)
    requires
        call_ensures(Config::tiers, (&c,), t),
    ensures
        no_number(c@, "tiers"@, "zram_size_mb"@) ==> t.zram_size_mb == 8192,
        no_string(c@, "tiers"@, "zram_algorithm"@) ==> t.zram_algorithm@ == "lz4"@,
        no_number(c@, "tiers"@, "zram_priority"@) ==> t.zram_priority == 200,
        no_string(c@, "tiers"@, "umami_device"@) ==> t.umami_device@.len() == 0,
        no_number(c@, "tiers"@, "umami_priority"@) ==> t.umami_priority == 100,
        no_string(c@, "tiers"@, "fallback_swap"@) ==> t.fallback_swap@.len() == 0,
        no_number(c@, "tiers"@, "fallback_priority"@) ==> t.fallback_priority == 10,
{
    reveal_strlit("");
}

/// A setting of the tiers depends on the key of its own name alone.
pub proof fn law_a_tier_setting_depends_on_its_key_alone(a: Config, b: Config, s: TiersCfg, t: TiersCfg)
    requires
        call_ensures(Config::tiers, (&a,), s),
        call_ensures(Config::tiers, (&b,), t),
    ensures
        agree(a@, b@, "tiers"@, "zram_size_mb"@) ==> s.zram_size_mb == t.zram_size_mb,
        agree(a@, b@, "tiers"@, "zram_priority"@) ==> s.zram_priority == t.zram_priority,
        agree(a@, b@, "tiers"@, "umami_priority"@) ==> s.umami_priority == t.umami_priority,
        agree(a@, b@, "tiers"@, "fallback_priority"@) ==> s.fallback_priority == t.fallback_priority,
        agree(a@, b@, "tiers"@, "zram_algorithm"@) ==> s.zram_algorithm@ == t.zram_algorithm@,
        agree(a@, b@, "tiers"@, "umami_device"@) ==> s.umami_device@ == t.umami_device@,
        agree(a@, b@, "tiers"@, "fallback_swap"@) ==> s.fallback_swap@ == t.fallback_swap@,
{
}

/// The interval is the one that is set, but at least 100 milliseconds; where no
/// number is set it is a second, and nothing else that is set matters.
pub proof fn law_the_interval(a: Config, b: Config, d: DaemonCfg, e: DaemonCfg)
    requires
        call_ensures(Config::daemon, (&a,), d),
        call_ensures(Config::daemon, (&b,), e),
    ensures
        holds_int(a@, "daemon"@, "interval_ms"@) ==> {
            let v = int_at(a@, "daemon"@, "interval_ms"@);
            &&& v >= 100 ==> d.interval_ms == v
            &&& v < 100 ==> d.interval_ms == 100
        },
        no_number(a@, "daemon"@, "interval_ms"@) ==> d.interval_ms == 1000,
        agree(a@, b@, "daemon"@, "interval_ms"@) ==> d.interval_ms == e.interval_ms,
{
}

/// What is asked for by section and key is what is held there: an integer, a
/// double or a string as it is, an integer as the double nearest to it, and the
/// default where there is nothing of the kind.
pub proof fn law_lookups(
    c: Config,
    section: &str,
    key: &str,
    found: Option<&Value>,
    n: i64,
    default_n: i64,
    d: Double,
    default_d: Double,
    s: String,
    default_s: &str,
)
    requires
        call_ensures(Config::get, (&c, section, key), found),
        call_ensures(Config::int_or, (&c, section, key, default_n), n),
        call_ensures(Config::float_or, (&c, section, key, default_d), d),
        call_ensures(Config::str_or, (&c, section, key, default_s), s),
    ensures
        found is None <==> !c@.dom().contains((section@, key@)),
        found matches Some(v) ==> holds_at(c@, section@, key@, v@),
        holds_int(c@, section@, key@) ==> n == int_at(c@, section@, key@) && d == whole(n as int)
            && s@ == default_s@,
        no_number(c@, section@, key@) ==> n == default_n && d == default_d,
        c@.dom().contains((section@, key@)) ==> {
            &&& c@[(section@, key@)] matches Scalar::Float(x) ==> d == x && s@ == default_s@
            &&& c@[(section@, key@)] matches Scalar::Str(x) ==> s@ == x
        },
        !c@.dom().contains((section@, key@)) ==> s@ == default_s@,
{
}

/// A policy is refused exactly for the first of these faults that it has: the
/// limit for pressure by stalls is not below the critical one, the one by
/// available memory is not above the critical one, or lies outside 0 to 100, or
/// the limit of the swap-in rate is not positive.
pub proof fn law_faults(p: PolicyCfg, r: Result<(), String>)
    requires
        call_ensures(PolicyCfg::validate, (&p,), r),
    ensures
        ({
            let stalls = leq(p.psi_critical_threshold, p.psi_pressure_threshold);
            let memory = leq(p.mem_pressure_available_pct, p.mem_critical_available_pct);
            let outside = !leq(whole(0), p.mem_pressure_available_pct) || !leq(
                p.mem_pressure_available_pct,
                whole(100),
            );
            let rate = leq(p.thrash_swapin_kbs, whole(0));
            &&& r is Ok <==> !stalls && !memory && !outside && !rate
            &&& stalls ==> r is Err && r->Err_0@
                == "psi_pressure_threshold must be < psi_critical_threshold"@
            &&& !stalls && memory ==> r is Err && r->Err_0@
                == "mem_pressure_available_pct must be > mem_critical_available_pct"@
            &&& !stalls && !memory && outside ==> r is Err && r->Err_0@
                == "mem_pressure_available_pct out of range"@
            &&& !stalls && !memory && !outside && rate ==> r is Err && r->Err_0@
                == "thrash_swapin_kbs must be positive"@
        }),
{
}

/// A number with a point, given for a setting that is whole, counts as its whole
/// part.
pub proof fn law_whole_parts_count(c: Config, p: PolicyCfg, t: TiersCfg, d: DaemonCfg, x: Double, v: i64)
    requires
        call_ensures(Config::policy, (&c,), p),
        call_ensures(Config::tiers, (&c,), t),
        call_ensures(Config::daemon, (&c,), d),
        call_ensures(Double::to_i64, (x,), v),
    ensures
        holds_at(c@, "policy"@, "swappiness_calm"@, Scalar::Float(x)) ==> {
            &&& 0 <= v <= 200 ==> p.swappiness_calm == v
            &&& v < 0 ==> p.swappiness_calm == 0
            &&& v > 200 ==> p.swappiness_calm == 200
        },
        holds_at(c@, "policy"@, "swappiness_pressured"@, Scalar::Float(x)) ==> {
            &&& 0 <= v <= 200 ==> p.swappiness_pressured == v
            &&& v < 0 ==> p.swappiness_pressured == 0
            &&& v > 200 ==> p.swappiness_pressured == 200
        },
        holds_at(c@, "policy"@, "swappiness_critical"@, Scalar::Float(x)) ==> {
            &&& 0 <= v <= 200 ==> p.swappiness_critical == v
            &&& v < 0 ==> p.swappiness_critical == 0
            &&& v > 200 ==> p.swappiness_critical == 200
        },
        holds_at(c@, "policy"@, "swappiness_thrash_guard"@, Scalar::Float(x)) ==> {
            &&& 0 <= v <= 200 ==> p.swappiness_thrash_guard == v
            &&& v < 0 ==> p.swappiness_thrash_guard == 0
            &&& v > 200 ==> p.swappiness_thrash_guard == 200
        },
        holds_at(c@, "policy"@, "watchdog_swappiness"@, Scalar::Float(x)) ==> {
            &&& 0 <= v <= 200 ==> p.watchdog_swappiness == v
            &&& v < 0 ==> p.watchdog_swappiness == 0
            &&& v > 200 ==> p.watchdog_swappiness == 200
        },
        holds_at(c@, "policy"@, "cache_pressure_calm"@, Scalar::Float(x)) ==> {
            &&& v >= 1 ==> p.cache_pressure_calm == v as int % 0x1_0000_0000
            &&& v < 1 ==> p.cache_pressure_calm == 1
        },
        holds_at(c@, "policy"@, "cache_pressure_pressured"@, Scalar::Float(x)) ==> {
            &&& v >= 1 ==> p.cache_pressure_pressured == v as int % 0x1_0000_0000
            &&& v < 1 ==> p.cache_pressure_pressured == 1
        },
        holds_at(c@, "policy"@, "enter_samples"@, Scalar::Float(x)) ==> {
            &&& v >= 1 ==> p.enter_samples == v as int % 0x1_0000_0000
            &&& v < 1 ==> p.enter_samples == 1
        },
        holds_at(c@, "policy"@, "exit_samples"@, Scalar::Float(x)) ==> {
            &&& v >= 1 ==> p.exit_samples == v as int % 0x1_0000_0000
            &&& v < 1 ==> p.exit_samples == 1
        },
        holds_at(c@, "tiers"@, "zram_priority"@, Scalar::Float(x)) && i32::MIN <= v <= i32::MAX ==> t.zram_priority
            == v,
        holds_at(c@, "tiers"@, "umami_priority"@, Scalar::Float(x)) && i32::MIN <= v <= i32::MAX ==> t.umami_priority
            == v,
        holds_at(c@, "tiers"@, "fallback_priority"@, Scalar::Float(x)) && i32::MIN <= v <= i32::MAX ==> t.fallback_priority
            == v,
        holds_at(c@, "tiers"@, "zram_size_mb"@, Scalar::Float(x)) ==> {
            &&& v >= 0 ==> t.zram_size_mb == v
            &&& v < 0 ==> t.zram_size_mb == 0
        },
        holds_at(c@, "daemon"@, "interval_ms"@, Scalar::Float(x)) ==> {
            &&& v >= 100 ==> d.interval_ms == v
            &&& v < 100 ==> d.interval_ms == 100
        },
{
}

/// Of a number with more than 32 bits the lower 32 count, for counts and for
/// priorities.
pub proof fn law_low_bits_count(c: Config, p: PolicyCfg, t: TiersCfg)
    requires
        call_ensures(Config::policy, (&c,), p),
        call_ensures(Config::tiers, (&c,), t),
    ensures
        holds_int(c@, "policy"@, "cache_pressure_calm"@) && int_at(c@, "policy"@, "cache_pressure_calm"@) >= 1
            ==> p.cache_pressure_calm == int_at(c@, "policy"@, "cache_pressure_calm"@) % 0x1_0000_0000,
        holds_int(c@, "policy"@, "cache_pressure_pressured"@) && int_at(c@, "policy"@, "cache_pressure_pressured"@) >= 1
            ==> p.cache_pressure_pressured == int_at(c@, "policy"@, "cache_pressure_pressured"@) % 0x1_0000_0000,
        holds_int(c@, "policy"@, "enter_samples"@) && int_at(c@, "policy"@, "enter_samples"@) >= 1
            ==> p.enter_samples == int_at(c@, "policy"@, "enter_samples"@) % 0x1_0000_0000,
        holds_int(c@, "policy"@, "exit_samples"@) && int_at(c@, "policy"@, "exit_samples"@) >= 1
            ==> p.exit_samples == int_at(c@, "policy"@, "exit_samples"@) % 0x1_0000_0000,
        holds_int(c@, "tiers"@, "zram_priority"@) ==> (int_at(c@, "tiers"@, "zram_priority"@)
            - t.zram_priority) % 0x1_0000_0000 == 0,
        holds_int(c@, "tiers"@, "umami_priority"@) ==> (int_at(c@, "tiers"@, "umami_priority"@)
            - t.umami_priority) % 0x1_0000_0000 == 0,
        holds_int(c@, "tiers"@, "fallback_priority"@) ==> (int_at(c@, "tiers"@, "fallback_priority"@)
            - t.fallback_priority) % 0x1_0000_0000 == 0,
{
}

} // verus!
