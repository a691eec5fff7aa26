//! What the control loop promises over a run of samples: while the flash tier
//! is gone nothing new is sent its way, and the kernel is told of a target
//! only when there is a new one.

use crate::config::{Config, PolicyCfg, TiersCfg};
use crate::daemon::{
    admitted, apply, cache_pressure_unset, due_after, flash_gone, load_refused, notice_after,
    pinned, standing_after, start_message, state_name, swappiness_unset, tunables, Daemon, Standing,
    Tick,
};
use crate::hysteresis::run;
use crate::lifecycle::writes;
use crate::literal::fixed;
use crate::log::{Level, Message};
use crate::numeral::decimal;
use crate::policy::{start, Decision, Policy, State};
use crate::procfs::Sample;
use crate::tiers::Action;
use vstd::prelude::*;

verus! {

/// What the control loop is given: a sample, and whether the device of the
/// flash tier is there.
pub struct Look {
    pub sample: Sample,
    pub present: bool,
}

/// Where the control loop stands before its first sample.
pub open spec fn fresh() -> Standing {
    Standing { mood: start(), applied: None, degraded: false }
}

/// Where the control loop stands after a run of samples.
pub open spec fn standing(cfg: PolicyCfg, device: Seq<char>, x: Standing, looks: Seq<Look>) -> Standing
    decreases looks.len(),
{
    if looks.len() == 0 {
        x
    } else {
        standing_after(
            cfg,
            device,
            standing(cfg, device, x, looks.drop_last()),
            looks.last().sample,
            looks.last().present,
        )
    }
}

/// The samples that the policy sees: those that were taken while the flash tier
/// was not gone.
pub open spec fn seen(device: Seq<char>, looks: Seq<Look>) -> Seq<Sample>
    decreases looks.len(),
{
    if looks.len() == 0 {
        seq![]
    } else if flash_gone(device, looks.last().present) {
        seen(device, looks.drop_last())
    } else {
        seen(device, looks.drop_last()).push(looks.last().sample)
    }
}

/// What was written to the kernel last in a run of samples, if anything was.
pub open spec fn written(
    cfg: PolicyCfg,
    device: Seq<char>,
    x: Standing,
    looks: Seq<Look>,
) -> Option<(u32, u32)>
    decreases looks.len(),
{
    if looks.len() == 0 {
        x.applied
    } else {
        let before = looks.drop_last();
        match due_after(
            cfg,
            device,
            standing(cfg, device, x, before),
            looks.last().sample,
            looks.last().present,
        ) {
            Some(target) => Some(target),
            None => written(cfg, device, x, before),
        }
    }
}

/// An outage does not move the policy: it stands where the samples that it saw
/// have led it.
pub proof fn law_outage_does_not_move_the_policy(
    cfg: PolicyCfg,
    device: Seq<char>,
    x: Standing,
    looks: Seq<Look>,
)
    ensures
        standing(cfg, device, x, looks).mood == run(cfg, x.mood, seen(device, looks)),
    decreases looks.len(),
{
    if looks.len() > 0 {
        let t = looks.drop_last();
        law_outage_does_not_move_the_policy(cfg, device, x, t);
        if !flash_gone(device, looks.last().present) {
            let s = seen(device, t);
            assert(s.push(looks.last().sample).drop_last() == s);
        }
    }
}

/// The watchdog: at every sample that finds the flash tier gone, the swappiness
/// in force is the one for that case, and so it is held for as long as the
/// outage lasts.
pub proof fn law_watchdog_pins_swappiness(
    cfg: PolicyCfg,
    device: Seq<char>,
    x: Standing,
    looks: Seq<Look>,
)
    requires
        looks.len() > 0,
        flash_gone(device, looks.last().present),
    ensures
        standing(cfg, device, x, looks).degraded,
        standing(cfg, device, x, looks).applied == Some(pinned(cfg)),
        pinned(cfg).0 == cfg.watchdog_swappiness,
{
}

/// Outside an outage, the tunables in force are those of the policy's state.
pub proof fn law_policy_is_in_force(
    cfg: PolicyCfg,
    device: Seq<char>,
    x: Standing,
    looks: Seq<Look>,
)
    requires
        looks.len() > 0,
        !flash_gone(device, looks.last().present),
    ensures
        !standing(cfg, device, x, looks).degraded,
        standing(cfg, device, x, looks).applied == Some(
            tunables(cfg, run(cfg, x.mood, seen(device, looks)).state),
        ),
{
    law_outage_does_not_move_the_policy(cfg, device, x, looks);
}

/// What stands as applied is what was written last: nothing that the kernel has
/// to know is kept from it.
pub proof fn law_applied_is_what_was_written(
    cfg: PolicyCfg,
    device: Seq<char>,
    x: Standing,
    looks: Seq<Look>,
)
    ensures
        written(cfg, device, x, looks) == standing(cfg, device, x, looks).applied,
    decreases looks.len(),
{
    if looks.len() > 0 {
        law_applied_is_what_was_written(cfg, device, x, looks.drop_last());
    }
}

/// While the flash tier neither goes nor comes back, a target is written only
/// if it differs from the one before.
pub proof fn law_write_only_on_change(
    cfg: PolicyCfg,
    device: Seq<char>,
    x: Standing,
    s: Sample,
    present: bool,
)
    requires
        flash_gone(device, present) == x.degraded,
    ensures
        due_after(cfg, device, x, s, present) is Some <==> standing_after(
            cfg,
            device,
            x,
            s,
            present,
        ).applied != x.applied,
{
}

/// When the flash tier goes, and when it comes back, this is said, and the new
/// target is written even if it is the old one; otherwise nothing is said of it.
pub proof fn law_going_and_coming_back(
    cfg: PolicyCfg,
    device: Seq<char>,
    x: Standing,
    s: Sample,
    present: bool,
)
    ensures
        notice_after(cfg, device, x, present) is Some <==> flash_gone(device, present) != x.degraded,
        flash_gone(device, present) != x.degraded ==> due_after(cfg, device, x, s, present)
            == standing_after(cfg, device, x, s, present).applied,
{
}

/// A flash tier that is not managed is never missed: the loop then does what the
/// policy says of all samples.
pub proof fn law_unmanaged_tier_is_not_missed(cfg: PolicyCfg, looks: Seq<Look>)
    ensures
        !standing(cfg, seq![], fresh(), looks).degraded,
        standing(cfg, seq![], fresh(), looks).mood == run(
            cfg,
            start(),
            looks.map_values(|l: Look| l.sample),
        ),
    decreases looks.len(),
{
    let all = looks.map_values(|l: Look| l.sample);
    if looks.len() > 0 {
        let t = looks.drop_last();
        law_unmanaged_tier_is_not_missed(cfg, t);
        assert(all.drop_last() == t.map_values(|l: Look| l.sample));
        assert(all.last() == looks.last().sample);
    }
}

/// Whether two actions set the swappiness and then the cache pressure, each in
/// its own file.
pub open spec fn sets(actions: (Action, Action), swappiness: u32, cache_pressure: u32) -> bool {
    &&& writes(actions.0, "/proc/sys/vm/swappiness"@, decimal(swappiness as nat))
    &&& writes(actions.1, "/proc/sys/vm/vfs_cache_pressure"@, decimal(cache_pressure as nat))
}

/// Applying a target hands out both writes unless this very target was applied
/// before, and notes it either way.
pub proof fn law_apply(
    swappiness: u32,
    cache_pressure: u32,
    applied: &mut Option<(u32, u32)>,
    r: Option<(Action, Action)>,
)
    requires
        call_ensures(apply, (swappiness, cache_pressure, applied), r),
    ensures
        *final(applied) == Some((swappiness, cache_pressure)),
        r is None <==> *old(applied) == Some((swappiness, cache_pressure)),
        r matches Some(both) ==> sets(both, swappiness, cache_pressure),
{
}

/// While the flash tier is managed and its device is gone, the swappiness of the
/// watchdog is in force together with the cache pressure under pressure, the
/// policy rests, and nothing is brought up. The loss is told once.
pub proof fn law_tick_without_the_flash_tier(d: Daemon, s: Sample, r: (Daemon, Tick))
    requires
        call_ensures(Daemon::tick, (d, &s, false), r),
        d.device().len() > 0,
    ensures
        ({
            let cfg = d.cfg();
            let target = (cfg.watchdog_swappiness, cfg.cache_pressure_pressured);
            &&& r.0.cfg() == cfg && r.0.device() == d.device()
            &&& r.0@.mood == d@.mood && r.0@.degraded && r.0@.applied == Some(target)
            &&& !r.1.rearm && r.1.change is None
            &&& d@.degraded ==> r.1.notice is None
            &&& !d@.degraded ==> (r.1.notice matches Some(m) && m.level == Level::Error && m.text@
                == "umami tier "@ + d.device() + " disconnected; pinning swappiness to "@ + decimal(
                cfg.watchdog_swappiness as nat,
            ))
            &&& r.1.write is None <==> d@.degraded && d@.applied == Some(target)
            &&& r.1.write matches Some(t) ==> t == target
            &&& r.1.actions is None <==> r.1.write is None
            &&& r.1.actions matches Some(both) ==> sets(both, target.0, target.1)
        }),
{
}

/// Whether the watchdog has nothing to mind: the flash tier is not managed, or
/// its device is there.
pub open spec fn nothing_is_missing(device: Seq<char>, present: bool) -> bool {
    device.len() == 0 || present
}

/// Otherwise a sample goes to the policy, and what is in force afterwards is
/// what the policy decides. The return of a lost tier is told, and the tiers are
/// then brought up again. A write is handed out where the decision differs from
/// what was applied, and after a return in any case.
pub proof fn law_tick_follows_the_policy(
    d: Daemon,
    s: Sample,
    present: bool,
    r: (Daemon, Tick),
    p: &mut Policy,
    decision: Decision,
)
    requires
        call_ensures(Daemon::tick, (d, &s, present), r),
        nothing_is_missing(d.device(), present),
        old(p).cfg() == d.cfg(),
        old(p)@ == d@.mood,
        call_ensures(Policy::evaluate, (p, &s), decision),
    ensures
        ({
            let target = (decision.swappiness, decision.cache_pressure);
            &&& r.0.cfg() == d.cfg() && r.0.device() == d.device()
            &&& r.0@.mood == final(p)@ && !r.0@.degraded && r.0@.applied == Some(target)
            &&& r.1.rearm <==> d@.degraded
            &&& d@.degraded ==> (r.1.notice matches Some(m) && m.level == Level::Info && m.text@
                == "umami tier is back; re-arming"@)
            &&& !d@.degraded ==> r.1.notice is None
            &&& r.1.write is None <==> !d@.degraded && d@.applied == Some(target)
            &&& r.1.write matches Some(t) ==> t == target
            &&& r.1.actions is None <==> r.1.write is None
            &&& r.1.actions matches Some(both) ==> sets(both, target.0, target.1)
            &&& r.1.change is Some <==> decision.changed
        }),
{
}

/// The name that a state goes by.
pub open spec fn is_name_of(name: Seq<char>, state: State) -> bool {
    &&& state == State::Calm <==> name == "Calm"@
    &&& state == State::Pressured <==> name == "Pressured"@
    &&& state == State::Critical <==> name == "Critical"@
    &&& state == State::ThrashGuard <==> name == "ThrashGuard"@
}

proof fn lemma_names_differ()
    ensures
        "Calm"@ != "Pressured"@,
        "Calm"@ != "Critical"@,
        "Calm"@ != "ThrashGuard"@,
        "Pressured"@ != "Critical"@,
        "Pressured"@ != "ThrashGuard"@,
        "Critical"@ != "ThrashGuard"@,
{
    reveal_strlit("Calm");
    reveal_strlit("Pressured");
    reveal_strlit("Critical");
    reveal_strlit("ThrashGuard");
    assert("Calm"@.len() == 4 && "Pressured"@.len() == 9 && "Critical"@.len() == 8
        && "ThrashGuard"@.len() == 11);
}

/// A change of state is told with the decision and every measure of the sample,
/// each in its own place.
pub proof fn law_what_is_said_of_a_change(
    d: Daemon,
    s: Sample,
    present: bool,
    r: (Daemon, Tick),
    p: &mut Policy,
    decision: Decision,
    name: String,
)
    requires
        call_ensures(Daemon::tick, (d, &s, present), r),
        nothing_is_missing(d.device(), present),
        old(p).cfg() == d.cfg(),
        old(p)@ == d@.mood,
        call_ensures(Policy::evaluate, (p, &s), decision),
        call_ensures(state_name, (decision.state,), name),
    ensures
        is_name_of(name@, decision.state),
        r.1.change matches Some(m) ==> m.level == Level::Info && m.text@ == "state -> "@ + name@
            + ": "@ + decision.reason@ + " (swappiness="@ + decimal(decision.swappiness as nat)
            + ", cache_pressure="@ + decimal(decision.cache_pressure as nat) + ", avail="@ + fixed(
            s.mem_available_pct,
            1,
        ) + "%, swap_used="@ + fixed(s.swap_used_pct, 1) + "%, psi_some="@ + fixed(
            s.psi_some_avg10,
            1,
        ) + ", psi_full="@ + fixed(s.psi_full_avg10, 1) + ", in="@ + fixed(s.swapin_kbs, 0)
            + "KiB/s, out="@ + fixed(s.swapout_kbs, 0) + "KiB/s)"@,
{
    lemma_names_differ();
}

/// A new control loop is calm, has applied nothing and misses nothing.
pub proof fn law_loop_begins(cfg: PolicyCfg, device: &str, d: Daemon)
    requires
        call_ensures(Daemon::new, (cfg, device), d),
    ensures
        d.cfg() == cfg,
        d.device() == device@,
        d@.mood.state == State::Calm,
        d@.mood.streak == 0,
        d@.applied is None,
        !d@.degraded,
{
}

/// The daemon starts exactly with a configuration that was loaded and whose
/// policy is valid; otherwise it says why, and ends with the code 2.
pub proof fn law_admission(
    loaded: Result<Config, String>,
    r: Result<PolicyCfg, (u8, Message)>,
    p: PolicyCfg,
    checked: Result<(), String>,
)
    requires
        call_ensures(admitted, (&loaded,), r),
        loaded matches Ok(c) ==> call_ensures(Config::policy, (&c,), p),
        loaded is Ok ==> call_ensures(PolicyCfg::validate, (&p,), checked),
    ensures
        r is Ok <==> loaded is Ok && checked is Ok,
        r matches Ok(q) ==> q == p,
        r matches Err((code, m)) ==> code == 2 && m.level == Level::Error && m.text@
            == match loaded {
            Err(e) => "failed to load config: "@ + e@,
            Ok(_) => "invalid policy config: "@ + checked->Err_0@,
        },
{
}

/// What is said of tunables that cannot be set, of a configuration that cannot
/// be loaded, and of the start.
pub proof fn law_other_messages(
    value: u32,
    e: &str,
    cfg: TiersCfg,
    a: Message,
    b: Message,
    c: (u8, Message),
    d: Message,
)
    requires
        call_ensures(swappiness_unset, (value, e), a),
        call_ensures(cache_pressure_unset, (value, e), b),
        call_ensures(load_refused, (e,), c),
        call_ensures(start_message, (&cfg,), d),
    ensures
        a.level == Level::Warn && a.text@ == "cannot set "@ + "swappiness"@ + "="@ + decimal(
            value as nat,
        ) + ": "@ + e@,
        b.level == Level::Warn && b.text@ == "cannot set "@ + "vfs_cache_pressure"@ + "="@ + decimal(
            value as nat,
        ) + ": "@ + e@,
        c.0 == 2 && c.1.level == Level::Error && c.1.text@ == "failed to load config: "@ + e@,
        ({
            let flash = if cfg.umami_device@.len() == 0 {
                "unmanaged"@
            } else {
                cfg.umami_device@
            };
            let fallback = if cfg.fallback_swap@.len() == 0 {
                "unmanaged"@
            } else {
                cfg.fallback_swap@
            };
            d.level == Level::Info && d.text@ == "umami starting: zram="@ + decimal(
                cfg.zram_size_mb as nat,
            ) + "MiB flash="@ + flash + " fallback="@ + fallback
        }),
{
}

} // verus!
