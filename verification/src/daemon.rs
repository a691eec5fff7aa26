//! The control loop: what to make of each sample, with a watchdog over the
//! flash tier.

use crate::config::{policy_of, Config, PolicyCfg, TiersCfg};
use crate::literal::fixed;
use crate::log::{info, warning, Level, Message, Note};
use crate::numeral::{decimal, numeral_of};
use crate::policy::{
    cache_pressure_in, reason, start, step, swappiness_in, Decision, Mood, Policy, State,
};
use crate::procfs::Sample;
use crate::text::joined;
use crate::tiers::{sysctl_write, Action, Deed, CACHE_PRESSURE, SWAPPINESS};
use vstd::prelude::*;

verus! {

/// Where the control loop stands between two samples.
pub struct Standing {
    /// Where the policy stands.
    pub mood: Mood,
    /// The swappiness and the cache pressure that were written last.
    pub applied: Option<(u32, u32)>,
    /// Whether the flash tier was missing at the last sample.
    pub degraded: bool,
}

/// What the tunables have to be set to, if they were `applied` before.
pub open spec fn due(applied: Option<(u32, u32)>, target: (u32, u32)) -> Option<(u32, u32)> {
    if applied == Some(target) {
        None
    } else {
        Some(target)
    }
}

/// The two writes that set the tunables, in the order in which they are made.
/// The second is made whatever comes of the first.
pub open spec fn write_deeds(target: (u32, u32)) -> (Deed, Deed) {
    (
        Deed::Write(SWAPPINESS@, decimal(target.0 as nat)),
        Deed::Write(CACHE_PRESSURE@, decimal(target.1 as nat)),
    )
}

/// Two steps that may not have to be taken, as the contracts see them.
pub open spec fn deeds(actions: Option<(Action, Action)>) -> Option<(Deed, Deed)> {
    match actions {
        Some((first, second)) => Some((first@, second@)),
        None => None,
    }
}

/// The writes that a target asks for, if there is one.
pub open spec fn writes_for(target: Option<(u32, u32)>) -> Option<(Deed, Deed)> {
    match target {
        Some(target) => Some(write_deeds(target)),
        None => None,
    }
}

/// The two writes that set the tunables, in the order in which they are made.
pub fn tunable_writes(target: (u32, u32)) -> (r: (Action, Action))
    ensures
        r.0@ == Deed::Write(SWAPPINESS@, decimal(target.0 as nat)),
        r.1@ == Deed::Write(CACHE_PRESSURE@, decimal(target.1 as nat)),
{
    (sysctl_write(SWAPPINESS, target.0), sysctl_write(CACHE_PRESSURE, target.1))
}

/// Hands out the writes of the two vm tunables, but only when the target
/// actually changed, and notes the target.
pub fn apply(swappiness: u32, cache_pressure: u32, applied: &mut Option<(u32, u32)>) -> (r: Option<
    (Action, Action),
>)
    ensures
        *final(applied) == Some((swappiness, cache_pressure)),
        r is None <==> *old(applied) == Some((swappiness, cache_pressure)),
        deeds(r) == writes_for(due(*old(applied), (swappiness, cache_pressure))),
{
    let same: bool = match *applied {
        Some((s, c)) => s == swappiness && c == cache_pressure,
        None => false,
    };
    *applied = Some((swappiness, cache_pressure));
    if same {
        None
    } else {
        Some(tunable_writes((swappiness, cache_pressure)))
    }
}

/// The tunables that are kept while the flash tier is missing.
pub open spec fn pinned(cfg: PolicyCfg) -> (u32, u32) {
    (cfg.watchdog_swappiness, cfg.cache_pressure_pressured)
}

/// The tunables that go with a state.
pub open spec fn tunables(cfg: PolicyCfg, state: State) -> (u32, u32) {
    (swappiness_in(cfg, state), cache_pressure_in(cfg, state))
}

/// Whether the flash tier is managed and gone.
pub open spec fn flash_gone(device: Seq<char>, present: bool) -> bool {
    device.len() > 0 && !present
}

/// Where the control loop stands after a sample. While the flash tier is gone
/// the policy sees no samples.
pub open spec fn standing_after(
    cfg: PolicyCfg,
    device: Seq<char>,
    x: Standing,
    s: Sample,
    present: bool,
) -> Standing {
    if flash_gone(device, present) {
        Standing { mood: x.mood, applied: Some(pinned(cfg)), degraded: true }
    } else {
        let mood = step(cfg, x.mood, s);
        Standing { mood, applied: Some(tunables(cfg, mood.state)), degraded: false }
    }
}

/// What has to be written after a sample. When the flash tier goes or comes
/// back, what was written before does not count.
pub open spec fn due_after(
    cfg: PolicyCfg,
    device: Seq<char>,
    x: Standing,
    s: Sample,
    present: bool,
) -> Option<(u32, u32)> {
    let gone = flash_gone(device, present);
    let target = if gone {
        pinned(cfg)
    } else {
        tunables(cfg, step(cfg, x.mood, s).state)
    };
    due(
        if gone != x.degraded {
            None
        } else {
            x.applied
        },
        target,
    )
}

/// The name of a state.
pub open spec fn state_label(s: State) -> Seq<char> {
    match s {
        State::Calm => "Calm"@,
        State::Pressured => "Pressured"@,
        State::Critical => "Critical"@,
        State::ThrashGuard => "ThrashGuard"@,
    }
}

/// The name of a state.
pub fn state_name(s: State) -> (r: String)
    ensures
        r@ == state_label(s),
{
    match s {
        State::Calm => String::from_str("Calm"),
        State::Pressured => String::from_str("Pressured"),
        State::Critical => String::from_str("Critical"),
        State::ThrashGuard => String::from_str("ThrashGuard"),
    }
}

/// What is said of a change of state.
pub open spec fn change_text(state: State, why: Seq<char>, target: (u32, u32), s: Sample) -> Seq<
    char,
> {
    "state -> "@ + state_label(state) + ": "@ + why + " (swappiness="@ + decimal(target.0 as nat)
        + ", cache_pressure="@ + decimal(target.1 as nat) + ", avail="@ + fixed(
        s.mem_available_pct,
        1,
    ) + "%, swap_used="@ + fixed(s.swap_used_pct, 1) + "%, psi_some="@ + fixed(s.psi_some_avg10, 1)
        + ", psi_full="@ + fixed(s.psi_full_avg10, 1) + ", in="@ + fixed(s.swapin_kbs, 0)
        + "KiB/s, out="@ + fixed(s.swapout_kbs, 0) + "KiB/s)"@
}

/// What is said of a change of state.
fn describe_change(d: &Decision, s: &Sample) -> (r: String)
    ensures
        r@ == change_text(d.state, d.reason@, (d.swappiness, d.cache_pressure), *s),
{
    let mut out: String = String::from_str("state -> ");
    out.append(state_name(d.state).as_str());
    out.append(": ");
    out.append(d.reason.as_str());
    out.append(" (swappiness=");
    out.append(numeral_of(d.swappiness as u64).as_str());
    out.append(", cache_pressure=");
    out.append(numeral_of(d.cache_pressure as u64).as_str());
    out.append(", avail=");
    out.append(s.mem_available_pct.to_fixed(1).as_str());
    out.append("%, swap_used=");
    out.append(s.swap_used_pct.to_fixed(1).as_str());
    out.append("%, psi_some=");
    out.append(s.psi_some_avg10.to_fixed(1).as_str());
    out.append(", psi_full=");
    out.append(s.psi_full_avg10.to_fixed(1).as_str());
    out.append(", in=");
    out.append(s.swapin_kbs.to_fixed(0).as_str());
    out.append("KiB/s, out=");
    out.append(s.swapout_kbs.to_fixed(0).as_str());
    out.append("KiB/s)");
    out
}

/// What to do about one sample, in this order.
#[derive(Debug)]
pub struct Tick {
    /// What is to be said of the flash tier, if it went or came back.
    pub notice: Option<Message>,
    /// Whether the tiers have to be brought up again.
    pub rearm: bool,
    /// What is to be said of the state, if it changed.
    pub change: Option<Message>,
    /// The swappiness and the cache pressure to write, if they have changed.
    pub write: Option<(u32, u32)>,
    /// The two writes that this takes, to be made in this order; the second is
    /// made whatever comes of the first.
    pub actions: Option<(Action, Action)>,
}

/// What is to be said of the flash tier.
pub open spec fn notice_after(cfg: PolicyCfg, device: Seq<char>, x: Standing, present: bool) -> Option<
    Note,
> {
    let gone = flash_gone(device, present);
    if gone == x.degraded {
        None
    } else if gone {
        Some(
            Note {
                level: Level::Error,
                text: "umami tier "@ + device + " disconnected; pinning swappiness to "@ + decimal(
                    cfg.watchdog_swappiness as nat,
                ),
            },
        )
    } else {
        Some(info("umami tier is back; re-arming"@))
    }
}

/// What is to be said of the state.
pub open spec fn change_after(
    cfg: PolicyCfg,
    device: Seq<char>,
    x: Standing,
    s: Sample,
    present: bool,
) -> Option<Note> {
    let state = step(cfg, x.mood, s).state;
    if flash_gone(device, present) || state == x.mood.state {
        None
    } else {
        Some(info(change_text(state, reason(cfg, x.mood, s), tunables(cfg, state), s)))
    }
}

/// A message that may be missing, as the contracts see it.
pub open spec fn noted(m: Option<Message>) -> Option<Note> {
    match m {
        Some(m) => Some(m@),
        None => None,
    }
}

/// The control loop.
#[derive(Debug)]
pub struct Daemon {
    policy: Policy,
    cfg: PolicyCfg,
    device: String,
    applied: Option<(u32, u32)>,
    degraded: bool,
}

impl View for Daemon {
    type V = Standing;

    closed spec fn view(&self) -> Standing {
        Standing { mood: self.policy@, applied: self.applied, degraded: self.degraded }
    }
}

impl Daemon {
    /// The policy that is followed.
    pub closed spec fn cfg(&self) -> PolicyCfg {
        self.cfg
    }

    /// The device of the flash tier; empty where it is not managed.
    pub closed spec fn device(&self) -> Seq<char> {
        self.device@
    }

    #[verifier::type_invariant]
    spec fn wf(self) -> bool {
        self.policy.cfg() == self.cfg
    }

    /// A control loop before its first sample.
    pub fn new(cfg: PolicyCfg, device: &str) -> (r: Daemon)
        ensures
            r.cfg() == cfg,
            r.device() == device@,
            r@ == (Standing { mood: start(), applied: None, degraded: false }),
    {
        Daemon {
            policy: Policy::new(cfg),
            cfg,
            device: String::from_str(device),
            applied: None,
            degraded: false,
        }
    }

    /// Takes in a sample, and whether the device of the flash tier is there.
    pub fn tick(self, s: &Sample, present: bool) -> (r: (Daemon, Tick))
        ensures
            r.0.cfg() == self.cfg(),
            r.0.device() == self.device(),
            r.0@ == standing_after(self.cfg(), self.device(), self@, *s, present),
            noted(r.1.notice) == notice_after(self.cfg(), self.device(), self@, present),
            r.1.rearm == (self@.degraded && !flash_gone(self.device(), present)),
            noted(r.1.change) == change_after(self.cfg(), self.device(), self@, *s, present),
            r.1.write == due_after(self.cfg(), self.device(), self@, *s, present),
            deeds(r.1.actions) == writes_for(r.1.write),
    {
        proof {
            use_type_invariant(&self);
        }
        let cfg: PolicyCfg = self.cfg;
        let device: String = self.device;
        let degraded: bool = self.degraded;
        let mut applied: Option<(u32, u32)> = self.applied;
        let mut policy: Policy = self.policy;
        if !device.as_str().is_empty() && !present {
            // Pages already swapped to the lost tier are the kernel's problem;
            // stop sending new ones.
            let mut notice: Option<Message> = None;
            if !degraded {
                let mut text: String = String::from_str("umami tier ");
                text.append(device.as_str());
                text.append(" disconnected; pinning swappiness to ");
                text.append(numeral_of(cfg.watchdog_swappiness as u64).as_str());
                notice = Some(Message { level: Level::Error, text });
                applied = None;
            }
            let actions: Option<(Action, Action)> = apply(
                cfg.watchdog_swappiness,
                cfg.cache_pressure_pressured,
                &mut applied,
            );
            let tick: Tick = Tick {
                notice,
                rearm: false,
                change: None,
                write: if actions.is_some() {
                    Some((cfg.watchdog_swappiness, cfg.cache_pressure_pressured))
                } else {
                    None
                },
                actions,
            };
            (Daemon { policy, cfg, device, applied, degraded: true }, tick)
        } else {
            let mut notice: Option<Message> = None;
            if degraded {
                notice = Some(
                    Message {
                        level: Level::Info,
                        text: String::from_str("umami tier is back; re-arming"),
                    },
                );
                applied = None;
            }
            let d: Decision = policy.evaluate(s);
            let mut change: Option<Message> = None;
            if d.changed {
                change = Some(Message { level: Level::Info, text: describe_change(&d, s) });
            }
            let actions: Option<(Action, Action)> = apply(
                d.swappiness,
                d.cache_pressure,
                &mut applied,
            );
            let tick: Tick = Tick {
                notice,
                rearm: degraded,
                change,
                write: if actions.is_some() {
                    Some((d.swappiness, d.cache_pressure))
                } else {
                    None
                },
                actions,
            };
            (Daemon { policy, cfg, device, applied, degraded: false }, tick)
        }
    }
}

/// What is said of a tunable that could not be set.
pub open spec fn unset(name: Seq<char>, value: u32, e: Seq<char>) -> Note {
    warning("cannot set "@ + name + "="@ + decimal(value as nat) + ": "@ + e)
}

/// What is said of a tunable that could not be set.
fn unset_message(name: &str, value: u32, e: &str) -> (r: Message)
    ensures
        r@ == unset(name@, value, e@),
{
    let mut text: String = String::from_str("cannot set ");
    text.append(name);
    text.append("=");
    text.append(numeral_of(value as u64).as_str());
    text.append(": ");
    text.append(e);
    Message { level: Level::Warn, text }
}

/// What is said of a swappiness that could not be set.
pub fn swappiness_unset(value: u32, e: &str) -> (r: Message)
    ensures
        r@ == unset("swappiness"@, value, e@),
{
    unset_message("swappiness", value, e)
}

/// What is said of a cache pressure that could not be set.
pub fn cache_pressure_unset(value: u32, e: &str) -> (r: Message)
    ensures
        r@ == unset("vfs_cache_pressure"@, value, e@),
{
    unset_message("vfs_cache_pressure", value, e)
}

/// The exit code and the message where a configuration cannot be loaded.
pub open spec fn load_refusal(e: Seq<char>) -> (u8, Note) {
    (2, Note { level: Level::Error, text: "failed to load config: "@ + e })
}

/// The exit code and the message where a policy is not valid.
pub open spec fn policy_refusal(e: Seq<char>) -> (u8, Note) {
    (2, Note { level: Level::Error, text: "invalid policy config: "@ + e })
}

/// The exit code and the message of a command whose configuration cannot be
/// loaded.
pub fn load_refused(e: &str) -> (r: (u8, Message))
    ensures
        (r.0, r.1@) == load_refusal(e@),
{
    (2, Message { level: Level::Error, text: joined("failed to load config: ", e) })
}

/// The policy that the daemon may start with, given what came of loading its
/// configuration; or its exit code and message, before anything is done.
pub fn admitted(loaded: &Result<Config, String>) -> (r: Result<PolicyCfg, (u8, Message)>)
    ensures
        *loaded matches Err(e) ==> r is Err && (r->Err_0.0, r->Err_0.1@) == load_refusal(e@),
        *loaded matches Ok(c) ==> (r is Ok <==> policy_of(c@).fault() is None),
        *loaded matches Ok(c) ==> (r matches Ok(p) ==> p == policy_of(c@)),
        *loaded matches Ok(c) ==> (r matches Err(x) ==> (x.0, x.1@) == policy_refusal(
            policy_of(c@).fault()->0,
        )),
{
    match loaded {
        Err(e) => Err(load_refused(e.as_str())),
        Ok(c) => {
            let p: PolicyCfg = c.policy();
            match p.validate() {
                Ok(_) => Ok(p),
                Err(e) => Err(
                    (
                        2,
                        Message {
                            level: Level::Error,
                            text: joined("invalid policy config: ", e.as_str()),
                        },
                    ),
                ),
            }
        },
    }
}

/// A device, or a word for none.
pub open spec fn managed(dev: Seq<char>) -> Seq<char> {
    if dev.len() == 0 {
        "unmanaged"@
    } else {
        dev
    }
}

/// A device, or a word for none.
fn managed_name(dev: &String) -> (r: String)
    ensures
        r@ == managed(dev@),
{
    if dev.as_str().is_empty() {
        String::from_str("unmanaged")
    } else {
        dev.clone()
    }
}

/// What is said when the daemon starts.
pub fn start_message(cfg: &TiersCfg) -> (r: Message)
    ensures
        r@ == info(
            "umami starting: zram="@ + decimal(cfg.zram_size_mb as nat) + "MiB flash="@ + managed(
                cfg.umami_device@,
            ) + " fallback="@ + managed(cfg.fallback_swap@),
        ),
{
    let mut text: String = String::from_str("umami starting: zram=");
    text.append(numeral_of(cfg.zram_size_mb).as_str());
    text.append("MiB flash=");
    text.append(managed_name(&cfg.umami_device).as_str());
    text.append(" fallback=");
    text.append(managed_name(&cfg.fallback_swap).as_str());
    Message { level: Level::Info, text }
}

} // verus!
