//! The control policy: a pure state machine over pressure samples.
//!
//! States: Calm -> Pressured -> Critical, plus ThrashGuard, a protective
//! backoff entered immediately when swap-in saturation and full memory
//! stalls coincide (flash tier is the bottleneck, stop feeding it).
//! Escalation requires `enter_samples` consecutive demanding samples;
//! relaxation requires `exit_samples` quiet ones (hysteresis).

use crate::config::PolicyCfg;
use crate::double::{leq, Double};
use crate::literal::fixed;
use crate::numeral::{decimal, numeral_of};
use crate::procfs::Sample;
use vstd::prelude::*;

verus! {

/// How the system is doing.
#[derive(Clone, Copy, Debug, PartialEq, Eq, Structural)]
pub enum State {
    Calm,
    Pressured,
    Critical,
    ThrashGuard,
}

impl State {
    /// The place of a state on the ladder of escalation.
    pub open spec fn rank(self) -> u8 {
        match self {
            State::Calm => 0,
            State::Pressured => 1,
            State::Critical => 2,
            State::ThrashGuard => 3,
        }
    }

    /// Order used for escalation decisions. ThrashGuard sits outside the
    /// ladder; it is entered and exited through its own rules.
    pub fn severity(self) -> (r: u8)
        ensures
            r == self.rank(),
    {
        match self {
            State::Calm => 0,
            State::Pressured => 1,
            State::Critical => 2,
            State::ThrashGuard => 3,
        }
    }
}

/// What the policy makes of a sample.
#[derive(Debug)]
pub struct Decision {
    pub state: State,
    pub swappiness: u32,
    pub cache_pressure: u32,
    /// True when this evaluation changed the state.
    pub changed: bool,
    pub reason: String,
}

impl Clone for Decision {
    fn clone(&self) -> (r: Decision)
        ensures
            r == *self,
    {
        Decision {
            state: self.state,
            swappiness: self.swappiness,
            cache_pressure: self.cache_pressure,
            changed: self.changed,
            reason: self.reason.clone(),
        }
    }
}

/// Where the policy stands between two samples.
pub struct Mood {
    pub state: State,
    /// How many samples in a row have pulled the same way.
    pub streak: nat,
    /// The way they pull: 1 escalating, -1 relaxing.
    pub dir: int,
}

/// Whether the flash tier is the bottleneck.
pub open spec fn thrashing(cfg: PolicyCfg, s: Sample) -> bool {
    leq(cfg.thrash_swapin_kbs, s.swapin_kbs) && leq(cfg.thrash_psi_full_avg10, s.psi_full_avg10)
}

/// Whether the stalls alone demand the pressured state.
pub open spec fn stalls_pressured(cfg: PolicyCfg, s: Sample) -> bool {
    leq(cfg.psi_pressure_threshold, s.psi_some_avg10)
}

/// Whether the available memory alone demands the pressured state.
pub open spec fn memory_pressured(cfg: PolicyCfg, s: Sample) -> bool {
    leq(s.mem_available_pct, cfg.mem_pressure_available_pct)
}

/// Whether the stalls alone demand the critical state.
pub open spec fn stalls_critical(cfg: PolicyCfg, s: Sample) -> bool {
    leq(cfg.psi_critical_threshold, s.psi_some_avg10)
}

/// Whether the available memory alone demands the critical state.
pub open spec fn memory_critical(cfg: PolicyCfg, s: Sample) -> bool {
    leq(s.mem_available_pct, cfg.mem_critical_available_pct)
}

/// The state that a sample demands, taken by itself.
pub open spec fn demanded(cfg: PolicyCfg, s: Sample) -> State {
    if stalls_critical(cfg, s) || memory_critical(cfg, s) {
        State::Critical
    } else if stalls_pressured(cfg, s) || memory_pressured(cfg, s) {
        State::Pressured
    } else {
        State::Calm
    }
}

/// Stalls that reach a limit, in words.
pub open spec fn stalls_text(s: Sample, limit: Double) -> Seq<char> {
    "psi_some_avg10 "@ + fixed(s.psi_some_avg10, 1) + " >= "@ + fixed(limit, 1)
}

/// Available memory that falls to a limit, in words.
pub open spec fn memory_text(s: Sample, limit: Double) -> Seq<char> {
    "mem_available "@ + fixed(s.mem_available_pct, 1) + "% <= "@ + fixed(limit, 1) + "%"@
}

/// Why a sample demands what it does.
pub open spec fn cause(cfg: PolicyCfg, s: Sample) -> Seq<char> {
    if memory_critical(cfg, s) {
        memory_text(s, cfg.mem_critical_available_pct)
    } else if stalls_critical(cfg, s) {
        stalls_text(s, cfg.psi_critical_threshold)
    } else if memory_pressured(cfg, s) {
        memory_text(s, cfg.mem_pressure_available_pct)
    } else if stalls_pressured(cfg, s) {
        stalls_text(s, cfg.psi_pressure_threshold)
    } else {
        seq![]
    }
}

/// The length of the streak with one more sample that pulls the way `dir`.
pub open spec fn counted(m: Mood, dir: int) -> nat {
    if m.dir == dir {
        m.streak + 1
    } else {
        1
    }
}

/// Where the policy stands after a sample.
pub open spec fn step(cfg: PolicyCfg, m: Mood, s: Sample) -> Mood {
    let target = demanded(cfg, s);
    if thrashing(cfg, s) {
        Mood { state: State::ThrashGuard, streak: 0, dir: 0 }
    } else if m.state == State::ThrashGuard {
        if target != State::Calm {
            Mood { streak: 0, ..m }
        } else if m.streak + 1 >= cfg.exit_samples {
            Mood { state: State::Calm, streak: 0, ..m }
        } else {
            Mood { streak: m.streak + 1, ..m }
        }
    } else if target.rank() > m.state.rank() {
        if counted(m, 1) >= cfg.enter_samples {
            Mood { state: target, streak: 0, dir: 0 }
        } else {
            Mood { streak: counted(m, 1), dir: 1, ..m }
        }
    } else if target.rank() < m.state.rank() {
        if counted(m, -1) >= cfg.exit_samples {
            Mood { state: target, streak: 0, dir: 0 }
        } else {
            Mood { streak: counted(m, -1), dir: -1, ..m }
        }
    } else {
        Mood { streak: 0, dir: 0, ..m }
    }
}

/// A count towards a limit, in words.
pub open spec fn progress(n: nat, limit: u32) -> Seq<char> {
    "("@ + decimal(n) + "/"@ + decimal(limit as nat) + ")"@
}

/// Why the policy goes where it goes after a sample.
pub open spec fn reason(cfg: PolicyCfg, m: Mood, s: Sample) -> Seq<char> {
    let target = demanded(cfg, s);
    if thrashing(cfg, s) {
        "thrash guard: swap-in "@ + fixed(s.swapin_kbs, 0) + " KiB/s with psi_full_avg10 "@ + fixed(
            s.psi_full_avg10,
            1,
        )
    } else if m.state == State::ThrashGuard {
        if target != State::Calm {
            "guard held: pressure persists"@
        } else if m.streak + 1 >= cfg.exit_samples {
            "guard released: system calm"@
        } else {
            "guard cooling down "@ + progress(m.streak + 1, cfg.exit_samples)
        }
    } else if target.rank() > m.state.rank() {
        if counted(m, 1) >= cfg.enter_samples {
            "escalating: "@ + cause(cfg, s)
        } else {
            "pressure rising "@ + progress(counted(m, 1), cfg.enter_samples) + ": "@ + cause(cfg, s)
        }
    } else if target.rank() < m.state.rank() {
        if counted(m, -1) >= cfg.exit_samples {
            "relaxing"@
        } else {
            "cooling down "@ + progress(counted(m, -1), cfg.exit_samples)
        }
    } else {
        "steady state"@
    }
}

/// The swappiness that goes with a state.
pub open spec fn swappiness_in(cfg: PolicyCfg, state: State) -> u32 {
    match state {
        State::Calm => cfg.swappiness_calm,
        State::Pressured => cfg.swappiness_pressured,
        State::Critical => cfg.swappiness_critical,
        State::ThrashGuard => cfg.swappiness_thrash_guard,
    }
}

/// The cache pressure that goes with a state.
pub open spec fn cache_pressure_in(cfg: PolicyCfg, state: State) -> u32 {
    if state == State::Calm {
        cfg.cache_pressure_calm
    } else {
        cfg.cache_pressure_pressured
    }
}

/// What holds wherever the policy stands: a streak is shorter than what it
/// counts towards.
pub open spec fn sound(cfg: PolicyCfg, m: Mood) -> bool {
    ||| m.streak == 0
    ||| m.state == State::ThrashGuard && m.streak < cfg.exit_samples
    ||| m.state != State::ThrashGuard && m.dir == 1 && m.streak < cfg.enter_samples
    ||| m.state != State::ThrashGuard && m.dir == -1 && m.streak < cfg.exit_samples
}

/// Where the policy stands before the first sample.
pub open spec fn start() -> Mood {
    Mood { state: State::Calm, streak: 0, dir: 0 }
}

/// The control policy, and where it stands.
#[derive(Debug)]
pub struct Policy {
    cfg: PolicyCfg,
    state: State,
    streak: u32,
    /// Direction the streak is building toward: +1 escalating, -1 relaxing.
    streak_dir: i8,
}

impl View for Policy {
    type V = Mood;

    closed spec fn view(&self) -> Mood {
        Mood { state: self.state, streak: self.streak as nat, dir: self.streak_dir as int }
    }
}

/// Stalls that reach a limit, in words.
fn describe_stalls(s: &Sample, limit: Double) -> (r: String)
    ensures
        r@ == stalls_text(*s, limit),
{
    let mut out: String = String::from_str("psi_some_avg10 ");
    out.append(s.psi_some_avg10.to_fixed(1).as_str());
    out.append(" >= ");
    out.append(limit.to_fixed(1).as_str());
    out
}

/// Available memory that falls to a limit, in words.
fn describe_memory(s: &Sample, limit: Double) -> (r: String)
    ensures
        r@ == memory_text(*s, limit),
{
    let mut out: String = String::from_str("mem_available ");
    out.append(s.mem_available_pct.to_fixed(1).as_str());
    out.append("% <= ");
    out.append(limit.to_fixed(1).as_str());
    out.append("%");
    out
}

/// A count towards a limit, in words.
fn describe_progress(n: u32, limit: u32) -> (r: String)
    ensures
        r@ == progress(n as nat, limit),
{
    let mut out: String = String::from_str("(");
    out.append(numeral_of(n as u64).as_str());
    out.append("/");
    out.append(numeral_of(limit as u64).as_str());
    out.append(")");
    out
}

impl Policy {
    /// The configuration that the policy follows.
    pub closed spec fn cfg(&self) -> PolicyCfg {
        self.cfg
    }

    #[verifier::type_invariant]
    spec fn wf(self) -> bool {
        sound(self.cfg, self@)
    }

    /// A policy that has seen no sample yet.
    pub fn new(cfg: PolicyCfg) -> (r: Policy)
        ensures
            r.cfg() == cfg,
            r@ == start(),
    {
        Policy { cfg, state: State::Calm, streak: 0, streak_dir: 0 }
    }

    /// The state that the policy is in.
    pub fn state(&self) -> (r: State)
        ensures
            r == self@.state,
    {
        self.state
    }

    /// The length of the streak with one more sample that pulls the way `dir`.
    fn count(&self, dir: i8) -> (r: u32)
        requires
            self.streak < u32::MAX || self.streak_dir != dir,
        ensures
            r == counted(self@, dir as int),
    {
        if self.streak_dir == dir {
            self.streak + 1
        } else {
            1
        }
    }

    /// Takes in a sample, and says what to do.
    pub fn evaluate(&mut self, s: &Sample) -> (r: Decision)
        ensures
            final(self).cfg() == old(self).cfg(),
            final(self)@ == step(old(self).cfg(), old(self)@, *s),
            r.state == final(self)@.state,
            r.swappiness == swappiness_in(old(self).cfg(), r.state),
            r.cache_pressure == cache_pressure_in(old(self).cfg(), r.state),
            r.changed == (r.state != old(self)@.state),
            r.reason@ == reason(old(self).cfg(), old(self)@, *s),
    {
        proof {
            use_type_invariant(&*self);
        }
        let cfg: PolicyCfg = self.cfg;
        let prev: State = self.state;
        let ghost before = self@;
        let thrash: bool = s.swapin_kbs.at_least(cfg.thrash_swapin_kbs)
            && s.psi_full_avg10.at_least(cfg.thrash_psi_full_avg10);

        // The state demanded by this sample alone.
        let mut target: State = State::Calm;
        let mut why: String = String::new();
        if s.psi_some_avg10.at_least(cfg.psi_pressure_threshold) {
            target = State::Pressured;
            why = describe_stalls(s, cfg.psi_pressure_threshold);
        }
        if s.mem_available_pct.at_most(cfg.mem_pressure_available_pct) {
            target = State::Pressured;
            why = describe_memory(s, cfg.mem_pressure_available_pct);
        }
        if s.psi_some_avg10.at_least(cfg.psi_critical_threshold) {
            target = State::Critical;
            why = describe_stalls(s, cfg.psi_critical_threshold);
        }
        if s.mem_available_pct.at_most(cfg.mem_critical_available_pct) {
            target = State::Critical;
            why = describe_memory(s, cfg.mem_critical_available_pct);
        }
        proof {
            assert(target == demanded(cfg, *s));
            assert(why@ == cause(cfg, *s));
        }

        let mut state: State = self.state;
        let mut streak: u32 = self.streak;
        let mut dir: i8 = self.streak_dir;
        let mut reason: String = String::new();
        if thrash {
            state = State::ThrashGuard;
            streak = 0;
            dir = 0;
            reason.append("thrash guard: swap-in ");
            reason.append(s.swapin_kbs.to_fixed(0).as_str());
            reason.append(" KiB/s with psi_full_avg10 ");
            reason.append(s.psi_full_avg10.to_fixed(1).as_str());
        } else if state == State::ThrashGuard {
            // Leave the guard only after the system has been calm for a while.
            if target == State::Calm {
                streak = streak + 1;
                if streak >= cfg.exit_samples {
                    state = State::Calm;
                    streak = 0;
                    reason.append("guard released: system calm");
                } else {
                    reason.append("guard cooling down ");
                    reason.append(describe_progress(streak, cfg.exit_samples).as_str());
                }
            } else {
                streak = 0;
                reason.append("guard held: pressure persists");
            }
        } else if target.severity() > state.severity() {
            streak = self.count(1);
            dir = 1;
            if streak >= cfg.enter_samples {
                state = target;
                streak = 0;
                dir = 0;
                reason.append("escalating: ");
                reason.append(why.as_str());
            } else {
                reason.append("pressure rising ");
                reason.append(describe_progress(streak, cfg.enter_samples).as_str());
                reason.append(": ");
                reason.append(why.as_str());
            }
        } else if target.severity() < state.severity() {
            streak = self.count(-1);
            dir = -1;
            if streak >= cfg.exit_samples {
                state = target;
                streak = 0;
                dir = 0;
                reason.append("relaxing");
            } else {
                reason.append("cooling down ");
                reason.append(describe_progress(streak, cfg.exit_samples).as_str());
            }
        } else {
            streak = 0;
            dir = 0;
            reason.append("steady state");
        }

        let swappiness: u32 = match state {
            State::Calm => cfg.swappiness_calm,
            State::Pressured => cfg.swappiness_pressured,
            State::Critical => cfg.swappiness_critical,
            State::ThrashGuard => cfg.swappiness_thrash_guard,
        };
        let cache_pressure: u32 = match state {
            State::Calm => cfg.cache_pressure_calm,
            _ => cfg.cache_pressure_pressured,
        };
        *self = Policy { cfg, state, streak, streak_dir: dir };
        Decision { state, swappiness, cache_pressure, changed: state != prev, reason }
    }
}

} // verus!
