//! What the control policy promises over a run of samples: spikes do not move
//! it, sustained pressure does.

use crate::config::PolicyCfg;
use crate::double::leq;
use crate::literal::fixed;
use crate::numeral::decimal;
use crate::policy::{
    demanded, memory_critical, memory_pressured, sound, stalls_critical, stalls_pressured, start,
    step, thrashing, Decision, Mood, Policy, State,
};
use crate::procfs::Sample;
use vstd::prelude::*;

verus! {

/// Where the policy stands after a run of samples.
pub open spec fn run(cfg: PolicyCfg, m: Mood, samples: Seq<Sample>) -> Mood
    decreases samples.len(),
{
    if samples.len() == 0 {
        m
    } else {
        step(cfg, run(cfg, m, samples.drop_last()), samples.last())
    }
}

/// Whether a sample demands more than `state`, without thrashing.
pub open spec fn pulls_up(cfg: PolicyCfg, state: State, s: Sample) -> bool {
    !thrashing(cfg, s) && demanded(cfg, s).rank() > state.rank()
}

/// Whether a sample demands less than `state`, without thrashing.
pub open spec fn pulls_down(cfg: PolicyCfg, state: State, s: Sample) -> bool {
    !thrashing(cfg, s) && demanded(cfg, s).rank() < state.rank()
}

/// Whether a sample is calm.
pub open spec fn is_calm(cfg: PolicyCfg, s: Sample) -> bool {
    !thrashing(cfg, s) && demanded(cfg, s) == State::Calm
}

/// The number of samples that a count of `n` asks for; at least one sample is
/// always needed.
pub open spec fn needed(n: u32) -> nat {
    if n == 0 {
        1
    } else {
        n as nat
    }
}

/// A streak never reaches what it counts towards.
pub proof fn law_streaks_stay_short(cfg: PolicyCfg, m: Mood, samples: Seq<Sample>)
    requires
        sound(cfg, m),
    ensures
        sound(cfg, run(cfg, m, samples)),
    decreases samples.len(),
{
    if samples.len() > 0 {
        law_streaks_stay_short(cfg, m, samples.drop_last());
    }
}

/// A sample that shows thrashing raises the guard at once, wherever the policy
/// stands; nothing else raises it.
pub proof fn law_guard_is_immediate(cfg: PolicyCfg, m: Mood, s: Sample)
    ensures
        thrashing(cfg, s) ==> step(cfg, m, s).state == State::ThrashGuard,
        !thrashing(cfg, s) && m.state != State::ThrashGuard ==> step(cfg, m, s).state
            != State::ThrashGuard,
{
}

/// With no streak to build on, escalation takes `enter_samples` demanding
/// samples in a row: fewer leave the state as it was, and the last of them
/// says which state comes.
pub proof fn law_escalation(cfg: PolicyCfg, m: Mood, samples: Seq<Sample>)
    requires
        m.state != State::ThrashGuard,
        m.streak == 0,
        0 < samples.len() <= needed(cfg.enter_samples),
        forall|i: int| 0 <= i < samples.len() ==> pulls_up(cfg, m.state, #[trigger] samples[i]),
    ensures
        samples.len() < needed(cfg.enter_samples) ==> run(cfg, m, samples).state == m.state,
        samples.len() == needed(cfg.enter_samples) ==> run(cfg, m, samples).state == demanded(
            cfg,
            samples.last(),
        ),
{
    lemma_rising(cfg, m, samples.drop_last());
    assert(pulls_up(cfg, m.state, samples[samples.len() - 1]));
}

proof fn lemma_rising(cfg: PolicyCfg, m: Mood, samples: Seq<Sample>)
    requires
        m.state != State::ThrashGuard,
        m.streak == 0,
        samples.len() < needed(cfg.enter_samples),
        forall|i: int| 0 <= i < samples.len() ==> pulls_up(cfg, m.state, #[trigger] samples[i]),
    ensures
        ({
            let r = run(cfg, m, samples);
            &&& r.state == m.state
            &&& r.streak == samples.len()
            &&& samples.len() > 0 ==> r.dir == 1
        }),
    decreases samples.len(),
{
    if samples.len() > 0 {
        let t = samples.drop_last();
        assert forall|i: int| 0 <= i < t.len() implies pulls_up(cfg, m.state, #[trigger] t[i]) by {
            assert(t[i] == samples[i]);
        }
        lemma_rising(cfg, m, t);
        assert(pulls_up(cfg, m.state, samples[samples.len() - 1]));
    }
}

/// With no streak to build on, relaxation takes `exit_samples` quiet samples in
/// a row.
pub proof fn law_relaxation(cfg: PolicyCfg, m: Mood, samples: Seq<Sample>)
    requires
        m.state != State::ThrashGuard,
        m.streak == 0,
        0 < samples.len() <= needed(cfg.exit_samples),
        forall|i: int| 0 <= i < samples.len() ==> pulls_down(cfg, m.state, #[trigger] samples[i]),
    ensures
        samples.len() < needed(cfg.exit_samples) ==> run(cfg, m, samples).state == m.state,
        samples.len() == needed(cfg.exit_samples) ==> run(cfg, m, samples).state == demanded(
            cfg,
            samples.last(),
        ),
{
    lemma_cooling(cfg, m, samples.drop_last());
    assert(pulls_down(cfg, m.state, samples[samples.len() - 1]));
}

proof fn lemma_cooling(cfg: PolicyCfg, m: Mood, samples: Seq<Sample>)
    requires
        m.state != State::ThrashGuard,
        m.streak == 0,
        samples.len() < needed(cfg.exit_samples),
        forall|i: int| 0 <= i < samples.len() ==> pulls_down(cfg, m.state, #[trigger] samples[i]),
    ensures
        ({
            let r = run(cfg, m, samples);
            &&& r.state == m.state
            &&& r.streak == samples.len()
            &&& samples.len() > 0 ==> r.dir == -1
        }),
    decreases samples.len(),
{
    if samples.len() > 0 {
        let t = samples.drop_last();
        assert forall|i: int| 0 <= i < t.len() implies pulls_down(cfg, m.state, #[trigger] t[i]) by {
            assert(t[i] == samples[i]);
        }
        lemma_cooling(cfg, m, t);
        assert(pulls_down(cfg, m.state, samples[samples.len() - 1]));
    }
}

/// The guard is released after `exit_samples` calm samples in a row, and the
/// system is then calm.
pub proof fn law_release(cfg: PolicyCfg, m: Mood, samples: Seq<Sample>)
    requires
        m.state == State::ThrashGuard,
        m.streak == 0,
        0 < samples.len() <= needed(cfg.exit_samples),
        forall|i: int| 0 <= i < samples.len() ==> is_calm(cfg, #[trigger] samples[i]),
    ensures
        samples.len() < needed(cfg.exit_samples) ==> run(cfg, m, samples).state
            == State::ThrashGuard,
        samples.len() == needed(cfg.exit_samples) ==> run(cfg, m, samples).state == State::Calm,
{
    lemma_guarded(cfg, m, samples.drop_last());
    assert(is_calm(cfg, samples[samples.len() - 1]));
}

proof fn lemma_guarded(cfg: PolicyCfg, m: Mood, samples: Seq<Sample>)
    requires
        m.state == State::ThrashGuard,
        m.streak == 0,
        samples.len() < needed(cfg.exit_samples),
        forall|i: int| 0 <= i < samples.len() ==> is_calm(cfg, #[trigger] samples[i]),
    ensures
        run(cfg, m, samples).state == State::ThrashGuard,
        run(cfg, m, samples).streak == samples.len(),
    decreases samples.len(),
{
    if samples.len() > 0 {
        let t = samples.drop_last();
        assert forall|i: int| 0 <= i < t.len() implies is_calm(cfg, #[trigger] t[i]) by {
            assert(t[i] == samples[i]);
        }
        lemma_guarded(cfg, m, t);
        assert(is_calm(cfg, samples[samples.len() - 1]));
    }
}

/// While the guard is up, any sample that is not calm starts the count anew.
pub proof fn law_guard_is_held(cfg: PolicyCfg, m: Mood, s: Sample)
    requires
        m.state == State::ThrashGuard,
        !is_calm(cfg, s),
    ensures
        step(cfg, m, s).state == State::ThrashGuard,
        step(cfg, m, s).streak == 0,
{
}

/// The last `n` samples, as a condition on their positions.
pub open spec fn among_last(i: int, n: nat, samples: Seq<Sample>) -> bool {
    samples.len() - n <= i < samples.len()
}

/// What a streak says about the samples that led to it.
proof fn lemma_history(cfg: PolicyCfg, samples: Seq<Sample>)
    ensures
        ({
            let m = run(cfg, start(), samples);
            &&& sound(cfg, m)
            &&& m.streak <= samples.len()
            &&& m.state == State::ThrashGuard ==> forall|i: int|
                among_last(i, m.streak, samples) ==> is_calm(cfg, #[trigger] samples[i])
            &&& m.state != State::ThrashGuard && m.dir == 1 ==> forall|i: int|
                among_last(i, m.streak, samples) ==> pulls_up(cfg, m.state, #[trigger] samples[i])
            &&& m.state != State::ThrashGuard && m.dir == -1 ==> forall|i: int|
                among_last(i, m.streak, samples) ==> pulls_down(cfg, m.state, #[trigger] samples[i])
        }),
    decreases samples.len(),
{
    if samples.len() > 0 {
        let t = samples.drop_last();
        let before = run(cfg, start(), t);
        let m = run(cfg, start(), samples);
        lemma_history(cfg, t);
        let n = samples.len() - 1;
        assert forall|i: int| among_last(i, m.streak, samples) && m.state == State::ThrashGuard implies is_calm(
            cfg,
            #[trigger] samples[i],
        ) by {
            if i < n {
                assert(samples[i] == t[i]);
                assert(among_last(i, before.streak, t));
            }
        }
        assert forall|i: int|
            among_last(i, m.streak, samples) && m.state != State::ThrashGuard && m.dir == 1 implies pulls_up(
            cfg,
            m.state,
            #[trigger] samples[i],
        ) by {
            if i < n {
                assert(samples[i] == t[i]);
                assert(among_last(i, before.streak, t));
            }
        }
        assert forall|i: int|
            among_last(i, m.streak, samples) && m.state != State::ThrashGuard && m.dir == -1 implies pulls_down(
            cfg,
            m.state,
            #[trigger] samples[i],
        ) by {
            if i < n {
                assert(samples[i] == t[i]);
                assert(among_last(i, before.streak, t));
            }
        }
    }
}

/// Spikes do not escalate: whenever the state climbs the ladder, the last
/// `enter_samples` samples all demanded more than the state that was left.
pub proof fn law_no_escalation_on_a_spike(cfg: PolicyCfg, samples: Seq<Sample>)
    requires
        samples.len() > 0,
        ({
            let before = run(cfg, start(), samples.drop_last()).state;
            let after = run(cfg, start(), samples).state;
            after != State::ThrashGuard && after.rank() > before.rank()
        }),
    ensures
        samples.len() >= needed(cfg.enter_samples),
        forall|i: int|
            among_last(i, needed(cfg.enter_samples), samples) ==> pulls_up(
                cfg,
                run(cfg, start(), samples.drop_last()).state,
                #[trigger] samples[i],
            ),
{
    let t = samples.drop_last();
    let m = run(cfg, start(), t);
    lemma_history(cfg, t);
    assert forall|i: int| among_last(i, needed(cfg.enter_samples), samples) implies pulls_up(
        cfg,
        m.state,
        #[trigger] samples[i],
    ) by {
        if i < samples.len() - 1 {
            assert(samples[i] == t[i]);
            assert(among_last(i, m.streak, t));
        }
    }
}

/// One quiet sample does not relax: whenever the state descends the ladder, the
/// last `exit_samples` samples all demanded less than the state that was left.
pub proof fn law_no_relaxation_on_a_lull(cfg: PolicyCfg, samples: Seq<Sample>)
    requires
        samples.len() > 0,
        ({
            let before = run(cfg, start(), samples.drop_last()).state;
            let after = run(cfg, start(), samples).state;
            before != State::ThrashGuard && after.rank() < before.rank()
        }),
    ensures
        samples.len() >= needed(cfg.exit_samples),
        forall|i: int|
            among_last(i, needed(cfg.exit_samples), samples) ==> pulls_down(
                cfg,
                run(cfg, start(), samples.drop_last()).state,
                #[trigger] samples[i],
            ),
{
    let t = samples.drop_last();
    let m = run(cfg, start(), t);
    lemma_history(cfg, t);
    assert forall|i: int| among_last(i, needed(cfg.exit_samples), samples) implies pulls_down(
        cfg,
        m.state,
        #[trigger] samples[i],
    ) by {
        if i < samples.len() - 1 {
            assert(samples[i] == t[i]);
            assert(among_last(i, m.streak, t));
        }
    }
}

/// Whenever the guard is released, the last `exit_samples` samples were all
/// calm, and so is the state that follows.
pub proof fn law_no_early_release(cfg: PolicyCfg, samples: Seq<Sample>)
    requires
        samples.len() > 0,
        run(cfg, start(), samples.drop_last()).state == State::ThrashGuard,
        run(cfg, start(), samples).state != State::ThrashGuard,
    ensures
        run(cfg, start(), samples).state == State::Calm,
        samples.len() >= needed(cfg.exit_samples),
        forall|i: int|
            among_last(i, needed(cfg.exit_samples), samples) ==> is_calm(cfg, #[trigger] samples[i]),
{
    let t = samples.drop_last();
    let m = run(cfg, start(), t);
    lemma_history(cfg, t);
    assert forall|i: int| among_last(i, needed(cfg.exit_samples), samples) implies is_calm(
        cfg,
        #[trigger] samples[i],
    ) by {
        if i < samples.len() - 1 {
            assert(samples[i] == t[i]);
            assert(among_last(i, m.streak, t));
        }
    }
}

/// A quiet system stays calm, however long it is watched.
pub proof fn law_quiet_system_stays_calm(cfg: PolicyCfg, samples: Seq<Sample>)
    requires
        forall|i: int| 0 <= i < samples.len() ==> is_calm(cfg, #[trigger] samples[i]),
    ensures
        run(cfg, start(), samples).state == State::Calm,
        run(cfg, start(), samples).streak == 0,
    decreases samples.len(),
{
    if samples.len() > 0 {
        let t = samples.drop_last();
        assert forall|i: int| 0 <= i < t.len() implies is_calm(cfg, #[trigger] t[i]) by {
            assert(is_calm(cfg, samples[i]));
        }
        law_quiet_system_stays_calm(cfg, t);
        assert(is_calm(cfg, samples[samples.len() - 1]));
    }
}

/// Whether the policy comes to stand above `state` in the course of a run.
pub open spec fn climbs(cfg: PolicyCfg, m: Mood, samples: Seq<Sample>) -> bool {
    exists|j: int|
        0 <= j <= samples.len() && (#[trigger] run(cfg, m, samples.take(j))).state.rank()
            > m.state.rank()
}

/// Whether the policy comes to stand below `state` in the course of a run.
pub open spec fn descends(cfg: PolicyCfg, m: Mood, samples: Seq<Sample>) -> bool {
    exists|j: int|
        0 <= j <= samples.len() && (#[trigger] run(cfg, m, samples.take(j))).state.rank()
            < m.state.rank()
}

proof fn lemma_climbs(cfg: PolicyCfg, m: Mood, samples: Seq<Sample>)
    requires
        m.state != State::ThrashGuard,
        forall|i: int| 0 <= i < samples.len() ==> pulls_up(cfg, m.state, #[trigger] samples[i]),
    ensures
        climbs(cfg, m, samples) || ({
            let r = run(cfg, m, samples);
            &&& r.state == m.state
            &&& r.streak >= samples.len()
            &&& samples.len() > 0 ==> r.dir == 1
        }),
    decreases samples.len(),
{
    let n = samples.len() as int;
    assert(samples.take(n) == samples);
    if n > 0 {
        let t = samples.drop_last();
        assert forall|i: int| 0 <= i < t.len() implies pulls_up(cfg, m.state, #[trigger] t[i]) by {
            assert(pulls_up(cfg, m.state, samples[i]));
        }
        lemma_climbs(cfg, m, t);
        assert(pulls_up(cfg, m.state, samples[n - 1]));
        if climbs(cfg, m, t) {
            let j = choose|j: int|
                0 <= j <= t.len() && (#[trigger] run(cfg, m, t.take(j))).state.rank()
                    > m.state.rank();
            assert(t.take(j) == samples.take(j));
            assert(run(cfg, m, samples.take(j)).state.rank() > m.state.rank());
        } else {
            assert(run(cfg, m, samples.take(n)) == run(cfg, m, samples));
        }
    }
}

/// Sustained pressure moves the system: wherever the policy stands on the
/// ladder, and whatever it has been counting, `enter_samples` samples in a row
/// that demand more make it climb.
pub proof fn law_sustained_pressure_escalates(cfg: PolicyCfg, m: Mood, samples: Seq<Sample>)
    requires
        sound(cfg, m),
        m.state != State::ThrashGuard,
        samples.len() == needed(cfg.enter_samples),
        forall|i: int| 0 <= i < samples.len() ==> pulls_up(cfg, m.state, #[trigger] samples[i]),
    ensures
        climbs(cfg, m, samples),
{
    lemma_climbs(cfg, m, samples);
    law_streaks_stay_short(cfg, m, samples);
}

proof fn lemma_descends(cfg: PolicyCfg, m: Mood, samples: Seq<Sample>, guarded: bool)
    requires
        guarded == (m.state == State::ThrashGuard),
        forall|i: int|
            0 <= i < samples.len() ==> (if guarded {
                is_calm(cfg, #[trigger] samples[i])
            } else {
                pulls_down(cfg, m.state, samples[i])
            }),
    ensures
        descends(cfg, m, samples) || ({
            let r = run(cfg, m, samples);
            &&& r.state == m.state
            &&& r.streak >= samples.len()
            &&& !guarded && samples.len() > 0 ==> r.dir == -1
        }),
    decreases samples.len(),
{
    let n = samples.len() as int;
    assert(samples.take(n) == samples);
    if n > 0 {
        let t = samples.drop_last();
        assert forall|i: int| 0 <= i < t.len() implies (if guarded {
            is_calm(cfg, #[trigger] t[i])
        } else {
            pulls_down(cfg, m.state, t[i])
        }) by {
            assert(t[i] == samples[i]);
        }
        lemma_descends(cfg, m, t, guarded);
        assert(samples[n - 1] == samples.last());
        if descends(cfg, m, t) {
            let j = choose|j: int|
                0 <= j <= t.len() && (#[trigger] run(cfg, m, t.take(j))).state.rank()
                    < m.state.rank();
            assert(t.take(j) == samples.take(j));
            assert(run(cfg, m, samples.take(j)).state.rank() < m.state.rank());
        } else {
            assert(run(cfg, m, samples.take(n)) == run(cfg, m, samples));
        }
    }
}

/// A system that stays quiet relaxes: wherever the policy stands on the ladder,
/// and whatever it has been counting, `exit_samples` samples in a row that
/// demand less make it descend.
pub proof fn law_lasting_quiet_relaxes(cfg: PolicyCfg, m: Mood, samples: Seq<Sample>)
    requires
        sound(cfg, m),
        m.state != State::ThrashGuard,
        samples.len() == needed(cfg.exit_samples),
        forall|i: int| 0 <= i < samples.len() ==> pulls_down(cfg, m.state, #[trigger] samples[i]),
    ensures
        descends(cfg, m, samples),
{
    lemma_descends(cfg, m, samples, false);
    law_streaks_stay_short(cfg, m, samples);
}

/// A guard does not stay up for ever: whatever it has been counting,
/// `exit_samples` calm samples in a row release it.
pub proof fn law_lasting_calm_releases(cfg: PolicyCfg, m: Mood, samples: Seq<Sample>)
    requires
        sound(cfg, m),
        m.state == State::ThrashGuard,
        samples.len() == needed(cfg.exit_samples),
        forall|i: int| 0 <= i < samples.len() ==> is_calm(cfg, #[trigger] samples[i]),
    ensures
        descends(cfg, m, samples),
{
    lemma_descends(cfg, m, samples, true);
    law_streaks_stay_short(cfg, m, samples);
}

/// More stalls and less available memory never demand a milder state.
pub proof fn law_worse_demands_no_less(cfg: PolicyCfg, s: Sample, worse: Sample)
    requires
        leq(s.psi_some_avg10, worse.psi_some_avg10),
        leq(worse.mem_available_pct, s.mem_available_pct),
    ensures
        demanded(cfg, s).rank() <= demanded(cfg, worse).rank(),
{
}

/// In a valid policy whose threshold for stalls is a number, what is critical is
/// pressured too.
pub proof fn law_critical_is_pressured_too(cfg: PolicyCfg, s: Sample)
    requires
        cfg.fault() is None,
        !cfg.psi_pressure_threshold.is_nan(),
    ensures
        stalls_critical(cfg, s) ==> stalls_pressured(cfg, s),
        memory_critical(cfg, s) ==> memory_pressured(cfg, s),
{
}

/// The guard needs swap-in saturation and full stalls together: a sample raises
/// it exactly if its swap-in rate and its full stalls both reach their limits.
/// While the guard is up, such a sample keeps it up.
pub proof fn law_guard_takes_rate_and_stalls(p: &mut Policy, s: Sample, d: Decision)
    requires
        call_ensures(Policy::evaluate, (p, &s), d),
    ensures
        ({
            let cfg = old(p).cfg();
            let saturated = leq(cfg.thrash_swapin_kbs, s.swapin_kbs);
            let stalled = leq(cfg.thrash_psi_full_avg10, s.psi_full_avg10);
            &&& old(p)@.state != State::ThrashGuard ==> (d.state == State::ThrashGuard <==> saturated
                && stalled)
            &&& old(p)@.state != State::ThrashGuard && !stalled ==> d.state != State::ThrashGuard
            &&& old(p)@.state != State::ThrashGuard && !saturated ==> d.state != State::ThrashGuard
            &&& saturated && stalled ==> d.state == State::ThrashGuard
        }),
{
}

/// Whether the swap-in rate and the full stalls of a sample both reach their
/// limits.
pub open spec fn saturated_and_stalled(cfg: PolicyCfg, s: Sample) -> bool {
    leq(cfg.thrash_swapin_kbs, s.swapin_kbs) && leq(cfg.thrash_psi_full_avg10, s.psi_full_avg10)
}

/// Outside the guard, and without a sample that raises it, the policy moves only
/// to the state that the sample itself demands: critical where the stalls or the
/// available memory reach a critical limit, else pressured where one of them
/// reaches the limit for that, else calm. Where that is the state already,
/// nothing moves.
pub proof fn law_state_follows_the_sample(p: &mut Policy, s: Sample, d: Decision)
    requires
        call_ensures(Policy::evaluate, (p, &s), d),
        old(p)@.state != State::ThrashGuard,
        !saturated_and_stalled(old(p).cfg(), s),
    ensures
        ({
            let cfg = old(p).cfg();
            let critical = leq(cfg.psi_critical_threshold, s.psi_some_avg10) || leq(
                s.mem_available_pct,
                cfg.mem_critical_available_pct,
            );
            let pressured = leq(cfg.psi_pressure_threshold, s.psi_some_avg10) || leq(
                s.mem_available_pct,
                cfg.mem_pressure_available_pct,
            );
            let target = if critical {
                State::Critical
            } else if pressured {
                State::Pressured
            } else {
                State::Calm
            };
            &&& d.state == target || d.state == old(p)@.state
            &&& d.state == State::Critical && old(p)@.state != State::Critical ==> critical
            &&& d.state == State::Pressured && old(p)@.state != State::Pressured ==> pressured
                && !critical
            &&& d.state == State::Calm && old(p)@.state != State::Calm ==> !pressured && !critical
        }),
{
}

/// With counts of at most one, every sample outside the guard moves the policy
/// at once to the state that the sample demands.
pub proof fn law_counts_of_one_follow_at_once(p: &mut Policy, s: Sample, d: Decision)
    requires
        call_ensures(Policy::evaluate, (p, &s), d),
        old(p)@.state != State::ThrashGuard,
        !saturated_and_stalled(old(p).cfg(), s),
        old(p).cfg().enter_samples <= 1,
        old(p).cfg().exit_samples <= 1,
    ensures
        ({
            let cfg = old(p).cfg();
            let critical = leq(cfg.psi_critical_threshold, s.psi_some_avg10) || leq(
                s.mem_available_pct,
                cfg.mem_critical_available_pct,
            );
            let pressured = leq(cfg.psi_pressure_threshold, s.psi_some_avg10) || leq(
                s.mem_available_pct,
                cfg.mem_pressure_available_pct,
            );
            &&& critical ==> d.state == State::Critical
            &&& pressured && !critical ==> d.state == State::Pressured
            &&& !pressured && !critical ==> d.state == State::Calm
        }),
{
}

/// A guard goes down only to calm, and only on a sample that meets no limit at
/// all but perhaps one of the guard's two.
pub proof fn law_guard_goes_down_to_calm(p: &mut Policy, s: Sample, d: Decision)
    requires
        call_ensures(Policy::evaluate, (p, &s), d),
        old(p)@.state == State::ThrashGuard,
        d.state != State::ThrashGuard,
    ensures
        d.state == State::Calm,
        !saturated_and_stalled(old(p).cfg(), s),
        !leq(old(p).cfg().psi_critical_threshold, s.psi_some_avg10),
        !leq(old(p).cfg().psi_pressure_threshold, s.psi_some_avg10),
        !leq(s.mem_available_pct, old(p).cfg().mem_critical_available_pct),
        !leq(s.mem_available_pct, old(p).cfg().mem_pressure_available_pct),
{
}

/// The three milder states that a sample can demand, on the fields of the
/// sample and the limits.
pub proof fn law_demands(cfg: PolicyCfg, s: Sample)
    ensures
        demanded(cfg, s) == State::Critical <==> leq(
            cfg.psi_critical_threshold,
            s.psi_some_avg10,
        ) || leq(s.mem_available_pct, cfg.mem_critical_available_pct),
        demanded(cfg, s) == State::Calm <==> !leq(cfg.psi_critical_threshold, s.psi_some_avg10)
            && !leq(s.mem_available_pct, cfg.mem_critical_available_pct) && !leq(
            cfg.psi_pressure_threshold,
            s.psi_some_avg10,
        ) && !leq(s.mem_available_pct, cfg.mem_pressure_available_pct),
        demanded(cfg, s) != State::ThrashGuard,
        thrashing(cfg, s) <==> saturated_and_stalled(cfg, s),
        State::Calm.rank() < State::Pressured.rank() < State::Critical.rank()
            < State::ThrashGuard.rank(),
{
}

/// A decision tells the state that the policy is then in, whether it is a new
/// one, and the two settings that the configuration has for that state.
pub proof fn law_decision(p: &mut Policy, s: Sample, d: Decision)
    requires
        call_ensures(Policy::evaluate, (p, &s), d),
    ensures
        final(p).cfg() == old(p).cfg(),
        final(p)@.state == d.state,
        d.changed <==> d.state != old(p)@.state,
        d.state == State::Calm ==> d.swappiness == old(p).cfg().swappiness_calm && d.cache_pressure
            == old(p).cfg().cache_pressure_calm,
        d.state == State::Pressured ==> d.swappiness == old(p).cfg().swappiness_pressured
            && d.cache_pressure == old(p).cfg().cache_pressure_pressured,
        d.state == State::Critical ==> d.swappiness == old(p).cfg().swappiness_critical
            && d.cache_pressure == old(p).cfg().cache_pressure_pressured,
        d.state == State::ThrashGuard ==> d.swappiness == old(p).cfg().swappiness_thrash_guard
            && d.cache_pressure == old(p).cfg().cache_pressure_pressured,
{
}

/// A run of samples, each taken in by the policy where the one before left it:
/// where it stands afterwards is what `run` says.
pub proof fn law_runs_are_made_of_evaluations(
    p: &mut Policy,
    m: Mood,
    samples: Seq<Sample>,
    s: Sample,
    d: Decision,
)
    requires
        call_ensures(Policy::evaluate, (p, &s), d),
        old(p)@ == run(old(p).cfg(), m, samples),
    ensures
        final(p)@ == run(old(p).cfg(), m, samples.push(s)),
        d.state == run(old(p).cfg(), m, samples.push(s)).state,
{
    assert(samples.push(s).drop_last() == samples);
}

/// A new policy is calm, and counts nothing.
pub proof fn law_a_new_policy_is_calm(cfg: PolicyCfg, p: Policy)
    requires
        call_ensures(Policy::new, (cfg,), p),
    ensures
        p.cfg() == cfg,
        p@.state == State::Calm,
        p@.streak == 0,
        p@ == run(cfg, start(), seq![]),
{
}

/// A fresh policy that sees one sample is in the guard if that sample raises it;
/// else it is still calm, unless one demanding sample is enough.
pub proof fn law_first_sample(cfg: PolicyCfg, fresh: Policy, p: &mut Policy, s: Sample, d: Decision)
    requires
        call_ensures(Policy::new, (cfg,), fresh),
        *old(p) == fresh,
        call_ensures(Policy::evaluate, (p, &s), d),
        cfg.enter_samples >= 2,
    ensures
        d.state == State::ThrashGuard || d.state == State::Calm,
        d.state == State::ThrashGuard <==> leq(cfg.thrash_swapin_kbs, s.swapin_kbs) && leq(
            cfg.thrash_psi_full_avg10,
            s.psi_full_avg10,
        ),
        d.changed <==> d.state == State::ThrashGuard,
        d.state == State::Calm ==> d.swappiness == cfg.swappiness_calm && d.cache_pressure
            == cfg.cache_pressure_calm,
{
}

/// What a decision says of its reason, on the fields of the sample, the limits
/// and the counts.
pub proof fn law_reasons(p: &mut Policy, s: Sample, d: Decision)
    requires
        call_ensures(Policy::evaluate, (p, &s), d),
    ensures
        ({
            let cfg = old(p).cfg();
            let guard = saturated_and_stalled(cfg, s);
            let was = old(p)@.state;
            let low = leq(s.mem_available_pct, cfg.mem_critical_available_pct);
            let stalls = leq(cfg.psi_critical_threshold, s.psi_some_avg10);
            let lowish = leq(s.mem_available_pct, cfg.mem_pressure_available_pct);
            let some_stalls = leq(cfg.psi_pressure_threshold, s.psi_some_avg10);
            let memory = "mem_available "@ + fixed(s.mem_available_pct, 1) + "% <= "@;
            let psi = "psi_some_avg10 "@ + fixed(s.psi_some_avg10, 1) + " >= "@;
            let why = if low {
                memory + fixed(cfg.mem_critical_available_pct, 1) + "%"@
            } else if stalls {
                psi + fixed(cfg.psi_critical_threshold, 1)
            } else if lowish {
                memory + fixed(cfg.mem_pressure_available_pct, 1) + "%"@
            } else {
                psi + fixed(cfg.psi_pressure_threshold, 1)
            };
            let n = decimal(final(p)@.streak);
            let quiet = !low && !stalls && !lowish && !some_stalls;
            let up = was == State::Calm && !quiet || was == State::Pressured && (low || stalls);
            let down = was == State::Pressured && quiet || was == State::Critical && !low && !stalls;
            &&& guard ==> d.reason@ == "thrash guard: swap-in "@ + fixed(s.swapin_kbs, 0)
                + " KiB/s with psi_full_avg10 "@ + fixed(s.psi_full_avg10, 1)
            &&& !guard && was == State::ThrashGuard && !quiet ==> d.reason@
                == "guard held: pressure persists"@
            &&& !guard && was == State::ThrashGuard && quiet && d.changed ==> d.reason@
                == "guard released: system calm"@
            &&& !guard && was == State::ThrashGuard && quiet && !d.changed ==> d.reason@
                == "guard cooling down "@ + ("("@ + n + "/"@ + decimal(cfg.exit_samples as nat)
                + ")"@)
            &&& !guard && up && d.changed ==> d.reason@ == "escalating: "@ + why
            &&& !guard && up && !d.changed ==> d.reason@ == "pressure rising "@ + ("("@ + n + "/"@
                + decimal(cfg.enter_samples as nat) + ")"@) + ": "@ + why
            &&& !guard && down && d.changed ==> d.reason@ == "relaxing"@
            &&& !guard && down && !d.changed ==> d.reason@ == "cooling down "@ + ("("@ + n + "/"@
                + decimal(cfg.exit_samples as nat) + ")"@)
            &&& !guard && was != State::ThrashGuard && !up && !down ==> d.reason@ == "steady state"@
        }),
{
}

/// The states have their places on the ladder, calm at its foot.
pub proof fn law_severities(state: State, r: u8)
    requires
        call_ensures(State::severity, (state,), r),
    ensures
        state == State::Calm <==> r == 0,
        state == State::Pressured <==> r == 1,
        state == State::Critical <==> r == 2,
        state == State::ThrashGuard <==> r == 3,
{
}

/// A policy that is asked for its state tells the one that it decided last.
pub proof fn law_state_is_told(p: &mut Policy, s: Sample, d: Decision, r: State)
    requires
        call_ensures(Policy::evaluate, (p, &s), d),
        call_ensures(Policy::state, (&*final(p),), r),
    ensures
        r == d.state,
{
}

} // verus!
