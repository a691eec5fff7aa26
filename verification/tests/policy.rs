//! The control policy.

use umami::config::{Config, PolicyCfg};
use umami::double::Double;
use umami::policy::{Policy, State};
use umami::procfs::Sample;

fn test_cfg() -> PolicyCfg {
    Config::from_str("").unwrap().policy()
}

fn double(x: f64) -> Double {
    Double::from_bits(x.to_bits())
}

fn sample(avail_pct: f64, psi_some: f64, psi_full: f64, swapin: f64) -> Sample {
    Sample {
        mem_available_pct: double(avail_pct),
        swap_used_pct: double(0.0),
        psi_some_avg10: double(psi_some),
        psi_full_avg10: double(psi_full),
        swapin_kbs: double(swapin),
        swapout_kbs: double(0.0),
    }
}

#[test]
fn stays_calm_on_quiet_system() {
    let mut p = Policy::new(test_cfg());
    for _ in 0..20 {
        let d = p.evaluate(&sample(50.0, 0.5, 0.0, 0.0));
        assert_eq!(d.state, State::Calm);
        assert_eq!(d.swappiness, 60);
        assert!(!d.changed);
    }
}

#[test]
fn escalates_only_after_enter_samples() {
    let mut p = Policy::new(test_cfg());
    let d1 = p.evaluate(&sample(50.0, 8.0, 1.0, 0.0)); // pressure, 1/2
    assert_eq!(d1.state, State::Calm);
    assert!(!d1.changed);
    let d2 = p.evaluate(&sample(50.0, 8.0, 1.0, 0.0)); // pressure, 2/2
    assert_eq!(d2.state, State::Pressured);
    assert!(d2.changed);
    assert_eq!(d2.swappiness, 120);
    assert_eq!(d2.cache_pressure, 50);
}

#[test]
fn spike_does_not_escalate() {
    let mut p = Policy::new(test_cfg());
    p.evaluate(&sample(50.0, 8.0, 1.0, 0.0)); // 1/2
    let d = p.evaluate(&sample(50.0, 0.0, 0.0, 0.0)); // quiet again
    assert_eq!(d.state, State::Calm);
    let d = p.evaluate(&sample(50.0, 8.0, 1.0, 0.0)); // fresh streak 1/2
    assert_eq!(d.state, State::Calm);
}

#[test]
fn critical_maps_to_max_swappiness() {
    let mut p = Policy::new(test_cfg());
    p.evaluate(&sample(3.0, 25.0, 10.0, 0.0));
    let d = p.evaluate(&sample(3.0, 25.0, 10.0, 0.0));
    assert_eq!(d.state, State::Critical);
    assert_eq!(d.swappiness, 180);
}

#[test]
fn relaxes_only_after_exit_samples() {
    let mut p = Policy::new(test_cfg());
    p.evaluate(&sample(50.0, 8.0, 1.0, 0.0));
    p.evaluate(&sample(50.0, 8.0, 1.0, 0.0));
    assert_eq!(p.state(), State::Pressured);
    for i in 1..10 {
        let d = p.evaluate(&sample(50.0, 0.0, 0.0, 0.0));
        assert_eq!(d.state, State::Pressured, "sample {} should still be pressured", i);
    }
    let d = p.evaluate(&sample(50.0, 0.0, 0.0, 0.0));
    assert_eq!(d.state, State::Calm);
    assert_eq!(d.swappiness, 60);
}

#[test]
fn thrash_guard_enters_immediately_and_backs_off() {
    let mut p = Policy::new(test_cfg());
    // Sustained pressure first, then the flash tier saturates.
    p.evaluate(&sample(10.0, 8.0, 6.0, 100.0));
    let d = p.evaluate(&sample(10.0, 8.0, 6.0, 60000.0));
    assert_eq!(d.state, State::ThrashGuard);
    assert!(d.changed);
    assert_eq!(d.swappiness, 30); // backoff: stop feeding the flash tier
}

#[test]
fn thrash_guard_needs_calm_streak_to_release() {
    let mut p = Policy::new(test_cfg());
    p.evaluate(&sample(10.0, 8.0, 6.0, 60000.0));
    assert_eq!(p.state(), State::ThrashGuard);
    // Pressure persists: guard must not release.
    let d = p.evaluate(&sample(10.0, 8.0, 1.0, 0.0));
    assert_eq!(d.state, State::ThrashGuard);
    // Now calm: requires exit_samples before release.
    for _ in 0..9 {
        assert_eq!(p.evaluate(&sample(50.0, 0.0, 0.0, 0.0)).state, State::ThrashGuard);
    }
    assert_eq!(p.evaluate(&sample(50.0, 0.0, 0.0, 0.0)).state, State::Calm);
}

#[test]
fn reasons_tell_what_was_measured() {
    let mut p = Policy::new(test_cfg());
    let reasons: Vec<String> = vec![
        sample(50.0, 0.5, 0.0, 0.0),
        sample(50.0, 8.04, 1.0, 0.0),
        sample(12.25, 8.0, 1.0, 0.0),
        sample(50.0, 25.0, 1.0, 0.0),
        sample(3.0, 25.0, 1.0, 0.0),
        sample(50.0, 0.0, 0.0, 0.0),
        sample(50.0, 0.0, 7.5, 60000.4),
        sample(50.0, 0.0, 0.0, 0.0),
        sample(50.0, 6.0, 0.0, 0.0),
    ]
    .iter()
    .map(|s| p.evaluate(s).reason)
    .collect();
    assert_eq!(
        reasons,
        vec![
            "steady state",
            "pressure rising (1/2): psi_some_avg10 8.0 >= 5.0",
            "escalating: mem_available 12.2% <= 15.0%",
            "pressure rising (1/2): psi_some_avg10 25.0 >= 20.0",
            "escalating: mem_available 3.0% <= 5.0%",
            "cooling down (1/10)",
            "thrash guard: swap-in 60000 KiB/s with psi_full_avg10 7.5",
            "guard cooling down (1/10)",
            "guard held: pressure persists",
        ]
    );
    for _ in 0..9 {
        p.evaluate(&sample(50.0, 0.0, 0.0, 0.0));
    }
    let d = p.evaluate(&sample(50.0, 0.0, 0.0, 0.0));
    assert_eq!(d.reason, "guard released: system calm");
    assert!(d.changed);
}

#[test]
fn relaxing_goes_to_what_the_last_sample_demands() {
    let mut p = Policy::new(test_cfg());
    p.evaluate(&sample(3.0, 0.0, 0.0, 0.0));
    p.evaluate(&sample(3.0, 0.0, 0.0, 0.0));
    assert_eq!(p.state(), State::Critical);
    for _ in 0..9 {
        p.evaluate(&sample(50.0, 0.0, 0.0, 0.0));
    }
    let d = p.evaluate(&sample(10.0, 0.0, 0.0, 0.0));
    assert_eq!(d.state, State::Pressured);
    assert_eq!(d.reason, "relaxing");
    assert_eq!(d.swappiness, 120);
}

#[test]
fn thresholds_are_met_at_equality() {
    let mut p = Policy::new(test_cfg());
    p.evaluate(&sample(15.0, 0.0, 0.0, 0.0));
    assert_eq!(p.evaluate(&sample(50.0, 5.0, 0.0, 0.0)).state, State::Pressured);
    p.evaluate(&sample(5.0, 0.0, 0.0, 0.0));
    assert_eq!(p.evaluate(&sample(50.0, 20.0, 0.0, 0.0)).state, State::Critical);
    assert_eq!(p.evaluate(&sample(50.0, 0.0, 5.0, 51200.0)).state, State::ThrashGuard);
}

#[test]
fn what_is_not_a_number_meets_no_threshold() {
    let mut p = Policy::new(test_cfg());
    for _ in 0..5 {
        let d = p.evaluate(&sample(f64::NAN, f64::NAN, f64::NAN, f64::NAN));
        assert_eq!(d.state, State::Calm);
    }
    let mut cfg = test_cfg();
    cfg.psi_pressure_threshold = double(f64::NAN);
    assert!(cfg.validate().is_ok());
    let mut p = Policy::new(cfg);
    p.evaluate(&sample(50.0, 10.0, 0.0, 0.0));
    assert_eq!(p.evaluate(&sample(50.0, 10.0, 0.0, 0.0)).state, State::Calm);
}

#[test]
fn severities_order_the_ladder() {
    assert_eq!(State::Calm.severity(), 0);
    assert_eq!(State::Pressured.severity(), 1);
    assert_eq!(State::Critical.severity(), 2);
    assert_eq!(State::ThrashGuard.severity(), 3);
}

#[test]
fn a_count_of_one_moves_at_once() {
    let cfg = Config::from_str("[policy]\nenter_samples = 1\nexit_samples = 1\n").unwrap().policy();
    let mut p = Policy::new(cfg);
    assert_eq!(p.evaluate(&sample(50.0, 8.0, 0.0, 0.0)).state, State::Pressured);
    assert_eq!(p.evaluate(&sample(50.0, 0.0, 0.0, 0.0)).state, State::Calm);
    p.evaluate(&sample(50.0, 0.0, 6.0, 60000.0));
    assert_eq!(p.evaluate(&sample(50.0, 0.0, 0.0, 0.0)).state, State::Calm);
}

#[test]
fn a_lull_does_not_relax() {
    let mut p = Policy::new(test_cfg());
    p.evaluate(&sample(50.0, 8.0, 1.0, 0.0));
    p.evaluate(&sample(50.0, 8.0, 1.0, 0.0));
    for _ in 0..9 {
        p.evaluate(&sample(50.0, 0.0, 0.0, 0.0));
    }
    p.evaluate(&sample(50.0, 8.0, 1.0, 0.0)); // the count starts anew
    for _ in 0..9 {
        assert_eq!(p.evaluate(&sample(50.0, 0.0, 0.0, 0.0)).state, State::Pressured);
    }
    assert_eq!(p.evaluate(&sample(50.0, 0.0, 0.0, 0.0)).state, State::Calm);
}

#[test]
fn a_streak_of_another_kind_does_not_help() {
    let mut p = Policy::new(test_cfg());
    p.evaluate(&sample(50.0, 8.0, 1.0, 0.0));
    p.evaluate(&sample(50.0, 8.0, 1.0, 0.0));
    p.evaluate(&sample(50.0, 0.0, 0.0, 0.0)); // cooling 1/10
    assert_eq!(p.evaluate(&sample(3.0, 0.0, 0.0, 0.0)).reason, "pressure rising (1/2): mem_available 3.0% <= 5.0%");
    assert_eq!(p.evaluate(&sample(3.0, 0.0, 0.0, 0.0)).state, State::Critical);
}

#[test]
fn worse_samples_demand_no_less() {
    let mut last = 0;
    for psi in [0.0, 4.9, 5.0, 12.0, 19.9, 20.0, 90.0] {
        let mut p = Policy::new(test_cfg());
        p.evaluate(&sample(50.0, psi, 0.0, 0.0));
        let now = p.evaluate(&sample(50.0, psi, 0.0, 0.0)).state.severity();
        assert!(now >= last);
        last = now;
    }
    assert_eq!(last, 2);
}
