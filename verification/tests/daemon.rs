//! The control loop and its watchdog.

use umami::config::{Config, PolicyCfg};
use umami::daemon::{
    admitted, apply, cache_pressure_unset, load_refused, start_message, state_name, swappiness_unset,
    tunable_writes, Daemon, Tick,
};
use umami::double::Double;
use umami::log::{Level, Message};
use umami::policy::State;
use umami::procfs::Sample;
use umami::tiers::Action;

fn double(x: f64) -> Double {
    Double::from_bits(x.to_bits())
}

fn sample(avail_pct: f64, psi_some: f64, psi_full: f64, swapin: f64) -> Sample {
    Sample {
        mem_available_pct: double(avail_pct),
        swap_used_pct: double(33.333),
        psi_some_avg10: double(psi_some),
        psi_full_avg10: double(psi_full),
        swapin_kbs: double(swapin),
        swapout_kbs: double(12.5),
    }
}

fn quiet() -> Sample {
    sample(50.0, 0.0, 0.0, 0.0)
}

fn busy() -> Sample {
    sample(12.0, 8.0, 1.0, 7.6)
}

fn daemon(device: &str) -> Daemon {
    Daemon::new(Config::default().policy(), device)
}

fn pair(actions: &Option<(Action, Action)>) -> Option<(String, String)> {
    let show = |a: &Action| match a {
        Action::Write(path, text) => format!("{} <- {}", path, text),
        _ => panic!("not a write"),
    };
    actions.as_ref().map(|(first, second)| (show(first), show(second)))
}

fn writes(swappiness: u32, cache_pressure: u32) -> Option<(String, String)> {
    Some((
        format!("/proc/sys/vm/swappiness <- {}", swappiness),
        format!("/proc/sys/vm/vfs_cache_pressure <- {}", cache_pressure),
    ))
}

fn silent(t: &Tick) -> bool {
    t.notice.is_none() && !t.rearm && t.change.is_none()
}

#[test]
fn targets_are_written_only_when_they_change() {
    let (d, t) = daemon("").tick(&quiet(), true);
    assert!(silent(&t));
    assert_eq!(t.write, Some((60, 100)));
    let (d, t) = d.tick(&quiet(), true);
    assert!(silent(&t));
    assert_eq!(t.write, None);
    let (d, t) = d.tick(&busy(), true);
    assert_eq!(t.write, None);
    assert!(t.actions.is_none());
    let (d, t) = d.tick(&busy(), true);
    assert_eq!(t.write, Some((120, 50)));
    assert_eq!(pair(&t.actions), writes(120, 50));
    let (_, t) = d.tick(&busy(), true);
    assert_eq!(t.write, None);
    assert!(t.actions.is_none());
}

#[test]
fn a_change_of_state_is_told() {
    let (d, _) = daemon("").tick(&busy(), true);
    let (_, t) = d.tick(&busy(), true);
    let m = t.change.unwrap();
    assert_eq!(m.level, Level::Info);
    assert_eq!(
        m.text,
        "state -> Pressured: escalating: mem_available 12.0% <= 15.0% (swappiness=120, cache_pressure=50, \
         avail=12.0%, swap_used=33.3%, psi_some=8.0, psi_full=1.0, in=8KiB/s, out=12KiB/s)"
    );
}

#[test]
fn the_watchdog_pins_swappiness() {
    let (d, _) = daemon("/dev/sdb1").tick(&quiet(), true);
    let (d, t) = d.tick(&busy(), false);
    let m = t.notice.unwrap();
    assert_eq!(m.level, Level::Error);
    assert_eq!(m.text, "umami tier /dev/sdb1 disconnected; pinning swappiness to 10");
    assert!(!t.rearm);
    assert!(t.change.is_none());
    assert_eq!(t.write, Some((10, 50)));
    // The outage lasts: nothing more to say or to write, and the policy rests.
    let (d, t) = d.tick(&busy(), false);
    assert!(silent(&t));
    assert_eq!(t.write, None);
    let (d, t) = d.tick(&busy(), false);
    assert!(silent(&t));
    // Back again: the tiers are brought up, and the policy goes on where it was.
    let (d, t) = d.tick(&quiet(), true);
    let m = t.notice.unwrap();
    assert_eq!(m.level, Level::Info);
    assert_eq!(m.text, "umami tier is back; re-arming");
    assert!(t.rearm);
    assert!(t.change.is_none());
    assert_eq!(t.write, Some((60, 100)));
    let (_, t) = d.tick(&quiet(), true);
    assert!(silent(&t));
    assert_eq!(t.write, None);
}

#[test]
fn an_outage_does_not_move_the_policy() {
    let (d, _) = daemon("/dev/sdb1").tick(&busy(), true); // 1/2
    let (d, _) = d.tick(&quiet(), false); // not seen
    let (_, t) = d.tick(&busy(), true); // 2/2
    assert!(t.change.is_some());
    assert_eq!(t.write, Some((120, 50)));
}

#[test]
fn an_outage_at_the_start_is_told() {
    let (_, t) = daemon("/dev/sdb1").tick(&quiet(), false);
    assert!(t.notice.is_some());
    assert_eq!(t.write, Some((10, 50)));
}

#[test]
fn a_tier_that_is_not_managed_is_not_missed() {
    let (d, t) = daemon("").tick(&quiet(), false);
    assert!(silent(&t));
    assert_eq!(t.write, Some((60, 100)));
    let (_, t) = d.tick(&quiet(), false);
    assert!(silent(&t));
    assert_eq!(t.write, None);
}

#[test]
fn the_guard_backs_off_at_once() {
    let (_, t) = daemon("").tick(&sample(50.0, 0.0, 6.0, 60000.0), true);
    assert_eq!(t.write, Some((30, 50)));
    assert!(t.change.unwrap().text.starts_with(
        "state -> ThrashGuard: thrash guard: swap-in 60000 KiB/s with psi_full_avg10 6.0 (swappiness=30,"
    ));
}

#[test]
fn apply_notes_the_target() {
    let mut applied = None;
    assert_eq!(pair(&apply(60, 100, &mut applied)), writes(60, 100));
    assert_eq!(applied, Some((60, 100)));
    assert!(apply(60, 100, &mut applied).is_none());
    assert_eq!(applied, Some((60, 100)));
    // Both are written, even if only one of them has changed.
    assert_eq!(pair(&apply(60, 50, &mut applied)), writes(60, 50));
    assert_eq!(pair(&apply(10, 50, &mut applied)), writes(10, 50));
    assert_eq!(applied, Some((10, 50)));
}

#[test]
fn states_have_names() {
    for s in [State::Calm, State::Pressured, State::Critical, State::ThrashGuard] {
        assert_eq!(state_name(s), format!("{:?}", s));
    }
}

#[test]
fn tunables_that_cannot_be_set_are_told() {
    let m = cache_pressure_unset(50, "boom");
    assert_eq!(m.level, Level::Warn);
    assert_eq!(m.text, "cannot set vfs_cache_pressure=50: boom");
    let m = swappiness_unset(60, "Permission denied (os error 13)");
    assert_eq!(m.level, Level::Warn);
    assert_eq!(m.text, "cannot set swappiness=60: Permission denied (os error 13)");
}

#[test]
fn the_start_is_told() {
    let cfg = Config::from_str("[tiers]\numami_device = \"/dev/sdb1\"\n").unwrap();
    let m = start_message(&cfg.tiers());
    assert_eq!(m.level, Level::Info);
    assert_eq!(m.text, "umami starting: zram=8192MiB flash=/dev/sdb1 fallback=unmanaged");
}

#[test]
fn tunables_are_written_in_order() {
    assert_eq!(pair(&Some(tunable_writes((7, 9)))), writes(7, 9));
}

fn refused(r: Result<PolicyCfg, (u8, Message)>) -> (u8, String) {
    match r {
        Ok(_) => panic!("admitted"),
        Err((code, m)) => {
            assert_eq!(m.level, Level::Error);
            (code, m.text)
        }
    }
}

#[test]
fn the_daemon_starts_with_a_valid_policy_only() {
    let p = admitted(&Ok(Config::default())).unwrap();
    assert_eq!(p.swappiness_calm, 60);
    let e = admitted(&Err("x: line 1: empty section name".to_string()));
    assert_eq!(refused(e), (2, "failed to load config: x: line 1: empty section name".to_string()));
    let bad = Config::from_str("[policy]\nthrash_swapin_kbs = 0\n").unwrap();
    assert_eq!(
        refused(admitted(&Ok(bad))),
        (2, "invalid policy config: thrash_swapin_kbs must be positive".to_string())
    );
    let (code, m) = load_refused("boom");
    assert_eq!((code, m.text.as_str()), (2, "failed to load config: boom"));
}
