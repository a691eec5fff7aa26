//! Bringing the tiers up and down.

use umami::bringup::{ensure_tiers, Bringup, Task, UpStage};
use umami::config::{Config, TiersCfg};
use umami::log::{Level, Message};
use umami::teardown::{restore, restored, teardown_plan, Chore};
use umami::tiers::{
    active_swaps, failure_text, mkswap, swapoff, swapon, sysctl_read, sysctl_write, Action, CACHE_PRESSURE, SWAPPINESS,
};
use umami::zram::{zram_setup, zram_teardown, DownStage, InvalidInput, Stage, ZramSetup};

fn show(a: &Action) -> String {
    match a {
        Action::Probe(p) => format!("probe {}", p),
        Action::Run(c, args) => format!("run {} {}", c, args.join(" ")),
        Action::Read(p) => format!("read {}", p),
        Action::Write(p, t) => format!("write {} <- {}", p, t),
    }
}

fn ok(s: &str) -> Result<String, String> {
    Ok(s.to_string())
}

fn err(s: &str) -> Result<String, String> {
    Err(s.to_string())
}

/// Carries a setup through; steps whose text holds `bad` fail.
fn set_up(mut z: ZramSetup, bad: &[&str]) -> (Vec<String>, Result<String, String>) {
    let mut steps = Vec::new();
    loop {
        match z.action() {
            Some(a) => {
                let s = show(&a);
                let o = if bad.iter().any(|b| s.contains(b)) {
                    err(&format!("failed: {}", s))
                } else if s.starts_with("read") {
                    ok(" 3\n")
                } else {
                    ok("")
                };
                steps.push(s);
                z = z.advance(o);
            }
            None => match z.stage {
                Stage::Done(o) => return (steps, o),
                _ => panic!("no step, but not done"),
            },
        }
    }
}

#[test]
fn zram_is_set_up_step_by_step() {
    let (steps, o) = set_up(zram_setup(8192, "lz4", 200), &[]);
    assert_eq!(o, ok("/dev/zram3"));
    assert_eq!(
        steps,
        vec![
            "probe /sys/class/zram-control",
            "probe /sys/class/zram-control/hot_add",
            "read /sys/class/zram-control/hot_add",
            "write /sys/block/zram3/comp_algorithm <- lz4",
            "write /sys/block/zram3/disksize <- 8192M",
            "run mkswap -f /dev/zram3",
            "run swapon --priority 200 /dev/zram3",
        ]
    );
}

#[test]
fn zram_setup_without_algorithm_leaves_it_out() {
    let (steps, o) = set_up(zram_setup(1, "", -5), &[]);
    assert_eq!(o, ok("/dev/zram3"));
    assert!(!steps.iter().any(|s| s.contains("comp_algorithm")));
    assert_eq!(steps.last().unwrap(), "run swapon --priority -5 /dev/zram3");
}

#[test]
fn zram_setup_loads_the_module_where_there_is_no_control() {
    let mut z = zram_setup(1, "lz4", 1);
    z = z.advance(err("absent"));
    assert_eq!(show(&z.action().unwrap()), "run modprobe zram");
    z = z.advance(err("no such module")); // harmless
    assert_eq!(show(&z.action().unwrap()), "probe /sys/class/zram-control/hot_add");
    z = z.advance(err("absent"));
    assert!(z.action().is_none());
    match z.stage {
        Stage::Done(o) => {
            assert_eq!(o, err("zram-control not available (kernel lacks zram support)"));
        }
        _ => panic!("not done"),
    }
}

#[test]
fn zram_setup_rolls_back_a_half_configured_device() {
    for bad in ["comp_algorithm", "disksize", "mkswap", "swapon"] {
        let (steps, o) = set_up(zram_setup(64, "zstd", 7), &[bad]);
        let failed = &steps[steps.len() - 2];
        assert!(failed.contains(bad));
        assert_eq!(steps.last().unwrap(), "write /sys/class/zram-control/hot_remove <- 3");
        assert_eq!(o, err(&format!("failed: {}", failed)));
        // What comes of the removal does not matter.
        let (steps, p) = set_up(zram_setup(64, "zstd", 7), &[bad, "hot_remove"]);
        assert_eq!(steps.last().unwrap(), "write /sys/class/zram-control/hot_remove <- 3");
        assert_eq!(p, o);
    }
}

#[test]
fn zram_setup_ends_with_the_error_of_the_allocation() {
    let (steps, o) = set_up(zram_setup(64, "zstd", 7), &["read"]);
    assert_eq!(steps.len(), 3);
    assert_eq!(o, err("failed: read /sys/class/zram-control/hot_add"));
}

fn take_down(dev: &str, bad: &[&str]) -> (Vec<String>, Result<(), String>) {
    let mut t = zram_teardown(dev).unwrap();
    let mut steps = Vec::new();
    loop {
        match t.action() {
            Some(a) => {
                let s = show(&a);
                let o = if bad.iter().any(|b| s.contains(b)) {
                    err(&format!("failed: {}", s))
                } else {
                    ok("")
                };
                steps.push(s);
                t = t.advance(o);
            }
            None => match t.stage {
                DownStage::Done(o) => return (steps, o),
                _ => panic!("no step, but not done"),
            },
        }
    }
}

#[test]
fn zram_is_taken_down_step_by_step() {
    let all = vec![
        "run swapoff /dev/zram3",
        "probe /sys/block/zram3",
        "write /sys/block/zram3/reset <- 1",
        "write /sys/class/zram-control/hot_remove <- 3",
    ];
    let (steps, o) = take_down("/dev/zram3", &[]);
    assert_eq!(steps, all);
    assert!(o.is_ok());
    // It does not matter that the device was no swap area.
    let (steps, o) = take_down("/dev/zram3", &["swapoff"]);
    assert_eq!(steps, all);
    assert!(o.is_ok());
    let (steps, o) = take_down("/dev/zram3", &["probe"]);
    assert_eq!(steps.len(), 2);
    assert!(o.is_ok());
    let (steps, o) = take_down("/dev/zram3", &["reset"]);
    assert_eq!(steps.len(), 3);
    assert_eq!(o, Err("failed: write /sys/block/zram3/reset <- 1".to_string()));
    let (_, o) = take_down("/dev/zram3", &["hot_remove"]);
    assert_eq!(o, Err("failed: write /sys/class/zram-control/hot_remove <- 3".to_string()));
}

#[test]
fn only_zram_devices_are_taken_down() {
    let e: InvalidInput = zram_teardown("/dev/sda1").unwrap_err();
    assert_eq!(e.message, "not a zram device: /dev/sda1");
    assert_eq!(zram_teardown("").unwrap_err().message, "not a zram device: ");
}

#[test]
fn what_was_set_up_can_be_taken_down() {
    let (_, o) = set_up(zram_setup(8192, "lz4", 200), &[]);
    let t = zram_teardown(&o.unwrap()).unwrap();
    assert_eq!(t.id, "3");
}

#[test]
fn sysctls_are_written_and_read_back() {
    assert_eq!(show(&sysctl_write(SWAPPINESS, 60)), "write /proc/sys/vm/swappiness <- 60");
    assert_eq!(
        show(&sysctl_write(CACHE_PRESSURE, u32::MAX)),
        "write /proc/sys/vm/vfs_cache_pressure <- 4294967295"
    );
    for v in [0u32, 1, 60, 200, u32::MAX] {
        match sysctl_write(SWAPPINESS, v) {
            Action::Write(_, text) => {
                assert_eq!(sysctl_read(&text).unwrap(), v);
                assert_eq!(sysctl_read(&format!("{}\n", text)).unwrap(), v);
            }
            _ => panic!("not a write"),
        }
    }
}

#[test]
fn sysctl_errors_are_those_of_the_standard_library() {
    for text in ["", " \n", "x", "-1", "4294967296", "4294967296x", "429496729x6", "1 2", "+", "-"] {
        let want = text.trim().parse::<u32>().unwrap_err().to_string();
        assert_eq!(sysctl_read(text).unwrap_err().message, want, "{:?}", text);
    }
    assert_eq!(sysctl_read(" +7 ").unwrap(), 7);
}

const SWAPS: &str = "Filename\t\t\t\tType\t\tSize\t\tUsed\t\tPriority\n\
                     /dev/zram0                              partition\t8388604\t\t1024\t\t200\n\
                     \n\
                     /swapfile                               file\t\t2097148\t\t0\t\t10\n";

#[test]
fn active_swaps_are_the_first_column() {
    assert_eq!(active_swaps(SWAPS), vec!["/dev/zram0", "/swapfile"]);
    assert!(active_swaps("Filename Type\n").is_empty());
    assert!(active_swaps("").is_empty());
}

#[test]
fn programs_are_run_with_their_arguments() {
    assert_eq!(show(&mkswap("/dev/sdb1")), "run mkswap -f /dev/sdb1");
    assert_eq!(show(&swapon("/dev/sdb1", -2)), "run swapon --priority -2 /dev/sdb1");
    assert_eq!(show(&swapoff("/dev/sdb1")), "run swapoff /dev/sdb1");
    let args = vec!["-f".to_string(), "/dev/x".to_string()];
    assert_eq!(
        failure_text("mkswap", &args, "exit status: 1", " cannot open\n"),
        "mkswap -f /dev/x exited with exit status: 1: cannot open"
    );
}

fn tiers(text: &str) -> TiersCfg {
    Config::from_str(&format!("[tiers]\n{}\n", text)).unwrap().tiers()
}

fn stamp(m: &Message) -> String {
    let level = match m.level {
        Level::Info => "info",
        Level::Warn => "warn",
        Level::Error => "error",
    };
    format!("{}: {}", level, m.text)
}

/// Carries a bring-up through; steps whose text holds `bad` fail. Gives the
/// steps and the messages.
fn bring_up(mut b: Bringup, bad: &[&str]) -> (Vec<String>, Vec<String>) {
    let mut steps = Vec::new();
    let mut said = Vec::new();
    while let Some(t) = b.task() {
        let o = match t {
            Task::Zram(z) => {
                steps.push("zram".to_string());
                set_up(z, bad).1
            }
            Task::Step(a) => {
                let s = show(&a);
                let o = if bad.iter().any(|b| s.contains(b)) { err("boom") } else { ok("") };
                steps.push(s);
                o
            }
        };
        if let Some(m) = b.advance(o) {
            said.push(stamp(&m));
        }
    }
    assert_eq!(b.stage, UpStage::Done);
    (steps, said)
}

const BOTH: &str = "umami_device = \"/dev/sdb1\"\nfallback_swap = \"/swapfile\"";

fn owned(v: &[&str]) -> Vec<String> {
    v.iter().map(|s| s.to_string()).collect()
}

#[test]
fn every_tier_is_brought_up_in_order() {
    let (steps, said) = bring_up(ensure_tiers(&tiers(BOTH), Vec::new(), false), &[]);
    assert_eq!(
        steps,
        vec![
            "zram",
            "probe /dev/sdb1",
            "run swapon --priority 100 /dev/sdb1",
            "probe /swapfile",
            "run swapon --priority 10 /swapfile",
        ]
    );
    assert_eq!(
        said,
        vec![
            "info: zram tier up: /dev/zram3 (8192 MiB, lz4, priority 200)",
            "info: umami tier up: /dev/sdb1 (priority 100)",
            "info: fallback tier up: /swapfile (priority 10)",
        ]
    );
}

#[test]
fn signatures_are_written_on_request() {
    let (steps, said) = bring_up(ensure_tiers(&tiers(BOTH), owned(&["/dev/zram0"]), true), &[]);
    assert_eq!(
        steps,
        vec![
            "probe /dev/sdb1",
            "run mkswap -f /dev/sdb1",
            "run swapon --priority 100 /dev/sdb1",
            "probe /swapfile",
            "run mkswap -f /swapfile",
            "run swapon --priority 10 /swapfile",
        ]
    );
    assert_eq!(said[0], "info: formatted /dev/sdb1 as swap");
    assert_eq!(said[2], "info: formatted /swapfile as swap");
}

#[test]
fn active_tiers_are_left_alone() {
    let all = owned(&["/dev/zram0", "/dev/sdb1", "/swapfile"]);
    let (steps, said) = bring_up(ensure_tiers(&tiers(BOTH), all, true), &[]);
    assert!(steps.is_empty());
    assert!(said.is_empty());
    // Nothing is managed, and no ZRAM is wanted.
    let (steps, _) = bring_up(ensure_tiers(&tiers("zram_size_mb = 0"), Vec::new(), true), &[]);
    assert!(steps.is_empty());
    let (steps, _) = bring_up(ensure_tiers(&tiers(BOTH), owned(&["/dev/sdb1", "/dev/sdb11"]), false), &[]);
    assert_eq!(steps, vec!["zram", "probe /swapfile", "run swapon --priority 10 /swapfile"]);
}

#[test]
fn a_tier_that_fails_does_not_hold_up_the_next() {
    let (steps, said) = bring_up(ensure_tiers(&tiers(BOTH), Vec::new(), true), &["hot_add", "mkswap", "swapon"]);
    assert_eq!(steps.len(), 7);
    assert!(!steps.iter().any(|s| s.contains("swapoff")));
    assert_eq!(
        said,
        vec![
            "warn: zram tier unavailable: zram-control not available (kernel lacks zram support)",
            "warn: mkswap /dev/sdb1 failed: boom",
            "warn: umami tier /dev/sdb1 failed to activate: boom (needs `umami setup --format`?)",
            "warn: mkswap /swapfile failed: boom",
            "warn: fallback tier /swapfile failed: boom",
        ]
    );
}

#[test]
fn a_device_that_is_absent_is_skipped() {
    let (steps, said) = bring_up(ensure_tiers(&tiers(BOTH), owned(&["/dev/zram9"]), true), &["probe"]);
    assert_eq!(steps, vec!["probe /dev/sdb1", "probe /swapfile"]);
    assert_eq!(
        said,
        vec![
            "warn: umami tier /dev/sdb1 not present; skipping",
            "warn: fallback swap /swapfile not present; skipping",
        ]
    );
}

fn chores(v: &Vec<Chore>) -> Vec<String> {
    v.iter()
        .map(|c| match c {
            Chore::Zram(d) => format!("zram {}", d),
            Chore::Swapoff(d) => format!("swapoff {}", d),
        })
        .collect()
}

#[test]
fn teardown_covers_what_is_active() {
    let swaps = owned(&["/swapfile", "/dev/zram1", "/dev/sda2", "/dev/zram0"]);
    let plan = teardown_plan(&tiers(BOTH), &swaps);
    assert_eq!(chores(&plan), vec!["zram /dev/zram1", "zram /dev/zram0", "swapoff /swapfile"]);
    let plan = teardown_plan(&tiers(BOTH), &owned(&["/swapfile", "/dev/sdb1"]));
    assert_eq!(chores(&plan), vec!["swapoff /dev/sdb1", "swapoff /swapfile"]);
    assert!(teardown_plan(&tiers(BOTH), &Vec::new()).is_empty());
    // A device that is not managed is not touched.
    assert!(teardown_plan(&tiers(""), &owned(&["/swapfile"])).is_empty());
}

#[test]
fn teardown_tells_what_came_of_it() {
    let z = Chore::Zram("/dev/zram1".to_string());
    let s = Chore::Swapoff("/swapfile".to_string());
    let bad = Err("boom".to_string());
    assert_eq!(stamp(&z.message(&Ok(()))), "info: zram tier /dev/zram1 removed");
    assert_eq!(stamp(&z.message(&bad)), "warn: zram teardown /dev/zram1 failed: boom");
    assert_eq!(stamp(&s.message(&Ok(()))), "info: swapoff /swapfile");
    assert_eq!(stamp(&s.message(&bad)), "warn: swapoff /swapfile failed: boom");
    let (a, b) = restore();
    assert_eq!(show(&a), "write /proc/sys/vm/swappiness <- 60");
    assert_eq!(show(&b), "write /proc/sys/vm/vfs_cache_pressure <- 100");
    assert_eq!(stamp(&restored()), "info: sysctl restored: swappiness=60, vfs_cache_pressure=100");
}

#[test]
fn reads_sysctls() {
    // As the kernel gives them.
    assert!(sysctl_read("60\n").is_ok());
    assert!(sysctl_read("100\n").is_ok());
}

#[test]
fn lists_active_swaps() {
    // Always parses; the list itself may be empty.
    assert!(active_swaps("Filename\t\t\t\tType\t\tSize\t\tUsed\t\tPriority\n").is_empty());
    assert_eq!(active_swaps(SWAPS).len(), 2);
}
