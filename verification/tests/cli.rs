//! The command line and the status report.

use umami::cli::{config_candidates, flag_value, parse_command, pick_config, Command};
use umami::procfs::{parse_psi, MemInfo};
use umami::status::{cache_pressure_line, memory_lines, pressure_lines, swap_table, swappiness_line};

fn args(v: &[&str]) -> Vec<String> {
    v.iter().map(|s| s.to_string()).collect()
}

#[test]
fn help_exits_zero() {
    for word in ["help", "--help", "-h"] {
        let c = parse_command(&args(&[word]));
        assert!(matches!(c, Command::Help));
        assert_eq!(c.usage_exit(), Some(0));
    }
}

#[test]
fn unknown_command_exits_two() {
    let c = parse_command(&args(&["frobnicate"]));
    assert_eq!(c.usage_exit(), Some(2));
    match c {
        Command::Unknown(name) => assert_eq!(name, "frobnicate"),
        _ => panic!("known"),
    }
}

#[test]
fn no_args_exits_two() {
    let c = parse_command(&Vec::new());
    assert!(matches!(c, Command::Nothing));
    assert_eq!(c.usage_exit(), Some(2));
}

#[test]
fn commands_are_told_apart() {
    assert!(matches!(parse_command(&args(&["daemon"])), Command::Daemon));
    assert!(matches!(parse_command(&args(&["setup"])), Command::Setup(false)));
    assert!(matches!(parse_command(&args(&["setup", "--config", "x", "--format"])), Command::Setup(true)));
    assert!(matches!(parse_command(&args(&["teardown"])), Command::Teardown));
    assert!(matches!(parse_command(&args(&["status"])), Command::Status));
    assert!(matches!(parse_command(&args(&["--config", "daemon"])), Command::Unknown(_)));
    assert_eq!(parse_command(&args(&["daemon"])).usage_exit(), None);
}

#[test]
fn flags_have_the_value_behind_them() {
    let a = args(&["daemon", "--config", "a.toml", "--config", "b.toml"]);
    assert_eq!(flag_value(&a, "--config"), Some("a.toml".to_string()));
    assert_eq!(flag_value(&a, "--other"), None);
    assert_eq!(flag_value(&args(&["daemon", "--config"]), "--config"), None);
    assert_eq!(flag_value(&Vec::new(), "--config"), None);
}

#[test]
fn configurations_are_searched_in_order() {
    assert_eq!(config_candidates(None), vec!["/etc/umami/umami.toml", "./umami.toml"]);
    assert_eq!(config_candidates(Some("x".to_string())), vec!["x", "/etc/umami/umami.toml", "./umami.toml"]);
    // A file that was asked for wins if it is there; else the search goes on.
    assert_eq!(pick_config(&vec![true, true, true]), Some(0));
    assert_eq!(pick_config(&vec![false, true, true]), Some(1));
    assert_eq!(pick_config(&vec![false, false, true]), Some(2));
    assert_eq!(pick_config(&vec![false, false, false]), None);
    assert_eq!(pick_config(&vec![true, true]), Some(0));
    assert_eq!(pick_config(&vec![false, true]), Some(1));
    assert_eq!(pick_config(&vec![false, false]), None);
}

#[test]
fn the_swap_table_has_a_row_for_each_area() {
    let text = "Filename Type Size Used Priority\n\
                /dev/zram0 partition 8388604 1024 200\n\
                short row of four\n\
                /swapfile file x 99999999999999999999 -2 more\n";
    let want = vec![
        format!(
            "  {:<40} {:<10} size={:>8} MiB used={:>8} MiB priority={}",
            "/dev/zram0", "partition", 8191, 1, "200"
        ),
        format!("  {:<40} {:<10} size={:>8} MiB used={:>8} MiB priority={}", "/swapfile", "file", 0, 0, "-2"),
    ];
    assert_eq!(swap_table(text), want);
    assert!(swap_table("").is_empty());
}

#[test]
fn memory_is_reported_in_mebibytes() {
    let m = MemInfo { total_kb: 7724580, available_kb: 1998644, swap_total_kb: 11918836, swap_free_kb: 8455536 };
    assert_eq!(
        memory_lines(&m),
        vec![
            "memory:".to_string(),
            format!("  total         {:>10} MiB", 7724580 / 1024),
            format!("  available     {:>10} MiB ({:.1}%)", 1998644 / 1024, 1998644f64 * 100.0 / 7724580f64),
            format!(
                "  swap          {:>10} MiB total, {} MiB used",
                11918836 / 1024,
                (11918836 - 8455536) / 1024
            ),
        ]
    );
    let odd = MemInfo { total_kb: 1, available_kb: 1, swap_total_kb: 1024, swap_free_kb: 4096 };
    assert_eq!(memory_lines(&odd)[3], "  swap                   1 MiB total, 0 MiB used");
}

#[test]
fn pressure_is_reported_with_two_digits() {
    let p = parse_psi("some avg10=1.505 avg60=0.75 avg300=12\nfull avg10=0.50 avg60=0.05 avg300=0.019\n").unwrap();
    assert_eq!(
        pressure_lines(&p),
        vec![
            "memory pressure (PSI):".to_string(),
            format!("  some  avg10={:.2} avg60={:.2} avg300={:.2}", 1.505, 0.75, 12.0),
            format!("  full  avg10={:.2} avg60={:.2} avg300={:.2}", 0.50, 0.05, 0.019),
        ]
    );
}

#[test]
fn tunables_are_reported() {
    assert_eq!(swappiness_line(60), "  vm.swappiness        = 60");
    assert_eq!(cache_pressure_line(100), "  vm.vfs_cache_pressure = 100");
}
