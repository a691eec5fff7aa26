//! Reading configurations.

use umami::config::{invalid_value_message, parse_value, strip_comment, Config, Value};
use umami::double::Double;
use umami::procfs::ReadError;

const EXAMPLE: &str = r#"
# Umami example configuration
[daemon]
interval_ms = 1000

[tiers]
zram_size_mb = 8192
zram_algorithm = "lz4"
zram_priority = 200
umami_device = "/dev/disk/by-id/usb-flash-part1"  # comment after value
umami_priority = 100
fallback_swap = "/swapfile"
fallback_priority = 10

[policy]
swappiness_calm = 60
swappiness_pressured = 120
swappiness_critical = 180
swappiness_thrash_guard = 30
cache_pressure_calm = 100
cache_pressure_pressured = 50
psi_pressure_threshold = 5.0
psi_critical_threshold = 20.0
mem_pressure_available_pct = 15
mem_critical_available_pct = 5
thrash_swapin_kbs = 51200
thrash_psi_full_avg10 = 5.0
enter_samples = 2
exit_samples = 10
"#;

fn double(x: f64) -> Double {
    Double::from_bits(x.to_bits())
}

fn chars(s: &str) -> Vec<char> {
    s.chars().collect()
}

fn error(text: &str) -> String {
    match Config::from_str(text) {
        Ok(_) => panic!("accepted: {:?}", text),
        Err(e) => e,
    }
}

#[test]
fn parses_example() {
    let cfg = Config::from_str(EXAMPLE).unwrap();
    let d = cfg.daemon();
    assert_eq!(d.interval_ms, 1000);
    let t = cfg.tiers();
    assert_eq!(t.zram_size_mb, 8192);
    assert_eq!(t.zram_algorithm, "lz4");
    assert_eq!(t.zram_priority, 200);
    assert_eq!(t.umami_device, "/dev/disk/by-id/usb-flash-part1");
    assert_eq!(t.fallback_priority, 10);
    let p = cfg.policy();
    assert_eq!(p.swappiness_critical, 180);
    assert_eq!(p.mem_pressure_available_pct, double(15.0)); // int coerced to float
    assert_eq!(p.thrash_swapin_kbs, double(51200.0));
    p.validate().unwrap();
}

#[test]
fn defaults_when_empty() {
    let cfg = Config::from_str("").unwrap();
    let p = cfg.policy();
    assert_eq!(p.swappiness_calm, 60);
    assert_eq!(p.exit_samples, 10);
    let t = cfg.tiers();
    assert_eq!(t.umami_device, "");
    p.validate().unwrap();
}

#[test]
fn every_default_is_the_documented_one() {
    let cfg = Config::default();
    assert_eq!(cfg.daemon().interval_ms, 1000);
    let t = cfg.tiers();
    assert_eq!(t.zram_size_mb, 8192);
    assert_eq!(t.zram_algorithm, "lz4");
    assert_eq!(t.zram_priority, 200);
    assert_eq!(t.umami_device, "");
    assert_eq!(t.umami_priority, 100);
    assert_eq!(t.fallback_swap, "");
    assert_eq!(t.fallback_priority, 10);
    let p = cfg.policy();
    assert_eq!(p.swappiness_calm, 60);
    assert_eq!(p.swappiness_pressured, 120);
    assert_eq!(p.swappiness_critical, 180);
    assert_eq!(p.swappiness_thrash_guard, 30);
    assert_eq!(p.cache_pressure_calm, 100);
    assert_eq!(p.cache_pressure_pressured, 50);
    assert_eq!(p.psi_pressure_threshold.to_bits(), 5.0f64.to_bits());
    assert_eq!(p.psi_critical_threshold.to_bits(), 20.0f64.to_bits());
    assert_eq!(p.mem_pressure_available_pct.to_bits(), 15.0f64.to_bits());
    assert_eq!(p.mem_critical_available_pct.to_bits(), 5.0f64.to_bits());
    assert_eq!(p.thrash_swapin_kbs.to_bits(), 51200.0f64.to_bits());
    assert_eq!(p.thrash_psi_full_avg10.to_bits(), 5.0f64.to_bits());
    assert_eq!(p.enter_samples, 2);
    assert_eq!(p.exit_samples, 10);
    assert_eq!(p.watchdog_swappiness, 10);
}

#[test]
fn hash_inside_string_is_not_a_comment() {
    let cfg = Config::from_str("[a]\nb = \"x#y\"\n").unwrap();
    assert_eq!(cfg.str_or("a", "b", ""), "x#y");
}

#[test]
fn rejects_malformed() {
    assert!(Config::from_str("key = 1\n").is_err()); // outside section
    assert!(Config::from_str("[a]\njust words\n").is_err());
    assert!(Config::from_str("[a]\nk = @@@\n").is_err());
    assert!(Config::from_str("[a\nk = 1\n").is_err());
}

#[test]
fn every_complaint_names_the_line() {
    assert_eq!(error("key = 1\n"), "line 1: key outside any section");
    assert_eq!(error("[a]\njust words\n"), "line 2: expected `key = value`");
    assert_eq!(error("[a]\n\n  = 3\n"), "line 3: empty key");
    assert_eq!(error("[a\nk = 1\n"), "line 1: malformed section header");
    assert_eq!(error("[]\n"), "line 1: malformed section header");
    assert_eq!(error("[ ]\n"), "line 1: empty section name");
    assert_eq!(error("[a]\nk = @@@\n"), "line 2: invalid value: \"@@@\"");
    // The first wrong line counts.
    assert_eq!(error("[a]\nwords\n[b\n"), "line 2: expected `key = value`");
}

#[test]
fn invalid_values_are_quoted_with_escapes() {
    assert_eq!(error("[a]\nk = a\\b\n"), "line 2: invalid value: \"a\\\\b\"");
    assert_eq!(error("[a]\nk = \"x\n"), "line 2: invalid value: \"\\\"x\"");
    assert_eq!(error("[a]\nk =\n"), "line 2: invalid value: \"\"");
    assert_eq!(error("[a]\nk = a\tb\n"), "line 2: invalid value: \"a\\tb\"");
    for s in ["@@@", "a\\b", "\"x", "", "é\u{200b}\u{7f}", "it's"] {
        let e = parse_value(chars(s).as_slice()).unwrap_err();
        assert_eq!(e, format!("invalid value: {:?}", s));
    }
    assert_eq!(invalid_value_message("'x'"), "invalid value: 'x'");
}

#[test]
fn comments_end_where_the_line_ends() {
    let cases = [
        ("a = 1 # b", "a = 1 "),
        ("# all", ""),
        ("a = \"#\" # b", "a = \"#\" "),
        ("a = \"x\"#\"y\"", "a = \"x\""),
        ("a = \"open # b", "a = \"open # b"),
        ("none", "none"),
    ];
    for (line, kept) in cases {
        let all = chars(line);
        assert_eq!(strip_comment(all.as_slice()).to_vec(), chars(kept));
    }
}

#[test]
fn values_are_strings_integers_or_numbers() {
    let read = |s: &str| parse_value(chars(s).as_slice()).unwrap();
    assert!(matches!(read("42"), Value::Int(42)));
    assert!(matches!(read("-7"), Value::Int(-7)));
    assert!(matches!(read("+7"), Value::Int(7)));
    assert!(matches!(read("9223372036854775807"), Value::Int(i64::MAX)));
    assert!(matches!(read("-9223372036854775808"), Value::Int(i64::MIN)));
    match read("9223372036854775808") {
        Value::Float(v) => assert_eq!(v.to_bits(), 9223372036854775808f64.to_bits()),
        _ => panic!("not a float"),
    }
    match read("1.5e3") {
        Value::Float(v) => assert_eq!(v.to_bits(), 1500f64.to_bits()),
        _ => panic!("not a float"),
    }
    match read("\"\"") {
        Value::Str(s) => assert_eq!(s, ""),
        _ => panic!("not a string"),
    }
    // A quote inside belongs to the string.
    match read("\"a\"b\"") {
        Value::Str(s) => assert_eq!(s, "a\"b"),
        _ => panic!("not a string"),
    }
}

#[test]
fn later_values_win_and_sections_may_come_again() {
    let text = "[a]\nk = 1\n[b]\nk = 2\n[ a ]\nk = 3\nl = \"x\"\n";
    let cfg = Config::from_str(text).unwrap();
    assert_eq!(cfg.int_or("a", "k", 0), 3);
    assert_eq!(cfg.int_or("b", "k", 0), 2);
    assert_eq!(cfg.str_or("a", "l", ""), "x");
    assert_eq!(cfg.int_or("c", "k", 9), 9);
    assert!(cfg.get("b", "l").is_none());
}

#[test]
fn values_of_another_kind_are_converted_or_left() {
    let cfg = Config::from_str("[a]\ni = 3\nf = 2.9\ng = -2.9\ns = \"x\"\nh = 1e300\nn = nan\n").unwrap();
    assert_eq!(cfg.int_or("a", "f", 0), 2);
    assert_eq!(cfg.int_or("a", "g", 0), -2);
    assert_eq!(cfg.int_or("a", "h", 0), i64::MAX);
    assert_eq!(cfg.int_or("a", "n", 5), 0);
    assert_eq!(cfg.int_or("a", "s", 5), 5);
    assert_eq!(cfg.float_or("a", "i", double(0.0)), double(3.0));
    assert_eq!(cfg.float_or("a", "s", double(0.5)), double(0.5));
    assert_eq!(cfg.str_or("a", "i", "none"), "none");
}

#[test]
fn settings_are_kept_in_range() {
    let text = "[daemon]\ninterval_ms = 5\n[tiers]\nzram_size_mb = -1\nzram_priority = 4294967297\n\
                umami_priority = 2147483648\n[policy]\nswappiness_calm = 999\nswappiness_critical = -4\n\
                enter_samples = 0\nexit_samples = -3\ncache_pressure_calm = 0\n\
                cache_pressure_pressured = 4294967296\n";
    let cfg = Config::from_str(text).unwrap();
    assert_eq!(cfg.daemon().interval_ms, 100);
    let t = cfg.tiers();
    assert_eq!(t.zram_size_mb, 0);
    assert_eq!(t.zram_priority, 1);
    assert_eq!(t.umami_priority, i32::MIN);
    let p = cfg.policy();
    assert_eq!(p.swappiness_calm, 200);
    assert_eq!(p.swappiness_critical, 0);
    assert_eq!(p.enter_samples, 1);
    assert_eq!(p.exit_samples, 1);
    assert_eq!(p.cache_pressure_calm, 1);
    // Beyond 32 bits only the low ones count.
    assert_eq!(p.cache_pressure_pressured, 0);
}

#[test]
fn validation_catches_inverted_thresholds() {
    let cfg = Config::from_str("[policy]\npsi_pressure_threshold = 30\npsi_critical_threshold = 10\n").unwrap();
    assert!(cfg.policy().validate().is_err());
}

#[test]
fn validation_has_a_message_for_each_fault() {
    let fault = |lines: &str| {
        let text = format!("[policy]\n{}\n", lines);
        Config::from_str(&text).unwrap().policy().validate().unwrap_err()
    };
    assert_eq!(
        fault("psi_pressure_threshold = 20"),
        "psi_pressure_threshold must be < psi_critical_threshold"
    );
    assert_eq!(
        fault("mem_pressure_available_pct = 5"),
        "mem_pressure_available_pct must be > mem_critical_available_pct"
    );
    assert_eq!(
        fault("mem_pressure_available_pct = 100.5"),
        "mem_pressure_available_pct out of range"
    );
    assert_eq!(
        fault("mem_pressure_available_pct = nan"),
        "mem_pressure_available_pct out of range"
    );
    assert_eq!(fault("thrash_swapin_kbs = 0"), "thrash_swapin_kbs must be positive");
    assert_eq!(fault("thrash_swapin_kbs = -0.0"), "thrash_swapin_kbs must be positive");
}

#[test]
fn lines_may_end_in_a_carriage_return() {
    let cfg = Config::from_str("[a]\r\nk = 7\r\n").unwrap();
    assert_eq!(cfg.int_or("a", "k", 0), 7);
}

#[test]
fn a_whole_number_needs_no_point() {
    for n in ["0", "5", "15", "51200", "123456789012345678"] {
        let text = format!("[p]\na = {}\nb = {}.0\n", n, n);
        let cfg = Config::from_str(&text).unwrap();
        let a = cfg.float_or("p", "a", double(-1.0));
        let b = cfg.float_or("p", "b", double(-2.0));
        assert_eq!(a.to_bits(), b.to_bits());
        assert_eq!(a.to_bits(), n.parse::<f64>().unwrap().to_bits());
    }
}

#[test]
fn loading_tells_the_file() {
    let cfg = Config::load("a.toml", Ok("[a]\nk = 7\n".to_string())).unwrap();
    assert_eq!(cfg.int_or("a", "k", 0), 7);
    let e = Config::load("a.toml", Ok("[a\n".to_string())).unwrap_err();
    assert!(matches!(e, ReadError::Invalid(_)));
    assert_eq!(e.message(), "a.toml: line 1: malformed section header");
    let e = Config::load("a.toml", Err("Permission denied (os error 13)".to_string())).unwrap_err();
    assert!(matches!(e, ReadError::Unread(_)));
    assert_eq!(e.message(), "Permission denied (os error 13)");
}
