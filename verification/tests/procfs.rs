//! What the kernel tells about memory.

use umami::double::Double;
use umami::procfs::{
    page_size_kb, parse_meminfo, parse_psi, parse_vmstat, percentage, seconds, swap_rates, MemInfo, Monitor,
    ReadError, VmStat,
};

fn double(x: f64) -> Double {
    Double::from_bits(x.to_bits())
}

#[test]
fn parses_meminfo() {
    let text = "\
MemTotal:        7724580 kB
MemFree:          123456 kB
MemAvailable:    1998644 kB
Buffers:          100000 kB
SwapTotal:      11918836 kB
SwapFree:        8455536 kB
";
    let m = parse_meminfo(text).unwrap();
    assert_eq!(m.total_kb, 7724580);
    assert_eq!(m.available_kb, 1998644);
    assert_eq!(m.swap_total_kb, 11918836);
    assert_eq!(m.swap_free_kb, 8455536);
}

#[test]
fn rejects_meminfo_without_total() {
    assert!(parse_meminfo("MemFree: 1 kB\n").is_err());
}

#[test]
fn meminfo_without_total_has_a_message() {
    let e = parse_meminfo("MemTotal: many kB\n").unwrap_err();
    assert_eq!(e.message, "MemTotal missing from /proc/meminfo");
    assert!(parse_meminfo("MemTotal: 0 kB\n").is_err());
    assert!(parse_meminfo("").is_err());
}

#[test]
fn meminfo_takes_the_last_number_of_a_key() {
    let m = parse_meminfo("MemTotal: 5\n\nMemTotal: 7 kB\nMemTotal: x\nMemTotal:\nSwapFree: +3\n").unwrap();
    assert_eq!(m, MemInfo { total_kb: 7, available_kb: 0, swap_total_kb: 0, swap_free_kb: 3 });
}

#[test]
fn parses_vmstat() {
    let text = "nr_free_pages 100\npswpin 123456\npswpout 654321\nnr_swapcache 5\n";
    let vm = parse_vmstat(text).unwrap();
    assert_eq!(vm.pswpin, 123456);
    assert_eq!(vm.pswpout, 654321);
}

#[test]
fn vmstat_without_counters_counts_nothing() {
    assert_eq!(parse_vmstat("pswpin\npswpout 18446744073709551616\n").unwrap(), VmStat::default());
    assert_eq!(
        parse_vmstat("pswpin 18446744073709551615\n").unwrap(),
        VmStat { pswpin: u64::MAX, pswpout: 0 }
    );
}

#[test]
fn parses_psi() {
    let text = "some avg10=1.50 avg60=0.75 avg300=0.25 total=1382494496\n\
                full avg10=0.50 avg60=0.05 avg300=0.01 total=1265083042\n";
    let psi = parse_psi(text).unwrap();
    assert_eq!(psi.some_avg10, double(1.50));
    assert_eq!(psi.some_avg60, double(0.75));
    assert_eq!(psi.some_avg300, double(0.25));
    assert_eq!(psi.full_avg10, double(0.50));
    assert_eq!(psi.full_avg60, double(0.05));
    assert_eq!(psi.full_avg300, double(0.01));
}

#[test]
fn psi_takes_what_it_can_read() {
    let text = "some avg10=1 avg10=x avg60 avg300==2\nhalf avg10=9\nsome avg10=3e1\n\n full  avg60=.5";
    let psi = parse_psi(text).unwrap();
    assert_eq!(psi.some_avg10, double(30.0));
    assert_eq!(psi.some_avg60, double(0.0));
    assert_eq!(psi.some_avg300, double(0.0));
    assert_eq!(psi.full_avg10, double(0.0));
    assert_eq!(psi.full_avg60, double(0.5));
    assert!(psi == psi);
    assert!(psi != parse_psi("").unwrap());
}

#[test]
fn computes_swap_rates() {
    let prev = VmStat { pswpin: 1000, pswpout: 2000 };
    let cur = VmStat { pswpin: 1500, pswpout: 4000 };
    let (rin, rout) = swap_rates(&prev, &cur, double(2.0), 4);
    assert_eq!(rin, double(1000.0)); // 500 pages * 4 KiB / 2 s
    assert_eq!(rout, double(4000.0));
}

#[test]
fn swap_rates_handle_zero_elapsed_and_counter_reset() {
    let prev = VmStat { pswpin: 1000, pswpout: 2000 };
    let cur = VmStat { pswpin: 10, pswpout: 20 }; // counters went backwards
    assert_eq!(swap_rates(&prev, &cur, double(0.0), 4), (double(0.0), double(0.0)));
    assert_eq!(swap_rates(&prev, &cur, double(1.0), 4), (double(0.0), double(0.0)));
}

#[test]
fn swap_rates_are_those_of_the_machine() {
    let cases: [(u64, f64, u64); 6] = [
        (1, 0.1, 4),
        (12345678901234567890, 0.999999, 64),
        (u64::MAX, 1e-300, u64::MAX),
        (7, f64::INFINITY, 4),
        (7, 3.0, 0),
        (3, -1.0, 4),
    ];
    for (pages, secs, page_kb) in cases {
        let cur = VmStat { pswpin: pages, pswpout: pages / 3 };
        let (rin, rout) = swap_rates(&VmStat::default(), &cur, double(secs), page_kb);
        let (win, wout) = if secs <= 0.0 || page_kb == 0 {
            (0.0, 0.0)
        } else {
            (
                pages as f64 * page_kb as f64 / secs,
                (pages / 3) as f64 * page_kb as f64 / secs,
            )
        };
        assert_eq!(rin.to_bits(), win.to_bits());
        assert_eq!(rout.to_bits(), wout.to_bits());
    }
}

#[test]
fn percentages_are_those_of_the_machine() {
    for (part, total) in [(1u64, 3u64), (0, 5), (7724580, 7724580), (1998644, 7724580), (u64::MAX, 7)] {
        let want = part as f64 * 100.0 / total as f64;
        assert_eq!(percentage(part, total).to_bits(), want.to_bits());
    }
    assert_eq!(percentage(1, 3).to_fixed(2), "33.33");
    for (part, total) in [(0u64, 1u64), (1, 1), (1, 90071992547409), (90071992547409, 90071992547409)] {
        let p = percentage(part, total);
        assert!(p.at_least(double(0.0)) && p.at_most(double(100.0)));
        assert_eq!(!p.at_most(double(0.0)), part > 0);
    }
    // Far beyond any memory, rounding can pass a hundred percent.
    let all = 1563724325402381u64;
    assert!(!percentage(all, all).at_most(double(100.0)));
}

#[test]
fn monitor_derives_rates_between_samples() {
    let psi = parse_psi("some avg10=1.5\nfull avg10=0.5\n").unwrap();
    let mem = MemInfo { total_kb: 1000, available_kb: 250, swap_total_kb: 400, swap_free_kb: 100 };
    let mut m = Monitor::new(4);
    let s1 = m.sample(&mem, &psi, VmStat { pswpin: 100, pswpout: 100 }, 5_000_000_000);
    assert_eq!(s1.mem_available_pct, double(25.0));
    assert_eq!(s1.swap_used_pct, double(75.0));
    assert_eq!(s1.psi_some_avg10, double(1.5));
    assert_eq!(s1.psi_full_avg10, double(0.5));
    assert_eq!(s1.swapin_kbs, double(0.0)); // no previous sample
    assert_eq!(s1.swapout_kbs, double(0.0));
    let none = MemInfo { total_kb: 1000, available_kb: 0, swap_total_kb: 0, swap_free_kb: 0 };
    let s2 = m.sample(&none, &psi, VmStat { pswpin: 150, pswpout: 90 }, 5_500_000_000);
    assert_eq!(s2.swap_used_pct, double(0.0));
    assert_eq!(s2.swapin_kbs, double(400.0));
    assert_eq!(s2.swapout_kbs, double(0.0)); // the counter was reset
    let s3 = m.sample(&none, &psi, VmStat { pswpin: 150, pswpout: 93 }, 7_500_000_000);
    assert_eq!(s3.swapin_kbs, double(0.0));
    assert_eq!(s3.swapout_kbs, double(6.0));
}

fn pair(key: u64, value: u64, big: bool) -> Vec<u8> {
    let mut v = Vec::new();
    for n in [key, value] {
        v.extend_from_slice(&if big { n.to_be_bytes() } else { n.to_le_bytes() });
    }
    v
}

#[test]
fn page_size_is_found_in_the_vector() {
    for big in [false, true] {
        let mut v = pair(33, 0x7fff_1234_5678_9abc, big);
        v.extend(pair(6, 512, big)); // too small to be a page
        v.extend(pair(6, 16384, big));
        v.extend(pair(6, 65536, big));
        v.push(1);
        assert_eq!(page_size_kb(Some(&v), big), 16);
        assert_eq!(page_size_kb(Some(&v), !big), 4);
        assert_eq!(page_size_kb(Some(&pair(6, u64::MAX, big)), big), u64::MAX / 1024);
    }
    assert_eq!(page_size_kb(None, false), 4);
    assert_eq!(page_size_kb(Some(&vec![6u8; 15]), false), 4);
    assert_eq!(page_size_kb(Some(&Vec::new()), false), 4);
}

#[test]
fn seconds_are_those_of_a_duration() {
    let mut n: u64 = 1;
    for _ in 0..400 {
        n = n.wrapping_mul(6364136223846793005).wrapping_add(1442695040888963407);
        for nanos in [n, n >> 20, n >> 33, n >> 45, n % 1_000_000_000] {
            let want = std::time::Duration::from_nanos(nanos).as_secs_f64();
            assert_eq!(seconds(nanos).to_bits(), want.to_bits(), "{}", nanos);
        }
    }
    for nanos in [0u64, 1, 999_999_999, 1_000_000_000, 1_500_000_000, u64::MAX] {
        let want = std::time::Duration::from_nanos(nanos).as_secs_f64();
        assert_eq!(seconds(nanos).to_bits(), want.to_bits(), "{}", nanos);
    }
}

fn text(s: &str) -> Result<String, String> {
    Ok(s.to_string())
}

fn unread() -> Result<String, String> {
    Err("No such file or directory (os error 2)".to_string())
}

#[test]
fn failed_attempts_leave_the_monitor_as_it_was() {
    let mem = || text("MemTotal: 1000 kB\nMemAvailable: 250 kB\nSwapTotal: 400 kB\nSwapFree: 100 kB\n");
    let psi = || text("some avg10=1.5\nfull avg10=0.5\n");
    let vm = |n: u64| text(&format!("pswpin {}\npswpout 0\n", n));
    let mut m = Monitor::new(4);
    let s = m.sample_from(mem(), psi(), vm(100), 1_000_000_000).unwrap();
    assert_eq!(s.mem_available_pct, double(25.0));
    assert_eq!(s.swap_used_pct, double(75.0));
    assert_eq!(s.psi_some_avg10, double(1.5));
    assert_eq!(s.psi_full_avg10, double(0.5));
    assert_eq!(s.swapin_kbs, double(0.0));
    let before = format!("{:?}", m);
    let e = m.sample_from(unread(), psi(), vm(200), 2_000_000_000).unwrap_err();
    assert!(matches!(e, ReadError::Unread(_)));
    assert_eq!(e.message(), "No such file or directory (os error 2)");
    let e = m.sample_from(text("MemFree: 1 kB\n"), unread(), unread(), 2_100_000_000).unwrap_err();
    assert!(matches!(e, ReadError::Invalid(_)));
    assert_eq!(e.message(), "MemTotal missing from /proc/meminfo");
    assert!(m.sample_from(mem(), unread(), vm(200), 2_200_000_000).is_err());
    assert!(m.sample_from(mem(), psi(), unread(), 2_300_000_000).is_err());
    assert_eq!(format!("{:?}", m), before);
    // The rate is over the whole time since the last sample that there was.
    let s = m.sample_from(mem(), psi(), vm(300), 5_000_000_000).unwrap();
    assert_eq!(s.swapin_kbs, double(200.0)); // 200 pages * 4 KiB / 4 s
    // A clock that goes back counts as no time at all.
    let s = m.sample_from(mem(), psi(), vm(400), 4_000_000_000).unwrap();
    assert_eq!(s.swapin_kbs, double(0.0));
}
