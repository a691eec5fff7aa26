//! Doubles, held against those of the machine.

use umami::double::Double;
use umami::text::{chars_of, space};

fn double(x: f64) -> Double {
    Double::from_bits(x.to_bits())
}

/// Bits without an order that a mistake could hide in.
struct Bits {
    state: u64,
}

impl Bits {
    fn next(&mut self) -> u64 {
        self.state = self.state.wrapping_add(0x9e37_79b9_7f4a_7c15);
        let mut z = self.state;
        z = (z ^ (z >> 30)).wrapping_mul(0xbf58_476d_1ce4_e5b9);
        z = (z ^ (z >> 27)).wrapping_mul(0x94d0_49bb_1331_11eb);
        z ^ (z >> 31)
    }
}

const EDGES: [f64; 22] = [
    0.0,
    -0.0,
    1.0,
    -1.0,
    0.5,
    0.1,
    0.25,
    100.0,
    1e-5,
    5e-324,
    -5e-324,
    2.2250738585072014e-308,
    2.225073858507201e-308,
    1.7976931348623157e308,
    -1.7976931348623157e308,
    9007199254740992.0,
    9007199254740993.0,
    9.223372036854775e18,
    f64::INFINITY,
    f64::NEG_INFINITY,
    f64::NAN,
    51200.0,
];

fn same(got: Double, want: f64) -> bool {
    if want.is_nan() {
        f64::from_bits(got.to_bits()).is_nan()
    } else {
        got.to_bits() == want.to_bits()
    }
}

fn check_pair(a: f64, b: f64) {
    let (x, y) = (double(a), double(b));
    assert!(same(x.times(y), a * b), "{:e} * {:e}", a, b);
    assert!(same(x.over(y), a / b), "{:e} / {:e}", a, b);
    if a >= 0.0 && b >= 0.0 && a.is_sign_positive() && b.is_sign_positive() {
        assert!(same(x.plus(y), a + b), "{:e} + {:e}", a, b);
    }
    assert_eq!(x.at_most(y), a <= b, "{:e} <= {:e}", a, b);
    assert_eq!(x.at_least(y), a >= b, "{:e} >= {:e}", a, b);
    assert_eq!(x == y, a == b, "{:e} == {:e}", a, b);
}

#[test]
fn arithmetic_at_the_edges() {
    for a in EDGES {
        for b in EDGES {
            check_pair(a, b);
        }
    }
}

#[test]
fn arithmetic_anywhere() {
    let mut r = Bits { state: 1 };
    for _ in 0..400 {
        check_pair(f64::from_bits(r.next()), f64::from_bits(r.next()));
        // Numbers of like size, so that neither overflows.
        let a = (r.next() >> 11) as f64 / 1000.0;
        let b = (r.next() >> 20) as f64 / 7.0;
        check_pair(a, b);
        check_pair(a, a);
    }
}

#[test]
fn whole_numbers_become_doubles() {
    let mut r = Bits { state: 2 };
    let mut all: Vec<u64> = vec![0, 1, 2, 100, 1 << 53, (1 << 53) + 1, (1 << 53) + 3, u64::MAX, u64::MAX - 1023];
    for i in 0..300 {
        all.push(r.next() >> (i % 64));
    }
    for v in all {
        assert_eq!(Double::from_u64(v).to_bits(), (v as f64).to_bits(), "{}", v);
        assert_eq!(Double::from_i64(v as i64).to_bits(), (v as i64 as f64).to_bits(), "{}", v);
    }
    assert_eq!(Double::from_i64(i64::MIN).to_bits(), (i64::MIN as f64).to_bits());
    assert_eq!(Double::zero().to_bits(), 0);
}

#[test]
fn doubles_become_whole_numbers() {
    let mut r = Bits { state: 3 };
    for a in EDGES {
        assert_eq!(double(a).to_i64(), a as i64, "{:e}", a);
    }
    for i in 0..600 {
        let a = f64::from_bits(r.next());
        assert_eq!(double(a).to_i64(), a as i64, "{:e}", a);
        let b = (r.next() as i64 >> (i % 64)) as f64 / 3.0;
        assert_eq!(double(b).to_i64(), b as i64, "{:e}", b);
    }
}

fn check_fixed(a: f64) {
    assert_eq!(double(a).to_fixed(0), format!("{:.0}", a));
    assert_eq!(double(a).to_fixed(1), format!("{:.1}", a));
    assert_eq!(double(a).to_fixed(2), format!("{:.2}", a));
}

#[test]
fn doubles_are_written_with_fixed_digits() {
    for a in EDGES {
        check_fixed(a);
    }
    for a in [0.05, 0.15, 0.25, 0.35, 2.5, 3.5, 0.005, 0.015, 0.995, 99.95, -0.04, -1.25, 12.25] {
        check_fixed(a);
    }
    let mut r = Bits { state: 4 };
    for i in 0..150 {
        check_fixed((r.next() >> (i % 60)) as f64 / 1000.0);
        check_fixed(((r.next() % 2000) as f64 - 1000.0) / 8.0);
    }
    assert_eq!(double(12.25).to_fixed(1), "12.2");
    assert_eq!(double(2.5).to_fixed(0), "2");
}

fn check_text(s: &str) {
    let got = Double::from_chars(chars_of(s).as_slice());
    match s.parse::<f64>() {
        Ok(v) => match got {
            Some(d) => assert_eq!(d.to_bits(), v.to_bits(), "{:?}", s),
            None => panic!("not read: {:?}", s),
        },
        Err(_) => assert!(got.is_none(), "read: {:?}", s),
    }
}

#[test]
fn texts_are_read_as_doubles() {
    let texts = [
        "0", "-0", "+0", "5", "5.0", "5.", ".5", "-.5", "+.5e1", "1e5", "1E5", "1e+5", "1e-5", "1.5e3", "00012",
        "0.1", "0.2", "0.30000000000000004", "123456789012345678901234567890", "1e308", "1.8e308", "1e400", "-1e400",
        "4.9e-324", "2.4703282292062327e-324", "2.4703282292062328e-324", "1e-400", "2.2250738585072011e-308",
        "9007199254740993", "9007199254740992.9999999999999999", "9007199254740993.0000000000000001", "inf", "-inf",
        "+inf", "INF", "Infinity", "-iNfInItY", "nan", "NaN", "-nan", "1e99999999999999999999",
        "1e-99999999999999999999", "0e99999999999999999999", "0.000e5", "1e0000000000000000000000001",
    ];
    for s in texts {
        check_text(s);
    }
}

#[test]
fn other_texts_are_not_read_as_doubles() {
    for s in [
        "", " ", ".", "+", "-", "e5", ".e5", "1e", "1e+", "1e-", "1e5.5", "1.2.3", "--1", "+-1", "0x10", "1_000", "1 ",
        " 1", "1f", "infin", "infinityy", "nan0", "in", "é", "１",
    ] {
        check_text(s);
    }
}

#[test]
fn written_doubles_are_read_again() {
    let mut r = Bits { state: 5 };
    for i in 0..120 {
        let a = f64::from_bits(r.next());
        check_text(&format!("{:e}", a));
        let b = (r.next() >> (i % 60)) as f64 / 4096.0;
        check_text(&format!("{}", b));
        check_text(&format!("{:.3}", b));
    }
}

#[test]
fn long_texts_are_read_exactly() {
    // Half-way between two doubles, and a trace beyond it.
    let half = "9007199254740993";
    check_text(half);
    check_text(&format!("{}.{}", half, "0".repeat(400)));
    check_text(&format!("{}.{}1", half, "0".repeat(400)));
    check_text(&format!("0.{}1", "0".repeat(400)));
    check_text(&format!("{}e-500", "1".repeat(600)));
    check_text(&format!("1{}e-400", "0".repeat(399)));
}

#[test]
fn nearest_doubles_keep_order() {
    let mut r = Bits { state: 6 };
    for i in 0..300 {
        let a = r.next() >> (i % 64);
        let b = r.next() >> (i % 64);
        let (x, y) = (Double::from_u64(a), Double::from_u64(b));
        if a <= b {
            assert!(x.at_most(y));
        } else {
            assert!(y.at_most(x));
        }
    }
}

#[test]
fn white_space_is_that_of_unicode() {
    for c in '\0'..=char::MAX {
        assert_eq!(space(c), c.is_whitespace(), "{:?}", c);
    }
}
