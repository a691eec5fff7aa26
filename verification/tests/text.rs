//! Text and numerals, held against those of the standard library.

use umami::double::Double;
use umami::log::{log_line, Level};
use umami::numeral::{
    align_left, align_right, numeral_of, read_signed, read_unsigned, signed_numeral_of, IntError,
};
use umami::text::{chars_of, join_spaced, reads, split_lines, split_words, string_of, trimmed, without_front};

const TEXTS: [&str; 14] = [
    "",
    "\n",
    "a",
    "a\n",
    "a\nb",
    "a\r\nb\r\n",
    "a\rb\r",
    "\r\n\r\n",
    "a\r\r\n",
    "\n\na b  c\n \t d\u{2003}e\n",
    "  x y  ",
    "\u{a0}tab\tvt\u{b}ff\u{c}\u{85}nel\u{1680}",
    "é漢字 🦀 x",
    "last line without end\r",
];

fn strings(v: &Vec<Vec<char>>) -> Vec<String> {
    v.iter().map(|c| c.iter().collect::<String>()).collect()
}

#[test]
fn lines_words_and_trimming() {
    for t in TEXTS {
        let c = chars_of(t);
        let lines: Vec<String> = t.lines().map(|l| l.to_string()).collect();
        assert_eq!(strings(&split_lines(c.as_slice())), lines, "{:?}", t);
        let words: Vec<String> = t.split_whitespace().map(|w| w.to_string()).collect();
        assert_eq!(strings(&split_words(c.as_slice())), words, "{:?}", t);
        assert_eq!(string_of(trimmed(c.as_slice())), t.trim(), "{:?}", t);
        assert_eq!(string_of(c.as_slice()), t);
        assert!(reads(c.as_slice(), t));
        assert!(!reads(c.as_slice(), "something else"));
    }
}

#[test]
fn fronts_and_joins() {
    assert_eq!(without_front("/dev/zram7", "/dev/zram"), Some("7".to_string()));
    assert_eq!(without_front("/dev/zra", "/dev/zram"), None);
    assert_eq!(without_front("éa", "é"), Some("a".to_string()));
    let args = vec!["-f".to_string(), "x".to_string(), "".to_string()];
    assert_eq!(join_spaced(&args), args.join(" "));
    assert_eq!(join_spaced(&Vec::new()), "");
}

#[test]
fn numerals_are_written() {
    for n in [0u64, 1, 9, 10, 99, 100, 12345678901234567890, u64::MAX] {
        assert_eq!(numeral_of(n), n.to_string());
    }
    for n in [0i32, -1, 7, i32::MAX, i32::MIN, -100] {
        assert_eq!(signed_numeral_of(n), n.to_string());
    }
}

#[test]
fn numerals_are_read() {
    let texts = [
        "", "+", "-", "0", "00", "+0", "-0", "7", "+7", "-7", "12a", "a12", " 1", "1 ", "４",
        "18446744073709551615", "18446744073709551616", "99999999999999999999999", "4294967295", "4294967296",
        "9223372036854775807", "9223372036854775808", "-9223372036854775808", "-9223372036854775809", "++1", "-+1",
        "4294967296x", "18446744073709551616x",
    ];
    for t in texts {
        let c = chars_of(t);
        match (read_unsigned(c.as_slice(), u64::MAX), t.parse::<u64>()) {
            (Ok(a), Ok(b)) => assert_eq!(a, b),
            (Err(_), Err(_)) => {}
            (a, b) => panic!("{:?}: {:?} {:?}", t, a, b),
        }
        match (read_unsigned(c.as_slice(), u32::MAX as u64), t.parse::<u32>()) {
            (Ok(a), Ok(b)) => assert_eq!(a, b as u64),
            (Err(_), Err(_)) => {}
            (a, b) => panic!("{:?}: {:?} {:?}", t, a, b),
        }
        assert_eq!(read_signed(c.as_slice()), t.parse::<i64>().ok(), "{:?}", t);
    }
    assert_eq!(read_unsigned(&[], 9), Err(IntError::Empty));
    assert_eq!(read_unsigned(chars_of("x").as_slice(), 9), Err(IntError::InvalidDigit));
    assert_eq!(read_unsigned(chars_of("10").as_slice(), 9), Err(IntError::Overflow));
}

#[test]
fn text_is_set_to_a_width() {
    for s in ["", "a", "abcde", "abcdefgh", "é漢字"] {
        assert_eq!(align_left(s, 5), format!("{:<5}", s));
        assert_eq!(align_right(s, 5), format!("{:>5}", s));
    }
}

#[test]
fn log_lines_have_a_stamp_and_a_level() {
    for secs in [0.0, 1.25, 12345678.96, 0.05] {
        for (level, name) in [(Level::Info, "INFO"), (Level::Warn, "WARN"), (Level::Error, "ERROR")] {
            let want = format!("[{:>8.1}s] [{:<5}] {}", secs, name, "hello");
            assert_eq!(log_line(Double::from_bits(f64::to_bits(secs)), level, "hello"), want);
        }
    }
    let secs = Double::from_bits(3.0f64.to_bits());
    assert_eq!(log_line(secs, Level::Info, "x"), "[     3.0s] [INFO ] x");
}
