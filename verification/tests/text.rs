//! The text functions do what those of the standard library do.
use coreshift_engine::text;

const SAMPLES: [&str; 24] = [
    "",
    " ",
    "\n",
    "\r\n",
    "\r",
    "a",
    "a\n",
    "a\r\n",
    "a\rb\n",
    "a\n\nb",
    "a\r\r\nb",
    " \ta b\u{b}c\u{c}d\r\n e ",
    "\u{85}x\u{a0}y\u{1680}z",
    "\u{2000}a\u{200a}b\u{200b}c\u{2028}d\u{2029}e\u{202f}f\u{205f}g\u{3000}",
    "package:com.example uid:10123",
    "u0_a123",
    "u_a_a",
    "::",
    ":a:b:",
    "caf\u{e9}:na\u{ef}ve",
    "tabs\tand\tmore\t",
    "\u{1f600} smile",
    "\u{feff}mark",
    "a\u{1c}b\u{1f}c",
];

fn strings(pieces: Vec<Vec<char>>) -> Vec<String> {
    pieces.iter().map(text::string_of).collect()
}

#[test]
fn lines_end_at_line_feeds() {
    for sample in SAMPLES {
        let ours = strings(text::lines_of(&text::chars_of(sample)));
        let theirs: Vec<&str> = sample.lines().collect();
        assert_eq!(ours, theirs, "{sample:?}");
    }
}

#[test]
fn words_stand_between_white_space() {
    for sample in SAMPLES {
        let ours = strings(text::words_of(&text::chars_of(sample)));
        let theirs: Vec<&str> = sample.split_whitespace().collect();
        assert_eq!(ours, theirs, "{sample:?}");
        let trimmed = text::string_of(&text::trim_of(&text::chars_of(sample)));
        assert_eq!(trimmed, sample.trim(), "{sample:?}");
    }
}

#[test]
fn white_space_is_that_of_unicode() {
    for n in 0..0x11_0000u32 {
        if let Some(c) = char::from_u32(n) {
            assert_eq!(text::is_white_space(c), c.is_whitespace(), "{n:#x}");
            assert_eq!(text::is_digit(c), c.is_ascii_digit(), "{n:#x}");
            assert_eq!(text::is_ascii_letter(c), c.is_ascii_alphabetic(), "{n:#x}");
            assert_eq!(text::is_hex_digit(c), c.is_ascii_hexdigit(), "{n:#x}");
        }
    }
}

#[test]
fn pieces_stand_between_separators() {
    for sample in SAMPLES {
        let chars = text::chars_of(sample);
        for separator in [':', '\t', '_', '.'] {
            let ours = strings(text::split_at_char(&chars, separator));
            let theirs: Vec<&str> = sample.split(separator).collect();
            assert_eq!(ours, theirs, "{sample:?} at {separator:?}");
        }
        for pattern in ["_a", ":", "a", "package:", "\u{e9}:"] {
            assert_eq!(text::contains(&chars, pattern), sample.contains(pattern));
            let once = text::split_once_at(&chars, pattern)
                .map(|(a, b)| (text::string_of(&a), text::string_of(&b)));
            let theirs = sample
                .split_once(pattern)
                .map(|(a, b)| (a.to_string(), b.to_string()));
            assert_eq!(once, theirs, "{sample:?} at {pattern:?}");
            let rest = text::strip_prefix_of(&chars, pattern).map(|rest| text::string_of(&rest));
            assert_eq!(rest.as_deref(), sample.strip_prefix(pattern));
            let at = text::find_in(&chars, pattern);
            assert_eq!(
                at,
                sample.find(pattern).map(|at| sample[..at].chars().count())
            );
        }
    }
}

#[test]
fn numerals_are_read_as_numbers() {
    for numeral in [
        "", "0", "7", "+7", "-7", "+", "-", "--7", "+-7", "007", "4294967295", "4294967296",
        "18446744073709551615", "18446744073709551616", "2147483647", "2147483648", "-2147483648",
        "-2147483649", "-0", "1_000", " 1", "1 ", "0x10", "\u{663}", "99999999999999999999999999",
    ] {
        let chars = text::chars_of(numeral);
        assert_eq!(text::read_u32(&chars), numeral.parse().ok(), "{numeral:?}");
        assert_eq!(text::read_u64(&chars), numeral.parse().ok(), "{numeral:?}");
        assert_eq!(text::read_i32(&chars), numeral.parse().ok(), "{numeral:?}");
    }
}

#[test]
fn numbers_are_written_as_numerals() {
    for n in [0, 9, 10, 99, 100, 4_294_967_295, u128::from(u64::MAX), u128::MAX] {
        assert_eq!(text::string_of(&text::decimal_of(n)), n.to_string());
    }
    for n in [0, 1, -1, i32::MAX, i32::MIN] {
        let mut out = "n=".to_string();
        text::push_signed(&mut out, n);
        assert_eq!(out, format!("n={n}"));
    }
}
