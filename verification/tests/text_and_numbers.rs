use image_notify_bot::numbers::{parse_i32, parse_u32, push_decimal, push_signed_decimal, IntParseError};
use image_notify_bot::text::{chars_of, trimmed, trimmed_pieces, white_space};

const SAMPLES: &[&str] = &[
    "", "0", "7", "+7", "-7", "+", "-", "--1", "+-1", "-+1", "12a", "a12", " 12", "12 ", "007",
    "4294967295", "4294967296", "42949672950", "4294967296x", "99999999999", "2147483647",
    "2147483648", "-2147483648", "-2147483649", "-99999999999", "-0", "+0", "1_000", "١٢",
    "12\u{e9}", "9999999999a", "-9999999999a",
];

#[test]
fn parse_u32_agrees_with_std() {
    for s in SAMPLES {
        let ours = parse_u32(s);
        match s.parse::<u32>() {
            Ok(v) => assert_eq!(ours, Ok(v), "input {:?}", s),
            Err(e) => {
                let err = ours.expect_err("std refused the input");
                assert_eq!(err.message(), e.to_string(), "input {:?}", s);
            }
        }
    }
}

#[test]
fn parse_i32_agrees_with_std() {
    for s in SAMPLES {
        let ours = parse_i32(s);
        match s.parse::<i32>() {
            Ok(v) => assert_eq!(ours, Ok(v), "input {:?}", s),
            Err(e) => {
                let err = ours.expect_err("std refused the input");
                assert_eq!(err.message(), e.to_string(), "input {:?}", s);
            }
        }
    }
}

#[test]
fn parse_error_kinds() {
    assert_eq!(parse_u32(""), Err(IntParseError::Empty));
    assert_eq!(parse_u32("+"), Err(IntParseError::InvalidDigit));
    assert_eq!(parse_u32("-1"), Err(IntParseError::InvalidDigit));
    assert_eq!(parse_u32("4294967296"), Err(IntParseError::PosOverflow));
    assert_eq!(parse_i32("2147483648"), Err(IntParseError::PosOverflow));
    assert_eq!(parse_i32("-2147483649"), Err(IntParseError::NegOverflow));
    assert_eq!(parse_i32("-2147483648"), Ok(i32::MIN));
    assert_eq!(parse_u32("+4294967295"), Ok(u32::MAX));
}

#[test]
fn decimal_agrees_with_display() {
    for n in [0u64, 1, 9, 10, 99, 100, 1066602611303780393, u64::MAX] {
        let mut s = String::from("x");
        push_decimal(&mut s, n);
        assert_eq!(s, format!("x{}", n));
    }
    for v in [0i32, 5, -5, -10, i32::MAX, i32::MIN] {
        let mut s = String::new();
        push_signed_decimal(&mut s, v);
        assert_eq!(s, v.to_string());
    }
}

#[test]
fn trimming_agrees_with_std() {
    let samples = [
        "", "   ", "abc", "  abc  ", "\tabc\n", "\u{a0}a b\u{3000}", "\u{2028}x\u{85}",
        "a\u{200b}", "\r\n12 3\r\n", "\u{1680}\u{2000}\u{200a}q\u{202f}\u{205f}",
    ];
    for s in samples {
        assert_eq!(trimmed(s), s.trim(), "input {:?}", s);
    }
    for c in ['\u{9}', '\u{d}', ' ', '\u{85}', '\u{a0}', '\u{1680}', '\u{2005}', '\u{3000}', 'a', '\u{200b}', '\u{180e}'] {
        assert_eq!(white_space(c), c.is_whitespace(), "char {:?}", c);
    }
}

#[test]
fn pieces_agree_with_split() {
    let samples = ["12 cat 4\n", "  a  b ", "", "one", "a b c d", " x\t", "a\u{3000}b c"];
    for s in samples {
        let expected: Vec<String> = s.trim().split(' ').map(|p| p.to_string()).collect();
        assert_eq!(trimmed_pieces(s), expected, "input {:?}", s);
    }
}

#[test]
fn chars_are_kept() {
    let s = "h\u{e9}llo \u{1f600}";
    assert_eq!(chars_of(s), s.chars().collect::<Vec<char>>());
}
