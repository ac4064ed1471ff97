use glove_host::decimal::{decimal_string, parse_i32, parse_i64, push_signed, push_unsigned};
use glove_host::text::{chars_of, is_whitespace, join, same_text, split_bounds, trim};

fn chars(s: &str) -> Vec<char> {
    s.chars().collect()
}

fn text(s: &[char]) -> String {
    s.iter().collect()
}

#[test]
fn parses_plain_and_signed_integers() {
    assert_eq!(parse_i32(&chars("0")), Some(0));
    assert_eq!(parse_i32(&chars("440")), Some(440));
    assert_eq!(parse_i32(&chars("-17")), Some(-17));
    assert_eq!(parse_i32(&chars("+17")), Some(17));
    assert_eq!(parse_i32(&chars("007")), Some(7));
    assert_eq!(parse_i32(&chars("-0")), Some(0));
    assert_eq!(parse_i64(&chars("1700000000000")), Some(1_700_000_000_000));
}

#[test]
fn parses_the_limits_and_rejects_beyond() {
    assert_eq!(parse_i32(&chars("2147483647")), Some(i32::MAX));
    assert_eq!(parse_i32(&chars("-2147483648")), Some(i32::MIN));
    assert_eq!(parse_i32(&chars("2147483648")), None);
    assert_eq!(parse_i32(&chars("-2147483649")), None);
    assert_eq!(parse_i32(&chars("00000000000000000002147483647")), Some(i32::MAX));
    assert_eq!(parse_i32(&chars("99999999999999999999999999")), None);
    assert_eq!(parse_i64(&chars("9223372036854775807")), Some(i64::MAX));
    assert_eq!(parse_i64(&chars("-9223372036854775808")), Some(i64::MIN));
    assert_eq!(parse_i64(&chars("9223372036854775808")), None);
    assert_eq!(parse_i64(&chars("-9223372036854775809")), None);
    assert_eq!(parse_i64(&chars("18446744073709551616")), None);
    assert_eq!(parse_i64(&chars("184467440737095516160")), None);
}

#[test]
fn rejects_what_is_not_an_integer() {
    for bad in ["", "-", "+", "--1", "+-1", "1-", "1 ", " 1", "1.0", "1e3", "0x10", "abc", "12a", "١٢"] {
        assert_eq!(parse_i32(&chars(bad)), None, "{:?}", bad);
        assert_eq!(parse_i64(&chars(bad)), None, "{:?}", bad);
    }
}

#[test]
fn parsing_agrees_with_the_standard_parser() {
    for sample in ["5", "-5", "+5", "000", "-000", "2147483647", "2147483648", "-2147483648", "x", "", "+", "4 0"] {
        assert_eq!(parse_i32(&chars(sample)), sample.parse::<i32>().ok(), "{:?}", sample);
        assert_eq!(parse_i64(&chars(sample)), sample.parse::<i64>().ok(), "{:?}", sample);
    }
}

#[test]
fn renders_decimals() {
    assert_eq!(decimal_string(0), "0");
    assert_eq!(decimal_string(7), "7");
    assert_eq!(decimal_string(10), "10");
    assert_eq!(decimal_string(-10), "-10");
    assert_eq!(decimal_string(1_234_567_890_123), "1234567890123");
    assert_eq!(decimal_string(i64::MAX), "9223372036854775807");
    assert_eq!(decimal_string(i64::MIN), "-9223372036854775808");
    let mut out = String::from("n=");
    push_unsigned(&mut out, u64::MAX);
    push_signed(&mut out, -1);
    assert_eq!(out, "n=18446744073709551615-1");
}

#[test]
fn rendering_then_parsing_round_trips() {
    for v in [0i64, 1, -1, 9, 10, 99, 100, -100, 2_147_483_647, -2_147_483_648, i64::MAX, i64::MIN] {
        assert_eq!(parse_i64(&chars(&decimal_string(v))), Some(v));
        assert_eq!(decimal_string(v), v.to_string());
    }
}

#[test]
fn whitespace_matches_the_standard_notion() {
    for code in 0u32..=0x3100 {
        if let Some(c) = char::from_u32(code) {
            assert_eq!(is_whitespace(c), c.is_whitespace(), "U+{:04X}", code);
        }
    }
    assert!(!is_whitespace('\u{FEFF}'));
    assert!(!is_whitespace('\u{200B}'));
}

#[test]
fn trims_both_ends_only() {
    assert_eq!(text(trim(&chars("  1, 2 \r"))), "1, 2");
    assert_eq!(text(trim(&chars("\t\u{A0}x\u{3000}\n"))), "x");
    assert_eq!(text(trim(&chars("abc"))), "abc");
    assert_eq!(text(trim(&chars(" \r\n\t "))), "");
    assert_eq!(text(trim(&chars(""))), "");
    for sample in [" a b ", "\u{2003}1,2\u{85}", "", "   ", "x", " x", "x "] {
        assert_eq!(text(trim(&chars(sample))), sample.trim());
    }
}

#[test]
fn splits_like_the_standard_split() {
    for sample in ["1,2,3", "", ",", ",,", "a,", ",a", "a,,b", "no commas", "1,2,3,4,5,6"] {
        let cs = chars(sample);
        let pieces: Vec<String> =
            split_bounds(&cs, ',').iter().map(|&(lo, hi)| text(&cs[lo..hi])).collect();
        let expected: Vec<String> = sample.split(',').map(|p| p.to_string()).collect();
        assert_eq!(pieces, expected, "{:?}", sample);
    }
}

#[test]
fn joins_with_separator_between_neighbours() {
    let parts = vec!["a".to_string(), String::new(), "bc".to_string()];
    assert_eq!(join(&parts, ','), "a,,bc");
    assert_eq!(join(&Vec::new(), ','), "");
    assert_eq!(join(&vec!["solo".to_string()], '|'), "solo");
    assert_eq!(join(&vec![String::new(), String::new()], ','), ",");
}

#[test]
fn texts_compare_by_content() {
    assert!(same_text("", ""));
    assert!(same_text("tr-TR", "tr-TR"));
    assert!(!same_text("tr", "tr-TR"));
    assert!(!same_text("en", "eN"));
    assert!(!same_text("ab", "ba"));
}

#[test]
fn strings_give_their_characters() {
    assert_eq!(chars_of("a\u{e9}\u{1F600}"), vec!['a', '\u{e9}', '\u{1F600}']);
    assert!(chars_of("").is_empty());
}
