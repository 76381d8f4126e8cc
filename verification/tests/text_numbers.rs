use raytracer::numbers::{float_literal, parse_unsigned_word, IntErrorKind};
use raytracer::text::{blank, indentation_of, split_lines, split_words};

fn chars(s: &str) -> Vec<char> {
    s.chars().collect()
}

fn strings(v: &[Vec<char>]) -> Vec<String> {
    v.iter().map(|w| w.iter().collect()).collect()
}

#[test]
fn float_literals_follow_the_f32_grammar() {
    for ok in ["1", "-1", "+2.5", "1.", ".5", "1e5", "1E-3", "2.5e+10", "inf", "-Infinity", "NaN", "nan", "0.0"] {
        assert!(float_literal(&chars(ok)), "{ok} should be a float");
        assert!(ok.parse::<f32>().is_ok());
    }
    for bad in ["", ".", "+", "e5", "1e", "1.2.3", "x", "infinit", "1f", "--1", "1e+", " 1"] {
        assert!(!float_literal(&chars(bad)), "{bad} should not be a float");
        assert!(bad.parse::<f32>().is_err());
    }
}

#[test]
fn unsigned_words_follow_the_integer_grammar() {
    assert_eq!(parse_unsigned_word(&chars("0"), u32::MAX as u64), Ok(0));
    assert_eq!(parse_unsigned_word(&chars("+42"), u32::MAX as u64), Ok(42));
    assert_eq!(parse_unsigned_word(&chars("4294967295"), u32::MAX as u64), Ok(4294967295));
    assert_eq!(parse_unsigned_word(&chars("4294967296"), u32::MAX as u64), Err(IntErrorKind::PosOverflow));
    assert_eq!(parse_unsigned_word(&chars(""), u32::MAX as u64), Err(IntErrorKind::Empty));
    assert_eq!(parse_unsigned_word(&chars("+"), u32::MAX as u64), Err(IntErrorKind::InvalidDigit));
    assert_eq!(parse_unsigned_word(&chars("-1"), u32::MAX as u64), Err(IntErrorKind::InvalidDigit));
    assert_eq!(parse_unsigned_word(&chars("12a"), u32::MAX as u64), Err(IntErrorKind::InvalidDigit));
    assert_eq!(parse_unsigned_word(&chars("99999999999a"), u32::MAX as u64), Err(IntErrorKind::PosOverflow));
}

#[test]
fn lines_are_split_like_str_lines() {
    for src in ["", "a", "a\n", "a\n\nb", "a\r\nb\r\n", "x\r", "\n\n", "one\ntwo\rthree"] {
        let expected: Vec<String> = src.lines().map(|l| l.to_string()).collect();
        assert_eq!(strings(&split_lines(&chars(src))), expected, "for {src:?}");
    }
}

#[test]
fn words_are_split_like_split_whitespace() {
    for src in ["", "   ", "a b", "  key 1 2 3  ", "tab\tsep\u{3000}ideographic", "nbsp\u{a0}x"] {
        let expected: Vec<String> = src.split_whitespace().map(|w| w.to_string()).collect();
        assert_eq!(strings(&split_words(&chars(src))), expected, "for {src:?}");
    }
}

#[test]
fn indentation_and_blank_lines() {
    assert_eq!(indentation_of(&chars("    key")), 4);
    assert_eq!(indentation_of(&chars("\t key")), 2);
    assert_eq!(indentation_of(&chars("key")), 0);
    assert!(blank(&chars(" \t ")));
    assert!(blank(&chars("")));
    assert!(!blank(&chars(" x ")));
}
