use zimu::lines::lines;
use zimu::text::{
    decimal, ends_with, from_chars, is_whitespace, parse_u64, split, split_pattern, splitn,
    starts_with, strip_leading, to_chars, tokens, trim, trim_class, two_digits, CharClass,
};

fn chars(s: &str) -> Vec<char> {
    to_chars(s)
}

fn strings(v: Vec<Vec<char>>) -> Vec<String> {
    v.iter().map(from_chars).collect()
}

#[test]
fn characters_round_trip() {
    assert_eq!(to_chars("héllo, 世界"), "héllo, 世界".chars().collect::<Vec<char>>());
    assert_eq!(from_chars(&to_chars("héllo, 世界")), "héllo, 世界");
    assert_eq!(from_chars(&Vec::new()), "");
}

#[test]
fn whitespace_is_what_the_standard_library_calls_whitespace() {
    let mut c = 0u32;
    while c <= 0x10FFFF {
        if let Some(ch) = char::from_u32(c) {
            assert_eq!(is_whitespace(ch), ch.is_whitespace());
        }
        c += 1;
    }
}

#[test]
fn trimming_removes_both_ends() {
    assert_eq!(from_chars(&trim(&chars("  a b \t\r\n"))), "a b");
    assert_eq!(from_chars(&trim(&chars("\u{3000}x\u{a0}"))), "x");
    assert_eq!(from_chars(&trim(&chars("   "))), "");
    assert_eq!(from_chars(&trim(&chars(""))), "");
    assert_eq!(from_chars(&trim_class(&chars("[[a]b]]"), CharClass::Bracket)), "a]b");
    assert_eq!(from_chars(&trim_class(&chars("[]"), CharClass::Bracket)), "");
}

#[test]
fn prefixes_and_suffixes() {
    assert!(starts_with(&chars("Format: x"), &chars("Format: ")));
    assert!(!starts_with(&chars("Format:x"), &chars("Format: ")));
    assert!(starts_with(&chars("abc"), &chars("")));
    assert!(ends_with(&chars("V4+ Styles"), &chars("Styles")));
    assert!(!ends_with(&chars("Style"), &chars("Styles")));
    assert_eq!(from_chars(&strip_leading(&chars("ababcab"), &chars("ab"))), "cab");
    assert_eq!(from_chars(&strip_leading(&chars("abab"), &chars("ab"))), "");
    assert_eq!(from_chars(&strip_leading(&chars("xab"), &chars("ab"))), "xab");
    assert_eq!(from_chars(&strip_leading(&chars("xab"), &chars(""))), "xab");
}

#[test]
fn splitting_keeps_empty_pieces() {
    assert_eq!(strings(split(&chars("a,b,,c,"), ',')), vec!["a", "b", "", "c", ""]);
    assert_eq!(strings(split(&chars(""), ',')), vec![""]);
    assert_eq!(strings(split(&chars("abc"), ',')), vec!["abc"]);
}

#[test]
fn bounded_splitting_leaves_the_rest_in_the_last_piece() {
    assert_eq!(strings(splitn(&chars("a,b,c,d"), ',', 3)), vec!["a", "b", "c,d"]);
    assert_eq!(strings(splitn(&chars("a,b"), ',', 3)), vec!["a", "b"]);
    assert_eq!(strings(splitn(&chars("a,b"), ',', 1)), vec!["a,b"]);
    assert_eq!(strings(splitn(&chars("a,b"), ',', 0)), Vec::<String>::new());
}

#[test]
fn splitting_at_a_pattern() {
    assert_eq!(strings(split_pattern(&chars("a\\Nb\\N"), &chars("\\N"))), vec!["a", "b", ""]);
    assert_eq!(strings(split_pattern(&chars("aaa"), &chars("aa"))), vec!["", "a"]);
    assert_eq!(strings(split_pattern(&chars("abc"), &chars("x"))), vec!["abc"]);
}

#[test]
fn tokens_are_runs_of_visible_characters() {
    assert_eq!(strings(tokens(&chars("  a  bc\td \n"))), vec!["a", "bc", "d"]);
    assert_eq!(strings(tokens(&chars("   "))), Vec::<String>::new());
    assert_eq!(strings(tokens(&chars(""))), Vec::<String>::new());
}

#[test]
fn unsigned_numbers() {
    assert_eq!(parse_u64(&chars("0")), Some(0));
    assert_eq!(parse_u64(&chars("007")), Some(7));
    assert_eq!(parse_u64(&chars("+12")), Some(12));
    assert_eq!(parse_u64(&chars("18446744073709551615")), Some(u64::MAX));
    assert_eq!(parse_u64(&chars("18446744073709551616")), None);
    assert_eq!(parse_u64(&chars("99999999999999999999999")), None);
    assert_eq!(parse_u64(&chars("")), None);
    assert_eq!(parse_u64(&chars("+")), None);
    assert_eq!(parse_u64(&chars("-1")), None);
    assert_eq!(parse_u64(&chars("1 ")), None);
    assert_eq!(parse_u64(&chars("++1")), None);
    assert_eq!(parse_u64(&chars("1a")), None);
    for text in ["0", "007", "+12", "", "+", "-1", " 1", "1e3", "٣", "18446744073709551615"] {
        assert_eq!(parse_u64(&chars(text)), text.parse::<u64>().ok());
    }
}

#[test]
fn decimal_numbers() {
    assert_eq!(from_chars(&decimal(0)), "0");
    assert_eq!(from_chars(&decimal(9)), "9");
    assert_eq!(from_chars(&decimal(10)), "10");
    assert_eq!(from_chars(&decimal(1012)), "1012");
    assert_eq!(from_chars(&decimal(u128::MAX)), u128::MAX.to_string());
    assert_eq!(from_chars(&two_digits(0)), "00");
    assert_eq!(from_chars(&two_digits(7)), "07");
    assert_eq!(from_chars(&two_digits(23)), "23");
    assert_eq!(from_chars(&two_digits(199)), "199");
}

#[test]
fn lines_end_at_line_feeds() {
    assert_eq!(strings(lines("a\nb\n").unwrap()), vec!["a", "b"]);
    assert_eq!(strings(lines("a\nb").unwrap()), vec!["a", "b"]);
    assert_eq!(strings(lines("a\n\nb\n\n").unwrap()), vec!["a", "", "b", ""]);
    assert_eq!(strings(lines("").unwrap()), Vec::<String>::new());
    assert_eq!(strings(lines("\n").unwrap()), vec![""]);
    assert_eq!(strings(lines("a\r\nb\r\n").unwrap()), vec!["a", "b"]);
    assert_eq!(strings(lines("a\r\nb\r").unwrap()), vec!["a", "b\r"]);
    assert_eq!(strings(lines("a\rb\n").unwrap()), vec!["a\rb"]);
    assert!(lines("a\r\nb\n").is_err());
    assert!(lines("a\nb\r\n").is_err());
}

#[test]
fn lines_agree_with_the_standard_library() {
    for text in ["", "a", "a\n", "a\nb", "\n\n", "a\r\nb\r\n", "a\r\n", "x\r", "a\n\nb\n"] {
        let expected: Vec<String> =
            std::io::BufRead::lines(text.as_bytes()).map(|l| l.unwrap()).collect();
        assert_eq!(strings(lines(text).unwrap()), expected);
    }
}
