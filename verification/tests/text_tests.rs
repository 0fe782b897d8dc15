use resourced::text::{chars_of, decimal_string, first_words, parse_u64};

fn chars(s: &str) -> Vec<char> {
    s.chars().collect()
}

fn words_of(s: &str, limit: usize) -> Vec<String> {
    first_words(&chars(s), limit).into_iter().map(|w| w.into_iter().collect()).collect()
}

#[test]
fn splits_on_any_whitespace() {
    assert_eq!(words_of("  cpu0  12\t34\n", 10), vec!["cpu0", "12", "34"]);
    assert_eq!(words_of("a\u{a0}b\u{3000}c", 10), vec!["a", "b", "c"]);
    assert_eq!(words_of("", 10), Vec::<String>::new());
    assert_eq!(words_of(" \t ", 10), Vec::<String>::new());
}

#[test]
fn stops_after_limit() {
    assert_eq!(words_of("a b c d e f g", 5), vec!["a", "b", "c", "d", "e"]);
    assert_eq!(words_of("a b", 0), Vec::<String>::new());
}

#[test]
fn chars_of_keeps_every_char() {
    assert_eq!(chars_of("héllo wörld"), chars("héllo wörld"));
}

#[test]
fn parses_like_from_str() {
    assert_eq!(parse_u64(&chars("0")), Some(0));
    assert_eq!(parse_u64(&chars("12345")), Some(12345));
    assert_eq!(parse_u64(&chars("+42")), Some(42));
    assert_eq!(parse_u64(&chars("007")), Some(7));
    assert_eq!(parse_u64(&chars("18446744073709551615")), Some(u64::MAX));
    assert_eq!(parse_u64(&chars("18446744073709551616")), None);
    assert_eq!(parse_u64(&chars("99999999999999999999x")), None);
    assert_eq!(parse_u64(&chars("")), None);
    assert_eq!(parse_u64(&chars("+")), None);
    assert_eq!(parse_u64(&chars("-1")), None);
    assert_eq!(parse_u64(&chars("12a")), None);
    assert_eq!(parse_u64(&chars("++1")), None);
    for s in ["0", "+9", "123", "18446744073709551615", "x", "", "+", "1_0"] {
        assert_eq!(parse_u64(&chars(s)), s.parse::<u64>().ok(), "{}", s);
    }
}

#[test]
fn decimal_matches_to_string() {
    for n in [0u64, 1, 9, 10, 99, 100, 192, 4294967295, u64::MAX] {
        assert_eq!(decimal_string(n), n.to_string());
    }
}

#[test]
fn decimal_then_parse_round_trips() {
    for n in [0u64, 7, 33, 128, 192, 1000000007, u64::MAX] {
        assert_eq!(parse_u64(&chars(&decimal_string(n))), Some(n));
    }
}
