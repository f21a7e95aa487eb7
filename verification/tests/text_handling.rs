use mailserver::text::{
    chars_of, find, is_whitespace, join_from, parse_int, push_decimal, push_signed_decimal,
    split_words, string_of, trimmed, word_is, word_is_ignoring_case,
};

fn chars(s: &str) -> Vec<char> {
    s.chars().collect()
}

fn words_of(s: &str) -> Vec<String> {
    split_words(&chars(s)).iter().map(|w| w.iter().collect()).collect()
}

#[test]
fn splits_at_any_white_space() {
    assert_eq!(words_of("  USER\talice \r\n"), vec!["USER", "alice"]);
    assert_eq!(words_of("a\u{3000}b\u{a0}c"), vec!["a", "b", "c"]);
    assert!(words_of(" \r\n\t").is_empty());
    assert!(words_of("").is_empty());
}

#[test]
fn white_space_is_unicode_white_space() {
    for c in ['\t', '\n', '\u{b}', '\u{c}', '\r', ' ', '\u{85}', '\u{a0}', '\u{1680}', '\u{2000}', '\u{200a}', '\u{2028}', '\u{2029}', '\u{202f}', '\u{205f}', '\u{3000}'] {
        assert!(is_whitespace(c), "{:?}", c);
        assert_eq!(is_whitespace(c), c.is_whitespace());
    }
    for c in ['a', '-', '\u{200b}', '\u{feff}', '0'] {
        assert!(!is_whitespace(c));
        assert_eq!(is_whitespace(c), c.is_whitespace());
    }
}

#[test]
fn trims_both_ends() {
    let t: String = trimmed(&chars(" \t abc d \r\n")).iter().collect();
    assert_eq!(t, "abc d");
    let t: String = trimmed(&chars("   ")).iter().collect();
    assert_eq!(t, "");
}

#[test]
fn joins_trailing_words() {
    let ws = split_words(&chars("MAIL  FROM: <a@b.c>  x"));
    let j: String = join_from(&ws, 1).iter().collect();
    assert_eq!(j, "FROM: <a@b.c> x");
    let j: String = join_from(&ws, 3).iter().collect();
    assert_eq!(j, "x");
    let j: String = join_from(&ws, 4).iter().collect();
    assert_eq!(j, "");
}

#[test]
fn finds_first_occurrence() {
    assert_eq!(find(&chars("a<b<c"), '<'), Some(1));
    assert_eq!(find(&chars("abc"), '<'), None);
}

#[test]
fn parses_like_std() {
    for s in ["0", "7", "+7", "-7", "-0", "2147483647", "-2147483648", "2147483648", "-2147483649", "", "+", "-", "1a", "١", "007", "99999999999999999999"] {
        assert_eq!(parse_int(&chars(s)), s.parse::<i32>().ok(), "{:?}", s);
    }
}

#[test]
fn writes_decimal_numbers() {
    let mut s = String::from("n=");
    push_decimal(&mut s, 0);
    assert_eq!(s, "n=0");
    let mut s = String::new();
    push_decimal(&mut s, 18446744073709551615);
    assert_eq!(s, "18446744073709551615");
    let mut s = String::new();
    push_signed_decimal(&mut s, -42);
    assert_eq!(s, "-42");
    let mut s = String::new();
    push_signed_decimal(&mut s, i64::MIN);
    assert_eq!(s, i64::MIN.to_string());
}

#[test]
fn compares_words() {
    assert!(word_is(&chars("CAPA"), "CAPA"));
    assert!(!word_is(&chars("capa"), "CAPA"));
    assert!(word_is_ignoring_case(&chars("HeLo"), "helo"));
    assert!(!word_is_ignoring_case(&chars("hel"), "helo"));
    assert!(!word_is_ignoring_case(&chars("HELP"), "helo"));
}

#[test]
fn round_trips_characters() {
    let c = chars_of("héllo ✓");
    assert_eq!(c, vec!['h', 'é', 'l', 'l', 'o', ' ', '✓']);
    assert_eq!(string_of(&c), "héllo ✓");
}
