//! Characters, words, lines and numbers.

use kukuryku::number::{parse_u64, to_decimal};
use kukuryku::text;

fn chars(s: &str) -> Vec<char> {
    s.chars().collect()
}

fn string(s: &[char]) -> String {
    s.iter().collect()
}

#[test]
fn whitespace_is_what_unicode_says() {
    for c in '\u{0}'..=char::MAX {
        assert_eq!(text::is_whitespace(c), c.is_whitespace(), "{c:?}");
    }
}

#[test]
fn trimming_matches_std() {
    for s in ["", " ", "a", "  a b ", "\u{a0}x\u{3000}", "\n\t", "x "] {
        assert_eq!(string(text::trim(&chars(s))), s.trim());
        assert_eq!(string(text::trim_start(&chars(s))), s.trim_start());
        assert_eq!(string(text::trim_end(&chars(s))), s.trim_end());
    }
}

#[test]
fn splitting_matches_std() {
    for s in ["", "\n", "a\nb", "a\r\nb\n", "a\rb", "\n\na", "x \u{2003}y\tz ", "a\r"] {
        let lines: Vec<String> = text::split_lines(&chars(s)).iter().map(|l| string(l)).collect();
        assert_eq!(lines, s.lines().collect::<Vec<&str>>());
        let words: Vec<String> =
            text::split_whitespace(&chars(s)).iter().map(|w| string(w)).collect();
        assert_eq!(words, s.split_whitespace().collect::<Vec<&str>>());
    }
}

#[test]
fn joining_puts_separators_between() {
    let parts = vec![chars("a"), chars(""), chars("bc")];
    assert_eq!(string(&text::join(&parts, '-')), "a--bc");
    assert_eq!(text::concat3("x", "yé", "z"), "xyéz");
}

#[test]
fn strings_survive_the_way_to_characters_and_back() {
    for s in ["", "plain", "größe — ‘x’", "\u{1f600}\u{200d}"] {
        assert_eq!(text::string_of(&text::chars_of(s)), s);
    }
}

#[test]
fn numbers_parse_as_in_std() {
    for s in [
        "", "+", "-", "0", "-0", "+7", "007", "12a", " 1", "1 ", "18446744073709551615",
        "18446744073709551616", "+18446744073709551615", "99999999999999999999", "++1", "\u{661}",
    ] {
        assert_eq!(parse_u64(&chars(s)), s.parse::<u64>().ok(), "{s:?}");
    }
}

#[test]
fn decimals_are_read_back() {
    for n in [0, 1, 9, 10, 99, 100, 24000, u64::MAX] {
        assert_eq!(string(&to_decimal(n)), n.to_string());
        assert_eq!(parse_u64(&to_decimal(n)), Some(n));
    }
}
