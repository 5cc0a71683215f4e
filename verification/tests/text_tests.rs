use jwc_crawler::text::{
    chars_of, collapse_blanks, count_char, decimal_i64, lines_of, parse_i32, replace_chars,
    string_of, trim_chars,
};

fn s(v: Vec<char>) -> String {
    string_of(&v)
}

fn replace_str(text: &str, pat: &str, rep: &str) -> String {
    s(replace_chars(&chars_of(text), &chars_of(pat), &chars_of(rep)))
}

#[test]
fn replace_replaces_every_occurrence() {
    assert_eq!(replace_str("a&nbsp;b&nbsp;", "&nbsp;", " "), "a b ");
    assert_eq!(replace_str("aaaa", "aa", "b"), "bb");
    assert_eq!(replace_str("aaa", "aa", "b"), "ba");
    assert_eq!(replace_str("abc", "x", "y"), "abc");
}

#[test]
fn replace_with_empty_pattern_matches_std() {
    assert_eq!(replace_str("ab", "", "x"), "ab".replace("", "x"));
    assert_eq!(replace_str("", "", "x"), "x");
}

#[test]
fn trim_matches_std_trim() {
    for t in ["  a b \t", "\u{a0}\u{3000}x\u{2028}", "", "   ", "x"] {
        assert_eq!(s(trim_chars(&chars_of(t))), t.trim());
    }
}

#[test]
fn trim_twice_is_trim_once() {
    for t in ["  a b \t", "\u{a0}x\u{3000}", " "] {
        let once = trim_chars(&chars_of(t));
        assert_eq!(trim_chars(&once), once);
    }
}

#[test]
fn lines_match_std_lines() {
    for t in ["a\nb", "a\r\nb\n", "\n\nx", "a\r", "", "x\n\n", "\r\n"] {
        let got: Vec<String> = lines_of(&chars_of(t)).into_iter().map(s).collect();
        let want: Vec<String> = t.lines().map(|l| l.to_string()).collect();
        assert_eq!(got, want, "lines of {t:?}");
    }
}

#[test]
fn collapse_runs_of_blanks() {
    assert_eq!(s(collapse_blanks(&chars_of("a  b\t\tc d"))), "a b c d");
    assert_eq!(s(collapse_blanks(&chars_of(" \t x"))), " x");
    assert_eq!(s(collapse_blanks(&chars_of("a \tb"))), "a b");
}

#[test]
fn count_and_decimal() {
    assert_eq!(count_char(&chars_of("| a | b |"), '|'), 3);
    assert_eq!(s(decimal_i64(0)), "0");
    assert_eq!(s(decimal_i64(1207)), "1207");
    assert_eq!(s(decimal_i64(-45)), "-45");
}

#[test]
fn parse_i32_matches_std_parse() {
    for t in ["12", "+7", "-2147483648", "2147483647", "2147483648", "-", "+", "", "1a", "007", "99999999999999999999"] {
        assert_eq!(parse_i32(&chars_of(t)), t.parse::<i32>().ok(), "parse of {t:?}");
    }
}

#[test]
fn replace_chars_on_slices() {
    assert_eq!(s(replace_chars(&chars_of("||a||"), &chars_of("||"), &chars_of("|\n|"))), "|\n|a|\n|");
}
