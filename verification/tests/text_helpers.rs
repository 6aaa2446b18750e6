use lib::jobs::{push_decimal, push_signed_decimal};
use lib::text::{
    chars_equal, chars_of, contains_char, is_white_space_char, split_on, starts_with_chars,
    string_from_chars, trimmed_end_len,
};

#[test]
fn split_on_bar_keeps_empty_pieces() {
    assert_eq!(split_on("a|b||", '|'), vec!["a", "b", "", ""]);
    assert_eq!(split_on("", '|'), vec![""]);
    assert_eq!(split_on("no bar", '|'), vec!["no bar"]);
}

#[test]
fn split_then_join_gives_back_the_text() {
    for s in ["a|b||c", "|", "", "x y  z"] {
        for sep in ['|', ' '] {
            let pieces = split_on(s, sep);
            assert_eq!(pieces.join(&sep.to_string()), s);
            assert_eq!(pieces.len(), s.matches(sep).count() + 1);
        }
    }
}

#[test]
fn trimming_trailing_white_space_is_idempotent() {
    let v = chars_of("ab \t\u{2029}\n");
    let n = trimmed_end_len(&v);
    assert_eq!(n, 2);
    let once: Vec<char> = v[..n].to_vec();
    assert_eq!(trimmed_end_len(&once), n);
}

#[test]
fn chars_round_trip() {
    let s = "héllo wörld";
    assert_eq!(string_from_chars(&chars_of(s)), s);
}

#[test]
fn white_space_is_the_unicode_set() {
    for c in [' ', '\t', '\n', '\u{b}', '\u{c}', '\r', '\u{85}', '\u{a0}', '\u{1680}', '\u{2000}', '\u{200a}', '\u{2028}', '\u{2029}', '\u{202f}', '\u{205f}', '\u{3000}'] {
        assert!(is_white_space_char(c));
        assert!(c.is_whitespace());
    }
    for c in ['a', '\u{200b}', '\u{feff}', '\u{180e}', '\0', '|'] {
        assert!(!is_white_space_char(c));
        assert!(!c.is_whitespace());
    }
}

#[test]
fn prefix_equality_and_membership() {
    let s = chars_of("start notepad");
    assert!(starts_with_chars(&s, &chars_of("start")));
    assert!(!starts_with_chars(&chars_of("sta"), &chars_of("start")));
    assert!(chars_equal(&chars_of("jobs"), &chars_of("jobs")));
    assert!(!chars_equal(&chars_of("jobs"), &chars_of("job")));
    assert!(contains_char(&chars_of("a|b"), '|'));
    assert!(!contains_char(&s, '|'));
}

#[test]
fn decimal_text() {
    let mut out = String::from("n=");
    push_decimal(&mut out, 0);
    push_decimal(&mut out, 1907);
    push_signed_decimal(&mut out, -10);
    assert_eq!(out, "n=01907-10");
}
