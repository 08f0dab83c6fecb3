use grok_pager::text::{
    join_str, parse_usize, split_non_empty, split_once_char, starts_with, str_eq, trim,
    usize_to_decimal,
};

#[test]
fn trim_removes_unicode_white_space_only() {
    assert_eq!(trim("  a b \t\n"), "a b");
    assert_eq!(trim("\u{85}\u{2003}x\u{3000}"), "x");
    assert_eq!(trim("\u{200b}x"), "\u{200b}x");
    assert_eq!(trim("   "), "");
    assert_eq!(trim(""), "");
}

#[test]
fn split_once_takes_the_first_separator() {
    assert_eq!(split_once_char("a+b+c", '+'), ("a", Some("b+c")));
    assert_eq!(split_once_char("abc", '+'), ("abc", None));
    assert_eq!(split_once_char("+", '+'), ("", Some("")));
}

#[test]
fn split_non_empty_drops_empty_pieces() {
    assert_eq!(split_non_empty("a..b.", '.'), vec!["a", "b"]);
    assert_eq!(split_non_empty("", '.'), Vec::<&str>::new());
    assert_eq!(split_non_empty("é.ü", '.'), vec!["é", "ü"]);
}

#[test]
fn join_puts_separator_between_parts() {
    assert_eq!(join_str(&vec!["a", "b", "c"], "."), "a.b.c");
    assert_eq!(join_str(&vec!["a"], "."), "a");
    assert_eq!(join_str(&vec![], "."), "");
}

#[test]
fn parse_usize_matches_std() {
    for s in ["0", "42", "+42", "007", "", "+", "-1", "4 2", "1a", "18446744073709551615", "18446744073709551616"] {
        assert_eq!(parse_usize(s), s.parse::<usize>().ok(), "{:?}", s);
    }
}

#[test]
fn decimal_matches_to_string() {
    for n in [0usize, 7, 10, 99, 1000, 123456789, usize::MAX] {
        assert_eq!(usize_to_decimal(n), n.to_string());
    }
}

#[test]
fn equality_and_prefix() {
    assert!(str_eq("tbhaxor", "tbhaxor"));
    assert!(!str_eq("tbhaxor", "tbhaxo"));
    assert!(starts_with("tbhaxor-abc", "tbhaxor-"));
    assert!(!starts_with("tbhaxor", "tbhaxor-"));
    assert!(starts_with("x", ""));
}

#[test]
fn white_space_matches_char_is_whitespace() {
    for u in 0u32..=0x10FFFF {
        if let Some(c) = char::from_u32(u) {
            assert_eq!(grok_pager::text::is_white_space_char(c), c.is_whitespace(), "{:?}", c);
        }
    }
}
