use hyper_reverse_proxy::headers::has_item;
use hyper_reverse_proxy::text::{chars_of, is_name, is_space, lower, same_text, split, trim};

#[test]
fn splits_at_every_separator() {
    assert_eq!(split("", ','), vec![""]);
    assert_eq!(split("abc", ','), vec!["abc"]);
    assert_eq!(split(",a,,b,", ','), vec!["", "a", "", "b", ""]);
    assert_eq!(split("gr\u{fc}n=\u{1f355}=x", '='), vec!["gr\u{fc}n", "\u{1f355}", "x"]);
}

#[test]
fn split_agrees_with_std() {
    for s in ["", "&", "a&b", "&&a", "a=b&c=d&", "\u{e4}&\u{f6}"] {
        assert_eq!(split(s, '&'), s.split('&').collect::<Vec<&str>>());
        assert_eq!(split(s, '&').join("&"), s);
    }
}

#[test]
fn trims_both_ends() {
    assert_eq!(trim(""), "");
    assert_eq!(trim(" \t "), "");
    assert_eq!(trim("\t a b \u{3000}"), "a b");
    assert_eq!(trim("a"), "a");
}

#[test]
fn whitespace_agrees_with_std() {
    for code in 0..0x11_0000u32 {
        if let Some(c) = char::from_u32(code) {
            assert_eq!(is_space(c), c.is_whitespace());
            assert_eq!(lower(c), c.to_ascii_lowercase());
        }
    }
}

#[test]
fn compares_texts() {
    assert!(same_text("", ""));
    assert!(same_text("k\u{e4}se", "k\u{e4}se"));
    assert!(!same_text("a", "A"));
    assert!(!same_text("a", "ab"));
    assert!(is_name("UpGrade", "upgrade"));
    assert!(!is_name("upgrades", "upgrade"));
    assert!(!is_name("\u{fc}pgrade", "upgrade"));
    assert_eq!(chars_of("a\u{1f355}"), vec!['a', '\u{1f355}']);
}

#[test]
fn finds_items_of_a_list() {
    assert!(has_item("keep-alive, Upgrade", "upgrade"));
    assert!(has_item("\tUPGRADE ,", "upgrade"));
    assert!(!has_item("keep-alive;upgrade", "upgrade"));
    assert!(!has_item("", "upgrade"));
    assert!(has_item(",", ""));
}

#[test]
fn list_lookup_ignores_case() {
    for text in ["Keep-Alive, UPGRADE", " upgrade", "a,b , c", "Upgrade;x"] {
        assert_eq!(has_item(text, "upgrade"), has_item(&text.to_lowercase(), "upgrade"));
    }
}
