use backstage_app_lib::text::{
    chars_less, chars_of, ends_with, normalize_separators, push_decimal, push_text,
    same_text, split_slash, starts_with, string_of, strip_prefix, trim,
};

#[test]
fn separators_become_forward_slashes() {
    assert_eq!(normalize_separators("C:\\work\\repo/x"), "C:/work/repo/x");
    assert_eq!(normalize_separators(""), "");
}

#[test]
fn prefixes_and_suffixes_compare_characters() {
    assert!(starts_with("openspec/changes", "openspec"));
    assert!(!starts_with("open", "openspec"));
    assert!(starts_with("é-x", "é"));
    assert!(ends_with("pi 0.82.1", "0.82.1"));
    assert!(!ends_with("0.82.10", "0.82.1"));
    assert_eq!(strip_prefix("ref: refs/heads/main", "ref: refs/heads/").as_deref(), Some("main"));
    assert_eq!(strip_prefix("main", "ref: "), None);
}

#[test]
fn trimming_removes_unicode_white_space_at_both_ends() {
    assert_eq!(trim("  \t value \r\n"), "value");
    assert_eq!(trim("\u{00a0}\u{3000}x y\u{2028}"), "x y");
    assert_eq!(trim("   "), "");
    assert_eq!(trim(""), "");
}

#[test]
fn text_building_blocks() {
    let mut s = "x".to_owned();
    push_text(&mut s, "=");
    push_decimal(&mut s, 0);
    push_text(&mut s, ",");
    push_decimal(&mut s, 18_446_744_073_709_551_615);
    assert_eq!(s, "x=0,18446744073709551615");
    assert!(same_text("é", "é"));
    assert!(!same_text("e", "é"));
    let cs = chars_of("añb");
    assert_eq!(cs, ['a', 'ñ', 'b']);
    assert_eq!(string_of(&cs, 1, 3), "ñb");
}

#[test]
fn character_order_is_lexicographic_by_code_point() {
    assert!(chars_less("alpha", "beta"));
    assert!(chars_less("alp", "alpha"));
    assert!(!chars_less("alpha", "alpha"));
    assert!(chars_less("Zeta", "alpha"));
    assert!(!chars_less("b", "a"));
    assert!(chars_less("", "a"));
}

#[test]
fn slash_splitting_keeps_empty_segments() {
    assert_eq!(split_slash("a/b/c"), ["a", "b", "c"]);
    assert_eq!(split_slash("/a//b/"), ["", "a", "", "b", ""]);
    assert_eq!(split_slash(""), [""]);
}

#[test]
fn trimming_agrees_with_std_white_space_for_every_character() {
    for code in 0u32..=0x10ffff {
        if let Some(c) = char::from_u32(code) {
            let text = c.to_string();
            assert_eq!(trim(&text).is_empty(), c.is_whitespace(), "U+{code:04X}");
        }
    }
}
