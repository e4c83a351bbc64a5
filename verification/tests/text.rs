use adam::text::{find_char, is_whitespace, split_once, split_whitespace, strip_prefix, trim};

#[test]
fn first_occurrence_is_found_by_character_position() {
    assert_eq!(find_char("values.append", '.'), Some(6));
    assert_eq!(find_char("a.b.c", '.'), Some(1));
    assert_eq!(find_char("none", '.'), None);
    assert_eq!(find_char("éa.b", '.'), Some(2));
}

#[test]
fn splitting_happens_at_the_first_separator() {
    assert_eq!(split_once("a.b.c", '.'), Some(("a", "b.c")));
    assert_eq!(split_once(".x", '.'), Some(("", "x")));
    assert_eq!(split_once("x.", '.'), Some(("x", "")));
    assert_eq!(split_once("éé.ü", '.'), Some(("éé", "ü")));
    assert_eq!(split_once("abc", '.'), None);
}

#[test]
fn prefixes_are_stripped_only_when_present() {
    assert_eq!(strip_prefix("preferences.tone", "preferences."), Some("tone"));
    assert_eq!(strip_prefix("preferences.", "preferences."), Some(""));
    assert_eq!(strip_prefix("prefs.tone", "preferences."), None);
    assert_eq!(strip_prefix("pre", "preferences."), None);
}

#[test]
fn tokens_are_the_maximal_runs_of_non_whitespace() {
    assert_eq!(split_whitespace("  the build\tfailed \n"), vec!["the", "build", "failed"]);
    assert_eq!(split_whitespace("a\u{3000}b\u{a0}c"), vec!["a", "b", "c"]);
    assert!(split_whitespace("").is_empty());
    assert!(split_whitespace(" \t\r\n").is_empty());
    assert_eq!(split_whitespace("one"), vec!["one"]);
}

#[test]
fn whitespace_is_the_unicode_white_space_set() {
    for c in [' ', '\t', '\n', '\u{b}', '\u{c}', '\r', '\u{85}', '\u{a0}', '\u{1680}', '\u{2000}', '\u{200a}', '\u{2028}', '\u{2029}', '\u{202f}', '\u{205f}', '\u{3000}'] {
        assert!(is_whitespace(c), "{c:?}");
    }
    for c in ['a', '.', '\u{200b}', '\u{180e}', '\u{0}', '\u{1f}'] {
        assert!(!is_whitespace(c), "{c:?}");
    }
}

#[test]
fn trimming_drops_leading_and_trailing_whitespace_only() {
    assert_eq!(trim("  a b \t\r\n"), "a b");
    assert_eq!(trim("\u{3000}x\u{a0}"), "x");
    assert_eq!(trim("   "), "");
    assert_eq!(trim(""), "");
    assert_eq!(trim("ab"), "ab");
}
