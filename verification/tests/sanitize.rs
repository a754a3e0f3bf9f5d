use unicode_segmentation::UnicodeSegmentation;
use webp_tray::sanitize::{
    cap_graphemes, ellipsize_left, is_dos_reserved, is_unrenderable, is_windows_reserved,
    sanitize_stem, MAX_STEM_GRAPHEMES,
};

#[test]
fn keeps_normal_text() {
    assert_eq!(sanitize_stem("hello world"), "hello world");
    assert_eq!(sanitize_stem("café"), "café");
}

#[test]
fn keeps_cjk_and_emoji() {
    assert_eq!(sanitize_stem("猫の写真"), "猫の写真");
    assert_eq!(sanitize_stem("party 🎉 time"), "party 🎉 time");
    // Multi-codepoint emoji (grapheme cluster) survives.
    assert_eq!(sanitize_stem("👨‍👩‍👧"), "👨‍👩‍👧");
}

#[test]
fn strips_tofu() {
    assert_eq!(sanitize_stem("foo\u{E000}bar"), "foobar");
    assert_eq!(sanitize_stem("a\u{200B}b"), "ab"); // ZWSP
    assert_eq!(sanitize_stem("name\x01here"), "namehere"); // ASCII control
    assert_eq!(sanitize_stem("BOM\u{FEFF}here"), "BOMhere"); // BOM
}

#[test]
fn preserves_zwj_for_emoji() {
    let family = "👨\u{200D}👩\u{200D}👧";
    assert_eq!(sanitize_stem(family), family);
}

#[test]
fn preserves_zwnj_for_persian() {
    let s = "می\u{200C}روم";
    assert_eq!(sanitize_stem(s), s);
}

#[test]
fn strips_reserved_windows_chars() {
    assert_eq!(sanitize_stem("foo:bar?baz"), "foobarbaz");
}

#[test]
fn collapses_whitespace_and_trims_dots() {
    assert_eq!(sanitize_stem("  many   spaces  "), "many spaces");
    assert_eq!(sanitize_stem("trailing..."), "trailing");
}

#[test]
fn fully_stripped_falls_back() {
    assert_eq!(sanitize_stem("\u{E000}\u{E001}"), "image");
    assert_eq!(sanitize_stem(""), "image");
}

#[test]
fn handles_dos_reserved() {
    assert_eq!(sanitize_stem("CON"), "_CON");
    assert_eq!(sanitize_stem("con"), "_con");
    assert_eq!(sanitize_stem("LPT3"), "_LPT3");
    // Only exact matches; substring or longer name is fine.
    assert_eq!(sanitize_stem("CONsole"), "CONsole");
}

#[test]
fn caps_long_stems() {
    let long = "a".repeat(500);
    let out = sanitize_stem(&long);
    assert_eq!(out.chars().count(), MAX_STEM_GRAPHEMES);
}

#[test]
fn caps_long_cjk_without_panic() {
    let long: String = "猫".repeat(200);
    let out = sanitize_stem(&long);
    assert_eq!(out.graphemes(true).count(), MAX_STEM_GRAPHEMES);
    assert!(out.chars().all(|c| c == '猫'));
}

#[test]
fn ellipsize_left_handles_unicode() {
    assert_eq!(ellipsize_left("short", 10), "short");
    let s = "猫の写真フォルダー/very/long/path";
    let out = ellipsize_left(s, 10);
    assert!(out.starts_with('…'));
    assert!(out.graphemes(true).count() <= 10);
}

#[test]
fn whitespace_control_chars_are_stripped_not_collapsed() {
    // Tabs and newlines are Control characters: dropped, not turned into spaces.
    assert_eq!(sanitize_stem("a\tb\nc"), "abc");
    // Non-breaking space is whitespace but renderable: collapsed to one space.
    assert_eq!(sanitize_stem("a\u{00A0}\u{00A0}b"), "a b");
}

#[test]
fn dots_and_spaces_only_fall_back() {
    assert_eq!(sanitize_stem(" . . "), "image");
    assert_eq!(sanitize_stem("..hidden"), "hidden");
}

#[test]
fn dos_names_all_families() {
    for n in ["prn", "Aux", "nUl", "com1", "COM9", "lpt1", "LpT9"] {
        assert_eq!(sanitize_stem(n), format!("_{n}"));
    }
    assert_eq!(sanitize_stem("COM0"), "COM0");
    assert_eq!(sanitize_stem("LPT10"), "LPT10");
    assert_eq!(sanitize_stem("CON."), "_CON");
    assert!(is_dos_reserved("nul"));
    assert!(!is_dos_reserved("nulL"));
}

#[test]
fn capped_output_is_trimmed_again() {
    // Capping can stop right after a space or a dot; those are trimmed too.
    let s = format!("{} b", "a".repeat(99));
    assert_eq!(sanitize_stem(&s), "a".repeat(99));
    let s = format!("{}.bc", "a".repeat(99));
    assert_eq!(sanitize_stem(&s), "a".repeat(99));
    let s = format!("{}. .bc", "a".repeat(97));
    assert_eq!(sanitize_stem(&s), "a".repeat(97));
}

#[test]
fn cap_graphemes_keeps_clusters_whole() {
    let family = "👨\u{200D}👩\u{200D}👧";
    let s = format!("{family}{family}x");
    assert_eq!(cap_graphemes(&s, 1), family);
    assert_eq!(cap_graphemes(&s, 3), s);
    assert_eq!(cap_graphemes(&s, 0), "");
    assert_eq!(cap_graphemes("e\u{301}e", 1), "e\u{301}");
}

#[test]
fn ellipsize_left_exact_values() {
    assert_eq!(ellipsize_left("abcdef", 4), "…def");
    assert_eq!(ellipsize_left("abcdef", 1), "…");
    assert_eq!(ellipsize_left("abcdef", 0), "");
    assert_eq!(ellipsize_left("", 0), "");
    assert_eq!(ellipsize_left("abcdef", 6), "abcdef");
    assert_eq!(ellipsize_left("ab\r\ncd", 2), "…d");
}

#[test]
fn character_classes() {
    for c in ['<', '>', ':', '"', '/', '\\', '|', '?', '*'] {
        assert!(is_windows_reserved(c));
    }
    assert!(!is_windows_reserved('a'));
    assert!(is_unrenderable('\u{0007}'));
    assert!(is_unrenderable('\u{200B}'));
    assert!(is_unrenderable('\u{E000}'));
    assert!(is_unrenderable('\u{0378}')); // unassigned
    assert!(!is_unrenderable('\u{200D}'));
    assert!(!is_unrenderable('\u{200C}'));
    assert!(!is_unrenderable('a'));
    assert!(!is_unrenderable('猫'));
}
