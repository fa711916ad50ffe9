use spheres::text::{ends_with, equals_folded, replace, split_on_commas, trim, trim_parens};

#[test]
fn trim_parens_drops_brackets_at_both_ends_only() {
    assert_eq!(trim_parens("((a(b)c))"), "a(b)c");
    assert_eq!(trim_parens(")(x)("), "x");
    assert_eq!(trim_parens("()()"), "");
    assert_eq!(trim_parens("plain"), "plain");
}

#[test]
fn split_on_commas_keeps_empty_pieces() {
    assert_eq!(split_on_commas("a,,b,"), vec!["a", "", "b", ""]);
    assert_eq!(split_on_commas(""), vec![""]);
    assert_eq!(split_on_commas("x"), vec!["x"]);
}

#[test]
fn ends_with_compares_characters() {
    assert!(ends_with("scene.json", ".json"));
    assert!(!ends_with("json", ".json"));
    assert!(ends_with("x", ""));
    assert!(!ends_with("scene.JSON", ".json"));
}

#[test]
fn replace_takes_occurrences_from_the_left() {
    assert_eq!(replace("aaa", "aa", "b"), "ba");
    assert_eq!(replace("x.json.y", ".json", ".png"), "x.png.y");
    assert_eq!(replace("none", ".json", ".png"), "none");
}

#[test]
fn equals_folded_lowers_ascii_only() {
    assert!(equals_folded("HeLLo", "hello"));
    assert!(!equals_folded("hello", "HELLO"));
    assert!(!equals_folded("hell", "hello"));
}

#[test]
fn replace_with_an_empty_pattern_matches_std() {
    assert_eq!(replace("ab", "", "x"), "xaxbx");
    assert_eq!(replace("", "", "x"), "x");
    assert_eq!(replace("é", "", "-"), "é".replace("", "-"));
}

#[test]
fn trim_removes_unicode_white_space_as_std_does() {
    let samples = [
        "  a b \t",
        "\u{3000}x\u{85}",
        "\u{a0}\u{2028}y\u{2029}\u{202f}\u{205f}",
        "\u{200b}z",
        "\u{1680}\u{2000}\u{200a}",
        "",
        "\n\r\u{b}\u{c}w",
    ];
    for s in samples.iter() {
        assert_eq!(trim(s), s.trim());
    }
    assert_eq!(trim("\u{200b}z "), "\u{200b}z");
}
