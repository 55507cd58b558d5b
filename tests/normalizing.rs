use typing_tutor::normalize::{is_white_space, normalize};

#[test]
fn trims_both_ends() {
    assert_eq!(normalize("   hello world \t"), "hello world");
}

#[test]
fn drops_non_ascii_characters() {
    assert_eq!(normalize("caf\u{e9} na\u{ef}ve"), "caf nave");
}

#[test]
fn white_space_becomes_space() {
    assert_eq!(normalize("a\tb\x0bc\x0cd"), "a b c d");
}

#[test]
fn white_space_runs_collapse_to_one_space() {
    assert_eq!(normalize("a \t b"), "a b");
    assert_eq!(normalize("a  b\u{e9}"), "a b");
    assert_eq!(normalize("a \u{e9} \u{3000}  b"), "a b");
}

#[test]
fn unicode_white_space_is_trimmed() {
    assert_eq!(normalize("\u{a0}\u{3000}abc\u{2003}"), "abc");
}

#[test]
fn space_exposed_by_dropping_is_trimmed() {
    assert_eq!(normalize("\u{e9} abc"), "abc");
    assert_eq!(normalize("abc \u{e9}"), "abc");
    assert_eq!(normalize("a\u{e9}b"), "ab");
    assert_eq!(normalize(" abc"), "abc");
}

#[test]
fn normalized_text_is_unchanged() {
    let once = normalize("  The quick\tbrown \u{2014} fox  ");
    assert_eq!(once, "The quick brown fox");
    assert_eq!(normalize(&once), once);
}

#[test]
fn mixed_text_comes_out_ascii() {
    let out = normalize("\u{3b1}\u{3b2} x\u{2003}y \u{1f600}z");
    assert!(out.is_ascii());
    assert_eq!(out, "xy z");
}

#[test]
fn blank_and_foreign_lines_normalize_to_nothing() {
    assert_eq!(normalize(""), "");
    assert_eq!(normalize(" \t  "), "");
    assert_eq!(normalize("\u{65e5}\u{672c}"), "");
}

#[test]
fn white_space_classification() {
    for c in [' ', '\t', '\n', '\r', '\x0b', '\x0c', '\u{85}', '\u{a0}', '\u{1680}', '\u{2000}',
        '\u{200a}', '\u{2028}', '\u{2029}', '\u{202f}', '\u{205f}', '\u{3000}']
    {
        assert!(is_white_space(c), "{:?}", c);
        assert_eq!(is_white_space(c), c.is_whitespace());
    }
    for c in ['a', '0', '_', '\u{0}', '\u{200b}', '\u{180e}', '\u{e9}', '\u{feff}'] {
        assert!(!is_white_space(c), "{:?}", c);
        assert_eq!(is_white_space(c), c.is_whitespace());
    }
}

#[test]
fn normalizing_twice_changes_nothing() {
    for s in ["\u{e9} a", " \u{e9}  a \t\u{3b1} b ", "", "x", "  \t ", "a\u{2003}\u{2003}b"] {
        let once = normalize(s);
        assert_eq!(normalize(&once), once, "{:?}", s);
        assert!(!once.contains("  "));
        assert!(!once.starts_with(' ') && !once.ends_with(' '));
    }
}
