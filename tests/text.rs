use rsvp_reader::text::{calculate_orp, is_whitespace, tokenize_text};

#[test]
fn orp_table_boundaries() {
    let cases: [(usize, usize); 12] = [
        (0, 0),
        (1, 0),
        (2, 1),
        (5, 1),
        (6, 2),
        (9, 2),
        (10, 3),
        (13, 3),
        (14, 4),
        (15, 4),
        (40, 4),
        (3, 1),
    ];
    for (len, want) in cases {
        let word = "x".repeat(len);
        assert_eq!(calculate_orp(&word), want, "length {}", len);
    }
}

#[test]
fn orp_counts_characters_not_bytes() {
    // five characters, ten bytes
    assert_eq!(calculate_orp("ééééé"), 1);
    // six characters
    assert_eq!(calculate_orp("éééééé"), 2);
}

#[test]
fn orp_is_monotonic_and_bounded() {
    let mut prev = 0;
    for len in 0..60 {
        let o = calculate_orp(&"a".repeat(len));
        assert!(o >= prev);
        assert!(o <= 4);
        assert!(o <= len);
        prev = o;
    }
}

#[test]
fn tokenize_splits_on_whitespace_runs() {
    let t = tokenize_text("  Hello,   world!\tThis\n\nis  a TEST.  ");
    assert_eq!(t, vec!["Hello,", "world!", "This", "is", "a", "TEST."]);
}

#[test]
fn tokenize_empty_and_blank() {
    assert!(tokenize_text("").is_empty());
    assert!(tokenize_text(" \t\r\n  ").is_empty());
    assert!(tokenize_text("\u{3000}\u{a0}\u{2009}").is_empty());
}

#[test]
fn tokenize_unicode_whitespace_and_words() {
    let t = tokenize_text("naïve\u{a0}café\u{2003}日本語");
    assert_eq!(t, vec!["naïve", "café", "日本語"]);
}

#[test]
fn tokenize_matches_split_whitespace() {
    let samples = [
        "one",
        " a b  c ",
        "x\u{85}y\u{1680}z\u{2028}w\u{202f}v\u{205f}u\u{b}t\u{c}s",
        "zero\u{200b}width stays",
    ];
    for s in samples {
        let want: Vec<String> = s.split_whitespace().map(|w| w.to_string()).collect();
        assert_eq!(tokenize_text(s), want, "{:?}", s);
    }
}

#[test]
fn tokenize_round_trip() {
    let samples = ["  a  b\tc\n", "", "   ", "single", "x  y"];
    for s in samples {
        let once = tokenize_text(s);
        let again = tokenize_text(&once.join(" "));
        assert_eq!(once, again);
    }
}

#[test]
fn whitespace_classification() {
    for c in [' ', '\t', '\n', '\r', '\u{b}', '\u{c}', '\u{85}', '\u{a0}', '\u{3000}', '\u{2000}', '\u{200a}'] {
        assert!(is_whitespace(c), "{:?}", c);
        assert!(c.is_whitespace());
    }
    for c in ['a', '.', '\u{200b}', '\u{180e}', '\u{feff}', '0'] {
        assert!(!is_whitespace(c), "{:?}", c);
        assert!(!c.is_whitespace());
    }
}

#[test]
fn whitespace_agrees_with_std_on_every_char() {
    for u in 0u32..=0x10FFFF {
        if let Some(c) = char::from_u32(u) {
            assert_eq!(is_whitespace(c), c.is_whitespace(), "U+{:04X}", u);
        }
    }
}
