use rpn_calc::text::{characters, is_blank, is_white, split_fields, trim};

#[test]
fn characters_keeps_every_char_in_order() {
    assert_eq!(characters("a b\u{e9}"), vec!['a', ' ', 'b', '\u{e9}']);
    assert_eq!(characters(""), Vec::<char>::new());
}

#[test]
fn blank_agrees_with_ascii_whitespace_on_every_char() {
    for code in 0u32..=0x10FFFF {
        if let Some(c) = char::from_u32(code) {
            assert_eq!(is_blank(c), c.is_ascii_whitespace(), "U+{:04X}", code);
        }
    }
}

#[test]
fn vertical_tab_is_white_but_not_blank() {
    assert!(!is_blank('\u{0B}'));
    assert!(is_white('\u{0B}'));
}

#[test]
fn white_agrees_with_unicode_whitespace_on_every_char() {
    for code in 0u32..=0x10FFFF {
        if let Some(c) = char::from_u32(code) {
            assert_eq!(is_white(c), c.is_whitespace(), "U+{:04X}", code);
        }
    }
}

#[test]
fn zero_width_space_is_not_white() {
    assert!(!is_white('\u{200B}'));
    assert!(!is_white('\u{180E}'));
    assert!(is_white('\u{3000}'));
    assert!(is_white('\u{A0}'));
}

#[test]
fn split_fields_of_empty_line_is_empty() {
    assert_eq!(split_fields(""), Vec::<&str>::new());
    assert_eq!(split_fields("   \t\n"), Vec::<&str>::new());
}

#[test]
fn split_fields_keeps_order_and_drops_blanks() {
    assert_eq!(split_fields("3 4 +"), vec!["3", "4", "+"]);
    assert_eq!(split_fields("  10\t\t2 \r\n /  "), vec!["10", "2", "/"]);
    assert_eq!(split_fields("one"), vec!["one"]);
    assert_eq!(split_fields("a\u{0C}b"), vec!["a", "b"]);
}

#[test]
fn split_fields_does_not_split_on_other_white_space() {
    assert_eq!(split_fields("1\u{0B}2"), vec!["1\u{0B}2"]);
    assert_eq!(split_fields("1\u{A0}2 3"), vec!["1\u{A0}2", "3"]);
    assert_eq!(split_fields("\u{e9}t\u{e9} 1"), vec!["\u{e9}t\u{e9}", "1"]);
}

#[test]
fn split_fields_agrees_with_std_on_samples() {
    let samples = [
        "",
        " ",
        "a",
        " a",
        "a ",
        "a b",
        "a  b",
        "\ta\nb\rc\u{0C}d ",
        "1.5 -2 * 3e2 /",
        "\u{2003}x\u{2003} y",
        "++ -- 12 + 3",
    ];
    for line in samples {
        let expected: Vec<&str> = line.split_ascii_whitespace().collect();
        assert_eq!(split_fields(line), expected, "{:?}", line);
    }
}

#[test]
fn trim_removes_white_space_at_both_ends_only() {
    assert_eq!(trim("  3 4 +\n"), "3 4 +");
    assert_eq!(trim(":quit\r\n"), ":quit");
    assert_eq!(trim("\u{3000}\u{A0}1  2\u{2009}"), "1  2");
    assert_eq!(trim(""), "");
    assert_eq!(trim(" \t "), "");
    assert_eq!(trim("x"), "x");
    assert_eq!(trim("\u{200B}x "), "\u{200B}x");
}

#[test]
fn trim_agrees_with_std_on_samples() {
    let samples = [
        "",
        " ",
        "\n",
        "a",
        " a",
        "a ",
        " a b ",
        "\u{0B}\u{0C}a\u{85}",
        "\u{1680}\u{2028}\u{2029}\u{202F}\u{205F}z\u{2000}\u{200A}",
        "  :trace  ",
        "\u{feff}a",
    ];
    for line in samples {
        assert_eq!(trim(line), line.trim(), "{:?}", line);
    }
}
