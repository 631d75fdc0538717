use snops_core::metrics::{is_blank_char, metric_line};

#[test]
fn name_and_value_are_split_at_the_first_space() {
    assert_eq!(metric_line("snarkos_blocks_total 42"), Some(("snarkos_blocks_total", "42")));
    assert_eq!(metric_line("a b c"), Some(("a", "b c")));
    assert_eq!(metric_line("a  b"), Some(("a", " b")));
    assert_eq!(metric_line("k{x=\"1\"} 0.5"), Some(("k{x=\"1\"}", "0.5")));
}

#[test]
fn white_space_at_the_ends_is_dropped() {
    assert_eq!(metric_line("  foo 1.5\t\r"), Some(("foo", "1.5")));
    assert_eq!(metric_line("\u{a0}k v\u{3000}"), Some(("k", "v")));
    assert_eq!(metric_line("\u{2003}k\u{2003}v 1 "), Some(("k\u{2003}v", "1")));
}

#[test]
fn empty_lines_comments_and_lone_words_hold_nothing() {
    assert_eq!(metric_line(""), None);
    assert_eq!(metric_line("   \t "), None);
    assert_eq!(metric_line("# HELP foo bar"), None);
    assert_eq!(metric_line("   #x 1"), None);
    assert_eq!(metric_line("nospace"), None);
    assert_eq!(metric_line("  tab\tonly  "), None);
    assert_eq!(metric_line("x #1"), Some(("x", "#1")));
}

#[test]
fn metric_line_agrees_with_trim_and_split_once() {
    for line in [
        "", " ", "a", "a b", " a b ", "#", "# a", "a #", "é ü", "\u{85}x y\u{2028}", "x\u{a0}y",
        "  multiple   spaces   here  ", "\ttabbed value\t", "a\nb c",
    ] {
        let t = line.trim();
        let want = if t.is_empty() || t.starts_with('#') { None } else { t.split_once(' ') };
        assert_eq!(metric_line(line), want, "{line:?}");
    }
}

#[test]
fn blank_characters_are_those_of_unicode() {
    for u in 0u32..0x3100 {
        if let Some(c) = char::from_u32(u) {
            assert_eq!(is_blank_char(c), c.is_whitespace(), "{u:#x}");
        }
    }
    assert!(!is_blank_char('\u{feff}'));
    assert!(!is_blank_char(char::MAX));
}
