use phpmd_lsp::text::{
    byte_offset, char_width, contains, ends_with, joined, same_text, split_lines, to_chars, to_text,
    trimmed, whitespace,
};

#[test]
fn white_space_is_that_of_std() {
    for code in 0..=0x10ffff_u32 {
        if let Some(c) = char::from_u32(code) {
            assert_eq!(whitespace(c), c.is_whitespace(), "U+{code:04X}");
        }
    }
}

#[test]
fn widths_are_those_of_std() {
    for c in
        ['a', '\u{7f}', '\u{80}', '\u{7ff}', '\u{800}', '\u{ffff}', '\u{10000}', '\u{10ffff}']
    {
        assert_eq!(char_width(c), c.len_utf8());
    }
}

#[test]
fn lines_are_those_of_std() {
    for text in [
        "", "\n", "a", "a\n", "a\nb", "a\r\nb\r\n", "a\r", "a\r\n\r\nb\r", "\r\n", "\n\n", "a\r\r\nb",
        "\u{e9}\n\u{2028}x",
    ] {
        let expected: Vec<&str> = text.lines().collect();
        assert_eq!(split_lines(text), expected, "{text:?}");
    }
}

#[test]
fn searches_are_those_of_std() {
    let texts = ["", "a", "ab", "aab", "abab", "\u{e9}ab"];
    for text in texts {
        for pattern in texts {
            assert_eq!(contains(text, pattern), text.contains(pattern));
            assert_eq!(ends_with(text, pattern), text.ends_with(pattern));
            assert_eq!(same_text(text, pattern), text == pattern);
            assert_eq!(joined(text, pattern), format!("{text}{pattern}"));
        }
    }
}

#[test]
fn trimming_is_that_of_std() {
    for text in ["", " ", "a", " a ", "\t\u{a0}a b\u{3000}\n", "a "] {
        assert_eq!(to_text(&trimmed(&to_chars(text))), text.trim());
    }
}

#[test]
fn offsets_count_bytes() {
    let text = "a\u{e9}\u{20ac}\u{1f600}b";
    let chars = to_chars(text);
    assert_eq!(chars.len(), 5);
    assert_eq!(byte_offset(text, &chars, 0), 0);
    assert_eq!(byte_offset(text, &chars, 3), 6);
    assert_eq!(byte_offset(text, &chars, 5), text.len());
}
