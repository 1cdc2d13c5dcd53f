//! The text operations against those of the standard library.
use keystore::text;

const SAMPLES: [&str; 14] = [
    "",
    " ",
    "a",
    "/",
    "a/b/c",
    "//",
    " key1 , key2 ",
    "\u{3000}x\u{2003}y\u{a0}",
    "tschüß=x=y",
    "line\r\n\n",
    "\n\r",
    "no\nbreak at the end",
    "aaab",
    "op://vault/item/field",
];

#[test]
fn white_space_is_that_of_the_standard_library() {
    for code in 0..=0x10ffff_u32 {
        if let Some(c) = char::from_u32(code) {
            assert_eq!(text::is_whitespace(c), c.is_whitespace(), "U+{:04X}", code);
        }
    }
}

#[test]
fn trimming_is_that_of_the_standard_library() {
    for s in SAMPLES {
        assert_eq!(text::trimmed(s), s.trim());
        assert_eq!(text::without_line_breaks(s), s.trim_end_matches(['\n', '\r']));
    }
}

#[test]
fn splitting_is_that_of_the_standard_library() {
    for s in SAMPLES {
        for sep in ['/', ',', '=', 'a'] {
            assert_eq!(text::split_at_each(s, sep), s.split(sep).collect::<Vec<&str>>());
        }
    }
}

#[test]
fn searching_is_that_of_the_standard_library() {
    for s in SAMPLES {
        for t in SAMPLES {
            assert_eq!(text::contains(s, t), s.contains(t));
            assert_eq!(text::starts_with(s, t), s.starts_with(t));
            assert_eq!(text::strip_prefix(s, t), s.strip_prefix(t));
            assert_eq!(text::same(s, t), s == t);
        }
        for c in ['/', '=', 'ß', ' '] {
            assert_eq!(text::contains_char(s, c), s.contains(c));
            let bytes = s.rfind(c);
            let chars = bytes.map(|at| s[..at].chars().count());
            assert_eq!(text::rfind(s, c), chars);
        }
        assert_eq!(text::chars_of(s), s.chars().collect::<Vec<char>>());
    }
}

#[test]
fn decimals_are_those_of_the_standard_library() {
    for n in [0, 1, 9, 10, 30, 99, 100, 12345, u128::MAX] {
        assert_eq!(text::decimal_text(n), n.to_string());
    }
}

#[test]
fn joined_pieces_split_again() {
    assert_eq!(text::split_at_each("a,,b", ','), vec!["a", "", "b"]);
    assert_eq!(text::split_at_each("a,,b", ',').join(","), "a,,b");
    assert_eq!(text::split_at_each("x,y,z", ','), vec!["x", "y", "z"]);
}
