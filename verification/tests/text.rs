use cc_sandbox::text::{
    chars_of, contains_text, decimal_text, has_char, is_white_space, join_text, lines_of, pad_left,
    pad_right, same_text, signed_decimal_text, starts_with, text_of, trim, words_of,
};

const SAMPLES: [&str; 14] = [
    "",
    " ",
    "\n",
    "a",
    " a ",
    "a\nb",
    "a\nb\n",
    "\n\na",
    "a\r\nb\r\n",
    "a\r",
    "\t a \u{2003} b\u{a0}c \u{3000}",
    "x  y\tz\r\n\n w",
    "é\u{85}ü\u{1680}",
    "\u{200b}a\u{200b}",
];

fn texts(pieces: &Vec<Vec<char>>) -> Vec<String> {
    pieces.iter().map(|p| p.iter().collect()).collect()
}

#[test]
fn white_space_is_that_of_std() {
    for code in 0..=0x10ffffu32 {
        if let Some(c) = char::from_u32(code) {
            assert_eq!(is_white_space(c), c.is_whitespace(), "{code:x}");
        }
    }
}

#[test]
fn trimming_lines_and_words_are_those_of_std() {
    for s in SAMPLES {
        assert_eq!(trim(s), s.trim(), "{s:?}");
        assert_eq!(texts(&lines_of(s)), s.lines().collect::<Vec<_>>(), "{s:?}");
        assert_eq!(
            texts(&words_of(&chars_of(s))),
            s.split_whitespace().collect::<Vec<_>>(),
            "{s:?}"
        );
    }
}

#[test]
fn searching_is_that_of_std() {
    let parts = ["", "a", "b", "\n", "a\n", " ", "ab", "\r\nb"];
    for s in SAMPLES {
        for part in parts {
            assert_eq!(contains_text(s, part), s.contains(part), "{s:?} {part:?}");
            assert_eq!(starts_with(&chars_of(s), part), s.starts_with(part));
            assert_eq!(same_text(s, part), s == part);
        }
        assert_eq!(has_char(s, 'b'), s.contains('b'));
    }
}

#[test]
fn numbers_are_written_in_decimal() {
    for n in [0u64, 7, 10, 99, 100, 2049, u64::MAX] {
        assert_eq!(decimal_text(n), n.to_string());
    }
    for n in [0i64, -1, 42, -60, i64::MAX, i64::MIN] {
        assert_eq!(signed_decimal_text(n), n.to_string());
    }
}

#[test]
fn padding_counts_characters() {
    for s in ["", "a", "é", "name", "longer than that"] {
        for width in [0usize, 1, 4, 9] {
            assert_eq!(pad_right(s, width), format!("{s:<width$}"));
            assert_eq!(pad_left(s, width), format!("{s:>width$}"));
        }
    }
}

#[test]
fn joining_puts_the_separator_between() {
    let parts: Vec<String> = vec!["a".into(), "".into(), "b".into()];
    assert_eq!(join_text(&parts, ", "), parts.join(", "));
    assert_eq!(join_text(&vec![], ", "), "");
    assert_eq!(text_of(&chars_of("abcdé"), 2, 5), "cdé");
}
