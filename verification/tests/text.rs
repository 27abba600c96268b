use mdpreview::text::{
    byte_length, chars_of, contains, find, is_whitespace, lines, matches_at, owned, push_decimal,
    push_repeated, replace, same_text, string_of, trim, trim_end, trim_newlines,
};

const SAMPLES: [&str; 14] = [
    "",
    " ",
    "a",
    "  a b  ",
    "\ta\n",
    "a\r\nb\n\nc",
    "\n",
    "\r\n",
    "a\r",
    "a\rb\n",
    "\u{a0}x\u{3000}",
    "größe ≤ 𝛼",
    "x\n\n\n",
    "\u{85}\u{2028}text\u{2029}",
];

#[test]
fn whitespace_is_that_of_unicode() {
    for n in 0..=0x10ffffu32 {
        if let Some(c) = char::from_u32(n) {
            assert_eq!(is_whitespace(c), c.is_whitespace(), "{:x}", n);
        }
    }
}

#[test]
fn trimming_takes_white_space_from_the_ends() {
    for s in SAMPLES {
        assert_eq!(trim(s), s.trim());
        assert_eq!(trim_end(s), s.trim_end());
        assert_eq!(trim_newlines(s), s.trim_end_matches('\n'));
        assert_eq!(trim(&trim(s)), trim(s));
    }
}

#[test]
fn lines_end_in_line_feeds() {
    for s in SAMPLES {
        let expected: Vec<String> = s.lines().map(|line| line.to_string()).collect();
        assert_eq!(lines(s), expected);
    }
    assert_eq!(lines("a\r\nb\r"), vec!["a".to_string(), "b\r".to_string()]);
}

#[test]
fn search_finds_the_first_occurrence() {
    let text = chars_of("abcabc");
    let pattern = chars_of("bc");
    assert_eq!(find(&text, &pattern, 0), Some(1));
    assert_eq!(find(&text, &pattern, 2), Some(4));
    assert_eq!(find(&text, &pattern, 5), None);
    assert!(matches_at(&text, &pattern, 4));
    assert!(!matches_at(&text, &pattern, 3));
    assert!(contains("xterm-kitty", "kitty"));
    assert!(!contains("xterm", "kitty"));
    assert!(contains("", ""));
}

#[test]
fn replacement_goes_from_the_left() {
    let cases = [
        ("aaaa", "aa", "b"),
        ("aaa", "aa", "b"),
        ("\\in\\infty", "\\in", "∈"),
        ("none", "x", "y"),
        ("", "x", "y"),
        ("{{x}}", "{", ""),
    ];
    for (text, from, to) in cases {
        assert_eq!(string_of(&replace(&chars_of(text), from, to)), text.replace(from, to));
    }
}

#[test]
fn texts_are_copied_and_measured() {
    for s in SAMPLES {
        assert_eq!(owned(s), s);
        assert_eq!(byte_length(s), s.len());
        assert_eq!(string_of(&chars_of(s)), s);
        for t in SAMPLES {
            assert_eq!(same_text(s, t), s == t);
        }
    }
}

#[test]
fn numbers_are_written_in_decimal() {
    for n in 0..=255u8 {
        let mut out = "n=".to_string();
        push_decimal(&mut out, n);
        assert_eq!(out, format!("n={}", n));
    }
}

#[test]
fn characters_are_repeated() {
    let mut out = "x".to_string();
    push_repeated(&mut out, '─', 3);
    push_repeated(&mut out, '#', 0);
    assert_eq!(out, "x───");
}
