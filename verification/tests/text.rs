use palank_rag::text::{
    blank, char_is_whitespace, eq_ignore_ascii_case, find_from, join_range, split_lines,
    split_on_breaks, split_on_char, split_words, str_equal, to_chars, to_string, trim_pieces,
    trimmed, CharClass,
};

fn chars(s: &str) -> Vec<char> {
    s.chars().collect()
}

fn strings(v: Vec<Vec<char>>) -> Vec<String> {
    v.into_iter().map(|c| c.into_iter().collect()).collect()
}

#[test]
fn whitespace_is_the_unicode_property() {
    for c in ['\u{0}', 'a', '_', '\u{200B}', '\u{FEFF}', '\u{180E}', '\u{1F}', '\u{E}', '\u{8}'] {
        assert!(!char_is_whitespace(c));
    }
    let mut count = 0;
    for code in 0u32..=0x10FFFF {
        if let Some(c) = char::from_u32(code) {
            assert_eq!(char_is_whitespace(c), c.is_whitespace(), "U+{:04X}", code);
            if char_is_whitespace(c) {
                count += 1;
            }
        }
    }
    assert_eq!(count, 25);
}

#[test]
fn strings_and_characters_convert_both_ways() {
    let v = to_chars("héllo, 세계!");
    assert_eq!(v.len(), 10);
    assert_eq!(v[1], 'é');
    assert_eq!(to_string(&v), "héllo, 세계!");
    assert_eq!(to_string(&Vec::new()), "");
    assert!(str_equal("abc", "abc"));
    assert!(!str_equal("abc", "abd"));
    assert!(!str_equal("abc", "ab"));
}

#[test]
fn trimming_removes_whitespace_at_both_ends_only() {
    assert_eq!(to_string(&trimmed(&chars("  a b \n"))), "a b");
    assert_eq!(to_string(&trimmed(&chars("\u{3000}x\u{00A0}"))), "x");
    assert_eq!(to_string(&trimmed(&chars(" \t\r\n"))), "");
    assert_eq!(to_string(&trimmed(&chars(""))), "");
    assert_eq!(to_string(&trimmed(&chars("x"))), "x");
    assert!(blank(&chars("")));
    assert!(blank(&chars(" \n\u{2003}")));
    assert!(!blank(&chars(" . ")));
}

#[test]
fn search_finds_the_first_character_of_a_class() {
    let v = chars("ab cd");
    assert_eq!(find_from(&v, 0, CharClass::Whitespace), 2);
    assert_eq!(find_from(&v, 2, CharClass::NonWhitespace), 3);
    assert_eq!(find_from(&v, 3, CharClass::Whitespace), 5);
    assert_eq!(find_from(&v, 0, CharClass::Exactly('d')), 4);
    assert_eq!(find_from(&v, 0, CharClass::Exactly('z')), 5);
    assert_eq!(find_from(&v, 0, CharClass::Other('a')), 1);
    assert_eq!(find_from(&v, 5, CharClass::Whitespace), 5);
}

#[test]
fn lines_end_at_line_feeds() {
    let lines = |s: &str| strings(split_lines(&chars(s)));
    assert_eq!(lines("a\nb"), vec!["a", "b"]);
    assert_eq!(lines("a\nb\n"), vec!["a", "b"]);
    assert_eq!(lines("a\r\nb\r"), vec!["a", "b\r"]);
    assert_eq!(lines("a\n\nb"), vec!["a", "", "b"]);
    assert_eq!(lines("\n"), vec![""]);
    assert_eq!(lines("a\rb"), vec!["a\rb"]);
    assert!(lines("").is_empty());
    for s in ["", "x", "a\nb", "a\r\n\r\nb\n", "\n\n", "\r", "a\n\rb\r\n"] {
        let std: Vec<String> = s.lines().map(|l| l.to_string()).collect();
        assert_eq!(lines(s), std);
    }
}

#[test]
fn blank_line_breaks_split_like_the_standard_library() {
    let split = |s: &str| strings(split_on_breaks(&chars(s)));
    assert_eq!(split("a\n\nb"), vec!["a", "b"]);
    assert_eq!(split("a\n\n\nb"), vec!["a", "\nb"]);
    assert_eq!(split("a\n\n"), vec!["a", ""]);
    assert_eq!(split(""), vec![""]);
    for s in ["", "\n", "\n\n", "\n\n\n\n", "a\nb", "x\n\ny\n\n\n\nz\n"] {
        let std: Vec<String> = s.split("\n\n").map(|l| l.to_string()).collect();
        assert_eq!(split(s), std);
    }
}

#[test]
fn characters_split_like_the_standard_library() {
    let split = |s: &str| strings(split_on_char(&chars(s), '\x0c'));
    for s in ["", "\x0c", "a\x0cb", "a\x0c\x0cb\x0c"] {
        let std: Vec<String> = s.split('\x0c').map(|l| l.to_string()).collect();
        assert_eq!(split(s), std);
    }
}

#[test]
fn words_split_like_the_standard_library() {
    let words = |s: &str| strings(split_words(&chars(s)));
    assert_eq!(words("  a  bc\td\n"), vec!["a", "bc", "d"]);
    for s in ["", " ", "a", " a", "a ", "a\u{3000}b", "\n\nx y\r\nz"] {
        let std: Vec<String> = s.split_whitespace().map(|l| l.to_string()).collect();
        assert_eq!(words(s), std);
    }
}

#[test]
fn pieces_are_trimmed_and_empty_ones_dropped() {
    let pieces = vec![chars(" a "), chars("  "), chars(""), chars("b\n")];
    assert_eq!(strings(trim_pieces(&pieces)), vec!["a", "b"]);
    assert!(trim_pieces(&Vec::new()).is_empty());
}

#[test]
fn joining_puts_the_separator_between_pieces() {
    let pieces = vec![chars("a"), chars("b"), chars("c")];
    let sep = chars(", ");
    assert_eq!(to_string(&join_range(&pieces, 0, 3, &sep)), "a, b, c");
    assert_eq!(to_string(&join_range(&pieces, 1, 2, &sep)), "b");
    assert_eq!(to_string(&join_range(&pieces, 2, 2, &sep)), "");
}

#[test]
fn ascii_case_is_ignored_for_ascii_letters_only() {
    assert!(eq_ignore_ascii_case(&chars("MD"), &chars("md")));
    assert!(eq_ignore_ascii_case(&chars("JpEg"), &chars("jPeG")));
    assert!(!eq_ignore_ascii_case(&chars("md"), &chars("mdx")));
    assert!(!eq_ignore_ascii_case(&chars("É"), &chars("é")));
    assert!(!eq_ignore_ascii_case(&chars("@"), &chars("`")));
    assert!(!eq_ignore_ascii_case(&chars("["), &chars("{")));
    for (a, b) in [("Az", "aZ"), ("a1", "A1"), ("K", "\u{212A}"), ("", "")] {
        assert_eq!(
            eq_ignore_ascii_case(&chars(a), &chars(b)),
            a.eq_ignore_ascii_case(b)
        );
    }
}
