use minigrep::lines::split_first_line;
use minigrep::pattern::{chars_of, contains, occurs_in};
use minigrep::search::line_holds;
use minigrep::whitespace::{is_whitespace, trim, trim_bounds};

#[test]
fn white_space_is_what_the_standard_library_calls_so() {
    let mut count = 0;
    for code in 0..=0x10FFFFu32 {
        if let Some(c) = char::from_u32(code) {
            assert_eq!(is_whitespace(c), c.is_whitespace(), "U+{:04X}", code);
            if is_whitespace(c) {
                count += 1;
            }
        }
    }
    assert_eq!(count, 25);
}

#[test]
fn white_space_holds_the_usual_characters() {
    for c in [' ', '\t', '\n', '\r', '\u{b}', '\u{c}', '\u{85}', '\u{a0}', '\u{3000}'] {
        assert!(is_whitespace(c));
    }
    for c in ['a', '0', '_', '\u{0}', '\u{8}', '\u{e}', '\u{200b}', '\u{180e}', '\u{feff}'] {
        assert!(!is_whitespace(c));
    }
}

#[test]
fn trim_removes_white_space_at_both_ends_only() {
    assert_eq!(trim("  a b  "), "a b");
    assert_eq!(trim("a b"), "a b");
    assert_eq!(trim(""), "");
    assert_eq!(trim(" \t\r\n"), "");
    assert_eq!(trim("\u{3000}x\u{a0}"), "x");
    assert_eq!(trim("x "), "x");
    assert_eq!(trim(" x"), "x");
    assert_eq!(trim("\u{200b} x"), "\u{200b} x");
}

#[test]
fn trim_agrees_with_the_standard_library() {
    let samples = [
        "",
        " ",
        "a",
        " a",
        "a ",
        "  several words here\t\n",
        "\u{2003}em\u{2003}",
        "\r\nline\r\n",
        "é \u{85}",
        "\u{1680}ogham\u{205f}",
    ];
    for sample in samples {
        assert_eq!(trim(sample), sample.trim());
    }
}

#[test]
fn trim_bounds_count_characters() {
    let chars: Vec<char> = "  äb \t".chars().collect();
    assert_eq!(trim_bounds(&chars), (2, 4));
    let blank: Vec<char> = "   ".chars().collect();
    let (from, to) = trim_bounds(&blank);
    assert_eq!(from, to);
    assert_eq!(trim_bounds(&[]), (0, 0));
    assert_eq!(trim_bounds(&['x']), (0, 1));
}

#[test]
fn chars_of_lists_the_characters() {
    assert_eq!(chars_of(""), Vec::<char>::new());
    assert_eq!(chars_of("aé日"), vec!['a', 'é', '日']);
}

#[test]
fn contains_finds_contiguous_runs() {
    assert!(contains("hello", "ell"));
    assert!(contains("hello", "hello"));
    assert!(contains("hello", "h"));
    assert!(contains("hello", "o"));
    assert!(contains("hello", ""));
    assert!(contains("", ""));
    assert!(!contains("", "a"));
    assert!(!contains("hello", "hello!"));
    assert!(!contains("hello", "hlo"));
    assert!(!contains("hello", "L"));
    assert!(contains("aaab", "aab"));
    assert!(contains("日本語", "本"));
    assert!(!contains("日本語", "語本"));
}

#[test]
fn contains_agrees_with_the_standard_library() {
    let texts = ["", "a", "ab", "aab", "abab", "mississippi", "größe"];
    for hay in texts {
        for needle in ["", "a", "b", "ab", "ba", "ss", "issip", "ppi", "ß", "öß", "x"] {
            assert_eq!(contains(hay, needle), hay.contains(needle));
        }
    }
}

#[test]
fn occurs_in_works_on_characters() {
    assert!(occurs_in(&['b', 'c'], &['a', 'b', 'c']));
    assert!(!occurs_in(&['c', 'b'], &['a', 'b', 'c']));
    assert!(occurs_in(&[], &[]));
    assert!(!occurs_in(&['a', 'b'], &['a']));
}

#[test]
fn line_holds_folds_the_line_only_when_asked() {
    let key: Vec<char> = "rust".chars().collect();
    assert!(line_holds("Trust me.", &key, true));
    assert!(!line_holds("TRUST me.", &key, false));
    assert!(line_holds("trust me.", &key, false));
    let upper: Vec<char> = "RUST".chars().collect();
    assert!(!line_holds("Trust me.", &upper, true));
    assert!(line_holds("TRUST", &upper, false));
}

#[test]
fn split_first_line_cuts_at_the_first_line_feed() {
    assert_eq!(split_first_line("a\nb\nc"), ("a", "b\nc"));
    assert_eq!(split_first_line("abc"), ("abc", ""));
    assert_eq!(split_first_line(""), ("", ""));
    assert_eq!(split_first_line("\n"), ("", ""));
    assert_eq!(split_first_line("\nx"), ("", "x"));
    assert_eq!(split_first_line("a\r\nb"), ("a\r", "b"));
    assert_eq!(split_first_line("é日\n本"), ("é日", "本"));
    assert_eq!(split_first_line("x\n"), ("x", ""));
}

#[test]
fn split_first_line_walks_like_the_standard_library() {
    let samples = ["", "a", "a\n", "a\nb", "\n", "\n\n", "a\n\nb\n", "é\n日本\n語"];
    for sample in samples {
        let mut lines = Vec::new();
        let mut rest = sample;
        while !rest.is_empty() {
            let (line, tail) = split_first_line(rest);
            lines.push(line);
            rest = tail;
        }
        let expected: Vec<&str> = sample.lines().collect();
        assert_eq!(lines, expected);
    }
}
