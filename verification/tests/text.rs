//! Text: order, pieces and numbers.

use robot_fleet::scan::{decimal_text, lines, parse_number, split, trim, words};
use robot_fleet::text::{is_text_less, same_text, starts_with};

#[test]
fn texts_are_ordered_by_code_points() {
    let sorted = ["", "A", "AB", "B", "a", "aa", "é", "日", "😀"];
    for (i, a) in sorted.iter().enumerate() {
        for (j, b) in sorted.iter().enumerate() {
            assert_eq!(is_text_less(a, b), i < j, "{a} {b}");
            assert_eq!(same_text(a, b), i == j);
            assert_eq!(a.as_bytes() < b.as_bytes(), i < j);
        }
    }
}

#[test]
fn texts_are_split_as_the_standard_library_does() {
    for s in ["", ",", "a,b", ",a,,b,", "a:b:c:d", "ä,日,x"] {
        let ours = split(s, ',', None);
        let theirs: Vec<&str> = s.split(',').collect();
        assert_eq!(ours, theirs);
        let ours = split(s, ':', Some(3));
        let theirs: Vec<&str> = s.splitn(3, ':').collect();
        assert_eq!(ours, theirs);
    }
}

#[test]
fn texts_are_trimmed_and_cut_into_words() {
    for s in ["", "  ", " a ", "\t a b\u{a0}c \n", "x", "\u{3000}日 本\u{2003}"] {
        assert_eq!(trim(s), s.trim());
        let theirs: Vec<&str> = s.split_whitespace().collect();
        assert_eq!(words(s), theirs);
    }
}

#[test]
fn white_space_is_what_the_standard_library_takes_for_it() {
    let listed = [
        '\t', '\n', '\u{b}', '\u{c}', '\r', ' ', '\u{85}', '\u{a0}', '\u{1680}', '\u{2000}',
        '\u{2001}', '\u{2002}', '\u{2003}', '\u{2004}', '\u{2005}', '\u{2006}', '\u{2007}',
        '\u{2008}', '\u{2009}', '\u{200a}', '\u{2028}', '\u{2029}', '\u{202f}', '\u{205f}',
        '\u{3000}',
    ];
    for c in '\0'..=char::MAX {
        assert_eq!(c.is_whitespace(), listed.contains(&c), "{c:?}");
        assert_eq!(trim(&c.to_string()).is_empty(), c.is_whitespace(), "{c:?}");
    }
}

#[test]
fn texts_are_cut_into_lines() {
    for s in ["", "\n", "a\nb", "a\r\nb\r\n", "a\n\nb\n", "a\rb\r", "\r\n"] {
        let theirs: Vec<&str> = s.lines().collect();
        assert_eq!(lines(s), theirs, "{s:?}");
    }
}

#[test]
fn numbers_are_read() {
    for s in [
        "", "+", "-1", "0", "007", "+12", "12a", "１", "18446744073709551615",
        "18446744073709551616", "99999999999999999999999", "++1", " 1",
    ] {
        assert_eq!(parse_number(s), s.parse::<u64>().ok(), "{s}");
    }
}

#[test]
fn numbers_are_written() {
    for n in [0, 7, 10, -1, 42, -120, i32::MAX, i32::MIN] {
        assert_eq!(decimal_text(n), n.to_string());
    }
}

#[test]
fn prefixes_are_found() {
    assert!(starts_with("MemTotal: 1", "MemTotal:"));
    assert!(starts_with("x", ""));
    assert!(!starts_with("Mem", "MemTotal:"));
    assert!(!starts_with("memtotal:", "MemTotal:"));
}
