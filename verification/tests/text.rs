//! Text helpers against the standard library.

use rustbrowser::cache::now;
use rustbrowser::clock::{nanos_of, seconds, seconds_of, subsec_nanos};
use rustbrowser::span::Span;
use rustbrowser::table::Table;
use rustbrowser::text::{
    bytes, collapse_str, eq_ignore_case, from_chars, is_blank, length, lines, lower_str,
    parse_number, shorten, split_char, split_parts, to_chars, to_decimal, trim_str, whitespace,
    width,
};

#[test]
fn white_space_is_that_of_the_standard_library() {
    for n in 0..=0x10ffffu32 {
        if let Some(c) = char::from_u32(n) {
            assert_eq!(whitespace(c), c.is_whitespace(), "{n:x}");
        }
    }
}

#[test]
fn widths_are_those_of_utf8() {
    for c in ['a', '\u{7f}', '\u{80}', '\u{7ff}', '\u{800}', '\u{ffff}', '\u{10000}', '\u{10ffff}'] {
        assert_eq!(width(c), c.len_utf8());
    }
}

const SAMPLES: [&str; 9] =
    ["", " ", "a", " a  b\tc\u{3000}", "x\r\ny\n\nz", "\n", "é,ü,,", "A b\u{85}C", "one two "];

#[test]
fn helpers_agree_with_the_standard_library() {
    for s in SAMPLES {
        let chars = to_chars(s);
        assert_eq!(from_chars(&chars), s);
        assert_eq!(trim_str(s), s.trim());
        assert_eq!(is_blank(s), s.trim().is_empty());
        assert_eq!(collapse_str(s), s.split_whitespace().collect::<Vec<_>>().join(" "));
        assert_eq!(lower_str(s), s.to_ascii_lowercase());
        assert_eq!(bytes(s), s.len());
        assert_eq!(length(s), s.chars().count());
        let ours: Vec<String> = lines(&chars).iter().map(|l| from_chars(l)).collect();
        assert_eq!(ours, s.lines().collect::<Vec<_>>());
        let ours: Vec<String> = split_char(&chars, ',').iter().map(|l| from_chars(l)).collect();
        assert_eq!(ours, s.split(',').collect::<Vec<_>>());
        let blank = to_chars("\n\n");
        let ours: Vec<String> = split_parts(&chars, &blank).iter().map(|l| from_chars(l)).collect();
        assert_eq!(ours, s.split("\n\n").collect::<Vec<_>>());
    }
}

#[test]
fn numbers_are_written_and_read() {
    for n in [0u128, 7, 10, 65535, 1 << 64, u128::MAX] {
        assert_eq!(to_decimal(n), n.to_string());
    }
    for s in ["0", "007", "+5", "18446744073709551615", "18446744073709551616", "", "+", "-1", "1a"] {
        assert_eq!(parse_number(&to_chars(s)), s.parse::<u64>().ok(), "{s}");
    }
}

#[test]
fn letters_compare_without_case() {
    assert!(eq_ignore_case("Post", "POST"));
    assert!(!eq_ignore_case("É", "é"));
    assert!(!eq_ignore_case("a", "ab"));
}

#[test]
fn long_texts_are_shortened() {
    assert_eq!(shorten("abc", 3), "abc");
    assert!(length(&shorten("abcdef", 3)) <= 3);
}

#[test]
fn spans_count_in_several_units() {
    assert_eq!(Span::from_secs(2).as_millis(), 2000);
    assert_eq!(Span::from_millis(1500).nanos, 1_500_000_000);
    assert!(Span::zero().is_zero());
}

#[test]
fn readings_of_the_clock_fall_into_seconds_and_nanos() {
    assert_eq!(seconds_of(Some((1_700_000_000, 250))), 1_700_000_000);
    assert_eq!(nanos_of(Some((1_700_000_000, 250))), 250);
    assert_eq!(seconds_of(None), 0);
    assert_eq!(nanos_of(None), 0);
}

#[test]
fn the_clock_counts_from_the_epoch() {
    let passed = || {
        std::time::SystemTime::now().duration_since(std::time::UNIX_EPOCH).unwrap().as_secs()
    };
    let before = passed();
    let (read, kept) = (seconds(), now());
    let after = passed();
    assert!(before <= read && read <= after);
    assert!(before <= kept && kept <= after);
    assert!(subsec_nanos() < 1_000_000_000);
}

#[test]
fn tables_hold_one_value_per_key() {
    let mut t: Table<u8> = Table::new();
    assert_eq!(t.len(), 0);
    t.insert("a".to_string(), 1);
    t.insert("b".to_string(), 2);
    t.insert("a".to_string(), 3);
    assert_eq!(t.len(), 2);
    assert_eq!(t.get("a"), Some(&3));
    assert_eq!(t.remove("a"), Some(3));
    assert_eq!(t.remove("a"), None);
    assert_eq!(t.get("b"), Some(&2));
}
