//! Texts and numbers, held against the standard library.

use mimicwx::number::{parse_i32, parse_i64, parse_u32, parse_u64, push_hex, push_i64, push_u64};
use mimicwx::text::{
    all_digits, bytes_eq, chars_to_text, cut_to_bytes, ends_with,
    eq_ignore_ascii_case, has_control, is_control, is_whitespace, rsplit_last, split, split_once,
    starts_with, strip_prefix, strip_suffix, text_contains, text_less, to_ascii_lowercase, to_chars,
    trim,
};

const SAMPLES: [&str; 12] = [
    "", " ", "a", "ab", "aab", "你好", " \u{3000}x\u{85}", "x\ty", "a,b,,c", "0012", "é", "ABCz",
];

#[test]
fn characters_are_classified_like_the_standard_library() {
    for c in '\0'..=char::MAX {
        assert_eq!(is_whitespace(c), c.is_whitespace(), "{c:?}");
        assert_eq!(is_control(c), c.is_control(), "{c:?}");
    }
}

#[test]
fn texts_are_searched_like_the_standard_library() {
    for a in SAMPLES {
        for b in SAMPLES {
            assert_eq!(text_contains(a, b), a.contains(b));
            assert_eq!(starts_with(a, b), a.starts_with(b));
            assert_eq!(ends_with(a, b), a.ends_with(b));
            assert_eq!(strip_prefix(a, b), a.strip_prefix(b));
            assert_eq!(strip_suffix(a, b), a.strip_suffix(b));
            assert_eq!(text_less(a, b), a < b);
            assert_eq!(eq_ignore_ascii_case(a, b), a.eq_ignore_ascii_case(b));
            assert_eq!(bytes_eq(a.as_bytes(), b.as_bytes()), a == b);
        }
        assert_eq!(trim(a), a.trim());
        assert_eq!(split(a, ','), a.split(',').map(|s| s.to_string()).collect::<Vec<String>>());
        assert_eq!(split_once(a, ','), a.split_once(','));
        assert_eq!(rsplit_last(a, ','), a.rsplit(',').next().unwrap());
        assert_eq!(to_ascii_lowercase(a), a.to_ascii_lowercase());
        assert_eq!(has_control(a), a.chars().any(char::is_control));
        assert_eq!(all_digits(a), a.chars().all(|c| c.is_ascii_digit()));
        let chars = to_chars(a);
        assert_eq!(chars_to_text(&chars, 0, chars.len()), a);
    }
}

#[test]
fn texts_are_cut_between_characters() {
    assert_eq!(cut_to_bytes("你好", 5), "你");
    assert_eq!(cut_to_bytes("你好", 6), "你好");
    assert_eq!(cut_to_bytes("你好", 2), "");
    assert_eq!(cut_to_bytes("abc", 9), "abc");
}

#[test]
fn numbers_are_read_like_the_standard_library() {
    let samples = [
        "", "0", "+0", "-0", "007", "+7", "-7", "--7", "+", "-", " 7", "7 ", "1a", "256",
        "2147483647", "2147483648", "-2147483648", "-2147483649", "4294967295", "4294967296",
        "9223372036854775807", "9223372036854775808", "-9223372036854775808",
        "-9223372036854775809", "18446744073709551615", "18446744073709551616", "１",
        "00000000000000000000000000018446744073709551615",
    ];
    for s in samples {
        assert_eq!(parse_u64(s), s.parse::<u64>().ok(), "{s}");
        assert_eq!(parse_u32(s), s.parse::<u32>().ok(), "{s}");
        assert_eq!(parse_i64(s), s.parse::<i64>().ok(), "{s}");
        assert_eq!(parse_i32(s), s.parse::<i32>().ok(), "{s}");
    }
}

#[test]
fn numbers_are_written_like_the_standard_library() {
    for n in [0u64, 9, 10, 12345, u64::MAX] {
        let mut text = String::from("n=");
        push_u64(&mut text, n);
        assert_eq!(text, format!("n={n}"));
    }
    for n in [0u64, 9, 0xab, 0xfffe] {
        let mut text = String::new();
        push_hex(&mut text, n, 4);
        assert_eq!(text, format!("{n:04x}"));
    }
    for n in [0i64, -1, 42, i64::MIN, i64::MAX] {
        let mut text = String::new();
        push_i64(&mut text, n);
        assert_eq!(text, n.to_string());
    }
}
