use studio_offline::numbers::{count_text, decimal_text, hex_of_bytes, hex_text, parse_i64};
use studio_offline::search::{all_occurrences, bytes_at, find_bytes, find_chars, same_bytes};
use studio_offline::text::{
    begins_with, contains_text, ends_with, find_char, join, same_text, to_chars, trim,
};
use studio_offline::utf16::{encode_utf16, to_le_bytes};

#[test]
fn numbers_read_back() {
    for v in [0i64, 7, -7, 10, -10, i64::MAX, i64::MIN, 1234567890123] {
        assert_eq!(decimal_text(v), v.to_string());
        assert_eq!(parse_i64(&to_chars(&decimal_text(v))), Some(v));
    }
    assert_eq!(count_text(120), "120");
    assert_eq!(hex_text(0), "0");
    assert_eq!(hex_text(0x6ce7bdb), "6ce7bdb");
    assert_eq!(hex_text(u64::MAX), "ffffffffffffffff");
    assert_eq!(hex_of_bytes(&[0, 1, 0xab]), "0001ab");
}

#[test]
fn numbers_are_read_as_the_standard_library_does() {
    for s in [
        "", "+", "-", "+5", "-5", "--5", "5 ", " 5", "0005", "9223372036854775807",
        "9223372036854775808", "-9223372036854775808", "-9223372036854775809", "1a",
        "99999999999999999999999999", "\u{661}",
    ] {
        assert_eq!(parse_i64(&to_chars(s)), s.parse::<i64>().ok(), "{}", s);
    }
}

#[test]
fn occurrences_do_not_overlap() {
    assert_eq!(all_occurrences(b"aaaa", b"aa"), vec![0, 2]);
    assert_eq!(all_occurrences(b"abcab", b"ab"), vec![0, 3]);
    assert_eq!(all_occurrences(b"a", b"ab"), Vec::<usize>::new());
    assert_eq!(all_occurrences(b"a", b""), Vec::<usize>::new());
    assert_eq!(find_bytes(b"abcab", b"ab", 1), Some(3));
    assert_eq!(find_bytes(b"abc", b"", 3), Some(3));
    assert_eq!(find_bytes(b"abc", b"", 4), None);
    assert!(bytes_at(b"abc", b"bc", 1));
    assert!(!bytes_at(b"abc", b"cd", 2));
    assert!(same_bytes(b"ab", b"ab"));
    assert!(!same_bytes(b"ab", b"abc"));
    assert_eq!(find_chars(&to_chars("a://b"), &to_chars("://"), 0), Some(1));
}

#[test]
fn text_is_compared_and_trimmed() {
    assert!(begins_with("abc", "ab") && begins_with("abc", "") && !begins_with("a", "ab"));
    assert!(ends_with("abc", "bc") && ends_with("abc", "") && !ends_with("c", "bc"));
    assert!(contains_text("abc", "b") && contains_text("", "") && !contains_text("abc", "ac"));
    assert!(same_text("a", "a") && !same_text("a", "b"));
    assert_eq!(join("a", "b"), "ab");
    assert_eq!(find_char(&to_chars("a:b:"), ':', 2), 3);
    assert_eq!(find_char(&to_chars("ab"), ':', 0), 2);
    for s in ["", " ", " a b ", "\u{3000}x\u{85}", "\u{200b}x", "\tx\u{2029}\n"] {
        assert_eq!(trim(s), s.trim());
        assert_eq!(trim(&trim(s)), trim(s));
    }
}

#[test]
fn text_becomes_utf16() {
    for s in ["", "http", "\u{e9}\u{ffff}", "a\u{10000}b\u{10ffff}"] {
        let units = encode_utf16(&to_chars(s));
        assert_eq!(units, s.encode_utf16().collect::<Vec<u16>>());
        let bytes: Vec<u8> = s.encode_utf16().flat_map(|u| u.to_le_bytes()).collect();
        assert_eq!(to_le_bytes(&units), bytes);
    }
}
