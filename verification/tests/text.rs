use fourttyswipe::text::{
    ascii_bytes, chars_of, decimal_text, is_white_space, numbered, parse_number, same_bytes, trim,
};

fn parse(s: &str, max: u32) -> Option<u32> {
    parse_number(&chars_of(s), max)
}

#[test]
fn decimal_text_matches_the_usual_notation() {
    for n in [0u32, 7, 9, 10, 42, 100, 65535, 65536, 999_999_999, u32::MAX] {
        assert_eq!(decimal_text(n), n.to_string());
    }
    assert_eq!(numbered("/dev/tty", 12), "/dev/tty12");
}

#[test]
fn numbers_are_read_like_unsigned_integers() {
    for s in ["0", "7", "00012", "+5", "65535", "65536", "", "+", "++1", "-0", "1 ", " 1", "1_0", "x", "99999999999999999999"] {
        assert_eq!(parse(s, 65535), s.parse::<u16>().ok().map(|n| n as u32), "{}", s);
        assert_eq!(parse(s, u32::MAX), s.parse::<u32>().ok(), "{}", s);
    }
}

#[test]
fn decimal_text_reads_back() {
    for n in [0u32, 1, 10, 4711, u32::MAX] {
        assert_eq!(parse(&decimal_text(n), u32::MAX), Some(n));
        assert_eq!(trim(&decimal_text(n)), chars_of(&decimal_text(n)));
    }
}

#[test]
fn white_space_is_unicode_white_space() {
    for u in 0..=0x10ffffu32 {
        if let Some(c) = char::from_u32(u) {
            assert_eq!(is_white_space(c), c.is_whitespace(), "{:x}", u);
        }
    }
}

#[test]
fn trimming_removes_white_space_at_both_ends_only() {
    for s in ["", " ", "\t\n", "a", " a ", "\u{3000}a b\u{85}", "a\n", "\u{2003}x"] {
        assert_eq!(trim(s), s.trim().chars().collect::<Vec<char>>());
    }
}

#[test]
fn bytes_are_compared_as_a_whole() {
    assert_eq!(ascii_bytes("Xorg"), b"Xorg");
    assert!(same_bytes(b"", b""));
    assert!(same_bytes(b"abc", b"abc"));
    assert!(!same_bytes(b"abc", b"abd"));
    assert!(!same_bytes(b"abc", b"ab"));
}
