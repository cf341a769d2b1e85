//! Text, numbers and bytes.
use alwaysrunning::lossy::from_utf8_lossy;
use alwaysrunning::text::{
    char_is_space, find, from_chars, join, lines, pad, parse_signed, parse_unsigned, starts_with, strip_prefix,
    text_before, text_eq, to_chars, trim, write_decimal, write_integer,
};

fn chars(s: &str) -> Vec<char> {
    s.chars().collect()
}

fn next(seed: &mut u64) -> u64 {
    *seed = seed.wrapping_mul(6364136223846793005).wrapping_add(1442695040888963407);
    *seed >> 33
}

#[test]
fn bytes_become_text_as_in_std() {
    let pool: [u8; 20] = [
        0x00, 0x0a, 0x41, 0x7f, 0x80, 0x8f, 0x90, 0x9f, 0xa0, 0xbf, 0xc0, 0xc2, 0xdf, 0xe0, 0xe1, 0xed, 0xef, 0xf0,
        0xf4, 0xf5,
    ];
    let mut seed: u64 = 7;
    for _ in 0..20000 {
        let n = (next(&mut seed) % 9) as usize;
        let bytes: Vec<u8> = (0..n).map(|_| pool[(next(&mut seed) % 20) as usize]).collect();
        assert_eq!(from_utf8_lossy(&bytes), String::from_utf8_lossy(&bytes), "{:?}", bytes);
    }
    for a in 0..=255u8 {
        for b in 0..=255u8 {
            assert_eq!(from_utf8_lossy(&[a, b]), String::from_utf8_lossy(&[a, b]));
        }
    }
    let s = "héllo \u{20ac} \u{1f600}";
    assert_eq!(from_utf8_lossy(s.as_bytes()), s);
}

#[test]
fn white_space_is_that_of_std() {
    for u in 0..=0x10ffffu32 {
        if let Some(c) = char::from_u32(u) {
            assert_eq!(char_is_space(c), c.is_whitespace(), "{:x}", u);
        }
    }
}

#[test]
fn trimming_and_lines_are_those_of_std() {
    let pool = [' ', '\n', '\r', 'a', '\u{a0}', '='];
    let mut seed: u64 = 3;
    for _ in 0..5000 {
        let n = (next(&mut seed) % 8) as usize;
        let s: String = (0..n).map(|_| pool[(next(&mut seed) % 6) as usize]).collect();
        let c = chars(&s);
        assert_eq!(from_chars(trim(&c)), s.trim());
        let mine: Vec<String> = lines(&c).iter().map(|l| from_chars(l)).collect();
        let theirs: Vec<String> = s.lines().map(|l| l.to_string()).collect();
        assert_eq!(mine, theirs, "{:?}", s);
    }
}

#[test]
fn numbers_are_read_as_in_std() {
    let all = [
        "", "+", "-", "0", "-0", "+0", "007", "+7", "-7", "--7", "+-7", " 7", "7 ", "7a", "2147483647", "2147483648",
        "-2147483648", "-2147483649", "18446744073709551615", "18446744073709551616", "99999999999999999999999",
        "000000000000000000000000000012", "\u{661}",
    ];
    for s in all {
        assert_eq!(parse_signed(&chars(s)), s.parse::<i32>().ok(), "{:?}", s);
        assert_eq!(parse_unsigned(&chars(s)), s.parse::<u64>().ok(), "{:?}", s);
    }
}

#[test]
fn numbers_are_written_as_in_std() {
    for n in [0u64, 9, 10, 123, 1_700_000_000, u64::MAX] {
        assert_eq!(write_decimal(n), n.to_string());
        assert_eq!(parse_unsigned(&chars(&write_decimal(n))), Some(n));
    }
    for n in [0i32, 7, -7, i32::MAX, i32::MIN] {
        assert_eq!(write_integer(n), n.to_string());
        assert_eq!(parse_signed(&chars(&write_integer(n))), Some(n));
    }
}

#[test]
fn padding_is_that_of_std() {
    for s in ["", "a", "abc", "abcdef", "abcdefgh", "\u{e9}\u{e9}"] {
        assert_eq!(pad(s, 6), format!("{:<6}", s));
        assert_eq!(pad(s, 0), s);
    }
}

#[test]
fn texts_are_ordered_as_in_std() {
    let all = ["", "a", "aa", "ab", "b", "B", "\u{e9}", "\u{ffff}", "\u{10000}", "z"];
    for a in all {
        for b in all {
            assert_eq!(text_before(a, b), a < b, "{:?} {:?}", a, b);
            assert_eq!(text_eq(a, b), a == b);
        }
    }
}

#[test]
fn prefixes_and_places() {
    let c = chars("SIGTERM");
    assert!(starts_with(&c, "SIG"));
    assert!(starts_with(&c, ""));
    assert!(!starts_with(&c, "SIGTERMS"));
    assert_eq!(strip_prefix(&c, "SIG").map(from_chars), Some("TERM".to_string()));
    assert_eq!(strip_prefix(&c, "TERM"), None);
    assert_eq!(find(&c, 'T'), 3);
    assert_eq!(find(&c, 'x'), 7);
    assert_eq!(to_chars("a\u{e9}"), vec!['a', '\u{e9}']);
}

#[test]
fn joining_puts_a_separator_between() {
    let parts: Vec<String> = vec!["a".to_string(), "".to_string(), "c".to_string()];
    assert_eq!(join(&parts, ", "), "a, , c");
    assert_eq!(join(&Vec::new(), ", "), "");
    assert_eq!(join(&vec!["x".to_string()], ", "), "x");
}
