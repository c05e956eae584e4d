//! Text, numbers and bytes.
use beyond_pg::bytes::{push_be, read_be, read_text};
use beyond_pg::number::{decimal_text, numeral_of, read_decimal, read_uint, ParseIntError};
use beyond_pg::text::{
    chars_of, comes_before, join_path, lines_of, pieces, text_of, trimmed, without_prefixes,
    words_of,
};

fn cs(s: &str) -> Vec<char> {
    chars_of(s)
}

fn strings(ps: Vec<&[char]>) -> Vec<String> {
    ps.into_iter().map(text_of).collect()
}

#[test]
fn text_is_cut_as_std_cuts_it() {
    for s in ["", "a", "\n", "a\nb", "a\r\nb\n", "\r", "a\r", " x\ty  z ", "é\u{2003}ü", "::a::"] {
        let c = cs(s);
        let lines: Vec<&str> = s.lines().collect();
        assert_eq!(strings(lines_of(&c)), lines, "{s:?}");
        let words: Vec<&str> = s.split_whitespace().collect();
        assert_eq!(strings(words_of(&c)), words, "{s:?}");
        let parts: Vec<&str> = s.split(':').collect();
        assert_eq!(strings(pieces(&c, ':')), parts, "{s:?}");
        assert_eq!(text_of(trimmed(&c)), s.trim(), "{s:?}");
    }
    assert_eq!(text_of(without_prefixes(&cs("aabaa"), "a")), "aabaa".trim_start_matches("a"));
}

#[test]
fn text_is_ordered_as_std_orders_it() {
    let all = ["", "a", "ab", "b", "Z", "é", "\u{ffff}", "\u{10000}"];
    for a in all {
        for b in all {
            assert_eq!(comes_before(&cs(a), &cs(b)), a < b, "{a:?} {b:?}");
        }
    }
}

#[test]
fn paths_are_joined_as_std_joins_them() {
    for (a, b) in [("/a", "b"), ("/a/", "b"), ("", "b"), ("/a", "/b"), ("/a", "")] {
        let expected = std::path::Path::new(a).join(b).display().to_string();
        assert_eq!(join_path(a, b), expected, "{a:?} {b:?}");
    }
}

#[test]
fn numbers_are_read_as_std_reads_them() {
    for s in ["", "0", "007", "+5", "-5", "+", "12a", "255", "256", "99999999999999999999999"] {
        let ours = read_decimal(&cs(s), 255);
        match s.parse::<u8>() {
            Ok(n) => assert_eq!(ours, Ok(n as u64), "{s:?}"),
            Err(e) => assert_eq!(ours.unwrap_err().message(), e.to_string(), "{s:?}"),
        }
    }
    assert_eq!(read_uint(&cs("fF"), 16, 1000), Ok(255));
    assert_eq!(read_uint(&cs("g"), 16, 1000), Err(ParseIntError::InvalidDigit));
    assert_eq!(decimal_text(u64::MAX), u64::MAX.to_string());
    assert_eq!(text_of(&numeral_of(0xbeef, 16, true)), "BEEF");
    assert_eq!(decimal_text(0), "0");
}

#[test]
fn bytes_hold_numbers_and_text() {
    let mut out = Vec::new();
    push_be(&mut out, 0x0102_0304, 4);
    assert_eq!(out, vec![1, 2, 3, 4]);
    assert_eq!(read_be(&out, 1, 2), 0x0203);
    assert_eq!(read_text("é".as_bytes()), Ok("é".to_string()));
    assert_eq!(
        read_text(b"a\xff"),
        Err("invalid utf-8 sequence of 1 bytes from index 1".to_string())
    );
}
