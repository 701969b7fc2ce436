use media_bar::numbers::{fmt_progress, fmt_time, parse_typed, push_decimal, to_decimal};
use media_bar::text::{decode, from_utf16_lossy, w16, w16z};

fn typed(s: &str) -> Option<i32> {
    let units: Vec<u16> = s.encode_utf16().collect();
    parse_typed(&units)
}

#[test]
fn text_is_encoded_as_the_system_wants_it() {
    for s in ["", "MediaBar", "設定 (&P)", "\u{E892}", "a😀b", "\u{10FFFF}\u{D7FF}\u{E000}"] {
        let expected: Vec<u16> = s.encode_utf16().collect();
        assert_eq!(w16(s), expected);
        let mut zero = expected.clone();
        zero.push(0);
        assert_eq!(w16z(s), zero);
    }
    assert_eq!(w16("😀"), vec![0xD83D, 0xDE00]);
}

#[test]
fn decoding_undoes_encoding() {
    for s in ["", "Segoe UI Variable Text", "游ゴシック", "𝄞 clef", "\u{10000}\u{FFFF}"] {
        assert_eq!(from_utf16_lossy(&w16(s)), s);
        assert_eq!(decode(&w16(s)), s.chars().collect::<Vec<char>>());
    }
}

#[test]
fn lone_surrogates_are_replaced() {
    let cases: [&[u16]; 6] = [
        &[0xD800],
        &[0xDC00, 0x41],
        &[0x41, 0xD83D],
        &[0xD83D, 0xD83D, 0xDE00],
        &[0xDE00, 0xD83D],
        &[0xD83D, 0x41, 0xDE00],
    ];
    for u in cases {
        assert_eq!(from_utf16_lossy(u), String::from_utf16_lossy(u));
    }
    assert_eq!(from_utf16_lossy(&[0xD800]), "\u{FFFD}");
}

#[test]
fn numbers_are_written_in_decimal() {
    for n in [0, 7, 10, 40, 99, 100, -1, -40, i32::MAX, i32::MIN] {
        assert_eq!(to_decimal(n), n.to_string());
    }
    let mut s = "n=".to_string();
    push_decimal(&mut s, u64::MAX);
    assert_eq!(s, "n=18446744073709551615");
}

#[test]
fn times_show_minutes_and_seconds() {
    assert_eq!(fmt_time(0), "0:00");
    assert_eq!(fmt_time(9_999_999), "0:00");
    assert_eq!(fmt_time(10_000_000), "0:01");
    assert_eq!(fmt_time(599_999_999), "0:59");
    assert_eq!(fmt_time(600_000_000), "1:00");
    assert_eq!(fmt_time(2_154_320_000), "3:35");
    assert_eq!(fmt_time(36_000_000_000), "60:00");
    for t in [-1, -10_000_000, -25_000_000, i64::MIN, i64::MAX] {
        let s = (t / 10_000_000) as u64;
        assert_eq!(fmt_time(t), format!("{}:{:02}", s / 60, s % 60));
    }
    assert_eq!(fmt_progress(754_320_000, 2_154_320_000), "1:15 / 3:35");
}

#[test]
fn typed_numbers_are_read() {
    for s in [
        "40", " 55 ", "\t100\r\n", "+7", "-3", "-0", "007", "2147483647", "2147483648", "-2147483648",
        "-2147483649", "", " ", "+", "-", "4 0", "4a", "0x10", "\u{3000}60\u{3000}", "\u{00A0}9", "１２",
        "99999999999999999999", "1.5", "--1", "+-1", "\u{200B}5", "00000000000000000000000042",
    ] {
        assert_eq!(typed(s), s.trim().parse::<i32>().ok(), "{:?}", s);
    }
    assert_eq!(parse_typed(&[0x34, 0xD800, 0x30]), None);
}

#[test]
fn every_space_and_nothing_else_is_trimmed() {
    for p in 0..0x11_0000u32 {
        if let Some(c) = char::from_u32(p) {
            let s = format!("{}5{}", c, c);
            assert_eq!(typed(&s), s.trim().parse::<i32>().ok(), "U+{:04X}", p);
        }
    }
}

#[test]
fn shown_numbers_read_back() {
    for n in [0, 1, -1, 40, 100, 13, i32::MAX, i32::MIN] {
        assert_eq!(typed(&to_decimal(n)), Some(n));
    }
}
