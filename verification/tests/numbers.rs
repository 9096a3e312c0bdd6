use redis_lite::numbers::parse_unsigned;

#[test]
fn parses_plain_digits() {
    assert_eq!(parse_unsigned(b"0", u64::MAX), Some(0));
    assert_eq!(parse_unsigned(b"100", u64::MAX), Some(100));
    assert_eq!(parse_unsigned(b"6379", 65535), Some(6379));
}

#[test]
fn accepts_one_plus_sign_and_leading_zeros() {
    assert_eq!(parse_unsigned(b"+5", u64::MAX), Some(5));
    assert_eq!(parse_unsigned(b"007", u64::MAX), Some(7));
    assert_eq!(parse_unsigned(b"+000", u64::MAX), Some(0));
    assert_eq!(parse_unsigned(b"00000000000000000000000000000000000065535", 65535), Some(65535));
}

#[test]
fn refuses_what_is_no_number() {
    assert_eq!(parse_unsigned(b"", u64::MAX), None);
    assert_eq!(parse_unsigned(b"+", u64::MAX), None);
    assert_eq!(parse_unsigned(b"-1", u64::MAX), None);
    assert_eq!(parse_unsigned(b"++1", u64::MAX), None);
    assert_eq!(parse_unsigned(b"1+", u64::MAX), None);
    assert_eq!(parse_unsigned(b" 1", u64::MAX), None);
    assert_eq!(parse_unsigned(b"1 ", u64::MAX), None);
    assert_eq!(parse_unsigned(b"12a", u64::MAX), None);
    assert_eq!(parse_unsigned(b"1_000", u64::MAX), None);
    assert_eq!(parse_unsigned(b"1.5", u64::MAX), None);
    assert_eq!(parse_unsigned("١٢".as_bytes(), u64::MAX), None);
}

#[test]
fn respects_the_upper_bound() {
    assert_eq!(parse_unsigned(b"65535", 65535), Some(65535));
    assert_eq!(parse_unsigned(b"65536", 65535), None);
    assert_eq!(parse_unsigned(b"70000", 65535), None);
    assert_eq!(parse_unsigned(b"18446744073709551615", u64::MAX), Some(u64::MAX));
    assert_eq!(parse_unsigned(b"18446744073709551616", u64::MAX), None);
    assert_eq!(parse_unsigned(b"99999999999999999999999", u64::MAX), None);
    assert_eq!(parse_unsigned(b"0", 0), Some(0));
    assert_eq!(parse_unsigned(b"1", 0), None);
    assert_eq!(parse_unsigned(b"9", 9), Some(9));
    assert_eq!(parse_unsigned(b"10", 9), None);
}

#[test]
fn agrees_with_the_standard_parser_on_unsigned_text() {
    let samples = [
        "0", "1", "+1", "-0", "", "+", "65535", "65536", "0065535", "6553 5", "abc", "12ab", "+-1",
        "١", "4294967296", "٣٤", "\t1",
    ];
    for text in samples {
        let want = text.parse::<u16>().ok().map(|n| n as u64);
        assert_eq!(parse_unsigned(text.as_bytes(), 65535), want, "{:?}", text);
        let want = text.parse::<u64>().ok();
        assert_eq!(parse_unsigned(text.as_bytes(), u64::MAX), want, "{:?}", text);
    }
}
