use redis_lite::wire::{
    encode_bulk_bytes, encode_bulk_string, encode_command, encode_null_bulk, encode_raw,
    encode_simple_string, push_decimal, starts_with,
};

#[test]
fn simple_string_is_plus_text_crlf() {
    assert_eq!(encode_simple_string("PONG"), b"+PONG\r\n".to_vec());
    assert_eq!(encode_simple_string(""), b"+\r\n".to_vec());
}

#[test]
fn bulk_string_counts_bytes_not_characters() {
    assert_eq!(encode_bulk_string("bar"), b"$3\r\nbar\r\n".to_vec());
    assert_eq!(encode_bulk_string(""), b"$0\r\n\r\n".to_vec());
    assert_eq!(encode_bulk_string("é"), vec![b'$', b'2', 13, 10, 0xc3, 0xa9, 13, 10]);
}

#[test]
fn bulk_bytes_carries_any_bytes() {
    assert_eq!(encode_bulk_bytes(&[0, 255, 13, 10]), vec![b'$', b'4', 13, 10, 0, 255, 13, 10, 13, 10]);
}

#[test]
fn bulk_string_of_twelve_bytes_has_two_digit_length() {
    assert_eq!(encode_bulk_string("hello world!"), b"$12\r\nhello world!\r\n".to_vec());
}

#[test]
fn null_bulk_is_minus_one() {
    assert_eq!(encode_null_bulk(), b"$-1\r\n".to_vec());
}

#[test]
fn raw_frames_pass_through_unchanged() {
    let frame = b"*3\r\n$3\r\nSET\r\n$3\r\nfoo\r\n$3\r\nbar\r\n";
    assert_eq!(encode_raw(frame), frame.to_vec());
    assert_eq!(encode_raw(b""), Vec::<u8>::new());
}

#[test]
fn command_is_array_of_bulk_strings() {
    assert_eq!(encode_command("PING", &vec![]), b"*1\r\n$4\r\nPING\r\n".to_vec());
    assert_eq!(
        encode_command("SET", &vec!["foo".to_string(), "bar".to_string()]),
        b"*3\r\n$3\r\nSET\r\n$3\r\nfoo\r\n$3\r\nbar\r\n".to_vec()
    );
}

#[test]
fn decimal_digits_have_no_leading_zeros() {
    let mut out = Vec::new();
    push_decimal(&mut out, 0);
    out.push(b' ');
    push_decimal(&mut out, 7);
    out.push(b' ');
    push_decimal(&mut out, 10);
    out.push(b' ');
    push_decimal(&mut out, 65535);
    out.push(b' ');
    push_decimal(&mut out, u64::MAX as u128);
    out.push(b' ');
    push_decimal(&mut out, u128::MAX);
    assert_eq!(
        out,
        b"0 7 10 65535 18446744073709551615 340282366920938463463374607431768211455".to_vec()
    );
}

#[test]
fn starts_with_compares_the_front() {
    assert!(starts_with(b"FULLRESYNC abc 0", b"FULLRESYNC "));
    assert!(starts_with(b"abc", b""));
    assert!(starts_with(b"abc", b"abc"));
    assert!(!starts_with(b"ab", b"abc"));
    assert!(!starts_with(b"FULLRESYNd ", b"FULLRESYNC "));
}
