use redis_lite::parser::{decode, parse_request, Decoded, MAX_ARRAY_LEN, MAX_BULK_LEN};
use redis_lite::wire::encode_command;

fn frame_of(buf: &[u8]) -> (String, Vec<String>, Vec<u8>, usize) {
    match decode(buf) {
        Decoded::Frame { command, consumed } => {
            (command.cmd, command.args, command.raw_cmd, consumed)
        }
        Decoded::Incomplete => panic!("incomplete"),
        Decoded::Malformed => panic!("malformed"),
    }
}

fn is_incomplete(buf: &[u8]) -> bool {
    matches!(decode(buf), Decoded::Incomplete)
}

fn is_malformed(buf: &[u8]) -> bool {
    matches!(decode(buf), Decoded::Malformed)
}

#[test]
fn decodes_a_request_without_arguments() {
    let (name, args, raw, consumed) = frame_of(b"*1\r\n$4\r\nPING\r\n");
    assert_eq!(name, "PING");
    assert!(args.is_empty());
    assert_eq!(raw, b"*1\r\n$4\r\nPING\r\n".to_vec());
    assert_eq!(consumed, 14);
}

#[test]
fn decodes_name_and_arguments_in_order() {
    let buf = b"*5\r\n$3\r\nSET\r\n$1\r\nk\r\n$1\r\nv\r\n$2\r\nPX\r\n$3\r\n100\r\n";
    let (name, args, raw, consumed) = frame_of(buf);
    assert_eq!(name, "SET");
    assert_eq!(args, vec!["k", "v", "PX", "100"]);
    assert_eq!(raw, buf.to_vec());
    assert_eq!(consumed, buf.len());
}

#[test]
fn consumes_exactly_the_first_frame() {
    let buf = b"*1\r\n$4\r\nPING\r\n*2\r\n$4\r\nECHO\r\n$2\r\nhi\r\n";
    let (name, args, raw, consumed) = frame_of(buf);
    assert_eq!(name, "PING");
    assert!(args.is_empty());
    assert_eq!(consumed, 14);
    assert_eq!(raw, buf[..14].to_vec());
    let (name, args, _, consumed) = frame_of(&buf[14..]);
    assert_eq!(name, "ECHO");
    assert_eq!(args, vec!["hi"]);
    assert_eq!(consumed, 22);
}

#[test]
fn bulk_strings_may_hold_line_terminators_and_be_empty() {
    let (name, args, _, consumed) = frame_of(b"*3\r\n$4\r\nECHO\r\n$4\r\na\r\nb\r\n$0\r\n\r\n");
    assert_eq!(name, "ECHO");
    assert_eq!(args, vec!["a\r\nb", ""]);
    assert_eq!(consumed, 30);
}

#[test]
fn argument_case_is_preserved() {
    let (name, args, _, _) = frame_of(b"*2\r\n$4\r\neChO\r\n$5\r\nHeLLo\r\n");
    assert_eq!(name, "eChO");
    assert_eq!(args, vec!["HeLLo"]);
}

#[test]
fn every_proper_prefix_of_a_frame_is_incomplete() {
    let buf = b"*3\r\n$3\r\nSET\r\n$3\r\nfoo\r\n$12\r\nhello world!\r\n";
    for cut in 0..buf.len() {
        assert!(is_incomplete(&buf[..cut]), "prefix of {} bytes", cut);
    }
    assert_eq!(frame_of(buf).3, buf.len());
}

#[test]
fn empty_buffer_is_incomplete() {
    assert!(is_incomplete(b""));
}

#[test]
fn wrong_marker_is_malformed() {
    assert!(is_malformed(b"PING\r\n"));
    assert!(is_malformed(b"+OK\r\n"));
    assert!(is_malformed(b"$4\r\nPING\r\n"));
    assert!(is_malformed(b"*1\r\n+PING\r\n"));
    assert!(is_malformed(b"*1\r\nx"));
}

#[test]
fn non_numeric_length_is_malformed() {
    assert!(is_malformed(b"*x\r\n"));
    assert!(is_malformed(b"*1\r\n$x\r\n"));
    assert!(is_malformed(b"*1\r\n$4a\r\nPING\r\n"));
    assert!(is_malformed(b"*\r\n"));
    assert!(is_malformed(b"* 1\r\n"));
    assert!(is_malformed(b"*+1\r\n$4\r\nPING\r\n"));
}

#[test]
fn negative_lengths_are_malformed() {
    assert!(is_malformed(b"*-2\r\n"));
    assert!(is_malformed(b"*1\r\n$-5\r\n"));
    assert!(is_malformed(b"*-1\r\n"));
    assert!(is_malformed(b"*1\r\n$-1\r\n"));
}

#[test]
fn missing_terminator_is_malformed() {
    assert!(is_malformed(b"*1\n$4\r\nPING\r\n"));
    assert!(is_malformed(b"*1\r$4\r\nPING\r\n"));
    assert!(is_malformed(b"*1\r\n$4\r\nPINGXX"));
    assert!(is_malformed(b"*1\r\n$4\r\nPING\rX"));
    assert!(is_malformed(b"*1\r\n$4\r\nPINGX"));
}

#[test]
fn leading_zeros_are_malformed() {
    assert!(is_malformed(b"*01\r\n$4\r\nPING\r\n"));
    assert!(is_malformed(b"*1\r\n$04\r\nPING\r\n"));
    assert!(is_malformed(b"*00"));
}

#[test]
fn empty_array_is_malformed() {
    assert!(is_malformed(b"*0\r\n"));
    assert!(is_incomplete(b"*0"));
    assert!(is_incomplete(b"*0\r"));
}

#[test]
fn lengths_over_the_limits_are_malformed() {
    assert_eq!(MAX_BULK_LEN, 536870912);
    assert_eq!(MAX_ARRAY_LEN, 1048576);
    assert!(is_malformed(b"*1048577\r\n"));
    assert!(is_malformed(b"*1048577"));
    assert!(is_incomplete(b"*1048576\r\n"));
    assert!(is_malformed(b"*1\r\n$536870913\r\n"));
    assert!(is_incomplete(b"*1\r\n$536870912\r\n"));
    assert!(is_malformed(b"*1\r\n$99999999999999999999999999\r\n"));
}

#[test]
fn text_that_is_not_utf8_is_malformed() {
    assert!(is_malformed(&[b'*', b'1', 13, 10, b'$', b'2', 13, 10, 0xff, 0xfe, 13, 10]));
    assert!(is_malformed(&[b'*', b'1', 13, 10, b'$', b'1', 13, 10, 0xc3, 13, 10]));
    assert!(is_incomplete(&[b'*', b'1', 13, 10, b'$', b'2', 13, 10, 0xff, 0xfe, 13]));
}

#[test]
fn text_of_several_bytes_per_character_is_decoded() {
    let buf = encode_command("ECHO", &vec!["héllo wörld ✓".to_string()]);
    let (name, args, raw, consumed) = frame_of(&buf);
    assert_eq!(name, "ECHO");
    assert_eq!(args, vec!["héllo wörld ✓"]);
    assert_eq!(raw, buf);
    assert_eq!(consumed, buf.len());
}

#[test]
fn decoding_an_encoded_request_gives_it_back() {
    let cases: Vec<(&str, Vec<String>)> = vec![
        ("PING", vec![]),
        ("GET", vec!["foo".to_string()]),
        ("SET", vec!["k".to_string(), "".to_string(), "px".to_string(), "10".to_string()]),
        ("", vec!["".to_string()]),
        ("ECHO", vec!["$3\r\nabc\r\n".to_string(), "*1\r\n".to_string()]),
        ("MSET", (0..25).map(|i| format!("value-{}", i)).collect()),
    ];
    for (name, args) in cases {
        let mut buf = encode_command(name, &args);
        let frame_len = buf.len();
        buf.extend_from_slice(b"*1\r\n$4\r\nPI");
        let (got_name, got_args, raw, consumed) = frame_of(&buf);
        assert_eq!(got_name, name);
        assert_eq!(got_args, args);
        assert_eq!(consumed, frame_len);
        assert_eq!(raw, buf[..frame_len].to_vec());
    }
}

#[test]
fn parse_request_gives_the_first_request() {
    let command = parse_request(b"*2\r\n$3\r\nGET\r\n$3\r\nfoo\r\nrest").unwrap();
    assert_eq!(command.cmd, "GET");
    assert_eq!(command.args, vec!["foo"]);
    assert_eq!(command.raw_cmd, b"*2\r\n$3\r\nGET\r\n$3\r\nfoo\r\n".to_vec());
}

#[test]
fn parse_request_says_why_there_is_no_request() {
    assert_eq!(parse_request(b"*2\r\n$3\r\nGET\r\n").err(), Some("incomplete frame".to_string()));
    assert_eq!(parse_request(b"").err(), Some("incomplete frame".to_string()));
    assert_eq!(parse_request(b"GET foo\r\n").err(), Some("malformed frame".to_string()));
}

#[test]
fn a_refusal_is_not_undone_by_more_bytes() {
    let refused: Vec<&[u8]> = vec![
        b"x",
        b"*x",
        b"*01",
        b"*1048577",
        b"*1\r\n$-",
        b"*1\r\n$4\r\nPINGX",
        b"*2\r\n$4\r\nPING\r\n$1\r\nab",
        b"*1\rX",
    ];
    let tails: Vec<&[u8]> = vec![b"\r\n", b"0", b"\r\n$4\r\nPING\r\n", b"*1\r\n$4\r\nPING\r\n"];
    for head in &refused {
        assert!(is_malformed(head), "{:?}", head);
        for tail in &tails {
            let mut buf = head.to_vec();
            buf.extend_from_slice(tail);
            assert!(is_malformed(&buf), "{:?} + {:?}", head, tail);
        }
    }
}

#[test]
fn a_request_is_not_changed_by_more_bytes() {
    let frame = b"*2\r\n$3\r\nGET\r\n$3\r\nfoo\r\n";
    let tails: Vec<&[u8]> = vec![b"", b"*", b"garbage", b"*2\r\n$3\r\nGET\r\n$3\r\nbar\r\n"];
    for tail in tails {
        let mut buf = frame.to_vec();
        buf.extend_from_slice(tail);
        let (name, args, raw, consumed) = frame_of(&buf);
        assert_eq!(name, "GET");
        assert_eq!(args, vec!["foo"]);
        assert_eq!(raw, frame.to_vec());
        assert_eq!(consumed, frame.len());
    }
}
