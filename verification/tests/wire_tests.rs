use http_benchmarks::wire::{
    decode_timestamp, encode_body, encode_request, extract_body, find_byte, find_sub,
    keep_alive_present, parse_i64, parse_u16, parse_u64, response_complete, u64_to_dec,
    DecodeError,
};

#[test]
fn body_round_trip() {
    let body = encode_body(11, 1_500_000_000);
    assert_eq!(body, b"11 1500000000".to_vec());
    assert_eq!(decode_timestamp(&body), Ok((11, 1_500_000_000)));
}

#[test]
fn body_round_trip_large_timestamp() {
    let nanos: u64 = 1_700_000_000_123_456_789;
    let body = encode_body(12, nanos);
    assert_eq!(decode_timestamp(&body), Ok((12, nanos as i64)));
}

#[test]
fn decode_no_space_is_malformed() {
    assert_eq!(decode_timestamp(b"nospace"), Err(DecodeError::MalformedBody));
    assert_eq!(decode_timestamp(b""), Err(DecodeError::MalformedBody));
}

#[test]
fn decode_bad_code_is_parse_error() {
    assert_eq!(decode_timestamp(b"abc 123"), Err(DecodeError::ParseError));
    assert_eq!(decode_timestamp(b" 123"), Err(DecodeError::ParseError));
    // Too large for u16.
    assert_eq!(decode_timestamp(b"99999 123"), Err(DecodeError::ParseError));
}

#[test]
fn decode_bad_timestamp_is_parse_error() {
    assert_eq!(decode_timestamp(b"11 12c"), Err(DecodeError::ParseError));
    assert_eq!(decode_timestamp(b"11 "), Err(DecodeError::ParseError));
    // A second space makes the timestamp half invalid.
    assert_eq!(decode_timestamp(b"11 12 3"), Err(DecodeError::ParseError));
}

#[test]
fn decode_negative_timestamp() {
    assert_eq!(decode_timestamp(b"11 -5"), Ok((11, -5)));
}

#[test]
fn parse_u64_strict() {
    assert_eq!(parse_u64(b"0"), Some(0));
    assert_eq!(parse_u64(b"0042"), Some(42));
    assert_eq!(parse_u64(b"18446744073709551615"), Some(u64::MAX));
    assert_eq!(parse_u64(b"18446744073709551616"), None);
    assert_eq!(parse_u64(b""), None);
    assert_eq!(parse_u64(b"1a"), None);
}

#[test]
fn parse_u16_strict() {
    assert_eq!(parse_u16(b"65535"), Some(u16::MAX));
    assert_eq!(parse_u16(b"65536"), None);
    assert_eq!(parse_u16(b"11"), Some(11));
}

#[test]
fn parse_i64_signs_and_bounds() {
    assert_eq!(parse_i64(b"-5"), Some(-5));
    assert_eq!(parse_i64(b"9223372036854775807"), Some(i64::MAX));
    assert_eq!(parse_i64(b"9223372036854775808"), None);
    assert_eq!(parse_i64(b"-9223372036854775808"), Some(i64::MIN));
    assert_eq!(parse_i64(b"-9223372036854775809"), None);
    assert_eq!(parse_i64(b"-"), None);
    assert_eq!(parse_i64(b"--1"), None);
}

#[test]
fn rendering_matches_itoa() {
    for n in [0u64, 1, 9, 10, 42, 999, 1_000, 65_535, u64::MAX] {
        let mut buf = itoa::Buffer::new();
        let expected = buf.format(n).as_bytes().to_vec();
        assert_eq!(u64_to_dec(n), expected);
    }
}

#[test]
fn parsing_matches_atoi_on_plain_digits() {
    // On all-digit inputs the strict parser agrees with atoi; it is
    // stricter only about trailing non-digits.
    let inputs: [&[u8]; 5] = [b"0", b"11", b"0042", b"65535", b"18446744073709551615"];
    for s in inputs {
        assert_eq!(parse_u64(s), atoi::atoi::<u64>(s));
    }
    assert_eq!(atoi::atoi::<u64>(b"42x"), Some(42));
    assert_eq!(parse_u64(b"42x"), None);
}

#[test]
fn find_sub_matches_jetscii() {
    let cases: [(&[u8], &[u8]); 6] = [
        (b"hello world", b"world"),
        (b"hello world", b"xyz"),
        (b"aaaa", b"aa"),
        (b"abc\r\n\r\ndef", b"\r\n\r\n"),
        (b"keep-alivekeep-alive", b"keep-alive"),
        (b"", b"a"),
    ];
    for (hay, needle) in cases {
        let expected = jetscii::ByteSubstring::new(needle).find(hay);
        assert_eq!(find_sub(hay, needle), expected);
    }
}

#[test]
fn find_byte_first_occurrence() {
    assert_eq!(find_byte(b"11 22 33", b' '), Some(2));
    assert_eq!(find_byte(b"abc", b' '), None);
}

#[test]
fn request_is_framed_and_extractable() {
    let req = encode_request("bench.example:1234", 11, 1_500_000_000);
    assert!(response_complete(&req));
    let body = extract_body(&req).expect("request has a header terminator");
    assert_eq!(body, &b"11 1500000000"[..]);
    assert_eq!(decode_timestamp(body), Ok((11, 1_500_000_000)));
}

#[test]
fn request_declares_body_length() {
    let req = encode_request("h", 11, 7);
    let text = String::from_utf8(req.clone()).unwrap();
    // Body is "11 7", four bytes.
    assert!(text.contains("Content-Length: 4\r\n\r\n11 7"));
    assert!(text.starts_with("POST /rust-http-benchmarks/ HTTP/1.1\r\nHost: h\r\n"));
    assert!(text.contains("Connection: keep-alive\r\n"));
}

#[test]
fn keep_alive_detection_is_substring_based() {
    assert!(keep_alive_present(b"HTTP/1.1 204 No Content\r\nConnection: keep-alive\r\n\r\n"));
    assert!(!keep_alive_present(b"HTTP/1.1 204 No Content\r\nConnection: close\r\n\r\n"));
    // The heuristic fires on the token anywhere, headers or body alike.
    assert!(keep_alive_present(b"HTTP/1.1 200 OK\r\n\r\nbody mentioning keep-alive token"));
}

#[test]
fn response_completion_needs_terminator() {
    assert!(!response_complete(b"HTTP/1.1 204 No Content\r\nConnection: keep-alive\r\n"));
    assert!(response_complete(b"\r\n\r\n"));
    assert!(!response_complete(b""));
}
