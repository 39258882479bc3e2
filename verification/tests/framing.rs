use fraud_score::edge;
use fraud_score::handoff::{parse_handoff_head, parse_handoff_request, HandoffRoute};
use fraud_score::head::{Route, MAX_BODY_BYTES, MAX_HEADER_BYTES};
use fraud_score::lb;
use fraud_score::request::{
    consume_request, contains_connection_close_fast, find_content_length_value, find_header_end,
    parse_usize_decimal_header, read_closed,
};
use fraud_score::scoring::{
    BAD_REQUEST_RESPONSE, METHOD_NOT_ALLOWED_RESPONSE, NOT_FOUND_RESPONSE,
    PAYLOAD_TOO_LARGE_RESPONSE,
};

#[test]
fn parses_post_head_case_insensitive() {
    let req = b"POST /fraud-score HTTP/1.1\r\nhost: x\r\nCONTENT-LENGTH: 3\r\nconnection: close\r\n\r\nabc";
    let head = edge::parse_request_head(&req[..req.len() - 3]).unwrap();
    assert_eq!(head.route, Route::FraudScore);
    assert_eq!(head.content_length, 3);
    assert!(head.close_after_response);
}

#[test]
fn edge_rejects_chunked_request() {
    let req = b"POST /fraud-score HTTP/1.1\r\nTransfer-Encoding: chunked\r\n\r\n";
    let err = edge::parse_request_head(req).unwrap_err();
    assert_eq!(err.response, BAD_REQUEST_RESPONSE.as_bytes());
}

#[test]
fn reads_pipelined_keepalive_requests() {
    let mut buf: Vec<u8> = Vec::new();
    assert!(edge::read_request(&buf).unwrap().is_none());
    buf.extend_from_slice(
        b"GET /ready HTTP/1.1\r\nContent-Length: 0\r\n\r\nGET /ready HTTP/1.1\r\nContent-Length: 0\r\n\r\n",
    );
    let first = edge::read_request(&buf).unwrap().unwrap();
    assert_eq!(first.route, Route::Ready);
    consume_request(&mut buf, first.total_len);
    let second = edge::read_request(&buf).unwrap().unwrap();
    assert_eq!(second.route, Route::Ready);
    consume_request(&mut buf, second.total_len);
    assert!(buf.is_empty());
}

#[test]
fn handoff_parser_waits_for_fragmented_body() {
    let req = b"POST /fraud-score HTTP/1.1\r\nContent-Length: 5\r\n\r\nhe";
    assert!(parse_handoff_request(req).unwrap().is_none());

    let req = b"POST /fraud-score HTTP/1.1\r\nContent-Length: 5\r\n\r\nhello";
    let parsed = parse_handoff_request(req).unwrap().unwrap();
    assert_eq!(parsed.route, HandoffRoute::FraudScore);
    assert_eq!(&req[parsed.header_len..parsed.total_len], b"hello");
    assert!(!parsed.close_after_response);
}

#[test]
fn handoff_parser_keeps_ready_lightweight() {
    let req = b"GET /ready HTTP/1.1\r\nHost: lb\r\n\r\n";
    let parsed = parse_handoff_request(req).unwrap().unwrap();
    assert_eq!(parsed.route, HandoffRoute::Ready);
    assert_eq!(parsed.header_len, parsed.total_len);
}

#[test]
fn handoff_parser_rejects_chunked() {
    let req = b"POST /fraud-score HTTP/1.1\r\nTransfer-Encoding: chunked\r\n\r\n";
    let err = parse_handoff_request(req).unwrap_err();
    assert_eq!(err.response, BAD_REQUEST_RESPONSE.as_bytes());
}

#[test]
fn parses_complete_post_head_case_insensitive() {
    let req = b"POST /fraud-score HTTP/1.1\r\nhost: x\r\nCONTENT-LENGTH: 3\r\nconnection: close\r\n\r\nabc";
    let head = lb::request::parse_request_head(&req[..req.len() - 3]).unwrap();
    assert_eq!(head.route, Route::FraudScore);
    assert_eq!(head.content_length, 3);
    assert!(head.close_after_response);
}

#[test]
fn lib_rejects_chunked_request() {
    let req = b"POST /fraud-score HTTP/1.1\r\nTransfer-Encoding: chunked\r\n\r\n";
    let err = lb::request::parse_request_head(req).unwrap_err();
    assert_eq!(err.response, BAD_REQUEST_RESPONSE.as_bytes());
}

#[test]
fn body_limit_returns_413() {
    let req = format!(
        "POST /fraud-score HTTP/1.1\r\nContent-Length: {}\r\n\r\n",
        MAX_BODY_BYTES + 1
    );
    let err = lb::request::parse_request_head(req.as_bytes()).unwrap_err();
    assert_eq!(err.response, PAYLOAD_TOO_LARGE_RESPONSE.as_bytes());
}

#[test]
fn parses_zero_length_ready() {
    let req = b"GET /ready HTTP/1.1\r\nHost: lb\r\n\r\n";
    let head = lb::request::parse_request_head(req).unwrap();
    assert_eq!(head.route, Route::Ready);
    assert_eq!(head.content_length, 0);
}

#[test]
fn read_request_handles_fragmented_header_and_body() {
    let mut buf: Vec<u8> = Vec::new();
    buf.extend_from_slice(b"POST /fraud-score HTTP/1.1\r\nContent-L");
    assert!(lb::request::read_request(&buf).unwrap().is_none());
    buf.extend_from_slice(b"ength: 5\r\nConnection: keep-alive\r\n\r\nhe");
    assert!(lb::request::read_request(&buf).unwrap().is_none());
    buf.extend_from_slice(b"llo");
    let req = lb::request::read_request(&buf).unwrap().expect("request");
    assert_eq!(req.route, Route::FraudScore);
    assert_eq!(&buf[req.header_len..req.total_len], b"hello");
    assert!(!req.close_after_response);
}

#[test]
fn read_request_keeps_next_request_bytes_for_keep_alive() {
    let mut buf: Vec<u8> = Vec::new();
    buf.extend_from_slice(
        b"GET /ready HTTP/1.1\r\nContent-Length: 0\r\n\r\nGET /ready HTTP/1.1\r\nContent-Length: 0\r\n\r\n",
    );
    let first = lb::request::read_request(&buf).unwrap().unwrap();
    assert_eq!(first.route, Route::Ready);
    consume_request(&mut buf, first.total_len);
    let second = lb::request::read_request(&buf).unwrap().unwrap();
    assert_eq!(second.route, Route::Ready);
}

#[test]
fn heads_are_refused_for_their_reasons() {
    let cases: [(&[u8], &str); 12] = [
        (b"GET /other HTTP/1.1\r\n\r\n", NOT_FOUND_RESPONSE),
        (b"POST /ready HTTP/1.1\r\n\r\n", NOT_FOUND_RESPONSE),
        (b"PUT /ready HTTP/1.1\r\n\r\n", METHOD_NOT_ALLOWED_RESPONSE),
        (b"GET /ready HTTP/2\r\n\r\n", BAD_REQUEST_RESPONSE),
        (b"GET /ready\r\n\r\n", BAD_REQUEST_RESPONSE),
        (b"\r\n\r\n", BAD_REQUEST_RESPONSE),
        (b"GET  /ready  HTTP/1.1\r\nno colon\r\n\r\n", BAD_REQUEST_RESPONSE),
        (b"POST  /fraud-score HTTP/1.1\r\n\r\n", BAD_REQUEST_RESPONSE),
        (b"POST  /fraud-score HTTP/1.1\r\nContent-Length: x\r\n\r\n", BAD_REQUEST_RESPONSE),
        (b"POST  /fraud-score HTTP/1.1\r\nContent-Length: 8193\r\n\r\n", PAYLOAD_TOO_LARGE_RESPONSE),
        (b"POST  /fraud-score HTTP/1.1\r\nContent-Length: 3\r\nTransfer-Encoding: gzip, ChunkeD\r\n\r\n", BAD_REQUEST_RESPONSE),
        (b"GET /ready HTTP/1.1\r\nHost: \xff\r\n\r\n", BAD_REQUEST_RESPONSE),
    ];
    for (head, response) in cases {
        let err = edge::parse_request_head(head).unwrap_err();
        assert_eq!(err.response, response.as_bytes(), "{:?}", String::from_utf8_lossy(head));
    }
}

#[test]
fn the_last_length_of_a_general_head_counts_and_may_have_a_plus() {
    let head = edge::parse_request_head(
        b"POST /fraud-score HTTP/1.0\r\nContent-Length: 3\r\ncontent-LENGTH: \t +0007\x0b \r\n\r\n",
    )
    .unwrap();
    assert_eq!(head.content_length, 7);
    assert!(head.close_after_response);
    // The empty line ends the fields.
    let head = edge::parse_request_head(b"GET /ready HTTP/1.1\r\n\r\nnot a field").unwrap();
    assert_eq!(head.content_length, 0);
}

#[test]
fn the_short_cut_reads_the_first_length() {
    let head = lb::request::parse_request_head_fast(
        b"POST /fraud-score HTTP/1.1\r\nContent-Length: \t 12\r\nContent-Length: 3\r\n\r\n",
    )
    .unwrap()
    .unwrap();
    assert_eq!(head.content_length, 12);
    // It leaves unusual heads alone.
    assert!(lb::request::parse_request_head_fast(b"POST  /fraud-score HTTP/1.1\r\n\r\n").unwrap().is_none());
    assert!(lb::request::parse_request_head_fast(b"POST /fraud-score HTTP/1.1\r\nCONTENT-LENGTH: 3\r\n\r\n").unwrap().is_none());
    assert!(lb::request::parse_request_head_fast(b"POST /fraud-score HTTP/1.1\r\ntransfer-encoding: gzip\r\nContent-Length: 3\r\n\r\n").unwrap().is_none());
    // The handed over connection has no other way to read them.
    let err = parse_handoff_head(b"POST /fraud-score HTTP/1.1\r\nCONTENT-LENGTH: 3\r\n\r\n").unwrap_err();
    assert_eq!(err.response, BAD_REQUEST_RESPONSE.as_bytes());
    let head = parse_handoff_head(b"post /fraud-score HTTP/1.1\r\n\r\n");
    assert_eq!(head.unwrap_err().response, METHOD_NOT_ALLOWED_RESPONSE.as_bytes());
    let head = parse_handoff_head(b"POST /fraud-score  HTTP/1.1\r\nCONTENT-LENGTH: 3\r\n\r\n").unwrap();
    assert_eq!(head.content_length, 3);
}

#[test]
fn old_version_and_close_field_end_the_connection() {
    for (text, close) in [
        ("GET /ready HTTP/1.0\r\nHost: a\r\n\r\n", true),
        ("GET /ready HTTP/1.1\r\nConnection: close\r\n\r\n", true),
        ("GET /ready HTTP/1.1\r\nconnection: close\r\n\r\n", true),
        ("GET /ready HTTP/1.1\r\nconnection: keep-alive\r\n\r\n", false),
        ("GET /ready HTTP/1.1\r\nCONNECTION: close\r\n\r\n", false),
    ] {
        assert_eq!(parse_handoff_head(text.as_bytes()).unwrap().close_after_response, close);
    }
    // The general form knows the field in any letter case.
    assert!(edge::parse_request_head(b"GET /ready HTTP/1.1\r\nCONNECTION:  Close \r\n\r\n").unwrap().close_after_response);
    assert!(contains_connection_close_fast(b"x\r\nConnection: closed"));
    assert!(!contains_connection_close_fast(b"Connection: close"));
}

#[test]
fn a_length_in_a_head_is_digits_up_to_the_end_of_the_line() {
    let good: [(&[u8], usize); 4] = [(b"5\r", 5), (b" \t5\n", 5), (b"007", 7), (b"18446744073709551615\r", usize::MAX)];
    for (text, value) in good {
        assert_eq!(parse_usize_decimal_header(text, 0).unwrap(), value);
    }
    let bad: [&[u8]; 6] = [b"", b"\r", b" ", b"5 \r", b"5x", b"18446744073709551616\r"];
    for text in bad {
        let err = parse_usize_decimal_header(text, 0).unwrap_err();
        assert_eq!(err.response, BAD_REQUEST_RESPONSE.as_bytes());
    }
    assert_eq!(find_content_length_value(b"a\r\ncontent-length: \t9"), Some(20));
    assert_eq!(find_content_length_value(b"content-length: 9"), None);
}

#[test]
fn large_heads_are_refused() {
    let mut head = b"GET /ready HTTP/1.1\r\nHost: ".to_vec();
    head.extend(std::iter::repeat(b'a').take(MAX_HEADER_BYTES));
    assert_eq!(parse_handoff_request(&head).unwrap_err().response, PAYLOAD_TOO_LARGE_RESPONSE.as_bytes());
    assert_eq!(edge::read_request(&head).unwrap_err().response, BAD_REQUEST_RESPONSE.as_bytes());
    assert_eq!(lb::request::read_request(&head).unwrap_err().response, BAD_REQUEST_RESPONSE.as_bytes());
    head.extend_from_slice(b"\r\n\r\n");
    // A head that is too large and complete is refused on a handed over connection only.
    assert_eq!(parse_handoff_request(&head).unwrap_err().response, PAYLOAD_TOO_LARGE_RESPONSE.as_bytes());
    assert_eq!(edge::read_request(&head).unwrap().unwrap().route, Route::Ready);
    let mut long = b"POST /fraud-score HTTP/1.1\r\nContent-Length: 8192\r\nHost: ".to_vec();
    long.extend(std::iter::repeat(b'a').take(MAX_HEADER_BYTES));
    long.extend_from_slice(b"\r\n\r\n");
    assert_eq!(lb::request::read_request(&long).unwrap_err().response, PAYLOAD_TOO_LARGE_RESPONSE.as_bytes());
}

#[test]
fn a_request_does_not_change_when_more_bytes_arrive() {
    let whole = b"POST /fraud-score HTTP/1.1\r\nContent-Length: 5\r\n\r\nhelloGET /ready HTTP/1.1\r\n\r\n";
    for end in 0..whole.len() {
        let seen = parse_handoff_request(&whole[..end]).unwrap();
        if end >= 54 {
            assert_eq!(seen, parse_handoff_request(whole).unwrap());
        } else {
            assert!(seen.is_none());
        }
    }
}

#[test]
fn a_closed_peer_is_refused_in_the_middle_of_a_request() {
    assert!(read_closed(b"").is_ok());
    assert_eq!(read_closed(b"G").unwrap_err().response, BAD_REQUEST_RESPONSE.as_bytes());
    assert_eq!(find_header_end(b"ab\r\n\r\ncd"), Some(2));
    assert_eq!(find_header_end(b"ab\r\n\r"), None);
}
