use fraud_score::api::{answer_placeholder, answer_ready, control_path, health_status, raw_reply, read_raw_length, respond_to_score, AverageLog, Unscored};
use fraud_score::edge;
use fraud_score::head::Route;
use fraud_score::lb::upstream::{
    build_raw_frame, build_upstream_header, build_upstream_request, cut_response, http_frames,
    parse_response_content_length, read_raw_reply, read_response, response_closed,
    response_for_bucket, UpstreamError, STACK_UPSTREAM_FRAME_BYTES,
};
use fraud_score::request::{find_header_end, ParsedRequest};
use fraud_score::scoring::{
    body_for_bucket, handoff_response_for_bucket, http_response_for_bucket, BAD_REQUEST_RESPONSE,
    METHOD_NOT_ALLOWED_RESPONSE, NOT_FOUND_RESPONSE, READY_OK_RESPONSE,
    SERVICE_UNAVAILABLE_RESPONSE,
};

#[test]
fn handoff_score_responses_match_body_lengths() {
    for bucket in 0..=5 {
        let response = handoff_response_for_bucket(bucket);
        let header_end = find_header_end(response).unwrap() + 4;
        let content_len = std::str::from_utf8(&response[..header_end])
            .unwrap()
            .split("\r\n")
            .find_map(|line| {
                line.strip_prefix("Content-Length:")
                    .map(|value| value.trim().parse::<usize>().unwrap())
            })
            .unwrap();
        assert_eq!(content_len, response.len() - header_end);
    }
}

#[test]
fn score_http_responses_have_matching_content_length() {
    for bucket in 0..=5 {
        let response = http_response_for_bucket(bucket).unwrap();
        let header_end = response
            .windows(4)
            .position(|w| w == b"\r\n\r\n")
            .expect("header end")
            + 4;
        let header = std::str::from_utf8(&response[..header_end]).unwrap();
        let content_length = header
            .split("\r\n")
            .find_map(|line| line.strip_prefix("Content-Length: "))
            .unwrap()
            .parse::<usize>()
            .unwrap();
        assert_eq!(content_length, response.len() - header_end);
    }
}

#[test]
fn response_content_length_allows_zero() {
    let header = b"HTTP/1.1 200 OK\r\nContent-Length: 0\r\n\r\n";
    assert_eq!(parse_response_content_length(header).unwrap(), 0);
}

#[test]
fn builds_upstream_post_header_without_heap_formatting() {
    let mut buf = [0u8; 256];
    let header = build_upstream_header(Route::FraudScore, "api1:8080", 123, &mut buf).unwrap();
    assert_eq!(
        header,
        b"POST /fraud-score HTTP/1.1\r\nHost: api1:8080\r\nContent-Type: application/json\r\nContent-Length: 123\r\nConnection: keep-alive\r\n\r\n"
    );
}

#[test]
fn builds_upstream_ready_header() {
    let mut buf = [0u8; 256];
    let header = build_upstream_header(Route::Ready, "api2:8080", 0, &mut buf).unwrap();
    assert_eq!(
        header,
        b"GET /ready HTTP/1.1\r\nHost: api2:8080\r\nConnection: keep-alive\r\nContent-Length: 0\r\n\r\n"
    );
}

#[test]
fn raw_score_responses_have_valid_content_length() {
    for bucket in 0..=5 {
        let response = response_for_bucket(bucket).unwrap();
        let header_end = find_header_end(response).unwrap() + 4;
        let content_length = parse_response_content_length(&response[..header_end]).unwrap();
        assert_eq!(content_length, response.len() - header_end);
    }
}

#[test]
fn buckets_have_their_bodies() {
    assert_eq!(body_for_bucket(0), r#"{"approved":true,"fraud_score":0}"#);
    assert_eq!(body_for_bucket(2), r#"{"approved":true,"fraud_score":0.4}"#);
    assert_eq!(body_for_bucket(3), r#"{"approved":false,"fraud_score":0.6}"#);
    assert_eq!(body_for_bucket(5), r#"{"approved":false,"fraud_score":1}"#);
    assert_eq!(body_for_bucket(200), r#"{"approved":false,"fraud_score":1}"#);
    assert!(http_response_for_bucket(6).is_none());
    assert!(response_for_bucket(6).is_none());
    assert_eq!(handoff_response_for_bucket(6), handoff_response_for_bucket(5));
    for bucket in 0..=5 {
        assert!(http_response_for_bucket(bucket).unwrap().ends_with(body_for_bucket(bucket).as_bytes()));
        assert!(handoff_response_for_bucket(bucket).ends_with(body_for_bucket(bucket).as_bytes()));
    }
}

#[test]
fn upstream_heads_have_a_limit() {
    let mut small = [0u8; 256];
    let host = "h".repeat(300);
    assert_eq!(build_upstream_header(Route::Ready, &host, 0, &mut small), Err(UpstreamError::HeaderTooLarge));
    let mut large = [0u8; STACK_UPSTREAM_FRAME_BYTES];
    let request = build_upstream_request(Route::FraudScore, "a", b"{}", &mut large).unwrap().unwrap();
    assert_eq!(
        request,
        b"POST /fraud-score HTTP/1.1\r\nHost: a\r\nContent-Type: application/json\r\nContent-Length: 2\r\nConnection: keep-alive\r\n\r\n{}"
    );
    let mut large = [0u8; STACK_UPSTREAM_FRAME_BYTES];
    assert_eq!(build_upstream_request(Route::FraudScore, "a", &[7u8; 1000], &mut large), Ok(None));
    let host = "h".repeat(2000);
    let mut large = [0u8; STACK_UPSTREAM_FRAME_BYTES];
    assert_eq!(build_upstream_request(Route::Ready, &host, b"", &mut large), Err(UpstreamError::HeaderTooLarge));
    // A large body goes behind its head.
    let body = [7u8; 1000];
    let mut large = [0u8; STACK_UPSTREAM_FRAME_BYTES];
    let (head, rest) = http_frames(Route::FraudScore, "a", &body, &mut large, &mut small).unwrap();
    assert!(head.ends_with(b"Content-Length: 1000\r\nConnection: keep-alive\r\n\r\n"));
    assert_eq!(rest.unwrap(), &body);
}

#[test]
fn raw_frames_carry_the_length_first() {
    let frame = build_raw_frame(Route::FraudScore, &[9u8; 258]).unwrap();
    assert_eq!(&frame[..3], &[1, 2, 9]);
    assert_eq!(frame.len(), 260);
    assert_eq!(read_raw_length(frame[0], frame[1]), Some(258));
    assert_eq!(build_raw_frame(Route::Ready, b"x"), Err(UpstreamError::RawUnsupported));
    assert_eq!(build_raw_frame(Route::FraudScore, &vec![0u8; 65536]), Err(UpstreamError::RawUnsupported));
    assert_eq!(read_raw_length(0, 0), None);
    assert_eq!(read_raw_length(0x20, 0), Some(8192));
    assert_eq!(read_raw_length(0x20, 1), None);
    assert_eq!(raw_reply(Ok(3)), 3);
    assert_eq!(raw_reply(Err(Unscored)), 255);
    assert_eq!(read_raw_reply(255).unwrap(), BAD_REQUEST_RESPONSE.as_bytes());
    assert_eq!(read_raw_reply(3).unwrap(), http_response_for_bucket(3).unwrap());
    assert_eq!(read_raw_reply(6), Err(UpstreamError::InvalidBucket));
}

#[test]
fn responses_of_backends_are_read_in_full() {
    for bucket in 0..=5 {
        let whole = http_response_for_bucket(bucket).unwrap();
        for end in 0..whole.len() {
            assert_eq!(read_response(&whole[..end]), Ok(None));
        }
        assert_eq!(read_response(whole), Ok(Some(whole.len())));
        let mut more = whole.to_vec();
        more.extend_from_slice(b"HTTP/1.1");
        let total = read_response(&more).unwrap().unwrap();
        cut_response(&mut more, total);
        assert_eq!(more, whole);
    }
}

#[test]
fn bad_responses_of_backends_are_told_apart() {
    let cases: [(&[u8], UpstreamError); 5] = [
        (b"HTTP/1.1 200 OK\r\nX: 1\r\n\r\n", UpstreamError::MissingLength),
        (b"HTTP/1.1 200 OK\r\nno colon\r\nContent-Length: -1\r\n\r\n", UpstreamError::BadLength),
        (b"HTTP/1.1 200 OK\r\nX: \xff\r\n\r\n", UpstreamError::NonUtf8Header),
        (b"HTTP/1.1 200 OK\r\ncontent-length: 18446744073709551615\r\n\r\n", UpstreamError::LengthOverflow),
        (&[b'a'; 4097], UpstreamError::ResponseHeaderTooLarge),
    ];
    for (text, error) in cases {
        assert_eq!(read_response(text), Err(error));
    }
    assert_eq!(response_closed(b"HTTP"), UpstreamError::ClosedBeforeHeader);
    assert_eq!(response_closed(b"HTTP/1.1 200 OK\r\nContent-Length: 5\r\n\r\n"), UpstreamError::ClosedBeforeBody);
    assert_eq!(parse_response_content_length(b"HTTP/1.1 200 OK\r\nCONTENT-length:\t 12 \r\ncontent-length: 3\r\n\r\n"), Ok(12));
}

#[test]
fn small_servers_answer_what_they_know() {
    assert_eq!(answer_ready(b"GET /ready HTTP/1.1\r\n", true), READY_OK_RESPONSE.as_bytes());
    assert_eq!(answer_ready(b"HEAD /ready HTTP/1.1\r\n", false), SERVICE_UNAVAILABLE_RESPONSE.as_bytes());
    assert_eq!(answer_ready(b"GET /readyx", true), NOT_FOUND_RESPONSE.as_bytes());
    assert_eq!(answer_ready(b"HEAD / ", true), NOT_FOUND_RESPONSE.as_bytes());
    assert_eq!(answer_ready(b"POST /ready ", true), METHOD_NOT_ALLOWED_RESPONSE.as_bytes());
    assert_eq!(answer_placeholder(b"GET /ready HTTP/1.1"), (READY_OK_RESPONSE.as_bytes(), false));
    assert_eq!(answer_placeholder(b"POST /fraud-score"), (NOT_FOUND_RESPONSE.as_bytes(), true));
    assert_eq!(health_status(true), 200);
    assert_eq!(health_status(false), 503);
    assert_eq!(control_path(b"unix:/run/a.sock"), b"/run/a.sock");
    assert_eq!(control_path(b"/run/a.sock"), b"/run/a.sock");
}

#[test]
fn scores_are_answered_and_failures_refused() {
    assert_eq!(respond_to_score(Ok(2)), handoff_response_for_bucket(2));
    assert_eq!(respond_to_score(Err(Unscored)), BAD_REQUEST_RESPONSE.as_bytes());
    let mut log = AverageLog::new();
    for _ in 0..9999 {
        assert!(!log.record(3));
    }
    assert!(log.record(5));
    assert_eq!((log.count, log.total_us), (10000, 30002));
}

#[test]
fn the_edge_serves_nothing_before_it_is_ready() {
    let buf = b"headbody";
    let mut request = ParsedRequest { route: Route::FraudScore, header_len: 4, total_len: 8, close_after_response: false };
    let search = |body: &[u8]| if body == b"body" { Some(4u8) } else { None };
    assert_eq!(edge::answer(&request, buf, false, &search), (SERVICE_UNAVAILABLE_RESPONSE.as_bytes(), true));
    assert_eq!(edge::answer(&request, buf, true, &search), (http_response_for_bucket(4).unwrap(), false));
    let nothing = |_: &[u8]| None;
    assert_eq!(edge::answer(&request, buf, true, &nothing), (BAD_REQUEST_RESPONSE.as_bytes(), true));
    let over = |_: &[u8]| Some(6u8);
    assert_eq!(edge::answer(&request, buf, true, &over), (BAD_REQUEST_RESPONSE.as_bytes(), true));
    request.route = Route::Ready;
    request.close_after_response = true;
    assert_eq!(edge::answer(&request, buf, true, &nothing), (READY_OK_RESPONSE.as_bytes(), true));
}
