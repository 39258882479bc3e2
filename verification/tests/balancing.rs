use fraud_score::checks::{ClassifierTally, ParserTally, ParserVerdict};
use fraud_score::config::{
    busy_poll, env_u32, is_on, lb_settings, parse_arg, port_setting, read_backends, u64_setting,
    upstream_protocol, usize_setting, BackendsError, BusyPoll,
};
use fraud_score::lb::client::{status_text, Action, Client, Event, Stage, UpstreamProtocol};
use fraud_score::lb::metrics::{emit_request_trace, emit_summary, Metrics, RequestTrace};
use fraud_score::lb::pool::{
    note_forwarded, note_written, Attempt, Attempts, BackendPool, ClientCounts, RoundRobin,
};
use fraud_score::scoring::{BAD_GATEWAY_RESPONSE, BAD_REQUEST_RESPONSE, READY_OK_RESPONSE};
use fraud_score::stats::{percentile, stats_json, total};

fn average(sum: u128, count: usize) -> Vec<u8> {
    format!("{:.3}", sum as f64 / count as f64).into_bytes()
}

fn started() -> Event<'static> {
    Event::Started { request_id: 7, accept_to_read_us: 11, active: 2, max_active: 3 }
}

#[test]
fn a_client_is_forwarded_in_turn() {
    let mut robin = RoundRobin::new();
    let mut client = Client::new();
    assert!(matches!(client.on(started(), UpstreamProtocol::Http, &mut robin), Action::Read));
    assert!(matches!(client.on(Event::Received(b"POST /fraud-score HTTP/1.1\r\nContent-Length: 2\r\n", 100), UpstreamProtocol::Http, &mut robin), Action::Read));
    client.note_parse(5);
    assert_eq!(client.trace.request_parse_us, 0);
    let (request, backend) = match client.on(Event::Received(b"\r\n{}GET /ready HTTP/1.1\r\n\r\n", 40), UpstreamProtocol::Http, &mut robin) {
        Action::Forward(request, backend) => (request, backend),
        other => panic!("{other:?}"),
    };
    client.note_parse(6);
    assert_eq!(backend, 0);
    assert_eq!(client.body(&request), b"{}");
    assert!(matches!(client.on(Event::Forwarded(1), UpstreamProtocol::Http, &mut robin), Action::Reply));
    let action = client.on(Event::Written { write_us: 8, total_us: 250 }, UpstreamProtocol::Http, &mut robin);
    assert!(matches!(action, Action::Finish { ok: true, close: false }));
    let t = client.trace;
    assert_eq!((t.request_id, t.route, t.body_len, t.accept_to_read_us), (7, "fraud_score", 2, 11));
    assert_eq!((t.client_wait_us, t.client_read_us, t.request_parse_us), (100, 40, 6));
    assert_eq!((t.client_write_us, t.total_us, t.backend_idx, t.status_5xx), (8, 150, 1, 0));
    assert_eq!((t.active_clients_at_start, t.max_active_clients_seen), (2, 3));
    // The next request is already there, and goes to the other backend.
    let next = client.on(started(), UpstreamProtocol::Http, &mut robin);
    assert!(matches!(next, Action::Forward(_, 1)));
    assert!(client.saw_request_bytes);
    assert!(matches!(client.on(Event::NotForwarded, UpstreamProtocol::Http, &mut robin), Action::Write(data) if data == BAD_GATEWAY_RESPONSE.as_bytes()));
    let action = client.on(Event::Written { write_us: 1, total_us: 2 }, UpstreamProtocol::Http, &mut robin);
    assert!(matches!(action, Action::Finish { ok: false, close: true }));
    assert_eq!(client.trace.status_5xx, 1);
    assert_eq!(robin.next, 2);
}

#[test]
fn each_request_of_a_client_gets_one_answer() {
    let mut stream = Vec::new();
    for body in ["a", "bb", ""] {
        let length = body.len();
        if length == 0 {
            stream.extend_from_slice(b"GET /ready HTTP/1.1\r\n\r\n");
        } else {
            stream.extend_from_slice(format!("POST /fraud-score HTTP/1.1\r\nContent-Length: {length}\r\n\r\n{body}").as_bytes());
        }
    }
    stream.extend_from_slice(b"POST /fraud-score HTTP/1.1\r\nContent-Length: 3\r\n\r\nxyz");
    let written = Event::Written { write_us: 1, total_us: 2 };
    for gives in [stream.len(), 1, 13, 70] {
        // The last request finds no backend, and its answer closes the client.
        let mut robin = RoundRobin::new();
        let mut client = Client::new();
        let (mut read, mut asked, mut given) = (0, Vec::new(), Vec::new());
        let mut finished = 0;
        let mut event = started();
        loop {
            event = match client.on(event, UpstreamProtocol::Raw, &mut robin) {
                Action::Read => {
                    let count = gives.min(stream.len() - read);
                    read += count;
                    Event::Received(&stream[read - count..read], 1)
                }
                Action::Forward(request, backend) => {
                    asked.push(client.body(&request).to_vec());
                    assert_eq!(backend, (asked.len() - 1) % 2);
                    if asked.len() == 3 {
                        Event::NotForwarded
                    } else {
                        Event::Forwarded(backend)
                    }
                }
                Action::Reply => {
                    given.push(b"backend".to_vec());
                    written
                }
                Action::Write(response) => {
                    given.push(response.to_vec());
                    written
                }
                Action::Finish { ok, close } => {
                    finished += 1;
                    assert_eq!((ok, close), (finished < 4, finished == 4));
                    if close {
                        break;
                    }
                    started()
                }
                Action::Close => panic!("closed"),
            };
        }
        assert_eq!(asked, [b"a".to_vec(), b"bb".to_vec(), b"xyz".to_vec()]);
        assert_eq!(
            given,
            [b"backend".to_vec(), b"backend".to_vec(), READY_OK_RESPONSE.as_bytes().to_vec(), BAD_GATEWAY_RESPONSE.as_bytes().to_vec()]
        );
        assert_eq!(client.read_buf, stream[read..]);
        assert!(matches!(client.stage, Stage::Over));
        for event in [started(), Event::Received(b"GET /ready HTTP/1.1\r\n\r\n", 1), written, Event::Closed] {
            assert!(matches!(client.on(event, UpstreamProtocol::Raw, &mut robin), Action::Close));
            assert!(matches!(client.stage, Stage::Over) && client.read_buf.is_empty());
        }
    }
}

#[test]
fn raw_backends_are_not_asked_whether_they_are_ready() {
    let mut robin = RoundRobin::new();
    let mut client = Client::new();
    client.on(started(), UpstreamProtocol::Raw, &mut robin);
    let action = client.on(Event::Received(b"GET /ready HTTP/1.0\r\n\r\n", 1), UpstreamProtocol::Raw, &mut robin);
    assert!(matches!(action, Action::Write(data) if data == READY_OK_RESPONSE.as_bytes()));
    assert_eq!(robin.next, 0);
    let action = client.on(Event::Written { write_us: 1, total_us: 0 }, UpstreamProtocol::Raw, &mut robin);
    assert!(matches!(action, Action::Finish { ok: true, close: true }));
    assert_eq!((client.trace.total_us, client.trace.route), (0, "ready"));
    assert_eq!(status_text(true), "ok");
    assert_eq!(status_text(false), "bad_gateway");
}

#[test]
fn clients_that_stop_in_the_middle_are_refused() {
    for (sent, failed) in [(&b""[..], false), (&b"GET"[..], false), (&b"GET"[..], true)] {
        let mut robin = RoundRobin::new();
        let mut client = Client::new();
        client.on(started(), UpstreamProtocol::Http, &mut robin);
        if !sent.is_empty() {
            client.on(Event::Received(sent, 1), UpstreamProtocol::Http, &mut robin);
        }
        let event = if failed { Event::ReadFailed } else { Event::Closed };
        match client.on(event, UpstreamProtocol::Http, &mut robin) {
            Action::Close => assert!(sent.is_empty()),
            Action::Write(data) => {
                assert_eq!(data, BAD_REQUEST_RESPONSE.as_bytes());
                assert!(matches!(client.on(Event::Written { write_us: 0, total_us: 0 }, UpstreamProtocol::Http, &mut robin), Action::Close));
                assert!(matches!(client.stage, Stage::Over));
            }
            other => panic!("{other:?}"),
        }
    }
    let mut robin = RoundRobin::new();
    let mut client = Client::new();
    client.on(started(), UpstreamProtocol::Http, &mut robin);
    client.on(Event::Received(b"\r\n\r\n", 1), UpstreamProtocol::Http, &mut robin);
    assert!(matches!(client.on(Event::WriteFailed, UpstreamProtocol::Http, &mut robin), Action::Close));
}

#[test]
fn pools_keep_as_many_connections_as_they_have_room_for() {
    let mut trace = RequestTrace::default();
    let mut pool: BackendPool<u32> = BackendPool::new("api1:8080".to_string(), 2);
    assert_eq!(pool.addr(), "api1:8080");
    assert_eq!(pool.take(&mut trace, false), None);
    pool.put(1);
    pool.put(2);
    pool.put(3);
    assert_eq!(pool.idle, vec![1, 2]);
    assert_eq!(pool.take(&mut trace, false), Some(2));
    assert_eq!(pool.take(&mut trace, true), None);
    assert!(pool.idle.is_empty());
    assert_eq!((trace.idle_hits, trace.idle_misses), (1, 2));
    assert!(pool.wants_warm(1));
    pool.warm(4, 1);
    pool.warm(5, 1);
    assert_eq!(pool.idle, vec![4]);
    assert!(!pool.wants_warm(1));
    pool.warm(5, 9);
    assert!(!pool.wants_warm(9));
    assert_eq!(pool.idle, vec![4, 5]);
}

#[test]
fn a_request_is_tried_at_both_backends() {
    for selected in [0, 1] {
        let mut trace = RequestTrace::default();
        let (mut attempts, first) = Attempts::start(selected);
        assert_eq!(first, Attempt { backend: selected, force_fresh: false });
        assert_eq!(attempts.failed(&mut trace), Some(Attempt { backend: selected, force_fresh: true }));
        assert_eq!(attempts.failed(&mut trace), Some(Attempt { backend: 1 - selected, force_fresh: true }));
        assert_eq!(attempts.failed(&mut trace), None);
        assert_eq!((trace.retries, trace.reconnects), (2, 3));
    }
    let mut trace = RequestTrace::default();
    note_forwarded(&mut trace, 0);
    note_forwarded(&mut trace, 1);
    note_written(&mut trace, 3, 4);
    note_written(&mut trace, 10, 0);
    assert_eq!((trace.backend0, trace.backend1), (1, 1));
    assert_eq!((trace.upstream_write_header_us, trace.upstream_write_body_us, trace.upstream_write_us), (13, 4, 17));
}

#[test]
fn backends_and_clients_are_counted() {
    let mut robin = RoundRobin { next: u64::MAX };
    assert_eq!(robin.choose_backend(), 1);
    assert_eq!(robin.choose_backend(), 0);
    assert_eq!(robin.choose_backend(), 1);
    let mut counts = ClientCounts::new();
    counts.begin_client();
    counts.begin_client();
    counts.end_client();
    counts.begin_client();
    counts.end_client();
    assert_eq!((counts.active, counts.max_active_clients_seen()), (1, 2));
}

#[test]
fn percentiles_are_ranks() {
    let values: Vec<u64> = (1..=100).rev().collect();
    assert_eq!(
        stats_json(values.clone(), &average),
        br#"{"avg":50.500,"p50":51,"p90":91,"p99":100,"max":100}"#
    );
    assert_eq!(stats_json(vec![], &average), br#"{"avg":0,"p50":0,"p90":0,"p99":0,"max":0}"#);
    assert_eq!(stats_json(vec![9, 1, 5], &average), br#"{"avg":5.000,"p50":5,"p90":9,"p99":9,"max":9}"#);
    assert_eq!(percentile(&[10, 20, 30], 0), 10);
    assert_eq!(percentile(&[10, 20, 30], 1), 20);
    assert_eq!(percentile(&[10, 20, 30], 100), 30);
    assert_eq!(total(&[u64::MAX, u64::MAX]), 2 * u64::MAX as u128);
}

#[test]
fn requests_are_told_one_by_one_and_together() {
    let mut metrics = Metrics::new(2, 100, 3);
    assert_eq!(metrics.next_request_id(), 1);
    assert_eq!(metrics.next_request_id(), 2);
    let mut trace = RequestTrace { request_id: 2, route: "ready", total_us: 99, backend0: 1, ..RequestTrace::default() };
    let emitted = metrics.record(trace, "ok", &average);
    assert!(emitted.request.is_none() && emitted.summary.is_none());
    trace.request_id = 3;
    trace.total_us = 41;
    let emitted = metrics.record(trace, "ok", &average);
    let line = String::from_utf8(emitted.request.unwrap()).unwrap();
    assert!(line.starts_with(r#"{"kind":"lb_sample_request","request_id":3,"status":"ok","route":"ready","backend_idx":0,"#));
    let summary = String::from_utf8(emitted.summary.unwrap()).unwrap();
    assert!(summary.starts_with(r#"{"kind":"lb_summary","requests":2,"last_status":"ok","backend0":2,"backend1":0,"#));
    assert!(summary.ends_with(r#""total":{"avg":70.000,"p50":99,"p90":99,"p99":99,"max":99}}}"#));
    assert!(metrics.window.is_empty());
    trace.total_us = 100;
    let emitted = metrics.record(trace, "bad_gateway", &average);
    let line = String::from_utf8(emitted.request.unwrap()).unwrap();
    assert!(line.starts_with(r#"{"kind":"lb_slow_request","request_id":3,"status":"bad_gateway""#));
    let doc: serde_json::Value = serde_json::from_str(&line).unwrap();
    assert_eq!(doc["timings_us"]["total"].as_u64(), Some(100));
    assert_eq!(metrics.window.len(), 1);
}

#[test]
fn lines_are_json_with_every_field() {
    let trace = RequestTrace {
        request_id: 1, route: "fraud_score", body_len: 2, accept_to_read_us: 3, client_wait_us: 4, client_read_us: 5,
        request_parse_us: 6, pool_permit_wait_us: 7, idle_lock_us: 8, upstream_connect_us: 9, upstream_write_us: 10,
        upstream_write_header_us: 11, upstream_write_body_us: 12, upstream_wait_header_us: 13, upstream_read_body_us: 14,
        client_write_us: 15, total_us: 16, backend_idx: 17, backend0: 18, backend1: 19, idle_hits: 20, idle_misses: 21,
        active_clients_at_start: 22, max_active_clients_seen: 23, retries: 24, reconnects: 25, status_5xx: 26,
    };
    assert_eq!(
        String::from_utf8(emit_request_trace("k", &trace, "ok")).unwrap(),
        r#"{"kind":"k","request_id":1,"status":"ok","route":"fraud_score","backend_idx":17,"body_len":2,"idle_hits":20,"idle_misses":21,"retries":24,"reconnects":25,"status_5xx":26,"client_concurrency":{"at_start":22,"max_seen":23},"timings_us":{"accept_to_read":3,"client_wait":4,"client_read":5,"request_parse":6,"pool_permit_wait":7,"idle_lock":8,"upstream_connect":9,"upstream_write":10,"upstream_write_header":11,"upstream_write_body":12,"upstream_wait_header":13,"upstream_read_body":14,"client_write":15,"total":16}}"#
    );
    let line = String::from_utf8(emit_summary(&vec![trace, trace], "ok", &average)).unwrap();
    let doc: serde_json::Value = serde_json::from_str(&line).unwrap();
    assert_eq!(doc["requests"].as_u64(), Some(2));
    assert_eq!(doc["backend1"].as_u64(), Some(38));
    assert_eq!(doc["status_5xx"].as_u64(), Some(52));
    assert_eq!(doc["client_concurrency"]["max_seen"]["p50"].as_u64(), Some(23));
    assert_eq!(doc["request_counters"]["body_len"]["avg"].as_f64(), Some(2.0));
    assert_eq!(doc["timings_us"].as_object().unwrap().len(), 14);
    assert_eq!(doc["timings_us"]["client_write"]["max"].as_u64(), Some(15));
}

#[test]
fn settings_have_defaults_and_limits() {
    let s = lb_settings(None, None, None, None, None);
    assert_eq!((s.upstream_pool_per_backend, s.upstream_preconnect_per_backend), (32, 32));
    assert_eq!((s.trace_every, s.trace_slow_us, s.trace_sample), (10_000, 10_000, 0));
    let s = lb_settings(Some("999"), Some("300"), Some("0"), Some("5"), Some("-1"));
    assert_eq!((s.upstream_pool_per_backend, s.upstream_preconnect_per_backend), (256, 256));
    assert_eq!((s.trace_every, s.trace_slow_us, s.trace_sample), (1, 5, 0));
    let s = lb_settings(Some("0"), Some("0"), Some("x"), None, None);
    assert_eq!((s.upstream_pool_per_backend, s.upstream_preconnect_per_backend), (1, 0));
    assert_eq!(usize_setting(Some("9"), 1, 1, 4), 4);
    assert_eq!(u64_setting(Some("+18446744073709551615"), 3), u64::MAX);
    assert_eq!(u64_setting(Some("18446744073709551616"), 3), 3);
    assert_eq!(env_u32(Some("4294967296"), 7), 7);
    assert_eq!(port_setting(Some("65536")), 8080);
    assert_eq!(port_setting(Some("9999")), 9999);
    assert!(is_on(Some("1")));
    assert!(!is_on(Some("true")));
    assert!(!is_on(None));
    assert_eq!(upstream_protocol(None), Some(UpstreamProtocol::Http));
    assert_eq!(upstream_protocol(Some("RAW")), Some(UpstreamProtocol::Raw));
    assert_eq!(upstream_protocol(Some("tcp")), None);
    assert_eq!(busy_poll(None, None, None), Some(BusyPoll { usecs: 50, budget: 8, prefer: 1 }));
    assert_eq!(busy_poll(Some("0"), Some("70000"), Some("9")), Some(BusyPoll { usecs: 0, budget: 65535, prefer: 1 }));
    assert_eq!(busy_poll(Some("0"), None, Some("0")), None);
}

#[test]
fn there_are_two_backends() {
    assert_eq!(read_backends(b" api1:8080 ,,\tapi2:8080,"), Ok((&b"api1:8080"[..], &b"api2:8080"[..])));
    assert_eq!(read_backends(b" , "), Err(BackendsError::FirstMissing));
    assert_eq!(read_backends(b"a"), Err(BackendsError::SecondMissing));
    assert_eq!(read_backends(b"a,b,c"), Err(BackendsError::TooMany));
    let args: Vec<String> = ["--x", "--queries", "--queries", "b"].iter().map(|s| s.to_string()).collect();
    assert_eq!(parse_arg(&args, "--queries"), Some(2));
    assert_eq!(parse_arg(&args, "b"), None);
    assert_eq!(parse_arg(&args, "--y"), None);
}

#[test]
fn tools_count_what_went_wrong() {
    let mut tally = ClassifierTally::new();
    assert!(!tally.record(true, Some(true)));
    assert!(!tally.failed());
    for i in 0..21 {
        assert_eq!(tally.record(true, Some(false)), i < 20);
    }
    assert!(!tally.record(false, None));
    assert!(tally.failed());
    assert_eq!(tally.line(), br#"{"queries":23,"direct":22,"parse_failures":1,"direct_mismatches":21}"#);
    let mut tally = ParserTally::new();
    let vector = [3i16; 16];
    assert_eq!(tally.record((vector, 5), Some((vector, 5))), ParserVerdict::Same);
    assert!(!tally.failed());
    assert_eq!(tally.record((vector, 5), None), ParserVerdict::Failed);
    assert_eq!(tally.record((vector, 5), Some((vector, 6))), ParserVerdict::Different);
    let mut other = vector;
    other[15] = 4;
    assert_eq!(tally.record((vector, 5), Some((other, 5))), ParserVerdict::Different);
    assert!(tally.failed());
    assert_eq!(tally.line(), br#"{"queries":4,"mismatches":3}"#);
}
