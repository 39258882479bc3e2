use fraud_score::api::{ApiClassifier, ApiParser, ApiSetup, Engine};
use fraud_score::classifier::{Numbers, TreeCase};
use fraud_score::control::{
    drain_control, owner_of, read_message, ControlAction, ControlError, ControlEvent, Owner,
};
use fraud_score::edge_client;
use fraud_score::epoll::{after_write, Action, Conn, Event, Stage, WriteState, Wrote};
use fraud_score::fast_payload::{Constants, Quantity, Vec16I};
use fraud_score::inbox::{Inbox, Next, HANDOFF_BUFFER_BYTES};
use fraud_score::io_trace::{stat, IoTrace};
use fraud_score::scoring::{
    handoff_response_for_bucket, http_response_for_bucket, BAD_REQUEST_RESPONSE, READY_OK_RESPONSE,
    SERVICE_UNAVAILABLE_RESPONSE,
};
use fraud_score::uring;

const READY: &[u8] = b"GET /ready HTTP/1.1\r\n\r\n";

fn put(inbox: &mut Inbox, bytes: &[u8]) {
    let len = inbox.len;
    inbox.buf[len..len + bytes.len()].copy_from_slice(bytes);
}

fn average(sum: u128, count: usize) -> Vec<u8> {
    format!("{:.1}", sum as f64 / count as f64).into_bytes()
}

#[test]
fn an_inbox_drops_what_was_answered() {
    let mut inbox = Inbox::new();
    assert_eq!(inbox.spare(), HANDOFF_BUFFER_BYTES);
    put(&mut inbox, b"hello world");
    inbox.received(11);
    assert_eq!(inbox.bytes(), b"hello world");
    inbox.compact(6);
    assert_eq!(inbox.bytes(), b"world");
    inbox.append(b"!!");
    assert_eq!(inbox.bytes(), b"world!!");
    inbox.compact(99);
    assert_eq!(inbox.bytes(), b"");
    inbox.append(&vec![7u8; HANDOFF_BUFFER_BYTES + 5]);
    assert_eq!(inbox.bytes().len(), HANDOFF_BUFFER_BYTES);
    assert_eq!(inbox.spare(), 0);
    assert!(matches!(inbox.next(), Next::Refuse(_)));
}

#[test]
fn writes_go_on_until_the_socket_takes_no_more() {
    assert_eq!(after_write(10, 0, Wrote::Bytes(4)), Err(4));
    assert_eq!(after_write(10, 4, Wrote::Bytes(6)), Ok(WriteState::Done));
    assert_eq!(after_write(10, 4, Wrote::Bytes(0)), Ok(WriteState::Closed));
    assert_eq!(after_write(10, 4, Wrote::WouldBlock), Ok(WriteState::Pending(4)));
    assert_eq!(after_write(10, 4, Wrote::Interrupted), Err(4));
    assert_eq!(after_write(10, 4, Wrote::Failed), Ok(WriteState::Closed));
}

#[test]
fn a_connection_serves_pipelined_requests() {
    let mut conn = Conn::new();
    assert!(matches!(conn.on(Event::Woken), Action::Read));
    let mut bytes = READY.to_vec();
    bytes.extend_from_slice(b"POST /fraud-score HTTP/1.1\r\nContent-Length: 2\r\nConnection: close\r\n\r\n{}");
    put(&mut conn.inbox, &bytes);
    let first = match conn.on(Event::Received(bytes.len())) {
        Action::Score(request) => request,
        other => panic!("{other:?}"),
    };
    assert_eq!(first.total_len, READY.len());
    let response = READY_OK_RESPONSE.as_bytes();
    assert!(matches!(conn.on(Event::Scored(response)), Action::Write(data, 0) if data == response));
    let second = match conn.on(Event::Written(WriteState::Done)) {
        Action::Score(request) => request,
        other => panic!("{other:?}"),
    };
    assert_eq!(&conn.inbox.bytes()[second.header_len..second.total_len], b"{}");
    conn.on(Event::Scored(response));
    // The second request asked to close.
    assert!(matches!(conn.on(Event::Written(WriteState::Done)), Action::Close));
    assert_eq!(conn.inbox.bytes(), b"");
}

#[test]
fn a_slow_socket_gets_the_rest_of_the_response_first() {
    let mut conn = Conn::new();
    conn.on(Event::Woken);
    put(&mut conn.inbox, READY);
    conn.on(Event::Received(READY.len()));
    let response = READY_OK_RESPONSE.as_bytes();
    conn.on(Event::Scored(response));
    assert!(matches!(conn.on(Event::Written(WriteState::Pending(7))), Action::WatchOut));
    assert_eq!(conn.pending, Some((response, 7)));
    assert!(matches!(conn.on(Event::Watched(true)), Action::Keep));
    assert!(conn.want_out);
    assert!(matches!(conn.on(Event::Woken), Action::Write(data, 7) if data == response));
    assert!(matches!(conn.on(Event::Written(WriteState::Pending(9))), Action::Keep));
    assert!(matches!(conn.on(Event::Woken), Action::Write(_, 9)));
    assert!(matches!(conn.on(Event::Written(WriteState::Done)), Action::WatchIn));
    assert!(matches!(conn.on(Event::Watched(true)), Action::Read));
    assert!(!conn.want_out);
    assert!(matches!(conn.on(Event::Drained), Action::Keep));
    assert!(matches!(conn.on(Event::Woken), Action::Read));
    assert!(matches!(conn.on(Event::Interrupted), Action::Read));
    assert!(matches!(conn.on(Event::Lost), Action::Close));
}

#[test]
fn a_connection_ends_where_nothing_can_be_done() {
    let mut conn = Conn::new();
    conn.on(Event::Woken);
    put(&mut conn.inbox, b"BAD\r\n\r\n");
    assert!(matches!(conn.on(Event::Received(7)), Action::Write(data, 0) if data == BAD_REQUEST_RESPONSE.as_bytes()));
    assert!(matches!(conn.on(Event::Written(WriteState::Done)), Action::Close));
    assert!(matches!(conn.stage, Stage::Over));
    for (state, lost) in [(WriteState::Closed, true), (WriteState::Pending(0), false)] {
        let mut conn = Conn::new();
        conn.on(Event::Woken);
        put(&mut conn.inbox, READY);
        conn.on(Event::Received(READY.len()));
        conn.on(Event::Scored(READY_OK_RESPONSE.as_bytes()));
        let action = conn.on(Event::Written(state));
        assert_eq!(matches!(action, Action::Close), lost);
        assert!(matches!(conn.on(Event::Watched(false)), Action::Close));
    }
}

#[test]
fn requests_are_answered_in_order() {
    let answers: [&'static [u8]; 4] = [b"first", b"second", b"third", b"fourth"];
    let mut stream = Vec::new();
    for body in ["a", "bb", "ccc", "dddd"] {
        let length = body.len();
        stream.extend_from_slice(format!("POST /fraud-score HTTP/1.1\r\nContent-Length: {length}\r\n\r\n{body}").as_bytes());
    }
    stream.extend_from_slice(b"POST /fraud");
    // The socket gives so many bytes at a time, and takes so many.
    for (gives, takes) in [(stream.len(), 100), (7, 2), (60, 1), (3, 5)] {
        let mut conn = Conn::new();
        let (mut read, mut asked) = (0, Vec::new());
        let mut written = Vec::new();
        let mut room = takes;
        let mut event = Event::Woken;
        loop {
            event = match conn.on(event) {
                Action::Read if read == stream.len() => Event::Drained,
                Action::Read => {
                    let count = gives.min(stream.len() - read);
                    put(&mut conn.inbox, &stream[read..read + count]);
                    read += count;
                    Event::Received(count)
                }
                Action::Score(request) => {
                    asked.push(conn.inbox.bytes()[request.header_len..request.total_len].to_vec());
                    Event::Scored(answers[asked.len() - 1])
                }
                Action::Write(response, off) => {
                    let end = response.len().min(off + room);
                    written.extend_from_slice(&response[off..end]);
                    room -= end - off;
                    Event::Written(if end == response.len() { WriteState::Done } else { WriteState::Pending(end) })
                }
                Action::WatchOut | Action::WatchIn => Event::Watched(true),
                Action::Keep if conn.pending.is_none() => break,
                Action::Keep => {
                    room = takes;
                    Event::Woken
                }
                Action::Close => panic!("closed"),
            };
            if room == 0 {
                room = takes;
            }
        }
        assert_eq!(asked, [b"a".to_vec(), b"bb".to_vec(), b"ccc".to_vec(), b"dddd".to_vec()]);
        assert_eq!(written, b"firstsecondthirdfourth");
        assert_eq!(conn.inbox.bytes(), b"POST /fraud");
    }
}

#[test]
fn the_request_that_is_to_be_scored_is_answered() {
    let setup = ApiSetup { perf: false, log_search_avg: false, parser: ApiParser::Serde, classifier: ApiClassifier::Off, has_index: true };
    let engine = Engine {
        read: |_: &[u8]| 0u32,
        divide: |_: u32, _: u32| 0u32,
        predict: |_: &TreeCase<'_>, _: &Numbers| true,
        number: |_: &[u8]| 0u64,
        quantize: |_: Quantity| 0i16,
        search_vector: |_: &Vec16I, _: u16| 1u8,
        search_body: |body: &[u8]| if body == b"{}" { Some(4u8) } else { None },
    };
    let c = Constants::new(vec![0; 10000]).unwrap();
    let answer = handoff_response_for_bucket(4);
    let post = b"POST /fraud-score HTTP/1.1\r\nContent-Length: 2\r\n\r\n";
    for (bytes, response) in [
        (READY.to_vec(), READY_OK_RESPONSE.as_bytes()),
        ([&post[..], b"{}"].concat(), answer),
        ([&post[..], b"{]"].concat(), BAD_REQUEST_RESPONSE.as_bytes()),
    ] {
        let mut conn = Conn::new();
        conn.on(Event::Woken);
        assert_eq!(conn.respond(&setup, &engine, &c), None);
        put(&mut conn.inbox, &bytes);
        assert!(matches!(conn.on(Event::Received(bytes.len())), Action::Score(_)));
        assert_eq!(conn.respond(&setup, &engine, &c), Some(response));
        conn.on(Event::Scored(response));
        assert_eq!(conn.respond(&setup, &engine, &c), None);
    }
}

#[test]
fn both_servers_answer_alike() {
    let setup = ApiSetup { perf: false, log_search_avg: false, parser: ApiParser::Fast, classifier: ApiClassifier::Off, has_index: true };
    let engine = Engine {
        read: |_: &[u8]| 0u32,
        divide: |_: u32, _: u32| 0u32,
        predict: |_: &TreeCase<'_>, _: &Numbers| true,
        number: |_: &[u8]| 0u64,
        quantize: |_: Quantity| 0i16,
        search_vector: |_: &Vec16I, _: u16| 1u8,
        search_body: |body: &[u8]| if body.len() < 4 { Some(body.len() as u8) } else { None },
    };
    let c = Constants::new(vec![0; 10000]).unwrap();
    let mut stream = READY.to_vec();
    for (body, close) in [("a", false), ("bbbb", false), ("cc", true), ("ddd", false)] {
        let (length, field) = (body.len(), if close { "Connection: close\r\n" } else { "" });
        stream.extend_from_slice(format!("POST /fraud-score HTTP/1.1\r\nContent-Length: {length}\r\n{field}\r\n{body}").as_bytes());
    }
    // The last request stands behind the one that asked to close, and is never answered.
    let expected = [
        READY_OK_RESPONSE.as_bytes(),
        handoff_response_for_bucket(1),
        BAD_REQUEST_RESPONSE.as_bytes(),
        handoff_response_for_bucket(2),
    ]
    .concat();
    for (gives, takes) in [(stream.len(), 1000), (7, 9), (60, 1), (31, 40)] {
        // The event loop.
        let mut conn = Conn::new();
        let (mut read, mut written) = (0, Vec::new());
        let mut event = Event::Woken;
        loop {
            event = match conn.on(event) {
                Action::Read if read == stream.len() => Event::Drained,
                Action::Read => {
                    let count = gives.min(stream.len() - read);
                    put(&mut conn.inbox, &stream[read..read + count]);
                    read += count;
                    Event::Received(count)
                }
                Action::Score(_) => Event::Scored(conn.respond(&setup, &engine, &c).unwrap()),
                Action::Write(response, off) => {
                    let end = response.len().min(off + takes);
                    written.extend_from_slice(&response[off..end]);
                    Event::Written(if end == response.len() { WriteState::Done } else { WriteState::Pending(end) })
                }
                Action::WatchOut | Action::WatchIn => Event::Watched(true),
                Action::Keep => Event::Woken,
                Action::Close => break,
            };
        }
        assert_eq!(written, expected);
        for event in [Event::Woken, Event::Received(0), Event::Written(WriteState::Done)] {
            assert!(matches!(conn.on(event), Action::Close));
        }

        // The ring, with a receive at a time.
        let mut conn = uring::Conn::new();
        let (mut read, mut written) = (0, Vec::new());
        let mut op = conn.arm_recv();
        loop {
            op = match op {
                uring::Op::Receive => {
                    let count = gives.min(stream.len() - read);
                    put(&mut conn.inbox, &stream[read..read + count]);
                    read += count;
                    conn.on_recv(count as i32, &setup, &engine, &c)
                }
                uring::Op::Send(response, off) => {
                    let end = response.len().min(off + takes);
                    written.extend_from_slice(&response[off..end]);
                    conn.on_send((end - off) as i32, &setup, &engine, &c)
                }
                uring::Op::Nothing => panic!("nothing under way"),
                uring::Op::Close => break,
            };
        }
        assert_eq!(written, expected);

        // The ring, where bytes arrive by themselves, whether or not a response is being sent.
        let mut conn = uring::Conn::new();
        let (mut read, mut written) = (0, Vec::new());
        let mut sending: Option<(&'static [u8], usize)> = None;
        let mut closed = false;
        while !closed {
            if read < stream.len() {
                let count = gives.min(stream.len() - read);
                let chunk = &stream[read..read + count];
                read += count;
                let step = conn.on_recv_multi(count as i32, Some(1), true, chunk, &setup, &engine, &c);
                assert_eq!((step.publish, step.rearm, step.close), (Some(1), false, false));
                if let uring::Op::Send(response, off) = step.op {
                    assert_eq!(sending, None);
                    sending = Some((response, off));
                }
            }
            if let Some((response, off)) = sending.take() {
                let end = response.len().min(off + takes);
                written.extend_from_slice(&response[off..end]);
                match conn.on_send_multi((end - off) as i32, &setup, &engine, &c) {
                    uring::Op::Send(response, off) => sending = Some((response, off)),
                    uring::Op::Close => closed = true,
                    uring::Op::Nothing => {}
                    uring::Op::Receive => panic!("bytes arrive by themselves"),
                }
            }
        }
        assert_eq!(written, expected);
        let step = uring::on_recv_orphaned(Some(6));
        assert!(matches!(step.op, uring::Op::Nothing));
        assert_eq!((step.publish, step.rearm, step.close), (Some(6), false, false));
    }
}

#[test]
fn the_single_process_server_answers_each_request_once() {
    let search = |body: &[u8]| if body.len() < 4 { Some(body.len() as u8) } else { None };
    let mut stream = Vec::new();
    for body in ["a", "bb", "ccc", "dddd", "e"] {
        let length = body.len();
        stream.extend_from_slice(format!("POST /fraud-score HTTP/1.1\r\nContent-Length: {length}\r\n\r\n{body}").as_bytes());
        if length == 2 {
            stream.extend_from_slice(READY);
        }
    }
    // A body that cannot be scored closes the client, and what stands behind it is not answered.
    let expected = [
        http_response_for_bucket(1).unwrap(),
        http_response_for_bucket(2).unwrap(),
        READY_OK_RESPONSE.as_bytes(),
        http_response_for_bucket(3).unwrap(),
        BAD_REQUEST_RESPONSE.as_bytes(),
    ];
    for gives in [stream.len(), 1, 17, 80] {
        let mut client = edge_client::Client::new();
        let (mut read, mut written) = (0, Vec::new());
        let mut event = edge_client::Event::Started;
        loop {
            event = match client.on(event, true, &search) {
                edge_client::Action::Read => {
                    let count = gives.min(stream.len() - read);
                    read += count;
                    edge_client::Event::Received(&stream[read - count..read])
                }
                edge_client::Action::Write(response) => {
                    written.push(response);
                    edge_client::Event::Written
                }
                edge_client::Action::Close => break,
            };
        }
        assert_eq!(written, expected);
        if gives == stream.len() {
            assert!(client.read_buf.ends_with(b"\r\n\r\ne") && client.read_buf.starts_with(b"POST"));
        }
        for event in [edge_client::Event::Started, edge_client::Event::Received(READY), edge_client::Event::Written] {
            assert!(matches!(client.on(event, true, &search), edge_client::Action::Close));
        }
    }

    // Before the service is ready nothing is served, and the client is closed.
    let mut client = edge_client::Client::new();
    client.on(edge_client::Event::Started, false, &search);
    let action = client.on(edge_client::Event::Received(READY), false, &search);
    assert!(matches!(action, edge_client::Action::Write(data) if data == SERVICE_UNAVAILABLE_RESPONSE.as_bytes()));
    assert!(matches!(client.on(edge_client::Event::Written, true, &search), edge_client::Action::Close));
    assert!(matches!(client.stage, edge_client::Stage::Over));

    // A client that stops in the middle of a request is refused, one that stops before it is not.
    for (sent, event) in [(&b""[..], edge_client::Event::Closed), (b"GET", edge_client::Event::Closed), (b"", edge_client::Event::ReadFailed)] {
        let mut client = edge_client::Client::new();
        client.on(edge_client::Event::Started, true, &search);
        assert!(matches!(client.on(edge_client::Event::Received(sent), true, &search), edge_client::Action::Read));
        let quiet = sent.is_empty() && matches!(event, edge_client::Event::Closed);
        match client.on(event, true, &search) {
            edge_client::Action::Close => assert!(quiet),
            edge_client::Action::Write(data) => {
                assert!(!quiet);
                assert_eq!(data, BAD_REQUEST_RESPONSE.as_bytes());
                assert!(matches!(client.on(edge_client::Event::Written, true, &search), edge_client::Action::Close));
            }
            edge_client::Action::Read => panic!("read"),
        }
        assert!(matches!(client.stage, edge_client::Stage::Over));
    }

    // A refusal closes behind itself, and an answer that cannot be written ends the client.
    let mut client = edge_client::Client::new();
    client.on(edge_client::Event::Started, true, &search);
    let action = client.on(edge_client::Event::Received(b"\r\n\r\n"), true, &search);
    assert!(matches!(action, edge_client::Action::Write(data) if data == BAD_REQUEST_RESPONSE.as_bytes()));
    assert!(matches!(client.on(edge_client::Event::WriteFailed, true, &search), edge_client::Action::Close));
}

#[test]
fn parts_are_as_good_as_the_whole() {
    let bytes = b"POST /fraud-score HTTP/1.1\r\nContent-Length: 2\r\n\r\n{}";
    for split in 1..bytes.len() {
        let mut conn = Conn::new();
        conn.on(Event::Woken);
        put(&mut conn.inbox, &bytes[..split]);
        assert!(matches!(conn.on(Event::Received(split)), Action::Read));
        put(&mut conn.inbox, &bytes[split..]);
        assert!(matches!(conn.on(Event::Received(bytes.len() - split)), Action::Score(r) if r.total_len == bytes.len()));
    }
}

#[test]
fn marks_name_the_operation_and_the_file() {
    for op in [uring::OP_CTRL_POLL, uring::OP_RECV, uring::OP_SEND, 255] {
        for fd in [0, 5, i32::MAX, -1] {
            let mark = uring::ud(op, fd);
            assert_eq!(uring::ud_op(mark), op);
            assert_eq!(uring::ud_fd(mark), fd);
        }
    }
    assert_eq!(uring::ud(2, 5), 0x0200_0000_0000_0005);
}

#[test]
fn flags_name_the_buffer() {
    assert_eq!(uring::read_flags(0), (None, false));
    assert_eq!(uring::read_flags(0x0007_0001), (Some(7), false));
    assert_eq!(uring::read_flags(0xffff_0003), (Some(0xffff), true));
    assert_eq!(uring::read_flags(0x0007_0002), (None, true));
}

#[test]
fn buffers_go_round() {
    let mut ring = uring::BufRing::new();
    for slot in 0..512 {
        assert_eq!(ring.publish(), slot);
    }
    assert_eq!(ring.publish(), 0);
    ring.tail = u16::MAX;
    assert_eq!(ring.publish(), 511);
    assert_eq!(ring.tail, 0);
    assert_eq!(uring::buffer_range(3, 100), (3 * 16384, 3 * 16384 + 100));
    assert_eq!(uring::buffer_range(511, 99999), (511 * 16384, 512 * 16384));
}

#[test]
fn a_ring_connection_sends_one_response_at_a_time() {
    let setup = ApiSetup { perf: false, log_search_avg: false, parser: ApiParser::Fast, classifier: ApiClassifier::Off, has_index: true };
    let engine = Engine {
        read: |_: &[u8]| 0u32,
        divide: |_: u32, _: u32| 0u32,
        predict: |_: &TreeCase<'_>, _: &Numbers| true,
        number: |_: &[u8]| 0u64,
        quantize: |_: Quantity| 0i16,
        search_vector: |_: &Vec16I, _: u16| 1u8,
        search_body: |body: &[u8]| if body == b"{}" { Some(4u8) } else { None },
    };
    let c = Constants::new(vec![0; 10000]).unwrap();
    let mut bytes = READY.to_vec();
    bytes.extend_from_slice(b"POST /fraud-score HTTP/1.1\r\nContent-Length: 2\r\n\r\n{}");
    let answer = handoff_response_for_bucket(4);

    let mut conn = uring::Conn::new();
    assert!(matches!(conn.arm_recv(), uring::Op::Receive));
    put(&mut conn.inbox, &bytes);
    let ready = READY_OK_RESPONSE.as_bytes();
    assert!(matches!(conn.on_recv(bytes.len() as i32, &setup, &engine, &c), uring::Op::Send(data, 0) if data == ready));
    assert!(matches!(conn.on_send(10, &setup, &engine, &c), uring::Op::Send(data, 10) if data == ready));
    let rest = ready.len() as i32 - 10;
    assert!(matches!(conn.on_send(rest, &setup, &engine, &c), uring::Op::Send(data, 0) if data == answer));
    assert!(matches!(conn.on_send(answer.len() as i32, &setup, &engine, &c), uring::Op::Receive));
    assert!(conn.recv_armed);
    assert!(matches!(conn.on_recv(0, &setup, &engine, &c), uring::Op::Close));
    assert!(matches!(conn.on_send(-1, &setup, &engine, &c), uring::Op::Close));

    let mut conn = uring::Conn::new();
    let step = conn.on_recv_multi(bytes.len() as i32, Some(9), true, &bytes, &setup, &engine, &c);
    assert_eq!((step.publish, step.rearm, step.close), (Some(9), false, false));
    assert!(matches!(step.op, uring::Op::Send(data, 0) if data == ready));
    // While it is sent, what arrives only waits.
    let step = conn.on_recv_multi(READY.len() as i32, Some(8), false, READY, &setup, &engine, &c);
    assert_eq!((step.publish, step.rearm, step.close), (Some(8), true, false));
    assert!(matches!(step.op, uring::Op::Nothing));
    assert!(matches!(conn.on_send_multi(ready.len() as i32, &setup, &engine, &c), uring::Op::Send(data, 0) if data == answer));
    assert!(matches!(conn.on_send_multi(answer.len() as i32, &setup, &engine, &c), uring::Op::Send(data, 0) if data == ready));
    assert!(matches!(conn.on_send_multi(ready.len() as i32, &setup, &engine, &c), uring::Op::Nothing));
    let step = conn.on_recv_multi(uring::NO_BUFFERS, None, false, b"", &setup, &engine, &c);
    assert_eq!((step.publish, step.rearm, step.close), (None, true, false));
    let step = conn.on_recv_multi(0, None, false, b"", &setup, &engine, &c);
    assert_eq!((step.publish, step.rearm, step.close), (None, false, true));
    let step = uring::on_recv_orphaned(Some(3));
    assert_eq!((step.publish, step.rearm, step.close), (Some(3), false, false));
    // A refusal closes behind itself.
    let mut conn = uring::Conn::new();
    let step = conn.on_recv_multi(4, Some(1), true, b"\r\n\r\n", &setup, &engine, &c);
    assert!(matches!(step.op, uring::Op::Send(data, 0) if data == BAD_REQUEST_RESPONSE.as_bytes()));
    assert!(matches!(conn.on_send_multi(BAD_REQUEST_RESPONSE.len() as i32, &setup, &engine, &c), uring::Op::Close));
}

#[test]
fn stages_are_told_after_enough_scores() {
    let mut trace = IoTrace::new(true, 0);
    assert_eq!(trace.every, 1);
    assert!(trace.on());
    assert!(trace.push_write(8, &average).is_none());
    trace.push_read(5);
    trace.push_score(3);
    trace.push_score(1);
    let line = trace.push_write(9, &average).unwrap();
    assert_eq!(
        String::from_utf8(line).unwrap(),
        r#"{"kind":"io_trace","samples":2,"read_ns":{"p50":5,"p99":5,"max":5,"avg":5.0},"score_ns":{"p50":3,"p99":3,"max":3,"avg":2.0},"write_ns":{"p50":9,"p99":9,"max":9,"avg":8.5}}"#
    );
    assert!(trace.read_ns.is_empty() && trace.score_ns.is_empty() && trace.write_ns.is_empty());
    assert_eq!(stat(&vec![], &average), br#"{"p50":0,"p99":0,"max":0,"avg":0.0}"#);
    let mut off = IoTrace::new(false, 5);
    off.push_read(1);
    off.push_score(1);
    assert!(off.push_write(1, &average).is_none());
    assert!(off.read_ns.is_empty() && off.write_ns.is_empty());
}

#[test]
fn control_messages_hand_over_files() {
    assert_eq!(read_message(0, false, -1), Ok(None));
    assert_eq!(read_message(-1, false, -1), Err(ControlError::System));
    assert_eq!(read_message(1, false, 3), Err(ControlError::NoFile));
    assert_eq!(read_message(1, true, -1), Err(ControlError::BadFile));
    assert_eq!(read_message(1, true, 3), Ok(Some(3)));
    assert_eq!(drain_control(ControlEvent::File(3), true), ControlAction::Register(3));
    assert_eq!(drain_control(ControlEvent::Interrupted, true), ControlAction::TryAgain);
    assert_eq!(drain_control(ControlEvent::Drained, true), ControlAction::Stop);
    assert_eq!(drain_control(ControlEvent::Closed, true), ControlAction::Close);
    assert_eq!(drain_control(ControlEvent::Failed, false), ControlAction::Stop);
    assert_eq!(owner_of(3, 3, false, false), Owner::Listener);
    assert_eq!(owner_of(4, 3, true, false), Owner::Control);
    assert_eq!(owner_of(4, 3, false, true), Owner::Client);
    assert_eq!(owner_of(4, 3, false, false), Owner::Unknown);
}
