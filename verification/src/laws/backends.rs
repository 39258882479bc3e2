//! The backends: whose turn it is, which connection is taken, and what is read from them.
use vstd::prelude::*;
use vstd::utf8::valid_utf8;

use crate::bytes::ascii;
use crate::decimal::{numeral, usize_text};
use crate::head::{lines, Route};
use crate::laws::framing::{ends_head, lemma_head_found, lemma_no_head_found};
use crate::laws::heads::{can_be_written, field_text, lemma_field_is_read, WrittenField};
use crate::lb::metrics::RequestTrace;
use crate::lb::pool::{
    attempts, counts_begun, counts_ended, forwarded_trace, idle_put, idle_taken, idle_wanted,
    one_more, sum_up, turn, written_trace, ClientCounts,
};
use crate::lb::upstream::{
    closed_error, first_length, frames_of, raw_answer, raw_frame, raw_request, response_length, response_outcome, upstream_header,
    upstream_request, UpstreamError,
};
use crate::message::{joined, lemma_field_lines, lemma_joined_lines, lemma_upstream_header};
use crate::scoring::keep_alive_response;

verus! {

/// A connection that is put back is the next one that is taken, and taking it leaves those that were
/// there before.
pub proof fn law_what_was_put_back_is_taken<T>(idle: Seq<T>, room: int, stream: T)
    ensures
        idle.len() < room ==> idle_taken(idle_put(idle, room, stream), false) == (
            Some(stream),
            idle,
        ),
        idle.len() >= room ==> idle_put(idle, room, stream) == idle,
        idle.len() <= room ==> idle_put(idle, room, stream).len() <= room,
{
    assert(idle.push(stream).drop_last() =~= idle);
}

/// Where none is idle, and where a fresh connection is asked for, none is taken and none is left;
/// otherwise the last one is.
pub proof fn law_fresh_connections_are_not_taken<T>(idle: Seq<T>, force_fresh: bool)
    ensures
        force_fresh ==> idle_taken(idle, force_fresh) == (None::<T>, Seq::<T>::empty()),
        idle.len() == 0 ==> idle_taken(idle, force_fresh) == (None::<T>, Seq::<T>::empty()),
        !force_fresh && idle.len() > 0 ==> (idle_taken(idle, force_fresh).0 matches Some(taken)
            && idle == idle_taken(idle, force_fresh).1.push(taken)),
{
    if idle.len() > 0 {
        assert(idle.drop_last().push(idle.last()) =~= idle);
    }
}

/// Connections are made ahead until there are as many as wanted, or the room is full.
pub proof fn law_connections_are_made_ahead(idle: int, room: int, target: int)
    ensures
        idle_wanted(idle, room, target) <==> idle < room && idle < target,
        idle >= room ==> !idle_wanted(idle, room, target),
        idle >= target ==> !idle_wanted(idle, room, target),
{
}

/// The first attempt at a request is at the backend whose turn it is, on an idle connection if there
/// is one; the second at the same one and the third at the other one, each on a fresh connection.
pub proof fn law_attempts_go_to_both_backends(selected: int, next: int)
    requires
        0 <= selected <= 1,
        0 <= next <= 0xffff_ffff_ffff_ffff,
    ensures
        attempts(selected).len() == 3,
        attempts(selected)[0].backend == selected && !attempts(selected)[0].force_fresh,
        attempts(selected)[1].backend == selected && attempts(selected)[1].force_fresh,
        attempts(selected)[2].backend + selected == 1 && attempts(selected)[2].force_fresh,
        turn(next, 0) == next % 2,
{
}

/// A client that comes is one more, and the most there were is never less than there are; one that
/// goes is one less, and the most stays.
pub proof fn law_clients_are_counted(counts: ClientCounts)
    requires
        counts.active <= counts.max_active,
    ensures
        counts.active < u64::MAX ==> counts_begun(counts).active == counts.active + 1,
        counts.active == u64::MAX ==> counts_begun(counts).active == counts.active,
        counts_begun(counts).max_active == counts.max_active || counts_begun(counts).max_active
            == counts_begun(counts).active,
        counts_begun(counts).max_active >= counts.max_active,
        counts_begun(counts).max_active >= counts_begun(counts).active,
        counts.active > 0 ==> counts_ended(counts).active == counts.active - 1
            && counts_ended(counts).max_active == counts.max_active,
{
}

/// The backend that answered is noted, and the other one is left as it was.
pub proof fn law_the_backend_that_answered_is_noted(t: RequestTrace, backend: int)
    requires
        0 <= backend <= 1,
    ensures
        backend == 0 ==> forwarded_trace(t, backend).backend0 == 1 && forwarded_trace(
            t,
            backend,
        ).backend1 == t.backend1,
        backend == 1 ==> forwarded_trace(t, backend).backend1 == 1 && forwarded_trace(
            t,
            backend,
        ).backend0 == t.backend0,
        forwarded_trace(t, backend) == (RequestTrace {
            backend0: forwarded_trace(t, backend).backend0,
            backend1: forwarded_trace(t, backend).backend1,
            ..t
        }),
{
}

/// Times and counts are added up, and stay at the largest number once they would exceed it.
pub proof fn law_times_add_up(a: u64, b: u64, t: RequestTrace)
    ensures
        a + b <= u64::MAX ==> sum_up(a, b) == a + b,
        a + b > u64::MAX ==> sum_up(a, b) == u64::MAX,
        a < u64::MAX ==> one_more(a) == a + 1,
        a == u64::MAX ==> one_more(a) == a,
        t.upstream_write_header_us + a + t.upstream_write_body_us + b <= u64::MAX ==> {
            let w = written_trace(t, a, b);
            &&& w.upstream_write_header_us == t.upstream_write_header_us + a
            &&& w.upstream_write_body_us == t.upstream_write_body_us + b
            &&& w.upstream_write_us == w.upstream_write_header_us + w.upstream_write_body_us
            &&& w.total_us == t.total_us
            &&& w.client_write_us == t.client_write_us
        },
{
}

/// A raw backend's reply is the response of its bucket, 255 is a bad request, and any other number is
/// an error.
pub proof fn law_raw_replies_are_buckets(code: u8)
    ensures
        code <= 5 ==> raw_answer(code) == Ok::<Seq<u8>, UpstreamError>(
            keep_alive_response(code as int),
        ),
        5 < code < 255 ==> raw_answer(code) == Err::<Seq<u8>, UpstreamError>(
            UpstreamError::InvalidBucket,
        ),
        code == 255 ==> raw_answer(code) == Ok::<Seq<u8>, UpstreamError>(
            ascii("HTTP/1.1 400 Bad Request\r\nContent-Length: 0\r\nConnection: close\r\n\r\n"@),
        ),
{
}

/// A backend that closes before the empty line has not finished its head, and one that closes behind
/// it has not finished its body.
pub proof fn law_a_backend_that_closes(head: Seq<u8>, rest: Seq<u8>)
    ensures
        head.len() >= 4 && ends_head(head, head.len() - 4) && (forall|j: int|
            0 <= j < head.len() - 4 ==> !#[trigger] ends_head(head, j)) ==> closed_error(
            head + rest,
        ) == UpstreamError::ClosedBeforeBody,
        (forall|j: int| 0 <= j < rest.len() - 3 ==> !#[trigger] ends_head(rest, j))
            ==> closed_error(rest) == UpstreamError::ClosedBeforeHeader,
{
    if head.len() >= 4 && ends_head(head, head.len() - 4) && (forall|j: int|
        0 <= j < head.len() - 4 ==> !#[trigger] ends_head(head, j)) {
        lemma_head_found(head, rest);
    }
    if forall|j: int| 0 <= j < rest.len() - 3 ==> !#[trigger] ends_head(rest, j) {
        lemma_no_head_found(rest);
    }
}

/// A response is its head and as many bytes as the head declares: it is found once they have arrived.
/// Until then it is waited for, and a head that does not end within 4096 bytes is refused.
pub proof fn law_a_response_is_its_head_and_its_body(head: Seq<u8>, rest: Seq<u8>)
    ensures
        head.len() >= 4 && ends_head(head, head.len() - 4) && (forall|j: int|
            0 <= j < head.len() - 4 ==> !#[trigger] ends_head(head, j)) ==> match response_length(
            head,
        ) {
            Err(why) => response_outcome(head + rest) == Err::<Option<int>, UpstreamError>(why),
            Ok(length) => if head.len() + length > usize::MAX {
                response_outcome(head + rest) == Err::<Option<int>, UpstreamError>(
                    UpstreamError::LengthOverflow,
                )
            } else if rest.len() < length {
                response_outcome(head + rest) == Ok::<Option<int>, UpstreamError>(None)
            } else {
                response_outcome(head + rest) == Ok::<Option<int>, UpstreamError>(
                    Some(head.len() + length as int),
                )
            },
        },
        (forall|j: int| 0 <= j < rest.len() - 3 ==> !#[trigger] ends_head(rest, j)) ==> if rest.len()
            > 4096 {
            response_outcome(rest) == Err::<Option<int>, UpstreamError>(
                UpstreamError::ResponseHeaderTooLarge,
            )
        } else {
            response_outcome(rest) == Ok::<Option<int>, UpstreamError>(None)
        },
{
    if head.len() >= 4 && ends_head(head, head.len() - 4) && (forall|j: int|
        0 <= j < head.len() - 4 ==> !#[trigger] ends_head(head, j)) {
        lemma_head_found(head, rest);
    }
    if forall|j: int| 0 <= j < rest.len() - 3 ==> !#[trigger] ends_head(rest, j) {
        lemma_no_head_found(rest);
    }
}

/// A response as it is written declares its length in the first field with that name, in any letter
/// case: a number, or the response is refused, as it is without such a field and where it is not
/// UTF-8.
pub proof fn law_a_response_declares_its_length(
    status: Seq<u8>,
    fields: Seq<WrittenField>,
    at: int,
    head: Seq<u8>,
)
    requires
        forall|k: int| 0 <= k < status.len() ==> #[trigger] status[k] != 13,
        forall|i: int| 0 <= i < fields.len() ==> can_be_written(#[trigger] fields[i]),
        head == joined(seq![status] + fields.map_values(|f: WrittenField| field_text(f))),
        0 <= at <= fields.len(),
        forall|i: int|
            0 <= i < at ==> crate::text::lower(#[trigger] fields[i].name) != ascii(
                "content-length"@,
            ),
        at < fields.len() ==> crate::text::lower(fields[at].name) == ascii("content-length"@),
    ensures
        !valid_utf8(head) ==> response_length(head) == Err::<nat, UpstreamError>(
            UpstreamError::NonUtf8Header,
        ),
        valid_utf8(head) && at == fields.len() ==> response_length(head) == Err::<
            nat,
            UpstreamError,
        >(UpstreamError::MissingLength),
        valid_utf8(head) && at < fields.len() ==> match usize_text(fields[at].value) {
            Some(length) => response_length(head) == Ok::<nat, UpstreamError>(length),
            None => response_length(head) == Err::<nat, UpstreamError>(UpstreamError::BadLength),
        },
{
    let texts = fields.map_values(|f: WrittenField| field_text(f));
    let ls = seq![status] + texts;
    let none = Seq::<u8>::empty();
    assert forall|i: int, k: int| 0 <= i < ls.len() && 0 <= k < ls[i].len() implies #[trigger]
        ls[i][k] != 13 by {
        if i > 0 {
            lemma_field_unbroken(fields[i - 1], k);
        }
    }
    lemma_joined_lines(ls);
    assert(lines(head).drop_first() =~= texts + seq![none, none]);
    assert forall|i: int| 0 <= i < texts.len() implies (#[trigger] texts[i]).len() > 0 by {
        assert(texts[i] == field_text(fields[i]));
    }
    lemma_field_lines(texts, seq![none, none]);
    lemma_first_length(fields, at);
}

proof fn lemma_field_unbroken(f: WrittenField, k: int)
    requires
        can_be_written(f),
        0 <= k < field_text(f).len(),
    ensures
        field_text(f)[k] != 13,
{
    let line = field_text(f);
    let n = f.name.len() as int;
    let m = n + 1 + f.before.len();
    let e = m + f.value.len();
    if k < n {
        assert(line[k] == f.name[k]);
    } else if k == n {
        assert(line[k] == 58);
    } else if k < m {
        assert(line[k] == f.before[k - n - 1]);
    } else if k < e {
        assert(line[k] == f.value[k - m]);
    } else {
        assert(line[k] == f.behind[k - e]);
    }
}

proof fn lemma_first_length(fields: Seq<WrittenField>, at: int)
    requires
        forall|i: int| 0 <= i < fields.len() ==> can_be_written(#[trigger] fields[i]),
        0 <= at <= fields.len(),
        forall|i: int|
            0 <= i < at ==> crate::text::lower(#[trigger] fields[i].name) != ascii(
                "content-length"@,
            ),
        at < fields.len() ==> crate::text::lower(fields[at].name) == ascii("content-length"@),
    ensures
        first_length(fields.map_values(|f: WrittenField| field_text(f))) == (if at
            == fields.len() {
            Err::<nat, UpstreamError>(UpstreamError::MissingLength)
        } else {
            match usize_text(fields[at].value) {
                Some(length) => Ok::<nat, UpstreamError>(length),
                None => Err::<nat, UpstreamError>(UpstreamError::BadLength),
            }
        }),
    decreases fields.len(),
{
    let texts = fields.map_values(|f: WrittenField| field_text(f));
    if fields.len() > 0 {
        assert(texts[0] == field_text(fields[0]));
        lemma_field_is_read(fields[0]);
        if at > 0 {
            let rest = fields.drop_first();
            assert(crate::text::lower(fields[0].name) != ascii("content-length"@));
            assert(texts.drop_first() =~= rest.map_values(|f: WrittenField| field_text(f)));
            assert forall|i: int| 0 <= i < rest.len() implies can_be_written(#[trigger] rest[i]) by {
                assert(rest[i] == fields[i + 1]);
            }
            assert forall|i: int| 0 <= i < at - 1 implies crate::text::lower(
                #[trigger] rest[i].name,
            ) != ascii("content-length"@) by {
                assert(rest[i] == fields[i + 1]);
            }
            if at < fields.len() {
                assert(rest[at - 1] == fields[at]);
            }
            lemma_first_length(rest, at - 1);
        }
    }
}

/// A request to a backend is lines that name the backend, an empty one, and the body behind it; only
/// a score request has one, and its head declares the length of the body.
pub proof fn law_requests_to_backends(host: Seq<u8>, body: Seq<u8>, length: nat)
    ensures
        upstream_request(Route::FraudScore, host, body) == upstream_header(
            Route::FraudScore,
            host,
            body.len(),
        ) + body,
        upstream_request(Route::Ready, host, body) == upstream_header(Route::Ready, host, length),
        upstream_header(Route::FraudScore, host, length) == joined(
            seq![
                ascii("POST /fraud-score HTTP/1.1"@),
                ascii("Host: "@) + host,
                ascii("Content-Type: application/json"@),
                ascii("Content-Length: "@) + numeral(length),
                ascii("Connection: keep-alive"@),
            ],
        ),
        upstream_header(Route::Ready, host, length) == joined(
            seq![
                ascii("GET /ready HTTP/1.1"@),
                ascii("Host: "@) + host,
                ascii("Connection: keep-alive"@),
                ascii("Content-Length: 0"@),
            ],
        ),
{
    lemma_upstream_header(host, length);
    assert(upstream_request(Route::Ready, host, body) == upstream_header(Route::Ready, host, length));
}

/// What is written to a backend is the whole request and nothing else, in one frame where it takes up
/// no more than 1024 bytes, and else the head, up to 256 bytes, and then the body.
pub proof fn law_frames_are_the_whole_request(route: Route, host: Seq<u8>, body: Seq<u8>)
    ensures
        frames_of(route, host, body) matches Ok((frame, None)) ==> frame == upstream_request(
            route,
            host,
            body,
        ) && frame.len() <= 1024,
        frames_of(route, host, body) matches Ok((head, Some(rest))) ==> route is FraudScore && rest
            == body && head + rest == upstream_request(route, host, body) && head.len() <= 256
            && head.len() + rest.len() > 1024,
        frames_of(route, host, body) matches Err(why) ==> why == UpstreamError::HeaderTooLarge
            && upstream_header(route, host, body.len()).len() > 256 && upstream_request(
            route,
            host,
            body,
        ).len() > 1024,
        upstream_request(route, host, body).len() <= 1024 ==> frames_of(route, host, body) is Ok,
        upstream_header(route, host, body.len()).len() <= 256 ==> frames_of(
            route,
            host,
            body,
        ) is Ok,
{
}

/// A raw backend is sent score requests only, and bodies of no more than 65535 bytes.
pub proof fn law_raw_backends_take_scores_only(route: Route, body: Seq<u8>)
    ensures
        route is Ready ==> raw_request(route, body) == Err::<Seq<u8>, UpstreamError>(
            UpstreamError::RawUnsupported,
        ),
        body.len() > 65535 ==> raw_request(route, body) == Err::<Seq<u8>, UpstreamError>(
            UpstreamError::RawUnsupported,
        ),
        route is FraudScore && body.len() <= 65535 ==> (raw_request(route, body) matches Ok(frame)
            && frame.len() == body.len() + 2 && frame[0] * 256 + frame[1] == body.len()
            && frame.skip(2) == body),
{
    assert(raw_frame(body).skip(2) =~= body);
}

} // verus!
