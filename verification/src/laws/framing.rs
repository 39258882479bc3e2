//! Where a request ends in the bytes that have arrived.
use vstd::prelude::*;

use crate::bytes::{ascii, index_from, lemma_first_match, lemma_index_from, matches_at, occurs};
use crate::decimal::{digits_value, is_digit};
use crate::handoff::{handoff_head, handoff_outcome};
use crate::head::{head_outcome, Refusal, RequestHead, Route};
use crate::lb::request::client_head;
use crate::request::{
    closed_outcome, head_mark, is_blank, lemma_run_is, length_at, length_value, read_outcome,
    request_body, ParsedRequest,
};

verus! {

/// The bytes are an empty line and the end of the line before it.
pub open spec fn ends_head(s: Seq<u8>, at: int) -> bool {
    s[at] == 13 && s[at + 1] == 10 && s[at + 2] == 13 && s[at + 3] == 10
}

/// The head ends with the first empty line, so it is what stands before the rest.
pub proof fn lemma_head_found(head: Seq<u8>, rest: Seq<u8>)
    requires
        head.len() >= 4,
        ends_head(head, head.len() - 4),
        forall|j: int| 0 <= j < head.len() - 4 ==> !#[trigger] ends_head(head, j),
    ensures
        index_from(head + rest, head_mark(), 0) == Some(head.len() - 4),
        (head + rest).take(head.len() as int) == head,
{
    let s = head + rest;
    let mark = head_mark();
    let at = head.len() - 4;
    assert(matches_at(s, mark, at)) by {
        assert forall|k: int| 0 <= k < mark.len() implies s[at + k] == #[trigger] mark[k] by {
            assert(s[at + k] == head[at + k]);
        }
    }
    assert forall|j: int| 0 <= j < at implies !matches_at(s, mark, j) by {
        if matches_at(s, mark, j) {
            assert(s[j + 0] == mark[0] && s[j + 1] == mark[1] && s[j + 2] == mark[2] && s[j + 3]
                == mark[3]);
            assert(ends_head(head, j));
        }
    }
    lemma_first_match(s, mark, 0, at);
    assert(s.take(head.len() as int) =~= head);
}

/// No empty line has arrived.
pub proof fn lemma_no_head_found(buf: Seq<u8>)
    requires
        forall|j: int| 0 <= j < buf.len() - 3 ==> !#[trigger] ends_head(buf, j),
    ensures
        index_from(buf, head_mark(), 0) is None,
{
    let mark = head_mark();
    lemma_index_from(buf, mark, 0);
    if let Some(at) = index_from(buf, mark, 0) {
        assert(buf[at + 0] == mark[0] && buf[at + 1] == mark[1] && buf[at + 2] == mark[2] && buf[at
            + 3] == mark[3]);
        assert(ends_head(buf, at));
    }
}

/// A request is its head and as many bytes behind it as the head declares: it is found once they
/// have arrived, with the route and the wish to close of its head, and what follows it plays no
/// part. Until then nothing is found, a head that is refused is refused at once, and one with its
/// body over 12288 bytes is too large.
pub proof fn law_a_request_is_its_head_and_its_body(
    head: Seq<u8>,
    rest: Seq<u8>,
    read_head: spec_fn(Seq<u8>) -> Result<RequestHead, Refusal>,
)
    requires
        head.len() >= 4,
        head.len() + rest.len() <= usize::MAX,
        ends_head(head, head.len() - 4),
        forall|j: int| 0 <= j < head.len() - 4 ==> !#[trigger] ends_head(head, j),
    ensures
        match read_head(head) {
            Err(why) => read_outcome(head + rest, read_head) == Err::<
                Option<ParsedRequest>,
                Refusal,
            >(why),
            Ok(asked) => if head.len() + asked.content_length > 12288 {
                read_outcome(head + rest, read_head) == Err::<Option<ParsedRequest>, Refusal>(
                    Refusal::PayloadTooLarge,
                )
            } else if rest.len() < asked.content_length {
                read_outcome(head + rest, read_head) == Ok::<Option<ParsedRequest>, Refusal>(None)
            } else {
                &&& read_outcome(head + rest, read_head) matches Ok(Some(request))
                &&& request.route == asked.route
                &&& request.close_after_response == asked.close_after_response
                &&& request.header_len == head.len()
                &&& request.total_len == head.len() + asked.content_length
            },
        },
{
    lemma_head_found(head, rest);
}

/// The body of a request is what stands behind its head, up to its end, whatever follows.
pub proof fn law_the_body_stands_behind_the_head(
    head: Seq<u8>,
    body: Seq<u8>,
    rest: Seq<u8>,
    request: ParsedRequest,
)
    requires
        request.header_len == head.len(),
        request.total_len == head.len() + body.len(),
    ensures
        request_body(head + body + rest, request) == body,
{
    assert(request_body(head + body + rest, request) =~= body);
}

/// Without an empty line there is no request yet; over 4096 bytes the client is refused.
pub proof fn law_a_head_that_does_not_end_is_refused(
    buf: Seq<u8>,
    read_head: spec_fn(Seq<u8>) -> Result<RequestHead, Refusal>,
)
    requires
        forall|j: int| 0 <= j < buf.len() - 3 ==> !#[trigger] ends_head(buf, j),
    ensures
        buf.len() <= 4096 ==> read_outcome(buf, read_head) == Ok::<Option<ParsedRequest>, Refusal>(
            None,
        ),
        buf.len() > 4096 ==> read_outcome(buf, read_head) == Err::<Option<ParsedRequest>, Refusal>(
            Refusal::BadRequest,
        ),
        buf.len() <= 4096 ==> handoff_outcome(buf) == Ok::<Option<ParsedRequest>, Refusal>(None),
        buf.len() > 4096 ==> handoff_outcome(buf) == Err::<Option<ParsedRequest>, Refusal>(
            Refusal::PayloadTooLarge,
        ),
{
    lemma_no_head_found(buf);
}

/// On a connection that was handed over a request is its head and its body too, and a head over 4096
/// bytes is too large.
pub proof fn law_a_request_that_is_handed_over_is_its_head_and_its_body(
    head: Seq<u8>,
    rest: Seq<u8>,
)
    requires
        head.len() >= 4,
        head.len() + rest.len() <= usize::MAX,
        ends_head(head, head.len() - 4),
        forall|j: int| 0 <= j < head.len() - 4 ==> !#[trigger] ends_head(head, j),
    ensures
        head.len() > 4096 ==> handoff_outcome(head + rest) == Err::<
            Option<ParsedRequest>,
            Refusal,
        >(Refusal::PayloadTooLarge),
        head.len() <= 4096 ==> match handoff_head(head) {
            Err(why) => handoff_outcome(head + rest) == Err::<Option<ParsedRequest>, Refusal>(why),
            Ok(asked) => if rest.len() < asked.content_length <= 8192 {
                handoff_outcome(head + rest) == Ok::<Option<ParsedRequest>, Refusal>(None)
            } else {
                &&& asked.content_length <= 8192
                &&& handoff_outcome(head + rest) matches Ok(Some(request))
                &&& request.route == asked.route
                &&& request.close_after_response == asked.close_after_response
                &&& request.header_len == head.len()
                &&& request.total_len == head.len() + asked.content_length
            },
        },
{
    lemma_head_found(head, rest);
}

/// A peer that closes before it sent anything is let go, and one that closes in the middle of a
/// request is refused.
pub proof fn law_a_peer_may_close_between_requests(buf: Seq<u8>)
    ensures
        closed_outcome(buf) is Ok <==> buf == Seq::<u8>::empty(),
        closed_outcome(buf) matches Err(why) ==> why == Refusal::BadRequest,
{
    if buf.len() == 0 {
        assert(buf =~= Seq::<u8>::empty());
    }
}

/// The head starts with one of the four usual request lines.
pub open spec fn starts_as_usual(header: Seq<u8>, route: Route, http10: bool) -> bool {
    match (route, http10) {
        (Route::FraudScore, false) => matches_at(
            header,
            ascii("POST /fraud-score HTTP/1.1\r\n"@),
            0,
        ),
        (Route::FraudScore, true) => matches_at(
            header,
            ascii("POST /fraud-score HTTP/1.0\r\n"@),
            0,
        ),
        (Route::Ready, false) => matches_at(header, ascii("GET /ready HTTP/1.1\r\n"@), 0),
        (Route::Ready, true) => matches_at(header, ascii("GET /ready HTTP/1.0\r\n"@), 0),
    }
}

proof fn lemma_usual_lines_differ(header: Seq<u8>, route: Route, http10: bool)
    requires
        starts_as_usual(header, route, http10),
    ensures
        crate::request::usual_line(header) == Some((route, http10)),
{
    reveal_strlit("POST /fraud-score HTTP/1.1\r\n");
    reveal_strlit("POST /fraud-score HTTP/1.0\r\n");
    reveal_strlit("GET /ready HTTP/1.1\r\n");
    reveal_strlit("GET /ready HTTP/1.0\r\n");
    let post1 = ascii("POST /fraud-score HTTP/1.1\r\n"@);
    let post0 = ascii("POST /fraud-score HTTP/1.0\r\n"@);
    let get1 = ascii("GET /ready HTTP/1.1\r\n"@);
    let get0 = ascii("GET /ready HTTP/1.0\r\n"@);
    assert(matches_at(header, post1, 0) ==> header[0int + 0] == post1[0] && header[0int + 25]
        == post1[25]);
    assert(matches_at(header, post0, 0) ==> header[0int + 0] == post0[0] && header[0int + 25]
        == post0[25]);
    assert(matches_at(header, get1, 0) ==> header[0int + 0] == get1[0] && header[0int + 18] == get1[18]);
    assert(matches_at(header, get0, 0) ==> header[0int + 0] == get0[0] && header[0int + 18] == get0[18]);
}

/// A head with a usual request line and a transfer encoding is refused on a connection that was
/// handed over; the load balancer reads it field by field. Without a usual request line, both read
/// field by field.
pub proof fn law_encodings_have_no_short_cut(header: Seq<u8>, route: Route, http10: bool)
    ensures
        starts_as_usual(header, route, http10) && (occurs(
            header,
            ascii("\r\nTransfer-Encoding:"@),
        ) || occurs(header, ascii("\r\ntransfer-encoding:"@))) ==> {
            &&& handoff_head(header) == Err::<RequestHead, Refusal>(Refusal::BadRequest)
            &&& client_head(header) == head_outcome(header)
        },
        !starts_as_usual(header, Route::Ready, false) && !starts_as_usual(
            header,
            Route::Ready,
            true,
        ) && !starts_as_usual(header, Route::FraudScore, false) && !starts_as_usual(
            header,
            Route::FraudScore,
            true,
        ) ==> {
            &&& handoff_head(header) == head_outcome(header)
            &&& client_head(header) == head_outcome(header)
        },
{
    if starts_as_usual(header, route, http10) {
        lemma_usual_lines_differ(header, route, http10);
    }
}

/// By the short cut a request whether the service is ready has no body, and closes exactly if its
/// version is 1.0 or it has the field that asks for it.
pub proof fn law_ready_heads_are_short(header: Seq<u8>, http10: bool)
    requires
        starts_as_usual(header, Route::Ready, http10),
        !occurs(header, ascii("\r\nTransfer-Encoding:"@)),
        !occurs(header, ascii("\r\ntransfer-encoding:"@)),
    ensures
        handoff_head(header) == client_head(header),
        client_head(header) matches Ok(asked) && asked.route == Route::Ready
            && asked.content_length == 0 && asked.close_after_response == (http10 || occurs(
            header,
            ascii("\r\nConnection: close"@),
        ) || occurs(header, ascii("\r\nconnection: close"@))),
{
    lemma_usual_lines_differ(header, Route::Ready, http10);
}

/// By the short cut a score request declares its length in the first field with that name, written
/// the usual way, and in the first one in lower case where there is none of these. A length from 1 to
/// 8192 is taken, zero is a bad request, and more is too large. It closes exactly if its version is
/// 1.0 or it has the field that asks for it.
pub proof fn law_score_heads_declare_their_length(
    before: Seq<u8>,
    label: Seq<u8>,
    blanks: Seq<u8>,
    digits: Seq<u8>,
    behind: Seq<u8>,
    http10: bool,
    header: Seq<u8>,
)
    requires
        header == before + label + blanks + digits + behind,
        starts_as_usual(header, Route::FraudScore, http10),
        !occurs(header, ascii("\r\nTransfer-Encoding:"@)),
        !occurs(header, ascii("\r\ntransfer-encoding:"@)),
        label == ascii("\r\nContent-Length:"@) || label == ascii("\r\ncontent-length:"@)
            && !occurs(header, ascii("\r\nContent-Length:"@)),
        forall|j: int| 0 <= j < before.len() ==> !matches_at(header, label, j),
        forall|k: int| 0 <= k < blanks.len() ==> #[trigger] blanks[k] == 32 || blanks[k] == 9,
        digits.len() > 0,
        forall|k: int| 0 <= k < digits.len() ==> 48 <= #[trigger] digits[k] <= 57,
        behind.len() > 0 ==> behind[0] == 13 || behind[0] == 10,
    ensures
        handoff_head(header) == client_head(header),
        digits_value(digits) == 0 ==> client_head(header) == Err::<RequestHead, Refusal>(
            Refusal::BadRequest,
        ),
        1 <= digits_value(digits) <= 8192 ==> (client_head(header) matches Ok(asked)
            && asked.route == Route::FraudScore && asked.content_length == digits_value(digits)
            && asked.close_after_response == (http10 || occurs(
            header,
            ascii("\r\nConnection: close"@),
        ) || occurs(header, ascii("\r\nconnection: close"@)))),
        8192 < digits_value(digits) <= usize::MAX ==> client_head(header) == Err::<
            RequestHead,
            Refusal,
        >(Refusal::PayloadTooLarge),
        digits_value(digits) > usize::MAX ==> client_head(header) == Err::<RequestHead, Refusal>(
            Refusal::BadRequest,
        ),
{
    lemma_usual_lines_differ(header, Route::FraudScore, http10);
    reveal_strlit("\r\nContent-Length:");
    reveal_strlit("\r\ncontent-length:");
    let at = before.len() as int;
    assert(matches_at(header, label, at)) by {
        assert forall|k: int| 0 <= k < label.len() implies header[at + k] == #[trigger] label[k] by {}
    }
    lemma_first_match(header, label, 0, at);
    if label != ascii("\r\nContent-Length:"@) {
        lemma_index_from(header, ascii("\r\nContent-Length:"@), 0);
    }
    let from = at + 17;
    let start = from + blanks.len();
    let end = start + digits.len();
    let blank = |byte: u8| is_blank(byte);
    let digit = |byte: u8| is_digit(byte);
    assert forall|k: int| from <= k < start implies blank(#[trigger] header[k]) by {
        assert(header[k] == blanks[k - from]);
    }
    assert forall|k: int| start <= k < end implies digit(#[trigger] header[k]) by {
        assert(header[k] == digits[k - start]);
    }
    assert(header[start] == digits[0]);
    lemma_run_is(header, from, blank, start);
    if end < header.len() {
        assert(header[end] == behind[0]);
    }
    assert(length_value(header) == Some(start));
    lemma_run_is(header, start, blank, start);
    lemma_run_is(header, start, digit, end);
    assert(header.subrange(start, end) =~= digits);
    assert(length_at(header, start) is Some <==> digits_value(digits) <= usize::MAX);
}

/// By the short cut a length is digits up to the end of the line: without a digit, and with anything
/// else behind them, the request is a bad one.
pub proof fn law_score_heads_with_a_bad_length(
    before: Seq<u8>,
    label: Seq<u8>,
    blanks: Seq<u8>,
    digits: Seq<u8>,
    behind: Seq<u8>,
    http10: bool,
    header: Seq<u8>,
)
    requires
        header == before + label + blanks + digits + behind,
        starts_as_usual(header, Route::FraudScore, http10),
        !occurs(header, ascii("\r\nTransfer-Encoding:"@)),
        !occurs(header, ascii("\r\ntransfer-encoding:"@)),
        label == ascii("\r\nContent-Length:"@) || label == ascii("\r\ncontent-length:"@)
            && !occurs(header, ascii("\r\nContent-Length:"@)),
        forall|j: int| 0 <= j < before.len() ==> !matches_at(header, label, j),
        forall|k: int| 0 <= k < blanks.len() ==> #[trigger] blanks[k] == 32 || blanks[k] == 9,
        forall|k: int| 0 <= k < digits.len() ==> 48 <= #[trigger] digits[k] <= 57,
        behind.len() > 0 ==> !(48 <= behind[0] <= 57),
        digits.len() == 0 && behind.len() > 0 ==> behind[0] != 32 && behind[0] != 9,
        digits.len() == 0 || behind.len() > 0 && behind[0] != 13 && behind[0] != 10,
    ensures
        client_head(header) == Err::<RequestHead, Refusal>(Refusal::BadRequest),
        handoff_head(header) == Err::<RequestHead, Refusal>(Refusal::BadRequest),
{
    lemma_usual_lines_differ(header, Route::FraudScore, http10);
    reveal_strlit("\r\nContent-Length:");
    reveal_strlit("\r\ncontent-length:");
    let at = before.len() as int;
    assert(matches_at(header, label, at)) by {
        assert forall|k: int| 0 <= k < label.len() implies header[at + k] == #[trigger] label[k] by {}
    }
    lemma_first_match(header, label, 0, at);
    if label != ascii("\r\nContent-Length:"@) {
        lemma_index_from(header, ascii("\r\nContent-Length:"@), 0);
    }
    let from = at + 17;
    let start = from + blanks.len();
    let end = start + digits.len();
    let blank = |byte: u8| is_blank(byte);
    let digit = |byte: u8| is_digit(byte);
    assert forall|k: int| from <= k < start implies blank(#[trigger] header[k]) by {
        assert(header[k] == blanks[k - from]);
    }
    assert forall|k: int| start <= k < end implies digit(#[trigger] header[k]) by {
        assert(header[k] == digits[k - start]);
    }
    if digits.len() > 0 {
        assert(header[start] == digits[0]);
    }
    if end < header.len() {
        assert(header[end] == behind[0]);
    }
    lemma_run_is(header, from, blank, start);
    assert(length_value(header) == Some(start));
    lemma_run_is(header, start, blank, start);
    lemma_run_is(header, start, digit, end);
    assert(length_at(header, start) is None);
}

/// A score request without a length has no short cut: on a connection that was handed over it is
/// refused, and the load balancer reads it field by field.
pub proof fn law_score_heads_without_a_length(header: Seq<u8>, http10: bool)
    requires
        starts_as_usual(header, Route::FraudScore, http10),
        !occurs(header, ascii("\r\nContent-Length:"@)),
        !occurs(header, ascii("\r\ncontent-length:"@)),
    ensures
        handoff_head(header) == Err::<RequestHead, Refusal>(Refusal::BadRequest),
        client_head(header) == head_outcome(header),
{
    lemma_usual_lines_differ(header, Route::FraudScore, http10);
    lemma_index_from(header, ascii("\r\nContent-Length:"@), 0);
    lemma_index_from(header, ascii("\r\ncontent-length:"@), 0);
}

} // verus!
