//! The single-process server: it reads a request, scores it and answers.
use vstd::prelude::*;

use crate::api::{ready_response, unavailable_response};
use crate::bytes::{ascii, gives};
use crate::head::{
    answers, head_outcome, parse_request_head_generic, refusal_response, refuse, ClientReadError,
    Refusal, RequestHead, Route, MAX_HEADER_BYTES,
};
use crate::request::{find_header_end, frame, read_outcome, ParsedRequest};
use crate::scoring::{
    http_response_for_bucket, keep_alive_response, READY_OK_RESPONSE, SERVICE_UNAVAILABLE_RESPONSE,
};

verus! {

/// Reads a request head.
pub fn parse_request_head(header: &[u8]) -> (r: Result<RequestHead, ClientReadError>)
    ensures
        answers(r, head_outcome(header@)),
{
    parse_request_head_generic(header)
}

/// Looks for a request in the bytes that have arrived; `None` asks for more of them.
pub fn read_request(buf: &[u8]) -> (r: Result<Option<ParsedRequest>, ClientReadError>)
    ensures
        answers(r, read_outcome(buf@, |header: Seq<u8>| head_outcome(header))),
{
    match find_header_end(buf) {
        Some(at) => {
            let header_len: usize = at + 4;
            assert(buf@.subrange(0, at + 4) =~= buf@.take(at + 4));
            match parse_request_head(&buf[0..header_len]) {
                Ok(head) => frame(buf, header_len, head),
                Err(error) => Err(error),
            }
        },
        None => if buf.len() > MAX_HEADER_BYTES {
            Err(refuse(Refusal::BadRequest))
        } else {
            Ok(None)
        },
    }
}

/// The response to a score request: none if the body is no score request or its bucket is none.
pub open spec fn bucket_response(bucket: Option<u8>) -> Option<Seq<u8>> {
    match bucket {
        Some(bucket) => if bucket <= 5 {
            Some(keep_alive_response(bucket as int))
        } else {
            None
        },
        None => None,
    }
}

/// The response to a score request that a search found the bucket of.
pub fn score_response(bucket: Option<u8>) -> (r: Option<&'static [u8]>)
    ensures
        match r {
            Some(response) => bucket_response(bucket) == Some(response@),
            None => bucket_response(bucket) is None,
        },
{
    match bucket {
        Some(bucket) => http_response_for_bucket(bucket),
        None => None,
    }
}

/// The answer to a request, and whether the connection closes behind it: before the service is
/// ready nothing is served, and a body that cannot be scored is refused.
pub open spec fn edge_answer(route: Route, ready: bool, bucket: Option<u8>) -> (Seq<u8>, bool) {
    if !ready {
        (ascii(SERVICE_UNAVAILABLE_RESPONSE@), true)
    } else {
        match route {
            Route::Ready => (ascii(READY_OK_RESPONSE@), false),
            Route::FraudScore => match bucket_response(bucket) {
                Some(response) => (response, false),
                None => (refusal_response(Refusal::BadRequest), true),
            },
        }
    }
}

/// The answer that a request with this body may get, and whether the connection closes behind it.
pub open spec fn is_answer<X: Fn(&[u8]) -> Option<u8>>(
    search: X,
    request: ParsedRequest,
    body: Seq<u8>,
    ready: bool,
    response: Seq<u8>,
    close: bool,
) -> bool {
    exists|bucket: Option<u8>|
        {
            let wanted = #[trigger] edge_answer(request.route, ready, bucket);
            &&& response == wanted.0
            &&& close == (request.close_after_response || wanted.1)
            &&& ready && request.route == Route::FraudScore ==> gives(search, body, bucket)
        }
}

/// Answers a request. `search` gives the bucket of a body, or none if it is no score request; it
/// is asked only for a score request, and only when the service is ready.
pub fn answer<X: Fn(&[u8]) -> Option<u8>>(
    request: &ParsedRequest,
    buf: &[u8],
    ready: bool,
    search: &X,
) -> (r: (&'static [u8], bool))
    requires
        request.header_len <= request.total_len <= buf@.len(),
        forall|b: &[u8]| call_requires(*search, (b,)),
    ensures
        is_answer(
            *search,
            *request,
            buf@.subrange(request.header_len as int, request.total_len as int),
            ready,
            r.0@,
            r.1,
        ),
{
    let mut bucket: Option<u8> = None;
    let (response, force_close) = if !ready {
        (unavailable_response(), true)
    } else {
        match request.route {
            Route::Ready => (ready_response(), false),
            Route::FraudScore => {
                bucket = search(&buf[request.header_len..request.total_len]);
                match score_response(bucket) {
                    Some(response) => (response, false),
                    None => (refuse(Refusal::BadRequest).response, true),
                }
            },
        }
    };
    assert(edge_answer(request.route, ready, bucket) == (response@, force_close));
    (response, request.close_after_response || force_close)
}

} // verus!
