//! Requests on the connections that the load balancer hands over.
use vstd::prelude::*;

use crate::bytes::{index_from, lemma_index_from};
use crate::head::{
    answers, head_outcome, parse_request_head_generic, refuse, ClientReadError, Refusal,
    RequestHead, Route, MAX_BODY_BYTES, MAX_HEADER_BYTES,
};
use crate::request::{
    find_header_end, find_usual_line, frame, framed, head_mark, lemma_mark_stays,
    lemma_mark_was_there, short_cut, take_short_cut, usual_line, ParsedRequest,
};

verus! {

pub type HandoffRoute = Route;

pub type HandoffHead = RequestHead;

pub type HandoffRequest = ParsedRequest;

pub type HandoffParseError = ClientReadError;

/// What a head comes to here: one with a usual request line has to declare its length the usual
/// way, and no encoding.
pub open spec fn handoff_head(header: Seq<u8>) -> Result<RequestHead, Refusal> {
    match usual_line(header) {
        None => head_outcome(header),
        Some((route, http10)) => match short_cut(header, route, http10) {
            None => Err(Refusal::BadRequest),
            Some(outcome) => outcome,
        },
    }
}

/// Reads a request head.
pub fn parse_handoff_head(header: &[u8]) -> (r: Result<HandoffHead, HandoffParseError>)
    ensures
        answers(r, handoff_head(header@)),
{
    match find_usual_line(header) {
        None => parse_handoff_head_generic(header),
        Some((route, http10)) => match take_short_cut(header, route, http10) {
            Err(error) => Err(error),
            Ok(None) => Err(refuse(Refusal::BadRequest)),
            Ok(Some(head)) => Ok(head),
        },
    }
}

/// Reads a request head without a usual request line.
pub fn parse_handoff_head_generic(header: &[u8]) -> (r: Result<HandoffHead, HandoffParseError>)
    ensures
        answers(r, head_outcome(header@)),
{
    parse_request_head_generic(header)
}

/// What the bytes that have arrived come to: a request, nothing yet, or a refusal.
pub open spec fn handoff_outcome(buf: Seq<u8>) -> Result<Option<ParsedRequest>, Refusal> {
    match index_from(buf, head_mark(), 0) {
        Some(at) => if at + 4 > MAX_HEADER_BYTES {
            Err(Refusal::PayloadTooLarge)
        } else {
            framed(buf, at + 4, handoff_head(buf.take(at + 4)))
        },
        None => if buf.len() > MAX_HEADER_BYTES {
            Err(Refusal::PayloadTooLarge)
        } else {
            Ok(None)
        },
    }
}

/// Looks for a request in the bytes that have arrived; `None` asks for more of them.
pub fn parse_handoff_request(buf: &[u8]) -> (r: Result<Option<HandoffRequest>, HandoffParseError>)
    ensures
        answers(r, handoff_outcome(buf@)),
{
    match find_header_end(buf) {
        Some(at) => {
            let header_len: usize = at + 4;
            if header_len > MAX_HEADER_BYTES {
                return Err(refuse(Refusal::PayloadTooLarge));
            }
            assert(buf@.subrange(0, at + 4) =~= buf@.take(at + 4));
            match parse_handoff_head(&buf[0..header_len]) {
                Ok(head) => frame(buf, header_len, head),
                Err(error) => Err(error),
            }
        },
        None => if buf.len() > MAX_HEADER_BYTES {
            Err(refuse(Refusal::PayloadTooLarge))
        } else {
            Ok(None)
        },
    }
}

/// A request that is found lies within the bytes that have arrived and within the limits; a score
/// request has a body.
pub proof fn law_request_is_within_bounds(buf: Seq<u8>)
    ensures
        handoff_outcome(buf) matches Ok(Some(request)) ==> {
            &&& 4 <= request.header_len <= request.total_len <= buf.len()
            &&& request.header_len <= MAX_HEADER_BYTES
            &&& request.total_len - request.header_len <= MAX_BODY_BYTES
            &&& request.route == Route::FraudScore ==> request.header_len < request.total_len
        },
{
    lemma_index_from(buf, head_mark(), 0);
}

/// While a request is waited for, what has arrived is smaller than the largest request.
pub proof fn law_waiting_is_bounded(buf: Seq<u8>)
    ensures
        handoff_outcome(buf) == Ok::<Option<ParsedRequest>, Refusal>(None) ==> buf.len()
            < MAX_HEADER_BYTES + MAX_BODY_BYTES,
        handoff_outcome(buf) matches Ok(Some(request)) ==> request.header_len <= request.total_len
            <= buf.len(),
{
    law_request_is_within_bounds(buf);
}

/// What has been found does not change when more bytes arrive: a request stays the request, and a
/// refusal the refusal.
pub proof fn law_more_bytes_change_nothing(buf: Seq<u8>, more: Seq<u8>)
    requires
        handoff_outcome(buf) != Ok::<Option<ParsedRequest>, Refusal>(None),
    ensures
        handoff_outcome(buf + more) == handoff_outcome(buf),
{
    let all = buf + more;
    lemma_index_from(buf, head_mark(), 0);
    lemma_index_from(all, head_mark(), 0);
    match index_from(buf, head_mark(), 0) {
        Some(at) => {
            lemma_mark_stays(buf, more, at);
            assert(all.take(at + 4) =~= buf.take(at + 4));
        },
        None => {
            if let Some(at) = index_from(all, head_mark(), 0) {
                if at + 4 <= buf.len() {
                    lemma_mark_was_there(buf, more, at);
                }
            }
        },
    }
}

} // verus!
