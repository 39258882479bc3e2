//! Requests from clients.
use vstd::prelude::*;

use crate::head::{
    answers, head_outcome, refuse, ClientReadError, Refusal, RequestHead, MAX_HEADER_BYTES,
};
use crate::request::{
    find_header_end, find_usual_line, frame, read_outcome, short_cut, take_short_cut, usual_line,
    ParsedRequest,
};

pub use crate::head::parse_request_head_generic;

verus! {

/// What a head comes to here: the short cut where it applies, else the general form.
pub open spec fn client_head(header: Seq<u8>) -> Result<RequestHead, Refusal> {
    match fast_head(header) {
        Some(outcome) => outcome,
        None => head_outcome(header),
    }
}

/// What the short cut makes of a head; nothing where it does not apply.
pub open spec fn fast_head(header: Seq<u8>) -> Option<Result<RequestHead, Refusal>> {
    match usual_line(header) {
        None => None,
        Some((route, http10)) => short_cut(header, route, http10),
    }
}

/// Reads a request head.
pub fn parse_request_head(header: &[u8]) -> (r: Result<RequestHead, ClientReadError>)
    ensures
        answers(r, client_head(header@)),
{
    match parse_request_head_fast(header) {
        Err(error) => Err(error),
        Ok(Some(head)) => Ok(head),
        Ok(None) => parse_request_head_generic(header),
    }
}

/// Reads a request head by the short cut; `None` where it does not apply.
pub fn parse_request_head_fast(header: &[u8]) -> (r: Result<Option<RequestHead>, ClientReadError>)
    ensures
        match fast_head(header@) {
            None => r == Ok::<Option<RequestHead>, ClientReadError>(None),
            Some(outcome) => answers(
                r,
                match outcome {
                    Ok(head) => Ok(Some(head)),
                    Err(why) => Err(why),
                },
            ),
        },
{
    match find_usual_line(header) {
        None => Ok(None),
        Some((route, http10)) => take_short_cut(header, route, http10),
    }
}

/// Looks for a request in the bytes that have arrived; `None` asks for more of them.
pub fn read_request(buf: &[u8]) -> (r: Result<Option<ParsedRequest>, ClientReadError>)
    ensures
        answers(r, read_outcome(buf@, |header: Seq<u8>| client_head(header))),
{
    match find_header_end(buf) {
        Some(at) => {
            let header_len: usize = at + 4;
            assert(buf@.subrange(0, at + 4) =~= buf@.take(at + 4));
            match parse_request_head(&buf[0..header_len]) {
                Ok(head) => frame(buf, header_len, head),
                Err(error) => Err(error),
            }
        },
        None => if buf.len() > MAX_HEADER_BYTES {
            Err(refuse(Refusal::BadRequest))
        } else {
            Ok(None)
        },
    }
}

} // verus!
