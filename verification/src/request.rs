//! Framing: where a request ends in the bytes that have arrived, and the short cuts that read the
//! usual request heads without going through them field by field.
use vstd::prelude::*;

use crate::bytes::{
    ascii, find_from, find_subslice, index_from, lemma_first_match, lemma_index_from, literal,
    matches_at, occurs, stands_at,
};
use crate::decimal::{
    all_digits, digits_value, is_digit, lemma_digits_grow, lemma_digits_step,
};
use crate::head::{
    answers, refuse, sized_head, size_head, ClientReadError, Refusal, RequestHead, Route,
    MAX_BODY_BYTES, MAX_HEADER_BYTES,
};

verus! {

/// A request that has arrived in full: its head is the first `header_len` bytes, and its body
/// the bytes from there up to `total_len`.
#[derive(Debug, Clone, Copy, PartialEq, Eq, Structural)]
pub struct ParsedRequest {
    pub route: Route,
    pub header_len: usize,
    pub total_len: usize,
    pub close_after_response: bool,
}

/// The body of a request that has arrived.
pub open spec fn request_body(buf: Seq<u8>, request: ParsedRequest) -> Seq<u8> {
    buf.subrange(request.header_len as int, request.total_len as int)
}

/// The empty line that ends a head.
pub open spec fn head_mark() -> Seq<u8> {
    seq![13u8, 10u8, 13u8, 10u8]
}

/// Where the empty line that ends a head starts.
pub fn find_header_end(buf: &[u8]) -> (found: Option<usize>)
    ensures
        match found {
            Some(at) => index_from(buf@, head_mark(), 0) == Some(at as int) && at + 4 <= buf.len(),
            None => index_from(buf@, head_mark(), 0) is None,
        },
{
    let mark: &[u8] = &[13, 10, 13, 10];
    assert(mark@ =~= head_mark());
    find_from(buf, mark, 0)
}

/// A mark within the bytes that have arrived stands in them without what follows.
pub proof fn lemma_mark_was_there(buf: Seq<u8>, more: Seq<u8>, at: int)
    requires
        matches_at(buf + more, head_mark(), at),
        at + 4 <= buf.len(),
    ensures
        matches_at(buf, head_mark(), at),
{
    let mark = head_mark();
    assert forall|k: int| 0 <= k < mark.len() implies buf[at + k] == #[trigger] mark[k] by {
        assert((buf + more)[at + k] == mark[k]);
    }
}

/// The end of a head stays where it is when more bytes arrive.
pub proof fn lemma_mark_stays(buf: Seq<u8>, more: Seq<u8>, at: int)
    requires
        index_from(buf, head_mark(), 0) == Some(at),
    ensures
        index_from(buf + more, head_mark(), 0) == Some(at),
{
    let all = buf + more;
    let mark = head_mark();
    lemma_index_from(buf, mark, 0);
    assert(matches_at(all, mark, at)) by {
        assert forall|k: int| 0 <= k < mark.len() implies all[at + k] == #[trigger] mark[k] by {
            assert(buf[at + k] == mark[k]);
        }
    }
    assert forall|j: int| 0 <= j < at implies !matches_at(all, mark, j) by {
        if matches_at(all, mark, j) {
            lemma_mark_was_there(buf, more, j);
        }
    }
    lemma_first_match(all, mark, 0, at);
}

/// Once a head has arrived, what has been found does not change when more bytes arrive.
pub proof fn law_complete_head_decides(
    buf: Seq<u8>,
    more: Seq<u8>,
    read_head: spec_fn(Seq<u8>) -> Result<RequestHead, Refusal>,
)
    requires
        index_from(buf, head_mark(), 0) is Some,
        read_outcome(buf, read_head) != Ok::<Option<ParsedRequest>, Refusal>(None),
    ensures
        read_outcome(buf + more, read_head) == read_outcome(buf, read_head),
{
    let at = index_from(buf, head_mark(), 0)->0;
    lemma_index_from(buf, head_mark(), 0);
    lemma_mark_stays(buf, more, at);
    assert((buf + more).take(at + 4) =~= buf.take(at + 4));
}

/// A request that is found lies within the bytes that have arrived and within the limits.
pub proof fn law_read_request_is_within_bounds(
    buf: Seq<u8>,
    read_head: spec_fn(Seq<u8>) -> Result<RequestHead, Refusal>,
)
    ensures
        read_outcome(buf, read_head) matches Ok(Some(request)) ==> {
            &&& 4 <= request.header_len <= request.total_len <= buf.len()
            &&& request.total_len <= MAX_HEADER_BYTES + MAX_BODY_BYTES
        },
        read_outcome(buf, read_head) == Ok::<Option<ParsedRequest>, Refusal>(None) ==> buf.len()
            < MAX_HEADER_BYTES + MAX_BODY_BYTES,
{
    lemma_index_from(buf, head_mark(), 0);
}

/// What a head comes to, given the bytes that have arrived: the request, nothing yet, or a
/// refusal.
pub open spec fn framed(
    buf: Seq<u8>,
    header_len: int,
    head: Result<RequestHead, Refusal>,
) -> Result<Option<ParsedRequest>, Refusal> {
    match head {
        Err(why) => Err(why),
        Ok(head) => {
            let total = header_len + head.content_length;
            if total > MAX_HEADER_BYTES + MAX_BODY_BYTES {
                Err(Refusal::PayloadTooLarge)
            } else if buf.len() < total {
                Ok(None)
            } else {
                Ok(
                    Some(
                        ParsedRequest {
                            route: head.route,
                            header_len: header_len as usize,
                            total_len: total as usize,
                            close_after_response: head.close_after_response,
                        },
                    ),
                )
            }
        },
    }
}

/// Frames a request whose head has been read.
pub fn frame(buf: &[u8], header_len: usize, head: RequestHead) -> (r: Result<
    Option<ParsedRequest>,
    ClientReadError,
>)
    requires
        header_len <= buf@.len(),
    ensures
        answers(r, framed(buf@, header_len as int, Ok(head))),
{
    let limit: usize = MAX_HEADER_BYTES + MAX_BODY_BYTES;
    if head.content_length > limit || header_len > limit - head.content_length {
        return Err(refuse(Refusal::PayloadTooLarge));
    }
    let total_len: usize = header_len + head.content_length;
    if buf.len() < total_len {
        return Ok(None);
    }
    Ok(
        Some(
            ParsedRequest {
                route: head.route,
                header_len,
                total_len,
                close_after_response: head.close_after_response,
            },
        ),
    )
}

/// What a reader makes of the bytes that have arrived, given how it reads a head.
pub open spec fn read_outcome(
    buf: Seq<u8>,
    read_head: spec_fn(Seq<u8>) -> Result<RequestHead, Refusal>,
) -> Result<Option<ParsedRequest>, Refusal> {
    match index_from(buf, head_mark(), 0) {
        Some(at) => framed(buf, at + 4, read_head(buf.take(at + 4))),
        None => if buf.len() > MAX_HEADER_BYTES {
            Err(Refusal::BadRequest)
        } else {
            Ok(None)
        },
    }
}

/// What a reader does when its peer has closed: nothing was sent, or a request was cut off.
pub open spec fn closed_outcome(buf: Seq<u8>) -> Result<(), Refusal> {
    if buf.len() == 0 {
        Ok(())
    } else {
        Err(Refusal::BadRequest)
    }
}

/// Settles a read that found the peer closed.
pub fn read_closed(buf: &[u8]) -> (r: Result<(), ClientReadError>)
    ensures
        answers(r, closed_outcome(buf@)),
{
    if buf.is_empty() {
        Ok(())
    } else {
        Err(refuse(Refusal::BadRequest))
    }
}

/// Takes a request that has been answered out of the bytes that have arrived.
pub fn consume_request(buf: &mut Vec<u8>, total_len: usize)
    requires
        total_len <= old(buf)@.len(),
    ensures
        final(buf)@ == old(buf)@.skip(total_len as int),
{
    if total_len == buf.len() {
        buf.clear();
        assert(buf@ =~= old(buf)@.skip(total_len as int));
    } else {
        let mut rest: Vec<u8> = Vec::new();
        let mut i: usize = total_len;
        let end: usize = buf.len();
        while i < end
            invariant
                total_len <= i <= end,
                end == buf@.len(),
                buf@ == old(buf)@,
                rest@ == old(buf)@.subrange(total_len as int, i as int),
            decreases end - i,
        {
            rest.push(buf[i]);
            i = i + 1;
            assert(rest@ =~= old(buf)@.subrange(total_len as int, i as int));
        }
        assert(rest@ =~= old(buf)@.skip(total_len as int));
        *buf = rest;
    }
}

/// The end of the run of bytes from `from` on that `keep` holds of.
pub open spec fn run_end(s: Seq<u8>, from: int, keep: spec_fn(u8) -> bool) -> int
    decreases s.len() - from,
{
    if 0 <= from < s.len() && keep(s[from]) {
        run_end(s, from + 1, keep)
    } else {
        from
    }
}

pub open spec fn is_blank(byte: u8) -> bool {
    byte == 32 || byte == 9
}

/// The end of the blanks from `from` on.
pub open spec fn blanks_end(s: Seq<u8>, from: int) -> int {
    run_end(s, from, |byte: u8| is_blank(byte))
}

/// The end of the digits from `from` on.
pub open spec fn digits_end(s: Seq<u8>, from: int) -> int {
    run_end(s, from, |byte: u8| is_digit(byte))
}

/// The end of a run lies behind its start and within the bytes, and the run holds.
pub proof fn lemma_run_end(s: Seq<u8>, from: int, keep: spec_fn(u8) -> bool)
    requires
        0 <= from <= s.len(),
    ensures
        from <= run_end(s, from, keep) <= s.len(),
        forall|k: int| from <= k < run_end(s, from, keep) ==> keep(#[trigger] s[k]),
        run_end(s, from, keep) < s.len() ==> !keep(s[run_end(s, from, keep)]),
    decreases s.len() - from,
{
    if from < s.len() && keep(s[from]) {
        lemma_run_end(s, from + 1, keep);
    }
}

/// The start of a run fixes its end.
pub proof fn lemma_run_is(s: Seq<u8>, from: int, keep: spec_fn(u8) -> bool, end: int)
    requires
        0 <= from <= end <= s.len(),
        forall|k: int| from <= k < end ==> keep(#[trigger] s[k]),
        end < s.len() ==> !keep(s[end]),
    ensures
        run_end(s, from, keep) == end,
    decreases end - from,
{
    if from < end {
        assert(keep(s[from]));
        lemma_run_is(s, from + 1, keep, end);
    }
}

/// The number that stands at `pos`, behind blanks, up to the end of its line.
pub open spec fn length_at(header: Seq<u8>, pos: int) -> Option<nat> {
    let start = blanks_end(header, pos);
    let end = digits_end(header, start);
    let value = digits_value(header.subrange(start, end));
    if start < end && (end == header.len() || header[end] == 13 || header[end] == 10) && value
        <= usize::MAX {
        Some(value)
    } else {
        None
    }
}

/// Where the value of the length field starts, with the field's name written the usual way or in
/// lower case.
pub open spec fn length_value(header: Seq<u8>) -> Option<int> {
    match index_from(header, ascii("\r\nContent-Length:"@), 0) {
        Some(at) => Some(blanks_end(header, at + 17)),
        None => match index_from(header, ascii("\r\ncontent-length:"@), 0) {
            Some(at) => Some(blanks_end(header, at + 17)),
            None => None,
        },
    }
}

/// Where the value of the length field starts.
pub fn find_content_length_value(header: &[u8]) -> (r: Option<usize>)
    ensures
        match r {
            Some(pos) => length_value(header@) == Some(pos as int) && pos <= header@.len(),
            None => length_value(header@) is None,
        },
{
    proof {
        reveal_strlit("\r\nContent-Length:");
        reveal_strlit("\r\ncontent-length:");
    }
    let found = match find_subslice(header, literal("\r\nContent-Length:")) {
        Some(at) => Some(at),
        None => find_subslice(header, literal("\r\ncontent-length:")),
    };
    let end: usize = header.len();
    match found {
        None => None,
        Some(at) => {
            let start: usize = at + 17;
            let mut pos: usize = start;
            let ghost keep = |byte: u8| is_blank(byte);
            while pos < end && (header[pos] == 32 || header[pos] == 9)
                invariant
                    start <= pos <= end,
                    end == header@.len(),
                    keep == (|byte: u8| is_blank(byte)),
                    run_end(header@, start as int, keep) == run_end(header@, pos as int, keep),
                decreases end - pos,
            {
                pos = pos + 1;
            }
            Some(pos)
        },
    }
}

/// Reads the number that stands at `pos`, behind blanks, up to the end of its line.
pub fn parse_usize_decimal_header(header: &[u8], pos: usize) -> (r: Result<usize, ClientReadError>)
    ensures
        answers(
            r,
            match length_at(header@, pos as int) {
                Some(value) => Ok(value as usize),
                None => Err(Refusal::BadRequest),
            },
        ),
{
    let end: usize = header.len();
    let ghost blank = |byte: u8| is_blank(byte);
    let ghost digit = |byte: u8| is_digit(byte);
    if pos > end {
        return Err(refuse(Refusal::BadRequest));
    }
    let mut start: usize = pos;
    while start < end && (header[start] == 32 || header[start] == 9)
        invariant
            pos <= start <= end,
            end == header@.len(),
            blank == (|byte: u8| is_blank(byte)),
            run_end(header@, pos as int, blank) == run_end(header@, start as int, blank),
        decreases end - start,
    {
        start = start + 1;
    }
    let ghost stop = run_end(header@, start as int, digit);
    let ghost run = header@.subrange(start as int, stop);
    proof {
        lemma_run_end(header@, start as int, digit);
        assert forall|k: int| 0 <= k < run.len() implies is_digit(#[trigger] run[k]) by {
            assert(digit(header@[start + k]));
        }
        assert(run.take(0) =~= Seq::<u8>::empty());
    }
    let mut at: usize = start;
    let mut value: usize = 0;
    while at < end && 48 <= header[at] && header[at] <= 57
        invariant
            start <= at <= stop <= end,
            end == header@.len(),
            digit == (|byte: u8| is_digit(byte)),
            stop == run_end(header@, at as int, digit),
            start == blanks_end(header@, pos as int),
            stop == digits_end(header@, start as int),
            run == header@.subrange(start as int, stop),
            all_digits(run),
            value == digits_value(run.take(at - start)),
        decreases end - at,
    {
        proof {
            assert(digit(header@[at as int]));
            lemma_run_end(header@, at + 1, digit);
            lemma_digits_step(run, at - start);
            lemma_digits_grow(run, at - start + 1);
        }
        let next: usize = (header[at] - 48) as usize;
        match value.checked_mul(10) {
            None => {
                return Err(refuse(Refusal::BadRequest));
            },
            Some(tens) => {
                match tens.checked_add(next) {
                    None => {
                        return Err(refuse(Refusal::BadRequest));
                    },
                    Some(sum) => {
                        value = sum;
                    },
                }
            },
        }
        at = at + 1;
    }
    assert(at == stop);
    assert(run.take(at - start) =~= run);
    if at > start && (at == end || header[at] == 13 || header[at] == 10) {
        Ok(value)
    } else {
        Err(refuse(Refusal::BadRequest))
    }
}

/// The head asks to close, with the field written the usual way or in lower case.
pub open spec fn says_close(header: Seq<u8>) -> bool {
    occurs(header, ascii("\r\nConnection: close"@)) || occurs(
        header,
        ascii("\r\nconnection: close"@),
    )
}

/// The head has a transfer encoding, with the field written the usual way or in lower case.
pub open spec fn says_encoding(header: Seq<u8>) -> bool {
    occurs(header, ascii("\r\nTransfer-Encoding:"@)) || occurs(
        header,
        ascii("\r\ntransfer-encoding:"@),
    )
}

/// Whether `needle` occurs in `s`.
fn has(s: &[u8], needle: &'static str) -> (found: bool)
    requires
        needle.is_ascii(),
        needle@.len() > 0,
    ensures
        found == occurs(s@, ascii(needle@)),
{
    let found = find_subslice(s, literal(needle));
    proof {
        lemma_index_from(s@, ascii(needle@), 0);
        if found is None {
            assert(forall|at: int| !matches_at(s@, ascii(needle@), at));
        }
    }
    found.is_some()
}

/// Whether the head asks to close.
pub fn contains_connection_close_fast(header: &[u8]) -> (found: bool)
    ensures
        found == says_close(header@),
{
    proof {
        reveal_strlit("\r\nConnection: close");
        reveal_strlit("\r\nconnection: close");
    }
    has(header, "\r\nConnection: close") || has(header, "\r\nconnection: close")
}

fn contains_transfer_encoding_fast(header: &[u8]) -> (found: bool)
    ensures
        found == says_encoding(header@),
{
    proof {
        reveal_strlit("\r\nTransfer-Encoding:");
        reveal_strlit("\r\ntransfer-encoding:");
    }
    has(header, "\r\nTransfer-Encoding:") || has(header, "\r\ntransfer-encoding:")
}

/// The usual request lines: the route, and whether the version is the old one.
pub open spec fn usual_line(header: Seq<u8>) -> Option<(Route, bool)> {
    if matches_at(header, ascii("POST /fraud-score HTTP/1.1\r\n"@), 0) {
        Some((Route::FraudScore, false))
    } else if matches_at(header, ascii("POST /fraud-score HTTP/1.0\r\n"@), 0) {
        Some((Route::FraudScore, true))
    } else if matches_at(header, ascii("GET /ready HTTP/1.1\r\n"@), 0) {
        Some((Route::Ready, false))
    } else if matches_at(header, ascii("GET /ready HTTP/1.0\r\n"@), 0) {
        Some((Route::Ready, true))
    } else {
        None
    }
}

/// The usual request line that a head starts with.
pub fn find_usual_line(header: &[u8]) -> (r: Option<(Route, bool)>)
    ensures
        r == usual_line(header@),
{
    proof {
        reveal_strlit("POST /fraud-score HTTP/1.1\r\n");
        reveal_strlit("POST /fraud-score HTTP/1.0\r\n");
        reveal_strlit("GET /ready HTTP/1.1\r\n");
        reveal_strlit("GET /ready HTTP/1.0\r\n");
    }
    if stands_at(header, literal("POST /fraud-score HTTP/1.1\r\n"), 0) {
        Some((Route::FraudScore, false))
    } else if stands_at(header, literal("POST /fraud-score HTTP/1.0\r\n"), 0) {
        Some((Route::FraudScore, true))
    } else if stands_at(header, literal("GET /ready HTTP/1.1\r\n"), 0) {
        Some((Route::Ready, false))
    } else if stands_at(header, literal("GET /ready HTTP/1.0\r\n"), 0) {
        Some((Route::Ready, true))
    } else {
        None
    }
}

/// What the short cut makes of a head with a usual request line; nothing where it leaves the
/// head to someone else.
pub open spec fn short_cut(header: Seq<u8>, route: Route, http10: bool) -> Option<
    Result<RequestHead, Refusal>,
> {
    let close = http10 || says_close(header);
    if says_encoding(header) {
        None
    } else if route == Route::Ready {
        Some(sized_head(route, 0, close))
    } else {
        match length_value(header) {
            None => None,
            Some(pos) => Some(
                match length_at(header, pos) {
                    None => Err(Refusal::BadRequest),
                    Some(length) => sized_head(route, length, close),
                },
            ),
        }
    }
}

/// Reads a head with a usual request line; `None` where the short cut does not apply.
pub fn take_short_cut(header: &[u8], route: Route, http10: bool) -> (r: Result<
    Option<RequestHead>,
    ClientReadError,
>)
    ensures
        match short_cut(header@, route, http10) {
            None => r == Ok::<Option<RequestHead>, ClientReadError>(None),
            Some(outcome) => answers(
                r,
                match outcome {
                    Ok(head) => Ok(Some(head)),
                    Err(why) => Err(why),
                },
            ),
        },
{
    if contains_transfer_encoding_fast(header) {
        return Ok(None);
    }
    let length: usize = if route == Route::FraudScore {
        match find_content_length_value(header) {
            None => {
                return Ok(None);
            },
            Some(pos) => match parse_usize_decimal_header(header, pos) {
                Ok(length) => length,
                Err(error) => {
                    return Err(error);
                },
            },
        }
    } else {
        0
    };
    let close = http10 || contains_connection_close_fast(header);
    match size_head(route, length, close) {
        Ok(head) => Ok(Some(head)),
        Err(error) => Err(error),
    }
}

} // verus!
