//! What goes to a backend and what comes back from it.
use vstd::prelude::*;
use vstd::utf8::{encode_utf8, valid_utf8};

use crate::bytes::{ascii, find_from, index_from, literal};
use crate::decimal::{numeral, parse_usize, usize_text};
use crate::head::{
    colon, field_lines, field_name, field_value, has_name, lines, next_line, refuse,
    refusal_response, Refusal, Route, MAX_HEADER_BYTES,
};
use crate::request::{find_header_end, head_mark};
use crate::scoring::{http_response_for_bucket, keep_alive_response};
use crate::text::{is_named, is_utf8, trim};

verus! {

/// A frame up to this size is put together on the stack.
pub const STACK_UPSTREAM_FRAME_BYTES: usize = 1024;

/// The reply of a raw backend to a body that it cannot read.
pub const RAW_BAD_REQUEST: u8 = 255;

/// Why a request could not be forwarded.
#[derive(Debug, Clone, Copy, PartialEq, Eq, Structural)]
pub enum UpstreamError {
    /// The request head does not fit its buffer.
    HeaderTooLarge,
    /// A raw backend takes only the bodies of score requests, up to the largest frame.
    RawUnsupported,
    /// A raw backend replied with a number that is no bucket.
    InvalidBucket,
    /// The response head is not UTF-8.
    NonUtf8Header,
    /// The response declares a length that is no number.
    BadLength,
    /// The response declares no length.
    MissingLength,
    /// The response declares a length that no buffer can hold.
    LengthOverflow,
    /// The response head does not end in time.
    ResponseHeaderTooLarge,
    /// The backend closed before its response head ended.
    ClosedBeforeHeader,
    /// The backend closed before its response body ended.
    ClosedBeforeBody,
}

/// Writes `bytes` behind the first `len` bytes of `out`.
pub fn push_bytes<const N: usize>(out: &mut [u8; N], len: &mut usize, bytes: &[u8]) -> (r: Result<
    (),
    UpstreamError,
>)
    ensures
        match r {
            Ok(_) => {
                &&& *old(len) + bytes@.len() <= N
                &&& *final(len) == *old(len) + bytes@.len()
                &&& final(out)@ == old(out)@.take(*old(len) as int) + bytes@ + old(out)@.skip(
                    *old(len) + bytes@.len(),
                )
            },
            Err(error) => {
                &&& *old(len) + bytes@.len() > N
                &&& error == UpstreamError::HeaderTooLarge
                &&& *final(len) == *old(len)
                &&& final(out)@ == old(out)@
            },
        },
{
    let start: usize = *len;
    let count: usize = bytes.len();
    if start > N || count > N - start {
        return Err(UpstreamError::HeaderTooLarge);
    }
    let mut i: usize = 0;
    while i < count
        invariant
            i <= count == bytes@.len(),
            start + count <= N,
            start == *old(len),
            *len == start,
            out@.len() == N,
            old(out)@.len() == N,
            forall|k: int| 0 <= k < N ==> #[trigger] out@[k] == (if start <= k < start + i {
                bytes@[k - start]
            } else {
                old(out)@[k]
            }),
        decreases count - i,
    {
        out[start + i] = bytes[i];
        i = i + 1;
    }
    *len = start + count;
    assert(out@ =~= old(out)@.take(*old(len) as int) + bytes@ + old(out)@.skip(
        *old(len) + bytes@.len(),
    ));
    Ok(())
}

/// Ten to the power of `n`.
spec fn pow10(n: nat) -> nat
    decreases n,
{
    if n == 0 {
        1
    } else {
        10 * pow10((n - 1) as nat)
    }
}

proof fn lemma_usize_digits(value: usize)
    ensures
        value < pow10(20),
{
    reveal_with_fuel(pow10, 21);
    assert(pow10(20) == 100_000_000_000_000_000_000);
    assert(value <= 0xffff_ffff_ffff_ffff);
}

/// Writes the numeral of `value` behind the first `len` bytes of `out`.
pub fn push_usize_decimal<const N: usize>(out: &mut [u8; N], len: &mut usize, value: usize) -> (r:
    Result<(), UpstreamError>)
    ensures
        match r {
            Ok(_) => {
                let digits = numeral(value as nat);
                &&& *old(len) + digits.len() <= N
                &&& *final(len) == *old(len) + digits.len()
                &&& final(out)@ == old(out)@.take(*old(len) as int) + digits + old(out)@.skip(
                    *old(len) + digits.len(),
                )
            },
            Err(error) => {
                &&& *old(len) + numeral(value as nat).len() > N
                &&& error == UpstreamError::HeaderTooLarge
                &&& *final(len) == *old(len)
                &&& final(out)@ == old(out)@
            },
        },
{
    let mut digits: [u8; 20] = [0;20];
    let mut at: usize = 20;
    let mut left: usize = value;
    let ghost whole = numeral(value as nat);
    proof {
        lemma_usize_digits(value);
        assert(digits@.skip(20) =~= Seq::<u8>::empty());
        assert(numeral(left as nat) + digits@.skip(20) =~= whole);
    }
    while left >= 10
        invariant
            0 < at <= 20,
            digits@.len() == 20,
            left < pow10(at as nat),
            whole == numeral(left as nat) + digits@.skip(at as int),
        decreases left,
    {
        let ghost before = digits@;
        proof {
            assert(pow10(at as nat) == 10 * pow10((at - 1) as nat));
            if at == 1 {
                assert(pow10(0) == 1);
            }
        }
        at = at - 1;
        digits[at] = 48 + (left % 10) as u8;
        assert(digits@.skip(at as int) =~= seq![(48 + left % 10) as u8] + before.skip(at + 1));
        assert(numeral((left / 10) as nat).push((48 + left % 10) as u8) + before.skip(at + 1)
            =~= numeral((left / 10) as nat) + digits@.skip(at as int));
        left = left / 10;
    }
    let ghost before = digits@;
    at = at - 1;
    digits[at] = 48 + left as u8;
    assert(digits@.skip(at as int) =~= numeral(left as nat) + before.skip(at + 1));
    let tail: &[u8] = &digits[at..20];
    assert(tail@ =~= whole);
    push_bytes(out, len, tail)
}

/// The head of a request to a backend.
pub open spec fn upstream_header(route: Route, host: Seq<u8>, body_len: nat) -> Seq<u8> {
    match route {
        Route::Ready => ascii("GET /ready HTTP/1.1\r\nHost: "@) + host + ascii(
            "\r\nConnection: keep-alive\r\nContent-Length: 0\r\n\r\n"@,
        ),
        Route::FraudScore => ascii("POST /fraud-score HTTP/1.1\r\nHost: "@) + host + ascii(
            "\r\nContent-Type: application/json\r\nContent-Length: "@,
        ) + numeral(body_len) + ascii("\r\nConnection: keep-alive\r\n\r\n"@),
    }
}

/// A whole request to a backend; only a score request has a body.
pub open spec fn upstream_request(route: Route, host: Seq<u8>, body: Seq<u8>) -> Seq<u8> {
    match route {
        Route::Ready => upstream_header(route, host, 0),
        Route::FraudScore => upstream_header(route, host, body.len()) + body,
    }
}

/// Writes the head of a request to a backend into `out`, and gives its length.
fn write_header<const N: usize>(
    route: Route,
    host: &str,
    body_len: usize,
    out: &mut [u8; N],
) -> (r: Result<usize, UpstreamError>)
    ensures
        match r {
            Ok(len) => {
                &&& len <= N
                &&& final(out)@.take(len as int) == upstream_header(
                    route,
                    encode_utf8(host@),
                    body_len as nat,
                )
                &&& len == upstream_header(route, encode_utf8(host@), body_len as nat).len()
            },
            Err(error) => {
                &&& upstream_header(route, encode_utf8(host@), body_len as nat).len() > N
                &&& error == UpstreamError::HeaderTooLarge
            },
        },
{
    let mut len: usize = 0;
    proof {
        reveal_strlit("GET /ready HTTP/1.1\r\nHost: ");
        reveal_strlit("\r\nConnection: keep-alive\r\nContent-Length: 0\r\n\r\n");
        reveal_strlit("POST /fraud-score HTTP/1.1\r\nHost: ");
        reveal_strlit("\r\nContent-Type: application/json\r\nContent-Length: ");
        reveal_strlit("\r\nConnection: keep-alive\r\n\r\n");
    }
    match route {
        Route::Ready => {
            push_bytes(out, &mut len, literal("GET /ready HTTP/1.1\r\nHost: "))?;
            push_bytes(out, &mut len, host.as_bytes())?;
            push_bytes(
                out,
                &mut len,
                literal("\r\nConnection: keep-alive\r\nContent-Length: 0\r\n\r\n"),
            )?;
        },
        Route::FraudScore => {
            push_bytes(out, &mut len, literal("POST /fraud-score HTTP/1.1\r\nHost: "))?;
            push_bytes(out, &mut len, host.as_bytes())?;
            push_bytes(
                out,
                &mut len,
                literal("\r\nContent-Type: application/json\r\nContent-Length: "),
            )?;
            push_usize_decimal(out, &mut len, body_len)?;
            push_bytes(out, &mut len, literal("\r\nConnection: keep-alive\r\n\r\n"))?;
        },
    }
    assert(out@.take(len as int) =~= upstream_header(route, encode_utf8(host@), body_len as nat));
    Ok(len)
}

/// The head of a request to a backend, written into `out`.
pub fn build_upstream_header<'a>(
    route: Route,
    host: &str,
    body_len: usize,
    out: &'a mut [u8; 256],
) -> (r: Result<&'a [u8], UpstreamError>)
    ensures
        ({
            let header = upstream_header(route, encode_utf8(host@), body_len as nat);
            match r {
                Ok(bytes) => bytes@ == header && header.len() <= 256,
                Err(error) => error == UpstreamError::HeaderTooLarge && header.len() > 256,
            }
        }),
{
    match write_header(route, host, body_len, out) {
        Err(error) => Err(error),
        Ok(len) => {
            assert(out@.subrange(0, len as int) =~= out@.take(len as int));
            Ok(&out[0..len])
        },
    }
}

/// A whole request to a backend, written into `out`; `None` where the body does not fit behind
/// the head.
pub fn build_upstream_request<'a>(
    route: Route,
    host: &str,
    body: &[u8],
    out: &'a mut [u8; STACK_UPSTREAM_FRAME_BYTES],
) -> (r: Result<Option<&'a [u8]>, UpstreamError>)
    ensures
        ({
            let header = upstream_header(route, encode_utf8(host@), body@.len());
            let request = upstream_request(route, encode_utf8(host@), body@);
            match r {
                Ok(Some(bytes)) => bytes@ == request && request.len() <= STACK_UPSTREAM_FRAME_BYTES,
                Ok(None) => header.len() <= STACK_UPSTREAM_FRAME_BYTES && request.len()
                    > STACK_UPSTREAM_FRAME_BYTES,
                Err(error) => error == UpstreamError::HeaderTooLarge && header.len()
                    > STACK_UPSTREAM_FRAME_BYTES,
            }
        }),
{
    let mut len: usize = match write_header(route, host, body.len(), out) {
        Err(error) => {
            return Err(error);
        },
        Ok(len) => len,
    };
    if route == Route::FraudScore {
        let ghost header = out@.take(len as int);
        match push_bytes(out, &mut len, body) {
            Err(_) => {
                return Ok(None);
            },
            Ok(_) => {},
        }
        assert(out@.subrange(0, len as int) =~= header + body@);
    } else {
        assert(out@.subrange(0, len as int) =~= out@.take(len as int));
    }
    Ok(Some(&out[0..len]))
}

/// What is written to a backend for one request: one frame where it fits the larger buffer, else the
/// head and then the body.
pub open spec fn frames_of(route: Route, host: Seq<u8>, body: Seq<u8>) -> Result<
    (Seq<u8>, Option<Seq<u8>>),
    UpstreamError,
> {
    let header = upstream_header(route, host, body.len());
    let request = upstream_request(route, host, body);
    if header.len() > STACK_UPSTREAM_FRAME_BYTES {
        Err(UpstreamError::HeaderTooLarge)
    } else if request.len() <= STACK_UPSTREAM_FRAME_BYTES {
        Ok((request, None))
    } else if header.len() <= 256 {
        Ok((header, Some(body)))
    } else {
        Err(UpstreamError::HeaderTooLarge)
    }
}

/// The bytes to write to a backend for one request: one frame where it fits the larger buffer,
/// else the head and then the body.
pub fn http_frames<'a>(
    route: Route,
    host: &str,
    body: &'a [u8],
    request_buf: &'a mut [u8; STACK_UPSTREAM_FRAME_BYTES],
    header_buf: &'a mut [u8; 256],
) -> (r: Result<(&'a [u8], Option<&'a [u8]>), UpstreamError>)
    ensures
        ({
            let header = upstream_header(route, encode_utf8(host@), body@.len());
            let request = upstream_request(route, encode_utf8(host@), body@);
            match r {
                Ok((frame, None)) => frame@ == request && request.len()
                    <= STACK_UPSTREAM_FRAME_BYTES,
                Ok((head, Some(rest))) => head@ == header && rest@ == body@ && head@ + rest@
                    == request && request.len() > STACK_UPSTREAM_FRAME_BYTES && header.len()
                    <= 256,
                Err(error) => error == UpstreamError::HeaderTooLarge && (header.len()
                    > STACK_UPSTREAM_FRAME_BYTES || (request.len() > STACK_UPSTREAM_FRAME_BYTES
                    && header.len() > 256)),
            }
        }),
        match (r, frames_of(route, encode_utf8(host@), body@)) {
            (Ok((frame, None)), Ok((wanted, None))) => frame@ == wanted,
            (Ok((head, Some(rest))), Ok((wanted, Some(body)))) => head@ == wanted && rest@ == body,
            (Err(error), Err(why)) => error == why,
            _ => false,
        },
{
    match build_upstream_request(route, host, body, request_buf) {
        Err(error) => Err(error),
        Ok(Some(frame)) => Ok((frame, None)),
        Ok(None) => match build_upstream_header(route, host, body.len(), header_buf) {
            Err(error) => Err(error),
            Ok(head) => Ok((head, Some(body))),
        },
    }
}

/// Two bytes that hold a length, the high one first.
pub open spec fn big_endian(n: int) -> Seq<u8> {
    seq![(n / 256) as u8, (n % 256) as u8]
}

/// The frame of a raw request: the length of the body, then the body.
pub open spec fn raw_frame(body: Seq<u8>) -> Seq<u8> {
    big_endian(body.len() as int) + body
}

/// The frame that goes to a raw backend, which takes only the bodies of score requests.
pub open spec fn raw_request(route: Route, body: Seq<u8>) -> Result<Seq<u8>, UpstreamError> {
    if route == Route::FraudScore && body.len() <= u16::MAX {
        Ok(raw_frame(body))
    } else {
        Err(UpstreamError::RawUnsupported)
    }
}

/// The frame that goes to a raw backend.
pub fn build_raw_frame(route: Route, body: &[u8]) -> (r: Result<Vec<u8>, UpstreamError>)
    ensures
        match r {
            Ok(frame) => route == Route::FraudScore && body@.len() <= u16::MAX && frame@
                == raw_frame(body@),
            Err(error) => error == UpstreamError::RawUnsupported && (route != Route::FraudScore
                || body@.len() > u16::MAX),
        },
        match r {
            Ok(frame) => raw_request(route, body@) == Ok::<Seq<u8>, UpstreamError>(frame@),
            Err(error) => raw_request(route, body@) == Err::<Seq<u8>, UpstreamError>(error),
        },
{
    let len: usize = body.len();
    if route != Route::FraudScore || len > 65535 {
        return Err(UpstreamError::RawUnsupported);
    }
    let mut frame: Vec<u8> = Vec::with_capacity(2 + len);
    frame.push((len / 256) as u8);
    frame.push((len % 256) as u8);
    let mut i: usize = 0;
    assert(frame@ =~= big_endian(len as int) + body@.take(0));
    while i < len
        invariant
            i <= len == body@.len(),
            frame@ == big_endian(len as int) + body@.take(i as int),
        decreases len - i,
    {
        frame.push(body[i]);
        i = i + 1;
        assert(frame@ =~= big_endian(len as int) + body@.take(i as int));
    }
    assert(body@.take(i as int) =~= body@);
    Ok(frame)
}

/// The response for a bucket, on a connection that stays open; there are six buckets.
pub fn response_for_bucket(bucket: u8) -> (response: Option<&'static [u8]>)
    ensures
        match response {
            Some(bytes) => bucket <= 5 && bytes@ == keep_alive_response(bucket as int),
            None => bucket > 5,
        },
{
    http_response_for_bucket(bucket)
}

/// What a raw backend's reply comes to for the client.
pub open spec fn raw_answer(code: u8) -> Result<Seq<u8>, UpstreamError> {
    if code == RAW_BAD_REQUEST {
        Ok(refusal_response(Refusal::BadRequest))
    } else if code <= 5 {
        Ok(keep_alive_response(code as int))
    } else {
        Err(UpstreamError::InvalidBucket)
    }
}

/// What a raw backend's reply comes to for the client.
pub fn read_raw_reply(code: u8) -> (r: Result<&'static [u8], UpstreamError>)
    ensures
        match r {
            Ok(response) => if code == RAW_BAD_REQUEST {
                response@ == refusal_response(Refusal::BadRequest)
            } else {
                code <= 5 && response@ == keep_alive_response(code as int)
            },
            Err(error) => error == UpstreamError::InvalidBucket && 5 < code < RAW_BAD_REQUEST,
        },
        match r {
            Ok(response) => raw_answer(code) == Ok::<Seq<u8>, UpstreamError>(response@),
            Err(error) => raw_answer(code) == Err::<Seq<u8>, UpstreamError>(error),
        },
{
    if code == RAW_BAD_REQUEST {
        return Ok(refuse(Refusal::BadRequest).response);
    }
    match response_for_bucket(code) {
        Some(response) => Ok(response),
        None => Err(UpstreamError::InvalidBucket),
    }
}

/// The length that the first length field among `fields` declares.
pub open spec fn first_length(fields: Seq<Seq<u8>>) -> Result<nat, UpstreamError>
    decreases fields.len(),
{
    if fields.len() == 0 {
        Err(UpstreamError::MissingLength)
    } else if has_name(fields[0], "content-length"@) {
        match usize_text(field_value(fields[0])) {
            Some(n) => Ok(n),
            None => Err(UpstreamError::BadLength),
        }
    } else {
        first_length(fields.drop_first())
    }
}

/// The body length that a response head declares.
pub open spec fn response_length(header: Seq<u8>) -> Result<nat, UpstreamError> {
    if !valid_utf8(header) {
        Err(UpstreamError::NonUtf8Header)
    } else {
        first_length(field_lines(lines(header).drop_first()))
    }
}

/// Whether the line is a length field, and where its value starts.
fn length_field(line: &[u8]) -> (r: Option<usize>)
    ensures
        match r {
            Some(start) => has_name(line@, "content-length"@) && colon(line@) == Some(start - 1)
                && start <= line.len(),
            None => !has_name(line@, "content-length"@),
        },
{
    let mark: &[u8] = &[58];
    assert(mark@ =~= seq![58u8]);
    proof {
        reveal_strlit("content-length");
    }
    match find_from(line, mark, 0) {
        None => None,
        Some(at) => {
            assert(line@.subrange(0, at as int) =~= field_name(line@));
            if is_named(&line[0..at], literal("content-length")) {
                Some(at + 1)
            } else {
                None
            }
        },
    }
}

/// Reads the body length that a response head declares.
pub fn parse_response_content_length(header: &[u8]) -> (r: Result<usize, UpstreamError>)
    ensures
        match response_length(header@) {
            Ok(n) => r matches Ok(length) && length == n,
            Err(why) => r matches Err(error) && error == why,
        },
{
    if !is_utf8(header) {
        return Err(UpstreamError::NonUtf8Header);
    }
    let (_, after) = next_line(header);
    let mut rest: Option<&[u8]> = after;
    let ghost wanted = response_length(header@);
    let ghost mut left: Seq<Seq<u8>> = match rest {
        Some(tail) => lines(tail@),
        None => seq![],
    };
    assert(lines(header@).drop_first() =~= left);
    loop
        invariant_except_break
            left == (match rest {
                Some(tail) => lines(tail@),
                None => seq![],
            }),
        invariant
            wanted == first_length(field_lines(left)),
            wanted == response_length(header@),
        ensures
            wanted == Err::<nat, UpstreamError>(UpstreamError::MissingLength),
        decreases (match rest {
            Some(tail) => tail@.len() + 1,
            None => 0,
        }),
    {
        match rest {
            None => {
                break;
            },
            Some(tail) => {
                let (line, next) = next_line(tail);
                assert(left[0] == line@);
                if line.len() == 0 {
                    break;
                }
                let ghost fields = field_lines(left);
                proof {
                    let remaining = match next {
                        Some(tail) => lines(tail@),
                        None => seq![],
                    };
                    assert(left.drop_first() =~= remaining);
                    assert(fields.drop_first() =~= field_lines(remaining));
                    assert(fields[0] == line@);
                }
                match length_field(line) {
                    Some(start) => {
                        let end: usize = line.len();
                        assert(line@.subrange(start as int, end as int) =~= line@.skip(
                            start as int,
                        ));
                        return match parse_usize(trim(&line[start..end])) {
                            Some(n) => Ok(n),
                            None => Err(UpstreamError::BadLength),
                        };
                    },
                    None => {
                        proof {
                            left = left.drop_first();
                        }
                        rest = next;
                    },
                }
            },
        }
    }
    Err(UpstreamError::MissingLength)
}

/// What the bytes that a backend has sent come to: the length of its response, nothing yet, or a
/// failure.
pub open spec fn response_outcome(buf: Seq<u8>) -> Result<Option<int>, UpstreamError> {
    match index_from(buf, head_mark(), 0) {
        None => if buf.len() > MAX_HEADER_BYTES {
            Err(UpstreamError::ResponseHeaderTooLarge)
        } else {
            Ok(None)
        },
        Some(at) => match response_length(buf.take(at + 4)) {
            Err(why) => Err(why),
            Ok(n) => if at + 4 + n > usize::MAX {
                Err(UpstreamError::LengthOverflow)
            } else if buf.len() < at + 4 + n {
                Ok(None)
            } else {
                Ok(Some(at + 4 + n))
            },
        },
    }
}

/// Looks for a response in the bytes that a backend has sent; `None` asks for more of them.
pub fn read_response(buf: &[u8]) -> (r: Result<Option<usize>, UpstreamError>)
    ensures
        match response_outcome(buf@) {
            Ok(Some(total)) => r matches Ok(Some(len)) && len == total && len <= buf@.len(),
            Ok(None) => r matches Ok(None),
            Err(why) => r matches Err(error) && error == why,
        },
{
    match find_header_end(buf) {
        None => if buf.len() > MAX_HEADER_BYTES {
            Err(UpstreamError::ResponseHeaderTooLarge)
        } else {
            Ok(None)
        },
        Some(at) => {
            let header_end: usize = at + 4;
            assert(buf@.subrange(0, at + 4) =~= buf@.take(at + 4));
            match parse_response_content_length(&buf[0..header_end]) {
                Err(error) => Err(error),
                Ok(length) => match header_end.checked_add(length) {
                    None => Err(UpstreamError::LengthOverflow),
                    Some(total) => if buf.len() < total {
                        Ok(None)
                    } else {
                        Ok(Some(total))
                    },
                },
            }
        },
    }
}

/// Which part of its response a backend that closed had not finished.
pub open spec fn closed_error(buf: Seq<u8>) -> UpstreamError {
    if index_from(buf, head_mark(), 0) is None {
        UpstreamError::ClosedBeforeHeader
    } else {
        UpstreamError::ClosedBeforeBody
    }
}

/// Which part of its response a backend that closed had not finished.
pub fn response_closed(buf: &[u8]) -> (error: UpstreamError)
    ensures
        error == (if index_from(buf@, head_mark(), 0) is None {
            UpstreamError::ClosedBeforeHeader
        } else {
            UpstreamError::ClosedBeforeBody
        }),
        error == closed_error(buf@),
{
    match find_header_end(buf) {
        None => UpstreamError::ClosedBeforeHeader,
        Some(_) => UpstreamError::ClosedBeforeBody,
    }
}

/// Drops what a backend sent behind its response.
pub fn cut_response(buf: &mut Vec<u8>, total: usize)
    requires
        total <= old(buf)@.len(),
    ensures
        final(buf)@ == old(buf)@.take(total as int),
{
    buf.truncate(total);
    assert(buf@ =~= old(buf)@.take(total as int));
}

} // verus!
