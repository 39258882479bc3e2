//! Request heads: the request line and the header fields that follow it.
use vstd::prelude::*;
use vstd::utf8::valid_utf8;

use crate::bytes::{ascii, find_from, index_from, literal, occurs, same_bytes};
use crate::decimal::{parse_usize, usize_text};
use crate::scoring::{
    BAD_REQUEST_RESPONSE, METHOD_NOT_ALLOWED_RESPONSE, NOT_FOUND_RESPONSE,
    PAYLOAD_TOO_LARGE_RESPONSE,
};
use crate::text::{
    is_ascii_space, is_named, is_utf8, lower, mentions, trim, trimmed,
};

verus! {

pub const MAX_HEADER_BYTES: usize = 4096;

pub const MAX_BODY_BYTES: usize = 8192;

#[derive(Debug, Clone, Copy, PartialEq, Eq, Structural)]
pub enum Route {
    Ready,
    FraudScore,
}

impl Route {
    pub fn as_str(self) -> (name: &'static str)
        ensures
            name@ == (match self {
                Route::Ready => "ready"@,
                Route::FraudScore => "fraud_score"@,
            }),
    {
        match self {
            Route::Ready => "ready",
            Route::FraudScore => "fraud_score",
        }
    }
}

/// What a request head asks for.
#[derive(Debug, Clone, Copy, PartialEq, Eq, Structural)]
pub struct RequestHead {
    pub route: Route,
    pub content_length: usize,
    pub close_after_response: bool,
}

/// A refused request, with the response it is answered.
#[derive(Debug, Clone, Copy, PartialEq, Eq)]
pub struct ClientReadError {
    pub response: &'static [u8],
}

/// The reasons to refuse a request.
#[derive(Debug, Clone, Copy, PartialEq, Eq, Structural)]
pub enum Refusal {
    BadRequest,
    NotFound,
    MethodNotAllowed,
    PayloadTooLarge,
}

/// The response to a refused request.
pub open spec fn refusal_response(why: Refusal) -> Seq<u8> {
    match why {
        Refusal::BadRequest => ascii(BAD_REQUEST_RESPONSE@),
        Refusal::NotFound => ascii(NOT_FOUND_RESPONSE@),
        Refusal::MethodNotAllowed => ascii(METHOD_NOT_ALLOWED_RESPONSE@),
        Refusal::PayloadTooLarge => ascii(PAYLOAD_TOO_LARGE_RESPONSE@),
    }
}

/// The error that answers a refused request.
pub fn refuse(why: Refusal) -> (error: ClientReadError)
    ensures
        error.response@ == refusal_response(why),
{
    proof {
        reveal_strlit(
            "HTTP/1.1 400 Bad Request\r\nContent-Length: 0\r\nConnection: close\r\n\r\n",
        );
        reveal_strlit("HTTP/1.1 404 Not Found\r\nContent-Length: 0\r\nConnection: close\r\n\r\n");
        reveal_strlit(
            "HTTP/1.1 405 Method Not Allowed\r\nContent-Length: 0\r\nConnection: close\r\n\r\n",
        );
        reveal_strlit(
            "HTTP/1.1 413 Payload Too Large\r\nContent-Length: 0\r\nConnection: close\r\n\r\n",
        );
    }
    let response = match why {
        Refusal::BadRequest => literal(BAD_REQUEST_RESPONSE),
        Refusal::NotFound => literal(NOT_FOUND_RESPONSE),
        Refusal::MethodNotAllowed => literal(METHOD_NOT_ALLOWED_RESPONSE),
        Refusal::PayloadTooLarge => literal(PAYLOAD_TOO_LARGE_RESPONSE),
    };
    ClientReadError { response }
}

/// `outcome` is `expected`, with each refusal given as the response that answers it.
pub open spec fn answers<T>(
    outcome: Result<T, ClientReadError>,
    expected: Result<T, Refusal>,
) -> bool {
    match (outcome, expected) {
        (Ok(value), Ok(wanted)) => value == wanted,
        (Err(error), Err(why)) => error.response@ == refusal_response(why),
        _ => false,
    }
}

pub open spec fn crlf() -> Seq<u8> {
    seq![13u8, 10u8]
}

/// The lines of `s`, which a carriage return and a line feed part.
pub open spec fn lines(s: Seq<u8>) -> Seq<Seq<u8>>
    decreases s.len(),
{
    match index_from(s, crlf(), 0) {
        Some(at) => if 0 <= at && at + 2 <= s.len() {
            seq![s.take(at)] + lines(s.skip(at + 2))
        } else {
            seq![s]
        },
        None => seq![s],
    }
}

/// The first line, and what follows it.
pub fn next_line(s: &[u8]) -> (r: (&[u8], Option<&[u8]>))
    ensures
        match r.1 {
            Some(tail) => lines(s@) == seq![r.0@] + lines(tail@) && tail@.len() < s@.len(),
            None => lines(s@) == seq![r.0@],
        },
{
    let ends: &[u8] = &[13, 10];
    assert(ends@ =~= crlf());
    match find_from(s, ends, 0) {
        Some(at) => {
            assert(s@.subrange(0, at as int) =~= s@.take(at as int));
            assert(s@.subrange(at + 2, s@.len() as int) =~= s@.skip(at + 2));
            let end: usize = s.len();
            (&s[0..at], Some(&s[at + 2..end]))
        },
        None => (s, None),
    }
}

/// The number of bytes before the first white space.
pub open spec fn word_length(s: Seq<u8>) -> int
    decreases s.len(),
{
    if s.len() == 0 || is_ascii_space(s[0]) {
        0
    } else {
        1 + word_length(s.skip(1))
    }
}

proof fn lemma_word_length(s: Seq<u8>)
    ensures
        0 <= word_length(s) <= s.len(),
        s.len() > 0 && !is_ascii_space(s[0]) ==> word_length(s) > 0,
    decreases s.len(),
{
    if s.len() > 0 && !is_ascii_space(s[0]) {
        lemma_word_length(s.skip(1));
    }
}

/// The words of `s`, which white space parts.
pub open spec fn words(s: Seq<u8>) -> Seq<Seq<u8>>
    decreases s.len(),
{
    if s.len() == 0 {
        seq![]
    } else if is_ascii_space(s[0]) {
        words(s.skip(1))
    } else if 0 < word_length(s) <= s.len() {
        seq![s.take(word_length(s))] + words(s.skip(word_length(s)))
    } else {
        seq![]
    }
}

/// The first word, and what follows it.
fn next_word(s: &[u8]) -> (r: Option<(&[u8], &[u8])>)
    ensures
        match r {
            Some((word, tail)) => words(s@) == seq![word@] + words(tail@),
            None => words(s@).len() == 0,
        },
{
    let mut start: usize = 0;
    assert(s@.skip(0) =~= s@);
    while start < s.len() && (s[start] == 32 || s[start] == 9 || s[start] == 10 || s[start] == 12
        || s[start] == 13)
        invariant
            start <= s.len(),
            words(s@) == words(s@.skip(start as int)),
        decreases s.len() - start,
    {
        assert(s@.skip(start as int).skip(1) =~= s@.skip(start + 1));
        start = start + 1;
    }
    if start == s.len() {
        return None;
    }
    let ghost tail = s@.skip(start as int);
    let mut end: usize = start;
    assert(s@.skip(end as int) =~= tail);
    while end < s.len() && !(s[end] == 32 || s[end] == 9 || s[end] == 10 || s[end] == 12 || s[end]
        == 13)
        invariant
            start <= end <= s.len(),
            word_length(tail) == end - start + word_length(s@.skip(end as int)),
        decreases s.len() - end,
    {
        assert(s@.skip(end as int).skip(1) =~= s@.skip(end + 1));
        end = end + 1;
    }
    proof {
        lemma_word_length(tail);
        assert(s@.subrange(start as int, end as int) =~= tail.take(end - start));
        assert(s@.subrange(end as int, s@.len() as int) =~= tail.skip(end - start));
    }
    Some((&s[start..end], &s[end..s.len()]))
}

/// The lines up to the first empty one.
pub open spec fn field_lines(all: Seq<Seq<u8>>) -> Seq<Seq<u8>>
    decreases all.len(),
{
    if all.len() == 0 || all[0].len() == 0 {
        seq![]
    } else {
        seq![all[0]] + field_lines(all.drop_first())
    }
}

/// Where the colon of a field stands.
pub open spec fn colon(line: Seq<u8>) -> Option<int> {
    index_from(line, seq![58u8], 0)
}

pub open spec fn field_name(line: Seq<u8>) -> Seq<u8> {
    line.take(colon(line)->0)
}

pub open spec fn field_value(line: Seq<u8>) -> Seq<u8> {
    trimmed(line.skip(colon(line)->0 + 1))
}

/// The field has this name, in any letter case.
pub open spec fn has_name(line: Seq<u8>, name: Seq<char>) -> bool {
    colon(line) is Some && lower(field_name(line)) == ascii(name)
}

/// The line is a field, and if it gives a length, the length is a number.
pub open spec fn well_formed(line: Seq<u8>) -> bool {
    &&& colon(line) is Some
    &&& has_name(line, "content-length"@) ==> usize_text(field_value(line)) is Some
}

/// The field asks to close the connection.
pub open spec fn asks_close(line: Seq<u8>) -> bool {
    has_name(line, "connection"@) && lower(field_value(line)) == ascii("close"@)
}

/// The field announces a body in chunks.
pub open spec fn announces_chunks(line: Seq<u8>) -> bool {
    has_name(line, "transfer-encoding"@) && occurs(lower(field_value(line)), ascii("chunked"@))
}

/// The body length that the fields declare: the last one counts, and it is zero without one.
pub open spec fn declared_length(fields: Seq<Seq<u8>>) -> nat
    decreases fields.len(),
{
    if fields.len() == 0 {
        0
    } else if has_name(fields.last(), "content-length"@) {
        usize_text(field_value(fields.last()))->0
    } else {
        declared_length(fields.drop_last())
    }
}

/// The route that a method and a path name.
pub open spec fn route_of(method: Seq<u8>, path: Seq<u8>) -> Result<Route, Refusal> {
    if method == ascii("GET"@) && path == ascii("/ready"@) {
        Ok(Route::Ready)
    } else if method == ascii("POST"@) && path == ascii("/fraud-score"@) {
        Ok(Route::FraudScore)
    } else if method == ascii("GET"@) || method == ascii("POST"@) {
        Err(Refusal::NotFound)
    } else {
        Err(Refusal::MethodNotAllowed)
    }
}

/// What a route and a declared length come to: a score needs a body, and no body is over the
/// limit.
pub open spec fn sized_head(route: Route, length: nat, close: bool) -> Result<
    RequestHead,
    Refusal,
> {
    if route == Route::FraudScore && length == 0 {
        Err(Refusal::BadRequest)
    } else if length > MAX_BODY_BYTES {
        Err(Refusal::PayloadTooLarge)
    } else {
        Ok(RequestHead { route, content_length: length as usize, close_after_response: close })
    }
}

/// What the header fields ask for, on a route.
pub open spec fn fields_outcome(fields: Seq<Seq<u8>>, route: Route, http10: bool) -> Result<
    RequestHead,
    Refusal,
> {
    if exists|i: int| 0 <= i < fields.len() && !well_formed(#[trigger] fields[i]) {
        Err(Refusal::BadRequest)
    } else if exists|i: int| 0 <= i < fields.len() && announces_chunks(#[trigger] fields[i]) {
        Err(Refusal::BadRequest)
    } else {
        sized_head(
            route,
            declared_length(fields),
            http10 || exists|i: int| 0 <= i < fields.len() && asks_close(#[trigger] fields[i]),
        )
    }
}

/// What a request head asks for, or why it is refused.
pub open spec fn head_outcome(header: Seq<u8>) -> Result<RequestHead, Refusal> {
    let request_line = words(lines(header)[0]);
    if !valid_utf8(header) || request_line.len() < 3 {
        Err(Refusal::BadRequest)
    } else if request_line[2] != ascii("HTTP/1.1"@) && request_line[2] != ascii("HTTP/1.0"@) {
        Err(Refusal::BadRequest)
    } else {
        match route_of(request_line[0], request_line[1]) {
            Err(why) => Err(why),
            Ok(route) => fields_outcome(
                field_lines(lines(header).drop_first()),
                route,
                request_line[2] == ascii("HTTP/1.0"@),
            ),
        }
    }
}

/// Whether `s` is the given ASCII text.
fn is_text(s: &[u8], text: &'static str) -> (same: bool)
    requires
        text.is_ascii(),
    ensures
        same == (s@ == ascii(text@)),
{
    same_bytes(s, literal(text))
}

fn find_route(method: &[u8], path: &[u8]) -> (r: Result<Route, Refusal>)
    ensures
        r == route_of(method@, path@),
{
    proof {
        reveal_strlit("GET");
        reveal_strlit("POST");
        reveal_strlit("/ready");
        reveal_strlit("/fraud-score");
    }
    let get = is_text(method, "GET");
    let post = is_text(method, "POST");
    if get && is_text(path, "/ready") {
        Ok(Route::Ready)
    } else if post && is_text(path, "/fraud-score") {
        Ok(Route::FraudScore)
    } else if get || post {
        Err(Refusal::NotFound)
    } else {
        Err(Refusal::MethodNotAllowed)
    }
}

/// A route with a declared length, held to the limits.
pub fn size_head(route: Route, length: usize, close: bool) -> (r: Result<
    RequestHead,
    ClientReadError,
>)
    ensures
        answers(r, sized_head(route, length as nat, close)),
{
    if route == Route::FraudScore && length == 0 {
        return Err(refuse(Refusal::BadRequest));
    }
    if length > MAX_BODY_BYTES {
        return Err(refuse(Refusal::PayloadTooLarge));
    }
    Ok(RequestHead { route, content_length: length, close_after_response: close })
}

proof fn lemma_field_texts()
    ensures
        "content-length".is_ascii(),
        "connection".is_ascii(),
        "close".is_ascii(),
        "transfer-encoding".is_ascii(),
        "chunked".is_ascii(),
        ascii("content-length"@) != ascii("connection"@),
        ascii("content-length"@) != ascii("transfer-encoding"@),
        ascii("connection"@) != ascii("transfer-encoding"@),
{
    reveal_strlit("content-length");
    reveal_strlit("connection");
    reveal_strlit("close");
    reveal_strlit("transfer-encoding");
    reveal_strlit("chunked");
    assert(ascii("content-length"@).len() == 14);
    assert(ascii("connection"@).len() == 10);
    assert(ascii("transfer-encoding"@).len() == 17);
}

/// What one header field says.
enum Field {
    Malformed,
    Length(usize),
    Close,
    Chunks,
    Other,
}

spec fn field_says(line: Seq<u8>, field: Field) -> bool {
    &&& (field is Malformed <==> !well_formed(line))
    &&& match field {
        Field::Length(n) => has_name(line, "content-length"@) && usize_text(field_value(line))
            == Some(n as nat),
        _ => well_formed(line) ==> !has_name(line, "content-length"@),
    }
    &&& (field is Close <==> asks_close(line))
    &&& (field is Chunks <==> announces_chunks(line))
}

fn read_field(line: &[u8]) -> (field: Field)
    ensures
        field_says(line@, field),
{
    proof {
        lemma_field_texts();
    }
    let mark: &[u8] = &[58];
    assert(mark@ =~= seq![58u8]);
    match find_from(line, mark, 0) {
        None => Field::Malformed,
        Some(at) => {
            assert(line@.subrange(0, at as int) =~= field_name(line@));
            assert(line@.subrange(at + 1, line@.len() as int) =~= line@.skip(at + 1));
            let name = &line[0..at];
            let end: usize = line.len();
            let value = trim(&line[at + 1..end]);
            if is_named(name, literal("content-length")) {
                match parse_usize(value) {
                    Some(n) => Field::Length(n),
                    None => Field::Malformed,
                }
            } else if is_named(name, literal("connection")) {
                if is_named(value, literal("close")) {
                    Field::Close
                } else {
                    Field::Other
                }
            } else if is_named(name, literal("transfer-encoding")) && mentions(
                value,
                literal("chunked"),
            ) {
                Field::Chunks
            } else {
                Field::Other
            }
        },
    }
}

/// Reads the header fields, given the text after the request line.
fn read_fields(after: Option<&[u8]>, route: Route, http10: bool) -> (r: Result<
    RequestHead,
    ClientReadError,
>)
    ensures
        answers(
            r,
            fields_outcome(
                field_lines(
                    match after {
                        Some(tail) => lines(tail@),
                        None => seq![],
                    },
                ),
                route,
                http10,
            ),
        ),
{
    let mut rest: Option<&[u8]> = after;
    let mut length: usize = 0;
    let mut close: bool = http10;
    let mut chunked: bool = false;
    let ghost fields = field_lines(
        match after {
            Some(tail) => lines(tail@),
            None => seq![],
        },
    );
    let ghost mut done: Seq<Seq<u8>> = seq![];
    let ghost mut left: Seq<Seq<u8>> = match after {
        Some(tail) => lines(tail@),
        None => seq![],
    };
    assert(done + field_lines(left) =~= fields);
    loop
        invariant_except_break
            left == (match rest {
                Some(tail) => lines(tail@),
                None => seq![],
            }),
            fields == done + field_lines(left),
        invariant
            length == declared_length(done),
            close == (http10 || exists|i: int| 0 <= i < done.len() && asks_close(#[trigger] done[i])),
            chunked == exists|i: int| 0 <= i < done.len() && announces_chunks(#[trigger] done[i]),
            forall|i: int| 0 <= i < done.len() ==> well_formed(#[trigger] done[i]),
            fields == field_lines(
                match after {
                    Some(tail) => lines(tail@),
                    None => seq![],
                },
            ),
        ensures
            done == fields,
        decreases (match rest {
            Some(tail) => tail@.len() + 1,
            None => 0,
        }),
    {
        match rest {
            None => {
                assert(done =~= fields);
                break;
            },
            Some(tail) => {
                let (line, next) = next_line(tail);
                assert(left[0] == line@);
                if line.len() == 0 {
                    assert(done =~= fields);
                    break;
                }
                let ghost before = done;
                proof {
                    let remaining = match next {
                        Some(tail) => lines(tail@),
                        None => seq![],
                    };
                    assert(left.drop_first() =~= remaining);
                    left = remaining;
                    done = done.push(line@);
                    assert(done + field_lines(left) =~= fields);
                    assert(done.drop_last() =~= before);
                    assert(done.last() == line@);
                    assert forall|i: int| 0 <= i < before.len() implies before[i] == done[i] by {}
                    assert(done[done.len() - 1] == line@);
                    assert(fields[done.len() - 1] == line@);
                }
                match read_field(line) {
                    Field::Malformed => {
                        return Err(refuse(Refusal::BadRequest));
                    },
                    Field::Length(n) => {
                        length = n;
                    },
                    Field::Close => {
                        close = true;
                    },
                    Field::Chunks => {
                        chunked = true;
                    },
                    Field::Other => {},
                }
                rest = next;
            },
        }
    }
    if chunked {
        return Err(refuse(Refusal::BadRequest));
    }
    size_head(route, length, close)
}

/// Reads a request head as its general form allows: names in any letter case, fields in any
/// order.
pub fn parse_request_head_generic(header: &[u8]) -> (r: Result<RequestHead, ClientReadError>)
    ensures
        answers(r, head_outcome(header@)),
{
    if !is_utf8(header) {
        return Err(refuse(Refusal::BadRequest));
    }
    let (request_line, after) = next_line(header);
    let ghost all = words(lines(header@)[0]);
    assert(lines(header@)[0] == request_line@);
    let (method, rest) = match next_word(request_line) {
        Some(pair) => pair,
        None => {
            return Err(refuse(Refusal::BadRequest));
        },
    };
    let (path, rest) = match next_word(rest) {
        Some(pair) => pair,
        None => {
            return Err(refuse(Refusal::BadRequest));
        },
    };
    let (version, rest) = match next_word(rest) {
        Some(pair) => pair,
        None => {
            return Err(refuse(Refusal::BadRequest));
        },
    };
    assert(all[0] == method@ && all[1] == path@ && all[2] == version@);
    proof {
        reveal_strlit("HTTP/1.1");
        reveal_strlit("HTTP/1.0");
    }
    let http10 = is_text(version, "HTTP/1.0");
    if !http10 && !is_text(version, "HTTP/1.1") {
        return Err(refuse(Refusal::BadRequest));
    }
    match find_route(method, path) {
        Err(why) => Err(refuse(why)),
        Ok(route) => {
            proof {
                let tail = match after {
                    Some(tail) => lines(tail@),
                    None => seq![],
                };
                assert(lines(header@).drop_first() =~= tail);
            }
            read_fields(after, route, http10)
        },
    }
}

} // verus!
