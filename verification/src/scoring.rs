//! The prepared HTTP responses: one for each refusal, one for each score.
use vstd::prelude::*;

use crate::bytes::{ascii, literal};
use crate::decimal::numeral;

verus! {

pub const BAD_REQUEST_RESPONSE: &'static str =
    "HTTP/1.1 400 Bad Request\r\nContent-Length: 0\r\nConnection: close\r\n\r\n";

pub const NOT_FOUND_RESPONSE: &'static str =
    "HTTP/1.1 404 Not Found\r\nContent-Length: 0\r\nConnection: close\r\n\r\n";

pub const METHOD_NOT_ALLOWED_RESPONSE: &'static str =
    "HTTP/1.1 405 Method Not Allowed\r\nContent-Length: 0\r\nConnection: close\r\n\r\n";

pub const PAYLOAD_TOO_LARGE_RESPONSE: &'static str =
    "HTTP/1.1 413 Payload Too Large\r\nContent-Length: 0\r\nConnection: close\r\n\r\n";

pub const BAD_GATEWAY_RESPONSE: &'static str =
    "HTTP/1.1 502 Bad Gateway\r\nContent-Length: 0\r\nConnection: close\r\n\r\n";

pub const SERVICE_UNAVAILABLE_RESPONSE: &'static str =
    "HTTP/1.1 503 Service Unavailable\r\nContent-Length: 0\r\nConnection: close\r\n\r\n";

pub const READY_OK_RESPONSE: &'static str =
    "HTTP/1.1 200 OK\r\nContent-Length: 0\r\nConnection: keep-alive\r\n\r\n";

/// The score of a bucket, a fifth for each step, as it stands in a response.
pub open spec fn fraction(bucket: int) -> Seq<u8> {
    if bucket <= 0 {
        ascii("0"@)
    } else if bucket < 5 {
        ascii("0."@) + numeral((2 * bucket) as nat)
    } else {
        ascii("1"@)
    }
}

/// The response body of a bucket: a score under three fifths is approved.
pub open spec fn score_text(bucket: int) -> Seq<u8> {
    ascii("{\"approved\":"@) + (if bucket < 3 {
        ascii("true"@)
    } else {
        ascii("false"@)
    }) + ascii(",\"fraud_score\":"@) + fraction(bucket) + ascii("}"@)
}

/// The six bodies, written out.
pub proof fn lemma_score_texts()
    ensures
        score_text(0) == ascii("{\"approved\":true,\"fraud_score\":0}"@),
        score_text(1) == ascii("{\"approved\":true,\"fraud_score\":0.2}"@),
        score_text(2) == ascii("{\"approved\":true,\"fraud_score\":0.4}"@),
        score_text(3) == ascii("{\"approved\":false,\"fraud_score\":0.6}"@),
        score_text(4) == ascii("{\"approved\":false,\"fraud_score\":0.8}"@),
        score_text(5) == ascii("{\"approved\":false,\"fraud_score\":1}"@),
        score_text(0).len() == 33,
        score_text(1).len() == 35,
        score_text(2).len() == 35,
        score_text(3).len() == 36,
        score_text(4).len() == 36,
        score_text(5).len() == 34,
        forall|bucket: int| bucket > 5 ==> #[trigger] score_text(bucket) == score_text(5),
{
    reveal_strlit("{\"approved\":true,\"fraud_score\":0}");
    reveal_strlit("{\"approved\":true,\"fraud_score\":0.2}");
    reveal_strlit("{\"approved\":true,\"fraud_score\":0.4}");
    reveal_strlit("{\"approved\":false,\"fraud_score\":0.6}");
    reveal_strlit("{\"approved\":false,\"fraud_score\":0.8}");
    reveal_strlit("{\"approved\":false,\"fraud_score\":1}");
    reveal_strlit("{\"approved\":");
    reveal_strlit("true");
    reveal_strlit("false");
    reveal_strlit(",\"fraud_score\":");
    reveal_strlit("0");
    reveal_strlit("0.");
    reveal_strlit("1");
    reveal_strlit("}");
    assert(score_text(0) =~= ascii("{\"approved\":true,\"fraud_score\":0}"@));
    assert(score_text(1) =~= ascii("{\"approved\":true,\"fraud_score\":0.2}"@));
    assert(score_text(2) =~= ascii("{\"approved\":true,\"fraud_score\":0.4}"@));
    assert(score_text(3) =~= ascii("{\"approved\":false,\"fraud_score\":0.6}"@));
    assert(score_text(4) =~= ascii("{\"approved\":false,\"fraud_score\":0.8}"@));
    assert(score_text(5) =~= ascii("{\"approved\":false,\"fraud_score\":1}"@));
}

/// The response body of a bucket; a bucket over the last one counts as the last one.
pub fn body_for_bucket(bucket: u8) -> (body: &'static str)
    ensures
        body.is_ascii(),
        ascii(body@) == score_text(bucket as int),
{
    proof {
        lemma_score_texts();
        reveal_strlit("{\"approved\":true,\"fraud_score\":0}");
        reveal_strlit("{\"approved\":true,\"fraud_score\":0.2}");
        reveal_strlit("{\"approved\":true,\"fraud_score\":0.4}");
        reveal_strlit("{\"approved\":false,\"fraud_score\":0.6}");
        reveal_strlit("{\"approved\":false,\"fraud_score\":0.8}");
        reveal_strlit("{\"approved\":false,\"fraud_score\":1}");
    }
    match bucket {
        0 => "{\"approved\":true,\"fraud_score\":0}",
        1 => "{\"approved\":true,\"fraud_score\":0.2}",
        2 => "{\"approved\":true,\"fraud_score\":0.4}",
        3 => "{\"approved\":false,\"fraud_score\":0.6}",
        4 => "{\"approved\":false,\"fraud_score\":0.8}",
        5 => "{\"approved\":false,\"fraud_score\":1}",
        _ => "{\"approved\":false,\"fraud_score\":1}",
    }
}

/// A response with a JSON body: its length field counts the bytes of the body, and `connection`
/// holds the field, if any, that follows.
pub open spec fn json_response(body: Seq<u8>, connection: Seq<u8>) -> Seq<u8> {
    ascii("HTTP/1.1 200 OK\r\nContent-Type: application/json\r\nContent-Length: "@) + numeral(
        body.len(),
    ) + connection + ascii("\r\n\r\n"@) + body
}

/// The response for a bucket on a connection that says it stays open.
pub open spec fn keep_alive_response(bucket: int) -> Seq<u8> {
    json_response(score_text(bucket), ascii("\r\nConnection: keep-alive"@))
}

/// The response for a bucket on a connection that says nothing of its fate.
pub open spec fn plain_response(bucket: int) -> Seq<u8> {
    json_response(score_text(bucket), Seq::empty())
}

proof fn lemma_two_digit_numeral(n: nat)
    requires
        10 <= n < 100,
    ensures
        numeral(n) =~= seq![(48 + n / 10) as u8, (48 + n % 10) as u8],
{
    reveal_with_fuel(numeral, 2);
}

pub proof fn lemma_keep_alive_responses()
    ensures
        keep_alive_response(0) == ascii("HTTP/1.1 200 OK\r\nContent-Type: application/json\r\nContent-Length: 33\r\nConnection: keep-alive\r\n\r\n{\"approved\":true,\"fraud_score\":0}"@),
        keep_alive_response(1) == ascii("HTTP/1.1 200 OK\r\nContent-Type: application/json\r\nContent-Length: 35\r\nConnection: keep-alive\r\n\r\n{\"approved\":true,\"fraud_score\":0.2}"@),
        keep_alive_response(2) == ascii("HTTP/1.1 200 OK\r\nContent-Type: application/json\r\nContent-Length: 35\r\nConnection: keep-alive\r\n\r\n{\"approved\":true,\"fraud_score\":0.4}"@),
        keep_alive_response(3) == ascii("HTTP/1.1 200 OK\r\nContent-Type: application/json\r\nContent-Length: 36\r\nConnection: keep-alive\r\n\r\n{\"approved\":false,\"fraud_score\":0.6}"@),
        keep_alive_response(4) == ascii("HTTP/1.1 200 OK\r\nContent-Type: application/json\r\nContent-Length: 36\r\nConnection: keep-alive\r\n\r\n{\"approved\":false,\"fraud_score\":0.8}"@),
        keep_alive_response(5) == ascii("HTTP/1.1 200 OK\r\nContent-Type: application/json\r\nContent-Length: 34\r\nConnection: keep-alive\r\n\r\n{\"approved\":false,\"fraud_score\":1}"@),
        "HTTP/1.1 200 OK\r\nContent-Type: application/json\r\nContent-Length: 33\r\nConnection: keep-alive\r\n\r\n{\"approved\":true,\"fraud_score\":0}".is_ascii(),
        "HTTP/1.1 200 OK\r\nContent-Type: application/json\r\nContent-Length: 35\r\nConnection: keep-alive\r\n\r\n{\"approved\":true,\"fraud_score\":0.2}".is_ascii(),
        "HTTP/1.1 200 OK\r\nContent-Type: application/json\r\nContent-Length: 35\r\nConnection: keep-alive\r\n\r\n{\"approved\":true,\"fraud_score\":0.4}".is_ascii(),
        "HTTP/1.1 200 OK\r\nContent-Type: application/json\r\nContent-Length: 36\r\nConnection: keep-alive\r\n\r\n{\"approved\":false,\"fraud_score\":0.6}".is_ascii(),
        "HTTP/1.1 200 OK\r\nContent-Type: application/json\r\nContent-Length: 36\r\nConnection: keep-alive\r\n\r\n{\"approved\":false,\"fraud_score\":0.8}".is_ascii(),
        "HTTP/1.1 200 OK\r\nContent-Type: application/json\r\nContent-Length: 34\r\nConnection: keep-alive\r\n\r\n{\"approved\":false,\"fraud_score\":1}".is_ascii(),
{
    lemma_score_texts();
    lemma_two_digit_numeral(33);
    lemma_two_digit_numeral(34);
    lemma_two_digit_numeral(35);
    lemma_two_digit_numeral(36);
    reveal_strlit("HTTP/1.1 200 OK\r\nContent-Type: application/json\r\nContent-Length: 33\r\nConnection: keep-alive\r\n\r\n{\"approved\":true,\"fraud_score\":0}");
    reveal_strlit("HTTP/1.1 200 OK\r\nContent-Type: application/json\r\nContent-Length: 35\r\nConnection: keep-alive\r\n\r\n{\"approved\":true,\"fraud_score\":0.2}");
    reveal_strlit("HTTP/1.1 200 OK\r\nContent-Type: application/json\r\nContent-Length: 35\r\nConnection: keep-alive\r\n\r\n{\"approved\":true,\"fraud_score\":0.4}");
    reveal_strlit("HTTP/1.1 200 OK\r\nContent-Type: application/json\r\nContent-Length: 36\r\nConnection: keep-alive\r\n\r\n{\"approved\":false,\"fraud_score\":0.6}");
    reveal_strlit("HTTP/1.1 200 OK\r\nContent-Type: application/json\r\nContent-Length: 36\r\nConnection: keep-alive\r\n\r\n{\"approved\":false,\"fraud_score\":0.8}");
    reveal_strlit("HTTP/1.1 200 OK\r\nContent-Type: application/json\r\nContent-Length: 34\r\nConnection: keep-alive\r\n\r\n{\"approved\":false,\"fraud_score\":1}");
    reveal_strlit("HTTP/1.1 200 OK\r\nContent-Type: application/json\r\nContent-Length: ");
    reveal_strlit("\r\n\r\n");
    reveal_strlit("\r\nConnection: keep-alive");
    reveal_strlit("{\"approved\":true,\"fraud_score\":0}");
    reveal_strlit("{\"approved\":true,\"fraud_score\":0.2}");
    reveal_strlit("{\"approved\":true,\"fraud_score\":0.4}");
    reveal_strlit("{\"approved\":false,\"fraud_score\":0.6}");
    reveal_strlit("{\"approved\":false,\"fraud_score\":0.8}");
    reveal_strlit("{\"approved\":false,\"fraud_score\":1}");
    assert(keep_alive_response(0) =~= ascii("HTTP/1.1 200 OK\r\nContent-Type: application/json\r\nContent-Length: 33\r\nConnection: keep-alive\r\n\r\n{\"approved\":true,\"fraud_score\":0}"@));
    assert(keep_alive_response(1) =~= ascii("HTTP/1.1 200 OK\r\nContent-Type: application/json\r\nContent-Length: 35\r\nConnection: keep-alive\r\n\r\n{\"approved\":true,\"fraud_score\":0.2}"@));
    assert(keep_alive_response(2) =~= ascii("HTTP/1.1 200 OK\r\nContent-Type: application/json\r\nContent-Length: 35\r\nConnection: keep-alive\r\n\r\n{\"approved\":true,\"fraud_score\":0.4}"@));
    assert(keep_alive_response(3) =~= ascii("HTTP/1.1 200 OK\r\nContent-Type: application/json\r\nContent-Length: 36\r\nConnection: keep-alive\r\n\r\n{\"approved\":false,\"fraud_score\":0.6}"@));
    assert(keep_alive_response(4) =~= ascii("HTTP/1.1 200 OK\r\nContent-Type: application/json\r\nContent-Length: 36\r\nConnection: keep-alive\r\n\r\n{\"approved\":false,\"fraud_score\":0.8}"@));
    assert(keep_alive_response(5) =~= ascii("HTTP/1.1 200 OK\r\nContent-Type: application/json\r\nContent-Length: 34\r\nConnection: keep-alive\r\n\r\n{\"approved\":false,\"fraud_score\":1}"@));
}

/// The whole response for a bucket, on a connection that stays open.
pub fn http_response_for_bucket(bucket: u8) -> (response: Option<&'static [u8]>)
    ensures
        match response {
            Some(bytes) => bucket <= 5 && bytes@ == keep_alive_response(bucket as int),
            None => bucket > 5,
        },
{
    proof {
        lemma_keep_alive_responses();
        lemma_score_texts();
    }
    match bucket {
        0 => Some(literal("HTTP/1.1 200 OK\r\nContent-Type: application/json\r\nContent-Length: 33\r\nConnection: keep-alive\r\n\r\n{\"approved\":true,\"fraud_score\":0}")),
        1 => Some(literal("HTTP/1.1 200 OK\r\nContent-Type: application/json\r\nContent-Length: 35\r\nConnection: keep-alive\r\n\r\n{\"approved\":true,\"fraud_score\":0.2}")),
        2 => Some(literal("HTTP/1.1 200 OK\r\nContent-Type: application/json\r\nContent-Length: 35\r\nConnection: keep-alive\r\n\r\n{\"approved\":true,\"fraud_score\":0.4}")),
        3 => Some(literal("HTTP/1.1 200 OK\r\nContent-Type: application/json\r\nContent-Length: 36\r\nConnection: keep-alive\r\n\r\n{\"approved\":false,\"fraud_score\":0.6}")),
        4 => Some(literal("HTTP/1.1 200 OK\r\nContent-Type: application/json\r\nContent-Length: 36\r\nConnection: keep-alive\r\n\r\n{\"approved\":false,\"fraud_score\":0.8}")),
        5 => Some(literal("HTTP/1.1 200 OK\r\nContent-Type: application/json\r\nContent-Length: 34\r\nConnection: keep-alive\r\n\r\n{\"approved\":false,\"fraud_score\":1}")),
        _ => None,
    }
}

pub proof fn lemma_plain_responses()
    ensures
        plain_response(0) == ascii("HTTP/1.1 200 OK\r\nContent-Type: application/json\r\nContent-Length: 33\r\n\r\n{\"approved\":true,\"fraud_score\":0}"@),
        plain_response(1) == ascii("HTTP/1.1 200 OK\r\nContent-Type: application/json\r\nContent-Length: 35\r\n\r\n{\"approved\":true,\"fraud_score\":0.2}"@),
        plain_response(2) == ascii("HTTP/1.1 200 OK\r\nContent-Type: application/json\r\nContent-Length: 35\r\n\r\n{\"approved\":true,\"fraud_score\":0.4}"@),
        plain_response(3) == ascii("HTTP/1.1 200 OK\r\nContent-Type: application/json\r\nContent-Length: 36\r\n\r\n{\"approved\":false,\"fraud_score\":0.6}"@),
        plain_response(4) == ascii("HTTP/1.1 200 OK\r\nContent-Type: application/json\r\nContent-Length: 36\r\n\r\n{\"approved\":false,\"fraud_score\":0.8}"@),
        plain_response(5) == ascii("HTTP/1.1 200 OK\r\nContent-Type: application/json\r\nContent-Length: 34\r\n\r\n{\"approved\":false,\"fraud_score\":1}"@),
        "HTTP/1.1 200 OK\r\nContent-Type: application/json\r\nContent-Length: 33\r\n\r\n{\"approved\":true,\"fraud_score\":0}".is_ascii(),
        "HTTP/1.1 200 OK\r\nContent-Type: application/json\r\nContent-Length: 35\r\n\r\n{\"approved\":true,\"fraud_score\":0.2}".is_ascii(),
        "HTTP/1.1 200 OK\r\nContent-Type: application/json\r\nContent-Length: 35\r\n\r\n{\"approved\":true,\"fraud_score\":0.4}".is_ascii(),
        "HTTP/1.1 200 OK\r\nContent-Type: application/json\r\nContent-Length: 36\r\n\r\n{\"approved\":false,\"fraud_score\":0.6}".is_ascii(),
        "HTTP/1.1 200 OK\r\nContent-Type: application/json\r\nContent-Length: 36\r\n\r\n{\"approved\":false,\"fraud_score\":0.8}".is_ascii(),
        "HTTP/1.1 200 OK\r\nContent-Type: application/json\r\nContent-Length: 34\r\n\r\n{\"approved\":false,\"fraud_score\":1}".is_ascii(),
{
    lemma_score_texts();
    lemma_two_digit_numeral(33);
    lemma_two_digit_numeral(34);
    lemma_two_digit_numeral(35);
    lemma_two_digit_numeral(36);
    reveal_strlit("HTTP/1.1 200 OK\r\nContent-Type: application/json\r\nContent-Length: 33\r\n\r\n{\"approved\":true,\"fraud_score\":0}");
    reveal_strlit("HTTP/1.1 200 OK\r\nContent-Type: application/json\r\nContent-Length: 35\r\n\r\n{\"approved\":true,\"fraud_score\":0.2}");
    reveal_strlit("HTTP/1.1 200 OK\r\nContent-Type: application/json\r\nContent-Length: 35\r\n\r\n{\"approved\":true,\"fraud_score\":0.4}");
    reveal_strlit("HTTP/1.1 200 OK\r\nContent-Type: application/json\r\nContent-Length: 36\r\n\r\n{\"approved\":false,\"fraud_score\":0.6}");
    reveal_strlit("HTTP/1.1 200 OK\r\nContent-Type: application/json\r\nContent-Length: 36\r\n\r\n{\"approved\":false,\"fraud_score\":0.8}");
    reveal_strlit("HTTP/1.1 200 OK\r\nContent-Type: application/json\r\nContent-Length: 34\r\n\r\n{\"approved\":false,\"fraud_score\":1}");
    reveal_strlit("HTTP/1.1 200 OK\r\nContent-Type: application/json\r\nContent-Length: ");
    reveal_strlit("\r\n\r\n");
    reveal_strlit("{\"approved\":true,\"fraud_score\":0}");
    reveal_strlit("{\"approved\":true,\"fraud_score\":0.2}");
    reveal_strlit("{\"approved\":true,\"fraud_score\":0.4}");
    reveal_strlit("{\"approved\":false,\"fraud_score\":0.6}");
    reveal_strlit("{\"approved\":false,\"fraud_score\":0.8}");
    reveal_strlit("{\"approved\":false,\"fraud_score\":1}");
    assert(plain_response(0) =~= ascii("HTTP/1.1 200 OK\r\nContent-Type: application/json\r\nContent-Length: 33\r\n\r\n{\"approved\":true,\"fraud_score\":0}"@));
    assert(plain_response(1) =~= ascii("HTTP/1.1 200 OK\r\nContent-Type: application/json\r\nContent-Length: 35\r\n\r\n{\"approved\":true,\"fraud_score\":0.2}"@));
    assert(plain_response(2) =~= ascii("HTTP/1.1 200 OK\r\nContent-Type: application/json\r\nContent-Length: 35\r\n\r\n{\"approved\":true,\"fraud_score\":0.4}"@));
    assert(plain_response(3) =~= ascii("HTTP/1.1 200 OK\r\nContent-Type: application/json\r\nContent-Length: 36\r\n\r\n{\"approved\":false,\"fraud_score\":0.6}"@));
    assert(plain_response(4) =~= ascii("HTTP/1.1 200 OK\r\nContent-Type: application/json\r\nContent-Length: 36\r\n\r\n{\"approved\":false,\"fraud_score\":0.8}"@));
    assert(plain_response(5) =~= ascii("HTTP/1.1 200 OK\r\nContent-Type: application/json\r\nContent-Length: 34\r\n\r\n{\"approved\":false,\"fraud_score\":1}"@));
}

/// The whole response for a bucket on a handed-over connection; a bucket over the last one
/// counts as the last one.
pub fn handoff_response_for_bucket(bucket: u8) -> (response: &'static [u8])
    ensures
        response@ == plain_response(bucket as int),
{
    proof {
        lemma_plain_responses();
        lemma_score_texts();
    }
    match bucket {
        0 => literal("HTTP/1.1 200 OK\r\nContent-Type: application/json\r\nContent-Length: 33\r\n\r\n{\"approved\":true,\"fraud_score\":0}"),
        1 => literal("HTTP/1.1 200 OK\r\nContent-Type: application/json\r\nContent-Length: 35\r\n\r\n{\"approved\":true,\"fraud_score\":0.2}"),
        2 => literal("HTTP/1.1 200 OK\r\nContent-Type: application/json\r\nContent-Length: 35\r\n\r\n{\"approved\":true,\"fraud_score\":0.4}"),
        3 => literal("HTTP/1.1 200 OK\r\nContent-Type: application/json\r\nContent-Length: 36\r\n\r\n{\"approved\":false,\"fraud_score\":0.6}"),
        4 => literal("HTTP/1.1 200 OK\r\nContent-Type: application/json\r\nContent-Length: 36\r\n\r\n{\"approved\":false,\"fraud_score\":0.8}"),
        5 => literal("HTTP/1.1 200 OK\r\nContent-Type: application/json\r\nContent-Length: 34\r\n\r\n{\"approved\":false,\"fraud_score\":1}"),
        _ => literal("HTTP/1.1 200 OK\r\nContent-Type: application/json\r\nContent-Length: 34\r\n\r\n{\"approved\":false,\"fraud_score\":1}"),
    }
}

} // verus!
