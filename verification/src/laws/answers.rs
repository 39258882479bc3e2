//! What a body scores and what a request is answered.
use vstd::prelude::*;

use crate::api::{
    body_scores, body_scores_fast, is_response, raw_length, ready_reply, score_response,
    socket_path, ApiSetup, Engine, Unscored,
};
use crate::bytes::{ascii, gives, matches_at};
use crate::classifier::{may_classify, tree_case, Numbers, TreeCase};
use crate::edge::{bucket_response, edge_answer, is_answer};
use crate::edge_client;
use crate::epoll::{responds, Conn, Stage};
use crate::fast_payload::{is_vectorized, query, Constants, Quantity, Vec16I};
use crate::head::{refusal_response, Refusal, Route};
use crate::lb::upstream::raw_frame;
use crate::request::{request_body, ParsedRequest};
use crate::scorer::is_bucket;
use crate::scoring::{lemma_keep_alive_responses, lemma_plain_responses, lemma_score_texts};

verus! {

/// A body that the classifier can read scores 0 or 5, as it says, wherever the classifier is on and
/// requests are not measured. Any other body scores what the index finds: with the fast parser, where
/// it can read the body, the bucket of its vector, else that of the whole body; and without an index
/// it scores nothing.
pub proof fn law_a_body_scores_its_verdict_or_its_bucket<
    F: Fn(&[u8]) -> u32,
    D: Fn(u32, u32) -> u32,
    P: Fn(&TreeCase<'_>, &Numbers) -> bool,
    N: Fn(&[u8]) -> u64,
    Q: Fn(Quantity) -> i16,
    V: Fn(&Vec16I, u16) -> u8,
    X: Fn(&[u8]) -> Option<u8>,
>(
    setup: ApiSetup,
    engine: Engine<F, D, P, N, Q, V, X>,
    c: Constants,
    body: Seq<u8>,
    r: Result<u8, Unscored>,
)
    requires
        body_scores(setup, engine, c, body, r),
    ensures
        !setup.perf && !setup.log_search_avg && !(setup.classifier is Off) && tree_case(
            body,
        ) is Some ==> {
            ||| r == Ok::<u8, Unscored>(0) && may_classify(
                engine.read,
                engine.divide,
                engine.predict,
                body,
                Some(true),
            )
            ||| r == Ok::<u8, Unscored>(5) && may_classify(
                engine.read,
                engine.divide,
                engine.predict,
                body,
                Some(false),
            )
        },
        setup.perf || setup.log_search_avg || setup.classifier is Off || tree_case(body) is None
            ==> {
            &&& !setup.has_index ==> r is Err
            &&& setup.has_index && setup.parser is Fast && query(body) is Some ==> r is Ok
                && exists|v: &Vec16I, key: u16|
                is_vectorized(engine.number, engine.quantize, c, query(body)->0, v@, key)
                    && call_ensures(engine.search_vector, (v, key), r->Ok_0)
            &&& setup.has_index && (setup.parser is Serde || query(body) is None) ==> (r
                matches Ok(bucket) ==> gives(engine.search_body, body, Some(bucket))) && (r is Err
                ==> gives(engine.search_body, body, None))
        },
{
}

/// The short path asks the classifier wherever it is on, and then the fast parser.
pub proof fn law_the_short_path_scores_alike<
    F: Fn(&[u8]) -> u32,
    D: Fn(u32, u32) -> u32,
    P: Fn(&TreeCase<'_>, &Numbers) -> bool,
    N: Fn(&[u8]) -> u64,
    Q: Fn(Quantity) -> i16,
    V: Fn(&Vec16I, u16) -> u8,
    X: Fn(&[u8]) -> Option<u8>,
>(
    setup: ApiSetup,
    engine: Engine<F, D, P, N, Q, V, X>,
    c: Constants,
    body: Seq<u8>,
    r: Result<u8, Unscored>,
)
    requires
        body_scores_fast(setup, engine, c, body, r),
    ensures
        !(setup.classifier is Off) && tree_case(body) is Some ==> {
            ||| r == Ok::<u8, Unscored>(0) && may_classify(
                engine.read,
                engine.divide,
                engine.predict,
                body,
                Some(true),
            )
            ||| r == Ok::<u8, Unscored>(5) && may_classify(
                engine.read,
                engine.divide,
                engine.predict,
                body,
                Some(false),
            )
        },
        setup.classifier is Off || tree_case(body) is None ==> {
            &&& !setup.has_index ==> r is Err
            &&& setup.has_index && query(body) is Some ==> r is Ok && exists|
                v: &Vec16I,
                key: u16,
            |
                is_vectorized(engine.number, engine.quantize, c, query(body)->0, v@, key)
                    && call_ensures(engine.search_vector, (v, key), r->Ok_0)
            &&& setup.has_index && query(body) is None ==> (r matches Ok(bucket) ==> gives(
                engine.search_body,
                body,
                Some(bucket),
            )) && (r is Err ==> gives(engine.search_body, body, None))
        },
{
}

/// The responses of the scores, written out: one under three fifths is approved, a bucket over the
/// last counts as the last, and what cannot be scored is a bad request.
pub proof fn law_scores_have_their_responses(bucket: u8)
    ensures
        score_response(Ok(0)) == ascii(
            "HTTP/1.1 200 OK\r\nContent-Type: application/json\r\nContent-Length: 33\r\n\r\n{\"approved\":true,\"fraud_score\":0}"@,
        ),
        score_response(Ok(1)) == ascii(
            "HTTP/1.1 200 OK\r\nContent-Type: application/json\r\nContent-Length: 35\r\n\r\n{\"approved\":true,\"fraud_score\":0.2}"@,
        ),
        score_response(Ok(2)) == ascii(
            "HTTP/1.1 200 OK\r\nContent-Type: application/json\r\nContent-Length: 35\r\n\r\n{\"approved\":true,\"fraud_score\":0.4}"@,
        ),
        score_response(Ok(3)) == ascii(
            "HTTP/1.1 200 OK\r\nContent-Type: application/json\r\nContent-Length: 36\r\n\r\n{\"approved\":false,\"fraud_score\":0.6}"@,
        ),
        score_response(Ok(4)) == ascii(
            "HTTP/1.1 200 OK\r\nContent-Type: application/json\r\nContent-Length: 36\r\n\r\n{\"approved\":false,\"fraud_score\":0.8}"@,
        ),
        score_response(Ok(5)) == ascii(
            "HTTP/1.1 200 OK\r\nContent-Type: application/json\r\nContent-Length: 34\r\n\r\n{\"approved\":false,\"fraud_score\":1}"@,
        ),
        bucket > 5 ==> score_response(Ok(bucket)) == score_response(Ok(5)),
        score_response(Err(Unscored)) == ascii(
            "HTTP/1.1 400 Bad Request\r\nContent-Length: 0\r\nConnection: close\r\n\r\n"@,
        ),
{
    lemma_plain_responses();
    lemma_score_texts();
}

/// The same on a connection that says that it stays open; there the last bucket is the last.
pub proof fn law_buckets_have_their_responses(bucket: Option<u8>)
    ensures
        bucket_response(Some(0)) == Some(
            ascii(
                "HTTP/1.1 200 OK\r\nContent-Type: application/json\r\nContent-Length: 33\r\nConnection: keep-alive\r\n\r\n{\"approved\":true,\"fraud_score\":0}"@,
            ),
        ),
        bucket_response(Some(1)) == Some(
            ascii(
                "HTTP/1.1 200 OK\r\nContent-Type: application/json\r\nContent-Length: 35\r\nConnection: keep-alive\r\n\r\n{\"approved\":true,\"fraud_score\":0.2}"@,
            ),
        ),
        bucket_response(Some(2)) == Some(
            ascii(
                "HTTP/1.1 200 OK\r\nContent-Type: application/json\r\nContent-Length: 35\r\nConnection: keep-alive\r\n\r\n{\"approved\":true,\"fraud_score\":0.4}"@,
            ),
        ),
        bucket_response(Some(3)) == Some(
            ascii(
                "HTTP/1.1 200 OK\r\nContent-Type: application/json\r\nContent-Length: 36\r\nConnection: keep-alive\r\n\r\n{\"approved\":false,\"fraud_score\":0.6}"@,
            ),
        ),
        bucket_response(Some(4)) == Some(
            ascii(
                "HTTP/1.1 200 OK\r\nContent-Type: application/json\r\nContent-Length: 36\r\nConnection: keep-alive\r\n\r\n{\"approved\":false,\"fraud_score\":0.8}"@,
            ),
        ),
        bucket_response(Some(5)) == Some(
            ascii(
                "HTTP/1.1 200 OK\r\nContent-Type: application/json\r\nContent-Length: 34\r\nConnection: keep-alive\r\n\r\n{\"approved\":false,\"fraud_score\":1}"@,
            ),
        ),
        bucket matches Some(over) ==> (over > 5 <==> bucket_response(bucket) is None),
        bucket_response(None) is None,
{
    lemma_keep_alive_responses();
}

/// A request whether the service is ready is answered that it is, and a score request with the
/// response of a score of its body.
pub proof fn law_requests_are_answered_by_their_route<
    F: Fn(&[u8]) -> u32,
    D: Fn(u32, u32) -> u32,
    P: Fn(&TreeCase<'_>, &Numbers) -> bool,
    N: Fn(&[u8]) -> u64,
    Q: Fn(Quantity) -> i16,
    V: Fn(&Vec16I, u16) -> u8,
    X: Fn(&[u8]) -> Option<u8>,
>(
    setup: ApiSetup,
    engine: Engine<F, D, P, N, Q, V, X>,
    c: Constants,
    body: Seq<u8>,
    route: Route,
    response: Seq<u8>,
)
    requires
        is_response(setup, engine, c, body, route, response),
    ensures
        route is Ready ==> response == ascii(
            "HTTP/1.1 200 OK\r\nContent-Length: 0\r\nConnection: keep-alive\r\n\r\n"@,
        ),
        route is FraudScore ==> exists|r: Result<u8, Unscored>| #[trigger]
            body_scores(setup, engine, c, body, r) && response == score_response(r),
{
}

/// A connection is given a response while a request of it is to be scored, and only then: one that
/// the bytes behind the head of this request may get.
pub proof fn law_connections_are_given_the_response_of_their_body<
    F: Fn(&[u8]) -> u32,
    D: Fn(u32, u32) -> u32,
    P: Fn(&TreeCase<'_>, &Numbers) -> bool,
    N: Fn(&[u8]) -> u64,
    Q: Fn(Quantity) -> i16,
    V: Fn(&Vec16I, u16) -> u8,
    X: Fn(&[u8]) -> Option<u8>,
>(
    setup: ApiSetup,
    engine: Engine<F, D, P, N, Q, V, X>,
    c: Constants,
    conn: Conn,
    r: Option<&'static [u8]>,
    request: ParsedRequest,
    head: Seq<u8>,
    body: Seq<u8>,
    rest: Seq<u8>,
)
    requires
        responds(setup, engine, c, conn, r),
    ensures
        !(conn.stage is Scoring) ==> r is None,
        conn.stage == Stage::Scoring(request) && conn.inbox@ == head + body + rest
            && request.header_len == head.len() && request.total_len == head.len() + body.len()
            ==> (r matches Some(response) && is_response(
            setup,
            engine,
            c,
            body,
            request.route,
            response@,
        )),
{
    if conn.stage == Stage::Scoring(request) && conn.inbox@ == head + body + rest
        && request.header_len == head.len() && request.total_len == head.len() + body.len() {
        assert(request_body(conn.inbox@, request) =~= body);
    }
}

/// The bucket that the scorer gives is 0 for an approved body, 5 for a denied one and 255 for one
/// that cannot be read.
pub proof fn law_the_scorer_gives_the_verdict<
    F: Fn(&[u8]) -> u32,
    D: Fn(u32, u32) -> u32,
    P: Fn(&TreeCase<'_>, &Numbers) -> bool,
>(read: F, divide: D, predict: P, body: Seq<u8>, bucket: u8)
    requires
        is_bucket(read, divide, predict, body, bucket),
    ensures
        ({
            ||| bucket == 0 && may_classify(read, divide, predict, body, Some(true))
            ||| bucket == 5 && may_classify(read, divide, predict, body, Some(false))
            ||| bucket == 255 && may_classify(read, divide, predict, body, None)
        }),
{
}

/// A raw frame carries the length of its body in two bytes, the high one first, and then the body; a
/// length of zero or over 8192 is refused.
pub proof fn law_raw_frames_carry_their_length(body: Seq<u8>, high: u8, low: u8)
    requires
        body.len() <= 65535,
    ensures
        raw_frame(body).len() == body.len() + 2,
        raw_frame(body)[0] * 256 + raw_frame(body)[1] == body.len(),
        raw_frame(body).skip(2) == body,
        raw_length(high, low) is Some <==> 1 <= high * 256 + low <= 8192,
        raw_length(high, low) matches Some(length) ==> length == high * 256 + low,
{
    assert(raw_frame(body).skip(2) =~= body);
}

/// The smallest server tells whether the service is ready, on a request that asks for it by `GET` or
/// `HEAD`; any other of these is not found, and any other method is not allowed.
pub proof fn law_the_smallest_server_knows_ready_only(request: Seq<u8>, ready: bool)
    ensures
        matches_at(request, ascii("GET /ready "@), 0) || matches_at(
            request,
            ascii("HEAD /ready "@),
            0,
        ) ==> ready_reply(request, ready) == if ready {
            ascii("HTTP/1.1 200 OK\r\nContent-Length: 0\r\nConnection: keep-alive\r\n\r\n"@)
        } else {
            ascii(
                "HTTP/1.1 503 Service Unavailable\r\nContent-Length: 0\r\nConnection: close\r\n\r\n"@,
            )
        },
        !matches_at(request, ascii("GET /ready "@), 0) && !matches_at(
            request,
            ascii("HEAD /ready "@),
            0,
        ) && (matches_at(request, ascii("GET "@), 0) || matches_at(request, ascii("HEAD "@), 0))
            ==> ready_reply(request, ready) == ascii(
            "HTTP/1.1 404 Not Found\r\nContent-Length: 0\r\nConnection: close\r\n\r\n"@,
        ),
        !matches_at(request, ascii("GET "@), 0) && !matches_at(request, ascii("HEAD "@), 0)
            && !matches_at(request, ascii("GET /ready "@), 0) && !matches_at(
            request,
            ascii("HEAD /ready "@),
            0,
        ) ==> ready_reply(request, ready) == ascii(
            "HTTP/1.1 405 Method Not Allowed\r\nContent-Length: 0\r\nConnection: close\r\n\r\n"@,
        ),
{
}

/// The path of a socket is what stands behind its scheme, or the whole text where there is none.
pub proof fn law_a_socket_path_has_no_scheme(path: Seq<u8>)
    ensures
        socket_path(ascii("unix:"@) + path) == path,
        !matches_at(path, ascii("unix:"@), 0) ==> socket_path(path) == path,
{
    let scheme = ascii("unix:"@);
    reveal_strlit("unix:");
    let s = scheme + path;
    assert(matches_at(s, scheme, 0)) by {
        assert forall|k: int| 0 <= k < scheme.len() implies s[0 + k] == #[trigger] scheme[k] by {}
    }
    assert(s.skip(5) =~= path);
}

/// The single-process server serves nothing before it is ready, and closes then. Ready, it answers a
/// score request with the response of the bucket that the search finds for its body, and closes on a
/// body without one; and it closes where the request asks for that.
pub proof fn law_the_single_process_server_answers<X: Fn(&[u8]) -> Option<u8>>(
    search: X,
    request: ParsedRequest,
    body: Seq<u8>,
    ready: bool,
    response: Seq<u8>,
    close: bool,
)
    requires
        is_answer(search, request, body, ready, response, close),
    ensures
        !ready ==> close && response == ascii(
            "HTTP/1.1 503 Service Unavailable\r\nContent-Length: 0\r\nConnection: close\r\n\r\n"@,
        ),
        request.close_after_response ==> close,
        ready && request.route is Ready ==> close == request.close_after_response && response
            == ascii("HTTP/1.1 200 OK\r\nContent-Length: 0\r\nConnection: keep-alive\r\n\r\n"@),
        ready && request.route is FraudScore ==> exists|bucket: Option<u8>|
            {
                &&& #[trigger] gives(search, body, bucket)
                &&& bucket_response(bucket) matches Some(wanted) ==> response == wanted && close
                    == request.close_after_response
                &&& bucket_response(bucket) is None ==> close && response == ascii(
                    "HTTP/1.1 400 Bad Request\r\nContent-Length: 0\r\nConnection: close\r\n\r\n"@,
                )
            },
{
    let bucket = choose|bucket: Option<u8>|
        {
            let wanted = #[trigger] edge_answer(request.route, ready, bucket);
            &&& response == wanted.0
            &&& close == (request.close_after_response || wanted.1)
            &&& ready && request.route == Route::FraudScore ==> gives(search, body, bucket)
        };
    assert(ready && request.route is FraudScore ==> gives(search, body, bucket));
}

/// A client of the single-process server keeps what arrives, is answered once its request is there,
/// reads on until then, and is refused where there can be none. Its request leaves its bytes once the
/// answer is written, and then it is closed exactly if the answer closes.
pub proof fn law_a_client_of_the_single_process_server<X: Fn(&[u8]) -> Option<u8>>(
    search: X,
    ready: bool,
    old_client: edge_client::Client,
    event: edge_client::Event<'_>,
    client: edge_client::Client,
    action: edge_client::Action,
)
    requires
        edge_client::steps(search, ready, old_client, event, client, action),
    ensures
        match (old_client.stage, event) {
            (edge_client::Stage::Reading, edge_client::Event::Received(chunk)) => client.read_buf@
                == old_client.read_buf@ + chunk@,
            (edge_client::Stage::Answering(request, _), edge_client::Event::Written) =>
                client.read_buf@ == old_client.read_buf@.skip(request.total_len as int),
            _ => client.read_buf@ == old_client.read_buf@,
        },
        (old_client.stage matches edge_client::Stage::Answering(_, close) && close)
            && event is Written ==> action is Close && client.stage is Over,
        ({
            ||| old_client.stage is Starting && event is Started
            ||| old_client.stage is Reading && event is Received
            ||| (old_client.stage matches edge_client::Stage::Answering(_, close) && !close)
                && event is Written
        }) ==> match edge_client::outcome(client.read_buf@) {
            Ok(None) => action is Read && client.stage is Reading,
            Ok(Some(request)) => {
                &&& client.stage matches edge_client::Stage::Answering(asked, close)
                &&& asked == request
                &&& action matches edge_client::Action::Write(response)
                &&& is_answer(
                    search,
                    request,
                    client.read_buf@.subrange(
                        request.header_len as int,
                        request.total_len as int,
                    ),
                    ready,
                    response@,
                    close,
                )
            },
            Err(why) => client.stage is Refusing && (action matches edge_client::Action::Write(
                response,
            ) && response@ == refusal_response(why)),
        },
        old_client.stage is Reading && event is Closed && old_client.read_buf@
            == Seq::<u8>::empty() ==> action is Close && client.stage is Over,
        old_client.stage is Reading && (event is ReadFailed || event is Closed
            && old_client.read_buf@.len() > 0) ==> client.stage is Refusing && (action
            matches edge_client::Action::Write(response) && response@ == ascii(
            "HTTP/1.1 400 Bad Request\r\nContent-Length: 0\r\nConnection: close\r\n\r\n"@,
        )),
        old_client.stage is Refusing || old_client.stage is Over || event is WriteFailed
            ==> action is Close && client.stage is Over,
{
}

/// Refusals have the responses of their reasons.
pub proof fn law_refusals_have_their_responses()
    ensures
        refusal_response(Refusal::BadRequest) == ascii(
            "HTTP/1.1 400 Bad Request\r\nContent-Length: 0\r\nConnection: close\r\n\r\n"@,
        ),
        refusal_response(Refusal::NotFound) == ascii(
            "HTTP/1.1 404 Not Found\r\nContent-Length: 0\r\nConnection: close\r\n\r\n"@,
        ),
        refusal_response(Refusal::MethodNotAllowed) == ascii(
            "HTTP/1.1 405 Method Not Allowed\r\nContent-Length: 0\r\nConnection: close\r\n\r\n"@,
        ),
        refusal_response(Refusal::PayloadTooLarge) == ascii(
            "HTTP/1.1 413 Payload Too Large\r\nContent-Length: 0\r\nConnection: close\r\n\r\n"@,
        ),
{
}

} // verus!
