//! The scoring service: how a body is scored and how a request is answered.
use vstd::prelude::*;
use vstd::utf8::encode_utf8;

use crate::bytes::{ascii, gives, literal, matches_at, same_bytes, stands_at};
use crate::classifier::{classify_approved, may_classify, tree_case, Numbers, TreeCase};
use crate::fast_payload::{
    is_vectorized, parse_payload_to_i16_and_key, query, Constants, Quantity, Vec16I,
};
use crate::head::{refusal_response, refuse, Refusal, Route};
use crate::lb::upstream::{raw_frame, RAW_BAD_REQUEST};
use crate::scoring::{
    handoff_response_for_bucket, plain_response, READY_OK_RESPONSE, SERVICE_UNAVAILABLE_RESPONSE,
};
use crate::text::{lower, to_lower};

verus! {

/// How the bodies are parsed.
#[derive(Debug, Clone, Copy, PartialEq, Eq, Structural)]
pub enum ApiParser {
    Serde,
    Fast,
}

/// Whether the classifier is asked, and whether there is anything else to ask.
#[derive(Debug, Clone, Copy, PartialEq, Eq, Structural)]
pub enum ApiClassifier {
    Off,
    Tree,
    TreeOnly,
}

/// Whether a setting, in any letter case, is this text in lower case.
fn setting_is(value: &str, text: &'static str) -> (same: bool)
    requires
        text.is_ascii(),
    ensures
        same == (lower(encode_utf8(value@)) == ascii(text@)),
{
    let lowered = to_lower(value.as_bytes());
    same_bytes(lowered.as_slice(), literal(text))
}

/// The parser that a setting asks for.
pub open spec fn parser_setting(value: Option<&str>) -> ApiParser {
    if value matches Some(text) && lower(encode_utf8(text@)) == ascii("fast"@) {
        ApiParser::Fast
    } else {
        ApiParser::Serde
    }
}

/// The use of the classifier that a setting asks for.
pub open spec fn classifier_setting(value: Option<&str>) -> ApiClassifier {
    match value {
        Some(text) => {
            let name = lower(encode_utf8(text@));
            if name == ascii("tree"@) {
                ApiClassifier::Tree
            } else if name == ascii("tree_only"@) || name == ascii("tree-only"@) {
                ApiClassifier::TreeOnly
            } else {
                ApiClassifier::Off
            }
        },
        None => ApiClassifier::Off,
    }
}

impl ApiParser {
    /// The parser that a setting asks for; without one, or with one that is not known, the slow
    /// one.
    pub fn from_setting(value: Option<&str>) -> (parser: Self)
        ensures
            parser == (if value matches Some(text) && lower(encode_utf8(text@)) == ascii("fast"@) {
                ApiParser::Fast
            } else {
                ApiParser::Serde
            }),
            parser == parser_setting(value),
    {
        proof {
            reveal_strlit("fast");
        }
        match value {
            Some(text) => if setting_is(text, "fast") {
                ApiParser::Fast
            } else {
                ApiParser::Serde
            },
            None => ApiParser::Serde,
        }
    }
}

impl ApiClassifier {
    /// The use of the classifier that a setting asks for; without one, or with one that is not
    /// known, none.
    pub fn from_setting(value: Option<&str>) -> (classifier: Self)
        ensures
            classifier == (match value {
                Some(text) => {
                    let name = lower(encode_utf8(text@));
                    if name == ascii("tree"@) {
                        ApiClassifier::Tree
                    } else if name == ascii("tree_only"@) || name == ascii("tree-only"@) {
                        ApiClassifier::TreeOnly
                    } else {
                        ApiClassifier::Off
                    }
                },
                None => ApiClassifier::Off,
            }),
            classifier == classifier_setting(value),
    {
        proof {
            reveal_strlit("tree");
            reveal_strlit("tree_only");
            reveal_strlit("tree-only");
        }
        match value {
            Some(text) => if setting_is(text, "tree") {
                ApiClassifier::Tree
            } else if setting_is(text, "tree_only") || setting_is(text, "tree-only") {
                ApiClassifier::TreeOnly
            } else {
                ApiClassifier::Off
            },
            None => ApiClassifier::Off,
        }
    }
}

/// What the service was started with.
#[derive(Debug, Clone, Copy, PartialEq, Eq, Structural)]
pub struct ApiSetup {
    /// Each request is measured.
    pub perf: bool,
    /// The average time is logged.
    pub log_search_avg: bool,
    pub parser: ApiParser,
    pub classifier: ApiClassifier,
    /// There is an index to search.
    pub has_index: bool,
}

/// The request cannot be scored.
#[derive(Debug, Clone, Copy, PartialEq, Eq, Structural)]
pub struct Unscored;

/// What the service calls to work with numbers, to predict and to search.
pub struct Engine<F, D, P, N, Q, V, X> {
    /// The bits of the single-precision number that a text stands for.
    pub read: F,
    /// The bits of a single-precision quotient.
    pub divide: D,
    /// Whether the tree model takes a case for a fraud.
    pub predict: P,
    /// The bits of the double-precision number that a text stands for.
    pub number: N,
    /// A quantity over its limit, quantized.
    pub quantize: Q,
    /// The bucket of a vector in the cell of a key.
    pub search_vector: V,
    /// The bucket of a body; none if it is no score request.
    pub search_body: X,
}

/// The parts of the engine take any argument.
pub open spec fn engine_runs<
    F: Fn(&[u8]) -> u32,
    D: Fn(u32, u32) -> u32,
    P: Fn(&TreeCase<'_>, &Numbers) -> bool,
    N: Fn(&[u8]) -> u64,
    Q: Fn(Quantity) -> i16,
    V: Fn(&Vec16I, u16) -> u8,
    X: Fn(&[u8]) -> Option<u8>,
>(engine: Engine<F, D, P, N, Q, V, X>) -> bool {
    &&& forall|t: &[u8]| call_requires(engine.read, (t,))
    &&& forall|a: u32, b: u32| call_requires(engine.divide, (a, b))
    &&& forall|c: &TreeCase<'_>, n: &Numbers| call_requires(engine.predict, (c, n))
    &&& forall|t: &[u8]| call_requires(engine.number, (t,))
    &&& forall|q: Quantity| call_requires(engine.quantize, (q,))
    &&& forall|v: &Vec16I, key: u16| call_requires(engine.search_vector, (v, key))
    &&& forall|b: &[u8]| call_requires(engine.search_body, (b,))
}

/// What the classifier may make of a body.
pub open spec fn classifies<
    F: Fn(&[u8]) -> u32,
    D: Fn(u32, u32) -> u32,
    P: Fn(&TreeCase<'_>, &Numbers) -> bool,
    N: Fn(&[u8]) -> u64,
    Q: Fn(Quantity) -> i16,
    V: Fn(&Vec16I, u16) -> u8,
    X: Fn(&[u8]) -> Option<u8>,
>(engine: Engine<F, D, P, N, Q, V, X>, body: Seq<u8>, r: Option<bool>) -> bool {
    may_classify(engine.read, engine.divide, engine.predict, body, r)
}

/// The bucket that the search for the vector of a body may give; none if the fast parser cannot
/// read the body.
pub open spec fn finds_vector<
    F: Fn(&[u8]) -> u32,
    D: Fn(u32, u32) -> u32,
    P: Fn(&TreeCase<'_>, &Numbers) -> bool,
    N: Fn(&[u8]) -> u64,
    Q: Fn(Quantity) -> i16,
    V: Fn(&Vec16I, u16) -> u8,
    X: Fn(&[u8]) -> Option<u8>,
>(engine: Engine<F, D, P, N, Q, V, X>, c: Constants, body: Seq<u8>, r: Option<u8>) -> bool {
    match (query(body), r) {
        (None, None) => true,
        (Some(q), Some(bucket)) => exists|v: &Vec16I, key: u16|
            is_vectorized(engine.number, engine.quantize, c, q, v@, key) && call_ensures(
                engine.search_vector,
                (v, key),
                bucket,
            ),
        _ => false,
    }
}

/// What the index may make of a body: the fast parser first, if it is tried, and then the slow
/// one.
pub open spec fn searches<
    F: Fn(&[u8]) -> u32,
    D: Fn(u32, u32) -> u32,
    P: Fn(&TreeCase<'_>, &Numbers) -> bool,
    N: Fn(&[u8]) -> u64,
    Q: Fn(Quantity) -> i16,
    V: Fn(&Vec16I, u16) -> u8,
    X: Fn(&[u8]) -> Option<u8>,
>(
    engine: Engine<F, D, P, N, Q, V, X>,
    c: Constants,
    fast: bool,
    body: Seq<u8>,
    r: Result<u8, Unscored>,
) -> bool {
    ||| fast && r is Ok && finds_vector(engine, c, body, Some(r->Ok_0))
    ||| {
        &&& fast ==> finds_vector(engine, c, body, None)
        &&& gives(
            engine.search_body,
            body,
            match r {
                Ok(bucket) => Some(bucket),
                Err(_) => None,
            },
        )
    }
}

/// What a body may be scored: what the classifier says, if it is asked and can read the body, else
/// what the index says, if there is one.
pub open spec fn scores<
    F: Fn(&[u8]) -> u32,
    D: Fn(u32, u32) -> u32,
    P: Fn(&TreeCase<'_>, &Numbers) -> bool,
    N: Fn(&[u8]) -> u64,
    Q: Fn(Quantity) -> i16,
    V: Fn(&Vec16I, u16) -> u8,
    X: Fn(&[u8]) -> Option<u8>,
>(
    engine: Engine<F, D, P, N, Q, V, X>,
    c: Constants,
    classify: bool,
    fast: bool,
    has_index: bool,
    body: Seq<u8>,
    r: Result<u8, Unscored>,
) -> bool {
    if classify && tree_case(body) is Some {
        exists|approved: bool| #[trigger]
            classifies(engine, body, Some(approved)) && r == Ok::<u8, Unscored>(
                if approved {
                    0
                } else {
                    5
                },
            )
    } else if !has_index {
        r is Err
    } else {
        searches(engine, c, fast, body, r)
    }
}

/// The classifier is asked in the slow path.
pub open spec fn asks_classifier(setup: ApiSetup) -> bool {
    !setup.perf && !setup.log_search_avg && setup.classifier != ApiClassifier::Off
}

/// The short path is taken.
pub open spec fn takes_short_path(setup: ApiSetup) -> bool {
    !setup.perf && !setup.log_search_avg && setup.parser == ApiParser::Fast
}

/// Asks the classifier, if it is to be asked, and then the index.
fn score<
    F: Fn(&[u8]) -> u32,
    D: Fn(u32, u32) -> u32,
    P: Fn(&TreeCase<'_>, &Numbers) -> bool,
    N: Fn(&[u8]) -> u64,
    Q: Fn(Quantity) -> i16,
    V: Fn(&Vec16I, u16) -> u8,
    X: Fn(&[u8]) -> Option<u8>,
>(
    engine: &Engine<F, D, P, N, Q, V, X>,
    c: &Constants,
    classify: bool,
    fast: bool,
    has_index: bool,
    body: &[u8],
) -> (r: Result<u8, Unscored>)
    requires
        engine_runs(*engine),
        c.well_formed(),
    ensures
        scores(*engine, *c, classify, fast, has_index, body@, r),
{
    if classify {
        let approved = classify_approved(body, &engine.read, &engine.divide, &engine.predict);
        match approved {
            Some(approved) => {
                assert(classifies(*engine, body@, Some(approved)));
                return Ok(
                    if approved {
                        0
                    } else {
                        5
                    },
                );
            },
            None => {},
        }
    }
    if !has_index {
        return Err(Unscored);
    }
    if fast {
        let parsed = parse_payload_to_i16_and_key(body, c, &engine.number, &engine.quantize);
        match parsed {
            Some((vector, key)) => {
                let search = &engine.search_vector;
                let bucket: u8 = search(&vector, key);
                assert(finds_vector(*engine, *c, body@, Some(bucket)));
                return Ok(bucket);
            },
            None => {},
        }
    }
    let search = &engine.search_body;
    match search(body) {
        Some(bucket) => Ok(bucket),
        None => Err(Unscored),
    }
}

/// What a body may be scored in the path that can be measured.
pub open spec fn body_scores<
    F: Fn(&[u8]) -> u32,
    D: Fn(u32, u32) -> u32,
    P: Fn(&TreeCase<'_>, &Numbers) -> bool,
    N: Fn(&[u8]) -> u64,
    Q: Fn(Quantity) -> i16,
    V: Fn(&Vec16I, u16) -> u8,
    X: Fn(&[u8]) -> Option<u8>,
>(
    setup: ApiSetup,
    engine: Engine<F, D, P, N, Q, V, X>,
    c: Constants,
    body: Seq<u8>,
    r: Result<u8, Unscored>,
) -> bool {
    scores(
        engine,
        c,
        asks_classifier(setup),
        setup.parser == ApiParser::Fast,
        setup.has_index,
        body,
        r,
    )
}

/// What a body may be scored in the short path.
pub open spec fn body_scores_fast<
    F: Fn(&[u8]) -> u32,
    D: Fn(u32, u32) -> u32,
    P: Fn(&TreeCase<'_>, &Numbers) -> bool,
    N: Fn(&[u8]) -> u64,
    Q: Fn(Quantity) -> i16,
    V: Fn(&Vec16I, u16) -> u8,
    X: Fn(&[u8]) -> Option<u8>,
>(
    setup: ApiSetup,
    engine: Engine<F, D, P, N, Q, V, X>,
    c: Constants,
    body: Seq<u8>,
    r: Result<u8, Unscored>,
) -> bool {
    scores(
        engine,
        c,
        setup.classifier != ApiClassifier::Off,
        true,
        setup.has_index,
        body,
        r,
    )
}

/// Where the short path is taken, it scores what the other path would score.
pub proof fn law_paths_agree<
    F: Fn(&[u8]) -> u32,
    D: Fn(u32, u32) -> u32,
    P: Fn(&TreeCase<'_>, &Numbers) -> bool,
    N: Fn(&[u8]) -> u64,
    Q: Fn(Quantity) -> i16,
    V: Fn(&Vec16I, u16) -> u8,
    X: Fn(&[u8]) -> Option<u8>,
>(
    setup: ApiSetup,
    engine: Engine<F, D, P, N, Q, V, X>,
    c: Constants,
    body: Seq<u8>,
    r: Result<u8, Unscored>,
)
    requires
        takes_short_path(setup),
    ensures
        body_scores_fast(setup, engine, c, body, r) == body_scores(setup, engine, c, body, r),
{
}

/// With nothing but the classifier, a body is approved, denied or refused, and refused exactly if
/// it cannot be read.
pub proof fn law_tree_only_buckets<
    F: Fn(&[u8]) -> u32,
    D: Fn(u32, u32) -> u32,
    P: Fn(&TreeCase<'_>, &Numbers) -> bool,
    N: Fn(&[u8]) -> u64,
    Q: Fn(Quantity) -> i16,
    V: Fn(&Vec16I, u16) -> u8,
    X: Fn(&[u8]) -> Option<u8>,
>(
    setup: ApiSetup,
    engine: Engine<F, D, P, N, Q, V, X>,
    c: Constants,
    body: Seq<u8>,
    r: Result<u8, Unscored>,
)
    requires
        takes_short_path(setup),
        setup.classifier == ApiClassifier::TreeOnly,
        !setup.has_index,
        body_scores_fast(setup, engine, c, body, r),
    ensures
        r is Err <==> tree_case(body) is None,
        r matches Ok(bucket) ==> bucket == 0 || bucket == 5,
{
}

/// Scores a body.
pub fn score_body<
    F: Fn(&[u8]) -> u32,
    D: Fn(u32, u32) -> u32,
    P: Fn(&TreeCase<'_>, &Numbers) -> bool,
    N: Fn(&[u8]) -> u64,
    Q: Fn(Quantity) -> i16,
    V: Fn(&Vec16I, u16) -> u8,
    X: Fn(&[u8]) -> Option<u8>,
>(
    setup: &ApiSetup,
    engine: &Engine<F, D, P, N, Q, V, X>,
    c: &Constants,
    body: &[u8],
) -> (r: Result<u8, Unscored>)
    requires
        engine_runs(*engine),
        c.well_formed(),
    ensures
        body_scores(*setup, *engine, *c, body@, r),
{
    let classify = !setup.perf && !setup.log_search_avg && setup.classifier != ApiClassifier::Off;
    let fast = setup.parser == ApiParser::Fast;
    score(engine, c, classify, fast, setup.has_index, body)
}

/// Scores a body in the short path.
pub fn score_body_fast_bucket<
    F: Fn(&[u8]) -> u32,
    D: Fn(u32, u32) -> u32,
    P: Fn(&TreeCase<'_>, &Numbers) -> bool,
    N: Fn(&[u8]) -> u64,
    Q: Fn(Quantity) -> i16,
    V: Fn(&Vec16I, u16) -> u8,
    X: Fn(&[u8]) -> Option<u8>,
>(
    setup: &ApiSetup,
    engine: &Engine<F, D, P, N, Q, V, X>,
    c: &Constants,
    body: &[u8],
) -> (r: Result<u8, Unscored>)
    requires
        engine_runs(*engine),
        c.well_formed(),
    ensures
        body_scores_fast(*setup, *engine, *c, body@, r),
{
    let classify = setup.classifier != ApiClassifier::Off;
    score(engine, c, classify, true, setup.has_index, body)
}

/// Scores a body in the path that its setup asks for; the outcome is that of `score_body`.
pub fn score_request<
    F: Fn(&[u8]) -> u32,
    D: Fn(u32, u32) -> u32,
    P: Fn(&TreeCase<'_>, &Numbers) -> bool,
    N: Fn(&[u8]) -> u64,
    Q: Fn(Quantity) -> i16,
    V: Fn(&Vec16I, u16) -> u8,
    X: Fn(&[u8]) -> Option<u8>,
>(
    setup: &ApiSetup,
    engine: &Engine<F, D, P, N, Q, V, X>,
    c: &Constants,
    body: &[u8],
) -> (r: Result<u8, Unscored>)
    requires
        engine_runs(*engine),
        c.well_formed(),
    ensures
        body_scores(*setup, *engine, *c, body@, r),
{
    if !setup.perf && !setup.log_search_avg && setup.parser == ApiParser::Fast {
        score_body_fast_bucket(setup, engine, c, body)
    } else {
        score_body(setup, engine, c, body)
    }
}

/// The response to a scored body.
pub open spec fn score_response(r: Result<u8, Unscored>) -> Seq<u8> {
    match r {
        Ok(bucket) => plain_response(bucket as int),
        Err(_) => refusal_response(Refusal::BadRequest),
    }
}

/// The response to a scored body.
pub fn respond_to_score(r: Result<u8, Unscored>) -> (response: &'static [u8])
    ensures
        response@ == score_response(r),
{
    match r {
        Ok(bucket) => handoff_response_for_bucket(bucket),
        Err(_) => refuse(Refusal::BadRequest).response,
    }
}

/// The response that a request may get.
pub open spec fn is_response<
    F: Fn(&[u8]) -> u32,
    D: Fn(u32, u32) -> u32,
    P: Fn(&TreeCase<'_>, &Numbers) -> bool,
    N: Fn(&[u8]) -> u64,
    Q: Fn(Quantity) -> i16,
    V: Fn(&Vec16I, u16) -> u8,
    X: Fn(&[u8]) -> Option<u8>,
>(
    setup: ApiSetup,
    engine: Engine<F, D, P, N, Q, V, X>,
    c: Constants,
    body: Seq<u8>,
    route: Route,
    response: Seq<u8>,
) -> bool {
    match route {
        Route::Ready => response == ascii(READY_OK_RESPONSE@),
        Route::FraudScore => exists|r: Result<u8, Unscored>| #[trigger]
            body_scores(setup, engine, c, body, r) && response == score_response(r),
    }
}

/// The responses that a service may give, by the body and the route of a request.
pub open spec fn service<
    F: Fn(&[u8]) -> u32,
    D: Fn(u32, u32) -> u32,
    P: Fn(&TreeCase<'_>, &Numbers) -> bool,
    N: Fn(&[u8]) -> u64,
    Q: Fn(Quantity) -> i16,
    V: Fn(&Vec16I, u16) -> u8,
    X: Fn(&[u8]) -> Option<u8>,
>(
    setup: ApiSetup,
    engine: Engine<F, D, P, N, Q, V, X>,
    c: Constants,
) -> spec_fn(Seq<u8>, Route, Seq<u8>) -> bool {
    |body: Seq<u8>, route: Route, response: Seq<u8>|
        is_response(setup, engine, c, body, route, response)
}

/// The prepared response of a service that is ready.
pub fn ready_response() -> (response: &'static [u8])
    ensures
        response@ == ascii(READY_OK_RESPONSE@),
{
    proof {
        reveal_strlit("HTTP/1.1 200 OK\r\nContent-Length: 0\r\nConnection: keep-alive\r\n\r\n");
    }
    literal(READY_OK_RESPONSE)
}

/// Answers a request that has arrived in full.
pub fn process_request<
    F: Fn(&[u8]) -> u32,
    D: Fn(u32, u32) -> u32,
    P: Fn(&TreeCase<'_>, &Numbers) -> bool,
    N: Fn(&[u8]) -> u64,
    Q: Fn(Quantity) -> i16,
    V: Fn(&Vec16I, u16) -> u8,
    X: Fn(&[u8]) -> Option<u8>,
>(
    setup: &ApiSetup,
    engine: &Engine<F, D, P, N, Q, V, X>,
    c: &Constants,
    body: &[u8],
    route: Route,
) -> (response: &'static [u8])
    requires
        engine_runs(*engine),
        c.well_formed(),
    ensures
        is_response(*setup, *engine, *c, body@, route, response@),
{
    match route {
        Route::Ready => ready_response(),
        Route::FraudScore => {
            let r = score_request(setup, engine, c, body);
            respond_to_score(r)
        },
    }
}

/// The largest body of a raw frame.
pub const RAW_MAX_BODY_BYTES: usize = 8192;

/// The length that the head of a raw frame declares; none if there is no body or it is over the
/// limit.
pub open spec fn raw_length(high: u8, low: u8) -> Option<int> {
    let length = high * 256 + low;
    if length == 0 || length > RAW_MAX_BODY_BYTES {
        None
    } else {
        Some(length)
    }
}

/// Reads the head of a raw frame.
pub fn read_raw_length(high: u8, low: u8) -> (r: Option<usize>)
    ensures
        match r {
            Some(length) => raw_length(high, low) == Some(length as int),
            None => raw_length(high, low) is None,
        },
{
    let length: usize = high as usize * 256 + low as usize;
    if length == 0 || length > RAW_MAX_BODY_BYTES {
        None
    } else {
        Some(length)
    }
}

/// The reply to a raw frame.
pub open spec fn raw_code(r: Result<u8, Unscored>) -> u8 {
    match r {
        Ok(bucket) => bucket,
        Err(_) => RAW_BAD_REQUEST,
    }
}

/// The reply to a raw frame: the bucket, or the number that stands for a body that cannot be
/// scored.
pub fn raw_reply(r: Result<u8, Unscored>) -> (code: u8)
    ensures
        code == (match r {
            Ok(bucket) => bucket,
            Err(_) => RAW_BAD_REQUEST,
        }),
        code == raw_code(r),
{
    match r {
        Ok(bucket) => bucket,
        Err(_) => RAW_BAD_REQUEST,
    }
}

/// The length in front of a raw frame is read back as the length of its body.
pub proof fn law_raw_length_is_read_back(body: Seq<u8>)
    requires
        0 < body.len() <= RAW_MAX_BODY_BYTES,
    ensures
        raw_frame(body).len() == 2 + body.len(),
        raw_length(raw_frame(body)[0], raw_frame(body)[1]) == Some(body.len() as int),
        raw_frame(body).skip(2) == body,
{
    assert(raw_frame(body).skip(2) =~= body);
}

/// The answer to a health check.
pub open spec fn health_code(ready: bool) -> u16 {
    if ready {
        200u16
    } else {
        503u16
    }
}

/// The answer to a health check: 200 when the service is ready, 503 before.
pub fn health_status(ready: bool) -> (status: u16)
    ensures
        status == (if ready {
            200u16
        } else {
            503u16
        }),
        status == health_code(ready),
{
    if ready {
        200
    } else {
        503
    }
}

/// What the smallest server answers: it knows only whether the service is ready.
pub open spec fn ready_reply(request: Seq<u8>, ready: bool) -> Seq<u8> {
    if matches_at(request, ascii("GET /ready "@), 0) || matches_at(
        request,
        ascii("HEAD /ready "@),
        0,
    ) {
        if ready {
            ascii(READY_OK_RESPONSE@)
        } else {
            ascii(SERVICE_UNAVAILABLE_RESPONSE@)
        }
    } else if matches_at(request, ascii("GET "@), 0) || matches_at(request, ascii("HEAD "@), 0) {
        refusal_response(Refusal::NotFound)
    } else {
        refusal_response(Refusal::MethodNotAllowed)
    }
}

/// The prepared response of a service that is not ready.
pub fn unavailable_response() -> (response: &'static [u8])
    ensures
        response@ == ascii(SERVICE_UNAVAILABLE_RESPONSE@),
{
    proof {
        reveal_strlit(
            "HTTP/1.1 503 Service Unavailable\r\nContent-Length: 0\r\nConnection: close\r\n\r\n",
        );
    }
    literal(SERVICE_UNAVAILABLE_RESPONSE)
}

/// Answers a request to the smallest server.
pub fn answer_ready(request: &[u8], ready: bool) -> (response: &'static [u8])
    ensures
        response@ == ready_reply(request@, ready),
{
    proof {
        reveal_strlit("GET /ready ");
        reveal_strlit("HEAD /ready ");
        reveal_strlit("GET ");
        reveal_strlit("HEAD ");
    }
    if stands_at(request, literal("GET /ready "), 0) || stands_at(
        request,
        literal("HEAD /ready "),
        0,
    ) {
        if ready {
            ready_response()
        } else {
            unavailable_response()
        }
    } else if stands_at(request, literal("GET "), 0) || stands_at(request, literal("HEAD "), 0) {
        refuse(Refusal::NotFound).response
    } else {
        refuse(Refusal::MethodNotAllowed).response
    }
}

/// What stands in for the service answers, and whether it closes.
pub open spec fn placeholder_reply(request: Seq<u8>) -> (Seq<u8>, bool) {
    if matches_at(request, ascii("GET /ready "@), 0) {
        (ascii(READY_OK_RESPONSE@), false)
    } else {
        (refusal_response(Refusal::NotFound), true)
    }
}

/// What stands in for the service before it is there: it is always ready, and closes on anything
/// else.
pub fn answer_placeholder(request: &[u8]) -> (r: (&'static [u8], bool))
    ensures
        r.1 == !matches_at(request@, ascii("GET /ready "@), 0),
        r.0@ == (if matches_at(request@, ascii("GET /ready "@), 0) {
            ascii(READY_OK_RESPONSE@)
        } else {
            refusal_response(Refusal::NotFound)
        }),
        (r.0@, r.1) == placeholder_reply(request@),
{
    proof {
        reveal_strlit("GET /ready ");
    }
    if stands_at(request, literal("GET /ready "), 0) {
        (ready_response(), false)
    } else {
        (refuse(Refusal::NotFound).response, true)
    }
}

/// The path of a socket, which may stand behind its scheme.
pub open spec fn socket_path(listen: Seq<u8>) -> Seq<u8> {
    if matches_at(listen, ascii("unix:"@), 0) {
        listen.skip(5)
    } else {
        listen
    }
}

/// The path of the socket to listen on.
pub fn control_path(listen: &[u8]) -> (path: &[u8])
    ensures
        path@ == socket_path(listen@),
{
    proof {
        reveal_strlit("unix:");
    }
    if stands_at(listen, literal("unix:"), 0) {
        let end: usize = listen.len();
        assert(listen@.subrange(5, end as int) =~= listen@.skip(5));
        &listen[5..end]
    } else {
        listen
    }
}

/// The running average when a request is counted, and whether a line is due.
pub open spec fn average_counted(log: AverageLog, elapsed_us: u64) -> (AverageLog, bool) {
    let count = (log.count + 1) % 0x1_0000_0000_0000_0000;
    let total_us = (log.total_us + elapsed_us) % 0x1_0000_0000_0000_0000;
    (AverageLog { count: count as u64, total_us: total_us as u64 }, count % 10000 == 0)
}

/// The running average of the time a request takes.
#[derive(Debug, Clone, Copy, PartialEq, Eq, Structural)]
pub struct AverageLog {
    pub count: u64,
    pub total_us: u64,
}

impl AverageLog {
    pub fn new() -> (log: Self)
        ensures
            log == (AverageLog { count: 0, total_us: 0 }),
    {
        AverageLog { count: 0, total_us: 0 }
    }

    /// Counts a request; a line is due after every ten thousand.
    pub fn record(&mut self, elapsed_us: u64) -> (due: bool)
        ensures
            final(self).count == (old(self).count + 1) % 0x1_0000_0000_0000_0000,
            final(self).total_us == (old(self).total_us + elapsed_us) % 0x1_0000_0000_0000_0000,
            due == (final(self).count % 10000 == 0),
            (*final(self), due) == average_counted(*old(self), elapsed_us),
    {
        self.count = self.count.wrapping_add(1);
        self.total_us = self.total_us.wrapping_add(elapsed_us);
        self.count % 10000 == 0
    }
}

} // verus!
