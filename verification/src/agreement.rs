//! One answer for a body: whatever the path, the parser and the server, a body gets the score of its
//! verdict, and one response.
use vstd::prelude::*;

use crate::api::{
    asks_classifier, body_scores, body_scores_fast, classifies, finds_vector, is_response,
    score_response, scores, searches, service, ApiClassifier, ApiParser, ApiSetup, Engine, Unscored,
};
use crate::bytes::{ascii, gives, steady};
use crate::classifier::{law_one_verdict, may_classify, steady_caller, tree_case, Numbers, TreeCase};
use crate::fast_payload::{
    is_vectorized, law_one_vector, query, steady_numbers, Constants, Quantity, Vec16I,
};
use crate::head::Route;
use crate::ring;
use crate::scoring::READY_OK_RESPONSE;
use crate::serving::{
    are_successive, arrived, is_run, law_requests_are_answered_in_order, lemma_successive_stay,
    served, Served, Step,
};

verus! {

/// The score of a verdict.
pub open spec fn verdict_score(approved: bool) -> Result<u8, Unscored> {
    Ok(
        if approved {
            0
        } else {
            5
        },
    )
}

/// A body scores its verdict where the classifier is asked; one without a verdict is left to the
/// index, and refused where there is none.
proof fn lemma_score_is_the_verdict<
    F: Fn(&[u8]) -> u32,
    D: Fn(u32, u32) -> u32,
    P: Fn(&TreeCase<'_>, &Numbers) -> bool,
    N: Fn(&[u8]) -> u64,
    Q: Fn(Quantity) -> i16,
    V: Fn(&Vec16I, u16) -> u8,
    X: Fn(&[u8]) -> Option<u8>,
>(
    engine: Engine<F, D, P, N, Q, V, X>,
    c: Constants,
    fast: bool,
    has_index: bool,
    body: Seq<u8>,
    verdict: Option<bool>,
    r: Result<u8, Unscored>,
)
    requires
        steady_caller(engine.read, engine.divide, engine.predict),
        may_classify(engine.read, engine.divide, engine.predict, body, verdict),
    ensures
        scores(engine, c, true, fast, has_index, body, r) <==> match verdict {
            Some(approved) => r == verdict_score(approved),
            None => if has_index {
                searches(engine, c, fast, body, r)
            } else {
                r is Err
            },
        },
{
    if let Some(approved) = verdict {
        assert(classifies(engine, body, Some(approved)));
        assert forall|other: bool| #[trigger]
            classifies(engine, body, Some(other)) implies other == approved by {
            law_one_verdict(
                engine.read,
                engine.divide,
                engine.predict,
                body,
                Some(other),
                verdict,
            );
        }
    }
}

/// Where the classifier is asked, a body scores 0 if it is approved and 5 if it is denied, whatever
/// the parser; a body without a verdict is left to the index, and refused where there is none.
pub proof fn law_score_is_the_verdict<
    F: Fn(&[u8]) -> u32,
    D: Fn(u32, u32) -> u32,
    P: Fn(&TreeCase<'_>, &Numbers) -> bool,
    N: Fn(&[u8]) -> u64,
    Q: Fn(Quantity) -> i16,
    V: Fn(&Vec16I, u16) -> u8,
    X: Fn(&[u8]) -> Option<u8>,
>(
    setup: ApiSetup,
    engine: Engine<F, D, P, N, Q, V, X>,
    c: Constants,
    body: Seq<u8>,
    verdict: Option<bool>,
    r: Result<u8, Unscored>,
)
    requires
        asks_classifier(setup),
        steady_caller(engine.read, engine.divide, engine.predict),
        may_classify(engine.read, engine.divide, engine.predict, body, verdict),
    ensures
        body_scores(setup, engine, c, body, r) <==> match verdict {
            Some(approved) => r == verdict_score(approved),
            None => if setup.has_index {
                searches(engine, c, setup.parser == ApiParser::Fast, body, r)
            } else {
                r is Err
            },
        },
{
    let fast = setup.parser == ApiParser::Fast;
    lemma_score_is_the_verdict(engine, c, fast, setup.has_index, body, verdict, r);
}

/// The short path scores the verdict of a body wherever there is a classifier.
pub proof fn law_short_path_scores_the_verdict<
    F: Fn(&[u8]) -> u32,
    D: Fn(u32, u32) -> u32,
    P: Fn(&TreeCase<'_>, &Numbers) -> bool,
    N: Fn(&[u8]) -> u64,
    Q: Fn(Quantity) -> i16,
    V: Fn(&Vec16I, u16) -> u8,
    X: Fn(&[u8]) -> Option<u8>,
>(
    setup: ApiSetup,
    engine: Engine<F, D, P, N, Q, V, X>,
    c: Constants,
    body: Seq<u8>,
    verdict: Option<bool>,
    r: Result<u8, Unscored>,
)
    requires
        setup.classifier != ApiClassifier::Off,
        steady_caller(engine.read, engine.divide, engine.predict),
        may_classify(engine.read, engine.divide, engine.predict, body, verdict),
    ensures
        body_scores_fast(setup, engine, c, body, r) <==> match verdict {
            Some(approved) => r == verdict_score(approved),
            None => if setup.has_index {
                searches(engine, c, true, body, r)
            } else {
                r is Err
            },
        },
{
    lemma_score_is_the_verdict(engine, c, true, setup.has_index, body, verdict, r);
}

/// The bucket that a search may give for a vector in the cell of a key.
pub open spec fn finds<V: Fn(&Vec16I, u16) -> u8>(
    search: V,
    vector: Seq<i16>,
    key: u16,
    bucket: u8,
) -> bool {
    exists|v: &Vec16I| v@ == vector && call_ensures(search, (v, key), bucket)
}

/// What the service calls gives one answer for the same question.
pub open spec fn steady_engine<
    F: Fn(&[u8]) -> u32,
    D: Fn(u32, u32) -> u32,
    P: Fn(&TreeCase<'_>, &Numbers) -> bool,
    N: Fn(&[u8]) -> u64,
    Q: Fn(Quantity) -> i16,
    V: Fn(&Vec16I, u16) -> u8,
    X: Fn(&[u8]) -> Option<u8>,
>(engine: Engine<F, D, P, N, Q, V, X>) -> bool {
    &&& steady_caller(engine.read, engine.divide, engine.predict)
    &&& steady_numbers(engine.number, engine.quantize)
    &&& forall|vector: Seq<i16>, key: u16, a: u8, b: u8|
        #![trigger finds(engine.search_vector, vector, key, a), finds(
            engine.search_vector,
            vector,
            key,
            b,
        )]
        finds(engine.search_vector, vector, key, a) && finds(engine.search_vector, vector, key, b)
            ==> a == b
    &&& steady(engine.search_body)
}

/// What the fast parser reads of a body has one vector, so it finds one bucket.
proof fn lemma_one_find<
    F: Fn(&[u8]) -> u32,
    D: Fn(u32, u32) -> u32,
    P: Fn(&TreeCase<'_>, &Numbers) -> bool,
    N: Fn(&[u8]) -> u64,
    Q: Fn(Quantity) -> i16,
    V: Fn(&Vec16I, u16) -> u8,
    X: Fn(&[u8]) -> Option<u8>,
>(
    engine: Engine<F, D, P, N, Q, V, X>,
    c: Constants,
    body: Seq<u8>,
    a: u8,
    b: u8,
)
    requires
        steady_engine(engine),
        finds_vector(engine, c, body, Some(a)),
        finds_vector(engine, c, body, Some(b)),
    ensures
        a == b,
{
    let q = query(body)->0;
    let (v, j) = choose|v: &Vec16I, key: u16|
        is_vectorized(engine.number, engine.quantize, c, q, v@, key) && call_ensures(
            engine.search_vector,
            (v, key),
            a,
        );
    let (w, k) = choose|v: &Vec16I, key: u16|
        is_vectorized(engine.number, engine.quantize, c, q, v@, key) && call_ensures(
            engine.search_vector,
            (v, key),
            b,
        );
    law_one_vector(engine.number, engine.quantize, c, q, v@, j, w@, k);
    assert(finds(engine.search_vector, v@, j, a));
    assert(finds(engine.search_vector, v@, j, b));
}

/// A body has one score.
pub proof fn law_one_score<
    F: Fn(&[u8]) -> u32,
    D: Fn(u32, u32) -> u32,
    P: Fn(&TreeCase<'_>, &Numbers) -> bool,
    N: Fn(&[u8]) -> u64,
    Q: Fn(Quantity) -> i16,
    V: Fn(&Vec16I, u16) -> u8,
    X: Fn(&[u8]) -> Option<u8>,
>(
    setup: ApiSetup,
    engine: Engine<F, D, P, N, Q, V, X>,
    c: Constants,
    body: Seq<u8>,
    a: Result<u8, Unscored>,
    b: Result<u8, Unscored>,
)
    requires
        steady_engine(engine),
        body_scores(setup, engine, c, body, a),
        body_scores(setup, engine, c, body, b),
    ensures
        a == b,
{
    let fast = setup.parser == ApiParser::Fast;
    if asks_classifier(setup) && tree_case(body) is Some {
        law_one_verdict(
            engine.read,
            engine.divide,
            engine.predict,
            body,
            Some(a == verdict_score(true)),
            Some(b == verdict_score(true)),
        );
    } else if setup.has_index {
        if fast && query(body) is Some {
            lemma_one_find(engine, c, body, a->Ok_0, b->Ok_0);
        } else {
            let x = match a {
                Ok(bucket) => Some(bucket),
                Err(_) => None,
            };
            let y = match b {
                Ok(bucket) => Some(bucket),
                Err(_) => None,
            };
            assert(gives(engine.search_body, body, x));
            assert(gives(engine.search_body, body, y));
        }
    }
    if a is Err && b is Err {
        assert(a->Err_0 == Unscored && b->Err_0 == Unscored);
    }
}

/// A request has one response: the ready response on that route, and that of its score on the other.
pub proof fn law_one_response<
    F: Fn(&[u8]) -> u32,
    D: Fn(u32, u32) -> u32,
    P: Fn(&TreeCase<'_>, &Numbers) -> bool,
    N: Fn(&[u8]) -> u64,
    Q: Fn(Quantity) -> i16,
    V: Fn(&Vec16I, u16) -> u8,
    X: Fn(&[u8]) -> Option<u8>,
>(
    setup: ApiSetup,
    engine: Engine<F, D, P, N, Q, V, X>,
    c: Constants,
    body: Seq<u8>,
    route: Route,
    r: Result<u8, Unscored>,
    response: Seq<u8>,
)
    requires
        steady_engine(engine),
        body_scores(setup, engine, c, body, r),
    ensures
        is_response(setup, engine, c, body, route, response) <==> response == match route {
            Route::Ready => ascii(READY_OK_RESPONSE@),
            Route::FraudScore => score_response(r),
        },
{
    if is_response(setup, engine, c, body, route, response) && route is FraudScore {
        let other = choose|other: Result<u8, Unscored>| #[trigger]
            body_scores(setup, engine, c, body, other) && response == score_response(other);
        law_one_score(setup, engine, c, body, r, other);
    }
}

/// Whoever scores gives one response for the same body and route.
pub open spec fn is_steady(score: spec_fn(Seq<u8>, Route, Seq<u8>) -> bool) -> bool {
    forall|body: Seq<u8>, route: Route, a: Seq<u8>, b: Seq<u8>|
        #![trigger score(body, route, a), score(body, route, b)]
        score(body, route, a) && score(body, route, b) ==> a == b
}

/// A service whose parts give one answer for the same question gives one response for the same
/// request.
pub proof fn law_service_is_steady<
    F: Fn(&[u8]) -> u32,
    D: Fn(u32, u32) -> u32,
    P: Fn(&TreeCase<'_>, &Numbers) -> bool,
    N: Fn(&[u8]) -> u64,
    Q: Fn(Quantity) -> i16,
    V: Fn(&Vec16I, u16) -> u8,
    X: Fn(&[u8]) -> Option<u8>,
>(
    setup: ApiSetup,
    engine: Engine<F, D, P, N, Q, V, X>,
    c: Constants,
)
    requires
        steady_engine(engine),
    ensures
        is_steady(service(setup, engine, c)),
{
    let score = service(setup, engine, c);
    assert forall|body: Seq<u8>, route: Route, a: Seq<u8>, b: Seq<u8>|
        #![trigger score(body, route, a), score(body, route, b)]
        score(body, route, a) && score(body, route, b) implies a == b by {
        if route is FraudScore {
            let r = choose|r: Result<u8, Unscored>| #[trigger]
                body_scores(setup, engine, c, body, r) && a == score_response(r);
            law_one_response(setup, engine, c, body, route, r, a);
            law_one_response(setup, engine, c, body, route, r, b);
        }
    }
}

/// The first requests of those that stand one behind the other do so too.
proof fn lemma_first_are_successive(
    bytes: Seq<u8>,
    done: Seq<Served>,
    count: int,
    score: spec_fn(Seq<u8>, Route, Seq<u8>) -> bool,
)
    requires
        are_successive(bytes, done, score),
        0 <= count <= done.len(),
    ensures
        are_successive(bytes, done.take(count), score),
    decreases done.len(),
{
    if count < done.len() {
        lemma_first_are_successive(bytes, done.drop_last(), count, score);
        assert(done.drop_last().take(count) =~= done.take(count));
    } else {
        assert(done.take(count) =~= done);
    }
}

/// As many requests at the start of the same bytes are the same requests, with the same responses.
proof fn lemma_served_alike(
    bytes: Seq<u8>,
    a: Seq<Served>,
    b: Seq<Served>,
    score: spec_fn(Seq<u8>, Route, Seq<u8>) -> bool,
)
    requires
        is_steady(score),
        are_successive(bytes, a, score),
        are_successive(bytes, b, score),
        a.len() == b.len(),
    ensures
        a == b,
    decreases a.len(),
{
    if a.len() > 0 {
        lemma_served_alike(bytes, a.drop_last(), b.drop_last(), score);
        assert(a.last() == b.last());
        assert(a =~= a.drop_last().push(a.last()));
        assert(b =~= b.drop_last().push(b.last()));
    }
    assert(a =~= b);
}

/// Of two connections on which the same bytes arrive, one having got further than the other, the
/// requests that both have answered are the same and have the same responses.
proof fn lemma_answered_alike(
    ours: Seq<u8>,
    more: Seq<u8>,
    a: Seq<Served>,
    b: Seq<Served>,
    score: spec_fn(Seq<u8>, Route, Seq<u8>) -> bool,
    index: int,
)
    requires
        is_steady(score),
        are_successive(ours, a, score),
        are_successive(ours + more, b, score),
        0 <= index < a.len(),
        index < b.len(),
    ensures
        a[index] == b[index],
{
    lemma_successive_stay(ours, more, a, score);
    lemma_first_are_successive(ours + more, a, index + 1, score);
    lemma_first_are_successive(ours + more, b, index + 1, score);
    lemma_served_alike(ours + more, a.take(index + 1), b.take(index + 1), score);
    assert(a.take(index + 1)[index] == a[index]);
    assert(b.take(index + 1)[index] == b[index]);
}

/// Both servers answer alike: of a connection of the event loop and one of the ring on which the
/// same bytes arrive, one having got further than the other, the requests that both have answered
/// are the same and have the same responses.
pub proof fn law_servers_answer_alike(
    run: Seq<Step>,
    ring_run: Seq<ring::Step>,
    multi: bool,
    score: spec_fn(Seq<u8>, Route, Seq<u8>) -> bool,
    index: int,
)
    requires
        is_steady(score),
        is_run(run, score),
        ring::is_run(ring_run, multi, score),
        run.len() > 0,
        ring_run.len() > 0,
        arrived(run).is_prefix_of(ring::arrived(ring_run)) || ring::arrived(
            ring_run,
        ).is_prefix_of(arrived(run)),
        0 <= index < served(run).len(),
        index < ring::served(ring_run).len(),
    ensures
        served(run)[index] == ring::served(ring_run)[index],
{
    let ours = arrived(run);
    let theirs = ring::arrived(ring_run);
    let a = served(run);
    let b = ring::served(ring_run);
    law_requests_are_answered_in_order(run, score);
    ring::law_ring_answers_in_order(ring_run, multi, score);
    if ours.is_prefix_of(theirs) {
        assert(ours + theirs.skip(ours.len() as int) =~= theirs);
        lemma_answered_alike(ours, theirs.skip(ours.len() as int), a, b, score, index);
    } else {
        assert(theirs + ours.skip(theirs.len() as int) =~= ours);
        lemma_answered_alike(theirs, ours.skip(theirs.len() as int), b, a, score, index);
    }
}

} // verus!
