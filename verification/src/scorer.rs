//! The classifier as one number: the bucket of a body.
use vstd::prelude::*;

use crate::api::{body_scores_fast, classifies, ApiClassifier, ApiSetup, Engine, Unscored};
use crate::classifier::{
    classify_approved, is_classified, law_one_verdict, may_classify, steady_caller, tree_case, Numbers,
    TreeCase,
};
use crate::fast_payload::{Constants, Quantity, Vec16I};

verus! {

/// The bucket that stands for a body that cannot be read.
pub const UNREADABLE: u8 = 255;

/// The bucket that a body may get.
pub open spec fn is_bucket<
    F: Fn(&[u8]) -> u32,
    D: Fn(u32, u32) -> u32,
    P: Fn(&TreeCase<'_>, &Numbers) -> bool,
>(read: F, divide: D, predict: P, body: Seq<u8>, bucket: u8) -> bool {
    match tree_case(body) {
        None => bucket == UNREADABLE,
        Some(case) => {
            ||| bucket == 0 && is_classified(read, divide, predict, case, true)
            ||| bucket == 5 && is_classified(read, divide, predict, case, false)
        },
    }
}

/// The bucket of a body: 0 if it is approved, 5 if it is denied, 255 if it cannot be read.
pub fn rinha_score_body<
    F: Fn(&[u8]) -> u32,
    D: Fn(u32, u32) -> u32,
    P: Fn(&TreeCase<'_>, &Numbers) -> bool,
>(body: &[u8], read: &F, divide: &D, predict: &P) -> (bucket: u8)
    requires
        forall|t: &[u8]| call_requires(*read, (t,)),
        forall|a: u32, b: u32| call_requires(*divide, (a, b)),
        forall|c: &TreeCase<'_>, n: &Numbers| call_requires(*predict, (c, n)),
    ensures
        is_bucket(*read, *divide, *predict, body@, bucket),
{
    match classify_approved(body, read, divide, predict) {
        Some(true) => 0,
        Some(false) => 5,
        None => UNREADABLE,
    }
}

/// A body without a byte cannot be read.
pub proof fn law_empty_is_unreadable(body: Seq<u8>)
    requires
        body.len() == 0,
    ensures
        tree_case(body) is None,
{
    reveal_strlit("\"transaction\":{\"amount\":");
}

/// The bucket is what the service scores that has nothing but the classifier: a body that cannot
/// be read is refused there.
pub proof fn law_bucket_is_the_score<
    F: Fn(&[u8]) -> u32,
    D: Fn(u32, u32) -> u32,
    P: Fn(&TreeCase<'_>, &Numbers) -> bool,
    N: Fn(&[u8]) -> u64,
    Q: Fn(Quantity) -> i16,
    V: Fn(&Vec16I, u16) -> u8,
    X: Fn(&[u8]) -> Option<u8>,
>(
    setup: ApiSetup,
    engine: Engine<F, D, P, N, Q, V, X>,
    c: Constants,
    body: Seq<u8>,
    bucket: u8,
)
    requires
        setup.classifier == ApiClassifier::TreeOnly,
        !setup.has_index,
    ensures
        is_bucket(engine.read, engine.divide, engine.predict, body, bucket) <==> (bucket == 0
            || bucket == 5 || bucket == UNREADABLE) && body_scores_fast(
            setup,
            engine,
            c,
            body,
            if bucket == UNREADABLE {
                Err(Unscored)
            } else {
                Ok(bucket)
            },
        ),
{
    if let Some(case) = tree_case(body) {
        assert(classifies(engine, body, Some(true)) == is_classified(
            engine.read,
            engine.divide,
            engine.predict,
            case,
            true,
        ));
        assert(classifies(engine, body, Some(false)) == is_classified(
            engine.read,
            engine.divide,
            engine.predict,
            case,
            false,
        ));
    }
}

/// The bucket of a verdict.
pub open spec fn verdict_bucket(r: Option<bool>) -> u8 {
    match r {
        Some(true) => 0,
        Some(false) => 5,
        None => UNREADABLE,
    }
}

/// The bucket of a body is that of its verdict, so it is 0, 5 or 255 and always the same.
pub proof fn law_bucket_is_the_verdict<
    F: Fn(&[u8]) -> u32,
    D: Fn(u32, u32) -> u32,
    P: Fn(&TreeCase<'_>, &Numbers) -> bool,
>(read: F, divide: D, predict: P, body: Seq<u8>, r: Option<bool>, bucket: u8)
    requires
        steady_caller(read, divide, predict),
        may_classify(read, divide, predict, body, r),
    ensures
        is_bucket(read, divide, predict, body, bucket) <==> bucket == verdict_bucket(r),
{
    if is_bucket(read, divide, predict, body, bucket) {
        let other = if bucket == UNREADABLE {
            None
        } else {
            Some(bucket == 0)
        };
        law_one_verdict(read, divide, predict, body, other, r);
    }
}

/// The service that has nothing but the classifier scores a body with its bucket, and refuses it
/// exactly if that is the bucket of a body that cannot be read.
pub proof fn law_score_is_the_bucket<
    F: Fn(&[u8]) -> u32,
    D: Fn(u32, u32) -> u32,
    P: Fn(&TreeCase<'_>, &Numbers) -> bool,
    N: Fn(&[u8]) -> u64,
    Q: Fn(Quantity) -> i16,
    V: Fn(&Vec16I, u16) -> u8,
    X: Fn(&[u8]) -> Option<u8>,
>(
    setup: ApiSetup,
    engine: Engine<F, D, P, N, Q, V, X>,
    c: Constants,
    body: Seq<u8>,
    r: Result<u8, Unscored>,
    bucket: u8,
)
    requires
        setup.classifier == ApiClassifier::TreeOnly,
        !setup.has_index,
        steady_caller(engine.read, engine.divide, engine.predict),
        body_scores_fast(setup, engine, c, body, r),
        is_bucket(engine.read, engine.divide, engine.predict, body, bucket),
    ensures
        bucket == 0 || bucket == 5 || bucket == UNREADABLE,
        r is Err <==> bucket == UNREADABLE,
        r matches Ok(score) ==> score == bucket,
{
    let verdict = match r {
        Ok(score) => Some(score == 0),
        Err(_) => None,
    };
    assert(may_classify(engine.read, engine.divide, engine.predict, body, verdict)) by {
        if tree_case(body) is Some {
            let approved = choose|approved: bool| #[trigger]
                classifies(engine, body, Some(approved)) && r == Ok::<u8, Unscored>(
                    if approved {
                        0
                    } else {
                        5
                    },
                );
            assert(classifies(engine, body, Some(approved)));
        }
    }
    law_bucket_is_the_verdict(
        engine.read,
        engine.divide,
        engine.predict,
        body,
        verdict,
        bucket,
    );
}

} // verus!
