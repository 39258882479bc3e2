//! The verdict on a score request.
use vstd::prelude::*;

use crate::bytes::{ascii, gives};
use crate::classifier::{
    at_most, category_risk, is_verdict, may_classify, numbers_of, predicts, ruled, tree_case,
    CaseView, Numbers, TreeCase,
};
use crate::datetime::instant;
use crate::payload::fields::{body_fields, quoted, FieldsView, Reading};
use crate::payload::value::Kind;

verus! {

/// A body has a verdict exactly if its fields can be read, and its times too.
pub proof fn law_readable_bodies_have_a_verdict<
    F: Fn(&[u8]) -> u32,
    D: Fn(u32, u32) -> u32,
    P: Fn(&TreeCase<'_>, &Numbers) -> bool,
>(read: F, divide: D, predict: P, body: Seq<u8>, r: Option<bool>)
    requires
        may_classify(read, divide, predict, body, r),
    ensures
        r is Some <==> (body_fields(
            body,
            (Reading { number: Kind::Decimal, count: Kind::Decimal, text: Kind::Text }),
        ) matches Some(f) && instant(f.requested_at) is Some && (f.last matches Some(last)
            ==> instant(last.timestamp) is Some)),
{
}

/// What the model is given of a body: its fields, when it was made, whether its merchant is one of
/// those in quotes in the list of known ones, and how long ago the transaction before was; none has
/// passed since one that lies ahead.
pub proof fn law_a_case_is_what_the_body_says(body: Seq<u8>, case: CaseView)
    requires
        tree_case(body) == Some(case),
    ensures
        body_fields(
            body,
            (Reading { number: Kind::Decimal, count: Kind::Decimal, text: Kind::Text }),
        ) == Some(case.fields),
        instant(case.fields.requested_at) == Some(case.requested),
        case.merchant_known <==> quoted(case.fields.known_merchants).contains(
            case.fields.merchant_id,
        ),
        case.fields.last is None <==> case.seconds_since_last is None,
        case.fields.last matches Some(last) ==> (instant(last.timestamp) matches Some(before)
            && if case.requested.epoch_seconds >= before.epoch_seconds {
            case.seconds_since_last->0 == case.requested.epoch_seconds - before.epoch_seconds
        } else {
            case.seconds_since_last->0 == 0
        }),
        case.risk_hundredths == category_risk(case.fields.merchant_mcc),
{
}

/// The risks of the categories that have one, in hundredths; any other counts as a half.
pub proof fn law_categories_have_their_risks(mcc: Seq<u8>)
    ensures
        category_risk(ascii("5411"@)) == 15,
        category_risk(ascii("5812"@)) == 30,
        category_risk(ascii("5912"@)) == 20,
        category_risk(ascii("5944"@)) == 45,
        category_risk(ascii("7801"@)) == 80,
        category_risk(ascii("7802"@)) == 75,
        category_risk(ascii("7995"@)) == 85,
        category_risk(ascii("4511"@)) == 35,
        category_risk(ascii("5311"@)) == 25,
        mcc != ascii("5411"@) && mcc != ascii("5812"@) && mcc != ascii("5912"@) && mcc != ascii(
            "5944"@,
        ) && mcc != ascii("7801"@) && mcc != ascii("7802"@) && mcc != ascii("7995"@) && mcc
            != ascii("4511"@) && mcc != ascii("5311"@) ==> category_risk(mcc) == 50,
{
    reveal_strlit("5411");
    reveal_strlit("5812");
    reveal_strlit("5912");
    reveal_strlit("5944");
    reveal_strlit("7801");
    reveal_strlit("7802");
    reveal_strlit("7995");
    reveal_strlit("4511");
    reveal_strlit("5311");
    let c5411 = ascii("5411"@);
    let c5812 = ascii("5812"@);
    let c5912 = ascii("5912"@);
    let c5944 = ascii("5944"@);
    let c7801 = ascii("7801"@);
    let c7802 = ascii("7802"@);
    let c7995 = ascii("7995"@);
    let c4511 = ascii("4511"@);
    let c5311 = ascii("5311"@);
    assert(c5411[0] == 53 && c5411[1] == 52 && c5411[2] == 49 && c5411[3] == 49);
    assert(c5812[0] == 53 && c5812[1] == 56 && c5812[2] == 49 && c5812[3] == 50);
    assert(c5912[0] == 53 && c5912[1] == 57 && c5912[2] == 49 && c5912[3] == 50);
    assert(c5944[0] == 53 && c5944[1] == 57 && c5944[2] == 52 && c5944[3] == 52);
    assert(c7801[0] == 55 && c7801[1] == 56 && c7801[2] == 48 && c7801[3] == 49);
    assert(c7802[0] == 55 && c7802[1] == 56 && c7802[2] == 48 && c7802[3] == 50);
    assert(c7995[0] == 55 && c7995[1] == 57 && c7995[2] == 57 && c7995[3] == 53);
    assert(c4511[0] == 52 && c4511[1] == 53 && c4511[2] == 49 && c4511[3] == 49);
    assert(c5311[0] == 53 && c5311[1] == 51 && c5311[2] == 49 && c5311[3] == 49);
}

/// The order of bit patterns is that of the numbers: positive ones rise, negative ones fall and come
/// before all others, the two zeros are one, and a pattern that is no number is in no order.
pub proof fn law_patterns_have_the_order_of_numbers(a: u32, b: u32)
    ensures
        a <= 0x7F80_0000 && b <= 0x7F80_0000 ==> (at_most(a, b) <==> a <= b),
        0x8000_0000 <= a <= 0xFF80_0000 && 0x8000_0000 <= b <= 0xFF80_0000 ==> (at_most(a, b)
            <==> b <= a),
        0x8000_0000 <= a <= 0xFF80_0000 && b <= 0x7F80_0000 ==> at_most(a, b),
        a <= 0x7F80_0000 && 0x8000_0000 <= b <= 0xFF80_0000 ==> (at_most(a, b) <==> a == 0 && b
            == 0x8000_0000),
        0x7F80_0000 < a < 0x8000_0000 || a > 0xFF80_0000 ==> !at_most(a, b) && !at_most(b, a),
{
}

/// A purchase of at least 5000 in five or more installments, the sixth or a later one of the day, at
/// least 150 km from home, at a merchant that the customer does not know and that deals in games of
/// chance or the like, is denied, whatever else the body and the model say.
pub proof fn law_clearly_risky_purchases_are_denied<
    F: Fn(&[u8]) -> u32,
    D: Fn(u32, u32) -> u32,
    P: Fn(&TreeCase<'_>, &Numbers) -> bool,
>(read: F, divide: D, predict: P, body: Seq<u8>, f: FieldsView, r: Option<bool>)
    requires
        tree_case(body) matches Some(case) && case.fields == f,
        forall|x: u32| #[trigger] gives(read, f.amount, x) ==> 0x459C_4000 <= x <= 0x7F80_0000,
        forall|x: u32| #[trigger]
            gives(read, f.installments, x) ==> 0x40A0_0000 <= x <= 0x7F80_0000,
        forall|x: u32| #[trigger]
            gives(read, f.tx_count_24h, x) ==> 0x40C0_0000 <= x <= 0x7F80_0000,
        forall|x: u32| #[trigger]
            gives(read, f.km_from_home, x) ==> 0x4316_0000 <= x <= 0x7F80_0000,
        !quoted(f.known_merchants).contains(f.merchant_id),
        f.merchant_mcc == ascii("7995"@) || f.merchant_mcc == ascii("7801"@) || f.merchant_mcc
            == ascii("7802"@),
        may_classify(read, divide, predict, body, r),
    ensures
        r == Some(false),
{
    let case = tree_case(body)->0;
    let n = choose|n: Numbers| #[trigger]
        numbers_of(read, divide, case.fields, n) && is_verdict(predict, case, n, r->0);
    assert(!case.merchant_known);
    assert(ruled(case, n) == Some(false));
}

/// A purchase of at most 500, in at most three installments, among the first five of the day, at
/// most 50 km from home, of little more than half the customer's average at most, at a known
/// merchant of everyday goods, is approved, whatever else the body and the model say. An average
/// that is not above zero counts as one.
pub proof fn law_clearly_safe_purchases_are_approved<
    F: Fn(&[u8]) -> u32,
    D: Fn(u32, u32) -> u32,
    P: Fn(&TreeCase<'_>, &Numbers) -> bool,
>(read: F, divide: D, predict: P, body: Seq<u8>, f: FieldsView, r: Option<bool>)
    requires
        tree_case(body) matches Some(case) && case.fields == f,
        forall|x: u32| #[trigger]
            gives(read, f.amount, x) ==> x <= 0x43FA_0000 || 0x8000_0000 <= x <= 0xFF80_0000,
        forall|x: u32| #[trigger]
            gives(read, f.installments, x) ==> x <= 0x4040_0000 || 0x8000_0000 <= x <= 0xFF80_0000,
        forall|x: u32| #[trigger]
            gives(read, f.tx_count_24h, x) ==> x <= 0x40A0_0000 || 0x8000_0000 <= x <= 0xFF80_0000,
        forall|x: u32| #[trigger]
            gives(read, f.km_from_home, x) ==> x <= 0x4248_0000 || 0x8000_0000 <= x <= 0xFF80_0000,
        forall|amount: u32, average: u32, by: u32, ratio: u32|
            #![trigger gives(read, f.amount, amount), gives(read, f.customer_avg, average), call_ensures(divide, (amount, by), ratio)]
            gives(read, f.amount, amount) && gives(read, f.customer_avg, average) && by == (if average
                == 0 || 0x8000_0000 <= average <= 0xFF80_0000 {
                0x3F80_0000
            } else {
                average
            }) && call_ensures(divide, (amount, by), ratio) ==> ratio <= 0x3F00_00A8 || 0x8000_0000
                <= ratio <= 0xFF80_0000,
        quoted(f.known_merchants).contains(f.merchant_id),
        f.merchant_mcc == ascii("5411"@) || f.merchant_mcc == ascii("5812"@) || f.merchant_mcc
            == ascii("5912"@) || f.merchant_mcc == ascii("5311"@),
        may_classify(read, divide, predict, body, r),
    ensures
        r == Some(true),
{
    let case = tree_case(body)->0;
    let n = choose|n: Numbers| #[trigger]
        numbers_of(read, divide, case.fields, n) && is_verdict(predict, case, n, r->0);
    assert(case.merchant_known);
    assert(gives(read, f.amount, n.amount) && gives(read, f.customer_avg, n.customer_avg));
    assert(ruled(case, n) == Some(true));
}

/// Any other purchase, one that misses a limit of both rules, is denied exactly if the model calls
/// the case a fraud. The model is given the case and its numbers, each as the caller reads its own
/// field.
pub proof fn law_other_purchases_are_left_to_the_model<
    F: Fn(&[u8]) -> u32,
    D: Fn(u32, u32) -> u32,
    P: Fn(&TreeCase<'_>, &Numbers) -> bool,
>(read: F, divide: D, predict: P, body: Seq<u8>, f: FieldsView, fraud: bool)
    requires
        tree_case(body) matches Some(case) && case.fields == f,
        may_classify(read, divide, predict, body, Some(!fraud)),
        ({
            ||| !quoted(f.known_merchants).contains(f.merchant_id)
            ||| f.merchant_mcc != ascii("5411"@) && f.merchant_mcc != ascii("5812"@)
                && f.merchant_mcc != ascii("5912"@) && f.merchant_mcc != ascii("5311"@)
            ||| forall|x: u32| #[trigger]
                gives(read, f.amount, x) ==> 0x43FA_0000 < x < 0x8000_0000 || x > 0xFF80_0000
            ||| forall|x: u32| #[trigger]
                gives(read, f.installments, x) ==> 0x4040_0000 < x < 0x8000_0000 || x > 0xFF80_0000
            ||| forall|x: u32| #[trigger]
                gives(read, f.tx_count_24h, x) ==> 0x40A0_0000 < x < 0x8000_0000 || x > 0xFF80_0000
            ||| forall|x: u32| #[trigger]
                gives(read, f.km_from_home, x) ==> 0x4248_0000 < x < 0x8000_0000 || x > 0xFF80_0000
            ||| forall|a: u32, by: u32, x: u32|
                #![trigger gives(read, f.amount, a), call_ensures(divide, (a, by), x)]
                gives(read, f.amount, a) && call_ensures(divide, (a, by), x) ==> 0x3F00_00A8 < x
                    < 0x8000_0000 || x > 0xFF80_0000
        }),
        ({
            ||| quoted(f.known_merchants).contains(f.merchant_id)
            ||| f.merchant_mcc != ascii("7995"@) && f.merchant_mcc != ascii("7801"@)
                && f.merchant_mcc != ascii("7802"@)
            ||| forall|x: u32| #[trigger] gives(read, f.amount, x) ==> x < 0x459C_4000 || x > 0x7F80_0000
            ||| forall|x: u32| #[trigger] gives(read, f.installments, x) ==> x < 0x40A0_0000 || x > 0x7F80_0000
            ||| forall|x: u32| #[trigger] gives(read, f.tx_count_24h, x) ==> x < 0x40C0_0000 || x > 0x7F80_0000
            ||| forall|x: u32| #[trigger] gives(read, f.km_from_home, x) ==> x < 0x4316_0000 || x > 0x7F80_0000
        }),
    ensures
        exists|c: &TreeCase<'_>, n: Numbers|
            {
                &&& c@ == tree_case(body)->0
                &&& gives(read, f.amount, n.amount)
                &&& gives(read, f.installments, n.installments)
                &&& gives(read, f.customer_avg, n.customer_avg)
                &&& gives(read, f.tx_count_24h, n.tx_count_24h)
                &&& gives(read, f.merchant_avg, n.merchant_avg)
                &&& gives(read, f.km_from_home, n.km_from_home)
                &&& f.last is None <==> n.km_from_current is None
                &&& f.last matches Some(last) ==> gives(
                    read,
                    last.km_from_current,
                    n.km_from_current->0,
                )
                &&& call_ensures(
                    divide,
                    (
                        n.amount,
                        if n.customer_avg == 0 || 0x8000_0000 <= n.customer_avg <= 0xFF80_0000 {
                            0x3F80_0000u32
                        } else {
                            n.customer_avg
                        },
                    ),
                    n.amount_ratio,
                )
                &&& #[trigger] call_ensures(predict, (c, &n), fraud)
            },
{
    let case = tree_case(body)->0;
    let n = choose|n: Numbers| #[trigger]
        numbers_of(read, divide, case.fields, n) && is_verdict(predict, case, n, !fraud);
    assert(ruled(case, n) is None);
    assert(predicts(predict, case, n, fraud));
    let c = choose|c: &TreeCase<'_>| c@ == case && call_ensures(predict, (c, &n), fraud);
    assert(call_ensures(predict, (c, &n), fraud));
}

} // verus!
