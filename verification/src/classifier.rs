//! The classifier: clear cases are decided by rule, the others by a tree model.
//!
//! Numbers are single-precision ones. The caller reads and divides them; here they are held by
//! their bit patterns.
use vstd::prelude::*;

use crate::bytes::{ascii, gives, index_from, literal, same_bytes, steady};
use crate::datetime::{instant, parse_iso8601, FastDateTime};
use crate::payload::fields::{
    body_fields, first_label, known_merchants_contains, law_surroundings_do_not_matter, quoted,
    read_fields, FastFields, FieldsView, LastView, Reading,
};
use crate::payload::value::Kind;

verus! {

/// One.
pub const ONE: u32 = 0x3F80_0000;

/// Three.
pub const THREE: u32 = 0x4040_0000;

/// Five.
pub const FIVE: u32 = 0x40A0_0000;

/// Six.
pub const SIX: u32 = 0x40C0_0000;

/// Fifty.
pub const FIFTY: u32 = 0x4248_0000;

/// A hundred and fifty.
pub const HUNDRED_FIFTY: u32 = 0x4316_0000;

/// Five hundred.
pub const FIVE_HUNDRED: u32 = 0x43FA_0000;

/// Five thousand.
pub const FIVE_THOUSAND: u32 = 0x459C_4000;

/// A little over a half: the number nearest to 0.50001.
pub const ABOUT_HALF: u32 = 0x3F00_00A8;

/// The bit pattern stands for no number.
pub open spec fn is_nan(bits: u32) -> bool {
    0x7F80_0000 < bits < 0x8000_0000 || bits > 0xFF80_0000
}

/// The place of a bit pattern in the order of the numbers; the two zeros share one.
pub open spec fn rank(bits: u32) -> int {
    if bits < 0x8000_0000 {
        bits as int
    } else {
        0x8000_0000 - bits
    }
}

/// The number is at most the other one.
pub open spec fn at_most(a: u32, b: u32) -> bool {
    !is_nan(a) && !is_nan(b) && rank(a) <= rank(b)
}

/// Whether a number is at most another one; nothing holds of a pattern that stands for none.
pub fn single_at_most(a: u32, b: u32) -> (r: bool)
    ensures
        r == at_most(a, b),
{
    let a_nan = (0x7F80_0000 < a && a < 0x8000_0000) || a > 0xFF80_0000;
    let b_nan = (0x7F80_0000 < b && b < 0x8000_0000) || b > 0xFF80_0000;
    if a_nan || b_nan {
        false
    } else if a < 0x8000_0000 {
        if b < 0x8000_0000 {
            a <= b
        } else {
            a == 0 && b == 0x8000_0000
        }
    } else if b < 0x8000_0000 {
        true
    } else {
        b <= a
    }
}

/// How the classifier reads a body.
pub open spec fn fast_reading() -> Reading {
    Reading { number: Kind::Decimal, count: Kind::Decimal, text: Kind::Text }
}

/// Reads the values that stand in a body.
pub fn parse_fast_fields<'a>(body: &'a [u8]) -> (r: Option<FastFields<'a>>)
    ensures
        match r {
            Some(fields) => body_fields(body@, fast_reading()) == Some(fields@),
            None => body_fields(body@, fast_reading()) is None,
        },
{
    read_fields(
        body,
        Reading { number: Kind::Decimal, count: Kind::Decimal, text: Kind::Text },
    )
}

/// A request to be classified: its values, when it was made, and what follows from them without
/// arithmetic on its numbers.
#[derive(Debug, Clone, Copy)]
pub struct TreeCase<'a> {
    pub fields: FastFields<'a>,
    pub requested: FastDateTime,
    /// The seconds since the transaction before, where there is one; none have passed if it lies
    /// ahead.
    pub seconds_since_last: Option<u64>,
    pub merchant_known: bool,
    /// The risk of the merchant's category, in hundredths.
    pub risk_hundredths: u8,
}

/// The model of `TreeCase`.
pub struct CaseView {
    pub fields: FieldsView,
    pub requested: FastDateTime,
    pub seconds_since_last: Option<u64>,
    pub merchant_known: bool,
    pub risk_hundredths: u8,
}

impl<'a> View for TreeCase<'a> {
    type V = CaseView;

    open spec fn view(&self) -> CaseView {
        CaseView {
            fields: self.fields@,
            requested: self.requested,
            seconds_since_last: self.seconds_since_last,
            merchant_known: self.merchant_known,
            risk_hundredths: self.risk_hundredths,
        }
    }
}

/// The risk of a merchant category, in hundredths; a category without one counts as a half.
pub open spec fn category_risk(mcc: Seq<u8>) -> u8 {
    if mcc == ascii("5411"@) {
        15
    } else if mcc == ascii("5812"@) {
        30
    } else if mcc == ascii("5912"@) {
        20
    } else if mcc == ascii("5944"@) {
        45
    } else if mcc == ascii("7801"@) {
        80
    } else if mcc == ascii("7802"@) {
        75
    } else if mcc == ascii("7995"@) {
        85
    } else if mcc == ascii("4511"@) {
        35
    } else if mcc == ascii("5311"@) {
        25
    } else {
        50
    }
}

/// The merchant categories of everyday purchases.
pub open spec fn safe_category(mcc: Seq<u8>) -> bool {
    mcc == ascii("5411"@) || mcc == ascii("5812"@) || mcc == ascii("5912"@) || mcc == ascii(
        "5311"@,
    )
}

/// The merchant categories of games of chance and the like.
pub open spec fn risky_category(mcc: Seq<u8>) -> bool {
    mcc == ascii("7995"@) || mcc == ascii("7801"@) || mcc == ascii("7802"@)
}

/// The risk of a merchant category, in hundredths.
pub fn mcc_risk(mcc: &[u8]) -> (risk: u8)
    ensures
        risk == category_risk(mcc@),
{
    proof {
        reveal_strlit("5411");
        reveal_strlit("5812");
        reveal_strlit("5912");
        reveal_strlit("5944");
        reveal_strlit("7801");
        reveal_strlit("7802");
        reveal_strlit("7995");
        reveal_strlit("4511");
        reveal_strlit("5311");
    }
    if same_bytes(mcc, literal("5411")) {
        15
    } else if same_bytes(mcc, literal("5812")) {
        30
    } else if same_bytes(mcc, literal("5912")) {
        20
    } else if same_bytes(mcc, literal("5944")) {
        45
    } else if same_bytes(mcc, literal("7801")) {
        80
    } else if same_bytes(mcc, literal("7802")) {
        75
    } else if same_bytes(mcc, literal("7995")) {
        85
    } else if same_bytes(mcc, literal("4511")) {
        35
    } else if same_bytes(mcc, literal("5311")) {
        25
    } else {
        50
    }
}

/// Whether the merchant category is one of everyday purchases.
pub fn is_safe_mcc(mcc: &[u8]) -> (r: bool)
    ensures
        r == safe_category(mcc@),
{
    proof {
        reveal_strlit("5411");
        reveal_strlit("5812");
        reveal_strlit("5912");
        reveal_strlit("5311");
    }
    same_bytes(mcc, literal("5411")) || same_bytes(mcc, literal("5812")) || same_bytes(
        mcc,
        literal("5912"),
    ) || same_bytes(mcc, literal("5311"))
}

/// Whether the merchant category is one of games of chance and the like.
pub fn is_risky_mcc(mcc: &[u8]) -> (r: bool)
    ensures
        r == risky_category(mcc@),
{
    proof {
        reveal_strlit("7995");
        reveal_strlit("7801");
        reveal_strlit("7802");
    }
    same_bytes(mcc, literal("7995")) || same_bytes(mcc, literal("7801")) || same_bytes(
        mcc,
        literal("7802"),
    )
}

/// Whether a merchant stands in the list of those the customer knows.
pub fn known_merchant_in_array(array: &[u8], merchant_id: &[u8]) -> (found: bool)
    ensures
        found == quoted(array@).contains(merchant_id@),
{
    known_merchants_contains(array, merchant_id)
}

/// The seconds from one point in time to another, none if the other comes first.
pub open spec fn seconds_between(from: FastDateTime, to: FastDateTime) -> u64 {
    if to.epoch_seconds > from.epoch_seconds {
        (to.epoch_seconds - from.epoch_seconds) as u64
    } else {
        0
    }
}

/// The seconds since the transaction before; nothing at all where its time cannot be read.
pub open spec fn since_last(last: Option<LastView>, requested: FastDateTime) -> Option<
    Option<u64>,
> {
    match last {
        None => Some(None),
        Some(last) => match instant(last.timestamp) {
            None => None,
            Some(before) => Some(Some(seconds_between(before, requested))),
        },
    }
}

/// What a body asks to be classified; nothing if it cannot be read.
pub open spec fn tree_case(body: Seq<u8>) -> Option<CaseView> {
    match body_fields(body, fast_reading()) {
        None => None,
        Some(fields) => match instant(fields.requested_at) {
            None => None,
            Some(requested) => match since_last(fields.last, requested) {
                None => None,
                Some(seconds_since_last) => Some(
                    CaseView {
                        fields,
                        requested,
                        seconds_since_last,
                        merchant_known: quoted(fields.known_merchants).contains(
                            fields.merchant_id,
                        ),
                        risk_hundredths: category_risk(fields.merchant_mcc),
                    },
                ),
            },
        },
    }
}

/// Reads what a body asks to be classified.
pub fn read_case<'a>(body: &'a [u8]) -> (r: Option<TreeCase<'a>>)
    ensures
        match r {
            Some(case) => tree_case(body@) == Some(case@),
            None => tree_case(body@) is None,
        },
{
    let fields = match parse_fast_fields(body) {
        None => {
            return None;
        },
        Some(fields) => fields,
    };
    let requested = match parse_iso8601(fields.requested_at) {
        None => {
            return None;
        },
        Some(requested) => requested,
    };
    let seconds_since_last = match fields.last {
        None => None,
        Some(last) => match parse_iso8601(last.timestamp) {
            None => {
                return None;
            },
            Some(before) => Some(
                if requested.epoch_seconds > before.epoch_seconds {
                    (requested.epoch_seconds - before.epoch_seconds) as u64
                } else {
                    0
                },
            ),
        },
    };
    Some(
        TreeCase {
            fields,
            requested,
            seconds_since_last,
            merchant_known: known_merchant_in_array(fields.known_merchants, fields.merchant_id),
            risk_hundredths: mcc_risk(fields.merchant_mcc),
        },
    )
}

/// The numbers of a request.
#[derive(Debug, Clone, Copy, PartialEq, Eq, Structural)]
pub struct Numbers {
    pub amount: u32,
    pub installments: u32,
    pub customer_avg: u32,
    pub tx_count_24h: u32,
    pub merchant_avg: u32,
    pub km_from_home: u32,
    pub km_from_current: Option<u32>,
    /// The amount over the customer's average.
    pub amount_ratio: u32,
}

/// A purchase like the customer's others: small, close to home, at a known merchant.
pub open spec fn clearly_safe(case: CaseView, n: Numbers) -> bool {
    &&& at_most(n.amount, FIVE_HUNDRED)
    &&& at_most(n.amount_ratio, ABOUT_HALF)
    &&& at_most(n.installments, THREE)
    &&& at_most(n.tx_count_24h, FIVE)
    &&& case.merchant_known
    &&& at_most(n.km_from_home, FIFTY)
    &&& safe_category(case.fields.merchant_mcc)
}

/// A purchase unlike the customer's others: large, far away, at an unknown merchant.
pub open spec fn clearly_risky(case: CaseView, n: Numbers) -> bool {
    &&& at_most(FIVE_THOUSAND, n.amount)
    &&& at_most(FIVE, n.installments)
    &&& at_most(SIX, n.tx_count_24h)
    &&& !case.merchant_known
    &&& at_most(HUNDRED_FIFTY, n.km_from_home)
    &&& risky_category(case.fields.merchant_mcc)
}

/// What the rules decide, where they do: whether the purchase is approved.
pub open spec fn ruled(case: CaseView, n: Numbers) -> Option<bool> {
    if clearly_safe(case, n) {
        Some(true)
    } else if clearly_risky(case, n) {
        Some(false)
    } else {
        None
    }
}

/// No purchase is both clearly safe and clearly risky.
pub proof fn law_rules_exclude_each_other(case: CaseView, n: Numbers)
    ensures
        !(clearly_safe(case, n) && clearly_risky(case, n)),
{
}

/// Decides a clear case.
pub fn decide_by_rule(case: &TreeCase<'_>, n: &Numbers) -> (r: Option<bool>)
    ensures
        r == ruled(case@, *n),
{
    if single_at_most(n.amount, FIVE_HUNDRED) && single_at_most(n.amount_ratio, ABOUT_HALF)
        && single_at_most(n.installments, THREE) && single_at_most(n.tx_count_24h, FIVE)
        && case.merchant_known && single_at_most(n.km_from_home, FIFTY) && is_safe_mcc(
        case.fields.merchant_mcc,
    ) {
        return Some(true);
    }
    if single_at_most(FIVE_THOUSAND, n.amount) && single_at_most(FIVE, n.installments)
        && single_at_most(SIX, n.tx_count_24h) && !case.merchant_known && single_at_most(
        HUNDRED_FIFTY,
        n.km_from_home,
    ) && is_risky_mcc(case.fields.merchant_mcc) {
        return Some(false);
    }
    None
}

/// The customer's average to divide by: an average that is not above zero counts as one.
pub open spec fn divisor(customer_avg: u32) -> u32 {
    if at_most(customer_avg, 0) {
        ONE
    } else {
        customer_avg
    }
}

/// The numbers of a case, as the caller reads and divides them.
pub open spec fn numbers_of<F: Fn(&[u8]) -> u32, D: Fn(u32, u32) -> u32>(
    read: F,
    divide: D,
    fields: FieldsView,
    n: Numbers,
) -> bool {
    &&& gives(read, fields.amount, n.amount)
    &&& gives(read, fields.installments, n.installments)
    &&& gives(read, fields.customer_avg, n.customer_avg)
    &&& gives(read, fields.tx_count_24h, n.tx_count_24h)
    &&& gives(read, fields.merchant_avg, n.merchant_avg)
    &&& gives(read, fields.km_from_home, n.km_from_home)
    &&& match fields.last {
        None => n.km_from_current is None,
        Some(last) => n.km_from_current matches Some(km) && gives(read, last.km_from_current, km),
    }
    &&& call_ensures(divide, (n.amount, divisor(n.customer_avg)), n.amount_ratio)
}

/// Reads the numbers of a case.
pub fn read_numbers<F: Fn(&[u8]) -> u32, D: Fn(u32, u32) -> u32>(
    case: &TreeCase<'_>,
    read: &F,
    divide: &D,
) -> (n: Numbers)
    requires
        forall|t: &[u8]| call_requires(*read, (t,)),
        forall|a: u32, b: u32| call_requires(*divide, (a, b)),
    ensures
        numbers_of(*read, *divide, case@.fields, n),
{
    let fields = case.fields;
    let amount: u32 = read(fields.amount);
    let installments: u32 = read(fields.installments);
    let customer_avg: u32 = read(fields.customer_avg);
    let tx_count_24h: u32 = read(fields.tx_count_24h);
    let merchant_avg: u32 = read(fields.merchant_avg);
    let km_from_home: u32 = read(fields.km_from_home);
    let km_from_current: Option<u32> = match fields.last {
        None => None,
        Some(last) => Some(read(last.km_from_current)),
    };
    let by: u32 = if single_at_most(customer_avg, 0) {
        ONE
    } else {
        customer_avg
    };
    let amount_ratio: u32 = divide(amount, by);
    Numbers {
        amount,
        installments,
        customer_avg,
        tx_count_24h,
        merchant_avg,
        km_from_home,
        km_from_current,
        amount_ratio,
    }
}

/// `predict` calls a case with these numbers a fraud, or calls it none.
pub open spec fn predicts<P: Fn(&TreeCase<'_>, &Numbers) -> bool>(
    predict: P,
    case: CaseView,
    n: Numbers,
    fraud: bool,
) -> bool {
    exists|c: &TreeCase<'_>| c@ == case && call_ensures(predict, (c, &n), fraud)
}

/// The verdict on a case: what the rules say, else the opposite of what the model predicts.
pub open spec fn is_verdict<P: Fn(&TreeCase<'_>, &Numbers) -> bool>(
    predict: P,
    case: CaseView,
    n: Numbers,
    approved: bool,
) -> bool {
    match ruled(case, n) {
        Some(decided) => approved == decided,
        None => predicts(predict, case, n, !approved),
    }
}

/// The verdict on a case whose numbers the caller reads and divides.
pub open spec fn is_classified<
    F: Fn(&[u8]) -> u32,
    D: Fn(u32, u32) -> u32,
    P: Fn(&TreeCase<'_>, &Numbers) -> bool,
>(read: F, divide: D, predict: P, case: CaseView, approved: bool) -> bool {
    exists|n: Numbers| #[trigger]
        numbers_of(read, divide, case.fields, n) && is_verdict(predict, case, n, approved)
}

/// What the classifier may make of a body: a verdict, or nothing if the body cannot be read.
pub open spec fn may_classify<
    F: Fn(&[u8]) -> u32,
    D: Fn(u32, u32) -> u32,
    P: Fn(&TreeCase<'_>, &Numbers) -> bool,
>(read: F, divide: D, predict: P, body: Seq<u8>, r: Option<bool>) -> bool {
    match (tree_case(body), r) {
        (None, None) => true,
        (Some(case), Some(approved)) => is_classified(read, divide, predict, case, approved),
        _ => false,
    }
}

/// Whether the purchase that a body describes is approved; nothing if the body cannot be read.
/// `read` gives the bits of the number that a decimal text stands for, `divide` those of a
/// quotient, and `predict` tells a fraud.
pub fn classify_approved<
    F: Fn(&[u8]) -> u32,
    D: Fn(u32, u32) -> u32,
    P: Fn(&TreeCase<'_>, &Numbers) -> bool,
>(body: &[u8], read: &F, divide: &D, predict: &P) -> (r: Option<bool>)
    requires
        forall|t: &[u8]| call_requires(*read, (t,)),
        forall|a: u32, b: u32| call_requires(*divide, (a, b)),
        forall|c: &TreeCase<'_>, n: &Numbers| call_requires(*predict, (c, n)),
    ensures
        may_classify(*read, *divide, *predict, body@, r),
{
    let case = match read_case(body) {
        None => {
            return None;
        },
        Some(case) => case,
    };
    let n = read_numbers(&case, read, divide);
    let approved = match decide_by_rule(&case, &n) {
        Some(approved) => approved,
        None => {
            let fraud = predict(&case, &n);
            assert(predicts(*predict, case@, n, fraud));
            !fraud
        },
    };
    assert(numbers_of(*read, *divide, case@.fields, n) && is_verdict(*predict, case@, n, approved));
    Some(approved)
}

/// What the caller hands in gives one answer for the same question.
pub open spec fn steady_caller<
    F: Fn(&[u8]) -> u32,
    D: Fn(u32, u32) -> u32,
    P: Fn(&TreeCase<'_>, &Numbers) -> bool,
>(read: F, divide: D, predict: P) -> bool {
    &&& steady(read)
    &&& forall|a: u32, b: u32, x: u32, y: u32|
        #![trigger call_ensures(divide, (a, b), x), call_ensures(divide, (a, b), y)]
        call_ensures(divide, (a, b), x) && call_ensures(divide, (a, b), y) ==> x == y
    &&& forall|case: CaseView, n: Numbers, x: bool, y: bool|
        #![trigger predicts(predict, case, n, x), predicts(predict, case, n, y)]
        predicts(predict, case, n, x) && predicts(predict, case, n, y) ==> x == y
}

/// A body has one verdict.
pub proof fn law_one_verdict<
    F: Fn(&[u8]) -> u32,
    D: Fn(u32, u32) -> u32,
    P: Fn(&TreeCase<'_>, &Numbers) -> bool,
>(read: F, divide: D, predict: P, body: Seq<u8>, a: Option<bool>, b: Option<bool>)
    requires
        steady_caller(read, divide, predict),
        may_classify(read, divide, predict, body, a),
        may_classify(read, divide, predict, body, b),
    ensures
        a == b,
{
    if let Some(case) = tree_case(body) {
        let x = choose|n: Numbers| #[trigger]
            numbers_of(read, divide, case.fields, n) && is_verdict(predict, case, n, a->0);
        let y = choose|n: Numbers| #[trigger]
            numbers_of(read, divide, case.fields, n) && is_verdict(predict, case, n, b->0);
        assert(x == y);
    }
}

/// What stands around a body does not change what it asks to be classified: bytes before it in
/// which, up to the body, the label that the fields start with does not start, and any bytes behind
/// it.
pub proof fn law_case_ignores_surroundings(before: Seq<u8>, body: Seq<u8>, behind: Seq<u8>)
    requires
        tree_case(body) is Some,
        body.last() == 125,
        index_from(before + body, first_label(), 0) matches Some(at) && at >= before.len(),
    ensures
        tree_case(before + body + behind) == tree_case(body),
{
    law_surroundings_do_not_matter(before, body, behind, fast_reading());
}

/// What stands around a body does not change the verdict.
pub proof fn law_verdict_ignores_surroundings<
    F: Fn(&[u8]) -> u32,
    D: Fn(u32, u32) -> u32,
    P: Fn(&TreeCase<'_>, &Numbers) -> bool,
>(
    read: F,
    divide: D,
    predict: P,
    before: Seq<u8>,
    body: Seq<u8>,
    behind: Seq<u8>,
    approved: bool,
    r: Option<bool>,
)
    requires
        steady_caller(read, divide, predict),
        may_classify(read, divide, predict, body, Some(approved)),
        may_classify(read, divide, predict, before + body + behind, r),
        body.last() == 125,
        index_from(before + body, first_label(), 0) matches Some(at) && at >= before.len(),
    ensures
        r == Some(approved),
{
    law_case_ignores_surroundings(before, body, behind);
    law_one_verdict(read, divide, predict, body, Some(approved), r);
}

} // verus!
