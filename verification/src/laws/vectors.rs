//! The vector and the key of a score request.
use vstd::prelude::*;

use crate::bytes::gives;
use crate::datetime::{instant, lemma_instant_parts};
use crate::decimal::{all_digits, digits_value, is_digit};
use crate::fast_payload::{
    is_vector, is_vectorized, law_key_tells_its_parts, query, reals_of, Constants, Quantity, Query,
    Reals,
};
use crate::payload::fields::{body_fields, quoted, FieldsView, Reading};
use crate::payload::value::Kind;

verus! {

/// A body can be searched for exactly if its fields can be read, and its times too.
pub proof fn law_a_query_is_what_the_body_says(body: Seq<u8>)
    ensures
        query(body) is Some <==> (body_fields(
            body,
            (Reading { number: Kind::Real, count: Kind::Count, text: Kind::Plain }),
        ) matches Some(f) && instant(f.requested_at) is Some && (f.last matches Some(last)
            ==> instant(last.timestamp) is Some)),
        query(body) matches Some(q) ==> {
            &&& body_fields(
                body,
                (Reading { number: Kind::Real, count: Kind::Count, text: Kind::Plain }),
            ) == Some(q.fields)
            &&& instant(q.fields.requested_at) == Some(q.requested)
            &&& match q.fields.last {
                None => q.last is None,
                Some(last) => q.last is Some && instant(last.timestamp) == q.last,
            }
        },
{
}

/// Whether a purchase is online, with the card present and at an unknown merchant stands in the
/// vector and in the key alike, whatever else the body says: the merchant is unknown exactly if its
/// name is not one of those in quotes in the list.
pub proof fn law_flags_stand_in_vector_and_key<F: Fn(&[u8]) -> u64, Q: Fn(Quantity) -> i16>(
    number: F,
    quantize: Q,
    c: Constants,
    body: Seq<u8>,
    out: Seq<i16>,
    key: u16,
)
    requires
        query(body) is Some,
        is_vectorized(number, quantize, c, query(body)->0, out, key),
    ensures
        out[9] == 10000 <==> query(body)->0.fields.is_online,
        out[9] == 10000 || out[9] == 0,
        out[10] == 10000 <==> query(body)->0.fields.card_present,
        out[10] == 10000 || out[10] == 0,
        out[11] == 10000 <==> !quoted(query(body)->0.fields.known_merchants).contains(
            query(body)->0.fields.merchant_id,
        ),
        out[11] == 10000 || out[11] == 0,
        out[9] == 10000 <==> (key >> 12) & 1 == 1,
        out[10] == 10000 <==> (key >> 11) & 1 == 1,
        out[11] == 10000 <==> (key >> 10) & 1 == 1,
        query(body)->0.last is Some <==> (key >> 9) & 1 == 1,
        query(body)->0.last is Some <==> (key >> 8) & 1 == 1,
        (key >> 3) & 31 == query(body)->0.requested.hour,
        key & 7 == query(body)->0.requested.day_of_week,
        key < 8192,
{
    let q = query(body)->0;
    lemma_instant_parts(q.fields.requested_at);
    law_key_tells_its_parts(q);
    assert((key >> 12) & 1 == key / 4096 % 2) by (bit_vector);
    assert((key >> 11) & 1 == key / 2048 % 2) by (bit_vector);
    assert((key >> 10) & 1 == key / 1024 % 2) by (bit_vector);
    assert((key >> 9) & 1 == key / 512 % 2) by (bit_vector);
    assert((key >> 8) & 1 == key / 256 % 2) by (bit_vector);
    assert((key >> 3) & 31 == key / 8 % 32) by (bit_vector);
    assert(key & 7 == key % 8) by (bit_vector);
}

/// The hour stands in the vector as the nearest ten thousandth of the last one, 23, and the day of
/// the week as that of the last one, 6.
pub proof fn law_times_stand_in_the_vector<F: Fn(&[u8]) -> u64, Q: Fn(Quantity) -> i16>(
    number: F,
    quantize: Q,
    c: Constants,
    body: Seq<u8>,
    out: Seq<i16>,
    key: u16,
)
    requires
        query(body) is Some,
        is_vectorized(number, quantize, c, query(body)->0, out, key),
    ensures
        -23 < 2 * (23 * out[3] - 10000 * query(body)->0.requested.hour) < 23,
        -6 < 2 * (6 * out[4] - 10000 * query(body)->0.requested.day_of_week) < 6,
        query(body)->0.last is None ==> out[5] == -10000 && out[6] == -10000,
        query(body)->0.last matches Some(before) ==> exists|seconds: u64|
            {
                &&& seconds == before.epoch_seconds - query(body)->0.requested.epoch_seconds
                    || seconds == query(body)->0.requested.epoch_seconds - before.epoch_seconds
                &&& #[trigger] call_ensures(
                    quantize,
                    (Quantity::SecondsSinceLast(seconds),),
                    out[5],
                )
            },
{
    let q = query(body)->0;
    lemma_instant_parts(q.fields.requested_at);
    let hour = q.requested.hour as int;
    let day = q.requested.day_of_week as int;
    lemma_levels(hour, day);
    assert(out[3] == (hour * 20000 + 23) / 46 && out[4] == (day * 20000 + 6) / 12);
    if let Some(before) = q.last {
        let n = choose|n: Reals| #[trigger]
            reals_of(number, q.fields, n) && is_vector(quantize, c, q, n, out);
        lemma_seconds_fit(q);
        let seconds = crate::fast_payload::seconds_apart(q.requested, before);
        assert(call_ensures(quantize, (Quantity::SecondsSinceLast(seconds),), out[5]));
    }
}

/// The levels of an hour and a day are the nearest ones.
proof fn lemma_levels(hour: int, day: int)
    ensures
        -23 < 2 * (23 * ((hour * 20000 + 23) / 46) - 10000 * hour) < 23,
        -6 < 2 * (6 * ((day * 20000 + 6) / 12) - 10000 * day) < 6,
{
    let x = hour * 20000 + 23;
    let y = day * 20000 + 6;
    assert(46 * (x / 46) <= x < 46 * (x / 46) + 46);
    assert(12 * (y / 12) <= y < 12 * (y / 12) + 12);
    assert((12 * (y / 12) - day * 20000) % 4 == 0);
}

/// The seconds between two points in time are not negative and fit 64 bits.
proof fn lemma_seconds_fit(q: Query)
    requires
        q.last is Some,
    ensures
        crate::fast_payload::seconds_apart(q.requested, q.last->0) == q.requested.epoch_seconds
            - q.last->0.epoch_seconds || crate::fast_payload::seconds_apart(
            q.requested,
            q.last->0,
        ) == q.last->0.epoch_seconds - q.requested.epoch_seconds,
{
}

/// Each quantity stands in the vector at its place, quantized from what the caller reads of its own
/// field: the amount, the installments, the amount over the customer's average, which counts as the
/// most where the average is zero, the distances, the transactions of a day and the merchant's
/// average. The last two places are empty.
pub proof fn law_quantities_stand_in_the_vector<F: Fn(&[u8]) -> u64, Q: Fn(Quantity) -> i16>(
    number: F,
    quantize: Q,
    c: Constants,
    body: Seq<u8>,
    out: Seq<i16>,
    key: u16,
    f: FieldsView,
)
    requires
        query(body) matches Some(q) && q.fields == f,
        is_vectorized(number, quantize, c, query(body)->0, out, key),
    ensures
        out.len() == 16,
        exists|bits: u64| #[trigger]
            gives(number, f.amount, bits) && call_ensures(
                quantize,
                (Quantity::Amount(bits),),
                out[0],
            ),
        call_ensures(
            quantize,
            (Quantity::Installments(digits_value(f.installments) as u32),),
            out[1],
        ),
        exists|amount: u64, average: u64| #[trigger]
            gives(number, f.amount, amount) && #[trigger] gives(number, f.customer_avg, average)
                && (if average == 0 || average == 0x8000_0000_0000_0000 {
                out[2] == 10000
            } else {
                call_ensures(quantize, (Quantity::AmountOverAverage(amount, average),), out[2])
            }),
        f.last matches Some(last) ==> exists|bits: u64| #[trigger]
            gives(number, last.km_from_current, bits) && call_ensures(
                quantize,
                (Quantity::KmFromCurrent(bits),),
                out[6],
            ),
        exists|bits: u64| #[trigger]
            gives(number, f.km_from_home, bits) && call_ensures(
                quantize,
                (Quantity::KmFromHome(bits),),
                out[7],
            ),
        call_ensures(
            quantize,
            (Quantity::TxCount(digits_value(f.tx_count_24h) as u32),),
            out[8],
        ),
        exists|bits: u64| #[trigger]
            gives(number, f.merchant_avg, bits) && call_ensures(
                quantize,
                (Quantity::MerchantAverage(bits),),
                out[13],
            ),
        out[14] == 0,
        out[15] == 0,
{
    let q = query(body)->0;
    let n = choose|n: Reals| #[trigger]
        reals_of(number, q.fields, n) && is_vector(quantize, c, q, n, out);
    assert(gives(number, f.amount, n.amount));
    assert(gives(number, f.customer_avg, n.customer_avg));
    assert(gives(number, f.km_from_home, n.km_from_home));
    assert(gives(number, f.merchant_avg, n.merchant_avg));
    if let Some(last) = f.last {
        assert(gives(number, last.km_from_current, n.km_from_current->0));
    }
}

/// The risk of the merchant's category stands in the vector: that of the four digits of the
/// category, and a half where it is not four digits.
pub proof fn law_the_risk_stands_in_the_vector<F: Fn(&[u8]) -> u64, Q: Fn(Quantity) -> i16>(
    number: F,
    quantize: Q,
    c: Constants,
    body: Seq<u8>,
    out: Seq<i16>,
    key: u16,
    mcc: Seq<u8>,
)
    requires
        c.well_formed(),
        query(body) matches Some(q) && q.fields.merchant_mcc == mcc,
        is_vectorized(number, quantize, c, query(body)->0, out, key),
    ensures
        if mcc.len() == 4 && 48 <= mcc[0] <= 57 && 48 <= mcc[1] <= 57 && 48 <= mcc[2] <= 57 && 48
            <= mcc[3] <= 57 {
            out[12] == c.mcc_risk_i16@[(mcc[0] - 48) * 1000 + (mcc[1] - 48) * 100 + (mcc[2] - 48)
                * 10 + (mcc[3] - 48)]
        } else {
            out[12] == 5000
        },
{
    if mcc.len() == 4 {
        reveal_with_fuel(digits_value, 5);
        let (a, b, d, e) = (mcc[0], mcc[1], mcc[2], mcc[3]);
        assert(mcc.drop_last() =~= seq![a, b, d]);
        assert(seq![a, b, d].drop_last() =~= seq![a, b]);
        assert(seq![a, b].drop_last() =~= seq![a]);
        assert(seq![a].drop_last() =~= seq![]);
        if all_digits(mcc) {
            assert(is_digit(mcc[0]) && is_digit(mcc[1]) && is_digit(mcc[2]) && is_digit(mcc[3]));
        } else {
            assert(!(is_digit(a) && is_digit(b) && is_digit(d) && is_digit(e))) by {
                if is_digit(a) && is_digit(b) && is_digit(d) && is_digit(e) {
                    assert forall|i: int| 0 <= i < mcc.len() implies is_digit(#[trigger] mcc[i]) by {
                        assert(i == 0 || i == 1 || i == 2 || i == 3);
                    }
                }
            }
        }
    }
}

} // verus!
