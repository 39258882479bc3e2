//! From the body of a score request to the vector that is searched for and the key of its cell.
//!
//! Numbers are double-precision ones. The caller reads and quantizes them; here they are held by
//! their bit patterns.
use vstd::prelude::*;

use crate::bytes::{gives, index_from, steady};
use crate::datetime::{instant, lemma_instant_parts, parse_iso8601, FastDateTime};
use crate::decimal::{all_digits, digits_value, is_digit};
use crate::payload::fields::{
    body_fields, first_label, known_merchants_contains,
    law_fields_between_bytes_are_read_back, law_read_fields_fit, law_surroundings_do_not_matter,
    quoted, read_fields, written_fields, FastFields, FieldsView, LastView, Reading,
};
use crate::payload::value::{number_ends, of_kind, parse_u32_at, Kind};
use crate::request::lemma_run_is;

verus! {

/// A quantized vector.
pub type Vec16I = [i16; 16];

/// The risk of each merchant category, quantized.
#[derive(Debug)]
pub struct Constants {
    pub mcc_risk_i16: Vec<i16>,
}

impl Constants {
    /// There is a risk for each category of four digits.
    pub open spec fn well_formed(&self) -> bool {
        self.mcc_risk_i16@.len() == 10000
    }

    /// The risks, if there is one for each category.
    pub fn new(mcc_risk_i16: Vec<i16>) -> (r: Option<Self>)
        ensures
            match r {
                Some(c) => c.well_formed() && c.mcc_risk_i16@ == mcc_risk_i16@,
                None => mcc_risk_i16@.len() != 10000,
            },
    {
        if mcc_risk_i16.len() == 10000 {
            Some(Constants { mcc_risk_i16 })
        } else {
            None
        }
    }
}

/// What is quantized: a number over its limit, held between zero and one and taken in ten
/// thousandths.
#[derive(Debug, Clone, Copy, PartialEq, Eq, Structural)]
pub enum Quantity {
    Amount(u64),
    Installments(u32),
    /// The amount over the customer's average, and that over its limit.
    AmountOverAverage(u64, u64),
    /// The time since the transaction before, in seconds; its limit is in minutes.
    SecondsSinceLast(u64),
    KmFromCurrent(u64),
    KmFromHome(u64),
    TxCount(u32),
    MerchantAverage(u64),
}

/// How a body is read here.
pub open spec fn vector_reading() -> Reading {
    Reading { number: Kind::Real, count: Kind::Count, text: Kind::Plain }
}

/// Four digits stand for a merchant category; any other text for none, the number behind the
/// last category.
pub open spec fn category(mcc: Seq<u8>) -> nat {
    if mcc.len() == 4 && all_digits(mcc) {
        digits_value(mcc)
    } else {
        10000
    }
}

/// The merchant category that a text stands for.
pub fn fast_parse_mcc(mcc: &[u8]) -> (r: usize)
    ensures
        r == category(mcc@),
        r <= 10000,
{
    if mcc.len() != 4 {
        return 10000;
    }
    let a: u8 = mcc[0];
    let b: u8 = mcc[1];
    let c: u8 = mcc[2];
    let d: u8 = mcc[3];
    if a < 48 || a > 57 || b < 48 || b > 57 || c < 48 || c > 57 || d < 48 || d > 57 {
        assert(!is_digit(mcc@[0]) || !is_digit(mcc@[1]) || !is_digit(mcc@[2]) || !is_digit(mcc@[3]));
        return 10000;
    }
    proof {
        reveal_with_fuel(digits_value, 5);
        assert(mcc@.drop_last() =~= seq![a, b, c]);
        assert(seq![a, b, c].drop_last() =~= seq![a, b]);
        assert(seq![a, b].drop_last() =~= seq![a]);
        assert(seq![a].drop_last() =~= seq![]);
    }
    (a - 48) as usize * 1000 + (b - 48) as usize * 100 + (c - 48) as usize * 10 + (d - 48) as usize
}

/// An hour of the day as a part of the last one, in ten thousandths, to the nearest.
pub open spec fn hour_level(hour: int) -> int {
    (hour * 20000 + 23) / 46
}

/// A day of the week as a part of the last one, in ten thousandths, to the nearest.
pub open spec fn day_level(day: int) -> int {
    (day * 20000 + 6) / 12
}

/// The bit pattern of a zero.
pub open spec fn is_zero(bits: u64) -> bool {
    bits == 0 || bits == 0x8000_0000_0000_0000
}

/// The seconds between two points in time.
pub open spec fn seconds_apart(a: FastDateTime, b: FastDateTime) -> u64 {
    if a.epoch_seconds >= b.epoch_seconds {
        (a.epoch_seconds - b.epoch_seconds) as u64
    } else {
        (b.epoch_seconds - a.epoch_seconds) as u64
    }
}

/// A request that can be searched for: its fields, when it was made, and when the transaction
/// before was.
pub struct Query {
    pub fields: FieldsView,
    pub requested: FastDateTime,
    pub last: Option<FastDateTime>,
}

/// What a body asks to be searched for; nothing if it cannot be read.
pub open spec fn query(body: Seq<u8>) -> Option<Query> {
    match body_fields(body, vector_reading()) {
        None => None,
        Some(fields) => match instant(fields.requested_at) {
            None => None,
            Some(requested) => match fields.last {
                None => Some(Query { fields, requested, last: None }),
                Some(last) => match instant(last.timestamp) {
                    None => None,
                    Some(before) => Some(Query { fields, requested, last: Some(before) }),
                },
            },
        },
    }
}

/// The customer does not know the merchant.
pub open spec fn merchant_unknown(fields: FieldsView) -> bool {
    !quoted(fields.known_merchants).contains(fields.merchant_id)
}

pub open spec fn bit(value: bool) -> int {
    if value {
        1
    } else {
        0
    }
}

/// The key of the cell of a request: from the high bits on, whether it is online, with the card
/// present, at an unknown merchant, twice whether there is a transaction before, the hour and the
/// day of the week.
pub open spec fn cell_key(q: Query) -> int {
    bit(q.fields.is_online) * 4096 + bit(q.fields.card_present) * 2048 + bit(
        merchant_unknown(q.fields),
    ) * 1024 + bit(q.last is Some) * 768 + q.requested.hour * 8 + q.requested.day_of_week
}

/// The numbers of a request.
#[derive(Debug, Clone, Copy, PartialEq, Eq, Structural)]
pub struct Reals {
    pub amount: u64,
    pub customer_avg: u64,
    pub merchant_avg: u64,
    pub km_from_home: u64,
    pub km_from_current: Option<u64>,
}

/// The numbers of a request, as the caller reads them.
pub open spec fn reals_of<F: Fn(&[u8]) -> u64>(number: F, fields: FieldsView, n: Reals) -> bool {
    &&& gives(number, fields.amount, n.amount)
    &&& gives(number, fields.customer_avg, n.customer_avg)
    &&& gives(number, fields.merchant_avg, n.merchant_avg)
    &&& gives(number, fields.km_from_home, n.km_from_home)
    &&& match fields.last {
        None => n.km_from_current is None,
        Some(last) => n.km_from_current matches Some(km) && gives(
            number,
            last.km_from_current,
            km,
        ),
    }
}

/// The vector of a request, given its numbers and how quantities are quantized.
pub open spec fn is_vector<Q: Fn(Quantity) -> i16>(
    quantize: Q,
    c: Constants,
    q: Query,
    n: Reals,
    out: Seq<i16>,
) -> bool {
    &&& out.len() == 16
    &&& call_ensures(quantize, (Quantity::Amount(n.amount),), out[0])
    &&& call_ensures(
        quantize,
        (Quantity::Installments(digits_value(q.fields.installments) as u32),),
        out[1],
    )
    &&& if is_zero(n.customer_avg) {
        out[2] == 10000
    } else {
        call_ensures(quantize, (Quantity::AmountOverAverage(n.amount, n.customer_avg),), out[2])
    }
    &&& out[3] == hour_level(q.requested.hour as int)
    &&& out[4] == day_level(q.requested.day_of_week as int)
    &&& match (q.last, n.km_from_current) {
        (Some(last), Some(km)) => {
            &&& call_ensures(
                quantize,
                (Quantity::SecondsSinceLast(seconds_apart(q.requested, last)),),
                out[5],
            )
            &&& call_ensures(quantize, (Quantity::KmFromCurrent(km),), out[6])
        },
        _ => out[5] == -10000 && out[6] == -10000,
    }
    &&& call_ensures(quantize, (Quantity::KmFromHome(n.km_from_home),), out[7])
    &&& call_ensures(
        quantize,
        (Quantity::TxCount(digits_value(q.fields.tx_count_24h) as u32),),
        out[8],
    )
    &&& out[9] == bit(q.fields.is_online) * 10000
    &&& out[10] == bit(q.fields.card_present) * 10000
    &&& out[11] == bit(merchant_unknown(q.fields)) * 10000
    &&& out[12] == (if category(q.fields.merchant_mcc) < 10000 {
        c.mcc_risk_i16@[category(q.fields.merchant_mcc) as int]
    } else {
        5000
    })
    &&& call_ensures(quantize, (Quantity::MerchantAverage(n.merchant_avg),), out[13])
    &&& out[14] == 0
    &&& out[15] == 0
}

/// The vector and the key of a request whose numbers the caller reads and quantizes.
pub open spec fn is_vectorized<F: Fn(&[u8]) -> u64, Q: Fn(Quantity) -> i16>(
    number: F,
    quantize: Q,
    c: Constants,
    q: Query,
    out: Seq<i16>,
    key: u16,
) -> bool {
    &&& key == cell_key(q)
    &&& exists|n: Reals| #[trigger]
        reals_of(number, q.fields, n) && is_vector(quantize, c, q, n, out)
}

/// The count that a text of digits stands for.
fn read_count(text: &[u8]) -> (value: u32)
    requires
        of_kind(text@, Kind::Count),
    ensures
        value == digits_value(text@),
{
    proof {
        let digit = |byte: u8| is_digit(byte);
        assert forall|k: int| 0 <= k < text@.len() implies digit(#[trigger] text@[k]) by {
            assert(is_digit(text@[k]));
        }
        lemma_run_is(text@, 0, digit, text@.len() as int);
        assert(text@.subrange(0, text@.len() as int) =~= text@);
    }
    match parse_u32_at(text, 0) {
        Some((value, _)) => value,
        None => 0,
    }
}

/// Reads the fields of a body.
fn read_vector_fields<'a>(body: &'a [u8]) -> (r: Option<FastFields<'a>>)
    ensures
        match r {
            Some(fields) => {
                &&& body_fields(body@, vector_reading()) == Some(fields@)
                &&& of_kind(fields.installments@, Kind::Count)
                &&& of_kind(fields.tx_count_24h@, Kind::Count)
            },
            None => body_fields(body@, vector_reading()) is None,
        },
{
    let r = read_fields(
        body,
        Reading { number: Kind::Real, count: Kind::Count, text: Kind::Plain },
    );
    proof {
        if r is Some {
            law_read_fields_fit(body@, vector_reading());
        }
    }
    r
}

/// Reads the numbers of a request.
fn read_reals<F: Fn(&[u8]) -> u64>(fields: &FastFields<'_>, number: &F) -> (n: Reals)
    requires
        forall|t: &[u8]| call_requires(*number, (t,)),
    ensures
        reals_of(*number, fields@, n),
{
    let amount: u64 = number(fields.amount);
    let customer_avg: u64 = number(fields.customer_avg);
    let merchant_avg: u64 = number(fields.merchant_avg);
    let km_from_home: u64 = number(fields.km_from_home);
    let km_from_current: Option<u64> = match fields.last {
        None => None,
        Some(last) => Some(number(last.km_from_current)),
    };
    Reals { amount, customer_avg, merchant_avg, km_from_home, km_from_current }
}

/// The key of a cell, put together from its bits.
pub fn pack_key(
    is_online: bool,
    card_present: bool,
    unknown: bool,
    sent: bool,
    hour: u8,
    day_of_week: u8,
) -> (key: u16)
    requires
        hour < 24,
        day_of_week < 7,
    ensures
        key == bit(is_online) * 4096 + bit(card_present) * 2048 + bit(unknown) * 1024 + bit(sent)
            * 768 + hour * 8 + day_of_week,
{
    let online_key: u16 = if is_online {
        1
    } else {
        0
    };
    let present_key: u16 = if card_present {
        1
    } else {
        0
    };
    let unknown_key: u16 = if unknown {
        1
    } else {
        0
    };
    let sent_key: u16 = if sent {
        1
    } else {
        0
    };
    let hour_key: u16 = hour as u16;
    let day_key: u16 = day_of_week as u16;
    let key: u16 = (online_key << 12) | (present_key << 11) | (unknown_key << 10) | (sent_key << 9)
        | (sent_key << 8) | (hour_key << 3) | day_key;
    assert(key == online_key * 4096 + present_key * 2048 + unknown_key * 1024 + sent_key * 768
        + hour_key * 8 + day_key) by (bit_vector)
        requires
            key == (online_key << 12) | (present_key << 11) | (unknown_key << 10) | (sent_key << 9)
                | (sent_key << 8) | (hour_key << 3) | day_key,
            online_key <= 1,
            present_key <= 1,
            unknown_key <= 1,
            sent_key <= 1,
            hour_key < 24,
            day_key < 8,
    ;
    key
}

/// A point in time that was read: within the four digits of a year.
spec fn is_dated(t: FastDateTime) -> bool {
    &&& t.hour < 24
    &&& t.day_of_week < 7
    &&& -62_167_219_200 <= t.epoch_seconds < 253_402_300_800
}

/// The vector of a request whose fields, times and numbers are read.
fn fill_vector<Q: Fn(Quantity) -> i16>(
    fields: &FastFields<'_>,
    requested: FastDateTime,
    last: Option<FastDateTime>,
    n: &Reals,
    known: bool,
    c: &Constants,
    quantize: &Q,
) -> (out: Vec16I)
    requires
        c.well_formed(),
        forall|q: Quantity| call_requires(*quantize, (q,)),
        of_kind(fields.installments@, Kind::Count),
        of_kind(fields.tx_count_24h@, Kind::Count),
        known == !merchant_unknown(fields@),
        is_dated(requested),
        last matches Some(before) ==> is_dated(before),
    ensures
        is_vector(*quantize, *c, Query { fields: fields@, requested, last }, *n, out@),
{
    let mut out: Vec16I = [0;16];
    out[0] = quantize(Quantity::Amount(n.amount));
    out[1] = quantize(Quantity::Installments(read_count(fields.installments)));
    out[2] = if n.customer_avg == 0 || n.customer_avg == 0x8000_0000_0000_0000 {
        10000
    } else {
        quantize(Quantity::AmountOverAverage(n.amount, n.customer_avg))
    };
    out[3] = ((requested.hour as i32 * 20000 + 23) / 46) as i16;
    out[4] = ((requested.day_of_week as i32 * 20000 + 6) / 12) as i16;
    match (last, n.km_from_current) {
        (Some(before), Some(km)) => {
            let apart: u64 = if requested.epoch_seconds >= before.epoch_seconds {
                (requested.epoch_seconds - before.epoch_seconds) as u64
            } else {
                (before.epoch_seconds - requested.epoch_seconds) as u64
            };
            out[5] = quantize(Quantity::SecondsSinceLast(apart));
            out[6] = quantize(Quantity::KmFromCurrent(km));
        },
        _ => {
            out[5] = -10000;
            out[6] = -10000;
        },
    }
    out[7] = quantize(Quantity::KmFromHome(n.km_from_home));
    out[8] = quantize(Quantity::TxCount(read_count(fields.tx_count_24h)));
    out[9] = if fields.is_online {
        10000
    } else {
        0
    };
    out[10] = if fields.card_present {
        10000
    } else {
        0
    };
    out[11] = if known {
        0
    } else {
        10000
    };
    let mcc: usize = fast_parse_mcc(fields.merchant_mcc);
    out[12] = if mcc < 10000 {
        c.mcc_risk_i16[mcc]
    } else {
        5000
    };
    out[13] = quantize(Quantity::MerchantAverage(n.merchant_avg));
    out
}

/// The vector that is searched for and the key of its cell; nothing if the body cannot be read.
/// `number` gives the bits of the number that a decimal text stands for, and `quantize` takes a
/// quantity over its limit.
pub fn parse_payload_to_i16_and_key<F: Fn(&[u8]) -> u64, Q: Fn(Quantity) -> i16>(
    body: &[u8],
    c: &Constants,
    number: &F,
    quantize: &Q,
) -> (r: Option<(Vec16I, u16)>)
    requires
        c.well_formed(),
        forall|t: &[u8]| call_requires(*number, (t,)),
        forall|q: Quantity| call_requires(*quantize, (q,)),
    ensures
        match (query(body@), r) {
            (None, None) => true,
            (Some(q), Some((out, key))) => is_vectorized(*number, *quantize, *c, q, out@, key),
            _ => false,
        },
{
    let fields = match read_vector_fields(body) {
        None => {
            return None;
        },
        Some(fields) => fields,
    };
    let requested = match parse_iso8601(fields.requested_at) {
        None => {
            return None;
        },
        Some(requested) => requested,
    };
    let last: Option<FastDateTime> = match fields.last {
        None => None,
        Some(last) => match parse_iso8601(last.timestamp) {
            None => {
                return None;
            },
            Some(before) => Some(before),
        },
    };
    let ghost q = Query { fields: fields@, requested, last };
    assert(query(body@) == Some(q));
    let n = read_reals(&fields, number);
    let known = known_merchants_contains(fields.known_merchants, fields.merchant_id);
    let out: Vec16I = fill_vector(&fields, requested, last, &n, known, c, quantize);
    let key: u16 = pack_key(
        fields.is_online,
        fields.card_present,
        !known,
        last.is_some(),
        requested.hour,
        requested.day_of_week,
    );
    assert(reals_of(*number, q.fields, n) && is_vector(*quantize, *c, q, n, out@));
    assert(is_vectorized(*number, *quantize, *c, q, out@, key));
    Some((out, key))
}

/// A key is within its thirteen bits, and tells what it was made of.
pub proof fn law_key_tells_its_parts(q: Query)
    requires
        q.requested.hour < 24,
        q.requested.day_of_week < 7,
    ensures
        0 <= cell_key(q) < 8192,
        (cell_key(q) / 4096 == 1) == q.fields.is_online,
        (cell_key(q) / 2048 % 2 == 1) == q.fields.card_present,
        (cell_key(q) / 1024 % 2 == 1) == merchant_unknown(q.fields),
        (cell_key(q) / 512 % 2 == 1) == q.last is Some,
        (cell_key(q) / 256 % 2 == 1) == q.last is Some,
        cell_key(q) / 8 % 32 == q.requested.hour,
        cell_key(q) % 8 == q.requested.day_of_week,
{
    lemma_key_parts(
        bit(q.fields.is_online),
        bit(q.fields.card_present),
        bit(merchant_unknown(q.fields)),
        bit(q.last is Some),
        q.requested.hour as int,
        q.requested.day_of_week as int,
        cell_key(q),
    );
}

proof fn lemma_key_parts(a: int, b: int, c: int, d: int, hour: int, day: int, key: int)
    requires
        0 <= a <= 1,
        0 <= b <= 1,
        0 <= c <= 1,
        0 <= d <= 1,
        0 <= hour < 24,
        0 <= day < 7,
        key == a * 4096 + b * 2048 + c * 1024 + d * 768 + hour * 8 + day,
    ensures
        0 <= key < 8192,
        key / 256 == 16 * a + 8 * b + 4 * c + 3 * d,
        key / 4096 == a,
        key / 2048 % 2 == b,
        key / 1024 % 2 == c,
        key / 512 % 2 == d,
        key / 256 % 2 == d,
        key / 8 % 32 == hour,
        key % 8 == day,
{
    assert(key / 4096 == a);
    assert(key / 2048 == 2 * a + b);
    assert(key / 1024 == 4 * a + 2 * b + c);
    assert(key / 512 == 8 * a + 4 * b + 2 * c + d);
    assert(key / 256 == 16 * a + 8 * b + 4 * c + 3 * d);
    assert(key / 8 == 32 * (16 * a + 8 * b + 4 * c + 3 * d) + hour);
    assert(key == 8 * (key / 8) + day);
    assert((2 * a + b) % 2 == b);
    assert((2 * (2 * a + b) + c) % 2 == c);
    assert((2 * (4 * a + 2 * b + c) + d) % 2 == d);
    assert((2 * (8 * a + 4 * b + 2 * c + d) + d) % 2 == d);
    assert((32 * (16 * a + 8 * b + 4 * c + 3 * d) + hour) % 32 == hour);
}

/// The bits of a key above the hour and the day.
proof fn lemma_high_bits(q: Query)
    requires
        q.requested.hour < 24,
        q.requested.day_of_week < 7,
    ensures
        cell_key(q) / 256 == 16 * bit(q.fields.is_online) + 8 * bit(q.fields.card_present) + 4
            * bit(merchant_unknown(q.fields)) + 3 * bit(q.last is Some),
{
    lemma_key_parts(
        bit(q.fields.is_online),
        bit(q.fields.card_present),
        bit(merchant_unknown(q.fields)),
        bit(q.last is Some),
        q.requested.hour as int,
        q.requested.day_of_week as int,
        cell_key(q),
    );
}

/// The hour and the day of a vector lie between zero and one, in ten thousandths, and rise.
pub proof fn law_levels_rise(a: int, b: int)
    requires
        0 <= a < b,
    ensures
        b <= 23 ==> 0 <= hour_level(a) < hour_level(b) <= 10000,
        b <= 6 ==> 0 <= day_level(a) < day_level(b) <= 10000,
{
}

/// What stands around a body does not change what it asks to be searched for: bytes before it in
/// which, up to the body, the label that the fields start with does not start, and any bytes behind
/// it.
pub proof fn law_query_ignores_surroundings(before: Seq<u8>, body: Seq<u8>, behind: Seq<u8>)
    requires
        query(body) is Some,
        body.last() == 125,
        index_from(before + body, first_label(), 0) matches Some(at) && at >= before.len(),
    ensures
        query(before + body + behind) == query(body),
{
    law_surroundings_do_not_matter(before, body, behind, vector_reading());
}

/// What the caller hands in gives one answer for the same question.
pub open spec fn steady_numbers<F: Fn(&[u8]) -> u64, Q: Fn(Quantity) -> i16>(
    number: F,
    quantize: Q,
) -> bool {
    &&& steady(number)
    &&& forall|q: Quantity, a: i16, b: i16|
        #![trigger call_ensures(quantize, (q,), a), call_ensures(quantize, (q,), b)]
        call_ensures(quantize, (q,), a) && call_ensures(quantize, (q,), b) ==> a == b
}

/// What a body asks has one vector and one key.
pub proof fn law_one_vector<F: Fn(&[u8]) -> u64, Q: Fn(Quantity) -> i16>(
    number: F,
    quantize: Q,
    c: Constants,
    q: Query,
    a: Seq<i16>,
    key: u16,
    b: Seq<i16>,
    other_key: u16,
)
    requires
        steady_numbers(number, quantize),
        is_vectorized(number, quantize, c, q, a, key),
        is_vectorized(number, quantize, c, q, b, other_key),
    ensures
        a == b,
        key == other_key,
{
    let n = choose|n: Reals| #[trigger]
        reals_of(number, q.fields, n) && is_vector(quantize, c, q, n, a);
    let m = choose|n: Reals| #[trigger]
        reals_of(number, q.fields, n) && is_vector(quantize, c, q, n, b);
    assert(n == m);
    assert(a =~= b);
}

/// The fields with the time of the request and that of the transaction before swapped.
pub open spec fn times_swapped(f: FieldsView, last: LastView) -> FieldsView {
    FieldsView {
        requested_at: last.timestamp,
        last: Some(LastView { timestamp: f.requested_at, ..last }),
        ..f
    }
}

/// Elapsed time has no direction: with the time of the request and that of the transaction before
/// swapped, the vector keeps all but the hour and the day of the request, and the key all but its
/// low eight bits.
pub proof fn law_elapsed_time_has_no_direction<F: Fn(&[u8]) -> u64, Q: Fn(Quantity) -> i16>(
    number: F,
    quantize: Q,
    c: Constants,
    body: Seq<u8>,
    swapped: Seq<u8>,
    out: Seq<i16>,
    key: u16,
    swapped_out: Seq<i16>,
    swapped_key: u16,
)
    requires
        steady_numbers(number, quantize),
        query(body) matches Some(q) && q.fields.last is Some,
        query(swapped) matches Some(q) && q.fields == times_swapped(
            query(body)->0.fields,
            query(body)->0.fields.last->0,
        ),
        is_vectorized(number, quantize, c, query(body)->0, out, key),
        is_vectorized(number, quantize, c, query(swapped)->0, swapped_out, swapped_key),
    ensures
        forall|i: int| 0 <= i < 16 && i != 3 && i != 4 ==> out[i] == #[trigger] swapped_out[i],
        key >> 8 == swapped_key >> 8,
{
    let q = query(body)->0;
    let r = query(swapped)->0;
    let n = choose|n: Reals| #[trigger]
        reals_of(number, q.fields, n) && is_vector(quantize, c, q, n, out);
    let m = choose|n: Reals| #[trigger]
        reals_of(number, r.fields, n) && is_vector(quantize, c, r, n, swapped_out);
    assert(n == m);
    assert(seconds_apart(q.requested, q.last->0) == seconds_apart(r.requested, r.last->0));
    assert(q.last == Some(r.requested) && r.last == Some(q.requested));
    lemma_instant_parts(q.fields.requested_at);
    lemma_instant_parts(r.fields.requested_at);
    lemma_high_bits(q);
    lemma_high_bits(r);
    assert(key >> 8 == key / 256) by (bit_vector);
    assert(swapped_key >> 8 == swapped_key / 256) by (bit_vector);
}

/// A body whose two times are swapped asks to be searched for at the other time.
pub proof fn law_swapped_times_are_read(before: Seq<u8>, q: Query, last: LastView, behind: Seq<u8>)
    requires
        index_from(before + first_label(), first_label(), 0) == Some(before.len() as int),
        number_ends(behind, 0),
        q.fields.last == Some(last),
        query(before + written_fields(q.fields, vector_reading()) + behind) == Some(q),
    ensures
        q.last is Some,
        query(
            before + written_fields(times_swapped(q.fields, last), vector_reading()) + behind,
        ) == Some(
            Query {
                fields: times_swapped(q.fields, last),
                requested: q.last->0,
                last: Some(q.requested),
            },
        ),
{
    let swapped = times_swapped(q.fields, last);
    law_read_fields_fit(
        before + written_fields(q.fields, vector_reading()) + behind,
        vector_reading(),
    );
    law_fields_between_bytes_are_read_back(before, swapped, behind, vector_reading());
}

} // verus!
