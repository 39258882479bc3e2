//! Measured values, and what is told of them: percentiles, the largest and the average.
use vstd::prelude::*;
use vstd::relations::{sorted_by, total_ordering};
use vstd::seq_lib::lemma_sorted_unique;

use crate::bytes::{append, ascii, literal};
use crate::decimal::{numeral, write_numeral};

verus! {

/// The order of the numbers.
pub open spec fn ascending() -> spec_fn(u64, u64) -> bool {
    |a: u64, b: u64| a <= b
}

/// The values, the smallest first.
pub open spec fn in_order(values: Seq<u64>) -> Seq<u64> {
    values.sort_by(ascending())
}

/// The sum of the values.
pub open spec fn sum(values: Seq<u64>) -> nat
    decreases values.len(),
{
    if values.len() == 0 {
        0
    } else {
        sum(values.drop_last()) + values.last() as nat
    }
}

/// The place, among `count` values in order, up to which the part `pct` of them reaches.
pub open spec fn rank(count: nat, pct: int) -> int {
    ((count - 1) * pct + 99) / 100
}

/// The smallest value that the part `pct` of the values does not exceed.
pub open spec fn percentile_of(values: Seq<u64>, pct: int) -> u64 {
    in_order(values)[rank(values.len(), pct)]
}

/// The largest value.
pub open spec fn largest(values: Seq<u64>) -> u64 {
    in_order(values).last()
}

/// Sorts the values with `[u64]::sort_unstable` of the standard library: they come out in
/// ascending order, each as often as before.
#[verifier::external_body]
fn sort_unstable(values: &mut Vec<u64>)
    ensures
        sorted_by(final(values)@, ascending()),
        final(values)@.to_multiset() == old(values)@.to_multiset(),
{
    values.sort_unstable();
}

proof fn lemma_ascending()
    ensures
        total_ordering(ascending()),
{
}

/// The values in order are as many, and ascend.
pub proof fn lemma_in_order(values: Seq<u64>)
    ensures
        in_order(values).len() == values.len(),
        forall|i: int, j: int|
            0 <= i <= j < values.len() ==> in_order(values)[i] <= in_order(values)[j],
        in_order(values).to_multiset() == values.to_multiset(),
{
    broadcast use vstd::seq_lib::group_to_multiset_ensures;

    lemma_ascending();
    values.lemma_sort_by_ensures(ascending());
    let ordered = in_order(values);
    assert(ordered.to_multiset().len() == values.to_multiset().len());
    assert forall|i: int, j: int| 0 <= i <= j < values.len() implies ordered[i] <= ordered[j] by {
        if i < j {
            assert(ascending()(ordered[i], ordered[j]));
        }
    }
}

/// The values in order.
pub fn order(values: Vec<u64>) -> (ordered: Vec<u64>)
    ensures
        ordered@ == in_order(values@),
{
    let mut ordered = values;
    sort_unstable(&mut ordered);
    proof {
        lemma_ascending();
        values@.lemma_sort_by_ensures(ascending());
        lemma_sorted_unique(ordered@, in_order(values@), ascending());
    }
    ordered
}

proof fn lemma_rank(count: nat, pct: int)
    requires
        count > 0,
        0 <= pct <= 100,
    ensures
        0 <= rank(count, pct) < count,
        (count - 1) * pct <= rank(count, pct) * 100 < (count - 1) * pct + 100,
{
    assert(0 <= (count - 1) * pct <= (count - 1) * 100) by (nonlinear_arith)
        requires
            count > 0,
            0 <= pct <= 100,
    ;
}

/// The value at a percentile of values in order.
pub fn percentile(values: &[u64], pct: usize) -> (value: u64)
    requires
        values@.len() > 0,
        pct <= 100,
    ensures
        value == values@[rank(values@.len(), pct as int)],
{
    let last: u128 = (values.len() - 1) as u128;
    assert(0 <= last * pct <= 0xffff_ffff_ffff_ffff * 100) by (nonlinear_arith)
        requires
            last <= 0xffff_ffff_ffff_ffff,
            pct <= 100,
    ;
    proof {
        lemma_rank(values@.len(), pct as int);
    }
    let at: u128 = (last * pct as u128 + 99) / 100;
    assert(at == rank(values@.len(), pct as int));
    values[at as usize]
}

/// A higher percentile is no smaller, and none exceeds the largest value.
pub proof fn law_percentiles_rise(values: Seq<u64>, low: int, high: int)
    requires
        values.len() > 0,
        0 <= low <= high <= 100,
    ensures
        percentile_of(values, low) <= percentile_of(values, high) <= largest(values),
        percentile_of(values, 100) == largest(values),
        percentile_of(values, 0) == in_order(values)[0],
{
    lemma_in_order(values);
    lemma_rank(values.len(), low);
    lemma_rank(values.len(), high);
    lemma_rank(values.len(), 100);
    lemma_rank(values.len(), 0);
    assert((values.len() - 1) * low <= (values.len() - 1) * high) by (nonlinear_arith)
        requires
            values.len() > 0,
            0 <= low <= high,
    ;
}

/// The sum of the values.
pub fn total(values: &[u64]) -> (r: u128)
    ensures
        r == sum(values@),
{
    let mut r: u128 = 0;
    let mut i: usize = 0;
    assert(values@.take(0) =~= Seq::<u64>::empty());
    while i < values.len()
        invariant
            i <= values@.len(),
            r == sum(values@.take(i as int)),
            r <= i * 0xffff_ffff_ffff_ffff,
        decreases values@.len() - i,
    {
        assert(values@.take(i + 1).drop_last() =~= values@.take(i as int));
        assert(i * 0xffff_ffff_ffff_ffff + 0xffff_ffff_ffff_ffff
            <= 0xffff_ffff_ffff_ffff_ffff_ffff_ffff_ffff) by (nonlinear_arith)
            requires
                i < 0xffff_ffff_ffff_ffff,
        ;
        r = r + values[i] as u128;
        i = i + 1;
    }
    assert(values@.take(i as int) =~= values@);
    r
}

/// What is told of values whose average reads `average`.
pub open spec fn stats_text(values: Seq<u64>, average: Seq<u8>) -> Seq<u8> {
    if values.len() == 0 {
        ascii("{\"avg\":0,\"p50\":0,\"p90\":0,\"p99\":0,\"max\":0}"@)
    } else {
        ascii("{\"avg\":"@) + average + ascii(",\"p50\":"@) + numeral(
            percentile_of(values, 50) as nat,
        ) + ascii(",\"p90\":"@) + numeral(percentile_of(values, 90) as nat) + ascii(",\"p99\":"@)
            + numeral(percentile_of(values, 99) as nat) + ascii(",\"max\":"@) + numeral(
            largest(values) as nat,
        ) + ascii("}"@)
    }
}

/// `text` is what may be told of the values, with the average that `average` writes.
pub open spec fn is_stats<A: Fn(u128, usize) -> Vec<u8>>(
    average: A,
    values: Seq<u64>,
    text: Seq<u8>,
) -> bool {
    if values.len() == 0 {
        text == stats_text(values, seq![])
    } else {
        exists|written: Vec<u8>|
            call_ensures(average, (sum(values) as u128, values.len() as usize), written) && text
                == #[trigger] stats_text(values, written@)
    }
}

/// Puts a text behind what `out` holds.
pub fn push_text(out: &mut Vec<u8>, text: &'static str)
    requires
        text.is_ascii(),
    ensures
        final(out)@ == old(out)@ + ascii(text@),
{
    append(out, literal(text));
}

/// Puts a numeral behind what `out` holds.
pub fn push_number(out: &mut Vec<u8>, value: u128)
    ensures
        final(out)@ == old(out)@ + numeral(value as nat),
{
    let digits = write_numeral(value);
    append(out, digits.as_slice());
}

/// Tells of values; `average` writes the average of a sum over a count.
pub fn stats_json<A: Fn(u128, usize) -> Vec<u8>>(values: Vec<u64>, average: &A) -> (r: Vec<u8>)
    requires
        forall|s: u128, n: usize| call_requires(*average, (s, n)),
    ensures
        is_stats(*average, values@, r@),
{
    proof {
        reveal_strlit("{\"avg\":0,\"p50\":0,\"p90\":0,\"p99\":0,\"max\":0}");
        reveal_strlit("{\"avg\":");
        reveal_strlit(",\"p50\":");
        reveal_strlit(",\"p90\":");
        reveal_strlit(",\"p99\":");
        reveal_strlit(",\"max\":");
        reveal_strlit("}");
    }
    let mut out: Vec<u8> = Vec::new();
    if values.len() == 0 {
        push_text(&mut out, "{\"avg\":0,\"p50\":0,\"p90\":0,\"p99\":0,\"max\":0}");
        assert(out@ =~= stats_text(values@, seq![]));
        return out;
    }
    let whole: u128 = total(values.as_slice());
    let count: usize = values.len();
    let ghost given = values@;
    proof {
        lemma_in_order(given);
    }
    let ordered = order(values);
    let written = average(whole, count);
    push_text(&mut out, "{\"avg\":");
    append(&mut out, written.as_slice());
    push_text(&mut out, ",\"p50\":");
    push_number(&mut out, percentile(ordered.as_slice(), 50) as u128);
    push_text(&mut out, ",\"p90\":");
    push_number(&mut out, percentile(ordered.as_slice(), 90) as u128);
    push_text(&mut out, ",\"p99\":");
    push_number(&mut out, percentile(ordered.as_slice(), 99) as u128);
    push_text(&mut out, ",\"max\":");
    push_number(&mut out, ordered[count - 1] as u128);
    push_text(&mut out, "}");
    assert(out@ =~= stats_text(given, written@));
    out
}

} // verus!
