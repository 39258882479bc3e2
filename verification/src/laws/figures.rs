//! What is measured and counted, and what is told of it.
use vstd::prelude::*;
use vstd::utf8::encode_utf8;

use crate::api::{average_counted, health_code, raw_code, AverageLog, Unscored};
use crate::bytes::ascii;
use crate::checks::{
    classifier_counted, classifier_failed, classifier_line, parser_counted, parser_line,
    parser_verdict, ClassifierTally, ParserTally,
};
use crate::decimal::numeral;
use crate::epoll::{write_outcome, WriteState, Wrote};
use crate::io_trace::{is_stage, is_trace_line, line_due, line_every, stage_text, times_pushed, trace_line};
use crate::lb::client::parse_noted;
use crate::lb::metrics::{
    column, column_labels, is_summary, labelled, next_id, numerals, request_labels, request_line,
    sum_labels, summary_line, summed_column, sums, told_as, told_of_request, window_recorded,
    RequestTrace,
};
use crate::request::head_mark;
use crate::stats::{
    in_order, is_stats, largest, lemma_in_order, percentile_of, rank, stats_text, sum,
};

verus! {

/// The values in order are the same ones, each as often as before, and none comes before a smaller
/// one.
pub proof fn law_values_are_put_in_order(values: Seq<u64>, i: int, j: int)
    requires
        0 <= i < j < values.len(),
    ensures
        in_order(values).to_multiset() == values.to_multiset(),
        in_order(values).len() == values.len(),
        in_order(values)[i] <= in_order(values)[j],
{
    lemma_in_order(values);
}

/// The largest value is one of the values, and none exceeds it.
pub proof fn law_no_value_exceeds_the_largest(values: Seq<u64>, i: int)
    requires
        0 <= i < values.len(),
    ensures
        values.contains(largest(values)),
        values[i] <= largest(values),
{
    broadcast use vstd::seq_lib::group_to_multiset_ensures;

    lemma_in_order(values);
    let ordered = in_order(values);
    assert(ordered.to_multiset().count(ordered.last()) > 0) by {
        assert(ordered.contains(ordered.last())) by {
            assert(ordered[ordered.len() - 1] == ordered.last());
        }
    }
    assert(values.contains(ordered.last()));
    assert(values.contains(values[i]));
    assert(values.to_multiset().count(values[i]) > 0);
    assert(ordered.to_multiset().count(values[i]) > 0);
    assert(ordered.contains(values[i]));
    let k = choose|k: int| 0 <= k < ordered.len() && ordered[k] == values[i];
    assert(ordered[k] <= ordered[ordered.len() - 1]);
}

/// The place of a percentile among values in order is the part of the way from the first to the last,
/// or the next one up where that is between two.
pub proof fn law_percentiles_have_their_places(count: nat, pct: int)
    requires
        count > 0,
        0 <= pct <= 100,
    ensures
        rank(count, pct) * 100 >= (count - 1) * pct,
        (rank(count, pct) - 1) * 100 < (count - 1) * pct,
        rank(count, 0) == 0,
        rank(count, 100) == count - 1,
        0 <= rank(count, pct) < count,
{
    let x = (count - 1) * pct;
    assert(0 <= x <= (count - 1) * 100) by (nonlinear_arith)
        requires
            x == (count - 1) * pct,
            count > 0,
            0 <= pct <= 100,
    ;
    assert(rank(count, pct) == (x + 99) / 100);
    assert((count - 1) * 0 == 0);
}

/// A percentile is the value at its place.
pub proof fn law_a_percentile_is_the_value_at_its_place(values: Seq<u64>, pct: int)
    requires
        values.len() > 0,
        0 <= pct <= 100,
    ensures
        percentile_of(values, pct) == in_order(values)[((values.len() - 1) * pct + 99) / 100],
        largest(values) == in_order(values)[values.len() - 1],
{
    lemma_in_order(values);
}

/// A sum grows by each value.
pub proof fn law_sums_grow_by_each_value(values: Seq<u64>, value: u64)
    ensures
        sum(Seq::<u64>::empty()) == 0,
        sum(values.push(value)) == sum(values) + value,
{
    assert(values.push(value).drop_last() =~= values);
}

/// Of values their average, three percentiles and the largest are told, and zeros where there are
/// none.
pub proof fn law_stats_tell_of_the_values(values: Seq<u64>, average: Seq<u8>)
    ensures
        values.len() == 0 ==> stats_text(values, average) == ascii(
            "{\"avg\":0,\"p50\":0,\"p90\":0,\"p99\":0,\"max\":0}"@,
        ) && stage_text(values, average) == ascii("{\"p50\":0,\"p99\":0,\"max\":0,\"avg\":0.0}"@),
        values.len() > 0 ==> {
            let half = numeral(in_order(values)[((values.len() - 1) * 50 + 99) / 100] as nat);
            let most = numeral(in_order(values)[((values.len() - 1) * 90 + 99) / 100] as nat);
            let nearly_all = numeral(in_order(values)[((values.len() - 1) * 99 + 99) / 100] as nat);
            let max = numeral(in_order(values)[values.len() - 1] as nat);
            &&& stats_text(values, average) == ascii("{\"avg\":"@) + average + ascii(
                ",\"p50\":"@,
            ) + half + ascii(",\"p90\":"@) + most + ascii(",\"p99\":"@) + nearly_all + ascii(
                ",\"max\":"@,
            ) + max + ascii("}"@)
            &&& stage_text(values, average) == ascii("{\"p50\":"@) + half + ascii(",\"p99\":"@)
                + nearly_all + ascii(",\"max\":"@) + max + ascii(",\"avg\":"@) + average + ascii(
                "}"@,
            )
        },
{
    lemma_in_order(values);
}

/// The average that is told is that of the sum over the count.
pub proof fn law_averages_are_of_the_sum_over_the_count<A: Fn(u128, usize) -> Vec<u8>>(
    average: A,
    values: Seq<u64>,
    text: Seq<u8>,
)
    requires
        values.len() > 0,
    ensures
        is_stats(average, values, text) ==> exists|written: Vec<u8>|
            call_ensures(average, (sum(values) as u128, values.len() as usize), written) && text
                == #[trigger] stats_text(values, written@),
        is_stage(average, values, text) ==> exists|written: Vec<u8>|
            call_ensures(average, (sum(values) as u128, values.len() as usize), written) && text
                == #[trigger] stage_text(values, written@),
{
}

/// A request that took as long as a slow one, or longer, is told of as slow; any other is told of if
/// its number is a multiple of the sample, and not at all where there is no sample.
pub proof fn law_slow_requests_are_told_of(t: RequestTrace, slow_us: u64, sample: u64)
    ensures
        t.total_us >= slow_us ==> told_as(t, slow_us, sample) == Some("lb_slow_request"@),
        t.total_us < slow_us && sample > 0 && t.request_id as int % sample as int == 0 ==> told_as(
            t,
            slow_us,
            sample,
        ) == Some("lb_sample_request"@),
        t.total_us < slow_us && sample > 0 && t.request_id as int % sample as int != 0 ==> told_as(
            t,
            slow_us,
            sample,
        ) is None,
        t.total_us < slow_us && sample == 0 ==> told_as(t, slow_us, sample) is None,
{
}

/// Requests are gathered until there are enough; then they are told of together, and the next window
/// starts without any. Their numbers count up.
pub proof fn law_windows_fill_and_start_anew(
    window: Seq<RequestTrace>,
    every: int,
    trace: RequestTrace,
    id: u64,
)
    ensures
        window.len() + 1 < every ==> window_recorded(window, every, trace) == (
            window.push(trace),
            false,
        ),
        window.len() + 1 >= every ==> window_recorded(window, every, trace) == (
            Seq::<RequestTrace>::empty(),
            true,
        ),
        id < u64::MAX ==> next_id(id) == id + 1,
        id == u64::MAX ==> next_id(id) == 0,
{
}

/// What is told of a request stands behind its label.
pub proof fn law_what_is_told_stands_behind_its_label(t: RequestTrace)
    ensures
        told_of_request(t).len() == request_labels().len(),
        request_labels()[0]@ == "\",\"backend_idx\":"@ && told_of_request(t)[0] == t.backend_idx,
        request_labels()[1]@ == ",\"body_len\":"@ && told_of_request(t)[1] == t.body_len,
        request_labels()[2]@ == ",\"idle_hits\":"@ && told_of_request(t)[2] == t.idle_hits,
        request_labels()[3]@ == ",\"idle_misses\":"@ && told_of_request(t)[3] == t.idle_misses,
        request_labels()[4]@ == ",\"retries\":"@ && told_of_request(t)[4] == t.retries,
        request_labels()[5]@ == ",\"reconnects\":"@ && told_of_request(t)[5] == t.reconnects,
        request_labels()[6]@ == ",\"status_5xx\":"@ && told_of_request(t)[6] == t.status_5xx,
        told_of_request(t)[7] == t.active_clients_at_start,
        request_labels()[8]@ == ",\"max_seen\":"@ && told_of_request(t)[8]
            == t.max_active_clients_seen,
        told_of_request(t)[9] == t.accept_to_read_us,
        request_labels()[10]@ == ",\"client_wait\":"@ && told_of_request(t)[10] == t.client_wait_us,
        request_labels()[11]@ == ",\"client_read\":"@ && told_of_request(t)[11] == t.client_read_us,
        request_labels()[12]@ == ",\"request_parse\":"@ && told_of_request(t)[12]
            == t.request_parse_us,
        request_labels()[13]@ == ",\"pool_permit_wait\":"@ && told_of_request(t)[13]
            == t.pool_permit_wait_us,
        request_labels()[14]@ == ",\"idle_lock\":"@ && told_of_request(t)[14] == t.idle_lock_us,
        request_labels()[15]@ == ",\"upstream_connect\":"@ && told_of_request(t)[15]
            == t.upstream_connect_us,
        request_labels()[16]@ == ",\"upstream_write\":"@ && told_of_request(t)[16]
            == t.upstream_write_us,
        request_labels()[17]@ == ",\"upstream_write_header\":"@ && told_of_request(t)[17]
            == t.upstream_write_header_us,
        request_labels()[18]@ == ",\"upstream_write_body\":"@ && told_of_request(t)[18]
            == t.upstream_write_body_us,
        request_labels()[19]@ == ",\"upstream_wait_header\":"@ && told_of_request(t)[19]
            == t.upstream_wait_header_us,
        request_labels()[20]@ == ",\"upstream_read_body\":"@ && told_of_request(t)[20]
            == t.upstream_read_body_us,
        request_labels()[21]@ == ",\"client_write\":"@ && told_of_request(t)[21]
            == t.client_write_us,
        request_labels()[22]@ == ",\"total\":"@ && told_of_request(t)[22] == t.total_us,
{
}

/// Of many requests the same is told column by column: each column holds one value of each request.
pub proof fn law_columns_hold_one_value_of_each_request(records: Seq<RequestTrace>, k: int)
    requires
        0 <= k < records.len(),
    ensures
        column(records, 0)[k] == records[k].active_clients_at_start,
        column(records, 1)[k] == records[k].max_active_clients_seen,
        column(records, 2)[k] == records[k].body_len,
        column(records, 3)[k] == records[k].accept_to_read_us,
        column(records, 4)[k] == records[k].client_wait_us,
        column(records, 5)[k] == records[k].client_read_us,
        column(records, 6)[k] == records[k].request_parse_us,
        column(records, 7)[k] == records[k].pool_permit_wait_us,
        column(records, 8)[k] == records[k].idle_lock_us,
        column(records, 9)[k] == records[k].upstream_connect_us,
        column(records, 10)[k] == records[k].upstream_write_us,
        column(records, 11)[k] == records[k].upstream_write_header_us,
        column(records, 12)[k] == records[k].upstream_write_body_us,
        column(records, 13)[k] == records[k].upstream_wait_header_us,
        column(records, 14)[k] == records[k].upstream_read_body_us,
        column(records, 15)[k] == records[k].client_write_us,
        column(records, 16)[k] == records[k].total_us,
        summed_column(records, 0)[k] == records[k].backend0,
        summed_column(records, 1)[k] == records[k].backend1,
        summed_column(records, 2)[k] == records[k].idle_hits,
        summed_column(records, 3)[k] == records[k].idle_misses,
        summed_column(records, 4)[k] == records[k].retries,
        summed_column(records, 5)[k] == records[k].reconnects,
        summed_column(records, 6)[k] == records[k].status_5xx,
        column(records, 16).len() == records.len(),
        summed_column(records, 6).len() == records.len(),
{
}

/// Times are taken only while they are asked for; the line on them is due once there are enough
/// scores, at least one.
pub proof fn law_times_are_taken_while_asked_for(
    enabled: bool,
    every: usize,
    times: Seq<u64>,
    ns: u64,
    scores: int,
)
    ensures
        enabled ==> times_pushed(enabled, times, ns).last() == ns && times_pushed(
            enabled,
            times,
            ns,
        ).drop_last() == times,
        !enabled ==> times_pushed(enabled, times, ns) == times,
        line_due(enabled, every as int, scores) <==> enabled && every <= scores,
        every > 0 ==> line_every(every) == every,
        every == 0 ==> line_every(every) == 1,
{
    assert(times.push(ns).drop_last() =~= times);
}

/// The line on the stages tells of each from its own times, and of as many samples as there are
/// scores.
pub proof fn law_the_line_tells_of_each_stage<A: Fn(u128, usize) -> Vec<u8>>(
    average: A,
    read_ns: Seq<u64>,
    score_ns: Seq<u64>,
    write_ns: Seq<u64>,
    line: Seq<u8>,
)
    requires
        is_trace_line(average, read_ns, score_ns, write_ns, line),
    ensures
        exists|read: Seq<u8>, score: Seq<u8>, write: Seq<u8>|
            {
                &&& #[trigger] is_stage(average, read_ns, read)
                &&& #[trigger] is_stage(average, score_ns, score)
                &&& #[trigger] is_stage(average, write_ns, write)
                &&& line == ascii("{\"kind\":\"io_trace\",\"samples\":"@) + numeral(
                    score_ns.len(),
                ) + ascii(",\"read_ns\":"@) + read + ascii(",\"score_ns\":"@) + score + ascii(
                    ",\"write_ns\":"@,
                ) + write + ascii("}"@)
            },
{
    let (read, score, write) = choose|read: Seq<u8>, score: Seq<u8>, write: Seq<u8>|
        {
            &&& is_stage(average, read_ns, read)
            &&& is_stage(average, score_ns, score)
            &&& is_stage(average, write_ns, write)
            &&& line == #[trigger] trace_line(score_ns.len(), read, score, write)
        };
    assert(is_stage(average, read_ns, read) && is_stage(average, score_ns, score) && is_stage(
        average,
        write_ns,
        write,
    ));
}

/// The time that reading a head took is noted once the head has arrived, and not before.
pub proof fn law_parsing_is_timed_once_the_head_is_there(
    t: RequestTrace,
    buf: Seq<u8>,
    parse_us: u64,
)
    requires
        t.request_parse_us + parse_us <= u64::MAX,
    ensures
        crate::bytes::occurs(buf, head_mark()) ==> parse_noted(t, buf, parse_us)
            == (RequestTrace { request_parse_us: (t.request_parse_us + parse_us) as u64, ..t }),
        !crate::bytes::occurs(buf, head_mark()) ==> parse_noted(t, buf, parse_us) == t,
        head_mark() == seq![13u8, 10u8, 13u8, 10u8],
{
    crate::bytes::lemma_index_from(buf, head_mark(), 0);
    if let Some(at) = crate::bytes::index_from(buf, head_mark(), 0) {
        assert(crate::bytes::matches_at(buf, head_mark(), at));
    }
}

/// A write that takes all that is left is the end of it; one that takes some goes on behind it, and
/// so does one that was interrupted, where it was. A socket that takes no more is waited for, and one
/// that takes nothing or fails is closed.
pub proof fn law_writes_go_on_where_they_stopped(total: int, off: int, wrote: Wrote)
    requires
        0 <= off < total <= usize::MAX,
        wrote matches Wrote::Bytes(count) ==> count <= total - off,
    ensures
        match wrote {
            Wrote::Bytes(count) => {
                &&& 0 < count == total - off ==> write_outcome(total, off, wrote) == Ok::<
                    WriteState,
                    usize,
                >(WriteState::Done)
                &&& 0 < count < total - off ==> (write_outcome(total, off, wrote) matches Err(to)
                    && to == off + count)
                &&& count == 0 ==> write_outcome(total, off, wrote) == Ok::<WriteState, usize>(
                    WriteState::Closed,
                )
            },
            Wrote::WouldBlock => write_outcome(total, off, wrote) matches Ok(WriteState::Pending(to))
                && to == off,
            Wrote::Interrupted => write_outcome(total, off, wrote) matches Err(to) && to == off,
            Wrote::Failed => write_outcome(total, off, wrote) == Ok::<WriteState, usize>(
                WriteState::Closed,
            ),
        },
{
}

/// A line on the average is due at every ten thousandth request; the times add up and start anew when
/// they would exceed 64 bits.
pub proof fn law_the_average_is_due_after_ten_thousand(log: AverageLog, elapsed_us: u64)
    ensures
        log.count < u64::MAX ==> average_counted(log, elapsed_us).0.count == log.count + 1,
        log.count == u64::MAX ==> average_counted(log, elapsed_us).0.count == 0,
        log.total_us + elapsed_us <= u64::MAX ==> average_counted(log, elapsed_us).0.total_us
            == log.total_us + elapsed_us,
        log.total_us + elapsed_us > u64::MAX ==> average_counted(log, elapsed_us).0.total_us
            == log.total_us + elapsed_us - u64::MAX - 1,
        average_counted(log, elapsed_us).1 <==> average_counted(log, elapsed_us).0.count as int
            % 10000 == 0,
{
}

/// A raw reply is the bucket, and 255 for what has none; a service is healthy when it is ready.
pub proof fn law_replies_are_numbers(r: Result<u8, Unscored>, ready: bool)
    ensures
        r matches Ok(bucket) ==> raw_code(r) == bucket,
        r is Err ==> raw_code(r) == 255,
        ready ==> health_code(ready) == 200,
        !ready ==> health_code(ready) == 503,
{
}

/// Each request is counted once, as classified or as not read, and as a mismatch exactly if its
/// verdict is the other one; the first twenty of these are shown. The classifier failed if there was
/// any mismatch, or any request that it could not read.
pub proof fn law_the_classifier_is_held_to_what_was_expected(
    tally: ClassifierTally,
    expected: bool,
    actual: Option<bool>,
)
    requires
        tally.well_formed(),
        tally.queries < u64::MAX,
    ensures
        ({
            let (counted, show) = classifier_counted(tally, expected, actual);
            &&& counted.queries == tally.queries + 1
            &&& actual is Some ==> counted.direct == tally.direct + 1 && counted.parse_failures
                == tally.parse_failures
            &&& actual is None ==> counted.direct == tally.direct && counted.parse_failures
                == tally.parse_failures + 1
            &&& (actual is None || actual == Some(expected)) ==> counted.direct_mismatches
                == tally.direct_mismatches && !show
            &&& actual == Some(!expected) ==> counted.direct_mismatches == tally.direct_mismatches
                + 1 && (show <==> tally.direct_mismatches < 20)
        }),
        classifier_failed(tally) <==> tally.direct_mismatches > 0 || tally.parse_failures > 0,
{
}

/// The fast parser is held to the vector and the key that were expected: both the same is right,
/// anything else is counted as a mismatch.
pub proof fn law_the_fast_parser_is_held_to_what_was_expected(
    tally: ParserTally,
    expected: ([i16; 16], u16),
    actual: Option<([i16; 16], u16)>,
)
    requires
        tally.well_formed(),
        tally.queries < u64::MAX,
    ensures
        actual is None ==> parser_verdict(expected, actual) is Failed,
        actual matches Some((vector, key)) ==> {
            &&& parser_verdict(expected, actual) is Same <==> key == expected.1 && forall|i: int|
                0 <= i < 16 ==> #[trigger] vector@[i] == expected.0@[i]
            &&& !(parser_verdict(expected, actual) is Failed)
        },
        parser_counted(tally, parser_verdict(expected, actual)).queries == tally.queries + 1,
        parser_verdict(expected, actual) is Same ==> parser_counted(
            tally,
            parser_verdict(expected, actual),
        ).mismatches == tally.mismatches,
        !(parser_verdict(expected, actual) is Same) ==> parser_counted(
            tally,
            parser_verdict(expected, actual),
        ).mismatches == tally.mismatches + 1,
{
    if let Some((vector, key)) = actual {
        if forall|i: int| 0 <= i < 16 ==> #[trigger] vector@[i] == expected.0@[i] {
            assert(vector@ =~= expected.0@);
        }
    }
}

/// The line of a tally tells of each of its numbers behind its name.
pub proof fn law_tallies_are_told(tally: ClassifierTally, parsed: ParserTally)
    ensures
        classifier_line(tally) == ascii("{\"queries\":"@) + numeral(tally.queries as nat) + ascii(
            ",\"direct\":"@,
        ) + numeral(tally.direct as nat) + ascii(",\"parse_failures\":"@) + numeral(
            tally.parse_failures as nat,
        ) + ascii(",\"direct_mismatches\":"@) + numeral(tally.direct_mismatches as nat) + ascii(
            "}"@,
        ),
        parser_line(parsed) == ascii("{\"queries\":"@) + numeral(parsed.queries as nat) + ascii(
            ",\"mismatches\":"@,
        ) + numeral(parsed.mismatches as nat) + ascii("}"@),
{
}

/// Each text stands behind its own label, in order.
pub proof fn law_texts_stand_behind_their_labels(
    labels: Seq<&'static str>,
    texts: Seq<Seq<u8>>,
    label: &'static str,
    text: Seq<u8>,
)
    requires
        labels.len() == texts.len(),
    ensures
        labelled(labels.push(label), texts.push(text)) == labelled(labels, texts) + ascii(label@)
            + text,
        labelled(Seq::<&'static str>::empty(), Seq::<Seq<u8>>::empty()) == Seq::<u8>::empty(),
{
    assert(labels.push(label).drop_last() =~= labels);
    assert(texts.push(text).drop_last() =~= texts);
}

/// The line on a request tells of its kind, its number, how it went and its route, and then of what
/// was measured.
pub proof fn law_a_request_is_told_of(kind: Seq<u8>, t: RequestTrace, status: Seq<u8>)
    ensures
        request_line(kind, t, status) == ascii("{\"kind\":\""@) + kind + ascii(
            "\",\"request_id\":"@,
        ) + numeral(t.request_id as nat) + ascii(",\"status\":\""@) + status + ascii(
            "\",\"route\":\""@,
        ) + encode_utf8(t.route@) + labelled(request_labels(), numerals(told_of_request(t)))
            + ascii("}}"@),
        forall|i: int|
            0 <= i < told_of_request(t).len() ==> #[trigger] numerals(told_of_request(t))[i]
                == numeral(told_of_request(t)[i] as nat),
{
}

/// The line on many requests tells how many there are, how the last one went, the sums and the
/// columns; each sum is over its own values, and each column is told of by its own values.
pub proof fn law_many_requests_are_told_of<A: Fn(u128, usize) -> Vec<u8>>(
    average: A,
    records: Seq<RequestTrace>,
    status: Seq<u8>,
    line: Seq<u8>,
)
    requires
        is_summary(average, records, status, line),
    ensures
        exists|texts: Seq<Seq<u8>>|
            {
                &&& texts.len() == 17
                &&& forall|i: int|
                    0 <= i < 17 ==> is_stats(average, column(records, i), #[trigger] texts[i])
                &&& line == ascii("{\"kind\":\"lb_summary\",\"requests\":"@) + numeral(records.len())
                    + ascii(",\"last_status\":\""@) + status + ascii("\""@) + labelled(
                    sum_labels(),
                    sums(records),
                ) + #[trigger] labelled(column_labels(), texts) + ascii("}}"@)
            },
        sums(records).len() == 7,
        forall|i: int|
            0 <= i < 7 ==> #[trigger] sums(records)[i] == numeral(sum(summed_column(records, i))),
        sum_labels().len() == 7,
        column_labels().len() == 17,
{
    let texts = choose|texts: Seq<Seq<u8>>|
        {
            &&& texts.len() == 17
            &&& forall|i: int|
                0 <= i < 17 ==> is_stats(average, column(records, i), #[trigger] texts[i])
            &&& line == #[trigger] summary_line(records, status, texts)
        };
    assert(line == ascii("{\"kind\":\"lb_summary\",\"requests\":"@) + numeral(records.len()) + ascii(
        ",\"last_status\":\""@,
    ) + status + ascii("\""@) + labelled(sum_labels(), sums(records)) + labelled(
        column_labels(),
        texts,
    ) + ascii("}}"@));
}

} // verus!
