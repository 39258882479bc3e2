//! What is measured of each request, and what is told of it.
use vstd::prelude::*;
use vstd::utf8::encode_utf8;

use crate::bytes::{append, ascii};
use crate::decimal::numeral;
use crate::stats::{is_stats, push_number, push_text, stats_json, sum, total};

verus! {

/// What is measured of a request; the times are in microseconds.
#[derive(Debug, Clone, Copy)]
pub struct RequestTrace {
    pub request_id: u64,
    pub route: &'static str,
    pub body_len: u64,
    pub accept_to_read_us: u64,
    pub client_wait_us: u64,
    pub client_read_us: u64,
    pub request_parse_us: u64,
    pub pool_permit_wait_us: u64,
    pub idle_lock_us: u64,
    pub upstream_connect_us: u64,
    pub upstream_write_us: u64,
    pub upstream_write_header_us: u64,
    pub upstream_write_body_us: u64,
    pub upstream_wait_header_us: u64,
    pub upstream_read_body_us: u64,
    pub client_write_us: u64,
    pub total_us: u64,
    pub backend_idx: u8,
    pub backend0: u64,
    pub backend1: u64,
    pub idle_hits: u64,
    pub idle_misses: u64,
    pub active_clients_at_start: u64,
    pub max_active_clients_seen: u64,
    pub retries: u64,
    pub reconnects: u64,
    pub status_5xx: u64,
}

/// Nothing measured yet.
pub open spec fn blank_trace() -> RequestTrace {
    RequestTrace {
            request_id: 0,
            route: "",
            body_len: 0,
            accept_to_read_us: 0,
            client_wait_us: 0,
            client_read_us: 0,
            request_parse_us: 0,
            pool_permit_wait_us: 0,
            idle_lock_us: 0,
            upstream_connect_us: 0,
            upstream_write_us: 0,
            upstream_write_header_us: 0,
            upstream_write_body_us: 0,
            upstream_wait_header_us: 0,
            upstream_read_body_us: 0,
            client_write_us: 0,
            total_us: 0,
            backend_idx: 0,
            backend0: 0,
            backend1: 0,
            idle_hits: 0,
            idle_misses: 0,
            active_clients_at_start: 0,
            max_active_clients_seen: 0,
            retries: 0,
            reconnects: 0,
            status_5xx: 0,
    }
}

impl Default for RequestTrace {
    fn default() -> (trace: Self)
        ensures
            trace == blank_trace(),
    {
        RequestTrace {
            request_id: 0,
            route: "",
            body_len: 0,
            accept_to_read_us: 0,
            client_wait_us: 0,
            client_read_us: 0,
            request_parse_us: 0,
            pool_permit_wait_us: 0,
            idle_lock_us: 0,
            upstream_connect_us: 0,
            upstream_write_us: 0,
            upstream_write_header_us: 0,
            upstream_write_body_us: 0,
            upstream_wait_header_us: 0,
            upstream_read_body_us: 0,
            client_write_us: 0,
            total_us: 0,
            backend_idx: 0,
            backend0: 0,
            backend1: 0,
            idle_hits: 0,
            idle_misses: 0,
            active_clients_at_start: 0,
            max_active_clients_seen: 0,
            retries: 0,
            reconnects: 0,
            status_5xx: 0,
        }
    }
}

/// The labels of what is told of a request.
pub open spec fn request_labels() -> Seq<&'static str> {
    seq![
        "\",\"backend_idx\":",
        ",\"body_len\":",
        ",\"idle_hits\":",
        ",\"idle_misses\":",
        ",\"retries\":",
        ",\"reconnects\":",
        ",\"status_5xx\":",
        ",\"client_concurrency\":{\"at_start\":",
        ",\"max_seen\":",
        "},\"timings_us\":{\"accept_to_read\":",
        ",\"client_wait\":",
        ",\"client_read\":",
        ",\"request_parse\":",
        ",\"pool_permit_wait\":",
        ",\"idle_lock\":",
        ",\"upstream_connect\":",
        ",\"upstream_write\":",
        ",\"upstream_write_header\":",
        ",\"upstream_write_body\":",
        ",\"upstream_wait_header\":",
        ",\"upstream_read_body\":",
        ",\"client_write\":",
        ",\"total\":",
    ]
}

fn write_request_labels() -> (labels: Vec<&'static str>)
    ensures
        labels@ == request_labels(),
        forall|i: int| 0 <= i < labels@.len() ==> (#[trigger] labels@[i]).is_ascii(),
{
    proof {
        reveal_strlit("\",\"backend_idx\":");
        reveal_strlit(",\"body_len\":");
        reveal_strlit(",\"idle_hits\":");
        reveal_strlit(",\"idle_misses\":");
        reveal_strlit(",\"retries\":");
        reveal_strlit(",\"reconnects\":");
        reveal_strlit(",\"status_5xx\":");
        reveal_strlit(",\"client_concurrency\":{\"at_start\":");
        reveal_strlit(",\"max_seen\":");
        reveal_strlit("},\"timings_us\":{\"accept_to_read\":");
        reveal_strlit(",\"client_wait\":");
        reveal_strlit(",\"client_read\":");
        reveal_strlit(",\"request_parse\":");
        reveal_strlit(",\"pool_permit_wait\":");
        reveal_strlit(",\"idle_lock\":");
        reveal_strlit(",\"upstream_connect\":");
        reveal_strlit(",\"upstream_write\":");
        reveal_strlit(",\"upstream_write_header\":");
        reveal_strlit(",\"upstream_write_body\":");
        reveal_strlit(",\"upstream_wait_header\":");
        reveal_strlit(",\"upstream_read_body\":");
        reveal_strlit(",\"client_write\":");
        reveal_strlit(",\"total\":");
    }
    let labels: Vec<&'static str> = vec![
        "\",\"backend_idx\":",
        ",\"body_len\":",
        ",\"idle_hits\":",
        ",\"idle_misses\":",
        ",\"retries\":",
        ",\"reconnects\":",
        ",\"status_5xx\":",
        ",\"client_concurrency\":{\"at_start\":",
        ",\"max_seen\":",
        "},\"timings_us\":{\"accept_to_read\":",
        ",\"client_wait\":",
        ",\"client_read\":",
        ",\"request_parse\":",
        ",\"pool_permit_wait\":",
        ",\"idle_lock\":",
        ",\"upstream_connect\":",
        ",\"upstream_write\":",
        ",\"upstream_write_header\":",
        ",\"upstream_write_body\":",
        ",\"upstream_wait_header\":",
        ",\"upstream_read_body\":",
        ",\"client_write\":",
        ",\"total\":",
    ];
    assert(labels@ =~= request_labels());
    labels
}

/// What is told of a request.
pub open spec fn told_of_request(t: RequestTrace) -> Seq<u64> {
    seq![
        t.backend_idx as u64,
        t.body_len,
        t.idle_hits,
        t.idle_misses,
        t.retries,
        t.reconnects,
        t.status_5xx,
        t.active_clients_at_start,
        t.max_active_clients_seen,
        t.accept_to_read_us,
        t.client_wait_us,
        t.client_read_us,
        t.request_parse_us,
        t.pool_permit_wait_us,
        t.idle_lock_us,
        t.upstream_connect_us,
        t.upstream_write_us,
        t.upstream_write_header_us,
        t.upstream_write_body_us,
        t.upstream_wait_header_us,
        t.upstream_read_body_us,
        t.client_write_us,
        t.total_us,
    ]
}

fn request_values(t: &RequestTrace) -> (values: Vec<u64>)
    ensures
        values@ == told_of_request(*t),
{
    let values: Vec<u64> = vec![
        t.backend_idx as u64,
        t.body_len,
        t.idle_hits,
        t.idle_misses,
        t.retries,
        t.reconnects,
        t.status_5xx,
        t.active_clients_at_start,
        t.max_active_clients_seen,
        t.accept_to_read_us,
        t.client_wait_us,
        t.client_read_us,
        t.request_parse_us,
        t.pool_permit_wait_us,
        t.idle_lock_us,
        t.upstream_connect_us,
        t.upstream_write_us,
        t.upstream_write_header_us,
        t.upstream_write_body_us,
        t.upstream_wait_header_us,
        t.upstream_read_body_us,
        t.client_write_us,
        t.total_us,
    ];
    assert(values@ =~= told_of_request(*t));
    values
}

/// The labels of the sums over many requests.
pub open spec fn sum_labels() -> Seq<&'static str> {
    seq![
        ",\"backend0\":",
        ",\"backend1\":",
        ",\"idle_hits\":",
        ",\"idle_misses\":",
        ",\"retries\":",
        ",\"reconnects\":",
        ",\"status_5xx\":",
    ]
}

fn write_sum_labels() -> (labels: Vec<&'static str>)
    ensures
        labels@ == sum_labels(),
        forall|i: int| 0 <= i < labels@.len() ==> (#[trigger] labels@[i]).is_ascii(),
{
    proof {
        reveal_strlit(",\"backend0\":");
        reveal_strlit(",\"backend1\":");
        reveal_strlit(",\"idle_hits\":");
        reveal_strlit(",\"idle_misses\":");
        reveal_strlit(",\"retries\":");
        reveal_strlit(",\"reconnects\":");
        reveal_strlit(",\"status_5xx\":");
    }
    let labels: Vec<&'static str> = vec![
        ",\"backend0\":",
        ",\"backend1\":",
        ",\"idle_hits\":",
        ",\"idle_misses\":",
        ",\"retries\":",
        ",\"reconnects\":",
        ",\"status_5xx\":",
    ];
    assert(labels@ =~= sum_labels());
    labels
}

/// What is summed over many requests.
pub open spec fn summed(t: RequestTrace) -> Seq<u64> {
    seq![
        t.backend0,
        t.backend1,
        t.idle_hits,
        t.idle_misses,
        t.retries,
        t.reconnects,
        t.status_5xx,
    ]
}

fn summed_values(t: &RequestTrace) -> (values: Vec<u64>)
    ensures
        values@ == summed(*t),
{
    let values: Vec<u64> = vec![
        t.backend0,
        t.backend1,
        t.idle_hits,
        t.idle_misses,
        t.retries,
        t.reconnects,
        t.status_5xx,
    ];
    assert(values@ =~= summed(*t));
    values
}

/// The labels of what is told of many requests.
pub open spec fn column_labels() -> Seq<&'static str> {
    seq![
        ",\"client_concurrency\":{\"at_start\":",
        ",\"max_seen\":",
        "},\"request_counters\":{\"body_len\":",
        "},\"timings_us\":{\"accept_to_read\":",
        ",\"client_wait\":",
        ",\"client_read\":",
        ",\"request_parse\":",
        ",\"pool_permit_wait\":",
        ",\"idle_lock\":",
        ",\"upstream_connect\":",
        ",\"upstream_write\":",
        ",\"upstream_write_header\":",
        ",\"upstream_write_body\":",
        ",\"upstream_wait_header\":",
        ",\"upstream_read_body\":",
        ",\"client_write\":",
        ",\"total\":",
    ]
}

fn write_column_labels() -> (labels: Vec<&'static str>)
    ensures
        labels@ == column_labels(),
        forall|i: int| 0 <= i < labels@.len() ==> (#[trigger] labels@[i]).is_ascii(),
{
    proof {
        reveal_strlit(",\"client_concurrency\":{\"at_start\":");
        reveal_strlit(",\"max_seen\":");
        reveal_strlit("},\"request_counters\":{\"body_len\":");
        reveal_strlit("},\"timings_us\":{\"accept_to_read\":");
        reveal_strlit(",\"client_wait\":");
        reveal_strlit(",\"client_read\":");
        reveal_strlit(",\"request_parse\":");
        reveal_strlit(",\"pool_permit_wait\":");
        reveal_strlit(",\"idle_lock\":");
        reveal_strlit(",\"upstream_connect\":");
        reveal_strlit(",\"upstream_write\":");
        reveal_strlit(",\"upstream_write_header\":");
        reveal_strlit(",\"upstream_write_body\":");
        reveal_strlit(",\"upstream_wait_header\":");
        reveal_strlit(",\"upstream_read_body\":");
        reveal_strlit(",\"client_write\":");
        reveal_strlit(",\"total\":");
    }
    let labels: Vec<&'static str> = vec![
        ",\"client_concurrency\":{\"at_start\":",
        ",\"max_seen\":",
        "},\"request_counters\":{\"body_len\":",
        "},\"timings_us\":{\"accept_to_read\":",
        ",\"client_wait\":",
        ",\"client_read\":",
        ",\"request_parse\":",
        ",\"pool_permit_wait\":",
        ",\"idle_lock\":",
        ",\"upstream_connect\":",
        ",\"upstream_write\":",
        ",\"upstream_write_header\":",
        ",\"upstream_write_body\":",
        ",\"upstream_wait_header\":",
        ",\"upstream_read_body\":",
        ",\"client_write\":",
        ",\"total\":",
    ];
    assert(labels@ =~= column_labels());
    labels
}

/// What is told of many requests.
pub open spec fn columns(t: RequestTrace) -> Seq<u64> {
    seq![
        t.active_clients_at_start,
        t.max_active_clients_seen,
        t.body_len,
        t.accept_to_read_us,
        t.client_wait_us,
        t.client_read_us,
        t.request_parse_us,
        t.pool_permit_wait_us,
        t.idle_lock_us,
        t.upstream_connect_us,
        t.upstream_write_us,
        t.upstream_write_header_us,
        t.upstream_write_body_us,
        t.upstream_wait_header_us,
        t.upstream_read_body_us,
        t.client_write_us,
        t.total_us,
    ]
}

fn column_values(t: &RequestTrace) -> (values: Vec<u64>)
    ensures
        values@ == columns(*t),
{
    let values: Vec<u64> = vec![
        t.active_clients_at_start,
        t.max_active_clients_seen,
        t.body_len,
        t.accept_to_read_us,
        t.client_wait_us,
        t.client_read_us,
        t.request_parse_us,
        t.pool_permit_wait_us,
        t.idle_lock_us,
        t.upstream_connect_us,
        t.upstream_write_us,
        t.upstream_write_header_us,
        t.upstream_write_body_us,
        t.upstream_wait_header_us,
        t.upstream_read_body_us,
        t.client_write_us,
        t.total_us,
    ];
    assert(values@ =~= columns(*t));
    values
}

/// Texts behind their labels.
pub open spec fn labelled(labels: Seq<&'static str>, texts: Seq<Seq<u8>>) -> Seq<u8>
    decreases labels.len(),
{
    if labels.len() == 0 {
        seq![]
    } else {
        labelled(labels.drop_last(), texts.drop_last()) + ascii(labels.last()@) + texts.last()
    }
}

/// The numerals of numbers.
pub open spec fn numerals(values: Seq<u64>) -> Seq<Seq<u8>> {
    values.map_values(|value: u64| numeral(value as nat))
}

proof fn lemma_labelled_step(labels: Seq<&'static str>, texts: Seq<Seq<u8>>, i: int)
    requires
        0 <= i < labels.len(),
        labels.len() == texts.len(),
    ensures
        labelled(labels.take(i + 1), texts.take(i + 1)) == labelled(labels.take(i), texts.take(i))
            + ascii(labels[i]@) + texts[i],
{
    assert(labels.take(i + 1).drop_last() =~= labels.take(i));
    assert(texts.take(i + 1).drop_last() =~= texts.take(i));
}

/// Puts numbers behind their labels, and them behind what `out` holds.
fn push_labelled(out: &mut Vec<u8>, labels: &Vec<&'static str>, values: &Vec<u64>)
    requires
        labels@.len() == values@.len(),
        forall|i: int| 0 <= i < labels@.len() ==> (#[trigger] labels@[i]).is_ascii(),
    ensures
        final(out)@ == old(out)@ + labelled(labels@, numerals(values@)),
{
    let mut i: usize = 0;
    let ghost texts = numerals(values@);
    assert(out@ =~= old(out)@ + labelled(labels@.take(0), texts.take(0)));
    while i < labels.len()
        invariant
            i <= labels@.len() == values@.len(),
            texts == numerals(values@),
            forall|k: int| 0 <= k < labels@.len() ==> (#[trigger] labels@[k]).is_ascii(),
            out@ == old(out)@ + labelled(labels@.take(i as int), texts.take(i as int)),
        decreases labels@.len() - i,
    {
        assert(labels@[i as int].is_ascii());
        let ghost before = out@;
        push_text(out, labels[i]);
        push_number(out, values[i] as u128);
        proof {
            lemma_labelled_step(labels@, texts, i as int);
            assert(texts[i as int] == numeral(values@[i as int] as nat));
            assert(out@ =~= before + (ascii(labels@[i as int]@) + texts[i as int]));
            assert(out@ =~= old(out)@ + labelled(labels@.take(i + 1), texts.take(i + 1)));
        }
        i = i + 1;
    }
    assert(labels@.take(i as int) =~= labels@);
    assert(texts.take(i as int) =~= texts);
}

/// The line on one request.
pub open spec fn request_line(kind: Seq<u8>, t: RequestTrace, status: Seq<u8>) -> Seq<u8> {
    ascii("{\"kind\":\""@) + kind + ascii("\",\"request_id\":"@) + numeral(t.request_id as nat) + ascii(
        ",\"status\":\""@,
    ) + status + ascii("\",\"route\":\""@) + encode_utf8(t.route@) + labelled(
        request_labels(),
        numerals(told_of_request(t)),
    ) + ascii("}}"@)
}

/// Tells of one request.
pub fn emit_request_trace(kind: &str, trace: &RequestTrace, status: &str) -> (line: Vec<u8>)
    ensures
        line@ == request_line(encode_utf8(kind@), *trace, encode_utf8(status@)),
{
    proof {
        reveal_strlit("{\"kind\":\"");
        reveal_strlit("\",\"request_id\":");
        reveal_strlit(",\"status\":\"");
        reveal_strlit("\",\"route\":\"");
        reveal_strlit("}}");
    }
    let mut out: Vec<u8> = Vec::new();
    push_text(&mut out, "{\"kind\":\"");
    append(&mut out, kind.as_bytes());
    push_text(&mut out, "\",\"request_id\":");
    push_number(&mut out, trace.request_id as u128);
    push_text(&mut out, ",\"status\":\"");
    append(&mut out, status.as_bytes());
    push_text(&mut out, "\",\"route\":\"");
    append(&mut out, trace.route.as_bytes());
    let labels = write_request_labels();
    let values = request_values(trace);
    push_labelled(&mut out, &labels, &values);
    push_text(&mut out, "}}");
    assert(out@ =~= request_line(encode_utf8(kind@), *trace, encode_utf8(status@)));
    out
}

/// One of the values that are told of many requests, of each of them.
pub open spec fn column(records: Seq<RequestTrace>, i: int) -> Seq<u64> {
    records.map_values(|t: RequestTrace| columns(t)[i])
}

/// One of the values that are summed, of each request.
pub open spec fn summed_column(records: Seq<RequestTrace>, i: int) -> Seq<u64> {
    records.map_values(|t: RequestTrace| summed(t)[i])
}

/// The sums over the requests, as numerals.
pub open spec fn sums(records: Seq<RequestTrace>) -> Seq<Seq<u8>> {
    Seq::new(7, |i: int| numeral(sum(summed_column(records, i))))
}

/// The line on many requests, of whose columns `texts` tells.
pub open spec fn summary_line(
    records: Seq<RequestTrace>,
    status: Seq<u8>,
    texts: Seq<Seq<u8>>,
) -> Seq<u8> {
    ascii("{\"kind\":\"lb_summary\",\"requests\":"@) + numeral(records.len()) + ascii(
        ",\"last_status\":\""@,
    ) + status + ascii("\""@) + labelled(sum_labels(), sums(records)) + labelled(
        column_labels(),
        texts,
    ) + ascii("}}"@)
}

/// `line` may be told of these requests, with the averages that `average` writes.
pub open spec fn is_summary<A: Fn(u128, usize) -> Vec<u8>>(
    average: A,
    records: Seq<RequestTrace>,
    status: Seq<u8>,
    line: Seq<u8>,
) -> bool {
    exists|texts: Seq<Seq<u8>>|
        {
            &&& texts.len() == 17
            &&& forall|i: int|
                0 <= i < 17 ==> is_stats(average, column(records, i), #[trigger] texts[i])
            &&& line == #[trigger] summary_line(records, status, texts)
        }
}

fn read_column(records: &Vec<RequestTrace>, i: usize) -> (r: Vec<u64>)
    requires
        i < 17,
    ensures
        r@ == column(records@, i as int),
{
    let mut r: Vec<u64> = Vec::new();
    let mut k: usize = 0;
    while k < records.len()
        invariant
            i < 17,
            k <= records@.len(),
            r@.len() == k,
            forall|j: int| 0 <= j < k ==> r@[j] == columns(records@[j])[i as int],
        decreases records@.len() - k,
    {
        let values = column_values(&records[k]);
        r.push(values[i]);
        k = k + 1;
    }
    assert(r@ =~= column(records@, i as int));
    r
}

fn sum_column(records: &Vec<RequestTrace>, i: usize) -> (r: u128)
    requires
        i < 7,
    ensures
        r == sum(summed_column(records@, i as int)),
{
    let mut column: Vec<u64> = Vec::new();
    let mut k: usize = 0;
    while k < records.len()
        invariant
            i < 7,
            k <= records@.len(),
            column@.len() == k,
            forall|j: int| 0 <= j < k ==> column@[j] == summed(records@[j])[i as int],
        decreases records@.len() - k,
    {
        let values = summed_values(&records[k]);
        column.push(values[i]);
        k = k + 1;
    }
    assert(column@ =~= summed_column(records@, i as int));
    total(column.as_slice())
}

/// Tells of many requests; `average` writes the average of a sum over a count.
pub fn emit_summary<A: Fn(u128, usize) -> Vec<u8>>(
    records: &Vec<RequestTrace>,
    last_status: &str,
    average: &A,
) -> (line: Vec<u8>)
    requires
        forall|s: u128, n: usize| call_requires(*average, (s, n)),
    ensures
        is_summary(*average, records@, encode_utf8(last_status@), line@),
{
    proof {
        reveal_strlit("{\"kind\":\"lb_summary\",\"requests\":");
        reveal_strlit(",\"last_status\":\"");
        reveal_strlit("\"");
        reveal_strlit("}}");
    }
    let ghost status = encode_utf8(last_status@);
    let mut out: Vec<u8> = Vec::new();
    push_text(&mut out, "{\"kind\":\"lb_summary\",\"requests\":");
    push_number(&mut out, records.len() as u128);
    push_text(&mut out, ",\"last_status\":\"");
    append(&mut out, last_status.as_bytes());
    push_text(&mut out, "\"");
    let ghost head = out@;
    let sum_names = write_sum_labels();
    let mut i: usize = 0;
    assert(out@ =~= head + labelled(sum_names@.take(0), sums(records@).take(0)));
    while i < 7
        invariant
            i <= 7,
            sum_names@ == sum_labels(),
            forall|k: int| 0 <= k < sum_names@.len() ==> (#[trigger] sum_names@[k]).is_ascii(),
            out@ == head + labelled(sum_names@.take(i as int), sums(records@).take(i as int)),
        decreases 7 - i,
    {
        assert(sum_names@[i as int].is_ascii());
        let ghost before = out@;
        push_text(&mut out, sum_names[i]);
        push_number(&mut out, sum_column(records, i));
        proof {
            let all = sums(records@);
            lemma_labelled_step(sum_names@, all, i as int);
            assert(all[i as int] == numeral(sum(summed_column(records@, i as int))));
            assert(out@ =~= before + (ascii(sum_names@[i as int]@) + all[i as int]));
            assert(out@ =~= head + labelled(sum_names@.take(i + 1), all.take(i + 1)));
        }
        i = i + 1;
    }
    proof {
        assert(sum_names@.take(7) =~= sum_names@);
        assert(sums(records@).take(7) =~= sums(records@));
    }
    let ghost middle = out@;
    let names = write_column_labels();
    let ghost mut texts: Seq<Seq<u8>> = seq![];
    let mut k: usize = 0;
    assert(out@ =~= middle + labelled(names@.take(0), texts));
    while k < 17
        invariant
            k <= 17,
            names@ == column_labels(),
            forall|j: int| 0 <= j < names@.len() ==> (#[trigger] names@[j]).is_ascii(),
            forall|s: u128, n: usize| call_requires(*average, (s, n)),
            texts.len() == k,
            forall|j: int|
                0 <= j < k ==> is_stats(*average, column(records@, j), #[trigger] texts[j]),
            out@ == middle + labelled(names@.take(k as int), texts),
        decreases 17 - k,
    {
        assert(names@[k as int].is_ascii());
        let ghost before = out@;
        let ghost so_far = texts;
        push_text(&mut out, names[k]);
        let text = stats_json(read_column(records, k), average);
        append(&mut out, text.as_slice());
        proof {
            texts = so_far.push(text@);
            assert(names@.take(k + 1).drop_last() =~= names@.take(k as int));
            assert(texts.drop_last() =~= so_far);
            assert(out@ =~= before + (ascii(names@[k as int]@) + text@));
            assert(out@ =~= middle + labelled(names@.take(k + 1), texts));
        }
        k = k + 1;
    }
    assert(names@.take(17) =~= names@);
    push_text(&mut out, "}}");
    assert(out@ =~= summary_line(records@, status, texts));
    out
}

/// The measuring of requests: which are told of one by one, and after how many all are.
#[derive(Debug)]
pub struct Metrics {
    pub every: usize,
    pub slow_us: u64,
    pub sample: u64,
    pub request_seq: u64,
    pub window: Vec<RequestTrace>,
}

/// What there is to tell after a request.
#[derive(Debug)]
pub struct Emitted {
    pub request: Option<Vec<u8>>,
    pub summary: Option<Vec<u8>>,
}

/// The kind of line that a request is told of in, if it is: a slow one always, another one if it
/// falls into the sample.
pub open spec fn told_as(t: RequestTrace, slow_us: u64, sample: u64) -> Option<Seq<char>> {
    if t.total_us >= slow_us {
        Some("lb_slow_request"@)
    } else if sample > 0 && t.request_id % sample == 0 {
        Some("lb_sample_request"@)
    } else {
        None
    }
}

/// The window when a request is taken into it, and whether it was full and starts anew.
pub open spec fn window_recorded(
    window: Seq<RequestTrace>,
    every: int,
    trace: RequestTrace,
) -> (Seq<RequestTrace>, bool) {
    if window.len() + 1 >= every {
        (Seq::empty(), true)
    } else {
        (window.push(trace), false)
    }
}

/// The number of the request behind this one.
pub open spec fn next_id(id: u64) -> u64 {
    if id < u64::MAX {
        (id + 1) as u64
    } else {
        0
    }
}

impl Metrics {
    /// Nothing measured yet.
    pub fn new(every: usize, slow_us: u64, sample: u64) -> (metrics: Self)
        ensures
            metrics.every == every,
            metrics.slow_us == slow_us,
            metrics.sample == sample,
            metrics.request_seq == 0,
            metrics.window@ == Seq::<RequestTrace>::empty(),
    {
        Metrics { every, slow_us, sample, request_seq: 0, window: Vec::new() }
    }

    /// The number of the next request.
    pub fn next_request_id(&mut self) -> (id: u64)
        ensures
            id == (old(self).request_seq + 1) % 0x1_0000_0000_0000_0000,
            id == next_id(old(self).request_seq),
            final(self).request_seq == id,
            final(self).every == old(self).every,
            final(self).slow_us == old(self).slow_us,
            final(self).sample == old(self).sample,
            final(self).window == old(self).window,
    {
        self.request_seq = self.request_seq.wrapping_add(1);
        self.request_seq
    }

    /// Takes a request into the window, and gives what there is to tell: of the request, and of the
    /// whole window once it is full, which then starts anew.
    pub fn record<A: Fn(u128, usize) -> Vec<u8>>(
        &mut self,
        trace: RequestTrace,
        status: &str,
        average: &A,
    ) -> (emitted: Emitted)
        requires
            forall|s: u128, n: usize| call_requires(*average, (s, n)),
        ensures
            final(self).every == old(self).every,
            final(self).slow_us == old(self).slow_us,
            final(self).sample == old(self).sample,
            final(self).request_seq == old(self).request_seq,
            (final(self).window@, emitted.summary is Some) == window_recorded(
                old(self).window@,
                old(self).every as int,
                trace,
            ),
            match (told_as(trace, old(self).slow_us, old(self).sample), emitted.request) {
                (None, None) => true,
                (Some(kind), Some(line)) => line@ == request_line(
                    encode_utf8(kind),
                    trace,
                    encode_utf8(status@),
                ),
                _ => false,
            },
            match emitted.summary {
                None => {
                    &&& old(self).window@.len() + 1 < old(self).every
                    &&& final(self).window@ == old(self).window@.push(trace)
                },
                Some(line) => {
                    &&& old(self).window@.len() + 1 >= old(self).every
                    &&& final(self).window@ == Seq::<RequestTrace>::empty()
                    &&& is_summary(
                        *average,
                        old(self).window@.push(trace),
                        encode_utf8(status@),
                        line@,
                    )
                },
            },
    {
        let request = if trace.total_us >= self.slow_us {
            Some(emit_request_trace("lb_slow_request", &trace, status))
        } else if self.sample > 0 && trace.request_id % self.sample == 0 {
            Some(emit_request_trace("lb_sample_request", &trace, status))
        } else {
            None
        };
        self.window.push(trace);
        let summary = if self.window.len() >= self.every {
            let line = emit_summary(&self.window, status, average);
            self.window = Vec::new();
            Some(line)
        } else {
            None
        };
        Emitted { request, summary }
    }
}

} // verus!
