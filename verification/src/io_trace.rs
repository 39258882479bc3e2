//! How long the stages of a request take.
use vstd::prelude::*;

use crate::bytes::{append, ascii};
use crate::decimal::numeral;
use crate::stats::{
    largest, lemma_in_order, order, percentile, percentile_of, push_number, push_text, sum, total,
};

verus! {

/// The times that reading, scoring and writing took, in nanoseconds.
#[derive(Debug)]
pub struct IoTrace {
    pub enabled: bool,
    pub every: usize,
    pub read_ns: Vec<u64>,
    pub score_ns: Vec<u64>,
    pub write_ns: Vec<u64>,
}

/// What is told of the times of a stage whose average reads `average`.
pub open spec fn stage_text(values: Seq<u64>, average: Seq<u8>) -> Seq<u8> {
    if values.len() == 0 {
        ascii("{\"p50\":0,\"p99\":0,\"max\":0,\"avg\":0.0}"@)
    } else {
        ascii("{\"p50\":"@) + numeral(percentile_of(values, 50) as nat) + ascii(",\"p99\":"@)
            + numeral(percentile_of(values, 99) as nat) + ascii(",\"max\":"@) + numeral(
            largest(values) as nat,
        ) + ascii(",\"avg\":"@) + average + ascii("}"@)
    }
}

/// `text` is what may be told of the times of a stage, with the average that `average` writes.
pub open spec fn is_stage<A: Fn(u128, usize) -> Vec<u8>>(
    average: A,
    values: Seq<u64>,
    text: Seq<u8>,
) -> bool {
    if values.len() == 0 {
        text == stage_text(values, seq![])
    } else {
        exists|written: Vec<u8>|
            call_ensures(average, (sum(values) as u128, values.len() as usize), written) && text
                == #[trigger] stage_text(values, written@)
    }
}

fn copy(values: &Vec<u64>) -> (r: Vec<u64>)
    ensures
        r@ == values@,
{
    let mut r: Vec<u64> = Vec::new();
    let mut i: usize = 0;
    while i < values.len()
        invariant
            i <= values@.len(),
            r@ == values@.take(i as int),
        decreases values@.len() - i,
    {
        r.push(values[i]);
        i = i + 1;
        assert(r@ =~= values@.take(i as int));
    }
    assert(r@ =~= values@);
    r
}

/// Tells of the times of a stage; `average` writes the average of a sum over a count.
pub fn stat<A: Fn(u128, usize) -> Vec<u8>>(values: &Vec<u64>, average: &A) -> (r: Vec<u8>)
    requires
        forall|s: u128, n: usize| call_requires(*average, (s, n)),
    ensures
        is_stage(*average, values@, r@),
{
    proof {
        reveal_strlit("{\"p50\":0,\"p99\":0,\"max\":0,\"avg\":0.0}");
        reveal_strlit("{\"p50\":");
        reveal_strlit(",\"p99\":");
        reveal_strlit(",\"max\":");
        reveal_strlit(",\"avg\":");
        reveal_strlit("}");
    }
    let mut out: Vec<u8> = Vec::new();
    if values.len() == 0 {
        push_text(&mut out, "{\"p50\":0,\"p99\":0,\"max\":0,\"avg\":0.0}");
        assert(out@ =~= stage_text(values@, seq![]));
        return out;
    }
    let whole: u128 = total(values.as_slice());
    let count: usize = values.len();
    proof {
        lemma_in_order(values@);
    }
    let ordered = order(copy(values));
    let written = average(whole, count);
    push_text(&mut out, "{\"p50\":");
    push_number(&mut out, percentile(ordered.as_slice(), 50) as u128);
    push_text(&mut out, ",\"p99\":");
    push_number(&mut out, percentile(ordered.as_slice(), 99) as u128);
    push_text(&mut out, ",\"max\":");
    push_number(&mut out, ordered[count - 1] as u128);
    push_text(&mut out, ",\"avg\":");
    append(&mut out, written.as_slice());
    push_text(&mut out, "}");
    assert(out@ =~= stage_text(values@, written@));
    out
}

/// The line on the times of the three stages.
pub open spec fn trace_line(samples: nat, read: Seq<u8>, score: Seq<u8>, write: Seq<u8>) -> Seq<
    u8,
> {
    ascii("{\"kind\":\"io_trace\",\"samples\":"@) + numeral(samples) + ascii(",\"read_ns\":"@) + read
        + ascii(",\"score_ns\":"@) + score + ascii(",\"write_ns\":"@) + write + ascii("}"@)
}

/// `line` may be told of these times.
pub open spec fn is_trace_line<A: Fn(u128, usize) -> Vec<u8>>(
    average: A,
    read_ns: Seq<u64>,
    score_ns: Seq<u64>,
    write_ns: Seq<u64>,
    line: Seq<u8>,
) -> bool {
    exists|read: Seq<u8>, score: Seq<u8>, write: Seq<u8>|
        {
            &&& is_stage(average, read_ns, read)
            &&& is_stage(average, score_ns, score)
            &&& is_stage(average, write_ns, write)
            &&& line == #[trigger] trace_line(score_ns.len(), read, score, write)
        }
}

/// The times when another one is taken.
pub open spec fn times_pushed(enabled: bool, times: Seq<u64>, ns: u64) -> Seq<u64> {
    if enabled {
        times.push(ns)
    } else {
        times
    }
}

/// A line is due.
pub open spec fn line_due(enabled: bool, every: int, scores: int) -> bool {
    enabled && scores >= every
}

/// After how many scores a line is due.
pub open spec fn line_every(every: usize) -> usize {
    if every < 1 {
        1
    } else {
        every
    }
}

impl IoTrace {
    /// Nothing measured yet; a line is due after every so many scores, at least one.
    pub fn new(enabled: bool, every: usize) -> (trace: Self)
        ensures
            trace.enabled == enabled,
            trace.every == (if every < 1 {
                1
            } else {
                every
            }),
            trace.every == line_every(every),
            trace.read_ns@.len() == 0,
            trace.score_ns@.len() == 0,
            trace.write_ns@.len() == 0,
    {
        IoTrace {
            enabled,
            every: if every < 1 {
                1
            } else {
                every
            },
            read_ns: Vec::new(),
            score_ns: Vec::new(),
            write_ns: Vec::new(),
        }
    }

    pub fn on(&self) -> (enabled: bool)
        ensures
            enabled == self.enabled,
    {
        self.enabled
    }

    pub fn push_read(&mut self, ns: u64)
        ensures
            final(self).read_ns@ == (if old(self).enabled {
                old(self).read_ns@.push(ns)
            } else {
                old(self).read_ns@
            }),
            final(self).read_ns@ == times_pushed(old(self).enabled, old(self).read_ns@, ns),
            final(self).score_ns == old(self).score_ns,
            final(self).write_ns == old(self).write_ns,
            final(self).enabled == old(self).enabled,
            final(self).every == old(self).every,
    {
        if self.enabled {
            self.read_ns.push(ns);
        }
    }

    pub fn push_score(&mut self, ns: u64)
        ensures
            final(self).score_ns@ == (if old(self).enabled {
                old(self).score_ns@.push(ns)
            } else {
                old(self).score_ns@
            }),
            final(self).score_ns@ == times_pushed(old(self).enabled, old(self).score_ns@, ns),
            final(self).read_ns == old(self).read_ns,
            final(self).write_ns == old(self).write_ns,
            final(self).enabled == old(self).enabled,
            final(self).every == old(self).every,
    {
        if self.enabled {
            self.score_ns.push(ns);
        }
    }

    /// Takes the time of a write, and gives the line that is due after enough scores; the times
    /// start anew then.
    pub fn push_write<A: Fn(u128, usize) -> Vec<u8>>(&mut self, ns: u64, average: &A) -> (line:
        Option<Vec<u8>>)
        requires
            forall|s: u128, n: usize| call_requires(*average, (s, n)),
        ensures
            final(self).enabled == old(self).enabled,
            final(self).every == old(self).every,
            line is Some <==> line_due(
                old(self).enabled,
                old(self).every as int,
                old(self).score_ns@.len() as int,
            ),
            line is None ==> final(self).write_ns@ == times_pushed(
                old(self).enabled,
                old(self).write_ns@,
                ns,
            ),
            match line {
                None => {
                    &&& !old(self).enabled || old(self).score_ns@.len() < old(self).every
                    &&& final(self).write_ns@ == (if old(self).enabled {
                        old(self).write_ns@.push(ns)
                    } else {
                        old(self).write_ns@
                    })
                    &&& final(self).read_ns == old(self).read_ns
                    &&& final(self).score_ns == old(self).score_ns
                },
                Some(text) => {
                    &&& old(self).enabled && old(self).score_ns@.len() >= old(self).every
                    &&& final(self).read_ns@.len() == 0
                    &&& final(self).score_ns@.len() == 0
                    &&& final(self).write_ns@.len() == 0
                    &&& is_trace_line(
                        *average,
                        old(self).read_ns@,
                        old(self).score_ns@,
                        old(self).write_ns@.push(ns),
                        text@,
                    )
                },
            },
    {
        if !self.enabled {
            return None;
        }
        self.write_ns.push(ns);
        if self.score_ns.len() >= self.every {
            Some(self.flush(average))
        } else {
            None
        }
    }

    /// The line on the times that were taken, which start anew.
    pub fn flush<A: Fn(u128, usize) -> Vec<u8>>(&mut self, average: &A) -> (line: Vec<u8>)
        requires
            forall|s: u128, n: usize| call_requires(*average, (s, n)),
        ensures
            is_trace_line(
                *average,
                old(self).read_ns@,
                old(self).score_ns@,
                old(self).write_ns@,
                line@,
            ),
            final(self).enabled == old(self).enabled,
            final(self).every == old(self).every,
            final(self).read_ns@.len() == 0,
            final(self).score_ns@.len() == 0,
            final(self).write_ns@.len() == 0,
    {
        proof {
            reveal_strlit("{\"kind\":\"io_trace\",\"samples\":");
            reveal_strlit(",\"read_ns\":");
            reveal_strlit(",\"score_ns\":");
            reveal_strlit(",\"write_ns\":");
            reveal_strlit("}");
        }
        let read = stat(&self.read_ns, average);
        let score = stat(&self.score_ns, average);
        let write = stat(&self.write_ns, average);
        let mut out: Vec<u8> = Vec::new();
        push_text(&mut out, "{\"kind\":\"io_trace\",\"samples\":");
        push_number(&mut out, self.score_ns.len() as u128);
        push_text(&mut out, ",\"read_ns\":");
        append(&mut out, read.as_slice());
        push_text(&mut out, ",\"score_ns\":");
        append(&mut out, score.as_slice());
        push_text(&mut out, ",\"write_ns\":");
        append(&mut out, write.as_slice());
        push_text(&mut out, "}");
        assert(out@ =~= trace_line(self.score_ns@.len(), read@, score@, write@));
        self.read_ns.clear();
        self.score_ns.clear();
        self.write_ns.clear();
        out
    }
}

} // verus!
