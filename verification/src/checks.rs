//! The tallies of the tools that hold the parsers and the classifier against recorded requests.
use vstd::prelude::*;

use crate::bytes::ascii;
use crate::decimal::numeral;
use crate::stats::{push_number, push_text};

verus! {

/// How the classifier did.
#[derive(Debug, Clone, Copy, PartialEq, Eq, Structural)]
pub struct ClassifierTally {
    pub queries: u64,
    pub direct: u64,
    pub parse_failures: u64,
    pub direct_mismatches: u64,
}

/// The most mismatches that are shown.
pub const SHOWN_MISMATCHES: u64 = 20;

/// The tally when a request is counted, and whether to show that it mismatched.
pub open spec fn classifier_counted(
    tally: ClassifierTally,
    expected: bool,
    actual: Option<bool>,
) -> (ClassifierTally, bool) {
    let wrong = actual == Some(!expected);
    (
        ClassifierTally {
            queries: (tally.queries + 1) as u64,
            direct: (tally.direct + if actual is Some {
                1int
            } else {
                0
            }) as u64,
            parse_failures: (tally.parse_failures + if actual is None {
                1int
            } else {
                0
            }) as u64,
            direct_mismatches: (tally.direct_mismatches + if wrong {
                1int
            } else {
                0
            }) as u64,
        },
        wrong && tally.direct_mismatches < SHOWN_MISMATCHES,
    )
}

/// The classifier was wrong about a request, or could not read one.
pub open spec fn classifier_failed(tally: ClassifierTally) -> bool {
    tally.direct_mismatches != 0 || tally.parse_failures != 0
}

impl ClassifierTally {
    /// Every request was classified or could not be read, and only a classified one can mismatch.
    pub open spec fn well_formed(&self) -> bool {
        &&& self.queries == self.direct + self.parse_failures
        &&& self.direct_mismatches <= self.direct
    }

    pub fn new() -> (tally: Self)
        ensures
            tally.well_formed(),
            tally.queries == 0,
    {
        ClassifierTally { queries: 0, direct: 0, parse_failures: 0, direct_mismatches: 0 }
    }

    /// Counts a request, and says whether to show that it mismatched.
    pub fn record(&mut self, expected: bool, actual: Option<bool>) -> (show: bool)
        requires
            old(self).well_formed(),
            old(self).queries < u64::MAX,
        ensures
            final(self).well_formed(),
            final(self).queries == old(self).queries + 1,
            final(self).parse_failures == old(self).parse_failures + (if actual is None {
                1int
            } else {
                0
            }),
            final(self).direct_mismatches == old(self).direct_mismatches + (if actual == Some(
                !expected,
            ) {
                1int
            } else {
                0
            }),
            show == (actual == Some(!expected) && old(self).direct_mismatches < SHOWN_MISMATCHES),
            (*final(self), show) == classifier_counted(*old(self), expected, actual),
    {
        self.queries = self.queries + 1;
        match actual {
            Some(actual) => {
                self.direct = self.direct + 1;
                if actual != expected {
                    self.direct_mismatches = self.direct_mismatches + 1;
                    return self.direct_mismatches <= SHOWN_MISMATCHES;
                }
            },
            None => {
                self.parse_failures = self.parse_failures + 1;
            },
        }
        false
    }

    /// Whether the classifier was wrong about a request, or could not read one.
    pub fn failed(&self) -> (r: bool)
        ensures
            r == (self.direct_mismatches != 0 || self.parse_failures != 0),
            r == classifier_failed(*self),
    {
        self.direct_mismatches != 0 || self.parse_failures != 0
    }

    /// The line on how it went.
    pub fn line(&self) -> (line: Vec<u8>)
        ensures
            line@ == ascii("{\"queries\":"@) + numeral(self.queries as nat) + ascii(
                ",\"direct\":"@,
            ) + numeral(self.direct as nat) + ascii(",\"parse_failures\":"@) + numeral(
                self.parse_failures as nat,
            ) + ascii(",\"direct_mismatches\":"@) + numeral(self.direct_mismatches as nat) + ascii(
                "}"@,
            ),
            line@ == classifier_line(*self),
    {
        proof {
            reveal_strlit("{\"queries\":");
            reveal_strlit(",\"direct\":");
            reveal_strlit(",\"parse_failures\":");
            reveal_strlit(",\"direct_mismatches\":");
            reveal_strlit("}");
        }
        let mut out: Vec<u8> = Vec::new();
        push_text(&mut out, "{\"queries\":");
        push_number(&mut out, self.queries as u128);
        push_text(&mut out, ",\"direct\":");
        push_number(&mut out, self.direct as u128);
        push_text(&mut out, ",\"parse_failures\":");
        push_number(&mut out, self.parse_failures as u128);
        push_text(&mut out, ",\"direct_mismatches\":");
        push_number(&mut out, self.direct_mismatches as u128);
        push_text(&mut out, "}");
        out
    }
}

/// The line on how the classifier did.
pub open spec fn classifier_line(tally: ClassifierTally) -> Seq<u8> {
    ascii("{\"queries\":"@) + numeral(tally.queries as nat) + ascii(",\"direct\":"@) + numeral(
        tally.direct as nat,
    ) + ascii(",\"parse_failures\":"@) + numeral(tally.parse_failures as nat) + ascii(
        ",\"direct_mismatches\":"@,
    ) + numeral(tally.direct_mismatches as nat) + ascii("}"@)
}

/// The line on how the fast parser did.
pub open spec fn parser_line(tally: ParserTally) -> Seq<u8> {
    ascii("{\"queries\":"@) + numeral(tally.queries as nat) + ascii(",\"mismatches\":"@) + numeral(
        tally.mismatches as nat,
    ) + ascii("}"@)
}

/// How the fast parser did.
#[derive(Debug, Clone, Copy, PartialEq, Eq, Structural)]
pub struct ParserTally {
    pub queries: u64,
    pub mismatches: u64,
}

/// How the fast parser read a request.
#[derive(Debug, Clone, Copy, PartialEq, Eq, Structural)]
pub enum ParserVerdict {
    Same,
    Failed,
    Different,
}

/// How the fast parser read a request, given what was expected.
pub open spec fn parser_verdict(
    expected: ([i16; 16], u16),
    actual: Option<([i16; 16], u16)>,
) -> ParserVerdict {
    match actual {
        None => ParserVerdict::Failed,
        Some((vector, key)) => if vector@ == expected.0@ && key == expected.1 {
            ParserVerdict::Same
        } else {
            ParserVerdict::Different
        },
    }
}

/// The tally when a request is counted.
pub open spec fn parser_counted(tally: ParserTally, verdict: ParserVerdict) -> ParserTally {
    ParserTally {
        queries: (tally.queries + 1) as u64,
        mismatches: (tally.mismatches + if verdict is Same {
            0int
        } else {
            1
        }) as u64,
    }
}

impl ParserTally {
    pub open spec fn well_formed(&self) -> bool {
        self.mismatches <= self.queries
    }

    pub fn new() -> (tally: Self)
        ensures
            tally.well_formed(),
            tally.queries == 0,
    {
        ParserTally { queries: 0, mismatches: 0 }
    }

    /// Counts a request.
    pub fn record(
        &mut self,
        expected: ([i16; 16], u16),
        actual: Option<([i16; 16], u16)>,
    ) -> (verdict: ParserVerdict)
        requires
            old(self).well_formed(),
            old(self).queries < u64::MAX,
        ensures
            final(self).well_formed(),
            verdict == parser_verdict(expected, actual),
            final(self).queries == old(self).queries + 1,
            final(self).mismatches == old(self).mismatches + (if verdict is Same {
                0int
            } else {
                1
            }),
            *final(self) == parser_counted(*old(self), verdict),
    {
        self.queries = self.queries + 1;
        let verdict = match actual {
            None => ParserVerdict::Failed,
            Some((vector, key)) => {
                let mut same = key == expected.1;
                let mut i: usize = 0;
                while i < 16
                    invariant
                        i <= 16,
                        same == (key == expected.1 && forall|k: int|
                            0 <= k < i ==> vector@[k] == expected.0@[k]),
                    decreases 16 - i,
                {
                    same = same && vector[i] == expected.0[i];
                    i = i + 1;
                }
                assert(same == (vector@ =~= expected.0@ && key == expected.1));
                if same {
                    ParserVerdict::Same
                } else {
                    ParserVerdict::Different
                }
            },
        };
        if verdict != ParserVerdict::Same {
            self.mismatches = self.mismatches + 1;
        }
        verdict
    }

    /// Whether the fast parser read a request otherwise than expected.
    pub fn failed(&self) -> (r: bool)
        ensures
            r == (self.mismatches != 0),
    {
        self.mismatches != 0
    }

    /// The line on how it went.
    pub fn line(&self) -> (line: Vec<u8>)
        ensures
            line@ == ascii("{\"queries\":"@) + numeral(self.queries as nat) + ascii(
                ",\"mismatches\":"@,
            ) + numeral(self.mismatches as nat) + ascii("}"@),
            line@ == parser_line(*self),
    {
        proof {
            reveal_strlit("{\"queries\":");
            reveal_strlit(",\"mismatches\":");
            reveal_strlit("}");
        }
        let mut out: Vec<u8> = Vec::new();
        push_text(&mut out, "{\"queries\":");
        push_number(&mut out, self.queries as u128);
        push_text(&mut out, ",\"mismatches\":");
        push_number(&mut out, self.mismatches as u128);
        push_text(&mut out, "}");
        out
    }
}

} // verus!
