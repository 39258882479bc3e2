//! Request heads as they are written, and what is read from them.
use vstd::prelude::*;
use vstd::utf8::valid_utf8;

use crate::bytes::{ascii, lemma_first_match, matches_at, occurs};
use crate::decimal::usize_text;
use crate::head::{
    announces_chunks, asks_close, colon, declared_length, field_lines, field_name, field_value,
    has_name, head_outcome, lines, word_length, words, Refusal, RequestHead,
};
use crate::head::well_formed as is_field;
use crate::message::{joined, lemma_field_lines, lemma_joined_lines};
use crate::text::{lower, space_at_end, space_at_start, trim_end, trim_start, trimmed};

verus! {

/// A header field as it is written: a name, a colon, and a value between blanks.
pub struct WrittenField {
    pub name: Seq<u8>,
    pub before: Seq<u8>,
    pub value: Seq<u8>,
    pub behind: Seq<u8>,
}

pub open spec fn field_text(f: WrittenField) -> Seq<u8> {
    f.name + seq![58u8] + f.before + f.value + f.behind
}

/// A head as it is written.
pub struct WrittenHead {
    pub method: Seq<u8>,
    pub path: Seq<u8>,
    pub version: Seq<u8>,
    pub fields: Seq<WrittenField>,
}

pub open spec fn head_lines(h: WrittenHead) -> Seq<Seq<u8>> {
    seq![h.method + seq![32u8] + h.path + seq![32u8] + h.version] + h.fields.map_values(
        |f: WrittenField| field_text(f),
    )
}

pub open spec fn head_text(h: WrittenHead) -> Seq<u8> {
    joined(head_lines(h))
}

/// A word of the request line: visible characters.
pub open spec fn is_word(s: Seq<u8>) -> bool {
    s.len() > 0 && forall|k: int| 0 <= k < s.len() ==> 32 < #[trigger] s[k] < 127
}

pub open spec fn are_blanks(s: Seq<u8>) -> bool {
    forall|k: int| 0 <= k < s.len() ==> #[trigger] s[k] == 32 || s[k] == 9
}

/// The field can be written: no byte in it ends the line or the name, and its value neither starts
/// nor ends with a blank.
pub open spec fn can_be_written(f: WrittenField) -> bool {
    &&& forall|k: int| 0 <= k < f.name.len() ==> #[trigger] f.name[k] != 58 && f.name[k] != 13
    &&& forall|k: int| 0 <= k < f.value.len() ==> #[trigger] f.value[k] != 13
    &&& f.value.len() > 0 ==> 32 < f.value[0] < 127 && 32 < f.value.last() < 127
    &&& are_blanks(f.before)
    &&& are_blanks(f.behind)
}

pub open spec fn is_written(h: WrittenHead) -> bool {
    &&& is_word(h.method)
    &&& is_word(h.path)
    &&& is_word(h.version)
    &&& forall|i: int| 0 <= i < h.fields.len() ==> can_be_written(#[trigger] h.fields[i])
    &&& valid_utf8(head_text(h))
}

proof fn lemma_trim_start_blanks(before: Seq<u8>, rest: Seq<u8>)
    requires
        are_blanks(before),
        rest.len() > 0 ==> 32 < rest[0] < 127,
    ensures
        trim_start(before + rest) == rest,
    decreases before.len(),
{
    let s = before + rest;
    if before.len() > 0 {
        assert(s[0] == before[0]);
        assert(s.skip(1) =~= before.skip(1) + rest);
        assert forall|k: int| 0 <= k < before.skip(1).len() implies #[trigger] before.skip(1)[k]
            == 32 || before.skip(1)[k] == 9 by {
            assert(before[k + 1] == 32 || before[k + 1] == 9);
        }
        lemma_trim_start_blanks(before.skip(1), rest);
    } else {
        assert(s =~= rest);
        assert(space_at_start(s) == 0);
    }
}

proof fn lemma_trim_end_blanks(rest: Seq<u8>, behind: Seq<u8>)
    requires
        are_blanks(behind),
        rest.len() > 0 ==> 32 < rest.last() < 127,
    ensures
        trim_end(rest + behind) == rest,
    decreases behind.len(),
{
    let s = rest + behind;
    if behind.len() > 0 {
        assert(s.last() == behind.last());
        assert(s.take(s.len() - 1) =~= rest + behind.drop_last());
        assert forall|k: int| 0 <= k < behind.drop_last().len() implies #[trigger]
            behind.drop_last()[k] == 32 || behind.drop_last()[k] == 9 by {
            assert(behind[k] == 32 || behind[k] == 9);
        }
        lemma_trim_end_blanks(rest, behind.drop_last());
    } else {
        assert(s =~= rest);
        assert(space_at_end(s) == 0);
    }
}

/// A value between blanks is trimmed to itself.
proof fn lemma_value_is_trimmed(f: WrittenField)
    requires
        can_be_written(f),
    ensures
        trimmed(f.before + f.value + f.behind) == f.value,
{
    if f.value.len() > 0 {
        assert(f.before + f.value + f.behind =~= f.before + (f.value + f.behind));
        lemma_trim_start_blanks(f.before, f.value + f.behind);
        lemma_trim_end_blanks(f.value, f.behind);
    } else {
        let blanks = f.before + f.behind;
        assert(f.before + f.value + f.behind =~= blanks + Seq::<u8>::empty());
        assert forall|k: int| 0 <= k < blanks.len() implies #[trigger] blanks[k] == 32 || blanks[k]
            == 9 by {
            if k < f.before.len() {
                assert(blanks[k] == f.before[k]);
            } else {
                assert(blanks[k] == f.behind[k - f.before.len()]);
            }
        }
        lemma_trim_start_blanks(blanks, Seq::<u8>::empty());
        assert(trim_end(Seq::<u8>::empty()) =~= Seq::<u8>::empty());
        assert(f.value =~= Seq::<u8>::empty());
    }
}

/// The name and the value of a field are read as they were written.
pub proof fn lemma_field_is_read(f: WrittenField)
    requires
        can_be_written(f),
    ensures
        colon(field_text(f)) == Some(f.name.len() as int),
        field_name(field_text(f)) == f.name,
        field_value(field_text(f)) == f.value,
{
    let line = field_text(f);
    let n = f.name.len() as int;
    assert(line[n] == 58);
    assert(matches_at(line, seq![58u8], n)) by {
        assert(line[n + 0] == seq![58u8][0]);
    }
    assert forall|j: int| 0 <= j < n implies !matches_at(line, seq![58u8], j) by {
        if matches_at(line, seq![58u8], j) {
            assert(line[j + 0] == seq![58u8][0]);
            assert(line[j] == f.name[j]);
        }
    }
    lemma_first_match(line, seq![58u8], 0, n);
    assert(line.take(n) =~= f.name);
    assert(line.skip(n + 1) =~= f.before + f.value + f.behind);
    lemma_value_is_trimmed(f);
}

/// A word and what stands behind its blank.
proof fn lemma_first_word(word: Seq<u8>, rest: Seq<u8>)
    requires
        is_word(word),
        rest.len() > 0 ==> rest[0] == 32,
    ensures
        words(word + rest) == seq![word] + words(rest),
{
    let s = word + rest;
    lemma_word_length_is(word, rest);
    assert(s[0] == word[0]);
    assert(s.take(word.len() as int) =~= word);
    assert(s.skip(word.len() as int) =~= rest);
}

proof fn lemma_word_length_is(word: Seq<u8>, rest: Seq<u8>)
    requires
        forall|k: int| 0 <= k < word.len() ==> 32 < #[trigger] word[k] < 127,
        rest.len() > 0 ==> rest[0] == 32,
    ensures
        word_length(word + rest) == word.len(),
    decreases word.len(),
{
    let s = word + rest;
    if word.len() > 0 {
        assert(s[0] == word[0]);
        assert(s.skip(1) =~= word.skip(1) + rest);
        assert forall|k: int| 0 <= k < word.skip(1).len() implies 32 < #[trigger] word.skip(1)[k]
            < 127 by {
            assert(32 < word[k + 1] < 127);
        }
        lemma_word_length_is(word.skip(1), rest);
    } else {
        assert(s =~= rest);
    }
}

pub proof fn lemma_three_words(a: Seq<u8>, b: Seq<u8>, c: Seq<u8>)
    requires
        is_word(a),
        is_word(b),
        is_word(c),
    ensures
        words(a + seq![32u8] + b + seq![32u8] + c) == seq![a, b, c],
{
    let blank = seq![32u8];
    let none = Seq::<u8>::empty();
    assert(c + none =~= c);
    lemma_first_word(c, none);
    assert((blank + c).skip(1) =~= c);
    assert((blank + b + blank + c).skip(1) =~= b + (blank + c));
    assert(a + blank + b + blank + c =~= a + (blank + b + blank + c));
    lemma_first_word(b, blank + c);
    lemma_first_word(a, blank + b + blank + c);
    assert(words(none) =~= Seq::<Seq<u8>>::empty());
    assert(words(a + blank + b + blank + c) =~= seq![a, b, c]);
}

/// The lines of a written head.
proof fn lemma_head_lines(h: WrittenHead)
    requires
        is_written(h),
    ensures
        words(lines(head_text(h))[0]) == seq![h.method, h.path, h.version],
        field_lines(lines(head_text(h)).drop_first()) == h.fields.map_values(
            |f: WrittenField| field_text(f),
        ),
{
    let ls = head_lines(h);
    let fields = h.fields.map_values(|f: WrittenField| field_text(f));
    let none = Seq::<u8>::empty();
    assert forall|i: int, k: int| 0 <= i < ls.len() && 0 <= k < ls[i].len() implies #[trigger]
        ls[i][k] != 13 by {
        if i > 0 {
            let f = h.fields[i - 1];
            assert(can_be_written(f));
            let line = field_text(f);
            assert(ls[i] == line);
            let n = f.name.len() as int;
            let m = n + 1 + f.before.len();
            let e = m + f.value.len();
            if k < n {
                assert(line[k] == f.name[k]);
            } else if k == n {
                assert(line[k] == 58);
            } else if k < m {
                assert(line[k] == f.before[k - n - 1]);
            } else if k < e {
                assert(line[k] == f.value[k - m]);
            } else {
                assert(line[k] == f.behind[k - e]);
            }
        } else {
            let line = ls[0];
            let p = h.method.len() as int;
            let v = p + 1 + h.path.len();
            if k < p {
                assert(line[k] == h.method[k]);
            } else if p < k < v {
                assert(line[k] == h.path[k - p - 1]);
            } else if v < k {
                assert(line[k] == h.version[k - v - 1]);
            }
        }
    }
    lemma_joined_lines(ls);
    lemma_three_words(h.method, h.path, h.version);
    assert(lines(head_text(h)).drop_first() =~= fields + seq![none, none]);
    assert forall|i: int| 0 <= i < fields.len() implies (#[trigger] fields[i]).len() > 0 by {
        assert(fields[i] == field_text(h.fields[i]));
    }
    lemma_field_lines(fields, seq![none, none]);
}

/// A head is refused for its version, its method and its path, in this order and before its fields
/// are looked at: only `GET /ready` and `POST /fraud-score` are served.
pub proof fn law_only_two_routes_are_served(h: WrittenHead)
    requires
        is_written(h),
    ensures
        h.version != ascii("HTTP/1.1"@) && h.version != ascii("HTTP/1.0"@) ==> head_outcome(
            head_text(h),
        ) == Err::<RequestHead, Refusal>(Refusal::BadRequest),
        (h.version == ascii("HTTP/1.1"@) || h.version == ascii("HTTP/1.0"@)) && h.method != ascii(
            "GET"@,
        ) && h.method != ascii("POST"@) ==> head_outcome(head_text(h)) == Err::<
            RequestHead,
            Refusal,
        >(Refusal::MethodNotAllowed),
        (h.version == ascii("HTTP/1.1"@) || h.version == ascii("HTTP/1.0"@)) && h.method == ascii(
            "GET"@,
        ) && h.path != ascii("/ready"@) ==> head_outcome(head_text(h)) == Err::<
            RequestHead,
            Refusal,
        >(Refusal::NotFound),
        (h.version == ascii("HTTP/1.1"@) || h.version == ascii("HTTP/1.0"@)) && h.method == ascii(
            "POST"@,
        ) && h.path != ascii("/fraud-score"@) ==> head_outcome(head_text(h)) == Err::<
            RequestHead,
            Refusal,
        >(Refusal::NotFound),
        head_outcome(head_text(h)) matches Ok(asked) ==> {
            ||| asked.route is Ready && h.method == ascii("GET"@) && h.path == ascii("/ready"@)
            ||| asked.route is FraudScore && h.method == ascii("POST"@) && h.path == ascii(
                "/fraud-score"@,
            )
        },
{
    lemma_head_lines(h);
    reveal_strlit("GET");
    reveal_strlit("POST");
    assert(ascii("GET"@).len() == 3 && ascii("POST"@).len() == 4);
}

proof fn lemma_fields_are_read(h: WrittenHead)
    requires
        is_written(h),
    ensures
        forall|i: int|
            0 <= i < h.fields.len() ==> {
                let line = field_text(#[trigger] h.fields[i]);
                &&& colon(line) is Some
                &&& field_name(line) == h.fields[i].name
                &&& field_value(line) == h.fields[i].value
            },
{
    assert forall|i: int| 0 <= i < h.fields.len() implies {
        let line = field_text(#[trigger] h.fields[i]);
        &&& colon(line) is Some
        &&& field_name(line) == h.fields[i].name
        &&& field_value(line) == h.fields[i].value
    } by {
        lemma_field_is_read(h.fields[i]);
    }
}

/// A head in the version 1.1 asks to close exactly if it has a field named `connection` whose value
/// is `close`, both in any letter case; one in the version 1.0 always does.
pub proof fn law_connection_close_is_asked_for(h: WrittenHead)
    requires
        is_written(h),
        head_outcome(head_text(h)) is Ok,
    ensures
        head_outcome(head_text(h))->Ok_0.close_after_response <==> {
            ||| h.version == ascii("HTTP/1.0"@)
            ||| exists|i: int|
                0 <= i < h.fields.len() && lower(#[trigger] h.fields[i].name) == ascii(
                    "connection"@,
                ) && lower(h.fields[i].value) == ascii("close"@)
        },
{
    lemma_head_lines(h);
    lemma_fields_are_read(h);
    let fields = h.fields.map_values(|f: WrittenField| field_text(f));
    assert(forall|i: int| 0 <= i < fields.len() ==> fields[i] == field_text(h.fields[i]));
    let close = head_outcome(head_text(h))->Ok_0.close_after_response;
    assert(close <==> h.version == ascii("HTTP/1.0"@) || exists|i: int|
        0 <= i < fields.len() && asks_close(#[trigger] fields[i]));
    if exists|i: int| 0 <= i < fields.len() && asks_close(#[trigger] fields[i]) {
        let i = choose|i: int| 0 <= i < fields.len() && asks_close(#[trigger] fields[i]);
        assert(lower(h.fields[i].name) == ascii("connection"@) && lower(h.fields[i].value)
            == ascii("close"@));
    }
    if exists|i: int|
        0 <= i < h.fields.len() && lower(#[trigger] h.fields[i].name) == ascii("connection"@)
            && lower(h.fields[i].value) == ascii("close"@) {
        let i = choose|i: int|
            0 <= i < h.fields.len() && lower(#[trigger] h.fields[i].name) == ascii("connection"@)
                && lower(h.fields[i].value) == ascii("close"@);
        assert(asks_close(fields[i]));
    }
}

/// A head on a route that is served is refused as a bad request exactly if a length in it is no
/// number, it announces chunks, or a score is asked for without a body; and as too large exactly if
/// the length is over 8192. The last length counts, and there is none where no field gives one.
pub proof fn law_a_served_head_is_refused_for_its_length(h: WrittenHead, length: nat)
    requires
        is_written(h),
        h.version == ascii("HTTP/1.1"@) || h.version == ascii("HTTP/1.0"@),
        h.method == ascii("GET"@) && h.path == ascii("/ready"@) || h.method == ascii("POST"@)
            && h.path == ascii("/fraud-score"@),
        ({
            ||| length == 0 && forall|i: int|
                0 <= i < h.fields.len() ==> lower(#[trigger] h.fields[i].name) != ascii(
                    "content-length"@,
                )
            ||| exists|i: int|
                0 <= i < h.fields.len() && lower(#[trigger] h.fields[i].name) == ascii(
                    "content-length"@,
                ) && usize_text(h.fields[i].value) == Some(length) && forall|j: int|
                    i < j < h.fields.len() ==> lower(#[trigger] h.fields[j].name) != ascii(
                        "content-length"@,
                    )
        }),
        forall|i: int|
            0 <= i < h.fields.len() && lower(#[trigger] h.fields[i].name) == ascii(
                "content-length"@,
            ) ==> usize_text(h.fields[i].value) is Some,
        forall|i: int|
            0 <= i < h.fields.len() && lower(#[trigger] h.fields[i].name) == ascii(
                "transfer-encoding"@,
            ) ==> !occurs(lower(h.fields[i].value), ascii("chunked"@)),
    ensures
        h.method == ascii("POST"@) && length == 0 ==> head_outcome(head_text(h)) == Err::<
            RequestHead,
            Refusal,
        >(Refusal::BadRequest),
        length > 8192 ==> head_outcome(head_text(h)) == Err::<RequestHead, Refusal>(
            Refusal::PayloadTooLarge,
        ),
        length <= 8192 && (h.method == ascii("GET"@) || length > 0) ==> {
            &&& head_outcome(head_text(h)) is Ok
            &&& head_outcome(head_text(h))->Ok_0.content_length == length
        },
{
    lemma_head_lines(h);
    lemma_fields_are_read(h);
    reveal_strlit("GET");
    reveal_strlit("POST");
    assert(ascii("GET"@).len() == 3 && ascii("POST"@).len() == 4);
    let fields = h.fields.map_values(|f: WrittenField| field_text(f));
    assert forall|i: int| 0 <= i < fields.len() implies is_field(#[trigger] fields[i])
        && !announces_chunks(fields[i]) by {
        assert(fields[i] == field_text(h.fields[i]));
        assert(h.fields[i].name == field_name(fields[i]));
    }
    lemma_last_length(h.fields, length);
}

/// A head on a route that is served is refused as a bad request if a length in it is no number, or
/// if it announces chunks.
pub proof fn law_bad_lengths_and_chunks_are_refused(h: WrittenHead, i: int)
    requires
        is_written(h),
        h.version == ascii("HTTP/1.1"@) || h.version == ascii("HTTP/1.0"@),
        h.method == ascii("GET"@) && h.path == ascii("/ready"@) || h.method == ascii("POST"@)
            && h.path == ascii("/fraud-score"@),
        0 <= i < h.fields.len(),
        ({
            ||| lower(h.fields[i].name) == ascii("content-length"@) && usize_text(
                h.fields[i].value,
            ) is None
            ||| lower(h.fields[i].name) == ascii("transfer-encoding"@) && occurs(
                lower(h.fields[i].value),
                ascii("chunked"@),
            )
        }),
    ensures
        head_outcome(head_text(h)) == Err::<RequestHead, Refusal>(Refusal::BadRequest),
{
    lemma_head_lines(h);
    lemma_fields_are_read(h);
    let fields = h.fields.map_values(|f: WrittenField| field_text(f));
    assert(fields[i] == field_text(h.fields[i]));
    assert(h.fields[i].name == field_name(fields[i]));
    assert(!is_field(fields[i]) || announces_chunks(fields[i]));
    reveal_strlit("GET");
    reveal_strlit("POST");
    assert(ascii("GET"@).len() == 3 && ascii("POST"@).len() == 4);
}

proof fn lemma_last_length(fields: Seq<WrittenField>, length: nat)
    requires
        forall|i: int|
            0 <= i < fields.len() ==> {
                let line = field_text(#[trigger] fields[i]);
                &&& colon(line) is Some
                &&& field_name(line) == fields[i].name
                &&& field_value(line) == fields[i].value
            },
        ({
            ||| length == 0 && forall|i: int|
                0 <= i < fields.len() ==> lower(#[trigger] fields[i].name) != ascii(
                    "content-length"@,
                )
            ||| exists|i: int|
                0 <= i < fields.len() && lower(#[trigger] fields[i].name) == ascii(
                    "content-length"@,
                ) && usize_text(fields[i].value) == Some(length) && forall|j: int|
                    i < j < fields.len() ==> lower(#[trigger] fields[j].name) != ascii(
                        "content-length"@,
                    )
        }),
    ensures
        declared_length(fields.map_values(|f: WrittenField| field_text(f))) == length,
    decreases fields.len(),
{
    let texts = fields.map_values(|f: WrittenField| field_text(f));
    if fields.len() > 0 {
        let last = fields.last();
        let line = field_text(fields[fields.len() - 1]);
        assert(texts.last() == line);
        assert(has_name(line, "content-length"@) <==> lower(last.name) == ascii(
            "content-length"@,
        ));
        if lower(last.name) != ascii("content-length"@) {
            let rest = fields.drop_last();
            assert(texts.drop_last() =~= rest.map_values(|f: WrittenField| field_text(f)));
            assert forall|i: int| 0 <= i < rest.len() implies {
                let line = field_text(#[trigger] rest[i]);
                &&& colon(line) is Some
                &&& field_name(line) == rest[i].name
                &&& field_value(line) == rest[i].value
            } by {
                assert(rest[i] == fields[i]);
            }
            if exists|i: int|
                0 <= i < fields.len() && lower(#[trigger] fields[i].name) == ascii(
                    "content-length"@,
                ) {
                let i = choose|i: int|
                    0 <= i < fields.len() && lower(#[trigger] fields[i].name) == ascii(
                        "content-length"@,
                    ) && usize_text(fields[i].value) == Some(length) && forall|j: int|
                        i < j < fields.len() ==> lower(#[trigger] fields[j].name) != ascii(
                            "content-length"@,
                        );
                assert(rest[i] == fields[i]);
                assert forall|j: int| i < j < rest.len() implies lower(#[trigger] rest[j].name)
                    != ascii("content-length"@) by {
                    assert(rest[j] == fields[j]);
                }
                assert(lower(rest[i].name) == ascii("content-length"@));
            } else {
                assert forall|j: int| 0 <= j < rest.len() implies lower(#[trigger] rest[j].name)
                    != ascii("content-length"@) by {
                    assert(rest[j] == fields[j]);
                }
            }
            lemma_last_length(rest, length);
        } else {
            assert(lower(fields[fields.len() - 1].name) == ascii("content-length"@));
        }
    } else {
        assert(texts =~= Seq::<Seq<u8>>::empty());
    }
}

} // verus!
