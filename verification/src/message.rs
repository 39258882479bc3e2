//! Messages as they are written: lines, an empty line, a body. What was written is read back.
use vstd::prelude::*;
use vstd::utf8::{valid_utf8, valid_utf8_concat};

use crate::bytes::{ascii, index_from, lemma_first_match, lemma_index_from, matches_at, occurs};
use crate::decimal::{is_digit, lemma_numeral_value, numeral, usize_text};
use crate::handoff::{handoff_head, handoff_outcome};
use crate::head::{
    asks_close, crlf, field_lines, field_value, has_name, lines, refusal_response, Refusal,
    RequestHead, Route, MAX_BODY_BYTES, MAX_HEADER_BYTES,
};
use crate::lb::client::outcome;
use crate::lb::request::client_head;
use crate::lb::upstream::{
    first_length, response_length, response_outcome, upstream_header, upstream_request,
    UpstreamError,
};
use crate::request::{
    framed, head_mark, is_blank, length_at, length_value, lemma_run_is, says_close, says_encoding,
    short_cut, usual_line, ParsedRequest,
};
use crate::scoring::{
    json_response, keep_alive_response, lemma_score_texts, plain_response, score_text,
    BAD_GATEWAY_RESPONSE, SERVICE_UNAVAILABLE_RESPONSE,
};
use crate::text::{lower, trim_end, trim_start, trimmed};

verus! {

/// Lines, each with its end, and an empty line.
pub open spec fn joined(ls: Seq<Seq<u8>>) -> Seq<u8>
    decreases ls.len(),
{
    if ls.len() == 0 {
        crlf()
    } else {
        ls[0] + crlf() + joined(ls.drop_first())
    }
}

/// No line holds a carriage return.
pub open spec fn unbroken(ls: Seq<Seq<u8>>) -> bool {
    forall|i: int, k: int| 0 <= i < ls.len() && 0 <= k < ls[i].len() ==> #[trigger] ls[i][k] != 13
}

/// No line is empty.
pub open spec fn all_filled(ls: Seq<Seq<u8>>) -> bool {
    forall|i: int| 0 <= i < ls.len() ==> (#[trigger] ls[i]).len() > 0
}

/// Where a line starts.
pub open spec fn place(ls: Seq<Seq<u8>>, i: int) -> int
    decreases i,
{
    if i <= 0 {
        0
    } else {
        place(ls, i - 1) + ls[i - 1].len() + 2
    }
}

proof fn lemma_rest_is_plain(ls: Seq<Seq<u8>>)
    requires
        ls.len() > 0,
    ensures
        unbroken(ls) ==> unbroken(ls.drop_first()),
        all_filled(ls) ==> all_filled(ls.drop_first()),
{
    let rest = ls.drop_first();
    if unbroken(ls) {
        assert forall|i: int, k: int|
            0 <= i < rest.len() && 0 <= k < rest[i].len() implies #[trigger] rest[i][k] != 13 by {
            assert(ls[i + 1][k] != 13);
        }
    }
    if all_filled(ls) {
        assert forall|i: int| 0 <= i < rest.len() implies (#[trigger] rest[i]).len() > 0 by {
            assert(ls[i + 1].len() > 0);
        }
    }
}

/// A first line without a carriage return is the first of the lines.
pub proof fn lemma_first_line(line: Seq<u8>, rest: Seq<u8>)
    requires
        forall|k: int| 0 <= k < line.len() ==> #[trigger] line[k] != 13,
    ensures
        lines(line + crlf() + rest) == seq![line] + lines(rest),
{
    let s = line + crlf() + rest;
    let n = line.len() as int;
    assert(matches_at(s, crlf(), n)) by {
        assert forall|k: int| 0 <= k < 2 implies s[n + k] == #[trigger] crlf()[k] by {}
    }
    assert forall|j: int| 0 <= j < n implies !matches_at(s, crlf(), j) by {
        if matches_at(s, crlf(), j) {
            assert(s[j + 0] == crlf()[0]);
            assert(s[j] == line[j]);
        }
    }
    lemma_first_match(s, crlf(), 0, n);
    assert(s.take(n) =~= line);
    assert(s.skip(n + 2) =~= rest);
}

/// The lines of what was joined: those that were, and the two empty ones at the end.
pub proof fn lemma_joined_lines(ls: Seq<Seq<u8>>)
    requires
        unbroken(ls),
    ensures
        lines(joined(ls)) == ls + seq![Seq::<u8>::empty(), Seq::<u8>::empty()],
    decreases ls.len(),
{
    let none = Seq::<u8>::empty();
    if ls.len() == 0 {
        assert(crlf() =~= none + crlf() + none);
        lemma_first_line(none, none);
        lemma_index_from(none, crlf(), 0);
        assert(lines(none) =~= seq![none]);
        assert(seq![none] + seq![none] =~= ls + seq![none, none]);
    } else {
        lemma_rest_is_plain(ls);
        let rest = ls.drop_first();
        lemma_joined_lines(rest);
        assert forall|k: int| 0 <= k < ls[0].len() implies #[trigger] ls[0][k] != 13 by {}
        lemma_first_line(ls[0], joined(rest));
        assert(seq![ls[0]] + (rest + seq![none, none]) =~= ls + seq![none, none]);
    }
}

/// The header fields of what was joined.
pub proof fn lemma_field_lines(fields: Seq<Seq<u8>>, tail: Seq<Seq<u8>>)
    requires
        all_filled(fields),
        tail.len() > 0,
        tail[0].len() == 0,
    ensures
        field_lines(fields + tail) == fields,
    decreases fields.len(),
{
    let all = fields + tail;
    if fields.len() > 0 {
        assert(all[0] == fields[0]);
        assert(fields[0].len() > 0);
        lemma_rest_is_plain(fields);
        assert(all.drop_first() =~= fields.drop_first() + tail);
        lemma_field_lines(fields.drop_first(), tail);
        assert(seq![fields[0]] + fields.drop_first() =~= fields);
    } else {
        assert(all =~= tail);
    }
}

proof fn lemma_place_shift(ls: Seq<Seq<u8>>, i: int)
    requires
        0 <= i < ls.len(),
    ensures
        place(ls, i + 1) == ls[0].len() + 2 + place(ls.drop_first(), i),
    decreases i,
{
    if i > 0 {
        lemma_place_shift(ls, i - 1);
        assert(ls.drop_first()[i - 1] == ls[i]);
    } else {
        assert(place(ls, 1) == place(ls, 0) + ls[0].len() + 2);
    }
}

proof fn lemma_place_order(ls: Seq<Seq<u8>>, i: int, j: int)
    requires
        0 <= i < j <= ls.len(),
    ensures
        place(ls, i) + ls[i].len() + 2 <= place(ls, j),
        0 <= place(ls, i),
    decreases j,
{
    if i + 1 < j {
        lemma_place_order(ls, i, j - 1);
    } else if i > 0 {
        lemma_place_order(ls, 0, i);
    }
}

/// What stands from the start of a line on.
proof fn lemma_from_line(ls: Seq<Seq<u8>>, i: int)
    requires
        0 <= i <= ls.len(),
    ensures
        0 <= place(ls, i) <= joined(ls).len(),
        joined(ls).skip(place(ls, i)) == joined(ls.skip(i)),
    decreases i,
{
    if i == 0 {
        assert(ls.skip(0) =~= ls);
        assert(joined(ls).skip(0) =~= joined(ls));
    } else {
        lemma_from_line(ls, i - 1);
        let before = ls.skip(i - 1);
        assert(before.drop_first() =~= ls.skip(i));
        assert(before[0] == ls[i - 1]);
        let whole = before[0] + crlf() + joined(before.drop_first());
        assert(joined(ls).skip(place(ls, i - 1)) == whole);
        assert(joined(ls).skip(place(ls, i)) =~= whole.skip(before[0].len() as int + 2));
        assert(whole.skip(before[0].len() as int + 2) =~= joined(ls.skip(i)));
    }
}

/// The bytes of a line, and of its end, where they stand.
pub proof fn lemma_line_bytes(ls: Seq<Seq<u8>>, i: int)
    requires
        0 <= i < ls.len(),
    ensures
        0 <= place(ls, i),
        place(ls, i) + ls[i].len() + 4 <= joined(ls).len(),
        forall|k: int| 0 <= k < ls[i].len() ==> joined(ls)[place(ls, i) + k] == #[trigger] ls[i][k],
        joined(ls)[place(ls, i) + ls[i].len()] == 13,
        joined(ls)[place(ls, i) + ls[i].len() + 1] == 10,
{
    lemma_from_line(ls, i);
    let rest = ls.skip(i);
    let from = joined(ls).skip(place(ls, i));
    assert(rest[0] == ls[i]);
    assert(from == ls[i] + crlf() + joined(rest.drop_first()));
    lemma_joined_ends(rest.drop_first());
    assert(from.len() == joined(ls).len() - place(ls, i));
    assert(from.len() == ls[i].len() + 2 + joined(rest.drop_first()).len());
    assert forall|k: int| 0 <= k < ls[i].len() implies joined(ls)[place(ls, i) + k]
        == #[trigger] ls[i][k] by {
        assert(from[k] == joined(ls)[place(ls, i) + k]);
    }
    assert(from[ls[i].len() as int] == joined(ls)[place(ls, i) + ls[i].len()]);
    assert(from[ls[i].len() as int + 1] == joined(ls)[place(ls, i) + ls[i].len() + 1]);
}

pub proof fn lemma_joined_ends(ls: Seq<Seq<u8>>)
    ensures
        joined(ls).len() >= 2,
        joined(ls).len() == place(ls, ls.len() as int) + 2,
    decreases ls.len(),
{
    if ls.len() > 0 {
        lemma_joined_ends(ls.drop_first());
        lemma_place_shift(ls, ls.len() - 1);
    }
}

/// Where a carriage return stands, a line ends, or the message does.
proof fn lemma_return_place(ls: Seq<Seq<u8>>, j: int) -> (i: int)
    requires
        unbroken(ls),
        0 <= j < joined(ls).len(),
        joined(ls)[j] == 13,
    ensures
        0 <= i <= ls.len(),
        i < ls.len() ==> j == place(ls, i) + ls[i].len(),
        i == ls.len() ==> j == place(ls, i),
    decreases ls.len(),
{
    if ls.len() == 0 {
        0
    } else {
        let n = ls[0].len() as int;
        let rest = ls.drop_first();
        lemma_rest_is_plain(ls);
        if j < n {
            assert(joined(ls)[j] == ls[0][j]);
            0
        } else if j == n {
            0
        } else {
            assert(j != n + 1) by {
                assert(joined(ls)[n + 1] == crlf()[1]);
            }
            assert(joined(ls)[j] == joined(rest)[j - n - 2]);
            let i = lemma_return_place(rest, j - n - 2);
            lemma_place_shift(ls, i);
            if i < rest.len() {
                assert(rest[i] == ls[i + 1]);
            }
            i + 1
        }
    }
}

/// A word behind the end of a line is the start of the next line.
proof fn lemma_word_starts_line(ls: Seq<Seq<u8>>, word: Seq<u8>, j: int) -> (i: int)
    requires
        unbroken(ls),
        word.len() > 0,
        forall|k: int| 0 <= k < word.len() ==> #[trigger] word[k] != 13,
        matches_at(joined(ls), crlf() + word, j),
    ensures
        1 <= i < ls.len(),
        j == place(ls, i) - 2,
        word.len() <= ls[i].len(),
        forall|k: int| 0 <= k < word.len() ==> ls[i][k] == #[trigger] word[k],
{
    let s = joined(ls);
    let needle = crlf() + word;
    assert(s[j + 0] == needle[0]);
    assert(s[j + 2] == needle[2]);
    assert(needle[2] == word[0]);
    lemma_joined_ends(ls);
    let before = lemma_return_place(ls, j);
    assert(before < ls.len());
    let i = before + 1;
    assert(place(ls, i) == j + 2);
    if i == ls.len() {
        lemma_from_line(ls, i);
        assert(ls.skip(i) =~= seq![]);
        assert(s.skip(place(ls, i)) == crlf());
        assert(s.skip(place(ls, i))[0] == s[j + 2]);
    } else {
        lemma_line_bytes(ls, i);
        if word.len() > ls[i].len() {
            let k = ls[i].len() as int;
            assert(s[j + (k + 2)] == needle[k + 2]);
            assert(needle[k + 2] == word[k]);
        }
        assert forall|k: int| 0 <= k < word.len() implies ls[i][k] == #[trigger] word[k] by {
            assert(needle[k + 2] == word[k]);
            assert(s[j + (k + 2)] == needle[k + 2]);
            assert(s[place(ls, i) + k] == ls[i][k]);
        }
    }
    i
}

/// The line starts with this word.
pub open spec fn starts_with(line: Seq<u8>, word: Seq<u8>) -> bool {
    word.len() <= line.len() && forall|k: int| 0 <= k < word.len() ==> line[k] == #[trigger] word[k]
}

/// A word behind the end of a line is first found at the first line that starts with it.
proof fn lemma_word_found(ls: Seq<Seq<u8>>, word: Seq<u8>, i: int)
    requires
        unbroken(ls),
        word.len() > 0,
        forall|k: int| 0 <= k < word.len() ==> #[trigger] word[k] != 13,
        1 <= i < ls.len(),
        starts_with(ls[i], word),
        forall|k: int| 1 <= k < i ==> !starts_with(#[trigger] ls[k], word),
    ensures
        index_from(joined(ls), crlf() + word, 0) == Some(place(ls, i) - 2),
{
    let s = joined(ls);
    let needle = crlf() + word;
    let at = place(ls, i) - 2;
    lemma_line_bytes(ls, i);
    lemma_line_bytes(ls, i - 1);
    assert(at == place(ls, i - 1) + ls[i - 1].len());
    assert(matches_at(s, needle, at)) by {
        assert forall|k: int| 0 <= k < needle.len() implies s[at + k] == #[trigger] needle[k] by {
            if k >= 2 {
                assert(needle[k] == word[k - 2]);
                assert(ls[i][k - 2] == word[k - 2]);
                assert(s[place(ls, i) + (k - 2)] == ls[i][k - 2]);
            }
        }
    }
    assert forall|j: int| 0 <= j < at implies !matches_at(s, needle, j) by {
        if matches_at(s, needle, j) {
            let k = lemma_word_starts_line(ls, word, j);
            if k > i {
                lemma_place_order(ls, i, k);
            }
            assert(starts_with(ls[k], word));
            if k >= i {
                lemma_place_order(ls, 0, i);
            }
        }
    }
    lemma_first_match(s, needle, 0, at);
}

/// A word that no line starts with does not stand behind the end of one.
proof fn lemma_word_missing(ls: Seq<Seq<u8>>, word: Seq<u8>)
    requires
        unbroken(ls),
        word.len() > 0,
        forall|k: int| 0 <= k < word.len() ==> #[trigger] word[k] != 13,
        forall|k: int| 1 <= k < ls.len() ==> !starts_with(#[trigger] ls[k], word),
    ensures
        !occurs(joined(ls), crlf() + word),
{
    if occurs(joined(ls), crlf() + word) {
        let j = choose|j: int| matches_at(joined(ls), crlf() + word, j);
        let k = lemma_word_starts_line(ls, word, j);
        assert(starts_with(ls[k], word));
    }
}

/// The head of a message ends with the empty line, and not before.
pub proof fn lemma_head_ends(ls: Seq<Seq<u8>>, body: Seq<u8>)
    requires
        unbroken(ls),
        all_filled(ls),
        ls.len() > 0,
    ensures
        index_from(joined(ls) + body, head_mark(), 0) == Some(joined(ls).len() - 4),
        (joined(ls) + body).take(joined(ls).len() as int) == joined(ls),
{
    let head = joined(ls);
    let s = head + body;
    let mark = head_mark();
    let n = ls.len() as int;
    lemma_joined_ends(ls);
    lemma_line_bytes(ls, n - 1);
    let at = head.len() - 4;
    assert(at == place(ls, n - 1) + ls[n - 1].len());
    lemma_from_line(ls, n);
    assert(ls.skip(n) =~= seq![]);
    assert(head.skip(place(ls, n)) == crlf());
    assert(head[at + 2] == head.skip(place(ls, n))[0]);
    assert(head[at + 3] == head.skip(place(ls, n))[1]);
    assert(matches_at(s, mark, at)) by {
        assert forall|k: int| 0 <= k < 4 implies s[at + k] == #[trigger] mark[k] by {
            assert(s[at + k] == head[at + k]);
        }
    }
    assert forall|j: int| 0 <= j < at implies !matches_at(s, mark, j) by {
        if matches_at(s, mark, j) {
            assert(s[j + 0] == mark[0]);
            assert(s[j + 2] == mark[2]);
            assert(head[j] == 13 && head[j + 2] == 13);
            let i = lemma_return_place(ls, j);
            if i < n - 1 {
                lemma_line_bytes(ls, i + 1);
                assert(ls[i + 1].len() > 0);
                assert(place(ls, i + 1) == j + 2);
                assert(head[place(ls, i + 1) + 0] == ls[i + 1][0]);
            } else if i == n {
                assert(j == place(ls, n));
            }
        }
    }
    lemma_first_match(s, mark, 0, at);
    assert(s.take(head.len() as int) =~= head);
}

/// Bytes below 128 are a UTF-8 text.
pub proof fn lemma_ascii_is_utf8(s: Seq<u8>)
    requires
        forall|i: int| 0 <= i < s.len() ==> #[trigger] s[i] < 128,
    ensures
        valid_utf8(s),
    decreases s.len(),
{
    if s.len() > 0 {
        let rest = s.skip(1);
        assert forall|i: int| 0 <= i < rest.len() implies #[trigger] rest[i] < 128 by {
            assert(s[i + 1] < 128);
        }
        lemma_ascii_is_utf8(rest);
        let first = s[0];
        assert((first & 0x7f) as u32 <= 0x7f) by (bit_vector);
        assert(s.subrange(1, s.len() as int) =~= rest);
    }
}

/// The field that declares a length.
pub open spec fn length_line(n: nat) -> Seq<u8> {
    ascii("Content-Length: "@) + numeral(n)
}

proof fn lemma_numeral_bytes(n: nat)
    ensures
        forall|k: int| 0 <= k < numeral(n).len() ==> 48 <= #[trigger] numeral(n)[k] <= 57,
        numeral(n).len() > 0,
{
    lemma_numeral_value(n);
    assert forall|k: int| 0 <= k < numeral(n).len() implies 48 <= #[trigger] numeral(n)[k] <= 57 by {
        assert(is_digit(numeral(n)[k]));
    }
}

/// A length that was written is read back.
proof fn lemma_length_line(n: nat)
    requires
        n <= usize::MAX,
    ensures
        has_name(length_line(n), "content-length"@),
        usize_text(field_value(length_line(n))) == Some(n),
        length_line(n).len() == 16 + numeral(n).len(),
{
    let line = length_line(n);
    let digits = numeral(n);
    reveal_strlit("Content-Length: ");
    reveal_strlit("content-length");
    lemma_numeral_bytes(n);
    lemma_numeral_value(n);
    assert(matches_at(line, seq![58u8], 14)) by {
        assert(line[14] == 58);
    }
    assert forall|j: int| 0 <= j < 14 implies !matches_at(line, seq![58u8], j) by {
        if matches_at(line, seq![58u8], j) {
            assert(line[j + 0] == seq![58u8][0]);
            assert(line[j] == ascii("Content-Length: "@)[j]);
        }
    }
    lemma_first_match(line, seq![58u8], 0, 14);
    assert(lower(line.take(14)) =~= ascii("content-length"@));
    let value = line.skip(15);
    assert(value =~= seq![32u8] + digits);
    assert(value.skip(1) =~= digits);
    assert(trim_start(digits) == digits);
    assert(trim_start(value) == digits);
    assert(trim_end(digits) == digits);
    assert(trimmed(value) == digits);
}

/// A field with a name of another length declares none.
proof fn lemma_no_length_line(line: Seq<u8>, name: Seq<u8>)
    requires
        starts_with(line, name + seq![58u8]),
        forall|k: int| 0 <= k < name.len() ==> #[trigger] name[k] != 58,
        name.len() != 14,
    ensures
        !has_name(line, "content-length"@),
{
    let head = name + seq![58u8];
    let n = name.len() as int;
    reveal_strlit("content-length");
    assert(matches_at(line, seq![58u8], n)) by {
        assert(line[n] == head[n]);
    }
    assert forall|j: int| 0 <= j < n implies !matches_at(line, seq![58u8], j) by {
        if matches_at(line, seq![58u8], j) {
            assert(line[j + 0] == seq![58u8][0]);
            assert(line[j] == head[j]);
            assert(head[j] == name[j]);
        }
    }
    lemma_first_match(line, seq![58u8], 0, n);
    assert(lower(line.take(n)).len() == n);
}

/// A response that declares the length of its body in its second field is read in full.
proof fn lemma_response_is_read(ls: Seq<Seq<u8>>, body: Seq<u8>, at: int)
    requires
        unbroken(ls),
        all_filled(ls),
        1 <= at < ls.len(),
        ls[at] == length_line(body.len()),
        forall|k: int| 1 <= k < at ==> !has_name(#[trigger] ls[k], "content-length"@),
        valid_utf8(joined(ls)),
        joined(ls).len() + body.len() <= usize::MAX,
    ensures
        response_outcome(joined(ls) + body) == Ok::<Option<int>, UpstreamError>(
            Some((joined(ls) + body).len() as int),
        ),
        response_length(joined(ls)) == Ok::<nat, UpstreamError>(body.len()),
{
    let none = Seq::<u8>::empty();
    lemma_head_ends(ls, body);
    lemma_joined_lines(ls);
    let tail = seq![none, none];
    let fields = ls.drop_first();
    lemma_rest_is_plain(ls);
    assert((ls + tail).drop_first() =~= fields + tail);
    lemma_field_lines(fields, tail);
    assert(fields[at - 1] == ls[at]);
    lemma_length_line(body.len());
    assert forall|k: int| 0 <= k < at - 1 implies !has_name(#[trigger] fields[k], "content-length"@)
    by {
        assert(fields[k] == ls[k + 1]);
    }
    lemma_first_length(fields, at - 1, body.len());
}

proof fn lemma_first_length(fields: Seq<Seq<u8>>, at: int, n: nat)
    requires
        0 <= at < fields.len(),
        has_name(fields[at], "content-length"@),
        usize_text(field_value(fields[at])) == Some(n),
        forall|k: int| 0 <= k < at ==> !has_name(#[trigger] fields[k], "content-length"@),
    ensures
        first_length(fields) == Ok::<nat, UpstreamError>(n),
    decreases at,
{
    if at > 0 {
        let rest = fields.drop_first();
        assert(!has_name(fields[0], "content-length"@));
        assert forall|k: int| 0 <= k < at - 1 implies !has_name(
            #[trigger] rest[k],
            "content-length"@,
        ) by {
            assert(rest[k] == fields[k + 1]);
        }
        lemma_first_length(rest, at - 1, n);
    }
}

/// The lines of the head of a response with a JSON body.
pub open spec fn json_lines(body: Seq<u8>, more: Seq<Seq<u8>>) -> Seq<Seq<u8>> {
    seq![
        ascii("HTTP/1.1 200 OK"@),
        ascii("Content-Type: application/json"@),
        length_line(body.len()),
    ] + more
}

proof fn lemma_json_lines(body: Seq<u8>, more: Seq<Seq<u8>>)
    requires
        unbroken(more),
        all_filled(more),
        forall|i: int, k: int|
            0 <= i < more.len() && 0 <= k < more[i].len() ==> #[trigger] more[i][k] < 128,
        body.len() <= usize::MAX,
    ensures
        unbroken(json_lines(body, more)),
        all_filled(json_lines(body, more)),
        !has_name(json_lines(body, more)[1], "content-length"@),
        forall|i: int, k: int|
            0 <= i < json_lines(body, more).len() && 0 <= k < json_lines(body, more)[i].len()
                ==> #[trigger] json_lines(body, more)[i][k] < 128,
{
    let ls = json_lines(body, more);
    reveal_strlit("HTTP/1.1 200 OK");
    reveal_strlit("Content-Type: application/json");
    reveal_strlit("Content-Type");
    reveal_strlit("Content-Length: ");
    lemma_numeral_bytes(body.len());
    assert forall|i: int, k: int| 0 <= i < ls.len() && 0 <= k < ls[i].len() implies #[trigger] ls[i][k]
        != 13 && ls[i][k] < 128 by {
        if i == 0 {
            assert(ls[i][k] == ascii("HTTP/1.1 200 OK"@)[k]);
        } else if i == 1 {
            assert(ls[i][k] == ascii("Content-Type: application/json"@)[k]);
        } else if i == 2 {
            if k < 16 {
                assert(ls[i][k] == ascii("Content-Length: "@)[k]);
            } else {
                assert(ls[i][k] == numeral(body.len())[k - 16]);
            }
        } else {
            assert(ls[i] == more[i - 3]);
        }
    }
    assert forall|i: int| 0 <= i < ls.len() implies (#[trigger] ls[i]).len() > 0 by {
        if i >= 3 {
            assert(ls[i] == more[i - 3]);
        }
    }
    lemma_no_length_line(ls[1], ascii("Content-Type"@));
}

proof fn lemma_joined_step(line: Seq<u8>, rest: Seq<Seq<u8>>)
    ensures
        joined(seq![line] + rest) == line + crlf() + joined(rest),
{
    let ls = seq![line] + rest;
    assert(ls.drop_first() =~= rest);
}

proof fn lemma_joined_is_utf8(ls: Seq<Seq<u8>>)
    requires
        forall|i: int, k: int|
            0 <= i < ls.len() && 0 <= k < ls[i].len() ==> #[trigger] ls[i][k] < 128,
    ensures
        valid_utf8(joined(ls)),
    decreases ls.len(),
{
    if ls.len() > 0 {
        let rest = ls.drop_first();
        assert forall|i: int, k: int|
            0 <= i < rest.len() && 0 <= k < rest[i].len() implies #[trigger] rest[i][k] < 128 by {
            assert(ls[i + 1][k] < 128);
        }
        lemma_joined_is_utf8(rest);
        let first = ls[0] + crlf();
        assert forall|k: int| 0 <= k < first.len() implies #[trigger] first[k] < 128 by {
            if k < ls[0].len() {
                assert(ls[0][k] < 128);
            }
        }
        lemma_ascii_is_utf8(first);
        valid_utf8_concat(first, joined(rest));
    } else {
        lemma_ascii_is_utf8(crlf());
    }
}

/// A JSON response is its lines and its body.
proof fn lemma_json_response(body: Seq<u8>)
    ensures
        json_response(body, Seq::empty()) == joined(json_lines(body, seq![])) + body,
        json_response(body, ascii("\r\nConnection: keep-alive"@)) == joined(
            json_lines(body, seq![ascii("Connection: keep-alive"@)]),
        ) + body,
{
    reveal_strlit("HTTP/1.1 200 OK\r\nContent-Type: application/json\r\nContent-Length: ");
    reveal_strlit("HTTP/1.1 200 OK");
    reveal_strlit("Content-Type: application/json");
    reveal_strlit("Content-Length: ");
    reveal_strlit("Connection: keep-alive");
    reveal_strlit("\r\nConnection: keep-alive");
    reveal_strlit("\r\n\r\n");
    let a = ascii("HTTP/1.1 200 OK"@);
    let b = ascii("Content-Type: application/json"@);
    let c = length_line(body.len());
    let d = ascii("Connection: keep-alive"@);
    let none: Seq<Seq<u8>> = seq![];
    assert(joined(none) == crlf());
    assert(seq![c] + none =~= seq![c]);
    assert(seq![d] + none =~= seq![d]);
    lemma_joined_step(c, none);
    lemma_joined_step(d, none);
    lemma_joined_step(c, seq![d]);
    lemma_joined_step(b, seq![c]);
    lemma_joined_step(b, seq![c] + seq![d]);
    lemma_joined_step(a, seq![b] + seq![c]);
    lemma_joined_step(a, seq![b] + (seq![c] + seq![d]));
    assert(json_lines(body, none) =~= seq![a] + (seq![b] + seq![c]));
    assert(json_lines(body, seq![d]) =~= seq![a] + (seq![b] + (seq![c] + seq![d])));
    let first = ascii(
        "HTTP/1.1 200 OK\r\nContent-Type: application/json\r\nContent-Length: "@,
    );
    assert(first =~= a + crlf() + b + crlf() + ascii("Content-Length: "@));
    assert(ascii("\r\n\r\n"@) =~= crlf() + crlf());
    assert(ascii("\r\nConnection: keep-alive"@) =~= crlf() + d);
    assert(json_response(body, Seq::empty()) =~= joined(json_lines(body, none)) + body);
    assert(json_response(body, ascii("\r\nConnection: keep-alive"@)) =~= joined(
        json_lines(body, seq![d]),
    ) + body);
}

/// The response to a score says how long its body is: whoever reads the length it declares reads
/// the whole response, and nothing behind it.
pub proof fn law_score_responses_are_read_in_full(bucket: int)
    ensures
        response_outcome(keep_alive_response(bucket)) == Ok::<Option<int>, UpstreamError>(
            Some(keep_alive_response(bucket).len() as int),
        ),
        response_outcome(plain_response(bucket)) == Ok::<Option<int>, UpstreamError>(
            Some(plain_response(bucket).len() as int),
        ),
{
    let body = score_text(bucket);
    lemma_score_text_length(bucket);
    let none: Seq<Seq<u8>> = seq![];
    let kept = seq![ascii("Connection: keep-alive"@)];
    reveal_strlit("Connection: keep-alive");
    assert(unbroken(kept)) by {
        assert forall|i: int, k: int|
            0 <= i < kept.len() && 0 <= k < kept[i].len() implies #[trigger] kept[i][k] != 13 by {
            assert(kept[i][k] == ascii("Connection: keep-alive"@)[k]);
        }
    }
    assert forall|i: int, k: int|
        0 <= i < kept.len() && 0 <= k < kept[i].len() implies #[trigger] kept[i][k] < 128 by {
        assert(kept[i][k] == ascii("Connection: keep-alive"@)[k]);
    }
    lemma_json_response(body);
    lemma_json_lines(body, none);
    lemma_json_lines(body, kept);
    lemma_joined_is_utf8(json_lines(body, none));
    lemma_joined_is_utf8(json_lines(body, kept));
    lemma_json_size(body);
    lemma_response_is_read(json_lines(body, none), body, 2);
    lemma_response_is_read(json_lines(body, kept), body, 2);
}

proof fn lemma_score_text_length(bucket: int)
    ensures
        score_text(bucket).len() <= 36,
{
    lemma_score_texts();
    if bucket < 0 {
        assert(score_text(bucket) == score_text(0));
    }
}

proof fn lemma_json_size(body: Seq<u8>)
    requires
        body.len() <= 36,
    ensures
        joined(json_lines(body, seq![])).len() <= 1000,
        joined(json_lines(body, seq![ascii("Connection: keep-alive"@)])).len() <= 1000,
{
    reveal_strlit("HTTP/1.1 200 OK\r\nContent-Type: application/json\r\nContent-Length: ");
    reveal_strlit("\r\nConnection: keep-alive");
    reveal_strlit("\r\n\r\n");
    lemma_json_response(body);
    let n = body.len();
    assert(numeral(n).len() <= 2) by {
        if n >= 10 {
            assert(numeral(n) == numeral(n / 10).push((48 + n % 10) as u8));
            assert(numeral(n / 10) == seq![(48 + n / 10) as u8]);
        }
    }
    let none: Seq<Seq<u8>> = seq![];
    let kept = seq![ascii("Connection: keep-alive"@)];
    assert(json_response(body, Seq::empty()).len() == joined(json_lines(body, none)).len() + n);
    assert(json_response(body, ascii("\r\nConnection: keep-alive"@)).len() == joined(
        json_lines(body, kept),
    ).len() + n);
}

/// The lines of a response without a body.
pub open spec fn bare_lines(status: Seq<u8>, connection: Seq<u8>) -> Seq<Seq<u8>> {
    seq![status, length_line(0), connection]
}

/// A response without a body is its lines, and is read in full.
proof fn lemma_bare_response(status: Seq<u8>, connection: Seq<u8>)
    requires
        0 < status.len() <= 100,
        0 < connection.len() <= 100,
        forall|k: int| 0 <= k < status.len() ==> #[trigger] status[k] != 13 && status[k] < 128,
        forall|k: int|
            0 <= k < connection.len() ==> #[trigger] connection[k] != 13 && connection[k] < 128,
    ensures
        joined(bare_lines(status, connection)) == status + crlf() + ascii("Content-Length: 0"@)
            + crlf() + connection + crlf() + crlf(),
        response_outcome(joined(bare_lines(status, connection))) == Ok::<
            Option<int>,
            UpstreamError,
        >(Some(joined(bare_lines(status, connection)).len() as int)),
        response_length(joined(bare_lines(status, connection))) == Ok::<nat, UpstreamError>(0),
        field_lines(lines(joined(bare_lines(status, connection))).drop_first()) == seq![
            length_line(0),
            connection,
        ],
{
    let ls = bare_lines(status, connection);
    let none: Seq<Seq<u8>> = seq![];
    let empty = Seq::<u8>::empty();
    reveal_strlit("Content-Length: ");
    reveal_strlit("Content-Length: 0");
    assert(length_line(0) =~= ascii("Content-Length: 0"@));
    assert(seq![connection] + none =~= seq![connection]);
    lemma_joined_step(connection, none);
    lemma_joined_step(length_line(0), seq![connection]);
    lemma_joined_step(status, seq![length_line(0)] + seq![connection]);
    assert(ls =~= seq![status] + (seq![length_line(0)] + seq![connection]));
    assert(joined(ls) =~= status + crlf() + ascii("Content-Length: 0"@) + crlf() + connection
        + crlf() + crlf());
    assert forall|i: int, k: int| 0 <= i < ls.len() && 0 <= k < ls[i].len() implies #[trigger] ls[i][k]
        != 13 && ls[i][k] < 128 by {
        if i == 0 {
            assert(ls[i][k] == status[k]);
        } else if i == 1 {
            assert(ls[i][k] == ascii("Content-Length: 0"@)[k]);
        } else {
            assert(ls[i][k] == connection[k]);
        }
    }
    lemma_joined_is_utf8(ls);
    assert(joined(ls) + empty =~= joined(ls));
    lemma_response_is_read(ls, empty, 1);
    lemma_joined_lines(ls);
    let tail = seq![empty, empty];
    lemma_rest_is_plain(ls);
    assert((ls + tail).drop_first() =~= ls.drop_first() + tail);
    lemma_field_lines(ls.drop_first(), tail);
    assert(ls.drop_first() =~= seq![length_line(0), connection]);
}

proof fn lemma_close_field()
    ensures
        asks_close(ascii("Connection: close"@)),
{
    let line = ascii("Connection: close"@);
    reveal_strlit("Connection: close");
    reveal_strlit("connection");
    reveal_strlit("close");
    assert(matches_at(line, seq![58u8], 10)) by {
        assert(line[10] == 58);
    }
    assert forall|j: int| 0 <= j < 10 implies !matches_at(line, seq![58u8], j) by {
        if matches_at(line, seq![58u8], j) {
            assert(line[j + 0] == seq![58u8][0]);
        }
    }
    lemma_first_match(line, seq![58u8], 0, 10);
    assert(lower(line.take(10)) =~= ascii("connection"@));
    let value = line.skip(11);
    let close = ascii("close"@);
    assert(value =~= seq![32u8] + close);
    assert(value.skip(1) =~= close);
    assert(trim_start(close) == close);
    assert(trim_start(value) == close);
    assert(trim_end(close) == close);
    assert(lower(close) =~= close);
}

/// The header fields of a message.
pub open spec fn message_fields(message: Seq<u8>) -> Seq<Seq<u8>> {
    field_lines(lines(message).drop_first())
}

/// The response closes the connection and has no body: its reader finds the field that says so,
/// and reads it in full.
pub open spec fn closes_without_body(response: Seq<u8>) -> bool {
    &&& response_outcome(response) == Ok::<Option<int>, UpstreamError>(Some(response.len() as int))
    &&& response_length(response) == Ok::<nat, UpstreamError>(0)
    &&& exists|i: int|
        0 <= i < message_fields(response).len() && asks_close(
            #[trigger] message_fields(response)[i],
        )
}

/// A response without a body that closes the connection, with this status line.
spec fn closing_text(status: Seq<u8>) -> Seq<u8> {
    status + crlf() + ascii("Content-Length: 0"@) + crlf() + ascii("Connection: close"@) + crlf()
        + crlf()
}

proof fn lemma_bare_text(response: Seq<u8>, status: Seq<u8>)
    requires
        0 < status.len() <= 100,
        forall|k: int| 0 <= k < status.len() ==> #[trigger] status[k] != 13 && status[k] < 128,
        response == closing_text(status),
    ensures
        closes_without_body(response),
{
    let connection = ascii("Connection: close"@);
    reveal_strlit("Connection: close");
    lemma_bare_response(status, connection);
    lemma_close_field();
    let fields = message_fields(response);
    assert(fields[1] == connection);
    assert(asks_close(fields[1]));
}

proof fn lemma_bad_request_closes()
    ensures
        closes_without_body(refusal_response(Refusal::BadRequest)),
{
    let status = ascii("HTTP/1.1 400 Bad Request"@);
    reveal_strlit("HTTP/1.1 400 Bad Request");
    reveal_strlit("HTTP/1.1 400 Bad Request\r\nContent-Length: 0\r\nConnection: close\r\n\r\n");
    reveal_strlit("Content-Length: 0");
    reveal_strlit("Connection: close");
    assert(refusal_response(Refusal::BadRequest) =~= closing_text(status));
    lemma_bare_text(refusal_response(Refusal::BadRequest), status);
}

proof fn lemma_not_found_closes()
    ensures
        closes_without_body(refusal_response(Refusal::NotFound)),
{
    let status = ascii("HTTP/1.1 404 Not Found"@);
    reveal_strlit("HTTP/1.1 404 Not Found");
    reveal_strlit("HTTP/1.1 404 Not Found\r\nContent-Length: 0\r\nConnection: close\r\n\r\n");
    reveal_strlit("Content-Length: 0");
    reveal_strlit("Connection: close");
    assert(refusal_response(Refusal::NotFound) =~= closing_text(status));
    lemma_bare_text(refusal_response(Refusal::NotFound), status);
}

proof fn lemma_method_not_allowed_closes()
    ensures
        closes_without_body(refusal_response(Refusal::MethodNotAllowed)),
{
    let status = ascii("HTTP/1.1 405 Method Not Allowed"@);
    reveal_strlit("HTTP/1.1 405 Method Not Allowed");
    reveal_strlit("HTTP/1.1 405 Method Not Allowed\r\nContent-Length: 0\r\nConnection: close\r\n\r\n");
    reveal_strlit("Content-Length: 0");
    reveal_strlit("Connection: close");
    assert(refusal_response(Refusal::MethodNotAllowed) =~= closing_text(status));
    lemma_bare_text(refusal_response(Refusal::MethodNotAllowed), status);
}

proof fn lemma_payload_too_large_closes()
    ensures
        closes_without_body(refusal_response(Refusal::PayloadTooLarge)),
{
    let status = ascii("HTTP/1.1 413 Payload Too Large"@);
    reveal_strlit("HTTP/1.1 413 Payload Too Large");
    reveal_strlit("HTTP/1.1 413 Payload Too Large\r\nContent-Length: 0\r\nConnection: close\r\n\r\n");
    reveal_strlit("Content-Length: 0");
    reveal_strlit("Connection: close");
    assert(refusal_response(Refusal::PayloadTooLarge) =~= closing_text(status));
    lemma_bare_text(refusal_response(Refusal::PayloadTooLarge), status);
}

proof fn lemma_bad_gateway_closes()
    ensures
        closes_without_body(ascii(BAD_GATEWAY_RESPONSE@)),
{
    let status = ascii("HTTP/1.1 502 Bad Gateway"@);
    reveal_strlit("HTTP/1.1 502 Bad Gateway");
    reveal_strlit("HTTP/1.1 502 Bad Gateway\r\nContent-Length: 0\r\nConnection: close\r\n\r\n");
    reveal_strlit("Content-Length: 0");
    reveal_strlit("Connection: close");
    assert(ascii(BAD_GATEWAY_RESPONSE@) =~= closing_text(status));
    lemma_bare_text(ascii(BAD_GATEWAY_RESPONSE@), status);
}

proof fn lemma_service_unavailable_closes()
    ensures
        closes_without_body(ascii(SERVICE_UNAVAILABLE_RESPONSE@)),
{
    let status = ascii("HTTP/1.1 503 Service Unavailable"@);
    reveal_strlit("HTTP/1.1 503 Service Unavailable");
    reveal_strlit("HTTP/1.1 503 Service Unavailable\r\nContent-Length: 0\r\nConnection: close\r\n\r\n");
    reveal_strlit("Content-Length: 0");
    reveal_strlit("Connection: close");
    assert(ascii(SERVICE_UNAVAILABLE_RESPONSE@) =~= closing_text(status));
    lemma_bare_text(ascii(SERVICE_UNAVAILABLE_RESPONSE@), status);
}

/// Every refusal, and the answers of a service that is not there, close the connection and have
/// no body.
pub proof fn law_refusals_close(why: Refusal)
    ensures
        closes_without_body(refusal_response(why)),
        closes_without_body(ascii(BAD_GATEWAY_RESPONSE@)),
        closes_without_body(ascii(SERVICE_UNAVAILABLE_RESPONSE@)),
{
    lemma_bad_request_closes();
    lemma_not_found_closes();
    lemma_method_not_allowed_closes();
    lemma_payload_too_large_closes();
    lemma_bad_gateway_closes();
    lemma_service_unavailable_closes();
}

/// The lines of the head of a score request to a backend.
pub open spec fn score_lines(host: Seq<u8>, length: nat) -> Seq<Seq<u8>> {
    seq![
        ascii("POST /fraud-score HTTP/1.1"@),
        ascii("Host: "@) + host,
        ascii("Content-Type: application/json"@),
        length_line(length),
        ascii("Connection: keep-alive"@),
    ]
}

/// The lines of a request to a backend whether it is ready.
pub open spec fn ready_lines(host: Seq<u8>) -> Seq<Seq<u8>> {
    seq![
        ascii("GET /ready HTTP/1.1"@),
        ascii("Host: "@) + host,
        ascii("Connection: keep-alive"@),
        ascii("Content-Length: 0"@),
    ]
}

/// The texts of the head of a score request, taken apart into lines.
proof fn lemma_score_texts_part()
    ensures
        ascii("POST /fraud-score HTTP/1.1\r\nHost: "@) == ascii("POST /fraud-score HTTP/1.1"@)
            + crlf() + ascii("Host: "@),
        ascii("\r\nContent-Type: application/json\r\nContent-Length: "@) == crlf() + ascii(
            "Content-Type: application/json"@,
        ) + crlf() + ascii("Content-Length: "@),
        ascii("\r\nConnection: keep-alive\r\n\r\n"@) == crlf() + ascii("Connection: keep-alive"@)
            + crlf() + crlf(),
{
    reveal_strlit("POST /fraud-score HTTP/1.1\r\nHost: ");
    reveal_strlit("POST /fraud-score HTTP/1.1");
    reveal_strlit("Host: ");
    reveal_strlit("\r\nContent-Type: application/json\r\nContent-Length: ");
    reveal_strlit("\r\nConnection: keep-alive\r\n\r\n");
    reveal_strlit("Content-Type: application/json");
    reveal_strlit("Content-Length: ");
    reveal_strlit("Connection: keep-alive");
    assert(ascii("POST /fraud-score HTTP/1.1\r\nHost: "@) =~= ascii(
        "POST /fraud-score HTTP/1.1"@,
    ) + crlf() + ascii("Host: "@));
    assert(ascii("\r\nContent-Type: application/json\r\nContent-Length: "@) =~= crlf() + ascii(
        "Content-Type: application/json"@,
    ) + crlf() + ascii("Content-Length: "@));
    assert(ascii("\r\nConnection: keep-alive\r\n\r\n"@) =~= crlf() + ascii(
        "Connection: keep-alive"@,
    ) + crlf() + crlf());
}

/// The texts of the head of a request whether a backend is ready, taken apart into lines.
proof fn lemma_ready_texts_part()
    ensures
        ascii("GET /ready HTTP/1.1\r\nHost: "@) == ascii("GET /ready HTTP/1.1"@) + crlf() + ascii(
            "Host: "@,
        ),
        ascii("\r\nConnection: keep-alive\r\nContent-Length: 0\r\n\r\n"@) == crlf() + ascii(
            "Connection: keep-alive"@,
        ) + crlf() + ascii("Content-Length: 0"@) + crlf() + crlf(),
{
    reveal_strlit("GET /ready HTTP/1.1\r\nHost: ");
    reveal_strlit("GET /ready HTTP/1.1");
    reveal_strlit("Host: ");
    reveal_strlit("\r\nConnection: keep-alive\r\nContent-Length: 0\r\n\r\n");
    reveal_strlit("Content-Length: 0");
    reveal_strlit("Connection: keep-alive");
    assert(ascii("GET /ready HTTP/1.1\r\nHost: "@) =~= ascii("GET /ready HTTP/1.1"@) + crlf()
        + ascii("Host: "@));
    assert(ascii("\r\nConnection: keep-alive\r\nContent-Length: 0\r\n\r\n"@) =~= crlf() + ascii(
        "Connection: keep-alive"@,
    ) + crlf() + ascii("Content-Length: 0"@) + crlf() + crlf());
}

/// Five lines, however they are put together.
proof fn lemma_five_lines(
    a: Seq<u8>,
    name: Seq<u8>,
    host: Seq<u8>,
    t: Seq<u8>,
    label: Seq<u8>,
    digits: Seq<u8>,
    k: Seq<u8>,
)
    ensures
        (a + crlf() + name) + host + (crlf() + t + crlf() + label) + digits + (crlf() + k + crlf()
            + crlf()) == joined(seq![a, name + host, t, label + digits, k]),
{
    let h = name + host;
    let l = label + digits;
    let none: Seq<Seq<u8>> = seq![];
    assert(seq![k] + none =~= seq![k]);
    lemma_joined_step(k, none);
    lemma_joined_step(l, seq![k]);
    lemma_joined_step(t, seq![l] + seq![k]);
    lemma_joined_step(h, seq![t] + (seq![l] + seq![k]));
    lemma_joined_step(a, seq![h] + (seq![t] + (seq![l] + seq![k])));
    assert(seq![a, h, t, l, k] =~= seq![a] + (seq![h] + (seq![t] + (seq![l] + seq![k]))));
    assert((a + crlf() + name) + host + (crlf() + t + crlf() + label) + digits + (crlf() + k
        + crlf() + crlf()) =~= joined(seq![a, name + host, t, label + digits, k]));
}

/// Four lines, however they are put together.
proof fn lemma_four_lines(g: Seq<u8>, name: Seq<u8>, host: Seq<u8>, k: Seq<u8>, z: Seq<u8>)
    ensures
        (g + crlf() + name) + host + (crlf() + k + crlf() + z + crlf() + crlf()) == joined(
            seq![g, name + host, k, z],
        ),
{
    let h = name + host;
    let none: Seq<Seq<u8>> = seq![];
    assert(seq![z] + none =~= seq![z]);
    lemma_joined_step(z, none);
    lemma_joined_step(k, seq![z]);
    lemma_joined_step(h, seq![k] + seq![z]);
    lemma_joined_step(g, seq![h] + (seq![k] + seq![z]));
    assert(seq![g, h, k, z] =~= seq![g] + (seq![h] + (seq![k] + seq![z])));
    assert((g + crlf() + name) + host + (crlf() + k + crlf() + z + crlf() + crlf()) =~= joined(
        seq![g, name + host, k, z],
    ));
}

/// The head of a request to a backend, line by line.
pub proof fn lemma_upstream_header(host: Seq<u8>, length: nat)
    ensures
        upstream_header(Route::FraudScore, host, length) == joined(score_lines(host, length)),
        upstream_header(Route::Ready, host, length) == joined(ready_lines(host)),
{
    lemma_score_texts_part();
    lemma_ready_texts_part();
    lemma_five_lines(
        ascii("POST /fraud-score HTTP/1.1"@),
        ascii("Host: "@),
        host,
        ascii("Content-Type: application/json"@),
        ascii("Content-Length: "@),
        numeral(length),
        ascii("Connection: keep-alive"@),
    );
    lemma_four_lines(
        ascii("GET /ready HTTP/1.1"@),
        ascii("Host: "@),
        host,
        ascii("Connection: keep-alive"@),
        ascii("Content-Length: 0"@),
    );
}

/// The name of a host, which holds no end of line.
pub open spec fn is_host(host: Seq<u8>) -> bool {
    forall|k: int| 0 <= k < host.len() ==> #[trigger] host[k] != 13
}

proof fn lemma_score_lines(host: Seq<u8>, length: nat)
    requires
        is_host(host),
    ensures
        unbroken(score_lines(host, length)),
        all_filled(score_lines(host, length)),
{
    let ls = score_lines(host, length);
    reveal_strlit("POST /fraud-score HTTP/1.1");
    reveal_strlit("Host: ");
    reveal_strlit("Content-Type: application/json");
    reveal_strlit("Content-Length: ");
    reveal_strlit("Connection: keep-alive");
    lemma_numeral_bytes(length);
    assert forall|i: int, k: int| 0 <= i < ls.len() && 0 <= k < ls[i].len() implies #[trigger] ls[i][k]
        != 13 by {
        if i == 0 {
            assert(ls[i][k] == ascii("POST /fraud-score HTTP/1.1"@)[k]);
        } else if i == 1 {
            if k < 6 {
                assert(ls[i][k] == ascii("Host: "@)[k]);
            } else {
                assert(ls[i][k] == host[k - 6]);
            }
        } else if i == 2 {
            assert(ls[i][k] == ascii("Content-Type: application/json"@)[k]);
        } else if i == 3 {
            if k < 16 {
                assert(ls[i][k] == ascii("Content-Length: "@)[k]);
            } else {
                assert(ls[i][k] == numeral(length)[k - 16]);
            }
        } else {
            assert(ls[i][k] == ascii("Connection: keep-alive"@)[k]);
        }
    }
}

proof fn lemma_ready_lines(host: Seq<u8>)
    requires
        is_host(host),
    ensures
        unbroken(ready_lines(host)),
        all_filled(ready_lines(host)),
{
    let ls = ready_lines(host);
    reveal_strlit("GET /ready HTTP/1.1");
    reveal_strlit("Host: ");
    reveal_strlit("Content-Length: 0");
    reveal_strlit("Connection: keep-alive");
    assert forall|i: int, k: int| 0 <= i < ls.len() && 0 <= k < ls[i].len() implies #[trigger] ls[i][k]
        != 13 by {
        if i == 0 {
            assert(ls[i][k] == ascii("GET /ready HTTP/1.1"@)[k]);
        } else if i == 1 {
            if k < 6 {
                assert(ls[i][k] == ascii("Host: "@)[k]);
            } else {
                assert(ls[i][k] == host[k - 6]);
            }
        } else if i == 2 {
            assert(ls[i][k] == ascii("Connection: keep-alive"@)[k]);
        } else {
            assert(ls[i][k] == ascii("Content-Length: 0"@)[k]);
        }
    }
}

/// A line that differs from a word at some place does not start with it.
proof fn lemma_differs(line: Seq<u8>, word: Seq<u8>, at: int)
    requires
        0 <= at < word.len(),
        at < line.len() ==> line[at] != word[at],
    ensures
        !starts_with(line, word),
{
    if starts_with(line, word) {
        assert(line[at] == word[at]);
    }
}

/// No line but the first starts with this word, which differs from them in its first byte or, for
/// the lines that start with a C, at the given place.
proof fn lemma_score_word(host: Seq<u8>, length: nat, word: Seq<u8>, a: int, b: int, c: int)
    requires
        is_host(host),
        word.len() > 0,
        forall|k: int| 0 <= k < word.len() ==> #[trigger] word[k] != 13,
        word[0] != 72,
        0 <= a < word.len(),
        0 <= b < word.len(),
        0 <= c < word.len(),
        a < 30 && word[a] != ascii("Content-Type: application/json"@)[a],
        b < 16 && word[b] != ascii("Content-Length: "@)[b],
        c < 22 && word[c] != ascii("Connection: keep-alive"@)[c],
    ensures
        !occurs(joined(score_lines(host, length)), crlf() + word),
{
    let ls = score_lines(host, length);
    reveal_strlit("Host: ");
    reveal_strlit("Content-Type: application/json");
    reveal_strlit("Content-Length: ");
    reveal_strlit("Connection: keep-alive");
    lemma_score_lines(host, length);
    lemma_differs(ls[1], word, 0);
    lemma_differs(ls[2], word, a);
    lemma_differs(ls[3], word, b);
    lemma_differs(ls[4], word, c);
    assert forall|k: int| 1 <= k < ls.len() implies !starts_with(#[trigger] ls[k], word) by {}
    lemma_word_missing(ls, word);
}

proof fn lemma_ready_word(host: Seq<u8>, word: Seq<u8>, b: int, c: int)
    requires
        is_host(host),
        word.len() > 0,
        forall|k: int| 0 <= k < word.len() ==> #[trigger] word[k] != 13,
        word[0] != 72,
        0 <= b < word.len(),
        0 <= c < word.len(),
        b < 17 && word[b] != ascii("Content-Length: 0"@)[b],
        c < 22 && word[c] != ascii("Connection: keep-alive"@)[c],
    ensures
        !occurs(joined(ready_lines(host)), crlf() + word),
{
    let ls = ready_lines(host);
    reveal_strlit("Host: ");
    reveal_strlit("Content-Length: 0");
    reveal_strlit("Connection: keep-alive");
    lemma_ready_lines(host);
    lemma_differs(ls[1], word, 0);
    lemma_differs(ls[2], word, c);
    lemma_differs(ls[3], word, b);
    assert forall|k: int| 1 <= k < ls.len() implies !starts_with(#[trigger] ls[k], word) by {}
    lemma_word_missing(ls, word);
}

/// The words that the short cut looks for.
proof fn lemma_looked_for()
    ensures
        ascii("\r\nTransfer-Encoding:"@) == crlf() + ascii("Transfer-Encoding:"@),
        ascii("\r\ntransfer-encoding:"@) == crlf() + ascii("transfer-encoding:"@),
        ascii("\r\nConnection: close"@) == crlf() + ascii("Connection: close"@),
        ascii("\r\nconnection: close"@) == crlf() + ascii("connection: close"@),
        ascii("\r\nContent-Length:"@) == crlf() + ascii("Content-Length:"@),
{
    reveal_strlit("\r\nTransfer-Encoding:");
    reveal_strlit("Transfer-Encoding:");
    reveal_strlit("\r\ntransfer-encoding:");
    reveal_strlit("transfer-encoding:");
    reveal_strlit("\r\nConnection: close");
    reveal_strlit("Connection: close");
    reveal_strlit("\r\nconnection: close");
    reveal_strlit("connection: close");
    reveal_strlit("\r\nContent-Length:");
    reveal_strlit("Content-Length:");
    assert(ascii("\r\nTransfer-Encoding:"@) =~= crlf() + ascii("Transfer-Encoding:"@));
    assert(ascii("\r\ntransfer-encoding:"@) =~= crlf() + ascii("transfer-encoding:"@));
    assert(ascii("\r\nConnection: close"@) =~= crlf() + ascii("Connection: close"@));
    assert(ascii("\r\nconnection: close"@) =~= crlf() + ascii("connection: close"@));
    assert(ascii("\r\nContent-Length:"@) =~= crlf() + ascii("Content-Length:"@));
}

proof fn lemma_score_head_words(host: Seq<u8>, length: nat)
    requires
        is_host(host),
    ensures
        !says_encoding(joined(score_lines(host, length))),
        !says_close(joined(score_lines(host, length))),
        !says_encoding(joined(ready_lines(host))),
        !says_close(joined(ready_lines(host))),
{
    reveal_strlit("Content-Type: application/json");
    reveal_strlit("Content-Length: ");
    reveal_strlit("Content-Length: 0");
    reveal_strlit("Connection: keep-alive");
    reveal_strlit("Transfer-Encoding:");
    reveal_strlit("transfer-encoding:");
    reveal_strlit("Connection: close");
    reveal_strlit("connection: close");
    lemma_looked_for();
    lemma_score_word(host, length, ascii("Transfer-Encoding:"@), 0, 0, 0);
    lemma_score_word(host, length, ascii("transfer-encoding:"@), 0, 0, 0);
    lemma_score_word(host, length, ascii("Connection: close"@), 3, 3, 12);
    lemma_score_word(host, length, ascii("connection: close"@), 0, 0, 0);
    lemma_ready_word(host, ascii("Transfer-Encoding:"@), 0, 0);
    lemma_ready_word(host, ascii("transfer-encoding:"@), 0, 0);
    lemma_ready_word(host, ascii("Connection: close"@), 3, 12);
    lemma_ready_word(host, ascii("connection: close"@), 0, 0);
}

proof fn lemma_score_head_length(host: Seq<u8>, length: nat)
    requires
        is_host(host),
        length <= usize::MAX,
    ensures
        length_value(joined(score_lines(host, length))) is Some,
        length_at(
            joined(score_lines(host, length)),
            length_value(joined(score_lines(host, length)))->0,
        ) == Some(length),
{
    let ls = score_lines(host, length);
    let head = joined(ls);
    let word = ascii("Content-Length:"@);
    reveal_strlit("Host: ");
    reveal_strlit("Content-Length:");
    reveal_strlit("Content-Length: ");
    reveal_strlit("Content-Type: application/json");
    lemma_looked_for();
    lemma_score_lines(host, length);
    lemma_differs(ls[1], word, 0);
    lemma_differs(ls[2], word, 8);
    assert(starts_with(ls[3], word)) by {
        assert forall|k: int| 0 <= k < word.len() implies ls[3][k] == #[trigger] word[k] by {
            assert(ls[3][k] == ascii("Content-Length: "@)[k]);
        }
    }
    assert forall|k: int| 1 <= k < 3 implies !starts_with(#[trigger] ls[k], word) by {}
    lemma_word_found(ls, word, 3);
    lemma_line_bytes(ls, 3);
    let from = place(ls, 3) + 15;
    let start = from + 1;
    let digits = numeral(length);
    let end = start + digits.len();
    lemma_numeral_bytes(length);
    lemma_numeral_value(length);
    assert(ls[3].len() == 16 + digits.len());
    assert(head[place(ls, 3) + 15] == ls[3][15]);
    assert forall|k: int| 0 <= k < digits.len() implies #[trigger] head[start + k] == digits[k] by {
        assert(head[place(ls, 3) + (16 + k)] == ls[3][16 + k]);
    }
    let blank = |byte: u8| is_blank(byte);
    let digit = |byte: u8| is_digit(byte);
    assert(head[start] == digits[0]) by {
        assert(head[start + 0] == digits[0]);
    }
    assert forall|k: int| from <= k < start implies blank(#[trigger] head[k]) by {}
    lemma_run_is(head, from, blank, start);
    lemma_run_is(head, start, blank, start);
    assert forall|k: int| start <= k < end implies digit(#[trigger] head[k]) by {
        assert(head[start + (k - start)] == digits[k - start]);
    }
    lemma_run_is(head, start, digit, end);
    assert forall|k: int| 0 <= k < digits.len() implies head.subrange(start, end)[k] == digits[k] by {
        assert(head[start + k] == digits[k]);
    }
    assert(head.subrange(start, end) =~= digits);
}

/// A head that ends where the first empty line ends is what stands before the body.
proof fn lemma_head_is_cut(head: Seq<u8>, body: Seq<u8>)
    requires
        index_from(head + body, head_mark(), 0) == Some(head.len() - 4),
    ensures
        4 <= head.len(),
        (head + body).take(head.len() as int) == head,
{
    lemma_index_from(head + body, head_mark(), 0);
    assert((head + body).take(head.len() as int) =~= head);
}

/// A head that declares the length of the body behind it frames both.
proof fn lemma_whole_is_framed(head: Seq<u8>, body: Seq<u8>, asked: RequestHead)
    requires
        head.len() <= MAX_HEADER_BYTES,
        body.len() <= MAX_BODY_BYTES,
        asked.content_length == body.len(),
    ensures
        framed(head + body, head.len() as int, Ok::<RequestHead, Refusal>(asked)) == Ok::<
            Option<ParsedRequest>,
            Refusal,
        >(Some(whole_request(head, body, asked))),
{
}

/// Bytes whose head ends where `head` ends, and whose head has a usual request line, are a request
/// on a connection that the load balancer hands over.
proof fn lemma_handoff_frames(head: Seq<u8>, body: Seq<u8>, route: Route, asked: RequestHead)
    requires
        head.len() <= MAX_HEADER_BYTES,
        body.len() <= MAX_BODY_BYTES,
        index_from(head + body, head_mark(), 0) == Some(head.len() - 4),
        usual_line(head) == Some((route, false)),
        short_cut(head, route, false) == Some(Ok::<RequestHead, Refusal>(asked)),
        asked.content_length == body.len(),
    ensures
        handoff_outcome(head + body) == Ok::<Option<ParsedRequest>, Refusal>(
            Some(whole_request(head, body, asked)),
        ),
{
    lemma_head_is_cut(head, body);
    lemma_whole_is_framed(head, body, asked);
    assert(handoff_head(head) == Ok::<RequestHead, Refusal>(asked));
}

/// Such bytes are a request from a client as well.
proof fn lemma_client_frames(head: Seq<u8>, body: Seq<u8>, route: Route, asked: RequestHead)
    requires
        head.len() <= MAX_HEADER_BYTES,
        body.len() <= MAX_BODY_BYTES,
        index_from(head + body, head_mark(), 0) == Some(head.len() - 4),
        usual_line(head) == Some((route, false)),
        short_cut(head, route, false) == Some(Ok::<RequestHead, Refusal>(asked)),
        asked.content_length == body.len(),
    ensures
        outcome(head + body) == Ok::<Option<ParsedRequest>, Refusal>(
            Some(whole_request(head, body, asked)),
        ),
{
    lemma_head_is_cut(head, body);
    lemma_whole_is_framed(head, body, asked);
    assert(client_head(head) == Ok::<RequestHead, Refusal>(asked));
}

/// A head and the body behind it, as a request.
spec fn whole_request(head: Seq<u8>, body: Seq<u8>, asked: RequestHead) -> ParsedRequest {
    ParsedRequest {
        route: asked.route,
        header_len: head.len() as usize,
        total_len: (head.len() + body.len()) as usize,
        close_after_response: asked.close_after_response,
    }
}

/// A head whose first line is `line` starts with that line and its end.
proof fn lemma_starts_with_line(ls: Seq<Seq<u8>>, line: Seq<u8>)
    requires
        ls.len() > 0,
        ls[0] == line,
    ensures
        matches_at(joined(ls), line + crlf(), 0),
{
    let head = joined(ls);
    let usual = line + crlf();
    assert forall|k: int| 0 <= k < usual.len() implies head[0 + k] == #[trigger] usual[k] by {}
}

/// The head of a score request starts with a usual request line.
proof fn lemma_score_line_is_usual(host: Seq<u8>, length: nat)
    ensures
        usual_line(joined(score_lines(host, length))) == Some((Route::FraudScore, false)),
{
    reveal_strlit("POST /fraud-score HTTP/1.1\r\n");
    reveal_strlit("POST /fraud-score HTTP/1.1");
    lemma_starts_with_line(score_lines(host, length), ascii("POST /fraud-score HTTP/1.1"@));
    assert(ascii("POST /fraud-score HTTP/1.1\r\n"@) =~= ascii("POST /fraud-score HTTP/1.1"@)
        + crlf());
}

/// The head of the question whether a backend is ready starts with a usual request line.
proof fn lemma_ready_line_is_usual(host: Seq<u8>)
    ensures
        usual_line(joined(ready_lines(host))) == Some((Route::Ready, false)),
{
    let head = joined(ready_lines(host));
    let line = ascii("GET /ready HTTP/1.1"@);
    reveal_strlit("GET /ready HTTP/1.1\r\n");
    reveal_strlit("GET /ready HTTP/1.1");
    reveal_strlit("POST /fraud-score HTTP/1.1\r\n");
    reveal_strlit("POST /fraud-score HTTP/1.0\r\n");
    lemma_starts_with_line(ready_lines(host), line);
    assert(ascii("GET /ready HTTP/1.1\r\n"@) =~= line + crlf());
    assert(head[0int + 0int] == (line + crlf())[0]);
    if matches_at(head, ascii("POST /fraud-score HTTP/1.1\r\n"@), 0) {
        assert(head[0int + 0int] == ascii("POST /fraud-score HTTP/1.1\r\n"@)[0]);
    }
    if matches_at(head, ascii("POST /fraud-score HTTP/1.0\r\n"@), 0) {
        assert(head[0int + 0int] == ascii("POST /fraud-score HTTP/1.0\r\n"@)[0]);
    }
}

/// What the short cut makes of the head of a score request.
proof fn lemma_score_short_cut(host: Seq<u8>, length: nat)
    requires
        is_host(host),
        0 < length <= MAX_BODY_BYTES,
    ensures
        short_cut(joined(score_lines(host, length)), Route::FraudScore, false) == Some(
            Ok::<RequestHead, Refusal>(
                RequestHead {
                    route: Route::FraudScore,
                    content_length: length as usize,
                    close_after_response: false,
                },
            ),
        ),
{
    lemma_score_head_words(host, length);
    lemma_score_head_length(host, length);
}

/// A request to a backend is read back by whoever reads it, with the body it was made of, on a
/// connection that stays open.
pub proof fn law_forwarded_score_is_read_back(host: Seq<u8>, body: Seq<u8>)
    requires
        is_host(host),
        0 < body.len() <= MAX_BODY_BYTES,
        upstream_header(Route::FraudScore, host, body.len()).len() <= MAX_HEADER_BYTES,
    ensures
        ({
            let sent = upstream_request(Route::FraudScore, host, body);
            let header_len = upstream_header(Route::FraudScore, host, body.len()).len();
            let request = ParsedRequest {
                route: Route::FraudScore,
                header_len: header_len as usize,
                total_len: sent.len() as usize,
                close_after_response: false,
            };
            &&& handoff_outcome(sent) == Ok::<Option<ParsedRequest>, Refusal>(Some(request))
            &&& outcome(sent) == Ok::<Option<ParsedRequest>, Refusal>(Some(request))
            &&& sent.subrange(header_len as int, sent.len() as int) == body
        }),
{
    let ls = score_lines(host, body.len());
    let head = joined(ls);
    let asked = RequestHead {
        route: Route::FraudScore,
        content_length: body.len() as usize,
        close_after_response: false,
    };
    lemma_upstream_header(host, body.len());
    lemma_score_lines(host, body.len());
    lemma_head_ends(ls, body);
    lemma_score_line_is_usual(host, body.len());
    lemma_score_short_cut(host, body.len());
    lemma_handoff_frames(head, body, Route::FraudScore, asked);
    lemma_client_frames(head, body, Route::FraudScore, asked);
    assert((head + body).subrange(head.len() as int, (head + body).len() as int) =~= body);
}

/// The question to a backend whether it is ready is read back by whoever reads it.
pub proof fn law_forwarded_ready_is_read_back(host: Seq<u8>, body: Seq<u8>)
    requires
        is_host(host),
        upstream_header(Route::Ready, host, 0).len() <= MAX_HEADER_BYTES,
    ensures
        ({
            let sent = upstream_request(Route::Ready, host, body);
            let request = ParsedRequest {
                route: Route::Ready,
                header_len: sent.len() as usize,
                total_len: sent.len() as usize,
                close_after_response: false,
            };
            &&& handoff_outcome(sent) == Ok::<Option<ParsedRequest>, Refusal>(Some(request))
            &&& outcome(sent) == Ok::<Option<ParsedRequest>, Refusal>(Some(request))
        }),
{
    let ls = ready_lines(host);
    let head = joined(ls);
    let none = Seq::<u8>::empty();
    let asked = RequestHead {
        route: Route::Ready,
        content_length: 0,
        close_after_response: false,
    };
    lemma_upstream_header(host, 0);
    lemma_ready_lines(host);
    lemma_head_ends(ls, none);
    assert(head + none =~= head);
    lemma_score_head_words(host, 0);
    lemma_ready_line_is_usual(host);
    lemma_handoff_frames(head, none, Route::Ready, asked);
    lemma_client_frames(head, none, Route::Ready, asked);
}

} // verus!
