//! Lines and words.
use vstd::prelude::*;
use vstd::utf8::valid_utf8;

use crate::bytes::{ascii, lemma_first_match, lemma_index_from, matches_at};
use crate::head::{
    colon, crlf, field_lines, head_outcome, lines, word_length, words, Refusal, RequestHead,
};
use crate::head::well_formed as is_field;
use crate::laws::heads::{is_word, lemma_three_words};
use crate::message::{joined, lemma_field_lines, lemma_joined_lines};

verus! {

/// A line ends with the first carriage return and line feed; what follows them are the other lines,
/// and a text without them is one line.
pub proof fn law_lines_end_with_both_marks(line: Seq<u8>, rest: Seq<u8>)
    requires
        forall|k: int| 0 <= k < line.len() - 1 ==> !(#[trigger] line[k] == 13 && line[k + 1] == 10),
    ensures
        line.len() == 0 || line.last() != 13 ==> lines(line + seq![13u8, 10u8] + rest) == seq![line]
            + lines(rest),
        lines(line) == seq![line],
{
    let mark = crlf();
    let s = line + mark + rest;
    let n = line.len() as int;
    lemma_index_from(line, mark, 0);
    if let Some(at) = crate::bytes::index_from(line, mark, 0) {
        assert(line[at + 0] == mark[0] && line[at + 1] == mark[1]);
    }
    if line.len() == 0 || line.last() != 13 {
        assert(matches_at(s, mark, n)) by {
            assert forall|k: int| 0 <= k < 2 implies s[n + k] == #[trigger] mark[k] by {}
        }
        assert forall|j: int| 0 <= j < n implies !matches_at(s, mark, j) by {
            if matches_at(s, mark, j) {
                assert(s[j + 0] == mark[0] && s[j + 1] == mark[1]);
                assert(s[j] == line[j]);
                if j < n - 1 {
                    assert(s[j + 1] == line[j + 1]);
                }
            }
        }
        lemma_first_match(s, mark, 0, n);
        assert(s.take(n) =~= line);
        assert(s.skip(n + 2) =~= rest);
    }
}

/// The fields are the lines up to the first empty one, or all of them where none is.
pub proof fn law_fields_end_with_an_empty_line(fields: Seq<Seq<u8>>, tail: Seq<Seq<u8>>)
    requires
        forall|i: int| 0 <= i < fields.len() ==> (#[trigger] fields[i]).len() > 0,
    ensures
        field_lines(fields + seq![Seq::<u8>::empty()] + tail) == fields,
        field_lines(fields) == fields,
    decreases fields.len(),
{
    let end = seq![Seq::<u8>::empty()] + tail;
    assert(fields + seq![Seq::<u8>::empty()] + tail =~= fields + end);
    lemma_field_lines(fields, end);
    if fields.len() > 0 {
        let rest = fields.drop_first();
        assert forall|i: int| 0 <= i < rest.len() implies (#[trigger] rest[i]).len() > 0 by {
            assert(fields[i + 1].len() > 0);
        }
        assert(fields[0].len() > 0);
        law_fields_end_with_an_empty_line(rest, tail);
        assert(seq![fields[0]] + rest =~= fields);
    }
}

/// Words with white space before each of them, and behind the last.
pub open spec fn spaced(ws: Seq<Seq<u8>>, blanks: Seq<Seq<u8>>) -> Seq<u8>
    decreases ws.len(),
{
    if ws.len() == 0 {
        blanks[0]
    } else {
        blanks[0] + ws[0] + spaced(ws.drop_first(), blanks.drop_first())
    }
}

/// Bytes of white space.
pub open spec fn are_spaces(s: Seq<u8>) -> bool {
    forall|k: int|
        0 <= k < s.len() ==> #[trigger] s[k] == 32 || s[k] == 9 || s[k] == 10 || s[k] == 12 || s[k]
            == 13
}

/// Bytes none of which is white space.
pub open spec fn are_unspaced(s: Seq<u8>) -> bool {
    forall|k: int|
        0 <= k < s.len() ==> #[trigger] s[k] != 32 && s[k] != 9 && s[k] != 10 && s[k] != 12 && s[k]
            != 13
}

proof fn lemma_skip_spaces(blanks: Seq<u8>, rest: Seq<u8>)
    requires
        are_spaces(blanks),
    ensures
        words(blanks + rest) == words(rest),
    decreases blanks.len(),
{
    let s = blanks + rest;
    if blanks.len() > 0 {
        assert(s[0] == blanks[0]);
        assert(s.skip(1) =~= blanks.skip(1) + rest);
        assert forall|k: int| 0 <= k < blanks.skip(1).len() implies #[trigger] blanks.skip(1)[k]
            == 32 || blanks.skip(1)[k] == 9 || blanks.skip(1)[k] == 10 || blanks.skip(1)[k] == 12
            || blanks.skip(1)[k] == 13 by {
            let b = blanks[k + 1];
            assert(b == 32 || b == 9 || b == 10 || b == 12 || b == 13);
        }
        lemma_skip_spaces(blanks.skip(1), rest);
    } else {
        assert(s =~= rest);
    }
}

proof fn lemma_unspaced_length(word: Seq<u8>, rest: Seq<u8>)
    requires
        are_unspaced(word),
        rest.len() > 0 ==> rest[0] == 32 || rest[0] == 9 || rest[0] == 10 || rest[0] == 12
            || rest[0] == 13,
    ensures
        word_length(word + rest) == word.len(),
    decreases word.len(),
{
    let s = word + rest;
    if word.len() > 0 {
        assert(s[0] == word[0]);
        assert(s.skip(1) =~= word.skip(1) + rest);
        assert forall|k: int| 0 <= k < word.skip(1).len() implies #[trigger] word.skip(1)[k] != 32
            && word.skip(1)[k] != 9 && word.skip(1)[k] != 10 && word.skip(1)[k] != 12
            && word.skip(1)[k] != 13 by {
            let b = word[k + 1];
            assert(b != 32 && b != 9 && b != 10 && b != 12 && b != 13);
        }
        lemma_unspaced_length(word.skip(1), rest);
    } else {
        assert(s =~= rest);
    }
}

/// The words of a text are what stands between white space, in order, however much there is of it.
pub proof fn law_words_stand_between_white_space(ws: Seq<Seq<u8>>, blanks: Seq<Seq<u8>>)
    requires
        blanks.len() == ws.len() + 1,
        forall|i: int| 0 <= i < ws.len() ==> (#[trigger] ws[i]).len() > 0 && are_unspaced(ws[i]),
        forall|i: int| 0 <= i < blanks.len() ==> are_spaces(#[trigger] blanks[i]),
        forall|i: int| 0 < i < ws.len() ==> (#[trigger] blanks[i]).len() > 0,
    ensures
        words(spaced(ws, blanks)) == ws,
    decreases ws.len(),
{
    let s = spaced(ws, blanks);
    assert(are_spaces(blanks[0]));
    if ws.len() == 0 {
        assert(blanks[0] + Seq::<u8>::empty() =~= s);
        lemma_skip_spaces(blanks[0], Seq::<u8>::empty());
        assert(words(Seq::<u8>::empty()) =~= ws);
    } else {
        let rest_ws = ws.drop_first();
        let rest_blanks = blanks.drop_first();
        let rest = spaced(rest_ws, rest_blanks);
        let word = ws[0];
        assert(word.len() > 0 && are_unspaced(word));
        assert forall|i: int| 0 <= i < rest_ws.len() implies (#[trigger] rest_ws[i]).len() > 0
            && are_unspaced(rest_ws[i]) by {
            assert(ws[i + 1].len() > 0 && are_unspaced(ws[i + 1]));
        }
        assert forall|i: int| 0 <= i < rest_blanks.len() implies are_spaces(
            #[trigger] rest_blanks[i],
        ) by {
            assert(are_spaces(blanks[i + 1]));
        }
        assert forall|i: int| 0 < i < rest_ws.len() implies (#[trigger] rest_blanks[i]).len() > 0 by {
            assert(blanks[i + 1].len() > 0);
        }
        law_words_stand_between_white_space(rest_ws, rest_blanks);
        let tail = word + rest;
        assert(s =~= blanks[0] + tail);
        lemma_skip_spaces(blanks[0], tail);
        assert(are_spaces(blanks[1]));
        if rest.len() > 0 {
            if blanks[1].len() > 0 {
                assert(rest[0] == blanks[1][0]);
            } else {
                assert(ws.len() == 1);
                assert(rest == blanks[1]);
            }
        }
        lemma_unspaced_length(word, rest);
        assert(tail[0] == word[0]);
        assert(tail.take(word.len() as int) =~= word);
        assert(tail.skip(word.len() as int) =~= rest);
        assert(words(tail) == seq![word] + words(rest));
        assert(seq![word] + rest_ws =~= ws);
    }
}

/// A head is refused as a bad request where it is not UTF-8, and where its first line has less than
/// three words.
pub proof fn law_heads_are_text_with_three_words(header: Seq<u8>)
    ensures
        !valid_utf8(header) || words(lines(header)[0]).len() < 3 ==> head_outcome(header) == Err::<
            RequestHead,
            Refusal,
        >(Refusal::BadRequest),
{
}

/// A head on a route that is served is refused as a bad request if a line in it has no colon.
pub proof fn law_fields_have_a_colon(
    method: Seq<u8>,
    path: Seq<u8>,
    version: Seq<u8>,
    raw: Seq<Seq<u8>>,
    i: int,
)
    requires
        method == ascii("GET"@) && path == ascii("/ready"@) || method == ascii("POST"@) && path
            == ascii("/fraud-score"@),
        version == ascii("HTTP/1.1"@) || version == ascii("HTTP/1.0"@),
        forall|j: int, k: int|
            0 <= j < raw.len() && 0 <= k < raw[j].len() ==> #[trigger] raw[j][k] != 13,
        forall|j: int| 0 <= j < raw.len() ==> (#[trigger] raw[j]).len() > 0,
        0 <= i < raw.len(),
        forall|k: int| 0 <= k < raw[i].len() ==> #[trigger] raw[i][k] != 58,
    ensures
        head_outcome(
            joined(seq![method + seq![32u8] + path + seq![32u8] + version] + raw),
        ) == Err::<RequestHead, Refusal>(Refusal::BadRequest),
{
    let line = method + seq![32u8] + path + seq![32u8] + version;
    let ls = seq![line] + raw;
    let none = Seq::<u8>::empty();
    reveal_strlit("GET");
    reveal_strlit("POST");
    reveal_strlit("/ready");
    reveal_strlit("/fraud-score");
    reveal_strlit("HTTP/1.1");
    reveal_strlit("HTTP/1.0");
    assert(is_word(method) && is_word(path) && is_word(version));
    assert(ascii("GET"@).len() == 3 && ascii("POST"@).len() == 4);
    lemma_three_words(method, path, version);
    assert forall|j: int, k: int| 0 <= j < ls.len() && 0 <= k < ls[j].len() implies #[trigger]
        ls[j][k] != 13 by {
        if j > 0 {
            assert(ls[j] == raw[j - 1]);
            assert(raw[j - 1][k] != 13);
        } else {
            let p = method.len() as int;
            let v = p + 1 + path.len();
            if k < p {
                assert(line[k] == method[k]);
            } else if p < k < v {
                assert(line[k] == path[k - p - 1]);
            } else if v < k {
                assert(line[k] == version[k - v - 1]);
            }
        }
    }
    lemma_joined_lines(ls);
    assert(lines(joined(ls)).drop_first() =~= raw + seq![none, none]);
    lemma_field_lines(raw, seq![none, none]);
    lemma_index_from(raw[i], seq![58u8], 0);
    if let Some(at) = colon(raw[i]) {
        assert(raw[i][at + 0] == seq![58u8][0]);
    }
    assert(!is_field(raw[i]));
}

} // verus!
