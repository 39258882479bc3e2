//! The values that stand in a body: numbers, texts, lists and truth values.
use vstd::prelude::*;
use vstd::utf8::valid_utf8;

use crate::bytes::{
    ascii, expect_after, find_byte, index_from, lemma_first_match, lemma_index_from,
    lemma_matches_moves, literal, matches_at,
};
use crate::decimal::{all_digits, digits_value, is_digit, lemma_digits_grow, lemma_digits_step};
use crate::request::{digits_end, lemma_run_end, lemma_run_is, run_end};
use crate::text::is_utf8;

verus! {

/// The kinds of values that stand in a body.
#[derive(Debug, Clone, Copy, PartialEq, Eq, Structural)]
pub enum Kind {
    /// A decimal number, up to the first byte that cannot continue it.
    Decimal,
    /// A decimal number that takes up all the bytes a number may hold.
    Real,
    /// A count that fits 32 bits.
    Count,
    /// A text in quotes; a quote behind a backslash does not end it.
    Text,
    /// A UTF-8 text in quotes, up to the next quote.
    Plain,
    /// What stands in brackets, up to the first closing one.
    List,
    /// `true` or `false`.
    Flag,
}

pub open spec fn is_sign(byte: u8) -> bool {
    byte == 43 || byte == 45
}

/// The end of the sign that stands at `pos`, if one does.
pub open spec fn sign_end(s: Seq<u8>, pos: int) -> int {
    if 0 <= pos < s.len() && is_sign(s[pos]) {
        pos + 1
    } else {
        pos
    }
}

/// The end of the fraction that stands at `pos`, with its point, if one does.
pub open spec fn fraction_end(s: Seq<u8>, pos: int) -> int {
    if 0 <= pos < s.len() && s[pos] == 46 {
        digits_end(s, pos + 1)
    } else {
        pos
    }
}

/// The end of the decimal number that stands at `pos`: a sign or none, digits with a point among
/// them or without, and an exponent or none. There is a digit before the exponent and one in it.
pub open spec fn decimal_end(s: Seq<u8>, pos: int) -> Option<int> {
    let whole = sign_end(s, pos);
    let point = digits_end(s, whole);
    let end = fraction_end(s, point);
    if point == whole && end <= point + 1 {
        None
    } else if end < s.len() && (s[end] == 101 || s[end] == 69) {
        let power = sign_end(s, end + 1);
        if digits_end(s, power) > power {
            Some(digits_end(s, power))
        } else {
            None
        }
    } else {
        Some(end)
    }
}

pub open spec fn is_real_byte(byte: u8) -> bool {
    is_digit(byte) || byte == 46 || is_sign(byte) || byte == 101 || byte == 69
}

/// The end of the bytes from `pos` on that a number may hold.
pub open spec fn real_end(s: Seq<u8>, pos: int) -> int {
    run_end(s, pos, |byte: u8| is_real_byte(byte))
}

/// The text is a decimal number.
pub open spec fn is_decimal(text: Seq<u8>) -> bool {
    decimal_end(text, 0) == Some(text.len() as int)
}

/// The end of a quoted text whose bytes start at `start`: the first quote from `at` on that is
/// the first byte or stands behind something else than a backslash.
pub open spec fn text_end(s: Seq<u8>, start: int, at: int) -> Option<int>
    decreases s.len() - at,
{
    if at < start || at >= s.len() {
        None
    } else if s[at] == 34 && (at == start || s[at - 1] != 92) {
        Some(at)
    } else {
        text_end(s, start, at + 1)
    }
}

/// Where the value of a kind that stands at `pos` starts and ends, and where what follows it
/// starts.
pub open spec fn span(s: Seq<u8>, kind: Kind, pos: int) -> Option<(int, int, int)> {
    match kind {
        Kind::Decimal => match decimal_end(s, pos) {
            Some(end) => Some((pos, end, end)),
            None => None,
        },
        Kind::Real => if pos < real_end(s, pos) && is_decimal(s.subrange(pos, real_end(s, pos))) {
            Some((pos, real_end(s, pos), real_end(s, pos)))
        } else {
            None
        },
        Kind::Count => {
            let end = digits_end(s, pos);
            if pos < end && digits_value(s.subrange(pos, end)) <= u32::MAX {
                Some((pos, end, end))
            } else {
                None
            }
        },
        Kind::Text => if 0 <= pos < s.len() && s[pos] == 34 {
            match text_end(s, pos + 1, pos + 1) {
                Some(end) => Some((pos + 1, end, end + 1)),
                None => None,
            }
        } else {
            None
        },
        Kind::Plain => if 0 <= pos < s.len() && s[pos] == 34 {
            match index_from(s, seq![34u8], pos + 1) {
                Some(end) => if valid_utf8(s.subrange(pos + 1, end)) {
                    Some((pos + 1, end, end + 1))
                } else {
                    None
                },
                None => None,
            }
        } else {
            None
        },
        Kind::List => if 0 <= pos < s.len() && s[pos] == 91 {
            match index_from(s, seq![93u8], pos + 1) {
                Some(end) => Some((pos + 1, end, end + 1)),
                None => None,
            }
        } else {
            None
        },
        Kind::Flag => if matches_at(s, ascii("true"@), pos) {
            Some((pos, pos + 4, pos + 4))
        } else if matches_at(s, ascii("false"@), pos) {
            Some((pos, pos + 5, pos + 5))
        } else {
            None
        },
    }
}

fn skip_sign(s: &[u8], pos: usize) -> (end: usize)
    requires
        pos <= s.len(),
    ensures
        end == sign_end(s@, pos as int),
        pos <= end <= s.len(),
{
    let size: usize = s.len();
    if pos < size && (s[pos] == 43 || s[pos] == 45) {
        pos + 1
    } else {
        pos
    }
}

fn skip_digits(s: &[u8], pos: usize) -> (end: usize)
    requires
        pos <= s.len(),
    ensures
        end == digits_end(s@, pos as int),
        pos <= end <= s.len(),
{
    let size: usize = s.len();
    let ghost digit = |byte: u8| is_digit(byte);
    let mut end: usize = pos;
    while end < size && 48 <= s[end] && s[end] <= 57
        invariant
            pos <= end <= size == s@.len(),
            digit == (|byte: u8| is_digit(byte)),
            run_end(s@, pos as int, digit) == run_end(s@, end as int, digit),
        decreases size - end,
    {
        end = end + 1;
    }
    end
}

/// The end of the decimal number that stands at `value_pos`; none stands beyond the bytes.
pub fn parse_number_at(body: &[u8], value_pos: usize) -> (r: Option<usize>)
    ensures
        value_pos > body@.len() ==> r is None,
        match r {
            Some(end) => decimal_end(body@, value_pos as int) == Some(end as int) && value_pos
                <= end <= body.len(),
            None => decimal_end(body@, value_pos as int) is None,
        },
{
    let size: usize = body.len();
    if value_pos > size {
        return None;
    }
    let whole: usize = skip_sign(body, value_pos);
    let point: usize = skip_digits(body, whole);
    let end: usize = if point < size && body[point] == 46 {
        skip_digits(body, point + 1)
    } else {
        point
    };
    if point == whole && (end == point || end == point + 1) {
        return None;
    }
    if end < size && (body[end] == 101 || body[end] == 69) {
        let power: usize = skip_sign(body, end + 1);
        let stop: usize = skip_digits(body, power);
        if stop > power {
            Some(stop)
        } else {
            None
        }
    } else {
        Some(end)
    }
}

/// The end of the number that stands at `start` and takes up all the bytes a number may hold; none
/// stands beyond the bytes.
pub fn parse_f64_at(body: &[u8], start: usize) -> (r: Option<usize>)
    ensures
        start > body@.len() ==> r is None,
        match r {
            Some(end) => span(body@, Kind::Real, start as int) == Some(
                (start as int, end as int, end as int),
            ) && start <= end <= body.len(),
            None => span(body@, Kind::Real, start as int) is None,
        },
{
    let size: usize = body.len();
    if start > size {
        return None;
    }
    let ghost keep = |byte: u8| is_real_byte(byte);
    let mut end: usize = start;
    while end < size && ((48 <= body[end] && body[end] <= 57) || body[end] == 46 || body[end] == 45
        || body[end] == 43 || body[end] == 101 || body[end] == 69)
        invariant
            start <= end <= size == body@.len(),
            keep == (|byte: u8| is_real_byte(byte)),
            run_end(body@, start as int, keep) == run_end(body@, end as int, keep),
        decreases size - end,
    {
        end = end + 1;
    }
    let text: &[u8] = &body[start..end];
    match parse_number_at(text, 0) {
        Some(stop) => if stop == text.len() {
            Some(end)
        } else {
            None
        },
        None => None,
    }
}

/// The count that stands at `start`, and its end; none stands beyond the bytes.
pub fn parse_u32_at(body: &[u8], start: usize) -> (r: Option<(u32, usize)>)
    ensures
        start > body@.len() ==> r is None,
        match r {
            Some((value, end)) => {
                &&& span(body@, Kind::Count, start as int) == Some(
                    (start as int, end as int, end as int),
                )
                &&& value == digits_value(body@.subrange(start as int, end as int))
                &&& start <= end <= body.len()
            },
            None => span(body@, Kind::Count, start as int) is None,
        },
{
    let size: usize = body.len();
    if start > size {
        return None;
    }
    let ghost digit = |byte: u8| is_digit(byte);
    let ghost stop = digits_end(body@, start as int);
    let ghost run = body@.subrange(start as int, stop);
    proof {
        lemma_run_end(body@, start as int, digit);
        assert forall|k: int| 0 <= k < run.len() implies is_digit(#[trigger] run[k]) by {
            assert(digit(body@[start + k]));
        }
        assert(run.take(0) =~= Seq::<u8>::empty());
    }
    let mut end: usize = start;
    let mut value: u32 = 0;
    while end < size && 48 <= body[end] && body[end] <= 57
        invariant
            start <= end <= stop <= size,
            size == body@.len(),
            digit == (|byte: u8| is_digit(byte)),
            stop == run_end(body@, end as int, digit),
            stop == digits_end(body@, start as int),
            run == body@.subrange(start as int, stop),
            all_digits(run),
            value == digits_value(run.take(end - start)),
        decreases size - end,
    {
        proof {
            assert(digit(body@[end as int]));
            lemma_run_end(body@, end + 1, digit);
            lemma_digits_step(run, end - start);
            lemma_digits_grow(run, end - start + 1);
        }
        let next: u32 = (body[end] - 48) as u32;
        match value.checked_mul(10) {
            None => {
                return None;
            },
            Some(tens) => {
                match tens.checked_add(next) {
                    None => {
                        return None;
                    },
                    Some(sum) => {
                        value = sum;
                    },
                }
            },
        }
        end = end + 1;
    }
    assert(end == stop);
    assert(run.take(end - start) =~= run);
    if end == start {
        return None;
    }
    Some((value, end))
}

/// The text in quotes that stands at `value_pos`, and what follows it.
pub fn parse_string_at(body: &[u8], value_pos: usize) -> (r: Option<(&[u8], usize)>)
    ensures
        match r {
            Some((text, next)) => {
                &&& span(body@, Kind::Text, value_pos as int) == Some(
                    (value_pos + 1, next - 1, next as int),
                )
                &&& text@ == body@.subrange(value_pos + 1, next - 1)
                &&& value_pos + 2 <= next <= body.len()
            },
            None => span(body@, Kind::Text, value_pos as int) is None,
        },
{
    let size: usize = body.len();
    if value_pos >= size || body[value_pos] != 34 {
        return None;
    }
    let start: usize = value_pos + 1;
    let mut i: usize = start;
    while i < size
        invariant
            0 < start <= i <= size == body@.len(),
            start == value_pos + 1,
            body@[value_pos as int] == 34,
            text_end(body@, start as int, start as int) == text_end(body@, start as int, i as int),
        decreases size - i,
    {
        if body[i] == 34 && (i == start || body[i - 1] != 92) {
            return Some((&body[start..i], i + 1));
        }
        i = i + 1;
    }
    None
}

/// The UTF-8 text in quotes that stands at `value_pos`, and what follows it.
pub fn parse_str_at(body: &[u8], value_pos: usize) -> (r: Option<(&[u8], usize)>)
    ensures
        match r {
            Some((text, next)) => {
                &&& span(body@, Kind::Plain, value_pos as int) == Some(
                    (value_pos + 1, next - 1, next as int),
                )
                &&& text@ == body@.subrange(value_pos + 1, next - 1)
                &&& value_pos + 2 <= next <= body.len()
            },
            None => span(body@, Kind::Plain, value_pos as int) is None,
        },
{
    let size: usize = body.len();
    if value_pos >= size || body[value_pos] != 34 {
        return None;
    }
    let start: usize = value_pos + 1;
    match find_byte(body, 34, start) {
        None => None,
        Some(end) => {
            let text: &[u8] = &body[start..end];
            if is_utf8(text) {
                Some((text, end + 1))
            } else {
                None
            }
        },
    }
}

/// What stands in brackets at `value_pos`, and what follows it.
pub fn parse_array_at(body: &[u8], value_pos: usize) -> (r: Option<(&[u8], usize)>)
    ensures
        match r {
            Some((inside, next)) => {
                &&& span(body@, Kind::List, value_pos as int) == Some(
                    (value_pos + 1, next - 1, next as int),
                )
                &&& inside@ == body@.subrange(value_pos + 1, next - 1)
                &&& value_pos + 2 <= next <= body.len()
            },
            None => span(body@, Kind::List, value_pos as int) is None,
        },
{
    let size: usize = body.len();
    if value_pos >= size || body[value_pos] != 91 {
        return None;
    }
    let start: usize = value_pos + 1;
    match find_byte(body, 93, start) {
        None => None,
        Some(end) => Some((&body[start..end], end + 1)),
    }
}

/// The truth value that stands at `value_pos`, and what follows it.
pub fn parse_bool_at(body: &[u8], value_pos: usize) -> (r: Option<(bool, usize)>)
    ensures
        match r {
            Some((value, next)) => {
                &&& span(body@, Kind::Flag, value_pos as int) == Some(
                    (value_pos as int, next as int, next as int),
                )
                &&& value == matches_at(body@, ascii("true"@), value_pos as int)
                &&& value_pos < next <= body.len()
            },
            None => span(body@, Kind::Flag, value_pos as int) is None,
        },
{
    proof {
        reveal_strlit("true");
        reveal_strlit("false");
    }
    match expect_after(body, literal("true"), value_pos) {
        Some(next) => Some((true, next)),
        None => match expect_after(body, literal("false"), value_pos) {
            Some(next) => Some((false, next)),
            None => None,
        },
    }
}

/// A text that a value of this kind can be.
pub open spec fn of_kind(text: Seq<u8>, kind: Kind) -> bool {
    match kind {
        Kind::Decimal | Kind::Real => is_decimal(text),
        Kind::Count => text.len() > 0 && all_digits(text) && digits_value(text) <= u32::MAX,
        Kind::Text => {
            &&& forall|i: int| 0 <= i < text.len() && #[trigger] text[i] == 34 ==> i > 0 && text[i - 1]
                == 92
            &&& text.len() > 0 ==> text.last() != 92
        },
        Kind::Plain => valid_utf8(text) && !text.contains(34),
        Kind::List => !text.contains(93),
        Kind::Flag => text == ascii("true"@) || text == ascii("false"@),
    }
}

/// A run goes the same way in a part of the bytes, up to the end of the part.
proof fn lemma_run_in_part(s: Seq<u8>, a: int, b: int, from: int, keep: spec_fn(u8) -> bool)
    requires
        0 <= a <= from <= b <= s.len(),
    ensures
        run_end(s.subrange(a, b), from - a, keep) == (if run_end(s, from, keep) <= b {
            run_end(s, from, keep)
        } else {
            b
        }) - a,
{
    let part = s.subrange(a, b);
    let end = if run_end(s, from, keep) <= b {
        run_end(s, from, keep)
    } else {
        b
    };
    lemma_run_end(s, from, keep);
    assert forall|k: int| from - a <= k < end - a implies keep(#[trigger] part[k]) by {
        assert(keep(s[k + a]));
    }
    lemma_run_is(part, from - a, keep, end - a);
}

/// The places of the parts of a number.
pub proof fn lemma_decimal_places(s: Seq<u8>, pos: int)
    requires
        0 <= pos <= s.len(),
    ensures
        ({
            let whole = sign_end(s, pos);
            let point = digits_end(s, whole);
            let end = fraction_end(s, point);
            &&& pos <= whole <= point <= end <= s.len()
            &&& end < s.len() ==> end + 1 <= sign_end(s, end + 1) <= digits_end(
                s,
                sign_end(s, end + 1),
            ) <= s.len()
            &&& decimal_end(s, pos) matches Some(stop) ==> pos < stop <= s.len()
        }),
{
    let digit = |byte: u8| is_digit(byte);
    let whole = sign_end(s, pos);
    lemma_run_end(s, whole, digit);
    let point = digits_end(s, whole);
    if point < s.len() {
        lemma_run_end(s, point + 1, digit);
    }
    let end = fraction_end(s, point);
    if end < s.len() {
        lemma_run_end(s, sign_end(s, end + 1), digit);
    }
}

/// A number that stands in the bytes is a number by itself.
proof fn lemma_decimal_alone(s: Seq<u8>, pos: int)
    requires
        0 <= pos <= s.len(),
        decimal_end(s, pos) is Some,
    ensures
        pos < decimal_end(s, pos)->0 <= s.len(),
        is_decimal(s.subrange(pos, decimal_end(s, pos)->0)),
{
    let stop = decimal_end(s, pos)->0;
    let digit = |byte: u8| is_digit(byte);
    lemma_decimal_places(s, pos);
    let text = s.subrange(pos, stop);
    let whole = sign_end(s, pos);
    let point = digits_end(s, whole);
    let end = fraction_end(s, point);
    assert(whole <= stop);
    assert(sign_end(text, 0) == whole - pos);
    lemma_run_in_part(s, pos, stop, whole, digit);
    assert(digits_end(text, whole - pos) == point - pos);
    if point < s.len() && s[point] == 46 {
        assert(point < stop);
        lemma_run_in_part(s, pos, stop, point + 1, digit);
    }
    assert(fraction_end(text, point - pos) == end - pos);
    if end < s.len() && (s[end] == 101 || s[end] == 69) {
        let power = sign_end(s, end + 1);
        assert(sign_end(text, end + 1 - pos) == power - pos);
        lemma_run_in_part(s, pos, stop, power, digit);
    }
}

/// The end of a quoted text, and what its bytes are.
proof fn lemma_text_end(s: Seq<u8>, start: int, at: int)
    requires
        0 < start <= at <= s.len(),
        forall|k: int|
            start <= k < at && #[trigger] s[k] == 34 ==> k > start && s[k - 1] == 92,
        text_end(s, start, at) is Some,
    ensures
        at <= text_end(s, start, at)->0 < s.len(),
        of_kind(s.subrange(start, text_end(s, start, at)->0), Kind::Text),
    decreases s.len() - at,
{
    if s[at] == 34 && (at == start || s[at - 1] != 92) {
        let text = s.subrange(start, at);
        assert forall|i: int| 0 <= i < text.len() && #[trigger] text[i] == 34 implies i > 0
            && text[i - 1] == 92 by {
            assert(s[start + i] == 34);
            assert(s[start + i - 1] == 92);
        }
    } else {
        lemma_text_end(s, start, at + 1);
    }
}

/// What `span` gives lies within the bytes, and is of its kind.
pub proof fn lemma_span_kind(s: Seq<u8>, kind: Kind, pos: int)
    requires
        0 <= pos <= s.len(),
        span(s, kind, pos) is Some,
    ensures
        ({
            let (start, end, next) = span(s, kind, pos)->0;
            &&& pos <= start <= end <= next <= s.len()
            &&& of_kind(s.subrange(start, end), kind)
        }),
{
    let (start, end, _) = span(s, kind, pos)->0;
    match kind {
        Kind::Decimal => {
            lemma_decimal_alone(s, pos);
        },
        Kind::Real => {
            lemma_run_end(s, pos, |byte: u8| is_real_byte(byte));
        },
        Kind::Count => {
            let digit = |byte: u8| is_digit(byte);
            lemma_run_end(s, pos, digit);
            assert forall|i: int| 0 <= i < end - start implies is_digit(
                #[trigger] s.subrange(start, end)[i],
            ) by {
                assert(digit(s[start + i]));
            }
        },
        Kind::Text => {
            lemma_text_end(s, pos + 1, pos + 1);
        },
        Kind::Plain => {
            lemma_index_from(s, seq![34u8], pos + 1);
            lemma_no_byte_before(s, 34, pos + 1, end);
        },
        Kind::List => {
            lemma_index_from(s, seq![93u8], pos + 1);
            lemma_no_byte_before(s, 93, pos + 1, end);
        },
        Kind::Flag => {
            reveal_strlit("true");
            reveal_strlit("false");
            if matches_at(s, ascii("true"@), pos) {
                assert forall|k: int| 0 <= k < 4 implies #[trigger] s[pos + k] == ascii(
                    "true"@,
                )[k] by {
                    assert(ascii("true"@)[k] == s[pos + k]);
                }
                assert(s.subrange(start, end) =~= ascii("true"@));
            } else {
                assert forall|k: int| 0 <= k < 5 implies #[trigger] s[pos + k] == ascii(
                    "false"@,
                )[k] by {
                    assert(ascii("false"@)[k] == s[pos + k]);
                }
                assert(s.subrange(start, end) =~= ascii("false"@));
            }
        },
    }
}

/// A byte does not stand before the first place it is found.
proof fn lemma_no_byte_before(s: Seq<u8>, byte: u8, from: int, at: int)
    requires
        0 <= from <= s.len(),
        index_from(s, seq![byte], from) == Some(at),
    ensures
        from <= at < s.len(),
        !s.subrange(from, at).contains(byte),
{
    lemma_index_from(s, seq![byte], from);
    let part = s.subrange(from, at);
    if part.contains(byte) {
        let k = choose|k: int| 0 <= k < part.len() && part[k] == byte;
        assert(matches_at(s, seq![byte], from + k));
    }
}

/// A value as it is written into a body.
pub open spec fn written(text: Seq<u8>, kind: Kind) -> Seq<u8> {
    match kind {
        Kind::Text | Kind::Plain => seq![34u8] + text + seq![34u8],
        Kind::List => seq![91u8] + text + seq![93u8],
        _ => text,
    }
}

/// The bytes from `at` on cannot continue a number.
pub open spec fn number_ends(s: Seq<u8>, at: int) -> bool {
    at < s.len() ==> !is_real_byte(s[at])
}

pub open spec fn is_number_kind(kind: Kind) -> bool {
    kind == Kind::Decimal || kind == Kind::Real || kind == Kind::Count
}

proof fn lemma_digits_stop(s: Seq<u8>, from: int, end: int)
    requires
        0 <= from <= end <= s.len(),
        number_ends(s, end),
    ensures
        from <= digits_end(s, from) <= end,
{
    let digit = |byte: u8| is_digit(byte);
    lemma_run_end(s, from, digit);
    if digits_end(s, from) > end {
        assert(digit(s[end]));
    }
}

/// A number is read back where what follows cannot continue it.
proof fn lemma_decimal_reads_back(s: Seq<u8>, pos: int, end: int)
    requires
        0 <= pos <= end <= s.len(),
        is_decimal(s.subrange(pos, end)),
        number_ends(s, end),
    ensures
        decimal_end(s, pos) == Some(end),
{
    let text = s.subrange(pos, end);
    let digit = |byte: u8| is_digit(byte);
    lemma_decimal_places(text, 0);
    let whole = sign_end(text, 0);
    let point = digits_end(text, whole);
    let stop = fraction_end(text, point);
    assert(sign_end(s, pos) == pos + whole);
    lemma_run_in_part(s, pos, end, pos + whole, digit);
    lemma_digits_stop(s, pos + whole, end);
    assert(digits_end(s, pos + whole) == pos + point);
    if point < text.len() {
        assert(s[pos + point] == text[point]);
        lemma_run_in_part(s, pos, end, pos + point + 1, digit);
        lemma_digits_stop(s, pos + point + 1, end);
    }
    assert(fraction_end(s, pos + point) == pos + stop);
    if stop < text.len() {
        assert(s[pos + stop] == text[stop]);
        let power = sign_end(text, stop + 1);
        assert(sign_end(s, pos + stop + 1) == pos + power);
        lemma_run_in_part(s, pos, end, pos + power, digit);
        lemma_digits_stop(s, pos + power, end);
    }
}

/// A number holds only the bytes that a number may hold.
proof fn lemma_decimal_bytes(text: Seq<u8>)
    requires
        is_decimal(text),
    ensures
        forall|i: int| 0 <= i < text.len() ==> is_real_byte(#[trigger] text[i]),
{
    let digit = |byte: u8| is_digit(byte);
    lemma_decimal_places(text, 0);
    let whole = sign_end(text, 0);
    let point = digits_end(text, whole);
    let stop = fraction_end(text, point);
    lemma_run_end(text, whole, digit);
    if point < text.len() {
        lemma_run_end(text, point + 1, digit);
    }
    if stop < text.len() {
        lemma_run_end(text, sign_end(text, stop + 1), digit);
    }
    assert forall|i: int| 0 <= i < text.len() implies is_real_byte(#[trigger] text[i]) by {
        if whole <= i < point {
            assert(digit(text[i]));
        } else if point < i < stop {
            assert(digit(text[i]));
        } else if i >= stop && i >= sign_end(text, stop + 1) {
            assert(digit(text[i]));
        }
    }
}

proof fn lemma_text_reads_back(s: Seq<u8>, start: int, at: int, end: int)
    requires
        0 < start <= at <= end < s.len(),
        of_kind(s.subrange(start, end), Kind::Text),
        s[end] == 34,
    ensures
        text_end(s, start, at) == Some(end),
    decreases end - at,
{
    let text = s.subrange(start, end);
    if at < end {
        assert(text[at - start] == s[at]);
        if s[at] == 34 {
            assert(text[at - start - 1] == s[at - 1]);
        }
        lemma_text_reads_back(s, start, at + 1, end);
    } else if start < end {
        assert(text.last() == s[end - 1]);
    }
}

proof fn lemma_byte_reads_back(s: Seq<u8>, byte: u8, from: int, at: int)
    requires
        0 <= from <= at < s.len(),
        !s.subrange(from, at).contains(byte),
        s[at] == byte,
    ensures
        index_from(s, seq![byte], from) == Some(at),
{
    assert forall|j: int| from <= j < at implies !matches_at(s, seq![byte], j) by {
        assert(s.subrange(from, at)[j - from] == s[j]);
        if matches_at(s, seq![byte], j) {
            assert(s[j + 0] == seq![byte][0]);
            assert(s.subrange(from, at).contains(byte));
        }
    }
    assert(matches_at(s, seq![byte], at));
    lemma_first_match(s, seq![byte], from, at);
}

/// What a match says of the bytes themselves.
proof fn lemma_matches_part(s: Seq<u8>, needle: Seq<u8>, at: int)
    requires
        matches_at(s, needle, at),
    ensures
        s.subrange(at, at + needle.len()) == needle,
{
    let part = s.subrange(at, at + needle.len());
    assert forall|k: int| 0 <= k < needle.len() implies part[k] == needle[k] by {
        assert(s[at + k] == needle[k]);
    }
    assert(part =~= needle);
}

/// A value of its kind is read back where it was written.
pub proof fn lemma_value_reads_back(s: Seq<u8>, kind: Kind, pos: int, text: Seq<u8>)
    requires
        matches_at(s, written(text, kind), pos),
        of_kind(text, kind),
        is_number_kind(kind) ==> number_ends(s, pos + text.len()),
    ensures
        ({
            let open: int = if written(text, kind).len() > text.len() {
                1
            } else {
                0
            };
            &&& span(s, kind, pos) == Some(
                (pos + open, pos + open + text.len(), pos + written(text, kind).len()),
            )
            &&& s.subrange(pos + open, pos + open + text.len()) == text
        }),
{
    let whole = written(text, kind);
    lemma_matches_part(s, whole, pos);
    match kind {
        Kind::Decimal => {
            lemma_decimal_reads_back(s, pos, pos + text.len());
        },
        Kind::Real => {
            let keep = |byte: u8| is_real_byte(byte);
            lemma_decimal_bytes(text);
            assert forall|k: int| pos <= k < pos + text.len() implies keep(#[trigger] s[k]) by {
                assert(s.subrange(pos, pos + text.len())[k - pos] == text[k - pos]);
            }
            lemma_run_is(s, pos, keep, pos + text.len());
        },
        Kind::Count => {
            let digit = |byte: u8| is_digit(byte);
            assert forall|k: int| pos <= k < pos + text.len() implies digit(#[trigger] s[k]) by {
                assert(s.subrange(pos, pos + text.len())[k - pos] == text[k - pos]);
                assert(is_digit(text[k - pos]));
            }
            lemma_run_is(s, pos, digit, pos + text.len());
        },
        Kind::Text | Kind::Plain | Kind::List => {
            let end = pos + 1 + text.len();
            assert(s[pos] == whole[0]) by {
                assert(s[pos + 0] == whole[0]);
            }
            assert(s[end] == whole[end - pos]);
            assert(s.subrange(pos + 1, end) =~= text) by {
                assert forall|k: int| 0 <= k < text.len() implies s.subrange(pos + 1, end)[k]
                    == text[k] by {
                    assert(s[pos + (k + 1)] == whole[k + 1]);
                }
            }
            if kind == Kind::Text {
                lemma_text_reads_back(s, pos + 1, pos + 1, end);
            } else if kind == Kind::Plain {
                lemma_byte_reads_back(s, 34, pos + 1, end);
            } else {
                lemma_byte_reads_back(s, 93, pos + 1, end);
            }
        },
        Kind::Flag => {
            reveal_strlit("true");
            reveal_strlit("false");
            if text == ascii("false"@) {
                assert(s[pos + 0] == whole[0]);
                if matches_at(s, ascii("true"@), pos) {
                    assert(s[pos + 0] == ascii("true"@)[0]);
                }
            }
        },
    }
}

/// A value that was read stands in the bytes as it is written, and no value ends in a closing
/// brace.
pub proof fn lemma_span_is_written(s: Seq<u8>, kind: Kind, pos: int)
    requires
        0 <= pos <= s.len(),
        span(s, kind, pos) is Some,
    ensures
        ({
            let (start, end, next) = span(s, kind, pos)->0;
            let text = s.subrange(start, end);
            &&& matches_at(s, written(text, kind), pos)
            &&& next == pos + written(text, kind).len()
            &&& pos < next
            &&& s[next - 1] != 125
        }),
{
    let (start, end, _) = span(s, kind, pos)->0;
    let text = s.subrange(start, end);
    let whole = written(text, kind);
    lemma_span_kind(s, kind, pos);
    match kind {
        Kind::Decimal | Kind::Real => {
            lemma_decimal_places(text, 0);
            lemma_decimal_bytes(text);
            assert(is_real_byte(text[text.len() - 1]));
        },
        Kind::Count => {
            assert(is_digit(text[text.len() - 1]));
        },
        Kind::Text => {
            lemma_text_closes(s, pos + 1, pos + 1);
        },
        Kind::Plain => {
            lemma_index_from(s, seq![34u8], pos + 1);
            assert(s[end + 0] == seq![34u8][0]);
        },
        Kind::List => {
            lemma_index_from(s, seq![93u8], pos + 1);
            assert(s[end + 0] == seq![93u8][0]);
        },
        Kind::Flag => {
            reveal_strlit("true");
            reveal_strlit("false");
            assert(text[text.len() - 1] == 101);
        },
    }
    assert forall|k: int| 0 <= k < whole.len() implies s[pos + k] == #[trigger] whole[k] by {}
}

/// The end of a quoted text is a quote.
proof fn lemma_text_closes(s: Seq<u8>, start: int, at: int)
    requires
        0 < start <= at <= s.len(),
        text_end(s, start, at) is Some,
    ensures
        s[text_end(s, start, at)->0] == 34,
    decreases s.len() - at,
{
    if !(s[at] == 34 && (at == start || s[at - 1] != 92)) {
        lemma_text_closes(s, start, at + 1);
    }
}

/// A run that ends within the bytes ends there too in a longer string that holds them.
proof fn lemma_run_moves(
    b: Seq<u8>,
    t: Seq<u8>,
    shift: int,
    from: int,
    keep: spec_fn(u8) -> bool,
)
    requires
        matches_at(t, b, shift),
        0 <= from <= b.len(),
        run_end(b, from, keep) < b.len(),
    ensures
        run_end(t, shift + from, keep) == shift + run_end(b, from, keep),
{
    lemma_matches_part(t, b, shift);
    lemma_run_in_part(t, shift, shift + b.len(), shift + from, keep);
}

/// A decimal number that ends within the bytes ends there too in a longer string that holds them.
proof fn lemma_decimal_moves(b: Seq<u8>, t: Seq<u8>, shift: int, pos: int)
    requires
        matches_at(t, b, shift),
        0 <= pos <= b.len(),
        decimal_end(b, pos) matches Some(stop) && stop < b.len(),
    ensures
        decimal_end(t, shift + pos) == Some(shift + decimal_end(b, pos)->0),
{
    let digit = |byte: u8| is_digit(byte);
    lemma_decimal_places(b, pos);
    let whole = sign_end(b, pos);
    let point = digits_end(b, whole);
    let stop = fraction_end(b, point);
    assert(t[shift + pos] == b[pos]);
    assert(sign_end(t, shift + pos) == shift + whole);
    lemma_run_moves(b, t, shift, whole, digit);
    assert(digits_end(t, shift + whole) == shift + point);
    assert(t[shift + point] == b[point]);
    if b[point] == 46 {
        lemma_run_moves(b, t, shift, point + 1, digit);
    }
    assert(fraction_end(t, shift + point) == shift + stop);
    assert(t[shift + stop] == b[stop]);
    if b[stop] == 101 || b[stop] == 69 {
        let power = sign_end(b, stop + 1);
        assert(t[shift + (stop + 1)] == b[stop + 1]);
        assert(sign_end(t, shift + stop + 1) == shift + power);
        lemma_run_moves(b, t, shift, power, digit);
    }
}

/// What stands between two places of the bytes stands between them in a longer string that holds
/// the bytes.
proof fn lemma_part_moves(b: Seq<u8>, t: Seq<u8>, shift: int, start: int, end: int)
    requires
        matches_at(t, b, shift),
        0 <= start <= end <= b.len(),
    ensures
        t.subrange(shift + start, shift + end) == b.subrange(start, end),
{
    let text = b.subrange(start, end);
    assert(t.subrange(shift + start, shift + end) =~= text) by {
        assert forall|k: int| 0 <= k < text.len() implies t.subrange(shift + start, shift + end)[k]
            == text[k] by {
            assert(t[shift + (start + k)] == b[start + k]);
        }
    }
}

/// A number that ends within the bytes is read the same in a longer string that holds them.
proof fn lemma_number_moves(b: Seq<u8>, t: Seq<u8>, shift: int, kind: Kind, pos: int)
    requires
        kind is Decimal || kind is Real || kind is Count,
        matches_at(t, b, shift),
        0 <= pos <= b.len(),
        span(b, kind, pos) matches Some((_, _, next)) && pos <= next < b.len(),
    ensures
        ({
            let (start, end, next) = span(b, kind, pos)->0;
            span(t, kind, shift + pos) == Some((shift + start, shift + end, shift + next))
        }),
{
    let (_, end, _) = span(b, kind, pos)->0;
    lemma_part_moves(b, t, shift, pos, end);
    match kind {
        Kind::Decimal => {
            lemma_decimal_moves(b, t, shift, pos);
        },
        Kind::Real => {
            lemma_run_moves(b, t, shift, pos, |byte: u8| is_real_byte(byte));
        },
        _ => {
            lemma_run_moves(b, t, shift, pos, |byte: u8| is_digit(byte));
        },
    }
}

/// A value that ends within the bytes is read the same in a longer string that holds them.
pub proof fn lemma_span_moves(b: Seq<u8>, t: Seq<u8>, shift: int, kind: Kind, pos: int)
    requires
        matches_at(t, b, shift),
        0 <= pos <= b.len(),
        span(b, kind, pos) matches Some((_, _, next)) && next < b.len(),
    ensures
        ({
            let (start, end, next) = span(b, kind, pos)->0;
            &&& span(t, kind, shift + pos) == Some((shift + start, shift + end, shift + next))
            &&& t.subrange(shift + start, shift + end) == b.subrange(start, end)
        }),
{
    let (start, end, _) = span(b, kind, pos)->0;
    let text = b.subrange(start, end);
    lemma_span_kind(b, kind, pos);
    lemma_part_moves(b, t, shift, start, end);
    if kind is Decimal || kind is Real || kind is Count {
        lemma_number_moves(b, t, shift, kind, pos);
    } else {
        lemma_span_is_written(b, kind, pos);
        lemma_matches_moves(b, t, shift, written(text, kind), pos);
        lemma_value_reads_back(t, kind, shift + pos, text);
    }
}

} // verus!
