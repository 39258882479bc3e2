//! The values in the body of a score request, as they are written.
use vstd::prelude::*;
use vstd::utf8::valid_utf8;

use crate::bytes::{ascii, index_from, lemma_first_match, lemma_index_from, matches_at};
use crate::decimal::{all_digits, digits_value, is_digit};
use crate::payload::fields::quoted;
use crate::payload::value::{
    fraction_end, is_decimal, lemma_decimal_places, lemma_value_reads_back, of_kind, sign_end,
    span, Kind,
};
use crate::request::{digits_end, lemma_run_end, lemma_run_is};

verus! {

/// A decimal number as it is written.
pub struct WrittenNumber {
    /// A plus or a minus, or nothing.
    pub sign: Seq<u8>,
    pub whole: Seq<u8>,
    /// The digits behind the point, where there is one.
    pub fraction: Option<Seq<u8>>,
    /// The letter, the sign and the digits of the exponent, where there is one.
    pub power: Option<(u8, Seq<u8>, Seq<u8>)>,
}

pub open spec fn are_digits(s: Seq<u8>) -> bool {
    forall|k: int| 0 <= k < s.len() ==> 48 <= #[trigger] s[k] <= 57
}

pub open spec fn is_sign_or_none(s: Seq<u8>) -> bool {
    s.len() == 0 || s.len() == 1 && (s[0] == 43 || s[0] == 45)
}

/// The digits are digits, there is one before the exponent, and one in it.
pub open spec fn can_be_written(n: WrittenNumber) -> bool {
    &&& is_sign_or_none(n.sign)
    &&& are_digits(n.whole)
    &&& match n.fraction {
        None => n.whole.len() > 0,
        Some(digits) => are_digits(digits) && n.whole.len() + digits.len() > 0,
    }
    &&& n.power matches Some((letter, sign, digits)) ==> (letter == 101 || letter == 69)
        && is_sign_or_none(sign) && are_digits(digits) && digits.len() > 0
}

pub open spec fn number_bytes(n: WrittenNumber) -> Seq<u8> {
    n.sign + n.whole + (match n.fraction {
        None => seq![],
        Some(digits) => seq![46u8] + digits,
    }) + (match n.power {
        None => seq![],
        Some((letter, sign, digits)) => seq![letter] + sign + digits,
    })
}

proof fn lemma_digit_run(s: Seq<u8>, from: int, digits: Seq<u8>)
    requires
        0 <= from,
        from + digits.len() <= s.len(),
        are_digits(digits),
        forall|k: int| 0 <= k < digits.len() ==> s[from + k] == #[trigger] digits[k],
        from + digits.len() < s.len() ==> !(48 <= s[from + digits.len()] <= 57),
    ensures
        digits_end(s, from) == from + digits.len(),
{
    let digit = |byte: u8| is_digit(byte);
    assert forall|k: int| from <= k < from + digits.len() implies digit(#[trigger] s[k]) by {
        assert(s[from + (k - from)] == digits[k - from]);
    }
    lemma_run_is(s, from, digit, from + digits.len());
}

/// A number is a decimal exactly if it is written as one: a sign or none, digits with a point among
/// them or without, and an exponent or none.
pub proof fn law_decimals_are_read(n: WrittenNumber)
    requires
        can_be_written(n),
    ensures
        is_decimal(number_bytes(n)),
        of_kind(number_bytes(n), Kind::Decimal),
        of_kind(number_bytes(n), Kind::Real),
{
    let s = number_bytes(n);
    let whole = n.sign.len() as int;
    let point = whole + n.whole.len();
    let digits = match n.fraction {
        None => Seq::<u8>::empty(),
        Some(digits) => digits,
    };
    let end = match n.fraction {
        None => point,
        Some(digits) => point + 1 + digits.len(),
    };
    if n.sign.len() == 0 {
        if n.whole.len() > 0 {
            assert(s[0] == n.whole[0]);
        } else {
            assert(s[0] == 46);
        }
    } else {
        assert(s[0] == n.sign[0]);
    }
    assert(sign_end(s, 0) == whole);
    assert forall|k: int| 0 <= k < n.whole.len() implies s[whole + k] == #[trigger] n.whole[k] by {}
    if n.fraction is Some {
        assert(s[point] == 46);
        assert forall|k: int| 0 <= k < digits.len() implies s[point + 1 + k]
            == #[trigger] digits[k] by {}
    }
    if let Some((letter, sign, power)) = n.power {
        assert(s[end] == letter);
        let start = end + 1 + sign.len();
        if sign.len() > 0 {
            assert(s[end + 1] == sign[0]);
        } else {
            assert(s[end + 1] == power[0]);
        }
        assert forall|k: int| 0 <= k < power.len() implies s[start + k] == #[trigger] power[k] by {}
        lemma_digit_run(s, start, power);
        assert(sign_end(s, end + 1) == start);
        assert(s.len() == start + power.len());
    } else {
        assert(s.len() == end);
    }
    lemma_digit_run(s, whole, n.whole);
    if n.fraction is Some {
        lemma_digit_run(s, point + 1, digits);
    }
    assert(fraction_end(s, point) == end);
}

/// A decimal is written as a number: nothing else is read as one.
pub proof fn law_only_numbers_are_decimals(text: Seq<u8>) -> (n: WrittenNumber)
    requires
        is_decimal(text),
    ensures
        can_be_written(n),
        number_bytes(n) == text,
{
    let digit = |byte: u8| is_digit(byte);
    lemma_decimal_places(text, 0);
    let whole = sign_end(text, 0);
    let point = digits_end(text, whole);
    let end = fraction_end(text, point);
    lemma_run_end(text, whole, digit);
    let sign = text.take(whole);
    let digits = text.subrange(whole, point);
    assert forall|k: int| 0 <= k < digits.len() implies 48 <= #[trigger] digits[k] <= 57 by {
        assert(digit(text[whole + k]));
    }
    let fraction = if point < text.len() && text[point] == 46 {
        lemma_run_end(text, point + 1, digit);
        let part = text.subrange(point + 1, end);
        assert forall|k: int| 0 <= k < part.len() implies 48 <= #[trigger] part[k] <= 57 by {
            assert(digit(text[point + 1 + k]));
        }
        Some(part)
    } else {
        None
    };
    let power = if end < text.len() {
        let start = sign_end(text, end + 1);
        lemma_run_end(text, start, digit);
        let part = text.skip(start);
        assert forall|k: int| 0 <= k < part.len() implies 48 <= #[trigger] part[k] <= 57 by {
            assert(digit(text[start + k]));
        }
        Some((text[end], text.subrange(end + 1, start), part))
    } else {
        None
    };
    let n = WrittenNumber { sign, whole: digits, fraction, power };
    assert(number_bytes(n) =~= text);
    n
}

/// What a value may be: a count is digits up to 4294967295; a text in quotes holds no quote but
/// behind a backslash, and does not end with one; a plain text is UTF-8 without a quote; a list holds
/// no closing bracket; and a truth value is `true` or `false`.
pub proof fn law_values_are_of_their_kind(text: Seq<u8>)
    ensures
        of_kind(text, Kind::Count) <==> text.len() > 0 && (forall|k: int|
            0 <= k < text.len() ==> 48 <= #[trigger] text[k] <= 57) && digits_value(text)
            <= 4294967295,
        of_kind(text, Kind::Plain) <==> valid_utf8(text) && forall|k: int|
            0 <= k < text.len() ==> #[trigger] text[k] != '"' as u8,
        of_kind(text, Kind::List) <==> forall|k: int|
            0 <= k < text.len() ==> #[trigger] text[k] != ']' as u8,
        of_kind(text, Kind::Flag) <==> text == ascii("true"@) || text == ascii("false"@),
        of_kind(text, Kind::Text) <==> (text.len() > 0 ==> text.last() != '\\' as u8) && forall|
            k: int,
        |
            0 <= k < text.len() && #[trigger] text[k] == '"' as u8 ==> 0 < k && text[k - 1]
                == '\\' as u8,
{
    if all_digits(text) {
        assert forall|k: int| 0 <= k < text.len() implies 48 <= #[trigger] text[k] <= 57 by {
            assert(is_digit(text[k]));
        }
    }
    if forall|k: int| 0 <= k < text.len() ==> 48 <= #[trigger] text[k] <= 57 {
        assert(all_digits(text));
    }
    if text.contains(34) {
        let k = choose|k: int| 0 <= k < text.len() && text[k] == 34;
        assert(text[k] == 34);
    }
    if text.contains(93) {
        let k = choose|k: int| 0 <= k < text.len() && text[k] == 93;
        assert(text[k] == 93);
    }
    if of_kind(text, Kind::Text) && text.len() > 0 && text[0] == 34 {
        assert(text[0] == 34);
    }
}

/// A value is read where it is written, between its marks and up to them, whatever stands before it
/// and behind it: a text between quotes, a list between brackets, and a number up to a byte that
/// cannot continue it.
pub proof fn law_values_are_read_where_they_stand(
    before: Seq<u8>,
    text: Seq<u8>,
    behind: Seq<u8>,
    kind: Kind,
)
    requires
        of_kind(text, kind),
    ensures
        kind is Text || kind is Plain ==> span(
            before + seq!['"' as u8] + text + seq!['"' as u8] + behind,
            kind,
            before.len() as int,
        ) == Some(
            (
                before.len() + 1int,
                before.len() + 1int + text.len(),
                before.len() + 2int + text.len(),
            ),
        ),
        kind is List ==> span(
            before + seq!['[' as u8] + text + seq![']' as u8] + behind,
            kind,
            before.len() as int,
        ) == Some(
            (
                before.len() + 1int,
                before.len() + 1int + text.len(),
                before.len() + 2int + text.len(),
            ),
        ),
        kind is Flag || (kind is Decimal || kind is Real || kind is Count) && (behind.len() == 0
            || !(48 <= behind[0] <= 57 || behind[0] == '.' as u8 || behind[0] == '+' as u8
            || behind[0] == '-' as u8 || behind[0] == 'e' as u8 || behind[0] == 'E' as u8))
            ==> span(
            before + text + behind,
            kind,
            before.len() as int,
        ) == Some(
            (before.len() as int, before.len() + text.len() as int, before.len()
                + text.len() as int),
        ),
{
    let pos = before.len() as int;
    if kind is Text || kind is Plain {
        let whole = seq![34u8] + text + seq![34u8];
        let s = before + seq![34u8] + text + seq![34u8] + behind;
        assert(matches_at(s, whole, pos)) by {
            assert forall|k: int| 0 <= k < whole.len() implies s[pos + k] == #[trigger] whole[k] by {}
        }
        lemma_value_reads_back(s, kind, pos, text);
    } else if kind is List {
        let whole = seq![91u8] + text + seq![93u8];
        let s = before + seq![91u8] + text + seq![93u8] + behind;
        assert(matches_at(s, whole, pos)) by {
            assert forall|k: int| 0 <= k < whole.len() implies s[pos + k] == #[trigger] whole[k] by {}
        }
        lemma_value_reads_back(s, kind, pos, text);
    } else if kind is Flag || behind.len() == 0 || !(48 <= behind[0] <= 57 || behind[0] == 46
        || behind[0] == 43 || behind[0] == 45 || behind[0] == 101 || behind[0] == 69) {
        let s = before + text + behind;
        assert(matches_at(s, text, pos)) by {
            assert forall|k: int| 0 <= k < text.len() implies s[pos + k] == #[trigger] text[k] by {}
        }
        if behind.len() > 0 {
            assert(s[pos + text.len()] == behind[0]);
        }
        lemma_value_reads_back(s, kind, pos, text);
    }
}

/// Names in quotes, with something between them.
pub open spec fn list_bytes(names: Seq<Seq<u8>>, between: Seq<Seq<u8>>) -> Seq<u8>
    decreases names.len(),
{
    if names.len() == 0 {
        between[0]
    } else {
        between[0] + seq![34u8] + names[0] + seq![34u8] + list_bytes(
            names.drop_first(),
            between.drop_first(),
        )
    }
}

pub open spec fn without_quotes(texts: Seq<Seq<u8>>) -> bool {
    forall|i: int, k: int|
        0 <= i < texts.len() && 0 <= k < texts[i].len() ==> #[trigger] texts[i][k] != 34
}

proof fn lemma_first_quote(a: Seq<u8>, rest: Seq<u8>, from: int, prefix: Seq<u8>)
    requires
        forall|k: int| 0 <= k < a.len() ==> #[trigger] a[k] != 34,
        from == prefix.len(),
        rest.len() > 0 ==> rest[0] == 34,
    ensures
        rest.len() > 0 ==> index_from(prefix + a + rest, seq![34u8], from) == Some(
            from + a.len() as int,
        ),
        rest.len() == 0 ==> index_from(prefix + a + rest, seq![34u8], from) is None,
{
    let s = prefix + a + rest;
    let mark = seq![34u8];
    assert forall|j: int| from <= j < from + a.len() implies !matches_at(s, mark, j) by {
        if matches_at(s, mark, j) {
            assert(s[j + 0] == mark[0]);
            assert(s[j] == a[j - from]);
        }
    }
    lemma_index_from(s, mark, from);
    if rest.len() > 0 {
        let at = from + a.len();
        assert(s[at as int] == rest[0]);
        assert(matches_at(s, mark, at as int));
        lemma_first_match(s, mark, from, at as int);
    }
}

/// The names in a list are those that are written in quotes, in order and as they are, whatever stands
/// between them; so a merchant is known exactly if its name is one of those written.
pub proof fn law_known_merchants_are_those_in_quotes(
    names: Seq<Seq<u8>>,
    between: Seq<Seq<u8>>,
    merchant: Seq<u8>,
)
    requires
        between.len() == names.len() + 1,
        without_quotes(names),
        without_quotes(between),
    ensures
        quoted(list_bytes(names, between)) == names,
        quoted(list_bytes(names, between)).contains(merchant) <==> exists|i: int|
            0 <= i < names.len() && #[trigger] names[i] == merchant,
    decreases names.len(),
{
    let s = list_bytes(names, between);
    let none = Seq::<u8>::empty();
    assert forall|k: int| 0 <= k < between[0].len() implies #[trigger] between[0][k] != 34 by {}
    if names.len() == 0 {
        assert(none + between[0] + none =~= s);
        lemma_first_quote(between[0], none, 0, none);
        assert(quoted(s) =~= names);
    } else {
        let rest = list_bytes(names.drop_first(), between.drop_first());
        let b = between[0];
        let name = names[0];
        assert forall|k: int| 0 <= k < name.len() implies #[trigger] name[k] != 34 by {
            assert(names[0][k] != 34);
        }
        let tail = seq![34u8] + name + seq![34u8] + rest;
        assert(s =~= none + b + tail);
        lemma_first_quote(b, tail, 0, none);
        let prefix = b + seq![34u8];
        let close = seq![34u8] + rest;
        assert(s =~= prefix + name + close);
        lemma_first_quote(name, close, prefix.len() as int, prefix);
        let open = b.len() as int;
        let end = open + 1 + name.len();
        assert(s.subrange(open + 1, end) =~= name);
        assert(s.skip(end + 1) =~= rest);
        assert forall|i: int, k: int|
            0 <= i < names.drop_first().len() && 0 <= k < names.drop_first()[i].len() implies
            #[trigger] names.drop_first()[i][k] != 34 by {
            assert(names[i + 1][k] != 34);
        }
        assert forall|i: int, k: int|
            0 <= i < between.drop_first().len() && 0 <= k < between.drop_first()[i].len() implies
            #[trigger] between.drop_first()[i][k] != 34 by {
            assert(between[i + 1][k] != 34);
        }
        law_known_merchants_are_those_in_quotes(
            names.drop_first(),
            between.drop_first(),
            merchant,
        );
        assert(seq![name] + names.drop_first() =~= names);
    }
}

} // verus!
