//! Letters, blanks and numerals.
use vstd::prelude::*;

use crate::bytes::{index_from, lemma_first_match, lemma_index_from, matches_at, occurs};
use crate::decimal::{all_digits, digits_value, is_digit, lemma_numeral_value, number_text, numeral};
use crate::text::{lower, trimmed, trim_end, trim_start, space_at_end, space_at_start};

verus! {

/// In lower case a text keeps its length and every byte but the letters from `A` to `Z`, each of
/// which becomes the same letter from `a` to `z`.
pub proof fn law_lower_case_changes_capitals_only(s: Seq<u8>, k: int)
    requires
        0 <= k < s.len(),
    ensures
        lower(s).len() == s.len(),
        'A' as u8 <= s[k] <= 'Z' as u8 ==> lower(s)[k] - 'a' as u8 == s[k] - 'A' as u8,
        !('A' as u8 <= s[k] <= 'Z' as u8) ==> lower(s)[k] == s[k],
{
}

/// In lower case nothing is left to change.
pub proof fn law_lower_case_is_settled(s: Seq<u8>)
    ensures
        lower(lower(s)) == lower(s),
{
    assert(lower(lower(s)) =~= lower(s));
}

/// What is found is there, and nowhere before; what is not found is nowhere.
pub proof fn law_the_first_occurrence_is_found(s: Seq<u8>, needle: Seq<u8>, at: int)
    ensures
        index_from(s, needle, 0) == Some(at) <==> {
            &&& 0 <= at
            &&& at + needle.len() <= s.len()
            &&& s.subrange(at, at + needle.len()) == needle
            &&& forall|j: int|
                0 <= j < at ==> #[trigger] s.subrange(j, j + needle.len()) != needle
        },
        index_from(s, needle, 0) is Some <==> occurs(s, needle),
{
    lemma_index_from(s, needle, 0);
    assert forall|j: int| 0 <= j && j + needle.len() <= s.len() implies (#[trigger] s.subrange(
        j,
        j + needle.len(),
    ) == needle <==> matches_at(s, needle, j)) by {
        let part = s.subrange(j, j + needle.len());
        if part == needle {
            assert forall|k: int| 0 <= k < needle.len() implies s[j + k] == #[trigger] needle[k] by {
                assert(part[k] == s[j + k]);
            }
        } else if matches_at(s, needle, j) {
            assert forall|k: int| 0 <= k < needle.len() implies part[k] == needle[k] by {
                assert(s[j + k] == needle[k]);
            }
            assert(part =~= needle);
        }
    }
    if 0 <= at && at + needle.len() <= s.len() && s.subrange(at, at + needle.len()) == needle && (
    forall|j: int| 0 <= j < at ==> #[trigger] s.subrange(j, j + needle.len()) != needle) {
        assert forall|j: int| 0 <= j < at implies !matches_at(s, needle, j) by {
            assert(s.subrange(j, j + needle.len()) != needle);
        }
        lemma_first_match(s, needle, 0, at);
    }
    if index_from(s, needle, 0) == Some(at) {
        assert forall|j: int| 0 <= j < at implies #[trigger] s.subrange(j, j + needle.len())
            != needle by {
            assert(!matches_at(s, needle, j));
        }
    }
    if let Some(found) = index_from(s, needle, 0) {
        assert(matches_at(s, needle, found));
    }
}

/// One more digit makes a number ten times as large and adds the digit; no digits are zero.
pub proof fn law_digits_count_by_tens(s: Seq<u8>, digit: u8)
    requires
        48 <= digit <= 57,
    ensures
        digits_value(Seq::<u8>::empty()) == 0,
        digits_value(s.push(digit)) == 10 * digits_value(s) + (digit - '0' as u8),
{
    assert(s.push(digit).drop_last() =~= s);
}

/// A numeral is digits that stand for its number, without a zero in front of others.
pub proof fn law_numerals_are_the_shortest(n: nat, k: int)
    requires
        0 <= k < numeral(n).len(),
    ensures
        '0' as u8 <= numeral(n)[k] <= '9' as u8,
        digits_value(numeral(n)) == n,
        n > 0 ==> numeral(n)[0] != '0' as u8,
        n == 0 ==> numeral(n).len() == 1,
    decreases n,
{
    lemma_numeral_value(n);
    assert(is_digit(numeral(n)[k]));
    if n >= 10 {
        lemma_numeral_value(n / 10);
        law_numerals_are_the_shortest(n / 10, 0);
        assert(numeral(n)[0] == numeral(n / 10)[0]);
    }
}

/// A number is read from digits, with one plus sign before them or without, whose value is within the
/// range, and from nothing else.
pub proof fn law_numbers_are_digits(s: Seq<u8>, max: nat)
    ensures
        s.len() > 0 && (forall|k: int| 0 <= k < s.len() ==> 48 <= #[trigger] s[k] <= 57)
            && digits_value(s) <= max ==> number_text(s, max) == Some(digits_value(s)),
        s.len() > 1 && s[0] == '+' as u8 && (forall|k: int|
            1 <= k < s.len() ==> 48 <= #[trigger] s[k] <= 57) && digits_value(s.skip(1)) <= max
            ==> number_text(s, max) == Some(digits_value(s.skip(1))),
        number_text(s, max) matches Some(n) ==> {
            &&& n <= max
            &&& s.len() > 0
            &&& s[0] == '+' as u8 || 48 <= s[0] <= 57
            &&& forall|k: int| 1 <= k < s.len() ==> 48 <= #[trigger] s[k] <= 57
            &&& s[0] == '+' as u8 ==> s.len() > 1
        },
{
    let plain = forall|k: int| 0 <= k < s.len() ==> 48 <= #[trigger] s[k] <= 57;
    let signed = forall|k: int| 1 <= k < s.len() ==> 48 <= #[trigger] s[k] <= 57;
    if s.len() > 0 {
        if s[0] == 43 {
            let rest = s.skip(1);
            if signed {
                assert forall|k: int| 0 <= k < rest.len() implies is_digit(#[trigger] rest[k]) by {
                    assert(48 <= s[k + 1] <= 57);
                }
            }
            if all_digits(rest) {
                assert forall|k: int| 1 <= k < s.len() implies 48 <= #[trigger] s[k] <= 57 by {
                    assert(is_digit(rest[k - 1]));
                }
            }
        } else {
            if plain {
                assert(all_digits(s));
            }
            if all_digits(s) {
                assert(is_digit(s[0]));
                assert forall|k: int| 1 <= k < s.len() implies 48 <= #[trigger] s[k] <= 57 by {
                    assert(is_digit(s[k]));
                }
            }
        }
    }
}

/// What is trimmed is a part of the text, and what was around it was white space: trimming a text
/// that neither starts nor ends with white space changes nothing, and one space or tab more at
/// either end changes nothing either.
pub proof fn law_trimming_takes_white_space_only(s: Seq<u8>, blank: u8)
    requires
        blank == ' ' as u8 || '\t' as u8 <= blank <= '\r' as u8,
    ensures
        s.len() > 0 && 32 < s[0] < 127 && 32 < s.last() < 127 ==> trimmed(s) == s,
        trimmed(seq![blank] + s) == trimmed(s),
        s.len() > 0 && 32 < s[0] < 127 ==> trimmed(s.push(blank)) == trimmed(s),
        trimmed(Seq::<u8>::empty()) == Seq::<u8>::empty(),
{
    assert((seq![blank] + s)[0] == blank);
    assert((seq![blank] + s).skip(1) =~= s);
    if s.len() > 0 && 32 < s[0] < 127 {
        assert(space_at_start(s) == 0);
        assert(s.push(blank)[0] == s[0]);
        assert(space_at_start(s.push(blank)) == 0);
        assert(s.push(blank).take(s.len() as int) =~= s);
        assert(space_at_end(s.push(blank)) == 1);
        assert(trim_end(s.push(blank)) == trim_end(s));
    }
    assert(trim_start(Seq::<u8>::empty()) =~= Seq::<u8>::empty());
    assert(trim_end(Seq::<u8>::empty()) =~= Seq::<u8>::empty());
}

/// The white space characters are those of Unicode: the tab and the four behind it, the space, U+0085,
/// U+00A0, U+1680, U+2000 to U+200A, U+2028, U+2029, U+202F, U+205F and U+3000. Each is trimmed at
/// either end of a text.
pub proof fn law_white_space_is_trimmed(s: Seq<u8>, space: Seq<u8>)
    requires
        s.len() > 0 ==> 32 < s[0] < 127 && 32 < s.last() < 127,
        ({
            ||| space.len() == 1 && (space[0] == 32 || 9 <= space[0] <= 13)
            ||| space == seq![0xc2u8, 0x85u8] || space == seq![0xc2u8, 0xa0u8]
            ||| space == seq![0xe1u8, 0x9au8, 0x80u8]
            ||| space.len() == 3 && space[0] == 0xe2 && space[1] == 0x80 && (0x80 <= space[2]
                <= 0x8a || space[2] == 0xa8 || space[2] == 0xa9 || space[2] == 0xaf)
            ||| space == seq![0xe2u8, 0x81u8, 0x9fu8] || space == seq![0xe3u8, 0x80u8, 0x80u8]
        }),
    ensures
        trimmed(space + s) == s,
        trimmed(s + space) == s,
{
    let n = space.len() as int;
    let a = space + s;
    assert(a[0] == space[0]);
    assert(n > 1 ==> a[1] == space[1]);
    assert(n > 2 ==> a[2] == space[2]);
    assert(space_at_start(a) == n);
    assert(a.skip(n) =~= s);
    assert(space_at_start(s) == 0 && space_at_end(s) == 0);
    assert(trim_start(s) == s);
    assert(trim_start(a) == trim_start(a.skip(n)));
    assert(trim_end(s) == s);
    let b = s + space;
    let m = b.len() as int;
    assert(b[m - 1] == space[n - 1]);
    assert(n > 1 ==> b[m - 2] == space[n - 2]);
    assert(n > 2 ==> b[m - 3] == space[n - 3]);
    assert(space_at_end(b) == n);
    assert(b.take(m - n) =~= s);
    assert(trim_end(b) == s);
    if s.len() > 0 {
        assert(b[0] == s[0]);
        assert(space_at_start(b) == 0);
    } else {
        assert(b =~= space + s);
        assert(space_at_start(b) == n);
        assert(b.skip(n) =~= s);
        assert(trim_start(b) == s);
    }
}

} // verus!
