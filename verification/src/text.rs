//! Text inside byte strings: UTF-8, letter case and white space.
use vstd::prelude::*;
use vstd::utf8::*;

use crate::bytes::{find_from, lemma_index_from, occurs, matches_at};

verus! {

/// The width of the scalar that `s` starts with, if it starts with one.
fn scalar_width(s: &[u8]) -> (width: Option<usize>)
    ensures
        width is Some <==> valid_first_scalar(s@),
        width matches Some(w) ==> w == length_of_first_scalar(s@) && 0 < w <= s@.len(),
{
    if s.len() == 0 {
        return None;
    }
    let first: u8 = s[0];
    if first <= 0x7f {
        proof {
            assert((first & 0x7f) as u32 <= 0x7f) by (bit_vector);
        }
        return Some(1);
    }
    if 0xc0 <= first && first <= 0xdf {
        if s.len() >= 2 && 0x80 <= s[1] && s[1] <= 0xbf {
            let point: u32 = ((first & 0x1f) as u32) << 6 | (s[1] & 0x3f) as u32;
            proof {
                let second = s@[1];
                assert(((first & 0x1f) as u32) << 6 | ((second & 0x3f) as u32) <= 0x7ff)
                    by (bit_vector);
            }
            if 0x80 <= point {
                return Some(2);
            }
        }
        return None;
    }
    if 0xe0 <= first && first <= 0xef {
        if s.len() >= 3 && 0x80 <= s[1] && s[1] <= 0xbf && 0x80 <= s[2] && s[2] <= 0xbf {
            let point: u32 = ((first & 0x0f) as u32) << 12 | ((s[1] & 0x3f) as u32) << 6 | (s[2]
                & 0x3f) as u32;
            if 0x800 <= point && !(0xd800 <= point && point <= 0xdfff) {
                return Some(3);
            }
        }
        return None;
    }
    if 0xf0 <= first && first <= 0xf7 {
        if s.len() >= 4 && 0x80 <= s[1] && s[1] <= 0xbf && 0x80 <= s[2] && s[2] <= 0xbf && 0x80
            <= s[3] && s[3] <= 0xbf {
            let point: u32 = ((first & 0x07) as u32) << 18 | ((s[1] & 0x3f) as u32) << 12 | ((s[2]
                & 0x3f) as u32) << 6 | (s[3] & 0x3f) as u32;
            if 0x10000 <= point && point <= 0x10ffff {
                return Some(4);
            }
        }
        return None;
    }
    None
}

/// Whether `s` is a UTF-8 text.
pub fn is_utf8(s: &[u8]) -> (valid: bool)
    ensures
        valid == valid_utf8(s@),
{
    let mut rest: &[u8] = s;
    while rest.len() > 0
        invariant
            valid_utf8(rest@) == valid_utf8(s@),
        decreases rest.len(),
    {
        match scalar_width(rest) {
            None => {
                return false;
            },
            Some(width) => {
                rest = &rest[width..rest.len()];
            },
        }
    }
    true
}

/// An ASCII letter in lower case; any other byte as it is.
pub open spec fn lower_byte(byte: u8) -> u8 {
    if 65 <= byte <= 90 {
        (byte + 32) as u8
    } else {
        byte
    }
}

/// `s` with its ASCII letters in lower case.
pub open spec fn lower(s: Seq<u8>) -> Seq<u8> {
    s.map_values(|byte: u8| lower_byte(byte))
}

fn to_lower_byte(byte: u8) -> (r: u8)
    ensures
        r == lower_byte(byte),
{
    if 65 <= byte && byte <= 90 {
        byte + 32
    } else {
        byte
    }
}

/// `s` with its ASCII letters in lower case.
pub fn to_lower(s: &[u8]) -> (r: Vec<u8>)
    ensures
        r@ == lower(s@),
{
    let mut r: Vec<u8> = Vec::new();
    let mut i: usize = 0;
    while i < s.len()
        invariant
            i <= s.len(),
            r@.len() == i,
            forall|k: int| 0 <= k < i ==> r@[k] == lower_byte(s@[k]),
        decreases s.len() - i,
    {
        r.push(to_lower_byte(s[i]));
        i = i + 1;
    }
    assert(r@ =~= lower(s@));
    r
}

/// Whether `s` is `name`, a text in lower case, in any letter case.
pub fn is_named(s: &[u8], name: &[u8]) -> (same: bool)
    ensures
        same == (lower(s@) == name@),
{
    if s.len() != name.len() {
        return false;
    }
    let mut i: usize = 0;
    while i < s.len()
        invariant
            i <= s.len(),
            s.len() == name.len(),
            forall|k: int| 0 <= k < i ==> lower_byte(s@[k]) == name@[k],
        decreases s.len() - i,
    {
        if to_lower_byte(s[i]) != name[i] {
            assert(lower(s@)[i as int] != name@[i as int]);
            return false;
        }
        i = i + 1;
    }
    assert(lower(s@) =~= name@);
    true
}

/// Whether `needle`, a text in lower case, occurs in `s` in any letter case.
pub fn mentions(s: &[u8], needle: &[u8]) -> (found: bool)
    ensures
        found == occurs(lower(s@), needle@),
{
    let lowered = to_lower(s);
    let found = find_from(lowered.as_slice(), needle, 0);
    proof {
        lemma_index_from(lower(s@), needle@, 0);
        if found is None {
            assert(forall|at: int| !matches_at(lower(s@), needle@, at));
        }
    }
    found.is_some()
}

/// ASCII white space: space, tab, line feed, form feed, carriage return.
pub open spec fn is_ascii_space(byte: u8) -> bool {
    byte == 32 || byte == 9 || byte == 10 || byte == 12 || byte == 13
}

/// The width of the white space character that `s` starts with; zero if it starts with none.
pub open spec fn space_at_start(s: Seq<u8>) -> int {
    if s.len() >= 1 && (s[0] == 32 || 9 <= s[0] <= 13) {
        1
    } else if s.len() >= 2 && s[0] == 0xc2 && (s[1] == 0x85 || s[1] == 0xa0) {
        2
    } else if s.len() >= 3 && is_wide_space(s[0], s[1], s[2]) {
        3
    } else {
        0
    }
}

/// The width of the white space character that `s` ends with; zero if it ends with none.
pub open spec fn space_at_end(s: Seq<u8>) -> int {
    let n = s.len() as int;
    if n >= 1 && (s[n - 1] == 32 || 9 <= s[n - 1] <= 13) {
        1
    } else if n >= 2 && s[n - 2] == 0xc2 && (s[n - 1] == 0x85 || s[n - 1] == 0xa0) {
        2
    } else if n >= 3 && is_wide_space(s[n - 3], s[n - 2], s[n - 1]) {
        3
    } else {
        0
    }
}

/// The white space characters whose UTF-8 form has three bytes: U+1680, U+2000 to U+200A,
/// U+2028, U+2029, U+202F, U+205F and U+3000.
pub open spec fn is_wide_space(a: u8, b: u8, c: u8) -> bool {
    ||| a == 0xe1 && b == 0x9a && c == 0x80
    ||| a == 0xe2 && b == 0x80 && (0x80 <= c <= 0x8a || c == 0xa8 || c == 0xa9 || c == 0xaf)
    ||| a == 0xe2 && b == 0x81 && c == 0x9f
    ||| a == 0xe3 && b == 0x80 && c == 0x80
}

fn wide_space(a: u8, b: u8, c: u8) -> (r: bool)
    ensures
        r == is_wide_space(a, b, c),
{
    (a == 0xe1 && b == 0x9a && c == 0x80) || (a == 0xe2 && b == 0x80 && ((0x80 <= c && c <= 0x8a)
        || c == 0xa8 || c == 0xa9 || c == 0xaf)) || (a == 0xe2 && b == 0x81 && c == 0x9f) || (a
        == 0xe3 && b == 0x80 && c == 0x80)
}

/// `s` without the white space at its start.
pub open spec fn trim_start(s: Seq<u8>) -> Seq<u8>
    decreases s.len(),
{
    if space_at_start(s) > 0 {
        trim_start(s.skip(space_at_start(s)))
    } else {
        s
    }
}

/// `s` without the white space at its end.
pub open spec fn trim_end(s: Seq<u8>) -> Seq<u8>
    decreases s.len(),
{
    if space_at_end(s) > 0 {
        trim_end(s.take(s.len() - space_at_end(s)))
    } else {
        s
    }
}

/// `s` without the white space at its two ends.
pub open spec fn trimmed(s: Seq<u8>) -> Seq<u8> {
    trim_end(trim_start(s))
}

/// A UTF-8 text without the white space at its two ends.
pub fn trim(s: &[u8]) -> (r: &[u8])
    ensures
        r@ == trimmed(s@),
{
    let mut rest: &[u8] = s;
    loop
        invariant
            trim_start(rest@) == trim_start(s@),
        ensures
            rest@ == trim_start(s@),
        decreases rest.len(),
    {
        let n: usize = rest.len();
        let width: usize = if n >= 1 && (rest[0] == 32 || (9 <= rest[0] && rest[0] <= 13)) {
            1
        } else if n >= 2 && rest[0] == 0xc2 && (rest[1] == 0x85 || rest[1] == 0xa0) {
            2
        } else if n >= 3 && wide_space(rest[0], rest[1], rest[2]) {
            3
        } else {
            0
        };
        assert(width == space_at_start(rest@));
        if width == 0 {
            break;
        }
        assert(rest@.subrange(width as int, n as int) =~= rest@.skip(width as int));
        rest = &rest[width..n];
    }
    loop
        invariant
            trim_end(rest@) == trimmed(s@),
        ensures
            rest@ == trimmed(s@),
        decreases rest.len(),
    {
        let n: usize = rest.len();
        let width: usize = if n >= 1 && (rest[n - 1] == 32 || (9 <= rest[n - 1] && rest[n - 1]
            <= 13)) {
            1
        } else if n >= 2 && rest[n - 2] == 0xc2 && (rest[n - 1] == 0x85 || rest[n - 1] == 0xa0) {
            2
        } else if n >= 3 && wide_space(rest[n - 3], rest[n - 2], rest[n - 1]) {
            3
        } else {
            0
        };
        assert(width == space_at_end(rest@));
        if width == 0 {
            break;
        }
        assert(rest@.subrange(0, n - width) =~= rest@.take(n - width));
        rest = &rest[0..n - width];
    }
    rest
}

} // verus!
