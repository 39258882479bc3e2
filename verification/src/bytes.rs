//! Byte strings: the model the parsers are stated over, and the searches they share.
use vstd::prelude::*;

verus! {

/// The bytes of an ASCII text.
pub open spec fn ascii(text: Seq<char>) -> Seq<u8> {
    Seq::new(text.len(), |i: int| text[i] as u8)
}

/// The bytes of an ASCII string literal.
pub fn literal(text: &'static str) -> (bytes: &'static [u8])
    requires
        text.is_ascii(),
    ensures
        bytes@ == ascii(text@),
{
    text.as_bytes()
}

/// `needle` stands in `s` at position `at`.
pub open spec fn matches_at(s: Seq<u8>, needle: Seq<u8>, at: int) -> bool {
    &&& 0 <= at <= s.len() - needle.len()
    &&& forall|k: int| 0 <= k < needle.len() ==> s[at + k] == #[trigger] needle[k]
}

/// `needle` occurs somewhere in `s`.
pub open spec fn occurs(s: Seq<u8>, needle: Seq<u8>) -> bool {
    exists|at: int| matches_at(s, needle, at)
}

/// The first position at or after `from` where `needle` stands in `s`.
pub open spec fn index_from(s: Seq<u8>, needle: Seq<u8>, from: int) -> Option<int>
    decreases s.len() - from,
{
    if from < 0 || from + needle.len() > s.len() {
        None
    } else if matches_at(s, needle, from) {
        Some(from)
    } else {
        index_from(s, needle, from + 1)
    }
}

/// `at` is the first position at or after `from` where `needle` stands in `s`.
pub open spec fn first_match(s: Seq<u8>, needle: Seq<u8>, from: int, at: int) -> bool {
    &&& from <= at
    &&& matches_at(s, needle, at)
    &&& forall|j: int| from <= j < at ==> !matches_at(s, needle, j)
}

/// `index_from` finds the first occurrence, and nothing only where there is none.
pub proof fn lemma_index_from(s: Seq<u8>, needle: Seq<u8>, from: int)
    requires
        0 <= from,
    ensures
        match index_from(s, needle, from) {
            Some(at) => first_match(s, needle, from, at),
            None => forall|j: int| from <= j ==> !matches_at(s, needle, j),
        },
    decreases s.len() - from,
{
    if from + needle.len() <= s.len() && !matches_at(s, needle, from) {
        lemma_index_from(s, needle, from + 1);
    }
}

/// The first occurrence is the one that `index_from` gives.
pub proof fn lemma_first_match(s: Seq<u8>, needle: Seq<u8>, from: int, at: int)
    requires
        0 <= from,
        first_match(s, needle, from, at),
    ensures
        index_from(s, needle, from) == Some(at),
{
    lemma_index_from(s, needle, from);
}

/// What stands in the bytes stands in a longer string that holds them.
pub proof fn lemma_matches_moves(b: Seq<u8>, t: Seq<u8>, shift: int, needle: Seq<u8>, at: int)
    requires
        matches_at(t, b, shift),
        matches_at(b, needle, at),
    ensures
        matches_at(t, needle, shift + at),
{
    assert forall|k: int| 0 <= k < needle.len() implies t[shift + at + k] == #[trigger] needle[k] by {
        assert(b[at + k] == needle[k]);
        assert(t[shift + (at + k)] == b[at + k]);
    }
}

/// What stands in a longer string, within the bytes that it holds, stands in them.
pub proof fn lemma_matches_moves_back(b: Seq<u8>, t: Seq<u8>, shift: int, needle: Seq<u8>, at: int)
    requires
        matches_at(t, b, shift),
        matches_at(t, needle, shift + at),
        0 <= at <= b.len() - needle.len(),
    ensures
        matches_at(b, needle, at),
{
    assert forall|k: int| 0 <= k < needle.len() implies b[at + k] == #[trigger] needle[k] by {
        assert(t[shift + at + k] == needle[k]);
        assert(t[shift + (at + k)] == b[at + k]);
    }
}

/// `f` may give `value` for these bytes.
pub open spec fn gives<T, F: Fn(&[u8]) -> T>(f: F, bytes: Seq<u8>, value: T) -> bool {
    exists|b: &[u8]| b@ == bytes && call_ensures(f, (b,), value)
}

/// `f` gives one value for the same bytes.
pub open spec fn steady<T, F: Fn(&[u8]) -> T>(f: F) -> bool {
    forall|bytes: Seq<u8>, a: T, b: T|
        #![trigger gives(f, bytes, a), gives(f, bytes, b)]
        gives(f, bytes, a) && gives(f, bytes, b) ==> a == b
}

/// Whether two byte strings are equal.
pub fn same_bytes(a: &[u8], b: &[u8]) -> (same: bool)
    ensures
        same == (a@ == b@),
{
    if a.len() != b.len() {
        return false;
    }
    let mut i: usize = 0;
    while i < a.len()
        invariant
            i <= a.len(),
            a.len() == b.len(),
            forall|k: int| 0 <= k < i ==> a@[k] == b@[k],
        decreases a.len() - i,
    {
        if a[i] != b[i] {
            return false;
        }
        i = i + 1;
    }
    assert(a@ =~= b@);
    true
}

/// Whether `needle` stands in `s` at position `at`.
pub fn stands_at(s: &[u8], needle: &[u8], at: usize) -> (found: bool)
    ensures
        found == matches_at(s@, needle@, at as int),
        found ==> at + needle@.len() <= s.len(),
{
    if needle.len() > s.len() || at > s.len() - needle.len() {
        return false;
    }
    let mut k: usize = 0;
    while k < needle.len()
        invariant
            k <= needle.len() <= s.len(),
            at <= s.len() - needle.len(),
            forall|j: int| 0 <= j < k ==> s@[at + j] == #[trigger] needle@[j],
        decreases needle.len() - k,
    {
        if s[at + k] != needle[k] {
            assert(needle@[k as int] != s@[at + k]);
            return false;
        }
        k = k + 1;
    }
    true
}

/// The first position at or after `from` where `needle` stands in `s`.
pub fn find_from(s: &[u8], needle: &[u8], from: usize) -> (found: Option<usize>)
    ensures
        match found {
            Some(at) => index_from(s@, needle@, from as int) == Some(at as int),
            None => index_from(s@, needle@, from as int) is None,
        },
        found matches Some(at) ==> from <= at && at + needle@.len() <= s.len(),
{
    if needle.len() > s.len() {
        return None;
    }
    let mut at: usize = from;
    let last: usize = s.len() - needle.len();
    while at <= last
        invariant
            from <= at,
            last == s.len() - needle.len(),
            needle.len() <= s.len(),
            index_from(s@, needle@, from as int) == index_from(s@, needle@, at as int),
        decreases s.len() - at,
    {
        if stands_at(s, needle, at) {
            return Some(at);
        }
        if at == last {
            assert(index_from(s@, needle@, at + 1) is None);
            return None;
        }
        at = at + 1;
    }
    None
}

/// Where `needle` first occurs in `haystack`; an empty needle occurs nowhere.
pub fn find_subslice(haystack: &[u8], needle: &[u8]) -> (found: Option<usize>)
    ensures
        match found {
            Some(at) => needle@.len() > 0 && index_from(haystack@, needle@, 0) == Some(at as int),
            None => needle@.len() == 0 || index_from(haystack@, needle@, 0) is None,
        },
        found matches Some(at) ==> at + needle@.len() <= haystack.len(),
{
    if needle.is_empty() || needle.len() > haystack.len() {
        return None;
    }
    find_from(haystack, needle, 0)
}

/// The end of the first occurrence of `needle` at or after `start`.
pub fn find_after(haystack: &[u8], needle: &[u8], start: usize) -> (found: Option<usize>)
    requires
        needle@.len() > 0,
    ensures
        match found {
            Some(end) => index_from(haystack@, needle@, start as int) == Some(end - needle@.len())
                && end <= haystack.len(),
            None => index_from(haystack@, needle@, start as int) is None,
        },
{
    match find_from(haystack, needle, start) {
        None => None,
        Some(at) => Some(at + needle.len()),
    }
}

/// The end of `needle`, where it stands at `start`.
pub fn expect_after(haystack: &[u8], needle: &[u8], start: usize) -> (end: Option<usize>)
    ensures
        match end {
            Some(end) => matches_at(haystack@, needle@, start as int) && end == start
                + needle@.len() && end <= haystack.len(),
            None => !matches_at(haystack@, needle@, start as int),
        },
{
    if stands_at(haystack, needle, start) {
        Some(start + needle.len())
    } else {
        None
    }
}

/// Where `byte` first stands at or after `start`.
pub fn find_byte(haystack: &[u8], byte: u8, start: usize) -> (found: Option<usize>)
    ensures
        match found {
            Some(at) => index_from(haystack@, seq![byte], start as int) == Some(at as int) && start
                <= at < haystack.len() && haystack@[at as int] == byte,
            None => index_from(haystack@, seq![byte], start as int) is None,
        },
{
    let needle: &[u8] = &[byte];
    assert(needle@ =~= seq![byte]);
    let found = find_from(haystack, needle, start);
    proof {
        lemma_index_from(haystack@, seq![byte], start as int);
        if let Some(at) = found {
            assert(seq![byte][0] == byte);
        }
    }
    found
}

/// Puts `bytes` behind what `out` holds.
pub fn append(out: &mut Vec<u8>, bytes: &[u8])
    ensures
        final(out)@ == old(out)@ + bytes@,
{
    let mut i: usize = 0;
    assert(out@ =~= old(out)@ + bytes@.take(0));
    while i < bytes.len()
        invariant
            i <= bytes@.len(),
            out@ == old(out)@ + bytes@.take(i as int),
        decreases bytes@.len() - i,
    {
        out.push(bytes[i]);
        i = i + 1;
        assert(out@ =~= old(out)@ + bytes@.take(i as int));
    }
    assert(bytes@.take(i as int) =~= bytes@);
}

} // verus!
