//! Values behind their labels, one after the other.
use vstd::prelude::*;

use crate::bytes::{
    ascii, expect_after, find_after, index_from, lemma_index_from, lemma_matches_moves, literal,
    matches_at,
};
use crate::payload::value::{
    is_real_byte, lemma_span_is_written, lemma_span_kind, lemma_span_moves, lemma_value_reads_back,
    number_ends, of_kind, parse_array_at, parse_bool_at, parse_f64_at, parse_number_at,
    parse_str_at, parse_string_at, parse_u32_at, span, written, Kind,
};

verus! {

/// A value that stands in a body behind its label.
#[derive(Debug, Clone, Copy)]
pub struct Slot {
    pub label: &'static str,
    pub kind: Kind,
}

/// The values of the slots that stand one behind the other from `pos` on, and what follows them.
pub open spec fn slot_values(s: Seq<u8>, slots: Seq<Slot>, pos: int) -> Option<
    (Seq<Seq<u8>>, int),
>
    decreases slots.len(),
{
    if slots.len() == 0 {
        Some((seq![], pos))
    } else if !matches_at(s, ascii(slots[0].label@), pos) {
        None
    } else {
        match span(s, slots[0].kind, pos + slots[0].label@.len()) {
            None => None,
            Some((start, end, next)) => match slot_values(s, slots.drop_first(), next) {
                None => None,
                Some((rest, stop)) => Some((seq![s.subrange(start, end)] + rest, stop)),
            },
        }
    }
}

/// The values behind the first place where the label of the first slot stands.
pub open spec fn first_slot_values(s: Seq<u8>, slots: Seq<Slot>) -> Option<(Seq<Seq<u8>>, int)> {
    match index_from(s, ascii(slots[0].label@), 0) {
        None => None,
        Some(at) => slot_values(s, slots, at),
    }
}

/// The views of byte strings.
pub open spec fn views(values: Seq<&[u8]>) -> Seq<Seq<u8>> {
    values.map_values(|value: &[u8]| value@)
}

/// The value of a kind that stands at `pos`, and what follows it.
fn read_value(body: &[u8], kind: Kind, pos: usize) -> (r: Option<(&[u8], usize)>)
    requires
        pos <= body.len(),
    ensures
        match r {
            Some((value, next)) => {
                &&& span(body@, kind, pos as int) matches Some((start, end, after))
                &&& value@ == body@.subrange(start, end)
                &&& next == after
                &&& pos <= next <= body.len()
            },
            None => span(body@, kind, pos as int) is None,
        },
{
    match kind {
        Kind::Decimal => match parse_number_at(body, pos) {
            None => None,
            Some(end) => Some((&body[pos..end], end)),
        },
        Kind::Real => match parse_f64_at(body, pos) {
            None => None,
            Some(end) => Some((&body[pos..end], end)),
        },
        Kind::Count => match parse_u32_at(body, pos) {
            None => None,
            Some((_, end)) => Some((&body[pos..end], end)),
        },
        Kind::Text => parse_string_at(body, pos),
        Kind::Plain => parse_str_at(body, pos),
        Kind::List => parse_array_at(body, pos),
        Kind::Flag => match parse_bool_at(body, pos) {
            None => None,
            Some((_, end)) => Some((&body[pos..end], end)),
        },
    }
}

/// Reads the values of the slots that stand one behind the other from `pos` on.
pub fn read_slots<'a>(body: &'a [u8], slots: &[Slot], pos: usize) -> (r: Option<
    (Vec<&'a [u8]>, usize),
>)
    requires
        pos <= body.len(),
        forall|i: int| 0 <= i < slots@.len() ==> (#[trigger] slots@[i]).label.is_ascii(),
    ensures
        match r {
            Some((values, next)) => {
                &&& slot_values(body@, slots@, pos as int) == Some((views(values@), next as int))
                &&& values@.len() == slots@.len()
                &&& pos <= next <= body.len()
            },
            None => slot_values(body@, slots@, pos as int) is None,
        },
{
    let mut values: Vec<&'a [u8]> = Vec::new();
    let mut at: usize = pos;
    let mut i: usize = 0;
    let ghost whole = slot_values(body@, slots@, pos as int);
    assert(slots@.skip(0) =~= slots@);
    assert(views(values@) =~= seq![]);
    proof {
        if let Some((rest, stop)) = whole {
            assert(views(values@) + rest =~= rest);
        }
    }
    while i < slots.len()
        invariant
            i <= slots@.len(),
            pos <= at <= body.len(),
            values@.len() == i,
            forall|k: int| 0 <= k < slots@.len() ==> (#[trigger] slots@[k]).label.is_ascii(),
            whole == slot_values(body@, slots@, pos as int),
            whole == (match slot_values(body@, slots@.skip(i as int), at as int) {
                None => None,
                Some((rest, stop)) => Some((views(values@) + rest, stop)),
            }),
        decreases slots@.len() - i,
    {
        let slot: Slot = slots[i];
        let ghost left = slots@.skip(i as int);
        let ghost so_far = views(values@);
        assert(left[0] == slot);
        assert(left.drop_first() =~= slots@.skip(i + 1));
        assert(slots@[i as int].label.is_ascii());
        match expect_after(body, literal(slot.label), at) {
            None => {
                return None;
            },
            Some(start) => match read_value(body, slot.kind, start) {
                None => {
                    return None;
                },
                Some((value, next)) => {
                    values.push(value);
                    at = next;
                    proof {
                        assert(views(values@) =~= so_far + seq![value@]);
                        if let Some((rest, stop)) = slot_values(
                            body@,
                            left.drop_first(),
                            next as int,
                        ) {
                            assert(so_far + (seq![value@] + rest) =~= views(values@) + rest);
                        }
                    }
                },
            },
        }
        i = i + 1;
    }
    assert(slots@.skip(i as int) =~= seq![]);
    assert(views(values@) + seq![] =~= views(values@));
    Some((values, at))
}

/// Reads the values behind the first place where the label of the first slot stands.
pub fn read_first_slots<'a>(body: &'a [u8], slots: &[Slot]) -> (r: Option<
    (Vec<&'a [u8]>, usize),
>)
    requires
        slots@.len() > 0,
        slots@[0].label@.len() > 0,
        forall|i: int| 0 <= i < slots@.len() ==> (#[trigger] slots@[i]).label.is_ascii(),
    ensures
        match r {
            Some((values, next)) => {
                &&& first_slot_values(body@, slots@) == Some((views(values@), next as int))
                &&& values@.len() == slots@.len()
                &&& next <= body.len()
            },
            None => first_slot_values(body@, slots@) is None,
        },
{
    let slot: Slot = slots[0];
    assert(slots@[0].label.is_ascii());
    let label: &[u8] = literal(slot.label);
    match find_after(body, label, 0) {
        None => None,
        Some(end) => {
            proof {
                lemma_index_from(body@, label@, 0);
            }
            read_slots(body, slots, end - label.len())
        },
    }
}

/// Every value that is read is of the kind of its slot.
pub proof fn law_values_are_of_their_kinds(s: Seq<u8>, slots: Seq<Slot>, pos: int)
    requires
        0 <= pos <= s.len(),
        slot_values(s, slots, pos) is Some,
    ensures
        ({
            let (values, next) = slot_values(s, slots, pos)->0;
            &&& values.len() == slots.len()
            &&& pos <= next <= s.len()
            &&& forall|i: int|
                0 <= i < slots.len() ==> of_kind(#[trigger] values[i], slots[i].kind)
        }),
    decreases slots.len(),
{
    if slots.len() > 0 {
        let from = pos + slots[0].label@.len();
        lemma_span_kind(s, slots[0].kind, from);
        let (_, _, next) = span(s, slots[0].kind, from)->0;
        law_values_are_of_their_kinds(s, slots.drop_first(), next);
        let (values, _) = slot_values(s, slots, pos)->0;
        let (rest, _) = slot_values(s, slots.drop_first(), next)->0;
        assert forall|i: int| 0 <= i < slots.len() implies of_kind(
            #[trigger] values[i],
            slots[i].kind,
        ) by {
            if i > 0 {
                assert(values[i] == rest[i - 1]);
                assert(slots[i] == slots.drop_first()[i - 1]);
            }
        }
    }
}

/// The slots with their values, one behind the other.
pub open spec fn written_slots(slots: Seq<Slot>, values: Seq<Seq<u8>>) -> Seq<u8>
    decreases slots.len(),
{
    if slots.len() == 0 {
        seq![]
    } else {
        ascii(slots[0].label@) + written(values[0], slots[0].kind) + written_slots(
            slots.drop_first(),
            values.drop_first(),
        )
    }
}

/// No label starts with a byte that could continue a number.
pub open spec fn labels_part(slots: Seq<Slot>) -> bool {
    forall|i: int|
        0 < i < slots.len() ==> (#[trigger] slots[i]).label@.len() > 0 && !is_real_byte(
            slots[i].label@[0] as u8,
        )
}

/// Two parts that stand together stand one behind the other.
pub proof fn lemma_matches_split(s: Seq<u8>, a: Seq<u8>, b: Seq<u8>, pos: int)
    requires
        matches_at(s, a + b, pos),
    ensures
        matches_at(s, a, pos),
        matches_at(s, b, pos + a.len()),
{
    assert forall|k: int| 0 <= k < a.len() implies s[pos + k] == #[trigger] a[k] by {
        assert((a + b)[k] == a[k]);
    }
    assert forall|k: int| 0 <= k < b.len() implies s[pos + a.len() + k] == #[trigger] b[k] by {
        assert((a + b)[a.len() + k] == b[k]);
        assert(s[pos + (a.len() + k)] == (a + b)[a.len() + k]);
    }
}

/// Values that are written into their slots are read back from them.
pub proof fn law_slots_are_read_back(
    s: Seq<u8>,
    slots: Seq<Slot>,
    values: Seq<Seq<u8>>,
    pos: int,
)
    requires
        values.len() == slots.len(),
        forall|i: int| 0 <= i < slots.len() ==> of_kind(#[trigger] values[i], slots[i].kind),
        labels_part(slots),
        0 <= pos,
        matches_at(s, written_slots(slots, values), pos),
        number_ends(s, pos + written_slots(slots, values).len()),
    ensures
        slot_values(s, slots, pos) == Some((values, pos + written_slots(slots, values).len())),
    decreases slots.len(),
{
    if slots.len() == 0 {
        assert(values =~= seq![]);
    } else {
        let label = ascii(slots[0].label@);
        let value = written(values[0], slots[0].kind);
        let rest = written_slots(slots.drop_first(), values.drop_first());
        let from = pos + label.len();
        let next = from + value.len();
        assert(label + value + rest =~= label + (value + rest));
        lemma_matches_split(s, label, value + rest, pos);
        lemma_matches_split(s, value, rest, from);
        assert(of_kind(values[0], slots[0].kind));
        assert(number_ends(s, next)) by {
            if slots.len() > 1 {
                let second = slots.drop_first()[0];
                assert(second == slots[1]);
                assert(rest[0] == ascii(second.label@)[0]);
                assert(s[next + 0] == rest[0]);
            }
        }
        lemma_value_reads_back(s, slots[0].kind, from, values[0]);
        assert forall|i: int| 0 <= i < slots.drop_first().len() implies of_kind(
            #[trigger] values.drop_first()[i],
            slots.drop_first()[i].kind,
        ) by {
            assert(of_kind(values[i + 1], slots[i + 1].kind));
        }
        assert(labels_part(slots.drop_first())) by {
            assert forall|i: int| 0 < i < slots.drop_first().len() implies (
            #[trigger] slots.drop_first()[i]).label@.len() > 0 && !is_real_byte(
                slots.drop_first()[i].label@[0] as u8,
            ) by {
                assert(slots.drop_first()[i] == slots[i + 1]);
            }
        }
        law_slots_are_read_back(s, slots.drop_first(), values.drop_first(), next);
        assert(seq![values[0]] + values.drop_first() =~= values);
    }
}

/// Two parts that stand one behind the other stand together.
pub proof fn lemma_matches_join(s: Seq<u8>, a: Seq<u8>, b: Seq<u8>, pos: int)
    requires
        matches_at(s, a, pos),
        matches_at(s, b, pos + a.len()),
    ensures
        matches_at(s, a + b, pos),
{
    assert forall|k: int| 0 <= k < (a + b).len() implies s[pos + k] == #[trigger] (a + b)[k] by {
        if k < a.len() {
            assert(s[pos + k] == a[k]);
        } else {
            assert(s[pos + a.len() + (k - a.len())] == b[k - a.len()]);
        }
    }
}

/// Values that were read stand in the bytes as they are written into their slots, and the last of
/// them does not end in a closing brace.
pub proof fn law_read_slots_stand_as_written(s: Seq<u8>, slots: Seq<Slot>, pos: int)
    requires
        0 <= pos <= s.len(),
        slot_values(s, slots, pos) is Some,
    ensures
        ({
            let (values, next) = slot_values(s, slots, pos)->0;
            &&& matches_at(s, written_slots(slots, values), pos)
            &&& next == pos + written_slots(slots, values).len()
            &&& slots.len() > 0 ==> pos < next && s[next - 1] != 125
        }),
    decreases slots.len(),
{
    if slots.len() > 0 {
        let label = ascii(slots[0].label@);
        let from = pos + label.len();
        lemma_span_kind(s, slots[0].kind, from);
        lemma_span_is_written(s, slots[0].kind, from);
        let (start, end, next) = span(s, slots[0].kind, from)->0;
        let text = s.subrange(start, end);
        let value = written(text, slots[0].kind);
        law_read_slots_stand_as_written(s, slots.drop_first(), next);
        let (rest, _) = slot_values(s, slots.drop_first(), next)->0;
        let (values, _) = slot_values(s, slots, pos)->0;
        assert(values[0] == text);
        assert(values.drop_first() =~= rest);
        let behind = written_slots(slots.drop_first(), rest);
        lemma_matches_join(s, label, value, pos);
        lemma_matches_join(s, label + value, behind, pos);
    }
}

/// Values that end within the bytes are read the same in a longer string that holds them.
pub proof fn lemma_slots_move(b: Seq<u8>, t: Seq<u8>, shift: int, slots: Seq<Slot>, pos: int)
    requires
        matches_at(t, b, shift),
        0 <= pos <= b.len(),
        slot_values(b, slots, pos) matches Some((_, next)) && next < b.len(),
    ensures
        ({
            let (values, next) = slot_values(b, slots, pos)->0;
            slot_values(t, slots, shift + pos) == Some((values, shift + next))
        }),
    decreases slots.len(),
{
    if slots.len() > 0 {
        let label = ascii(slots[0].label@);
        let from = pos + label.len();
        lemma_span_kind(b, slots[0].kind, from);
        let (_, _, next) = span(b, slots[0].kind, from)->0;
        law_values_are_of_their_kinds(b, slots.drop_first(), next);
        lemma_matches_moves(b, t, shift, label, pos);
        lemma_span_moves(b, t, shift, slots[0].kind, from);
        lemma_slots_move(b, t, shift, slots.drop_first(), next);
        assert(shift + pos + slots[0].label@.len() == shift + from);
    }
}

} // verus!
