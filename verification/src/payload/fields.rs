//! The fields of a score request.
use vstd::prelude::*;

use crate::bytes::{
    ascii, expect_after, find_byte, index_from, lemma_first_match, lemma_index_from,
    lemma_matches_moves, lemma_matches_moves_back, literal, matches_at, same_bytes, stands_at,
};
use crate::payload::slots::{
    first_slot_values, labels_part, law_read_slots_stand_as_written, law_slots_are_read_back,
    law_values_are_of_their_kinds, lemma_matches_join, lemma_matches_split, lemma_slots_move,
    read_first_slots, read_slots, slot_values, views, written_slots, Slot,
};
use crate::payload::value::{number_ends, of_kind, Kind};

verus! {

/// The texts in quotes in a list, in order; a quote that is not closed ends the list.
pub open spec fn quoted(list: Seq<u8>) -> Seq<Seq<u8>>
    decreases list.len(),
{
    match index_from(list, seq![34u8], 0) {
        None => seq![],
        Some(open) => match index_from(list, seq![34u8], open + 1) {
            None => seq![],
            Some(close) => if 0 <= open < close < list.len() {
                seq![list.subrange(open + 1, close)] + quoted(list.skip(close + 1))
            } else {
                seq![]
            },
        },
    }
}

/// Whether a text stands in quotes in a list.
pub fn known_merchants_contains(list: &[u8], merchant_id: &[u8]) -> (found: bool)
    ensures
        found == quoted(list@).contains(merchant_id@),
{
    let mut rest: &[u8] = list;
    loop
        invariant
            quoted(list@).contains(merchant_id@) == quoted(rest@).contains(merchant_id@),
        decreases rest@.len(),
    {
        match find_byte(rest, 34, 0) {
            None => {
                return false;
            },
            Some(open) => match find_byte(rest, 34, open + 1) {
                None => {
                    return false;
                },
                Some(close) => {
                    let item: &[u8] = &rest[open + 1..close];
                    let end: usize = rest.len();
                    let tail: &[u8] = &rest[close + 1..end];
                    let same = same_bytes(item, merchant_id);
                    proof {
                        assert(tail@ =~= rest@.skip(close + 1));
                        let all = seq![item@] + quoted(tail@);
                        assert(quoted(rest@) == all);
                        assert(all[0] == item@);
                        if quoted(tail@).contains(merchant_id@) {
                            let k = choose|k: int|
                                0 <= k < quoted(tail@).len() && quoted(tail@)[k] == merchant_id@;
                            assert(all[k + 1] == merchant_id@);
                        }
                        if all.contains(merchant_id@) && item@ != merchant_id@ {
                            let k = choose|k: int|
                                0 <= k < all.len() && all[k] == merchant_id@;
                            assert(quoted(tail@)[k - 1] == merchant_id@);
                        }
                    }
                    if same {
                        return true;
                    }
                    rest = tail;
                },
            },
        }
    }
}

/// The values of a score request, as they stand in its body.
#[derive(Debug, Clone, Copy)]
pub struct FastFields<'a> {
    pub amount: &'a [u8],
    pub installments: &'a [u8],
    pub requested_at: &'a [u8],
    pub customer_avg: &'a [u8],
    pub tx_count_24h: &'a [u8],
    pub known_merchants: &'a [u8],
    pub merchant_id: &'a [u8],
    pub merchant_mcc: &'a [u8],
    pub merchant_avg: &'a [u8],
    pub is_online: bool,
    pub card_present: bool,
    pub km_from_home: &'a [u8],
    pub last: Option<LastFields<'a>>,
}

/// The values of the transaction before.
#[derive(Debug, Clone, Copy)]
pub struct LastFields<'a> {
    pub timestamp: &'a [u8],
    pub km_from_current: &'a [u8],
}

/// The model of `LastFields`.
#[verifier::ext_equal]
pub struct LastView {
    pub timestamp: Seq<u8>,
    pub km_from_current: Seq<u8>,
}

/// The model of `FastFields`.
#[verifier::ext_equal]
pub struct FieldsView {
    pub amount: Seq<u8>,
    pub installments: Seq<u8>,
    pub requested_at: Seq<u8>,
    pub customer_avg: Seq<u8>,
    pub tx_count_24h: Seq<u8>,
    pub known_merchants: Seq<u8>,
    pub merchant_id: Seq<u8>,
    pub merchant_mcc: Seq<u8>,
    pub merchant_avg: Seq<u8>,
    pub is_online: bool,
    pub card_present: bool,
    pub km_from_home: Seq<u8>,
    pub last: Option<LastView>,
}

impl<'a> View for LastFields<'a> {
    type V = LastView;

    open spec fn view(&self) -> LastView {
        LastView { timestamp: self.timestamp@, km_from_current: self.km_from_current@ }
    }
}

impl<'a> View for FastFields<'a> {
    type V = FieldsView;

    open spec fn view(&self) -> FieldsView {
        FieldsView {
            amount: self.amount@,
            installments: self.installments@,
            requested_at: self.requested_at@,
            customer_avg: self.customer_avg@,
            tx_count_24h: self.tx_count_24h@,
            known_merchants: self.known_merchants@,
            merchant_id: self.merchant_id@,
            merchant_mcc: self.merchant_mcc@,
            merchant_avg: self.merchant_avg@,
            is_online: self.is_online,
            card_present: self.card_present,
            km_from_home: self.km_from_home@,
            last: match self.last {
                Some(last) => Some(last@),
                None => None,
            },
        }
    }
}

/// The kinds that a reader takes numbers, counts and texts to be.
#[derive(Debug, Clone, Copy, PartialEq, Eq, Structural)]
pub struct Reading {
    pub number: Kind,
    pub count: Kind,
    pub text: Kind,
}

/// The slots of a body, up to the transaction before.
pub open spec fn main_layout(how: Reading) -> Seq<Slot> {
    seq![
        Slot { label: "\"transaction\":{\"amount\":", kind: how.number },
        Slot { label: ",\"installments\":", kind: how.count },
        Slot { label: ",\"requested_at\":", kind: how.text },
        Slot { label: "},\"customer\":{\"avg_amount\":", kind: how.number },
        Slot { label: ",\"tx_count_24h\":", kind: how.count },
        Slot { label: ",\"known_merchants\":", kind: Kind::List },
        Slot { label: "},\"merchant\":{\"id\":", kind: how.text },
        Slot { label: ",\"mcc\":", kind: how.text },
        Slot { label: ",\"avg_amount\":", kind: how.number },
        Slot { label: "},\"terminal\":{\"is_online\":", kind: Kind::Flag },
        Slot { label: ",\"card_present\":", kind: Kind::Flag },
        Slot { label: ",\"km_from_home\":", kind: how.number },
    ]
}

/// The slots of the transaction before, where there is one.
pub open spec fn last_layout(how: Reading) -> Seq<Slot> {
    seq![
        Slot { label: "{\"timestamp\":", kind: how.text },
        Slot { label: ",\"km_from_current\":", kind: how.number },
    ]
}

/// The transaction before, which stands behind its label at `pos`: `null` or its values.
pub open spec fn last_fields(s: Seq<u8>, how: Reading, pos: int) -> Option<Option<LastView>> {
    let label = ascii("},\"last_transaction\":"@);
    if !matches_at(s, label, pos) {
        None
    } else if matches_at(s, ascii("null"@), pos + label.len()) {
        Some(None)
    } else {
        match slot_values(s, last_layout(how), pos + label.len()) {
            None => None,
            Some((values, _)) => Some(
                Some(LastView { timestamp: values[0], km_from_current: values[1] }),
            ),
        }
    }
}

/// The values that stand in a body, if it has the layout.
pub open spec fn body_fields(s: Seq<u8>, how: Reading) -> Option<FieldsView> {
    match first_slot_values(s, main_layout(how)) {
        None => None,
        Some((values, next)) => match last_fields(s, how, next) {
            None => None,
            Some(last) => Some(
                FieldsView {
                    amount: values[0],
                    installments: values[1],
                    requested_at: values[2],
                    customer_avg: values[3],
                    tx_count_24h: values[4],
                    known_merchants: values[5],
                    merchant_id: values[6],
                    merchant_mcc: values[7],
                    merchant_avg: values[8],
                    is_online: values[9] == ascii("true"@),
                    card_present: values[10] == ascii("true"@),
                    km_from_home: values[11],
                    last,
                },
            ),
        },
    }
}

fn main_slots(how: Reading) -> (slots: Vec<Slot>)
    ensures
        slots@ == main_layout(how),
        forall|i: int| 0 <= i < slots@.len() ==> (#[trigger] slots@[i]).label.is_ascii(),
        slots@[0].label@.len() > 0,
{
    proof {
        reveal_strlit("\"transaction\":{\"amount\":");
        reveal_strlit(",\"installments\":");
        reveal_strlit(",\"requested_at\":");
        reveal_strlit("},\"customer\":{\"avg_amount\":");
        reveal_strlit(",\"tx_count_24h\":");
        reveal_strlit(",\"known_merchants\":");
        reveal_strlit("},\"merchant\":{\"id\":");
        reveal_strlit(",\"mcc\":");
        reveal_strlit(",\"avg_amount\":");
        reveal_strlit("},\"terminal\":{\"is_online\":");
        reveal_strlit(",\"card_present\":");
        reveal_strlit(",\"km_from_home\":");
    }
    let slots: Vec<Slot> = vec![
        Slot { label: "\"transaction\":{\"amount\":", kind: how.number },
        Slot { label: ",\"installments\":", kind: how.count },
        Slot { label: ",\"requested_at\":", kind: how.text },
        Slot { label: "},\"customer\":{\"avg_amount\":", kind: how.number },
        Slot { label: ",\"tx_count_24h\":", kind: how.count },
        Slot { label: ",\"known_merchants\":", kind: Kind::List },
        Slot { label: "},\"merchant\":{\"id\":", kind: how.text },
        Slot { label: ",\"mcc\":", kind: how.text },
        Slot { label: ",\"avg_amount\":", kind: how.number },
        Slot { label: "},\"terminal\":{\"is_online\":", kind: Kind::Flag },
        Slot { label: ",\"card_present\":", kind: Kind::Flag },
        Slot { label: ",\"km_from_home\":", kind: how.number },
    ];
    assert(slots@ =~= main_layout(how));
    slots
}

fn last_slots(how: Reading) -> (slots: Vec<Slot>)
    ensures
        slots@ == last_layout(how),
        forall|i: int| 0 <= i < slots@.len() ==> (#[trigger] slots@[i]).label.is_ascii(),
{
    proof {
        reveal_strlit("{\"timestamp\":");
        reveal_strlit(",\"km_from_current\":");
    }
    let slots: Vec<Slot> = vec![
        Slot { label: "{\"timestamp\":", kind: how.text },
        Slot { label: ",\"km_from_current\":", kind: how.number },
    ];
    assert(slots@ =~= last_layout(how));
    slots
}

/// Reads the transaction before.
fn read_last<'a>(body: &'a [u8], how: Reading, pos: usize) -> (r: Option<Option<LastFields<'a>>>)
    ensures
        match r {
            None => last_fields(body@, how, pos as int) is None,
            Some(None) => last_fields(body@, how, pos as int) == Some(None::<LastView>),
            Some(Some(last)) => last_fields(body@, how, pos as int) == Some(Some(last@)),
        },
{
    proof {
        reveal_strlit("},\"last_transaction\":");
        reveal_strlit("null");
    }
    match expect_after(body, literal("},\"last_transaction\":"), pos) {
        None => None,
        Some(start) => if stands_at(body, literal("null"), start) {
            Some(None)
        } else {
            let slots = last_slots(how);
            match read_slots(body, slots.as_slice(), start) {
                None => None,
                Some((values, _)) => {
                    assert(views(values@)[0] == values@[0]@);
                    assert(views(values@)[1] == values@[1]@);
                    Some(Some(LastFields { timestamp: values[0], km_from_current: values[1] }))
                },
            }
        },
    }
}

/// Reads the values that stand in a body.
pub fn read_fields<'a>(body: &'a [u8], how: Reading) -> (r: Option<FastFields<'a>>)
    ensures
        match r {
            Some(fields) => body_fields(body@, how) == Some(fields@),
            None => body_fields(body@, how) is None,
        },
{
    proof {
        reveal_strlit("true");
    }
    let slots = main_slots(how);
    match read_first_slots(body, slots.as_slice()) {
        None => None,
        Some((values, next)) => {
            assert(forall|i: int| 0 <= i < 12 ==> views(values@)[i] == #[trigger] values@[i]@);
            match read_last(body, how, next) {
                None => None,
                Some(last) => {
                    let fields = FastFields {
                        amount: values[0],
                        installments: values[1],
                        requested_at: values[2],
                        customer_avg: values[3],
                        tx_count_24h: values[4],
                        known_merchants: values[5],
                        merchant_id: values[6],
                        merchant_mcc: values[7],
                        merchant_avg: values[8],
                        is_online: same_bytes(values[9], literal("true")),
                        card_present: same_bytes(values[10], literal("true")),
                        km_from_home: values[11],
                        last,
                    };
                    assert(body_fields(body@, how)->0 =~= fields@);
                    Some(fields)
                },
            }
        },
    }
}

pub open spec fn flag_text(value: bool) -> Seq<u8> {
    if value {
        ascii("true"@)
    } else {
        ascii("false"@)
    }
}

/// The values of the main slots.
pub open spec fn main_values(f: FieldsView) -> Seq<Seq<u8>> {
    seq![
        f.amount,
        f.installments,
        f.requested_at,
        f.customer_avg,
        f.tx_count_24h,
        f.known_merchants,
        f.merchant_id,
        f.merchant_mcc,
        f.merchant_avg,
        flag_text(f.is_online),
        flag_text(f.card_present),
        f.km_from_home,
    ]
}

/// The values of the slots of the transaction before.
pub open spec fn last_values(last: LastView) -> Seq<Seq<u8>> {
    seq![last.timestamp, last.km_from_current]
}

/// The transaction before as it is written.
pub open spec fn written_last(last: Option<LastView>, how: Reading) -> Seq<u8> {
    match last {
        None => ascii("null"@),
        Some(last) => written_slots(last_layout(how), last_values(last)),
    }
}

/// The fields as they are written into a body.
pub open spec fn written_fields(f: FieldsView, how: Reading) -> Seq<u8> {
    written_slots(main_layout(how), main_values(f)) + ascii("},\"last_transaction\":"@)
        + written_last(f.last, how)
}

/// The fields hold values of their kinds.
pub open spec fn fields_fit(f: FieldsView, how: Reading) -> bool {
    &&& of_kind(f.amount, how.number)
    &&& of_kind(f.installments, how.count)
    &&& of_kind(f.requested_at, how.text)
    &&& of_kind(f.customer_avg, how.number)
    &&& of_kind(f.tx_count_24h, how.count)
    &&& of_kind(f.known_merchants, Kind::List)
    &&& of_kind(f.merchant_id, how.text)
    &&& of_kind(f.merchant_mcc, how.text)
    &&& of_kind(f.merchant_avg, how.number)
    &&& of_kind(f.km_from_home, how.number)
    &&& f.last matches Some(last) ==> of_kind(last.timestamp, how.text) && of_kind(
        last.km_from_current,
        how.number,
    )
}

proof fn lemma_main_labels_part(how: Reading)
    ensures
        labels_part(main_layout(how)),
        labels_part(last_layout(how)),
{
    reveal_strlit("\"transaction\":{\"amount\":");
    reveal_strlit(",\"installments\":");
    reveal_strlit(",\"requested_at\":");
    reveal_strlit("},\"customer\":{\"avg_amount\":");
    reveal_strlit(",\"tx_count_24h\":");
    reveal_strlit(",\"known_merchants\":");
    reveal_strlit("},\"merchant\":{\"id\":");
    reveal_strlit(",\"mcc\":");
    reveal_strlit(",\"avg_amount\":");
    reveal_strlit("},\"terminal\":{\"is_online\":");
    reveal_strlit(",\"card_present\":");
    reveal_strlit(",\"km_from_home\":");
    reveal_strlit(",\"km_from_current\":");
}

/// What is written of the transaction before is read back.
proof fn lemma_last_is_read_back(s: Seq<u8>, view: LastView, how: Reading, start: int)
    requires
        of_kind(view.timestamp, how.text),
        of_kind(view.km_from_current, how.number),
        matches_at(s, written_last(Some(view), how), start),
        number_ends(s, start + written_last(Some(view), how).len()),
    ensures
        !matches_at(s, ascii("null"@), start),
        slot_values(s, last_layout(how), start) == Some(
            (last_values(view), start + written_last(Some(view), how).len()),
        ),
{
    let last = written_last(Some(view), how);
    lemma_main_labels_part(how);
    reveal_strlit("{\"timestamp\":");
    reveal_strlit("null");
    assert(last[0] == ascii("{\"timestamp\":"@)[0]);
    assert(s[start + 0] == last[0]);
    if matches_at(s, ascii("null"@), start) {
        assert(s[start + 0] == ascii("null"@)[0]);
    }
    assert forall|i: int| 0 <= i < 2 implies of_kind(
        #[trigger] last_values(view)[i],
        last_layout(how)[i].kind,
    ) by {}
    law_slots_are_read_back(s, last_layout(how), last_values(view), start);
}

/// What is written of the other fields is read back.
proof fn lemma_main_is_read_back(s: Seq<u8>, f: FieldsView, how: Reading, at: int)
    requires
        fields_fit(f, how),
        0 <= at,
        matches_at(s, written_slots(main_layout(how), main_values(f)), at),
        number_ends(s, at + written_slots(main_layout(how), main_values(f)).len()),
    ensures
        slot_values(s, main_layout(how), at) == Some(
            (main_values(f), at + written_slots(main_layout(how), main_values(f)).len()),
        ),
{
    lemma_main_labels_part(how);
    reveal_strlit("true");
    reveal_strlit("false");
    assert forall|i: int| 0 <= i < 12 implies of_kind(
        #[trigger] main_values(f)[i],
        main_layout(how)[i].kind,
    ) by {}
    law_slots_are_read_back(s, main_layout(how), main_values(f), at);
}

/// The fields that are written into a body are read back from it, whatever stands before them and
/// behind them: the label that they start with stands nowhere before, and nothing behind them
/// continues their last number.
pub proof fn law_fields_are_read_back(s: Seq<u8>, f: FieldsView, how: Reading, at: int)
    requires
        fields_fit(f, how),
        index_from(s, ascii(main_layout(how)[0].label@), 0) == Some(at),
        matches_at(s, written_fields(f, how), at),
        number_ends(s, at + written_fields(f, how).len()),
    ensures
        body_fields(s, how) == Some(f),
{
    let main = written_slots(main_layout(how), main_values(f));
    let label = ascii("},\"last_transaction\":"@);
    let last = written_last(f.last, how);
    lemma_index_from(s, ascii(main_layout(how)[0].label@), 0);
    assert(main + label + last =~= main + (label + last));
    lemma_matches_split(s, main, label + last, at);
    lemma_matches_split(s, label, last, at + main.len());
    reveal_strlit("},\"last_transaction\":");
    reveal_strlit("true");
    reveal_strlit("false");
    assert(ascii("true"@)[0] == 116u8);
    assert(ascii("false"@)[0] == 102u8);
    let next = at + main.len();
    assert(number_ends(s, next)) by {
        assert(s[next + 0] == label[0]);
    }
    lemma_main_is_read_back(s, f, how, at);
    let start = next + label.len();
    match f.last {
        None => {},
        Some(view) => {
            lemma_last_is_read_back(s, view, how, start);
        },
    }
    assert(body_fields(s, how)->0 =~= f);
}

/// The fields that are read hold values of their kinds, and they stand in the body as they are
/// written, from the first place on where the label that they start with stands.
pub proof fn law_read_fields_fit(s: Seq<u8>, how: Reading)
    requires
        body_fields(s, how) is Some,
    ensures
        fields_fit(body_fields(s, how)->0, how),
        index_from(s, ascii(main_layout(how)[0].label@), 0) matches Some(at) && matches_at(
            s,
            written_fields(body_fields(s, how)->0, how),
            at,
        ),
{
    let f = body_fields(s, how)->0;
    let layout = main_layout(how);
    lemma_index_from(s, ascii(layout[0].label@), 0);
    let at = index_from(s, ascii(layout[0].label@), 0)->0;
    law_values_are_of_their_kinds(s, layout, at);
    let (values, next) = slot_values(s, layout, at)->0;
    assert(of_kind(values[0], layout[0].kind));
    assert(of_kind(values[1], layout[1].kind));
    assert(of_kind(values[2], layout[2].kind));
    assert(of_kind(values[3], layout[3].kind));
    assert(of_kind(values[4], layout[4].kind));
    assert(of_kind(values[5], layout[5].kind));
    assert(of_kind(values[6], layout[6].kind));
    assert(of_kind(values[7], layout[7].kind));
    assert(of_kind(values[8], layout[8].kind));
    assert(of_kind(values[11], layout[11].kind));
    let label = ascii("},\"last_transaction\":"@);
    if !matches_at(s, ascii("null"@), next + label.len()) {
        law_values_are_of_their_kinds(s, last_layout(how), next + label.len());
        let (last, _) = slot_values(s, last_layout(how), next + label.len())->0;
        assert(of_kind(last[0], last_layout(how)[0].kind));
        assert(of_kind(last[1], last_layout(how)[1].kind));
    }
    law_read_slots_stand_as_written(s, layout, at);
    assert(of_kind(values[9], layout[9].kind));
    assert(of_kind(values[10], layout[10].kind));
    assert(main_values(f) =~= values);
    let main = written_slots(layout, values);
    lemma_matches_join(s, main, label, at);
    match f.last {
        None => {},
        Some(view) => {
            law_read_slots_stand_as_written(s, last_layout(how), next + label.len());
            let (last, _) = slot_values(s, last_layout(how), next + label.len())->0;
            assert(last_values(view) =~= last);
        },
    }
    lemma_matches_join(s, main + label, written_last(f.last, how), at);
}

/// The label that the fields of a body start with.
pub open spec fn first_label() -> Seq<u8> {
    ascii("\"transaction\":{\"amount\":"@)
}

/// The first place of a text in a string is its first place in the bytes, moved, where it does not
/// start before them.
proof fn lemma_first_place_moves(
    before: Seq<u8>,
    body: Seq<u8>,
    behind: Seq<u8>,
    start: Seq<u8>,
    at: int,
)
    requires
        index_from(body, start, 0) == Some(at),
        index_from(before + body, start, 0) matches Some(first) && first >= before.len(),
    ensures
        index_from(before + body + behind, start, 0) == Some(before.len() + at),
{
    let t = before + body + behind;
    let shift = before.len() as int;
    lemma_index_from(body, start, 0);
    lemma_index_from(before + body, start, 0);
    assert(matches_at(t, body, shift));
    assert(matches_at(t, before + body, 0));
    lemma_matches_moves(body, t, shift, start, at);
    assert forall|j: int| 0 <= j < shift + at implies !matches_at(t, start, j) by {
        if matches_at(t, start, j) {
            lemma_matches_moves_back(before + body, t, 0, start, j);
            if j >= shift {
                lemma_matches_moves_back(body, t, shift, start, j - shift);
            }
        }
    }
    lemma_first_match(t, start, 0, shift + at);
}

/// The transaction before is read the same in a longer string that holds the body.
proof fn lemma_last_moves(body: Seq<u8>, t: Seq<u8>, shift: int, how: Reading, pos: int)
    requires
        matches_at(t, body, shift),
        0 <= pos <= body.len(),
        body.last() == 125,
        last_fields(body, how, pos) is Some,
    ensures
        last_fields(t, how, shift + pos) == last_fields(body, how, pos),
{
    let label = ascii("},\"last_transaction\":"@);
    let from = pos + label.len();
    lemma_matches_moves(body, t, shift, label, pos);
    if matches_at(body, ascii("null"@), from) {
        lemma_matches_moves(body, t, shift, ascii("null"@), from);
    } else {
        law_values_are_of_their_kinds(body, last_layout(how), from);
        law_read_slots_stand_as_written(body, last_layout(how), from);
        lemma_slots_move(body, t, shift, last_layout(how), from);
        reveal_strlit("{\"timestamp\":");
        reveal_strlit("null");
        assert(matches_at(body, ascii(last_layout(how)[0].label@), from));
        if matches_at(t, ascii("null"@), shift + from) {
            lemma_matches_moves_back(body, t, shift, ascii("null"@), from);
        }
    }
}

/// What stands around a body does not matter for what is read from it: bytes before it in which,
/// up to the body, the label that the fields start with does not start, and any bytes behind it.
pub proof fn law_surroundings_do_not_matter(
    before: Seq<u8>,
    body: Seq<u8>,
    behind: Seq<u8>,
    how: Reading,
)
    requires
        body_fields(body, how) is Some,
        body.last() == 125,
        index_from(before + body, first_label(), 0) matches Some(at) && at >= before.len(),
    ensures
        body_fields(before + body + behind, how) == body_fields(body, how),
{
    let t = before + body + behind;
    let shift = before.len() as int;
    let layout = main_layout(how);
    let at = index_from(body, first_label(), 0)->0;
    assert(ascii(layout[0].label@) == first_label());
    lemma_index_from(body, first_label(), 0);
    lemma_first_place_moves(before, body, behind, first_label(), at);
    assert(matches_at(t, body, shift));
    law_values_are_of_their_kinds(body, layout, at);
    let (_, next) = slot_values(body, layout, at)->0;
    reveal_strlit("},\"last_transaction\":");
    assert(next < body.len());
    lemma_slots_move(body, t, shift, layout, at);
    lemma_last_moves(body, t, shift, how, next);
}

/// Fields that stand between other bytes are read back: the label that they start with does not
/// start before them, and what stands behind does not continue their last number.
pub proof fn law_fields_between_bytes_are_read_back(
    before: Seq<u8>,
    f: FieldsView,
    behind: Seq<u8>,
    how: Reading,
)
    requires
        fields_fit(f, how),
        index_from(before + first_label(), first_label(), 0) == Some(before.len() as int),
        number_ends(behind, 0),
    ensures
        body_fields(before + written_fields(f, how) + behind, how) == Some(f),
{
    let fields = written_fields(f, how);
    let t = before + fields + behind;
    let at = before.len() as int;
    let start = first_label();
    let head = before + start;
    assert(ascii(main_layout(how)[0].label@) == start);
    assert(matches_at(t, fields, at));
    assert(matches_at(fields, start, 0));
    lemma_matches_moves(fields, t, at, start, 0);
    assert(matches_at(t, before, 0));
    lemma_matches_join(t, before, start, 0);
    lemma_index_from(head, start, 0);
    assert forall|j: int| 0 <= j < at implies !matches_at(t, start, j) by {
        if matches_at(t, start, j) {
            lemma_matches_moves_back(head, t, 0, start, j);
        }
    }
    lemma_first_match(t, start, 0, at);
    assert(number_ends(t, at + fields.len())) by {
        if behind.len() > 0 {
            assert(t[at + fields.len()] == behind[0]);
        }
    }
    law_fields_are_read_back(t, f, how, at);
}

} // verus!
