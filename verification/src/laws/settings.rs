//! Settings, messages and marks, and what they stand for.
use vstd::prelude::*;
use vstd::utf8::encode_utf8;

use crate::api::{classifier_setting, parser_setting};
use crate::bytes::{ascii, index_from, lemma_first_match, lemma_index_from, matches_at};
use crate::config::{
    are_lb_settings, backends, clamped, entries, kept, number_setting, polling, protocol_setting,
    switched_on, value_place, BackendsError, BusyPoll, LbSettings,
};
use crate::control::{
    control_action, message_file, owner, ControlAction, ControlError, ControlEvent,
};
use crate::decimal::number_text;
use crate::lb::client::UpstreamProtocol;
use crate::text::{lower, trimmed};
use crate::uring::{buffer_end, buffer_start, published};

verus! {

/// A number is what the text says, and the default where it is missing or says none.
pub proof fn law_settings_have_defaults(value: Option<&str>, max: nat, default: nat)
    ensures
        value is None ==> number_setting(value, max, default) == default,
        value matches Some(text) ==> match number_text(encode_utf8(text@), max) {
            Some(n) => number_setting(value, max, default) == n,
            None => number_setting(value, max, default) == default,
        },
{
}

/// What is held within limits is within them, and is as it was where it was already.
pub proof fn law_limits_are_kept(n: nat, low: nat, high: nat)
    requires
        low <= high,
    ensures
        low <= clamped(n, low, high) <= high,
        low <= n <= high ==> clamped(n, low, high) == n,
        n < low ==> clamped(n, low, high) == low,
        n > high ==> clamped(n, low, high) == high,
{
}

/// Something is switched on by `1`, and by nothing else.
pub proof fn law_one_switches_on(value: Option<&str>)
    ensures
        value is None ==> !switched_on(value),
        value matches Some(text) ==> (switched_on(value) <==> encode_utf8(text@) == ascii("1"@)),
{
}

/// There are from one to 256 connections to each backend, 32 where nothing is said, and never more
/// made ahead than that; as many as that where nothing is said. All requests are told of after ten
/// thousand where nothing is said, and after at least one.
pub proof fn law_the_load_balancer_has_limits(
    pool: Option<&str>,
    preconnect: Option<&str>,
    every: Option<&str>,
    slow_us: Option<&str>,
    sample: Option<&str>,
    s: LbSettings,
)
    requires
        are_lb_settings(pool, preconnect, every, slow_us, sample, s),
    ensures
        1 <= s.upstream_pool_per_backend <= 256,
        s.upstream_preconnect_per_backend <= s.upstream_pool_per_backend,
        s.trace_every >= 1,
        pool is None ==> s.upstream_pool_per_backend == 32,
        preconnect is None ==> s.upstream_preconnect_per_backend == s.upstream_pool_per_backend,
        every is None ==> s.trace_every == 10000,
        slow_us is None ==> s.trace_slow_us == 10000,
        sample is None ==> s.trace_sample == 0,
        pool matches Some(text) ==> (number_text(encode_utf8(text@), usize::MAX as nat) matches Some(
            n,
        ) ==> (1 <= n <= 256 ==> s.upstream_pool_per_backend == n) && (n < 1
            ==> s.upstream_pool_per_backend == 1) && (n > 256 ==> s.upstream_pool_per_backend
            == 256)),
        preconnect matches Some(text) ==> (number_text(encode_utf8(text@), usize::MAX as nat)
            matches Some(n) ==> (n <= s.upstream_pool_per_backend
            ==> s.upstream_preconnect_per_backend == n)),
        every matches Some(text) ==> (number_text(encode_utf8(text@), usize::MAX as nat)
            matches Some(n) ==> (1 <= n <= usize::MAX ==> s.trace_every == n)),
        slow_us matches Some(text) ==> (number_text(encode_utf8(text@), u64::MAX as nat)
            matches Some(n) ==> s.trace_slow_us == n),
        sample matches Some(text) ==> (number_text(encode_utf8(text@), u64::MAX as nat)
            matches Some(n) ==> s.trace_sample == n),
{
}

/// Backends are reached by HTTP, or raw where that is named, in any letter case; another name is an
/// error. The fast parser and the classifier are used only where they are named.
pub proof fn law_names_choose(value: Option<&str>)
    ensures
        value is None ==> protocol_setting(value) == Some(UpstreamProtocol::Http),
        value is None ==> parser_setting(value) is Serde && classifier_setting(value) is Off,
        value matches Some(text) ==> {
            let name = lower(encode_utf8(text@));
            &&& protocol_setting(value) == Some(UpstreamProtocol::Http) <==> name == ascii("http"@)
            &&& protocol_setting(value) == Some(UpstreamProtocol::Raw) <==> name == ascii("raw"@)
            &&& parser_setting(value) is Fast <==> name == ascii("fast"@)
            &&& classifier_setting(value) is Tree <==> name == ascii("tree"@)
            &&& classifier_setting(value) is TreeOnly <==> name == ascii("tree_only"@) || name
                == ascii("tree-only"@)
        },
{
    reveal_strlit("http");
    reveal_strlit("raw");
    reveal_strlit("tree");
    reveal_strlit("tree_only");
    reveal_strlit("tree-only");
    assert(ascii("http"@).len() == 4 && ascii("raw"@).len() == 3);
    assert(ascii("tree"@).len() == 4 && ascii("tree_only"@).len() == 9 && ascii("tree-only"@).len()
        == 9);
}

/// Polling is switched off only where no time and no preference is asked for; where nothing is said,
/// it takes 50 microseconds and eight packets, and is preferred.
pub proof fn law_polling_has_defaults(
    usecs: Option<&str>,
    budget: Option<&str>,
    prefer: Option<&str>,
)
    ensures
        usecs is None && budget is None && prefer is None ==> polling(usecs, budget, prefer) == Some(
            BusyPoll { usecs: 50, budget: 8, prefer: 1 },
        ),
        polling(usecs, budget, prefer) is None <==> number_setting(usecs, u32::MAX as nat, 50) == 0
            && number_setting(prefer, u32::MAX as nat, 1) == 0,
        number_setting(usecs, u32::MAX as nat, 50) <= u32::MAX ==> (polling(usecs, budget, prefer)
            matches Some(poll) ==> {
            &&& poll.usecs == number_setting(usecs, u32::MAX as nat, 50)
            &&& poll.prefer == 1 <==> number_setting(prefer, u32::MAX as nat, 1) > 0
            &&& poll.prefer == 0 <==> number_setting(prefer, u32::MAX as nat, 1) == 0
            &&& number_setting(budget, u32::MAX as nat, 8) <= 65535 ==> poll.budget
                == number_setting(budget, u32::MAX as nat, 8)
            &&& number_setting(budget, u32::MAX as nat, 8) > 65535 ==> poll.budget == 65535
        }),
{
}

/// Texts with a comma between each two.
pub open spec fn comma_list(texts: Seq<Seq<u8>>) -> Seq<u8>
    decreases texts.len(),
{
    if texts.len() == 0 {
        seq![]
    } else if texts.len() == 1 {
        texts[0]
    } else {
        texts[0] + seq![44u8] + comma_list(texts.drop_first())
    }
}

/// The texts that hold something but white space, trimmed.
pub open spec fn filled_texts(texts: Seq<Seq<u8>>) -> Seq<Seq<u8>>
    decreases texts.len(),
{
    if texts.len() == 0 {
        seq![]
    } else {
        (if trimmed(texts[0]).len() > 0 {
            seq![trimmed(texts[0])]
        } else {
            seq![]
        }) + filled_texts(texts.drop_first())
    }
}

/// The entries of a list are the texts between its commas, in order, each trimmed and without those
/// that are empty then. There are to be two of them.
pub proof fn law_backends_stand_between_commas(texts: Seq<Seq<u8>>)
    requires
        texts.len() > 0,
        forall|i: int, k: int|
            0 <= i < texts.len() && 0 <= k < texts[i].len() ==> #[trigger] texts[i][k] != 44,
    ensures
        entries(comma_list(texts)) == filled_texts(texts),
        filled_texts(texts).len() == 0 ==> backends(comma_list(texts)) == Err::<
            (Seq<u8>, Seq<u8>),
            BackendsError,
        >(BackendsError::FirstMissing),
        filled_texts(texts).len() == 1 ==> backends(comma_list(texts)) == Err::<
            (Seq<u8>, Seq<u8>),
            BackendsError,
        >(BackendsError::SecondMissing),
        filled_texts(texts).len() == 2 ==> backends(comma_list(texts)) == Ok::<
            (Seq<u8>, Seq<u8>),
            BackendsError,
        >((filled_texts(texts)[0], filled_texts(texts)[1])),
        filled_texts(texts).len() > 2 ==> backends(comma_list(texts)) == Err::<
            (Seq<u8>, Seq<u8>),
            BackendsError,
        >(BackendsError::TooMany),
    decreases texts.len(),
{
    let s = comma_list(texts);
    let comma = seq![44u8];
    let first = texts[0];
    assert forall|j: int| 0 <= j < first.len() implies !matches_at(s, comma, j) by {
        if matches_at(s, comma, j) {
            assert(s[j + 0] == comma[0]);
            assert(s[j] == texts[0][j]);
        }
    }
    assert(kept(trimmed(first)) == (if trimmed(first).len() > 0 {
        seq![trimmed(first)]
    } else {
        seq![]
    }));
    lemma_index_from(s, comma, 0);
    if texts.len() == 1 {
        assert(texts.drop_first() =~= seq![]);
        assert(index_from(s, comma, 0) is None) by {
            if let Some(at) = index_from(s, comma, 0) {
                assert(matches_at(s, comma, at));
            }
        }
        assert(filled_texts(texts.drop_first()) =~= seq![]);
        assert(filled_texts(texts) =~= kept(trimmed(first)));
    } else {
        let at = first.len() as int;
        let rest = texts.drop_first();
        assert(s[at] == 44);
        assert(matches_at(s, comma, at)) by {
            assert(s[at + 0] == comma[0]);
        }
        lemma_first_match(s, comma, 0, at);
        assert(s.take(at) =~= first);
        assert(s.skip(at + 1) =~= comma_list(rest));
        assert forall|i: int, k: int|
            0 <= i < rest.len() && 0 <= k < rest[i].len() implies #[trigger] rest[i][k] != 44 by {
            assert(texts[i + 1][k] != 44);
        }
        law_backends_stand_between_commas(rest);
    }
}

/// The value of an argument is the one behind the first with its name.
pub proof fn law_values_stand_behind_their_names(args: Seq<String>, name: Seq<char>, at: int)
    requires
        0 <= at < args.len(),
        encode_utf8(args[at]@) == encode_utf8(name),
        forall|k: int| 0 <= k < at ==> encode_utf8(#[trigger] args[k]@) != encode_utf8(name),
    ensures
        at + 1 < args.len() ==> value_place(args, name, 0) == Some(at + 1),
        at + 1 == args.len() ==> value_place(args, name, 0) is None,
{
    lemma_value_place(args, name, 0, at);
}

proof fn lemma_value_place(args: Seq<String>, name: Seq<char>, from: int, at: int)
    requires
        0 <= from <= at < args.len(),
        encode_utf8(args[at]@) == encode_utf8(name),
        forall|k: int| 0 <= k < at ==> encode_utf8(#[trigger] args[k]@) != encode_utf8(name),
    ensures
        at + 1 < args.len() ==> value_place(args, name, from) == Some(at + 1),
        at + 1 == args.len() ==> value_place(args, name, from) is None,
    decreases at - from,
{
    if from < at {
        assert(encode_utf8(args[from]@) != encode_utf8(name));
        lemma_value_place(args, name, from + 1, at);
    }
}

/// An argument whose name is not there has no value.
pub proof fn law_missing_arguments_have_no_value(args: Seq<String>, name: Seq<char>, from: int)
    requires
        0 <= from,
        forall|k: int| 0 <= k < args.len() ==> encode_utf8(#[trigger] args[k]@) != encode_utf8(
            name,
        ),
    ensures
        value_place(args, name, from) is None,
    decreases args.len() - from,
{
    if from < args.len() {
        assert(encode_utf8(args[from]@) != encode_utf8(name));
        law_missing_arguments_have_no_value(args, name, from + 1);
    }
}

/// A message hands over the file in it, and is the end where it is empty; without a file, or with
/// what is none, it is an error, as it is where the system refuses.
pub proof fn law_messages_hand_over_files(received: int, has_file: bool, fd: i32)
    ensures
        message_file(received, has_file, fd) == Ok::<Option<i32>, ControlError>(Some(fd))
            <==> received > 0 && has_file && fd >= 0,
        message_file(received, has_file, fd) == Ok::<Option<i32>, ControlError>(None) <==> received
            == 0,
        message_file(received, has_file, fd) == Err::<Option<i32>, ControlError>(
            ControlError::System,
        ) <==> received < 0,
        message_file(received, has_file, fd) == Err::<Option<i32>, ControlError>(
            ControlError::NoFile,
        ) <==> received > 0 && !has_file,
        message_file(received, has_file, fd) == Err::<Option<i32>, ControlError>(
            ControlError::BadFile,
        ) <==> received > 0 && has_file && fd < 0,
{
}

/// Every connection that is handed over is served; an interrupted try is made again, and where there
/// is nothing for now the next event is waited for. A control connection that is gone is closed by
/// the event loop only.
pub proof fn law_control_connections_are_drained(event: ControlEvent, closes: bool)
    ensures
        event matches ControlEvent::File(fd) ==> control_action(event, closes)
            == ControlAction::Register(fd),
        event is Interrupted ==> control_action(event, closes) is TryAgain,
        event is Drained ==> control_action(event, closes) is Stop,
        (event is Closed || event is Failed) && closes ==> control_action(event, closes) is Close,
        (event is Closed || event is Failed) && !closes ==> control_action(event, closes) is Stop,
{
}

/// An event is that of the listener first, then of a control connection, then of a client.
pub proof fn law_events_have_an_owner(fd: i32, listener: i32, is_control: bool, is_client: bool)
    ensures
        owner(fd, listener, is_control, is_client) is Listener <==> fd == listener,
        owner(fd, listener, is_control, is_client) is Control <==> fd != listener && is_control,
        owner(fd, listener, is_control, is_client) is Client <==> fd != listener && !is_control
            && is_client,
        owner(fd, listener, is_control, is_client) is Unknown <==> fd != listener && !is_control
            && !is_client,
{
}

/// Buffers are handed back at one place behind the other, of 512, and the places start anew behind the
/// last. A buffer holds 16384 bytes, and what it was filled with lies at its start.
pub proof fn law_buffers_are_handed_back_in_turn(tail: u16, bid: int, len: int)
    requires
        0 <= bid,
        0 <= len,
    ensures
        0 <= published(tail).0 < 512,
        (tail as int - published(tail).0) % 512 == 0,
        tail < 65535 ==> published(tail).1 == tail + 1,
        tail == 65535 ==> published(tail).1 == 0,
        buffer_start(bid) == 16384 * bid,
        len <= 16384 ==> buffer_end(bid, len) == buffer_start(bid) + len,
        len > 16384 ==> buffer_end(bid, len) == buffer_start(bid + 1),
{
}

} // verus!
