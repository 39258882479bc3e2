//! A connection of the event loop over time: the requests that arrive one behind the other are
//! answered one after the other.
use vstd::prelude::*;

use crate::epoll::{goes_on, steps, Action, Conn, Event, Stage, WriteState};
use crate::handoff::{handoff_outcome, law_more_bytes_change_nothing, law_request_is_within_bounds};
use crate::head::{refusal_response, Refusal, Route};
use crate::inbox::{is_next, Next, HANDOFF_BUFFER_BYTES};
use crate::request::ParsedRequest;

verus! {

/// One step of a connection.
pub struct Step {
    pub before: Conn,
    pub event: Event,
    pub after: Conn,
    pub action: Action,
}

/// What a connection is to be told of a write: no more is pending than was to be written.
pub open spec fn is_plausible(conn: Conn, event: Event) -> bool {
    match (conn.stage, event) {
        (Stage::Reading, Event::Received(count)) => conn.inbox.len + count <= HANDOFF_BUFFER_BYTES,
        (Stage::Flushing(response, off), Event::Written(WriteState::Pending(to))) => off <= to
            <= response@.len(),
        (Stage::Answering(_, response), Event::Written(WriteState::Pending(to))) => to
            <= response@.len(),
        (Stage::Refusing(response), Event::Written(WriteState::Pending(to))) => to
            <= response@.len(),
        _ => true,
    }
}

/// The connection is as it was left, but for the room behind the bytes that have arrived, into
/// which the socket is read.
pub open spec fn goes_on_from(left: Conn, conn: Conn) -> bool {
    &&& conn.inbox@ == left.inbox@
    &&& conn.pending == left.pending
    &&& conn.close_after == left.close_after
    &&& conn.want_out == left.want_out
    &&& conn.stage == left.stage
}

/// A new connection.
pub open spec fn is_fresh(conn: Conn) -> bool {
    &&& conn.inbox@ == Seq::<u8>::empty()
    &&& conn.pending is None
    &&& conn.stage is Idle
}

/// A step of a connection to which `score` says which response a body may get on a route.
pub open spec fn is_step(step: Step, score: spec_fn(Seq<u8>, Route, Seq<u8>) -> bool) -> bool {
    &&& step.before.well_formed()
    &&& step.after.well_formed()
    &&& is_plausible(step.before, step.event)
    &&& steps(step.before, step.event, step.after, step.action)
    &&& match (step.before.stage, step.event) {
        (Stage::Scoring(request), Event::Scored(response)) => score(
            step.before.inbox@.subrange(request.header_len as int, request.total_len as int),
            request.route,
            response@,
        ),
        _ => true,
    }
}

/// The steps of a connection from its start on.
pub open spec fn is_run(run: Seq<Step>, score: spec_fn(Seq<u8>, Route, Seq<u8>) -> bool) -> bool
    decreases run.len(),
{
    run.len() > 0 ==> {
        &&& is_step(run.last(), score)
        &&& is_run(run.drop_last(), score)
        &&& if run.len() == 1 {
            is_fresh(run.last().before)
        } else {
            goes_on_from(run.drop_last().last().after, run.last().before)
        }
    }
}

/// The bytes that arrive in a step.
pub open spec fn arrives(step: Step) -> Seq<u8> {
    match (step.before.stage, step.event) {
        (Stage::Reading, Event::Received(count)) => step.before.inbox.buf@.subrange(
            step.before.inbox.len as int,
            step.before.inbox.len + count,
        ),
        _ => seq![],
    }
}

/// The bytes that have arrived in a run.
pub open spec fn arrived(run: Seq<Step>) -> Seq<u8>
    decreases run.len(),
{
    if run.len() == 0 {
        seq![]
    } else {
        arrived(run.drop_last()) + arrives(run.last())
    }
}

/// A request that was answered.
pub struct Served {
    pub request: ParsedRequest,
    pub body: Seq<u8>,
    pub response: Seq<u8>,
}

/// The request that a step is done with, if it is done with one.
pub open spec fn serves(step: Step) -> Seq<Served> {
    match (step.before.stage, step.event) {
        (
            Stage::Answering(request, response),
            Event::Written(WriteState::Done | WriteState::Pending(_)),
        ) => seq![
            Served {
                request,
                body: step.before.inbox@.subrange(
                    request.header_len as int,
                    request.total_len as int,
                ),
                response: response@,
            },
        ],
        _ => seq![],
    }
}

/// The requests that were answered in a run, in order.
pub open spec fn served(run: Seq<Step>) -> Seq<Served>
    decreases run.len(),
{
    if run.len() == 0 {
        seq![]
    } else {
        served(run.drop_last()) + serves(run.last())
    }
}

/// The bytes that the socket takes in a step.
pub open spec fn writes(step: Step) -> Seq<u8> {
    match (step.before.stage, step.event) {
        (Stage::Flushing(response, off), Event::Written(WriteState::Done)) => response@.skip(
            off as int,
        ),
        (Stage::Flushing(response, off), Event::Written(WriteState::Pending(to))) =>
            response@.subrange(off as int, to as int),
        (Stage::Answering(_, response), Event::Written(WriteState::Done)) => response@,
        (Stage::Answering(_, response), Event::Written(WriteState::Pending(to))) => response@.take(
            to as int,
        ),
        (Stage::Refusing(response), Event::Written(WriteState::Done)) => response@,
        (Stage::Refusing(response), Event::Written(WriteState::Pending(to))) => response@.take(
            to as int,
        ),
        _ => seq![],
    }
}

/// The bytes that the socket has taken in a run.
pub open spec fn written(run: Seq<Step>) -> Seq<u8>
    decreases run.len(),
{
    if run.len() == 0 {
        seq![]
    } else {
        written(run.drop_last()) + writes(run.last())
    }
}

/// The length of requests that stand one behind the other.
pub open spec fn total_length(served: Seq<Served>) -> int
    decreases served.len(),
{
    if served.len() == 0 {
        0
    } else {
        total_length(served.drop_last()) + served.last().request.total_len
    }
}

/// The responses to requests, one behind the other.
pub open spec fn responses(served: Seq<Served>) -> Seq<u8>
    decreases served.len(),
{
    if served.len() == 0 {
        seq![]
    } else {
        responses(served.drop_last()) + served.last().response
    }
}

/// The requests stand one behind the other at the start of the bytes; each of them but the last
/// leaves the connection open, and has a response that its body may get.
pub open spec fn are_successive(
    bytes: Seq<u8>,
    served: Seq<Served>,
    score: spec_fn(Seq<u8>, Route, Seq<u8>) -> bool,
) -> bool
    decreases served.len(),
{
    served.len() > 0 ==> {
        let rest = bytes.skip(total_length(served.drop_last()));
        let last = served.last();
        &&& are_successive(bytes, served.drop_last(), score)
        &&& served.len() > 1 ==> !served.drop_last().last().request.close_after_response
        &&& 0 <= total_length(served.drop_last()) <= bytes.len()
        &&& handoff_outcome(rest) == Ok::<Option<ParsedRequest>, Refusal>(Some(last.request))
        &&& last.body == rest.subrange(
            last.request.header_len as int,
            last.request.total_len as int,
        )
        &&& score(last.body, last.request.route, last.response)
    }
}

/// What is held back of the responses.
pub open spec fn held_back(conn: Conn) -> Seq<u8> {
    match (conn.stage, conn.pending) {
        (Stage::Flushing(response, off), _) => response@.skip(off as int),
        (_, Some((response, off))) => response@.skip(off as int),
        _ => seq![],
    }
}

/// The bytes that were written are the responses, but for what is held back; behind the last step
/// what was held back may be lost, and a refusal may have been written as far as it went.
pub open spec fn wrote_responses(conn: Conn, served: Seq<Served>, written: Seq<u8>) -> bool {
    if conn.stage is Over {
        ||| written.is_prefix_of(responses(served))
        ||| {
            &&& handoff_outcome(conn.inbox@) is Err
            &&& responses(served).is_prefix_of(written)
            &&& written.is_prefix_of(
                responses(served) + refusal_response(handoff_outcome(conn.inbox@)->Err_0),
            )
        }
    } else {
        written + held_back(conn) == responses(served)
    }
}

/// What a connection waits for fits what has arrived.
spec fn is_in_order(conn: Conn, score: spec_fn(Seq<u8>, Route, Seq<u8>) -> bool) -> bool {
    let outcome = handoff_outcome(conn.inbox@);
    let waits = outcome == Ok::<Option<ParsedRequest>, Refusal>(None);
    match conn.stage {
        Stage::Idle => match conn.pending {
            None => waits,
            Some((response, off)) => off <= response@.len(),
        },
        Stage::Flushing(response, off) => conn.pending is None && off <= response@.len(),
        Stage::WatchingIn => conn.pending is None,
        Stage::Reading => conn.pending is None && waits,
        Stage::Scoring(request) => conn.pending is None && outcome == Ok::<
            Option<ParsedRequest>,
            Refusal,
        >(Some(request)),
        Stage::Answering(request, response) => {
            &&& conn.pending is None
            &&& outcome == Ok::<Option<ParsedRequest>, Refusal>(Some(request))
            &&& score(
                conn.inbox@.subrange(request.header_len as int, request.total_len as int),
                request.route,
                response@,
            )
        },
        Stage::WatchingOut => conn.pending matches Some((response, off)) && off <= response@.len(),
        Stage::Refusing(response) => {
            &&& conn.pending is None
            &&& outcome is Err
            &&& response@ == refusal_response(outcome->Err_0)
        },
        Stage::Over => true,
    }
}

/// A connection that is done with a request that asked to close goes on to nothing else.
spec fn closes_in_time(conn: Conn, served: Seq<Served>) -> bool {
    let holds = conn.pending is Some || conn.stage is Flushing;
    &&& holds && !(conn.stage is Over) ==> served.len() > 0 && conn.close_after
        == served.last().request.close_after_response
    &&& served.len() > 0 && served.last().request.close_after_response ==> conn.stage is Over
        || (holds && conn.close_after)
}

/// What holds of a connection behind a run.
spec fn is_kept(
    conn: Conn,
    bytes: Seq<u8>,
    served: Seq<Served>,
    written: Seq<u8>,
    score: spec_fn(Seq<u8>, Route, Seq<u8>) -> bool,
) -> bool {
    &&& 0 <= total_length(served) <= bytes.len()
    &&& conn.inbox@ == bytes.skip(total_length(served))
    &&& are_successive(bytes, served, score)
    &&& wrote_responses(conn, served, written)
    &&& is_in_order(conn, score)
    &&& closes_in_time(conn, served)
}

/// Requests at the start of the bytes are there still when more bytes arrive.
pub proof fn lemma_successive_stay(
    bytes: Seq<u8>,
    more: Seq<u8>,
    served: Seq<Served>,
    score: spec_fn(Seq<u8>, Route, Seq<u8>) -> bool,
)
    requires
        are_successive(bytes, served, score),
    ensures
        are_successive(bytes + more, served, score),
    decreases served.len(),
{
    if served.len() > 0 {
        let rest = bytes.skip(total_length(served.drop_last()));
        let last = served.last();
        lemma_successive_stay(bytes, more, served.drop_last(), score);
        law_request_is_within_bounds(rest);
        law_more_bytes_change_nothing(rest, more);
        assert((bytes + more).skip(total_length(served.drop_last())) =~= rest + more);
        assert((rest + more).subrange(
            last.request.header_len as int,
            last.request.total_len as int,
        ) =~= last.body);
    }
}

/// A connection that goes on with what has arrived waits for what fits it.
proof fn lemma_going_on_is_in_order(
    conn: Conn,
    action: Action,
    score: spec_fn(Seq<u8>, Route, Seq<u8>) -> bool,
)
    requires
        goes_on(conn, action),
        conn.pending is None,
    ensures
        is_in_order(conn, score),
        conn.stage is Reading || conn.stage is Scoring || conn.stage is Refusing,
        held_back(conn) == Seq::<u8>::empty(),
{
    let next = choose|next: Next| #[trigger]
        is_next(conn.inbox@, next) && match next {
            Next::Wait => action is Read && conn.stage is Reading,
            Next::Serve(request) => action == Action::Score(request) && conn.stage
                == Stage::Scoring(request),
            Next::Refuse(response) => action == Action::Write(response, 0) && conn.stage
                == Stage::Refusing(response),
        };
    assert(is_next(conn.inbox@, next));
}

/// A step in which bytes arrive.
proof fn lemma_receiving_keeps(
    step: Step,
    count: usize,
    bytes: Seq<u8>,
    served: Seq<Served>,
    written: Seq<u8>,
    score: spec_fn(Seq<u8>, Route, Seq<u8>) -> bool,
)
    requires
        is_step(step, score),
        is_kept(step.before, bytes, served, written, score),
        step.before.stage is Reading,
        step.event == Event::Received(count),
    ensures
        is_kept(step.after, bytes + arrives(step), served, written, score),
{
    let more = arrives(step);
    lemma_successive_stay(bytes, more, served, score);
    lemma_going_on_is_in_order(step.after, step.action, score);
    assert(step.after.inbox@ =~= step.before.inbox@ + more);
    assert((bytes + more).skip(total_length(served)) =~= bytes.skip(total_length(served)) + more);
}

/// A step that is done with a request.
proof fn lemma_answering_keeps(
    step: Step,
    request: ParsedRequest,
    response: &'static [u8],
    bytes: Seq<u8>,
    served: Seq<Served>,
    written: Seq<u8>,
    score: spec_fn(Seq<u8>, Route, Seq<u8>) -> bool,
)
    requires
        is_step(step, score),
        is_kept(step.before, bytes, served, written, score),
        step.before.stage == Stage::Answering(request, response),
        step.event matches Event::Written(state) && !(state is Closed),
    ensures
        is_kept(step.after, bytes, served + serves(step), written + writes(step), score),
{
    let item = serves(step)[0];
    let all = served + serves(step);
    law_request_is_within_bounds(step.before.inbox@);
    assert(all.drop_last() =~= served);
    assert(all.last() == item);
    assert(step.after.inbox@ =~= bytes.skip(total_length(all)));
    assert(are_successive(bytes, all, score));
    let state = step.event->Written_0;
    if state is Done {
        assert(written + response@ =~= responses(all));
        if !request.close_after_response {
            lemma_going_on_is_in_order(step.after, step.action, score);
            assert((written + writes(step)) + held_back(step.after) =~= responses(all));
        }
    } else {
        let to = state->Pending_0;
        assert(response@.take(to as int) + response@.skip(to as int) =~= response@);
        assert((written + writes(step)) + held_back(step.after) =~= responses(all));
    }
}

/// A step that writes what was held back.
proof fn lemma_flushing_keeps(
    step: Step,
    response: &'static [u8],
    off: usize,
    bytes: Seq<u8>,
    served: Seq<Served>,
    written: Seq<u8>,
    score: spec_fn(Seq<u8>, Route, Seq<u8>) -> bool,
)
    requires
        is_step(step, score),
        is_kept(step.before, bytes, served, written, score),
        step.before.stage == Stage::Flushing(response, off),
        step.event matches Event::Written(state) && !(state is Closed),
    ensures
        is_kept(step.after, bytes, served, written + writes(step), score),
{
    let state = step.event->Written_0;
    if state is Done {
        if step.before.close_after {
            assert(written + writes(step) =~= responses(served));
        } else if !step.before.want_out {
            lemma_going_on_is_in_order(step.after, step.action, score);
            assert((written + writes(step)) + held_back(step.after) =~= responses(served));
        } else {
            assert((written + writes(step)) + held_back(step.after) =~= responses(served));
        }
    } else {
        let to = state->Pending_0;
        assert(response@.subrange(off as int, to as int) + response@.skip(to as int)
            =~= response@.skip(off as int));
        assert((written + writes(step)) + held_back(step.after) =~= responses(served));
    }
}

/// A step that writes a refusal.
proof fn lemma_refusing_keeps(
    step: Step,
    response: &'static [u8],
    bytes: Seq<u8>,
    served: Seq<Served>,
    written: Seq<u8>,
    score: spec_fn(Seq<u8>, Route, Seq<u8>) -> bool,
)
    requires
        is_step(step, score),
        is_kept(step.before, bytes, served, written, score),
        step.before.stage == Stage::Refusing(response),
    ensures
        is_kept(step.after, bytes, served, written + writes(step), score),
{
    let all = responses(served);
    let more = writes(step);
    assert(written =~= all);
    assert(all.is_prefix_of(all + more));
    assert(more.is_prefix_of(response@));
    assert((all + more).is_prefix_of(all + response@));
}

/// A step keeps what holds of a connection.
proof fn lemma_step_keeps(
    step: Step,
    bytes: Seq<u8>,
    served: Seq<Served>,
    written: Seq<u8>,
    score: spec_fn(Seq<u8>, Route, Seq<u8>) -> bool,
)
    requires
        is_step(step, score),
        is_kept(step.before, bytes, served, written, score),
    ensures
        is_kept(
            step.after,
            bytes + arrives(step),
            served + serves(step),
            written + writes(step),
            score,
        ),
{
    let conn = step.before;
    assert(bytes + Seq::<u8>::empty() =~= bytes);
    assert(served + Seq::<Served>::empty() =~= served);
    assert(written + Seq::<u8>::empty() =~= written);
    match (conn.stage, step.event) {
        (Stage::Reading, Event::Received(count)) => {
            lemma_receiving_keeps(step, count, bytes, served, written, score);
        },
        (
            Stage::Answering(request, response),
            Event::Written(WriteState::Done | WriteState::Pending(_)),
        ) => {
            lemma_answering_keeps(step, request, response, bytes, served, written, score);
        },
        (
            Stage::Flushing(response, off),
            Event::Written(WriteState::Done | WriteState::Pending(_)),
        ) => {
            lemma_flushing_keeps(step, response, off, bytes, served, written, score);
        },
        (Stage::Refusing(response), _) => {
            lemma_refusing_keeps(step, response, bytes, served, written, score);
        },
        (Stage::Idle, Event::Woken) => {
            if conn.pending is None {
                lemma_going_on_is_in_order(step.after, step.action, score);
            }
        },
        (Stage::WatchingIn, Event::Watched(true)) | (Stage::Reading, Event::Interrupted) => {
            lemma_going_on_is_in_order(step.after, step.action, score);
        },
        _ => {
            if step.after.stage is Over && !(conn.stage is Over) {
                assert(written.is_prefix_of(responses(served)));
            }
        },
    }
}

/// What holds of a connection behind its run.
proof fn lemma_run_keeps(run: Seq<Step>, score: spec_fn(Seq<u8>, Route, Seq<u8>) -> bool)
    requires
        is_run(run, score),
        run.len() > 0,
    ensures
        is_kept(run.last().after, arrived(run), served(run), written(run), score),
    decreases run.len(),
{
    let step = run.last();
    let earlier = run.drop_last();
    if run.len() == 1 {
        assert(earlier =~= Seq::<Step>::empty());
        assert(Seq::<u8>::empty().skip(0) =~= Seq::<u8>::empty());
        assert(Seq::<u8>::empty() + Seq::<u8>::empty() =~= Seq::<u8>::empty());
    } else {
        lemma_run_keeps(earlier, score);
    }
    lemma_step_keeps(step, arrived(earlier), served(earlier), written(earlier), score);
}

/// The requests that arrive on a connection are answered in order, each with a response that its
/// body may get: those that were answered are the first ones of the bytes that have arrived, the
/// inbox holds the bytes behind them, and what was written is their responses, one behind the
/// other. While the connection rests with nothing to write, and whenever it asks to read, no request
/// that has arrived in full is left. Behind a request that asked to close, nothing is done but to
/// write its response.
pub proof fn law_requests_are_answered_in_order(
    run: Seq<Step>,
    score: spec_fn(Seq<u8>, Route, Seq<u8>) -> bool,
)
    requires
        is_run(run, score),
        run.len() > 0,
    ensures
        are_successive(arrived(run), served(run), score),
        0 <= total_length(served(run)) <= arrived(run).len(),
        run.last().after.inbox@ == arrived(run).skip(total_length(served(run))),
        wrote_responses(run.last().after, served(run), written(run)),
        run.last().after.stage is Idle && run.last().after.pending is None ==> handoff_outcome(
            run.last().after.inbox@,
        ) == Ok::<Option<ParsedRequest>, Refusal>(None),
        run.last().after.stage is Reading ==> handoff_outcome(run.last().after.inbox@) == Ok::<
            Option<ParsedRequest>,
            Refusal,
        >(None),
        served(run).len() > 0 && served(run).last().request.close_after_response ==> (
        run.last().after.stage is Over || run.last().after.pending is Some
            || run.last().after.stage is Flushing),
{
    lemma_run_keeps(run, score);
}

/// Nothing follows the end of a connection: it is closed, takes in nothing and writes nothing.
pub proof fn law_nothing_follows_the_end(
    run: Seq<Step>,
    score: spec_fn(Seq<u8>, Route, Seq<u8>) -> bool,
)
    requires
        is_run(run, score),
        run.len() > 1,
        run.drop_last().last().after.stage is Over,
    ensures
        run.last().action is Close,
        run.last().after.stage is Over,
        run.last().after.inbox@ == run.drop_last().last().after.inbox@,
        arrived(run) == arrived(run.drop_last()),
        served(run) == served(run.drop_last()),
        written(run) == written(run.drop_last()),
{
}

} // verus!
