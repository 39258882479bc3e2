//! A client over time: each request gets one answer, in order.
use vstd::prelude::*;

use crate::bytes::{ascii, lemma_index_from};
use crate::head::{refusal_response, Refusal};
use crate::lb::client::{is_local, outcome, steps, Action, Client, Event, Stage, UpstreamProtocol};
use crate::lb::pool::RoundRobin;
use crate::lb::request::client_head;
use crate::request::{
    head_mark, law_complete_head_decides, law_read_request_is_within_bounds, ParsedRequest,
};
use crate::scoring::{BAD_GATEWAY_RESPONSE, READY_OK_RESPONSE};

verus! {

/// One step of a client, and the turn of the backends before and behind it.
pub struct Step<'a> {
    pub before: Client,
    pub turn: RoundRobin,
    pub event: Event<'a>,
    pub after: Client,
    pub next_turn: RoundRobin,
    pub action: Action,
}

/// A step of a client.
pub open spec fn is_step(step: Step<'_>, protocol: UpstreamProtocol) -> bool {
    &&& step.before.well_formed()
    &&& step.after.well_formed()
    &&& steps(
        step.before,
        protocol,
        step.turn,
        step.event,
        step.after,
        step.next_turn,
        step.action,
    )
}

/// The client is as it was left, but for what was noted of its request.
pub open spec fn goes_on_from(left: Client, client: Client) -> bool {
    &&& client.read_buf@ == left.read_buf@
    &&& client.saw_request_bytes == left.saw_request_bytes
    &&& client.stage == left.stage
}

/// A new client.
pub open spec fn is_fresh(client: Client) -> bool {
    client.read_buf@ == Seq::<u8>::empty() && client.stage is Starting
}

/// The steps of a client from its start on.
pub open spec fn is_run(run: Seq<Step<'_>>, protocol: UpstreamProtocol) -> bool
    decreases run.len(),
{
    run.len() > 0 ==> {
        &&& is_step(run.last(), protocol)
        &&& is_run(run.drop_last(), protocol)
        &&& if run.len() == 1 {
            is_fresh(run.last().before)
        } else {
            goes_on_from(run.drop_last().last().after, run.last().before)
        }
    }
}

/// The bytes that arrive in a step.
pub open spec fn arrives(step: Step<'_>) -> Seq<u8> {
    match (step.before.stage, step.event) {
        (Stage::Reading, Event::Received(chunk, _)) => chunk@,
        _ => seq![],
    }
}

/// The bytes that have arrived in a run.
pub open spec fn arrived(run: Seq<Step<'_>>) -> Seq<u8>
    decreases run.len(),
{
    if run.len() == 0 {
        seq![]
    } else {
        arrived(run.drop_last()) + arrives(run.last())
    }
}

/// An answer that a client is given.
pub enum Given {
    /// A prepared response.
    Prepared(Seq<u8>),
    /// What this backend answered.
    Backend(usize),
}

/// The answer that is given to a request without asking a backend.
pub open spec fn ready_given() -> Given {
    Given::Prepared(ascii(READY_OK_RESPONSE@))
}

/// The answer that is given where no backend answered.
pub open spec fn gateway_given() -> Given {
    Given::Prepared(ascii(BAD_GATEWAY_RESPONSE@))
}

/// The answer that is given to what is no request, or was cut off.
pub open spec fn refusal_given(left: Seq<u8>) -> Given {
    Given::Prepared(
        refusal_response(
            match outcome(left) {
                Err(why) => why,
                Ok(_) => Refusal::BadRequest,
            },
        ),
    )
}

/// The answer that is given in a step, if one is.
pub open spec fn gives(step: Step<'_>) -> Seq<Given> {
    match (step.action, step.after.stage) {
        (Action::Write(response), _) => seq![Given::Prepared(response@)],
        (Action::Reply, Stage::Replying(_, backend)) => seq![Given::Backend(backend)],
        _ => seq![],
    }
}

/// The answers that were given in a run, in order.
pub open spec fn given(run: Seq<Step<'_>>) -> Seq<Given>
    decreases run.len(),
{
    if run.len() == 0 {
        seq![]
    } else {
        given(run.drop_last()) + gives(run.last())
    }
}

/// A request that was answered.
pub struct Answered {
    pub request: ParsedRequest,
    pub given: Given,
}

/// The request that a step is done with, if it is done with one.
pub open spec fn answers(step: Step<'_>) -> Seq<Answered> {
    match (step.before.stage, step.event) {
        (Stage::Answering(request), Event::Written { .. }) => seq![
            Answered { request, given: ready_given() },
        ],
        (Stage::Replying(request, backend), Event::Written { .. }) => seq![
            Answered { request, given: Given::Backend(backend) },
        ],
        (Stage::Apologizing(request, _), Event::Written { .. }) => seq![
            Answered { request, given: gateway_given() },
        ],
        _ => seq![],
    }
}

/// The requests that were answered in a run, in order.
pub open spec fn answered(run: Seq<Step<'_>>) -> Seq<Answered>
    decreases run.len(),
{
    if run.len() == 0 {
        seq![]
    } else {
        answered(run.drop_last()) + answers(run.last())
    }
}

/// The answers to requests.
pub open spec fn answers_to(done: Seq<Answered>) -> Seq<Given> {
    done.map_values(|item: Answered| item.given)
}

/// The length of requests that stand one behind the other.
pub open spec fn total_length(done: Seq<Answered>) -> int
    decreases done.len(),
{
    if done.len() == 0 {
        0
    } else {
        total_length(done.drop_last()) + done.last().request.total_len
    }
}

/// The client stays behind an answer: its request did not ask to close, and a backend was there.
pub open spec fn stays(item: Answered) -> bool {
    !item.request.close_after_response && item.given != gateway_given()
}

/// The requests stand one behind the other at the start of the bytes; behind each of them but the
/// last the client stays. Those that need no backend are answered without one, the others by a
/// backend or with the apology that none was there.
pub open spec fn are_successive(
    bytes: Seq<u8>,
    done: Seq<Answered>,
    protocol: UpstreamProtocol,
) -> bool
    decreases done.len(),
{
    done.len() > 0 ==> {
        let rest = bytes.skip(total_length(done.drop_last()));
        let last = done.last();
        &&& are_successive(bytes, done.drop_last(), protocol)
        &&& done.len() > 1 ==> stays(done.drop_last().last())
        &&& 0 <= total_length(done.drop_last()) <= bytes.len()
        &&& outcome(rest) == Ok::<Option<ParsedRequest>, Refusal>(Some(last.request))
        &&& if is_local(protocol, last.request) {
            last.given == ready_given()
        } else {
            last.given is Backend || last.given == gateway_given()
        }
    }
}

/// The answer that is being written.
pub open spec fn under_way(client: Client) -> Seq<Given> {
    match client.stage {
        Stage::Answering(_) => seq![ready_given()],
        Stage::Replying(_, backend) => seq![Given::Backend(backend)],
        Stage::Apologizing(_, _) => seq![gateway_given()],
        Stage::Refusing => seq![refusal_given(client.read_buf@)],
        _ => seq![],
    }
}

/// What may be given to the bytes that are left: its answer to a request, and a refusal to anything
/// else.
pub open spec fn may_be_given(left: Seq<u8>, protocol: UpstreamProtocol, given: Given) -> bool {
    match outcome(left) {
        Ok(Some(request)) => if is_local(protocol, request) {
            given == ready_given()
        } else {
            given is Backend || given == gateway_given()
        },
        _ => given == refusal_given(left),
    }
}

/// One answer was given to each request that was answered, and one is being written; at the end
/// there may be one that was not written in full, or a refusal.
pub open spec fn one_answer_each(
    client: Client,
    done: Seq<Answered>,
    given: Seq<Given>,
    protocol: UpstreamProtocol,
) -> bool {
    if client.stage is Over {
        ||| given == answers_to(done)
        ||| {
            &&& given.len() == done.len() + 1
            &&& given.drop_last() == answers_to(done)
            &&& may_be_given(client.read_buf@, protocol, given.last())
        }
    } else {
        given == answers_to(done) + under_way(client)
    }
}

/// What a client waits for fits what has arrived.
spec fn is_in_order(client: Client, protocol: UpstreamProtocol) -> bool {
    let found = outcome(client.read_buf@);
    match client.stage {
        Stage::Starting | Stage::Over => true,
        Stage::Refusing => !(found matches Ok(Some(_))),
        Stage::Reading => found == Ok::<Option<ParsedRequest>, Refusal>(None),
        Stage::Answering(request) => found == Ok::<Option<ParsedRequest>, Refusal>(Some(request))
            && is_local(protocol, request),
        Stage::Forwarding(request, _)
        | Stage::Replying(request, _)
        | Stage::Apologizing(request, _) => found == Ok::<Option<ParsedRequest>, Refusal>(
            Some(request),
        ) && !is_local(protocol, request),
    }
}

/// What holds of a client behind a run.
spec fn is_kept(
    client: Client,
    bytes: Seq<u8>,
    done: Seq<Answered>,
    given: Seq<Given>,
    protocol: UpstreamProtocol,
) -> bool {
    &&& 0 <= total_length(done) <= bytes.len()
    &&& client.read_buf@ == bytes.skip(total_length(done))
    &&& are_successive(bytes, done, protocol)
    &&& one_answer_each(client, done, given, protocol)
    &&& is_in_order(client, protocol)
    &&& !(client.stage is Over) && done.len() > 0 ==> stays(done.last())
}

/// A request at the start of the bytes is there still when more bytes arrive.
proof fn lemma_request_stays(bytes: Seq<u8>, more: Seq<u8>)
    requires
        outcome(bytes) matches Ok(Some(_)),
    ensures
        outcome(bytes + more) == outcome(bytes),
{
    lemma_index_from(bytes, head_mark(), 0);
    law_complete_head_decides(bytes, more, |header: Seq<u8>| client_head(header));
}

/// Requests at the start of the bytes are there still when more bytes arrive.
proof fn lemma_successive_stay(
    bytes: Seq<u8>,
    more: Seq<u8>,
    done: Seq<Answered>,
    protocol: UpstreamProtocol,
)
    requires
        are_successive(bytes, done, protocol),
    ensures
        are_successive(bytes + more, done, protocol),
    decreases done.len(),
{
    if done.len() > 0 {
        let rest = bytes.skip(total_length(done.drop_last()));
        lemma_successive_stay(bytes, more, done.drop_last(), protocol);
        lemma_request_stays(rest, more);
        assert((bytes + more).skip(total_length(done.drop_last())) =~= rest + more);
    }
}

/// A step that is done with a request.
proof fn lemma_finishing_keeps(
    step: Step<'_>,
    item: Answered,
    bytes: Seq<u8>,
    done: Seq<Answered>,
    given: Seq<Given>,
    protocol: UpstreamProtocol,
)
    requires
        is_step(step, protocol),
        is_kept(step.before, bytes, done, given, protocol),
        answers(step) == seq![item],
    ensures
        is_kept(step.after, bytes, done + answers(step), given, protocol),
        step.action is Finish,
{
    let all = done + answers(step);
    reveal_strlit("HTTP/1.1 200 OK\r\nContent-Length: 0\r\nConnection: keep-alive\r\n\r\n");
    reveal_strlit("HTTP/1.1 502 Bad Gateway\r\nContent-Length: 0\r\nConnection: close\r\n\r\n");
    assert(ready_given() != gateway_given()) by {
        assert(ascii(READY_OK_RESPONSE@)[9] != ascii(BAD_GATEWAY_RESPONSE@)[9]);
    }
    law_read_request_is_within_bounds(
        step.before.read_buf@,
        |header: Seq<u8>| client_head(header),
    );
    assert(all.drop_last() =~= done);
    assert(all.last() == item);
    assert(answers_to(all) =~= answers_to(done) + under_way(step.before));
    assert(answers_to(all) + Seq::<Given>::empty() =~= answers_to(all));
    assert(step.after.read_buf@ =~= bytes.skip(total_length(all)));
}

/// A step in which bytes arrive.
proof fn lemma_receiving_keeps(
    step: Step<'_>,
    bytes: Seq<u8>,
    done: Seq<Answered>,
    given: Seq<Given>,
    protocol: UpstreamProtocol,
)
    requires
        is_step(step, protocol),
        is_kept(step.before, bytes, done, given, protocol),
        step.before.stage is Reading,
        step.event is Received,
    ensures
        is_kept(step.after, bytes + arrives(step), done, given + gives(step), protocol),
{
    let more = arrives(step);
    lemma_successive_stay(bytes, more, done, protocol);
    assert((bytes + more).skip(total_length(done)) =~= bytes.skip(total_length(done)) + more);
    assert(answers_to(done) + Seq::<Given>::empty() =~= answers_to(done));
    assert(given =~= answers_to(done));
    assert(gives(step) =~= under_way(step.after));
}

/// A step keeps what holds of a client.
proof fn lemma_step_keeps(
    step: Step<'_>,
    bytes: Seq<u8>,
    done: Seq<Answered>,
    given: Seq<Given>,
    protocol: UpstreamProtocol,
)
    requires
        is_step(step, protocol),
        is_kept(step.before, bytes, done, given, protocol),
    ensures
        is_kept(
            step.after,
            bytes + arrives(step),
            done + answers(step),
            given + gives(step),
            protocol,
        ),
{
    let client = step.before;
    assert(bytes + Seq::<u8>::empty() =~= bytes);
    assert(done + Seq::<Answered>::empty() =~= done);
    assert(given + Seq::<Given>::empty() =~= given);
    assert(answers_to(done) + Seq::<Given>::empty() =~= answers_to(done));
    if under_way(client).len() == 1 {
        assert(given.drop_last() =~= answers_to(done));
        assert(given.last() == under_way(client)[0]);
    }
    match (client.stage, step.event) {
        (Stage::Reading, Event::Received(_, _)) => {
            lemma_receiving_keeps(step, bytes, done, given, protocol);
        },
        (Stage::Answering(_), Event::Written { .. })
        | (Stage::Replying(_, _), Event::Written { .. })
        | (Stage::Apologizing(_, _), Event::Written { .. }) => {
            lemma_finishing_keeps(step, answers(step)[0], bytes, done, given, protocol);
        },
        (Stage::Starting, Event::Started { .. }) => {
            assert(gives(step) =~= under_way(step.after));
        },
        (Stage::Reading, Event::Closed) | (Stage::Reading, Event::ReadFailed) => {
            if step.after.stage is Refusing {
                assert(gives(step) =~= under_way(step.after));
            }
        },
        (Stage::Forwarding(_, _), Event::Forwarded(_))
        | (Stage::Forwarding(_, _), Event::NotForwarded) => {
            assert(gives(step) =~= under_way(step.after));
        },
        _ => {},
    }
}

/// What holds of a client behind its run.
proof fn lemma_run_keeps(run: Seq<Step<'_>>, protocol: UpstreamProtocol)
    requires
        is_run(run, protocol),
        run.len() > 0,
    ensures
        is_kept(run.last().after, arrived(run), answered(run), given(run), protocol),
    decreases run.len(),
{
    let earlier = run.drop_last();
    if run.len() == 1 {
        assert(Seq::<u8>::empty().skip(0) =~= Seq::<u8>::empty());
        assert(answers_to(Seq::<Answered>::empty()) + Seq::<Given>::empty() =~= Seq::<
            Given,
        >::empty());
    } else {
        lemma_run_keeps(earlier, protocol);
    }
    lemma_step_keeps(run.last(), arrived(earlier), answered(earlier), given(earlier), protocol);
}

/// The requests of a client are answered in order, with one answer each: those that were answered
/// are the first ones of the bytes that have arrived, and the read buffer holds the bytes behind
/// them. Whenever the client is read from, no request that has arrived in full is left; and while it
/// is not over, it stays behind each request that was answered.
pub proof fn law_each_request_gets_one_answer(run: Seq<Step<'_>>, protocol: UpstreamProtocol)
    requires
        is_run(run, protocol),
        run.len() > 0,
    ensures
        are_successive(arrived(run), answered(run), protocol),
        0 <= total_length(answered(run)) <= arrived(run).len(),
        run.last().after.read_buf@ == arrived(run).skip(total_length(answered(run))),
        one_answer_each(run.last().after, answered(run), given(run), protocol),
        run.last().after.stage is Reading ==> outcome(run.last().after.read_buf@) == Ok::<
            Option<ParsedRequest>,
            Refusal,
        >(None),
        !(run.last().after.stage is Over) && answered(run).len() > 0 ==> stays(
            answered(run).last(),
        ),
{
    lemma_run_keeps(run, protocol);
}

/// A request that was answered finishes once: with the step behind which it was answered, and
/// closes the client exactly where the client does not stay.
pub proof fn law_answered_requests_finish(step: Step<'_>, protocol: UpstreamProtocol)
    requires
        is_step(step, protocol),
    ensures
        answers(step).len() == 1 <==> step.action is Finish,
        step.action matches Action::Finish { ok, close } ==> ok == (answers(step)[0].given
            != gateway_given()) && close == !stays(answers(step)[0]) && close
            == step.after.stage is Over,
{
    reveal_strlit("HTTP/1.1 200 OK\r\nContent-Length: 0\r\nConnection: keep-alive\r\n\r\n");
    reveal_strlit("HTTP/1.1 502 Bad Gateway\r\nContent-Length: 0\r\nConnection: close\r\n\r\n");
    assert(ready_given() != gateway_given()) by {
        assert(ascii(READY_OK_RESPONSE@)[9] != ascii(BAD_GATEWAY_RESPONSE@)[9]);
    }
}

/// Nothing follows the end of a client: it closes, takes in nothing and is given nothing.
pub proof fn law_nothing_follows_the_end(run: Seq<Step<'_>>, protocol: UpstreamProtocol)
    requires
        is_run(run, protocol),
        run.len() > 1,
        run.drop_last().last().after.stage is Over,
    ensures
        run.last().action is Close,
        run.last().after.stage is Over,
        run.last().after.read_buf@ == run.drop_last().last().after.read_buf@,
        arrived(run) == arrived(run.drop_last()),
        answered(run) == answered(run.drop_last()),
        given(run) == given(run.drop_last()),
{
}

} // verus!
