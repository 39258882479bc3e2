//! A connection of the ring over time: the requests that arrive one behind the other are answered
//! one after the other.
use vstd::prelude::*;

use crate::handoff::{handoff_outcome, law_more_bytes_change_nothing, law_request_is_within_bounds};
use crate::head::{refusal_response, Refusal, Route};
use crate::inbox::{is_next, Next, HANDOFF_BUFFER_BYTES};
use crate::request::ParsedRequest;
use crate::serving::{are_successive, lemma_successive_stay, responses, total_length, Served};
use crate::uring::{
    advances, is_filled, is_partial, is_received, multi_steps, recv_steps, send_steps, sends, taken,
    without_pending, Conn, MultiStep, Op,
};

verus! {

/// What completed.
pub enum Completion {
    /// A receive, with its result.
    Recv(i32),
    /// A receive where bytes arrive by themselves, with its result, the buffer it filled and what
    /// it filled it with, and whether it goes on.
    RecvMulti { res: i32, bid: Option<u16>, more: bool, chunk: Seq<u8> },
    /// A send, with its result.
    Send(i32),
    /// Anything that was under way when the connection was closed, with the buffer it filled.
    Late(Option<u16>),
}

/// One step of a connection.
pub struct Step {
    pub before: Conn,
    pub completion: Completion,
    pub after: Conn,
    /// What is done behind the completion; without bytes that arrive by themselves, only the
    /// operation is.
    pub done: MultiStep,
}

/// The connection is closed behind the step.
pub open spec fn closes(step: Step) -> bool {
    step.done.close || step.done.op is Close
}

/// A step of a connection: what completed was under way, and `score` says which response a body may
/// get on a route.
pub open spec fn is_step(
    step: Step,
    multi: bool,
    score: spec_fn(Seq<u8>, Route, Seq<u8>) -> bool,
) -> bool {
    let conn = step.before;
    &&& conn.well_formed()
    &&& step.after.well_formed()
    &&& match step.completion {
        Completion::Recv(res) => {
            &&& !multi && conn.recv_armed
            &&& res > 0 ==> conn.inbox.len + res <= HANDOFF_BUFFER_BYTES
            &&& recv_steps(score, conn, res, step.after, step.done.op)
            &&& !step.done.close
        },
        Completion::RecvMulti { res, bid, more, chunk } => {
            &&& multi
            &&& multi_steps(score, conn, res, bid, more, chunk, step.after, step.done)
        },
        Completion::Send(res) => {
            &&& conn.pending matches Some((data, off)) && (res > 0 ==> off + res <= data@.len())
            &&& send_steps(score, conn, res, step.after, step.done.op, !multi)
            &&& !step.done.close
        },
        Completion::Late(_) => false,
    }
}

/// A step behind the end of a connection: of what completes only the buffer is handed back.
pub open spec fn is_late(step: Step) -> bool {
    &&& step.completion matches Completion::Late(bid)
    &&& step.after == step.before
    &&& step.done.publish == bid
    &&& step.done.op is Nothing
    &&& !step.done.rearm
    &&& !step.done.close
}

/// The connection is as it was left, but for the room behind the bytes that have arrived, into
/// which the socket is read.
pub open spec fn goes_on_from(left: Conn, conn: Conn) -> bool {
    &&& conn.inbox@ == left.inbox@
    &&& conn.pending == left.pending
    &&& conn.close_after == left.close_after
    &&& conn.recv_armed == left.recv_armed
}

/// A new connection: a receive is under way, or bytes arrive by themselves.
pub open spec fn is_fresh(conn: Conn, multi: bool) -> bool {
    &&& conn.inbox@ == Seq::<u8>::empty()
    &&& conn.pending is None
    &&& !conn.close_after
    &&& conn.recv_armed == !multi
}

/// The connection was closed in a run.
pub open spec fn is_closed(run: Seq<Step>) -> bool
    decreases run.len(),
{
    run.len() > 0 && (closes(run.last()) || is_closed(run.drop_last()))
}

/// The steps of a connection from its start on; behind the one that closes it, whatever completes
/// comes late.
pub open spec fn is_run(
    run: Seq<Step>,
    multi: bool,
    score: spec_fn(Seq<u8>, Route, Seq<u8>) -> bool,
) -> bool
    decreases run.len(),
{
    run.len() > 0 ==> {
        &&& is_run(run.drop_last(), multi, score)
        &&& if is_closed(run.drop_last()) {
            is_late(run.last())
        } else {
            is_step(run.last(), multi, score)
        }
        &&& if run.len() == 1 {
            is_fresh(run.last().before, multi)
        } else {
            goes_on_from(run.drop_last().last().after, run.last().before)
        }
    }
}

/// The bytes that a connection takes in in a step.
pub open spec fn arrives(step: Step) -> Seq<u8> {
    let inbox = step.before.inbox;
    match step.completion {
        Completion::Recv(res) => if res > 0 {
            inbox.buf@.subrange(inbox.len as int, inbox.len + res)
        } else {
            seq![]
        },
        Completion::RecvMulti { res, bid, chunk, .. } => if res > 0 && bid is Some {
            taken(inbox@, chunk).skip(inbox@.len() as int)
        } else {
            seq![]
        },
        Completion::Send(_) | Completion::Late(_) => seq![],
    }
}

/// The bytes that a connection has taken in in a run.
pub open spec fn arrived(run: Seq<Step>) -> Seq<u8>
    decreases run.len(),
{
    if run.len() == 0 {
        seq![]
    } else {
        arrived(run.drop_last()) + arrives(run.last())
    }
}

/// The connection goes on to the next request in a step.
pub open spec fn goes_on(step: Step) -> bool {
    match step.completion {
        Completion::Recv(res) => res > 0,
        Completion::RecvMulti { res, .. } => res > 0 && step.before.pending is None,
        Completion::Send(res) => res > 0 && !is_partial(step.before, res as int)
            && !step.before.close_after,
        Completion::Late(_) => false,
    }
}

/// The request that a connection takes up with these bytes, and the response that it starts to
/// send.
pub open spec fn takes_up(bytes: Seq<u8>, op: Op) -> Seq<Served> {
    match (handoff_outcome(bytes), op) {
        (Ok(Some(request)), Op::Send(data, _)) => seq![
            Served {
                request,
                body: bytes.subrange(request.header_len as int, request.total_len as int),
                response: data@,
            },
        ],
        _ => seq![],
    }
}

/// The request that is taken up in a step, if one is.
pub open spec fn serves(step: Step) -> Seq<Served> {
    if goes_on(step) {
        takes_up(step.before.inbox@ + arrives(step), step.done.op)
    } else {
        seq![]
    }
}

/// The requests that were taken up in a run, in order.
pub open spec fn served(run: Seq<Step>) -> Seq<Served>
    decreases run.len(),
{
    if run.len() == 0 {
        seq![]
    } else {
        served(run.drop_last()) + serves(run.last())
    }
}

/// The bytes that the socket takes in a step.
pub open spec fn writes(step: Step) -> Seq<u8> {
    match (step.completion, step.before.pending) {
        (Completion::Send(res), Some((data, off))) => if res > 0 {
            data@.subrange(off as int, off + res)
        } else {
            seq![]
        },
        _ => seq![],
    }
}

/// The bytes that the socket has taken in a run.
pub open spec fn written(run: Seq<Step>) -> Seq<u8>
    decreases run.len(),
{
    if run.len() == 0 {
        seq![]
    } else {
        written(run.drop_last()) + writes(run.last())
    }
}

/// What is left to send.
pub open spec fn held_back(conn: Conn) -> Seq<u8> {
    match conn.pending {
        Some((data, off)) => data@.skip(off as int),
        None => seq![],
    }
}

/// The bytes that were sent and what is left to send are the responses, or the responses and behind
/// them the refusal of what is left in the inbox.
pub open spec fn sent_responses(conn: Conn, served: Seq<Served>, written: Seq<u8>) -> bool {
    ||| written + held_back(conn) == responses(served)
    ||| {
        &&& conn.close_after
        &&& handoff_outcome(conn.inbox@) is Err
        &&& written + held_back(conn) == responses(served) + refusal_response(
            handoff_outcome(conn.inbox@)->Err_0,
        )
    }
}

/// What holds of a connection while it is open.
spec fn is_in_order(conn: Conn, served: Seq<Served>, written: Seq<u8>) -> bool {
    &&& conn.pending is None ==> {
        &&& handoff_outcome(conn.inbox@) == Ok::<Option<ParsedRequest>, Refusal>(None)
        &&& !conn.close_after
    }
    &&& conn.recv_armed ==> conn.pending is None
    &&& !conn.close_after ==> {
        &&& written + held_back(conn) == responses(served)
        &&& served.len() > 0 ==> !served.last().request.close_after_response
    }
}

/// What holds of a connection behind a run.
spec fn is_kept(
    conn: Conn,
    open: bool,
    bytes: Seq<u8>,
    served: Seq<Served>,
    written: Seq<u8>,
    score: spec_fn(Seq<u8>, Route, Seq<u8>) -> bool,
) -> bool {
    &&& 0 <= total_length(served) <= bytes.len()
    &&& conn.inbox@ == bytes.skip(total_length(served))
    &&& are_successive(bytes, served, score)
    &&& sent_responses(conn, served, written)
    &&& open ==> is_in_order(conn, served, written)
}

/// A connection with nothing to send goes on to the next request.
proof fn lemma_advancing_keeps(
    conn: Conn,
    after: Conn,
    op: Op,
    receive: bool,
    bytes: Seq<u8>,
    served: Seq<Served>,
    written: Seq<u8>,
    score: spec_fn(Seq<u8>, Route, Seq<u8>) -> bool,
)
    requires
        advances(score, conn, after, op, receive),
        conn.pending is None,
        !conn.close_after,
        !conn.recv_armed,
        0 <= total_length(served) <= bytes.len(),
        conn.inbox@ == bytes.skip(total_length(served)),
        are_successive(bytes, served, score),
        written == responses(served),
        served.len() > 0 ==> !served.last().request.close_after_response,
    ensures
        is_kept(after, true, bytes, served + takes_up(conn.inbox@, op), written, score),
        !(op is Close),
{
    let next = choose|next: Next| #[trigger]
        is_next(conn.inbox@, next) && match next {
            Next::Wait => {
                &&& after.inbox == conn.inbox
                &&& after.pending == conn.pending
                &&& after.close_after == conn.close_after
                &&& if receive {
                    op is Receive && after.recv_armed
                } else {
                    op is Nothing && after.recv_armed == conn.recv_armed
                }
            },
            Next::Serve(request) => {
                &&& after.inbox@ == conn.inbox@.skip(request.total_len as int)
                &&& exists|response: Seq<u8>|
                    #![trigger sends(conn, response, request.close_after_response, after, op)]
                    score(
                        conn.inbox@.subrange(
                            request.header_len as int,
                            request.total_len as int,
                        ),
                        request.route,
                        response,
                    ) && sends(conn, response, request.close_after_response, after, op)
            },
            Next::Refuse(response) => {
                &&& after.inbox == conn.inbox
                &&& sends(conn, response@, true, after, op)
            },
        };
    let up = takes_up(conn.inbox@, op);
    let all = served + up;
    match next {
        Next::Wait => {
            assert(all =~= served);
            assert(written + held_back(after) =~= responses(served));
        },
        Next::Serve(request) => {
            law_request_is_within_bounds(conn.inbox@);
            let item = up[0];
            assert(all.drop_last() =~= served);
            assert(all.last() == item);
            assert(item.response.skip(0) =~= item.response);
            assert(written + held_back(after) =~= responses(all));
            assert(after.inbox@ =~= bytes.skip(total_length(all)));
        },
        Next::Refuse(response) => {
            assert(all =~= served);
            assert(response@.skip(0) =~= response@);
            assert(written + held_back(after) =~= responses(served) + response@);
        },
    }
}

/// A step in which a receive completes.
proof fn lemma_receiving_keeps(
    step: Step,
    res: i32,
    bytes: Seq<u8>,
    served: Seq<Served>,
    written: Seq<u8>,
    score: spec_fn(Seq<u8>, Route, Seq<u8>) -> bool,
)
    requires
        is_step(step, false, score),
        is_kept(step.before, true, bytes, served, written, score),
        step.completion == Completion::Recv(res),
    ensures
        is_kept(
            step.after,
            !closes(step),
            bytes + arrives(step),
            served + serves(step),
            written,
            score,
        ),
{
    let conn = step.before;
    let more = arrives(step);
    assert(served + Seq::<Served>::empty() =~= served);
    if res > 0 {
        let filled = choose|filled: Conn| #[trigger]
            is_received(conn, res as int, filled) && advances(
                score,
                filled,
                step.after,
                step.done.op,
                true,
            );
        assert(filled.inbox@ =~= conn.inbox@ + more);
        lemma_successive_stay(bytes, more, served, score);
        assert((bytes + more).skip(total_length(served)) =~= conn.inbox@ + more);
        assert(written + held_back(conn) =~= written);
        lemma_advancing_keeps(
            filled,
            step.after,
            step.done.op,
            true,
            bytes + more,
            served,
            written,
            score,
        );
    } else {
        assert(bytes + more =~= bytes);
    }
}

/// A step in which a send completes.
proof fn lemma_sending_keeps(
    step: Step,
    res: i32,
    multi: bool,
    bytes: Seq<u8>,
    served: Seq<Served>,
    written: Seq<u8>,
    score: spec_fn(Seq<u8>, Route, Seq<u8>) -> bool,
)
    requires
        is_step(step, multi, score),
        is_kept(step.before, true, bytes, served, written, score),
        step.completion == Completion::Send(res),
    ensures
        is_kept(
            step.after,
            !closes(step),
            bytes,
            served + serves(step),
            written + writes(step),
            score,
        ),
{
    let conn = step.before;
    let more = writes(step);
    let (data, off) = conn.pending->0;
    assert(served + Seq::<Served>::empty() =~= served);
    if res <= 0 {
        assert(written + more =~= written);
    } else if is_partial(conn, res as int) {
        assert(data.len() == data@.len());
        assert(held_back(step.after) == data@.skip(off + res));
        assert(more + data@.skip(off + res) =~= data@.skip(off as int));
        assert((written + more) + data@.skip(off + res) =~= written + (more + data@.skip(
            off + res,
        )));
    } else {
        assert(more =~= data@.skip(off as int));
        if conn.close_after {
            assert((written + more) + held_back(step.after) =~= written + held_back(conn));
        } else {
            let free = choose|free: Conn| #[trigger]
                without_pending(conn, free) && advances(
                    score,
                    free,
                    step.after,
                    step.done.op,
                    !multi,
                );
            assert(conn.inbox@ + arrives(step) =~= conn.inbox@);
            lemma_advancing_keeps(
                free,
                step.after,
                step.done.op,
                !multi,
                bytes,
                served,
                written + more,
                score,
            );
        }
    }
}

/// A step in which a receive completes, where bytes arrive by themselves.
proof fn lemma_taking_in_keeps(
    step: Step,
    bytes: Seq<u8>,
    served: Seq<Served>,
    written: Seq<u8>,
    score: spec_fn(Seq<u8>, Route, Seq<u8>) -> bool,
)
    requires
        is_step(step, true, score),
        is_kept(step.before, true, bytes, served, written, score),
        step.completion is RecvMulti,
        !step.before.recv_armed,
    ensures
        is_kept(
            step.after,
            !closes(step),
            bytes + arrives(step),
            served + serves(step),
            written,
            score,
        ),
        !step.after.recv_armed,
{
    let conn = step.before;
    let more = arrives(step);
    let res = step.completion->res;
    let bid = step.completion->bid;
    let chunk = step.completion->chunk;
    assert(served + Seq::<Served>::empty() =~= served);
    if res > 0 {
        let filled = choose|filled: Conn| #[trigger]
            is_filled(conn, bid, chunk, filled) && if filled.pending is Some {
                step.done.op is Nothing && step.after == filled
            } else {
                advances(score, filled, step.after, step.done.op, false)
            };
        assert(filled.inbox@ =~= conn.inbox@ + more);
        lemma_successive_stay(bytes, more, served, score);
        assert((bytes + more).skip(total_length(served)) =~= conn.inbox@ + more);
        if conn.pending is None {
            assert(written + held_back(conn) =~= written);
            lemma_advancing_keeps(
                filled,
                step.after,
                step.done.op,
                false,
                bytes + more,
                served,
                written,
                score,
            );
            lemma_stays_unarmed(filled, step.after, step.done.op, score);
        } else if handoff_outcome(conn.inbox@) is Err {
            law_more_bytes_change_nothing(conn.inbox@, more);
        }
    } else {
        assert(bytes + more =~= bytes);
    }
}

/// No receive is started where bytes arrive by themselves.
proof fn lemma_stays_unarmed(
    conn: Conn,
    after: Conn,
    op: Op,
    score: spec_fn(Seq<u8>, Route, Seq<u8>) -> bool,
)
    requires
        advances(score, conn, after, op, false),
    ensures
        after.recv_armed == conn.recv_armed,
{
}

/// A step keeps what holds of a connection.
proof fn lemma_step_keeps(
    step: Step,
    multi: bool,
    bytes: Seq<u8>,
    served: Seq<Served>,
    written: Seq<u8>,
    score: spec_fn(Seq<u8>, Route, Seq<u8>) -> bool,
)
    requires
        is_step(step, multi, score),
        is_kept(step.before, true, bytes, served, written, score),
        multi ==> !step.before.recv_armed,
    ensures
        is_kept(
            step.after,
            !closes(step),
            bytes + arrives(step),
            served + serves(step),
            written + writes(step),
            score,
        ),
        multi ==> !step.after.recv_armed,
{
    assert(bytes + Seq::<u8>::empty() =~= bytes);
    assert(written + Seq::<u8>::empty() =~= written);
    match step.completion {
        Completion::Recv(res) => {
            lemma_receiving_keeps(step, res, bytes, served, written, score);
        },
        Completion::RecvMulti { .. } => {
            lemma_taking_in_keeps(step, bytes, served, written, score);
        },
        Completion::Send(res) => {
            lemma_sending_keeps(step, res, multi, bytes, served, written, score);
            if multi && goes_on(step) {
                let free = choose|free: Conn| #[trigger]
                    without_pending(step.before, free) && advances(
                        score,
                        free,
                        step.after,
                        step.done.op,
                        false,
                    );
                lemma_stays_unarmed(free, step.after, step.done.op, score);
            }
        },
        Completion::Late(_) => {},
    }
}

/// What holds of a connection behind its run.
proof fn lemma_run_keeps(
    run: Seq<Step>,
    multi: bool,
    score: spec_fn(Seq<u8>, Route, Seq<u8>) -> bool,
)
    requires
        is_run(run, multi, score),
        run.len() > 0,
    ensures
        is_kept(
            run.last().after,
            !is_closed(run),
            arrived(run),
            served(run),
            written(run),
            score,
        ),
        multi ==> !run.last().after.recv_armed,
    decreases run.len(),
{
    let earlier = run.drop_last();
    if run.len() == 1 {
        assert(earlier =~= Seq::<Step>::empty());
        assert(Seq::<u8>::empty().skip(0) =~= Seq::<u8>::empty());
        assert(Seq::<u8>::empty() + Seq::<u8>::empty() =~= Seq::<u8>::empty());
    } else {
        lemma_run_keeps(earlier, multi, score);
    }
    if is_closed(earlier) {
        lemma_late_changes_nothing(run, multi, score);
    } else {
        lemma_step_keeps(
            run.last(),
            multi,
            arrived(earlier),
            served(earlier),
            written(earlier),
            score,
        );
    }
}

/// What completes late changes nothing.
proof fn lemma_late_changes_nothing(
    run: Seq<Step>,
    multi: bool,
    score: spec_fn(Seq<u8>, Route, Seq<u8>) -> bool,
)
    requires
        is_run(run, multi, score),
        is_closed(run.drop_last()),
        run.len() > 1,
    ensures
        arrived(run) == arrived(run.drop_last()),
        served(run) == served(run.drop_last()),
        written(run) == written(run.drop_last()),
        goes_on_from(run.drop_last().last().after, run.last().after),
        is_closed(run),
{
    assert(arrived(run) =~= arrived(run.drop_last()));
    assert(served(run) =~= served(run.drop_last()));
    assert(written(run) =~= written(run.drop_last()));
}

/// The requests that a connection of the ring takes in are answered in order, each with a response
/// that its body may get: those that were taken up are the first ones of the bytes, the inbox holds
/// the bytes behind them, and what was sent and is left to send is their responses, one behind the
/// other, and at most a refusal behind them. While nothing is left to send, no request that has
/// arrived in full is left. Behind a request that asked to close, or a refusal, the connection sends
/// nothing else: it is closed, or the response is still being sent.
pub proof fn law_ring_answers_in_order(
    run: Seq<Step>,
    multi: bool,
    score: spec_fn(Seq<u8>, Route, Seq<u8>) -> bool,
)
    requires
        is_run(run, multi, score),
        run.len() > 0,
    ensures
        are_successive(arrived(run), served(run), score),
        0 <= total_length(served(run)) <= arrived(run).len(),
        run.last().after.inbox@ == arrived(run).skip(total_length(served(run))),
        sent_responses(run.last().after, served(run), written(run)),
        !is_closed(run) && run.last().after.pending is None ==> handoff_outcome(
            run.last().after.inbox@,
        ) == Ok::<Option<ParsedRequest>, Refusal>(None),
        !is_closed(run) && (served(run).len() > 0
            && served(run).last().request.close_after_response || written(run) + held_back(
            run.last().after,
        ) != responses(served(run))) ==> run.last().after.close_after
            && run.last().after.pending is Some,
{
    lemma_run_keeps(run, multi, score);
}

/// Nothing follows the end of a connection of the ring: whatever completes then, nothing is
/// submitted, taken in or sent, and the buffer that was filled is handed back.
pub proof fn law_nothing_follows_a_close(
    run: Seq<Step>,
    multi: bool,
    score: spec_fn(Seq<u8>, Route, Seq<u8>) -> bool,
)
    requires
        is_run(run, multi, score),
        run.len() > 1,
        is_closed(run.drop_last()),
    ensures
        is_closed(run),
        run.last().done.op is Nothing,
        !run.last().done.rearm,
        run.last().completion matches Completion::Late(bid) && run.last().done.publish == bid,
        run.last().after.inbox@ == run.drop_last().last().after.inbox@,
        arrived(run) == arrived(run.drop_last()),
        served(run) == served(run.drop_last()),
        written(run) == written(run.drop_last()),
{
    lemma_late_changes_nothing(run, multi, score);
}

} // verus!
