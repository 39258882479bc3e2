//! What a connection that was handed over does next.
use vstd::prelude::*;

use crate::bytes::ascii;
use crate::epoll::{steps, Action, Conn, Event, Stage, WriteState};
use crate::handoff::handoff_outcome;
use crate::head::{Refusal, Route};
use crate::uring;

verus! {

/// Whenever a connection of the event loop is free to go on, the bytes that have arrived say how: it
/// reads on where there is no request yet, scores the request that has arrived, and writes the
/// refusal of what can be none.
pub proof fn law_a_connection_does_what_its_bytes_say(
    old_conn: Conn,
    event: Event,
    conn: Conn,
    action: Action,
)
    requires
        steps(old_conn, event, conn, action),
        ({
            ||| old_conn.stage is Idle && event is Woken && old_conn.pending is None
            ||| old_conn.stage is Flushing && event == Event::Written(WriteState::Done)
                && !old_conn.close_after && !old_conn.want_out
            ||| old_conn.stage is WatchingIn && event == Event::Watched(true)
            ||| old_conn.stage is Reading && (event is Received || event is Interrupted)
            ||| (old_conn.stage matches Stage::Answering(request, _)
                && !request.close_after_response) && event == Event::Written(WriteState::Done)
        }),
    ensures
        match handoff_outcome(conn.inbox@) {
            Ok(None) => action is Read && conn.stage is Reading,
            Ok(Some(request)) => action == Action::Score(request) && conn.stage == Stage::Scoring(
                request,
            ),
            Err(why) => action matches Action::Write(response, off) && off == 0 && conn.stage
                == Stage::Refusing(response) && response@ == (match why {
                Refusal::BadRequest => ascii(
                    "HTTP/1.1 400 Bad Request\r\nContent-Length: 0\r\nConnection: close\r\n\r\n"@,
                ),
                Refusal::NotFound => ascii(
                    "HTTP/1.1 404 Not Found\r\nContent-Length: 0\r\nConnection: close\r\n\r\n"@,
                ),
                Refusal::MethodNotAllowed => ascii(
                    "HTTP/1.1 405 Method Not Allowed\r\nContent-Length: 0\r\nConnection: close\r\n\r\n"@,
                ),
                Refusal::PayloadTooLarge => ascii(
                    "HTTP/1.1 413 Payload Too Large\r\nContent-Length: 0\r\nConnection: close\r\n\r\n"@,
                ),
            }),
        },
        conn.pending is Some ==> old_conn.pending == conn.pending,
{
}

/// The bytes of a connection are those that have arrived and were not answered: what is received is
/// put behind them, a request leaves them once its answer is written, in part or in full, and nothing
/// else changes them.
pub proof fn law_a_connection_keeps_its_bytes(
    old_conn: Conn,
    event: Event,
    conn: Conn,
    action: Action,
)
    requires
        old_conn.well_formed(),
        steps(old_conn, event, conn, action),
    ensures
        match (old_conn.stage, event) {
            (Stage::Reading, Event::Received(count)) => old_conn.inbox.len + count <= 14336
                ==> conn.inbox@ == old_conn.inbox@ + old_conn.inbox.buf@.subrange(
                old_conn.inbox.len as int,
                old_conn.inbox.len + count,
            ),
            (Stage::Answering(request, _), Event::Written(WriteState::Done))
            | (Stage::Answering(request, _), Event::Written(WriteState::Pending(_))) =>
                conn.inbox@ == old_conn.inbox@.skip(request.total_len as int),
            _ => conn.inbox@ == old_conn.inbox@,
        },
{
    if let (Stage::Reading, Event::Received(count)) = (old_conn.stage, event) {
        if old_conn.inbox.len + count <= 14336 {
            assert(conn.inbox@ =~= old_conn.inbox@ + old_conn.inbox.buf@.subrange(
                old_conn.inbox.len as int,
                old_conn.inbox.len + count,
            ));
        }
    }
}

/// A response is written from its start on. Of one that the socket does not take in full the rest is
/// kept, from where the socket stopped; it is written when the socket wakes the connection, which
/// watches for room until then.
pub proof fn law_the_rest_of_a_response_is_kept(
    old_conn: Conn,
    event: Event,
    conn: Conn,
    action: Action,
)
    requires
        steps(old_conn, event, conn, action),
    ensures
        match (old_conn.stage, event) {
            (Stage::Scoring(request), Event::Scored(response)) => action == Action::Write(
                response,
                0,
            ) && conn.stage == Stage::Answering(request, response),
            (
                Stage::Answering(request, response),
                Event::Written(WriteState::Pending(off)),
            ) => {
                &&& conn.pending == Some((response, off))
                &&& conn.close_after == request.close_after_response
                &&& old_conn.want_out ==> action is Keep && conn.stage is Idle
                &&& !old_conn.want_out ==> action is WatchOut && conn.stage is WatchingOut
            },
            (Stage::WatchingOut, Event::Watched(true)) => {
                &&& conn.want_out
                &&& conn.pending == old_conn.pending
                &&& action is Keep
                &&& conn.stage is Idle
            },
            (Stage::Idle, Event::Woken) => old_conn.pending matches Some((response, off)) ==> {
                &&& action == Action::Write(response, off)
                &&& conn.stage == Stage::Flushing(response, off)
                &&& conn.pending is None
                &&& conn.close_after == old_conn.close_after
            },
            (Stage::Flushing(response, _), Event::Written(WriteState::Pending(off))) => {
                &&& conn.pending == Some((response, off))
                &&& conn.close_after == old_conn.close_after
                &&& action is Keep
                &&& conn.stage is Idle
            },
            (Stage::Flushing(_, _), Event::Written(WriteState::Done)) => old_conn.want_out
                && !old_conn.close_after ==> action is WatchIn && conn.stage is WatchingIn
                && conn.pending == old_conn.pending,
            (Stage::WatchingIn, Event::Watched(true)) => !conn.want_out,
            (Stage::Reading, Event::Drained) => action is Keep && conn.stage is Idle
                && conn.pending == old_conn.pending,
            _ => true,
        },
{
}

/// A connection closes behind a response to a request that asked for that, however many writes the
/// response took, and behind a refusal; and when its socket is lost, cannot be written or cannot be
/// watched. Otherwise it is not closed.
pub proof fn law_a_connection_closes_when_asked_to(
    old_conn: Conn,
    event: Event,
    conn: Conn,
    action: Action,
)
    requires
        steps(old_conn, event, conn, action),
    ensures
        (old_conn.stage matches Stage::Answering(request, _) && request.close_after_response)
            && event == Event::Written(WriteState::Done) ==> action is Close,
        old_conn.stage is Flushing && old_conn.close_after && event == Event::Written(
            WriteState::Done,
        ) ==> action is Close,
        old_conn.stage is Refusing || old_conn.stage is Over ==> action is Close,
        event is Lost || event == Event::Written(WriteState::Closed) || event == Event::Watched(
            false,
        ) ==> action is Close,
        action is Close <==> conn.stage is Over,
        action is Close ==> {
            ||| old_conn.stage is Refusing || old_conn.stage is Over || event is Lost || event
                == Event::Written(WriteState::Closed) || event == Event::Watched(false)
            ||| (old_conn.stage matches Stage::Answering(request, _)
                && request.close_after_response) && event == Event::Written(WriteState::Done)
            ||| old_conn.stage is Flushing && old_conn.close_after && event == Event::Written(
                WriteState::Done,
            )
            ||| old_conn.stage is Idle && !(event is Woken)
            ||| (old_conn.stage is Flushing || old_conn.stage is Answering) && !(event is Written)
            ||| (old_conn.stage is WatchingIn || old_conn.stage is WatchingOut) && !(
            event is Watched)
            ||| old_conn.stage is Reading && !(event is Received || event is Drained
                || event is Interrupted)
            ||| old_conn.stage is Scoring && !(event is Scored)
        },
{
}

/// A connection of the ring that is free to go on does what its bytes say: it receives on, or waits
/// where bytes arrive by themselves; it sends a response that the body of the request may get, and
/// the request leaves the bytes; or it sends the refusal of what can be no request, and closes behind
/// it.
pub proof fn law_a_ring_connection_does_what_its_bytes_say(
    score: spec_fn(Seq<u8>, Route, Seq<u8>) -> bool,
    old_conn: uring::Conn,
    conn: uring::Conn,
    op: uring::Op,
    receive: bool,
)
    requires
        uring::advances(score, old_conn, conn, op, receive),
    ensures
        match handoff_outcome(old_conn.inbox@) {
            Ok(None) => {
                &&& receive ==> op is Receive && conn.recv_armed
                &&& !receive ==> op is Nothing && conn.recv_armed == old_conn.recv_armed
                &&& conn.inbox@ == old_conn.inbox@
                &&& conn.pending == old_conn.pending
                &&& conn.close_after == old_conn.close_after
            },
            Ok(Some(request)) => {
                &&& op matches uring::Op::Send(response, off)
                &&& off == 0
                &&& score(
                    old_conn.inbox@.subrange(
                        request.header_len as int,
                        request.total_len as int,
                    ),
                    request.route,
                    response@,
                )
                &&& conn.pending == Some((response, 0usize))
                &&& conn.close_after == request.close_after_response
                &&& conn.inbox@ == old_conn.inbox@.skip(request.total_len as int)
            },
            Err(why) => {
                &&& op matches uring::Op::Send(response, off)
                &&& off == 0
                &&& response@ == (match why {
                    Refusal::BadRequest => ascii(
                        "HTTP/1.1 400 Bad Request\r\nContent-Length: 0\r\nConnection: close\r\n\r\n"@,
                    ),
                    Refusal::NotFound => ascii(
                        "HTTP/1.1 404 Not Found\r\nContent-Length: 0\r\nConnection: close\r\n\r\n"@,
                    ),
                    Refusal::MethodNotAllowed => ascii(
                        "HTTP/1.1 405 Method Not Allowed\r\nContent-Length: 0\r\nConnection: close\r\n\r\n"@,
                    ),
                    Refusal::PayloadTooLarge => ascii(
                        "HTTP/1.1 413 Payload Too Large\r\nContent-Length: 0\r\nConnection: close\r\n\r\n"@,
                    ),
                })
                &&& conn.pending == Some((response, 0usize))
                &&& conn.close_after
                &&& conn.inbox@ == old_conn.inbox@
            },
        },
{
}

/// What is received is put behind the bytes that have arrived, and then they say how it goes on; a
/// receive of nothing closes.
pub proof fn law_received_bytes_are_dealt_with(
    score: spec_fn(Seq<u8>, Route, Seq<u8>) -> bool,
    old_conn: uring::Conn,
    res: i32,
    conn: uring::Conn,
    op: uring::Op,
)
    requires
        old_conn.well_formed(),
        res > 0 ==> old_conn.inbox.len + res <= 14336,
        uring::recv_steps(score, old_conn, res, conn, op),
    ensures
        res <= 0 ==> op is Close && conn.inbox@ == old_conn.inbox@ && conn.pending
            == old_conn.pending,
        res > 0 ==> exists|filled: uring::Conn|
            {
                &&& filled.inbox@ == old_conn.inbox@ + old_conn.inbox.buf@.subrange(
                    old_conn.inbox.len as int,
                    old_conn.inbox.len + res,
                )
                &&& filled.pending == old_conn.pending
                &&& filled.close_after == old_conn.close_after
                &&& !filled.recv_armed
                &&& #[trigger] uring::advances(score, filled, conn, op, true)
            },
{
    if res > 0 {
        let filled = choose|filled: uring::Conn| #[trigger]
            uring::is_received(old_conn, res as int, filled) && uring::advances(
                score,
                filled,
                conn,
                op,
                true,
            );
        assert(filled.inbox@ =~= old_conn.inbox@ + old_conn.inbox.buf@.subrange(
            old_conn.inbox.len as int,
            old_conn.inbox.len + res,
        ));
        assert(uring::advances(score, filled, conn, op, true));
    }
}

/// A send goes on where it stopped until the whole response is sent; then the connection closes if it
/// is to, and goes on with its bytes if not. A send that fails closes.
pub proof fn law_responses_are_sent_in_full(
    score: spec_fn(Seq<u8>, Route, Seq<u8>) -> bool,
    old_conn: uring::Conn,
    res: i32,
    conn: uring::Conn,
    op: uring::Op,
    receive: bool,
    response: &'static [u8],
    off: usize,
)
    requires
        old_conn.pending == Some((response, off)),
        off + res <= response@.len(),
        response@.len() <= usize::MAX,
        uring::send_steps(score, old_conn, res, conn, op, receive),
    ensures
        res <= 0 ==> op is Close,
        0 < res < response@.len() - off ==> {
            &&& op matches uring::Op::Send(data, from)
            &&& data == response
            &&& from == off + res
            &&& conn.pending == Some((data, from))
            &&& conn.close_after == old_conn.close_after
            &&& conn.inbox@ == old_conn.inbox@
        },
        0 < res == response@.len() - off && old_conn.close_after ==> op is Close,
        0 < res == response@.len() - off && !old_conn.close_after ==> exists|free: uring::Conn|
            {
                &&& free.inbox@ == old_conn.inbox@
                &&& free.pending is None
                &&& !free.close_after
                &&& free.recv_armed == old_conn.recv_armed
                &&& #[trigger] uring::advances(score, free, conn, op, receive)
            },
{
    if 0 < res == response@.len() - off && !old_conn.close_after {
        let free = choose|free: uring::Conn| #[trigger]
            uring::without_pending(old_conn, free) && uring::advances(
                score,
                free,
                conn,
                op,
                receive,
            );
        assert(uring::advances(score, free, conn, op, receive));
    }
}

/// Where bytes arrive by themselves, those of a buffer are put behind the others as far as there is
/// room, and wait while a response is being sent. The buffer is handed back, and the receive is
/// started again where it does not go on by itself and the connection is not closed: that it found no
/// buffer does not close it, any other failure does.
pub proof fn law_bytes_that_arrive_by_themselves(
    score: spec_fn(Seq<u8>, Route, Seq<u8>) -> bool,
    old_conn: uring::Conn,
    res: i32,
    bid: Option<u16>,
    more: bool,
    chunk: Seq<u8>,
    conn: uring::Conn,
    step: uring::MultiStep,
)
    requires
        uring::multi_steps(score, old_conn, res, bid, more, chunk, conn, step),
    ensures
        res > 0 ==> step.publish == bid && !step.close && step.rearm == !more,
        res == -105 ==> step.publish is None && !step.close && step.rearm == !more,
        res <= 0 && res != -105 ==> step.publish is None && step.close && !step.rearm,
        res <= 0 ==> step.op is Nothing && conn.inbox@ == old_conn.inbox@ && conn.pending
            == old_conn.pending,
        res > 0 ==> exists|filled: uring::Conn|
            {
                &&& bid is None ==> filled.inbox@ == old_conn.inbox@
                &&& bid is Some && old_conn.inbox@.len() + chunk.len() <= 14336 ==> filled.inbox@
                    == old_conn.inbox@ + chunk
                &&& bid is Some && old_conn.inbox@.len() <= 14336 < old_conn.inbox@.len()
                    + chunk.len() ==> filled.inbox@.len() == 14336 && filled.inbox@.is_prefix_of(
                    old_conn.inbox@ + chunk,
                )
                &&& filled.pending == old_conn.pending
                &&& filled.close_after == old_conn.close_after
                &&& #[trigger] uring::is_filled(old_conn, bid, chunk, filled)
                &&& if old_conn.pending is Some {
                    step.op is Nothing && conn == filled
                } else {
                    uring::advances(score, filled, conn, step.op, false)
                }
            },
{
    if res > 0 {
        let filled = choose|filled: uring::Conn| #[trigger]
            uring::is_filled(old_conn, bid, chunk, filled) && if filled.pending is Some {
                step.op is Nothing && conn == filled
            } else {
                uring::advances(score, filled, conn, step.op, false)
            };
        if bid is Some && old_conn.inbox@.len() <= 14336 < old_conn.inbox@.len() + chunk.len() {
            assert(filled.inbox@ =~= (old_conn.inbox@ + chunk).take(14336));
        }
        assert(uring::is_filled(old_conn, bid, chunk, filled));
    }
}

/// Of what completes for a connection that is gone, only the buffer is handed back.
pub proof fn law_buffers_of_lost_connections_are_handed_back(bid: Option<u16>)
    ensures
        uring::orphaned(bid).publish == bid,
        uring::orphaned(bid).op is Nothing,
        !uring::orphaned(bid).rearm,
        !uring::orphaned(bid).close,
{
}

} // verus!
