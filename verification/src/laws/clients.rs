//! What a client of the load balancer is answered, and when it is let go.
use vstd::prelude::*;

use crate::bytes::ascii;
use crate::head::{refusal_response, Refusal};
use crate::lb::client::{outcome, steps, Action, Client, Event, Stage, UpstreamProtocol};
use crate::lb::pool::RoundRobin;
use crate::lb::session::{
    answered, are_successive, arrived, is_run, law_each_request_gets_one_answer, Answered, Given,
    Step,
};
use crate::request::ParsedRequest;

verus! {

/// Once its answer is written a request is over, on either route: it went well unless no backend
/// answered, and its client is closed exactly if the request asked for that or no backend answered.
/// The request leaves the bytes that have arrived, and its time is what was not spent waiting for it.
pub proof fn law_a_written_answer_ends_its_request(
    old_client: Client,
    protocol: UpstreamProtocol,
    before: RoundRobin,
    write_us: u64,
    total_us: u64,
    client: Client,
    turn: RoundRobin,
    action: Action,
    request: ParsedRequest,
)
    requires
        old_client.stage == Stage::Answering(request) || (old_client.stage matches Stage::Replying(
            r,
            _,
        ) && r == request) || (old_client.stage matches Stage::Apologizing(r, _) && r == request),
        steps(
            old_client,
            protocol,
            before,
            (Event::Written { write_us, total_us }),
            client,
            turn,
            action,
        ),
    ensures
        action matches Action::Finish { ok, close } && {
            &&& ok <==> !(old_client.stage is Apologizing)
            &&& close <==> request.close_after_response || old_client.stage is Apologizing
        },
        request.close_after_response ==> client.stage is Over,
        old_client.stage is Apologizing ==> client.stage is Over,
        !request.close_after_response && !(old_client.stage is Apologizing)
            ==> client.stage is Starting,
        client.read_buf@ == old_client.read_buf@.skip(request.total_len as int),
        client.trace.client_write_us == write_us,
        total_us >= old_client.trace.client_wait_us ==> client.trace.total_us == total_us
            - old_client.trace.client_wait_us,
        total_us < old_client.trace.client_wait_us ==> client.trace.total_us == 0,
        client.trace.request_id == old_client.trace.request_id,
        client.trace.backend_idx == old_client.trace.backend_idx,
        client.trace.status_5xx == old_client.trace.status_5xx,
        turn == before,
{
}

/// A client that starts or takes in bytes keeps them all, behind the others. Then it reads on where
/// there is no request yet, writes the refusal where there can be none, and forwards a request to
/// the backend whose turn it is; only a raw backend is not asked whether it is ready.
pub proof fn law_requests_are_forwarded_in_turn(
    old_client: Client,
    protocol: UpstreamProtocol,
    before: RoundRobin,
    event: Event<'_>,
    client: Client,
    turn: RoundRobin,
    action: Action,
)
    requires
        steps(old_client, protocol, before, event, client, turn, action),
        old_client.stage is Starting && event is Started || old_client.stage is Reading
            && event is Received,
    ensures
        old_client.stage is Starting ==> client.read_buf@ == old_client.read_buf@,
        old_client.stage is Reading ==> (event matches Event::Received(chunk, _)
            && client.read_buf@ == old_client.read_buf@ + chunk@),
        outcome(client.read_buf@) == Ok::<Option<ParsedRequest>, Refusal>(None) ==> action is Read
            && client.stage is Reading && turn == before,
        outcome(client.read_buf@) matches Err(why) ==> (action matches Action::Write(response)
            && response@ == refusal_response(why)) && client.stage is Refusing && turn == before,
        outcome(client.read_buf@) matches Ok(Some(request)) ==> {
            &&& client.trace.body_len == request.total_len - request.header_len
            &&& client.trace.route@ == (if request.route is Ready {
                "ready"@
            } else {
                "fraud_score"@
            })
            &&& protocol is Http || request.route is FraudScore ==> {
                &&& action matches Action::Forward(asked, backend)
                &&& asked == request
                &&& backend == before.next % 2
                &&& client.stage == Stage::Forwarding(request, backend)
                &&& turn.next == before.next + 1 || before.next == u64::MAX && turn.next == 0
            }
            &&& protocol is Raw && request.route is Ready ==> {
                &&& action matches Action::Write(response)
                &&& response@ == ascii(
                    "HTTP/1.1 200 OK\r\nContent-Length: 0\r\nConnection: keep-alive\r\n\r\n"@,
                )
                &&& client.stage == Stage::Answering(request)
                &&& turn == before
            }
        },
{
    crate::request::law_read_request_is_within_bounds(
        client.read_buf@,
        |header: Seq<u8>| crate::lb::request::client_head(header),
    );
}

/// What a backend answered is written to the client, and noted under that backend; where no backend
/// answered, the client is told so, and it is noted under the backend that was asked first.
pub proof fn law_answers_of_backends_are_written(
    old_client: Client,
    protocol: UpstreamProtocol,
    before: RoundRobin,
    event: Event<'_>,
    client: Client,
    turn: RoundRobin,
    action: Action,
    request: ParsedRequest,
    selected: usize,
)
    requires
        old_client.stage == Stage::Forwarding(request, selected),
        steps(old_client, protocol, before, event, client, turn, action),
    ensures
        event matches Event::Forwarded(backend) ==> {
            &&& action is Reply
            &&& client.stage == Stage::Replying(request, backend)
            &&& client.trace.backend_idx == backend as u8
            &&& client.trace.status_5xx == old_client.trace.status_5xx
        },
        event is NotForwarded ==> {
            &&& action matches Action::Write(response)
            &&& response@ == ascii(
                "HTTP/1.1 502 Bad Gateway\r\nContent-Length: 0\r\nConnection: close\r\n\r\n"@,
            )
            &&& client.stage == Stage::Apologizing(request, selected)
            &&& client.trace.backend_idx == selected as u8
            &&& client.trace.status_5xx == 1
        },
        !(event is Forwarded) && !(event is NotForwarded) ==> action is Close
            && client.stage is Over,
        client.read_buf@ == old_client.read_buf@,
        turn == before,
{
}

/// A client that closes before a request is let go, and one that stops in the middle of a request is
/// refused; a refusal is the last thing that a client is written, and whatever does not fit what is
/// waited for ends it.
pub proof fn law_clients_are_let_go(
    old_client: Client,
    protocol: UpstreamProtocol,
    before: RoundRobin,
    event: Event<'_>,
    client: Client,
    turn: RoundRobin,
    action: Action,
)
    requires
        steps(old_client, protocol, before, event, client, turn, action),
    ensures
        old_client.stage is Reading && event is Closed && old_client.read_buf@ == Seq::<u8>::empty()
            ==> action is Close && client.stage is Over,
        old_client.stage is Reading && (event is ReadFailed || event is Closed
            && old_client.read_buf@.len() > 0) ==> (action matches Action::Write(response)
            && response@ == ascii(
            "HTTP/1.1 400 Bad Request\r\nContent-Length: 0\r\nConnection: close\r\n\r\n"@,
        )) && client.stage is Refusing && client.read_buf@ == old_client.read_buf@,
        old_client.stage is Refusing || old_client.stage is Over || event is WriteFailed
            ==> action is Close && client.stage is Over && client.read_buf@
            == old_client.read_buf@,
        old_client.stage is Starting && !(event is Started) ==> action is Close
            && client.stage is Over,
        old_client.stage is Reading && (event is Started || event is Forwarded
            || event is NotForwarded || event is Written) ==> action is Close
            && client.stage is Over,
        (old_client.stage is Answering || old_client.stage is Replying
            || old_client.stage is Apologizing) && !(event is Written) ==> action is Close
            && client.stage is Over,
        turn != before ==> action is Forward,
{
}

/// The times of the reads are added up: those before the first byte of a request as waiting, the
/// others as reading.
pub proof fn law_reads_are_timed(
    old_client: Client,
    protocol: UpstreamProtocol,
    before: RoundRobin,
    chunk: &[u8],
    read_us: u64,
    client: Client,
    turn: RoundRobin,
    action: Action,
)
    requires
        old_client.stage is Reading,
        steps(
            old_client,
            protocol,
            before,
            Event::Received(chunk, read_us),
            client,
            turn,
            action,
        ),
        old_client.trace.client_wait_us + read_us <= u64::MAX,
        old_client.trace.client_read_us + read_us <= u64::MAX,
    ensures
        client.saw_request_bytes,
        client.trace.client_wait_us + client.trace.client_read_us
            == old_client.trace.client_wait_us + old_client.trace.client_read_us + read_us,
        old_client.saw_request_bytes ==> client.trace.client_wait_us
            == old_client.trace.client_wait_us,
        !old_client.saw_request_bytes ==> client.trace.client_read_us
            == old_client.trace.client_read_us,
{
}

/// A request that starts is noted with its number, and nothing is left of the one before.
pub proof fn law_requests_start_afresh(
    old_client: Client,
    protocol: UpstreamProtocol,
    before: RoundRobin,
    request_id: u64,
    accept_to_read_us: u64,
    active: u64,
    max_active: u64,
    client: Client,
    turn: RoundRobin,
    action: Action,
)
    requires
        old_client.stage is Starting,
        steps(
            old_client,
            protocol,
            before,
            (Event::Started { request_id, accept_to_read_us, active, max_active }),
            client,
            turn,
            action,
        ),
    ensures
        client.trace.request_id == request_id,
        client.trace.accept_to_read_us == accept_to_read_us,
        client.trace.active_clients_at_start == active,
        client.trace.max_active_clients_seen == max_active,
        client.trace.client_wait_us == 0,
        client.trace.client_read_us == 0,
        client.trace.client_write_us == 0,
        client.trace.total_us == 0,
        client.trace.retries == 0,
        client.trace.reconnects == 0,
        client.trace.status_5xx == 0,
        client.saw_request_bytes <==> client.read_buf@.len() > 0,
{
}

/// Behind a request that asked to close, or that no backend answered, nothing is answered.
pub proof fn law_nothing_is_answered_behind_a_close(
    run: Seq<Step<'_>>,
    protocol: UpstreamProtocol,
    i: int,
)
    requires
        is_run(run, protocol),
        run.len() > 0,
        0 <= i < answered(run).len(),
    ensures
        answered(run)[i].request.close_after_response || answered(run)[i].given == Given::Prepared(
            ascii("HTTP/1.1 502 Bad Gateway\r\nContent-Length: 0\r\nConnection: close\r\n\r\n"@),
        ) ==> i == answered(run).len() - 1 && run.last().after.stage is Over,
{
    law_each_request_gets_one_answer(run, protocol);
    if i < answered(run).len() - 1 {
        lemma_all_but_the_last_stay(arrived(run), answered(run), protocol, i);
    }
}

proof fn lemma_all_but_the_last_stay(
    bytes: Seq<u8>,
    done: Seq<Answered>,
    protocol: UpstreamProtocol,
    i: int,
)
    requires
        are_successive(bytes, done, protocol),
        0 <= i < done.len() - 1,
    ensures
        !done[i].request.close_after_response,
        done[i].given != Given::Prepared(
            ascii("HTTP/1.1 502 Bad Gateway\r\nContent-Length: 0\r\nConnection: close\r\n\r\n"@),
        ),
    decreases done.len(),
{
    if i < done.len() - 2 {
        lemma_all_but_the_last_stay(bytes, done.drop_last(), protocol, i);
    } else {
        assert(done.drop_last().last() == done[i]);
    }
}

} // verus!
