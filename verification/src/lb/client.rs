//! One client: what to do next, given what became of the last thing.
use vstd::prelude::*;

use crate::api::ready_response;
use crate::bytes::{append, ascii, index_from, literal};
use crate::head::{refusal_response, refuse, Refusal, Route};
use crate::lb::metrics::{blank_trace, RequestTrace};
use crate::lb::pool::{sum_up, RoundRobin};
use crate::lb::request::{client_head, read_request};
use crate::request::{
    consume_request, find_header_end, head_mark, law_read_request_is_within_bounds, read_outcome,
    request_body, ParsedRequest,
};
use crate::scoring::{BAD_GATEWAY_RESPONSE, READY_OK_RESPONSE};

verus! {

/// How requests go to the backends.
#[derive(Clone, Copy, Debug, PartialEq, Eq, Structural)]
pub enum UpstreamProtocol {
    Http,
    Raw,
}

/// What a client is waiting to hear of.
#[derive(Debug, Clone, Copy)]
pub enum Stage {
    /// Of the start of a request.
    Starting,
    /// Of a read.
    Reading,
    /// Of the write of an answer that no backend gave.
    Answering(ParsedRequest),
    /// Of a backend.
    Forwarding(ParsedRequest, usize),
    /// Of the write of what a backend answered.
    Replying(ParsedRequest, usize),
    /// Of the write of the answer that no backend was there.
    Apologizing(ParsedRequest, usize),
    /// Of the write of a refusal.
    Refusing,
    /// Of nothing more.
    Over,
}

/// What happened.
#[derive(Debug, Clone, Copy)]
pub enum Event<'a> {
    /// A request starts, with its number, the time since its client came where it is the first,
    /// and the clients that are served.
    Started { request_id: u64, accept_to_read_us: u64, active: u64, max_active: u64 },
    /// These bytes arrived, after so long.
    Received(&'a [u8], u64),
    /// The client closed.
    Closed,
    ReadFailed,
    /// This backend answered.
    Forwarded(usize),
    /// No backend answered.
    NotForwarded,
    /// The answer was written; so long it took, and so long the whole request.
    Written { write_us: u64, total_us: u64 },
    WriteFailed,
}

/// What to do.
#[derive(Debug, Clone, Copy)]
pub enum Action {
    Read,
    /// Write a prepared response.
    Write(&'static [u8]),
    /// Send a request to the backends, this one first.
    Forward(ParsedRequest, usize),
    /// Write what the backend answered.
    Reply,
    /// The request is over: note how it went, and start the next one or close.
    Finish { ok: bool, close: bool },
    Close,
}

/// A client.
#[derive(Debug)]
pub struct Client {
    /// What has arrived and is not answered yet.
    pub read_buf: Vec<u8>,
    pub trace: RequestTrace,
    /// Something of the request has arrived.
    pub saw_request_bytes: bool,
    pub stage: Stage,
}

/// What the bytes that have arrived come to.
pub open spec fn outcome(buf: Seq<u8>) -> Result<Option<ParsedRequest>, Refusal> {
    read_outcome(buf, |header: Seq<u8>| client_head(header))
}

/// The trace of a request whose head was read.
pub open spec fn traced(t: RequestTrace, request: ParsedRequest) -> RequestTrace {
    RequestTrace {
        route: match request.route {
            Route::Ready => "ready",
            Route::FraudScore => "fraud_score",
        },
        body_len: (request.total_len - request.header_len) as u64,
        ..t
    }
}

/// The request is answered without a backend: raw backends know only scores.
pub open spec fn is_local(protocol: UpstreamProtocol, request: ParsedRequest) -> bool {
    protocol == UpstreamProtocol::Raw && request.route == Route::Ready
}

/// The client goes on with the bytes that have arrived: it reads, refuses, answers or forwards.
/// `before` is the turn of the backends up to here, and `turn` the one from here on.
pub open spec fn goes_on(
    trace: RequestTrace,
    protocol: UpstreamProtocol,
    before: RoundRobin,
    client: Client,
    turn: RoundRobin,
    action: Action,
) -> bool {
    match outcome(client.read_buf@) {
        Ok(None) => {
            &&& action is Read
            &&& client.stage is Reading
            &&& client.trace == trace
            &&& turn == before
        },
        Err(why) => {
            &&& action matches Action::Write(response) && response@ == refusal_response(why)
            &&& client.stage is Refusing
            &&& client.trace == trace
            &&& turn == before
        },
        Ok(Some(request)) => {
            &&& client.trace.route@ == traced(trace, request).route@
            &&& client.trace == (RequestTrace { route: client.trace.route, ..traced(trace, request)
            })
            &&& if is_local(protocol, request) {
                &&& action matches Action::Write(response) && response@ == ascii(
                    READY_OK_RESPONSE@,
                )
                &&& client.stage == Stage::Answering(request)
                &&& turn == before
            } else {
                &&& action == Action::Forward(request, (before.next % 2) as usize)
                &&& client.stage == Stage::Forwarding(request, (before.next % 2) as usize)
                &&& turn.next == (before.next + 1) % 0x1_0000_0000_0000_0000
            }
        },
    }
}

/// The client closes; nothing else changes.
pub open spec fn ends(old_client: Client, client: Client, action: Action) -> bool {
    &&& action is Close
    &&& client.stage is Over
    &&& client.read_buf == old_client.read_buf
    &&& client.trace == old_client.trace
    &&& client.saw_request_bytes == old_client.saw_request_bytes
}

/// A refusal is written; nothing else changes.
pub open spec fn refuses(old_client: Client, client: Client, action: Action) -> bool {
    &&& action matches Action::Write(response) && response@ == refusal_response(
        Refusal::BadRequest,
    )
    &&& client.stage is Refusing
    &&& client.read_buf == old_client.read_buf
    &&& client.trace == old_client.trace
    &&& client.saw_request_bytes == old_client.saw_request_bytes
}

/// A request is over: its time does not count what was spent waiting for it, it leaves the bytes
/// that have arrived, and the client closes if it asked for that or no backend answered.
pub open spec fn finishes(
    old_client: Client,
    request: ParsedRequest,
    ok: bool,
    write_us: u64,
    total_us: u64,
    client: Client,
    action: Action,
) -> bool {
    let close = request.close_after_response || !ok;
    &&& client.trace == (RequestTrace {
        client_write_us: write_us,
        total_us: if total_us > old_client.trace.client_wait_us {
            (total_us - old_client.trace.client_wait_us) as u64
        } else {
            0
        },
        ..old_client.trace
    })
    &&& client.read_buf@ == old_client.read_buf@.skip(request.total_len as int)
    &&& action == (Action::Finish { ok, close })
    &&& if close {
        client.stage is Over
    } else {
        client.stage is Starting
    }
}

/// The step of a client: from what it waited for and what happened to what it waits for next and
/// what is to be done.
pub open spec fn steps(
    old_client: Client,
    protocol: UpstreamProtocol,
    before: RoundRobin,
    event: Event<'_>,
    client: Client,
    turn: RoundRobin,
    action: Action,
) -> bool {
    match (old_client.stage, event) {
        (
            Stage::Starting,
            Event::Started { request_id, accept_to_read_us, active, max_active },
        ) => {
            let fresh = RequestTrace {
                request_id,
                accept_to_read_us,
                active_clients_at_start: active,
                max_active_clients_seen: max_active,
                ..blank_trace()
            };
            &&& client.read_buf@ == old_client.read_buf@
            &&& client.saw_request_bytes == (client.read_buf@.len() > 0)
            &&& goes_on(fresh, protocol, before, client, turn, action)
        },
        (Stage::Reading, Event::Received(chunk, read_us)) => {
            let timed = if old_client.saw_request_bytes {
                RequestTrace {
                    client_read_us: sum_up(old_client.trace.client_read_us, read_us),
                    ..old_client.trace
                }
            } else {
                RequestTrace {
                    client_wait_us: sum_up(old_client.trace.client_wait_us, read_us),
                    ..old_client.trace
                }
            };
            &&& client.read_buf@ == old_client.read_buf@ + chunk@
            &&& client.saw_request_bytes
            &&& goes_on(timed, protocol, before, client, turn, action)
        },
        (Stage::Reading, Event::Closed) => {
            &&& turn == before
            &&& if old_client.read_buf@.len() == 0 {
                ends(old_client, client, action)
            } else {
                refuses(old_client, client, action)
            }
        },
        (Stage::Reading, Event::ReadFailed) => turn == before && refuses(
            old_client,
            client,
            action,
        ),
        (Stage::Forwarding(request, _), Event::Forwarded(backend)) => {
            &&& turn == before
            &&& action is Reply
            &&& client.stage == Stage::Replying(request, backend)
            &&& client.read_buf == old_client.read_buf
            &&& client.trace == (RequestTrace { backend_idx: backend as u8, ..old_client.trace })
        },
        (Stage::Forwarding(request, selected), Event::NotForwarded) => {
            &&& turn == before
            &&& action matches Action::Write(response) && response@ == ascii(
                BAD_GATEWAY_RESPONSE@,
            )
            &&& client.stage == Stage::Apologizing(request, selected)
            &&& client.read_buf == old_client.read_buf
            &&& client.trace == (RequestTrace {
                backend_idx: selected as u8,
                status_5xx: 1,
                ..old_client.trace
            })
        },
        (Stage::Answering(request), Event::Written { write_us, total_us }) => turn == before
            && finishes(old_client, request, true, write_us, total_us, client, action),
        (Stage::Replying(request, _), Event::Written { write_us, total_us }) => turn == before
            && finishes(old_client, request, true, write_us, total_us, client, action),
        (Stage::Apologizing(request, _), Event::Written { write_us, total_us }) => turn == before
            && finishes(old_client, request, false, write_us, total_us, client, action),
        _ => turn == before && ends(old_client, client, action),
    }
}

/// What is measured of a request when reading its head took so long: nothing until it has arrived.
pub open spec fn parse_noted(t: RequestTrace, buf: Seq<u8>, parse_us: u64) -> RequestTrace {
    if index_from(buf, head_mark(), 0) is Some {
        RequestTrace { request_parse_us: sum_up(t.request_parse_us, parse_us), ..t }
    } else {
        t
    }
}

impl Client {
    pub open spec fn well_formed(&self) -> bool {
        match self.stage {
            Stage::Answering(request)
            | Stage::Forwarding(request, _)
            | Stage::Replying(request, _)
            | Stage::Apologizing(request, _) => request.header_len <= request.total_len
                <= self.read_buf@.len(),
            _ => true,
        }
    }

    pub fn new() -> (client: Self)
        ensures
            client.well_formed(),
            client.read_buf@ == Seq::<u8>::empty(),
            client.trace == blank_trace(),
            !client.saw_request_bytes,
            client.stage is Starting,
    {
        Client {
            read_buf: Vec::new(),
            trace: RequestTrace::default(),
            saw_request_bytes: false,
            stage: Stage::Starting,
        }
    }

    fn go_on(&mut self, protocol: UpstreamProtocol, robin: &mut RoundRobin) -> (action: Action)
        ensures
            final(self).well_formed(),
            final(self).read_buf == old(self).read_buf,
            final(self).saw_request_bytes == old(self).saw_request_bytes,
            goes_on(
                old(self).trace,
                protocol,
                *old(robin),
                *final(self),
                *final(robin),
                action,
            ),
    {
        proof {
            law_read_request_is_within_bounds(
                self.read_buf@,
                |header: Seq<u8>| client_head(header),
            );
        }
        match read_request(self.read_buf.as_slice()) {
            Ok(None) => {
                self.stage = Stage::Reading;
                Action::Read
            },
            Err(error) => {
                self.stage = Stage::Refusing;
                Action::Write(error.response)
            },
            Ok(Some(request)) => {
                self.trace.route = request.route.as_str();
                self.trace.body_len = (request.total_len - request.header_len) as u64;
                if protocol == UpstreamProtocol::Raw && request.route == Route::Ready {
                    self.stage = Stage::Answering(request);
                    Action::Write(ready_response())
                } else {
                    let backend: usize = robin.choose_backend();
                    self.stage = Stage::Forwarding(request, backend);
                    Action::Forward(request, backend)
                }
            },
        }
    }

    fn end(&mut self) -> (action: Action)
        ensures
            final(self).well_formed(),
            ends(*old(self), *final(self), action),
    {
        self.stage = Stage::Over;
        Action::Close
    }

    fn refuse_bytes(&mut self) -> (action: Action)
        ensures
            final(self).well_formed(),
            refuses(*old(self), *final(self), action),
    {
        self.stage = Stage::Refusing;
        Action::Write(refuse(Refusal::BadRequest).response)
    }

    fn finish(&mut self, request: ParsedRequest, ok: bool, write_us: u64, total_us: u64) -> (action:
        Action)
        requires
            request.total_len <= old(self).read_buf@.len(),
        ensures
            final(self).well_formed(),
            finishes(*old(self), request, ok, write_us, total_us, *final(self), action),
    {
        self.trace.client_write_us = write_us;
        self.trace.total_us = if total_us > self.trace.client_wait_us {
            total_us - self.trace.client_wait_us
        } else {
            0
        };
        consume_request(&mut self.read_buf, request.total_len);
        let close = request.close_after_response || !ok;
        self.stage = if close {
            Stage::Over
        } else {
            Stage::Starting
        };
        Action::Finish { ok, close }
    }

    /// Takes note of what happened, and says what to do next.
    pub fn on(
        &mut self,
        event: Event<'_>,
        protocol: UpstreamProtocol,
        robin: &mut RoundRobin,
    ) -> (action: Action)
        requires
            old(self).well_formed(),
        ensures
            final(self).well_formed(),
            steps(
                *old(self),
                protocol,
                *old(robin),
                event,
                *final(self),
                *final(robin),
                action,
            ),
    {
        match (self.stage, event) {
            (
                Stage::Starting,
                Event::Started { request_id, accept_to_read_us, active, max_active },
            ) => {
                let mut trace = RequestTrace::default();
                trace.request_id = request_id;
                trace.accept_to_read_us = accept_to_read_us;
                trace.active_clients_at_start = active;
                trace.max_active_clients_seen = max_active;
                self.trace = trace;
                self.saw_request_bytes = self.read_buf.len() > 0;
                self.go_on(protocol, robin)
            },
            (Stage::Reading, Event::Received(chunk, read_us)) => {
                if self.saw_request_bytes {
                    self.trace.client_read_us = self.trace.client_read_us.saturating_add(read_us);
                } else {
                    self.trace.client_wait_us = self.trace.client_wait_us.saturating_add(read_us);
                    self.saw_request_bytes = true;
                }
                append(&mut self.read_buf, chunk);
                self.go_on(protocol, robin)
            },
            (Stage::Reading, Event::Closed) => if self.read_buf.len() == 0 {
                self.end()
            } else {
                self.refuse_bytes()
            },
            (Stage::Reading, Event::ReadFailed) => self.refuse_bytes(),
            (Stage::Forwarding(request, _), Event::Forwarded(backend)) => {
                self.trace.backend_idx = backend as u8;
                self.stage = Stage::Replying(request, backend);
                Action::Reply
            },
            (Stage::Forwarding(request, selected), Event::NotForwarded) => {
                proof {
                    reveal_strlit(
                        "HTTP/1.1 502 Bad Gateway\r\nContent-Length: 0\r\nConnection: close\r\n\r\n",
                    );
                }
                self.trace.backend_idx = selected as u8;
                self.trace.status_5xx = 1;
                self.stage = Stage::Apologizing(request, selected);
                Action::Write(literal(BAD_GATEWAY_RESPONSE))
            },
            (Stage::Answering(request), Event::Written { write_us, total_us }) => self.finish(
                request,
                true,
                write_us,
                total_us,
            ),
            (Stage::Replying(request, _), Event::Written { write_us, total_us }) => self.finish(
                request,
                true,
                write_us,
                total_us,
            ),
            (Stage::Apologizing(request, _), Event::Written { write_us, total_us }) => self.finish(
                request,
                false,
                write_us,
                total_us,
            ),
            _ => self.end(),
        }
    }

    /// Notes how long the head of a request took to read, if it has arrived.
    pub fn note_parse(&mut self, parse_us: u64)
        ensures
            final(self).read_buf == old(self).read_buf,
            final(self).saw_request_bytes == old(self).saw_request_bytes,
            final(self).stage == old(self).stage,
            final(self).trace == (if index_from(old(self).read_buf@, head_mark(), 0) is Some {
                RequestTrace {
                    request_parse_us: sum_up(old(self).trace.request_parse_us, parse_us),
                    ..old(self).trace
                }
            } else {
                old(self).trace
            }),
            final(self).trace == parse_noted(old(self).trace, old(self).read_buf@, parse_us),
    {
        if find_header_end(self.read_buf.as_slice()).is_some() {
            self.trace.request_parse_us = self.trace.request_parse_us.saturating_add(parse_us);
        }
    }

    /// The body of a request that has arrived.
    pub fn body(&self, request: &ParsedRequest) -> (body: &[u8])
        requires
            request.header_len <= request.total_len <= self.read_buf@.len(),
        ensures
            body@ == self.read_buf@.subrange(request.header_len as int, request.total_len as int),
            body@ == request_body(self.read_buf@, *request),
    {
        let bytes: &[u8] = self.read_buf.as_slice();
        &bytes[request.header_len..request.total_len]
    }
}

/// How a request went, as it is told.
pub fn status_text(ok: bool) -> (text: &'static str)
    ensures
        text@ == (if ok {
            "ok"@
        } else {
            "bad_gateway"@
        }),
{
    if ok {
        "ok"
    } else {
        "bad_gateway"
    }
}

} // verus!
