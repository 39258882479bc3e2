//! One connection of the event loop: what to do next, given what became of the last thing.
use vstd::prelude::*;

use crate::api::{engine_runs, is_response, process_request, ApiSetup, Engine};
use crate::classifier::{Numbers, TreeCase};
use crate::fast_payload::{Constants, Quantity, Vec16I};
use crate::inbox::{is_next, Inbox, Next, HANDOFF_BUFFER_BYTES};
use crate::request::{request_body, ParsedRequest};

verus! {

/// What became of writing a response as far as the socket takes it.
#[derive(Debug, Clone, Copy, PartialEq, Eq, Structural)]
pub enum WriteState {
    Done,
    /// The socket takes no more; so many bytes are written.
    Pending(usize),
    Closed,
}

/// What became of one write.
#[derive(Debug, Clone, Copy, PartialEq, Eq, Structural)]
pub enum Wrote {
    Bytes(usize),
    WouldBlock,
    Interrupted,
    Failed,
}

/// What follows one write of a response, of which `off` bytes were written before.
pub open spec fn write_outcome(total: int, off: int, wrote: Wrote) -> Result<WriteState, usize> {
    match wrote {
        Wrote::Bytes(count) => if count == 0 {
            Ok(WriteState::Closed)
        } else if off + count == total {
            Ok(WriteState::Done)
        } else {
            Err((off + count) as usize)
        },
        Wrote::WouldBlock => Ok(WriteState::Pending(off as usize)),
        Wrote::Interrupted => Err(off as usize),
        Wrote::Failed => Ok(WriteState::Closed),
    }
}

/// What follows one write of a response, of which `off` bytes were written before: an end, or
/// another write from an offset on.
pub fn after_write(total: usize, off: usize, wrote: Wrote) -> (r: Result<WriteState, usize>)
    requires
        off < total,
        wrote matches Wrote::Bytes(count) ==> count <= total - off,
    ensures
        r == (match wrote {
            Wrote::Bytes(count) => if count == 0 {
                Ok(WriteState::Closed)
            } else if off + count == total {
                Ok(WriteState::Done)
            } else {
                Err((off + count) as usize)
            },
            Wrote::WouldBlock => Ok(WriteState::Pending(off)),
            Wrote::Interrupted => Err(off),
            Wrote::Failed => Ok(WriteState::Closed),
        }),
        r == write_outcome(total as int, off as int, wrote),
{
    match wrote {
        Wrote::Bytes(count) => if count == 0 {
            Ok(WriteState::Closed)
        } else if off + count == total {
            Ok(WriteState::Done)
        } else {
            Err(off + count)
        },
        Wrote::WouldBlock => Ok(WriteState::Pending(off)),
        Wrote::Interrupted => Err(off),
        Wrote::Failed => Ok(WriteState::Closed),
    }
}

/// What a connection is waiting to hear of.
#[derive(Debug, Clone, Copy)]
pub enum Stage {
    /// Of an event on its socket.
    Idle,
    /// Of the write of a response that was pending, from an offset on.
    Flushing(&'static [u8], usize),
    /// Of the watch for what arrives.
    WatchingIn,
    /// Of a read.
    Reading,
    /// Of the response to a request.
    Scoring(ParsedRequest),
    /// Of the write of the response to a request.
    Answering(ParsedRequest, &'static [u8]),
    /// Of the watch for room to write.
    WatchingOut,
    /// Of the write of a refusal.
    Refusing(&'static [u8]),
    /// Of nothing more.
    Over,
}

/// What happened.
#[derive(Debug, Clone, Copy)]
pub enum Event {
    /// The socket has something to say.
    Woken,
    Written(WriteState),
    /// The watch was set, or could not be.
    Watched(bool),
    /// So many bytes arrived behind the others.
    Received(usize),
    /// There is nothing to read for now.
    Drained,
    /// A read was interrupted.
    Interrupted,
    /// The peer closed, or a read failed.
    Lost,
    /// The response to the request that was to be scored.
    Scored(&'static [u8]),
}

/// What to do.
#[derive(Debug, Clone, Copy)]
pub enum Action {
    /// Wait for an event on the socket.
    Keep,
    Close,
    /// Read behind the bytes that have arrived.
    Read,
    /// Work out the response to a request that has arrived.
    Score(ParsedRequest),
    /// Write a response from an offset on.
    Write(&'static [u8], usize),
    /// Watch for room to write.
    WatchOut,
    /// Watch for what arrives.
    WatchIn,
}

/// A connection.
#[derive(Debug)]
pub struct Conn {
    pub inbox: Inbox,
    /// A response of which so many bytes are written.
    pub pending: Option<(&'static [u8], usize)>,
    /// The connection closes behind the pending response.
    pub close_after: bool,
    /// The socket is watched for room to write.
    pub want_out: bool,
    pub stage: Stage,
}

impl Conn {
    pub open spec fn well_formed(&self) -> bool {
        &&& self.inbox.well_formed()
        &&& match self.stage {
            Stage::Scoring(request) | Stage::Answering(request, _) => request.header_len
                <= request.total_len <= self.inbox@.len(),
            Stage::Reading => self.inbox@.len() < HANDOFF_BUFFER_BYTES,
            _ => true,
        }
    }

    pub fn new() -> (conn: Self)
        ensures
            conn.well_formed(),
            conn.inbox@ == Seq::<u8>::empty(),
            conn.pending is None,
            !conn.close_after,
            !conn.want_out,
            conn.stage is Idle,
    {
        Conn {
            inbox: Inbox::new(),
            pending: None,
            close_after: false,
            want_out: false,
            stage: Stage::Idle,
        }
    }
}

/// The connection keeps all but its stage.
pub open spec fn same_but_stage(a: Conn, b: Conn) -> bool {
    &&& a.inbox == b.inbox
    &&& a.pending == b.pending
    &&& a.close_after == b.close_after
    &&& a.want_out == b.want_out
}

/// The connection goes on with the bytes that have arrived: it reads, scores or refuses.
pub open spec fn goes_on(conn: Conn, action: Action) -> bool {
    exists|next: Next| #[trigger]
        is_next(conn.inbox@, next) && match next {
            Next::Wait => action is Read && conn.stage is Reading,
            Next::Serve(request) => action == Action::Score(request) && conn.stage
                == Stage::Scoring(request),
            Next::Refuse(response) => action == Action::Write(response, 0) && conn.stage
                == Stage::Refusing(response),
        }
}

/// The connection is over.
pub open spec fn ends(conn: Conn, action: Action) -> bool {
    action is Close && conn.stage is Over
}

/// The connection waits for an event on its socket.
pub open spec fn rests(conn: Conn, action: Action) -> bool {
    action is Keep && conn.stage is Idle
}

/// What follows an answered request: it leaves the inbox, and the connection closes if it asked
/// for that, else it goes on.
pub open spec fn answered(
    old_conn: Conn,
    request: ParsedRequest,
    new_conn: Conn,
    action: Action,
) -> bool {
    &&& new_conn.inbox@ == old_conn.inbox@.skip(request.total_len as int)
    &&& new_conn.pending == old_conn.pending
    &&& new_conn.close_after == old_conn.close_after
    &&& new_conn.want_out == old_conn.want_out
    &&& if request.close_after_response {
        ends(new_conn, action)
    } else {
        goes_on(new_conn, action)
    }
}

/// What follows a response that the socket did not take in full: the request leaves the inbox, the
/// rest of the response is pending, and the socket is watched for room.
pub open spec fn held_back(
    old_conn: Conn,
    request: ParsedRequest,
    response: &'static [u8],
    off: usize,
    new_conn: Conn,
    action: Action,
) -> bool {
    &&& new_conn.inbox@ == old_conn.inbox@.skip(request.total_len as int)
    &&& new_conn.pending == Some((response, off))
    &&& new_conn.close_after == request.close_after_response
    &&& new_conn.want_out == old_conn.want_out
    &&& if old_conn.want_out {
        rests(new_conn, action)
    } else {
        action is WatchOut && new_conn.stage is WatchingOut
    }
}

/// The step of a connection: from what it waited for and what happened to what it waits for next
/// and what is to be done.
pub open spec fn steps(old_conn: Conn, event: Event, new_conn: Conn, action: Action) -> bool {
    match (old_conn.stage, event) {
        (Stage::Idle, Event::Woken) => match old_conn.pending {
            Some((response, off)) => {
                &&& action == Action::Write(response, off)
                &&& new_conn.stage == Stage::Flushing(response, off)
                &&& new_conn.pending is None
                &&& new_conn.inbox == old_conn.inbox
                &&& new_conn.close_after == old_conn.close_after
                &&& new_conn.want_out == old_conn.want_out
            },
            None => same_but_stage(old_conn, new_conn) && goes_on(new_conn, action),
        },
        (Stage::Flushing(response, _), Event::Written(WriteState::Pending(off))) => {
            &&& rests(new_conn, action)
            &&& new_conn.pending == Some((response, off))
            &&& new_conn.inbox == old_conn.inbox
            &&& new_conn.close_after == old_conn.close_after
            &&& new_conn.want_out == old_conn.want_out
        },
        (Stage::Flushing(_, _), Event::Written(WriteState::Done)) => {
            &&& same_but_stage(old_conn, new_conn)
            &&& if old_conn.close_after {
                ends(new_conn, action)
            } else if old_conn.want_out {
                action is WatchIn && new_conn.stage is WatchingIn
            } else {
                goes_on(new_conn, action)
            }
        },
        (Stage::WatchingIn, Event::Watched(true)) => {
            &&& new_conn.inbox == old_conn.inbox
            &&& new_conn.pending == old_conn.pending
            &&& new_conn.close_after == old_conn.close_after
            &&& !new_conn.want_out
            &&& goes_on(new_conn, action)
        },
        (Stage::Scoring(request), Event::Scored(response)) => {
            &&& same_but_stage(old_conn, new_conn)
            &&& action == Action::Write(response, 0)
            &&& new_conn.stage == Stage::Answering(request, response)
        },
        (Stage::Answering(request, _), Event::Written(WriteState::Done)) => answered(
            old_conn,
            request,
            new_conn,
            action,
        ),
        (Stage::Answering(request, response), Event::Written(WriteState::Pending(off))) => held_back(
            old_conn,
            request,
            response,
            off,
            new_conn,
            action,
        ),
        (Stage::WatchingOut, Event::Watched(true)) => {
            &&& new_conn.inbox == old_conn.inbox
            &&& new_conn.pending == old_conn.pending
            &&& new_conn.close_after == old_conn.close_after
            &&& new_conn.want_out
            &&& rests(new_conn, action)
        },
        (Stage::Reading, Event::Received(count)) => {
            &&& new_conn.inbox.buf@ == old_conn.inbox.buf@
            &&& new_conn.inbox.len == old_conn.inbox.len + count
            &&& new_conn.pending == old_conn.pending
            &&& new_conn.close_after == old_conn.close_after
            &&& new_conn.want_out == old_conn.want_out
            &&& goes_on(new_conn, action)
        },
        (Stage::Reading, Event::Drained) => same_but_stage(old_conn, new_conn) && rests(
            new_conn,
            action,
        ),
        (Stage::Reading, Event::Interrupted) => same_but_stage(old_conn, new_conn) && goes_on(
            new_conn,
            action,
        ),
        _ => same_but_stage(old_conn, new_conn) && ends(new_conn, action),
    }
}

impl Conn {
    fn go_on(&mut self) -> (action: Action)
        requires
            old(self).inbox.well_formed(),
        ensures
            final(self).well_formed(),
            same_but_stage(*old(self), *final(self)),
            goes_on(*final(self), action),
    {
        let next = self.inbox.next();
        let action = match next {
            Next::Wait => {
                self.stage = Stage::Reading;
                Action::Read
            },
            Next::Serve(request) => {
                self.stage = Stage::Scoring(request);
                Action::Score(request)
            },
            Next::Refuse(response) => {
                self.stage = Stage::Refusing(response);
                Action::Write(response, 0)
            },
        };
        assert(is_next(self.inbox@, next));
        action
    }

    fn end(&mut self) -> (action: Action)
        requires
            old(self).inbox.well_formed(),
        ensures
            final(self).well_formed(),
            same_but_stage(*old(self), *final(self)),
            ends(*final(self), action),
    {
        self.stage = Stage::Over;
        Action::Close
    }

    fn rest(&mut self) -> (action: Action)
        requires
            old(self).inbox.well_formed(),
        ensures
            final(self).well_formed(),
            same_but_stage(*old(self), *final(self)),
            rests(*final(self), action),
    {
        self.stage = Stage::Idle;
        Action::Keep
    }

    /// Takes note of what happened, and says what to do next.
    pub fn on(&mut self, event: Event) -> (action: Action)
        requires
            old(self).well_formed(),
            event matches Event::Received(count) ==> old(self).inbox.len + count
                <= HANDOFF_BUFFER_BYTES,
        ensures
            final(self).well_formed(),
            steps(*old(self), event, *final(self), action),
    {
        match (self.stage, event) {
            (Stage::Idle, Event::Woken) => match self.pending {
                Some((response, off)) => {
                    self.pending = None;
                    self.stage = Stage::Flushing(response, off);
                    Action::Write(response, off)
                },
                None => self.go_on(),
            },
            (Stage::Flushing(response, _), Event::Written(WriteState::Pending(off))) => {
                self.pending = Some((response, off));
                self.rest()
            },
            (Stage::Flushing(_, _), Event::Written(WriteState::Done)) => if self.close_after {
                self.end()
            } else if self.want_out {
                self.stage = Stage::WatchingIn;
                Action::WatchIn
            } else {
                self.go_on()
            },
            (Stage::WatchingIn, Event::Watched(true)) => {
                self.want_out = false;
                self.go_on()
            },
            (Stage::Scoring(request), Event::Scored(response)) => {
                self.stage = Stage::Answering(request, response);
                Action::Write(response, 0)
            },
            (Stage::Answering(request, _), Event::Written(WriteState::Done)) => {
                self.inbox.compact(request.total_len);
                assert(self.inbox@ =~= old(self).inbox@.skip(request.total_len as int));
                if request.close_after_response {
                    self.end()
                } else {
                    self.go_on()
                }
            },
            (Stage::Answering(request, response), Event::Written(WriteState::Pending(off))) => {
                self.inbox.compact(request.total_len);
                assert(self.inbox@ =~= old(self).inbox@.skip(request.total_len as int));
                self.pending = Some((response, off));
                self.close_after = request.close_after_response;
                if self.want_out {
                    self.rest()
                } else {
                    self.stage = Stage::WatchingOut;
                    Action::WatchOut
                }
            },
            (Stage::WatchingOut, Event::Watched(true)) => {
                self.want_out = true;
                self.rest()
            },
            (Stage::Reading, Event::Received(count)) => {
                self.inbox.received(count);
                self.go_on()
            },
            (Stage::Reading, Event::Drained) => self.rest(),
            (Stage::Reading, Event::Interrupted) => self.go_on(),
            _ => self.end(),
        }
    }
}

/// The response that a connection may be given: one to the body of the request that is to be
/// scored, on its route.
pub open spec fn responds<
    F: Fn(&[u8]) -> u32,
    D: Fn(u32, u32) -> u32,
    P: Fn(&TreeCase<'_>, &Numbers) -> bool,
    N: Fn(&[u8]) -> u64,
    Q: Fn(Quantity) -> i16,
    V: Fn(&Vec16I, u16) -> u8,
    X: Fn(&[u8]) -> Option<u8>,
>(
    setup: ApiSetup,
    engine: Engine<F, D, P, N, Q, V, X>,
    c: Constants,
    conn: Conn,
    r: Option<&'static [u8]>,
) -> bool {
    match (conn.stage, r) {
        (Stage::Scoring(request), Some(response)) => is_response(
            setup,
            engine,
            c,
            request_body(conn.inbox@, request),
            request.route,
            response@,
        ),
        (Stage::Scoring(_), None) => false,
        (_, r) => r is None,
    }
}

impl Conn {
    /// The response to the request that is to be scored, if one is: that of its body on its route.
    pub fn respond<
        F: Fn(&[u8]) -> u32,
        D: Fn(u32, u32) -> u32,
        P: Fn(&TreeCase<'_>, &Numbers) -> bool,
        N: Fn(&[u8]) -> u64,
        Q: Fn(Quantity) -> i16,
        V: Fn(&Vec16I, u16) -> u8,
        X: Fn(&[u8]) -> Option<u8>,
    >(
        &self,
        setup: &ApiSetup,
        engine: &Engine<F, D, P, N, Q, V, X>,
        c: &Constants,
    ) -> (r: Option<&'static [u8]>)
        requires
            self.well_formed(),
            engine_runs(*engine),
            c.well_formed(),
        ensures
            match (self.stage, r) {
                (Stage::Scoring(request), Some(response)) => is_response(
                    *setup,
                    *engine,
                    *c,
                    self.inbox@.subrange(request.header_len as int, request.total_len as int),
                    request.route,
                    response@,
                ),
                (Stage::Scoring(_), None) => false,
                (_, r) => r is None,
            },
            responds(*setup, *engine, *c, *self, r),
    {
        match self.stage {
            Stage::Scoring(request) => {
                let bytes = self.inbox.bytes();
                let body = &bytes[request.header_len..request.total_len];
                Some(process_request(setup, engine, c, body, request.route))
            },
            _ => None,
        }
    }
}

/// Bytes that arrive in two parts are dealt with as bytes that arrive at once: what the first part
/// did not decide is decided by both.
pub proof fn law_parts_are_as_good_as_the_whole(
    conn: Conn,
    first: Conn,
    after_first: Action,
    whole: Conn,
    after_whole: Action,
    count: usize,
    more: usize,
)
    requires
        conn.well_formed(),
        conn.stage is Reading,
        conn.inbox.len + count + more <= HANDOFF_BUFFER_BYTES,
        steps(conn, Event::Received(count), first, after_first),
        steps(conn, Event::Received((count + more) as usize), whole, after_whole),
        after_first is Read,
    ensures
        first.stage is Reading,
        steps(first, Event::Received(more), whole, after_whole),
{
}

} // verus!
