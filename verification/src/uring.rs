//! One connection of the ring: what to submit next, given what completed.
use vstd::prelude::*;

use crate::api::{engine_runs, process_request, service, ApiSetup, Engine};
use crate::classifier::{Numbers, TreeCase};
use crate::fast_payload::{Constants, Quantity, Vec16I};
use crate::head::Route;
use crate::inbox::{is_next, Inbox, Next, HANDOFF_BUFFER_BYTES};

verus! {

/// What a completion is of: the poll of the control socket.
pub const OP_CTRL_POLL: u64 = 1;

/// What a completion is of: a receive.
pub const OP_RECV: u64 = 2;

/// What a completion is of: a send.
pub const OP_SEND: u64 = 3;

/// The mark of an operation on a file: the operation in the high eight bits, the file in the low
/// 32.
pub open spec fn mark(op: u64, fd: i32) -> u64 {
    (op << 56) | (fd as u32 as u64)
}

/// The mark of an operation on a file.
pub fn ud(op: u64, fd: i32) -> (user_data: u64)
    ensures
        user_data == mark(op, fd),
{
    (op << 56) | (fd as u32 as u64)
}

/// The operation that a mark names.
pub fn ud_op(user_data: u64) -> (op: u64)
    ensures
        op == user_data >> 56,
{
    user_data >> 56
}

/// The file that a mark names.
pub fn ud_fd(user_data: u64) -> (fd: i32)
    ensures
        fd == (user_data & 0xffff_ffff) as u32 as i32,
{
    (user_data & 0xffff_ffff) as u32 as i32
}

/// A mark gives back the operation and the file it was made of.
pub proof fn law_mark_is_read_back(op: u64, fd: i32)
    requires
        op < 256,
    ensures
        mark(op, fd) >> 56 == op,
        (mark(op, fd) & 0xffff_ffff) as u32 as i32 == fd,
{
    assert(((op << 56) | (fd as u32 as u64)) >> 56 == op) by (bit_vector)
        requires
            op < 256,
    ;
    assert((((op << 56) | (fd as u32 as u64)) & 0xffff_ffff) as u32 as i32 == fd) by (bit_vector)
        requires
            op < 256,
    ;
}

/// `io_uring::cqueue::buffer_select`: the number of the buffer that a completion filled, which is
/// in the high sixteen bits of its flags where the lowest bit is set; none where it is not.
pub assume_specification[ io_uring::cqueue::buffer_select ](flags: u32) -> (id: Option<u16>)
    ensures
        id == (if flags % 2 == 1 {
            Some((flags / 65536) as u16)
        } else {
            None::<u16>
        }),
;

/// `io_uring::cqueue::more`: whether the operation that completed will complete again, which the
/// second lowest bit of the flags says.
pub assume_specification[ io_uring::cqueue::more ](flags: u32) -> (again: bool)
    ensures
        again == (flags / 2 % 2 == 1),
;

/// What to submit.
#[derive(Debug, Clone, Copy)]
pub enum Op {
    Nothing,
    /// Receive behind the bytes that have arrived.
    Receive,
    /// Send a response from an offset on.
    Send(&'static [u8], usize),
    Close,
}

/// A connection.
#[derive(Debug)]
pub struct Conn {
    pub inbox: Inbox,
    /// A response that is being sent, of which so many bytes are sent.
    pub pending: Option<(&'static [u8], usize)>,
    /// The connection closes behind the response.
    pub close_after: bool,
    /// A receive is under way.
    pub recv_armed: bool,
}

/// What is sent first of a response, and what is to be done behind it.
pub open spec fn sends(
    old_conn: Conn,
    response: Seq<u8>,
    close: bool,
    new_conn: Conn,
    op: Op,
) -> bool {
    &&& op matches Op::Send(data, off)
    &&& data@ == response
    &&& off == 0
    &&& new_conn.pending == Some((data, off))
    &&& new_conn.close_after == close
    &&& new_conn.recv_armed == old_conn.recv_armed
}

/// The connection goes on with the bytes that have arrived: it waits for more, submitting a receive
/// where `receive` says so, or it sends the response to a request, which leaves the inbox, or a
/// refusal, behind which it closes.
pub open spec fn advances(
    score: spec_fn(Seq<u8>, Route, Seq<u8>) -> bool,
    old_conn: Conn,
    new_conn: Conn,
    op: Op,
    receive: bool,
) -> bool {
    exists|next: Next| #[trigger]
        is_next(old_conn.inbox@, next) && match next {
            Next::Wait => {
                &&& new_conn.inbox == old_conn.inbox
                &&& new_conn.pending == old_conn.pending
                &&& new_conn.close_after == old_conn.close_after
                &&& if receive {
                    op is Receive && new_conn.recv_armed
                } else {
                    op is Nothing && new_conn.recv_armed == old_conn.recv_armed
                }
            },
            Next::Serve(request) => {
                &&& new_conn.inbox@ == old_conn.inbox@.skip(request.total_len as int)
                &&& exists|response: Seq<u8>|
                    #![trigger sends(old_conn, response, request.close_after_response, new_conn, op)]
                    score(
                        old_conn.inbox@.subrange(
                            request.header_len as int,
                            request.total_len as int,
                        ),
                        request.route,
                        response,
                    ) && sends(old_conn, response, request.close_after_response, new_conn, op)
            },
            Next::Refuse(response) => {
                &&& new_conn.inbox == old_conn.inbox
                &&& sends(old_conn, response@, true, new_conn, op)
            },
        }
}

/// A send that took only part of the response goes on where it stopped.
pub open spec fn continues(old_conn: Conn, sent: int, new_conn: Conn, op: Op) -> bool {
    &&& old_conn.pending matches Some((data, off))
    &&& off + sent < data@.len()
    &&& op == Op::Send(data, (off + sent) as usize)
    &&& new_conn.pending == Some((data, (off + sent) as usize))
    &&& new_conn.inbox == old_conn.inbox
    &&& new_conn.close_after == old_conn.close_after
    &&& new_conn.recv_armed == old_conn.recv_armed
}

/// Part of the response that is being sent is still to be sent.
pub open spec fn is_partial(conn: Conn, sent: int) -> bool {
    conn.pending matches Some((data, off)) && off + sent < data@.len()
}

/// The connection behind a receive of so many bytes, or of none.
pub open spec fn is_received(old_conn: Conn, res: int, filled: Conn) -> bool {
    &&& filled.inbox.buf@ == old_conn.inbox.buf@
    &&& filled.inbox.len == old_conn.inbox.len + res
    &&& filled.pending == old_conn.pending
    &&& filled.close_after == old_conn.close_after
    &&& !filled.recv_armed
}

/// The step of a connection whose receive completed: it goes on with what arrived, or it closes.
pub open spec fn recv_steps(
    score: spec_fn(Seq<u8>, Route, Seq<u8>) -> bool,
    old_conn: Conn,
    res: i32,
    new_conn: Conn,
    op: Op,
) -> bool {
    if res > 0 {
        exists|filled: Conn| #[trigger]
            is_received(old_conn, res as int, filled) && advances(score, filled, new_conn, op, true)
    } else {
        &&& op is Close
        &&& new_conn.inbox == old_conn.inbox
        &&& new_conn.pending == old_conn.pending
        &&& new_conn.close_after == old_conn.close_after
        &&& !new_conn.recv_armed
    }
}

/// The step of a connection whose send completed: it sends what is left of the response, and behind
/// the whole response it closes or goes on.
pub open spec fn send_steps(
    score: spec_fn(Seq<u8>, Route, Seq<u8>) -> bool,
    old_conn: Conn,
    res: i32,
    new_conn: Conn,
    op: Op,
    receive: bool,
) -> bool {
    if res <= 0 {
        op is Close && new_conn == old_conn
    } else if is_partial(old_conn, res as int) {
        continues(old_conn, res as int, new_conn, op)
    } else if old_conn.close_after {
        op is Close && without_pending(old_conn, new_conn)
    } else {
        exists|free: Conn| #[trigger]
            without_pending(old_conn, free) && advances(score, free, new_conn, op, receive)
    }
}

/// The connection without the response that is sent in full.
pub open spec fn without_pending(a: Conn, b: Conn) -> bool {
    &&& b.pending is None
    &&& a.inbox == b.inbox
    &&& a.close_after == b.close_after
    &&& a.recv_armed == b.recv_armed
}

impl Conn {
    pub open spec fn well_formed(&self) -> bool {
        &&& self.inbox.well_formed()
        &&& self.pending matches Some((data, off)) ==> off <= data@.len()
    }

    pub fn new() -> (conn: Self)
        ensures
            conn.well_formed(),
            conn.inbox@ == Seq::<u8>::empty(),
            conn.pending is None,
            !conn.close_after,
            !conn.recv_armed,
    {
        Conn { inbox: Inbox::new(), pending: None, close_after: false, recv_armed: false }
    }

    /// Starts to receive, if there is room.
    pub fn arm_recv(&mut self) -> (op: Op)
        requires
            old(self).well_formed(),
        ensures
            final(self).well_formed(),
            final(self).inbox == old(self).inbox,
            final(self).pending == old(self).pending,
            final(self).close_after == old(self).close_after,
            if old(self).inbox@.len() >= HANDOFF_BUFFER_BYTES {
                op is Nothing && final(self).recv_armed == old(self).recv_armed
            } else {
                op is Receive && final(self).recv_armed
            },
    {
        if self.inbox.len >= HANDOFF_BUFFER_BYTES {
            return Op::Nothing;
        }
        self.recv_armed = true;
        Op::Receive
    }

    fn submit_send(&mut self, response: &'static [u8], close: bool) -> (op: Op)
        requires
            old(self).inbox.well_formed(),
        ensures
            final(self).well_formed(),
            final(self).inbox == old(self).inbox,
            sends(*old(self), response@, close, *final(self), op),
    {
        self.pending = Some((response, 0));
        self.close_after = close;
        Op::Send(response, 0)
    }

    fn answer<
        F: Fn(&[u8]) -> u32,
        D: Fn(u32, u32) -> u32,
        P: Fn(&TreeCase<'_>, &Numbers) -> bool,
        N: Fn(&[u8]) -> u64,
        Q: Fn(Quantity) -> i16,
        V: Fn(&Vec16I, u16) -> u8,
        X: Fn(&[u8]) -> Option<u8>,
    >(
        &mut self,
        setup: &ApiSetup,
        engine: &Engine<F, D, P, N, Q, V, X>,
        c: &Constants,
        receive: bool,
    ) -> (op: Op)
        requires
            old(self).well_formed(),
            engine_runs(*engine),
            c.well_formed(),
        ensures
            final(self).well_formed(),
            advances(service(*setup, *engine, *c), *old(self), *final(self), op, receive),
    {
        let next = self.inbox.next();
        assert(is_next(old(self).inbox@, next));
        match next {
            Next::Wait => if receive {
                self.arm_recv()
            } else {
                Op::Nothing
            },
            Next::Serve(request) => {
                let bytes = self.inbox.bytes();
                let body = &bytes[request.header_len..request.total_len];
                let ghost asked = body@;
                let response = process_request(setup, engine, c, body, request.route);
                self.inbox.compact(request.total_len);
                assert(self.inbox@ =~= old(self).inbox@.skip(request.total_len as int));
                let ghost score = service(*setup, *engine, *c);
                assert(score(asked, request.route, response@));
                let op = self.submit_send(response, request.close_after_response);
                assert(sends(
                    *old(self),
                    response@,
                    request.close_after_response,
                    *self,
                    op,
                ));
                op
            },
            Next::Refuse(response) => self.submit_send(response, true),
        }
    }

    /// Goes on with the bytes that have arrived; a receive is submitted where more are needed.
    pub fn advance<
        F: Fn(&[u8]) -> u32,
        D: Fn(u32, u32) -> u32,
        P: Fn(&TreeCase<'_>, &Numbers) -> bool,
        N: Fn(&[u8]) -> u64,
        Q: Fn(Quantity) -> i16,
        V: Fn(&Vec16I, u16) -> u8,
        X: Fn(&[u8]) -> Option<u8>,
    >(
        &mut self,
        setup: &ApiSetup,
        engine: &Engine<F, D, P, N, Q, V, X>,
        c: &Constants,
    ) -> (op: Op)
        requires
            old(self).well_formed(),
            engine_runs(*engine),
            c.well_formed(),
        ensures
            final(self).well_formed(),
            advances(service(*setup, *engine, *c), *old(self), *final(self), op, true),
    {
        self.answer(setup, engine, c, true)
    }

    /// Goes on with the bytes that have arrived, unless a response is being sent. More bytes come
    /// by themselves.
    pub fn advance_multi<
        F: Fn(&[u8]) -> u32,
        D: Fn(u32, u32) -> u32,
        P: Fn(&TreeCase<'_>, &Numbers) -> bool,
        N: Fn(&[u8]) -> u64,
        Q: Fn(Quantity) -> i16,
        V: Fn(&Vec16I, u16) -> u8,
        X: Fn(&[u8]) -> Option<u8>,
    >(
        &mut self,
        setup: &ApiSetup,
        engine: &Engine<F, D, P, N, Q, V, X>,
        c: &Constants,
    ) -> (op: Op)
        requires
            old(self).well_formed(),
            engine_runs(*engine),
            c.well_formed(),
        ensures
            final(self).well_formed(),
            if old(self).pending is Some {
                op is Nothing && *final(self) == *old(self)
            } else {
                advances(service(*setup, *engine, *c), *old(self), *final(self), op, false)
            },
    {
        if self.pending.is_some() {
            return Op::Nothing;
        }
        self.answer(setup, engine, c, false)
    }

    /// A receive completed: so many bytes arrived, or the peer is gone.
    pub fn on_recv<
        F: Fn(&[u8]) -> u32,
        D: Fn(u32, u32) -> u32,
        P: Fn(&TreeCase<'_>, &Numbers) -> bool,
        N: Fn(&[u8]) -> u64,
        Q: Fn(Quantity) -> i16,
        V: Fn(&Vec16I, u16) -> u8,
        X: Fn(&[u8]) -> Option<u8>,
    >(
        &mut self,
        res: i32,
        setup: &ApiSetup,
        engine: &Engine<F, D, P, N, Q, V, X>,
        c: &Constants,
    ) -> (op: Op)
        requires
            old(self).well_formed(),
            res > 0 ==> old(self).inbox.len + res <= HANDOFF_BUFFER_BYTES,
            engine_runs(*engine),
            c.well_formed(),
        ensures
            final(self).well_formed(),
            recv_steps(service(*setup, *engine, *c), *old(self), res, *final(self), op),
    {
        self.recv_armed = false;
        if res > 0 {
            self.inbox.received(res as usize);
            let ghost filled = *self;
            assert(is_received(*old(self), res as int, filled));
            let op = self.advance(setup, engine, c);
            op
        } else {
            Op::Close
        }
    }

    /// A send took so many bytes: whether part of the response is left, with what to submit then.
    fn sent(&mut self, count: usize) -> (more: Option<Op>)
        requires
            old(self).well_formed(),
            old(self).pending matches Some((data, off)) ==> off + count <= data@.len(),
        ensures
            final(self).well_formed(),
            match more {
                Some(op) => is_partial(*old(self), count as int) && continues(
                    *old(self),
                    count as int,
                    *final(self),
                    op,
                ),
                None => !is_partial(*old(self), count as int) && without_pending(
                    *old(self),
                    *final(self),
                ),
            },
    {
        match self.pending {
            Some((data, off)) => {
                self.pending = None;
                let end: usize = data.len();
                let new_off: usize = off + count;
                if new_off < end {
                    self.pending = Some((data, new_off));
                    Some(Op::Send(data, new_off))
                } else {
                    None
                }
            },
            None => None,
        }
    }

    /// A send completed: it goes on where it stopped, and behind the whole response the connection
    /// closes or goes on.
    pub fn on_send<
        F: Fn(&[u8]) -> u32,
        D: Fn(u32, u32) -> u32,
        P: Fn(&TreeCase<'_>, &Numbers) -> bool,
        N: Fn(&[u8]) -> u64,
        Q: Fn(Quantity) -> i16,
        V: Fn(&Vec16I, u16) -> u8,
        X: Fn(&[u8]) -> Option<u8>,
    >(
        &mut self,
        res: i32,
        setup: &ApiSetup,
        engine: &Engine<F, D, P, N, Q, V, X>,
        c: &Constants,
    ) -> (op: Op)
        requires
            old(self).well_formed(),
            res > 0 ==> (old(self).pending matches Some((data, off)) ==> off + res <= data@.len()),
            engine_runs(*engine),
            c.well_formed(),
        ensures
            final(self).well_formed(),
            send_steps(
                service(*setup, *engine, *c),
                *old(self),
                res,
                *final(self),
                op,
                true,
            ),
    {
        if res <= 0 {
            return Op::Close;
        }
        match self.sent(res as usize) {
            Some(op) => op,
            None => {
                if self.close_after {
                    return Op::Close;
                }
                let ghost free = *self;
                assert(without_pending(*old(self), free));
                self.advance(setup, engine, c)
            },
        }
    }

    /// A send completed, where bytes arrive by themselves.
    pub fn on_send_multi<
        F: Fn(&[u8]) -> u32,
        D: Fn(u32, u32) -> u32,
        P: Fn(&TreeCase<'_>, &Numbers) -> bool,
        N: Fn(&[u8]) -> u64,
        Q: Fn(Quantity) -> i16,
        V: Fn(&Vec16I, u16) -> u8,
        X: Fn(&[u8]) -> Option<u8>,
    >(
        &mut self,
        res: i32,
        setup: &ApiSetup,
        engine: &Engine<F, D, P, N, Q, V, X>,
        c: &Constants,
    ) -> (op: Op)
        requires
            old(self).well_formed(),
            res > 0 ==> (old(self).pending matches Some((data, off)) ==> off + res <= data@.len()),
            engine_runs(*engine),
            c.well_formed(),
        ensures
            final(self).well_formed(),
            send_steps(
                service(*setup, *engine, *c),
                *old(self),
                res,
                *final(self),
                op,
                false,
            ),
    {
        if res <= 0 {
            return Op::Close;
        }
        match self.sent(res as usize) {
            Some(op) => op,
            None => {
                if self.close_after {
                    return Op::Close;
                }
                let ghost free = *self;
                assert(without_pending(*old(self), free));
                self.advance_multi(setup, engine, c)
            },
        }
    }
}

/// The group of the buffers that receives fill.
pub const BGID: u16 = 1;

/// The number of the buffers, a power of two.
pub const BUF_COUNT: u16 = 512;

/// The size of a buffer; a connection has room for no more.
pub const BUF_SIZE: usize = 16384;

/// A receive found no buffer free: the error number of the system for that, negated.
pub const NO_BUFFERS: i32 = -105;

/// The buffer that a completion filled, if it filled one, and whether the operation goes on.
pub fn read_flags(flags: u32) -> (r: (Option<u16>, bool))
    ensures
        r.0 == (if flags % 2 == 1 {
            Some((flags / 65536) as u16)
        } else {
            None::<u16>
        }),
        r.1 == (flags / 2 % 2 == 1),
{
    (io_uring::cqueue::buffer_select(flags), io_uring::cqueue::more(flags))
}

/// The places in the ring where buffers are handed back, one behind the other.
#[derive(Debug, Clone, Copy, PartialEq, Eq, Structural)]
pub struct BufRing {
    pub tail: u16,
}

/// The place of a buffer that is handed back at this tail, and the tail behind it.
pub open spec fn published(tail: u16) -> (int, int) {
    (tail as int % BUF_COUNT as int, (tail + 1) % 65536)
}

impl BufRing {
    pub fn new() -> (ring: Self)
        ensures
            ring.tail == 0,
    {
        BufRing { tail: 0 }
    }

    /// The place of the next buffer that is handed back; the tail moves behind it.
    pub fn publish(&mut self) -> (slot: usize)
        ensures
            slot == old(self).tail as int % BUF_COUNT as int,
            final(self).tail as int == (old(self).tail + 1) % 65536,
            (slot as int, final(self).tail as int) == published(old(self).tail),
    {
        let tail: u16 = self.tail;
        let mask: u16 = BUF_COUNT - 1;
        let slot: u16 = tail & mask;
        assert(tail & 511 == tail % 512) by (bit_vector);
        self.tail = tail.wrapping_add(1);
        slot as usize
    }
}

/// Where a buffer starts.
pub open spec fn buffer_start(bid: int) -> int {
    bid * BUF_SIZE
}

/// Where the first `len` bytes of a buffer end.
pub open spec fn buffer_end(bid: int, len: int) -> int {
    buffer_start(bid) + (if len <= BUF_SIZE {
        len
    } else {
        BUF_SIZE as int
    })
}

/// Where the first `len` bytes of a buffer lie.
pub fn buffer_range(bid: u16, len: usize) -> (r: (usize, usize))
    requires
        bid < BUF_COUNT,
    ensures
        r.0 == buffer_start(bid as int),
        r.1 == r.0 + (if len <= BUF_SIZE {
            len
        } else {
            BUF_SIZE
        }),
        r.1 == buffer_end(bid as int, len as int),
{
    let start: usize = bid as usize * BUF_SIZE;
    let count: usize = if len <= BUF_SIZE {
        len
    } else {
        BUF_SIZE
    };
    (start, start + count)
}

/// The buffers do not overlap, and the last one ends where the memory for them ends.
pub proof fn law_buffers_lie_apart(a: int, b: int)
    requires
        0 <= a < b < BUF_COUNT,
    ensures
        0 <= buffer_start(a),
        buffer_start(a) + BUF_SIZE <= buffer_start(b),
        buffer_start(b) + BUF_SIZE <= BUF_COUNT * BUF_SIZE,
{
    assert(a * 16384 + 16384 <= b * 16384) by (nonlinear_arith)
        requires
            a < b,
    ;
}

/// As many buffers as there are, handed back one behind the other, get each a place of its own.
pub proof fn law_places_are_apart(tail: int, i: int, j: int)
    requires
        0 <= tail < 65536,
        0 <= i < j < BUF_COUNT,
    ensures
        (tail + i) % 65536 % (BUF_COUNT as int) != (tail + j) % 65536 % (BUF_COUNT as int),
{
    assert((tail + i) % 65536 % 512 == (tail + i) % 512) by (nonlinear_arith)
        requires
            0 <= tail + i,
    ;
    assert((tail + j) % 65536 % 512 == (tail + j) % 512) by (nonlinear_arith)
        requires
            0 <= tail + j,
    ;
    assert((tail + i) % 512 != (tail + j) % 512) by (nonlinear_arith)
        requires
            0 < j - i < 512,
    ;
}

/// What to do behind a completed receive, where bytes arrive by themselves.
#[derive(Debug, Clone, Copy)]
pub struct MultiStep {
    /// The buffer to hand back.
    pub publish: Option<u16>,
    pub op: Op,
    /// The receive is to be started again.
    pub rearm: bool,
    pub close: bool,
}

/// What is done behind a receive that completed for a connection that is gone.
pub open spec fn orphaned(bid: Option<u16>) -> MultiStep {
    MultiStep { publish: bid, op: Op::Nothing, rearm: false, close: false }
}

/// A receive completed for a connection that is gone: its buffer is handed back.
pub fn on_recv_orphaned(bid: Option<u16>) -> (step: MultiStep)
    ensures
        step.publish == bid,
        step.op is Nothing,
        !step.rearm,
        !step.close,
        step == orphaned(bid),
{
    MultiStep { publish: bid, op: Op::Nothing, rearm: false, close: false }
}

/// The bytes that a connection takes in of a chunk: as much as there is room for.
pub open spec fn taken(inbox: Seq<u8>, chunk: Seq<u8>) -> Seq<u8> {
    if chunk.len() <= HANDOFF_BUFFER_BYTES - inbox.len() {
        inbox + chunk
    } else {
        inbox + chunk.take(HANDOFF_BUFFER_BYTES - inbox.len())
    }
}

/// The connection after a chunk was taken in.
pub open spec fn is_filled(conn: Conn, bid: Option<u16>, chunk: Seq<u8>, filled: Conn) -> bool {
    &&& filled.inbox@ == (if bid is Some {
        taken(conn.inbox@, chunk)
    } else {
        conn.inbox@
    })
    &&& filled.pending == conn.pending
    &&& filled.close_after == conn.close_after
    &&& filled.recv_armed == conn.recv_armed
}

/// The step of a connection whose receive completed, where bytes arrive by themselves: it takes the
/// chunk in, and goes on with what has arrived unless a response is being sent.
pub open spec fn multi_steps(
    score: spec_fn(Seq<u8>, Route, Seq<u8>) -> bool,
    old_conn: Conn,
    res: i32,
    bid: Option<u16>,
    more: bool,
    chunk: Seq<u8>,
    new_conn: Conn,
    step: MultiStep,
) -> bool {
    &&& step.close == (res <= 0 && res != NO_BUFFERS)
    &&& step.rearm == (!more && !step.close)
    &&& step.publish == (if res > 0 {
        bid
    } else {
        None::<u16>
    })
    &&& if res > 0 {
        exists|filled: Conn| #[trigger]
            is_filled(old_conn, bid, chunk, filled) && if filled.pending is Some {
                step.op is Nothing && new_conn == filled
            } else {
                advances(score, filled, new_conn, step.op, false)
            }
    } else {
        step.op is Nothing && new_conn == old_conn
    }
}

impl Conn {
    /// A receive completed, where bytes arrive by themselves: `chunk` is what the buffer `bid` was
    /// filled with. The buffer is handed back once its bytes are taken in, and the receive is
    /// started again where it does not go on by itself.
    pub fn on_recv_multi<
        F: Fn(&[u8]) -> u32,
        D: Fn(u32, u32) -> u32,
        P: Fn(&TreeCase<'_>, &Numbers) -> bool,
        N: Fn(&[u8]) -> u64,
        Q: Fn(Quantity) -> i16,
        V: Fn(&Vec16I, u16) -> u8,
        X: Fn(&[u8]) -> Option<u8>,
    >(
        &mut self,
        res: i32,
        bid: Option<u16>,
        more: bool,
        chunk: &[u8],
        setup: &ApiSetup,
        engine: &Engine<F, D, P, N, Q, V, X>,
        c: &Constants,
    ) -> (step: MultiStep)
        requires
            old(self).well_formed(),
            engine_runs(*engine),
            c.well_formed(),
        ensures
            final(self).well_formed(),
            multi_steps(
                service(*setup, *engine, *c),
                *old(self),
                res,
                bid,
                more,
                chunk@,
                *final(self),
                step,
            ),
    {
        if res > 0 {
            if bid.is_some() {
                self.inbox.append(chunk);
            }
            let ghost filled = *self;
            assert(is_filled(*old(self), bid, chunk@, filled));
            let op = self.advance_multi(setup, engine, c);
            MultiStep { publish: bid, op, rearm: !more, close: false }
        } else if res == NO_BUFFERS {
            MultiStep { publish: None, op: Op::Nothing, rearm: !more, close: false }
        } else {
            MultiStep { publish: None, op: Op::Nothing, rearm: false, close: true }
        }
    }
}

} // verus!
