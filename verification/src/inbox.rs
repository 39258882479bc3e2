//! The bytes of a connection that have arrived and are not answered yet.
use vstd::prelude::*;

use crate::handoff::{handoff_outcome, parse_handoff_request, law_waiting_is_bounded};
use crate::head::refusal_response;
use crate::request::ParsedRequest;

verus! {

/// The room that a connection has for what arrives.
pub const HANDOFF_BUFFER_BYTES: usize = 14336;

/// What has arrived: the first `len` bytes of `buf`.
#[derive(Debug)]
pub struct Inbox {
    pub buf: Vec<u8>,
    pub len: usize,
}

impl View for Inbox {
    type V = Seq<u8>;

    open spec fn view(&self) -> Seq<u8> {
        self.buf@.take(self.len as int)
    }
}

impl Inbox {
    pub open spec fn well_formed(&self) -> bool {
        &&& self.buf@.len() == HANDOFF_BUFFER_BYTES
        &&& self.len <= HANDOFF_BUFFER_BYTES
    }

    /// An empty inbox.
    pub fn new() -> (inbox: Self)
        ensures
            inbox.well_formed(),
            inbox@ == Seq::<u8>::empty(),
    {
        let inbox = Inbox { buf: vec![0u8;HANDOFF_BUFFER_BYTES], len: 0 };
        assert(inbox@ =~= Seq::<u8>::empty());
        inbox
    }

    /// The bytes that have arrived.
    pub fn bytes(&self) -> (bytes: &[u8])
        requires
            self.well_formed(),
        ensures
            bytes@ == self@,
    {
        let whole: &[u8] = self.buf.as_slice();
        assert(whole@.subrange(0, self.len as int) =~= self@);
        &whole[0..self.len]
    }

    /// The room that is left.
    pub fn spare(&self) -> (room: usize)
        requires
            self.well_formed(),
        ensures
            room == HANDOFF_BUFFER_BYTES - self@.len(),
    {
        HANDOFF_BUFFER_BYTES - self.len
    }

    /// Takes in `count` bytes that were put behind the others.
    pub fn received(&mut self, count: usize)
        requires
            old(self).well_formed(),
            old(self).len + count <= HANDOFF_BUFFER_BYTES,
        ensures
            final(self).well_formed(),
            final(self).buf@ == old(self).buf@,
            final(self).len == old(self).len + count,
            final(self)@ == old(self)@ + old(self).buf@.subrange(
                old(self).len as int,
                old(self).len + count,
            ),
    {
        self.len = self.len + count;
        assert(self@ =~= old(self)@ + old(self).buf@.subrange(
            old(self).len as int,
            old(self).len + count,
        ));
    }

    /// Puts as much of `chunk` behind the others as there is room for.
    pub fn append(&mut self, chunk: &[u8])
        requires
            old(self).well_formed(),
        ensures
            final(self).well_formed(),
            final(self)@ == old(self)@ + (if chunk@.len() <= HANDOFF_BUFFER_BYTES
                - old(self)@.len() {
                chunk@
            } else {
                chunk@.take(HANDOFF_BUFFER_BYTES - old(self)@.len())
            }),
    {
        let room: usize = HANDOFF_BUFFER_BYTES - self.len;
        let count: usize = if chunk.len() <= room {
            chunk.len()
        } else {
            room
        };
        let start: usize = self.len;
        let mut i: usize = 0;
        while i < count
            invariant
                self.well_formed(),
                i <= count <= chunk@.len(),
                start + count <= HANDOFF_BUFFER_BYTES,
                self.len == start,
                forall|k: int| 0 <= k < start ==> self.buf@[k] == old(self).buf@[k],
                forall|k: int| 0 <= k < i ==> self.buf@[start + k] == #[trigger] chunk@[k],
            decreases count - i,
        {
            let ghost before = self.buf@;
            self.buf.set(start + i, chunk[i]);
            assert(self.buf@ == before.update(start + i, chunk@[i as int]));
            i = i + 1;
        }
        self.len = start + count;
        assert(self@ =~= old(self)@ + chunk@.take(count as int));
        assert(chunk@.take(chunk@.len() as int) =~= chunk@);
    }

    /// Drops the first `consumed` bytes, and all of them if there are no more.
    pub fn compact(&mut self, consumed: usize)
        requires
            old(self).well_formed(),
        ensures
            final(self).well_formed(),
            final(self)@ == (if consumed >= old(self)@.len() {
                Seq::<u8>::empty()
            } else {
                old(self)@.skip(consumed as int)
            }),
    {
        if consumed >= self.len {
            self.len = 0;
            assert(self@ =~= Seq::<u8>::empty());
        } else {
            let end: usize = self.len;
            let rest: usize = end - consumed;
            let mut i: usize = 0;
            while i < rest
                invariant
                    self.well_formed(),
                    self.len == end,
                    old(self).well_formed(),
                    old(self).len == end,
                    i <= rest == end - consumed,
                    forall|k: int| 0 <= k < i ==> self.buf@[k] == old(self).buf@[consumed + k],
                    forall|k: int|
                        i <= k < HANDOFF_BUFFER_BYTES ==> self.buf@[k] == old(self).buf@[k],
                decreases rest - i,
            {
                let byte: u8 = self.buf[consumed + i];
                let ghost before = self.buf@;
                self.buf.set(i, byte);
                assert(self.buf@ == before.update(i as int, byte));
                i = i + 1;
            }
            self.len = rest;
            assert(self@ =~= old(self)@.skip(consumed as int));
        }
    }
}

/// What to do with the bytes that have arrived.
#[derive(Debug, Clone, Copy)]
pub enum Next {
    /// Wait for more of them.
    Wait,
    /// Answer a request.
    Serve(ParsedRequest),
    /// Refuse what arrived, with this response.
    Refuse(&'static [u8]),
}

/// `next` is what to do with these bytes.
pub open spec fn is_next(bytes: Seq<u8>, next: Next) -> bool {
    match (handoff_outcome(bytes), next) {
        (Ok(None), Next::Wait) => true,
        (Ok(Some(wanted)), Next::Serve(request)) => request == wanted,
        (Err(why), Next::Refuse(response)) => response@ == refusal_response(why),
        _ => false,
    }
}

impl Inbox {
    /// What to do with the bytes that have arrived. There is always room for the rest of a
    /// request that is waited for.
    pub fn next(&self) -> (next: Next)
        requires
            self.well_formed(),
        ensures
            is_next(self@, next),
            next is Wait ==> self@.len() < HANDOFF_BUFFER_BYTES,
            next matches Next::Serve(request) ==> request.header_len <= request.total_len
                <= self@.len(),
    {
        proof {
            law_waiting_is_bounded(self@);
        }
        match parse_handoff_request(self.bytes()) {
            Ok(None) => Next::Wait,
            Ok(Some(request)) => Next::Serve(request),
            Err(error) => Next::Refuse(error.response),
        }
    }
}

} // verus!
