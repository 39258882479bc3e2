//! The backends: which one is next, the idle connections to each, and the attempts at a request.
use vstd::prelude::*;

use crate::lb::metrics::RequestTrace;

verus! {

/// One more, up to the largest number.
pub open spec fn one_more(n: u64) -> u64 {
    if n < u64::MAX {
        (n + 1) as u64
    } else {
        n
    }
}

/// What is taken of the idle connections, and what is left of them.
pub open spec fn idle_taken<T>(idle: Seq<T>, force_fresh: bool) -> (Option<T>, Seq<T>) {
    if force_fresh || idle.len() == 0 {
        (None, Seq::empty())
    } else {
        (Some(idle.last()), idle.drop_last())
    }
}

/// The idle connections when one is put back.
pub open spec fn idle_put<T>(idle: Seq<T>, room: int, stream: T) -> Seq<T> {
    if idle.len() < room {
        idle.push(stream)
    } else {
        idle
    }
}

/// Another idle connection is wanted.
pub open spec fn idle_wanted(idle: int, room: int, target: int) -> bool {
    idle < target && idle < room
}

/// The idle connections to a backend; the one that was put back last is taken first.
#[derive(Debug)]
pub struct BackendPool<T> {
    pub addr: String,
    pub idle: Vec<T>,
    pub max_idle: usize,
}

impl<T> BackendPool<T> {
    /// There are never more idle connections than the pool has room for.
    pub open spec fn well_formed(&self) -> bool {
        self.idle@.len() <= self.max_idle
    }

    /// A pool without connections.
    pub fn new(addr: String, max_connections: usize) -> (pool: Self)
        ensures
            pool.well_formed(),
            pool.addr@ == addr@,
            pool.idle@ == Seq::<T>::empty(),
            pool.max_idle == max_connections,
    {
        BackendPool { addr, idle: Vec::new(), max_idle: max_connections }
    }

    /// The address of the backend.
    pub fn addr(&self) -> (addr: &str)
        ensures
            addr@ == self.addr@,
    {
        self.addr.as_str()
    }

    /// Takes an idle connection; none where there is none, and where a fresh one is asked for,
    /// which the idle ones are dropped for.
    pub fn take(&mut self, trace: &mut RequestTrace, force_fresh: bool) -> (stream: Option<T>)
        requires
            old(self).well_formed(),
        ensures
            final(self).well_formed(),
            final(self).addr == old(self).addr,
            final(self).max_idle == old(self).max_idle,
            (stream, final(self).idle@) == idle_taken(old(self).idle@, force_fresh),
            match stream {
                Some(taken) => {
                    &&& !force_fresh
                    &&& old(self).idle@.len() > 0
                    &&& taken == old(self).idle@.last()
                    &&& final(self).idle@ == old(self).idle@.drop_last()
                    &&& *final(trace) == (RequestTrace {
                        idle_hits: one_more(old(trace).idle_hits),
                        ..*old(trace)
                    })
                },
                None => {
                    &&& force_fresh || old(self).idle@.len() == 0
                    &&& final(self).idle@ == Seq::<T>::empty()
                    &&& *final(trace) == (RequestTrace {
                        idle_misses: one_more(old(trace).idle_misses),
                        ..*old(trace)
                    })
                },
            },
    {
        if force_fresh {
            self.idle.clear();
            trace.idle_misses = trace.idle_misses.saturating_add(1);
            return None;
        }
        match self.idle.pop() {
            Some(stream) => {
                trace.idle_hits = trace.idle_hits.saturating_add(1);
                Some(stream)
            },
            None => {
                assert(self.idle@ =~= Seq::<T>::empty());
                trace.idle_misses = trace.idle_misses.saturating_add(1);
                None
            },
        }
    }

    /// Puts a connection back, if there is room for it.
    pub fn put(&mut self, stream: T)
        requires
            old(self).well_formed(),
        ensures
            final(self).well_formed(),
            final(self).addr == old(self).addr,
            final(self).max_idle == old(self).max_idle,
            final(self).idle@ == (if old(self).idle@.len() < old(self).max_idle {
                old(self).idle@.push(stream)
            } else {
                old(self).idle@
            }),
            final(self).idle@ == idle_put(old(self).idle@, old(self).max_idle as int, stream),
    {
        if self.idle.len() < self.max_idle {
            self.idle.push(stream);
        }
    }

    /// Whether another connection is wanted, to have `target_idle` idle ones or as many as there
    /// is room for.
    pub fn wants_warm(&self, target_idle: usize) -> (wanted: bool)
        ensures
            wanted == (self.idle@.len() < target_idle && self.idle@.len() < self.max_idle),
            wanted == idle_wanted(
                self.idle@.len() as int,
                self.max_idle as int,
                target_idle as int,
            ),
    {
        self.idle.len() < target_idle && self.idle.len() < self.max_idle
    }

    /// Puts a connection that was made ahead into the pool, if it is still wanted.
    pub fn warm(&mut self, stream: T, target_idle: usize)
        requires
            old(self).well_formed(),
        ensures
            final(self).well_formed(),
            final(self).addr == old(self).addr,
            final(self).max_idle == old(self).max_idle,
            final(self).idle@ == (if old(self).idle@.len() < target_idle && old(self).idle@.len()
                < old(self).max_idle {
                old(self).idle@.push(stream)
            } else {
                old(self).idle@
            }),
            final(self).idle@ == (if idle_wanted(
                old(self).idle@.len() as int,
                old(self).max_idle as int,
                target_idle as int,
            ) {
                idle_put(old(self).idle@, old(self).max_idle as int, stream)
            } else {
                old(self).idle@
            }),
    {
        if self.wants_warm(target_idle) {
            self.idle.push(stream);
        }
    }
}

/// The backends in turn.
#[derive(Debug, Clone, Copy, PartialEq, Eq, Structural)]
pub struct RoundRobin {
    pub next: u64,
}

impl RoundRobin {
    pub fn new() -> (robin: Self)
        ensures
            robin.next == 0,
    {
        RoundRobin { next: 0 }
    }

    /// The backend whose turn it is.
    pub fn choose_backend(&mut self) -> (backend: usize)
        ensures
            backend == old(self).next % 2,
            backend == turn(old(self).next as int, 0),
            final(self).next == (old(self).next + 1) % 0x1_0000_0000_0000_0000,
    {
        let turn: u64 = self.next;
        assert(turn & 1 == turn % 2) by (bit_vector);
        self.next = turn.wrapping_add(1);
        (turn & 1) as usize
    }
}

/// The turn after so many more.
pub open spec fn turn(next: int, after: int) -> int {
    (next + after) % 0x1_0000_0000_0000_0000 % 2
}

/// The backends take turns: the one after the other, and each again after that.
pub proof fn law_backends_take_turns(next: int, after: int)
    requires
        0 <= next,
        0 <= after,
    ensures
        turn(next, after + 1) == 1 - turn(next, after),
        turn(next, after + 2) == turn(next, after),
{
}

/// The clients that are served, and the most there were, when another one comes.
pub open spec fn counts_begun(counts: ClientCounts) -> ClientCounts {
    let active = one_more(counts.active);
    ClientCounts {
        active,
        max_active: if active > counts.max_active {
            active
        } else {
            counts.max_active
        },
    }
}

/// The clients that are served, and the most there were, when one goes.
pub open spec fn counts_ended(counts: ClientCounts) -> ClientCounts {
    ClientCounts { active: (counts.active - 1) as u64, max_active: counts.max_active }
}

/// The clients that are served, and the most there were at a time.
#[derive(Debug, Clone, Copy, PartialEq, Eq, Structural)]
pub struct ClientCounts {
    pub active: u64,
    pub max_active: u64,
}

impl ClientCounts {
    pub open spec fn well_formed(&self) -> bool {
        self.active <= self.max_active
    }

    pub fn new() -> (counts: Self)
        ensures
            counts.well_formed(),
            counts == (ClientCounts { active: 0, max_active: 0 }),
    {
        ClientCounts { active: 0, max_active: 0 }
    }

    /// A client comes.
    pub fn begin_client(&mut self)
        requires
            old(self).well_formed(),
        ensures
            final(self).well_formed(),
            final(self).active == one_more(old(self).active),
            final(self).max_active == (if final(self).active > old(self).max_active {
                final(self).active
            } else {
                old(self).max_active
            }),
            *final(self) == counts_begun(*old(self)),
    {
        self.active = self.active.saturating_add(1);
        self.update_max_active_clients();
    }

    fn update_max_active_clients(&mut self)
        ensures
            final(self).active == old(self).active,
            final(self).max_active == (if old(self).active > old(self).max_active {
                old(self).active
            } else {
                old(self).max_active
            }),
    {
        if self.active > self.max_active {
            self.max_active = self.active;
        }
    }

    /// A client goes.
    pub fn end_client(&mut self)
        requires
            old(self).well_formed(),
            old(self).active > 0,
        ensures
            final(self).well_formed(),
            final(self).active == old(self).active - 1,
            final(self).max_active == old(self).max_active,
            *final(self) == counts_ended(*old(self)),
    {
        self.active = self.active - 1;
    }

    /// The most clients there were at a time.
    pub fn max_active_clients_seen(&self) -> (most: u64)
        ensures
            most == self.max_active,
    {
        self.max_active
    }
}

/// An attempt at a request.
#[derive(Debug, Clone, Copy, PartialEq, Eq, Structural)]
pub struct Attempt {
    pub backend: usize,
    /// No idle connection is used.
    pub force_fresh: bool,
}

/// The attempts at a request, in order: the selected backend, once more on a fresh connection, and
/// then the other one.
pub open spec fn attempts(selected: int) -> Seq<Attempt> {
    seq![
        Attempt { backend: selected as usize, force_fresh: false },
        Attempt { backend: selected as usize, force_fresh: true },
        Attempt { backend: (1 - selected) as usize, force_fresh: true },
    ]
}

/// The attempts at one request.
#[derive(Debug, Clone, Copy, PartialEq, Eq, Structural)]
pub struct Attempts {
    pub selected: usize,
    pub made: usize,
}

impl Attempts {
    /// The backend is one of the two, and an attempt is under way.
    pub open spec fn well_formed(&self) -> bool {
        self.selected < 2 && self.made < 3
    }

    /// The first attempt.
    pub fn start(selected: usize) -> (r: (Self, Attempt))
        requires
            selected < 2,
        ensures
            r.0.well_formed(),
            r.0 == (Attempts { selected, made: 0 }),
            r.1 == attempts(selected as int)[0],
    {
        (Attempts { selected, made: 0 }, Attempt { backend: selected, force_fresh: false })
    }

    /// What follows an attempt that failed: the next one, or none if it was the last.
    pub fn failed(&mut self, trace: &mut RequestTrace) -> (next: Option<Attempt>)
        requires
            old(self).well_formed(),
        ensures
            match next {
                Some(attempt) => {
                    &&& old(self).made < 2
                    &&& final(self).well_formed()
                    &&& final(self).selected == old(self).selected
                    &&& final(self).made == old(self).made + 1
                    &&& attempt == attempts(old(self).selected as int)[old(self).made + 1]
                    &&& *final(trace) == (RequestTrace {
                        reconnects: one_more(old(trace).reconnects),
                        retries: one_more(old(trace).retries),
                        ..*old(trace)
                    })
                },
                None => {
                    &&& old(self).made == 2
                    &&& *final(self) == *old(self)
                    &&& *final(trace) == (RequestTrace {
                        reconnects: one_more(old(trace).reconnects),
                        ..*old(trace)
                    })
                },
            },
    {
        trace.reconnects = trace.reconnects.saturating_add(1);
        if self.made == 2 {
            return None;
        }
        self.made = self.made + 1;
        trace.retries = trace.retries.saturating_add(1);
        let backend: usize = if self.made == 1 {
            self.selected
        } else {
            1 - self.selected
        };
        Some(Attempt { backend, force_fresh: true })
    }
}

/// Both backends are tried before a request is given up, and only the first attempt takes an idle
/// connection.
pub proof fn law_both_backends_are_tried(selected: int)
    requires
        0 <= selected < 2,
    ensures
        attempts(selected).len() == 3,
        attempts(selected)[0].backend == selected,
        attempts(selected)[2].backend == 1 - selected,
        forall|i: int|
            0 <= i < 3 ==> (#[trigger] attempts(selected)[i]).force_fresh == (i > 0),
{
}

/// What is measured of a request that a backend answered.
pub open spec fn forwarded_trace(t: RequestTrace, backend: int) -> RequestTrace {
    if backend == 0 {
        RequestTrace { backend0: 1, ..t }
    } else {
        RequestTrace { backend1: 1, ..t }
    }
}

/// What is measured of a request whose parts took so long to write.
pub open spec fn written_trace(t: RequestTrace, header_us: u64, body_us: u64) -> RequestTrace {
    let header = sum_up(t.upstream_write_header_us, header_us);
    let body = sum_up(t.upstream_write_body_us, body_us);
    RequestTrace {
        upstream_write_header_us: header,
        upstream_write_body_us: body,
        upstream_write_us: sum_up(header, body),
        ..t
    }
}

/// Notes that a backend answered.
pub fn note_forwarded(trace: &mut RequestTrace, backend: usize)
    ensures
        *final(trace) == (if backend == 0 {
            RequestTrace { backend0: 1, ..*old(trace) }
        } else {
            RequestTrace { backend1: 1, ..*old(trace) }
        }),
        *final(trace) == forwarded_trace(*old(trace), backend as int),
{
    if backend == 0 {
        trace.backend0 = 1;
    } else {
        trace.backend1 = 1;
    }
}

/// The sum of two times, up to the largest number.
pub open spec fn sum_up(a: u64, b: u64) -> u64 {
    if a + b <= u64::MAX {
        (a + b) as u64
    } else {
        u64::MAX
    }
}

/// Notes how long the parts of a request took to write.
pub fn note_written(trace: &mut RequestTrace, header_us: u64, body_us: u64)
    ensures
        *final(trace) == ({
            let header = sum_up(old(trace).upstream_write_header_us, header_us);
            let body = sum_up(old(trace).upstream_write_body_us, body_us);
            RequestTrace {
                upstream_write_header_us: header,
                upstream_write_body_us: body,
                upstream_write_us: sum_up(header, body),
                ..*old(trace)
            }
        }),
        *final(trace) == written_trace(*old(trace), header_us, body_us),
{
    trace.upstream_write_header_us = trace.upstream_write_header_us.saturating_add(header_us);
    trace.upstream_write_body_us = trace.upstream_write_body_us.saturating_add(body_us);
    trace.upstream_write_us = trace.upstream_write_header_us.saturating_add(
        trace.upstream_write_body_us,
    );
}

} // verus!
