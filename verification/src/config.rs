//! Settings: texts that may be missing, and the numbers and choices they stand for.
use vstd::prelude::*;
use vstd::utf8::encode_utf8;

use crate::bytes::{ascii, find_byte, index_from, literal, same_bytes};
use crate::decimal::{number_text, parse_number};
use crate::lb::client::UpstreamProtocol;
use crate::text::{lower, to_lower, trim, trimmed};

verus! {

/// The number that a setting stands for; `default` where it is missing or is none.
pub open spec fn number_setting(value: Option<&str>, max: nat, default: nat) -> nat {
    match value {
        Some(text) => match number_text(encode_utf8(text@), max) {
            Some(n) => n,
            None => default,
        },
        None => default,
    }
}

/// The smallest number from `low` to `high` that is not below `n`, else the largest.
pub open spec fn clamped(n: nat, low: nat, high: nat) -> nat {
    if n < low {
        low
    } else if n > high {
        high
    } else {
        n
    }
}

/// Reads a setting of 64 bits.
pub fn u64_setting(value: Option<&str>, default: u64) -> (n: u64)
    ensures
        n == number_setting(value, u64::MAX as nat, default as nat),
{
    match value {
        Some(text) => match parse_number(text.as_bytes(), u64::MAX) {
            Some(n) => n,
            None => default,
        },
        None => default,
    }
}

/// Reads a setting of 32 bits.
pub fn env_u32(value: Option<&str>, default: u32) -> (n: u32)
    ensures
        n == number_setting(value, u32::MAX as nat, default as nat),
{
    match value {
        Some(text) => match parse_number(text.as_bytes(), u32::MAX as u64) {
            Some(n) => n as u32,
            None => default,
        },
        None => default,
    }
}

/// Reads a port.
pub fn port_setting(value: Option<&str>) -> (port: u16)
    ensures
        port == number_setting(value, u16::MAX as nat, 8080),
{
    match value {
        Some(text) => match parse_number(text.as_bytes(), u16::MAX as u64) {
            Some(n) => n as u16,
            None => 8080,
        },
        None => 8080,
    }
}

/// Reads a setting of the width of `usize`, and holds it within limits.
pub fn usize_setting(value: Option<&str>, default: usize, low: usize, high: usize) -> (n: usize)
    requires
        low <= high,
    ensures
        n == clamped(
            number_setting(value, usize::MAX as nat, default as nat),
            low as nat,
            high as nat,
        ),
{
    let n: usize = match value {
        Some(text) => match parse_number(text.as_bytes(), usize::MAX as u64) {
            Some(n) => n as usize,
            None => default,
        },
        None => default,
    };
    if n < low {
        low
    } else if n > high {
        high
    } else {
        n
    }
}

/// A setting switches something on.
pub open spec fn switched_on(value: Option<&str>) -> bool {
    value matches Some(text) && encode_utf8(text@) == ascii("1"@)
}

/// Whether a setting switches something on.
pub fn is_on(value: Option<&str>) -> (on: bool)
    ensures
        on == (value matches Some(text) && encode_utf8(text@) == ascii("1"@)),
        on == switched_on(value),
{
    proof {
        reveal_strlit("1");
    }
    match value {
        Some(text) => same_bytes(text.as_bytes(), literal("1")),
        None => false,
    }
}

/// The settings of the load balancer.
#[derive(Debug, Clone, Copy, PartialEq, Eq, Structural)]
pub struct LbSettings {
    pub upstream_pool_per_backend: usize,
    pub upstream_preconnect_per_backend: usize,
    pub trace_every: usize,
    pub trace_slow_us: u64,
    pub trace_sample: u64,
}

/// The settings of the load balancer, given the texts they are read from.
pub open spec fn are_lb_settings(
    pool: Option<&str>,
    preconnect: Option<&str>,
    every: Option<&str>,
    slow_us: Option<&str>,
    sample: Option<&str>,
    s: LbSettings,
) -> bool {
    let size = clamped(number_setting(pool, usize::MAX as nat, 32), 1, 256);
    &&& s.upstream_pool_per_backend == size
    &&& s.upstream_preconnect_per_backend == clamped(
        number_setting(preconnect, usize::MAX as nat, size),
        0,
        size,
    )
    &&& s.trace_every == clamped(
        number_setting(every, usize::MAX as nat, 10000),
        1,
        usize::MAX as nat,
    )
    &&& s.trace_slow_us == number_setting(slow_us, u64::MAX as nat, 10000)
    &&& s.trace_sample == number_setting(sample, u64::MAX as nat, 0)
}

/// Reads the settings of the load balancer: from one to 256 connections to each backend, 32 where
/// nothing is said, and as many made ahead unless fewer are asked for.
pub fn lb_settings(
    pool: Option<&str>,
    preconnect: Option<&str>,
    every: Option<&str>,
    slow_us: Option<&str>,
    sample: Option<&str>,
) -> (s: LbSettings)
    ensures
        s.upstream_pool_per_backend == clamped(
            number_setting(pool, usize::MAX as nat, 32),
            1,
            256,
        ),
        s.upstream_preconnect_per_backend == clamped(
            number_setting(preconnect, usize::MAX as nat, s.upstream_pool_per_backend as nat),
            0,
            s.upstream_pool_per_backend as nat,
        ),
        s.trace_every == clamped(
            number_setting(every, usize::MAX as nat, 10000),
            1,
            usize::MAX as nat,
        ),
        s.trace_slow_us == number_setting(slow_us, u64::MAX as nat, 10000),
        s.trace_sample == number_setting(sample, u64::MAX as nat, 0),
        are_lb_settings(pool, preconnect, every, slow_us, sample, s),
{
    let size: usize = usize_setting(pool, 32, 1, 256);
    LbSettings {
        upstream_pool_per_backend: size,
        upstream_preconnect_per_backend: usize_setting(preconnect, size, 0, size),
        trace_every: usize_setting(every, 10000, 1, usize::MAX),
        trace_slow_us: u64_setting(slow_us, 10000),
        trace_sample: u64_setting(sample, 0),
    }
}

/// The protocol that a setting, in any letter case, names; HTTP where nothing is said.
pub open spec fn protocol_setting(value: Option<&str>) -> Option<UpstreamProtocol> {
    match value {
        None => Some(UpstreamProtocol::Http),
        Some(text) => {
            let name = lower(encode_utf8(text@));
            if name == ascii("http"@) {
                Some(UpstreamProtocol::Http)
            } else if name == ascii("raw"@) {
                Some(UpstreamProtocol::Raw)
            } else {
                None
            }
        },
    }
}

/// Reads the protocol; none if the setting names none.
pub fn upstream_protocol(value: Option<&str>) -> (protocol: Option<UpstreamProtocol>)
    ensures
        protocol == protocol_setting(value),
{
    proof {
        reveal_strlit("http");
        reveal_strlit("raw");
    }
    match value {
        None => Some(UpstreamProtocol::Http),
        Some(text) => {
            let name = to_lower(text.as_bytes());
            if same_bytes(name.as_slice(), literal("http")) {
                Some(UpstreamProtocol::Http)
            } else if same_bytes(name.as_slice(), literal("raw")) {
                Some(UpstreamProtocol::Raw)
            } else {
                None
            }
        },
    }
}

/// The entries of a list with commas between them, without white space around them and without
/// those that are empty.
pub open spec fn entries(list: Seq<u8>) -> Seq<Seq<u8>>
    decreases list.len(),
{
    match index_from(list, seq![44u8], 0) {
        Some(at) => if 0 <= at < list.len() {
            kept(trimmed(list.take(at))) + entries(list.skip(at + 1))
        } else {
            seq![]
        },
        None => kept(trimmed(list)),
    }
}

/// An entry, unless it is empty.
pub open spec fn kept(entry: Seq<u8>) -> Seq<Seq<u8>> {
    if entry.len() == 0 {
        seq![]
    } else {
        seq![entry]
    }
}

/// Why a list of backends cannot be used: there are two.
#[derive(Debug, Clone, Copy, PartialEq, Eq, Structural)]
pub enum BackendsError {
    FirstMissing,
    SecondMissing,
    TooMany,
}

/// The entries of a list.
fn read_entries(list: &[u8]) -> (r: Vec<&[u8]>)
    ensures
        r@.len() == entries(list@).len(),
        forall|i: int| 0 <= i < r@.len() ==> (#[trigger] r@[i])@ == entries(list@)[i],
{
    let mut r: Vec<&[u8]> = Vec::new();
    let mut rest: &[u8] = list;
    let ghost mut done: Seq<Seq<u8>> = seq![];
    assert(done + entries(rest@) =~= entries(list@));
    loop
        invariant_except_break
            entries(list@) == done + entries(rest@),
        invariant
            r@.len() == done.len(),
            forall|i: int| 0 <= i < r@.len() ==> (#[trigger] r@[i])@ == done[i],
        ensures
            entries(list@) == done,
        decreases rest@.len(),
    {
        match find_byte(rest, 44, 0) {
            Some(at) => {
                let entry = trim(&rest[0..at]);
                let end: usize = rest.len();
                proof {
                    assert(rest@.subrange(0, at as int) =~= rest@.take(at as int));
                    assert(rest@.subrange(at + 1, end as int) =~= rest@.skip(at + 1));
                    let tail = entries(rest@.skip(at + 1));
                    assert(done + (kept(entry@) + tail) =~= (done + kept(entry@)) + tail);
                    done = done + kept(entry@);
                }
                if entry.len() > 0 {
                    r.push(entry);
                }
                rest = &rest[at + 1..end];
            },
            None => {
                let entry = trim(rest);
                proof {
                    done = done + kept(entry@);
                }
                if entry.len() > 0 {
                    r.push(entry);
                }
                break;
            },
        }
    }
    r
}

/// The two backends that a list names, or why it names none.
pub open spec fn backends(list: Seq<u8>) -> Result<(Seq<u8>, Seq<u8>), BackendsError> {
    let found = entries(list);
    if found.len() == 0 {
        Err(BackendsError::FirstMissing)
    } else if found.len() == 1 {
        Err(BackendsError::SecondMissing)
    } else if found.len() > 2 {
        Err(BackendsError::TooMany)
    } else {
        Ok((found[0], found[1]))
    }
}

/// Reads the two backends.
pub fn read_backends(list: &[u8]) -> (r: Result<(&[u8], &[u8]), BackendsError>)
    ensures
        match r {
            Ok((first, second)) => entries(list@) == seq![first@, second@],
            Err(BackendsError::FirstMissing) => entries(list@).len() == 0,
            Err(BackendsError::SecondMissing) => entries(list@).len() == 1,
            Err(BackendsError::TooMany) => entries(list@).len() > 2,
        },
        match r {
            Ok((first, second)) => backends(list@) == Ok::<(Seq<u8>, Seq<u8>), BackendsError>(
                (first@, second@),
            ),
            Err(error) => backends(list@) == Err::<(Seq<u8>, Seq<u8>), BackendsError>(error),
        },
{
    let found = read_entries(list);
    if found.len() == 0 {
        Err(BackendsError::FirstMissing)
    } else if found.len() == 1 {
        Err(BackendsError::SecondMissing)
    } else if found.len() > 2 {
        Err(BackendsError::TooMany)
    } else {
        assert(entries(list@) =~= seq![found@[0]@, found@[1]@]);
        Ok((found[0], found[1]))
    }
}

/// How the system is to poll for what arrives.
#[derive(Debug, Clone, Copy, PartialEq, Eq, Structural)]
pub struct BusyPoll {
    pub usecs: u32,
    pub budget: u16,
    pub prefer: u8,
}

/// How to poll, given the texts it is read from.
pub open spec fn polling(usecs: Option<&str>, budget: Option<&str>, prefer: Option<&str>) -> Option<
    BusyPoll,
> {
    let wait = number_setting(usecs, u32::MAX as nat, 50);
    let preferred = clamped(number_setting(prefer, u32::MAX as nat, 1), 0, 1);
    if wait == 0 && preferred == 0 {
        None
    } else {
        Some(
            BusyPoll {
                usecs: wait as u32,
                budget: clamped(
                    number_setting(budget, u32::MAX as nat, 8),
                    0,
                    u16::MAX as nat,
                ) as u16,
                prefer: preferred as u8,
            },
        )
    }
}

/// Reads how to poll; none where it is switched off.
pub fn busy_poll(usecs: Option<&str>, budget: Option<&str>, prefer: Option<&str>) -> (r: Option<
    BusyPoll,
>)
    ensures
        match r {
            Some(poll) => {
                &&& poll.usecs == number_setting(usecs, u32::MAX as nat, 50)
                &&& poll.budget == clamped(
                    number_setting(budget, u32::MAX as nat, 8),
                    0,
                    u16::MAX as nat,
                )
                &&& poll.prefer == clamped(number_setting(prefer, u32::MAX as nat, 1), 0, 1)
                &&& poll.usecs != 0 || poll.prefer != 0
            },
            None => number_setting(usecs, u32::MAX as nat, 50) == 0 && number_setting(
                prefer,
                u32::MAX as nat,
                1,
            ) == 0,
        },
        r == polling(usecs, budget, prefer),
{
    let usecs: u32 = env_u32(usecs, 50);
    let wide: u32 = env_u32(budget, 8);
    let budget: u16 = if wide > 65535 {
        65535
    } else {
        wide as u16
    };
    let prefer: u8 = if env_u32(prefer, 1) > 0 {
        1
    } else {
        0
    };
    if usecs == 0 && prefer == 0 {
        None
    } else {
        Some(BusyPoll { usecs, budget, prefer })
    }
}

/// Where the value of an argument stands: behind the first argument with this name.
pub open spec fn value_place(args: Seq<String>, name: Seq<char>, from: int) -> Option<int>
    decreases args.len() - from,
{
    if from < 0 || from >= args.len() {
        None
    } else if encode_utf8(args[from]@) == encode_utf8(name) {
        if from + 1 < args.len() {
            Some(from + 1)
        } else {
            None
        }
    } else {
        value_place(args, name, from + 1)
    }
}

/// Where the value of an argument stands.
pub fn parse_arg(args: &Vec<String>, name: &str) -> (r: Option<usize>)
    ensures
        match r {
            Some(at) => value_place(args@, name@, 0) == Some(at as int) && at < args@.len(),
            None => value_place(args@, name@, 0) is None,
        },
{
    let mut i: usize = 0;
    while i < args.len()
        invariant
            i <= args@.len(),
            value_place(args@, name@, 0) == value_place(args@, name@, i as int),
        decreases args@.len() - i,
    {
        if same_bytes(args[i].as_str().as_bytes(), name.as_bytes()) {
            return if i + 1 < args.len() {
                Some(i + 1)
            } else {
                None
            };
        }
        i = i + 1;
    }
    None
}

} // verus!
