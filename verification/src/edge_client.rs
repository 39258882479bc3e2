//! One client of the single-process server: what to do next, given what happened.
use vstd::prelude::*;

use crate::bytes::{append, lemma_index_from};
use crate::edge::{answer, is_answer, read_request};
use crate::head::{head_outcome, refusal_response, refuse, Refusal};
use crate::request::{
    consume_request, head_mark, law_complete_head_decides, law_read_request_is_within_bounds,
    read_closed, read_outcome, ParsedRequest,
};

verus! {

/// What a client waits for.
#[derive(Debug, Clone, Copy)]
pub enum Stage {
    /// Nothing was read yet.
    Starting,
    /// More bytes.
    Reading,
    /// That the answer to this request is written; whether the client closes behind it.
    Answering(ParsedRequest, bool),
    /// That a refusal is written.
    Refusing,
    Over,
}

/// What happened.
#[derive(Debug, Clone, Copy)]
pub enum Event<'a> {
    Started,
    /// These bytes arrived.
    Received(&'a [u8]),
    /// The peer closed.
    Closed,
    ReadFailed,
    /// What was to be written is written.
    Written,
    WriteFailed,
}

/// What to do.
#[derive(Debug, Clone, Copy)]
pub enum Action {
    Read,
    Write(&'static [u8]),
    Close,
}

/// A client.
#[derive(Debug)]
pub struct Client {
    /// The bytes that have arrived and are not answered.
    pub read_buf: Vec<u8>,
    pub stage: Stage,
}

/// What the bytes that have arrived come to: a request, nothing yet, or a refusal.
pub open spec fn outcome(buf: Seq<u8>) -> Result<Option<ParsedRequest>, Refusal> {
    read_outcome(buf, |header: Seq<u8>| head_outcome(header))
}

/// The body of a request.
pub open spec fn body_of(buf: Seq<u8>, request: ParsedRequest) -> Seq<u8> {
    buf.subrange(request.header_len as int, request.total_len as int)
}

/// The client goes on with the bytes that have arrived: it answers a request, reads more, or
/// refuses.
pub open spec fn goes_on<X: Fn(&[u8]) -> Option<u8>>(
    search: X,
    ready: bool,
    client: Client,
    action: Action,
) -> bool {
    match (outcome(client.read_buf@), client.stage, action) {
        (Ok(None), Stage::Reading, Action::Read) => true,
        (Ok(Some(wanted)), Stage::Answering(request, close), Action::Write(response)) => {
            &&& request == wanted
            &&& is_answer(
                search,
                request,
                body_of(client.read_buf@, request),
                ready,
                response@,
                close,
            )
        },
        (Err(why), Stage::Refusing, Action::Write(response)) => response@ == refusal_response(why),
        _ => false,
    }
}

/// The client refuses what was cut off.
pub open spec fn refuses(old_client: Client, client: Client, action: Action) -> bool {
    &&& client.read_buf@ == old_client.read_buf@
    &&& client.stage is Refusing
    &&& action matches Action::Write(response) && response@ == refusal_response(
        Refusal::BadRequest,
    )
}

/// The client is over.
pub open spec fn ends(old_client: Client, client: Client, action: Action) -> bool {
    &&& client.read_buf@ == old_client.read_buf@
    &&& client.stage is Over
    &&& action is Close
}

/// The step of a client: from what it waits for and what happened to what it does.
pub open spec fn steps<X: Fn(&[u8]) -> Option<u8>>(
    search: X,
    ready: bool,
    old_client: Client,
    event: Event<'_>,
    client: Client,
    action: Action,
) -> bool {
    match (old_client.stage, event) {
        (Stage::Starting, Event::Started) => {
            &&& client.read_buf@ == old_client.read_buf@
            &&& goes_on(search, ready, client, action)
        },
        (Stage::Reading, Event::Received(chunk)) => {
            &&& client.read_buf@ == old_client.read_buf@ + chunk@
            &&& goes_on(search, ready, client, action)
        },
        (Stage::Reading, Event::Closed) => if old_client.read_buf@.len() == 0 {
            ends(old_client, client, action)
        } else {
            refuses(old_client, client, action)
        },
        (Stage::Reading, Event::ReadFailed) => refuses(old_client, client, action),
        (Stage::Answering(request, close), Event::Written) => {
            &&& client.read_buf@ == old_client.read_buf@.skip(request.total_len as int)
            &&& if close {
                client.stage is Over && action is Close
            } else {
                goes_on(search, ready, client, action)
            }
        },
        _ => ends(old_client, client, action),
    }
}

impl Client {
    /// The request that is being answered has arrived in full.
    pub open spec fn well_formed(&self) -> bool {
        self.stage matches Stage::Answering(request, _) ==> request.header_len
            <= request.total_len <= self.read_buf@.len()
    }

    pub fn new() -> (client: Self)
        ensures
            client.well_formed(),
            client.read_buf@ == Seq::<u8>::empty(),
            client.stage is Starting,
    {
        Client { read_buf: Vec::new(), stage: Stage::Starting }
    }

    fn go_on<X: Fn(&[u8]) -> Option<u8>>(&mut self, ready: bool, search: &X) -> (action: Action)
        requires
            forall|b: &[u8]| call_requires(*search, (b,)),
        ensures
            final(self).well_formed(),
            final(self).read_buf@ == old(self).read_buf@,
            goes_on(*search, ready, *final(self), action),
    {
        proof {
            law_read_request_is_within_bounds(
                self.read_buf@,
                |header: Seq<u8>| head_outcome(header),
            );
        }
        match read_request(self.read_buf.as_slice()) {
            Ok(None) => {
                self.stage = Stage::Reading;
                Action::Read
            },
            Ok(Some(request)) => {
                let (response, close) = answer(&request, self.read_buf.as_slice(), ready, search);
                self.stage = Stage::Answering(request, close);
                Action::Write(response)
            },
            Err(error) => {
                self.stage = Stage::Refusing;
                Action::Write(error.response)
            },
        }
    }

    fn refuse(&mut self) -> (action: Action)
        ensures
            final(self).well_formed(),
            refuses(*old(self), *final(self), action),
    {
        self.stage = Stage::Refusing;
        Action::Write(refuse(Refusal::BadRequest).response)
    }

    fn end(&mut self) -> (action: Action)
        ensures
            final(self).well_formed(),
            ends(*old(self), *final(self), action),
    {
        self.stage = Stage::Over;
        Action::Close
    }

    /// What to do now that this happened. `ready` says whether the service is ready, and `search`
    /// gives the bucket of a body, or none if it is no score request.
    pub fn on<X: Fn(&[u8]) -> Option<u8>>(
        &mut self,
        event: Event<'_>,
        ready: bool,
        search: &X,
    ) -> (action: Action)
        requires
            old(self).well_formed(),
            forall|b: &[u8]| call_requires(*search, (b,)),
        ensures
            final(self).well_formed(),
            steps(*search, ready, *old(self), event, *final(self), action),
    {
        match (self.stage, event) {
            (Stage::Starting, Event::Started) => self.go_on(ready, search),
            (Stage::Reading, Event::Received(chunk)) => {
                append(&mut self.read_buf, chunk);
                self.go_on(ready, search)
            },
            (Stage::Reading, Event::Closed) => match read_closed(self.read_buf.as_slice()) {
                Ok(_) => self.end(),
                Err(_) => self.refuse(),
            },
            (Stage::Reading, Event::ReadFailed) => self.refuse(),
            (Stage::Answering(request, close), Event::Written) => {
                consume_request(&mut self.read_buf, request.total_len);
                if close {
                    self.stage = Stage::Over;
                    Action::Close
                } else {
                    self.go_on(ready, search)
                }
            },
            _ => self.end(),
        }
    }
}

/// One step of a client.
pub struct Step<'a> {
    pub before: Client,
    pub ready: bool,
    pub event: Event<'a>,
    pub after: Client,
    pub action: Action,
}

/// A step of a client.
pub open spec fn is_step<X: Fn(&[u8]) -> Option<u8>>(step: Step<'_>, search: X) -> bool {
    &&& step.before.well_formed()
    &&& step.after.well_formed()
    &&& steps(search, step.ready, step.before, step.event, step.after, step.action)
}

/// The steps of a client from its start on.
pub open spec fn is_run<X: Fn(&[u8]) -> Option<u8>>(run: Seq<Step<'_>>, search: X) -> bool
    decreases run.len(),
{
    run.len() > 0 ==> {
        &&& is_step(run.last(), search)
        &&& is_run(run.drop_last(), search)
        &&& if run.len() == 1 {
            &&& run.last().before.read_buf@ == Seq::<u8>::empty()
            &&& run.last().before.stage is Starting
        } else {
            &&& run.last().before.read_buf@ == run.drop_last().last().after.read_buf@
            &&& run.last().before.stage == run.drop_last().last().after.stage
        }
    }
}

/// The bytes that arrive in a step.
pub open spec fn arrives(step: Step<'_>) -> Seq<u8> {
    match (step.before.stage, step.event) {
        (Stage::Reading, Event::Received(chunk)) => chunk@,
        _ => seq![],
    }
}

/// The bytes that have arrived in a run.
pub open spec fn arrived(run: Seq<Step<'_>>) -> Seq<u8>
    decreases run.len(),
{
    if run.len() == 0 {
        seq![]
    } else {
        arrived(run.drop_last()) + arrives(run.last())
    }
}

/// A request that was answered: whether the service was ready then, the response, and whether the
/// client closes behind it.
pub struct Answered {
    pub request: ParsedRequest,
    pub ready: bool,
    pub response: Seq<u8>,
    pub close: bool,
}

/// The request that is answered in a step, if one is.
pub open spec fn answers(step: Step<'_>) -> Seq<Answered> {
    match (step.after.stage, step.action) {
        (Stage::Answering(request, close), Action::Write(response)) => seq![
            Answered { request, ready: step.ready, response: response@, close },
        ],
        _ => seq![],
    }
}

/// The requests that were answered in a run, in order.
pub open spec fn answered(run: Seq<Step<'_>>) -> Seq<Answered>
    decreases run.len(),
{
    if run.len() == 0 {
        seq![]
    } else {
        answered(run.drop_last()) + answers(run.last())
    }
}

/// What is written in a step.
pub open spec fn writes(step: Step<'_>) -> Seq<Seq<u8>> {
    match step.action {
        Action::Write(response) => seq![response@],
        _ => seq![],
    }
}

/// What was written in a run, in order.
pub open spec fn written(run: Seq<Step<'_>>) -> Seq<Seq<u8>>
    decreases run.len(),
{
    if run.len() == 0 {
        seq![]
    } else {
        written(run.drop_last()) + writes(run.last())
    }
}

/// The responses to requests.
pub open spec fn responses(done: Seq<Answered>) -> Seq<Seq<u8>> {
    done.map_values(|item: Answered| item.response)
}

/// The length of requests that stand one behind the other.
pub open spec fn total_length(done: Seq<Answered>) -> int
    decreases done.len(),
{
    if done.len() == 0 {
        0
    } else {
        total_length(done.drop_last()) + done.last().request.total_len
    }
}

/// The requests stand one behind the other at the start of the bytes; behind each of them but the
/// last the client stays, and each has an answer that its body may get.
pub open spec fn are_successive<X: Fn(&[u8]) -> Option<u8>>(
    bytes: Seq<u8>,
    done: Seq<Answered>,
    search: X,
) -> bool
    decreases done.len(),
{
    done.len() > 0 ==> {
        let rest = bytes.skip(total_length(done.drop_last()));
        let last = done.last();
        &&& are_successive(bytes, done.drop_last(), search)
        &&& done.len() > 1 ==> !done.drop_last().last().close
        &&& 0 <= total_length(done.drop_last()) <= bytes.len()
        &&& outcome(rest) == Ok::<Option<ParsedRequest>, Refusal>(Some(last.request))
        &&& is_answer(
            search,
            last.request,
            body_of(rest, last.request),
            last.ready,
            last.response,
            last.close,
        )
    }
}

/// The requests whose answers were written in full: all that were answered but the one whose answer
/// is being written.
pub open spec fn finished(client: Client, done: Seq<Answered>) -> Seq<Answered> {
    if client.stage is Answering {
        done.drop_last()
    } else {
        done
    }
}

/// What was written is the answers, and at most one refusal behind them.
pub open spec fn wrote_answers(client: Client, done: Seq<Answered>, written: Seq<Seq<u8>>) -> bool {
    ||| written == responses(done) && !(client.stage is Refusing)
    ||| {
        &&& client.stage is Refusing || client.stage is Over
        &&& written == responses(done).push(
            refusal_response(
                match outcome(client.read_buf@) {
                    Err(why) => why,
                    Ok(_) => Refusal::BadRequest,
                },
            ),
        )
    }
}

/// The bytes behind the requests that are dealt with: where an answer could not be written, its
/// request is still there.
pub open spec fn is_left(client: Client, bytes: Seq<u8>, done: Seq<Answered>) -> bool {
    let gone = finished(client, done);
    ||| 0 <= total_length(gone) <= bytes.len() && client.read_buf@ == bytes.skip(
        total_length(gone),
    )
    ||| {
        &&& client.stage is Over
        &&& done.len() > 0
        &&& 0 <= total_length(done.drop_last()) <= bytes.len()
        &&& client.read_buf@ == bytes.skip(total_length(done.drop_last()))
    }
}

/// What a client waits for fits what has arrived and was answered.
spec fn is_in_order(client: Client, done: Seq<Answered>) -> bool {
    let found = outcome(client.read_buf@);
    match client.stage {
        Stage::Starting => done.len() == 0,
        Stage::Reading => {
            &&& found == Ok::<Option<ParsedRequest>, Refusal>(None)
            &&& done.len() > 0 ==> !done.last().close
        },
        Stage::Answering(request, close) => {
            &&& found == Ok::<Option<ParsedRequest>, Refusal>(Some(request))
            &&& done.len() > 0
            &&& done.last().request == request
            &&& done.last().close == close
        },
        Stage::Refusing | Stage::Over => true,
    }
}

/// What holds of a client behind a run.
spec fn is_kept<X: Fn(&[u8]) -> Option<u8>>(
    client: Client,
    bytes: Seq<u8>,
    done: Seq<Answered>,
    written: Seq<Seq<u8>>,
    search: X,
) -> bool {
    &&& are_successive(bytes, done, search)
    &&& is_left(client, bytes, done)
    &&& wrote_answers(client, done, written)
    &&& is_in_order(client, done)
}

/// Requests at the start of the bytes are there still when more bytes arrive.
proof fn lemma_successive_stay<X: Fn(&[u8]) -> Option<u8>>(
    bytes: Seq<u8>,
    more: Seq<u8>,
    done: Seq<Answered>,
    search: X,
)
    requires
        are_successive(bytes, done, search),
    ensures
        are_successive(bytes + more, done, search),
    decreases done.len(),
{
    if done.len() > 0 {
        let head = |header: Seq<u8>| head_outcome(header);
        let rest = bytes.skip(total_length(done.drop_last()));
        let request = done.last().request;
        lemma_successive_stay(bytes, more, done.drop_last(), search);
        lemma_index_from(rest, head_mark(), 0);
        law_complete_head_decides(rest, more, head);
        law_read_request_is_within_bounds(rest, head);
        assert((bytes + more).skip(total_length(done.drop_last())) =~= rest + more);
        assert(body_of(rest + more, request) =~= body_of(rest, request));
    }
}

/// A client that goes on with what has arrived, all that was answered being dealt with.
proof fn lemma_going_on_keeps<X: Fn(&[u8]) -> Option<u8>>(
    step: Step<'_>,
    bytes: Seq<u8>,
    done: Seq<Answered>,
    written: Seq<Seq<u8>>,
    search: X,
)
    requires
        goes_on(search, step.ready, step.after, step.action),
        are_successive(bytes, done, search),
        done.len() > 0 ==> !done.last().close,
        0 <= total_length(done) <= bytes.len(),
        step.after.read_buf@ == bytes.skip(total_length(done)),
        written == responses(done),
    ensures
        is_kept(step.after, bytes, done + answers(step), written + writes(step), search),
{
    let all = done + answers(step);
    match step.after.stage {
        Stage::Answering(_, _) => {
            assert(all.drop_last() =~= done);
            assert(all.last() == answers(step)[0]);
            assert(written + writes(step) =~= responses(all));
        },
        Stage::Refusing => {
            assert(all =~= done);
            assert(written + writes(step) =~= responses(done).push(writes(step)[0]));
        },
        _ => {
            assert(all =~= done);
            assert(written + writes(step) =~= written);
        },
    }
}

/// A step keeps what holds of a client.
proof fn lemma_step_keeps<X: Fn(&[u8]) -> Option<u8>>(
    step: Step<'_>,
    bytes: Seq<u8>,
    done: Seq<Answered>,
    written: Seq<Seq<u8>>,
    search: X,
)
    requires
        is_step(step, search),
        is_kept(step.before, bytes, done, written, search),
    ensures
        is_kept(
            step.after,
            bytes + arrives(step),
            done + answers(step),
            written + writes(step),
            search,
        ),
{
    let client = step.before;
    assert(bytes + Seq::<u8>::empty() =~= bytes);
    assert(done + Seq::<Answered>::empty() =~= done);
    assert(written + Seq::<Seq<u8>>::empty() =~= written);
    match (client.stage, step.event) {
        (Stage::Starting, Event::Started) => {
            lemma_going_on_keeps(step, bytes, done, written, search);
        },
        (Stage::Reading, Event::Received(chunk)) => {
            lemma_successive_stay(bytes, chunk@, done, search);
            assert((bytes + chunk@).skip(total_length(done)) =~= bytes.skip(total_length(done))
                + chunk@);
            lemma_going_on_keeps(step, bytes + chunk@, done, written, search);
        },
        (Stage::Reading, Event::Closed) | (Stage::Reading, Event::ReadFailed) => {
            if step.after.stage is Refusing {
                assert(written + writes(step) =~= responses(done).push(writes(step)[0]));
            }
        },
        (Stage::Answering(request, close), Event::Written) => {
            law_read_request_is_within_bounds(
                client.read_buf@,
                |header: Seq<u8>| head_outcome(header),
            );
            assert(step.after.read_buf@ =~= bytes.skip(total_length(done)));
            if !close {
                lemma_going_on_keeps(step, bytes, done, written, search);
            }
        },
        _ => {},
    }
}

/// What holds of a client behind its run.
proof fn lemma_run_keeps<X: Fn(&[u8]) -> Option<u8>>(run: Seq<Step<'_>>, search: X)
    requires
        is_run(run, search),
        run.len() > 0,
    ensures
        is_kept(run.last().after, arrived(run), answered(run), written(run), search),
    decreases run.len(),
{
    let earlier = run.drop_last();
    if run.len() == 1 {
        assert(Seq::<u8>::empty().skip(0) =~= Seq::<u8>::empty());
        assert(responses(Seq::<Answered>::empty()) =~= Seq::<Seq<u8>>::empty());
    } else {
        lemma_run_keeps(earlier, search);
    }
    lemma_step_keeps(run.last(), arrived(earlier), answered(earlier), written(earlier), search);
}

/// The requests of a client are answered in order, each with one answer, that of its own body:
/// those that were answered are the first ones of the bytes that have arrived, and the read buffer
/// holds the bytes behind those whose answers are written. At most one refusal is written, behind
/// all answers. Whenever the client is read from, no request that has arrived in full is left, and
/// the last answer left it open.
pub proof fn law_each_request_gets_one_answer<X: Fn(&[u8]) -> Option<u8>>(
    run: Seq<Step<'_>>,
    search: X,
)
    requires
        is_run(run, search),
        run.len() > 0,
    ensures
        are_successive(arrived(run), answered(run), search),
        is_left(run.last().after, arrived(run), answered(run)),
        wrote_answers(run.last().after, answered(run), written(run)),
        run.last().after.stage is Reading ==> {
            &&& outcome(run.last().after.read_buf@) == Ok::<Option<ParsedRequest>, Refusal>(None)
            &&& answered(run).len() > 0 ==> !answered(run).last().close
        },
{
    lemma_run_keeps(run, search);
}

/// Nothing follows the end of a client: it is closed, takes in nothing and is written nothing.
pub proof fn law_nothing_follows_the_end<X: Fn(&[u8]) -> Option<u8>>(
    run: Seq<Step<'_>>,
    search: X,
)
    requires
        is_run(run, search),
        run.len() > 1,
        run.drop_last().last().after.stage is Over,
    ensures
        run.last().action is Close,
        run.last().after.stage is Over,
        run.last().after.read_buf@ == run.drop_last().last().after.read_buf@,
        arrived(run) == arrived(run.drop_last()),
        answered(run) == answered(run.drop_last()),
        written(run) == written(run.drop_last()),
{
}

} // verus!
