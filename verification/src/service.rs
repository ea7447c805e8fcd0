//! The service pipeline: one request in, one response out.
//!
//! A service answers a request and may change its own state in doing so. The
//! base service answers from the cache engine. Two decorators wrap any
//! service: one keeps statistics and answers the statistics operation
//! itself, one stands where requests and responses are traced and changes
//! nothing. Decorators nest to any depth.

use crate::cache::{accepts, reply_to, store_after, Cache};
use crate::clock::{elapsed_micros, now};
use crate::message::{payload, response, Code, Message, MessageView, Op, PayloadView};
use crate::stats::{
    average, capped, decimal, push_decimal, push_text, recorded, report, Stats,
};
use vstd::prelude::*;
use vstd::string::StringSliceAdditionalSpecFns;

verus! {

/// Why a service gave no response.
#[derive(Clone, Copy, Debug, PartialEq, Eq, Structural)]
pub enum ServiceError {
    /// The operation was given up before it produced a response.
    Internal,
}

/// What a service returned, with the message as mathematical values.
pub open spec fn reply_view(r: Result<Message, ServiceError>) -> Result<
    MessageView,
    ServiceError,
> {
    match r {
        Ok(m) => Ok(m@),
        Err(e) => Err(e),
    }
}

/// Something that answers requests.
pub trait Service: Sized {
    /// Whether this service, asked `req`, may answer `reply` and be `next`
    /// afterwards.
    spec fn step(
        &self,
        req: MessageView,
        next: &Self,
        reply: Result<MessageView, ServiceError>,
    ) -> bool;

    /// Answers one request.
    fn call(&mut self, req: Message) -> (reply: Result<Message, ServiceError>)
        ensures
            old(self).step(req@, final(self), reply_view(reply)),
    ;
}

/// The base service: it hands each request to the cache engine.
pub struct CacheService {
    pub cache: Cache,
}

impl Service for CacheService {
    /// A message that the engine can work on is answered by the engine, and
    /// the store changes as the engine says. Any other message is given up
    /// with an internal error, and the store stays as it is.
    open spec fn step(
        &self,
        req: MessageView,
        next: &Self,
        reply: Result<MessageView, ServiceError>,
    ) -> bool {
        if accepts(req) {
            &&& reply == Ok::<MessageView, ServiceError>(reply_to(self.cache@, req))
            &&& next.cache@ == store_after(self.cache@, req)
        } else {
            &&& reply == Err::<MessageView, ServiceError>(ServiceError::Internal)
            &&& next.cache@ == self.cache@
        }
    }

    fn call(&mut self, req: Message) -> (reply: Result<Message, ServiceError>) {
        if Cache::can_process(&req) {
            Ok(self.cache.process(req))
        } else {
            Err(ServiceError::Internal)
        }
    }
}

/// What goes in front of the report where the inner service answered the
/// statistics operation with a response that has a payload: the tag of that
/// payload as the number of keys. In every other case, nothing.
pub open spec fn keys_prefix(inner: Result<MessageView, ServiceError>) -> Seq<u8> {
    match inner {
        Ok(MessageView::Response(_, _, Some(p))) => "keys: ".spec_bytes() + decimal(
            p.type_id as nat,
        ) + " ".spec_bytes(),
        _ => Seq::empty(),
    }
}

/// The answer to the statistics operation: a success status and, as payload
/// with tag 1, the text `data` behind the prefix that the inner answer
/// calls for.
pub open spec fn stats_reply(data: Seq<u8>, inner: Result<MessageView, ServiceError>) -> MessageView {
    MessageView::Response(
        Op::Stats,
        Code::Success,
        Some(PayloadView { type_id: 1, data: keys_prefix(inner) + data }),
    )
}

/// Builds the answer to the statistics operation from the report `data` and
/// from what the inner service returned.
pub fn stats_response(data: Vec<u8>, inner: &Result<Message, ServiceError>) -> (reply: Message)
    ensures
        reply@ == stats_reply(data@, reply_view(*inner)),
{
    match inner {
        Ok(Message::Response(_, _, Some(p))) => {
            let mut text: Vec<u8> = Vec::new();
            push_text(&mut text, "keys: ");
            push_decimal(&mut text, p.type_id as u64);
            push_text(&mut text, " ");
            let mut data = data;
            let ghost report = data@;
            text.append(&mut data);
            assert(text@ =~= keys_prefix(reply_view(*inner)) + report);
            response(Op::Stats, Code::Success, Some(payload(1, text)))
        },
        _ => {
            assert(data@ =~= keys_prefix(reply_view(*inner)) + data@);
            response(Op::Stats, Code::Success, Some(payload(1, data)))
        },
    }
}

/// The decorator that counts requests and measures how long they take.
pub struct StatService<T> {
    pub inner: T,
    pub stats: Stats,
}

impl<T: Service> Service for StatService<T> {
    /// The statistics operation is answered here, with the report of the
    /// counters as they stand; the inner service is asked only for its
    /// number of keys, and the counters stay as they are. Every other
    /// request goes to the inner service and its outcome comes back
    /// unchanged; where that is a response, one request is counted, with
    /// the time that passed.
    open spec fn step(
        &self,
        req: MessageView,
        next: &Self,
        reply: Result<MessageView, ServiceError>,
    ) -> bool {
        if req.op() == Op::Stats {
            &&& next.stats@ == self.stats@
            &&& exists|inner: Result<MessageView, ServiceError>|
                #[trigger] self.inner.step(req, &next.inner, inner) && reply == Ok::<
                    MessageView,
                    ServiceError,
                >(stats_reply(report(self.stats@), inner))
        } else {
            &&& self.inner.step(req, &next.inner, reply)
            &&& match reply {
                Ok(_) => exists|elapsed: u64| next.stats@ == #[trigger] recorded(
                    self.stats@,
                    elapsed,
                ),
                Err(_) => next.stats@ == self.stats@,
            }
        }
    }

    fn call(&mut self, req: Message) -> (reply: Result<Message, ServiceError>) {
        let ghost asked = req@;
        match req.op() {
            Op::Stats => {
                let data = self.stats.get_stats();
                let inner = self.inner.call(req);
                let reply = stats_response(data, &inner);
                assert(old(self).inner.step(asked, &self.inner, reply_view(inner)));
                Ok(reply)
            },
            _ => {
                let start = now();
                match self.inner.call(req) {
                    Ok(resp) => {
                        let elapsed = elapsed_micros(start, now());
                        self.stats.record(elapsed);
                        assert(self.stats@ == recorded(old(self).stats@, elapsed));
                        Ok(resp)
                    },
                    Err(e) => Err(e),
                }
            },
        }
    }
}

/// The decorator around which requests and responses are traced. It hands
/// every request on and every outcome back.
pub struct LogService<T> {
    pub inner: T,
}

impl<T: Service> Service for LogService<T> {
    /// Exactly what the inner service does.
    open spec fn step(
        &self,
        req: MessageView,
        next: &Self,
        reply: Result<MessageView, ServiceError>,
    ) -> bool {
        self.inner.step(req, &next.inner, reply)
    }

    fn call(&mut self, req: Message) -> (reply: Result<Message, ServiceError>) {
        self.inner.call(req)
    }
}

/// A run of a service: `states` are the states it went through, from the one
/// it started in, `reqs` the requests in the order they were asked, and
/// `replies` what it returned to each.
pub open spec fn is_run<S: Service>(
    states: Seq<S>,
    reqs: Seq<MessageView>,
    replies: Seq<Result<MessageView, ServiceError>>,
) -> bool {
    &&& states.len() == reqs.len() + 1
    &&& replies.len() == reqs.len()
    &&& forall|i: int|
        0 <= i < reqs.len() ==> states[i].step(#[trigger] reqs[i], &states[i + 1], replies[i])
}

/// Tracing changes nothing: the traced service can take a step exactly where
/// the service inside it can, with the same request and the same outcome.
pub proof fn lemma_log_changes_nothing<T: Service>(
    before: LogService<T>,
    req: MessageView,
    after: LogService<T>,
    reply: Result<MessageView, ServiceError>,
)
    ensures
        before.step(req, &after, reply) <==> before.inner.step(req, &after.inner, reply),
{
}

/// The number of the first `n` requests of a run that count: those that are
/// not the statistics operation and got a response.
pub open spec fn answered(
    reqs: Seq<MessageView>,
    replies: Seq<Result<MessageView, ServiceError>>,
    n: int,
) -> nat
    decreases n,
{
    if n <= 0 {
        0
    } else {
        answered(reqs, replies, n - 1) + if reqs[n - 1].op() != Op::Stats && replies[n - 1] is Ok {
            1nat
        } else {
            0nat
        }
    }
}

/// The statistics decorator counts what it answers and nothing else: at
/// every point of a run that started with nothing counted, the count is the
/// number of requests so far that were not the statistics operation and got
/// a response, or the largest count that fits where there were more.
pub proof fn lemma_count_is_answered<T: Service>(
    states: Seq<StatService<T>>,
    reqs: Seq<MessageView>,
    replies: Seq<Result<MessageView, ServiceError>>,
    n: int,
)
    requires
        is_run(states, reqs, replies),
        states[0].stats@.requests == 0,
        0 <= n <= reqs.len(),
    ensures
        states[n].stats@.requests == capped(answered(reqs, replies, n)),
    decreases n,
{
    if n > 0 {
        lemma_count_is_answered(states, reqs, replies, n - 1);
        assert(states[n - 1].step(reqs[n - 1], &states[n], replies[n - 1]));
    }
}

/// After `n` requests through the statistics decorator, none of them the
/// statistics operation and each with a response, the count is `n`: the
/// report that the decorator then gives begins with `requests: n`. The
/// average it reports is a number that fits 64 bits. This holds of every
/// run that started with nothing counted, as long as `n` fits the counter.
pub proof fn lemma_count_equals_calls<T: Service>(
    states: Seq<StatService<T>>,
    reqs: Seq<MessageView>,
    replies: Seq<Result<MessageView, ServiceError>>,
)
    requires
        is_run(states, reqs, replies),
        states[0].stats@.requests == 0,
        forall|i: int| 0 <= i < reqs.len() ==> (#[trigger] reqs[i]).op() != Op::Stats,
        forall|i: int| 0 <= i < reqs.len() ==> (#[trigger] replies[i]) is Ok,
        reqs.len() <= u64::MAX,
    ensures
        states.last().stats@.requests == reqs.len(),
        average(states.last().stats@) <= u64::MAX,
        report(states.last().stats@) == "requests: ".spec_bytes() + decimal(reqs.len())
            + ", average: ".spec_bytes() + decimal(average(states.last().stats@))
            + " us".spec_bytes(),
{
    lemma_all_answered(reqs, replies, reqs.len() as int);
    lemma_count_is_answered(states, reqs, replies, reqs.len() as int);
    states.last().stats.lemma_bounded();
}

proof fn lemma_all_answered(
    reqs: Seq<MessageView>,
    replies: Seq<Result<MessageView, ServiceError>>,
    n: int,
)
    requires
        replies.len() == reqs.len(),
        forall|i: int| 0 <= i < reqs.len() ==> (#[trigger] reqs[i]).op() != Op::Stats,
        forall|i: int| 0 <= i < reqs.len() ==> (#[trigger] replies[i]) is Ok,
        0 <= n <= reqs.len(),
    ensures
        answered(reqs, replies, n) == n,
    decreases n,
{
    if n > 0 {
        lemma_all_answered(reqs, replies, n - 1);
        assert(reqs[n - 1].op() != Op::Stats);
        assert(replies[n - 1] is Ok);
    }
}

} // verus!
