//! The retry rules of one proxied request.
//!
//! A request is tried on one backend after another. `Exchange::begin` starts it once its body has
//! been read, `Exchange::next_attempt` says what to do next, and `Exchange::finish_attempt` takes
//! what came of an attempt.

use vstd::arithmetic::div_mod::lemma_mod_bound;
use vstd::prelude::*;
use vstd::string::*;

use crate::backend::{latency_changes_the_average_alone, Backend, BackendView, Snapshot};
use crate::balance::{
    cursor_after, nearest_healthy_host_is_picked, picked, rotation_fits, round_robin, start_of,
};
use crate::health::Health;
use crate::identifier::{is_random_id, random_id};
use crate::metrics::Duration;
use crate::uri::chars_of;

verus! {

/// How long an attempt may take before it counts as timed out, in seconds.
pub const ATTEMPT_TIMEOUT_SECS: u64 = 5;

/// What identifies one request in the log.
#[derive(Debug)]
pub struct Req {
    id: u128,
    retry: u8,
}

impl Req {
    /// The identifier of the request.
    pub closed spec fn spec_id(self) -> u128 {
        self.id
    }

    /// How often the request is marked as retried.
    pub closed spec fn spec_retry(self) -> u8 {
        self.retry
    }

    /// A new request under a random identifier.
    pub fn new() -> (req: Req)
        ensures
            is_random_id(req.spec_id()),
            req.spec_retry() == 0,
    {
        Req::with_id(random_id())
    }

    /// A new request under a given identifier.
    pub fn with_id(id: u128) -> (req: Req)
        ensures
            req.spec_id() == id,
            req.spec_retry() == 0,
    {
        Req { id, retry: 0 }
    }

    /// The identifier of the request.
    pub fn id(&self) -> (id: u128)
        ensures
            id == self.spec_id(),
    {
        self.id
    }

    /// How often the request is marked as retried.
    pub fn retry(&self) -> (retry: u8)
        ensures
            retry == self.spec_retry(),
    {
        self.retry
    }
}

/// A response that the proxy makes up itself.
#[verifier::ext_equal]
pub struct ReplyView {
    pub status: u16,
    pub body: Seq<char>,
}

/// A response that the proxy makes up itself.
#[derive(Debug)]
pub struct Reply {
    pub status: u16,
    pub body: &'static str,
}

impl View for Reply {
    type V = ReplyView;

    open spec fn view(&self) -> ReplyView {
        ReplyView { status: self.status, body: self.body@ }
    }
}

/// The answer to a request whose body could not be read.
pub open spec fn bad_request() -> ReplyView {
    ReplyView { status: 400, body: "Bad request body"@ }
}

/// The answer where no backend can be picked.
pub open spec fn no_backends() -> ReplyView {
    ReplyView { status: 503, body: "No backends available\n"@ }
}

/// The answer after the last attempt has failed.
pub open spec fn bad_gateway() -> ReplyView {
    ReplyView { status: 502, body: "Bad Gateway"@ }
}

/// What came of an attempt.
pub enum OutcomeView {
    TimedOut,
    TransportError(Seq<char>),
    Answered(u16),
}

/// What came of an attempt: no answer in time, no answer for another reason, or an answer with
/// the given status.
#[derive(Debug)]
pub enum Outcome {
    TimedOut,
    TransportError(String),
    Answered(u16),
}

impl View for Outcome {
    type V = OutcomeView;

    open spec fn view(&self) -> OutcomeView {
        match *self {
            Outcome::TimedOut => OutcomeView::TimedOut,
            Outcome::TransportError(e) => OutcomeView::TransportError(e@),
            Outcome::Answered(status) => OutcomeView::Answered(status),
        }
    }
}

/// The statuses for which another backend may do better.
pub open spec fn retryable(status: u16) -> bool {
    status == 502 || status == 503 || status == 504
}

/// How a retryable status is written.
pub open spec fn status_text(status: u16) -> Seq<char> {
    if status == 502 {
        "502 Bad Gateway"@
    } else if status == 503 {
        "503 Service Unavailable"@
    } else {
        "504 Gateway Timeout"@
    }
}

/// `<hyper::StatusCode as Display>::fmt`, for the statuses that are retried.
///
/// Claimed: the text is the number, a space and the reason phrase that the `http` crate's table
/// gives for it.
#[verifier::external_body]
fn display_status(status: u16) -> (text: String)
    requires
        retryable(status),
    ensures
        text@ == status_text(status),
{
    hyper::StatusCode::from_u16(status).unwrap().to_string()
}

/// Whether another backend may do better.
fn is_retryable(status: u16) -> (b: bool)
    ensures
        b == retryable(status),
{
    status == 502 || status == 503 || status == 504
}

/// Why an attempt counts as failed, or `None` where its answer is passed on. A retryable status
/// counts as a failure unless this was the last attempt.
pub open spec fn failure_of(outcome: OutcomeView, attempt: nat, max_tries: nat) -> Option<
    Seq<char>,
> {
    match outcome {
        OutcomeView::TimedOut => Some("timeout"@),
        OutcomeView::TransportError(e) => Some("transport error: "@ + e),
        OutcomeView::Answered(status) => if retryable(status) && attempt + 1 < max_tries {
            Some("upstream "@ + status_text(status))
        } else {
            None
        },
    }
}

/// A backend after an attempt on it: the time it took is recorded, and a failure puts the backend
/// on probation.
pub open spec fn settled(b: BackendView, nanos: nat, failure: Option<Seq<char>>) -> BackendView {
    if failure is Some {
        b.with_latency(nanos).with_health(Health::Probe)
    } else {
        b.with_latency(nanos)
    }
}

/// How far a request has got.
#[verifier::ext_equal]
pub struct ExchangeView {
    pub max_tries: nat,
    pub attempt: nat,
    pub last_err: Option<Seq<char>>,
}

impl ExchangeView {
    /// A request that has not been tried yet.
    pub open spec fn fresh(max_tries: nat) -> ExchangeView {
        ExchangeView { max_tries, attempt: 0, last_err: None }
    }

    /// The request after an attempt, which failed for the given reason or did not.
    pub open spec fn after(self, failure: Option<Seq<char>>) -> ExchangeView {
        match failure {
            Some(why) => ExchangeView {
                attempt: self.attempt + 1,
                last_err: Some(why),
                ..self
            },
            None => self,
        }
    }
}

/// What to do next with a request.
pub enum StepView {
    Forward(int),
    Reply(ReplyView),
}

/// What to do next with a request: send it to the host at a position, or answer it.
#[derive(Debug)]
pub enum Step {
    Forward(usize),
    Reply(Reply),
}

impl View for Step {
    type V = StepView;

    open spec fn view(&self) -> StepView {
        match *self {
            Step::Forward(i) => StepView::Forward(i as int),
            Step::Reply(reply) => StepView::Reply(reply@),
        }
    }
}

/// A request is answered once its attempts are used up or no host is healthy, and else goes to
/// the next healthy host of the rotation.
pub open spec fn next_step(ex: ExchangeView, hosts: Seq<BackendView>, cursor: u64) -> StepView {
    if ex.attempt >= ex.max_tries {
        StepView::Reply(bad_gateway())
    } else {
        match picked(hosts, start_of(cursor) as int, hosts.len() as int) {
            Some(i) => StepView::Forward(i),
            None => StepView::Reply(no_backends()),
        }
    }
}

/// The cursor after a step: it moves on if a host was looked for, and only then.
pub open spec fn cursor_after_step(ex: ExchangeView, hosts: Seq<BackendView>, cursor: u64) -> u64 {
    if ex.attempt < ex.max_tries {
        cursor_after(cursor, hosts.len())
    } else {
        cursor
    }
}

/// What to do after an attempt: pass the answer on, or carry on with `next_attempt`.
#[derive(Debug, Clone, Copy, PartialEq, Eq, Structural)]
pub enum Verdict {
    Relay,
    Retry,
}

/// A distance within a list is shorter than the list.
proof fn distances_are_short(n: int)
    ensures
        n > 0 ==> forall|d: int| 0 <= #[trigger] (d % n) < n,
{
    if n > 0 {
        assert forall|d: int| 0 <= #[trigger] (d % n) < n by {
            lemma_mod_bound(d, n);
        }
    }
}

/// How far one request has got.
#[derive(Debug)]
pub struct Exchange {
    max_tries: u8,
    attempt: u8,
    last_err: Option<String>,
}

impl View for Exchange {
    type V = ExchangeView;

    closed spec fn view(&self) -> ExchangeView {
        ExchangeView {
            max_tries: self.max_tries as nat,
            attempt: self.attempt as nat,
            last_err: chars_of(self.last_err),
        }
    }
}

impl Exchange {
    #[verifier::type_invariant]
    spec fn well_formed(self) -> bool {
        self.attempt <= self.max_tries
    }

    /// Starts a request, if its body could be read; else gives the answer to it.
    pub fn begin(body_collected: bool, max_tries: u8) -> (r: Result<Exchange, Reply>)
        ensures
            match r {
                Ok(ex) => body_collected && ex@ == ExchangeView::fresh(max_tries as nat),
                Err(reply) => !body_collected && reply@ == bad_request(),
            },
            match r {
                Ok(ex) => {
                    &&& ex@.max_tries == max_tries
                    &&& ex@.attempt == 0
                    &&& ex@.last_err is None
                },
                Err(reply) => reply.status == 400 && reply.body@ == "Bad request body"@,
            },
    {
        if body_collected {
            Ok(Exchange { max_tries, attempt: 0, last_err: None })
        } else {
            Err(Reply { status: 400, body: "Bad request body" })
        }
    }

    /// Says what to do next. The cursor moves on whenever a host is looked for.
    pub fn next_attempt(&self, snap: &Snapshot, rr_cursor: &mut u64) -> (step: Step)
        requires
            self@.attempt < self@.max_tries ==> rotation_fits(
                snap@.hosts,
                start_of(*old(rr_cursor)),
                snap@.hosts.len() as int,
            ),
        ensures
            step@ == next_step(self@, snap@.hosts, *old(rr_cursor)),
            step matches Step::Forward(i) ==> {
                &&& i < snap@.hosts.len()
                &&& snap@.hosts[i as int].health == Health::Healthy
                &&& self@.attempt < self@.max_tries
            },
            *final(rr_cursor) == cursor_after_step(self@, snap@.hosts, *old(rr_cursor)),
            // the same in terms of the hosts themselves
            self@.attempt >= self@.max_tries ==> {
                &&& step matches Step::Reply(reply)
                &&& reply.status == 502
                &&& reply.body@ == "Bad Gateway"@
                &&& *final(rr_cursor) == *old(rr_cursor)
            },
            self@.attempt < self@.max_tries ==> {
                let n = snap.hosts.len() as int;
                let start = (*old(rr_cursor) as usize) as int;
                &&& match step {
                    Step::Forward(i) => {
                        &&& 0 <= i < n
                        &&& snap.hosts[i as int]@.health == Health::Healthy
                        &&& forall|k: int|
                            0 <= k < n && (#[trigger] snap.hosts[k])@.health == Health::Healthy
                                ==> (i - start) % n <= (k - start) % n
                    },
                    Step::Reply(reply) => {
                        &&& reply.status == 503
                        &&& reply.body@ == "No backends available\n"@
                        &&& forall|k: int|
                            0 <= k < n ==> (#[trigger] snap.hosts[k])@.health != Health::Healthy
                    },
                }
                &&& *final(rr_cursor) == if n == 0 {
                    *old(rr_cursor) as int
                } else {
                    (*old(rr_cursor) + 1) % 0x1_0000_0000_0000_0000
                }
            },
    {
        proof {
            distances_are_short(snap.hosts.len() as int);
        }
        if self.attempt >= self.max_tries {
            return Step::Reply(Reply { status: 502, body: "Bad Gateway" });
        }
        match round_robin(snap, rr_cursor, snap.hosts.len()) {
            Some(i) => Step::Forward(i),
            None => Step::Reply(Reply { status: 503, body: "No backends available\n" }),
        }
    }

    /// Takes what came of an attempt on `backend`, which took the time `elapsed`.
    pub fn finish_attempt(
        &mut self,
        backend: &mut Backend,
        elapsed: Duration,
        outcome: &Outcome,
    ) -> (verdict: Verdict)
        requires
            old(self)@.attempt < old(self)@.max_tries,
        ensures
            ({
                let failure = failure_of(outcome@, old(self)@.attempt, old(self)@.max_tries);
                &&& verdict == Verdict::Relay <==> failure is None
                &&& final(self)@ == old(self)@.after(failure)
                &&& final(backend)@ == settled(old(backend)@, elapsed@, failure)
            }),
            // the same case by case: no answer, or a retryable one while another try is left, is a
            // failure; every other answer is passed on
            ({
                let fails = match *outcome {
                    Outcome::TimedOut => true,
                    Outcome::TransportError(_) => true,
                    Outcome::Answered(status) => (status == 502 || status == 503 || status == 504)
                        && old(self)@.attempt + 1 < old(self)@.max_tries,
                };
                &&& verdict == if fails {
                    Verdict::Retry
                } else {
                    Verdict::Relay
                }
                &&& final(self)@.max_tries == old(self)@.max_tries
                &&& final(self)@.attempt == old(self)@.attempt + if fails {
                    1int
                } else {
                    0int
                }
                &&& !fails ==> final(self)@.last_err == old(self)@.last_err
                &&& final(backend)@.id == old(backend)@.id
                &&& final(backend)@.uri == old(backend)@.uri
                &&& final(backend)@.health == if fails {
                    Health::Probe
                } else {
                    old(backend)@.health
                }
            }),
            match *outcome {
                Outcome::TimedOut => final(self)@.last_err == Some("timeout"@),
                Outcome::TransportError(e) => final(self)@.last_err == Some(
                    "transport error: "@ + e@,
                ),
                Outcome::Answered(status) => verdict == Verdict::Retry ==> {
                    &&& status == 502 ==> final(self)@.last_err == Some(
                        "upstream "@ + "502 Bad Gateway"@,
                    )
                    &&& status == 503 ==> final(self)@.last_err == Some(
                        "upstream "@ + "503 Service Unavailable"@,
                    )
                    &&& status == 504 ==> final(self)@.last_err == Some(
                        "upstream "@ + "504 Gateway Timeout"@,
                    )
                },
            },
            // however the attempt went, the time it took is folded into the average
            ({
                &&& old(backend)@.avg_ns == 0 ==> final(backend)@.avg_ns == elapsed@ % 0x1_0000_0000_0000_0000
                &&& 0 < old(backend)@.avg_ns && elapsed@ % 0x1_0000_0000_0000_0000 <= old(backend)@.avg_ns ==> final(backend)@.avg_ns == old(backend)@.avg_ns
                &&& 0 < old(backend)@.avg_ns < elapsed@ % 0x1_0000_0000_0000_0000 ==> 8 * (final(backend)@.avg_ns - old(backend)@.avg_ns) <= elapsed@ % 0x1_0000_0000_0000_0000 - old(backend)@.avg_ns < 8 * (final(backend)@.avg_ns - old(backend)@.avg_ns) + 8
            }),
    {
        proof {
            use_type_invariant(&*self);
        }
        backend.record_latency(elapsed);
        let why: String = match outcome {
            Outcome::TimedOut => "timeout".to_owned(),
            Outcome::TransportError(e) => "transport error: ".to_owned().concat(e.as_str()),
            Outcome::Answered(status) => {
                let status: u16 = *status;
                if !(is_retryable(status) && self.attempt + 1 < self.max_tries) {
                    return Verdict::Relay;
                }
                "upstream ".to_owned().concat(display_status(status).as_str())
            },
        };
        backend.set_health(Health::Probe);
        *self = Exchange {
            max_tries: self.max_tries,
            attempt: self.attempt + 1,
            last_err: Some(why),
        };
        Verdict::Retry
    }

    /// How many attempts have failed so far.
    pub fn attempt(&self) -> (attempt: u8)
        ensures
            attempt == self@.attempt,
    {
        self.attempt
    }

    /// Why the last failed attempt failed.
    pub fn last_err(&self) -> (why: Option<&str>)
        ensures
            match why {
                Some(s) => self@.last_err == Some(s@),
                None => self@.last_err is None,
            },
    {
        match &self.last_err {
            Some(s) => Some(s.as_str()),
            None => None,
        }
    }
}

/// What is said of attempts is what came of them: each kind of outcome is seen as itself, an answer
/// with the status that it has.
pub proof fn outcomes_show_what_came(outcome: Outcome)
    ensures
        match outcome {
            Outcome::TimedOut => outcome@ == OutcomeView::TimedOut,
            Outcome::TransportError(e) => outcome@ == OutcomeView::TransportError(e@),
            Outcome::Answered(status) => outcome@ == OutcomeView::Answered(status),
        },
{
}

/// A step is seen as what it says to do.
pub proof fn steps_show_what_to_do(step: Step)
    ensures
        match step {
            Step::Forward(i) => step@ == StepView::Forward(i as int),
            Step::Reply(reply) => step@ == StepView::Reply(
                ReplyView { status: reply.status, body: reply.body@ },
            ),
        },
{
}

/// The answers that the proxy makes up.
pub proof fn made_up_answers()
    ensures
        bad_request() == (ReplyView { status: 400, body: "Bad request body"@ }),
        no_backends() == (ReplyView { status: 503, body: "No backends available\n"@ }),
        bad_gateway() == (ReplyView { status: 502, body: "Bad Gateway"@ }),
        ATTEMPT_TIMEOUT_SECS == 5,
{
}

/// A request that has tries left goes to the healthy host that comes first when counting upwards
/// from the cursor, and around, whichever try this is and wherever the cursor points. It is answered
/// only if no host is healthy, or no try is left.
pub proof fn steps_go_to_the_nearest_healthy_host(
    ex: ExchangeView,
    hosts: Seq<BackendView>,
    cursor: u64,
)
    ensures
        ex.attempt >= ex.max_tries ==> next_step(ex, hosts, cursor) == StepView::Reply(
            ReplyView { status: 502, body: "Bad Gateway"@ },
        ),
        ex.attempt < ex.max_tries ==> {
            let n = hosts.len() as int;
            let start = (cursor as usize) as int;
            match next_step(ex, hosts, cursor) {
                StepView::Forward(i) => {
                    &&& 0 <= i < n
                    &&& hosts[i].health == Health::Healthy
                    &&& forall|k: int|
                        0 <= k < n && (#[trigger] hosts[k]).health == Health::Healthy ==> (i - start)
                            % n <= (k - start) % n
                },
                StepView::Reply(reply) => {
                    &&& reply == (ReplyView { status: 503, body: "No backends available\n"@ })
                    &&& forall|k: int|
                        0 <= k < n ==> (#[trigger] hosts[k]).health != Health::Healthy
                },
            }
        },
        ex.attempt < ex.max_tries && hosts.len() > 0 ==> cursor_after_step(ex, hosts, cursor) == (
        cursor + 1) % 0x1_0000_0000_0000_0000,
        ex.attempt >= ex.max_tries || hosts.len() == 0 ==> cursor_after_step(ex, hosts, cursor)
            == cursor,
{
    nearest_healthy_host_is_picked(hosts, start_of(cursor) as int, hosts.len() as int);
    distances_are_short(hosts.len() as int);
}

/// An attempt fails exactly if no answer came, or one of the statuses 502, 503 and 504 while another
/// try is left. Every other answer is passed on at once, at whichever try it comes.
pub proof fn failures_and_answers_are_told_apart(
    outcome: OutcomeView,
    attempt: nat,
    max_tries: nat,
)
    ensures
        match outcome {
            OutcomeView::TimedOut => failure_of(outcome, attempt, max_tries) == Some("timeout"@),
            OutcomeView::TransportError(e) => failure_of(outcome, attempt, max_tries) == Some(
                "transport error: "@ + e,
            ),
            OutcomeView::Answered(status) => {
                &&& status == 502 && attempt + 1 < max_tries ==> failure_of(
                    outcome,
                    attempt,
                    max_tries,
                ) == Some("upstream "@ + "502 Bad Gateway"@)
                &&& status == 503 && attempt + 1 < max_tries ==> failure_of(
                    outcome,
                    attempt,
                    max_tries,
                ) == Some("upstream "@ + "503 Service Unavailable"@)
                &&& status == 504 && attempt + 1 < max_tries ==> failure_of(
                    outcome,
                    attempt,
                    max_tries,
                ) == Some("upstream "@ + "504 Gateway Timeout"@)
                &&& attempt + 1 >= max_tries || (status != 502 && status != 503 && status != 504)
                    ==> failure_of(outcome, attempt, max_tries) is None
            },
        },
{
}

/// Whatever comes of an attempt, the time it took is folded into the average of the host, and
/// identifier and address stay; the host goes on probation if the attempt failed, and else keeps its
/// health.
pub proof fn attempts_are_recorded_whatever_their_outcome(
    b: BackendView,
    nanos: nat,
    failure: Option<Seq<char>>,
)
    ensures
        ({
            let sample = nanos % 0x1_0000_0000_0000_0000;
            let after = settled(b, nanos, failure);
            &&& b.avg_ns == 0 ==> after.avg_ns == sample
            &&& 0 < b.avg_ns && sample <= b.avg_ns ==> after.avg_ns == b.avg_ns
            &&& 0 < b.avg_ns < sample ==> 8 * (after.avg_ns - b.avg_ns) <= sample - b.avg_ns < 8 * (
            after.avg_ns - b.avg_ns) + 8
            &&& after.id == b.id
            &&& after.uri == b.uri
            &&& failure is Some ==> after.health == Health::Probe
            &&& failure is None ==> after.health == b.health
        }),
{
    latency_changes_the_average_alone(b, nanos);
}

/// A failure costs one try and is remembered; without one nothing about the request changes. A new
/// request has had no try.
pub proof fn failures_cost_one_try(ex: ExchangeView, why: Seq<char>, max_tries: nat)
    ensures
        ex.after(Some(why)).attempt == ex.attempt + 1,
        ex.after(Some(why)).max_tries == ex.max_tries,
        ex.after(Some(why)).last_err == Some(why),
        ex.after(None) == ex,
        ExchangeView::fresh(max_tries).max_tries == max_tries,
        ExchangeView::fresh(max_tries).attempt == 0,
        ExchangeView::fresh(max_tries).last_err is None,
{
}

} // verus!
