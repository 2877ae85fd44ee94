//! What holds of a request over all its attempts.

use vstd::arithmetic::div_mod::{
    lemma_fundamental_div_mod, lemma_fundamental_div_mod_converse_mod, lemma_mod_bound,
};
use vstd::prelude::*;

use crate::backend::{BackendView, Snapshot, SnapshotView};
use crate::balance::{
    a_turn_visits_every_host_once, cursor_after, cursor_after_calls,
    full_turn_finds_any_healthy_host, only_healthy_hosts_are_picked, rotation_fits,
    selections_start_one_further_on, slot, start_of, turn_of,
};
use crate::exchange::{
    attempts_are_recorded_whatever_their_outcome, bad_gateway, bad_request, cursor_after_step,
    failure_of, failures_and_answers_are_told_apart, failures_cost_one_try, made_up_answers,
    next_step, no_backends, retryable, settled, steps_go_to_the_nearest_healthy_host, Exchange,
    ExchangeView, Outcome, OutcomeView, Reply, ReplyView, Step, StepView, Verdict,
};
use crate::health::Health;
use crate::metrics::Duration;
use crate::outgoing::{outgoing_uri, rebuild, Request};
use crate::uri::UriView;

verus! {

/// How a request ends: with an answer that is passed on, or with one that the proxy makes up.
pub enum End {
    Relayed(u16),
    Replied(ReplyView),
}

/// A request as far as it went.
pub struct Run {
    /// The positions of the hosts that it was tried on, in order.
    pub tried: Seq<int>,
    /// How it ended, or `None` if the last attempt is still under way.
    pub end: Option<End>,
    /// The hosts as it leaves them.
    pub hosts: Seq<BackendView>,
    /// The cursor as it leaves it.
    pub cursor: u64,
}

/// The run of a request, given what comes of its attempts: the time that each takes, in
/// nanoseconds, and its outcome.
pub open spec fn run(
    ex: ExchangeView,
    hosts: Seq<BackendView>,
    cursor: u64,
    attempts: Seq<(nat, OutcomeView)>,
) -> Run
    decreases attempts.len(),
{
    match next_step(ex, hosts, cursor) {
        StepView::Reply(reply) => Run {
            tried: seq![],
            end: Some(End::Replied(reply)),
            hosts,
            cursor: cursor_after_step(ex, hosts, cursor),
        },
        StepView::Forward(i) => if attempts.len() == 0 {
            Run {
                tried: seq![i],
                end: None,
                hosts,
                cursor: cursor_after_step(ex, hosts, cursor),
            }
        } else {
            let failure = failure_of(attempts[0].1, ex.attempt, ex.max_tries);
            let left = hosts.update(i, settled(hosts[i], attempts[0].0, failure));
            if failure is None {
                Run {
                    tried: seq![i],
                    end: Some(End::Relayed(attempts[0].1->Answered_0)),
                    hosts: left,
                    cursor: cursor_after_step(ex, hosts, cursor),
                }
            } else {
                let rest = run(
                    ex.after(failure),
                    left,
                    cursor_after_step(ex, hosts, cursor),
                    attempts.drop_first(),
                );
                Run { tried: seq![i] + rest.tried, ..rest }
            }
        },
    }
}

/// A request from its arrival: one whose body could not be read is refused at once, and any other
/// runs with all the tries that the configuration gives it.
pub open spec fn handled(
    body_collected: bool,
    snap: SnapshotView,
    cursor: u64,
    attempts: Seq<(nat, OutcomeView)>,
) -> Run {
    if body_collected {
        run(ExchangeView::fresh(snap.max_tries as nat), snap.hosts, cursor, attempts)
    } else {
        Run {
            tried: seq![],
            end: Some(End::Replied(bad_request())),
            hosts: snap.hosts,
            cursor,
        }
    }
}

/// Counting on from the cursor stays within a machine word at every step of a run.
pub open spec fn run_fits(
    ex: ExchangeView,
    hosts: Seq<BackendView>,
    cursor: u64,
    attempts: Seq<(nat, OutcomeView)>,
) -> bool
    decreases attempts.len(),
{
    &&& ex.attempt < ex.max_tries ==> rotation_fits(hosts, start_of(cursor), hosts.len() as int)
    &&& match next_step(ex, hosts, cursor) {
        StepView::Reply(_) => true,
        StepView::Forward(i) => if attempts.len() == 0 {
            true
        } else {
            let failure = failure_of(attempts[0].1, ex.attempt, ex.max_tries);
            failure is Some ==> run_fits(
                ex.after(failure),
                hosts.update(i, settled(hosts[i], attempts[0].0, failure)),
                cursor_after_step(ex, hosts, cursor),
                attempts.drop_first(),
            )
        },
    }
}

/// How a request ends.
#[derive(Debug)]
pub enum Ending {
    Relayed(u16),
    Replied(Reply),
}

impl View for Ending {
    type V = End;

    open spec fn view(&self) -> End {
        match *self {
            Ending::Relayed(status) => End::Relayed(status),
            Ending::Replied(reply) => End::Replied(reply@),
        }
    }
}

/// The positions of the hosts that a request was tried on, what was sent to each of them, and how
/// the request ended, or `None` if the last attempt is still under way.
pub struct Handled<'a, H, B> {
    pub tried: Vec<usize>,
    pub sent: Vec<Request<&'a H, &'a B>>,
    pub end: Option<Ending>,
}

/// The targets that a request is sent to in the course of a run, one for every host it is tried
/// on, given its own target and the hosts as they were when it arrived.
pub open spec fn targets_sent(r: Run, hosts: Seq<BackendView>, original: UriView) -> Seq<UriView> {
    r.tried.map_values(|i: int| outgoing_uri(original, hosts[i].uri))
}

/// Requests can be rewritten to go to each of the hosts that a run tries.
pub open spec fn tries_are_routable(r: Run, hosts: Seq<BackendView>) -> bool {
    forall|t: int| 0 <= t < r.tried.len() ==> hosts[#[trigger] r.tried[t]].uri.routable()
}

/// The targets of requests.
pub open spec fn targets_of<H, B>(sent: Seq<Request<&H, &B>>) -> Seq<UriView> {
    sent.map_values(|out: Request<&H, &B>| out.uri@)
}

/// Positions as mathematical integers.
pub open spec fn positions(tried: Seq<usize>) -> Seq<int> {
    tried.map_values(|i: usize| i as int)
}

/// How a request ended, if it did.
pub open spec fn end_of(end: Option<Ending>) -> Option<End> {
    match end {
        Some(ending) => Some(ending@),
        None => None,
    }
}

/// What came of attempts: the time that each took, in nanoseconds, and its outcome.
pub open spec fn attempts_of(attempts: Seq<(Duration, Outcome)>) -> Seq<(nat, OutcomeView)> {
    attempts.map_values(|a: (Duration, Outcome)| (a.0@, a.1@))
}

/// Handles one request, given what comes of its attempts: picks a host for each, sends the request
/// there, settles the host with the outcome, and goes on until there is an answer. The body is
/// `None` where it could not be read.
pub fn handle<'a, H, B>(
    req: &'a Request<H, Option<B>>,
    snap: &mut Snapshot,
    rr_cursor: &mut u64,
    attempts: &Vec<(Duration, Outcome)>,
) -> (result: Handled<'a, H, B>)
    requires
        req.body is Some ==> run_fits(
            ExchangeView::fresh(old(snap)@.max_tries as nat),
            old(snap)@.hosts,
            *old(rr_cursor),
            attempts_of(attempts@),
        ),
        tries_are_routable(
            handled(req.body is Some, old(snap)@, *old(rr_cursor), attempts_of(attempts@)),
            old(snap)@.hosts,
        ),
    ensures
        ({
            let r = handled(
                req.body is Some,
                old(snap)@,
                *old(rr_cursor),
                attempts_of(attempts@),
            );
            &&& positions(result.tried@) == r.tried
            &&& targets_of(result.sent@) == targets_sent(r, old(snap)@.hosts, req.uri@)
            &&& result.sent.len() == result.tried.len()
            &&& forall|t: int|
                0 <= t < result.sent.len() ==> {
                    &&& *(#[trigger] result.sent[t]).head == req.head
                    &&& *result.sent[t].body == req.body->Some_0
                    &&& result.sent[t].uri@ == outgoing_uri(
                        req.uri@,
                        old(snap)@.hosts[result.tried[t] as int].uri,
                    )
                }
            &&& end_of(result.end) == r.end
            &&& final(snap)@ == (SnapshotView { hosts: r.hosts, ..old(snap)@ })
            &&& *final(rr_cursor) == r.cursor
        }),
{
    let mut tried: Vec<usize> = Vec::new();
    let mut sent: Vec<Request<&'a H, &'a B>> = Vec::new();
    assert(positions(tried@) == Seq::<int>::empty());
    let mut ex: Exchange = match Exchange::begin(req.body.is_some(), snap.max_tries) {
        Ok(ex) => ex,
        Err(reply) => return Handled { tried, sent, end: Some(Ending::Replied(reply)) },
    };
    let body: &'a B = match &req.body {
        Some(body) => body,
        None => vstd::pervasive::unreached(),
    };
    let ghost all = attempts_of(attempts@);
    let ghost arrival = snap@.hosts;
    let ghost whole = run(ex@, arrival, *rr_cursor, all);
    let mut t: usize = 0;
    assert(all.skip(0) == all);
    assert(seq![] + whole.tried == whole.tried);
    loop
        invariant
            t <= attempts.len(),
            all == attempts_of(attempts@),
            arrival == old(snap)@.hosts,
            whole == handled(true, old(snap)@, *old(rr_cursor), all),
            req.body is Some,
            *body == req.body->Some_0,
            snap.generation == old(snap).generation,
            snap.max_tries == old(snap).max_tries,
            snap@.hosts.len() == arrival.len(),
            forall|k: int|
                0 <= k < arrival.len() ==> (#[trigger] snap@.hosts[k]).uri == arrival[k].uri,
            run_fits(ex@, snap@.hosts, *rr_cursor, all.skip(t as int)),
            ({
                let rest = run(ex@, snap@.hosts, *rr_cursor, all.skip(t as int));
                &&& whole.tried == positions(tried@) + rest.tried
                &&& whole.end == rest.end
                &&& whole.hosts == rest.hosts
                &&& whole.cursor == rest.cursor
            }),
            tries_are_routable(whole, arrival),
            sent.len() == tried.len(),
            forall|s: int|
                0 <= s < sent.len() ==> {
                    &&& *(#[trigger] sent[s]).head == req.head
                    &&& *sent[s].body == *body
                    &&& sent[s].uri@ == outgoing_uri(req.uri@, arrival[tried[s] as int].uri)
                },
        decreases attempts.len() - t,
    {
        let ghost hosts = snap@.hosts;
        let ghost before = tried@;
        let i: usize = match ex.next_attempt(snap, rr_cursor) {
            Step::Forward(i) => i,
            Step::Reply(reply) => {
                return Handled { tried, sent, end: Some(Ending::Replied(reply)) };
            },
        };
        tried.push(i);
        assert(positions(tried@) == positions(before) + seq![i as int]);
        assert(whole.tried[before.len() as int] == i);
        assert(hosts[i as int].uri == arrival[i as int].uri);
        sent.push(rebuild(&req.head, &req.uri, body, snap.hosts[i].uri()));
        if t == attempts.len() {
            return Handled { tried, sent, end: None };
        }
        assert(all.skip(t as int)[0] == (attempts[t as int].0@, attempts[t as int].1@));
        assert(all.skip(t as int).drop_first() == all.skip(t + 1));
        let ghost failure = failure_of(attempts[t as int].1@, ex@.attempt, ex@.max_tries);
        let verdict: Verdict = ex.finish_attempt(
            &mut snap.hosts[i],
            attempts[t].0,
            &attempts[t].1,
        );
        assert(snap@.hosts == hosts.update(
            i as int,
            settled(hosts[i as int], attempts[t as int].0@, failure),
        ));
        if let Verdict::Relay = verdict {
            let status: u16 = match &attempts[t].1 {
                Outcome::Answered(status) => *status,
                _ => vstd::pervasive::unreached(),
            };
            return Handled { tried, sent, end: Some(Ending::Relayed(status)) };
        }
        t = t + 1;
    }
}

/// All that is sent in the course of a run has the path and query of the request, or `/` where it
/// has none, and goes to the host that is tried; so what is sent at two tries differs in nothing
/// but scheme and authority.
pub proof fn tries_differ_only_in_their_address(
    ex: ExchangeView,
    hosts: Seq<BackendView>,
    cursor: u64,
    attempts: Seq<(nat, OutcomeView)>,
    original: UriView,
    s: int,
    t: int,
)
    requires
        0 <= s < run(ex, hosts, cursor, attempts).tried.len(),
        0 <= t < run(ex, hosts, cursor, attempts).tried.len(),
    ensures
        ({
            let r = run(ex, hosts, cursor, attempts);
            let sent = targets_sent(r, hosts, original);
            &&& sent.len() == r.tried.len()
            &&& 0 <= r.tried[t] < hosts.len()
            &&& sent[t].scheme == hosts[r.tried[t]].uri.scheme
            &&& sent[t].authority == hosts[r.tried[t]].uri.authority
            &&& sent[t].path_and_query == if original.path_and_query is Some {
                original.path_and_query
            } else {
                Some("/"@)
            }
            &&& sent[s].path_and_query == sent[t].path_and_query
            &&& sent[s] == (UriView {
                scheme: sent[s].scheme,
                authority: sent[s].authority,
                ..sent[t]
            })
        }),
{
    no_host_is_tried_twice(ex, hosts, cursor, attempts);
}

/// A request that is sent on goes to a healthy host and has a try left for it.
proof fn one_attempt(ex: ExchangeView, hosts: Seq<BackendView>, cursor: u64) -> (i: int)
    requires
        next_step(ex, hosts, cursor) is Forward,
    ensures
        next_step(ex, hosts, cursor) == StepView::Forward(i),
        0 <= i < hosts.len(),
        hosts[i].health == Health::Healthy,
        ex.attempt < ex.max_tries,
{
    only_healthy_hosts_are_picked(hosts, start_of(cursor) as int, hosts.len() as int);
    next_step(ex, hosts, cursor)->Forward_0
}

/// A request is tried at most as often as it has tries left.
pub proof fn tries_are_bounded(
    ex: ExchangeView,
    hosts: Seq<BackendView>,
    cursor: u64,
    attempts: Seq<(nat, OutcomeView)>,
)
    requires
        ex.attempt <= ex.max_tries,
    ensures
        run(ex, hosts, cursor, attempts).tried.len() <= ex.max_tries - ex.attempt,
        run(ex, hosts, cursor, attempts).tried.len() <= attempts.len() + 1,
    decreases attempts.len(),
{
    if next_step(ex, hosts, cursor) is Forward {
        let i = one_attempt(ex, hosts, cursor);
        if attempts.len() > 0 {
            let failure = failure_of(attempts[0].1, ex.attempt, ex.max_tries);
            if failure is Some {
                tries_are_bounded(
                    ex.after(failure),
                    hosts.update(i, settled(hosts[i], attempts[0].0, failure)),
                    cursor_after(cursor, hosts.len()),
                    attempts.drop_first(),
                );
            }
        }
    }
}

/// A request is answered: once every try that it has left has had an outcome, it has ended.
pub proof fn every_request_ends(
    ex: ExchangeView,
    hosts: Seq<BackendView>,
    cursor: u64,
    attempts: Seq<(nat, OutcomeView)>,
)
    requires
        ex.attempt <= ex.max_tries,
        attempts.len() >= ex.max_tries - ex.attempt,
    ensures
        run(ex, hosts, cursor, attempts).end is Some,
    decreases attempts.len(),
{
    if next_step(ex, hosts, cursor) is Forward {
        let i = one_attempt(ex, hosts, cursor);
        let failure = failure_of(attempts[0].1, ex.attempt, ex.max_tries);
        if failure is Some {
            every_request_ends(
                ex.after(failure),
                hosts.update(i, settled(hosts[i], attempts[0].0, failure)),
                cursor_after(cursor, hosts.len()),
                attempts.drop_first(),
            );
        }
    }
}

/// A request only goes to hosts that were healthy when it arrived, and to none of them twice.
pub proof fn no_host_is_tried_twice(
    ex: ExchangeView,
    hosts: Seq<BackendView>,
    cursor: u64,
    attempts: Seq<(nat, OutcomeView)>,
)
    ensures
        ({
            let tried = run(ex, hosts, cursor, attempts).tried;
            &&& forall|t: int|
                0 <= t < tried.len() ==> 0 <= #[trigger] tried[t] < hosts.len()
                    && hosts[tried[t]].health == Health::Healthy
            &&& tried.no_duplicates()
        }),
    decreases attempts.len(),
{
    if next_step(ex, hosts, cursor) is Forward {
        let i = one_attempt(ex, hosts, cursor);
        if attempts.len() > 0 {
            let failure = failure_of(attempts[0].1, ex.attempt, ex.max_tries);
            if failure is Some {
                let left = hosts.update(i, settled(hosts[i], attempts[0].0, failure));
                let next = cursor_after(cursor, hosts.len());
                no_host_is_tried_twice(ex.after(failure), left, next, attempts.drop_first());
                let rest = run(ex.after(failure), left, next, attempts.drop_first()).tried;
                let tried = run(ex, hosts, cursor, attempts).tried;
                assert forall|t: int| 0 <= t < tried.len() implies 0 <= #[trigger] tried[t]
                    < hosts.len() && hosts[tried[t]].health == Health::Healthy by {
                    if t > 0 {
                        assert(tried[t] == rest[t - 1]);
                    }
                }
                assert forall|s: int, t: int|
                    0 <= s < tried.len() && 0 <= t < tried.len() && s != t implies tried[s]
                    != tried[t] by {
                    if s > 0 {
                        assert(tried[s] == rest[s - 1]);
                    }
                    if t > 0 {
                        assert(tried[t] == rest[t - 1]);
                    }
                }
            }
        }
    }
}

/// A request changes only the hosts that it is tried on, and only their health and average.
/// Hosts on which it failed are left on probation, a host whose answer was passed on keeps its
/// health, and no host becomes healthy that was not.
pub proof fn only_failed_hosts_go_on_probation(
    ex: ExchangeView,
    hosts: Seq<BackendView>,
    cursor: u64,
    attempts: Seq<(nat, OutcomeView)>,
    k: int,
)
    requires
        0 <= k < hosts.len(),
    ensures
        ({
            let r = run(ex, hosts, cursor, attempts);
            &&& r.hosts.len() == hosts.len()
            &&& r.hosts[k].id == hosts[k].id
            &&& r.hosts[k].uri == hosts[k].uri
            &&& !r.tried.contains(k) ==> r.hosts[k] == hosts[k]
            &&& r.hosts[k].health == Health::Healthy ==> hosts[k].health == Health::Healthy
            &&& r.hosts[k].health == hosts[k].health || r.hosts[k].health == Health::Probe
            &&& forall|t: int|
                0 <= t < r.tried.len() && #[trigger] r.tried[t] == k ==> r.hosts[k].health == if t
                    == r.tried.len() - 1 && !(r.end is Some && r.end->Some_0 is Replied) {
                    Health::Healthy
                } else {
                    Health::Probe
                }
        }),
    decreases attempts.len(),
{
    let r = run(ex, hosts, cursor, attempts);
    if next_step(ex, hosts, cursor) is Forward {
        let i = one_attempt(ex, hosts, cursor);
        assert(r.tried[0] == i);
        if attempts.len() > 0 {
            let failure = failure_of(attempts[0].1, ex.attempt, ex.max_tries);
            if failure is Some {
                let left = hosts.update(i, settled(hosts[i], attempts[0].0, failure));
                let next = cursor_after(cursor, hosts.len());
                only_failed_hosts_go_on_probation(
                    ex.after(failure),
                    left,
                    next,
                    attempts.drop_first(),
                    k,
                );
                no_host_is_tried_twice(ex.after(failure), left, next, attempts.drop_first());
                no_host_is_tried_twice(ex, hosts, cursor, attempts);
                let rest = run(ex.after(failure), left, next, attempts.drop_first());
                assert(r.tried == seq![i] + rest.tried);
                if rest.tried.contains(k) {
                    let t = choose|t: int| 0 <= t < rest.tried.len() && rest.tried[t] == k;
                    assert(r.tried[t + 1] == k);
                }
                assert forall|t: int|
                    0 <= t < r.tried.len() && #[trigger] r.tried[t] == k implies r.hosts[k].health
                    == if t == r.tried.len() - 1 && !(r.end is Some && r.end->Some_0 is Replied) {
                    Health::Healthy
                } else {
                    Health::Probe
                } by {
                    if t > 0 {
                        assert(rest.tried[t - 1] == k);
                    } else {
                        if rest.tried.contains(k) {
                            let u = choose|u: int| 0 <= u < rest.tried.len() && rest.tried[u] == k;
                            assert(r.tried[u + 1] == k);
                            assert(r.tried[0] != r.tried[u + 1]);
                        }
                        assert(r.hosts[k] == left[k]);
                        assert(rest.tried.len() == 0 ==> rest.end is Some && rest.end->Some_0
                            is Replied);
                    }
                }
            }
        }
    }
}

/// An answer that is passed on is that of the last host tried. Its status is one for which no
/// other host is tried, unless it came on the very last try.
pub proof fn answers_are_passed_on(
    ex: ExchangeView,
    hosts: Seq<BackendView>,
    cursor: u64,
    attempts: Seq<(nat, OutcomeView)>,
)
    requires
        ex.attempt <= ex.max_tries,
    ensures
        ({
            let r = run(ex, hosts, cursor, attempts);
            r.end matches Some(End::Relayed(status)) ==> {
                &&& 0 < r.tried.len() <= attempts.len()
                &&& attempts[r.tried.len() - 1].1 == OutcomeView::Answered(status)
                &&& retryable(status) ==> ex.attempt + r.tried.len() == ex.max_tries
            }
        }),
    decreases attempts.len(),
{
    if next_step(ex, hosts, cursor) is Forward {
        let i = one_attempt(ex, hosts, cursor);
        if attempts.len() > 0 {
            let failure = failure_of(attempts[0].1, ex.attempt, ex.max_tries);
            if failure is Some {
                answers_are_passed_on(
                    ex.after(failure),
                    hosts.update(i, settled(hosts[i], attempts[0].0, failure)),
                    cursor_after(cursor, hosts.len()),
                    attempts.drop_first(),
                );
            }
        }
    }
}

/// The proxy makes up an answer in two cases only: every try that was left has failed, the last
/// one without an answer from the host, or no host is healthy any more while tries are left.
pub proof fn made_up_answers_have_a_reason(
    ex: ExchangeView,
    hosts: Seq<BackendView>,
    cursor: u64,
    attempts: Seq<(nat, OutcomeView)>,
)
    requires
        ex.attempt <= ex.max_tries,
    ensures
        ({
            let r = run(ex, hosts, cursor, attempts);
            r.end matches Some(End::Replied(reply)) ==> {
                &&& r.tried.len() <= attempts.len()
                &&& reply == bad_gateway() && ex.attempt + r.tried.len() == ex.max_tries || reply
                    == no_backends() && ex.attempt + r.tried.len() < ex.max_tries && forall|k: int|
                    0 <= k < r.hosts.len() ==> (#[trigger] r.hosts[k]).health != Health::Healthy
                &&& reply == bad_gateway() && r.tried.len() > 0 ==> !(attempts[r.tried.len()
                    - 1].1 is Answered)
            }
        }),
    decreases attempts.len(),
{
    if next_step(ex, hosts, cursor) is Forward {
        let i = one_attempt(ex, hosts, cursor);
        if attempts.len() > 0 {
            let failure = failure_of(attempts[0].1, ex.attempt, ex.max_tries);
            if failure is Some {
                made_up_answers_have_a_reason(
                    ex.after(failure),
                    hosts.update(i, settled(hosts[i], attempts[0].0, failure)),
                    cursor_after(cursor, hosts.len()),
                    attempts.drop_first(),
                );
            }
        }
    } else {
        full_turn_finds_any_healthy_host(hosts, start_of(cursor) as int);
    }
}

/// How many of the hosts are healthy.
pub open spec fn healthy_count(hosts: Seq<BackendView>) -> nat
    decreases hosts.len(),
{
    if hosts.len() == 0 {
        0
    } else {
        healthy_count(hosts.drop_last()) + if hosts.last().health == Health::Healthy {
            1nat
        } else {
            0nat
        }
    }
}

/// There are healthy hosts to count exactly if there is one.
proof fn healthy_count_is_positive(hosts: Seq<BackendView>)
    ensures
        healthy_count(hosts) > 0 <==> exists|k: int|
            0 <= k < hosts.len() && #[trigger] hosts[k].health == Health::Healthy,
    decreases hosts.len(),
{
    if hosts.len() > 0 {
        let shorter = hosts.drop_last();
        healthy_count_is_positive(shorter);
        if hosts.last().health == Health::Healthy {
            assert(hosts[hosts.len() - 1].health == Health::Healthy);
        } else if exists|k: int| 0 <= k < hosts.len() && #[trigger] hosts[k].health
            == Health::Healthy {
            let k = choose|k: int|
                0 <= k < hosts.len() && #[trigger] hosts[k].health == Health::Healthy;
            assert(shorter[k].health == Health::Healthy);
        } else {
            assert forall|k: int| 0 <= k < shorter.len() implies #[trigger] shorter[k].health
                != Health::Healthy by {
                assert(hosts[k].health != Health::Healthy);
            }
        }
    }
}

/// A healthy host that goes on probation is one healthy host less.
proof fn probation_lowers_the_count(hosts: Seq<BackendView>, i: int, b: BackendView)
    requires
        0 <= i < hosts.len(),
        hosts[i].health == Health::Healthy,
        b.health != Health::Healthy,
    ensures
        healthy_count(hosts.update(i, b)) + 1 == healthy_count(hosts),
    decreases hosts.len(),
{
    if i < hosts.len() - 1 {
        probation_lowers_the_count(hosts.drop_last(), i, b);
        assert(hosts.update(i, b).drop_last() == hosts.drop_last().update(i, b));
    } else {
        assert(hosts.update(i, b).drop_last() == hosts.drop_last());
    }
}

/// A request that no host ever answers is tried on as many healthy hosts as there are, or as it
/// has tries left if those are fewer. It ends in "no backends" in the first case and in "bad
/// gateway" in the second.
pub proof fn unanswered_requests_exhaust_hosts_or_tries(
    ex: ExchangeView,
    hosts: Seq<BackendView>,
    cursor: u64,
    attempts: Seq<(nat, OutcomeView)>,
)
    requires
        ex.attempt <= ex.max_tries,
        attempts.len() >= ex.max_tries - ex.attempt,
        forall|t: int| 0 <= t < attempts.len() ==> !((#[trigger] attempts[t]).1 is Answered),
    ensures
        ({
            let r = run(ex, hosts, cursor, attempts);
            if healthy_count(hosts) < ex.max_tries - ex.attempt {
                r.tried.len() == healthy_count(hosts) && r.end == Some(End::Replied(no_backends()))
            } else {
                r.tried.len() == ex.max_tries - ex.attempt && r.end == Some(
                    End::Replied(bad_gateway()),
                )
            }
        }),
    decreases attempts.len(),
{
    healthy_count_is_positive(hosts);
    full_turn_finds_any_healthy_host(hosts, start_of(cursor) as int);
    if next_step(ex, hosts, cursor) is Forward {
        let i = one_attempt(ex, hosts, cursor);
        let failure = failure_of(attempts[0].1, ex.attempt, ex.max_tries);
        let b = settled(hosts[i], attempts[0].0, failure);
        probation_lowers_the_count(hosts, i, b);
        unanswered_requests_exhaust_hosts_or_tries(
            ex.after(failure),
            hosts.update(i, b),
            cursor_after(cursor, hosts.len()),
            attempts.drop_first(),
        );
    }
}

/// A request after a sequence of failed attempts, given why each of them failed.
pub open spec fn after_failures(ex: ExchangeView, failures: Seq<Seq<char>>) -> ExchangeView
    decreases failures.len(),
{
    if failures.len() == 0 {
        ex
    } else {
        after_failures(ex, failures.drop_last()).after(Some(failures.last()))
    }
}

/// Every failed attempt costs a try and is remembered until the next one, whatever other requests
/// do to the hosts in between; with all tries used up, a request is answered without looking at
/// the hosts.
pub proof fn failures_use_up_tries(
    ex: ExchangeView,
    failures: Seq<Seq<char>>,
    hosts: Seq<BackendView>,
    cursor: u64,
)
    ensures
        after_failures(ex, failures).attempt == ex.attempt + failures.len(),
        after_failures(ex, failures).max_tries == ex.max_tries,
        failures.len() > 0 ==> after_failures(ex, failures).last_err == Some(failures.last()),
        failures.len() >= ex.max_tries - ex.attempt ==> next_step(
            after_failures(ex, failures),
            hosts,
            cursor,
        ) == StepView::Reply(bad_gateway()),
    decreases failures.len(),
{
    if failures.len() > 0 {
        failures_use_up_tries(ex, failures.drop_last(), hosts, cursor);
    }
}

/// How often a run looked for a host: once for every attempt, and once more if it found none.
pub open spec fn looks(r: Run) -> nat {
    if r.end == Some(End::Replied(no_backends())) {
        r.tried.len() + 1
    } else {
        r.tried.len()
    }
}

/// Selections can be counted from the front as well as from the back.
proof fn one_selection_first(cursor: u64, n: nat, calls: nat)
    ensures
        cursor_after_calls(cursor_after(cursor, n), n, calls) == cursor_after_calls(
            cursor,
            n,
            calls + 1,
        ),
    decreases calls,
{
    reveal_with_fuel(cursor_after_calls, 2);
    if calls > 0 {
        one_selection_first(cursor, n, (calls - 1) as nat);
    }
}

/// Without hosts the cursor stays where it is.
proof fn no_hosts_keep_the_cursor(cursor: u64, calls: nat)
    ensures
        cursor_after_calls(cursor, 0, calls) == cursor,
    decreases calls,
{
    if calls > 0 {
        no_hosts_keep_the_cursor(cursor, (calls - 1) as nat);
    }
}

/// A request moves the cursor on once for every time that a host is looked for, and by nothing
/// else; without hosts it does not move it at all.
pub proof fn cursor_advances_once_per_look(
    ex: ExchangeView,
    hosts: Seq<BackendView>,
    cursor: u64,
    attempts: Seq<(nat, OutcomeView)>,
)
    ensures
        ({
            let r = run(ex, hosts, cursor, attempts);
            &&& r.cursor == cursor_after_calls(cursor, hosts.len(), looks(r))
            &&& hosts.len() == 0 ==> r.cursor == cursor
        }),
    decreases attempts.len(),
{
    let r = run(ex, hosts, cursor, attempts);
    reveal_with_fuel(cursor_after_calls, 2);
    assert(bad_gateway() != no_backends());
    if next_step(ex, hosts, cursor) is Forward {
        let i = one_attempt(ex, hosts, cursor);
        if attempts.len() > 0 {
            let failure = failure_of(attempts[0].1, ex.attempt, ex.max_tries);
            if failure is Some {
                let left = hosts.update(i, settled(hosts[i], attempts[0].0, failure));
                let next = cursor_after(cursor, hosts.len());
                let rest = run(ex.after(failure), left, next, attempts.drop_first());
                cursor_advances_once_per_look(ex.after(failure), left, next, attempts.drop_first());
                one_selection_first(cursor, hosts.len(), looks(rest));
                assert(looks(r) == looks(rest) + 1);
            }
        }
    }
    no_hosts_keep_the_cursor(cursor, looks(r));
}

/// A cursor that is not about to leave the machine word fits a whole run.
pub proof fn small_cursors_fit(
    ex: ExchangeView,
    hosts: Seq<BackendView>,
    cursor: u64,
    attempts: Seq<(nat, OutcomeView)>,
)
    requires
        ex.attempt <= ex.max_tries,
        start_of(cursor) + (ex.max_tries - ex.attempt) + hosts.len() <= usize::MAX,
    ensures
        run_fits(ex, hosts, cursor, attempts),
    decreases attempts.len(),
{
    if next_step(ex, hosts, cursor) is Forward {
        let i = one_attempt(ex, hosts, cursor);
        if attempts.len() > 0 {
            let failure = failure_of(attempts[0].1, ex.attempt, ex.max_tries);
            if failure is Some {
                reveal_with_fuel(cursor_after_calls, 2);
                selections_start_one_further_on(cursor, hosts.len(), 1);
                small_cursors_fit(
                    ex.after(failure),
                    hosts.update(i, settled(hosts[i], attempts[0].0, failure)),
                    cursor_after(cursor, hosts.len()),
                    attempts.drop_first(),
                );
            }
        }
    }
}

/// The configuration and the cursor after requests have been handled one after the other. Each is
/// given by whether its body could be read, and by what comes of its attempts.
pub open spec fn after_requests(
    snap: SnapshotView,
    cursor: u64,
    requests: Seq<(bool, Seq<(nat, OutcomeView)>)>,
) -> (SnapshotView, u64)
    decreases requests.len(),
{
    if requests.len() == 0 {
        (snap, cursor)
    } else {
        let (s, c) = after_requests(snap, cursor, requests.drop_last());
        let r = handled(requests.last().0, s, c, requests.last().1);
        (SnapshotView { hosts: r.hosts, ..s }, r.cursor)
    }
}

/// A host that is out of service stays as it is: however many requests are handled, nothing about
/// it changes, and the next request is not tried on it either.
pub proof fn hosts_out_of_service_stay_out(
    snap: SnapshotView,
    cursor: u64,
    requests: Seq<(bool, Seq<(nat, OutcomeView)>)>,
    next: (bool, Seq<(nat, OutcomeView)>),
    k: int,
)
    requires
        0 <= k < snap.hosts.len(),
        snap.hosts[k].health != Health::Healthy,
    ensures
        ({
            let (s, c) = after_requests(snap, cursor, requests);
            &&& s.hosts.len() == snap.hosts.len()
            &&& s.hosts[k] == snap.hosts[k]
            &&& !handled(next.0, s, c, next.1).tried.contains(k)
        }),
    decreases requests.len(),
{
    let (s, c) = after_requests(snap, cursor, requests);
    let ex = ExchangeView::fresh(s.max_tries as nat);
    if requests.len() > 0 {
        let (g, d) = after_requests(snap, cursor, requests.drop_last());
        let last = requests.last();
        hosts_out_of_service_stay_out(snap, cursor, requests.drop_last(), last, k);
        if last.0 {
            only_failed_hosts_go_on_probation(
                ExchangeView::fresh(g.max_tries as nat),
                g.hosts,
                d,
                last.1,
                k,
            );
        }
    }
    no_host_is_tried_twice(ex, s.hosts, c, next.1);
}

/// The run of a request that fails at its first try goes on with the run of what is left.
proof fn a_failed_try(
    ex: ExchangeView,
    hosts: Seq<BackendView>,
    cursor: u64,
    attempts: Seq<(nat, OutcomeView)>,
) -> (rest: (int, ExchangeView, Seq<BackendView>, u64))
    requires
        next_step(ex, hosts, cursor) is Forward,
        attempts.len() > 0,
        failure_of(attempts[0].1, ex.attempt, ex.max_tries) is Some,
    ensures
        ({
            let (i, ex2, left, next) = rest;
            let r = run(ex, hosts, cursor, attempts);
            let r2 = run(ex2, left, next, attempts.drop_first());
            &&& 0 <= i < hosts.len()
            &&& hosts[i].health == Health::Healthy
            &&& ex.attempt < ex.max_tries
            &&& next_step(ex, hosts, cursor) == StepView::Forward(i)
            &&& ex2.attempt == ex.attempt + 1
            &&& ex2.max_tries == ex.max_tries
            &&& left == hosts.update(
                i,
                settled(
                    hosts[i],
                    attempts[0].0,
                    failure_of(attempts[0].1, ex.attempt, ex.max_tries),
                ),
            )
            &&& left[i].health == Health::Probe
            &&& next == (cursor + 1) % 0x1_0000_0000_0000_0000
            &&& r.tried == seq![i] + r2.tried
            &&& r.end == r2.end
            &&& r.hosts == r2.hosts
            &&& r.cursor == r2.cursor
            &&& !r2.tried.contains(i)
        }),
{
    let i = one_attempt(ex, hosts, cursor);
    let failure = failure_of(attempts[0].1, ex.attempt, ex.max_tries);
    let left = hosts.update(i, settled(hosts[i], attempts[0].0, failure));
    let next = cursor_after_step(ex, hosts, cursor);
    steps_go_to_the_nearest_healthy_host(ex, hosts, cursor);
    attempts_are_recorded_whatever_their_outcome(hosts[i], attempts[0].0, failure);
    failures_cost_one_try(ex, failure->Some_0, 0);
    no_host_is_tried_twice(ex.after(failure), left, next, attempts.drop_first());
    (i, ex.after(failure), left, next)
}

/// Every try goes to the host that comes first, when counting upwards from the cursor of that try
/// and around, of those that were healthy when the request arrived and have not been tried yet. The
/// cursor of a try is one further on than that of the try before.
pub proof fn tries_follow_the_rotation(
    ex: ExchangeView,
    hosts: Seq<BackendView>,
    cursor: u64,
    attempts: Seq<(nat, OutcomeView)>,
    t: int,
    k: int,
)
    requires
        0 <= t < run(ex, hosts, cursor, attempts).tried.len(),
        0 <= k < hosts.len(),
        hosts[k].health == Health::Healthy,
        forall|u: int| 0 <= u < t ==> #[trigger] run(ex, hosts, cursor, attempts).tried[u] != k,
    ensures
        ({
            let tried = run(ex, hosts, cursor, attempts).tried;
            let n = hosts.len() as int;
            let start = (((cursor + t) % 0x1_0000_0000_0000_0000) as u64 as usize) as int;
            &&& 0 <= tried[t] < n
            &&& hosts[tried[t]].health == Health::Healthy
            &&& (tried[t] - start) % n <= (k - start) % n
        }),
    decreases attempts.len(),
{
    let tried = run(ex, hosts, cursor, attempts).tried;
    no_host_is_tried_twice(ex, hosts, cursor, attempts);
    assert(0 <= tried[t] < hosts.len() && hosts[tried[t]].health == Health::Healthy);
    steps_go_to_the_nearest_healthy_host(ex, hosts, cursor);
    if t == 0 {
        assert(((cursor + t) % 0x1_0000_0000_0000_0000) as u64 == cursor);
        let i = one_attempt(ex, hosts, cursor);
        assert(tried[0] == i);
    } else {
        let (i, ex2, left, next) = a_failed_try(ex, hosts, cursor, attempts);
        let rest = run(ex2, left, next, attempts.drop_first()).tried;
        assert(tried[0] == i);
        assert(tried[t] == rest[t - 1]);
        assert forall|u: int| 0 <= u < t - 1 implies #[trigger] rest[u] != k by {
            assert(tried[u + 1] == rest[u]);
        }
        assert(left[k] == hosts[k]);
        tries_follow_the_rotation(ex2, left, next, attempts.drop_first(), t - 1, k);
        assert((next + (t - 1)) % 0x1_0000_0000_0000_0000 == (cursor + t)
            % 0x1_0000_0000_0000_0000);
    }
}

/// What the outcome of the try `t` means. No answer, or one of the statuses 502, 503 and 504 while
/// another try is left, puts the host on probation, and the request goes on. Every other answer ends
/// the request at once: it is passed on, the host keeps its health, and no further host is tried.
/// Either way the time that the try took is folded into the host's average, and nothing else about
/// the host changes.
pub proof fn every_outcome_has_its_effect(
    ex: ExchangeView,
    hosts: Seq<BackendView>,
    cursor: u64,
    attempts: Seq<(nat, OutcomeView)>,
    t: int,
)
    requires
        0 <= t < run(ex, hosts, cursor, attempts).tried.len(),
        t < attempts.len(),
    ensures
        ({
            let r = run(ex, hosts, cursor, attempts);
            let host = hosts[r.tried[t]];
            let left = r.hosts[r.tried[t]];
            let sample = attempts[t].0 % 0x1_0000_0000_0000_0000;
            let fails = match attempts[t].1 {
                OutcomeView::TimedOut => true,
                OutcomeView::TransportError(_) => true,
                OutcomeView::Answered(status) => (status == 502 || status == 503 || status == 504)
                    && ex.attempt + t + 1 < ex.max_tries,
            };
            &&& 0 <= r.tried[t] < hosts.len() == r.hosts.len()
            &&& fails ==> {
                &&& left.health == Health::Probe
                &&& t == r.tried.len() - 1 ==> r.end matches Some(End::Replied(_))
            }
            &&& !fails ==> {
                &&& host.health == Health::Healthy
                &&& left.health == Health::Healthy
                &&& t == r.tried.len() - 1
                &&& r.end == Some(End::Relayed(attempts[t].1->Answered_0))
            }
            &&& host.avg_ns == 0 ==> left.avg_ns == sample
            &&& 0 < host.avg_ns && sample <= host.avg_ns ==> left.avg_ns == host.avg_ns
            &&& 0 < host.avg_ns < sample ==> 8 * (left.avg_ns - host.avg_ns) <= sample
                - host.avg_ns < 8 * (left.avg_ns - host.avg_ns) + 8
            &&& left.id == host.id
            &&& left.uri == host.uri
        }),
    decreases attempts.len(),
{
    let r = run(ex, hosts, cursor, attempts);
    let i = one_attempt(ex, hosts, cursor);
    let failure = failure_of(attempts[0].1, ex.attempt, ex.max_tries);
    failures_and_answers_are_told_apart(attempts[0].1, ex.attempt, ex.max_tries);
    attempts_are_recorded_whatever_their_outcome(hosts[i], attempts[0].0, failure);
    assert(r.tried[0] == i);
    if failure is Some {
        let (j, ex2, left, next) = a_failed_try(ex, hosts, cursor, attempts);
        let rest = run(ex2, left, next, attempts.drop_first());
        assert(j == i);
        only_failed_hosts_go_on_probation(ex2, left, next, attempts.drop_first(), i);
        if t == 0 {
            assert(r.hosts[i] == left[i]);
            if rest.tried.len() == 0 {
                assert(rest.end matches Some(End::Replied(_)));
            }
        } else {
            assert(r.tried[t] == rest.tried[t - 1]);
            every_outcome_has_its_effect(ex2, left, next, attempts.drop_first(), t - 1);
            assert(rest.tried.contains(rest.tried[t - 1]));
            assert(r.tried[t] != i);
            assert(left[r.tried[t]] == hosts[r.tried[t]]);
            assert(attempts.drop_first()[t - 1] == attempts[t]);
        }
    }
}

/// What comes after `t` tries, all of them failed; with none, this is how a request begins. With no
/// try left the answer is "bad gateway"; while a host that was healthy when the request arrived has
/// not been tried, one is tried; and else the answer is "no backends".
pub proof fn failures_lead_on(
    ex: ExchangeView,
    hosts: Seq<BackendView>,
    cursor: u64,
    attempts: Seq<(nat, OutcomeView)>,
    t: int,
)
    requires
        ex.attempt <= ex.max_tries,
        0 <= t <= run(ex, hosts, cursor, attempts).tried.len(),
        t <= attempts.len(),
        forall|u: int|
            0 <= u < t ==> match (#[trigger] attempts[u]).1 {
                OutcomeView::TimedOut => true,
                OutcomeView::TransportError(_) => true,
                OutcomeView::Answered(status) => (status == 502 || status == 503 || status == 504)
                    && ex.attempt + u + 1 < ex.max_tries,
            },
    ensures
        ({
            let r = run(ex, hosts, cursor, attempts);
            let untried = exists|k: int|
                {
                    &&& 0 <= k < hosts.len()
                    &&& (#[trigger] hosts[k]).health == Health::Healthy
                    &&& !r.tried.take(t).contains(k)
                };
            if ex.attempt + t >= ex.max_tries {
                &&& r.tried.len() == t
                &&& r.end == Some(
                    End::Replied(ReplyView { status: 502, body: "Bad Gateway"@ }),
                )
            } else if untried {
                r.tried.len() > t
            } else {
                &&& r.tried.len() == t
                &&& r.end == Some(
                    End::Replied(ReplyView { status: 503, body: "No backends available\n"@ }),
                )
            }
        }),
    decreases attempts.len(),
{
    let r = run(ex, hosts, cursor, attempts);
    steps_go_to_the_nearest_healthy_host(ex, hosts, cursor);
    if t == 0 {
        assert(r.tried.take(0) == Seq::<int>::empty());
        if next_step(ex, hosts, cursor) is Forward {
            let i = one_attempt(ex, hosts, cursor);
            assert(r.tried[0] == i);
            assert(hosts[i].health == Health::Healthy && !r.tried.take(0).contains(i));
        }
    } else {
        assert(next_step(ex, hosts, cursor) is Forward);
        assert(attempts[0] == attempts[0]);
        failures_and_answers_are_told_apart(attempts[0].1, ex.attempt, ex.max_tries);
        let (i, ex2, left, next) = a_failed_try(ex, hosts, cursor, attempts);
        let rest = run(ex2, left, next, attempts.drop_first());
        let later = attempts.drop_first();
        assert forall|u: int| 0 <= u < t - 1 implies match (#[trigger] later[u]).1 {
            OutcomeView::TimedOut => true,
            OutcomeView::TransportError(_) => true,
            OutcomeView::Answered(status) => (status == 502 || status == 503 || status == 504)
                && ex2.attempt + u + 1 < ex2.max_tries,
        } by {
            assert(later[u] == attempts[u + 1]);
        }
        failures_lead_on(ex2, left, next, later, t - 1);
        let mine = r.tried.take(t);
        let theirs = rest.tried.take(t - 1);
        assert(mine == seq![i] + theirs);
        assert forall|k: int| 0 <= k < hosts.len() implies ((hosts[k].health == Health::Healthy
            && !mine.contains(k)) <==> ((#[trigger] left[k]).health == Health::Healthy
            && !theirs.contains(k))) by {
            if k != i {
                assert(left[k] == hosts[k]);
                if mine.contains(k) {
                    let w = choose|w: int| 0 <= w < mine.len() && mine[w] == k;
                    assert(theirs[w - 1] == k);
                }
                if theirs.contains(k) {
                    let w = choose|w: int| 0 <= w < theirs.len() && theirs[w] == k;
                    assert(mine[w + 1] == k);
                }
            } else {
                assert(mine[0] == i);
            }
        }
        if exists|k: int|
            {
                &&& 0 <= k < left.len()
                &&& (#[trigger] left[k]).health == Health::Healthy
                &&& !theirs.contains(k)
            } {
            let k = choose|k: int|
                {
                    &&& 0 <= k < left.len()
                    &&& (#[trigger] left[k]).health == Health::Healthy
                    &&& !theirs.contains(k)
                };
            assert(hosts[k].health == Health::Healthy && !mine.contains(k));
        }
        if exists|k: int|
            {
                &&& 0 <= k < hosts.len()
                &&& (#[trigger] hosts[k]).health == Health::Healthy
                &&& !mine.contains(k)
            } {
            let k = choose|k: int|
                {
                    &&& 0 <= k < hosts.len()
                    &&& (#[trigger] hosts[k]).health == Health::Healthy
                    &&& !mine.contains(k)
                };
            assert(left[k].health == Health::Healthy && !theirs.contains(k));
        }
    }
}

/// A request without an outcome for its last try is under way, and has been tried once more often
/// than it has outcomes. The host of that try is as it was.
pub proof fn requests_under_way(
    ex: ExchangeView,
    hosts: Seq<BackendView>,
    cursor: u64,
    attempts: Seq<(nat, OutcomeView)>,
)
    ensures
        run(ex, hosts, cursor, attempts).end is None <==> run(
            ex,
            hosts,
            cursor,
            attempts,
        ).tried.len() == attempts.len() + 1,
        run(ex, hosts, cursor, attempts).tried.len() <= attempts.len() + 1,
        ({
            let r = run(ex, hosts, cursor, attempts);
            r.end is None ==> r.hosts[r.tried.last()] == hosts[r.tried.last()]
        }),
    decreases attempts.len(),
{
    if next_step(ex, hosts, cursor) is Forward && attempts.len() > 0 && failure_of(
        attempts[0].1,
        ex.attempt,
        ex.max_tries,
    ) is Some {
        let (i, ex2, left, next) = a_failed_try(ex, hosts, cursor, attempts);
        let r = run(ex, hosts, cursor, attempts);
        let rest = run(ex2, left, next, attempts.drop_first());
        requests_under_way(ex2, left, next, attempts.drop_first());
        if r.end is None {
            no_host_is_tried_twice(ex2, left, next, attempts.drop_first());
            let k = rest.tried[rest.tried.len() - 1];
            assert(r.tried.last() == k);
            assert(rest.tried.contains(k));
            assert(left[k] == hosts[k]);
        }
    }
}

/// Counting on from a counter that has wrapped is counting on from where it was.
proof fn counted_on(at: int, steps: nat, next: int)
    requires
        next == (at + 1) % 0x1_0000_0000_0000_0000,
    ensures
        (next + steps) % 0x1_0000_0000_0000_0000 == (at + (steps + 1)) % 0x1_0000_0000_0000_0000,
{
}

/// A request moves the cursor on by one for every host it is tried on, and by one more if it found
/// none to be tried on; without hosts it does not move it.
pub proof fn cursor_moves_by_the_tries(
    ex: ExchangeView,
    hosts: Seq<BackendView>,
    cursor: u64,
    attempts: Seq<(nat, OutcomeView)>,
)
    ensures
        ({
            let r = run(ex, hosts, cursor, attempts);
            let in_vain = r.end == Some(
                End::Replied(ReplyView { status: 503, body: "No backends available\n"@ }),
            );
            r.cursor == if hosts.len() == 0 {
                cursor as int
            } else if in_vain {
                (cursor + r.tried.len() + 1) % 0x1_0000_0000_0000_0000
            } else {
                (cursor + r.tried.len()) % 0x1_0000_0000_0000_0000
            }
        }),
    decreases attempts.len(),
{
    assert((ex.attempt >= ex.max_tries || hosts.len() == 0 ==> cursor_after_step(ex, hosts, cursor)
        == cursor) && (ex.attempt < ex.max_tries && hosts.len() > 0 ==> cursor_after_step(
        ex,
        hosts,
        cursor,
    ) == (cursor + 1) % 0x1_0000_0000_0000_0000) && (next_step(ex, hosts, cursor) is Reply
        ==> next_step(ex, hosts, cursor)->Reply_0.status == if ex.attempt >= ex.max_tries {
        502u16
    } else {
        503u16
    }) && (next_step(ex, hosts, cursor) is Reply && ex.attempt < ex.max_tries ==> next_step(
        ex,
        hosts,
        cursor,
    )->Reply_0.body == "No backends available\n"@)) by {
        steps_go_to_the_nearest_healthy_host(ex, hosts, cursor);
    }
    if next_step(ex, hosts, cursor) is Forward {
        let i = one_attempt(ex, hosts, cursor);
        if attempts.len() > 0 && failure_of(attempts[0].1, ex.attempt, ex.max_tries) is Some {
            let (j, ex2, left, next) = a_failed_try(ex, hosts, cursor, attempts);
            let rest = run(ex2, left, next, attempts.drop_first());
            cursor_moves_by_the_tries(ex2, left, next, attempts.drop_first());
            assert(run(ex, hosts, cursor, attempts).tried.len() == rest.tried.len() + 1);
            counted_on(cursor as int, rest.tried.len(), next as int);
            counted_on(cursor as int, rest.tried.len() + 1, next as int);
        }
    }
}

/// A request whose body could not be read is refused, and touches neither hosts nor cursor. Every
/// other request starts with no try behind it and all tries that the configuration gives.
pub proof fn unreadable_requests_are_refused(
    snap: SnapshotView,
    cursor: u64,
    attempts: Seq<(nat, OutcomeView)>,
)
    ensures
        ({
            let r = handled(false, snap, cursor, attempts);
            &&& r.tried.len() == 0
            &&& r.end == Some(End::Replied(ReplyView { status: 400, body: "Bad request body"@ }))
            &&& r.hosts == snap.hosts
            &&& r.cursor == cursor
        }),
        handled(true, snap, cursor, attempts) == run(
            ExchangeView { max_tries: snap.max_tries as nat, attempt: 0, last_err: None },
            snap.hosts,
            cursor,
            attempts,
        ),
{
}

/// What is handed in and given back is seen as what it holds: the time and the outcome of every
/// attempt, the position of every host tried, and the end.
pub proof fn requests_show_what_they_hold(
    attempts: Seq<(Duration, Outcome)>,
    tried: Seq<usize>,
    end: Option<Ending>,
    r: Run,
    hosts: Seq<BackendView>,
)
    ensures
        attempts_of(attempts).len() == attempts.len(),
        forall|t: int|
            0 <= t < attempts.len() ==> (#[trigger] attempts_of(attempts)[t]).0 == attempts[t].0@
                && attempts_of(attempts)[t].1 == attempts[t].1@,
        positions(tried).len() == tried.len(),
        forall|t: int| 0 <= t < tried.len() ==> #[trigger] positions(tried)[t] == tried[t],
        match end {
            None => end_of(end) is None,
            Some(Ending::Relayed(status)) => end_of(end) == Some(End::Relayed(status)),
            Some(Ending::Replied(reply)) => end_of(end) == Some(
                End::Replied(ReplyView { status: reply.status, body: reply.body@ }),
            ),
        },
        tries_are_routable(r, hosts) <==> forall|t: int|
            0 <= t < r.tried.len() ==> (hosts[#[trigger] r.tried[t]].uri.scheme is Some
                <==> hosts[r.tried[t]].uri.authority is Some),
{
}

/// The hosts that request number `j` of a sequence is tried on.
pub open spec fn tried_by(
    snap: SnapshotView,
    cursor: u64,
    requests: Seq<(bool, Seq<(nat, OutcomeView)>)>,
    j: int,
) -> Seq<int> {
    let (s, c) = after_requests(snap, cursor, requests.take(j));
    handled(requests[j].0, s, c, requests[j].1).tried
}

/// As long as all hosts are healthy and every request is answered at its first try with a status
/// other than 502, 503 and 504, each request goes to one host, one further on than the request
/// before; all hosts stay healthy, and the cursor counts the requests.
proof fn answered_requests_go_round(
    snap: SnapshotView,
    cursor: u64,
    requests: Seq<(bool, Seq<(nat, OutcomeView)>)>,
    j: int,
)
    requires
        snap.hosts.len() > 0,
        snap.max_tries > 0,
        forall|k: int|
            0 <= k < snap.hosts.len() ==> (#[trigger] snap.hosts[k]).health == Health::Healthy,
        forall|q: int| #![trigger requests[q]]
            0 <= q < requests.len() ==> {
                &&& requests[q].0
                &&& requests[q].1.len() > 0
                &&& requests[q].1[0].1 matches OutcomeView::Answered(status)
                &&& status != 502 && status != 503 && status != 504
            },
        0 <= j <= requests.len(),
        (cursor as usize) + j <= usize::MAX,
    ensures
        ({
            let (s, c) = after_requests(snap, cursor, requests.take(j));
            &&& s.hosts.len() == snap.hosts.len()
            &&& s.max_tries == snap.max_tries
            &&& c as usize == (cursor as usize) + j
            &&& forall|k: int|
                0 <= k < s.hosts.len() ==> (#[trigger] s.hosts[k]).health == Health::Healthy
            &&& j < requests.len() ==> tried_by(snap, cursor, requests, j) == seq![
                ((cursor as usize) + j) % (snap.hosts.len() as int),
            ]
        }),
    decreases j,
{
    let (s, c) = after_requests(snap, cursor, requests.take(j));
    let n = snap.hosts.len() as int;
    if j == 0 {
        assert(requests.take(0).len() == 0);
        assert(s == snap && c == cursor);
    } else {
        answered_requests_go_round(snap, cursor, requests, j - 1);
        let (g, d) = after_requests(snap, cursor, requests.take(j - 1));
        let shorter = requests.take(j);
        assert(shorter.drop_last() == requests.take(j - 1));
        assert(shorter.last() == requests[j - 1]);
        let last = requests[j - 1];
        let ex = ExchangeView::fresh(g.max_tries as nat);
        unreadable_requests_are_refused(g, d, last.1);
        let r = run(ex, g.hosts, d, last.1);
        assert(handled(last.0, g, d, last.1) == r);
        assert(tried_by(snap, cursor, requests, j - 1) == r.tried);
        every_outcome_has_its_effect(ex, g.hosts, d, last.1, 0);
        assert forall|k: int| 0 <= k < s.hosts.len() implies (#[trigger] s.hosts[k]).health
            == Health::Healthy by {
            if k < g.hosts.len() {
                only_failed_hosts_go_on_probation(ex, g.hosts, d, last.1, k);
                assert(g.hosts[k].health == Health::Healthy);
                if r.tried.contains(k) {
                    assert(r.tried[0] == k);
                }
            }
        }
        only_failed_hosts_go_on_probation(ex, g.hosts, d, last.1, 0);
        cursor_moves_by_the_tries(ex, g.hosts, d, last.1);
        assert(c == (d + 1) % 0x1_0000_0000_0000_0000);
        let word_max: usize = usize::MAX;
        assert((d as usize) < word_max && d != 0xffff_ffff_ffff_ffffu64 && c == d + 1 ==> c as usize
            == (d as usize) + 1) by (bit_vector);
        assert(d == 0xffff_ffff_ffff_ffffu64 ==> word_max <= d as usize) by (bit_vector);
    }
    if j < requests.len() {
        let next = requests[j];
        let ex = ExchangeView::fresh(s.max_tries as nat);
        let start = (cursor as usize) + j;
        let r = run(ex, s.hosts, c, next.1);
        unreadable_requests_are_refused(s, c, next.1);
        assert(tried_by(snap, cursor, requests, j) == r.tried);
        failures_lead_on(ex, s.hosts, c, next.1, 0);
        assert(s.hosts[0].health == Health::Healthy && !r.tried.take(0).contains(0));
        every_outcome_has_its_effect(ex, s.hosts, c, next.1, 0);
        let k = start % n;
        lemma_mod_bound(start, n);
        assert(s.hosts[k].health == Health::Healthy);
        tries_follow_the_rotation(ex, s.hosts, c, next.1, 0, k);
        assert(((c + 0) % 0x1_0000_0000_0000_0000) as u64 == c);
        a_host_at_no_distance(start, r.tried[0], n);
        assert(r.tried =~= seq![k]);
    }
}

/// The host at no distance from the start is the one where the start points.
proof fn a_host_at_no_distance(start: int, i: int, n: int)
    requires
        0 <= i < n,
        (i - start) % n <= (start % n - start) % n,
    ensures
        i == start % n,
{
    let k = start % n;
    lemma_mod_bound(start, n);
    lemma_mod_bound(i - start, n);
    lemma_fundamental_div_mod(start, n);
    lemma_fundamental_div_mod(i - start, n);
    let q = start / n;
    assert((-q) * n == -(n * q)) by (nonlinear_arith);
    lemma_fundamental_div_mod_converse_mod(k - start, n, -q, 0);
    let p = (i - start) / n;
    assert(i == n * p + start);
    assert(n * p + n * q == n * (p + q)) by (nonlinear_arith);
    assert(i - k == n * (p + q));
    assert(p + q == 0) by (nonlinear_arith)
        requires
            i - k == n * (p + q),
            0 <= i < n,
            0 <= k < n,
    ;
}

/// Over healthy hosts, as many successive requests as there are hosts, each answered at its first
/// try, are tried on one host each, and every host is the one of exactly one of them. The cursor is
/// taken modulo the number of hosts, wherever it points.
pub proof fn answered_requests_take_turns(
    snap: SnapshotView,
    cursor: u64,
    requests: Seq<(bool, Seq<(nat, OutcomeView)>)>,
    k: int,
) -> (turn: int)
    requires
        snap.max_tries > 0,
        forall|i: int|
            0 <= i < snap.hosts.len() ==> (#[trigger] snap.hosts[i]).health == Health::Healthy,
        requests.len() == snap.hosts.len(),
        forall|q: int| #![trigger requests[q]]
            0 <= q < requests.len() ==> {
                &&& requests[q].0
                &&& requests[q].1.len() > 0
                &&& requests[q].1[0].1 matches OutcomeView::Answered(status)
                &&& status != 502 && status != 503 && status != 504
            },
        (cursor as usize) + snap.hosts.len() - 1 <= usize::MAX,
        0 <= k < snap.hosts.len(),
    ensures
        0 <= turn < snap.hosts.len(),
        tried_by(snap, cursor, requests, turn) == seq![k],
        forall|j: int|
            0 <= j < snap.hosts.len() && j != turn ==> {
                &&& (#[trigger] tried_by(snap, cursor, requests, j)).len() == 1
                &&& tried_by(snap, cursor, requests, j)[0] != k
            },
        forall|j: int|
            0 <= j < snap.hosts.len() ==> #[trigger] tried_by(snap, cursor, requests, j) == seq![
                ((cursor as usize) + j) % (snap.hosts.len() as int),
            ],
{
    let n = snap.hosts.len() as int;
    let start = (cursor as usize) as int;
    a_turn_visits_every_host_once(start, k, n);
    let turn = turn_of(start, k, n);
    assert forall|j: int| 0 <= j < n implies #[trigger] tried_by(snap, cursor, requests, j) == seq![
        (start + j) % n,
    ] by {
        answered_requests_go_round(snap, cursor, requests, j);
    }
    assert forall|j: int| 0 <= j < n && j != turn implies {
        &&& (#[trigger] tried_by(snap, cursor, requests, j)).len() == 1
        &&& tried_by(snap, cursor, requests, j)[0] != k
    } by {
        assert(slot(start, j, n) == (start + j) % n);
    }
    assert(slot(start, turn, n) == (start + turn) % n);
    turn
}

} // verus!
