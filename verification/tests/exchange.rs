use esp32_lb::backend::{Backend, Snapshot};
use esp32_lb::exchange::{Exchange, Outcome, Reply, Req, Step, Verdict};
use esp32_lb::health::Health;
use esp32_lb::metrics::Duration;
use esp32_lb::uri::Uri;

fn snapshot(n: u128, max_tries: u8) -> Snapshot {
    let hosts = (0..n)
        .map(|i| Backend::with_id(i + 1, Uri::parse("http://127.0.0.1:8080").unwrap()))
        .collect();
    Snapshot {
        hosts,
        generation: 0,
        max_tries,
    }
}

fn begun(snap: &Snapshot) -> Exchange {
    Exchange::begin(true, snap.max_tries).unwrap()
}

fn text(reply: &Reply) -> (u16, &'static str) {
    (reply.status, reply.body)
}

/// Runs a request; gives the hosts it was tried on, and the answer if the proxy made it up.
fn run(
    snap: &mut Snapshot,
    cursor: &mut u64,
    outcomes: Vec<Outcome>,
) -> (Vec<usize>, Option<(u16, &'static str)>, Exchange) {
    let mut ex = begun(snap);
    let mut tried = vec![];
    let mut outcomes = outcomes.into_iter();
    loop {
        match ex.next_attempt(snap, cursor) {
            Step::Reply(reply) => return (tried, Some(text(&reply)), ex),
            Step::Forward(i) => {
                tried.push(i);
                let outcome = outcomes.next().unwrap();
                let took = Duration::new(0, 3_000_000);
                if ex.finish_attempt(&mut snap.hosts[i], took, &outcome) == Verdict::Relay {
                    return (tried, None, ex);
                }
            }
        }
    }
}

fn health(snap: &Snapshot) -> Vec<Health> {
    snap.hosts.iter().map(|b| b.health()).collect()
}

const UP: Health = Health::Healthy;
const PROBE: Health = Health::Probe;

#[test]
fn unreadable_bodies_are_refused() {
    let reply = Exchange::begin(false, 3).err().unwrap();
    assert_eq!(text(&reply), (400, "Bad request body"));
}

#[test]
fn first_answer_is_passed_on() {
    for status in [200, 404, 500, 501, 505] {
        let mut snap = snapshot(3, 3);
        let mut cursor = 1;
        let (tried, reply, ex) = run(&mut snap, &mut cursor, vec![Outcome::Answered(status)]);
        assert_eq!(tried, vec![1]);
        assert_eq!(reply, None);
        assert_eq!(ex.attempt(), 0);
        assert_eq!(ex.last_err(), None);
        assert_eq!(health(&snap), vec![UP, UP, UP]);
        assert_eq!(snap.hosts[1].avg_latency_ms(), 3);
        assert_eq!(snap.hosts[0].avg_latency_ms(), 0);
        assert_eq!(cursor, 2);
    }
}

#[test]
fn failures_move_on_to_the_next_host() {
    let mut snap = snapshot(3, 3);
    let mut cursor = 0;
    let outcomes = vec![
        Outcome::TimedOut,
        Outcome::TransportError("connection refused".to_owned()),
        Outcome::Answered(200),
    ];
    let (tried, reply, ex) = run(&mut snap, &mut cursor, outcomes);
    assert_eq!(tried, vec![0, 1, 2]);
    assert_eq!(reply, None);
    assert_eq!(ex.attempt(), 2);
    assert_eq!(ex.last_err(), Some("transport error: connection refused"));
    assert_eq!(health(&snap), vec![PROBE, PROBE, UP]);
}

#[test]
fn retryable_statuses_are_retried() {
    for (status, why) in [
        (502, "upstream 502 Bad Gateway"),
        (503, "upstream 503 Service Unavailable"),
        (504, "upstream 504 Gateway Timeout"),
    ] {
        let mut snap = snapshot(2, 3);
        let mut ex = begun(&snap);
        let outcome = Outcome::Answered(status);
        let verdict = ex.finish_attempt(&mut snap.hosts[0], Duration::new(0, 1), &outcome);
        assert_eq!(verdict, Verdict::Retry);
        assert_eq!(ex.last_err(), Some(why));
        let theirs = hyper::StatusCode::from_u16(status).unwrap();
        assert_eq!(ex.last_err(), Some(format!("upstream {}", theirs).as_str()));
        assert_eq!(snap.hosts[0].health(), PROBE);
    }
}

#[test]
fn retryable_status_on_the_last_try_is_passed_on() {
    let mut snap = snapshot(3, 2);
    let mut cursor = 0;
    let outcomes = vec![Outcome::Answered(503), Outcome::Answered(503)];
    let (tried, reply, _) = run(&mut snap, &mut cursor, outcomes);
    assert_eq!(tried, vec![0, 1]);
    assert_eq!(reply, None);
    assert_eq!(health(&snap), vec![PROBE, UP, UP]);
}

#[test]
fn exhausted_tries_give_bad_gateway() {
    let mut snap = snapshot(5, 3);
    let mut cursor = 3;
    let outcomes = vec![Outcome::TimedOut, Outcome::TimedOut, Outcome::TimedOut];
    let (tried, reply, ex) = run(&mut snap, &mut cursor, outcomes);
    assert_eq!(tried, vec![3, 4, 0]);
    assert_eq!(reply, Some((502, "Bad Gateway")));
    assert_eq!(ex.attempt(), 3);
    assert_eq!(ex.last_err(), Some("timeout"));
    assert_eq!(health(&snap), vec![PROBE, UP, UP, PROBE, PROBE]);
}

#[test]
fn exhausted_hosts_give_no_backends() {
    let mut snap = snapshot(2, 3);
    let mut cursor = 0;
    let outcomes = vec![Outcome::TimedOut, Outcome::TimedOut];
    let (tried, reply, _) = run(&mut snap, &mut cursor, outcomes);
    assert_eq!(tried, vec![0, 1]);
    assert_eq!(reply, Some((503, "No backends available\n")));
    assert_eq!(health(&snap), vec![PROBE, PROBE]);

    let (tried, reply, _) = run(&mut snapshot(0, 3), &mut cursor, vec![]);
    assert!(tried.is_empty());
    assert_eq!(reply, Some((503, "No backends available\n")));
}

#[test]
fn no_tries_give_bad_gateway_at_once() {
    let mut snap = snapshot(2, 0);
    let mut cursor = 8;
    let (tried, reply, _) = run(&mut snap, &mut cursor, vec![]);
    assert!(tried.is_empty());
    assert_eq!(reply, Some((502, "Bad Gateway")));
    assert_eq!(cursor, 8);
}

#[test]
fn requests_are_identified() {
    let req = Req::with_id(5);
    assert_eq!((req.id(), req.retry()), (5, 0));
    let req = Req::new();
    assert_eq!(req.retry(), 0);
    let uuid = uuid::Uuid::from_u128(req.id());
    assert_eq!(uuid.get_version(), Some(uuid::Version::Random));
}
