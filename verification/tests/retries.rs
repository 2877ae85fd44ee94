use esp32_lb::backend::{Backend, Snapshot};
use esp32_lb::exchange::Outcome;
use esp32_lb::health::Health;
use esp32_lb::metrics::Duration;
use esp32_lb::outgoing::Request;
use esp32_lb::retries::{handle, Ending, Handled};
use esp32_lb::uri::Uri;

fn snapshot(n: u128, max_tries: u8) -> Snapshot {
    let hosts = (0..n)
        .map(|i| Backend::with_id(i + 1, Uri::parse("http://127.0.0.1:8080").unwrap()))
        .collect();
    Snapshot {
        hosts,
        generation: 2,
        max_tries,
    }
}

fn incoming(uri: &str) -> Request<&'static str, Option<Vec<u8>>> {
    Request {
        head: "GET with headers",
        uri: Uri::parse(uri).unwrap(),
        body: Some(vec![1, 2, 3]),
    }
}

fn took(outcome: Outcome) -> (Duration, Outcome) {
    (Duration::new(0, 7_000_000), outcome)
}

fn refused() -> (Duration, Outcome) {
    took(Outcome::TransportError("refused".to_owned()))
}

fn answered(status: u16) -> (Duration, Outcome) {
    took(Outcome::Answered(status))
}

fn timed_out() -> (Duration, Outcome) {
    took(Outcome::TimedOut)
}

fn reply<H, B>(h: &Handled<H, B>) -> Option<(u16, &'static str)> {
    match &h.end {
        Some(Ending::Replied(reply)) => Some((reply.status, reply.body)),
        _ => None,
    }
}

fn relayed<H, B>(h: &Handled<H, B>) -> Option<u16> {
    match &h.end {
        Some(Ending::Relayed(status)) => Some(*status),
        _ => None,
    }
}

fn health(snap: &Snapshot) -> Vec<Health> {
    snap.hosts.iter().map(|b| b.health()).collect()
}

const UP: Health = Health::Healthy;
const PROBE: Health = Health::Probe;

#[test]
fn handled_requests_move_on_until_answered() {
    let req = incoming("/x?y");
    let mut snap = snapshot(3, 3);
    let mut cursor = 0;
    let attempts = vec![timed_out(), answered(503), answered(201)];
    let h = handle(&req, &mut snap, &mut cursor, &attempts);
    assert_eq!(h.tried, vec![0, 1, 2]);
    assert_eq!(relayed(&h), Some(201));
    assert_eq!(health(&snap), vec![PROBE, PROBE, UP]);
    assert_eq!(snap.hosts[2].avg_latency_ms(), 7);
    assert_eq!((snap.generation, snap.max_tries), (2, 3));
    assert_eq!(cursor, 3);
}

#[test]
fn unreadable_requests_touch_nothing() {
    let mut snap = snapshot(2, 3);
    let mut cursor = 5;
    let req = Request {
        head: "GET with headers",
        uri: Uri::parse("/x").unwrap(),
        body: None::<Vec<u8>>,
    };
    let h = handle(&req, &mut snap, &mut cursor, &vec![answered(200)]);
    assert!(h.tried.is_empty());
    assert!(h.sent.is_empty());
    assert_eq!(reply(&h), Some((400, "Bad request body")));
    assert_eq!(health(&snap), vec![UP, UP]);
    assert_eq!(cursor, 5);
}

#[test]
fn requests_without_outcome_stay_under_way() {
    let req = incoming("/x?y");
    let mut snap = snapshot(2, 3);
    let mut cursor = 1;
    let h = handle(&req, &mut snap, &mut cursor, &vec![timed_out()]);
    assert_eq!(h.tried, vec![1, 0]);
    assert!(h.end.is_none());
    assert_eq!(health(&snap), vec![UP, PROBE]);
    assert_eq!(cursor, 3);
}

#[test]
fn cursor_counts_every_look() {
    let req = incoming("/x?y");
    // two attempts and a third look in vain
    let mut snap = snapshot(2, 3);
    let mut cursor = 10;
    let h = handle(&req, &mut snap, &mut cursor, &vec![timed_out(), refused()]);
    assert_eq!(reply(&h), Some((503, "No backends available\n")));
    assert_eq!(cursor, 13);
    // three attempts, and no look once the tries are used up
    let mut snap = snapshot(4, 3);
    let mut cursor = 10;
    let attempts = vec![timed_out(), refused(), timed_out()];
    let h = handle(&req, &mut snap, &mut cursor, &attempts);
    assert_eq!(reply(&h), Some((502, "Bad Gateway")));
    assert_eq!(cursor, 13);
    // no hosts to look at
    let mut cursor = 10;
    let h = handle(&req, &mut snapshot(0, 3), &mut cursor, &vec![]);
    assert_eq!(reply(&h), Some((503, "No backends available\n")));
    assert_eq!(cursor, 10);
}

#[test]
fn failed_hosts_are_left_out_by_later_requests() {
    let req = incoming("/x?y");
    let mut snap = snapshot(3, 2);
    let mut cursor = 0;
    let h = handle(&req, &mut snap, &mut cursor, &vec![timed_out(), answered(200)]);
    assert_eq!(h.tried, vec![0, 1]);
    for _ in 0..6 {
        let h = handle(&req, &mut snap, &mut cursor, &vec![answered(200)]);
        assert_ne!(h.tried, vec![0]);
        assert_eq!(relayed(&h), Some(200));
    }
    assert_eq!(health(&snap), vec![PROBE, UP, UP]);
}

#[test]
fn every_try_sends_the_same_request_to_another_address() {
    for (uri, path) in [("/a/b?c=d", "/a/b?c=d"), ("front:443", "/")] {
        let req = incoming(uri);
        let mut snap = snapshot(0, 3);
        for (id, address) in [(1, "http://one:1/p"), (2, "https://two"), (3, "http://three:3")] {
            snap.hosts
                .push(Backend::with_id(id, Uri::parse(address).unwrap()));
        }
        let mut cursor = 1;
        let attempts = vec![timed_out(), answered(502), answered(200)];
        let h = handle(&req, &mut snap, &mut cursor, &attempts);
        assert_eq!(h.tried, vec![1, 2, 0]);
        let targets: Vec<String> = h.sent.iter().map(|out| out.uri.to_string()).collect();
        assert_eq!(
            targets,
            vec![
                format!("https://two{}", path),
                format!("http://three:3{}", path),
                format!("http://one:1{}", path),
            ]
        );
        for out in &h.sent {
            assert_eq!(*out.head, "GET with headers");
            assert_eq!(*out.body, vec![1, 2, 3]);
        }
    }
}

#[test]
fn hosts_out_of_service_stay_as_they_are() {
    let mut snap = snapshot(2, 2);
    snap.hosts[0].set_health(Health::Disabled);
    snap.hosts[0].record_latency(Duration::new(0, 9_000_000));
    let mut cursor = 0;
    let req = incoming("/");
    for _ in 0..4 {
        let h = handle(&req, &mut snap, &mut cursor, &vec![answered(200)]);
        assert_eq!(h.tried, vec![1]);
    }
    assert_eq!(snap.hosts[0].health(), Health::Disabled);
    assert_eq!(snap.hosts[0].avg_latency_ms(), 9);
}
