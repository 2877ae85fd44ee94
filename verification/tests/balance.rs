use esp32_lb::backend::{Backend, Snapshot};
use esp32_lb::balance::{cursor_in_range, round_robin};
use esp32_lb::health::Health;
use esp32_lb::metrics::Duration;
use esp32_lb::uri::Uri;

fn snapshot(health: &[Health]) -> Snapshot {
    let hosts = health
        .iter()
        .enumerate()
        .map(|(i, h)| {
            let uri = Uri::parse("http://127.0.0.1:8080").unwrap();
            let mut b = Backend::with_id(i as u128 + 1, uri);
            b.set_health(*h);
            b
        })
        .collect();
    Snapshot {
        hosts,
        generation: 0,
        max_tries: 3,
    }
}

const UP: Health = Health::Healthy;
const DOWN: Health = Health::Probe;

#[test]
fn healthy_hosts_are_picked_in_turn() {
    let snap = snapshot(&[UP, UP, UP]);
    let mut cursor = 4;
    let picks: Vec<Option<usize>> = (0..6).map(|_| round_robin(&snap, &mut cursor, 3)).collect();
    assert_eq!(
        picks,
        vec![Some(1), Some(2), Some(0), Some(1), Some(2), Some(0)]
    );
    assert_eq!(cursor, 10);
}

#[test]
fn unhealthy_hosts_are_skipped() {
    for state in [Health::Unhealthy, Health::Probe, Health::Disabled] {
        let snap = snapshot(&[state, state, UP, state]);
        for start in 0..8 {
            let mut cursor = start;
            assert_eq!(round_robin(&snap, &mut cursor, 4), Some(2));
            assert_eq!(cursor, start + 1);
        }
    }
}

#[test]
fn no_healthy_host_gives_none_and_moves_the_cursor() {
    let snap = snapshot(&[DOWN, DOWN]);
    let mut cursor = 0;
    assert_eq!(round_robin(&snap, &mut cursor, 2), None);
    assert_eq!(cursor, 1);
}

#[test]
fn no_hosts_leave_the_cursor_alone() {
    let mut cursor = 9;
    assert_eq!(round_robin(&snapshot(&[]), &mut cursor, 5), None);
    assert_eq!(cursor, 9);
}

#[test]
fn max_skips_limits_the_search() {
    let snap = snapshot(&[DOWN, DOWN, UP]);
    let mut cursor = 0;
    assert_eq!(round_robin(&snap, &mut cursor, 2), None);
    cursor = 0;
    assert_eq!(round_robin(&snap, &mut cursor, 3), Some(2));
    cursor = 0;
    assert_eq!(round_robin(&snap, &mut cursor, 100), Some(2));
    cursor = 0;
    assert_eq!(round_robin(&snap, &mut cursor, 0), None);
}

#[test]
fn cursor_wraps_around() {
    let snap = snapshot(&[UP]);
    let mut cursor = u64::MAX;
    assert!(cursor_in_range(&snap, cursor, 1));
    assert_eq!(round_robin(&snap, &mut cursor, 1), Some(0));
    assert_eq!(cursor, 0);
}

#[test]
fn cursor_range_depends_on_how_far_the_search_goes() {
    // u64::MAX is a multiple of 3: the search starts at the first host
    assert!(cursor_in_range(&snapshot(&[UP, DOWN, DOWN]), u64::MAX, 3));
    assert!(!cursor_in_range(&snapshot(&[DOWN, UP, UP]), u64::MAX, 3));
    assert!(cursor_in_range(&snapshot(&[DOWN, UP, UP]), u64::MAX, 1));
    assert!(cursor_in_range(&snapshot(&[DOWN, DOWN]), 0, 2));
}

#[test]
fn backends_start_healthy_and_report_their_latency() {
    let mut b = Backend::with_id(7, Uri::parse("http://h/x").unwrap());
    assert_eq!(b.id(), 7);
    assert_eq!(b.uri().to_string(), "http://h/x");
    assert_eq!(b.health(), UP);
    assert_eq!(b.avg_latency_ms(), 0);
    b.record_latency(Duration::new(0, 12_999_999));
    assert_eq!(b.avg_latency_ms(), 12);
    b.set_health(Health::Disabled);
    assert_eq!(b.health(), Health::Disabled);
    assert_eq!(b.avg_latency_ms(), 12);
    let c = b.clone();
    assert_eq!((c.id(), c.health(), c.avg_latency_ms()), (7, Health::Disabled, 12));
}

#[test]
fn new_backends_have_random_identifiers() {
    let a = Backend::new(Uri::parse("http://h").unwrap());
    let b = Backend::new(Uri::parse("http://h").unwrap());
    for id in [a.id(), b.id()] {
        let uuid = uuid::Uuid::from_u128(id);
        assert_eq!(uuid.get_version(), Some(uuid::Version::Random));
        assert_eq!(uuid.get_variant(), uuid::Variant::RFC4122);
        assert_eq!((id >> 76) & 0xf, 4);
        assert_eq!((id >> 62) & 0x3, 2);
        assert_ne!(id, 0);
    }
    assert_ne!(a.id(), b.id());
}

#[test]
fn looking_further_keeps_the_pick() {
    let snap = snapshot(&[DOWN, UP, DOWN, UP]);
    for max_skips in 2..9 {
        let mut cursor = 0;
        assert_eq!(round_robin(&snap, &mut cursor, max_skips), Some(1));
    }
}
