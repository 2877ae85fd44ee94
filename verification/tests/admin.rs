use esp32_lb::admin::{
    add_backend, add_backend_checked, contains_backend, insert_backend, remove_backend, stats,
    AddBackendRequest, AppError, BackendStats,
};
use esp32_lb::backend::{Backend, Snapshot};
use esp32_lb::balance::round_robin;
use esp32_lb::health::Health;
use esp32_lb::metrics::Duration;
use esp32_lb::uri::Uri;

fn backend(id: u128, uri: &str) -> Backend {
    Backend::with_id(id, Uri::parse(uri).unwrap())
}

fn snapshot(ids: &[u128]) -> Snapshot {
    Snapshot {
        hosts: ids.iter().map(|id| backend(*id, "http://h:1")).collect(),
        generation: 4,
        max_tries: 3,
    }
}

fn ids(snap: &Snapshot) -> Vec<u128> {
    snap.hosts.iter().map(|b| b.id()).collect()
}

fn request(uri: &str) -> AddBackendRequest {
    AddBackendRequest {
        uri: uri.to_owned(),
    }
}

fn fields(s: &BackendStats) -> (u128, &str, &str, u64) {
    (s.id, s.uri.as_str(), s.health, s.avg_response_ms)
}

#[test]
fn stats_report_every_backend() {
    let mut snap = snapshot(&[1]);
    let mut second = backend(2, "https://two/p?q");
    second.set_health(Health::Probe);
    second.record_latency(Duration::new(1, 500_999_999));
    snap.hosts.push(second);
    let report = stats(&snap);
    assert_eq!(report.generation, 4);
    assert_eq!(report.backends.len(), 2);
    assert_eq!(fields(&report.backends[0]), (1, "http://h:1/", "Healthy", 0));
    assert_eq!(
        fields(&report.backends[1]),
        (2, "https://two/p?q", "Probe", 1_500)
    );
}

#[test]
fn added_backends_join_at_the_end() {
    let mut snap = snapshot(&[1, 2]);
    snap.hosts[0].set_health(Health::Disabled);
    let (status, response) = add_backend(&mut snap, request("http://new:9/x")).unwrap();
    assert_eq!(status, 201);
    let id = response.backend.id;
    assert_eq!(
        fields(&response.backend),
        (id, "http://new:9/x", "Healthy", 0)
    );
    let uuid = uuid::Uuid::from_u128(id);
    assert_eq!(uuid.get_version(), Some(uuid::Version::Random));
    assert_eq!(ids(&snap), vec![1, 2, id]);
    assert_eq!(snap.generation, 5);
    assert_eq!(snap.max_tries, 3);
    assert_eq!(snap.hosts[0].health(), Health::Disabled);
    let report = stats(&snap);
    assert_eq!(fields(&report.backends[2]), fields(&response.backend));
}

#[test]
fn malformed_addresses_are_refused() {
    let mut snap = snapshot(&[1]);
    let e = add_backend(&mut snap, request("not a uri")).err().unwrap();
    assert_eq!((e.status, e.message.as_str()), (400, "invalid URI"));
    assert_eq!(ids(&snap), vec![1]);
    assert_eq!(snap.generation, 4);
}

#[test]
fn backends_with_a_given_identifier_can_be_inserted() {
    let mut snap = snapshot(&[]);
    let s = insert_backend(&mut snap, backend(6, "/relative"));
    assert_eq!(fields(&s), (6, "/relative", "Healthy", 0));
    assert_eq!(ids(&snap), vec![6]);
    assert_eq!(snap.generation, 5);
}

#[test]
fn removed_backends_are_gone() {
    let mut snap = snapshot(&[1, 2, 3]);
    snap.hosts[2].set_health(Health::Probe);
    assert_eq!(remove_backend(&mut snap, 2).unwrap(), 204);
    assert_eq!(ids(&snap), vec![1, 3]);
    assert_eq!(snap.generation, 5);
    assert_eq!(snap.hosts[1].health(), Health::Probe);
    let e = remove_backend(&mut snap, 2).err().unwrap();
    assert_eq!((e.status, e.message.as_str()), (404, "backend not found"));
    assert_eq!(ids(&snap), vec![1, 3]);
    assert_eq!(snap.generation, 5);
}

#[test]
fn all_backends_with_the_identifier_are_removed() {
    let mut snap = snapshot(&[7, 1, 7, 2, 7]);
    assert!(contains_backend(&snap, 7));
    assert_eq!(remove_backend(&mut snap, 7).unwrap(), 204);
    assert_eq!(ids(&snap), vec![1, 2]);
    assert!(!contains_backend(&snap, 7));
}

#[test]
fn removal_undoes_addition() {
    let mut snap = snapshot(&[1, 2]);
    let (_, response) = add_backend(&mut snap, request("http://new")).unwrap();
    assert_eq!(remove_backend(&mut snap, response.backend.id).unwrap(), 204);
    assert_eq!(ids(&snap), vec![1, 2]);
    assert_eq!(snap.generation, 6);
}

#[test]
fn used_up_generations_are_noticed() {
    let mut snap = snapshot(&[1]);
    snap.generation = u64::MAX;
    assert!(add_backend_checked(&mut snap, request("http://new")).is_none());
    assert_eq!(ids(&snap), vec![1]);
    let e = add_backend_checked(&mut snap, request("")).unwrap().err().unwrap();
    assert_eq!(e.status, 400);
    snap.generation = 0;
    let added = add_backend_checked(&mut snap, request("http://new")).unwrap();
    assert_eq!(added.unwrap().0, 201);
    assert_eq!(snap.generation, 1);
}

#[test]
fn refusals_become_answers() {
    let (status, body) = AppError::new(404, "backend not found").into_response();
    assert_eq!(status, 404);
    assert_eq!(body.error, "backend not found");
}

#[test]
fn removals_show_in_the_reports() {
    let mut snap = snapshot(&[1, 2, 3]);
    assert_eq!(remove_backend(&mut snap, 1).unwrap(), 204);
    let report = stats(&snap);
    let reported: Vec<u128> = report.backends.iter().map(|s| s.id).collect();
    assert_eq!(reported, vec![2, 3]);
    assert_eq!(report.generation, 5);
}

#[test]
fn added_backends_are_picked() {
    let mut snap = snapshot(&[1, 2]);
    snap.hosts[0].set_health(Health::Probe);
    snap.hosts[1].set_health(Health::Probe);
    let mut cursor = 0;
    assert_eq!(round_robin(&snap, &mut cursor, 2), None);
    assert!(add_backend(&mut snap, request("http://new")).is_ok());
    assert_eq!(round_robin(&snap, &mut cursor, 3), Some(2));
}

#[test]
fn generation_counts_accepted_changes() {
    let mut snap = snapshot(&[1]);
    assert!(add_backend(&mut snap, request("http://a")).is_ok());
    assert!(add_backend(&mut snap, request("")).is_err());
    assert!(remove_backend(&mut snap, 99).is_err());
    assert!(remove_backend(&mut snap, 1).is_ok());
    assert!(remove_backend(&mut snap, 1).is_err());
    assert_eq!(snap.generation, 6);
}

#[test]
fn length_counts_accepted_changes() {
    let mut snap = snapshot(&[1, 2, 3]);
    assert!(add_backend(&mut snap, request("http://a")).is_ok());
    assert!(add_backend(&mut snap, request("http://a")).is_ok());
    assert!(remove_backend(&mut snap, 2).is_ok());
    assert!(remove_backend(&mut snap, 2).is_err());
    assert_eq!(snap.hosts.len(), 4);
    assert_eq!(ids(&snap)[..2], [1, 3]);
}
