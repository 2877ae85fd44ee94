//! Backends, and the list of them that requests are balanced over.

use vstd::prelude::*;

use crate::health::Health;
use crate::identifier::{is_random_id, random_id};
use crate::metrics::{
    average_takes_an_eighth_of_the_excess, next_avg, sample_ns, Duration, Metrics, NANOS_PER_MILLI,
};
use crate::uri::{Uri, UriView};

verus! {

/// What is known of a backend.
#[verifier::ext_equal]
pub struct BackendView {
    pub id: u128,
    pub uri: UriView,
    pub health: Health,
    pub avg_ns: u64,
}

impl BackendView {
    /// A backend of which nothing is known yet but its identifier and its address.
    pub open spec fn fresh(id: u128, uri: UriView) -> BackendView {
        BackendView { id, uri, health: Health::Healthy, avg_ns: 0 }
    }

    /// The backend after `nanos` nanoseconds have been recorded as a latency.
    pub open spec fn with_latency(self, nanos: nat) -> BackendView {
        BackendView { avg_ns: next_avg(self.avg_ns as nat, sample_ns(nanos)) as u64, ..self }
    }

    /// The backend in another health state.
    pub open spec fn with_health(self, health: Health) -> BackendView {
        BackendView { health, ..self }
    }
}

/// A server that requests can be sent to.
#[derive(Debug)]
pub struct Backend {
    id: u128,
    uri: Uri,
    health: u8,
    metrics: Metrics,
}

impl View for Backend {
    type V = BackendView;

    closed spec fn view(&self) -> BackendView {
        BackendView {
            id: self.id,
            uri: self.uri@,
            health: Health::decoding(self.health),
            avg_ns: self.metrics@,
        }
    }
}

impl Backend {
    /// A new backend under a random identifier.
    pub fn new(uri: Uri) -> (b: Backend)
        ensures
            b@ == BackendView::fresh(b@.id, uri@),
            is_random_id(b@.id),
            b@.uri == uri@,
            b@.health == Health::Healthy,
            b@.avg_ns == 0,
    {
        Backend::with_id(random_id(), uri)
    }

    /// A new backend under a given identifier. It counts as healthy.
    pub fn with_id(id: u128, uri: Uri) -> (b: Backend)
        ensures
            b@ == BackendView::fresh(id, uri@),
            b@.id == id,
            b@.uri == uri@,
            b@.health == Health::Healthy,
            b@.avg_ns == 0,
    {
        Backend { id, uri, health: Health::Healthy.as_u8(), metrics: Metrics::new() }
    }

    /// The health of the backend.
    pub fn health(&self) -> (h: Health)
        ensures
            h == self@.health,
    {
        Health::from(self.health)
    }

    /// Changes the health of the backend, and nothing else.
    pub fn set_health(&mut self, h: Health)
        ensures
            final(self)@ == old(self)@.with_health(h),
            final(self)@.health == h,
            final(self)@.id == old(self)@.id,
            final(self)@.uri == old(self)@.uri,
            final(self)@.avg_ns == old(self)@.avg_ns,
    {
        self.health = h.as_u8();
    }

    /// Folds a latency into the average, and changes nothing else.
    pub fn record_latency(&mut self, d: Duration)
        ensures
            final(self)@ == old(self)@.with_latency(d@),
            final(self)@.health == old(self)@.health,
            final(self)@.id == old(self)@.id,
            final(self)@.uri == old(self)@.uri,
            old(self)@.avg_ns == 0 ==> final(self)@.avg_ns == d@ % 0x1_0000_0000_0000_0000,
            0 < old(self)@.avg_ns && d@ % 0x1_0000_0000_0000_0000 <= old(self)@.avg_ns ==> final(self)@.avg_ns == old(self)@.avg_ns,
            0 < old(self)@.avg_ns < d@ % 0x1_0000_0000_0000_0000 ==> 8 * (final(self)@.avg_ns - old(self)@.avg_ns) <= d@ % 0x1_0000_0000_0000_0000 - old(self)@.avg_ns < 8 * (final(self)@.avg_ns - old(self)@.avg_ns) + 8,
    {
        self.metrics.record(d);
    }

    /// The average latency in whole milliseconds, rounded down.
    pub fn avg_latency_ms(&self) -> (ms: u64)
        ensures
            ms == self@.avg_ns / NANOS_PER_MILLI,
            ms * 1_000_000 <= self@.avg_ns < (ms + 1) * 1_000_000,
    {
        self.metrics.avg_ns() / NANOS_PER_MILLI
    }

    /// The address of the backend.
    pub fn uri(&self) -> (uri: &Uri)
        ensures
            uri@ == self@.uri,
    {
        &self.uri
    }

    /// The identifier of the backend.
    pub fn id(&self) -> (id: u128)
        ensures
            id == self@.id,
    {
        self.id
    }
}

impl Clone for Backend {
    fn clone(&self) -> (b: Backend)
        ensures
            b@ == self@,
    {
        Backend {
            id: self.id,
            uri: self.uri.clone(),
            health: self.health,
            metrics: self.metrics,
        }
    }
}

/// The backends of a list of backends, by what is known of each.
pub open spec fn views_of(hosts: Seq<Backend>) -> Seq<BackendView> {
    hosts.map_values(|b: Backend| b@)
}

/// One state of the balancer's configuration.
#[verifier::ext_equal]
pub struct SnapshotView {
    pub hosts: Seq<BackendView>,
    pub generation: u64,
    pub max_tries: u8,
}

/// The backends that requests are balanced over, how often that list has been changed, and how
/// many backends one request may be tried on.
#[derive(Debug)]
pub struct Snapshot {
    pub hosts: Vec<Backend>,
    pub generation: u64,
    pub max_tries: u8,
}

impl View for Snapshot {
    type V = SnapshotView;

    open spec fn view(&self) -> SnapshotView {
        SnapshotView {
            hosts: views_of(self.hosts@),
            generation: self.generation,
            max_tries: self.max_tries,
        }
    }
}

/// What was last set is what is read, and it outlives any latency that is recorded.
pub proof fn health_is_what_was_set(b: BackendView, h: Health, nanos: nat)
    ensures
        b.with_health(h).health == h,
        b.with_health(h).with_latency(nanos).health == h,
{
}

/// Setting the health and recording a latency do not disturb each other, and neither touches the
/// identifier or the address.
pub proof fn health_and_latency_commute(b: BackendView, h: Health, nanos: nat)
    ensures
        b.with_health(h).with_latency(nanos) == b.with_latency(nanos).with_health(h),
        b.with_health(h).with_latency(nanos).id == b.id,
        b.with_health(h).with_latency(nanos).uri == b.uri,
{
}

/// A new backend has the identifier and the address that it was given, is healthy, and has no
/// latency recorded.
pub proof fn new_backends_are_healthy(id: u128, uri: UriView)
    ensures
        BackendView::fresh(id, uri).id == id,
        BackendView::fresh(id, uri).uri == uri,
        BackendView::fresh(id, uri).health == Health::Healthy,
        BackendView::fresh(id, uri).avg_ns == 0,
{
}

/// Setting the health changes the health alone, to what is set.
pub proof fn health_changes_alone(b: BackendView, h: Health)
    ensures
        b.with_health(h).health == h,
        b.with_health(h).id == b.id,
        b.with_health(h).uri == b.uri,
        b.with_health(h).avg_ns == b.avg_ns,
{
}

/// Recording a latency changes the average alone. An average of nothing becomes the latency; a
/// latency that does not exceed the average leaves it; otherwise the average grows by an eighth of
/// the excess, rounded down.
pub proof fn latency_changes_the_average_alone(b: BackendView, nanos: nat)
    ensures
        b.with_latency(nanos).health == b.health,
        b.with_latency(nanos).id == b.id,
        b.with_latency(nanos).uri == b.uri,
        ({
            let sample = nanos % 0x1_0000_0000_0000_0000;
            let avg = b.with_latency(nanos).avg_ns;
            &&& b.avg_ns == 0 ==> avg == sample
            &&& 0 < b.avg_ns && sample <= b.avg_ns ==> avg == b.avg_ns
            &&& 0 < b.avg_ns < sample ==> 8 * (avg - b.avg_ns) <= sample - b.avg_ns < 8 * (avg
                - b.avg_ns) + 8
        }),
{
    average_takes_an_eighth_of_the_excess(b.avg_ns as nat, sample_ns(nanos));
}

/// A snapshot is seen as what it holds: its backends one by one and in their order, its generation
/// and its tries.
pub proof fn snapshots_show_their_backends(snap: Snapshot)
    ensures
        snap@.hosts.len() == snap.hosts.len(),
        forall|k: int| 0 <= k < snap.hosts.len() ==> #[trigger] snap@.hosts[k] == snap.hosts[k]@,
        snap@.generation == snap.generation,
        snap@.max_tries == snap.max_tries,
{
}

} // verus!
