//! The administration of the backend list: reporting, adding and removing backends.

use vstd::prelude::*;

use crate::backend::{
    snapshots_show_their_backends, views_of, Backend, BackendView, Snapshot, SnapshotView,
};
use crate::balance::{full_turn_finds_any_healthy_host, picked};
use crate::health::Health;
use crate::identifier::is_random_id;
use crate::metrics::NANOS_PER_MILLI;
use crate::outgoing::outgoing_uri;
use crate::uri::{parsed_uri, Uri, UriView};

verus! {

/// What is reported of a backend.
#[verifier::ext_equal]
pub struct BackendStatsView {
    pub id: u128,
    pub uri: Seq<char>,
    pub health: Seq<char>,
    pub avg_response_ms: u64,
}

/// What is reported of a backend.
#[derive(Debug)]
pub struct BackendStats {
    pub id: u128,
    pub uri: String,
    pub health: &'static str,
    pub avg_response_ms: u64,
}

impl View for BackendStats {
    type V = BackendStatsView;

    open spec fn view(&self) -> BackendStatsView {
        BackendStatsView {
            id: self.id,
            uri: self.uri@,
            health: self.health@,
            avg_response_ms: self.avg_response_ms,
        }
    }
}

/// The report on a backend.
pub open spec fn report(b: BackendView) -> BackendStatsView {
    BackendStatsView {
        id: b.id,
        uri: b.uri.text(),
        health: b.health.label(),
        avg_response_ms: b.avg_ns / NANOS_PER_MILLI,
    }
}

impl BackendStats {
    /// The report on a backend.
    pub fn from_backend(backend: &Backend) -> (s: BackendStats)
        ensures
            s@ == report(backend@),
            s.id == backend@.id,
            s.uri@ == backend@.uri.text(),
            backend@.health == Health::Healthy ==> s.health@ == "Healthy"@,
            backend@.health == Health::Unhealthy ==> s.health@ == "Unhealthy"@,
            backend@.health == Health::Probe ==> s.health@ == "Probe"@,
            backend@.health == Health::Disabled ==> s.health@ == "Disabled"@,
            s.avg_response_ms * 1_000_000 <= backend@.avg_ns < (s.avg_response_ms + 1) * 1_000_000,
    {
        BackendStats {
            id: backend.id(),
            uri: backend.uri().to_string(),
            health: backend.health().as_str(),
            avg_response_ms: backend.avg_latency_ms(),
        }
    }
}

/// The reports of a list of reports, by what each says.
pub open spec fn reports_of(backends: Seq<BackendStats>) -> Seq<BackendStatsView> {
    backends.map_values(|s: BackendStats| s@)
}

/// The reports on a list of backends.
pub open spec fn all_reports(hosts: Seq<BackendView>) -> Seq<BackendStatsView> {
    hosts.map_values(|b: BackendView| report(b))
}

/// The report on all backends.
#[derive(Debug)]
pub struct StatsResponse {
    pub generation: u64,
    pub backends: Vec<BackendStats>,
}

/// The request to add the backend at an address.
#[derive(Debug)]
pub struct AddBackendRequest {
    pub uri: String,
}

/// The answer to a request to add a backend: the report on it.
#[derive(Debug)]
pub struct AddBackendResponse {
    pub backend: BackendStats,
}

/// The body of an answer that refuses a request.
#[derive(Debug)]
pub struct ErrorResponse {
    pub error: String,
}

/// Why a request is refused.
#[verifier::ext_equal]
pub struct AppErrorView {
    pub status: u16,
    pub message: Seq<char>,
}

/// Why a request is refused: the status of the answer, and a message.
#[derive(Debug)]
pub struct AppError {
    pub status: u16,
    pub message: String,
}

impl View for AppError {
    type V = AppErrorView;

    open spec fn view(&self) -> AppErrorView {
        AppErrorView { status: self.status, message: self.message@ }
    }
}

impl AppError {
    /// A refusal.
    pub fn new(status: u16, message: &str) -> (e: AppError)
        ensures
            e@ == (AppErrorView { status, message: message@ }),
            e.status == status,
            e.message@ == message@,
    {
        AppError { status, message: message.to_owned() }
    }

    /// The answer that tells of the refusal: its status and its body.
    pub fn into_response(self) -> (r: (u16, ErrorResponse))
        ensures
            r.0 == self@.status,
            r.1.error@ == self@.message,
            r.0 == self.status,
            r.1.error@ == self.message@,
    {
        (self.status, ErrorResponse { error: self.message })
    }
}

/// The refusal of an address that is not a URI.
pub open spec fn invalid_uri() -> AppErrorView {
    AppErrorView { status: 400, message: "invalid URI"@ }
}

/// The refusal to remove a backend that is not there.
pub open spec fn backend_not_found() -> AppErrorView {
    AppErrorView { status: 404, message: "backend not found"@ }
}

/// Some host of the list has the identifier.
pub open spec fn has_id(hosts: Seq<BackendView>, id: u128) -> bool {
    exists|k: int| 0 <= k < hosts.len() && (#[trigger] hosts[k]).id == id
}

/// The backends with another identifier.
pub open spec fn others(id: u128) -> spec_fn(BackendView) -> bool {
    |b: BackendView| b.id != id
}

impl SnapshotView {
    /// The next generation, with a backend at the end of the list.
    pub open spec fn with_backend(self, b: BackendView) -> SnapshotView {
        SnapshotView {
            hosts: self.hosts.push(b),
            generation: (self.generation + 1) as u64,
            ..self
        }
    }

    /// The next generation, without the backends that have the identifier.
    pub open spec fn without_backend(self, id: u128) -> SnapshotView {
        SnapshotView {
            hosts: self.hosts.filter(others(id)),
            generation: (self.generation + 1) as u64,
            ..self
        }
    }
}

/// Reports on all backends, in the order of the list.
pub fn stats(snapshot: &Snapshot) -> (r: StatsResponse)
    ensures
        r.generation == snapshot@.generation,
        reports_of(r.backends@) == all_reports(snapshot@.hosts),
        r.generation == snapshot.generation,
        r.backends.len() == snapshot.hosts.len(),
        forall|k: int|
            0 <= k < snapshot.hosts.len() ==> {
                let s = #[trigger] r.backends[k];
                let b = snapshot.hosts[k]@;
                &&& s.id == b.id
                &&& s.uri@ == b.uri.text()
                &&& b.health == Health::Healthy ==> s.health@ == "Healthy"@
                &&& b.health == Health::Unhealthy ==> s.health@ == "Unhealthy"@
                &&& b.health == Health::Probe ==> s.health@ == "Probe"@
                &&& b.health == Health::Disabled ==> s.health@ == "Disabled"@
                &&& s.avg_response_ms * 1_000_000 <= b.avg_ns < (s.avg_response_ms + 1) * 1_000_000
            },
{
    let mut backends: Vec<BackendStats> = Vec::new();
    let mut i: usize = 0;
    while i < snapshot.hosts.len()
        invariant
            i == backends.len() <= snapshot.hosts.len(),
            forall|k: int| 0 <= k < i ==> (#[trigger] backends[k])@ == report(snapshot.hosts[k]@),
            forall|k: int|
                0 <= k < i ==> {
                    let s = #[trigger] backends[k];
                    let b = snapshot.hosts[k]@;
                    &&& s.id == b.id
                    &&& s.uri@ == b.uri.text()
                    &&& b.health == Health::Healthy ==> s.health@ == "Healthy"@
                    &&& b.health == Health::Unhealthy ==> s.health@ == "Unhealthy"@
                    &&& b.health == Health::Probe ==> s.health@ == "Probe"@
                    &&& b.health == Health::Disabled ==> s.health@ == "Disabled"@
                    &&& s.avg_response_ms * 1_000_000 <= b.avg_ns < (s.avg_response_ms + 1) * 1_000_000
                },
        decreases snapshot.hosts.len() - i,
    {
        backends.push(BackendStats::from_backend(&snapshot.hosts[i]));
        i = i + 1;
    }
    StatsResponse { generation: snapshot.generation, backends }
}

/// Puts a backend at the end of the list, and reports on it.
pub fn insert_backend(snapshot: &mut Snapshot, backend: Backend) -> (stats: BackendStats)
    requires
        old(snapshot).generation < u64::MAX,
    ensures
        final(snapshot)@ == old(snapshot)@.with_backend(backend@),
        stats@ == report(backend@),
        ({
            &&& final(snapshot).hosts.len() == old(snapshot).hosts.len() + 1
            &&& forall|k: int|
                0 <= k < old(snapshot).hosts.len() ==> (#[trigger] final(snapshot).hosts[k])@
                    == old(snapshot).hosts[k]@
            &&& final(snapshot).generation == old(snapshot).generation + 1
            &&& final(snapshot).max_tries == old(snapshot).max_tries
            &&& final(snapshot).hosts[old(snapshot).hosts.len() as int]@ == backend@
        }),
        stats.id == backend@.id,
        stats.uri@ == backend@.uri.text(),
        backend@.health == Health::Healthy ==> stats.health@ == "Healthy"@,
        backend@.health == Health::Unhealthy ==> stats.health@ == "Unhealthy"@,
        backend@.health == Health::Probe ==> stats.health@ == "Probe"@,
        backend@.health == Health::Disabled ==> stats.health@ == "Disabled"@,
        stats.avg_response_ms * 1_000_000 <= backend@.avg_ns < (stats.avg_response_ms + 1) * 1_000_000,
{
    let stats: BackendStats = BackendStats::from_backend(&backend);
    snapshot.hosts.push(backend);
    snapshot.generation = snapshot.generation + 1;
    assert(snapshot@.hosts == old(snapshot)@.hosts.push(backend@));
    proof {
        snapshots_show_their_backends(*snapshot);
        snapshots_show_their_backends(*old(snapshot));
        additions_by_component(old(snapshot)@, backend@);
    }
    stats
}

/// Adds the backend at the address that the request names. It gets a random identifier, counts as
/// healthy, and joins the list at its end. An address that is not a URI is refused.
pub fn add_backend(snapshot: &mut Snapshot, payload: AddBackendRequest) -> (r: Result<
    (u16, AddBackendResponse),
    AppError,
>)
    requires
        parsed_uri(payload.uri@) is Some ==> old(snapshot).generation < u64::MAX,
    ensures
        match r {
            Ok((status, response)) => {
                let id = response.backend.id;
                &&& parsed_uri(payload.uri@) is Some
                &&& status == 201
                &&& is_random_id(id)
                &&& response.backend@ == report(
                    BackendView::fresh(id, parsed_uri(payload.uri@)->Some_0),
                )
                &&& final(snapshot)@ == old(snapshot)@.with_backend(
                    BackendView::fresh(id, parsed_uri(payload.uri@)->Some_0),
                )
                // the new host in every component, and the others as they were
                &&& {
                    let added = final(snapshot).hosts[old(snapshot).hosts.len() as int]@;
                    &&& added.id == id
                    &&& Some(added.uri) == parsed_uri(payload.uri@)
                    &&& added.health == Health::Healthy
                    &&& added.avg_ns == 0
                    &&& response.backend.id == added.id
                    &&& response.backend.uri@ == added.uri.text()
                    &&& added.health == Health::Healthy ==> response.backend.health@ == "Healthy"@
                    &&& added.health == Health::Unhealthy ==> response.backend.health@ == "Unhealthy"@
                    &&& added.health == Health::Probe ==> response.backend.health@ == "Probe"@
                    &&& added.health == Health::Disabled ==> response.backend.health@ == "Disabled"@
                    &&& response.backend.avg_response_ms * 1_000_000 <= added.avg_ns < (response.backend.avg_response_ms + 1) * 1_000_000
                }
                &&& final(snapshot).hosts.len() == old(snapshot).hosts.len() + 1
                &&& forall|k: int|
                    0 <= k < old(snapshot).hosts.len() ==> (#[trigger] final(snapshot).hosts[k])@
                        == old(snapshot).hosts[k]@
                &&& final(snapshot).generation == old(snapshot).generation + 1
                &&& final(snapshot).max_tries == old(snapshot).max_tries
            },
            Err(e) => {
                &&& parsed_uri(payload.uri@) is None
                &&& e@ == invalid_uri()
                &&& final(snapshot)@ == old(snapshot)@
                &&& e.status == 400
                &&& e.message@ == "invalid URI"@
            },
        },
{
    match Uri::parse(payload.uri.as_str()) {
        Ok(uri) => {
            let backend: BackendStats = insert_backend(snapshot, Backend::new(uri));
            Ok((201, AddBackendResponse { backend }))
        },
        Err(_) => Err(AppError::new(400, "invalid URI")),
    }
}

/// As `add_backend`, for a list in any generation: `None`, and nothing changed, where the address
/// is a URI but the generations are used up.
pub fn add_backend_checked(snapshot: &mut Snapshot, payload: AddBackendRequest) -> (r: Option<
    Result<(u16, AddBackendResponse), AppError>,
>)
    ensures
        match r {
            None => {
                &&& parsed_uri(payload.uri@) is Some
                &&& old(snapshot).generation == u64::MAX
                &&& final(snapshot)@ == old(snapshot)@
            },
            Some(Ok((status, response))) => {
                let id = response.backend.id;
                &&& parsed_uri(payload.uri@) is Some
                &&& old(snapshot).generation < u64::MAX
                &&& status == 201
                &&& is_random_id(id)
                &&& response.backend@ == report(
                    BackendView::fresh(id, parsed_uri(payload.uri@)->Some_0),
                )
                &&& final(snapshot)@ == old(snapshot)@.with_backend(
                    BackendView::fresh(id, parsed_uri(payload.uri@)->Some_0),
                )
                // the new host in every component, and the others as they were
                &&& {
                    let added = final(snapshot).hosts[old(snapshot).hosts.len() as int]@;
                    &&& added.id == id
                    &&& Some(added.uri) == parsed_uri(payload.uri@)
                    &&& added.health == Health::Healthy
                    &&& added.avg_ns == 0
                    &&& response.backend.id == added.id
                    &&& response.backend.uri@ == added.uri.text()
                    &&& added.health == Health::Healthy ==> response.backend.health@ == "Healthy"@
                    &&& added.health == Health::Unhealthy ==> response.backend.health@ == "Unhealthy"@
                    &&& added.health == Health::Probe ==> response.backend.health@ == "Probe"@
                    &&& added.health == Health::Disabled ==> response.backend.health@ == "Disabled"@
                    &&& response.backend.avg_response_ms * 1_000_000 <= added.avg_ns < (response.backend.avg_response_ms + 1) * 1_000_000
                }
                &&& final(snapshot).hosts.len() == old(snapshot).hosts.len() + 1
                &&& forall|k: int|
                    0 <= k < old(snapshot).hosts.len() ==> (#[trigger] final(snapshot).hosts[k])@
                        == old(snapshot).hosts[k]@
                &&& final(snapshot).generation == old(snapshot).generation + 1
                &&& final(snapshot).max_tries == old(snapshot).max_tries
            },
            Some(Err(e)) => {
                &&& parsed_uri(payload.uri@) is None
                &&& e@ == invalid_uri()
                &&& final(snapshot)@ == old(snapshot)@
                &&& e.status == 400
                &&& e.message@ == "invalid URI"@
            },
        },
{
    if snapshot.generation == u64::MAX && Uri::parse(payload.uri.as_str()).is_ok() {
        return None;
    }
    Some(add_backend(snapshot, payload))
}

/// Whether some host of the list has the identifier.
pub fn contains_backend(snapshot: &Snapshot, id: u128) -> (b: bool)
    ensures
        b == has_id(snapshot@.hosts, id),
        b == exists|k: int| 0 <= k < snapshot.hosts.len() && (#[trigger] snapshot.hosts[k])@.id == id,
{
    let mut i: usize = 0;
    while i < snapshot.hosts.len()
        invariant
            i <= snapshot.hosts.len(),
            forall|k: int| 0 <= k < i ==> (#[trigger] snapshot@.hosts[k]).id != id,
            forall|k: int| 0 <= k < i ==> (#[trigger] snapshot.hosts[k])@.id != id,
        decreases snapshot.hosts.len() - i,
    {
        if snapshot.hosts[i].id() == id {
            assert(snapshot@.hosts[i as int].id == id);
            assert(snapshot.hosts[i as int]@.id == id);
            return true;
        }
        i = i + 1;
    }
    false
}

/// Removes the backends that have the identifier. The others stay, in their order. An identifier
/// that no backend has is refused.
pub fn remove_backend(snapshot: &mut Snapshot, id: u128) -> (r: Result<u16, AppError>)
    requires
        has_id(old(snapshot)@.hosts, id) ==> old(snapshot).generation < u64::MAX,
    ensures
        match r {
            Ok(status) => {
                &&& has_id(old(snapshot)@.hosts, id)
                &&& status == 204
                &&& final(snapshot)@ == old(snapshot)@.without_backend(id)
                &&& exists|k: int|
                    0 <= k < old(snapshot).hosts.len() && (#[trigger] old(snapshot).hosts[k])@.id
                        == id
                &&& forall|k: int|
                    0 <= k < final(snapshot).hosts.len() ==> (#[trigger] final(snapshot).hosts[k])@.id != id
                &&& final(snapshot).generation == old(snapshot).generation + 1
                &&& final(snapshot).max_tries == old(snapshot).max_tries
            },
            Err(e) => {
                &&& !has_id(old(snapshot)@.hosts, id)
                &&& e@ == backend_not_found()
                &&& final(snapshot)@ == old(snapshot)@
                &&& e.status == 404
                &&& e.message@ == "backend not found"@
                &&& forall|k: int|
                    0 <= k < old(snapshot).hosts.len() ==> (#[trigger] old(snapshot).hosts[k])@.id
                        != id
            },
        },
{
    let ghost all = snapshot@.hosts;
    let mut kept: Vec<Backend> = Vec::new();
    let mut i: usize = 0;
    assert(all.take(0).filter(others(id)) == Seq::<BackendView>::empty()) by {
        reveal(Seq::filter);
    }
    while i < snapshot.hosts.len()
        invariant
            i <= snapshot.hosts.len(),
            all == snapshot@.hosts,
            *snapshot == *old(snapshot),
            views_of(kept@) == all.take(i as int).filter(others(id)),
        decreases snapshot.hosts.len() - i,
    {
        let host: &Backend = &snapshot.hosts[i];
        let ghost before = kept@;
        if host.id() != id {
            kept.push(host.clone());
            assert(views_of(kept@) == views_of(before).push(host@));
        }
        proof {
            reveal(Seq::filter);
            assert(all.take(i + 1).drop_last() == all.take(i as int));
            assert(all.take(i + 1).last() == host@);
        }
        i = i + 1;
    }
    proof {
        assert(all.take(all.len() as int) == all);
        removal_shortens_the_list(all, id);
        assert(kept.len() == views_of(kept@).len());
    }
    proof {
        snapshots_show_their_backends(*old(snapshot));
        removal_takes_exactly_the_named(old(snapshot)@, id, arbitrary());
        if has_id(all, id) {
            let k = choose|k: int| 0 <= k < all.len() && (#[trigger] all[k]).id == id;
            assert(old(snapshot).hosts[k]@.id == id);
        }
        assert forall|k: int| 0 <= k < kept.len() implies (#[trigger] kept[k])@.id != id by {
            assert(views_of(kept@)[k] == kept[k]@);
        }
        assert forall|k: int|
            0 <= k < old(snapshot).hosts.len() && !has_id(all, id) implies (#[trigger] old(snapshot).hosts[k])@.id != id by {
            assert(all[k].id != id);
        }
    }
    if kept.len() == snapshot.hosts.len() {
        return Err(AppError::new(404, "backend not found"));
    }
    snapshot.hosts = kept;
    snapshot.generation = snapshot.generation + 1;
    Ok(204)
}

/// Removal shortens the list exactly if some backend of it has the identifier; otherwise it leaves
/// the list as it is.
pub proof fn removal_shortens_the_list(hosts: Seq<BackendView>, id: u128)
    ensures
        hosts.filter(others(id)).len() <= hosts.len(),
        hosts.filter(others(id)).len() < hosts.len() <==> has_id(hosts, id),
        !has_id(hosts, id) ==> hosts.filter(others(id)) == hosts,
    decreases hosts.len(),
{
    reveal(Seq::filter);
    if hosts.len() > 0 {
        let shorter = hosts.drop_last();
        removal_shortens_the_list(shorter, id);
        if hosts.last().id == id {
            assert(hosts[hosts.len() - 1].id == id);
        } else if has_id(hosts, id) {
            let k = choose|k: int| 0 <= k < hosts.len() && (#[trigger] hosts[k]).id == id;
            assert(shorter[k].id == id);
        } else {
            assert forall|k: int| 0 <= k < shorter.len() implies (#[trigger] shorter[k]).id
                != id by {
                assert(hosts[k].id != id);
            }
            assert(shorter.push(hosts.last()) == hosts);
        }
    }
}

/// A backend that has been removed is gone, so removing it again is refused; every backend with
/// another identifier stays, with its health and average.
pub proof fn removal_takes_exactly_the_named(snapshot: SnapshotView, id: u128, b: BackendView)
    ensures
        !has_id(snapshot.without_backend(id).hosts, id),
        snapshot.without_backend(id).hosts.contains(b) <==> snapshot.hosts.contains(b) && b.id
            != id,
        snapshot.without_backend(id).max_tries == snapshot.max_tries,
{
    let kept = snapshot.without_backend(id).hosts;
    assert forall|k: int| 0 <= k < kept.len() implies (#[trigger] kept[k]).id != id by {
        assert(others(id)(kept[k]));
    }
    if kept.contains(b) {
        snapshot.hosts.lemma_filter_contains_rev(others(id), b);
    }
    if snapshot.hosts.contains(b) && b.id != id {
        let k = choose|k: int| 0 <= k < snapshot.hosts.len() && snapshot.hosts[k] == b;
        assert(others(id)(snapshot.hosts[k]));
        snapshot.hosts.lemma_filter_contains(others(id), k);
    }
}

/// Removing a backend that was just added, under an identifier that no other backend has, gives
/// the list back as it was, two generations later.
pub proof fn removal_undoes_addition(snapshot: SnapshotView, b: BackendView)
    requires
        !has_id(snapshot.hosts, b.id),
        snapshot.generation + 2 <= u64::MAX,
    ensures
        snapshot.with_backend(b).without_backend(b.id) == (SnapshotView {
            generation: (snapshot.generation + 2) as u64,
            ..snapshot
        }),
{
    reveal(Seq::filter);
    removal_shortens_the_list(snapshot.hosts, b.id);
    assert(snapshot.hosts.push(b).drop_last() == snapshot.hosts);
}

/// An added backend is in the list; so is every backend that was in it before, at its position
/// and with its health and average; and the tries per request stay as they are.
pub proof fn addition_keeps_the_others(snapshot: SnapshotView, b: BackendView, k: int)
    requires
        0 <= k < snapshot.hosts.len(),
    ensures
        has_id(snapshot.with_backend(b).hosts, b.id),
        snapshot.with_backend(b).hosts.len() == snapshot.hosts.len() + 1,
        snapshot.with_backend(b).hosts[k] == snapshot.hosts[k],
        snapshot.with_backend(b).max_tries == snapshot.max_tries,
{
    assert(snapshot.with_backend(b).hosts[snapshot.hosts.len() as int].id == b.id);
}

/// Every change of the list starts a new generation, so two states of the list that are a change
/// apart are told apart by their generation.
pub proof fn changes_start_a_new_generation(snapshot: SnapshotView, b: BackendView, id: u128)
    requires
        snapshot.generation < u64::MAX,
    ensures
        snapshot.with_backend(b).generation == snapshot.generation + 1,
        snapshot.without_backend(id).generation == snapshot.generation + 1,
{
}

/// What the answer to an addition says of the new backend is what the reports say of it from then
/// on, at their end; the other reports stay as they were.
pub proof fn additions_are_reported(snapshot: SnapshotView, b: BackendView)
    ensures
        all_reports(snapshot.with_backend(b).hosts) == all_reports(snapshot.hosts).push(report(b)),
{
}

/// After a removal the reports are those of before without the ones under that identifier.
pub proof fn removals_are_reported(hosts: Seq<BackendView>, id: u128)
    ensures
        all_reports(hosts.filter(others(id))) == all_reports(hosts).filter(
            |s: BackendStatsView| s.id != id,
        ),
    decreases hosts.len(),
{
    reveal(Seq::filter);
    let kept = |s: BackendStatsView| s.id != id;
    if hosts.len() > 0 {
        removals_are_reported(hosts.drop_last(), id);
        assert(all_reports(hosts).drop_last() == all_reports(hosts.drop_last()));
        assert(all_reports(hosts).last() == report(hosts.last()));
        assert(all_reports(hosts.filter(others(id))) == all_reports(hosts).filter(kept));
    } else {
        assert(all_reports(hosts.filter(others(id))) == all_reports(hosts).filter(kept));
    }
}

/// A backend that has just been added can be picked: a full turn finds a host.
pub proof fn added_backends_come_into_service(
    snapshot: SnapshotView,
    id: u128,
    uri: UriView,
    start: int,
)
    requires
        0 <= start,
    ensures
        ({
            let hosts = snapshot.with_backend(BackendView::fresh(id, uri)).hosts;
            picked(hosts, start, hosts.len() as int) is Some
        }),
{
    let hosts = snapshot.with_backend(BackendView::fresh(id, uri)).hosts;
    assert(hosts[hosts.len() - 1].health == Health::Healthy);
    full_turn_finds_any_healthy_host(hosts, start);
}

/// A change that is asked for.
pub enum Change {
    Add(BackendView),
    Remove(u128),
}

impl SnapshotView {
    /// A change is carried out: additions are, and removals of a backend that is there.
    pub open spec fn accepts(self, change: Change) -> bool {
        match change {
            Change::Add(_) => true,
            Change::Remove(id) => has_id(self.hosts, id),
        }
    }

    /// The list after a change that was asked for. One that is refused leaves it as it is.
    pub open spec fn changed(self, change: Change) -> SnapshotView {
        match change {
            Change::Add(b) => self.with_backend(b),
            Change::Remove(id) => if has_id(self.hosts, id) {
                self.without_backend(id)
            } else {
                self
            },
        }
    }

    /// The list after a sequence of changes that were asked for.
    pub open spec fn after_changes(self, changes: Seq<Change>) -> SnapshotView
        decreases changes.len(),
    {
        if changes.len() == 0 {
            self
        } else {
            self.after_changes(changes.drop_last()).changed(changes.last())
        }
    }

    /// How many of a sequence of changes are carried out.
    pub open spec fn accepted(self, changes: Seq<Change>) -> nat
        decreases changes.len(),
    {
        if changes.len() == 0 {
            0
        } else {
            self.accepted(changes.drop_last()) + if self.after_changes(
                changes.drop_last(),
            ).accepts(changes.last()) {
                1nat
            } else {
                0nat
            }
        }
    }
}

/// The generation counts the changes that were carried out, and no others.
pub proof fn generation_counts_accepted_changes(snapshot: SnapshotView, changes: Seq<Change>)
    requires
        snapshot.generation + snapshot.accepted(changes) <= u64::MAX,
    ensures
        snapshot.after_changes(changes).generation == snapshot.generation + snapshot.accepted(
            changes,
        ),
        snapshot.after_changes(changes).max_tries == snapshot.max_tries,
    decreases changes.len(),
{
    if changes.len() > 0 {
        generation_counts_accepted_changes(snapshot, changes.drop_last());
    }
}

/// No two backends of the list have the same identifier.
pub open spec fn distinct_ids(hosts: Seq<BackendView>) -> bool {
    forall|i: int, j: int|
        0 <= i < j < hosts.len() ==> (#[trigger] hosts[i]).id != (#[trigger] hosts[j]).id
}

impl SnapshotView {
    /// Every addition of a sequence of changes comes under an identifier that no backend of the
    /// list has at that time.
    pub open spec fn adds_fresh_ids(self, changes: Seq<Change>) -> bool
        decreases changes.len(),
    {
        changes.len() > 0 ==> {
            &&& self.adds_fresh_ids(changes.drop_last())
            &&& changes.last() matches Change::Add(b) ==> !has_id(
                self.after_changes(changes.drop_last()).hosts,
                b.id,
            )
        }
    }

    /// How many of a sequence of changes are removals that are carried out.
    pub open spec fn accepted_removals(self, changes: Seq<Change>) -> nat
        decreases changes.len(),
    {
        if changes.len() == 0 {
            0
        } else {
            self.accepted_removals(changes.drop_last()) + if changes.last() is Remove
                && self.after_changes(changes.drop_last()).accepts(changes.last()) {
                1nat
            } else {
                0nat
            }
        }
    }
}

/// How many of a sequence of changes are additions.
pub open spec fn additions(changes: Seq<Change>) -> nat
    decreases changes.len(),
{
    if changes.len() == 0 {
        0
    } else {
        additions(changes.drop_last()) + if changes.last() is Add {
            1nat
        } else {
            0nat
        }
    }
}

/// From a list in which no identifier occurs twice, a removal takes one backend at most, and still
/// none occurs twice.
pub proof fn removal_takes_one_of_distinct(hosts: Seq<BackendView>, id: u128)
    requires
        distinct_ids(hosts),
    ensures
        distinct_ids(hosts.filter(others(id))),
        has_id(hosts, id) ==> hosts.filter(others(id)).len() + 1 == hosts.len(),
    decreases hosts.len(),
{
    reveal(Seq::filter);
    if hosts.len() > 0 {
        let shorter = hosts.drop_last();
        let last = hosts.last();
        removal_takes_one_of_distinct(shorter, id);
        removal_shortens_the_list(shorter, id);
        let kept = shorter.filter(others(id));
        if last.id == id {
            assert(!has_id(shorter, id)) by {
                assert forall|k: int| 0 <= k < shorter.len() implies (#[trigger] shorter[k]).id
                    != id by {
                    assert(hosts[k].id != hosts[hosts.len() - 1].id);
                }
            }
        } else {
            assert(hosts.filter(others(id)) == kept.push(last));
            assert forall|i: int, j: int| 0 <= i < j < kept.push(last).len() implies (
            #[trigger] kept.push(last)[i]).id != (#[trigger] kept.push(last)[j]).id by {
                if j == kept.len() {
                    assert(kept.contains(kept[i]));
                    shorter.lemma_filter_contains_rev(others(id), kept[i]);
                    let k = choose|k: int| 0 <= k < shorter.len() && shorter[k] == kept[i];
                    assert(hosts[k].id != hosts[hosts.len() - 1].id);
                } else {
                    assert(kept[i].id != kept[j].id);
                }
            }
            if has_id(hosts, id) {
                let k = choose|k: int| 0 <= k < hosts.len() && (#[trigger] hosts[k]).id == id;
                assert(shorter[k].id == id);
            }
        }
    }
}

/// As long as additions come under fresh identifiers, none occurs twice, and the list is as long
/// as it was, and longer by the additions and shorter by the removals that were carried out.
pub proof fn length_counts_accepted_changes(snapshot: SnapshotView, changes: Seq<Change>)
    requires
        distinct_ids(snapshot.hosts),
        snapshot.adds_fresh_ids(changes),
    ensures
        distinct_ids(snapshot.after_changes(changes).hosts),
        snapshot.after_changes(changes).hosts.len() == snapshot.hosts.len() + additions(changes)
            - snapshot.accepted_removals(changes),
    decreases changes.len(),
{
    if changes.len() > 0 {
        length_counts_accepted_changes(snapshot, changes.drop_last());
        let hosts = snapshot.after_changes(changes.drop_last()).hosts;
        match changes.last() {
            Change::Add(b) => {
                assert forall|i: int, j: int| 0 <= i < j < hosts.push(b).len() implies (
                #[trigger] hosts.push(b)[i]).id != (#[trigger] hosts.push(b)[j]).id by {
                    assert(hosts[i].id != b.id);
                }
            },
            Change::Remove(id) => {
                removal_takes_one_of_distinct(hosts, id);
            },
        }
    }
}

/// A report gives the identifier, the address as text, the name of the health, and the whole
/// milliseconds of the average, whatever the health is.
pub proof fn reports_by_field(b: BackendView)
    ensures
        report(b).id == b.id,
        report(b).uri == b.uri.text(),
        b.health == Health::Healthy ==> report(b).health == "Healthy"@,
        b.health == Health::Unhealthy ==> report(b).health == "Unhealthy"@,
        b.health == Health::Probe ==> report(b).health == "Probe"@,
        b.health == Health::Disabled ==> report(b).health == "Disabled"@,
        report(b).avg_response_ms * 1_000_000 <= b.avg_ns < (report(b).avg_response_ms + 1)
            * 1_000_000,
{
}

/// Each field of a report depends on one thing alone: backends that differ only in their health are
/// reported with the same average and address, and backends that differ only in their average with
/// the same name of their health.
pub proof fn report_fields_are_independent(b: BackendView, health: Health, avg_ns: u64)
    ensures
        report(b.with_health(health)).avg_response_ms == report(b).avg_response_ms,
        report(b.with_health(health)).uri == report(b).uri,
        report(b.with_health(health)).id == report(b).id,
        report(BackendView { avg_ns, ..b }).health == report(b).health,
        report(BackendView { avg_ns, ..b }).uri == report(b).uri,
        avg_ns <= b.avg_ns ==> report(BackendView { avg_ns, ..b }).avg_response_ms <= report(
            b,
        ).avg_response_ms,
{
}

/// There is one report for every backend, in the order of the list.
pub proof fn every_backend_is_reported(hosts: Seq<BackendView>)
    ensures
        all_reports(hosts).len() == hosts.len(),
        forall|k: int|
            0 <= k < hosts.len() ==> #[trigger] all_reports(hosts)[k] == report(hosts[k]),
{
}

/// Reports and refusals are seen as what they hold.
pub proof fn answers_show_what_they_hold(
    stats: BackendStats,
    backends: Seq<BackendStats>,
    error: AppError,
)
    ensures
        stats@.id == stats.id,
        stats@.uri == stats.uri@,
        stats@.health == stats.health@,
        stats@.avg_response_ms == stats.avg_response_ms,
        reports_of(backends).len() == backends.len(),
        forall|k: int|
            0 <= k < backends.len() ==> #[trigger] reports_of(backends)[k] == backends[k]@,
        error@.status == error.status,
        error@.message == error.message@,
{
}

/// The two refusals.
pub proof fn refusals()
    ensures
        invalid_uri() == (AppErrorView { status: 400, message: "invalid URI"@ }),
        backend_not_found() == (AppErrorView { status: 404, message: "backend not found"@ }),
{
}

/// After an addition the last host is the added backend in every component, the hosts before it are
/// those that were there, each as it was, and the generation is the next one.
pub proof fn additions_by_component(snapshot: SnapshotView, b: BackendView)
    ensures
        ({
            let after = snapshot.with_backend(b);
            let n = snapshot.hosts.len() as int;
            &&& after.hosts.len() == n + 1
            &&& after.hosts[n].id == b.id
            &&& after.hosts[n].uri.scheme == b.uri.scheme
            &&& after.hosts[n].uri.authority == b.uri.authority
            &&& after.hosts[n].uri.path_and_query == b.uri.path_and_query
            &&& after.hosts[n].health == b.health
            &&& after.hosts[n].avg_ns == b.avg_ns
            &&& after.hosts[n] == b
            &&& forall|k: int| 0 <= k < n ==> #[trigger] after.hosts[k] == snapshot.hosts[k]
            &&& snapshot.generation < u64::MAX ==> after.generation == snapshot.generation + 1
            &&& after.max_tries == snapshot.max_tries
        }),
{
}

/// Requests that go to a backend that was added go to the scheme and the authority of its address.
pub proof fn added_backends_are_reached_under_their_address(
    snapshot: SnapshotView,
    id: u128,
    uri: UriView,
    original: UriView,
)
    ensures
        ({
            let added = snapshot.with_backend(BackendView::fresh(id, uri)).hosts.last();
            &&& outgoing_uri(original, added.uri).scheme == uri.scheme
            &&& outgoing_uri(original, added.uri).authority == uri.authority
            &&& added.uri.routable() <==> (uri.scheme is Some <==> uri.authority is Some)
            &&& added.id == id
            &&& added.health == Health::Healthy
            &&& added.avg_ns == 0
        }),
{
}

/// A list has an identifier exactly if one of its backends does.
pub proof fn identifiers_are_those_of_the_backends(hosts: Seq<BackendView>, id: u128)
    ensures
        has_id(hosts, id) <==> !(forall|k: int|
            0 <= k < hosts.len() ==> (#[trigger] hosts[k]).id != id),
{
}

/// Removal goes host by host: from an empty list it takes nothing, and a host at the end of a list
/// stays at the end, as it is, unless it has the identifier.
pub proof fn removal_goes_host_by_host(snapshot: SnapshotView, b: BackendView, id: u128)
    ensures
        ({
            let longer = SnapshotView { hosts: snapshot.hosts.push(b), ..snapshot };
            let kept = snapshot.without_backend(id).hosts;
            &&& b.id == id ==> longer.without_backend(id).hosts == kept
            &&& b.id != id ==> longer.without_backend(id).hosts == kept.push(b)
        }),
        snapshot.hosts.len() == 0 ==> snapshot.without_backend(id).hosts.len() == 0,
        snapshot.generation < u64::MAX ==> snapshot.without_backend(id).generation
            == snapshot.generation + 1,
        snapshot.without_backend(id).max_tries == snapshot.max_tries,
{
    reveal(Seq::filter);
    assert(snapshot.hosts.push(b).drop_last() == snapshot.hosts);
}

/// What a removal leaves are the backends with another identifier, all of them, each as it was and
/// in the order in which they were.
pub proof fn removal_keeps_the_order(snapshot: SnapshotView, id: u128) -> (from: Seq<int>)
    ensures
        from.len() == snapshot.without_backend(id).hosts.len(),
        forall|i: int|
            0 <= i < from.len() ==> {
                &&& 0 <= #[trigger] from[i] < snapshot.hosts.len()
                &&& snapshot.hosts[from[i]].id != id
                &&& snapshot.without_backend(id).hosts[i] == snapshot.hosts[from[i]]
            },
        forall|i: int, j: int| 0 <= i < j < from.len() ==> #[trigger] from[i] < #[trigger] from[j],
        forall|k: int|
            0 <= k < snapshot.hosts.len() && (#[trigger] snapshot.hosts[k]).id != id
                ==> from.contains(k),
    decreases snapshot.hosts.len(),
{
    reveal(Seq::filter);
    let hosts = snapshot.hosts;
    if hosts.len() == 0 {
        seq![]
    } else {
        let shorter = SnapshotView { hosts: hosts.drop_last(), ..snapshot };
        let before = removal_keeps_the_order(shorter, id);
        let last = hosts.len() - 1;
        assert forall|i: int| 0 <= i < before.len() implies 0 <= #[trigger] before[i] < last
            && hosts[before[i]].id != id && shorter.without_backend(id).hosts[i]
            == hosts[before[i]] by {
            assert(shorter.hosts[before[i]] == hosts[before[i]]);
        }
        if hosts.last().id == id {
            assert forall|k: int|
                0 <= k < hosts.len() && (#[trigger] hosts[k]).id != id implies before.contains(
                k,
            ) by {
                assert(shorter.hosts[k].id != id);
            }
            before
        } else {
            let from = before.push(last);
            assert forall|k: int|
                0 <= k < hosts.len() && (#[trigger] hosts[k]).id != id implies from.contains(
                k,
            ) by {
                if k < last {
                    assert(shorter.hosts[k].id != id);
                    let i = choose|i: int| 0 <= i < before.len() && before[i] == k;
                    assert(from[i] == k);
                } else {
                    assert(from[before.len() as int] == k);
                }
            }
            from
        }
    }
}

} // verus!
