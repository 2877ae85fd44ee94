//! Round-robin selection of a healthy backend.

use vstd::arithmetic::div_mod::{lemma_fundamental_div_mod, lemma_fundamental_div_mod_converse_mod};
use vstd::prelude::*;

use crate::backend::{BackendView, Snapshot};
use crate::health::Health;

verus! {

/// Where in a rotation a cursor points: as much of it as a machine word holds.
pub open spec fn start_of(cursor: u64) -> usize {
    #[verifier::truncate]
    (cursor as usize)
}

/// The position that is looked at after `offset` others, when the rotation over `n` hosts starts
/// at `start`.
pub open spec fn slot(start: int, offset: int, n: int) -> int {
    (start + offset) % n
}

/// The host that is looked at after `offset` others is healthy.
pub open spec fn healthy_at(hosts: Seq<BackendView>, start: int, offset: int) -> bool {
    hosts[slot(start, offset, hosts.len() as int)].health == Health::Healthy
}

/// None of the first `offset` hosts of the rotation is healthy.
pub open spec fn none_before(hosts: Seq<BackendView>, start: int, offset: int) -> bool {
    forall|k: int| 0 <= k < offset ==> !#[trigger] healthy_at(hosts, start, k)
}

/// The host at `offset` is the first healthy one of the rotation, and among the first `limit`.
pub open spec fn is_first(hosts: Seq<BackendView>, start: int, limit: int, offset: int) -> bool {
    0 <= offset < limit && healthy_at(hosts, start, offset) && none_before(hosts, start, offset)
}

/// The position of the first healthy host of the rotation, if it is among the first `limit`.
pub open spec fn picked(hosts: Seq<BackendView>, start: int, limit: int) -> Option<int> {
    if exists|offset: int| is_first(hosts, start, limit, offset) {
        let offset = choose|offset: int| is_first(hosts, start, limit, offset);
        Some(slot(start, offset, hosts.len() as int))
    } else {
        None
    }
}

/// How many hosts are looked at: `max_skips`, but none of them twice.
pub open spec fn looked_at(max_skips: usize, n: nat) -> int {
    if max_skips < n {
        max_skips as int
    } else {
        n as int
    }
}

/// Counting on from `start` stays within a machine word as far as the rotation goes.
pub open spec fn rotation_fits(hosts: Seq<BackendView>, start: usize, limit: int) -> bool {
    forall|offset: int|
        0 <= offset < limit && #[trigger] none_before(hosts, start as int, offset) ==> start
            + offset <= usize::MAX
}

/// The cursor after a selection: it advances by one and wraps around, unless there are no hosts.
pub open spec fn cursor_after(cursor: u64, n: nat) -> u64 {
    if n == 0 {
        cursor
    } else if cursor == u64::MAX {
        0
    } else {
        (cursor + 1) as u64
    }
}

/// A position as a mathematical integer.
pub open spec fn position(p: Option<usize>) -> Option<int> {
    match p {
        Some(i) => Some(i as int),
        None => None,
    }
}

/// Picks the first healthy host, starting where the cursor points and looking at `max_skips`
/// hosts at most; `None` if there is none. The cursor moves on by one.
pub fn round_robin(snap: &Snapshot, rr_cursor: &mut u64, max_skips: usize) -> (pick: Option<usize>)
    requires
        rotation_fits(
            snap@.hosts,
            start_of(*old(rr_cursor)),
            looked_at(max_skips, snap@.hosts.len()),
        ),
    ensures
        position(pick) == picked(
            snap@.hosts,
            start_of(*old(rr_cursor)) as int,
            looked_at(max_skips, snap@.hosts.len()),
        ),
        pick is None <==> none_before(
            snap@.hosts,
            start_of(*old(rr_cursor)) as int,
            looked_at(max_skips, snap@.hosts.len()),
        ),
        pick matches Some(i) ==> i < snap@.hosts.len() && snap@.hosts[i as int].health
            == Health::Healthy,
        *final(rr_cursor) == cursor_after(*old(rr_cursor), snap@.hosts.len()),
        // the same in terms of the hosts themselves: of all healthy hosts the one that comes first
        // when counting upwards from the cursor, and around, is picked
        ({
            let n = snap.hosts.len() as int;
            let start = (*old(rr_cursor) as usize) as int;
            match pick {
                Some(i) => {
                    &&& 0 <= i < n
                    &&& snap.hosts[i as int]@.health == Health::Healthy
                    &&& (i - start) % n < max_skips
                    &&& forall|k: int|
                        0 <= k < n && (#[trigger] snap.hosts[k])@.health == Health::Healthy ==> (i
                            - start) % n <= (k - start) % n
                },
                None => forall|k: int|
                    0 <= k < n && (#[trigger] snap.hosts[k])@.health == Health::Healthy ==> (k
                        - start) % n >= max_skips,
            }
        }),
        snap.hosts.len() == 0 ==> *final(rr_cursor) == *old(rr_cursor),
        snap.hosts.len() > 0 ==> *final(rr_cursor) == (*old(rr_cursor) + 1)
            % 0x1_0000_0000_0000_0000,
{
    let n: usize = snap.hosts.len();
    if n == 0 {
        return None;
    }
    let start: usize = #[verifier::truncate] (*rr_cursor as usize);
    *rr_cursor = rr_cursor.wrapping_add(1);
    let limit: usize = if max_skips < n {
        max_skips
    } else {
        n
    };
    let ghost hosts = snap@.hosts;
    let mut i: usize = 0;
    while i < limit
        invariant
            i <= limit <= n,
            n == snap.hosts.len() == hosts.len(),
            n > 0,
            hosts == snap@.hosts,
            start == start_of(*old(rr_cursor)),
            limit == looked_at(max_skips, hosts.len()),
            *rr_cursor == cursor_after(*old(rr_cursor), hosts.len()),
            rotation_fits(hosts, start, limit as int),
            none_before(hosts, start as int, i as int),
        decreases limit - i,
    {
        assert(start + i <= usize::MAX);
        let idx: usize = (start + i) % n;
        assert(idx == slot(start as int, i as int, n as int));
        if snap.hosts[idx].health() == Health::Healthy {
            proof {
                assert(is_first(hosts, start as int, limit as int, i as int));
                first_is_unique(hosts, start as int, limit as int, i as int);
                nearest_healthy_host_is_picked(hosts, start as int, limit as int);
                assert forall|k: int|
                    0 <= k < n && (#[trigger] snap.hosts[k])@.health == Health::Healthy implies (idx
                    - start) % n as int <= (k - start) % n as int by {
                    assert(hosts[k].health == Health::Healthy);
                }
            }
            return Some(idx);
        }
        i = i + 1;
    }
    proof {
        nearest_healthy_host_is_picked(hosts, start as int, limit as int);
        selection_fails_only_without_healthy_hosts(hosts, start as int, limit as int);
        assert forall|k: int|
            0 <= k < n && (#[trigger] snap.hosts[k])@.health == Health::Healthy implies (k - start)
            % n as int >= max_skips by {
            assert(hosts[k].health == Health::Healthy);
            turn_is_the_distance(start as int, k, n as int);
        }
    }
    None
}

/// Whether `round_robin` can be called: counting on from the cursor stays within a machine word.
pub fn cursor_in_range(snap: &Snapshot, rr_cursor: u64, max_skips: usize) -> (fits: bool)
    ensures
        fits == rotation_fits(
            snap@.hosts,
            start_of(rr_cursor),
            looked_at(max_skips, snap@.hosts.len()),
        ),
{
    let n: usize = snap.hosts.len();
    let start: usize = #[verifier::truncate] (rr_cursor as usize);
    let limit: usize = if max_skips < n {
        max_skips
    } else {
        n
    };
    let ghost hosts = snap@.hosts;
    let mut i: usize = 0;
    while i < limit
        invariant
            i <= limit <= n,
            n == snap.hosts.len() == hosts.len(),
            hosts == snap@.hosts,
            start == start_of(rr_cursor),
            limit == looked_at(max_skips, hosts.len()),
            none_before(hosts, start as int, i as int),
            i > 0 ==> start + i - 1 <= usize::MAX,
        decreases limit - i,
    {
        if i > usize::MAX - start {
            return false;
        }
        let idx: usize = (start + i) % n;
        assert(idx == slot(start as int, i as int, n as int));
        if snap.hosts[idx].health() == Health::Healthy {
            assert(healthy_at(hosts, start as int, i as int));
            assert forall|offset: int|
                0 <= offset < limit && #[trigger] none_before(hosts, start as int, offset) implies
                start + offset <= usize::MAX by {
                assert(offset <= i);
            }
            return true;
        }
        i = i + 1;
    }
    true
}

/// There is at most one first healthy host in a rotation.
pub proof fn first_is_unique(hosts: Seq<BackendView>, start: int, limit: int, offset: int)
    requires
        is_first(hosts, start, limit, offset),
    ensures
        picked(hosts, start, limit) == Some(slot(start, offset, hosts.len() as int)),
{
    let other = choose|other: int| is_first(hosts, start, limit, other);
    assert(is_first(hosts, start, limit, other));
    assert(healthy_at(hosts, start, other) && healthy_at(hosts, start, offset));
}

/// Within one turn, the rotation walks upwards from where it starts and wraps around once.
proof fn slot_within_a_turn(start: int, offset: int, n: int)
    requires
        0 <= start,
        0 <= offset < n,
    ensures
        0 <= start % n < n,
        slot(start, offset, n) == if start % n + offset < n {
            start % n + offset
        } else {
            start % n + offset - n
        },
{
    let q = start / n;
    let r = start % n;
    lemma_fundamental_div_mod(start, n);
    assert(0 <= r < n) by (nonlinear_arith)
        requires
            r == start % n,
            n > 0,
    ;
    assert(n * q == q * n) by (nonlinear_arith);
    if r + offset < n {
        lemma_fundamental_div_mod_converse_mod(start + offset, n, q, r + offset);
    } else {
        assert((q + 1) * n == q * n + n) by (nonlinear_arith);
        lemma_fundamental_div_mod_converse_mod(start + offset, n, q + 1, r + offset - n);
    }
}

/// The turn at which the host at position `k` is looked at.
pub open spec fn turn_of(start: int, k: int, n: int) -> int {
    if start % n <= k {
        k - start % n
    } else {
        k - start % n + n
    }
}

/// One turn of the rotation looks at every host, and at none of them twice.
pub proof fn a_turn_visits_every_host_once(start: int, k: int, n: int)
    requires
        0 <= start,
        0 <= k < n,
    ensures
        0 <= turn_of(start, k, n) < n,
        slot(start, turn_of(start, k, n), n) == k,
        forall|offset: int|
            0 <= offset < n && #[trigger] slot(start, offset, n) == k ==> offset == turn_of(
                start,
                k,
                n,
            ),
{
    slot_within_a_turn(start, 0, n);
    slot_within_a_turn(start, turn_of(start, k, n), n);
    assert forall|offset: int|
        0 <= offset < n && #[trigger] slot(start, offset, n) == k implies offset == turn_of(
        start,
        k,
        n,
    ) by {
        slot_within_a_turn(start, offset, n);
    }
}

/// A selection fails exactly if none of the hosts that are looked at is healthy.
pub proof fn selection_fails_only_without_healthy_hosts(
    hosts: Seq<BackendView>,
    start: int,
    limit: int,
)
    ensures
        picked(hosts, start, limit) is None <==> none_before(hosts, start, limit),
    decreases limit,
{
    if none_before(hosts, start, limit) {
        assert forall|offset: int| !is_first(hosts, start, limit, offset) by {
            if is_first(hosts, start, limit, offset) {
                assert(healthy_at(hosts, start, offset));
            }
        }
    } else {
        let witness = choose|k: int| 0 <= k < limit && healthy_at(hosts, start, k);
        let shorter = limit - 1;
        if none_before(hosts, start, shorter) {
            assert(witness == shorter);
            assert(is_first(hosts, start, limit, witness));
        } else {
            selection_fails_only_without_healthy_hosts(hosts, start, shorter);
            let offset = choose|offset: int| is_first(hosts, start, shorter, offset);
            assert(is_first(hosts, start, limit, offset));
        }
    }
}

/// A selection that may look at all hosts finds one exactly if one of them is healthy, wherever
/// the cursor points.
pub proof fn full_turn_finds_any_healthy_host(hosts: Seq<BackendView>, start: int)
    requires
        0 <= start,
    ensures
        picked(hosts, start, hosts.len() as int) is Some <==> exists|k: int|
            0 <= k < hosts.len() && #[trigger] hosts[k].health == Health::Healthy,
{
    let n = hosts.len() as int;
    selection_fails_only_without_healthy_hosts(hosts, start, n);
    if exists|k: int| 0 <= k < n && #[trigger] hosts[k].health == Health::Healthy {
        let k = choose|k: int| 0 <= k < n && #[trigger] hosts[k].health == Health::Healthy;
        a_turn_visits_every_host_once(start, k, n);
        assert(healthy_at(hosts, start, turn_of(start, k, n)));
    }
    if !none_before(hosts, start, n) {
        let offset = choose|offset: int| 0 <= offset < n && healthy_at(hosts, start, offset);
        slot_within_a_turn(start, offset, n);
        assert(hosts[slot(start, offset, n)].health == Health::Healthy);
    }
}

/// What is picked is a healthy host of the list.
pub proof fn only_healthy_hosts_are_picked(hosts: Seq<BackendView>, start: int, limit: int)
    requires
        0 <= start,
        limit <= hosts.len(),
    ensures
        picked(hosts, start, limit) matches Some(k) ==> 0 <= k < hosts.len() && hosts[k].health
            == Health::Healthy,
{
    if picked(hosts, start, limit) is Some {
        let offset = choose|offset: int| is_first(hosts, start, limit, offset);
        slot_within_a_turn(start, offset, hosts.len() as int);
    }
}

/// The cursor after `calls` selections over `n` hosts.
pub open spec fn cursor_after_calls(cursor: u64, n: nat, calls: nat) -> u64
    decreases calls,
{
    if calls == 0 {
        cursor
    } else {
        cursor_after(cursor_after_calls(cursor, n, (calls - 1) as nat), n)
    }
}

/// Every selection starts one host further on than the one before, as long as a machine word can
/// count them.
pub proof fn selections_start_one_further_on(cursor: u64, n: nat, calls: nat)
    requires
        n > 0,
        start_of(cursor) + calls <= usize::MAX,
    ensures
        start_of(cursor_after_calls(cursor, n, calls)) == start_of(cursor) + calls,
    decreases calls,
{
    if calls > 0 {
        selections_start_one_further_on(cursor, n, (calls - 1) as nat);
        let before: u64 = cursor_after_calls(cursor, n, (calls - 1) as nat);
        let after: u64 = cursor_after(before, n);
        assert(before != u64::MAX ==> after == before + 1);
        let word_max: usize = usize::MAX;
        assert((before as usize) < word_max && after == before + 1 ==> after as usize == (
        before as usize) + 1) by (bit_vector);
        assert(before == 0xffff_ffff_ffff_ffffu64 ==> word_max <= before as usize)
            by (bit_vector);
    }
}

/// While all hosts are healthy, as many successive selections as there are hosts pick each of
/// them exactly once.
pub proof fn healthy_hosts_take_turns(hosts: Seq<BackendView>, cursor: u64, k: int)
    requires
        forall|i: int| 0 <= i < hosts.len() ==> (#[trigger] hosts[i]).health == Health::Healthy,
        start_of(cursor) + hosts.len() - 1 <= usize::MAX,
        0 <= k < hosts.len(),
    ensures
        exists|turn: nat|
            turn < hosts.len() && #[trigger] picked(
                hosts,
                start_of(cursor_after_calls(cursor, hosts.len(), turn)) as int,
                hosts.len() as int,
            ) == Some(k) && forall|other: nat|
                other < hosts.len() && other != turn ==> #[trigger] picked(
                    hosts,
                    start_of(cursor_after_calls(cursor, hosts.len(), other)) as int,
                    hosts.len() as int,
                ) != Some(k),
{
    let n = hosts.len() as int;
    let start = start_of(cursor) as int;
    assert forall|turn: nat| turn < n implies #[trigger] picked(
        hosts,
        start_of(cursor_after_calls(cursor, hosts.len(), turn)) as int,
        n,
    ) == Some(slot(start, turn as int, n)) by {
        selections_start_one_further_on(cursor, hosts.len(), turn);
        let at = start + turn;
        slot_within_a_turn(at, 0, n);
        assert(is_first(hosts, at, n, 0));
        first_is_unique(hosts, at, n, 0);
    }
    a_turn_visits_every_host_once(start, k, n);
    let turn = turn_of(start, k, n) as nat;
    assert(picked(hosts, start_of(cursor_after_calls(cursor, hosts.len(), turn)) as int, n)
        == Some(k));
}

/// A host that is the only healthy one is picked every time, wherever the cursor points.
pub proof fn sole_healthy_host_is_always_picked(hosts: Seq<BackendView>, start: int, k: int)
    requires
        0 <= start,
        0 <= k < hosts.len(),
        forall|i: int|
            0 <= i < hosts.len() ==> ((#[trigger] hosts[i]).health == Health::Healthy <==> i == k),
    ensures
        picked(hosts, start, hosts.len() as int) == Some(k),
{
    full_turn_finds_any_healthy_host(hosts, start);
    only_healthy_hosts_are_picked(hosts, start, hosts.len() as int);
    assert(hosts[k].health == Health::Healthy);
}

/// Looking at more hosts never changes which host is found, if one was found already.
pub proof fn looking_further_keeps_the_pick(
    hosts: Seq<BackendView>,
    start: int,
    limit: int,
    further: int,
)
    requires
        picked(hosts, start, limit) is Some,
        limit <= further,
    ensures
        picked(hosts, start, further) == picked(hosts, start, limit),
{
    let offset = choose|offset: int| is_first(hosts, start, limit, offset);
    assert(is_first(hosts, start, further, offset));
    first_is_unique(hosts, start, further, offset);
    first_is_unique(hosts, start, limit, offset);
}

/// The turn at which a host is looked at is its distance from where the rotation starts, counted
/// upwards and around.
proof fn turn_is_the_distance(start: int, k: int, n: int)
    requires
        0 <= start,
        0 <= k < n,
    ensures
        turn_of(start, k, n) == (k - start) % n,
        0 <= (k - start) % n < n,
{
    let q = start / n;
    let r = start % n;
    slot_within_a_turn(start, 0, n);
    lemma_fundamental_div_mod(start, n);
    assert(n * q == q * n) by (nonlinear_arith);
    if r <= k {
        assert((-q) * n == -(q * n)) by (nonlinear_arith);
        lemma_fundamental_div_mod_converse_mod(k - start, n, -q, k - r);
    } else {
        assert((-q - 1) * n == -(q * n) - n) by (nonlinear_arith);
        lemma_fundamental_div_mod_converse_mod(k - start, n, -q - 1, k - r + n);
    }
}

/// Of all healthy hosts, the one is picked that comes first when counting upwards from where the
/// rotation starts, and around; and none is picked exactly if all healthy hosts lie beyond the
/// limit.
pub proof fn nearest_healthy_host_is_picked(hosts: Seq<BackendView>, start: int, limit: int)
    requires
        0 <= start,
        limit <= hosts.len(),
    ensures
        ({
            let n = hosts.len() as int;
            match picked(hosts, start, limit) {
                Some(i) => {
                    &&& 0 <= i < n
                    &&& hosts[i].health == Health::Healthy
                    &&& 0 <= (i - start) % n < limit
                    &&& forall|k: int|
                        0 <= k < n && (#[trigger] hosts[k]).health == Health::Healthy ==> (i - start)
                            % n <= (k - start) % n
                },
                None => forall|k: int|
                    0 <= k < n && (#[trigger] hosts[k]).health == Health::Healthy ==> (k - start)
                        % n >= limit,
            }
        }),
{
    let n = hosts.len() as int;
    selection_fails_only_without_healthy_hosts(hosts, start, limit);
    only_healthy_hosts_are_picked(hosts, start, limit);
    match picked(hosts, start, limit) {
        Some(i) => {
            let offset = choose|offset: int| is_first(hosts, start, limit, offset);
            a_turn_visits_every_host_once(start, i, n);
            assert(slot(start, offset, n) == i);
            assert(offset == turn_of(start, i, n));
            turn_is_the_distance(start, i, n);
            assert forall|k: int|
                0 <= k < n && (#[trigger] hosts[k]).health == Health::Healthy implies (i - start) % n
                <= (k - start) % n by {
                a_turn_visits_every_host_once(start, k, n);
                turn_is_the_distance(start, k, n);
                assert(healthy_at(hosts, start, turn_of(start, k, n)));
            }
        },
        None => {
            assert forall|k: int|
                0 <= k < n && (#[trigger] hosts[k]).health == Health::Healthy implies (k - start) % n
                >= limit by {
                a_turn_visits_every_host_once(start, k, n);
                turn_is_the_distance(start, k, n);
                assert(healthy_at(hosts, start, turn_of(start, k, n)));
            }
        },
    }
}

/// A selection over hosts that are there moves the cursor on by one, and the one after the last
/// number is zero; a cursor that fits a machine word points where it says.
pub proof fn cursor_counts_selections(cursor: u64, n: nat)
    ensures
        n == 0 ==> cursor_after(cursor, n) == cursor,
        n > 0 ==> cursor_after(cursor, n) == (cursor + 1) % 0x1_0000_0000_0000_0000,
        cursor <= usize::MAX ==> start_of(cursor) == cursor,
        start_of(cursor) == cursor as usize,
{
}

/// A selection stays within a machine word exactly if the place where it ends does: the first
/// healthy host, or the last host that may be looked at.
pub proof fn selections_fit_up_to_their_end(hosts: Seq<BackendView>, start: usize, limit: int)
    requires
        limit <= hosts.len(),
    ensures
        rotation_fits(hosts, start, limit) <==> {
            ||| start + limit - 1 <= usize::MAX
            ||| exists|k: int|
                {
                    &&& 0 <= k < hosts.len()
                    &&& (#[trigger] hosts[k]).health == Health::Healthy
                    &&& (k - start) % (hosts.len() as int) < limit
                    &&& start + (k - start) % (hosts.len() as int) <= usize::MAX
                }
        },
{
    let n = hosts.len() as int;
    let s = start as int;
    nearest_healthy_host_is_picked(hosts, s, limit);
    selection_fails_only_without_healthy_hosts(hosts, s, limit);
    if limit > 0 {
        match picked(hosts, s, limit) {
            Some(i) => {
                let offset = choose|offset: int| is_first(hosts, s, limit, offset);
                a_turn_visits_every_host_once(s, i, n);
                assert(slot(s, offset, n) == i);
                turn_is_the_distance(s, i, n);
                assert(offset == (i - s) % n);
                assert(none_before(hosts, s, offset));
                assert forall|o: int| 0 <= o < limit && #[trigger] none_before(hosts, s, o) implies o
                    <= offset by {
                    assert(healthy_at(hosts, s, offset));
                }
                if start + offset <= usize::MAX {
                    assert(hosts[i].health == Health::Healthy);
                }
            },
            None => {
                let end = limit - 1;
                assert(none_before(hosts, s, end));
            },
        }
    }
}

/// As many hosts are looked at as may be, and at most all of them.
pub proof fn hosts_looked_at(max_skips: usize, n: nat)
    ensures
        looked_at(max_skips, n) <= max_skips,
        looked_at(max_skips, n) <= n,
        looked_at(max_skips, n) == max_skips || looked_at(max_skips, n) == n,
{
}

} // verus!
