//! The peers discovery has seen recently, and the endpoints they claimed.
use vstd::prelude::*;
use crate::domain::{
    DiscoveredPeer, Endpoint, EndpointView, KNOWN_PEER_MAX_ENDPOINTS, duplicate_endpoints,
    endpoint_views,
};
use crate::identity::{
    PeerId, bytes_less, lemma_bytes_less_irreflexive, lemma_bytes_less_total,
    lemma_bytes_less_transitive,
};
use crate::keyed::{has_key, keys_unique, lemma_lookup_characterized, lemma_lookup_index, lemma_put_at, lookup, put};

verus! {

/// How long a sighting stays worth reporting after it was last refreshed, in
/// milliseconds: fifteen minutes, three of mDNS's default query rounds, so a
/// peer still on the link never ages out while it is there.
pub const SIGHTING_RETENTION_MILLIS: u64 = 900_000;

/// The abstract value of one sighting: the endpoints claimed, oldest first,
/// and when the peer was last heard from.
pub struct SightingView {
    pub endpoints: Seq<EndpointView>,
    pub last_seen_millis: u64,
}

/// The abstract state of a [`SightingLedger`].
pub struct SightingLedgerView {
    /// Sightings held at most.
    pub max_peers: nat,
    /// How long a sighting is kept after it was last seen.
    pub retention_millis: u64,
    /// One entry per peer, in ascending order of identity.
    pub entries: Seq<(Seq<u8>, SightingView)>,
}

/// Whether a sighting last seen at `last` is still inside a window of
/// `retention` at `now`. A clock reading before `last` counts as no time.
pub open spec fn is_fresh(last: u64, now: u64, retention: u64) -> bool {
    (if now >= last {
        now - last
    } else {
        0int
    }) < retention
}

/// The entries still inside their window at `now`, in their order.
pub open spec fn live_entries(entries: Seq<(Seq<u8>, SightingView)>, now: u64, retention: u64) -> Seq<(Seq<u8>, SightingView)>
    decreases entries.len(),
{
    if entries.len() == 0 {
        entries
    } else {
        let earlier = live_entries(entries.drop_last(), now, retention);
        if is_fresh(entries.last().1.last_seen_millis, now, retention) {
            earlier.push(entries.last())
        } else {
            earlier
        }
    }
}

/// `held` followed by each endpoint of `incoming` it does not already hold,
/// in the order they arrive.
pub open spec fn add_new(held: Seq<EndpointView>, incoming: Seq<EndpointView>) -> Seq<EndpointView>
    decreases incoming.len(),
{
    if incoming.len() == 0 {
        held
    } else {
        let earlier = add_new(held, incoming.drop_last());
        if earlier.contains(incoming.last()) {
            earlier
        } else {
            earlier.push(incoming.last())
        }
    }
}

/// The newest [`KNOWN_PEER_MAX_ENDPOINTS`] endpoints of `endpoints`.
pub open spec fn newest(endpoints: Seq<EndpointView>) -> Seq<EndpointView> {
    if endpoints.len() > KNOWN_PEER_MAX_ENDPOINTS {
        endpoints.skip(endpoints.len() - KNOWN_PEER_MAX_ENDPOINTS)
    } else {
        endpoints
    }
}

/// The endpoints of a sighting after `incoming` is merged into `held`: the
/// new ones appended, then only the newest kept.
pub open spec fn merged(held: Seq<EndpointView>, incoming: Seq<EndpointView>) -> Seq<EndpointView> {
    newest(add_new(held, incoming))
}

/// Whether the keys ascend strictly.
pub open spec fn keys_ascending(entries: Seq<(Seq<u8>, SightingView)>) -> bool {
    forall|i: int, j: int|
        0 <= i < j < entries.len() ==> bytes_less(#[trigger] entries[i].0, #[trigger] entries[j].0)
}

/// Whether sighting `a` is staler than `b`: seen earlier, ties broken by
/// identity.
pub open spec fn staler(a: (Seq<u8>, SightingView), b: (Seq<u8>, SightingView)) -> bool {
    a.1.last_seen_millis < b.1.last_seen_millis || (a.1.last_seen_millis == b.1.last_seen_millis
        && bytes_less(a.0, b.0))
}

/// Whether entry `i` is staler than every other entry.
pub open spec fn is_stalest_at(entries: Seq<(Seq<u8>, SightingView)>, i: int) -> bool {
    &&& 0 <= i < entries.len()
    &&& forall|j: int| 0 <= j < entries.len() && j != i ==> staler(entries[i], #[trigger] entries[j])
}

/// The index of the stalest entry.
pub open spec fn stalest_index(entries: Seq<(Seq<u8>, SightingView)>) -> int {
    choose|i: int| is_stalest_at(entries, i)
}

/// Where `key` goes among `entries`: after every key less than it, before
/// every other.
pub open spec fn is_insertion_point(entries: Seq<(Seq<u8>, SightingView)>, key: Seq<u8>, k: int) -> bool {
    &&& 0 <= k <= entries.len()
    &&& forall|j: int| 0 <= j < k ==> bytes_less(#[trigger] entries[j].0, key)
    &&& forall|j: int| k <= j < entries.len() ==> !bytes_less(#[trigger] entries[j].0, key)
}

/// The insertion point of `key`.
pub open spec fn insertion_point(entries: Seq<(Seq<u8>, SightingView)>, key: Seq<u8>) -> int {
    choose|k: int| is_insertion_point(entries, key, k)
}

/// The state after `peer` is seen at `incoming` at `now`. What has aged out is
/// dropped first. A peer already held is refreshed: its endpoints merged, its
/// window restarted. Otherwise the stalest sighting makes room when the
/// ledger is full, and the peer is admitted in identity order, unless there is
/// still no room.
pub open spec fn record_step(v: SightingLedgerView, peer: Seq<u8>, incoming: Seq<EndpointView>, now: u64) -> SightingLedgerView {
    let live = live_entries(v.entries, now, v.retention_millis);
    match lookup(live, peer) {
        Some(held) => SightingLedgerView {
            entries: put(
                live,
                peer,
                SightingView { endpoints: merged(held.endpoints, incoming), last_seen_millis: now },
            ),
            ..v
        },
        None => {
            let roomy = if live.len() >= v.max_peers && live.len() > 0 {
                live.remove(stalest_index(live))
            } else {
                live
            };
            if roomy.len() >= v.max_peers {
                SightingLedgerView { entries: roomy, ..v }
            } else {
                SightingLedgerView {
                    entries: roomy.insert(
                        insertion_point(roomy, peer),
                        (
                            peer,
                            SightingView {
                                endpoints: merged(Seq::empty(), incoming),
                                last_seen_millis: now,
                            },
                        ),
                    ),
                    ..v
                }
            }
        },
    }
}

/// What recording `peer` at `now` leaves, beyond the exact state
/// [`record_step`] gives: no entry but the peer's own that was not a live
/// entry before (so none that had aged out), nothing at all under a bound of
/// zero, the peer held under any other bound, and, when live sightings filled
/// the ledger and the peer was not among them, exactly one of them gone: the
/// stalest, least recently seen with ties broken by identity.
pub open spec fn records_evicting_the_stalest(v: SightingLedgerView, peer: Seq<u8>, now: u64, after: SightingLedgerView) -> bool {
    let live = live_entries(v.entries, now, v.retention_millis);
    &&& forall|i: int|
        0 <= i < after.entries.len() && (#[trigger] after.entries[i]).0 != peer ==> live.contains(after.entries[i])
            && is_fresh(after.entries[i].1.last_seen_millis, now, v.retention_millis)
    &&& (v.max_peers == 0 ==> after.entries.len() == 0)
    &&& (v.max_peers > 0 ==> has_key(after.entries, peer))
    &&& (!has_key(live, peer) && live.len() == v.max_peers && v.max_peers > 0 ==> {
        let s = stalest_index(live);
        &&& is_stalest_at(live, s)
        &&& after.entries.len() == live.len()
        &&& forall|j: int| 0 <= j < after.entries.len() ==> (#[trigger] after.entries[j]).0 != live[s].0
        &&& forall|i: int| 0 <= i < live.len() && i != s ==> after.entries.contains(#[trigger] live[i])
    })
}

/// What the ledger keeps true: identities ascend, so none is held twice; no
/// more sightings than the bound; and each sighting's endpoints are distinct
/// and within the domain's cap.
pub open spec fn sighting_wf(v: SightingLedgerView) -> bool {
    &&& keys_ascending(v.entries)
    &&& v.entries.len() <= v.max_peers
    &&& forall|i: int|
        0 <= i < v.entries.len() ==> {
            let endpoints = (#[trigger] v.entries[i]).1.endpoints;
            &&& endpoints.no_duplicates()
            &&& endpoints.len() <= KNOWN_PEER_MAX_ENDPOINTS
        }
}

// ------------------------------------------------------------ lemmas

pub proof fn lemma_ascending_unique(entries: Seq<(Seq<u8>, SightingView)>)
    requires
        keys_ascending(entries),
    ensures
        keys_unique(entries),
{
    assert forall|i: int, j: int|
        0 <= i < entries.len() && 0 <= j < entries.len() && i != j implies #[trigger] entries[i].0
        != #[trigger] entries[j].0 by {
        if i < j {
            assert(bytes_less(entries[i].0, entries[j].0));
        } else {
            assert(bytes_less(entries[j].0, entries[i].0));
        }
        lemma_bytes_less_irreflexive(entries[i].0);
    }
}

/// Every live entry is an entry, each fresh, in their original order, and
/// there are no more of them.
pub proof fn lemma_live_entries(entries: Seq<(Seq<u8>, SightingView)>, now: u64, retention: u64)
    ensures
        live_entries(entries, now, retention).len() <= entries.len(),
        forall|i: int|
            0 <= i < live_entries(entries, now, retention).len() ==> is_fresh(
                (#[trigger] live_entries(entries, now, retention)[i]).1.last_seen_millis,
                now,
                retention,
            ),
        forall|i: int|
            0 <= i < live_entries(entries, now, retention).len() ==> exists|j: int|
                0 <= j < entries.len() && #[trigger] live_entries(entries, now, retention)[i]
                    == entries[j],
        keys_ascending(entries) ==> keys_ascending(live_entries(entries, now, retention)),
        forall|i: int|
            0 <= i < entries.len() && is_fresh(entries[i].1.last_seen_millis, now, retention)
                ==> live_entries(entries, now, retention).contains(#[trigger] entries[i]),
    decreases entries.len(),
{
    if entries.len() > 0 {
        let rest = entries.drop_last();
        lemma_live_entries(rest, now, retention);
        let earlier = live_entries(rest, now, retention);
        let live = live_entries(entries, now, retention);
        assert forall|i: int| 0 <= i < live.len() implies exists|j: int|
            0 <= j < entries.len() && #[trigger] live[i] == entries[j] by {
            if i < earlier.len() {
                let j = choose|j: int| 0 <= j < rest.len() && #[trigger] earlier[i] == rest[j];
                assert(live[i] == entries[j]);
            } else {
                assert(live[i] == entries[entries.len() - 1]);
            }
        }
        if keys_ascending(entries) {
            assert(keys_ascending(rest)) by {
                assert forall|i: int, j: int| 0 <= i < j < rest.len() implies bytes_less(
                    #[trigger] rest[i].0,
                    #[trigger] rest[j].0,
                ) by {
                    assert(rest[i] == entries[i] && rest[j] == entries[j]);
                }
            }
            assert forall|i: int, j: int| 0 <= i < j < live.len() implies bytes_less(
                #[trigger] live[i].0,
                #[trigger] live[j].0,
            ) by {
                if j < earlier.len() {
                } else {
                    let k = choose|k: int| 0 <= k < rest.len() && #[trigger] earlier[i] == rest[k];
                    assert(live[j] == entries[entries.len() - 1]);
                    assert(rest[k] == entries[k]);
                }
            }
        }
        assert forall|i: int|
            0 <= i < entries.len() && is_fresh(entries[i].1.last_seen_millis, now, retention)
                implies live.contains(#[trigger] entries[i]) by {
            if i < rest.len() {
                assert(rest[i] == entries[i]);
                assert(earlier.contains(rest[i]));
                let k = choose|k: int| 0 <= k < earlier.len() && earlier[k] == rest[i];
                assert(live[k] == earlier[k]);
            } else {
                assert(live[live.len() - 1] == entries[i]);
            }
        }
    }
}

/// Reading consumes nothing: dropping what has aged out by `earlier`, then
/// what has aged out by a later `now`, leaves exactly what a single read at
/// `now` would. In particular two reads at the same instant agree.
pub proof fn law_reading_consumes_nothing(
    entries: Seq<(Seq<u8>, SightingView)>,
    earlier: u64,
    now: u64,
    retention: u64,
)
    requires
        earlier <= now,
    ensures
        live_entries(live_entries(entries, earlier, retention), now, retention) == live_entries(
            entries,
            now,
            retention,
        ),
    decreases entries.len(),
{
    if entries.len() > 0 {
        let rest = entries.drop_last();
        law_reading_consumes_nothing(rest, earlier, now, retention);
        let last = entries.last();
        let first_pass = live_entries(entries, earlier, retention);
        if is_fresh(last.1.last_seen_millis, earlier, retention) {
            assert(first_pass.drop_last() =~= live_entries(rest, earlier, retention));
        } else {
            assert(!is_fresh(last.1.last_seen_millis, now, retention));
        }
    }
}

/// What a merge keeps true of a sighting's endpoints: distinct, and within
/// the domain's cap.
pub proof fn lemma_merged(held: Seq<EndpointView>, incoming: Seq<EndpointView>)
    requires
        held.no_duplicates(),
    ensures
        merged(held, incoming).no_duplicates(),
        merged(held, incoming).len() <= KNOWN_PEER_MAX_ENDPOINTS,
{
    lemma_add_new(held, incoming);
    let all = add_new(held, incoming);
    if all.len() > KNOWN_PEER_MAX_ENDPOINTS {
        let kept = all.skip(all.len() - KNOWN_PEER_MAX_ENDPOINTS);
        assert forall|a: int, b: int| 0 <= a < kept.len() && 0 <= b < kept.len() && a != b implies kept[a]
            != kept[b] by {
            let start = all.len() - KNOWN_PEER_MAX_ENDPOINTS;
            assert(kept[a] == all[a + start] && kept[b] == all[b + start]);
        }
    }
}

proof fn lemma_add_new(held: Seq<EndpointView>, incoming: Seq<EndpointView>)
    requires
        held.no_duplicates(),
    ensures
        add_new(held, incoming).no_duplicates(),
    decreases incoming.len(),
{
    if incoming.len() > 0 {
        lemma_add_new(held, incoming.drop_last());
        let earlier = add_new(held, incoming.drop_last());
        if !earlier.contains(incoming.last()) {
            let all = earlier.push(incoming.last());
            assert forall|a: int, b: int| 0 <= a < all.len() && 0 <= b < all.len() && a != b implies all[a]
                != all[b] by {
                if a < earlier.len() && b < earlier.len() {
                } else if a < earlier.len() {
                    assert(earlier.contains(earlier[a]));
                } else {
                    assert(earlier.contains(earlier[b]));
                }
            }
        }
    }
}

/// Staleness orders sightings with distinct identities strictly and totally.
pub proof fn lemma_staler(a: (Seq<u8>, SightingView), b: (Seq<u8>, SightingView), c: (Seq<u8>, SightingView))
    ensures
        !(staler(a, b) && staler(b, a)),
        a.0 != b.0 ==> staler(a, b) || staler(b, a),
        staler(a, b) && staler(b, c) ==> staler(a, c),
{
    lemma_bytes_less_total(a.0, b.0);
    if staler(a, b) && staler(b, c) && a.1.last_seen_millis == b.1.last_seen_millis
        && b.1.last_seen_millis == c.1.last_seen_millis {
        lemma_bytes_less_transitive(a.0, b.0, c.0);
    }
}

/// With distinct identities there is one stalest entry.
pub proof fn lemma_stalest_unique(entries: Seq<(Seq<u8>, SightingView)>, i: int)
    requires
        keys_unique(entries),
        is_stalest_at(entries, i),
    ensures
        stalest_index(entries) == i,
{
    let j = stalest_index(entries);
    assert(is_stalest_at(entries, j));
    if j != i {
        lemma_staler(entries[i], entries[j], entries[j]);
    }
}

/// The insertion point is the one index with every key before it less than
/// the key, and none after it.
pub proof fn lemma_insertion_point_unique(entries: Seq<(Seq<u8>, SightingView)>, key: Seq<u8>, k: int)
    requires
        is_insertion_point(entries, key, k),
    ensures
        insertion_point(entries, key) == k,
{
    let c = insertion_point(entries, key);
    assert(is_insertion_point(entries, key, c));
    if c < k {
        assert(bytes_less(entries[c].0, key));
    } else if k < c {
        assert(bytes_less(entries[k].0, key));
    }
}

/// One sighting: the endpoints claimed, oldest first, and when the peer was
/// last heard from.
struct Sighting {
    endpoints: Vec<Endpoint>,
    last_seen_millis: u64,
}

impl View for Sighting {
    type V = SightingView;

    closed spec fn view(&self) -> SightingView {
        SightingView { endpoints: endpoint_views(self.endpoints@), last_seen_millis: self.last_seen_millis }
    }
}

/// The peers discovery has seen recently, and what they said they answer at.
/// A sighting is kept for the retention window from the last time it was
/// seen, and reading never removes it; the bound refuses growth from a flood
/// by evicting the stalest sighting. Time is an argument, so the ledger is a
/// pure state machine, and what it reports is in identity order.
pub struct SightingLedger {
    max_peers: usize,
    retention_millis: u64,
    sightings: Vec<(PeerId, Sighting)>,
}

impl View for SightingLedger {
    type V = SightingLedgerView;

    closed spec fn view(&self) -> SightingLedgerView {
        SightingLedgerView {
            max_peers: self.max_peers as nat,
            retention_millis: self.retention_millis,
            entries: self.sightings@.map_values(|e: (PeerId, Sighting)| (e.0@, e.1@)),
        }
    }
}

/// The abstract value of a report: each peer's identity and endpoints.
pub open spec fn discovered_views(peers: Seq<DiscoveredPeer>) -> Seq<(Seq<u8>, Seq<EndpointView>)> {
    peers.map_values(|d: DiscoveredPeer| (d.peer@, endpoint_views(d.endpoints@)))
}

/// The sightings as a report.
pub open spec fn report_of(entries: Seq<(Seq<u8>, SightingView)>) -> Seq<(Seq<u8>, Seq<EndpointView>)> {
    entries.map_values(|e: (Seq<u8>, SightingView)| (e.0, e.1.endpoints))
}

fn contains_endpoint(list: &Vec<Endpoint>, endpoint: &Endpoint) -> (r: bool)
    ensures
        r == endpoint_views(list@).contains(endpoint@),
{
    let ghost views = endpoint_views(list@);
    let mut i: usize = 0;
    while i < list.len()
        invariant
            0 <= i <= list@.len(),
            views == endpoint_views(list@),
            forall|j: int| 0 <= j < i ==> views[j] != endpoint@,
        decreases list@.len() - i,
    {
        if list[i].same_as(endpoint) {
            assert(views[i as int] == endpoint@);
            return true;
        }
        i = i + 1;
    }
    false
}

/// `held` with the endpoints of `incoming` it lacks appended, keeping only
/// the newest [`KNOWN_PEER_MAX_ENDPOINTS`].
fn merge_endpoints(held: &[Endpoint], incoming: &[Endpoint]) -> (r: Vec<Endpoint>)
    ensures
        endpoint_views(r@) == merged(endpoint_views(held@), endpoint_views(incoming@)),
{
    let ghost held_views = endpoint_views(held@);
    let ghost incoming_views = endpoint_views(incoming@);
    let mut all = duplicate_endpoints(held);
    let mut i: usize = 0;
    while i < incoming.len()
        invariant
            0 <= i <= incoming@.len(),
            incoming_views == endpoint_views(incoming@),
            endpoint_views(all@) == add_new(held_views, incoming_views.take(i as int)),
        decreases incoming@.len() - i,
    {
        assert(incoming_views.take(i + 1).drop_last() =~= incoming_views.take(i as int));
        assert(incoming_views.take(i + 1).last() == incoming@[i as int]@);
        if !contains_endpoint(&all, &incoming[i]) {
            let ghost before = all@;
            all.push(incoming[i].duplicate());
            assert(endpoint_views(all@) =~= endpoint_views(before).push(incoming@[i as int]@));
        }
        i = i + 1;
    }
    assert(incoming_views.take(incoming@.len() as int) =~= incoming_views);
    if all.len() <= KNOWN_PEER_MAX_ENDPOINTS {
        return all;
    }
    let start = all.len() - KNOWN_PEER_MAX_ENDPOINTS;
    let ghost all_views = endpoint_views(all@);
    let mut kept: Vec<Endpoint> = Vec::new();
    let mut j: usize = start;
    while j < all.len()
        invariant
            start <= j <= all@.len(),
            all_views == endpoint_views(all@),
            endpoint_views(kept@) == all_views.subrange(start as int, j as int),
        decreases all@.len() - j,
    {
        let ghost before = kept@;
        kept.push(all[j].duplicate());
        assert(endpoint_views(kept@) =~= endpoint_views(before).push(all@[j as int]@));
        assert(all_views[j as int] == all@[j as int]@);
        assert(all_views.subrange(start as int, j + 1) =~= all_views.subrange(start as int, j as int).push(
            all_views[j as int],
        ));
        j = j + 1;
    }
    assert(all_views.subrange(start as int, all@.len() as int) =~= all_views.skip(start as int));
    kept
}

impl SightingLedger {
    #[verifier::type_invariant]
    closed spec fn inv(self) -> bool {
        sighting_wf(self@)
    }

    /// An empty ledger holding at most `max_peers` sightings, each for
    /// `retention_millis` after it was last seen.
    pub fn new(max_peers: usize, retention_millis: u64) -> (r: SightingLedger)
        ensures
            r@.max_peers == max_peers,
            r@.retention_millis == retention_millis,
            r@.entries.len() == 0,
            sighting_wf(r@),
    {
        let r = SightingLedger { max_peers, retention_millis, sightings: Vec::new() };
        assert(r@.entries =~= Seq::<(Seq<u8>, SightingView)>::empty());
        r
    }

    /// How many sightings are held, aged-out ones included.
    pub fn len(&self) -> (r: usize)
        ensures
            r == self@.entries.len(),
            sighting_wf(self@),
    {
        proof {
            use_type_invariant(self);
        }
        self.sightings.len()
    }

    /// Drops every sighting that has aged out by `now_millis`.
    fn expire(&mut self, now_millis: u64)
        ensures
            final(self)@ == (SightingLedgerView {
                entries: live_entries(old(self)@.entries, now_millis, old(self)@.retention_millis),
                ..old(self)@
            }),
    {
        proof {
            use_type_invariant(&*self);
        }
        let ghost v = self@;
        let retention = self.retention_millis;
        let mut kept: Vec<(PeerId, Sighting)> = Vec::new();
        let mut i: usize = 0;
        while i < self.sightings.len()
            invariant
                0 <= i <= self.sightings@.len(),
                v == self@,
                retention == v.retention_millis,
                kept@.map_values(|e: (PeerId, Sighting)| (e.0@, e.1@)) == live_entries(
                    v.entries.take(i as int),
                    now_millis,
                    retention,
                ),
            decreases self.sightings@.len() - i,
        {
            assert(v.entries.take(i + 1).drop_last() =~= v.entries.take(i as int));
            assert(v.entries.take(i + 1).last() == v.entries[i as int]);
            let last = self.sightings[i].1.last_seen_millis;
            let age = now_millis.saturating_sub(last);
            if age < retention {
                let ghost before = kept@;
                let peer = self.sightings[i].0;
                let endpoints = duplicate_endpoints(self.sightings[i].1.endpoints.as_slice());
                kept.push((peer, Sighting { endpoints, last_seen_millis: last }));
                assert(kept@.map_values(|e: (PeerId, Sighting)| (e.0@, e.1@)) =~= before.map_values(
                    |e: (PeerId, Sighting)| (e.0@, e.1@),
                ).push(v.entries[i as int]));
            }
            i = i + 1;
        }
        assert(v.entries.take(self.sightings@.len() as int) =~= v.entries);
        proof {
            lemma_live_entries(v.entries, now_millis, retention);
            let live = live_entries(v.entries, now_millis, retention);
            assert forall|k: int| 0 <= k < live.len() implies {
                let endpoints = (#[trigger] live[k]).1.endpoints;
                &&& endpoints.no_duplicates()
                &&& endpoints.len() <= KNOWN_PEER_MAX_ENDPOINTS
            } by {
                let j = choose|j: int| 0 <= j < v.entries.len() && #[trigger] live[k] == v.entries[j];
                assert(v.entries[j].1.endpoints.no_duplicates());
            }
        }
        self.sightings = kept;
    }

    fn index_of(&self, peer: &PeerId) -> (r: Option<usize>)
        ensures
            r matches Some(i) ==> i < self@.entries.len() && self@.entries[i as int].0 == peer@,
            r is None ==> forall|j: int| 0 <= j < self@.entries.len() ==> self@.entries[j].0 != peer@,
    {
        let ghost entries = self@.entries;
        let mut i: usize = 0;
        while i < self.sightings.len()
            invariant
                0 <= i <= self.sightings@.len(),
                entries == self@.entries,
                forall|j: int| 0 <= j < i ==> entries[j].0 != peer@,
            decreases self.sightings@.len() - i,
        {
            assert(entries[i as int].0 == self.sightings@[i as int].0@);
            if self.sightings[i].0.same_as(peer) {
                return Some(i);
            }
            i = i + 1;
        }
        None
    }

    /// The index of the stalest sighting.
    fn stalest(&self) -> (r: usize)
        requires
            self@.entries.len() > 0,
        ensures
            is_stalest_at(self@.entries, r as int),
    {
        proof {
            use_type_invariant(self);
            lemma_ascending_unique(self@.entries);
        }
        let ghost e = self@.entries;
        let mut best: usize = 0;
        let mut i: usize = 1;
        while i < self.sightings.len()
            invariant
                0 <= best < i <= self.sightings@.len(),
                e == self@.entries,
                keys_unique(e),
                forall|j: int| 0 <= j < i && j != best ==> staler(e[best as int], #[trigger] e[j]),
            decreases self.sightings@.len() - i,
        {
            assert(e[i as int] == (self.sightings@[i as int].0@, self.sightings@[i as int].1@));
            assert(e[best as int] == (self.sightings@[best as int].0@, self.sightings@[best as int].1@));
            let last_i = self.sightings[i].1.last_seen_millis;
            let last_best = self.sightings[best].1.last_seen_millis;
            let fresher_loses = last_i < last_best || (last_i == last_best
                && self.sightings[i].0.precedes(&self.sightings[best].0));
            proof {
                assert(e[i as int].0 != e[best as int].0);
                lemma_staler(e[i as int], e[best as int], e[best as int]);
                assert forall|j: int| 0 <= j < i && j != best implies staler(
                    e[i as int],
                    #[trigger] e[j],
                ) || !fresher_loses by {
                    lemma_staler(e[i as int], e[best as int], e[j]);
                }
            }
            if fresher_loses {
                best = i;
            }
            i = i + 1;
        }
        best
    }

    /// Where `peer` goes among the sightings, in identity order.
    fn insertion_index(&self, peer: &PeerId) -> (r: usize)
        ensures
            is_insertion_point(self@.entries, peer@, r as int),
    {
        proof {
            use_type_invariant(self);
        }
        let ghost e = self@.entries;
        let mut k: usize = 0;
        while k < self.sightings.len()
            invariant
                0 <= k <= self.sightings@.len(),
                e == self@.entries,
                keys_ascending(e),
                forall|j: int| 0 <= j < k ==> bytes_less(#[trigger] e[j].0, peer@),
            decreases self.sightings@.len() - k,
        {
            assert(e[k as int].0 == self.sightings@[k as int].0@);
            if !self.sightings[k].0.precedes(peer) {
                proof {
                    assert forall|j: int| k <= j < e.len() implies !bytes_less(#[trigger] e[j].0, peer@) by {
                        if j > k && bytes_less(e[j].0, peer@) {
                            lemma_bytes_less_transitive(e[k as int].0, e[j].0, peer@);
                        }
                    }
                }
                return k;
            }
            k = k + 1;
        }
        k
    }

    /// Records that `peer` was seen at `endpoints` at `now_millis`. A peer
    /// already held is refreshed rather than duplicated: its endpoints merged
    /// and its window restarted. A new peer is admitted, evicting the stalest
    /// sighting first if the ledger is full.
    #[verifier::spinoff_prover]
    #[verifier::rlimit(80)]
    pub fn record(&mut self, peer: PeerId, endpoints: &[Endpoint], now_millis: u64)
        ensures
            final(self)@ == record_step(old(self)@, peer@, endpoint_views(endpoints@), now_millis),
            sighting_wf(final(self)@),
            records_evicting_the_stalest(old(self)@, peer@, now_millis, final(self)@),
    {
        proof {
            use_type_invariant(&*self);
            lemma_live_entries(self@.entries, now_millis, self@.retention_millis);
        }
        self.expire(now_millis);
        proof {
            use_type_invariant(&*self);
            lemma_ascending_unique(self@.entries);
        }
        let ghost live = self@.entries;
        let ghost incoming = endpoint_views(endpoints@);
        match self.index_of(&peer) {
            Some(i) => {
                proof {
                    lemma_lookup_index(live, i as int);
                }
                let merged_endpoints = merge_endpoints(self.sightings[i].1.endpoints.as_slice(), endpoints);
                let ghost fresh = SightingView {
                    endpoints: merged(live[i as int].1.endpoints, incoming),
                    last_seen_millis: now_millis,
                };
                proof {
                    lemma_merged(live[i as int].1.endpoints, incoming);
                    lemma_put_at(live, i as int, fresh);
                }
                let mut sightings: Vec<(PeerId, Sighting)> = Vec::new();
                std::mem::swap(&mut sightings, &mut self.sightings);
                let ghost before = sightings@;
                sightings.set(i, (peer, Sighting { endpoints: merged_endpoints, last_seen_millis: now_millis }));
                proof {
                    let next = sightings@.map_values(|e: (PeerId, Sighting)| (e.0@, e.1@));
                    assert(next =~= live.update(i as int, (peer@, fresh)));
                    assert forall|a: int, b: int| 0 <= a < b < next.len() implies bytes_less(
                        #[trigger] next[a].0,
                        #[trigger] next[b].0,
                    ) by {
                        assert(next[a].0 == live[a].0 && next[b].0 == live[b].0);
                    }
                    assert forall|a: int| 0 <= a < next.len() implies {
                        let endpoints = (#[trigger] next[a]).1.endpoints;
                        &&& endpoints.no_duplicates()
                        &&& endpoints.len() <= KNOWN_PEER_MAX_ENDPOINTS
                    } by {
                        if a != i {
                            assert(next[a] == live[a]);
                        }
                    }
                    assert forall|a: int| 0 <= a < next.len() && (#[trigger] next[a]).0 != peer@ implies live.contains(
                        next[a],
                    ) && is_fresh(next[a].1.last_seen_millis, now_millis, self@.retention_millis) by {
                        assert(next[a] == live[a]);
                    }
                    assert(next[i as int].0 == peer@);
                }
                self.sightings = sightings;
            },
            None => {
                proof {
                    lemma_lookup_characterized(live, peer@);
                }
                let ghost mut evicted: int = -1;
                if self.sightings.len() >= self.max_peers && self.sightings.len() > 0 {
                    let s = self.stalest();
                    proof {
                        evicted = s as int;
                    }
                    proof {
                        lemma_stalest_unique(live, s as int);
                    }
                    let mut sightings: Vec<(PeerId, Sighting)> = Vec::new();
                    std::mem::swap(&mut sightings, &mut self.sightings);
                    let ghost before = sightings@;
                    sightings.remove(s);
                    proof {
                        let next = sightings@.map_values(|e: (PeerId, Sighting)| (e.0@, e.1@));
                        assert(next =~= live.remove(s as int));
                        assert forall|a: int, b: int| 0 <= a < b < next.len() implies bytes_less(
                            #[trigger] next[a].0,
                            #[trigger] next[b].0,
                        ) by {
                            let x = if a < s { a } else { a + 1 };
                            let y = if b < s { b } else { b + 1 };
                            assert(next[a] == live[x] && next[b] == live[y]);
                        }
                        assert forall|a: int| 0 <= a < next.len() implies {
                            let endpoints = (#[trigger] next[a]).1.endpoints;
                            &&& endpoints.no_duplicates()
                            &&& endpoints.len() <= KNOWN_PEER_MAX_ENDPOINTS
                        } by {
                            let x = if a < s { a } else { a + 1 };
                            assert(next[a] == live[x]);
                        }
                    }
                    self.sightings = sightings;
                }
                let ghost roomy = self@.entries;
                assert(roomy == if live.len() >= self@.max_peers && live.len() > 0 {
                    live.remove(stalest_index(live))
                } else {
                    live
                });
                if self.sightings.len() >= self.max_peers {
                    proof {
                        assert(roomy.len() == 0);
                    }
                    return;
                }
                let k = self.insertion_index(&peer);
                proof {
                    lemma_insertion_point_unique(roomy, peer@, k as int);
                }
                let none: Vec<Endpoint> = Vec::new();
                let kept = merge_endpoints(none.as_slice(), endpoints);
                let ghost fresh = SightingView {
                    endpoints: merged(Seq::empty(), incoming),
                    last_seen_millis: now_millis,
                };
                proof {
                    assert(endpoint_views(none@) =~= Seq::<EndpointView>::empty());
                    lemma_merged(Seq::empty(), incoming);
                }
                let mut sightings: Vec<(PeerId, Sighting)> = Vec::new();
                std::mem::swap(&mut sightings, &mut self.sightings);
                sightings.insert(k, (peer, Sighting { endpoints: kept, last_seen_millis: now_millis }));
                proof {
                    let next = sightings@.map_values(|e: (PeerId, Sighting)| (e.0@, e.1@));
                    assert(next =~= roomy.insert(k as int, (peer@, fresh)));
                    assert forall|a: int| 0 <= a < roomy.len() implies #[trigger] roomy[a].0 != peer@ by {
                        if roomy.len() < live.len() {
                            let x = if a < stalest_index(live) { a } else { a + 1 };
                            assert(roomy[a] == live[x]);
                        }
                    }
                    assert forall|a: int, b: int| 0 <= a < b < next.len() implies bytes_less(
                        #[trigger] next[a].0,
                        #[trigger] next[b].0,
                    ) by {
                        if b < k {
                            assert(next[a] == roomy[a] && next[b] == roomy[b]);
                        } else if b == k {
                            assert(next[a] == roomy[a]);
                        } else if a < k {
                            assert(next[a] == roomy[a] && next[b] == roomy[b - 1]);
                            lemma_bytes_less_total(roomy[b - 1].0, peer@);
                            lemma_bytes_less_transitive(roomy[a].0, peer@, roomy[b - 1].0);
                        } else if a == k {
                            assert(next[b] == roomy[b - 1]);
                            lemma_bytes_less_total(roomy[b - 1].0, peer@);
                        } else {
                            assert(next[a] == roomy[a - 1] && next[b] == roomy[b - 1]);
                        }
                    }
                    assert forall|a: int| 0 <= a < next.len() implies {
                        let endpoints = (#[trigger] next[a]).1.endpoints;
                        &&& endpoints.no_duplicates()
                        &&& endpoints.len() <= KNOWN_PEER_MAX_ENDPOINTS
                    } by {
                        if a < k {
                            assert(next[a] == roomy[a]);
                        } else if a > k {
                            assert(next[a] == roomy[a - 1]);
                        }
                    }
                    // Every entry but the new one is a live entry from before.
                    assert forall|a: int| 0 <= a < next.len() && (#[trigger] next[a]).0 != peer@ implies live.contains(
                        next[a],
                    ) && is_fresh(next[a].1.last_seen_millis, now_millis, self@.retention_millis) by {
                        let b = if a < k { a } else { a - 1 };
                        assert(next[a] == roomy[b]);
                        let x = if evicted >= 0 && b >= evicted { b + 1 } else { b };
                        assert(roomy[b] == live[x]);
                    }
                    assert(next[k as int].0 == peer@);
                    if evicted >= 0 {
                        assert forall|j: int| 0 <= j < next.len() implies (#[trigger] next[j]).0 != live[evicted].0 by {
                            if j != k {
                                let b = if j < k { j } else { j - 1 };
                                let x = if b >= evicted { b + 1 } else { b };
                                assert(next[j] == roomy[b] && roomy[b] == live[x]);
                            }
                        }
                        assert forall|i: int| 0 <= i < live.len() && i != evicted implies next.contains(#[trigger] live[i]) by {
                            let b = if i < evicted { i } else { i - 1 };
                            assert(roomy[b] == live[i]);
                            let j = if b < k { b } else { b + 1 };
                            assert(next[j] == roomy[b]);
                        }
                    }
                }
                self.sightings = sightings;
            },
        }
    }

    /// Every sighting still inside its window at `now_millis`, in identity
    /// order. Reading removes nothing a later read would report: it only drops
    /// what has aged out, so a ledger nobody feeds still does not grow.
    pub fn observed(&mut self, now_millis: u64) -> (r: Vec<DiscoveredPeer>)
        ensures
            final(self)@ == (SightingLedgerView {
                entries: live_entries(old(self)@.entries, now_millis, old(self)@.retention_millis),
                ..old(self)@
            }),
            discovered_views(r@) == report_of(final(self)@.entries),
            sighting_wf(final(self)@),
    {
        self.expire(now_millis);
        proof {
            use_type_invariant(&*self);
        }
        let ghost e = self@.entries;
        let mut out: Vec<DiscoveredPeer> = Vec::new();
        let mut i: usize = 0;
        while i < self.sightings.len()
            invariant
                0 <= i <= self.sightings@.len(),
                e == self@.entries,
                discovered_views(out@) == report_of(e.take(i as int)),
            decreases self.sightings@.len() - i,
        {
            let ghost before = out@;
            let peer = self.sightings[i].0;
            let endpoints = duplicate_endpoints(self.sightings[i].1.endpoints.as_slice());
            out.push(DiscoveredPeer { peer, endpoints });
            assert(e[i as int] == (self.sightings@[i as int].0@, self.sightings@[i as int].1@));
            assert(discovered_views(out@) =~= discovered_views(before).push((e[i as int].0, e[i as int].1.endpoints)));
            assert(report_of(e.take(i + 1)) =~= report_of(e.take(i as int)).push((e[i as int].0, e[i as int].1.endpoints)));
            i = i + 1;
        }
        assert(e.take(self.sightings@.len() as int) =~= e);
        out
    }
}

// ------------------------------------------------------------ merge laws

/// What `add_new` holds: the held endpoints first, as they were; after them
/// only endpoints that arrived and were not held; and every arrival.
pub proof fn lemma_add_new_shape(held: Seq<EndpointView>, incoming: Seq<EndpointView>)
    ensures
        add_new(held, incoming).len() >= held.len(),
        add_new(held, incoming).take(held.len() as int) == held,
        forall|j: int|
            held.len() <= j < add_new(held, incoming).len() ==> incoming.contains(#[trigger] add_new(held, incoming)[j])
                && !held.contains(add_new(held, incoming)[j]),
        forall|x: EndpointView| incoming.contains(x) ==> #[trigger] add_new(held, incoming).contains(x),
    decreases incoming.len(),
{
    broadcast use vstd::seq_lib::lemma_seq_contains_after_push;
    if incoming.len() > 0 {
        let rest = incoming.drop_last();
        lemma_add_new_shape(held, rest);
        let earlier = add_new(held, rest);
        let all = add_new(held, incoming);
        assert(all.take(held.len() as int) =~= earlier.take(held.len() as int));
        assert forall|j: int| held.len() <= j < all.len() implies incoming.contains(#[trigger] all[j]) && !held.contains(
            all[j],
        ) by {
            if j < earlier.len() {
                assert(all[j] == earlier[j]);
                assert(rest.contains(earlier[j]));
                let k = choose|k: int| 0 <= k < rest.len() && rest[k] == earlier[j];
                assert(incoming[k] == rest[k]);
            } else {
                assert(all[j] == incoming.last());
                assert(incoming[incoming.len() - 1] == incoming.last());
                if held.contains(all[j]) {
                    let k = choose|k: int| 0 <= k < held.len() && held[k] == all[j];
                    assert(earlier[k] == held[k]);
                }
            }
        }
        assert forall|x: EndpointView| incoming.contains(x) implies #[trigger] all.contains(x) by {
            let k = choose|k: int| 0 <= k < incoming.len() && incoming[k] == x;
            if k < rest.len() {
                assert(rest[k] == x);
                assert(earlier.contains(x));
            }
        }
    } else {
        assert(held.take(held.len() as int) =~= held);
    }
}

/// A merge keeps the newest endpoints: the held endpoints, then each arrival
/// not already held, of which only the last
/// [`KNOWN_PEER_MAX_ENDPOINTS`] are kept, so every endpoint kept arrived
/// after every endpoint dropped.
pub proof fn law_merge_keeps_the_newest(held: Seq<EndpointView>, incoming: Seq<EndpointView>)
    ensures
        ({
            let all = add_new(held, incoming);
            let kept = merged(held, incoming);
            &&& kept.len() == if all.len() > KNOWN_PEER_MAX_ENDPOINTS {
                KNOWN_PEER_MAX_ENDPOINTS as nat
            } else {
                all.len()
            }
            &&& kept == all.subrange(all.len() - kept.len(), all.len() as int)
            &&& all.take(held.len() as int) == held
            &&& forall|j: int| held.len() <= j < all.len() ==> incoming.contains(#[trigger] all[j])
            &&& forall|x: EndpointView| incoming.contains(x) ==> #[trigger] all.contains(x)
        }),
{
    lemma_add_new_shape(held, incoming);
    let all = add_new(held, incoming);
    assert(merged(held, incoming) =~= all.subrange(all.len() - merged(held, incoming).len(), all.len() as int));
}

} // verus!
