//! The decisions of the network's event loop, as a state machine: a swarm
//! event or a command goes in, the next state and what to do come out. The
//! loop that polls the swarm and performs the actions lives with the swarm.
use vstd::prelude::*;
use crate::address::{Address, AddressView, multiaddr_reading};
use crate::codec_diagnostics::{CodecDiagnostics, DiagnosticsView, SharedCounters, bumped};
use crate::domain::{DiscoveredPeer, Endpoint, EndpointView, Envelope, EnvelopeSignature, ProtocolVersion, endpoint_views};
use crate::endpoint_mapping::{EndpointMapping, EndpointMappingError, endpoint_of};
use crate::envelope_codec::{EnvelopeCodec, decode_refusal, diagnostics_after_decode, envelope_from_record, frame_entries};
use crate::external_address_ledger::{
    ExternalAddressLedger, ExternalAddressLedgerView, Promotion, PromotionView, globally_dialable,
    is_globally_dialable, observe_step,
};
use crate::identity::{NetPeer, NetPeerView, PeerId};
use crate::keyed::{has_key, is_first_index, lemma_first_index, lemma_no_first_index, lookup, remove_first, set_first};
use crate::inbound_rate_limiter::{InboundRateLimiter, LimiterView, admission, admits, forgetting};
use crate::link_registry::{ConnectionId, LinkRegistry, LinkRegistryView};
use crate::network::{NetworkEvent, NetworkStartError};
use crate::peer_id_mapping::{PeerIdMapping, peer_from_libp2p};
use crate::reachability_ledger::{
    ProbeOutcome, ProbeResult, ReachabilityLedger, ReachabilityLedgerView, ReachabilityView,
    outcome_of, record_step, verdict,
};
use crate::resource_limits::ResourceLimits;
use crate::sighting_ledger::{SIGHTING_RETENTION_MILLIS, SightingLedger, SightingLedgerView, discovered_views, law_reading_consumes_nothing, live_entries, report_of};

verus! {

// ------------------------------------------------------------ port errors

/// Why a listen, dial or close request failed.
#[derive(Debug, Clone, Copy, PartialEq, Eq, Structural)]
pub enum PeerTransportError {
    /// No listener could be started.
    ListenFailed,
    /// The network is not running, or the request could not be made.
    Unavailable,
    /// None of the endpoints could be dialled.
    NoReachableEndpoint,
    /// The connection opened but the peer was not who it should have been.
    HandshakeFailed,
    /// There is no session with that peer.
    NoSuchSession,
}

/// Why an announcement, an observation or a ticket redemption failed.
#[derive(Debug, Clone, Copy, PartialEq, Eq, Structural)]
pub enum PeerDiscoveryError {
    /// The network is not running.
    Unavailable,
    /// The ticket's issuer could not be reached.
    TicketUnreachable,
    /// An endpoint to announce is not an address.
    AnnouncementRejected,
}

/// What the broadcast topic made of one publication.
#[derive(Debug, Clone, Copy, PartialEq, Eq, Structural)]
pub enum PublishOutcome {
    /// Handed to at least one subscribed peer.
    Propagated,
    /// Accepted, with no peer subscribed to hear it.
    NoSubscribers,
    /// Accepted as a message already published, so handed to nobody new.
    Duplicate,
    /// Refused for any other reason.
    Failed,
}

/// Why a message could not be handed to the network.
#[derive(Debug, Clone, Copy, PartialEq, Eq, Structural)]
pub enum MessageTransportError {
    /// There is no session with the peer and no address to reach it at.
    PeerUnreachable,
    /// The network is not running, or the frame is over the cap.
    Unavailable,
}

// ------------------------------------------------------------ the state

/// The abstract state of the event loop's decisions.
pub struct DriverView {
    pub local: PeerId,
    pub local_net: NetPeerView,
    pub limits: ResourceLimits,
    pub supported: ProtocolVersion,
    pub codec_limits: ResourceLimits,
    /// What the driver has counted.
    pub diagnostics: DiagnosticsView,
    /// The shared counters it counts into, which every clone of its
    /// diagnostics reads.
    pub counters: SharedCounters,
    pub limiter: LimiterView,
    pub links: LinkRegistryView,
    pub external: ExternalAddressLedgerView,
    pub reachability: ReachabilityLedgerView,
    /// The peer whose identify exchange produced the swarm's next external
    /// address candidate, for that event only.
    pub observer: Option<NetPeerView>,
    /// Addresses listened on, each once.
    pub listening: Seq<AddressView>,
    /// Addresses announced or confirmed as external, each once.
    pub announced: Seq<AddressView>,
    /// Every address each peer has been seen at, each once.
    pub known: Seq<(NetPeerView, Seq<AddressView>)>,
    /// The peers discovery has seen recently, and the endpoints they claimed.
    pub sightings: SightingLedgerView,
    /// Direct messages awaiting an answer, by request number.
    pub outbound: Seq<(u64, (PeerId, EnvelopeSignature))>,
}

/// The counters after a dial-back probe reported `result`: one more probe
/// run, and one more success or failure.
pub open spec fn probe_counted(d: DiagnosticsView, result: ProbeResult) -> DiagnosticsView {
    let counted = DiagnosticsView { probes_run: bumped(d.probes_run, 1), ..d };
    match result {
        ProbeResult::Succeeded => DiagnosticsView { probes_succeeded: bumped(counted.probes_succeeded, 1), ..counted },
        ProbeResult::Failed => DiagnosticsView { probes_failed: bumped(counted.probes_failed, 1), ..counted },
    }
}

/// The counters after a publication came to `outcome`: an accepted one is
/// counted as propagated or as reaching nobody, a refused one as neither.
pub open spec fn publish_counted(d: DiagnosticsView, outcome: PublishOutcome) -> DiagnosticsView {
    match outcome {
        PublishOutcome::Propagated => DiagnosticsView {
            broadcasts_propagated: bumped(d.broadcasts_propagated, 1),
            ..d
        },
        PublishOutcome::NoSubscribers | PublishOutcome::Duplicate => DiagnosticsView {
            broadcasts_reaching_nobody: bumped(d.broadcasts_reaching_nobody, 1),
            ..d
        },
        PublishOutcome::Failed => d,
    }
}

/// Every probe is counted exactly once: while the counters are short of
/// their limit, the probes run stay the successes plus the failures.
pub proof fn law_probe_totals_agree(d: DiagnosticsView, result: ProbeResult)
    requires
        d.probes_run == d.probes_succeeded + d.probes_failed,
        d.probes_run < u64::MAX,
    ensures
        probe_counted(d, result).probes_run == probe_counted(d, result).probes_succeeded + probe_counted(
            d,
            result,
        ).probes_failed,
{
}

/// Every accepted broadcast lands in exactly one of the two publishing
/// counters, and a refused one in neither.
pub proof fn law_every_broadcast_counted_once(d: DiagnosticsView, outcome: PublishOutcome)
    requires
        d.broadcasts_propagated < u64::MAX,
        d.broadcasts_reaching_nobody < u64::MAX,
    ensures
        outcome != PublishOutcome::Failed ==> publish_counted(d, outcome).broadcasts_propagated + publish_counted(
            d,
            outcome,
        ).broadcasts_reaching_nobody == d.broadcasts_propagated + d.broadcasts_reaching_nobody + 1,
        outcome == PublishOutcome::Failed ==> publish_counted(d, outcome) == d,
{
}

/// The counters after the swarm reported a candidate external address that
/// the ledger, when the observer was known, judged with `verdict`: one more
/// seen, and one more recorded or promoted as the ledger decided.
pub open spec fn candidate_counted(d: DiagnosticsView, verdict: Option<PromotionView>) -> DiagnosticsView {
    let seen = DiagnosticsView { external_candidates_seen: bumped(d.external_candidates_seen, 1), ..d };
    match verdict {
        Some(PromotionView::Recorded { .. }) => DiagnosticsView {
            external_candidates_recorded: bumped(seen.external_candidates_recorded, 1),
            ..seen
        },
        Some(PromotionView::Promote(_)) => DiagnosticsView {
            external_addresses_promoted: bumped(seen.external_addresses_promoted, 1),
            ..seen
        },
        _ => seen,
    }
}

/// Every candidate is counted as seen, and at most once more as recorded or
/// promoted: the candidates seen are never fewer than those recorded and
/// promoted together.
pub proof fn law_seen_candidates_bound_the_judged(d: DiagnosticsView, verdict: Option<PromotionView>)
    requires
        d.external_candidates_recorded + d.external_addresses_promoted <= d.external_candidates_seen,
        d.external_candidates_seen < u64::MAX,
    ensures
        ({
            let after = candidate_counted(d, verdict);
            &&& after.external_candidates_seen == d.external_candidates_seen + 1
            &&& after.external_candidates_recorded + after.external_addresses_promoted
                <= after.external_candidates_seen
        }),
{
}

/// The state after discovery's sightings are read at `now`: only those that
/// have aged out are dropped.
pub open spec fn peers_observed(v: DriverView, now: u64) -> DriverView {
    DriverView {
        sightings: SightingLedgerView {
            entries: live_entries(v.sightings.entries, now, v.sightings.retention_millis),
            ..v.sightings
        },
        ..v
    }
}

/// Observing peers consumes nothing: a read at `first` followed by one at a
/// `later` instant leaves the state a single read at `later` would, and
/// reads at one instant, however many, leave the state, and so answer,
/// exactly as the first did.
pub proof fn law_observing_consumes_nothing(v: DriverView, first: u64, later: u64)
    requires
        first <= later,
    ensures
        peers_observed(peers_observed(v, first), later) == peers_observed(v, later),
        peers_observed(peers_observed(v, first), first) == peers_observed(v, first),
        report_of(peers_observed(peers_observed(v, first), first).sightings.entries) == report_of(
            peers_observed(v, first).sightings.entries,
        ),
{
    law_reading_consumes_nothing(v.sightings.entries, first, later, v.sightings.retention_millis);
    law_reading_consumes_nothing(v.sightings.entries, first, first, v.sightings.retention_millis);
}

/// A swarm event, as far as attributing a candidate external address goes.
pub enum AttributionEvent {
    /// An identify exchange with this peer completed.
    Identified(NetPeerView),
    /// The swarm reported a candidate external address.
    Candidate,
    /// Anything else.
    Other,
}

/// The observer the driver holds after handling `e` with `o` held before:
/// every event but a candidate closes the window ([`NetworkDriverCore::next_event`]),
/// an identify exchange then opens it for the peer it names
/// ([`NetworkDriverCore::identify_received`]), and a candidate leaves it as
/// it was ([`NetworkDriverCore::external_address_candidate`]).
pub open spec fn observer_after(o: Option<NetPeerView>, e: AttributionEvent) -> Option<NetPeerView> {
    match e {
        AttributionEvent::Identified(p) => Some(p),
        AttributionEvent::Candidate => o,
        AttributionEvent::Other => None,
    }
}

/// The observer held after handling `events` in order, from `o`.
pub open spec fn observer_after_all(o: Option<NetPeerView>, events: Seq<AttributionEvent>) -> Option<NetPeerView>
    decreases events.len(),
{
    if events.len() == 0 {
        o
    } else {
        observer_after(observer_after_all(o, events.drop_last()), events.last())
    }
}

/// Whether event `k` is an identify exchange with `p` followed by nothing
/// but candidates.
pub open spec fn opens_window(events: Seq<AttributionEvent>, k: int, p: NetPeerView) -> bool {
    &&& 0 <= k < events.len()
    &&& events[k] == AttributionEvent::Identified(p)
    &&& forall|j: int| k < j < events.len() ==> (#[trigger] events[j]) is Candidate
}

proof fn lemma_window_found(events: Seq<AttributionEvent>, p: NetPeerView)
    requires
        observer_after_all(None, events) == Some(p),
    ensures
        exists|k: int| opens_window(events, k, p),
    decreases events.len(),
{
    let n = events.len() - 1;
    if events[n] == AttributionEvent::Identified(p) {
        assert(opens_window(events, n, p));
    } else {
        let rest = events.drop_last();
        assert(events[n] is Candidate);
        lemma_window_found(rest, p);
        let k = choose|k: int| opens_window(rest, k, p);
        assert forall|j: int| k < j < events.len() implies (#[trigger] events[j]) is Candidate by {
            if j < n {
                assert(events[j] == rest[j]);
            }
        }
        assert(opens_window(events, k, p));
    }
}

proof fn lemma_window_held(events: Seq<AttributionEvent>, k: int, p: NetPeerView)
    requires
        opens_window(events, k, p),
    ensures
        observer_after_all(None, events) == Some(p),
    decreases events.len(),
{
    let n = events.len() - 1;
    if k < n {
        let rest = events.drop_last();
        assert(events[n] is Candidate);
        assert(rest[k] == events[k]);
        assert forall|j: int| k < j < rest.len() implies (#[trigger] rest[j]) is Candidate by {
            assert(rest[j] == events[j]);
        }
        lemma_window_held(rest, k, p);
    }
}

/// The attribution window: from a driver holding no observer (as a new one
/// does), a candidate is put to the ledger as seen by `p` exactly when some
/// identify exchange with `p` was followed by nothing but candidates; any
/// other event in between, or no identify exchange at all, leaves the next
/// candidate unattributed.
pub proof fn law_candidates_are_attributed_only_right_after_identify(events: Seq<AttributionEvent>, p: NetPeerView)
    ensures
        observer_after_all(None, events) == Some(p) <==> exists|k: int| opens_window(events, k, p),
{
    if observer_after_all(None, events) == Some(p) {
        lemma_window_found(events, p);
    }
    if exists|k: int| opens_window(events, k, p) {
        let k = choose|k: int| opens_window(events, k, p);
        lemma_window_held(events, k, p);
    }
}

/// The event loop's state: the ledgers and the codec it decides with, and
/// the bookkeeping the swarm does not keep.
pub struct NetworkDriverCore {
    local: PeerId,
    local_net: NetPeer,
    limits: ResourceLimits,
    codec: EnvelopeCodec,
    rate_limiter: InboundRateLimiter,
    links: LinkRegistry,
    external_addresses: ExternalAddressLedger,
    reachability: ReachabilityLedger,
    candidate_observer: Option<NetPeer>,
    listening: Vec<Address>,
    announced: Vec<Address>,
    known_addresses: Vec<(NetPeer, Vec<Address>)>,
    sightings: SightingLedger,
    outbound_direct: Vec<(u64, PeerId, EnvelopeSignature)>,
}

/// The abstract value of a list of addresses.
pub open spec fn address_views(addresses: Seq<Address>) -> Seq<AddressView> {
    addresses.map_values(|a: Address| a@)
}

impl View for NetworkDriverCore {
    type V = DriverView;

    closed spec fn view(&self) -> DriverView {
        DriverView {
            local: self.local,
            local_net: self.local_net@,
            limits: self.limits,
            supported: self.codec.spec_supported(),
            codec_limits: self.codec.spec_limits(),
            diagnostics: self.codec.spec_diagnostics(),
            counters: self.codec.spec_counters(),
            limiter: self.rate_limiter@,
            links: self.links@,
            external: self.external_addresses@,
            reachability: self.reachability@,
            observer: match self.candidate_observer {
                Some(p) => Some(p@),
                None => None,
            },
            listening: address_views(self.listening@),
            announced: address_views(self.announced@),
            known: self.known_addresses@.map_values(|e: (NetPeer, Vec<Address>)| (e.0@, address_views(e.1@))),
            sightings: self.sightings@,
            outbound: self.outbound_direct@.map_values(|e: (u64, PeerId, EnvelopeSignature)| (e.0, (e.1, e.2))),
        }
    }
}

/// `held` with each of `incoming` it lacks appended, in order.
pub open spec fn append_missing<T>(held: Seq<T>, incoming: Seq<T>) -> Seq<T>
    decreases incoming.len(),
{
    if incoming.len() == 0 {
        held
    } else {
        let earlier = append_missing(held, incoming.drop_last());
        if earlier.contains(incoming.last()) {
            earlier
        } else {
            earlier.push(incoming.last())
        }
    }
}

/// The endpoints the addresses that map to one become, in order.
pub open spec fn mapped_endpoints(addresses: Seq<AddressView>) -> Seq<EndpointView>
    decreases addresses.len(),
{
    if addresses.len() == 0 {
        Seq::empty()
    } else {
        let earlier = mapped_endpoints(addresses.drop_last());
        match endpoint_of(addresses.last()) {
            Ok(endpoint) => earlier.push(endpoint),
            Err(_) => earlier,
        }
    }
}

/// Those endpoints, each once.
pub open spec fn distinct_endpoints(addresses: Seq<AddressView>) -> Seq<EndpointView> {
    append_missing(Seq::empty(), mapped_endpoints(addresses))
}

/// The endpoint event for a listener or a confirmed external address, when
/// the address maps to an endpoint.
pub open spec fn endpoint_event_is(r: Option<NetworkEvent>, address: AddressView, confirmed: bool) -> bool {
    match endpoint_of(address) {
        Ok(endpoint) => match r {
            Some(NetworkEvent::ListeningOn(e)) => !confirmed && e@ == endpoint,
            Some(NetworkEvent::ExternalAddressConfirmed(e)) => confirmed && e@ == endpoint,
            _ => false,
        },
        Err(_) => r is None,
    }
}

fn contains_address(list: &Vec<Address>, address: &Address) -> (r: bool)
    ensures
        r == address_views(list@).contains(address@),
{
    let ghost views = address_views(list@);
    let mut i: usize = 0;
    while i < list.len()
        invariant
            0 <= i <= list@.len(),
            views == address_views(list@),
            forall|j: int| 0 <= j < i ==> views[j] != address@,
        decreases list@.len() - i,
    {
        if list[i].same_as(address) {
            assert(views[i as int] == address@);
            return true;
        }
        i = i + 1;
    }
    false
}

/// Appends `address` to `list` unless it holds it.
fn push_missing(list: &mut Vec<Address>, address: &Address)
    ensures
        address_views(final(list)@) == append_missing(address_views(old(list)@), seq![address@]),
{
    let ghost before = address_views(list@);
    assert(seq![address@].drop_last() =~= Seq::<AddressView>::empty());
    assert(append_missing(before, Seq::<AddressView>::empty()) == before);
    assert(seq![address@].last() == address@);
    if !contains_address(list, address) {
        list.push(address.duplicate());
        assert(address_views(list@) =~= before.push(address@));
    }
}

/// The endpoint an address becomes, when it becomes one.
fn endpoint_for(address: &Address) -> (r: Option<Endpoint>)
    ensures
        match endpoint_of(address@) {
            Ok(e) => r matches Some(x) && x@ == e,
            Err(_) => r is None,
        },
{
    match EndpointMapping::to_endpoint(address) {
        Ok(endpoint) => Some(endpoint),
        Err(_) => None,
    }
}

impl NetworkDriverCore {
    /// The state of a driver for `local` (`local_net` in libp2p's terms)
    /// that has seen nothing yet.
    pub fn new(local: PeerId, local_net: NetPeer, limits: ResourceLimits, codec: EnvelopeCodec) -> (r: NetworkDriverCore)
        ensures
            r@.local == local,
            r@.local_net == local_net@,
            r@.limits == limits,
            r@.supported == codec.spec_supported(),
            r@.diagnostics == codec.spec_diagnostics(),
            r@.counters == codec.spec_counters(),
            r@.links.peers.len() == 0,
            r@.external.threshold == crate::external_address_ledger::CORROBORATION_THRESHOLD,
            r@.external.max_addresses == limits.max_candidate_addresses,
            r@.external.candidates.len() == 0 && r@.external.promoted.len() == 0,
            r@.reachability.max_failing_addresses == limits.max_failing_addresses,
            verdict(r@.reachability) == ReachabilityView::Unknown,
            r@.observer is None,
            r@.listening.len() == 0 && r@.announced.len() == 0,
            r@.known.len() == 0 && r@.outbound.len() == 0,
            r@.sightings.entries.len() == 0,
            r@.sightings.max_peers == limits.max_observed_peers,
            r@.sightings.retention_millis == SIGHTING_RETENTION_MILLIS,
            r@.codec_limits == codec.spec_limits(),
            r@.limiter.entries.len() == 0,
            r@.limiter.capacity == (if limits.inbound_envelope_burst < 1 {
                1
            } else {
                limits.inbound_envelope_burst
            }) * crate::inbound_rate_limiter::TOKEN_SCALE,
            r@.limiter.refill == (if limits.inbound_envelopes_per_second < 1 {
                1
            } else {
                limits.inbound_envelopes_per_second
            }) * crate::inbound_rate_limiter::TOKEN_SCALE / 1000,
            r@.external.max_observers_per_address == limits.max_observers_per_address,
            r@.external.local == local_net@,
            r@.links.local == local,
    {
        let external_addresses = ExternalAddressLedger::new(
            local_net.duplicate(),
            limits.max_candidate_addresses,
            limits.max_observers_per_address,
        );
        let r = NetworkDriverCore {
            local,
            local_net,
            limits,
            codec,
            rate_limiter: InboundRateLimiter::new(limits.inbound_envelopes_per_second, limits.inbound_envelope_burst),
            links: LinkRegistry::new(local),
            external_addresses,
            reachability: ReachabilityLedger::new(limits.max_failing_addresses),
            candidate_observer: None,
            listening: Vec::new(),
            announced: Vec::new(),
            known_addresses: Vec::new(),
            sightings: SightingLedger::new(limits.max_observed_peers, SIGHTING_RETENTION_MILLIS),
            outbound_direct: Vec::new(),
        };
        assert(r@.listening =~= Seq::<AddressView>::empty());
        assert(r@.announced =~= Seq::<AddressView>::empty());
        assert(r@.known =~= Seq::<(NetPeerView, Seq<AddressView>)>::empty());
        assert(r@.outbound =~= Seq::<(u64, (PeerId, EnvelopeSignature))>::empty());
        r
    }

    /// The counters.
    pub fn diagnostics(&self) -> (r: &CodecDiagnostics)
        ensures
            r@ == self@.diagnostics,
            r.shared() == self@.counters,
    {
        self.codec.diagnostics()
    }

    /// An event the composition root's queue had no room for. It is counted,
    /// since a lost event is otherwise invisible.
    pub fn event_dropped(&mut self)
        ensures
            final(self)@ == (DriverView {
                diagnostics: DiagnosticsView {
                    dropped_events: bumped(old(self)@.diagnostics.dropped_events, 1),
                    ..old(self)@.diagnostics
                },
                ..old(self)@
            }),
    {
        self.codec.diagnostics_mut().count_dropped_event();
    }

    /// How many other peers this driver holds addresses for, to dial them.
    pub fn known_peer_count(&self) -> (r: usize)
        ensures
            r == self@.known.len(),
    {
        self.known_addresses.len()
    }

    /// The verdict on whether strangers can dial this peer.
    pub fn reachability(&self) -> (r: crate::reachability_ledger::Reachability)
        ensures
            r@ == verdict(self@.reachability),
    {
        self.reachability.reachability()
    }

    /// Marks the start of the next swarm event. The peer an identify exchange
    /// named is the observer of the external address candidate the swarm
    /// reports next, and of nothing after it: it is kept only when this event
    /// is such a candidate.
    pub fn next_event(&mut self, is_candidate: bool)
        ensures
            final(self)@ == (DriverView {
                observer: if is_candidate {
                    old(self)@.observer
                } else {
                    None
                },
                ..old(self)@
            }),
    {
        if !is_candidate {
            self.candidate_observer = None;
        }
    }

    /// An inbound frame from `remote` at `now_millis`, through the rate limit,
    /// the codec, and the identity mapping, in that order; each refusal drops
    /// it (a rate-limited one is counted, the codec counts its own).
    pub fn inbound_frame(&mut self, remote: &NetPeer, frame: &[u8], now_millis: u64) -> (r: Option<NetworkEvent>)
        ensures
            inbound_step(old(self)@, final(self)@, remote@, frame@, now_millis, r),
    {
        let admitted = self.rate_limiter.admit_inbound(remote.duplicate(), now_millis);
        if !admitted {
            self.codec.diagnostics_mut().count_rate_limited();
            return None;
        }
        let envelope = match self.codec.decode(frame) {
            Ok(envelope) => envelope,
            Err(_) => {
                return None;
            },
        };
        match PeerIdMapping::from_libp2p(remote) {
            Ok(from) => Some(NetworkEvent::EnvelopeReceived { from, envelope }),
            Err(_) => None,
        }
    }

    /// A dial-back probe `server` ran against `address`: counted, then, when
    /// the address is an endpoint, recorded in the reachability ledger; a
    /// verdict that moved is reported.
    pub fn probe_reported(&mut self, server: NetPeer, address: &Address, result: ProbeResult) -> (r: Option<NetworkEvent>)
        ensures
            ({
                let v = old(self)@;
                let diagnostics = probe_counted(v.diagnostics, result);
                &&& final(self)@ == (DriverView { diagnostics, reachability: final(self)@.reachability, ..v })
                &&& match endpoint_of(address@) {
                    Err(_) => final(self)@.reachability == v.reachability && r is None,
                    Ok(endpoint) => final(self)@.reachability == record_step(v.reachability, server@, endpoint, result)
                        && probe_event_is(r, outcome_of(verdict(v.reachability), verdict(final(self)@.reachability))),
                }
            }),
    {
        self.codec.diagnostics_mut().count_probe_run();
        match result {
            ProbeResult::Succeeded => self.codec.diagnostics_mut().count_probe_succeeded(),
            ProbeResult::Failed => self.codec.diagnostics_mut().count_probe_failed(),
        }
        let endpoint = match endpoint_for(address) {
            Some(endpoint) => endpoint,
            None => {
                return None;
            },
        };
        match self.reachability.record(server, endpoint, result) {
            ProbeOutcome::Changed(reachability) => Some(NetworkEvent::ReachabilityChanged(reachability)),
            ProbeOutcome::Unchanged => None,
        }
    }

    /// A listener came up at `address`.
    pub fn listener_ready(&mut self, address: &Address) -> (r: Option<NetworkEvent>)
        ensures
            final(self)@ == (DriverView {
                listening: append_missing(old(self)@.listening, seq![address@]),
                ..old(self)@
            }),
            endpoint_event_is(r, address@, false),
    {
        push_missing(&mut self.listening, address);
        match endpoint_for(address) {
            Some(endpoint) => Some(NetworkEvent::ListeningOn(endpoint)),
            None => None,
        }
    }

    /// `address` is confirmed as one strangers can dial this peer at.
    pub fn external_address_confirmed(&mut self, address: &Address) -> (r: Option<NetworkEvent>)
        ensures
            final(self)@ == (DriverView {
                announced: append_missing(old(self)@.announced, seq![address@]),
                ..old(self)@
            }),
            endpoint_event_is(r, address@, true),
    {
        push_missing(&mut self.announced, address);
        match endpoint_for(address) {
            Some(endpoint) => Some(NetworkEvent::ExternalAddressConfirmed(endpoint)),
            None => None,
        }
    }

    /// An address the operator asserts at start-up: refused unless a
    /// stranger could dial it, otherwise confirmed as if observed.
    pub fn assert_external_address(&mut self, address: &Address) -> (r: Result<Option<NetworkEvent>, NetworkStartError>)
        ensures
            !globally_dialable(address@.parts) ==> r == Err::<Option<NetworkEvent>, NetworkStartError>(
                NetworkStartError::NonGlobalExternalAddress,
            ) && final(self)@ == old(self)@,
            globally_dialable(address@.parts) ==> (r matches Ok(event) && endpoint_event_is(event, address@, true))
                && final(self)@ == (DriverView {
                announced: append_missing(old(self)@.announced, seq![address@]),
                ..old(self)@
            }),
    {
        if !is_globally_dialable(address) {
            return Err(NetworkStartError::NonGlobalExternalAddress);
        }
        Ok(self.external_address_confirmed(address))
    }

    /// The swarm reports `address` as a candidate external address. It is
    /// counted, and, when the identify exchange just before it named the
    /// observer, put to the external address ledger; an address the ledger
    /// promotes is returned to be advertised, with the event confirming it.
    pub fn external_address_candidate(&mut self, address: Address) -> (r: Option<(Address, Option<NetworkEvent>)>)
        ensures
            final(self)@.diagnostics == candidate_counted(
                old(self)@.diagnostics,
                match old(self)@.observer {
                    None => None,
                    Some(observer) => Some(observe_step(old(self)@.external, observer, address@).1),
                },
            ),
            ({
                let v = old(self)@;
                let seen = DiagnosticsView {
                    external_candidates_seen: bumped(v.diagnostics.external_candidates_seen, 1),
                    ..v.diagnostics
                };
                match v.observer {
                    None => r is None && final(self)@ == (DriverView { diagnostics: seen, ..v }),
                    Some(observer) => {
                        let (external, verdict) = observe_step(v.external, observer, address@);
                        match verdict {
                            PromotionView::Recorded { .. } => r is None && final(self)@ == (DriverView {
                                external,
                                diagnostics: DiagnosticsView {
                                    external_candidates_recorded: bumped(seen.external_candidates_recorded, 1),
                                    ..seen
                                },
                                ..v
                            }),
                            PromotionView::Promote(promoted) => final(self)@ == (DriverView {
                                external,
                                diagnostics: DiagnosticsView {
                                    external_addresses_promoted: bumped(seen.external_addresses_promoted, 1),
                                    ..seen
                                },
                                announced: append_missing(v.announced, seq![promoted]),
                                ..v
                            }) && (r matches Some((a, event)) && a@ == promoted && endpoint_event_is(
                                event,
                                promoted,
                                true,
                            )),
                            PromotionView::Ignored(_) => r is None && final(self)@ == (DriverView {
                                external,
                                diagnostics: seen,
                                ..v
                            }),
                        }
                    },
                }
            }),
    {
        self.codec.diagnostics_mut().count_external_candidate_seen();
        let observer = match &self.candidate_observer {
            Some(observer) => observer.duplicate(),
            None => {
                return None;
            },
        };
        match self.external_addresses.observe(observer, address) {
            Promotion::Recorded { .. } => {
                self.codec.diagnostics_mut().count_external_candidate_recorded();
                None
            },
            Promotion::Promote(promoted) => {
                self.codec.diagnostics_mut().count_external_address_promoted();
                let event = self.external_address_confirmed(&promoted);
                Some((promoted, event))
            },
            Promotion::Ignored(_) => None,
        }
    }

    /// This peer's own endpoints: where it listens, then what it announced,
    /// each once.
    pub fn local_endpoints(&self) -> (r: Vec<Endpoint>)
        ensures
            endpoint_views(r@) == distinct_endpoints(self@.listening + self@.announced),
    {
        let mut endpoints: Vec<Endpoint> = Vec::new();
        assert(endpoint_views(endpoints@) =~= Seq::<EndpointView>::empty());
        add_endpoints_of(&mut endpoints, self.listening.as_slice());
        add_endpoints_of(&mut endpoints, self.announced.as_slice());
        proof {
            let l = self@.listening;
            let a = self@.announced;
            lemma_append_missing_concat(Seq::empty(), mapped_endpoints(l), mapped_endpoints(a));
            lemma_mapped_endpoints_concat(l, a);
        }
        endpoints
    }

    fn known_index(&self, remote: &NetPeer) -> (r: Option<usize>)
        ensures
            r matches Some(i) ==> is_first_index(self@.known, remote@, i as int),
            r is None ==> forall|j: int| 0 <= j < self@.known.len() ==> (#[trigger] self@.known[j]).0 != remote@,
    {
        let ghost known = self@.known;
        let mut i: usize = 0;
        while i < self.known_addresses.len()
            invariant
                0 <= i <= self.known_addresses@.len(),
                known == self@.known,
                forall|j: int| 0 <= j < i ==> (#[trigger] known[j]).0 != remote@,
            decreases self.known_addresses@.len() - i,
        {
            if self.known_addresses[i].0.same_as(remote) {
                return Some(i);
            }
            i = i + 1;
        }
        None
    }

    /// Remembers that `remote` can be reached at `addresses`.
    fn remember(&mut self, remote: &NetPeer, addresses: &[Address])
        ensures
            final(self)@ == (DriverView {
                known: remembered(old(self)@.known, remote@, address_views(addresses@)),
                ..old(self)@
            }),
    {
        let ghost v = self@;
        match self.known_index(remote) {
            Some(i) => {
                proof {
                    lemma_first_index(v.known, remote@, i as int);
                }
                let mut known: Vec<(NetPeer, Vec<Address>)> = Vec::new();
                std::mem::swap(&mut known, &mut self.known_addresses);
                let ghost before = known@;
                let (peer, mut list) = known.remove(i);
                extend_missing(&mut list, addresses);
                let ghost entry = (peer@, address_views(list@));
                known.insert(i, (peer, list));
                assert(known@.map_values(|e: (NetPeer, Vec<Address>)| (e.0@, address_views(e.1@))) =~= v.known.update(
                    i as int,
                    entry,
                ));
                self.known_addresses = known;
            },
            None => {
                proof {
                    lemma_no_first_index(v.known, remote@);
                }
                let mut list: Vec<Address> = Vec::new();
                assert(address_views(list@) =~= Seq::<AddressView>::empty());
                extend_missing(&mut list, addresses);
                let ghost entry = (remote@, address_views(list@));
                let mut known: Vec<(NetPeer, Vec<Address>)> = Vec::new();
                std::mem::swap(&mut known, &mut self.known_addresses);
                known.push((remote.duplicate(), list));
                assert(known@.map_values(|e: (NetPeer, Vec<Address>)| (e.0@, address_views(e.1@))) =~= v.known.push(entry));
                self.known_addresses = known;
            },
        }
    }

    /// Discovery (identify, the DHT, or the LAN) reported `remote` at
    /// `addresses` at `now_millis`. Nothing is done with no address, with
    /// this peer itself, or with an identity that does not map; otherwise the
    /// addresses are remembered and go to the routing table, and the
    /// endpoints among them are recorded as a sighting and reported.
    pub fn record_discovery(&mut self, remote: &NetPeer, addresses: &[Address], now_millis: u64) -> (r: (bool, Option<NetworkEvent>))
        ensures
            final(self)@ == discovered(old(self)@, remote@, address_views(addresses@), now_millis),
            discovery_answer_is(r, old(self)@, remote@, address_views(addresses@)),
    {
        if addresses.len() == 0 || remote.same_as(&self.local_net) {
            return (false, None);
        }
        let peer = match PeerIdMapping::from_libp2p(remote) {
            Ok(peer) => peer,
            Err(_) => {
                return (false, None);
            },
        };
        self.remember(remote, addresses);
        let endpoints = endpoints_of_addresses(addresses);
        if endpoints.len() == 0 {
            return (true, None);
        }
        self.sightings.record(peer, endpoints.as_slice(), now_millis);
        (true, Some(NetworkEvent::PeerDiscovered(DiscoveredPeer { peer, endpoints })))
    }

    /// An identify exchange with `peer`, which listens at `listen_addresses`,
    /// at `now_millis`: the peer is the observer of the external address
    /// candidate the swarm reports next, and a discovery.
    pub fn identify_received(&mut self, peer: &NetPeer, listen_addresses: &[Address], now_millis: u64) -> (r: (bool, Option<NetworkEvent>))
        ensures
            ({
                let named = DriverView { observer: Some(peer@), ..old(self)@ };
                &&& final(self)@ == discovered(named, peer@, address_views(listen_addresses@), now_millis)
                &&& discovery_answer_is(r, named, peer@, address_views(listen_addresses@))
            }),
    {
        self.candidate_observer = Some(peer.duplicate());
        self.record_discovery(peer, listen_addresses, now_millis)
    }

    /// The peers discovery has seen within the retention window at
    /// `now_millis`. Reading consumes nothing: only sightings that have aged
    /// out are dropped, so a second read answers what the first did.
    pub fn observe_peers(&mut self, now_millis: u64) -> (r: Vec<DiscoveredPeer>)
        ensures
            final(self)@ == peers_observed(old(self)@, now_millis),
            discovered_views(r@) == report_of(final(self)@.sightings.entries),
    {
        self.sightings.observed(now_millis)
    }

    /// A connection `connection` to `remote` was established, dialled from
    /// `direction` on `address`; `we_dialled` says whether a dial of this
    /// peer was waiting. The address is remembered; the link registry
    /// decides which link carries the session and which to close; a session
    /// is announced only when it is new and the other side opened it.
    pub fn connection_established(
        &mut self,
        remote: &NetPeer,
        connection: ConnectionId,
        direction: crate::domain::SessionDirection,
        address: &Address,
        we_dialled: bool,
    ) -> (r: EstablishedAction)
        ensures
            ({
                let v = old(self)@;
                match peer_from_libp2p(remote@) {
                    Err(_) => r.refused && r.close@.len() == 0 && r.primary_endpoint is None && r.event is None
                        && final(self)@ == v,
                    Ok(identity) => {
                        let known = remembered(v.known, remote@, seq![address@]);
                        let (links, answer) = crate::link_registry::established_step(
                            v.links,
                            identity,
                            remote@,
                            connection.spec_id(),
                            direction,
                            address@,
                        );
                        &&& final(self)@ == (DriverView { known, links, ..v })
                        &&& match answer {
                            Err(_) => r.refused && r.close@.len() == 0 && r.primary_endpoint is None
                                && r.event is None,
                            Ok(outcome) => {
                                &&& !r.refused
                                &&& r.close@.map_values(|c: ConnectionId| c.spec_id()) == outcome.close
                                &&& endpoint_answer(r.primary_endpoint, outcome.primary_address)
                                &&& if outcome.newly_connected && !we_dialled && endpoint_of(
                                    outcome.primary_address,
                                ) is Ok {
                                    r.event matches Some(NetworkEvent::SessionEstablished { peer, endpoint })
                                        && peer@ == identity && endpoint@ == endpoint_of(
                                        outcome.primary_address,
                                    )->Ok_0
                                } else {
                                    r.event is None
                                }
                            },
                        }
                    },
                }
            }),
    {
        let identity = match PeerIdMapping::from_libp2p(remote) {
            Ok(identity) => identity,
            Err(_) => {
                return EstablishedAction { refused: true, close: Vec::new(), primary_endpoint: None, event: None };
            },
        };
        let one = vec![address.duplicate()];
        assert(address_views(one@) =~= seq![address@]);
        self.remember(remote, one.as_slice());
        match self.links.record_established(identity, remote.duplicate(), connection, direction, address.duplicate()) {
            Err(_) => EstablishedAction { refused: true, close: Vec::new(), primary_endpoint: None, event: None },
            Ok(outcome) => {
                let primary_endpoint = endpoint_for(&outcome.primary_address);
                let event = if outcome.newly_connected && !we_dialled {
                    match &primary_endpoint {
                        Some(endpoint) => Some(NetworkEvent::SessionEstablished { peer: identity, endpoint: endpoint.duplicate() }),
                        None => None,
                    }
                } else {
                    None
                };
                EstablishedAction { refused: false, close: outcome.close, primary_endpoint, event }
            },
        }
    }

    /// Connection `connection` to `remote` closed. The registry decides
    /// whether the peer still holds a session; when it is gone, its rate
    /// allowance is forgotten and the close is announced.
    pub fn connection_closed(&mut self, remote: &NetPeer, connection: ConnectionId) -> (r: Option<NetworkEvent>)
        ensures
            ({
                let v = old(self)@;
                let (links, answer) = crate::link_registry::closed_step(v.links, remote@, connection.spec_id());
                match answer {
                    None => final(self)@ == v && r is None,
                    Some(outcome) => if !outcome.peer_gone {
                        final(self)@ == (DriverView { links, ..v }) && r is None
                    } else {
                        &&& forgetting(v.limiter, final(self)@.limiter, remote@)
                        &&& final(self)@ == (DriverView { links, limiter: final(self)@.limiter, ..v })
                        &&& match peer_from_libp2p(remote@) {
                            Ok(key) => r matches Some(NetworkEvent::SessionClosed { peer }) && peer@ == key,
                            Err(_) => r is None,
                        }
                    },
                }
            }),
    {
        let outcome = match self.links.record_closed(remote, connection) {
            Some(outcome) => outcome,
            None => {
                return None;
            },
        };
        if !outcome.peer_gone {
            return None;
        }
        self.rate_limiter.forget(remote);
        match PeerIdMapping::from_libp2p(remote) {
            Ok(peer) => Some(NetworkEvent::SessionClosed { peer }),
            Err(_) => None,
        }
    }

    /// Ends the session with `peer`: every link it holds is to be closed, and
    /// the registry and the rate limit forget it. Closing is by peer, so a
    /// peer with two links during a collapse loses both.
    pub fn close_session(&mut self, peer: PeerId) -> (r: Result<Vec<ConnectionId>, PeerTransportError>)
        ensures
            ({
                let v = old(self)@;
                let remote = crate::peer_id_mapping::libp2p_identity_of(peer@);
                match lookup(v.links.peers, remote) {
                    None => r == Err::<Vec<ConnectionId>, PeerTransportError>(PeerTransportError::NoSuchSession)
                        && final(self)@ == v,
                    Some(held) => {
                        &&& r matches Ok(connections) && connections@.map_values(|c: ConnectionId| c.spec_id())
                            == held.links.map_values(|l: (usize, crate::link_registry::LinkView)| l.0)
                        &&& forgetting(v.limiter, final(self)@.limiter, remote)
                        &&& final(self)@ == (DriverView {
                            links: LinkRegistryView { peers: crate::keyed::drop_key(v.links.peers, remote), ..v.links },
                            limiter: final(self)@.limiter,
                            ..v
                        })
                    },
                }
            }),
    {
        let remote = match PeerIdMapping::to_libp2p(peer) {
            Ok(remote) => remote,
            Err(_) => {
                return Err(PeerTransportError::NoSuchSession);
            },
        };
        if !self.links.holds_session(&remote) {
            return Err(PeerTransportError::NoSuchSession);
        }
        let connections = self.links.connections_of(&remote);
        self.links.forget(&remote);
        self.rate_limiter.forget(&remote);
        Ok(connections)
    }

    /// A request to dial `peer` at `endpoints`. A peer already holding a
    /// session is answered with the endpoint it is on; a peer none of whose
    /// endpoints is an address cannot be reached; otherwise the addresses are
    /// remembered and dialled.
    pub fn dial_plan(&mut self, peer: PeerId, endpoints: &[Endpoint]) -> (r: DialPlan)
        ensures
            ({
                let v = old(self)@;
                let remote = crate::peer_id_mapping::libp2p_identity_of(peer@);
                let addresses = dialable_addresses(endpoint_views(endpoints@));
                match lookup(v.links.peers, remote) {
                    Some(held) => final(self)@ == v && match endpoint_of(primary_link_address(held)) {
                        Ok(e) => r matches DialPlan::Answer(Ok(x)) && x@ == e,
                        Err(_) => r matches DialPlan::Answer(Err(PeerTransportError::Unavailable)),
                    },
                    None => if addresses.len() == 0 {
                        final(self)@ == v && r matches DialPlan::Answer(Err(PeerTransportError::NoReachableEndpoint))
                    } else {
                        final(self)@ == (DriverView { known: remembered(v.known, remote, addresses), ..v })
                            && (r matches DialPlan::Dial { remote: x, addresses: a } && x@ == remote
                            && address_views(a@) == addresses)
                    },
                }
            }),
    {
        let remote = match PeerIdMapping::to_libp2p(peer) {
            Ok(remote) => remote,
            Err(_) => {
                return DialPlan::Answer(Err(PeerTransportError::Unavailable));
            },
        };
        match self.links.primary_address(&remote) {
            Some(address) => {
                return match endpoint_for(&address) {
                    Some(endpoint) => DialPlan::Answer(Ok(endpoint)),
                    None => DialPlan::Answer(Err(PeerTransportError::Unavailable)),
                };
            },
            None => {},
        }
        let addresses = dialable(endpoints);
        if addresses.len() == 0 {
            return DialPlan::Answer(Err(PeerTransportError::NoReachableEndpoint));
        }
        self.remember(&remote, addresses.as_slice());
        DialPlan::Dial { remote, addresses }
    }

    /// A request to redeem `ticket`. An issuer already holding a session is
    /// answered at once; one none of whose endpoints is an address cannot be
    /// reached; otherwise its addresses are remembered and dialled.
    pub fn redeem_plan(&mut self, ticket: &crate::domain::JoinTicket) -> (r: RedeemPlan)
        ensures
            ({
                let v = old(self)@;
                let issuer = ticket.spec_issuer();
                let listed = endpoint_views(ticket.spec_endpoints());
                let remote = crate::peer_id_mapping::libp2p_identity_of(issuer@);
                let addresses = dialable_addresses(listed);
                if lookup(v.links.peers, remote) is Some {
                    final(self)@ == v && (r matches RedeemPlan::Answer(Ok(d)) && d.peer == issuer && endpoint_views(
                        d.endpoints@,
                    ) == listed)
                } else if addresses.len() == 0 {
                    final(self)@ == v && r matches RedeemPlan::Answer(Err(PeerDiscoveryError::TicketUnreachable))
                } else {
                    final(self)@ == (DriverView { known: remembered(v.known, remote, addresses), ..v })
                        && (r matches RedeemPlan::Dial { remote: x, addresses: a, peer, endpoints } && x@ == remote
                        && address_views(a@) == addresses && peer == issuer && endpoint_views(endpoints@) == listed)
                }
            }),
    {
        let peer = ticket.issuer();
        let endpoints = crate::domain::duplicate_endpoints(ticket.endpoints());
        let remote = match PeerIdMapping::to_libp2p(peer) {
            Ok(remote) => remote,
            Err(_) => {
                return RedeemPlan::Answer(Err(PeerDiscoveryError::TicketUnreachable));
            },
        };
        if self.links.holds_session(&remote) {
            return RedeemPlan::Answer(Ok(DiscoveredPeer { peer, endpoints }));
        }
        let addresses = dialable(endpoints.as_slice());
        if addresses.len() == 0 {
            return RedeemPlan::Answer(Err(PeerDiscoveryError::TicketUnreachable));
        }
        self.remember(&remote, addresses.as_slice());
        RedeemPlan::Dial { remote, addresses, peer, endpoints }
    }

    /// A request to announce `endpoints`: refused whole if one is not an
    /// address, otherwise each is recorded as this peer's and returned to be
    /// advertised.
    pub fn announce(&mut self, endpoints: &[Endpoint]) -> (r: Result<Vec<Address>, PeerDiscoveryError>)
        ensures
            ({
                let v = old(self)@;
                let addresses = dialable_addresses(endpoint_views(endpoints@));
                if all_dialable(endpoint_views(endpoints@)) {
                    r matches Ok(a) && address_views(a@) == addresses && final(self)@ == (DriverView {
                        announced: append_missing(v.announced, addresses),
                        ..v
                    })
                } else {
                    r == Err::<Vec<Address>, PeerDiscoveryError>(PeerDiscoveryError::AnnouncementRejected)
                        && final(self)@ == v
                }
            }),
    {
        let addresses = dialable(endpoints);
        if addresses.len() != endpoints.len() {
            return Err(PeerDiscoveryError::AnnouncementRejected);
        }
        extend_missing(&mut self.announced, addresses.as_slice());
        Ok(addresses)
    }

    /// Whether a direct message of `frame_len` bytes to `to` may be sent:
    /// refused (and counted) over the envelope cap, and refused when there is
    /// neither a session nor an address to reach the peer at.
    pub fn send_direct(&mut self, to: PeerId, frame_len: usize) -> (r: Result<NetPeer, MessageTransportError>)
        ensures
            ({
                let v = old(self)@;
                let remote = crate::peer_id_mapping::libp2p_identity_of(to@);
                if frame_len > v.limits.max_envelope_bytes {
                    r == Err::<NetPeer, MessageTransportError>(MessageTransportError::Unavailable) && final(self)@
                        == (DriverView {
                        diagnostics: DiagnosticsView { oversize_frames: bumped(v.diagnostics.oversize_frames, 1), ..v.diagnostics },
                        ..v
                    })
                } else if lookup(v.links.peers, remote) is None && (match lookup(v.known, remote) {
                    None => true,
                    Some(list) => list.len() == 0,
                }) {
                    r == Err::<NetPeer, MessageTransportError>(MessageTransportError::PeerUnreachable) && final(self)@ == v
                } else {
                    r matches Ok(x) && x@ == remote && final(self)@ == v
                }
            }),
    {
        let remote = match PeerIdMapping::to_libp2p(to) {
            Ok(remote) => remote,
            Err(_) => {
                return Err(MessageTransportError::PeerUnreachable);
            },
        };
        if frame_len > self.limits.max_envelope_bytes {
            self.codec.diagnostics_mut().count_oversize_frame();
            return Err(MessageTransportError::Unavailable);
        }
        if !self.links.holds_session(&remote) {
            let reachable = match self.known_index(&remote) {
                Some(i) => {
                    proof {
                        lemma_first_index(self@.known, remote@, i as int);
                    }
                    self.known_addresses[i].1.len() > 0
                },
                None => {
                    proof {
                        lemma_no_first_index(self@.known, remote@);
                    }
                    false
                },
            };
            if !reachable {
                return Err(MessageTransportError::PeerUnreachable);
            }
        }
        Ok(remote)
    }

    fn outbound_index(&self, request: u64) -> (r: Option<usize>)
        ensures
            r matches Some(i) ==> is_first_index(self@.outbound, request, i as int),
            r is None ==> forall|j: int| 0 <= j < self@.outbound.len() ==> (#[trigger] self@.outbound[j]).0 != request,
    {
        let ghost outbound = self@.outbound;
        let mut i: usize = 0;
        while i < self.outbound_direct.len()
            invariant
                0 <= i <= self.outbound_direct@.len(),
                outbound == self@.outbound,
                forall|j: int| 0 <= j < i ==> (#[trigger] outbound[j]).0 != request,
            decreases self.outbound_direct@.len() - i,
        {
            assert(outbound[i as int].0 == self.outbound_direct@[i as int].0);
            if self.outbound_direct[i].0 == request {
                return Some(i);
            }
            i = i + 1;
        }
        None
    }

    /// Records that request `request` carries the direct message signed
    /// `signature` to `to`, to be answered when the peer acknowledges it.
    pub fn register_direct(&mut self, request: u64, to: PeerId, signature: EnvelopeSignature)
        ensures
            final(self)@ == (DriverView {
                outbound: set_first(old(self)@.outbound, request, (to, signature)),
                ..old(self)@
            }),
    {
        let ghost v = self@;
        let index = self.outbound_index(request);
        let mut outbound: Vec<(u64, PeerId, EnvelopeSignature)> = Vec::new();
        std::mem::swap(&mut outbound, &mut self.outbound_direct);
        match index {
            Some(i) => {
                proof {
                    lemma_first_index(v.outbound, request, i as int);
                }
                outbound.set(i, (request, to, signature));
                assert(outbound@.map_values(|e: (u64, PeerId, EnvelopeSignature)| (e.0, (e.1, e.2))) =~= v.outbound.update(
                    i as int,
                    (request, (to, signature)),
                ));
            },
            None => {
                proof {
                    lemma_no_first_index(v.outbound, request);
                }
                outbound.push((request, to, signature));
                assert(outbound@.map_values(|e: (u64, PeerId, EnvelopeSignature)| (e.0, (e.1, e.2))) =~= v.outbound.push(
                    (request, (to, signature)),
                ));
            },
        }
        self.outbound_direct = outbound;
    }

    /// Takes the message waiting on `request`, if any.
    fn take_outbound(&mut self, request: u64) -> (r: Option<(PeerId, EnvelopeSignature)>)
        ensures
            r == lookup(old(self)@.outbound, request),
            final(self)@ == (DriverView { outbound: remove_first(old(self)@.outbound, request), ..old(self)@ }),
    {
        let ghost v = self@;
        match self.outbound_index(request) {
            Some(i) => {
                proof {
                    lemma_first_index(v.outbound, request, i as int);
                }
                let mut outbound: Vec<(u64, PeerId, EnvelopeSignature)> = Vec::new();
                std::mem::swap(&mut outbound, &mut self.outbound_direct);
                let (_, peer, signature) = outbound.remove(i);
                assert(outbound@.map_values(|e: (u64, PeerId, EnvelopeSignature)| (e.0, (e.1, e.2))) =~= v.outbound.remove(
                    i as int,
                ));
                self.outbound_direct = outbound;
                Some((peer, signature))
            },
            None => {
                proof {
                    lemma_no_first_index(v.outbound, request);
                }
                None
            },
        }
    }

    /// The direct message on `request` failed for `reason`.
    pub fn direct_failed(&mut self, request: u64, reason: crate::network::DirectMessageFailure) -> (r: Option<NetworkEvent>)
        ensures
            final(self)@ == (DriverView { outbound: remove_first(old(self)@.outbound, request), ..old(self)@ }),
            match lookup(old(self)@.outbound, request) {
                None => r is None,
                Some((peer, signature)) => r matches Some(
                    NetworkEvent::DirectMessageFailed { peer: p, signature: s, reason: why },
                ) && p == peer && s == signature && why == reason,
            },
    {
        match self.take_outbound(request) {
            Some((peer, signature)) => Some(NetworkEvent::DirectMessageFailed { peer, signature, reason }),
            None => None,
        }
    }

    /// The peer answered the direct message on `request` with `ack`.
    pub fn direct_answered(&mut self, request: u64, ack: crate::direct_message_codec::DirectMessageAck) -> (r: Option<NetworkEvent>)
        ensures
            final(self)@ == (DriverView { outbound: remove_first(old(self)@.outbound, request), ..old(self)@ }),
            match lookup(old(self)@.outbound, request) {
                None => r is None,
                Some((peer, signature)) => match ack {
                    crate::direct_message_codec::DirectMessageAck::Accepted => r matches Some(
                        NetworkEvent::DirectMessageDelivered { peer: p, signature: s },
                    ) && p == peer && s == signature,
                    crate::direct_message_codec::DirectMessageAck::Refused => r matches Some(
                        NetworkEvent::DirectMessageFailed { peer: p, signature: s, reason: why },
                    ) && p == peer && s == signature && why == crate::network::DirectMessageFailure::Refused,
                },
            },
    {
        match ack {
            crate::direct_message_codec::DirectMessageAck::Accepted => match self.take_outbound(request) {
                Some((peer, signature)) => Some(NetworkEvent::DirectMessageDelivered { peer, signature }),
                None => None,
            },
            crate::direct_message_codec::DirectMessageAck::Refused => self.direct_failed(
                request,
                crate::network::DirectMessageFailure::Refused,
            ),
        }
    }

    /// A direct message from `remote`: handled as any inbound frame, and
    /// acknowledged as accepted exactly when it was handed on.
    pub fn direct_request(&mut self, remote: &NetPeer, frame: &[u8], now_millis: u64) -> (r: (crate::direct_message_codec::DirectMessageAck, Option<NetworkEvent>))
        ensures
            inbound_step(old(self)@, final(self)@, remote@, frame@, now_millis, r.1),
            r.0 == if r.1 is Some {
                crate::direct_message_codec::DirectMessageAck::Accepted
            } else {
                crate::direct_message_codec::DirectMessageAck::Refused
            },
    {
        let event = self.inbound_frame(remote, frame, now_millis);
        let ack = if event.is_some() {
            crate::direct_message_codec::DirectMessageAck::Accepted
        } else {
            crate::direct_message_codec::DirectMessageAck::Refused
        };
        (ack, event)
    }

    /// Whether a broadcast of `frame_len` bytes may be published: refused, and
    /// counted, over the envelope cap.
    pub fn publish_check(&mut self, frame_len: usize) -> (r: Result<(), MessageTransportError>)
        ensures
            frame_len > old(self)@.limits.max_envelope_bytes ==> r == Err::<(), MessageTransportError>(
                MessageTransportError::Unavailable,
            ) && final(self)@ == (DriverView {
                diagnostics: DiagnosticsView {
                    oversize_frames: bumped(old(self)@.diagnostics.oversize_frames, 1),
                    ..old(self)@.diagnostics
                },
                ..old(self)@
            }),
            frame_len <= old(self)@.limits.max_envelope_bytes ==> r is Ok && final(self)@ == old(self)@,
    {
        if frame_len > self.limits.max_envelope_bytes {
            self.codec.diagnostics_mut().count_oversize_frame();
            return Err(MessageTransportError::Unavailable);
        }
        Ok(())
    }

    /// What publishing a broadcast came to, as the topic reported it: an
    /// accepted broadcast is counted as propagated or as reaching nobody,
    /// since a peer alone on the network is isolated, not broken; a
    /// publication the topic refused is a failure and counted as neither.
    pub fn publish_finished(&mut self, outcome: PublishOutcome) -> (r: Result<(), MessageTransportError>)
        ensures
            final(self)@ == (DriverView { diagnostics: publish_counted(old(self)@.diagnostics, outcome), ..old(self)@ }),
            outcome == PublishOutcome::Failed ==> r == Err::<(), MessageTransportError>(
                MessageTransportError::Unavailable,
            ),
            outcome != PublishOutcome::Failed ==> r is Ok,
    {
        match outcome {
            PublishOutcome::Propagated => {
                self.codec.diagnostics_mut().count_broadcast_propagated();
                Ok(())
            },
            PublishOutcome::NoSubscribers | PublishOutcome::Duplicate => {
                self.codec.diagnostics_mut().count_broadcast_reaching_nobody();
                Ok(())
            },
            PublishOutcome::Failed => Err(MessageTransportError::Unavailable),
        }
    }

    /// The answer to a listen request that arrives once listeners are up:
    /// this peer's endpoints; `None` before any listener is up.
    pub fn listening_answer(&self) -> (r: Option<Vec<Endpoint>>)
        ensures
            self@.listening.len() == 0 ==> r is None,
            self@.listening.len() > 0 ==> (r matches Some(e) && endpoint_views(e@) == distinct_endpoints(
                self@.listening + self@.announced,
            )),
    {
        if self.listening.len() == 0 {
            return None;
        }
        Some(self.local_endpoints())
    }

    /// The answer to a listen request once every listener it started has
    /// reported: this peer's endpoints, or a failure when there are none.
    pub fn listen_settled(&self) -> (r: Result<Vec<Endpoint>, PeerTransportError>)
        ensures
            distinct_endpoints(self@.listening + self@.announced).len() == 0 ==> r == Err::<Vec<Endpoint>, PeerTransportError>(
                PeerTransportError::ListenFailed,
            ),
            distinct_endpoints(self@.listening + self@.announced).len() > 0 ==> (r matches Ok(e) && endpoint_views(e@)
                == distinct_endpoints(self@.listening + self@.announced)),
    {
        let endpoints = self.local_endpoints();
        if endpoints.len() == 0 {
            Err(PeerTransportError::ListenFailed)
        } else {
            Ok(endpoints)
        }
    }
}

/// How a reachability verdict that moved, or did not, is reported.
pub open spec fn probe_event_is(r: Option<NetworkEvent>, outcome: crate::reachability_ledger::ProbeOutcomeView) -> bool {
    match outcome {
        crate::reachability_ledger::ProbeOutcomeView::Unchanged => r is None,
        crate::reachability_ledger::ProbeOutcomeView::Changed(x) => r matches Some(
            NetworkEvent::ReachabilityChanged(y),
        ) && y@ == x,
    }
}

fn contains_endpoint_view(list: &Vec<Endpoint>, endpoint: &Endpoint) -> (r: bool)
    ensures
        r == endpoint_views(list@).contains(endpoint@),
{
    let ghost views = endpoint_views(list@);
    let mut i: usize = 0;
    while i < list.len()
        invariant
            0 <= i <= list@.len(),
            views == endpoint_views(list@),
            forall|j: int| 0 <= j < i ==> views[j] != endpoint@,
        decreases list@.len() - i,
    {
        if list[i].same_as(endpoint) {
            assert(views[i as int] == endpoint@);
            return true;
        }
        i = i + 1;
    }
    false
}

/// Appends to `endpoints` each endpoint `addresses` map to that it lacks.
fn add_endpoints_of(endpoints: &mut Vec<Endpoint>, addresses: &[Address])
    ensures
        endpoint_views(final(endpoints)@) == append_missing(
            endpoint_views(old(endpoints)@),
            mapped_endpoints(address_views(addresses@)),
        ),
{
    let ghost start = endpoint_views(endpoints@);
    let ghost all = address_views(addresses@);
    let mut i: usize = 0;
    assert(all.take(0) =~= Seq::<AddressView>::empty());
    while i < addresses.len()
        invariant
            0 <= i <= addresses@.len(),
            all == address_views(addresses@),
            endpoint_views(endpoints@) == append_missing(start, mapped_endpoints(all.take(i as int))),
        decreases addresses@.len() - i,
    {
        assert(all.take(i + 1).drop_last() =~= all.take(i as int));
        assert(all.take(i + 1).last() == addresses@[i as int]@);
        match endpoint_for(&addresses[i]) {
            Some(endpoint) => {
                let ghost mapped = mapped_endpoints(all.take(i as int));
                assert(mapped_endpoints(all.take(i + 1)) == mapped.push(endpoint@));
                assert(mapped.push(endpoint@).drop_last() =~= mapped);
                if !contains_endpoint_view(endpoints, &endpoint) {
                    let ghost held = endpoints@;
                    endpoints.push(endpoint);
                    assert(endpoint_views(endpoints@) =~= endpoint_views(held).push(endpoint@));
                }
            },
            None => {},
        }
        i = i + 1;
    }
    assert(all.take(addresses@.len() as int) =~= all);
}

/// Appending the missing ones of two lists in turn is appending those of
/// their concatenation.
pub proof fn lemma_append_missing_concat<T>(held: Seq<T>, first: Seq<T>, second: Seq<T>)
    ensures
        append_missing(append_missing(held, first), second) == append_missing(held, first + second),
    decreases second.len(),
{
    if second.len() == 0 {
        assert(first + second =~= first);
    } else {
        lemma_append_missing_concat(held, first, second.drop_last());
        assert((first + second).drop_last() =~= first + second.drop_last());
        assert((first + second).last() == second.last());
    }
}

/// The endpoints of two lists of addresses are those of each, in turn.
pub proof fn lemma_mapped_endpoints_concat(first: Seq<AddressView>, second: Seq<AddressView>)
    ensures
        mapped_endpoints(first + second) == mapped_endpoints(first) + mapped_endpoints(second),
    decreases second.len(),
{
    if second.len() == 0 {
        assert(first + second =~= first);
        assert(mapped_endpoints(first) + Seq::<EndpointView>::empty() =~= mapped_endpoints(first));
    } else {
        lemma_mapped_endpoints_concat(first, second.drop_last());
        assert((first + second).drop_last() =~= first + second.drop_last());
        assert((first + second).last() == second.last());
        let m1 = mapped_endpoints(first);
        let m2 = mapped_endpoints(second.drop_last());
        match endpoint_of(second.last()) {
            Ok(e) => {
                assert(m1 + m2.push(e) =~= (m1 + m2).push(e));
            },
            Err(_) => {},
        }
    }
}

/// What a newly established connection calls for.
#[derive(Debug)]
pub struct EstablishedAction {
    /// Close the new connection itself: it does not map to an identity, or
    /// claims this peer's own.
    pub refused: bool,
    /// Connections to close: a collapsed or redundant link.
    pub close: Vec<ConnectionId>,
    /// The endpoint the session is on, for answering dials waiting on this
    /// peer; `None` when the address is not an endpoint.
    pub primary_endpoint: Option<Endpoint>,
    /// The session announcement, when one is due.
    pub event: Option<NetworkEvent>,
}

/// What a dial request calls for.
#[derive(Debug)]
pub enum DialPlan {
    /// Answer at once.
    Answer(Result<Endpoint, PeerTransportError>),
    /// Dial `remote` at `addresses`, and answer when the dial settles.
    Dial { remote: NetPeer, addresses: Vec<Address> },
}

/// What a ticket redemption calls for.
#[derive(Debug)]
pub enum RedeemPlan {
    /// Answer at once.
    Answer(Result<DiscoveredPeer, PeerDiscoveryError>),
    /// Dial `remote` at `addresses`, and answer with the ticket's peer and
    /// endpoints when the dial settles.
    Dial { remote: NetPeer, addresses: Vec<Address>, peer: PeerId, endpoints: Vec<Endpoint> },
}

/// Why a dial failed, in the swarm's terms.
#[derive(Debug, Clone, Copy, PartialEq, Eq, Structural)]
pub enum DialFailure {
    LocalPeerId,
    WrongPeerId,
    Denied,
    NoAddresses,
    DialPeerConditionFalse,
    Aborted,
    Transport,
}

/// How a failed dial is reported: a peer that turned out to be someone else
/// failed its handshake, a refusal by a limit means the network is
/// unavailable, and everything else means no endpoint could be reached.
pub open spec fn dial_failure_error(failure: DialFailure) -> PeerTransportError {
    match failure {
        DialFailure::LocalPeerId => PeerTransportError::HandshakeFailed,
        DialFailure::WrongPeerId => PeerTransportError::HandshakeFailed,
        DialFailure::Denied => PeerTransportError::Unavailable,
        _ => PeerTransportError::NoReachableEndpoint,
    }
}

/// How a failed dial is reported.
pub fn transport_dial_error(failure: DialFailure) -> (r: PeerTransportError)
    ensures
        r == dial_failure_error(failure),
{
    match failure {
        DialFailure::LocalPeerId => PeerTransportError::HandshakeFailed,
        DialFailure::WrongPeerId => PeerTransportError::HandshakeFailed,
        DialFailure::Denied => PeerTransportError::Unavailable,
        DialFailure::NoAddresses => PeerTransportError::NoReachableEndpoint,
        DialFailure::DialPeerConditionFalse => PeerTransportError::NoReachableEndpoint,
        DialFailure::Aborted => PeerTransportError::NoReachableEndpoint,
        DialFailure::Transport => PeerTransportError::NoReachableEndpoint,
    }
}

/// The multiaddresses of the endpoints that name one, in order.
pub open spec fn dialable_addresses(endpoints: Seq<EndpointView>) -> Seq<AddressView>
    decreases endpoints.len(),
{
    if endpoints.len() == 0 {
        Seq::empty()
    } else {
        let earlier = dialable_addresses(endpoints.drop_last());
        match multiaddr_reading(endpoints.last().address) {
            Some(address) => earlier.push(address),
            None => earlier,
        }
    }
}

/// Whether every endpoint names a multiaddress.
pub open spec fn all_dialable(endpoints: Seq<EndpointView>) -> bool {
    forall|i: int| 0 <= i < endpoints.len() ==> (multiaddr_reading((#[trigger] endpoints[i]).address) is Some)
}

/// The address of the link carrying the session in `held`.
pub open spec fn primary_link_address(held: crate::link_registry::PeerLinksView) -> AddressView {
    lookup(held.links, held.primary)->Some_0.address
}

/// Whether `r` is the endpoint `address` becomes, if any.
pub open spec fn endpoint_answer(r: Option<Endpoint>, address: AddressView) -> bool {
    match endpoint_of(address) {
        Ok(e) => r matches Some(x) && x@ == e,
        Err(_) => r is None,
    }
}

/// The multiaddresses of the endpoints that name one.
fn dialable(endpoints: &[Endpoint]) -> (r: Vec<Address>)
    ensures
        address_views(r@) == dialable_addresses(endpoint_views(endpoints@)),
        (r@.len() == endpoints@.len()) == all_dialable(endpoint_views(endpoints@)),
{
    let ghost all = endpoint_views(endpoints@);
    let mut out: Vec<Address> = Vec::new();
    let mut i: usize = 0;
    assert(all.take(0) =~= Seq::<EndpointView>::empty());
    assert(address_views(out@) =~= Seq::<AddressView>::empty());
    while i < endpoints.len()
        invariant
            0 <= i <= endpoints@.len(),
            all == endpoint_views(endpoints@),
            address_views(out@) == dialable_addresses(all.take(i as int)),
            out@.len() <= i,
            (out@.len() == i) == all_dialable(all.take(i as int)),
        decreases endpoints@.len() - i,
    {
        assert(all.take(i + 1).drop_last() =~= all.take(i as int));
        assert(all.take(i + 1).last() == endpoints@[i as int]@);
        match EndpointMapping::to_multiaddr(&endpoints[i]) {
            Ok(address) => {
                let ghost held = out@;
                out.push(address);
                assert(address_views(out@) =~= address_views(held).push(address@));
                assert(all_dialable(all.take(i + 1)) == all_dialable(all.take(i as int))) by {
                    if all_dialable(all.take(i as int)) {
                        assert forall|j: int| 0 <= j < i + 1 implies (multiaddr_reading(
                            (#[trigger] all.take(i + 1)[j]).address,
                        ) is Some) by {
                            if j < i {
                                assert(all.take(i + 1)[j] == all.take(i as int)[j]);
                            }
                        }
                    } else {
                        let j = choose|j: int| 0 <= j < i && !(multiaddr_reading((#[trigger] all.take(i as int)[j]).address) is Some);
                        assert(all.take(i + 1)[j] == all.take(i as int)[j]);
                    }
                }
            },
            Err(_) => {
                assert(!all_dialable(all.take(i + 1))) by {
                    assert(all.take(i + 1)[i as int] == all[i as int]);
                }
            },
        }
        i = i + 1;
    }
    assert(all.take(endpoints@.len() as int) =~= all);
    out
}

/// `known` with `addresses` added to what is known of `remote`.
pub open spec fn remembered(known: Seq<(NetPeerView, Seq<AddressView>)>, remote: NetPeerView, addresses: Seq<AddressView>) -> Seq<(NetPeerView, Seq<AddressView>)> {
    let held = match lookup(known, remote) {
        Some(list) => list,
        None => Seq::empty(),
    };
    set_first(known, remote, append_missing(held, addresses))
}

/// Whether discovery reported `remote` at `addresses` is acted on: there
/// are addresses, the peer is another one, and its identity maps.
pub open spec fn discovery_counts(v: DriverView, remote: NetPeerView, addresses: Seq<AddressView>) -> bool {
    addresses.len() > 0 && remote != v.local_net && peer_from_libp2p(remote) is Ok
}

/// The state after discovery reported `remote` at `addresses` at `now`: the
/// addresses are remembered for dialling, and the endpoints among them are
/// recorded as a sighting of the peer.
pub open spec fn discovered(v: DriverView, remote: NetPeerView, addresses: Seq<AddressView>, now: u64) -> DriverView {
    if !discovery_counts(v, remote, addresses) {
        v
    } else {
        let endpoints = mapped_endpoints(addresses);
        let known = remembered(v.known, remote, addresses);
        if endpoints.len() == 0 {
            DriverView { known, ..v }
        } else {
            DriverView {
                known,
                sightings: crate::sighting_ledger::record_step(
                    v.sightings,
                    peer_from_libp2p(remote)->Ok_0,
                    endpoints,
                    now,
                ),
                ..v
            }
        }
    }
}

/// What discovery of `remote` at `addresses` answers: whether the addresses
/// go to the routing table, and the discovery event when some of them are
/// endpoints.
pub open spec fn discovery_answer_is(r: (bool, Option<NetworkEvent>), v: DriverView, remote: NetPeerView, addresses: Seq<AddressView>) -> bool {
    let endpoints = mapped_endpoints(addresses);
    &&& r.0 == discovery_counts(v, remote, addresses)
    &&& if discovery_counts(v, remote, addresses) && endpoints.len() > 0 {
        r.1 matches Some(NetworkEvent::PeerDiscovered(d)) && d.peer@ == peer_from_libp2p(remote)->Ok_0
            && endpoint_views(d.endpoints@) == endpoints
    } else {
        r.1 is None
    }
}

/// Appends to `list` each of `addresses` it lacks.
fn extend_missing(list: &mut Vec<Address>, addresses: &[Address])
    ensures
        address_views(final(list)@) == append_missing(address_views(old(list)@), address_views(addresses@)),
{
    let ghost start = address_views(list@);
    let ghost all = address_views(addresses@);
    let mut i: usize = 0;
    assert(all.take(0) =~= Seq::<AddressView>::empty());
    while i < addresses.len()
        invariant
            0 <= i <= addresses@.len(),
            all == address_views(addresses@),
            address_views(list@) == append_missing(start, all.take(i as int)),
        decreases addresses@.len() - i,
    {
        assert(all.take(i + 1).drop_last() =~= all.take(i as int));
        assert(all.take(i + 1).last() == addresses@[i as int]@);
        if !contains_address(list, &addresses[i]) {
            let ghost held = list@;
            list.push(addresses[i].duplicate());
            assert(address_views(list@) =~= address_views(held).push(addresses@[i as int]@));
        }
        i = i + 1;
    }
    assert(all.take(addresses@.len() as int) =~= all);
}

/// The endpoints of the addresses that map to one, in order.
fn endpoints_of_addresses(addresses: &[Address]) -> (r: Vec<Endpoint>)
    ensures
        endpoint_views(r@) == mapped_endpoints(address_views(addresses@)),
{
    let ghost all = address_views(addresses@);
    let mut out: Vec<Endpoint> = Vec::new();
    let mut i: usize = 0;
    assert(all.take(0) =~= Seq::<AddressView>::empty());
    assert(endpoint_views(out@) =~= Seq::<EndpointView>::empty());
    while i < addresses.len()
        invariant
            0 <= i <= addresses@.len(),
            all == address_views(addresses@),
            endpoint_views(out@) == mapped_endpoints(all.take(i as int)),
        decreases addresses@.len() - i,
    {
        assert(all.take(i + 1).drop_last() =~= all.take(i as int));
        assert(all.take(i + 1).last() == addresses@[i as int]@);
        match endpoint_for(&addresses[i]) {
            Some(endpoint) => {
                let ghost held = out@;
                out.push(endpoint);
                assert(endpoint_views(out@) =~= endpoint_views(held).push(endpoint@));
            },
            None => {},
        }
        i = i + 1;
    }
    assert(all.take(addresses@.len() as int) =~= all);
    out
}

/// What handling an inbound frame does: the limiter decides; a refusal is
/// counted; an admitted frame is decoded (the codec counting what it saw)
/// and, when it decodes and its sender's identity maps, handed on.
pub open spec fn inbound_step(v: DriverView, after: DriverView, remote: NetPeerView, frame: Seq<u8>, now: u64, r: Option<NetworkEvent>) -> bool {
    let admitted = admits(v.limiter, remote, now);
    let max = v.codec_limits.max_envelope_bytes;
    &&& admission(v.limiter, after.limiter, remote, now, admitted)
    &&& after == (DriverView { limiter: after.limiter, diagnostics: after.diagnostics, ..v })
    &&& !admitted ==> after.diagnostics == (DiagnosticsView {
        rate_limited: bumped(v.diagnostics.rate_limited, 1),
        ..v.diagnostics
    })
    &&& admitted ==> after.diagnostics == diagnostics_after_decode(v.diagnostics, frame, v.supported, max)
    &&& r is Some <==> admitted && decode_refusal(frame, v.supported, max) is None && peer_from_libp2p(remote) is Ok
    &&& r matches Some(event) ==> inbound_event_is(event, remote, frame)
}

/// Whether `event` hands on the envelope `frame` holds, from the identity
/// `remote` maps to.
pub open spec fn inbound_event_is(event: NetworkEvent, remote: NetPeerView, frame: Seq<u8>) -> bool {
    event matches NetworkEvent::EnvelopeReceived { from, envelope } && peer_from_libp2p(remote) == Ok::<
        Seq<u8>,
        crate::peer_id_mapping::PeerIdMappingError,
    >(from@) && envelope_from_record(frame_entries(frame), envelope)
}

// ------------------------------------------------------------ dial laws

/// A dial failure is reported as a failed handshake exactly when a peer
/// answered and turned out to be this peer or someone other than the one
/// dialled; as unavailable exactly when a limit refused it; and a dial in
/// which nothing answered (no address, every transport attempt failed, the
/// attempt aborted, or the dial condition not met) as no reachable endpoint.
pub proof fn law_dial_failures_are_reported_by_what_answered(failure: DialFailure)
    ensures
        (dial_failure_error(failure) == PeerTransportError::HandshakeFailed) <==> (failure == DialFailure::LocalPeerId
            || failure == DialFailure::WrongPeerId),
        (dial_failure_error(failure) == PeerTransportError::Unavailable) <==> failure == DialFailure::Denied,
        (failure == DialFailure::NoAddresses || failure == DialFailure::Transport || failure == DialFailure::Aborted
            || failure == DialFailure::DialPeerConditionFalse) ==> dial_failure_error(failure)
            == PeerTransportError::NoReachableEndpoint,
{
}

/// Every endpoint whose text reads as a multiaddress, relayed ones included,
/// is dialled at that address, in order: when every endpoint reads, the
/// plan holds one address per endpoint and is complete.
pub proof fn law_every_readable_endpoint_is_dialled(endpoints: Seq<EndpointView>)
    requires
        forall|i: int| 0 <= i < endpoints.len() ==> (multiaddr_reading((#[trigger] endpoints[i]).address) is Some),
    ensures
        dialable_addresses(endpoints).len() == endpoints.len(),
        forall|i: int|
            0 <= i < endpoints.len() ==> multiaddr_reading((#[trigger] endpoints[i]).address) == Some(
                dialable_addresses(endpoints)[i],
            ),
        all_dialable(endpoints),
    decreases endpoints.len(),
{
    if endpoints.len() > 0 {
        let rest = endpoints.drop_last();
        assert forall|i: int| 0 <= i < rest.len() implies (multiaddr_reading((#[trigger] rest[i]).address) is Some) by {
            assert(rest[i] == endpoints[i]);
        }
        law_every_readable_endpoint_is_dialled(rest);
        assert(multiaddr_reading(endpoints[endpoints.len() - 1].address) is Some);
        assert forall|i: int| 0 <= i < endpoints.len() implies multiaddr_reading((#[trigger] endpoints[i]).address)
            == Some(dialable_addresses(endpoints)[i]) by {
            if i < rest.len() {
                assert(rest[i] == endpoints[i]);
                assert(multiaddr_reading(rest[i].address) == Some(dialable_addresses(rest)[i]));
            }
        }
    }
}

/// Each address in a plan is what some endpoint reads as, and a relayed
/// endpoint that reads is in the plan like any other.
pub proof fn law_dial_plans_hold_only_and_all_readable_endpoints(endpoints: Seq<EndpointView>, k: int)
    requires
        0 <= k < endpoints.len(),
    ensures
        multiaddr_reading(endpoints[k].address) matches Some(a) ==> dialable_addresses(endpoints).contains(a),
        forall|i: int|
            0 <= i < dialable_addresses(endpoints).len() ==> exists|j: int|
                0 <= j < endpoints.len() && multiaddr_reading(#[trigger] endpoints[j].address) == Some(
                    #[trigger] dialable_addresses(endpoints)[i],
                ),
    decreases endpoints.len(),
{
    broadcast use vstd::seq_lib::lemma_seq_contains_after_push;
    let rest = endpoints.drop_last();
    let d = dialable_addresses(endpoints);
    let dr = dialable_addresses(rest);
    if k < rest.len() {
        assert(rest[k] == endpoints[k]);
        law_dial_plans_hold_only_and_all_readable_endpoints(rest, k);
    } else if rest.len() > 0 {
        law_dial_plans_hold_only_and_all_readable_endpoints(rest, 0);
    }
    assert forall|i: int| 0 <= i < d.len() implies exists|j: int|
        0 <= j < endpoints.len() && multiaddr_reading(#[trigger] endpoints[j].address) == Some(#[trigger] d[i]) by {
        if i < dr.len() {
            assert(d[i] == dr[i]);
            let j = choose|j: int| 0 <= j < rest.len() && multiaddr_reading(#[trigger] rest[j].address) == Some(
                #[trigger] dr[i],
            );
            assert(rest[j] == endpoints[j]);
        } else {
            assert(multiaddr_reading(endpoints[endpoints.len() - 1].address) == Some(d[i]));
        }
    }
}

} // verus!
