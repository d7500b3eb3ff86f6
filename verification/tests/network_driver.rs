use infra_net_libp2p::address::Address;
use infra_net_libp2p::codec_diagnostics::CodecDiagnostics;
use infra_net_libp2p::domain::{AddressReachability, DiscoveredPeer, ProtocolVersion};
use infra_net_libp2p::endpoint_mapping::EndpointMapping;
use infra_net_libp2p::envelope_codec::EnvelopeCodec;
use infra_net_libp2p::identity::{NetPeer, PeerId};
use infra_net_libp2p::network::{NetworkEvent, NetworkStartError};
use infra_net_libp2p::network_driver::{MessageTransportError, NetworkDriverCore, PublishOutcome};
use infra_net_libp2p::peer_id_mapping::PeerIdMapping;
use infra_net_libp2p::reachability_ledger::{ProbeResult, Reachability};
use infra_net_libp2p::resource_limits::ResourceLimits;
use libp2p::identity::Keypair;

const PUBLIC: &str = "/ip4/203.0.113.7/tcp/4001";
const OTHER_PUBLIC: &str = "/ip4/203.0.113.8/tcp/4001";
const LOCAL_SEED: [u8; 32] = [0xaa; 32];

const NON_GLOBAL: [(&str, &str); 16] = [
    ("/ip4/127.0.0.1/tcp/4001", "IPv4 loopback"),
    ("/ip4/10.0.0.4/tcp/4001", "RFC 1918 private, 10/8"),
    ("/ip4/172.16.3.9/tcp/4001", "RFC 1918 private, 172.16/12"),
    ("/ip4/192.168.1.20/tcp/4001", "RFC 1918 private, 192.168/16"),
    ("/ip4/169.254.7.7/tcp/4001", "IPv4 link-local"),
    ("/ip4/100.64.0.1/tcp/4001", "CGNAT, low edge of 100.64/10"),
    ("/ip4/100.127.255.254/tcp/4001", "CGNAT, high edge of 100.64/10"),
    ("/ip4/0.0.0.0/tcp/4001", "IPv4 unspecified"),
    ("/ip4/224.0.0.1/tcp/4001", "IPv4 multicast"),
    ("/ip4/255.255.255.255/tcp/4001", "IPv4 broadcast"),
    ("/ip6/::1/tcp/4001", "IPv6 loopback"),
    ("/ip6/::/tcp/4001", "IPv6 unspecified"),
    ("/ip6/fd00::1/tcp/4001", "IPv6 unique local, fc00::/7"),
    ("/ip6/fe80::1/tcp/4001", "IPv6 link-local, fe80::/10"),
    ("/ip6/::ffff:192.168.0.4/tcp/4001", "IPv4-mapped IPv6 carrying a private address"),
    ("/dns4/example.com/tcp/4001", "no IP literal at all, so nothing can be judged global"),
];

fn address(text: &str) -> Address {
    Address::parse(text).expect("a well-formed multiaddress")
}

fn keypair(seed: u8) -> Keypair {
    Keypair::ed25519_from_bytes([seed; 32]).expect("32 bytes are a valid Ed25519 seed")
}

fn net(keypair: &Keypair) -> NetPeer {
    let id = keypair.public().to_peer_id();
    NetPeer::from_multihash(id.as_ref().code(), id.as_ref().digest()).expect("a peer id")
}

fn nth_keypair(index: u32) -> Keypair {
    let mut seed = [0_u8; 32];
    seed[..4].copy_from_slice(&index.to_be_bytes());
    Keypair::ed25519_from_bytes(seed).expect("32 bytes are a valid Ed25519 seed")
}

fn lan_sighting(index: u32) -> (NetPeer, Address) {
    (net(&nth_keypair(index)), address(&format!("/ip4/192.168.1.10/tcp/{}", 4001 + index)))
}

/// The driver's decisions, fed the events the swarm would deliver, in the
/// order it delivers them; what it reports is collected as the event queue.
struct Harness {
    core: NetworkDriverCore,
    events: Vec<NetworkEvent>,
    diagnostics: CodecDiagnostics,
    limits: ResourceLimits,
    now: u64,
}

impl Harness {
    fn start() -> Self {
        Self::start_with(ResourceLimits::shipped())
    }

    fn start_with(limits: ResourceLimits) -> Self {
        let local = Keypair::ed25519_from_bytes(LOCAL_SEED).expect("a valid secret key");
        let key = local.public().try_into_ed25519().expect("an Ed25519 key").to_bytes();
        let peer = PeerId::from_public_key_bytes(key).expect("a valid public key");
        let local_net = PeerIdMapping::to_libp2p(peer).expect("maps out");
        let diagnostics = CodecDiagnostics::new();
        let codec = EnvelopeCodec::new(ProtocolVersion::current(), limits, diagnostics.clone());
        Harness {
            core: NetworkDriverCore::new(peer, local_net, limits, codec),
            events: Vec::new(),
            diagnostics,
            limits,
            now: 0,
        }
    }

    fn emit(&mut self, event: Option<NetworkEvent>) {
        if let Some(event) = event {
            self.events.push(event);
        }
    }

    fn diagnostics(&self) -> &CodecDiagnostics {
        &self.diagnostics
    }

    fn identified_listening_at(&mut self, observer: &Keypair, listen: Vec<Address>) {
        self.core.next_event(false);
        let (_, event) = self.core.identify_received(&net(observer), &listen, self.now);
        self.emit(event);
    }

    fn identified(&mut self, observer: &Keypair) {
        self.identified_listening_at(observer, Vec::new());
    }

    fn candidate(&mut self, text: &str) {
        self.core.next_event(true);
        if let Some((_, event)) = self.core.external_address_candidate(address(text)) {
            self.emit(event);
        }
    }

    fn other_event(&mut self) {
        self.core.next_event(false);
    }

    fn identify_then_candidate(&mut self, observer: &Keypair, candidate: &str) {
        self.identified(observer);
        self.candidate(candidate);
    }

    fn assert_external(&mut self, text: &str) -> Result<(), NetworkStartError> {
        let event = self.core.assert_external_address(&address(text))?;
        self.emit(event);
        Ok(())
    }

    fn probe(&mut self, server: &Keypair, tested: &str, result: ProbeResult) {
        self.core.next_event(false);
        let event = self.core.probe_reported(net(server), &address(tested), result);
        self.emit(event);
    }

    fn probe_succeeded(&mut self, server: &Keypair, tested: &str) {
        self.probe(server, tested, ProbeResult::Succeeded);
    }

    fn probe_failed(&mut self, server: &Keypair, tested: &str) {
        self.probe(server, tested, ProbeResult::Failed);
    }

    fn mdns_discovered(&mut self, sightings: Vec<(NetPeer, Address)>) {
        self.core.next_event(false);
        for (peer, address) in sightings {
            let (_, event) = self.core.record_discovery(&peer, &[address], self.now);
            self.emit(event);
        }
    }

    fn observe_peers(&mut self) -> Vec<DiscoveredPeer> {
        self.core.observe_peers(self.now)
    }

    /// Publishes while no other peer is subscribed, which is what the topic
    /// reports for a peer alone on the network.
    fn publish_broadcast(&mut self, frame: &[u8]) -> Result<(), MessageTransportError> {
        self.core.publish_check(frame.len())?;
        self.core.publish_finished(PublishOutcome::NoSubscribers)
    }

    fn drain(&mut self) -> Vec<NetworkEvent> {
        std::mem::take(&mut self.events)
    }
}

fn confirmed_addresses(events: &[NetworkEvent]) -> Vec<String> {
    events
        .iter()
        .filter_map(|event| match event {
            NetworkEvent::ExternalAddressConfirmed(endpoint) => Some(endpoint.address().to_owned()),
            _ => None,
        })
        .collect()
}

fn reachable_at(text: &str) -> Reachability {
    Reachability::Reachable(EndpointMapping::parse(text).expect("a well-formed multiaddress"))
}

fn verdicts(events: &[NetworkEvent]) -> Vec<Reachability> {
    events
        .iter()
        .filter_map(|event| match event {
            NetworkEvent::ReachabilityChanged(reachability) => Some(reachability.clone()),
            _ => None,
        })
        .collect()
}

fn confirmed_at(text: &str) -> NetworkEvent {
    NetworkEvent::ExternalAddressConfirmed(EndpointMapping::parse(text).expect("a well-formed multiaddress"))
}

fn circuit() -> String {
    format!("{PUBLIC}/p2p/{}/p2p-circuit", keypair(9).public().to_peer_id())
}

#[test]
fn two_distinct_peers_reporting_one_public_address_confirm_it() {
    let mut harness = Harness::start();
    harness.identify_then_candidate(&keypair(1), PUBLIC);
    assert_eq!(harness.diagnostics().external_candidates_seen(), 1);
    assert_eq!(harness.diagnostics().external_candidates_recorded(), 1);
    assert_eq!(harness.diagnostics().external_addresses_promoted(), 0, "one peer's word is never enough");
    assert!(confirmed_addresses(&harness.drain()).is_empty(), "nothing is advertised on a single observation");

    harness.identify_then_candidate(&keypair(2), PUBLIC);
    assert_eq!(harness.diagnostics().external_candidates_seen(), 2);
    assert_eq!(
        harness.diagnostics().external_candidates_recorded(),
        1,
        "the promoting observation is counted as a promotion, not as a record"
    );
    assert_eq!(harness.diagnostics().external_addresses_promoted(), 1);
    let events = harness.drain();
    assert_eq!(confirmed_addresses(&events), vec![PUBLIC.to_owned()]);
    let Some(NetworkEvent::ExternalAddressConfirmed(endpoint)) =
        events.into_iter().find(|event| matches!(event, NetworkEvent::ExternalAddressConfirmed(_)))
    else {
        unreachable!("asserted just above")
    };
    assert_eq!(endpoint.reachability(), AddressReachability::Direct);

    harness.identify_then_candidate(&keypair(3), PUBLIC);
    assert_eq!(harness.diagnostics().external_candidates_seen(), 3);
    assert_eq!(harness.diagnostics().external_addresses_promoted(), 1);
    assert!(confirmed_addresses(&harness.drain()).is_empty());
}

#[test]
fn one_peer_reporting_the_same_address_repeatedly_never_confirms_it() {
    let mut harness = Harness::start();
    let liar = keypair(1);
    for _ in 0..8 {
        harness.identify_then_candidate(&liar, PUBLIC);
    }
    assert_eq!(harness.diagnostics().external_candidates_seen(), 8);
    assert_eq!(harness.diagnostics().external_candidates_recorded(), 8);
    assert_eq!(harness.diagnostics().external_addresses_promoted(), 0);
    assert!(confirmed_addresses(&harness.drain()).is_empty());
}

#[test]
fn a_candidate_with_no_identify_before_it_is_seen_and_never_counted() {
    let mut harness = Harness::start();
    harness.candidate(PUBLIC);
    assert_eq!(harness.diagnostics().external_candidates_seen(), 1);
    assert_eq!(harness.diagnostics().external_candidates_recorded(), 0);
    assert_eq!(harness.diagnostics().external_addresses_promoted(), 0);
}

#[test]
fn an_event_between_identify_and_a_candidate_closes_the_attribution_window() {
    let mut harness = Harness::start();
    harness.identified(&keypair(1));
    harness.other_event();
    harness.candidate(PUBLIC);
    assert_eq!(harness.diagnostics().external_candidates_seen(), 1);
    assert_eq!(harness.diagnostics().external_candidates_recorded(), 0);
}

#[test]
fn every_candidate_of_one_identify_exchange_shares_that_exchange_s_observer() {
    let mut harness = Harness::start();
    harness.identified(&keypair(1));
    for port in [4001, 4002, 4003] {
        harness.candidate(&format!("/ip4/203.0.113.7/tcp/{port}"));
    }
    assert_eq!(harness.diagnostics().external_candidates_seen(), 3);
    assert_eq!(harness.diagnostics().external_candidates_recorded(), 3);
    assert_eq!(harness.diagnostics().external_addresses_promoted(), 0);
}

#[test]
fn a_private_address_two_peers_agree_on_is_never_confirmed() {
    let mut harness = Harness::start();
    harness.identify_then_candidate(&keypair(1), "/ip4/192.168.1.20/tcp/4001");
    harness.identify_then_candidate(&keypair(2), "/ip4/192.168.1.20/tcp/4001");
    assert_eq!(harness.diagnostics().external_candidates_seen(), 2);
    assert_eq!(harness.diagnostics().external_candidates_recorded(), 0);
    assert_eq!(harness.diagnostics().external_addresses_promoted(), 0);
    assert!(confirmed_addresses(&harness.drain()).is_empty());
}

#[test]
fn a_peer_that_reports_our_own_identity_as_the_observer_corroborates_nothing() {
    let mut harness = Harness::start();
    let ourselves = Keypair::ed25519_from_bytes(LOCAL_SEED).expect("the fixture is a valid key");
    harness.identify_then_candidate(&ourselves, PUBLIC);
    harness.identify_then_candidate(&keypair(1), PUBLIC);
    assert_eq!(harness.diagnostics().external_candidates_seen(), 2);
    assert_eq!(harness.diagnostics().external_candidates_recorded(), 1, "only the real observer was counted");
    assert_eq!(harness.diagnostics().external_addresses_promoted(), 0);
}

#[test]
fn the_candidate_arm_never_reads_the_observed_address_identify_reported() {
    let mut harness = Harness::start();
    harness.identify_then_candidate(&keypair(1), PUBLIC);
    harness.identify_then_candidate(&keypair(2), PUBLIC);
    assert_eq!(confirmed_addresses(&harness.drain()), vec![PUBLIC.to_owned()]);
}

#[test]
fn a_successful_probe_reaches_the_composition_root_as_reachable() {
    let mut harness = Harness::start();
    harness.probe_succeeded(&keypair(1), PUBLIC);
    let events = harness.drain();
    assert_eq!(verdicts(&events), vec![reachable_at(PUBLIC)]);
    assert!(confirmed_addresses(&events).is_empty());
}

#[test]
fn a_single_failed_probe_reports_nothing_at_all() {
    let mut harness = Harness::start();
    harness.probe_failed(&keypair(1), PUBLIC);
    assert_eq!(harness.diagnostics().probes_run(), 1);
    assert_eq!(harness.diagnostics().probes_failed(), 1);
    assert!(verdicts(&harness.drain()).is_empty(), "still Unknown, and Unknown is reported by saying nothing");
}

#[test]
fn two_distinct_servers_failing_report_unreachable_exactly_once() {
    let mut harness = Harness::start();
    harness.probe_failed(&keypair(1), PUBLIC);
    assert!(verdicts(&harness.drain()).is_empty());
    harness.probe_failed(&keypair(2), PUBLIC);
    assert_eq!(verdicts(&harness.drain()), vec![Reachability::Unreachable], "two distinct servers agreeing is the bar");
    for seed in 3..=8 {
        harness.probe_failed(&keypair(seed), PUBLIC);
    }
    assert!(verdicts(&harness.drain()).is_empty());
}

#[test]
fn one_server_failing_repeatedly_never_reports_unreachable() {
    let mut harness = Harness::start();
    for _ in 0..8 {
        harness.probe_failed(&keypair(1), PUBLIC);
    }
    assert_eq!(harness.diagnostics().probes_failed(), 8);
    assert!(verdicts(&harness.drain()).is_empty());
}

#[test]
fn a_success_after_unreachable_reports_reachable_again() {
    let mut harness = Harness::start();
    harness.probe_failed(&keypair(1), PUBLIC);
    harness.probe_failed(&keypair(2), PUBLIC);
    assert_eq!(verdicts(&harness.drain()), vec![Reachability::Unreachable]);
    harness.probe_succeeded(&keypair(3), PUBLIC);
    assert_eq!(verdicts(&harness.drain()), vec![reachable_at(PUBLIC)]);
}

#[test]
fn every_probe_is_counted_exactly_once_and_the_totals_agree() {
    let mut harness = Harness::start();
    harness.probe_succeeded(&keypair(1), PUBLIC);
    harness.probe_failed(&keypair(2), PUBLIC);
    harness.probe_failed(&keypair(3), PUBLIC);
    harness.probe_succeeded(&keypair(4), PUBLIC);
    assert_eq!(harness.diagnostics().probes_run(), 4);
    assert_eq!(harness.diagnostics().probes_succeeded(), 2);
    assert_eq!(harness.diagnostics().probes_failed(), 2);
    assert_eq!(
        harness.diagnostics().probes_run(),
        harness.diagnostics().probes_succeeded() + harness.diagnostics().probes_failed()
    );
}

#[test]
fn a_probe_report_does_not_disturb_the_external_address_ledger() {
    let mut harness = Harness::start();
    harness.identify_then_candidate(&keypair(1), PUBLIC);
    harness.probe_succeeded(&keypair(2), PUBLIC);
    assert_eq!(harness.diagnostics().external_candidates_seen(), 1);
    assert_eq!(harness.diagnostics().external_candidates_recorded(), 1);
    assert_eq!(
        harness.diagnostics().external_addresses_promoted(),
        0,
        "a probe is not an observation, and does not corroborate one"
    );
    assert!(confirmed_addresses(&harness.drain()).is_empty());
}

#[test]
fn a_supplied_external_address_reaches_the_confirmation_path_the_other_two_use() {
    let mut harness = Harness::start();
    assert_eq!(harness.assert_external(PUBLIC), Ok(()));
    assert_eq!(harness.drain(), vec![confirmed_at(PUBLIC)], "one advertisement, over the existing path");
    assert_eq!(
        harness.diagnostics().external_candidates_seen(),
        0,
        "an assertion is not an observation and must not be counted as one"
    );
    assert_eq!(harness.diagnostics().external_addresses_promoted(), 0);
}

#[test]
fn several_supplied_external_addresses_are_every_one_advertised() {
    let mut harness = Harness::start();
    let supplied = [PUBLIC, OTHER_PUBLIC, "/ip6/2001:db8::1/tcp/4001", "/ip4/203.0.113.7/udp/4001/quic-v1"];
    for text in supplied {
        assert_eq!(harness.assert_external(text), Ok(()), "{text}");
    }
    assert_eq!(
        harness.drain(),
        supplied.iter().copied().map(confirmed_at).collect::<Vec<_>>(),
        "every supplied address is advertised, in the order it was supplied"
    );
}

#[test]
fn no_non_global_supplied_address_is_ever_advertised() {
    let mut harness = Harness::start();
    for (text, why) in NON_GLOBAL {
        assert_eq!(
            harness.assert_external(text),
            Err(NetworkStartError::NonGlobalExternalAddress),
            "{text} ({why}) must never be advertised"
        );
    }
    assert_eq!(
        harness.assert_external(&circuit()),
        Err(NetworkStartError::NonGlobalExternalAddress),
        "a circuit's public relay address is the relay's, not ours"
    );
    assert!(harness.drain().is_empty(), "a refused address reaches nothing at all");
}

#[test]
fn an_asserted_address_is_advertised_and_never_becomes_a_peer_to_contact() {
    let mut harness = Harness::start();
    assert_eq!(harness.assert_external(PUBLIC), Ok(()));
    assert_eq!(harness.drain(), vec![confirmed_at(PUBLIC)]);
    assert_eq!(harness.core.known_peer_count(), 0, "an asserted address must not enter the set of peers to dial");
    harness.identified_listening_at(&keypair(1), vec![address(OTHER_PUBLIC)]);
    assert_eq!(harness.core.known_peer_count(), 1);
}

#[test]
fn an_override_does_not_stop_the_ledger_recording_what_peers_observe() {
    let mut harness = Harness::start();
    assert_eq!(harness.assert_external(PUBLIC), Ok(()));
    assert_eq!(harness.drain(), vec![confirmed_at(PUBLIC)]);
    harness.identify_then_candidate(&keypair(1), OTHER_PUBLIC);
    assert_eq!(harness.diagnostics().external_candidates_recorded(), 1);
    assert!(confirmed_addresses(&harness.drain()).is_empty());
    harness.identify_then_candidate(&keypair(2), OTHER_PUBLIC);
    assert_eq!(harness.diagnostics().external_addresses_promoted(), 1);
    assert_eq!(harness.drain(), vec![confirmed_at(OTHER_PUBLIC)]);
    harness.identify_then_candidate(&keypair(1), PUBLIC);
    assert_eq!(
        harness.diagnostics().external_candidates_recorded(),
        2,
        "evidence about the asserted address is still collected"
    );
}

#[test]
fn an_override_is_still_probed_and_can_still_be_contradicted() {
    let mut harness = Harness::start();
    assert_eq!(harness.assert_external(PUBLIC), Ok(()));
    assert_eq!(harness.drain(), vec![confirmed_at(PUBLIC)]);
    harness.probe_failed(&keypair(1), PUBLIC);
    assert_eq!(harness.diagnostics().probes_run(), 1);
    assert_eq!(harness.diagnostics().probes_failed(), 1);
    assert!(verdicts(&harness.drain()).is_empty(), "one server's word still is not enough");
    harness.probe_failed(&keypair(2), PUBLIC);
    assert_eq!(verdicts(&harness.drain()), vec![Reachability::Unreachable]);
    harness.probe_succeeded(&keypair(3), PUBLIC);
    assert_eq!(verdicts(&harness.drain()), vec![reachable_at(PUBLIC)]);
    assert_eq!(harness.diagnostics().probes_run(), 3);
    assert_eq!(harness.diagnostics().probes_succeeded(), 1);
}

#[test]
fn the_same_sightings_are_there_for_a_second_join_as_for_the_first() {
    let mut harness = Harness::start();
    harness.mdns_discovered(vec![lan_sighting(1), lan_sighting(2)]);
    let first = harness.observe_peers();
    let second = harness.observe_peers();
    let third = harness.observe_peers();
    assert_eq!(first.len(), 2, "both LAN neighbours are candidates");
    assert_eq!(first, second, "the second join sees exactly what the first one saw");
    assert_eq!(second, third, "and so does the third");
}

#[test]
fn a_peer_seen_again_refreshes_its_sighting_instead_of_appearing_twice() {
    let mut harness = Harness::start();
    let peer = nth_keypair(1);
    harness.mdns_discovered(vec![(net(&peer), address("/ip4/192.168.1.10/tcp/4001"))]);
    harness.mdns_discovered(vec![(net(&peer), address("/ip4/192.168.1.10/tcp/4001"))]);
    harness.mdns_discovered(vec![(net(&peer), address("/ip4/203.0.113.7/tcp/4001"))]);
    let observed = harness.observe_peers();
    assert_eq!(observed.len(), 1, "one peer, however often it announces");
    assert_eq!(observed[0].endpoints.len(), 2, "and both addresses it claimed, each once");
}

#[test]
fn a_flood_of_sightings_cannot_grow_the_buffer_past_its_bound() {
    let mut harness = Harness::start_with(ResourceLimits { max_observed_peers: 8, ..ResourceLimits::shipped() });
    for index in 0..200 {
        harness.mdns_discovered(vec![lan_sighting(index)]);
        let _ = harness.drain();
        assert!(harness.observe_peers().len() <= 8, "the bound holds at every step, not only at the end");
    }
    assert_eq!(harness.observe_peers().len(), 8);
    assert_eq!(harness.diagnostics().dropped_events(), 0, "and the flood was absorbed rather than overflowing anything else");
}

#[test]
fn a_broadcast_that_reached_nobody_is_accepted_and_says_so() {
    let mut harness = Harness::start();
    assert_eq!(harness.publish_broadcast(b"anyone there?"), Ok(()), "publishing while alone is normal, not an error");
    assert_eq!(harness.diagnostics().broadcasts_reaching_nobody(), 1, "and it is visible as what it was");
    assert_eq!(harness.diagnostics().broadcasts_propagated(), 0, "nothing was handed to anybody");
}

#[test]
fn every_broadcast_lands_in_exactly_one_of_the_two_counters() {
    let mut harness = Harness::start();
    for attempt in 0..5 {
        assert_eq!(harness.publish_broadcast(format!("{attempt}").as_bytes()), Ok(()));
    }
    assert_eq!(
        harness.diagnostics().broadcasts_propagated() + harness.diagnostics().broadcasts_reaching_nobody(),
        5
    );
}

#[test]
fn an_oversize_broadcast_is_refused_and_counted_as_neither_outcome() {
    let mut harness = Harness::start();
    let oversize = vec![0_u8; harness.limits.max_envelope_bytes + 1];
    assert_eq!(harness.publish_broadcast(&oversize), Err(MessageTransportError::Unavailable));
    assert_eq!(harness.diagnostics().oversize_frames(), 1);
    assert_eq!(harness.diagnostics().broadcasts_propagated(), 0);
    assert_eq!(harness.diagnostics().broadcasts_reaching_nobody(), 0);
}

#[test]
fn the_test_fixtures_produce_distinct_observers() {
    let observers: Vec<libp2p::PeerId> = (1..=3).map(|seed| keypair(seed).public().to_peer_id()).collect();
    assert_ne!(observers[0], observers[1]);
    assert_ne!(observers[1], observers[2]);
    assert_ne!(observers[0], observers[2]);
}

#[test]
fn a_propagated_broadcast_is_counted_as_one_and_a_refused_one_as_neither() {
    let mut harness = Harness::start();
    assert_eq!(harness.core.publish_finished(PublishOutcome::Propagated), Ok(()));
    assert_eq!(harness.core.publish_finished(PublishOutcome::Duplicate), Ok(()));
    assert_eq!(harness.core.publish_finished(PublishOutcome::Failed), Err(MessageTransportError::Unavailable));
    assert_eq!(harness.diagnostics().broadcasts_propagated(), 1);
    assert_eq!(harness.diagnostics().broadcasts_reaching_nobody(), 1);
}

#[test]
fn a_sighting_ages_out_of_what_the_driver_reports() {
    let mut harness = Harness::start();
    harness.mdns_discovered(vec![lan_sighting(1)]);
    assert_eq!(harness.observe_peers().len(), 1);
    harness.now = 15 * 60 * 1_000;
    assert!(harness.observe_peers().is_empty());
}

#[test]
fn observing_peers_on_an_empty_network_is_success_and_not_an_error() {
    let mut harness = Harness::start();
    assert!(harness.observe_peers().is_empty());
}

fn carol() -> PeerId {
    let key = keypair(3).public().try_into_ed25519().expect("an Ed25519 key").to_bytes();
    PeerId::from_public_key_bytes(key).expect("a valid public key")
}

#[test]
fn a_peer_with_nowhere_to_dial_is_refused_rather_than_left_hanging() {
    let mut harness = Harness::start();
    assert!(matches!(
        harness.core.dial_plan(carol(), &[]),
        infra_net_libp2p::network_driver::DialPlan::Answer(Err(infra_net_libp2p::network_driver::PeerTransportError::NoReachableEndpoint))
    ));
    assert_eq!(
        harness.core.close_session(carol()),
        Err(infra_net_libp2p::network_driver::PeerTransportError::NoSuchSession)
    );
    assert_eq!(harness.core.send_direct(carol(), 64).err(), Some(MessageTransportError::PeerUnreachable));
}

#[test]
fn publishing_to_a_broadcast_channel_nobody_is_listening_to_is_success() {
    let mut harness = Harness::start();
    assert_eq!(harness.publish_broadcast(b"anyone there?"), Ok(()));
}
