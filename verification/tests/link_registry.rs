use infra_net_libp2p::address::Address;
use infra_net_libp2p::domain::SessionDirection;
use infra_net_libp2p::identity::{NetPeer, PeerId};
use infra_net_libp2p::link_registry::{ConnectionId, LinkRegistry, LinkRegistryError};
use infra_net_libp2p::peer_id_mapping::PeerIdMapping;
use libp2p::identity::Keypair;

fn fixture(seed: u8) -> PeerId {
    let key = Keypair::ed25519_from_bytes([seed; 32])
        .expect("32 bytes are a valid Ed25519 seed")
        .public()
        .try_into_ed25519()
        .expect("an Ed25519 key")
        .to_bytes();
    PeerId::from_public_key_bytes(key).expect("a valid public key")
}

fn alice() -> PeerId {
    fixture(1)
}

fn bob() -> PeerId {
    fixture(2)
}

fn carol() -> PeerId {
    fixture(3)
}

fn libp2p_text(peer: PeerId) -> String {
    let net = PeerIdMapping::to_libp2p(peer).expect("maps out");
    let multihash = libp2p::multihash::Multihash::<64>::wrap(net.code(), net.digest()).expect("fits");
    libp2p::PeerId::from_multihash(multihash).expect("a peer id").to_string()
}

fn address(port: u16) -> Address {
    Address::parse(&format!("/ip4/127.0.0.1/udp/{port}/quic-v1")).expect("fixture parses")
}

fn relayed_address() -> Address {
    Address::parse(&format!("/ip4/203.0.113.4/tcp/4001/p2p/{}/p2p-circuit", libp2p_text(carol())))
        .expect("fixture parses")
}

fn connection(id: usize) -> ConnectionId {
    ConnectionId::new_unchecked(id)
}

fn ordered_pair() -> (PeerId, PeerId) {
    let (first, second) = (alice(), bob());
    if first < second {
        (first, second)
    } else {
        (second, first)
    }
}

fn lower_local() -> (LinkRegistry, PeerId, NetPeer) {
    let (low, high) = ordered_pair();
    (LinkRegistry::new(low), high, PeerIdMapping::to_libp2p(high).expect("maps out"))
}

fn higher_local() -> (LinkRegistry, PeerId, NetPeer) {
    let (low, high) = ordered_pair();
    (LinkRegistry::new(high), low, PeerIdMapping::to_libp2p(low).expect("maps out"))
}

#[test]
fn the_first_link_becomes_the_session_and_is_announced() {
    let (mut registry, remote_identity, remote) = lower_local();
    let outcome = registry
        .record_established(remote_identity, remote.duplicate(), connection(1), SessionDirection::Outbound, address(4001))
        .expect("recorded");
    assert_eq!(outcome.primary, connection(1));
    assert_eq!(outcome.primary_address, address(4001));
    assert!(outcome.close.is_empty());
    assert!(outcome.newly_connected);
    assert!(outcome.collapse.is_none());
    assert!(registry.holds_session(&remote));
}

#[test]
fn a_lone_inbound_link_is_the_session_too() {
    let (mut registry, remote_identity, remote) = lower_local();
    let outcome = registry
        .record_established(remote_identity, remote, connection(1), SessionDirection::Inbound, address(4002))
        .expect("recorded");
    assert_eq!(outcome.primary, connection(1));
    assert!(outcome.newly_connected);
}

#[test]
fn a_simultaneous_connect_keeps_the_lower_peers_dial_when_that_is_us() {
    let (mut registry, remote_identity, remote) = lower_local();
    registry
        .record_established(remote_identity, remote.duplicate(), connection(1), SessionDirection::Inbound, address(4001))
        .expect("recorded");
    let outcome = registry
        .record_established(remote_identity, remote, connection(2), SessionDirection::Outbound, address(4002))
        .expect("recorded");
    assert_eq!(outcome.primary, connection(2));
    assert_eq!(outcome.close, vec![connection(1)]);
    assert_eq!(outcome.collapse.expect("a collapse was resolved").survivor(), SessionDirection::Outbound);
}

#[test]
fn a_simultaneous_connect_keeps_the_lower_peers_dial_when_that_is_them() {
    let (mut registry, remote_identity, remote) = higher_local();
    registry
        .record_established(remote_identity, remote.duplicate(), connection(1), SessionDirection::Outbound, address(4001))
        .expect("recorded");
    let outcome = registry
        .record_established(remote_identity, remote, connection(2), SessionDirection::Inbound, address(4002))
        .expect("recorded");
    assert_eq!(outcome.primary, connection(2));
    assert_eq!(outcome.close, vec![connection(1)]);
    assert_eq!(outcome.collapse.expect("a collapse was resolved").survivor(), SessionDirection::Inbound);
}

#[test]
fn the_collapse_answer_does_not_depend_on_which_link_arrived_first() {
    for outbound_first in [true, false] {
        let (mut registry, remote_identity, remote) = lower_local();
        let (first, second) = if outbound_first {
            (SessionDirection::Outbound, SessionDirection::Inbound)
        } else {
            (SessionDirection::Inbound, SessionDirection::Outbound)
        };
        registry
            .record_established(remote_identity, remote.duplicate(), connection(1), first, address(4001))
            .expect("recorded");
        let outcome = registry
            .record_established(remote_identity, remote, connection(2), second, address(4002))
            .expect("recorded");
        let survivor_direction = if outbound_first { first } else { second };
        assert_eq!(survivor_direction, SessionDirection::Outbound, "the lower peer's dial survives either way");
        assert_eq!(outcome.close.len(), 1);
    }
}

#[test]
fn a_collapse_does_not_announce_a_second_session() {
    let (mut registry, remote_identity, remote) = lower_local();
    registry
        .record_established(remote_identity, remote.duplicate(), connection(1), SessionDirection::Inbound, address(4001))
        .expect("recorded");
    let outcome = registry
        .record_established(remote_identity, remote, connection(2), SessionDirection::Outbound, address(4002))
        .expect("recorded");
    assert!(!outcome.newly_connected);
}

#[test]
fn closing_the_superseded_link_does_not_end_the_session() {
    let (mut registry, remote_identity, remote) = lower_local();
    registry
        .record_established(remote_identity, remote.duplicate(), connection(1), SessionDirection::Inbound, address(4001))
        .expect("recorded");
    registry
        .record_established(remote_identity, remote.duplicate(), connection(2), SessionDirection::Outbound, address(4002))
        .expect("recorded");
    let closed = registry.record_closed(&remote, connection(1)).expect("the superseded link was tracked");
    assert!(!closed.was_primary);
    assert!(!closed.peer_gone);
    assert_eq!(closed.new_primary, Some(connection(2)));
    assert!(registry.holds_session(&remote));
}

#[test]
fn closing_the_last_link_ends_the_session() {
    let (mut registry, remote_identity, remote) = lower_local();
    registry
        .record_established(remote_identity, remote.duplicate(), connection(1), SessionDirection::Outbound, address(4001))
        .expect("recorded");
    let closed = registry.record_closed(&remote, connection(1)).expect("tracked");
    assert!(closed.was_primary);
    assert!(closed.peer_gone);
    assert_eq!(closed.new_primary, None);
    assert!(!registry.holds_session(&remote));
}

#[test]
fn losing_the_survivor_first_promotes_the_remaining_link() {
    let (mut registry, remote_identity, remote) = lower_local();
    registry
        .record_established(remote_identity, remote.duplicate(), connection(1), SessionDirection::Inbound, address(4001))
        .expect("recorded");
    registry
        .record_established(remote_identity, remote.duplicate(), connection(2), SessionDirection::Outbound, address(4002))
        .expect("recorded");
    let closed = registry.record_closed(&remote, connection(2)).expect("tracked");
    assert!(closed.was_primary);
    assert!(!closed.peer_gone);
    assert_eq!(closed.new_primary, Some(connection(1)));
}

#[test]
fn a_redundant_dial_in_the_same_direction_keeps_the_oldest_link() {
    let (mut registry, remote_identity, remote) = lower_local();
    registry
        .record_established(remote_identity, remote.duplicate(), connection(1), SessionDirection::Outbound, address(4001))
        .expect("recorded");
    let outcome = registry
        .record_established(remote_identity, remote, connection(2), SessionDirection::Outbound, address(4002))
        .expect("recorded");
    assert_eq!(outcome.primary, connection(1));
    assert_eq!(outcome.close, vec![connection(2)]);
    assert!(outcome.collapse.is_none());
}

#[test]
fn the_primary_address_follows_the_surviving_link() {
    let (mut registry, remote_identity, remote) = higher_local();
    registry
        .record_established(remote_identity, remote.duplicate(), connection(1), SessionDirection::Outbound, address(4001))
        .expect("recorded");
    let outcome = registry
        .record_established(remote_identity, remote.duplicate(), connection(2), SessionDirection::Inbound, relayed_address())
        .expect("recorded");
    assert_eq!(outcome.primary_address, relayed_address());
    assert_eq!(registry.primary_address(&remote), Some(relayed_address()));
}

#[test]
fn close_session_by_peer_names_every_link_that_peer_holds() {
    let (mut registry, remote_identity, remote) = lower_local();
    registry
        .record_established(remote_identity, remote.duplicate(), connection(1), SessionDirection::Inbound, address(4001))
        .expect("recorded");
    registry
        .record_established(remote_identity, remote.duplicate(), connection(2), SessionDirection::Outbound, address(4002))
        .expect("recorded");
    assert_eq!(registry.connections_of(&remote), vec![connection(1), connection(2)]);
    registry.forget(&remote);
    assert!(!registry.holds_session(&remote));
    assert!(registry.connections_of(&remote).is_empty());
}

#[test]
fn a_connection_claiming_our_own_identity_is_refused() {
    let local = alice();
    let mut registry = LinkRegistry::new(local);
    assert_eq!(
        registry.record_established(
            local,
            PeerIdMapping::to_libp2p(local).expect("maps out"),
            connection(1),
            SessionDirection::Inbound,
            address(4001),
        ),
        Err(LinkRegistryError::SelfConnection)
    );
    assert_eq!(registry.session_count(), 0);
}

#[test]
fn closing_a_connection_that_was_never_recorded_reports_nothing() {
    let (mut registry, _, remote) = lower_local();
    assert!(registry.record_closed(&remote, connection(9)).is_none());
}

#[test]
fn sessions_with_different_peers_are_independent() {
    let mut registry = LinkRegistry::new(alice());
    let first = PeerIdMapping::to_libp2p(bob()).expect("maps out");
    let second = PeerIdMapping::to_libp2p(carol()).expect("maps out");
    registry
        .record_established(bob(), first.duplicate(), connection(1), SessionDirection::Outbound, address(4001))
        .expect("recorded");
    registry
        .record_established(carol(), second.duplicate(), connection(2), SessionDirection::Inbound, address(4002))
        .expect("recorded");
    assert_eq!(registry.session_count(), 2);
    registry.record_closed(&first, connection(1));
    assert!(!registry.holds_session(&first));
    assert!(registry.holds_session(&second));
}

#[test]
fn a_closed_peer_that_reconnects_is_announced_again() {
    let (mut registry, remote_identity, remote) = lower_local();
    registry
        .record_established(remote_identity, remote.duplicate(), connection(1), SessionDirection::Outbound, address(4001))
        .expect("recorded");
    registry.record_closed(&remote, connection(1)).expect("tracked");
    let outcome = registry
        .record_established(remote_identity, remote.duplicate(), connection(3), SessionDirection::Inbound, address(4003))
        .expect("recorded");
    assert!(outcome.newly_connected);
    assert_eq!(outcome.primary, connection(3));
    assert_eq!(registry.primary_address(&remote), Some(address(4003)));
}
