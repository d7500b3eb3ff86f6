use infra_net_libp2p::address::Address;
use infra_net_libp2p::domain::{AddressReachability, Endpoint, EndpointError, MAX_ADDRESS_BYTES};
use infra_net_libp2p::endpoint_mapping::{EndpointMapping, EndpointMappingError};
use libp2p::identity::Keypair;

fn libp2p_peer(seed: u8) -> libp2p::PeerId {
    Keypair::ed25519_from_bytes([seed; 32]).expect("32 bytes are a valid Ed25519 seed").public().to_peer_id()
}

fn relay_circuit() -> String {
    let relay = libp2p_peer(1);
    let target = libp2p_peer(2);
    format!("/ip4/198.51.100.7/udp/4001/quic-v1/p2p/{relay}/p2p-circuit/p2p/{target}")
}

#[test]
fn classifies_a_plain_quic_address_as_direct() {
    let endpoint = EndpointMapping::parse("/ip4/127.0.0.1/udp/4001/quic-v1").expect("parses");
    assert_eq!(endpoint.reachability(), AddressReachability::Direct);
    assert!(!endpoint.is_relayed());
}

#[test]
fn classifies_a_plain_tcp_address_as_direct() {
    let endpoint = EndpointMapping::parse("/ip4/10.0.0.4/tcp/4001").expect("parses");
    assert_eq!(endpoint.reachability(), AddressReachability::Direct);
}

#[test]
fn classifies_a_circuit_address_as_relayed() {
    let endpoint = EndpointMapping::parse(&relay_circuit()).expect("parses");
    assert_eq!(endpoint.reachability(), AddressReachability::Relayed);
    assert!(endpoint.is_relayed());
}

#[test]
fn classifies_a_circuit_address_without_a_target_suffix_as_relayed() {
    let relay = libp2p_peer(1);
    let address = format!("/ip4/198.51.100.7/tcp/4001/p2p/{relay}/p2p-circuit");
    assert_eq!(EndpointMapping::parse(&address).expect("parses").reachability(), AddressReachability::Relayed);
}

#[test]
fn round_trips_a_direct_address_unchanged() {
    let original = Address::parse("/ip4/192.0.2.1/udp/4001/quic-v1").expect("parses");
    let endpoint = EndpointMapping::to_endpoint(&original).expect("maps in");
    let returned = EndpointMapping::to_multiaddr(&endpoint).expect("maps out");
    assert_eq!(returned, original);
    assert_eq!(endpoint.reachability(), AddressReachability::Direct);
}

#[test]
fn round_trips_a_relayed_address_unchanged() {
    let original = Address::parse(&relay_circuit()).expect("parses");
    let endpoint = EndpointMapping::to_endpoint(&original).expect("maps in");
    let returned = EndpointMapping::to_multiaddr(&endpoint).expect("maps out");
    assert_eq!(returned, original);
    assert_eq!(endpoint.reachability(), AddressReachability::Relayed);
}

#[test]
fn round_trips_every_transport_shape_this_build_speaks() {
    let addresses = [
        "/ip4/127.0.0.1/tcp/0",
        "/ip4/0.0.0.0/udp/0/quic-v1",
        "/ip6/::1/udp/4001/quic-v1",
        "/ip6/::/tcp/4001",
        "/ip4/203.0.113.9/udp/40001/quic-v1",
    ];
    for address in addresses {
        let parsed = Address::parse(address).expect("fixture parses");
        let endpoint = EndpointMapping::to_endpoint(&parsed).expect("maps in");
        assert_eq!(
            EndpointMapping::to_multiaddr(&endpoint).expect("maps out"),
            parsed,
            "{address} did not survive the round trip"
        );
        assert_eq!(endpoint.reachability(), AddressReachability::Direct);
    }
}

#[test]
fn refuses_text_that_is_not_a_multiaddress() {
    assert_eq!(EndpointMapping::parse("192.168.1.1:4001"), Err(EndpointMappingError::MalformedAddress));
    assert_eq!(EndpointMapping::parse("not an address at all"), Err(EndpointMappingError::MalformedAddress));
    assert_eq!(EndpointMapping::parse(""), Err(EndpointMappingError::MalformedAddress));
}

#[test]
fn refuses_a_multiaddress_with_an_unknown_protocol() {
    assert_eq!(EndpointMapping::parse("/ip4/127.0.0.1/nonsense/4001"), Err(EndpointMappingError::MalformedAddress));
}

#[test]
fn an_endpoint_whose_text_is_not_an_address_cannot_be_dialled() {
    let endpoint = Endpoint::direct("hello, world").expect("the domain accepts this");
    assert_eq!(EndpointMapping::to_multiaddr(&endpoint), Err(EndpointMappingError::MalformedAddress));
}

#[test]
fn refuses_an_address_longer_than_the_domain_admits() {
    let long_path = "a".repeat(MAX_ADDRESS_BYTES);
    let address = format!("/ip4/127.0.0.1/tcp/4001/p2p-circuit/memory/{long_path}");
    assert!(matches!(
        EndpointMapping::parse(&address),
        Err(EndpointMappingError::MalformedAddress | EndpointMappingError::Rejected(_))
    ));
}

#[test]
fn trims_surrounding_whitespace_the_way_a_pasted_address_arrives() {
    let endpoint = EndpointMapping::parse("  /ip4/127.0.0.1/udp/4001/quic-v1\t").expect("parses trimmed");
    assert_eq!(endpoint.address(), "/ip4/127.0.0.1/udp/4001/quic-v1");
}

#[test]
fn a_long_but_well_formed_address_is_refused_by_the_domain_by_name() {
    let long_dns = "a".repeat(MAX_ADDRESS_BYTES);
    let address = format!("/dns4/{long_dns}/tcp/4001");
    assert_eq!(EndpointMapping::parse(&address), Err(EndpointMappingError::Rejected(EndpointError::TooLong)));
}

#[test]
fn the_reachability_of_an_address_is_read_off_its_circuit_hop() {
    let direct = Address::parse("/ip4/203.0.113.9/tcp/4001").expect("parses");
    let relayed = Address::parse(&relay_circuit()).expect("parses");
    assert_eq!(EndpointMapping::reachability_of(&direct), AddressReachability::Direct);
    assert_eq!(EndpointMapping::reachability_of(&relayed), AddressReachability::Relayed);
}
