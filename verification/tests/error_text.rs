use infra_net_libp2p::domain::{EndpointError, JoinTicketError};
use infra_net_libp2p::endpoint_mapping::EndpointMappingError;
use infra_net_libp2p::join_ticket_codec::JoinTicketCodecError;
use infra_net_libp2p::link_registry::LinkRegistryError;
use infra_net_libp2p::network::NetworkStartError;
use infra_net_libp2p::network_identity::NetworkIdentityError;
use infra_net_libp2p::peer_id_mapping::PeerIdMappingError;

#[test]
fn a_hashed_identity_names_its_multihash_code_in_hexadecimal() {
    assert_eq!(
        PeerIdMappingError::NotInlined { code: 0x12 }.describe(),
        "peer identity uses multihash 0x12 rather than an inlined key, so no public key can be recovered from it"
    );
    assert!(PeerIdMappingError::NotInlined { code: 0xb220 }.describe().contains("0xb220 "));
    assert_eq!(
        NetworkIdentityError::Mapping(PeerIdMappingError::NotEd25519).describe(),
        "peer identity does not carry an Ed25519 public key"
    );
    assert_eq!(NetworkIdentityError::MalformedKey.describe(), "bytes are not a valid Ed25519 secret key");
}

#[test]
fn a_ticket_refusal_says_what_a_user_can_act_on() {
    assert_eq!(
        JoinTicketCodecError::TooLarge { bytes: 5000, limit: 4096 }.describe(),
        "join ticket text is 5000 bytes, refused before decoding at the 4096-byte cap"
    );
    assert_eq!(JoinTicketCodecError::MissingField("issuer").describe(), "join ticket has no `issuer` field");
    assert_eq!(
        JoinTicketCodecError::Endpoint(EndpointMappingError::MalformedAddress).describe(),
        "join ticket endpoint is unusable: address is not a well-formed multiaddress"
    );
    assert_eq!(
        JoinTicketCodecError::Rejected(JoinTicketError::NoEndpoints).describe(),
        JoinTicketError::NoEndpoints.describe()
    );
}

#[test]
fn an_endpoint_refusal_reads_through_the_mapping() {
    assert_eq!(
        EndpointMappingError::Rejected(EndpointError::TooLong).describe(),
        "endpoint address is longer than 256 bytes"
    );
    assert_eq!(EndpointError::Empty.describe(), "endpoint address is empty");
}

#[test]
fn a_refused_external_address_points_at_lan_discovery() {
    let text = NetworkStartError::NonGlobalExternalAddress.describe();
    assert!(text.starts_with("a configured external address is not reachable from outside this network"));
    assert!(text.contains("mDNS already covers the local network"));
    assert_eq!(NetworkStartError::NoListenAddress.describe(), "no listen address is configured");
    assert_eq!(
        LinkRegistryError::SelfConnection.describe(),
        "a connection claiming this peer's own identity was refused"
    );
}
