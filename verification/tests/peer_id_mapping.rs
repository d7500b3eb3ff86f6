use infra_net_libp2p::identity::{NetPeer, PeerId};
use infra_net_libp2p::peer_id_mapping::{PeerIdMapping, PeerIdMappingError};
use libp2p::identity::{ed25519, Keypair, PublicKey};
use libp2p::multihash::Multihash;

fn public_key(seed: u8) -> [u8; 32] {
    Keypair::ed25519_from_bytes([seed; 32])
        .expect("32 bytes are a valid Ed25519 seed")
        .public()
        .try_into_ed25519()
        .expect("an Ed25519 key")
        .to_bytes()
}

fn alice_public_key() -> [u8; 32] {
    public_key(1)
}

fn fixture(seed: u8) -> PeerId {
    PeerId::from_public_key_bytes(public_key(seed)).expect("a valid public key")
}

fn alice() -> PeerId {
    fixture(1)
}

fn bob() -> PeerId {
    fixture(2)
}

fn carol() -> PeerId {
    fixture(3)
}

fn net(peer: &libp2p::PeerId) -> NetPeer {
    NetPeer::from_multihash(peer.as_ref().code(), peer.as_ref().digest()).expect("a peer id")
}

fn libp2p_of(peer: &NetPeer) -> libp2p::PeerId {
    libp2p::PeerId::from_multihash(Multihash::<64>::wrap(peer.code(), peer.digest()).expect("wraps"))
        .expect("valid peer id")
}

#[test]
fn maps_a_domain_peer_id_to_libp2p_and_back() {
    let original = alice();
    let mapped = PeerIdMapping::to_libp2p(original).expect("alice maps out");
    let returned = PeerIdMapping::from_libp2p(&mapped).expect("alice maps back");
    assert_eq!(returned, original);
}

#[test]
fn the_round_trip_holds_for_every_fixture_identity() {
    for peer in [alice(), bob(), carol()] {
        let mapped = PeerIdMapping::to_libp2p(peer).expect("maps out");
        assert_eq!(PeerIdMapping::from_libp2p(&mapped).expect("maps back"), peer);
    }
}

#[test]
fn maps_a_libp2p_peer_id_to_the_domain_and_back() {
    let keypair = Keypair::generate_ed25519();
    let original = keypair.public().to_peer_id();
    let domain = PeerIdMapping::from_libp2p(&net(&original)).expect("maps in");
    let returned = PeerIdMapping::to_libp2p(domain).expect("maps out");
    assert_eq!(libp2p_of(&returned), original);
}

#[test]
fn the_mapping_preserves_the_exact_key_bytes() {
    let mapped = PeerIdMapping::to_libp2p(alice()).expect("maps out");
    let returned = PeerIdMapping::from_libp2p(&mapped).expect("maps back");
    assert_eq!(returned.as_bytes(), &alice_public_key());
}

#[test]
fn distinct_identities_stay_distinct_across_the_mapping() {
    let mapped_alice = PeerIdMapping::to_libp2p(alice()).expect("maps out");
    let mapped_bob = PeerIdMapping::to_libp2p(bob()).expect("maps out");
    assert_ne!(mapped_alice, mapped_bob);
}

#[test]
fn a_hashed_identity_is_refused_rather_than_guessed() {
    let digest = Multihash::<64>::wrap(0x12, &[0_u8; 32]).expect("wraps");
    let hashed = libp2p::PeerId::from_multihash(digest).expect("valid peer id");
    assert_eq!(PeerIdMapping::from_libp2p(&net(&hashed)), Err(PeerIdMappingError::NotInlined { code: 0x12 }));
}

#[test]
fn a_non_ed25519_inlined_key_is_refused() {
    let keypair = Keypair::generate_secp256k1();
    let peer = keypair.public().to_peer_id();
    assert_eq!(PeerIdMapping::from_libp2p(&net(&peer)), Err(PeerIdMappingError::NotEd25519));
}

#[test]
fn an_inlined_payload_that_is_not_a_public_key_is_refused() {
    let digest = Multihash::<64>::wrap(0x00, b"not a protobuf public key").expect("wraps");
    let bogus = libp2p::PeerId::from_multihash(digest).expect("valid peer id");
    assert_eq!(PeerIdMapping::from_libp2p(&net(&bogus)), Err(PeerIdMappingError::MalformedKey));
}

#[test]
fn no_input_makes_the_mapping_panic() {
    let inputs = [
        libp2p::PeerId::random(),
        Keypair::generate_ed25519().public().to_peer_id(),
        Keypair::generate_secp256k1().public().to_peer_id(),
        libp2p::PeerId::from_multihash(Multihash::<64>::wrap(0x00, &[]).expect("wraps")).expect("valid"),
        libp2p::PeerId::from_multihash(Multihash::<64>::wrap(0x12, &[9_u8; 32]).expect("wraps")).expect("valid"),
    ];
    for input in inputs {
        let _ = PeerIdMapping::from_libp2p(&net(&input));
    }
}

#[test]
fn a_libp2p_public_key_and_the_domain_peer_id_agree() {
    let key = ed25519::PublicKey::try_from_bytes(&alice_public_key()).expect("valid key");
    let from_libp2p = PublicKey::from(key).to_peer_id();
    let from_domain =
        PeerIdMapping::to_libp2p(PeerId::from_public_key_bytes(alice_public_key()).expect("valid")).expect("maps out");
    assert_eq!(from_libp2p, libp2p_of(&from_domain));
}

#[test]
fn the_mapped_identity_inlines_the_key_s_protobuf_encoding() {
    let mapped = PeerIdMapping::to_libp2p(alice()).expect("maps out");
    assert_eq!(mapped.code(), 0);
    let mut expected = vec![0x08_u8, 0x01, 0x12, 0x20];
    expected.extend_from_slice(&alice_public_key());
    assert_eq!(mapped.digest(), expected.as_slice());
}

#[test]
fn a_multihash_that_cannot_be_a_peer_id_is_not_one() {
    assert!(NetPeer::from_multihash(0x13, &[0_u8; 32]).is_none());
    assert!(NetPeer::from_multihash(0x12, &[0_u8; 32]).is_some());
    assert!(NetPeer::from_multihash(0x00, &[0_u8; 43]).is_none());
    assert!(NetPeer::from_multihash(0x00, &[0_u8; 42]).is_some());
}
