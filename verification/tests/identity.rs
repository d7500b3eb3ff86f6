use infra_net_libp2p::address::{Address, AddressPart};
use infra_net_libp2p::identity::{bytes_before, bytes_equal, NetPeer, PeerId};
use infra_net_libp2p::network_identity::NetworkIdentity;
use libp2p::identity::Keypair;

#[test]
fn an_identity_is_the_public_key_of_its_secret_and_the_secret_is_wiped() {
    let mut secret = [5_u8; 32];
    let expected = Keypair::ed25519_from_bytes([5_u8; 32])
        .expect("a valid secret key")
        .public()
        .try_into_ed25519()
        .expect("an Ed25519 key")
        .to_bytes();
    let identity = NetworkIdentity::from_ed25519_secret_key(&mut secret).expect("32 bytes are a secret key");
    assert_eq!(identity.peer_id().as_bytes(), &expected);
    assert_eq!(secret, [0_u8; 32], "the secret is zeroed once it is taken");
    assert_eq!(identity.keypair().public().to_peer_id(), Keypair::ed25519_from_bytes([5_u8; 32]).unwrap().public().to_peer_id());
}

#[test]
fn an_address_is_held_in_its_canonical_form() {
    let address = Address::parse("/ip6/0:0:0:0:0:0:0:1/tcp/4001").expect("parses");
    assert_eq!(address.text(), "/ip6/::1/tcp/4001");
    assert_eq!(address.parts()[0], AddressPart::Ip6 { segments: [0, 0, 0, 0, 0, 0, 0, 1] });
    assert_eq!(address.parts()[1], AddressPart::Other);
    let v4 = Address::parse("/ip4/203.0.113.7/udp/4001/quic-v1").expect("parses");
    assert_eq!(v4.parts()[0], AddressPart::Ip4 { octets: [203, 0, 113, 7] });
    assert!(!v4.is_circuit());
    assert!(Address::parse("/ip4/203.0.113.7/tcp/1/p2p-circuit").expect("parses").is_circuit());
    assert!(Address::parse("/ip4/300.0.0.1/tcp/1").is_none());
}

#[test]
fn identities_are_ordered_by_their_key_bytes() {
    assert!(bytes_before(&[1, 2], &[1, 3]));
    assert!(bytes_before(&[1], &[1, 0]));
    assert!(!bytes_before(&[2], &[1, 9]));
    assert!(bytes_equal(&[4, 5], &[4, 5]));
    assert!(!bytes_equal(&[4, 5], &[4]));
    let a = NetPeer::from_multihash(0x12, &[1; 32]).expect("a peer id");
    let b = NetPeer::from_multihash(0x12, &[2; 32]).expect("a peer id");
    assert!(a.precedes(&b));
    assert!(!b.precedes(&a));
    assert!(a.same_as(&a.duplicate()));
}

#[test]
fn only_a_valid_public_key_is_an_identity() {
    let key = Keypair::ed25519_from_bytes([9_u8; 32]).unwrap().public().try_into_ed25519().unwrap().to_bytes();
    let peer = PeerId::from_public_key_bytes(key).expect("a valid key");
    assert_eq!(peer.to_array(), key);
    let other = PeerId::from_public_key_bytes(Keypair::ed25519_from_bytes([8_u8; 32]).unwrap().public().try_into_ed25519().unwrap().to_bytes()).unwrap();
    assert!(peer.same_as(&peer));
    assert!(!peer.same_as(&other));
    assert_eq!(peer.precedes(&other), peer.to_array() < other.to_array());
}

#[test]
fn the_library_and_libp2p_agree_on_which_bytes_are_a_key() {
    let mut refused = 0;
    for first in 0..=255_u8 {
        let mut key = [0_u8; 32];
        key[0] = first;
        let libp2p_accepts = libp2p::identity::ed25519::PublicKey::try_from_bytes(&key).is_ok();
        assert_eq!(PeerId::from_public_key_bytes(key).is_ok(), libp2p_accepts, "{first}");
        if !libp2p_accepts {
            refused += 1;
        }
    }
    assert!(refused > 0, "some of these bytes are not curve points");
}
