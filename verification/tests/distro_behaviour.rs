use infra_net_libp2p::direct_message_codec::DirectMessageCodec;
use infra_net_libp2p::network::{BehaviourPlan, KademliaMode, NetworkConfig, DEFAULT_TOPIC};
use infra_net_libp2p::resource_limits::ResourceLimits;

fn plan() -> BehaviourPlan {
    BehaviourPlan::new(ResourceLimits::shipped(), false)
}

#[test]
fn every_instance_is_also_infrastructure() {
    let plan = plan();
    assert!(plan.relay_server);
    assert!(plan.autonat_server);
    assert!(plan.hole_punching);
    assert_eq!(plan.kademlia_mode, KademliaMode::Server);
}

#[test]
fn a_peer_offers_relaying_and_routing_to_every_stranger() {
    let plan = plan();
    assert!(plan.relay_server, "the relay *server* must answer to strangers");
    assert!(plan.autonat_server, "the AutoNAT server must answer other peers' reachability questions");
    assert_eq!(plan.kademlia_mode, KademliaMode::Server, "Kademlia must answer routing queries");
    assert_eq!(plan.kademlia_protocol, "/distro/kad/1.0.0");
    assert_eq!(plan.identify_protocol, "/distro/id/1.0.0");
    assert_eq!(plan.direct_protocol, DirectMessageCodec::protocol(), "1:1 messages ride their own protocol");
}

#[test]
fn a_relayed_link_is_offered_the_hole_punch_that_would_replace_it() {
    assert!(plan().hole_punching, "hole-punch coordination is what keeps relaying rare rather than universal");
}

#[test]
fn kademlia_serves_from_the_first_moment_rather_than_waiting_to_be_vindicated() {
    assert_eq!(plan().kademlia_mode, KademliaMode::Server);
}

#[test]
fn lan_discovery_is_off_only_when_it_is_switched_off() {
    assert!(!plan().lan_discovery, "`enable_mdns = false` must actually disable it");
    assert!(
        BehaviourPlan::new(ResourceLimits::shipped(), true).lan_discovery,
        "`enable_mdns = true` must actually enable it"
    );
}

#[test]
fn nothing_here_is_built_per_peer_or_per_role() {
    let limits = ResourceLimits::shipped();
    assert_eq!(BehaviourPlan::new(limits, false), BehaviourPlan::new(limits, false));
    let on = BehaviourPlan::new(limits, true);
    let off = BehaviourPlan::new(limits, false);
    assert_eq!(on.relay_server, off.relay_server);
    assert_eq!(on.kademlia_mode, off.kademlia_mode);
    assert_eq!(on.limits, limits);
}

#[test]
fn the_default_configuration_listens_everywhere_on_both_transports() {
    let config = NetworkConfig::default();
    assert_eq!(config.listen_addresses, vec!["/ip4/0.0.0.0/udp/0/quic-v1".to_owned(), "/ip4/0.0.0.0/tcp/0".to_owned()]);
    assert!(config.external_addresses.is_empty());
    assert!(config.enable_lan_discovery);
    assert_eq!(config.broadcast_topic, DEFAULT_TOPIC);
    let loopback = NetworkConfig::loopback();
    assert!(!loopback.enable_lan_discovery);
    assert_eq!(loopback.listen_addresses[1], "/ip4/127.0.0.1/tcp/0");
}
