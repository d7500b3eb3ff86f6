use infra_net_libp2p::network::BehaviourPlan;
use infra_net_libp2p::resource_limits::ResourceLimits;

#[test]
fn the_guard_is_reading_a_graph_and_not_an_empty_list() {
    // The crates that must be in the compiled graph, each present through a
    // type of its own: were one absent from the graph, this would not build.
    let sizes = [
        ("libp2p", std::mem::size_of::<libp2p::SwarmBuilder<(), ()>>()),
        ("libp2p-relay", std::mem::size_of::<libp2p::relay::Behaviour>()),
        ("libp2p-mdns", std::mem::size_of::<libp2p::mdns::Config>()),
        ("tokio", std::mem::size_of::<tokio::runtime::Runtime>()),
    ];
    for (expected, size) in sizes {
        assert!(size > 0, "`{expected}` contributed no type to the graph");
    }
}

#[test]
fn the_plan_names_no_service_anybody_operates() {
    // Every protocol the plan serves is this network's own or libp2p's; none
    // is a name resolver, a metrics endpoint or an HTTP service.
    let plan = BehaviourPlan::new(ResourceLimits::shipped(), true);
    for protocol in [plan.identify_protocol, plan.kademlia_protocol, plan.direct_protocol] {
        assert!(protocol.starts_with("/distro/"), "{protocol}");
    }
}
