use infra_net_libp2p::address::Address;
use infra_net_libp2p::domain::Endpoint;
use infra_net_libp2p::endpoint_mapping::EndpointMapping;
use infra_net_libp2p::external_address_ledger::CORROBORATION_THRESHOLD;
use infra_net_libp2p::identity::NetPeer;
use infra_net_libp2p::reachability_ledger::{ProbeOutcome, ProbeResult, Reachability, ReachabilityLedger};
use infra_net_libp2p::resource_limits::ResourceLimits;
use libp2p::identity::Keypair;

const PUBLIC: &str = "/ip4/203.0.113.7/tcp/4001";
const OTHER: &str = "/ip4/203.0.113.8/tcp/4001";

fn endpoint(text: &str) -> Endpoint {
    EndpointMapping::parse(text).expect("a well-formed multiaddress")
}

/// A distinct, deterministic probe server per seed.
fn server(seed: u8) -> NetPeer {
    let id = Keypair::ed25519_from_bytes([seed; 32])
        .expect("32 bytes are a valid Ed25519 seed")
        .public()
        .to_peer_id();
    NetPeer::from_multihash(id.as_ref().code(), id.as_ref().digest()).expect("a peer id")
}

fn ledger() -> ReachabilityLedger {
    ReachabilityLedger::new(ResourceLimits::shipped().max_failing_addresses)
}

fn flooded(index: usize) -> Address {
    Address::parse(&format!("/ip4/203.0.113.7/tcp/{}", 4000 + index)).expect("a well-formed multiaddress")
}

#[test]
fn a_new_ledger_is_unknown_and_unknown_is_never_unreachable() {
    let ledger = ledger();
    assert_eq!(ledger.reachability(), Reachability::Unknown);
    assert_ne!(Reachability::Unknown, Reachability::Unreachable);
    assert_ne!(Reachability::Unknown, Reachability::Reachable(endpoint(PUBLIC)));
}

#[test]
fn one_successful_probe_makes_the_peer_reachable_at_that_address() {
    let mut ledger = ledger();
    assert_eq!(
        ledger.record(server(1), endpoint(PUBLIC), ProbeResult::Succeeded),
        ProbeOutcome::Changed(Reachability::Reachable(endpoint(PUBLIC)))
    );
    assert_eq!(ledger.reachability(), Reachability::Reachable(endpoint(PUBLIC)));
}

#[test]
fn one_failed_probe_leaves_the_peer_unknown() {
    let mut ledger = ledger();
    assert_eq!(
        ledger.record(server(1), endpoint(PUBLIC), ProbeResult::Failed),
        ProbeOutcome::Unchanged,
        "a single failure changes nothing a user is shown"
    );
    assert_eq!(ledger.reachability(), Reachability::Unknown, "still Unknown — not Unreachable");
}

#[test]
fn two_distinct_servers_failing_the_same_address_conclude_unreachable() {
    let mut ledger = ledger();
    ledger.record(server(1), endpoint(PUBLIC), ProbeResult::Failed);
    assert_eq!(
        ledger.record(server(2), endpoint(PUBLIC), ProbeResult::Failed),
        ProbeOutcome::Changed(Reachability::Unreachable)
    );
    assert_eq!(ledger.reachability(), Reachability::Unreachable);
}

#[test]
fn one_server_failing_forever_never_concludes_unreachable() {
    let mut ledger = ledger();
    for _ in 0..64 {
        assert_eq!(ledger.record(server(1), endpoint(PUBLIC), ProbeResult::Failed), ProbeOutcome::Unchanged);
    }
    assert_eq!(ledger.reachability(), Reachability::Unknown);
}

#[test]
fn unreachable_requires_exactly_the_corroboration_threshold_piece_one_uses() {
    let mut ledger = ledger();
    for seed in 1..CORROBORATION_THRESHOLD {
        let seed = u8::try_from(seed).expect("the threshold is small");
        assert_eq!(
            ledger.record(server(seed), endpoint(PUBLIC), ProbeResult::Failed),
            ProbeOutcome::Unchanged,
            "{seed} distinct servers are below the threshold"
        );
        assert_eq!(ledger.reachability(), Reachability::Unknown);
    }
    let last = u8::try_from(CORROBORATION_THRESHOLD).expect("the threshold is small");
    assert_eq!(
        ledger.record(server(last), endpoint(PUBLIC), ProbeResult::Failed),
        ProbeOutcome::Changed(Reachability::Unreachable)
    );
}

#[test]
fn a_success_after_unreachable_returns_to_reachable_and_clears_the_evidence() {
    let mut ledger = ledger();
    ledger.record(server(1), endpoint(PUBLIC), ProbeResult::Failed);
    ledger.record(server(2), endpoint(PUBLIC), ProbeResult::Failed);
    assert_eq!(ledger.reachability(), Reachability::Unreachable);
    assert_eq!(
        ledger.record(server(3), endpoint(PUBLIC), ProbeResult::Succeeded),
        ProbeOutcome::Changed(Reachability::Reachable(endpoint(PUBLIC)))
    );
    assert_eq!(
        ledger.failing_addresses(),
        0,
        "the evidence that condemned the address is cleared, not merely outvoted"
    );
    assert_eq!(ledger.record(server(1), endpoint(PUBLIC), ProbeResult::Failed), ProbeOutcome::Unchanged);
    assert_eq!(ledger.reachability(), Reachability::Reachable(endpoint(PUBLIC)));
}

#[test]
fn a_repeated_identical_verdict_is_unchanged() {
    let mut ledger = ledger();
    assert_eq!(
        ledger.record(server(1), endpoint(PUBLIC), ProbeResult::Succeeded),
        ProbeOutcome::Changed(Reachability::Reachable(endpoint(PUBLIC)))
    );
    for seed in 1..=8 {
        assert_eq!(ledger.record(server(seed), endpoint(PUBLIC), ProbeResult::Succeeded), ProbeOutcome::Unchanged);
    }
}

#[test]
fn a_corroborated_failure_of_the_reachable_address_makes_the_peer_unreachable() {
    let mut ledger = ledger();
    ledger.record(server(1), endpoint(PUBLIC), ProbeResult::Succeeded);
    ledger.record(server(1), endpoint(PUBLIC), ProbeResult::Failed);
    assert_eq!(
        ledger.reachability(),
        Reachability::Reachable(endpoint(PUBLIC)),
        "one server's failure does not overturn proof"
    );
    assert_eq!(
        ledger.record(server(2), endpoint(PUBLIC), ProbeResult::Failed),
        ProbeOutcome::Changed(Reachability::Unreachable)
    );
}

#[test]
fn a_proven_address_survives_corroborated_failures_of_a_different_address() {
    let mut ledger = ledger();
    ledger.record(server(1), endpoint(PUBLIC), ProbeResult::Succeeded);
    ledger.record(server(1), endpoint(OTHER), ProbeResult::Failed);
    assert_eq!(ledger.record(server(2), endpoint(OTHER), ProbeResult::Failed), ProbeOutcome::Unchanged);
    assert_eq!(
        ledger.reachability(),
        Reachability::Reachable(endpoint(PUBLIC)),
        "an address that works outranks an address that does not"
    );
}

#[test]
fn the_failure_evidence_bound_holds_under_a_flood() {
    let cap = ResourceLimits::shipped().max_failing_addresses;
    let mut ledger = ledger();
    for index in 0..cap * 4 {
        let address = EndpointMapping::to_endpoint(&flooded(index)).expect("a routable address");
        assert_eq!(ledger.record(server(1), address, ProbeResult::Failed), ProbeOutcome::Unchanged);
    }
    assert_eq!(ledger.failing_addresses(), cap);
    assert_eq!(
        ledger.reachability(),
        Reachability::Unknown,
        "a flood from one server corroborates nothing, however large it is"
    );
    let held = EndpointMapping::to_endpoint(&flooded(0)).expect("a routable address");
    assert_eq!(
        ledger.record(server(2), held, ProbeResult::Failed),
        ProbeOutcome::Changed(Reachability::Unreachable)
    );
    assert_eq!(ledger.failing_addresses(), cap);
    let refused = EndpointMapping::to_endpoint(&flooded(cap * 4)).expect("a routable address");
    for seed in 1..=8 {
        ledger.record(server(seed), refused.clone(), ProbeResult::Failed);
    }
    assert_eq!(ledger.failing_addresses(), cap);
}

#[test]
fn evidence_for_one_address_stops_accumulating_once_it_is_condemned() {
    let mut ledger = ledger();
    for seed in 1..=64 {
        ledger.record(server(seed), endpoint(PUBLIC), ProbeResult::Failed);
    }
    assert_eq!(ledger.failing_addresses(), 1);
    assert_eq!(ledger.servers_blaming(&endpoint(PUBLIC)), CORROBORATION_THRESHOLD);
}

#[test]
fn reachability_ledger_test_the_ledger_reaches_the_same_verdicts_every_time_it_is_replayed() {
    let script: [(u8, &str, ProbeResult); 12] = [
        (1, PUBLIC, ProbeResult::Failed),
        (1, PUBLIC, ProbeResult::Failed),
        (2, OTHER, ProbeResult::Failed),
        (3, OTHER, ProbeResult::Failed),
        (2, PUBLIC, ProbeResult::Failed),
        (4, PUBLIC, ProbeResult::Succeeded),
        (4, PUBLIC, ProbeResult::Succeeded),
        (5, OTHER, ProbeResult::Failed),
        (6, OTHER, ProbeResult::Failed),
        (7, PUBLIC, ProbeResult::Failed),
        (8, PUBLIC, ProbeResult::Failed),
        (9, OTHER, ProbeResult::Succeeded),
    ];
    let replay = || {
        let mut ledger = ledger();
        script
            .iter()
            .map(|(seed, text, result)| ledger.record(server(*seed), endpoint(text), *result))
            .collect::<Vec<_>>()
    };
    let first = replay();
    for _ in 0..8 {
        assert_eq!(replay(), first);
    }
}

#[test]
fn a_success_anywhere_clears_every_address_s_failure_evidence() {
    let mut ledger = ledger();
    ledger.record(server(1), endpoint(OTHER), ProbeResult::Failed);
    ledger.record(server(2), endpoint(OTHER), ProbeResult::Failed);
    assert_eq!(ledger.servers_blaming(&endpoint(OTHER)), 2);
    assert_eq!(ledger.reachability(), Reachability::Unreachable);
    assert_eq!(
        ledger.record(server(3), endpoint(PUBLIC), ProbeResult::Succeeded),
        ProbeOutcome::Changed(Reachability::Reachable(endpoint(PUBLIC)))
    );
    assert_eq!(ledger.servers_blaming(&endpoint(OTHER)), 0);
    assert_eq!(ledger.failing_addresses(), 0);
}
