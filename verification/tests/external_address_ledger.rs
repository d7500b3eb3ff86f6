use infra_net_libp2p::address::Address;
use infra_net_libp2p::external_address_ledger::{
    CandidateRejection, ExternalAddressLedger, Promotion, CORROBORATION_THRESHOLD,
};
use infra_net_libp2p::identity::NetPeer;
use infra_net_libp2p::resource_limits::ResourceLimits;
use libp2p::identity::Keypair;
use libp2p::PeerId as Libp2pPeerId;

/// A globally routable address from TEST-NET-3 (RFC 5737).
const PUBLIC: &str = "/ip4/203.0.113.7/tcp/4001";

/// Every shape that must never be recorded, with the reason.
const NON_GLOBAL: [(&str, &str); 16] = [
    ("/ip4/127.0.0.1/tcp/4001", "IPv4 loopback"),
    ("/ip4/10.0.0.4/tcp/4001", "RFC 1918 private, 10/8"),
    ("/ip4/172.16.3.9/tcp/4001", "RFC 1918 private, 172.16/12"),
    ("/ip4/192.168.1.20/tcp/4001", "RFC 1918 private, 192.168/16"),
    ("/ip4/169.254.7.7/tcp/4001", "IPv4 link-local"),
    ("/ip4/100.64.0.1/tcp/4001", "CGNAT, low edge of 100.64/10"),
    ("/ip4/100.127.255.254/tcp/4001", "CGNAT, high edge of 100.64/10"),
    ("/ip4/0.0.0.0/tcp/4001", "IPv4 unspecified"),
    ("/ip4/224.0.0.1/tcp/4001", "IPv4 multicast"),
    ("/ip4/255.255.255.255/tcp/4001", "IPv4 broadcast"),
    ("/ip6/::1/tcp/4001", "IPv6 loopback"),
    ("/ip6/::/tcp/4001", "IPv6 unspecified"),
    ("/ip6/fd00::1/tcp/4001", "IPv6 unique local, fc00::/7"),
    ("/ip6/fe80::1/tcp/4001", "IPv6 link-local, fe80::/10"),
    ("/ip6/::ffff:192.168.0.4/tcp/4001", "IPv4-mapped IPv6 carrying a private address"),
    ("/dns4/example.com/tcp/4001", "no IP literal at all, so nothing can be judged global"),
];

fn address(text: &str) -> Address {
    Address::parse(text).expect("a well-formed multiaddress")
}

fn libp2p_observer(seed: u8) -> Libp2pPeerId {
    Keypair::ed25519_from_bytes([seed; 32])
        .expect("32 bytes are a valid Ed25519 seed")
        .public()
        .to_peer_id()
}

/// A distinct, deterministic observer per seed.
fn observer(seed: u8) -> NetPeer {
    let id = libp2p_observer(seed);
    NetPeer::from_multihash(id.as_ref().code(), id.as_ref().digest()).expect("a peer id")
}

fn local() -> NetPeer {
    observer(0)
}

fn ledger() -> ExternalAddressLedger {
    let limits = ResourceLimits::shipped();
    ExternalAddressLedger::new(local(), limits.max_candidate_addresses, limits.max_observers_per_address)
}

fn circuit() -> Address {
    address(&format!("{PUBLIC}/p2p/{}/p2p-circuit", libp2p_observer(9)))
}

#[test]
fn a_first_observation_is_recorded_and_never_promoted() {
    let mut ledger = ledger();
    assert_eq!(ledger.observe(observer(1), address(PUBLIC)), Promotion::Recorded { corroborations: 1 });
    assert!(!ledger.is_promoted(&address(PUBLIC)));
    assert_eq!(ledger.candidate_count(), 1);
}

#[test]
fn a_second_distinct_observer_promotes_the_address_exactly_once() {
    let mut ledger = ledger();
    ledger.observe(observer(1), address(PUBLIC));
    assert_eq!(ledger.observe(observer(2), address(PUBLIC)), Promotion::Promote(address(PUBLIC)));
    assert!(ledger.is_promoted(&address(PUBLIC)));
    assert_eq!(ledger.candidate_count(), 0, "a promoted address is no longer awaiting corroboration");
    assert_eq!(
        ledger.observe(observer(3), address(PUBLIC)),
        Promotion::Ignored(CandidateRejection::AlreadyPromoted),
        "a third observer does not promote what is already promoted"
    );
}

#[test]
fn one_peer_repeating_itself_never_reaches_the_threshold() {
    let mut ledger = ledger();
    for _ in 0..64 {
        assert_eq!(ledger.observe(observer(1), address(PUBLIC)), Promotion::Recorded { corroborations: 1 });
    }
    assert!(!ledger.is_promoted(&address(PUBLIC)));
}

#[test]
fn a_promoted_address_observed_again_is_refused_rather_than_promoted_twice() {
    let mut ledger = ledger();
    ledger.observe(observer(1), address(PUBLIC));
    ledger.observe(observer(2), address(PUBLIC));
    for seed in 1..=6 {
        assert_eq!(
            ledger.observe(observer(seed), address(PUBLIC)),
            Promotion::Ignored(CandidateRejection::AlreadyPromoted)
        );
    }
}

#[test]
fn no_non_global_address_is_recorded_however_many_peers_report_it() {
    for (text, why) in NON_GLOBAL {
        let mut ledger = ledger();
        for seed in 1..=16 {
            assert_eq!(
                ledger.observe(observer(seed), address(text)),
                Promotion::Ignored(CandidateRejection::NotGlobal),
                "{text} ({why}) must never be recorded"
            );
        }
        assert_eq!(ledger.candidate_count(), 0, "{text} ({why})");
        assert!(!ledger.is_promoted(&address(text)), "{text} ({why})");
    }
}

#[test]
fn a_relay_circuit_address_is_never_promoted_however_public_its_relay_is() {
    let mut ledger = ledger();
    for seed in 1..=8 {
        assert_eq!(ledger.observe(observer(seed), circuit()), Promotion::Ignored(CandidateRejection::NotGlobal));
    }
    assert_eq!(ledger.candidate_count(), 0);
}

#[test]
fn an_address_this_peer_reports_about_itself_is_refused() {
    let mut ledger = ledger();
    assert_eq!(
        ledger.observe(local(), address(PUBLIC)),
        Promotion::Ignored(CandidateRejection::SelfObservation)
    );
    assert_eq!(ledger.candidate_count(), 0);
}

#[test]
fn the_candidate_address_bound_holds_under_a_flood() {
    let cap = ResourceLimits::shipped().max_candidate_addresses;
    let mut ledger = ledger();
    let flood = cap * 4;
    let mut refused = 0;
    for index in 0..flood {
        let address = address(&format!("/ip4/203.0.113.7/tcp/{}", 4000 + index));
        match ledger.observe(observer(1), address) {
            Promotion::Recorded { corroborations } => assert_eq!(corroborations, 1),
            Promotion::Ignored(CandidateRejection::LedgerFull) => refused += 1,
            other => panic!("unexpected verdict {other:?}"),
        }
    }
    assert_eq!(ledger.candidate_count(), cap);
    assert_eq!(refused, flood - cap);
    let held = address("/ip4/203.0.113.7/tcp/4000");
    assert_eq!(ledger.observe(observer(2), address("/ip4/203.0.113.7/tcp/4000")), Promotion::Promote(held));
}

#[test]
fn a_promoted_address_still_occupies_a_slot_in_the_bound() {
    let cap = 4;
    let mut ledger = ExternalAddressLedger::new(local(), cap, 8);
    ledger.observe(observer(1), address("/ip4/203.0.113.7/tcp/4001"));
    assert_eq!(
        ledger.observe(observer(2), address("/ip4/203.0.113.7/tcp/4001")),
        Promotion::Promote(address("/ip4/203.0.113.7/tcp/4001"))
    );
    for index in 1..cap {
        assert_eq!(
            ledger.observe(observer(1), address(&format!("/ip4/203.0.113.7/tcp/{}", 5000 + index))),
            Promotion::Recorded { corroborations: 1 }
        );
    }
    assert_eq!(
        ledger.observe(observer(1), address("/ip4/203.0.113.7/tcp/6000")),
        Promotion::Ignored(CandidateRejection::LedgerFull)
    );
}

#[test]
fn the_per_address_observer_bound_holds_under_a_flood_of_identities() {
    let cap = 4;
    let mut ledger = ExternalAddressLedger::with_threshold(local(), cap + 1, 8, cap);
    let flood: u8 = 32;
    let mut refused = 0;
    for seed in 1..=flood {
        match ledger.observe(observer(seed), address(PUBLIC)) {
            Promotion::Recorded { corroborations } => assert!(corroborations <= cap),
            Promotion::Ignored(CandidateRejection::LedgerFull) => refused += 1,
            other => panic!("unexpected verdict {other:?}"),
        }
    }
    assert_eq!(refused, usize::from(flood) - cap);
    assert_eq!(ledger.corroborations(&address(PUBLIC)), cap);
    assert_eq!(ledger.observe(observer(1), address(PUBLIC)), Promotion::Recorded { corroborations: cap });
}

#[test]
fn external_address_ledger_test_the_ledger_reaches_the_same_verdicts_every_time_it_is_replayed() {
    let script: [(u8, &str); 12] = [
        (1, PUBLIC),
        (1, PUBLIC),
        (2, "/ip4/192.168.1.20/tcp/4001"),
        (3, "/ip4/203.0.113.8/tcp/4001"),
        (0, PUBLIC),
        (2, PUBLIC),
        (4, PUBLIC),
        (4, "/ip4/203.0.113.8/tcp/4001"),
        (5, "/ip6/2001:db8::1/tcp/4001"),
        (6, "/ip6/fe80::1/tcp/4001"),
        (5, "/ip6/2001:db8::1/tcp/4001"),
        (7, "/ip6/2001:db8::1/tcp/4001"),
    ];
    let replay = || {
        let mut ledger = ledger();
        script.iter().map(|(seed, text)| ledger.observe(observer(*seed), address(text))).collect::<Vec<_>>()
    };
    let first = replay();
    for _ in 0..8 {
        assert_eq!(replay(), first);
    }
}

#[test]
fn the_shipped_threshold_is_two_and_is_not_one() {
    assert_eq!(CORROBORATION_THRESHOLD, 2);
}

#[test]
fn a_global_ipv6_address_is_corroborated_like_an_ipv4_one() {
    let mut ledger = ledger();
    let text = "/ip6/2001:db8::1/tcp/4001";
    assert_eq!(ledger.observe(observer(5), address(text)), Promotion::Recorded { corroborations: 1 });
    assert_eq!(ledger.corroborations(&address(text)), 1);
    assert_eq!(ledger.observe(observer(7), address(text)), Promotion::Promote(address(text)));
    assert_eq!(ledger.corroborations(&address(text)), 0);
}
