use infra_net_libp2p::domain::{AddressReachability, Endpoint, KNOWN_PEER_MAX_ENDPOINTS};
use infra_net_libp2p::identity::PeerId;
use infra_net_libp2p::sighting_ledger::{SightingLedger, SIGHTING_RETENTION_MILLIS};
use libp2p::identity::Keypair;

/// `count` distinct, deterministic identities, in creation order.
fn synthetic(count: usize) -> Vec<PeerId> {
    (0..count)
        .map(|index| {
            let mut seed = [7_u8; 32];
            seed[..8].copy_from_slice(&(index as u64).to_le_bytes());
            let key = Keypair::ed25519_from_bytes(seed)
                .expect("32 bytes are a valid Ed25519 seed")
                .public()
                .try_into_ed25519()
                .expect("an Ed25519 key")
                .to_bytes();
            PeerId::from_public_key_bytes(key).expect("a valid public key")
        })
        .collect()
}

fn retention_millis() -> u64 {
    SIGHTING_RETENTION_MILLIS
}

fn endpoint(text: &str) -> Endpoint {
    Endpoint::new(text, AddressReachability::Direct).expect("a well-formed address")
}

fn address(index: usize) -> Endpoint {
    endpoint(&format!("/ip4/192.168.1.10/tcp/{}", 4001 + index))
}

fn ledger(max_peers: usize) -> SightingLedger {
    SightingLedger::new(max_peers, SIGHTING_RETENTION_MILLIS)
}

fn peers_reported(ledger: &mut SightingLedger, now: u64) -> Vec<PeerId> {
    ledger.observed(now).into_iter().map(|sighting| sighting.peer).collect()
}

fn sorted(mut peers: Vec<PeerId>) -> Vec<PeerId> {
    peers.sort_unstable();
    peers
}

#[test]
fn reading_the_ledger_leaves_it_exactly_as_it_was() {
    let peers = synthetic(2);
    let mut ledger = ledger(8);
    ledger.record(peers[0], &[address(0)], 0);
    ledger.record(peers[1], &[address(1)], 0);
    let first = ledger.observed(1_000);
    let second = ledger.observed(2_000);
    let third = ledger.observed(3_000);
    assert_eq!(first.len(), 2);
    assert_eq!(first, second, "reading is a question, not a withdrawal");
    assert_eq!(second, third);
    assert_eq!(ledger.len(), 2, "and nothing left the ledger");
}

#[test]
fn a_sighting_survives_to_the_end_of_its_window_and_not_past_it() {
    let peer = synthetic(1)[0];
    let retention = retention_millis();
    let mut ledger = ledger(8);
    ledger.record(peer, &[address(0)], 0);
    assert_eq!(peers_reported(&mut ledger, retention - 1), vec![peer], "still inside the window");
    assert!(peers_reported(&mut ledger, retention).is_empty(), "and gone at the end of it");
    assert_eq!(ledger.len(), 0, "dropped, not merely filtered out of a read");
}

#[test]
fn a_peer_that_is_still_announcing_never_ages_out() {
    let peer = synthetic(1)[0];
    let round = retention_millis() / 3;
    let mut ledger = ledger(8);
    for tick in 0..12 {
        ledger.record(peer, &[address(0)], tick * round);
        assert_eq!(peers_reported(&mut ledger, tick * round), vec![peer]);
    }
    assert_eq!(ledger.len(), 1, "refreshed, never duplicated");
}

#[test]
fn ageing_out_happens_on_a_read_as_well_as_on_a_write() {
    let peers = synthetic(2);
    let stale = retention_millis() + 1;
    let mut ledger = ledger(8);
    ledger.record(peers[0], &[address(0)], 0);
    assert!(peers_reported(&mut ledger, stale).is_empty());
    assert_eq!(ledger.len(), 0);
    ledger.record(peers[0], &[address(0)], 0);
    ledger.record(peers[1], &[address(1)], stale);
    assert_eq!(ledger.len(), 1);
    assert_eq!(peers_reported(&mut ledger, stale), vec![peers[1]]);
}

#[test]
fn the_bound_holds_under_a_flood_of_sightings() {
    let peers = synthetic(1_000);
    let mut ledger = ledger(4);
    for (index, peer) in peers.iter().enumerate() {
        ledger.record(*peer, &[address(index)], index as u64);
        assert!(ledger.len() <= 4, "the cap holds at every step, not only at the end");
    }
    assert_eq!(ledger.len(), 4);
    assert_eq!(ledger.observed(1_000).len(), 4);
}

#[test]
fn the_least_recently_seen_sighting_is_the_one_evicted() {
    let peers = synthetic(5);
    let mut ledger = ledger(3);
    for (index, peer) in peers.iter().take(3).enumerate() {
        ledger.record(*peer, &[address(index)], (index as u64 + 1) * 100);
    }
    ledger.record(peers[3], &[address(3)], 400);
    assert_eq!(sorted(peers_reported(&mut ledger, 400)), sorted(vec![peers[1], peers[2], peers[3]]));
    ledger.record(peers[1], &[address(1)], 500);
    ledger.record(peers[4], &[address(4)], 600);
    assert_eq!(sorted(peers_reported(&mut ledger, 600)), sorted(vec![peers[1], peers[3], peers[4]]));
}

#[test]
fn a_full_ledger_evicts_the_same_entry_every_time_it_is_replayed() {
    let peers = synthetic(5);
    let outcome = || {
        let mut ledger = ledger(2);
        for index in [3_usize, 1, 4, 0, 2] {
            ledger.record(peers[index], &[address(index)], 42);
        }
        peers_reported(&mut ledger, 42)
    };
    let first = outcome();
    assert_eq!(first.len(), 2);
    for _ in 0..8 {
        assert_eq!(outcome(), first);
    }
}

#[test]
fn one_peer_announcing_endlessly_cannot_grow_its_own_sighting() {
    let peer = synthetic(1)[0];
    let mut ledger = ledger(8);
    for index in 0..2_000 {
        ledger.record(peer, &[address(index)], index as u64);
    }
    let observed = ledger.observed(2_000);
    assert_eq!(observed.len(), 1);
    assert_eq!(observed[0].endpoints.len(), KNOWN_PEER_MAX_ENDPOINTS);
    assert_eq!(
        observed[0].endpoints.last(),
        Some(&address(1_999)),
        "newest wins: the address a peer just claimed is the one worth keeping"
    );
}

#[test]
fn a_re_sighting_merges_endpoints_rather_than_replacing_or_duplicating_them() {
    let peer = synthetic(1)[0];
    let lan = endpoint("/ip4/192.168.1.10/tcp/4001");
    let public = endpoint("/ip4/203.0.113.7/tcp/4001");
    let mut ledger = ledger(8);
    ledger.record(peer, std::slice::from_ref(&lan), 0);
    ledger.record(peer, std::slice::from_ref(&public), 10);
    ledger.record(peer, std::slice::from_ref(&lan), 20);
    let observed = ledger.observed(30);
    assert_eq!(observed.len(), 1);
    assert_eq!(observed[0].endpoints, vec![lan, public], "both addresses, each once, in the order they were claimed");
}

#[test]
fn a_ledger_nobody_feeds_reports_nothing_and_says_so_by_being_empty() {
    let mut ledger = ledger(8);
    assert!(ledger.observed(0).is_empty());
    assert!(ledger.observed(retention_millis() * 100).is_empty());
    assert_eq!(ledger.len(), 0);
}

#[test]
fn a_ledger_that_may_hold_nothing_holds_nothing_rather_than_looping() {
    let peer = synthetic(1)[0];
    let mut ledger = SightingLedger::new(0, SIGHTING_RETENTION_MILLIS);
    ledger.record(peer, &[address(0)], 0);
    assert_eq!(ledger.len(), 0);
    assert!(ledger.observed(0).is_empty());
}

#[test]
fn a_retention_window_of_zero_keeps_nothing() {
    let peer = synthetic(1)[0];
    let mut ledger = SightingLedger::new(8, 0);
    ledger.record(peer, &[address(0)], 0);
    assert!(ledger.observed(0).is_empty());
    assert_eq!(ledger.len(), 0);
}

#[test]
fn the_shipped_retention_window_is_fifteen_minutes() {
    assert_eq!(SIGHTING_RETENTION_MILLIS, 15 * 60 * 1_000);
}

#[test]
fn several_peers_seen_in_one_instant_are_reported_in_identity_order() {
    let peers = synthetic(4);
    let mut ledger = ledger(8);
    for peer in peers.iter().rev() {
        ledger.record(*peer, &[address(0)], 5);
    }
    assert_eq!(peers_reported(&mut ledger, 5), sorted(peers.clone()));
}
