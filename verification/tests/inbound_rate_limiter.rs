use infra_net_libp2p::identity::NetPeer;
use infra_net_libp2p::inbound_rate_limiter::{saturating_mul, InboundRateLimiter};

fn peer() -> NetPeer {
    let id = libp2p::PeerId::random();
    NetPeer::from_multihash(id.as_ref().code(), id.as_ref().digest()).expect("a peer id")
}

#[test]
fn admits_a_full_burst_at_one_instant() {
    let mut limiter = InboundRateLimiter::new(4, 8);
    let peer = peer();
    for index in 0..8 {
        assert!(limiter.admit_inbound(peer.duplicate(), 0), "envelope {index} should be admitted");
    }
}

#[test]
fn refuses_once_the_burst_is_spent() {
    let mut limiter = InboundRateLimiter::new(4, 8);
    let peer = peer();
    for _ in 0..8 {
        assert!(limiter.admit_inbound(peer.duplicate(), 0));
    }
    assert!(!limiter.admit_inbound(peer.duplicate(), 0));
}

#[test]
fn refusal_does_not_spend_a_token() {
    let mut limiter = InboundRateLimiter::new(1_000, 1);
    let peer = peer();
    assert!(limiter.admit_inbound(peer.duplicate(), 0));
    assert!(!limiter.admit_inbound(peer.duplicate(), 0));
    assert!(limiter.admit_inbound(peer.duplicate(), 1));
}

#[test]
fn refills_at_the_sustained_rate() {
    let mut limiter = InboundRateLimiter::new(10, 1);
    let peer = peer();
    assert!(limiter.admit_inbound(peer.duplicate(), 0));
    assert!(!limiter.admit_inbound(peer.duplicate(), 50), "50 ms is half a token at 10/s");
    assert!(limiter.admit_inbound(peer.duplicate(), 100), "100 ms is one token at 10/s");
}

#[test]
fn refill_is_capped_at_the_burst_size() {
    let mut limiter = InboundRateLimiter::new(10, 2);
    let peer = peer();
    assert!(limiter.admit_inbound(peer.duplicate(), 0));
    assert!(limiter.admit_inbound(peer.duplicate(), 0));
    assert!(limiter.admit_inbound(peer.duplicate(), 3_600_000));
    assert!(limiter.admit_inbound(peer.duplicate(), 3_600_000));
    assert!(!limiter.admit_inbound(peer.duplicate(), 3_600_000));
}

#[test]
fn one_peers_flood_does_not_touch_another_peers_allowance() {
    let mut limiter = InboundRateLimiter::new(1, 2);
    let flooder = peer();
    let quiet = peer();
    assert!(limiter.admit_inbound(flooder.duplicate(), 0));
    assert!(limiter.admit_inbound(flooder.duplicate(), 0));
    assert!(!limiter.admit_inbound(flooder.duplicate(), 0));
    assert!(limiter.admit_inbound(quiet.duplicate(), 0));
    assert!(limiter.admit_inbound(quiet.duplicate(), 0));
}

#[test]
fn forgetting_a_peer_restores_its_full_allowance() {
    let mut limiter = InboundRateLimiter::new(1, 1);
    let peer = peer();
    assert!(limiter.admit_inbound(peer.duplicate(), 0));
    assert!(!limiter.admit_inbound(peer.duplicate(), 0));
    limiter.forget(&peer);
    assert!(limiter.admit_inbound(peer.duplicate(), 0));
    assert_eq!(limiter.tracked_peers(), 1);
}

#[test]
fn a_clock_that_ran_backwards_does_not_grant_tokens() {
    let mut limiter = InboundRateLimiter::new(1_000, 1);
    let peer = peer();
    assert!(limiter.admit_inbound(peer.duplicate(), 10_000));
    assert!(!limiter.admit_inbound(peer.duplicate(), 0), "a smaller reading must not refill the bucket");
}

#[test]
fn a_sub_millisecond_rate_still_refills() {
    let mut limiter = InboundRateLimiter::new(1, 1);
    let peer = peer();
    assert!(limiter.admit_inbound(peer.duplicate(), 0));
    assert!(!limiter.admit_inbound(peer.duplicate(), 500));
    assert!(limiter.admit_inbound(peer.duplicate(), 1_000));
}

#[test]
fn a_zero_rate_and_burst_are_read_as_one() {
    let mut limiter = InboundRateLimiter::new(0, 0);
    let peer = peer();
    assert!(limiter.admit_inbound(peer.duplicate(), 0));
    assert!(!limiter.admit_inbound(peer.duplicate(), 999));
    assert!(limiter.admit_inbound(peer.duplicate(), 1_000));
}

#[test]
fn forgetting_a_peer_never_seen_changes_nothing() {
    let mut limiter = InboundRateLimiter::new(1, 1);
    let seen = peer();
    assert!(limiter.admit_inbound(seen.duplicate(), 0));
    limiter.forget(&peer());
    assert_eq!(limiter.tracked_peers(), 1);
    assert!(!limiter.admit_inbound(seen, 0));
}

#[test]
fn multiplication_saturates_rather_than_wrapping() {
    assert_eq!(saturating_mul(3, 7), 21);
    assert_eq!(saturating_mul(u64::MAX, 2), u64::MAX);
    assert_eq!(saturating_mul(0, u64::MAX), 0);
}
