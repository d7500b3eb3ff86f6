//! The per-peer inbound rate limit, as a token bucket per remote peer.
use vstd::prelude::*;
use crate::identity::{NetPeer, NetPeerView, lemma_net_peer_order, net_peer_less};
use crate::keyed::{
    has_key, keys_unique, lemma_lookup_characterized, lemma_lookup_index, lemma_unique_push,
    lemma_unique_remove, lemma_unique_update, lookup,
};

verus! {

/// Fixed-point scale for token arithmetic: one token is this many units, so
/// a rate below one envelope per millisecond is not rounded to zero.
pub const TOKEN_SCALE: u64 = 1_000_000;

/// Largest number of peers tracked before the stalest is evicted.
pub const MAX_TRACKED_PEERS: usize = 4096;

/// One peer's allowance: scaled tokens, and when they were last refilled.
#[derive(Debug, Clone, Copy, PartialEq, Eq, Structural)]
pub struct Bucket {
    pub tokens_scaled: u64,
    pub last_refill_millis: u64,
}

/// `a + b`, saturating at `u64::MAX`.
pub open spec fn sat_add(a: u64, b: u64) -> u64 {
    if a + b > u64::MAX {
        u64::MAX
    } else {
        (a + b) as u64
    }
}

/// `a * b`, saturating at `u64::MAX`; a zero factor gives zero outright, so
/// no time elapsed plainly refills nothing.
pub open spec fn sat_mul(a: u64, b: u64) -> u64 {
    if a == 0 || b == 0 {
        0
    } else if a * b > u64::MAX {
        u64::MAX
    } else {
        (a * b) as u64
    }
}

/// `a - b`, saturating at zero.
pub open spec fn sat_sub(a: u64, b: u64) -> u64 {
    if a < b {
        0
    } else {
        (a - b) as u64
    }
}

/// The tokens a bucket holds at `now`: what it held, plus the refill for the
/// time since its last refill (none for a clock that ran backwards), capped at
/// the capacity.
pub open spec fn refilled(bucket: Bucket, now: u64, refill: u64, capacity: u64) -> u64 {
    let grown = sat_add(bucket.tokens_scaled, sat_mul(sat_sub(now, bucket.last_refill_millis), refill));
    if grown < capacity {
        grown
    } else {
        capacity
    }
}

/// Whether `(last_a, a)` sorts before `(last_b, b)`: older first, ties in
/// peer order.
pub open spec fn staler(last_a: u64, a: NetPeerView, last_b: u64, b: NetPeerView) -> bool {
    last_a < last_b || (last_a == last_b && net_peer_less(a, b))
}

/// Whether `peer` is the least recently seen entry among those last seen
/// strictly before `now`.
pub open spec fn is_stalest(entries: Seq<(NetPeerView, Bucket)>, now: u64, peer: NetPeerView) -> bool {
    &&& lookup(entries, peer) matches Some(b) && b.last_refill_millis < now
    &&& forall|other: NetPeerView|
        #![trigger lookup(entries, other)]
        other != peer && (lookup(entries, other) matches Some(c) && c.last_refill_millis < now)
            ==> staler(
            lookup(entries, peer)->Some_0.last_refill_millis,
            peer,
            lookup(entries, other)->Some_0.last_refill_millis,
            other,
        )
}

/// The peer evicted before admitting at `now`: when the table is full, the
/// least recently seen entry older than `now`, if there is one.
pub open spec fn eviction(entries: Seq<(NetPeerView, Bucket)>, now: u64) -> Option<NetPeerView> {
    if entries.len() >= MAX_TRACKED_PEERS && exists|p: NetPeerView| is_stalest(entries, now, p) {
        Some(choose|p: NetPeerView| is_stalest(entries, now, p))
    } else {
        None
    }
}

/// The bucket a peer starts from at `now`: its own, unless it was just
/// evicted or never seen, in which case a full one.
pub open spec fn starting_bucket(entries: Seq<(NetPeerView, Bucket)>, peer: NetPeerView, now: u64, capacity: u64) -> Bucket {
    if eviction(entries, now) != Some(peer) && lookup(entries, peer) is Some {
        lookup(entries, peer)->Some_0
    } else {
        Bucket { tokens_scaled: capacity, last_refill_millis: now }
    }
}

/// Whether a limiter in state `v` admits one more envelope from `peer` at
/// `now`: its refilled bucket holds a whole token.
pub open spec fn admits(v: LimiterView, peer: NetPeerView, now: u64) -> bool {
    refilled(starting_bucket(v.entries, peer, now, v.capacity), now, v.refill, v.capacity) >= TOKEN_SCALE
}

/// What one admission check does to a limiter: the peer's bucket is refilled
/// (starting full when new or just evicted) and, when it holds a whole token,
/// one is spent and the envelope admitted; the stalest other peer may be
/// evicted to make room; no other peer's bucket changes.
pub open spec fn admission(before: LimiterView, after: LimiterView, peer: NetPeerView, now: u64, admitted: bool) -> bool {
    let start = starting_bucket(before.entries, peer, now, before.capacity);
    let tokens = refilled(start, now, before.refill, before.capacity);
    &&& after.capacity == before.capacity
    &&& after.refill == before.refill
    &&& admitted == (tokens >= TOKEN_SCALE)
    &&& lookup(after.entries, peer) == Some(
        Bucket {
            tokens_scaled: if admitted {
                (tokens - TOKEN_SCALE) as u64
            } else {
                tokens
            },
            last_refill_millis: now,
        },
    )
    &&& forall|other: NetPeerView|
        other != peer ==> #[trigger] lookup(after.entries, other) == if eviction(before.entries, now)
            == Some(other) {
            None
        } else {
            lookup(before.entries, other)
        }
}

/// What forgetting a peer does to a limiter: its bucket goes, nothing else
/// changes.
pub open spec fn forgetting(before: LimiterView, after: LimiterView, peer: NetPeerView) -> bool {
    &&& after.capacity == before.capacity
    &&& after.refill == before.refill
    &&& forall|other: NetPeerView|
        #[trigger] lookup(after.entries, other) == if other == peer {
            None
        } else {
            lookup(before.entries, other)
        }
}

/// A token bucket per remote peer. Time is an argument, never read from a
/// clock, so the limiter is a pure state machine.
pub struct InboundRateLimiter {
    capacity: u64,
    refill_per_milli_scaled: u64,
    buckets: Vec<(NetPeer, Bucket)>,
}

/// The abstract state of a limiter.
pub struct LimiterView {
    /// Scaled tokens a full bucket holds.
    pub capacity: u64,
    /// Scaled tokens refilled per millisecond.
    pub refill: u64,
    /// Each tracked peer's bucket.
    pub entries: Seq<(NetPeerView, Bucket)>,
}

impl View for InboundRateLimiter {
    type V = LimiterView;

    closed spec fn view(&self) -> LimiterView {
        LimiterView {
            capacity: self.capacity,
            refill: self.refill_per_milli_scaled,
            entries: self.buckets@.map_values(|e: (NetPeer, Bucket)| (e.0@, e.1)),
        }
    }
}

/// The limiter's invariant: one entry per peer, and no bucket over capacity.
pub open spec fn limiter_wf(v: LimiterView) -> bool {
    &&& keys_unique(v.entries)
    &&& v.capacity >= TOKEN_SCALE
    &&& forall|i: int| 0 <= i < v.entries.len() ==> (#[trigger] v.entries[i]).1.tokens_scaled <= v.capacity
}

impl InboundRateLimiter {
    #[verifier::type_invariant]
    pub closed spec fn inv(self) -> bool {
        &&& limiter_wf(self@)
        &&& forall|i: int| 0 <= i < self.buckets@.len() ==> (#[trigger] self.buckets@[i]).0.inv()
    }

    /// A limiter admitting `burst` envelopes at once and `per_second`
    /// sustained; both are at least one.
    pub fn new(per_second: u32, burst: u32) -> (r: Self)
        ensures
            r@.capacity == (if burst < 1 { 1 } else { burst }) * TOKEN_SCALE,
            r@.refill == (if per_second < 1 { 1 } else { per_second }) * TOKEN_SCALE / 1000,
            r@.entries.len() == 0,
            limiter_wf(r@),
    {
        let burst = if burst < 1 { 1u64 } else { burst as u64 };
        let per_second = if per_second < 1 { 1u64 } else { per_second as u64 };
        let r = InboundRateLimiter {
            capacity: burst * TOKEN_SCALE,
            refill_per_milli_scaled: (per_second * TOKEN_SCALE) / 1000,
            buckets: Vec::new(),
        };
        assert(r@.entries =~= Seq::<(NetPeerView, Bucket)>::empty());
        r
    }

    fn index_of(&self, peer: &NetPeer) -> (r: Option<usize>)
        ensures
            r matches Some(i) ==> i < self@.entries.len() && self@.entries[i as int].0 == peer@,
            r is None ==> !has_key(self@.entries, peer@),
    {
        let mut i: usize = 0;
        while i < self.buckets.len()
            invariant
                0 <= i <= self.buckets@.len(),
                self@.entries == self.buckets@.map_values(|e: (NetPeer, Bucket)| (e.0@, e.1)),
                forall|j: int| 0 <= j < i ==> self@.entries[j].0 != peer@,
            decreases self.buckets@.len() - i,
        {
            if self.buckets[i].0.same_as(peer) {
                return Some(i);
            }
            i = i + 1;
        }
        None
    }

    /// Whether one more inbound envelope from `peer` is admitted at
    /// `now_millis`. A token is spent on success and nothing on refusal, so a
    /// peer over its rate does not push its own recovery further away.
    pub fn admit_inbound(&mut self, peer: NetPeer, now_millis: u64) -> (r: bool)
        ensures
            admission(old(self)@, final(self)@, peer@, now_millis, r),
            limiter_wf(final(self)@),
            final(self)@.entries.len() == old(self)@.entries.len() - (if eviction(
                old(self)@.entries,
                now_millis,
            ) is Some {
                1int
            } else {
                0int
            }) + (if lookup(old(self)@.entries, peer@) is Some && eviction(old(self)@.entries, now_millis)
                != Some(peer@) {
                0int
            } else {
                1int
            }),
            final(self)@.capacity == old(self)@.capacity,
            final(self)@.refill == old(self)@.refill,
            ({
                let start = starting_bucket(old(self)@.entries, peer@, now_millis, old(self)@.capacity);
                let tokens = refilled(start, now_millis, old(self)@.refill, old(self)@.capacity);
                &&& r == (tokens >= TOKEN_SCALE)
                &&& lookup(final(self)@.entries, peer@) == Some(
                    Bucket {
                        tokens_scaled: if r {
                            (tokens - TOKEN_SCALE) as u64
                        } else {
                            tokens
                        },
                        last_refill_millis: now_millis,
                    },
                )
            }),
            forall|other: NetPeerView|
                other != peer@ ==> #[trigger] lookup(final(self)@.entries, other) == if eviction(
                    old(self)@.entries,
                    now_millis,
                ) == Some(other) {
                    None
                } else {
                    lookup(old(self)@.entries, other)
                },
    {
        proof {
            use_type_invariant(&*self);
        }
        self.evict_if_full(now_millis);
        proof {
            use_type_invariant(&*self);
        }
        let ghost evicted = self@.entries;
        let capacity = self.capacity;
        let refill = self.refill_per_milli_scaled;
        let index = self.index_of(&peer);
        let bucket = match index {
            Some(i) => self.buckets[i].1,
            None => Bucket { tokens_scaled: capacity, last_refill_millis: now_millis },
        };
        proof {
            lemma_lookup_characterized(evicted, peer@);
            if let Some(i) = index {
                lemma_lookup_index(evicted, i as int);
            }
        }
        let elapsed = now_millis.saturating_sub(bucket.last_refill_millis);
        let grown = bucket.tokens_scaled.saturating_add(saturating_mul(elapsed, refill));
        let tokens = if grown < capacity { grown } else { capacity };
        let admitted = tokens >= TOKEN_SCALE;
        let next = Bucket {
            tokens_scaled: if admitted { tokens - TOKEN_SCALE } else { tokens },
            last_refill_millis: now_millis,
        };
        proof {
            use_type_invariant(&peer);
            assert(next.tokens_scaled <= capacity);
        }
        let mut buckets: Vec<(NetPeer, Bucket)> = Vec::new();
        std::mem::swap(&mut buckets, &mut self.buckets);
        let ghost old_buckets = buckets@;
        match index {
            Some(i) => {
                let entry_peer = buckets[i].0.duplicate();
                proof {
                    use_type_invariant(&entry_peer);
                }
                buckets.set(i, (entry_peer, next));
                proof {
                    lemma_unique_update(evicted, i as int, next);
                    assert(buckets@.map_values(|e: (NetPeer, Bucket)| (e.0@, e.1)) =~= evicted.update(
                        i as int,
                        (peer@, next),
                    ));
                    assert forall|j: int| 0 <= j < buckets@.len() implies (#[trigger] buckets@[j]).0.inv()
                        && buckets@[j].1.tokens_scaled <= capacity by {
                        if j != i {
                            assert(buckets@[j] == old_buckets[j]);
                            assert(evicted[j] == (old_buckets[j].0@, old_buckets[j].1));
                        }
                    }
                }
            },
            None => {
                buckets.push((peer, next));
                proof {
                    lemma_unique_push(evicted, peer@, next);
                    assert(buckets@.map_values(|e: (NetPeer, Bucket)| (e.0@, e.1)) =~= evicted.push(
                        (peer@, next),
                    ));
                    assert forall|j: int| 0 <= j < buckets@.len() implies (#[trigger] buckets@[j]).0.inv()
                        && buckets@[j].1.tokens_scaled <= capacity by {
                        if j < old_buckets.len() {
                            assert(buckets@[j] == old_buckets[j]);
                            assert(evicted[j] == (old_buckets[j].0@, old_buckets[j].1));
                        }
                    }
                }
            },
        }
        self.buckets = buckets;
        proof {
            use_type_invariant(&*self);
        }
        admitted
    }

    /// Forgets `peer`'s allowance, restoring a full bucket on its next
    /// envelope.
    pub fn forget(&mut self, peer: &NetPeer)
        ensures
            forgetting(old(self)@, final(self)@, peer@),
            limiter_wf(final(self)@),
            final(self)@.entries.len() == old(self)@.entries.len() - (if lookup(old(self)@.entries, peer@) is Some {
                1int
            } else {
                0int
            }),
            final(self)@.capacity == old(self)@.capacity,
            final(self)@.refill == old(self)@.refill,
            forall|other: NetPeerView|
                #[trigger] lookup(final(self)@.entries, other) == if other == peer@ {
                    None
                } else {
                    lookup(old(self)@.entries, other)
                },
    {
        proof {
            use_type_invariant(&*self);
        }
        match self.index_of(peer) {
            Some(i) => {
                let ghost before = self@.entries;
                let mut buckets: Vec<(NetPeer, Bucket)> = Vec::new();
                std::mem::swap(&mut buckets, &mut self.buckets);
                buckets.remove(i);
                proof {
                    lemma_unique_remove(before, i as int);
                    assert(buckets@.map_values(|e: (NetPeer, Bucket)| (e.0@, e.1)) =~= before.remove(
                        i as int,
                    ));
                }
                self.buckets = buckets;
                proof {
                    lemma_lookup_characterized(before, peer@);
                    lemma_lookup_index(before, i as int);
                }
            },
            None => {
                proof {
                    lemma_lookup_characterized(self@.entries, peer@);
                }
            },
        }
        proof {
            use_type_invariant(&*self);
        }
    }

    /// How many peers have an allowance recorded.
    pub fn tracked_peers(&self) -> (r: usize)
        ensures
            r == self@.entries.len(),
    {
        self.buckets.len()
    }

    /// Drops the least recently seen entry older than `now` when the table is
    /// full.
    fn evict_if_full(&mut self, now_millis: u64)
        ensures
            final(self)@.entries.len() == old(self)@.entries.len() - (if eviction(
                old(self)@.entries,
                now_millis,
            ) is Some {
                1int
            } else {
                0int
            }),
            final(self)@.capacity == old(self)@.capacity,
            final(self)@.refill == old(self)@.refill,
            forall|other: NetPeerView|
                #[trigger] lookup(final(self)@.entries, other) == if eviction(
                    old(self)@.entries,
                    now_millis,
                ) == Some(other) {
                    None
                } else {
                    lookup(old(self)@.entries, other)
                },
    {
        proof {
            use_type_invariant(&*self);
        }
        let ghost entries = self@.entries;
        if self.buckets.len() < MAX_TRACKED_PEERS {
            return;
        }
        let mut best: Option<usize> = None;
        let mut i: usize = 0;
        while i < self.buckets.len()
            invariant
                0 <= i <= self.buckets@.len(),
                entries == self@.entries,
                entries == self.buckets@.map_values(|e: (NetPeer, Bucket)| (e.0@, e.1)),
                keys_unique(entries),
                best matches Some(b) ==> b < i && entries[b as int].1.last_refill_millis < now_millis,
                best is None ==> forall|j: int|
                    0 <= j < i ==> entries[j].1.last_refill_millis >= now_millis,
                best matches Some(b) ==> forall|j: int|
                    0 <= j < i && j != b && entries[j].1.last_refill_millis < now_millis
                        ==> staler(
                        entries[b as int].1.last_refill_millis,
                        entries[b as int].0,
                        entries[j].1.last_refill_millis,
                        entries[j].0,
                    ),
            decreases self.buckets@.len() - i,
        {
            let last = self.buckets[i].1.last_refill_millis;
            if last < now_millis {
                match best {
                    None => {
                        best = Some(i);
                    },
                    Some(b) => {
                        let best_last = self.buckets[b].1.last_refill_millis;
                        let newer = last < best_last || (last == best_last
                            && self.buckets[i].0.precedes(&self.buckets[b].0));
                        proof {
                            assert(entries[i as int].0 != entries[b as int].0);
                            assert forall|j: int|
                                0 <= j < i && j != b && entries[j].1.last_refill_millis
                                    < now_millis implies #[trigger] entries[j].0 == entries[j].0
                                && (newer ==> staler(
                                entries[i as int].1.last_refill_millis,
                                entries[i as int].0,
                                entries[j].1.last_refill_millis,
                                entries[j].0,
                            )) by {
                                lemma_net_peer_order(
                                    entries[i as int].0,
                                    entries[b as int].0,
                                    entries[j].0,
                                );
                            }
                            lemma_net_peer_order(
                                entries[i as int].0,
                                entries[b as int].0,
                                entries[i as int].0,
                            );
                        }
                        if newer {
                            best = Some(i);
                        }
                    },
                }
            }
            i = i + 1;
        }
        if let Some(b) = best {
            proof {
                let victim = entries[b as int].0;
                lemma_lookup_index(entries, b as int);
                assert(is_stalest(entries, now_millis, victim)) by {
                    assert forall|other: NetPeerView|
                        other != victim && (lookup(entries, other) matches Some(c)
                            && c.last_refill_millis < now_millis) implies staler(
                        lookup(entries, victim)->Some_0.last_refill_millis,
                        victim,
                        lookup(entries, other)->Some_0.last_refill_millis,
                        other,
                    ) by {
                        lemma_lookup_characterized(entries, other);
                        let j = choose|j: int|
                            0 <= j < entries.len() && #[trigger] entries[j].0 == other
                                && entries[j].1 == lookup(entries, other)->Some_0;
                        assert(j != b);
                    }
                }
                lemma_stalest_unique(entries, now_millis, victim);
            }
            let mut buckets: Vec<(NetPeer, Bucket)> = Vec::new();
            std::mem::swap(&mut buckets, &mut self.buckets);
            buckets.remove(b);
            proof {
                lemma_unique_remove(entries, b as int);
                assert(buckets@.map_values(|e: (NetPeer, Bucket)| (e.0@, e.1)) =~= entries.remove(
                    b as int,
                ));
            }
            self.buckets = buckets;
        } else {
            proof {
                assert(!exists|p: NetPeerView| is_stalest(entries, now_millis, p)) by {
                    if exists|p: NetPeerView| is_stalest(entries, now_millis, p) {
                        let p = choose|p: NetPeerView| is_stalest(entries, now_millis, p);
                        lemma_lookup_characterized(entries, p);
                        let j = choose|j: int|
                            0 <= j < entries.len() && #[trigger] entries[j].0 == p
                                && entries[j].1 == lookup(entries, p)->Some_0;
                        assert(entries[j].1.last_refill_millis >= now_millis);
                    }
                }
            }
        }
    }
}

/// The stalest entry is unique, so the eviction names it.
proof fn lemma_stalest_unique(entries: Seq<(NetPeerView, Bucket)>, now: u64, victim: NetPeerView)
    requires
        entries.len() >= MAX_TRACKED_PEERS,
        is_stalest(entries, now, victim),
    ensures
        eviction(entries, now) == Some(victim),
{
    let chosen = choose|p: NetPeerView| is_stalest(entries, now, p);
    if chosen != victim {
        let lv = lookup(entries, victim)->Some_0.last_refill_millis;
        let lc = lookup(entries, chosen)->Some_0.last_refill_millis;
        assert(staler(lv, victim, lc, chosen));
        assert(staler(lc, chosen, lv, victim));
        lemma_net_peer_order(victim, chosen, victim);
    }
}

/// `a * b`, saturating at `u64::MAX`.
pub fn saturating_mul(a: u64, b: u64) -> (r: u64)
    ensures
        r == sat_mul(a, b),
{
    if b == 0 || a <= u64::MAX / b {
        proof {
            if b != 0 {
                assert(a * b <= (u64::MAX / b) * b) by (nonlinear_arith)
                    requires
                        a <= u64::MAX / b,
                        b > 0,
                ;
                assert((u64::MAX / b) * b <= u64::MAX) by (nonlinear_arith)
                    requires
                        b > 0,
                ;
            }
        }
        a * b
    } else {
        proof {
            assert(a * b > u64::MAX) by (nonlinear_arith)
                requires
                    a > u64::MAX / b,
                    b > 0,
            ;
        }
        u64::MAX
    }
}

/// Forgetting a peer restores its full allowance: its next envelope is
/// admitted whatever it had spent before.
pub proof fn law_forgetting_restores_full_allowance(before: LimiterView, after: LimiterView, peer: NetPeerView, now: u64)
    requires
        limiter_wf(before),
        forgetting(before, after, peer),
    ensures
        admits(after, peer, now),
{
    assert(lookup(after.entries, peer) is None);
}

/// However long a peer was silent, its allowance never exceeds the burst:
/// after an admission check its bucket holds at most the capacity.
pub proof fn law_allowance_is_capped_at_the_burst(
    before: LimiterView,
    after: LimiterView,
    peer: NetPeerView,
    now: u64,
    admitted: bool,
)
    requires
        limiter_wf(before),
        admission(before, after, peer, now, admitted),
    ensures
        lookup(after.entries, peer) matches Some(b) && b.tokens_scaled <= after.capacity,
{
}

/// A refusal spends nothing: the refused peer's bucket keeps every token the
/// refill gave it.
pub proof fn law_refusal_spends_nothing(before: LimiterView, after: LimiterView, peer: NetPeerView, now: u64)
    requires
        admission(before, after, peer, now, false),
    ensures
        lookup(after.entries, peer) == Some(
            Bucket {
                tokens_scaled: refilled(
                    starting_bucket(before.entries, peer, now, before.capacity),
                    now,
                    before.refill,
                    before.capacity,
                ),
                last_refill_millis: now,
            },
        ),
{
}

/// A clock reading at or before a bucket's last refill grants nothing: the
/// bucket holds what it held, capped at the capacity.
pub proof fn law_backwards_clock_grants_nothing(bucket: Bucket, now: u64, refill: u64, capacity: u64)
    requires
        now <= bucket.last_refill_millis,
    ensures
        refilled(bucket, now, refill, capacity) == if bucket.tokens_scaled < capacity {
            bucket.tokens_scaled
        } else {
            capacity
        },
{
}

} // verus!
