//! Which addresses other peers report seeing this peer at, and which of them
//! this peer advertises.
use vstd::prelude::*;
use crate::address::{Address, AddressPart, AddressView, has_circuit};
use crate::identity::{NetPeer, NetPeerView};
use crate::keyed::{
    drop_key, has_key, keys_unique, lemma_drop_key_at, lemma_lookup_characterized,
    lemma_lookup_index, lemma_put, lemma_put_at, lookup, put,
};

verus! {

/// Distinct peers that must agree before a claim about this peer is acted on:
/// an observed address is advertised, a failed dial-back becomes a verdict.
/// One would let any single peer decide.
pub const CORROBORATION_THRESHOLD: usize = 2;

// ------------------------------------------------------------ the filter

/// 0.0.0.0.
pub open spec fn is_unspecified_v4(a: int, b: int, c: int, d: int) -> bool {
    a == 0 && b == 0 && c == 0 && d == 0
}

/// 10/8, 172.16/12 and 192.168/16 (RFC 1918).
pub open spec fn is_private_v4(a: int, b: int) -> bool {
    a == 10 || (a == 172 && 16 <= b <= 31) || (a == 192 && b == 168)
}

/// 100.64/10 (RFC 6598 carrier-grade NAT).
pub open spec fn is_carrier_grade_nat(a: int, b: int) -> bool {
    a == 100 && 64 <= b <= 127
}

/// Whether the IPv4 address `a.b.c.d` is one a stranger could dial: not
/// unspecified, loopback (127/8), private, link-local (169.254/16), multicast
/// (224/4), broadcast, nor carrier-grade NAT.
pub open spec fn is_global_v4(a: int, b: int, c: int, d: int) -> bool {
    !(is_unspecified_v4(a, b, c, d) || a == 127 || is_private_v4(a, b) || (a == 169 && b == 254)
        || (224 <= a <= 239) || (a == 255 && b == 255 && c == 255 && d == 255)
        || is_carrier_grade_nat(a, b))
}

/// `::ffff:a.b.c.d`, an IPv4 address in IPv6 form.
pub open spec fn is_ipv4_mapped(s: [u16; 8]) -> bool {
    s[0] == 0 && s[1] == 0 && s[2] == 0 && s[3] == 0 && s[4] == 0 && s[5] == 0xffff
}

/// Whether the IPv6 address with segments `s` is one a stranger could dial:
/// an IPv4-mapped address by the IPv4 rules; otherwise not unspecified,
/// loopback, multicast (ff00::/8), unique local (fc00::/7) nor link-local
/// (fe80::/10).
pub open spec fn is_global_v6(s: [u16; 8]) -> bool {
    if is_ipv4_mapped(s) {
        is_global_v4(s[6] as int / 256, s[6] as int % 256, s[7] as int / 256, s[7] as int % 256)
    } else {
        let zero_head = s[0] == 0 && s[1] == 0 && s[2] == 0 && s[3] == 0 && s[4] == 0 && s[5] == 0
            && s[6] == 0;
        !((zero_head && s[7] == 0) || (zero_head && s[7] == 1) || s[0] >= 0xff00 || (0xfc00 <= s[0]
            <= 0xfdff) || (0xfe80 <= s[0] <= 0xfebf))
    }
}

/// Whether a part is an IP literal.
pub open spec fn is_ip(part: AddressPart) -> bool {
    part is Ip4 || part is Ip6
}

/// The first IP literal of an address, if it has one.
pub open spec fn first_ip(parts: Seq<AddressPart>) -> Option<AddressPart>
    decreases parts.len(),
{
    if parts.len() == 0 {
        None
    } else {
        match first_ip(parts.drop_last()) {
            Some(ip) => Some(ip),
            None => if is_ip(parts.last()) {
                Some(parts.last())
            } else {
                None
            },
        }
    }
}

/// Whether a stranger on the open internet could dial this peer at an
/// address with these parts: no relay circuit anywhere, and a first IP
/// literal that is global. An address with no IP literal cannot be judged,
/// and so is not.
pub open spec fn globally_dialable(parts: Seq<AddressPart>) -> bool {
    !has_circuit(parts) && match first_ip(parts) {
        Some(AddressPart::Ip4 { octets }) => is_global_v4(
            octets[0] as int,
            octets[1] as int,
            octets[2] as int,
            octets[3] as int,
        ),
        Some(AddressPart::Ip6 { segments }) => is_global_v6(segments),
        _ => false,
    }
}

fn global_v4(a: u8, b: u8, c: u8, d: u8) -> (r: bool)
    ensures
        r == is_global_v4(a as int, b as int, c as int, d as int),
{
    let unspecified = a == 0 && b == 0 && c == 0 && d == 0;
    let private = a == 10 || (a == 172 && 16 <= b && b <= 31) || (a == 192 && b == 168);
    let link_local = a == 169 && b == 254;
    let multicast = 224 <= a && a <= 239;
    let broadcast = a == 255 && b == 255 && c == 255 && d == 255;
    let carrier_nat = a == 100 && 64 <= b && b <= 127;
    !(unspecified || a == 127 || private || link_local || multicast || broadcast || carrier_nat)
}

fn global_v6(s: [u16; 8]) -> (r: bool)
    ensures
        r == is_global_v6(s),
{
    if s[0] == 0 && s[1] == 0 && s[2] == 0 && s[3] == 0 && s[4] == 0 && s[5] == 0xffff {
        let hi = s[6];
        let lo = s[7];
        return global_v4((hi / 256) as u8, (hi % 256) as u8, (lo / 256) as u8, (lo % 256) as u8);
    }
    let zero_head = s[0] == 0 && s[1] == 0 && s[2] == 0 && s[3] == 0 && s[4] == 0 && s[5] == 0
        && s[6] == 0;
    let unspecified = zero_head && s[7] == 0;
    let loopback = zero_head && s[7] == 1;
    let multicast = s[0] >= 0xff00;
    let unique_local = 0xfc00 <= s[0] && s[0] <= 0xfdff;
    let link_local = 0xfe80 <= s[0] && s[0] <= 0xfebf;
    !(unspecified || loopback || multicast || unique_local || link_local)
}

/// Whether `address` is one a stranger on the open internet could dial. Both
/// the ledger and the operator's asserted addresses go through this one
/// predicate, so the two can never come to refuse different sets.
pub fn is_globally_dialable(address: &Address) -> (r: bool)
    ensures
        r == globally_dialable(address@.parts),
{
    let parts = address.parts();
    let mut ip: Option<AddressPart> = None;
    let mut i: usize = 0;
    while i < parts.len()
        invariant
            0 <= i <= parts@.len(),
            parts@ == address@.parts,
            ip == first_ip(parts@.take(i as int)),
            forall|j: int| 0 <= j < i ==> !(parts@[j] is P2pCircuit),
        decreases parts@.len() - i,
    {
        assert(parts@.take(i + 1).drop_last() =~= parts@.take(i as int));
        let part = parts[i];
        match part {
            AddressPart::P2pCircuit => {
                return false;
            },
            AddressPart::Ip4 { .. } => {
                if ip.is_none() {
                    ip = Some(part);
                }
            },
            AddressPart::Ip6 { .. } => {
                if ip.is_none() {
                    ip = Some(part);
                }
            },
            AddressPart::Other => {},
        }
        i = i + 1;
    }
    assert(parts@.take(i as int) =~= parts@);
    match ip {
        Some(AddressPart::Ip4 { octets }) => global_v4(octets[0], octets[1], octets[2], octets[3]),
        Some(AddressPart::Ip6 { segments }) => global_v6(segments),
        _ => false,
    }
}

// ------------------------------------------------------------ the ledger

/// Why an observation was ignored. These are verdicts a healthy peer produces
/// constantly, not failures.
#[derive(Debug, Clone, Copy, PartialEq, Eq, Structural)]
pub enum CandidateRejection {
    /// Not an address a stranger could dial.
    NotGlobal,
    /// Already advertised.
    AlreadyPromoted,
    /// A bound was reached, so nothing was recorded.
    LedgerFull,
    /// The observation was attributed to this peer itself.
    SelfObservation,
}

/// The ledger's verdict on one observation.
#[derive(Debug, PartialEq, Eq)]
pub enum Promotion {
    /// The observation changed nothing, for the stated reason.
    Ignored(CandidateRejection),
    /// The observation was counted; the address is not yet advertised.
    Recorded {
        /// How many distinct peers have now reported this address.
        corroborations: usize,
    },
    /// The address reached the threshold and should be advertised.
    Promote(Address),
}

/// The abstract value of a [`Promotion`].
pub enum PromotionView {
    Ignored(CandidateRejection),
    Recorded { corroborations: nat },
    Promote(AddressView),
}

impl View for Promotion {
    type V = PromotionView;

    open spec fn view(&self) -> PromotionView {
        match self {
            Promotion::Ignored(why) => PromotionView::Ignored(*why),
            Promotion::Recorded { corroborations } => PromotionView::Recorded {
                corroborations: *corroborations as nat,
            },
            Promotion::Promote(a) => PromotionView::Promote(a@),
        }
    }
}

/// An address awaiting corroboration, and the distinct peers that reported it.
struct Candidate {
    address: Address,
    observers: Vec<NetPeer>,
}

impl View for Candidate {
    type V = (AddressView, Seq<NetPeerView>);

    closed spec fn view(&self) -> (AddressView, Seq<NetPeerView>) {
        (self.address@, self.observers@.map_values(|p: NetPeer| p@))
    }
}

/// The abstract state of an [`ExternalAddressLedger`].
pub struct ExternalAddressLedgerView {
    /// This peer's own identity.
    pub local: NetPeerView,
    /// Distinct observers required to promote.
    pub threshold: nat,
    /// Addresses tracked at most, promoted ones included.
    pub max_addresses: nat,
    /// Observers counted at most for one address.
    pub max_observers_per_address: nat,
    /// Addresses awaiting corroboration, each with its distinct observers.
    pub candidates: Seq<(AddressView, Seq<NetPeerView>)>,
    /// Addresses advertised, in the order they were promoted.
    pub promoted: Seq<AddressView>,
}

/// The state after, and the verdict on, `observer` reporting that it sees
/// this peer at `address`. In order: the observer must be another peer, the
/// address globally dialable and not yet advertised, and, unless the observer
/// is already counted for it, the bounds must admit it; then the observer is
/// counted, and the threshold's worth of distinct observers promotes.
pub open spec fn observe_step(v: ExternalAddressLedgerView, observer: NetPeerView, address: AddressView) -> (ExternalAddressLedgerView, PromotionView) {
    let existing = lookup(v.candidates, address);
    let already = existing matches Some(observers) && observers.contains(observer);
    let held = match existing {
        Some(observers) => observers,
        None => Seq::empty(),
    };
    if observer == v.local {
        (v, PromotionView::Ignored(CandidateRejection::SelfObservation))
    } else if !globally_dialable(address.parts) {
        (v, PromotionView::Ignored(CandidateRejection::NotGlobal))
    } else if v.promoted.contains(address) {
        (v, PromotionView::Ignored(CandidateRejection::AlreadyPromoted))
    } else if !already && existing is None && v.candidates.len() + v.promoted.len() >= v.max_addresses {
        (v, PromotionView::Ignored(CandidateRejection::LedgerFull))
    } else if !already && held.len() >= v.max_observers_per_address {
        (v, PromotionView::Ignored(CandidateRejection::LedgerFull))
    } else {
        let counted = if already {
            held
        } else {
            held.push(observer)
        };
        if counted.len() < v.threshold {
            (
                ExternalAddressLedgerView { candidates: put(v.candidates, address, counted), ..v },
                PromotionView::Recorded { corroborations: counted.len() },
            )
        } else {
            (
                ExternalAddressLedgerView {
                    candidates: drop_key(v.candidates, address),
                    promoted: v.promoted.push(address),
                    ..v
                },
                PromotionView::Promote(address),
            )
        }
    }
}

/// What the ledger keeps true: one record per candidate address, no address
/// both a candidate and promoted, every tracked address globally dialable,
/// within the address bound; each candidate's observers distinct, other than
/// this peer, at least one, fewer than the threshold and within the observer
/// bound.
pub open spec fn external_wf(v: ExternalAddressLedgerView) -> bool {
    &&& keys_unique(v.candidates)
    &&& v.promoted.no_duplicates()
    &&& v.candidates.len() + v.promoted.len() <= v.max_addresses
    &&& forall|i: int| 0 <= i < v.promoted.len() ==> globally_dialable((#[trigger] v.promoted[i]).parts)
    &&& forall|i: int|
        0 <= i < v.candidates.len() ==> {
            let (address, observers) = #[trigger] v.candidates[i];
            &&& globally_dialable(address.parts)
            &&& !v.promoted.contains(address)
            &&& observers.no_duplicates()
            &&& !observers.contains(v.local)
            &&& 1 <= observers.len()
            &&& observers.len() < v.threshold
            &&& observers.len() <= v.max_observers_per_address
        }
}

/// Which addresses other peers say they see this peer at, and which of those
/// it has decided to advertise. A pure state machine: no clock, no
/// randomness, no hash order.
pub struct ExternalAddressLedger {
    local: NetPeer,
    threshold: usize,
    max_addresses: usize,
    max_observers_per_address: usize,
    candidates: Vec<Candidate>,
    promoted: Vec<Address>,
}

impl View for ExternalAddressLedger {
    type V = ExternalAddressLedgerView;

    closed spec fn view(&self) -> ExternalAddressLedgerView {
        ExternalAddressLedgerView {
            local: self.local@,
            threshold: self.threshold as nat,
            max_addresses: self.max_addresses as nat,
            max_observers_per_address: self.max_observers_per_address as nat,
            candidates: self.candidates@.map_values(|c: Candidate| c@),
            promoted: self.promoted@.map_values(|a: Address| a@),
        }
    }
}

fn contains_observer(observers: &Vec<NetPeer>, observer: &NetPeer) -> (r: bool)
    ensures
        r == observers@.map_values(|p: NetPeer| p@).contains(observer@),
{
    let ghost views = observers@.map_values(|p: NetPeer| p@);
    let mut i: usize = 0;
    while i < observers.len()
        invariant
            0 <= i <= observers@.len(),
            views == observers@.map_values(|p: NetPeer| p@),
            forall|j: int| 0 <= j < i ==> views[j] != observer@,
        decreases observers@.len() - i,
    {
        if observers[i].same_as(observer) {
            assert(views[i as int] == observer@);
            return true;
        }
        i = i + 1;
    }
    false
}

impl ExternalAddressLedger {
    #[verifier::type_invariant]
    closed spec fn inv(self) -> bool {
        external_wf(self@)
    }

    /// A ledger for `local` with the shipped corroboration threshold.
    pub fn new(local: NetPeer, max_addresses: usize, max_observers_per_address: usize) -> (r: Self)
        ensures
            r@.local == local@,
            r@.threshold == CORROBORATION_THRESHOLD,
            r@.max_addresses == max_addresses,
            r@.max_observers_per_address == max_observers_per_address,
            r@.candidates.len() == 0,
            r@.promoted.len() == 0,
    {
        ExternalAddressLedger::with_threshold(local, CORROBORATION_THRESHOLD, max_addresses, max_observers_per_address)
    }

    /// A ledger with a threshold other than the shipped one. Only tests want
    /// this: at the shipped threshold an address promotes the instant a second
    /// observer reports it, so the per-address observer bound cannot bind.
    pub fn with_threshold(local: NetPeer, threshold: usize, max_addresses: usize, max_observers_per_address: usize) -> (r: Self)
        ensures
            r@.local == local@,
            r@.threshold == threshold,
            r@.max_addresses == max_addresses,
            r@.max_observers_per_address == max_observers_per_address,
            r@.candidates.len() == 0,
            r@.promoted.len() == 0,
    {
        let r = ExternalAddressLedger {
            local,
            threshold,
            max_addresses,
            max_observers_per_address,
            candidates: Vec::new(),
            promoted: Vec::new(),
        };
        assert(r@.candidates =~= Seq::<(AddressView, Seq<NetPeerView>)>::empty());
        assert(r@.promoted =~= Seq::<AddressView>::empty());
        r
    }

    fn candidate_index(&self, address: &Address) -> (r: Option<usize>)
        ensures
            r matches Some(i) ==> i < self@.candidates.len() && self@.candidates[i as int].0 == address@,
            r is None ==> !has_key(self@.candidates, address@),
    {
        let ghost entries = self@.candidates;
        let mut i: usize = 0;
        while i < self.candidates.len()
            invariant
                0 <= i <= self.candidates@.len(),
                entries == self.candidates@.map_values(|c: Candidate| c@),
                forall|j: int| 0 <= j < i ==> entries[j].0 != address@,
            decreases self.candidates@.len() - i,
        {
            if self.candidates[i].address.same_as(address) {
                return Some(i);
            }
            i = i + 1;
        }
        None
    }

    /// Whether `address` has been advertised.
    pub fn is_promoted(&self, address: &Address) -> (r: bool)
        ensures
            r == self@.promoted.contains(address@),
    {
        let ghost views = self@.promoted;
        let mut i: usize = 0;
        while i < self.promoted.len()
            invariant
                0 <= i <= self.promoted@.len(),
                views == self.promoted@.map_values(|a: Address| a@),
                forall|j: int| 0 <= j < i ==> views[j] != address@,
            decreases self.promoted@.len() - i,
        {
            if self.promoted[i].same_as(address) {
                assert(views[i as int] == address@);
                return true;
            }
            i = i + 1;
        }
        false
    }

    /// Records `observer`'s claim that it sees this peer at `address`, and
    /// decides what to do about it. The filter sits before the counting, so
    /// two peers on one LAN reporting a private address count for nothing.
    pub fn observe(&mut self, observer: NetPeer, address: Address) -> (r: Promotion)
        ensures
            (final(self)@, r@) == observe_step(old(self)@, observer@, address@),
    {
        proof {
            use_type_invariant(&*self);
        }
        let ghost v = self@;
        proof {
            law_observe_keeps_the_bounds(v, observer@, address@);
            lemma_lookup_characterized(v.candidates, address@);
        }
        if observer.same_as(&self.local) {
            return Promotion::Ignored(CandidateRejection::SelfObservation);
        }
        if !is_globally_dialable(&address) {
            return Promotion::Ignored(CandidateRejection::NotGlobal);
        }
        if self.is_promoted(&address) {
            return Promotion::Ignored(CandidateRejection::AlreadyPromoted);
        }
        let index = self.candidate_index(&address);
        proof {
            if let Some(i) = index {
                lemma_lookup_index(v.candidates, i as int);
            }
        }
        let already = match index {
            Some(i) => contains_observer(&self.candidates[i].observers, &observer),
            None => false,
        };
        let held: usize = match index {
            Some(i) => self.candidates[i].observers.len(),
            None => 0,
        };
        if !already {
            if index.is_none() && self.candidates.len() + self.promoted.len() >= self.max_addresses {
                return Promotion::Ignored(CandidateRejection::LedgerFull);
            }
            if held >= self.max_observers_per_address {
                return Promotion::Ignored(CandidateRejection::LedgerFull);
            }
        }
        let ghost held_view = match lookup(v.candidates, address@) {
            Some(observers) => observers,
            None => Seq::<NetPeerView>::empty(),
        };
        let ghost counted_view = if already {
            held_view
        } else {
            held_view.push(observer@)
        };
        let mut candidates: Vec<Candidate> = Vec::new();
        std::mem::swap(&mut candidates, &mut self.candidates);
        let ghost old_candidates = candidates@;
        let mut observers: Vec<NetPeer> = match index {
            Some(i) => {
                let removed = candidates.remove(i);
                removed.observers
            },
            None => Vec::new(),
        };
        if !already {
            observers.push(observer);
        }
        proof {
            assert(observers@.map_values(|p: NetPeer| p@) =~= counted_view);
        }
        let corroborations = observers.len();
        if corroborations < self.threshold {
            let candidate = Candidate { address, observers };
            match index {
                Some(i) => {
                    candidates.insert(i, candidate);
                    proof {
                        lemma_put_at(v.candidates, i as int, counted_view);
                        assert(candidates@ =~= old_candidates.update(i as int, candidate));
                        assert(candidates@.map_values(|c: Candidate| c@) =~= v.candidates.update(
                            i as int,
                            (address@, counted_view),
                        ));
                    }
                },
                None => {
                    candidates.push(candidate);
                    proof {
                        assert(candidates@.map_values(|c: Candidate| c@) =~= v.candidates.push(
                            (address@, counted_view),
                        ));
                    }
                },
            }
            self.candidates = candidates;
            Promotion::Recorded { corroborations }
        } else {
            proof {
                match index {
                    Some(i) => {
                        lemma_drop_key_at(v.candidates, i as int);
                        assert(candidates@.map_values(|c: Candidate| c@) =~= v.candidates.remove(
                            i as int,
                        ));
                    },
                    None => {
                        assert(candidates@.map_values(|c: Candidate| c@) =~= v.candidates);
                    },
                }
            }
            self.candidates = candidates;
            let announced = address.duplicate();
            let mut promoted: Vec<Address> = Vec::new();
            std::mem::swap(&mut promoted, &mut self.promoted);
            promoted.push(address);
            proof {
                assert(promoted@.map_values(|a: Address| a@) =~= v.promoted.push(address@));
            }
            self.promoted = promoted;
            Promotion::Promote(announced)
        }
    }

    /// How many addresses are awaiting corroboration.
    pub fn candidate_count(&self) -> (r: usize)
        ensures
            r == self@.candidates.len(),
    {
        self.candidates.len()
    }

    /// How many distinct peers have reported `address`.
    pub fn corroborations(&self, address: &Address) -> (r: usize)
        ensures
            r == match lookup(self@.candidates, address@) {
                Some(observers) => observers.len(),
                None => 0,
            },
    {
        proof {
            use_type_invariant(self);
            lemma_lookup_characterized(self@.candidates, address@);
        }
        match self.candidate_index(address) {
            Some(i) => {
                proof {
                    lemma_lookup_index(self@.candidates, i as int);
                }
                self.candidates[i].observers.len()
            },
            None => 0,
        }
    }
}

/// Every observation keeps the ledger's invariant: in particular no more
/// addresses than the address bound, no more observers per address than the
/// observer bound, and nothing tracked that a stranger could not dial.
pub proof fn law_observe_keeps_the_bounds(v: ExternalAddressLedgerView, observer: NetPeerView, address: AddressView)
    requires
        external_wf(v),
    ensures
        external_wf(observe_step(v, observer, address).0),
        observe_step(v, observer, address).0.local == v.local,
        observe_step(v, observer, address).0.threshold == v.threshold,
        observe_step(v, observer, address).0.max_addresses == v.max_addresses,
        observe_step(v, observer, address).0.max_observers_per_address == v.max_observers_per_address,
{
    let existing = lookup(v.candidates, address);
    let already = existing matches Some(observers) && observers.contains(observer);
    let held = match existing {
        Some(observers) => observers,
        None => Seq::<NetPeerView>::empty(),
    };
    let next = observe_step(v, observer, address).0;
    lemma_lookup_characterized(v.candidates, address);
    if observer == v.local || !globally_dialable(address.parts) || v.promoted.contains(address) || (
    !already && existing is None && v.candidates.len() + v.promoted.len() >= v.max_addresses) || (
    !already && held.len() >= v.max_observers_per_address) {
        return;
    }
    let counted = if already {
        held
    } else {
        held.push(observer)
    };
    let index = if existing is Some {
        choose|i: int| 0 <= i < v.candidates.len() && #[trigger] v.candidates[i].0 == address
            && v.candidates[i].1 == held
    } else {
        0
    };
    assert(held.no_duplicates() && !held.contains(v.local) && held.len() <= v.max_observers_per_address
        && (existing is Some ==> held.len() < v.threshold)) by {
        if existing is Some {
            assert(v.candidates[index].1 == held);
        }
    }
    assert(counted.no_duplicates()) by {
        if !already {
            assert forall|a: int, b: int|
                0 <= a < counted.len() && 0 <= b < counted.len() && a != b implies counted[a]
                != counted[b] by {
                if a < held.len() && b < held.len() {
                } else if a < held.len() {
                    assert(held.contains(held[a]));
                } else {
                    assert(held.contains(held[b]));
                }
            }
        }
    }
    assert(!counted.contains(v.local)) by {
        if counted.contains(v.local) {
            let k = choose|k: int| 0 <= k < counted.len() && counted[k] == v.local;
            if k < held.len() {
                assert(held.contains(held[k]));
            }
        }
    }
    assert(1 <= counted.len()) by {
        if already {
            assert(held.contains(observer));
        }
    }
    if counted.len() < v.threshold {
        lemma_put(v.candidates, address, counted);
        assert forall|i: int| 0 <= i < next.candidates.len() implies {
            let (a, observers) = #[trigger] next.candidates[i];
            &&& globally_dialable(a.parts)
            &&& !next.promoted.contains(a)
            &&& observers.no_duplicates()
            &&& !observers.contains(next.local)
            &&& 1 <= observers.len()
            &&& observers.len() < next.threshold
            &&& observers.len() <= next.max_observers_per_address
        } by {
            if existing is Some {
                lemma_put_at(v.candidates, index, counted);
                if i != index {
                    assert(next.candidates[i] == v.candidates[i]);
                }
            } else if i < v.candidates.len() {
                assert(next.candidates[i] == v.candidates[i]);
            }
        }
    } else {
        assert(!already);
        let promoted = v.promoted.push(address);
        assert(promoted.no_duplicates()) by {
            assert forall|a: int, b: int|
                0 <= a < promoted.len() && 0 <= b < promoted.len() && a != b implies promoted[a]
                != promoted[b] by {
                if a < v.promoted.len() && b < v.promoted.len() {
                } else if a < v.promoted.len() {
                    assert(v.promoted.contains(v.promoted[a]));
                } else {
                    assert(v.promoted.contains(v.promoted[b]));
                }
            }
        }
        assert forall|i: int| 0 <= i < promoted.len() implies globally_dialable(
            (#[trigger] promoted[i]).parts,
        ) by {
            if i < v.promoted.len() {
                assert(promoted[i] == v.promoted[i]);
            }
        }
        if existing is Some {
            lemma_drop_key_at(v.candidates, index);
            let dropped = v.candidates.remove(index);
            assert forall|i: int| 0 <= i < dropped.len() implies {
                let (a, observers) = #[trigger] dropped[i];
                &&& globally_dialable(a.parts)
                &&& !promoted.contains(a)
                &&& observers.no_duplicates()
                &&& !observers.contains(v.local)
                &&& 1 <= observers.len()
                &&& observers.len() < v.threshold
                &&& observers.len() <= v.max_observers_per_address
            } by {
                let j = if i < index {
                    i
                } else {
                    i + 1
                };
                assert(dropped[i] == v.candidates[j]);
                assert(v.candidates[j].0 != address);
                if promoted.contains(dropped[i].0) {
                    let k = choose|k: int| 0 <= k < promoted.len() && promoted[k] == dropped[i].0;
                    if k < v.promoted.len() {
                        assert(v.promoted.contains(v.promoted[k]));
                    }
                }
            }
        } else {
            assert forall|i: int| 0 <= i < v.candidates.len() implies !promoted.contains(
                (#[trigger] v.candidates[i]).0,
            ) by {
                assert(v.candidates[i].0 != address);
                if promoted.contains(v.candidates[i].0) {
                    let k = choose|k: int| 0 <= k < promoted.len() && promoted[k] == v.candidates[i].0;
                    if k < v.promoted.len() {
                        assert(v.promoted.contains(v.promoted[k]));
                    }
                }
            }
        }
    }
}

/// An address is advertised only on the word of the threshold's number of
/// distinct peers, none of them this peer, and only if a stranger could dial
/// it.
pub proof fn law_promotion_needs_distinct_observers(v: ExternalAddressLedgerView, observer: NetPeerView, address: AddressView)
    requires
        external_wf(v),
        observe_step(v, observer, address).1 is Promote,
    ensures
        globally_dialable(address.parts),
        observer != v.local,
        ({
            let earlier = match lookup(v.candidates, address) {
                Some(observers) => observers,
                None => Seq::<NetPeerView>::empty(),
            };
            &&& earlier.no_duplicates()
            &&& !earlier.contains(observer)
            &&& !earlier.contains(v.local)
            &&& earlier.len() + 1 >= v.threshold
        }),
{
    lemma_lookup_characterized(v.candidates, address);
    if let Some(held) = lookup(v.candidates, address) {
        let i = choose|i: int| 0 <= i < v.candidates.len() && #[trigger] v.candidates[i].0 == address
            && v.candidates[i].1 == held;
        assert(v.candidates[i].1 == held);
    }
}

/// An observation attributed to this peer itself counts for nothing.
pub proof fn law_self_observation_counts_nothing(v: ExternalAddressLedgerView, address: AddressView)
    ensures
        observe_step(v, v.local, address) == (v, PromotionView::Ignored(CandidateRejection::SelfObservation)),
{
}

/// An address a stranger could not dial counts for nothing, however many
/// peers report it.
pub proof fn law_non_global_counts_nothing(v: ExternalAddressLedgerView, observer: NetPeerView, address: AddressView)
    requires
        observer != v.local,
        !globally_dialable(address.parts),
    ensures
        observe_step(v, observer, address) == (v, PromotionView::Ignored(CandidateRejection::NotGlobal)),
{
}

/// An advertised address is never promoted a second time.
pub proof fn law_promoted_once(v: ExternalAddressLedgerView, observer: NetPeerView, address: AddressView)
    requires
        v.promoted.contains(address),
    ensures
        observe_step(v, observer, address).0 == v,
        !(observe_step(v, observer, address).1 is Promote),
{
}

/// A peer repeating itself adds no corroboration: the state stays as it was
/// and the count reported is the one already held.
pub proof fn law_repeated_observer_adds_nothing(
    v: ExternalAddressLedgerView,
    observer: NetPeerView,
    address: AddressView,
    observers: Seq<NetPeerView>,
)
    requires
        external_wf(v),
        lookup(v.candidates, address) == Some(observers),
        observers.contains(observer),
    ensures
        observe_step(v, observer, address).0 == v,
        observe_step(v, observer, address).1 == (PromotionView::Recorded {
            corroborations: observers.len(),
        }),
{
    lemma_lookup_characterized(v.candidates, address);
    let i = choose|i: int| 0 <= i < v.candidates.len() && #[trigger] v.candidates[i].0 == address
        && v.candidates[i].1 == observers;
    assert(v.candidates[i].1 == observers);
    assert(observers.contains(observer));
    assert(observer != v.local);
    assert(!v.promoted.contains(address));
    lemma_put_at(v.candidates, i, observers);
    assert(v.candidates.update(i, (address, observers)) =~= v.candidates);
}

/// The distinct peers of `s`, each at its first occurrence.
pub open spec fn first_occurrences(s: Seq<NetPeerView>) -> Seq<NetPeerView>
    decreases s.len(),
{
    if s.len() == 0 {
        s
    } else {
        let earlier = first_occurrences(s.drop_last());
        if earlier.contains(s.last()) {
            earlier
        } else {
            earlier.push(s.last())
        }
    }
}

/// The state after, and the verdicts on, `observers` reporting `address` one
/// after another.
pub open spec fn observe_run(v: ExternalAddressLedgerView, observers: Seq<NetPeerView>, address: AddressView) -> (ExternalAddressLedgerView, Seq<PromotionView>)
    decreases observers.len(),
{
    if observers.len() == 0 {
        (v, Seq::empty())
    } else {
        let (mid, verdicts) = observe_run(v, observers.drop_last(), address);
        let (after, verdict) = observe_step(mid, observers.last(), address);
        (after, verdicts.push(verdict))
    }
}

/// The verdict owed to report `i` of a run: counted, with the number of
/// distinct peers so far, until that number reaches the threshold; promoted
/// at the report that reaches it; already promoted ever after.
pub open spec fn run_verdict(observers: Seq<NetPeerView>, i: int, threshold: nat, address: AddressView) -> PromotionView {
    let before = first_occurrences(observers.take(i)).len();
    let counted = first_occurrences(observers.take(i + 1)).len();
    if before >= threshold {
        PromotionView::Ignored(CandidateRejection::AlreadyPromoted)
    } else if counted >= threshold {
        PromotionView::Promote(address)
    } else {
        PromotionView::Recorded { corroborations: counted }
    }
}

/// Adding a report adds at most one distinct peer.
pub proof fn lemma_first_occurrences_grow(s: Seq<NetPeerView>, i: int, j: int)
    requires
        0 <= i <= j <= s.len(),
    ensures
        first_occurrences(s.take(i)).len() <= first_occurrences(s.take(j)).len(),
        j == i + 1 ==> first_occurrences(s.take(j)).len() <= first_occurrences(s.take(i)).len() + 1,
    decreases j - i,
{
    if i < j {
        lemma_first_occurrences_grow(s, i, j - 1);
        assert(s.take(j).drop_last() =~= s.take(j - 1));
    }
}

/// The inductive core of [`law_promotion_at_the_threshold`].
proof fn lemma_observe_run(v: ExternalAddressLedgerView, observers: Seq<NetPeerView>, address: AddressView)
    requires
        external_wf(v),
        v.threshold >= 1,
        v.threshold <= v.max_observers_per_address,
        globally_dialable(address.parts),
        !v.promoted.contains(address),
        lookup(v.candidates, address) is None,
        v.candidates.len() + v.promoted.len() < v.max_addresses,
        forall|i: int| 0 <= i < observers.len() ==> #[trigger] observers[i] != v.local,
    ensures
        ({
            let (after, verdicts) = observe_run(v, observers, address);
            let d = first_occurrences(observers);
            &&& verdicts.len() == observers.len()
            &&& forall|i: int| 0 <= i < verdicts.len() ==> #[trigger] verdicts[i] == run_verdict(observers, i, v.threshold, address)
            &&& after == (ExternalAddressLedgerView { candidates: after.candidates, promoted: after.promoted, ..v })
            &&& d.len() >= v.threshold ==> after.promoted.contains(address)
            &&& d.len() < v.threshold ==> {
                &&& after.promoted == v.promoted
                &&& keys_unique(after.candidates)
                &&& lookup(after.candidates, address) == if d.len() == 0 {
                    None
                } else {
                    Some(d)
                }
                &&& after.candidates.len() == v.candidates.len() + if d.len() == 0 {
                    0int
                } else {
                    1int
                }
            }
        }),
    decreases observers.len(),
{
    if observers.len() > 0 {
        let rest = observers.drop_last();
        let o = observers.last();
        lemma_observe_run(v, rest, address);
        let (mid, verdicts) = observe_run(v, rest, address);
        let dp = first_occurrences(rest);
        let d = first_occurrences(observers);
        assert(observers.take(observers.len() - 1) =~= rest);
        assert(observers.take(observers.len() as int) =~= observers);
        assert forall|i: int| 0 <= i < rest.len() implies #[trigger] rest.take(i) == observers.take(i) && rest.take(
            i + 1,
        ) == observers.take(i + 1) by {
            assert(rest.take(i) =~= observers.take(i));
            assert(rest.take(i + 1) =~= observers.take(i + 1));
        }
        assert(o == observers[observers.len() - 1]);
        if dp.len() < v.threshold {
            lemma_lookup_characterized(mid.candidates, address);
            lemma_put(mid.candidates, address, d);
            if dp.len() == 0 {
                assert(!dp.contains(o));
                assert(d =~= seq![o]);
                assert(Seq::<NetPeerView>::empty().push(o) =~= d);
            }
            let counted = if dp.len() > 0 && dp.contains(o) { dp } else { dp.push(o) };
            assert(counted =~= d);
            if d.len() >= v.threshold {
                assert(mid.promoted.push(address)[mid.promoted.len() as int] == address);
            }
        } else {
            assert(d.len() >= dp.len());
        }
        let (after, verdict) = observe_step(mid, o, address);
        let all = verdicts.push(verdict);
        assert forall|i: int| 0 <= i < all.len() implies #[trigger] all[i] == run_verdict(observers, i, v.threshold, address) by {
            if i < rest.len() {
                assert(all[i] == verdicts[i]);
            }
        }
    }
}

/// Reports of one fresh address, none from this peer, under bounds that admit
/// it: each is answered with the number of distinct peers reporting so far,
/// so a peer repeating itself never moves the count; the address is promoted
/// at the report that brings that number to the threshold and at no other;
/// every report after that is refused as already promoted.
pub proof fn law_promotion_at_the_threshold(v: ExternalAddressLedgerView, observers: Seq<NetPeerView>, address: AddressView)
    requires
        external_wf(v),
        v.threshold >= 1,
        v.threshold <= v.max_observers_per_address,
        globally_dialable(address.parts),
        !v.promoted.contains(address),
        lookup(v.candidates, address) is None,
        v.candidates.len() + v.promoted.len() < v.max_addresses,
        forall|i: int| 0 <= i < observers.len() ==> #[trigger] observers[i] != v.local,
    ensures
        ({
            let (after, verdicts) = observe_run(v, observers, address);
            &&& verdicts.len() == observers.len()
            &&& forall|i: int| 0 <= i < verdicts.len() ==> #[trigger] verdicts[i] == run_verdict(observers, i, v.threshold, address)
            &&& forall|i: int, j: int|
                0 <= i < j < verdicts.len() && #[trigger] verdicts[i] is Promote ==> !(#[trigger] verdicts[j] is Promote)
            &&& after.promoted.contains(address) == (first_occurrences(observers).len() >= v.threshold)
        }),
{
    lemma_observe_run(v, observers, address);
    let (after, verdicts) = observe_run(v, observers, address);
    assert forall|i: int, j: int|
        0 <= i < j < verdicts.len() && #[trigger] verdicts[i] is Promote implies !(#[trigger] verdicts[j] is Promote) by {
        assert(verdicts[i] == run_verdict(observers, i, v.threshold, address));
        assert(verdicts[j] == run_verdict(observers, j, v.threshold, address));
        lemma_first_occurrences_grow(observers, i + 1, j);
    }
    assert(observers.take(observers.len() as int) =~= observers);
}

// ------------------------------------------------------------ the filter's laws

/// Private, loopback, link-local, carrier-grade-NAT, multicast, broadcast
/// and unspecified IPv4 addresses are never globally dialable, whatever
/// follows them: 10/8, 172.16/12 (172.16 through 172.31), 192.168/16,
/// 127/8, 169.254/16, 100.64/10, 224/4, 255.255.255.255 and 0.0.0.0.
pub proof fn law_non_global_ipv4_is_refused(parts: Seq<AddressPart>, octets: [u8; 4])
    requires
        first_ip(parts) == Some(AddressPart::Ip4 { octets }),
        ({
            let a = octets[0];
            let b = octets[1];
            ||| a == 10
            ||| a == 172 && 16 <= b && b <= 31
            ||| a == 192 && b == 168
            ||| a == 127
            ||| a == 169 && b == 254
            ||| a == 100 && 64 <= b && b <= 127
            ||| 224 <= a && a <= 239
            ||| octets[0] == 255 && octets[1] == 255 && octets[2] == 255 && octets[3] == 255
            ||| octets[0] == 0 && octets[1] == 0 && octets[2] == 0 && octets[3] == 0
        }),
    ensures
        !globally_dialable(parts),
{
}

/// An IPv4 address outside every reserved range, with no relay hop, is
/// globally dialable.
pub proof fn law_public_ipv4_is_dialable(parts: Seq<AddressPart>, octets: [u8; 4])
    requires
        first_ip(parts) == Some(AddressPart::Ip4 { octets }),
        !has_circuit(parts),
        ({
            let a = octets[0];
            let b = octets[1];
            &&& a != 10 && a != 127 && a != 0 && !(224 <= a && a <= 239) && a != 255
            &&& !(a == 172 && 16 <= b && b <= 31)
            &&& !(a == 192 && b == 168)
            &&& !(a == 169 && b == 254)
            &&& !(a == 100 && 64 <= b && b <= 127)
        }),
    ensures
        globally_dialable(parts),
{
}

/// However many peers report it, an address whose first IP literal is
/// private (172.16/12 among them) is never recorded nor promoted: the
/// ledger is left as it was.
pub proof fn law_private_addresses_are_never_counted(
    v: ExternalAddressLedgerView,
    observer: NetPeerView,
    address: AddressView,
    octets: [u8; 4],
)
    requires
        first_ip(address.parts) == Some(AddressPart::Ip4 { octets }),
        octets[0] == 10 || (octets[0] == 172 && 16 <= octets[1] && octets[1] <= 31) || (octets[0] == 192
            && octets[1] == 168),
    ensures
        observe_step(v, observer, address).0 == v,
        observe_step(v, observer, address).1 is Ignored,
{
}

} // verus!
