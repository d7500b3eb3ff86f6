//! Whether strangers can dial this peer, derived from dial-back probes.
use vstd::prelude::*;
use crate::domain::{Endpoint, EndpointView};
use crate::external_address_ledger::CORROBORATION_THRESHOLD;
use crate::identity::{NetPeer, NetPeerView};
use crate::keyed::{has_key, keys_unique, lemma_lookup_characterized, lemma_lookup_index, lemma_put, lemma_put_at, lookup, put};

verus! {

/// Whether strangers can dial this peer. Three states: not probed yet and
/// probed-and-refused are different facts, and `Unknown` is where a peer
/// starts.
#[derive(Debug, Clone, PartialEq, Eq)]
pub enum Reachability {
    /// Nothing conclusive yet.
    Unknown,
    /// A probe dialled this peer back at this address and got through.
    Reachable(Endpoint),
    /// Enough distinct servers failed to dial this peer back.
    Unreachable,
}

/// The abstract value of a [`Reachability`].
pub enum ReachabilityView {
    Unknown,
    Reachable(EndpointView),
    Unreachable,
}

impl View for Reachability {
    type V = ReachabilityView;

    open spec fn view(&self) -> ReachabilityView {
        match self {
            Reachability::Unknown => ReachabilityView::Unknown,
            Reachability::Reachable(e) => ReachabilityView::Reachable(e@),
            Reachability::Unreachable => ReachabilityView::Unreachable,
        }
    }
}

impl Default for Reachability {
    fn default() -> (r: Reachability)
        ensures
            r@ == ReachabilityView::Unknown,
    {
        Reachability::Unknown
    }
}

impl Reachability {
    /// Whether two verdicts are the same.
    pub fn same_as(&self, other: &Reachability) -> (r: bool)
        ensures
            r == (self@ == other@),
    {
        match (self, other) {
            (Reachability::Unknown, Reachability::Unknown) => true,
            (Reachability::Unreachable, Reachability::Unreachable) => true,
            (Reachability::Reachable(a), Reachability::Reachable(b)) => a.same_as(b),
            _ => false,
        }
    }
}

/// What one dial-back probe reported.
#[derive(Debug, Clone, Copy, PartialEq, Eq, Structural)]
pub enum ProbeResult {
    /// The dial-back arrived: proof.
    Succeeded,
    /// The dial-back did not arrive: evidence, and only evidence.
    Failed,
}

/// The ledger's answer to one probe.
#[derive(Debug, Clone, PartialEq, Eq)]
pub enum ProbeOutcome {
    /// The verdict a user would be shown did not move.
    Unchanged,
    /// The verdict moved, to this.
    Changed(Reachability),
}

/// The abstract value of a [`ProbeOutcome`].
pub enum ProbeOutcomeView {
    Unchanged,
    Changed(ReachabilityView),
}

impl View for ProbeOutcome {
    type V = ProbeOutcomeView;

    open spec fn view(&self) -> ProbeOutcomeView {
        match self {
            ProbeOutcome::Unchanged => ProbeOutcomeView::Unchanged,
            ProbeOutcome::Changed(r) => ProbeOutcomeView::Changed(r@),
        }
    }
}

/// The distinct servers that failed to dial one address back.
struct FailureRecord {
    address: Endpoint,
    servers: Vec<NetPeer>,
}

impl View for FailureRecord {
    type V = (EndpointView, Seq<NetPeerView>);

    closed spec fn view(&self) -> (EndpointView, Seq<NetPeerView>) {
        (self.address@, self.servers@.map_values(|p: NetPeer| p@))
    }
}

/// The abstract state of a [`ReachabilityLedger`].
pub struct ReachabilityLedgerView {
    /// How many addresses failure evidence is held for, at most.
    pub max_failing_addresses: nat,
    /// The address last proven reachable, if any.
    pub reachable: Option<EndpointView>,
    /// Each address with failure evidence, and the distinct servers behind it.
    pub failures: Seq<(EndpointView, Seq<NetPeerView>)>,
}

/// Whether enough distinct servers failed some address.
pub open spec fn any_condemned(failures: Seq<(EndpointView, Seq<NetPeerView>)>) -> bool {
    exists|i: int| 0 <= i < failures.len() && (#[trigger] failures[i]).1.len() >= CORROBORATION_THRESHOLD
}

/// Whether enough distinct servers failed `address`.
pub open spec fn is_condemned(failures: Seq<(EndpointView, Seq<NetPeerView>)>, address: EndpointView) -> bool {
    lookup(failures, address) matches Some(servers) && servers.len() >= CORROBORATION_THRESHOLD
}

/// The verdict the evidence gives: proof outranks evidence, corroborated
/// failure outranks silence.
pub open spec fn verdict(v: ReachabilityLedgerView) -> ReachabilityView {
    match v.reachable {
        Some(address) => ReachabilityView::Reachable(address),
        None => if any_condemned(v.failures) {
            ReachabilityView::Unreachable
        } else {
            ReachabilityView::Unknown
        },
    }
}

/// A dial-back arrived at `address`: every failure record is dropped, and the
/// address is the proven one.
pub open spec fn success_step(v: ReachabilityLedgerView, address: EndpointView) -> ReachabilityLedgerView {
    ReachabilityLedgerView {
        reachable: Some(address),
        failures: Seq::empty(),
        ..v
    }
}

/// `server` failed to dial `address` back. Nothing is learnt about an address
/// already condemned, nor about a new address once the bound is reached;
/// otherwise the server joins that address's distinct blamers, and an address
/// condemned by it stops being the proven one.
pub open spec fn failure_step(v: ReachabilityLedgerView, server: NetPeerView, address: EndpointView) -> ReachabilityLedgerView {
    let held = lookup(v.failures, address);
    if is_condemned(v.failures, address) {
        v
    } else if held is None && v.failures.len() >= v.max_failing_addresses {
        v
    } else {
        let before = match held {
            Some(servers) => servers,
            None => Seq::empty(),
        };
        let after = if before.contains(server) {
            before
        } else {
            before.push(server)
        };
        let condemned = after.len() >= CORROBORATION_THRESHOLD;
        ReachabilityLedgerView {
            reachable: if condemned && v.reachable == Some(address) {
                None
            } else {
                v.reachable
            },
            failures: put(v.failures, address, after),
            ..v
        }
    }
}

/// The state after one probe result.
pub open spec fn record_step(v: ReachabilityLedgerView, server: NetPeerView, address: EndpointView, result: ProbeResult) -> ReachabilityLedgerView {
    match result {
        ProbeResult::Succeeded => success_step(v, address),
        ProbeResult::Failed => failure_step(v, server, address),
    }
}

/// What a move from verdict `before` to verdict `after` is reported as.
pub open spec fn outcome_of(before: ReachabilityView, after: ReachabilityView) -> ProbeOutcomeView {
    if before == after {
        ProbeOutcomeView::Unchanged
    } else {
        ProbeOutcomeView::Changed(after)
    }
}

/// What the ledger keeps true: one record per address, each holding between
/// one and the threshold distinct servers, no more addresses than the bound,
/// and the proven address never a condemned one.
pub open spec fn ledger_wf(v: ReachabilityLedgerView) -> bool {
    &&& keys_unique(v.failures)
    &&& v.failures.len() <= v.max_failing_addresses
    &&& forall|i: int|
        0 <= i < v.failures.len() ==> {
            let servers = (#[trigger] v.failures[i]).1;
            &&& servers.no_duplicates()
            &&& 1 <= servers.len() <= CORROBORATION_THRESHOLD
        }
    &&& (v.reachable matches Some(address) ==> !is_condemned(v.failures, address))
}

/// Per-address failure evidence, the address currently proven reachable, and
/// the verdict the two give. A pure state machine: no clock, no randomness,
/// no hash order.
pub struct ReachabilityLedger {
    max_failing_addresses: usize,
    reachable: Option<Endpoint>,
    failures: Vec<FailureRecord>,
}

impl View for ReachabilityLedger {
    type V = ReachabilityLedgerView;

    closed spec fn view(&self) -> ReachabilityLedgerView {
        ReachabilityLedgerView {
            max_failing_addresses: self.max_failing_addresses as nat,
            reachable: match self.reachable {
                Some(e) => Some(e@),
                None => None,
            },
            failures: self.failures@.map_values(|r: FailureRecord| r@),
        }
    }
}

fn contains_peer(servers: &Vec<NetPeer>, server: &NetPeer) -> (r: bool)
    ensures
        r == servers@.map_values(|p: NetPeer| p@).contains(server@),
{
    let ghost views = servers@.map_values(|p: NetPeer| p@);
    let mut i: usize = 0;
    while i < servers.len()
        invariant
            0 <= i <= servers@.len(),
            views == servers@.map_values(|p: NetPeer| p@),
            forall|j: int| 0 <= j < i ==> views[j] != server@,
        decreases servers@.len() - i,
    {
        if servers[i].same_as(server) {
            assert(views[i as int] == server@);
            return true;
        }
        i = i + 1;
    }
    false
}

impl ReachabilityLedger {
    #[verifier::type_invariant]
    closed spec fn inv(self) -> bool {
        ledger_wf(self@)
    }

    /// A ledger that has been told nothing, holding failure evidence for at
    /// most `max_failing_addresses` addresses.
    pub fn new(max_failing_addresses: usize) -> (r: ReachabilityLedger)
        ensures
            r@.max_failing_addresses == max_failing_addresses,
            r@.reachable is None,
            r@.failures.len() == 0,
            verdict(r@) == ReachabilityView::Unknown,
    {
        let r = ReachabilityLedger { max_failing_addresses, reachable: None, failures: Vec::new() };
        assert(r@.failures =~= Seq::<(EndpointView, Seq<NetPeerView>)>::empty());
        r
    }

    fn index_of(&self, address: &Endpoint) -> (r: Option<usize>)
        ensures
            r matches Some(i) ==> i < self@.failures.len() && self@.failures[i as int].0 == address@,
            r is None ==> !has_key(self@.failures, address@),
    {
        let ghost entries = self@.failures;
        let mut i: usize = 0;
        while i < self.failures.len()
            invariant
                0 <= i <= self.failures@.len(),
                entries == self.failures@.map_values(|r: FailureRecord| r@),
                forall|j: int| 0 <= j < i ==> entries[j].0 != address@,
            decreases self.failures@.len() - i,
        {
            if self.failures[i].address.same_as(address) {
                return Some(i);
            }
            i = i + 1;
        }
        None
    }

    /// The verdict as it stands.
    pub fn reachability(&self) -> (r: Reachability)
        ensures
            r@ == verdict(self@),
    {
        match &self.reachable {
            Some(address) => Reachability::Reachable(address.duplicate()),
            None => {
                let ghost entries = self@.failures;
                let mut i: usize = 0;
                while i < self.failures.len()
                    invariant
                        0 <= i <= self.failures@.len(),
                        entries == self.failures@.map_values(|r: FailureRecord| r@),
                        self@.reachable is None,
                        forall|j: int| 0 <= j < i ==> (#[trigger] entries[j]).1.len() < CORROBORATION_THRESHOLD,
                    decreases self.failures@.len() - i,
                {
                    assert(entries[i as int].1.len() == self.failures@[i as int].servers@.len());
                    if self.failures[i].servers.len() >= CORROBORATION_THRESHOLD {
                        assert(self@.failures[i as int].1.len() >= CORROBORATION_THRESHOLD);
                        return Reachability::Unreachable;
                    }
                    i = i + 1;
                }
                Reachability::Unknown
            },
        }
    }

    /// How many addresses failure evidence is held for.
    pub fn failing_addresses(&self) -> (r: usize)
        ensures
            r == self@.failures.len(),
    {
        self.failures.len()
    }

    /// How many distinct servers have failed to dial `address` back.
    pub fn servers_blaming(&self, address: &Endpoint) -> (r: usize)
        ensures
            r == match lookup(self@.failures, address@) {
                Some(servers) => servers.len(),
                None => 0,
            },
    {
        proof {
            use_type_invariant(self);
            lemma_lookup_characterized(self@.failures, address@);
        }
        match self.index_of(address) {
            Some(i) => {
                proof {
                    lemma_lookup_index(self@.failures, i as int);
                }
                self.failures[i].servers.len()
            },
            None => 0,
        }
    }

    fn succeeded(&mut self, address: Endpoint)
        ensures
            final(self)@ == success_step(old(self)@, address@),
    {
        self.failures = Vec::new();
        self.reachable = Some(address);
        assert(self@.failures =~= Seq::<(EndpointView, Seq<NetPeerView>)>::empty());
    }

    /// Whether the proven address, if any, is `address`.
    fn proven_is(&self, address: &Endpoint) -> (r: bool)
        ensures
            r == (self@.reachable == Some(address@)),
    {
        match &self.reachable {
            Some(proven) => proven.same_as(address),
            None => false,
        }
    }

    fn failed(&mut self, server: NetPeer, address: Endpoint)
        ensures
            final(self)@ == failure_step(old(self)@, server@, address@),
    {
        proof {
            use_type_invariant(&*self);
        }
        let ghost v = self@;
        let index = self.index_of(&address);
        proof {
            lemma_lookup_characterized(v.failures, address@);
            if let Some(i) = index {
                lemma_lookup_index(v.failures, i as int);
            }
        }
        match index {
            Some(i) => {
                let ghost before = v.failures[i as int].1;
                assert(before.len() == self.failures@[i as int].servers@.len());
                if self.failures[i].servers.len() >= CORROBORATION_THRESHOLD {
                    return;
                }
                if contains_peer(&self.failures[i].servers, &server) {
                    proof {
                        lemma_put_at(v.failures, i as int, before);
                        assert(v.failures.update(i as int, (address@, before)) =~= v.failures);
                    }
                    return;
                }
                let condemned_now = self.failures[i].servers.len() + 1 >= CORROBORATION_THRESHOLD;
                if condemned_now && self.proven_is(&address) {
                    self.reachable = None;
                }
                let ghost reachable_after = self@.reachable;
                let mut failures: Vec<FailureRecord> = Vec::new();
                std::mem::swap(&mut failures, &mut self.failures);
                let ghost old_records = failures@;
                let mut record = failures.remove(i);
                let ghost old_servers = record.servers@;
                record.servers.push(server);
                failures.insert(i, record);
                proof {
                    let after = before.push(server@);
                    assert(record.servers@.map_values(|p: NetPeer| p@) =~= after);
                    assert(record@ == (address@, after));
                    assert(failures@ =~= old_records.update(i as int, record));
                    let new_view = failures@.map_values(|r: FailureRecord| r@);
                    assert(new_view =~= v.failures.update(i as int, (address@, after)));
                    lemma_put_at(v.failures, i as int, after);
                    lemma_put(v.failures, address@, after);
                    assert(after.no_duplicates()) by {
                        assert forall|a: int, b: int|
                            0 <= a < after.len() && 0 <= b < after.len() && a != b implies after[a]
                            != after[b] by {
                            if a < before.len() && b < before.len() {
                            } else if a < before.len() {
                                assert(before.contains(before[a]));
                            } else {
                                assert(before.contains(before[b]));
                            }
                        }
                    }
                    assert forall|j: int| 0 <= j < new_view.len() implies {
                        let servers = (#[trigger] new_view[j]).1;
                        &&& servers.no_duplicates()
                        &&& 1 <= servers.len() <= CORROBORATION_THRESHOLD
                    } by {
                        if j != i {
                            assert(new_view[j] == v.failures[j]);
                        }
                    }
                    if let Some(r) = reachable_after {
                        assert(r != address@ || !(after.len() >= CORROBORATION_THRESHOLD));
                        assert(lookup(new_view, r) == if r == address@ {
                            Some(after)
                        } else {
                            lookup(v.failures, r)
                        });
                    }
                }
                self.failures = failures;
            },
            None => {
                if self.failures.len() >= self.max_failing_addresses {
                    return;
                }
                let mut servers: Vec<NetPeer> = Vec::new();
                servers.push(server);
                let condemned_now = servers.len() >= CORROBORATION_THRESHOLD;
                if condemned_now && self.proven_is(&address) {
                    self.reachable = None;
                }
                let ghost reachable_after = self@.reachable;
                let mut failures: Vec<FailureRecord> = Vec::new();
                std::mem::swap(&mut failures, &mut self.failures);
                let ghost old_records = failures@;
                let record = FailureRecord { address, servers };
                failures.push(record);
                proof {
                    let after = Seq::<NetPeerView>::empty().push(server@);
                    assert(record.servers@.map_values(|p: NetPeer| p@) =~= after);
                    let new_view = failures@.map_values(|r: FailureRecord| r@);
                    assert(new_view =~= v.failures.push((address@, after)));
                    lemma_put(v.failures, address@, after);
                    assert forall|j: int| 0 <= j < new_view.len() implies {
                        let servers = (#[trigger] new_view[j]).1;
                        &&& servers.no_duplicates()
                        &&& 1 <= servers.len() <= CORROBORATION_THRESHOLD
                    } by {
                        if j < v.failures.len() {
                            assert(new_view[j] == v.failures[j]);
                        }
                    }
                    if let Some(r) = reachable_after {
                        assert(lookup(new_view, r) == if r == address@ {
                            Some(after)
                        } else {
                            lookup(v.failures, r)
                        });
                    }
                }
                self.failures = failures;
            },
        }
    }

    /// Records what `server` reported about `address`, and says whether the
    /// verdict a user would be shown has moved. The server is what makes
    /// corroboration mean distinct servers agreed rather than one was asked
    /// twice.
    pub fn record(&mut self, server: NetPeer, address: Endpoint, result: ProbeResult) -> (r: ProbeOutcome)
        ensures
            final(self)@ == record_step(old(self)@, server@, address@, result),
            r@ == outcome_of(verdict(old(self)@), verdict(final(self)@)),
            ledger_wf(final(self)@),
    {
        let before = self.reachability();
        match result {
            ProbeResult::Succeeded => self.succeeded(address),
            ProbeResult::Failed => self.failed(server, address),
        }
        proof {
            use_type_invariant(&*self);
        }
        let after = self.reachability();
        if before.same_as(&after) {
            ProbeOutcome::Unchanged
        } else {
            ProbeOutcome::Changed(after)
        }
    }
}

/// Every probe result keeps the ledger's invariant: one record per address,
/// no more addresses than the bound, between one and the threshold distinct
/// servers per address, and the proven address never a condemned one.
pub proof fn law_record_keeps_the_bounds(
    v: ReachabilityLedgerView,
    server: NetPeerView,
    address: EndpointView,
    result: ProbeResult,
)
    requires
        ledger_wf(v),
    ensures
        ledger_wf(record_step(v, server, address, result)),
        record_step(v, server, address, result).max_failing_addresses == v.max_failing_addresses,
{
    if result is Failed && !is_condemned(v.failures, address) && !(lookup(v.failures, address) is None
        && v.failures.len() >= v.max_failing_addresses) {
        let held = lookup(v.failures, address);
        let before = match held {
            Some(servers) => servers,
            None => Seq::empty(),
        };
        let after = if before.contains(server) {
            before
        } else {
            before.push(server)
        };
        let next = failure_step(v, server, address);
        lemma_put(v.failures, address, after);
        lemma_lookup_characterized(v.failures, address);
        assert(before.no_duplicates() && before.len() < CORROBORATION_THRESHOLD) by {
            if let Some(s) = held {
                let i = choose|i: int| 0 <= i < v.failures.len() && #[trigger] v.failures[i].0 == address
                    && v.failures[i].1 == s;
                assert(v.failures[i].1.no_duplicates());
            }
        }
        assert(after.no_duplicates()) by {
            if !before.contains(server) {
                assert forall|a: int, b: int|
                    0 <= a < after.len() && 0 <= b < after.len() && a != b implies after[a] != after[b] by {
                    if a < before.len() && b < before.len() {
                    } else if a < before.len() {
                        assert(before.contains(before[a]));
                    } else {
                        assert(before.contains(before[b]));
                    }
                }
            }
        }
        assert(1 <= after.len() <= CORROBORATION_THRESHOLD) by {
            if before.contains(server) {
                assert(before.len() >= 1);
            }
        }
        assert forall|j: int| 0 <= j < next.failures.len() implies {
            let servers = (#[trigger] next.failures[j]).1;
            &&& servers.no_duplicates()
            &&& 1 <= servers.len() <= CORROBORATION_THRESHOLD
        } by {
            lemma_put_entry(v.failures, address, after, j);
        }
        if let Some(r) = next.reachable {
            assert(lookup(next.failures, r) == if r == address {
                Some(after)
            } else {
                lookup(v.failures, r)
            });
        }
    } else if result is Succeeded {
        assert(success_step(v, address).failures.len() == 0);
    }
}

/// An entry of `put(entries, key, v)` is either the new entry for `key` or an
/// entry of `entries`.
proof fn lemma_put_entry<K, V>(entries: Seq<(K, V)>, key: K, v: V, j: int)
    requires
        keys_unique(entries),
        0 <= j < put(entries, key, v).len(),
    ensures
        put(entries, key, v)[j] == (key, v) || (0 <= j < entries.len() && put(entries, key, v)[j]
            == entries[j]),
{
}

/// Unreachable is never one server's word: it takes an address that the
/// threshold's number of distinct servers failed to dial back.
pub proof fn law_unreachable_needs_distinct_servers(v: ReachabilityLedgerView)
    requires
        ledger_wf(v),
        verdict(v) == ReachabilityView::Unreachable,
    ensures
        exists|i: int|
            0 <= i < v.failures.len() && (#[trigger] v.failures[i]).1.no_duplicates()
                && v.failures[i].1.len() >= CORROBORATION_THRESHOLD,
{
    let i = choose|i: int| 0 <= i < v.failures.len() && (#[trigger] v.failures[i]).1.len()
        >= CORROBORATION_THRESHOLD;
    assert(v.failures[i].1.no_duplicates());
}

/// A failure reported by the only server to have blamed an address, however
/// often it is repeated, moves no verdict and condemns nothing.
pub proof fn law_one_server_never_condemns(v: ReachabilityLedgerView, server: NetPeerView, address: EndpointView)
    requires
        ledger_wf(v),
        lookup(v.failures, address) matches Some(blamers) ==> forall|k: int|
            0 <= k < blamers.len() ==> blamers[k] == server,
    ensures
        !is_condemned(failure_step(v, server, address).failures, address),
        failure_step(v, server, address).reachable == v.reachable,
        any_condemned(failure_step(v, server, address).failures) == any_condemned(v.failures),
        verdict(failure_step(v, server, address)) == verdict(v),
{
    let next = failure_step(v, server, address);
    lemma_lookup_characterized(v.failures, address);
    if let Some(blamers) = lookup(v.failures, address) {
        let i = choose|i: int| 0 <= i < v.failures.len() && #[trigger] v.failures[i].0 == address
            && v.failures[i].1 == blamers;
        assert(v.failures[i].1.no_duplicates());
        assert(blamers.len() <= 1) by {
            if blamers.len() > 1 {
                assert(blamers[0] == server && blamers[1] == server);
            }
        }
        assert(blamers.contains(server)) by {
            assert(blamers[0] == server);
        }
        lemma_put_at(v.failures, i, blamers);
        assert(v.failures.update(i, (address, blamers)) =~= v.failures);
        assert(next == v);
    } else if !(v.failures.len() >= v.max_failing_addresses) {
        let after = Seq::<NetPeerView>::empty().push(server);
        lemma_put(v.failures, address, after);
        assert(lookup(next.failures, address) == Some(after));
        assert(any_condemned(next.failures) == any_condemned(v.failures)) by {
            if any_condemned(next.failures) {
                let j = choose|j: int| 0 <= j < next.failures.len() && (#[trigger] next.failures[j]).1.len()
                    >= CORROBORATION_THRESHOLD;
                lemma_put_entry(v.failures, address, after, j);
                assert(v.failures[j].1.len() >= CORROBORATION_THRESHOLD);
            }
            if any_condemned(v.failures) {
                let j = choose|j: int| 0 <= j < v.failures.len() && (#[trigger] v.failures[j]).1.len()
                    >= CORROBORATION_THRESHOLD;
                assert(next.failures[j] == v.failures[j]);
            }
        }
    }
}

/// A dial-back that arrived is proof: whatever came before, the verdict is
/// reachable at that address and every failure record is gone.
pub proof fn law_success_is_proof(v: ReachabilityLedgerView, address: EndpointView)
    ensures
        verdict(success_step(v, address)) == ReachabilityView::Reachable(address),
        success_step(v, address).failures.len() == 0,
{
}

/// A probe that changes nothing a user is shown is reported as unchanged: a
/// repeated success at the proven address, for one.
pub proof fn law_repeated_verdict_is_unchanged(v: ReachabilityLedgerView, address: EndpointView)
    requires
        v.reachable == Some(address),
    ensures
        outcome_of(verdict(v), verdict(success_step(v, address))) == ProbeOutcomeView::Unchanged,
{
}

/// An address that works outranks addresses that do not: failures of any
/// other address, corroborated or not, leave the proven address and the
/// verdict in place.
pub proof fn law_proof_survives_other_failures(
    v: ReachabilityLedgerView,
    server: NetPeerView,
    address: EndpointView,
    proven: EndpointView,
)
    requires
        v.reachable == Some(proven),
        proven != address,
    ensures
        failure_step(v, server, address).reachable == Some(proven),
        verdict(failure_step(v, server, address)) == ReachabilityView::Reachable(proven),
{
}

/// The proof about an address is overturned by corroborated failure of that
/// same address: the last distinct server the threshold needs makes the peer
/// unreachable.
pub proof fn law_corroborated_failure_overturns_proof(
    v: ReachabilityLedgerView,
    server: NetPeerView,
    address: EndpointView,
    blamers: Seq<NetPeerView>,
)
    requires
        ledger_wf(v),
        v.reachable == Some(address),
        lookup(v.failures, address) == Some(blamers),
        blamers.len() + 1 == CORROBORATION_THRESHOLD,
        !blamers.contains(server),
    ensures
        verdict(failure_step(v, server, address)) == ReachabilityView::Unreachable,
{
    let after = blamers.push(server);
    lemma_put(v.failures, address, after);
    lemma_lookup_characterized(failure_step(v, server, address).failures, address);
}

// ------------------------------------------------------------ histories

/// One probe report: the server, the address probed, and what it found.
pub type ProbeReport = (NetPeerView, EndpointView, ProbeResult);

/// The state after `reports`, recorded in order.
pub open spec fn record_run(v: ReachabilityLedgerView, reports: Seq<ProbeReport>) -> ReachabilityLedgerView
    decreases reports.len(),
{
    if reports.len() == 0 {
        v
    } else {
        let (server, address, result) = reports.last();
        record_step(record_run(v, reports.drop_last()), server, address, result)
    }
}

/// The address of the last success among `reports`, if any, and the reports
/// after it (all of them when none succeeded).
pub open spec fn since_last_success(reports: Seq<ProbeReport>) -> (Option<EndpointView>, Seq<ProbeReport>)
    decreases reports.len(),
{
    if reports.len() == 0 {
        (None, reports)
    } else if reports.last().2 == ProbeResult::Succeeded {
        (Some(reports.last().1), Seq::empty())
    } else {
        let (proven, rest) = since_last_success(reports.drop_last());
        (proven, rest.push(reports.last()))
    }
}

/// The distinct servers among `reports` that failed to dial `address` back,
/// in the order they first did.
pub open spec fn blamers(reports: Seq<ProbeReport>, address: EndpointView) -> Seq<NetPeerView>
    decreases reports.len(),
{
    if reports.len() == 0 {
        Seq::empty()
    } else {
        let earlier = blamers(reports.drop_last(), address);
        let (server, probed, result) = reports.last();
        if result == ProbeResult::Failed && probed == address && !earlier.contains(server) {
            earlier.push(server)
        } else {
            earlier
        }
    }
}

/// The distinct addresses some report among `reports` failed, in the order
/// they first were.
pub open spec fn failed_addresses(reports: Seq<ProbeReport>) -> Seq<EndpointView>
    decreases reports.len(),
{
    if reports.len() == 0 {
        Seq::empty()
    } else {
        let earlier = failed_addresses(reports.drop_last());
        let (_, probed, result) = reports.last();
        if result == ProbeResult::Failed && !earlier.contains(probed) {
            earlier.push(probed)
        } else {
            earlier
        }
    }
}

/// Whether the threshold's number of distinct servers failed `address` among
/// `reports`.
pub open spec fn condemned_by(reports: Seq<ProbeReport>, address: EndpointView) -> bool {
    blamers(reports, address).len() >= CORROBORATION_THRESHOLD
}

/// The verdict a history of reports owes: the address of the last success,
/// unless the threshold's number of distinct servers failed it since;
/// otherwise unreachable when that many failed some address since the last
/// success; otherwise unknown.
pub open spec fn history_verdict(reports: Seq<ProbeReport>) -> ReachabilityView {
    let (proven, since) = since_last_success(reports);
    match proven {
        Some(address) if !condemned_by(since, address) => ReachabilityView::Reachable(address),
        _ => if exists|x: EndpointView| #[trigger] condemned_by(since, x) {
            ReachabilityView::Unreachable
        } else {
            ReachabilityView::Unknown
        },
    }
}

/// A failure record as the ledger keeps it: blamers are taken until the
/// threshold is reached, and no more.
pub open spec fn kept_blamers(servers: Seq<NetPeerView>) -> Seq<NetPeerView> {
    if servers.len() >= CORROBORATION_THRESHOLD {
        servers.take(CORROBORATION_THRESHOLD as int)
    } else {
        servers
    }
}

/// A prefix of a history fails no more distinct addresses than the whole.
proof fn lemma_failed_addresses_grow(reports: Seq<ProbeReport>, n: int)
    requires
        0 <= n <= reports.len(),
    ensures
        failed_addresses(reports.take(n)).len() <= failed_addresses(reports).len(),
    decreases reports.len() - n,
{
    if n < reports.len() {
        lemma_failed_addresses_grow(reports, n + 1);
        assert(reports.take(n + 1).drop_last() =~= reports.take(n));
    } else {
        assert(reports.take(n) =~= reports);
    }
}

/// A history is recorded from its last success on, from the state that
/// success leaves, or from the start when nothing succeeded.
proof fn lemma_run_splits_at_last_success(v: ReachabilityLedgerView, reports: Seq<ProbeReport>)
    ensures
        ({
            let (proven, since) = since_last_success(reports);
            let base = match proven {
                Some(address) => ReachabilityLedgerView { reachable: Some(address), failures: Seq::empty(), ..v },
                None => v,
            };
            record_run(v, reports) == record_run(base, since)
        }),
        record_run(v, reports).max_failing_addresses == v.max_failing_addresses,
    decreases reports.len(),
{
    if reports.len() > 0 {
        lemma_run_splits_at_last_success(v, reports.drop_last());
        let (proven, since) = since_last_success(reports.drop_last());
        if reports.last().2 != ProbeResult::Succeeded {
            assert(since.push(reports.last()).drop_last() =~= since);
        }
    }
}

/// What failures alone, recorded from a state with no failure record and
/// within the address bound, leave: a record for exactly the addresses
/// failed, each holding its blamers up to the threshold, and the proven
/// address kept unless it was condemned.
proof fn lemma_failures_from_clean(base: ReachabilityLedgerView, t: Seq<ProbeReport>)
    requires
        base.failures.len() == 0,
        forall|i: int| 0 <= i < t.len() ==> (#[trigger] t[i]).2 == ProbeResult::Failed,
        failed_addresses(t).len() <= base.max_failing_addresses,
    ensures
        ({
            let w = record_run(base, t);
            &&& w.max_failing_addresses == base.max_failing_addresses
            &&& keys_unique(w.failures)
            &&& w.failures.len() == failed_addresses(t).len()
            &&& forall|x: EndpointView| #[trigger] lookup(w.failures, x) == if failed_addresses(t).contains(x) {
                Some(kept_blamers(blamers(t, x)))
            } else {
                None::<Seq<NetPeerView>>
            }
            &&& forall|x: EndpointView| !failed_addresses(t).contains(x) ==> #[trigger] blamers(t, x).len() == 0
            &&& w.reachable == match base.reachable {
                Some(a) => if condemned_by(t, a) {
                    None
                } else {
                    Some(a)
                },
                None => None,
            }
        }),
    decreases t.len(),
{
    broadcast use vstd::seq_lib::lemma_seq_contains_after_push;
    if t.len() > 0 {
        let rest = t.drop_last();
        let (server, address, result) = t.last();
        assert(t[t.len() - 1].2 == ProbeResult::Failed);
        assert forall|i: int| 0 <= i < rest.len() implies (#[trigger] rest[i]).2 == ProbeResult::Failed by {
            assert(rest[i] == t[i]);
        }
        lemma_failed_addresses_grow(t, t.len() - 1);
        assert(t.take(t.len() - 1) =~= rest);
        lemma_failures_from_clean(base, rest);
        let w = record_run(base, rest);
        lemma_lookup_characterized(w.failures, address);
        let held = lookup(w.failures, address);
        let b = blamers(rest, address);
        if is_condemned(w.failures, address) {
            assert(failed_addresses(rest).contains(address));
            assert(b.len() >= CORROBORATION_THRESHOLD);
            let b2 = blamers(t, address);
            assert(b2.take(CORROBORATION_THRESHOLD as int) =~= b.take(CORROBORATION_THRESHOLD as int));
            assert forall|x: EndpointView| #[trigger] lookup(w.failures, x) == if failed_addresses(t).contains(x) {
                Some(kept_blamers(blamers(t, x)))
            } else {
                None::<Seq<NetPeerView>>
            } by {
                if x != address {
                    assert(blamers(t, x) == blamers(rest, x));
                }
            }
        } else {
            if held is None {
                assert(!failed_addresses(rest).contains(address));
                assert(failed_addresses(t) =~= failed_addresses(rest).push(address));
            } else {
                assert(failed_addresses(t) == failed_addresses(rest));
            }
            let before = match held {
                Some(servers) => servers,
                None => Seq::<NetPeerView>::empty(),
            };
            assert(before =~= b);
            let after = if before.contains(server) {
                before
            } else {
                before.push(server)
            };
            assert(after == blamers(t, address));
            assert(kept_blamers(after) =~= after);
            lemma_put(w.failures, address, after);
            assert forall|x: EndpointView| #[trigger] lookup(put(w.failures, address, after), x) == if failed_addresses(t).contains(x) {
                Some(kept_blamers(blamers(t, x)))
            } else {
                None::<Seq<NetPeerView>>
            } by {
                if x != address {
                    assert(blamers(t, x) == blamers(rest, x));
                    assert(failed_addresses(t).contains(x) == failed_addresses(rest).contains(x));
                } else {
                    assert(failed_addresses(t).contains(address));
                }
            }
        }
        assert(failed_addresses(t).contains(address)) by {
            if failed_addresses(rest).contains(address) {
                assert(failed_addresses(t) == failed_addresses(rest));
            } else {
                assert(failed_addresses(t) == failed_addresses(rest).push(address));
            }
        }
        assert forall|x: EndpointView| !failed_addresses(t).contains(x) implies #[trigger] blamers(t, x).len() == 0 by {
            if x != address {
                assert(blamers(t, x) == blamers(rest, x));
                assert(failed_addresses(rest).contains(x) ==> failed_addresses(t).contains(x));
                assert(blamers(rest, x).len() == 0);
            }
        }
    }
}

/// The verdict over a history: from a fresh ledger, after any sequence of
/// probe reports whose failures since the last success concern no more
/// addresses than the ledger holds, the verdict is the address of the last
/// success unless the threshold's number of distinct servers failed it
/// since; otherwise unreachable exactly when that many failed some address
/// since the last success; otherwise unknown.
pub proof fn law_verdict_follows_the_history(v: ReachabilityLedgerView, reports: Seq<ProbeReport>)
    requires
        v.reachable is None,
        v.failures.len() == 0,
        failed_addresses(since_last_success(reports).1).len() <= v.max_failing_addresses,
    ensures
        verdict(record_run(v, reports)) == history_verdict(reports),
{
    lemma_run_splits_at_last_success(v, reports);
    lemma_since_last_success_fails(reports);
    let (proven, since) = since_last_success(reports);
    let base = match proven {
        Some(address) => ReachabilityLedgerView { reachable: Some(address), failures: Seq::empty(), ..v },
        None => v,
    };
    lemma_failures_from_clean(base, since);
    let w = record_run(base, since);
    if exists|x: EndpointView| #[trigger] condemned_by(since, x) {
        let x = choose|x: EndpointView| #[trigger] condemned_by(since, x);
        assert(lookup(w.failures, x) == Some(kept_blamers(blamers(since, x))));
        lemma_lookup_characterized(w.failures, x);
        let i = choose|i: int| 0 <= i < w.failures.len() && #[trigger] w.failures[i].0 == x && w.failures[i].1 == kept_blamers(blamers(since, x));
        assert(w.failures[i].1.len() >= CORROBORATION_THRESHOLD);
        assert(any_condemned(w.failures));
    } else if any_condemned(w.failures) {
        let i = choose|i: int| 0 <= i < w.failures.len() && (#[trigger] w.failures[i]).1.len() >= CORROBORATION_THRESHOLD;
        let x = w.failures[i].0;
        lemma_lookup_index(w.failures, i);
        assert(condemned_by(since, x));
    }
}

/// The reports since the last success are all failures.
proof fn lemma_since_last_success_fails(reports: Seq<ProbeReport>)
    ensures
        forall|i: int|
            0 <= i < since_last_success(reports).1.len() ==> (#[trigger] since_last_success(reports).1[i]).2
                == ProbeResult::Failed,
    decreases reports.len(),
{
    if reports.len() > 0 {
        lemma_since_last_success_fails(reports.drop_last());
        let since = since_last_success(reports.drop_last()).1;
        if reports.last().2 != ProbeResult::Succeeded {
            assert forall|i: int| 0 <= i < since.push(reports.last()).len() implies (#[trigger] since.push(
                reports.last(),
            )[i]).2 == ProbeResult::Failed by {
                if i < since.len() {
                    assert(since.push(reports.last())[i] == since[i]);
                }
            }
        }
    }
}

// ------------------------------------------------------------ outcome laws

/// A probe is reported as unchanged exactly when the verdict after it is the
/// verdict before it, the proven address included; any other move is
/// reported as a change to the new verdict.
pub proof fn law_every_move_is_reported(before: ReachabilityView, after: ReachabilityView)
    ensures
        (outcome_of(before, after) == ProbeOutcomeView::Unchanged) <==> before == after,
        before != after ==> outcome_of(before, after) == ProbeOutcomeView::Changed(after),
{
}

/// A success at a new address, while another was the proven one, moves the
/// verdict to the new address and is reported as that change.
pub proof fn law_a_newly_proven_address_is_reported(
    v: ReachabilityLedgerView,
    server: NetPeerView,
    proven: EndpointView,
    address: EndpointView,
)
    requires
        verdict(v) == ReachabilityView::Reachable(proven),
        proven != address,
    ensures
        verdict(record_step(v, server, address, ProbeResult::Succeeded)) == ReachabilityView::Reachable(address),
        outcome_of(verdict(v), verdict(record_step(v, server, address, ProbeResult::Succeeded)))
            == ProbeOutcomeView::Changed(ReachabilityView::Reachable(address)),
{
}

} // verus!
