//! Which connection carries the one logical session with each peer.
use vstd::prelude::*;
use crate::address::{Address, AddressView};
use crate::domain::{SessionCollapse, SessionDirection, collapse_survivor};
use crate::identity::{NetPeer, NetPeerView, PeerId};
use crate::keyed::{
    drop_key, has_key, keys_unique, lemma_drop_key_at, lemma_lookup_characterized,
    lemma_lookup_index, lemma_put, lemma_put_at, lookup, put,
};

verus! {

/// A connection's identity, as the swarm numbers them: later connections
/// have larger numbers.
#[derive(Clone, Copy, PartialEq, Eq, PartialOrd, Ord, Hash, Debug, Structural)]
pub struct ConnectionId {
    id: usize,
}

impl ConnectionId {
    pub closed spec fn spec_id(self) -> usize {
        self.id
    }

    /// The connection numbered `id`.
    pub fn new_unchecked(id: usize) -> (r: ConnectionId)
        ensures
            r.spec_id() == id,
    {
        ConnectionId { id }
    }

    /// This connection's number.
    pub fn id(&self) -> (r: usize)
        ensures
            r == self.spec_id(),
    {
        self.id
    }
}

/// The abstract value of one link: which side dialled it, and the address
/// it is on.
pub struct LinkView {
    pub direction: SessionDirection,
    pub address: AddressView,
}

/// The abstract value of a peer's links: the session-bearing one, and every
/// live link by connection number, ascending.
pub struct PeerLinksView {
    pub primary: usize,
    pub links: Seq<(usize, LinkView)>,
}

/// The abstract state of a [`LinkRegistry`].
pub struct LinkRegistryView {
    pub local: PeerId,
    pub peers: Seq<(NetPeerView, PeerLinksView)>,
}

/// Whether the connection numbers ascend strictly.
pub open spec fn ids_ascending(links: Seq<(usize, LinkView)>) -> bool {
    forall|i: int, j: int| 0 <= i < j < links.len() ==> #[trigger] links[i].0 < #[trigger] links[j].0
}

/// Whether `k` is where connection `c` goes: after every smaller number,
/// before every other.
pub open spec fn is_link_slot(links: Seq<(usize, LinkView)>, c: usize, k: int) -> bool {
    &&& 0 <= k <= links.len()
    &&& forall|j: int| 0 <= j < k ==> #[trigger] links[j].0 < c
    &&& forall|j: int| k <= j < links.len() ==> #[trigger] links[j].0 >= c
}

/// Where connection `c` goes among `links`.
pub open spec fn link_slot(links: Seq<(usize, LinkView)>, c: usize) -> int {
    choose|k: int| is_link_slot(links, c, k)
}

/// `links` with connection `c` recorded as `link`: replacing the record of
/// the same connection, otherwise in number order.
pub open spec fn link_insert(links: Seq<(usize, LinkView)>, c: usize, link: LinkView) -> Seq<(usize, LinkView)> {
    if has_key(links, c) {
        put(links, c, link)
    } else {
        links.insert(link_slot(links, c), (c, link))
    }
}

/// Whether some link was dialled from `direction`.
pub open spec fn has_direction(links: Seq<(usize, LinkView)>, direction: SessionDirection) -> bool {
    exists|i: int| 0 <= i < links.len() && (#[trigger] links[i]).1.direction == direction
}

/// Whether `i` is the oldest link dialled from `direction`.
pub open spec fn is_first_with(links: Seq<(usize, LinkView)>, direction: SessionDirection, i: int) -> bool {
    &&& 0 <= i < links.len()
    &&& links[i].1.direction == direction
    &&& forall|j: int| 0 <= j < i ==> (#[trigger] links[j]).1.direction != direction
}

/// The oldest link dialled from `direction`.
pub open spec fn first_with(links: Seq<(usize, LinkView)>, direction: SessionDirection) -> int {
    choose|i: int| is_first_with(links, direction, i)
}

/// The connection numbers of `links` other than `keep`, in order.
pub open spec fn ids_except(links: Seq<(usize, LinkView)>, keep: usize) -> Seq<usize>
    decreases links.len(),
{
    if links.len() == 0 {
        Seq::empty()
    } else {
        let earlier = ids_except(links.drop_last(), keep);
        if links.last().0 == keep {
            earlier
        } else {
            earlier.push(links.last().0)
        }
    }
}

/// The abstract value of an [`EstablishedOutcome`].
pub struct EstablishedView {
    pub primary: usize,
    pub primary_address: AddressView,
    pub close: Seq<usize>,
    pub newly_connected: bool,
    pub collapse: Option<SessionDirection>,
}

/// Why a connection could not be recorded.
#[derive(Debug, Clone, Copy, PartialEq, Eq, Structural)]
pub enum LinkRegistryError {
    /// The connection claims this peer's own identity.
    SelfConnection,
}

impl LinkRegistryError {
    /// The reason, as one sentence.
    pub fn describe(&self) -> (r: String)
        ensures
            r@ == "a connection claiming this peer's own identity was refused"@,
    {
        match self {
            LinkRegistryError::SelfConnection => "a connection claiming this peer's own identity was refused".to_owned(),
        }
    }
}

/// The state after, and the answer to, a connection `c` to `remote`
/// (`remote_identity` in the domain's terms) established from `direction` on
/// `address`. A peer's first link is its session and is announced. A further
/// link never announces a second session: when links from both directions
/// are held, the domain's collapse rule picks which side's dial survives, and
/// otherwise the oldest link keeps the session; every other link is to be
/// closed.
pub open spec fn established_step(
    v: LinkRegistryView,
    remote_identity: Seq<u8>,
    remote: NetPeerView,
    c: usize,
    direction: SessionDirection,
    address: AddressView,
) -> (LinkRegistryView, Result<EstablishedView, LinkRegistryError>) {
    let link = LinkView { direction, address };
    if remote_identity == v.local@ {
        (v, Err(LinkRegistryError::SelfConnection))
    } else {
        match lookup(v.peers, remote) {
            None => (
                LinkRegistryView {
                    peers: put(v.peers, remote, PeerLinksView { primary: c, links: seq![(c, link)] }),
                    ..v
                },
                Ok(
                    EstablishedView {
                        primary: c,
                        primary_address: address,
                        close: Seq::empty(),
                        newly_connected: true,
                        collapse: None,
                    },
                ),
            ),
            Some(held) => {
                let links = link_insert(held.links, c, link);
                let simultaneous = has_direction(links, SessionDirection::Outbound) && has_direction(
                    links,
                    SessionDirection::Inbound,
                );
                let collapse = if simultaneous {
                    Some(collapse_survivor(v.local@, remote_identity))
                } else {
                    None
                };
                let at = match collapse {
                    Some(keep) => first_with(links, keep),
                    None => 0,
                };
                let survivor = links[at].0;
                (
                    LinkRegistryView {
                        peers: put(v.peers, remote, PeerLinksView { primary: survivor, links }),
                        ..v
                    },
                    Ok(
                        EstablishedView {
                            primary: survivor,
                            primary_address: links[at].1.address,
                            close: ids_except(links, survivor),
                            newly_connected: false,
                            collapse,
                        },
                    ),
                )
            },
        }
    }
}

/// What the registry keeps true: one entry per peer, and each peer's links
/// non-empty, in ascending connection order, with the session on one of them.
pub open spec fn registry_wf(v: LinkRegistryView) -> bool {
    &&& keys_unique(v.peers)
    &&& forall|i: int|
        0 <= i < v.peers.len() ==> {
            let held = (#[trigger] v.peers[i]).1;
            &&& held.links.len() > 0
            &&& ids_ascending(held.links)
            &&& has_key(held.links, held.primary)
        }
}

/// The abstract value of a [`ClosedOutcome`].
pub struct ClosedView {
    pub was_primary: bool,
    pub new_primary: Option<usize>,
    pub peer_gone: bool,
}

/// The state after, and the answer to, connection `c` to `remote` closing.
/// Nothing is known of a connection never recorded. Otherwise the link goes;
/// a peer left with no link is gone, and one that lost its session-bearing
/// link has its oldest remaining link take over.
pub open spec fn closed_step(v: LinkRegistryView, remote: NetPeerView, c: usize) -> (LinkRegistryView, Option<ClosedView>) {
    match lookup(v.peers, remote) {
        None => (v, None),
        Some(held) => if !has_key(held.links, c) {
            (v, None)
        } else {
            let links = drop_key(held.links, c);
            let was_primary = held.primary == c;
            if links.len() == 0 {
                (
                    LinkRegistryView { peers: drop_key(v.peers, remote), ..v },
                    Some(ClosedView { was_primary, new_primary: None, peer_gone: true }),
                )
            } else {
                let first = links[0].0;
                (
                    LinkRegistryView {
                        peers: put(
                            v.peers,
                            remote,
                            PeerLinksView {
                                primary: if was_primary {
                                    first
                                } else {
                                    held.primary
                                },
                                links,
                            },
                        ),
                        ..v
                    },
                    Some(ClosedView { was_primary, new_primary: Some(first), peer_gone: false }),
                )
            }
        },
    }
}

// ------------------------------------------------------------ lemmas

pub proof fn lemma_ascending_ids_unique(links: Seq<(usize, LinkView)>)
    requires
        ids_ascending(links),
    ensures
        keys_unique(links),
{
    assert forall|i: int, j: int| 0 <= i < links.len() && 0 <= j < links.len() && i != j implies #[trigger] links[i].0
        != #[trigger] links[j].0 by {
        if i < j {
            assert(links[i].0 < links[j].0);
        } else {
            assert(links[j].0 < links[i].0);
        }
    }
}

pub proof fn lemma_link_slot_unique(links: Seq<(usize, LinkView)>, c: usize, k: int)
    requires
        is_link_slot(links, c, k),
    ensures
        link_slot(links, c) == k,
{
    let s = link_slot(links, c);
    assert(is_link_slot(links, c, s));
    if s < k {
        assert(links[s].0 < c);
    } else if k < s {
        assert(links[k].0 < c);
    }
}

pub proof fn lemma_first_with_unique(links: Seq<(usize, LinkView)>, direction: SessionDirection, i: int)
    requires
        is_first_with(links, direction, i),
    ensures
        first_with(links, direction) == i,
{
    let f = first_with(links, direction);
    assert(is_first_with(links, direction, f));
    if f < i {
        assert(links[f].1.direction != direction);
    } else if i < f {
        assert(links[i].1.direction != direction);
    }
}

/// Recording a link keeps the numbers ascending and holds the new link.
pub proof fn lemma_link_insert(links: Seq<(usize, LinkView)>, c: usize, link: LinkView)
    requires
        ids_ascending(links),
    ensures
        ids_ascending(link_insert(links, c, link)),
        link_insert(links, c, link).len() > 0,
        has_key(link_insert(links, c, link), c),
        forall|i: int|
            0 <= i < link_insert(links, c, link).len() ==> has_key(
                links,
                #[trigger] link_insert(links, c, link)[i].0,
            ) || link_insert(links, c, link)[i].0 == c,
{
    lemma_ascending_ids_unique(links);
    let next = link_insert(links, c, link);
    if has_key(links, c) {
        let i = choose|i: int| 0 <= i < links.len() && #[trigger] links[i].0 == c;
        lemma_put_at(links, i, link);
        assert(next == links.update(i, (c, link)));
        assert(next[i].0 == c);
        assert forall|a: int, b: int| 0 <= a < b < next.len() implies #[trigger] next[a].0
            < #[trigger] next[b].0 by {
            assert(next[a].0 == links[a].0 && next[b].0 == links[b].0);
        }
        assert forall|j: int| 0 <= j < next.len() implies has_key(links, #[trigger] next[j].0)
            || next[j].0 == c by {
            assert(next[j].0 == links[j].0);
        }
    } else {
        let k = link_slot(links, c);
        lemma_link_slot_exists(links, c);
        assert(next[k].0 == c);
        assert forall|a: int, b: int| 0 <= a < b < next.len() implies #[trigger] next[a].0
            < #[trigger] next[b].0 by {
            if b < k {
                assert(next[a] == links[a] && next[b] == links[b]);
            } else if b == k {
                assert(next[a] == links[a]);
            } else if a < k {
                assert(next[a] == links[a] && next[b] == links[b - 1]);
                assert(links[b - 1].0 != c);
            } else if a == k {
                assert(next[b] == links[b - 1]);
                assert(links[b - 1].0 != c);
            } else {
                assert(next[a] == links[a - 1] && next[b] == links[b - 1]);
            }
        }
        assert forall|j: int| 0 <= j < next.len() implies has_key(links, #[trigger] next[j].0)
            || next[j].0 == c by {
            if j < k {
                assert(next[j] == links[j]);
            } else if j > k {
                assert(next[j] == links[j - 1]);
            }
        }
    }
}

/// Every ascending list has a slot for every number.
pub proof fn lemma_link_slot_exists(links: Seq<(usize, LinkView)>, c: usize)
    requires
        ids_ascending(links),
    ensures
        is_link_slot(links, c, link_slot(links, c)),
    decreases links.len(),
{
    if links.len() == 0 {
        assert(is_link_slot(links, c, 0));
    } else {
        let rest = links.drop_last();
        assert(ids_ascending(rest)) by {
            assert forall|i: int, j: int| 0 <= i < j < rest.len() implies #[trigger] rest[i].0
                < #[trigger] rest[j].0 by {
                assert(rest[i] == links[i] && rest[j] == links[j]);
            }
        }
        lemma_link_slot_exists(rest, c);
        let k = link_slot(rest, c);
        if k < rest.len() {
            assert(is_link_slot(links, c, k)) by {
                assert forall|j: int| k <= j < links.len() implies #[trigger] links[j].0 >= c by {
                    assert(links[k].0 == rest[k].0);
                    if j > k {
                        assert(links[k].0 < links[j].0);
                    }
                }
                assert forall|j: int| 0 <= j < k implies #[trigger] links[j].0 < c by {
                    assert(links[j] == rest[j]);
                }
            }
        } else if links.last().0 < c {
            assert(is_link_slot(links, c, links.len() as int)) by {
                assert forall|j: int| 0 <= j < links.len() implies #[trigger] links[j].0 < c by {
                    if j < rest.len() {
                        assert(links[j] == rest[j]);
                    }
                }
            }
        } else {
            assert(is_link_slot(links, c, rest.len() as int)) by {
                assert forall|j: int| 0 <= j < rest.len() implies #[trigger] links[j].0 < c by {
                    assert(links[j] == rest[j]);
                }
            }
        }
    }
}

// ------------------------------------------------------------ the registry

/// One live link.
struct LinkRecord {
    direction: SessionDirection,
    address: Address,
}

impl View for LinkRecord {
    type V = LinkView;

    closed spec fn view(&self) -> LinkView {
        LinkView { direction: self.direction, address: self.address@ }
    }
}

/// The abstract value of a list of links.
spec fn links_view(links: Seq<(ConnectionId, LinkRecord)>) -> Seq<(usize, LinkView)> {
    links.map_values(|l: (ConnectionId, LinkRecord)| (l.0.spec_id(), l.1@))
}

/// One peer's links, and which carries the session.
struct PeerLinks {
    primary: ConnectionId,
    links: Vec<(ConnectionId, LinkRecord)>,
}

impl View for PeerLinks {
    type V = PeerLinksView;

    closed spec fn view(&self) -> PeerLinksView {
        PeerLinksView { primary: self.primary.spec_id(), links: links_view(self.links@) }
    }
}

/// What a newly established connection changed.
#[derive(Debug, PartialEq, Eq)]
pub struct EstablishedOutcome {
    /// The connection that now carries the session.
    pub primary: ConnectionId,
    /// The address the session-bearing connection is on.
    pub primary_address: Address,
    /// Connections to close: the link the collapse discarded, or a redundant
    /// duplicate dial. Empty in the ordinary case.
    pub close: Vec<ConnectionId>,
    /// Whether the peer had no session before this connection: the one
    /// condition under which a session is announced.
    pub newly_connected: bool,
    /// The collapse decision, when a simultaneous connect was resolved.
    pub collapse: Option<SessionCollapse>,
}

impl View for EstablishedOutcome {
    type V = EstablishedView;

    open spec fn view(&self) -> EstablishedView {
        EstablishedView {
            primary: self.primary.spec_id(),
            primary_address: self.primary_address@,
            close: self.close@.map_values(|c: ConnectionId| c.spec_id()),
            newly_connected: self.newly_connected,
            collapse: match self.collapse {
                Some(decision) => Some(decision.spec_survivor()),
                None => None,
            },
        }
    }
}

/// What a closed connection changed.
#[derive(Debug, Clone, Copy, PartialEq, Eq)]
pub struct ClosedOutcome {
    /// Whether the connection that closed carried the session.
    pub was_primary: bool,
    /// The oldest remaining link, when one remains.
    pub new_primary: Option<ConnectionId>,
    /// Whether the peer has no link left: the one condition under which a
    /// session close is announced.
    pub peer_gone: bool,
}

impl View for ClosedOutcome {
    type V = ClosedView;

    open spec fn view(&self) -> ClosedView {
        ClosedView {
            was_primary: self.was_primary,
            new_primary: match self.new_primary {
                Some(c) => Some(c.spec_id()),
                None => None,
            },
            peer_gone: self.peer_gone,
        }
    }
}

/// Which connection carries the one logical session with each peer. The
/// transport may hold several connections to a peer; the session is one,
/// and this registry reconciles the two with the domain's collapse rule,
/// which it applies rather than re-derives.
pub struct LinkRegistry {
    local: PeerId,
    peers: Vec<(NetPeer, PeerLinks)>,
}

impl View for LinkRegistry {
    type V = LinkRegistryView;

    closed spec fn view(&self) -> LinkRegistryView {
        LinkRegistryView {
            local: self.local,
            peers: self.peers@.map_values(|e: (NetPeer, PeerLinks)| (e.0@, e.1@)),
        }
    }
}

fn insert_link(links: &mut Vec<(ConnectionId, LinkRecord)>, c: ConnectionId, record: LinkRecord)
    requires
        ids_ascending(links_view(old(links)@)),
    ensures
        links_view(final(links)@) == link_insert(links_view(old(links)@), c.spec_id(), record@),
{
    let ghost before = links_view(links@);
    proof {
        lemma_ascending_ids_unique(before);
    }
    let mut k: usize = 0;
    while k < links.len() && links[k].0.id() < c.id()
        invariant
            0 <= k <= links@.len(),
            before == links_view(links@),
            forall|j: int| 0 <= j < k ==> #[trigger] before[j].0 < c.spec_id(),
        decreases links@.len() - k,
    {
        k = k + 1;
    }
    proof {
        assert forall|j: int| k <= j < before.len() implies #[trigger] before[j].0 >= c.spec_id() by {
            assert(before[k as int].0 >= c.spec_id());
            if j > k {
                assert(before[k as int].0 < before[j].0);
            }
        }
        assert(is_link_slot(before, c.spec_id(), k as int));
    }
    if k < links.len() && links[k].0.id() == c.id() {
        proof {
            assert(before[k as int].0 == c.spec_id());
            lemma_put_at(before, k as int, record@);
        }
        links.set(k, (c, record));
        assert(links_view(links@) =~= before.update(k as int, (c.spec_id(), record@)));
    } else {
        proof {
            assert(!has_key(before, c.spec_id())) by {
                if has_key(before, c.spec_id()) {
                    let j = choose|j: int| 0 <= j < before.len() && #[trigger] before[j].0 == c.spec_id();
                    if j > k {
                        assert(before[k as int].0 < before[j].0);
                    }
                }
            }
            lemma_link_slot_unique(before, c.spec_id(), k as int);
        }
        links.insert(k, (c, record));
        assert(links_view(links@) =~= before.insert(k as int, (c.spec_id(), record@)));
    }
}

fn find_direction(links: &Vec<(ConnectionId, LinkRecord)>, direction: SessionDirection) -> (r: Option<usize>)
    ensures
        r matches Some(i) ==> is_first_with(links_view(links@), direction, i as int),
        r is None ==> !has_direction(links_view(links@), direction),
{
    let ghost view = links_view(links@);
    let mut i: usize = 0;
    while i < links.len()
        invariant
            0 <= i <= links@.len(),
            view == links_view(links@),
            forall|j: int| 0 <= j < i ==> (#[trigger] view[j]).1.direction != direction,
        decreases links@.len() - i,
    {
        if links[i].1.direction == direction {
            return Some(i);
        }
        i = i + 1;
    }
    None
}

fn ids_other_than(links: &Vec<(ConnectionId, LinkRecord)>, keep: ConnectionId) -> (r: Vec<ConnectionId>)
    ensures
        r@.map_values(|c: ConnectionId| c.spec_id()) == ids_except(links_view(links@), keep.spec_id()),
{
    let ghost view = links_view(links@);
    let mut out: Vec<ConnectionId> = Vec::new();
    let mut i: usize = 0;
    while i < links.len()
        invariant
            0 <= i <= links@.len(),
            view == links_view(links@),
            out@.map_values(|c: ConnectionId| c.spec_id()) == ids_except(view.take(i as int), keep.spec_id()),
        decreases links@.len() - i,
    {
        assert(view.take(i + 1).drop_last() =~= view.take(i as int));
        let ghost before = out@;
        if links[i].0.id() != keep.id() {
            out.push(links[i].0);
            assert(out@.map_values(|c: ConnectionId| c.spec_id()) =~= before.map_values(
                |c: ConnectionId| c.spec_id(),
            ).push(view[i as int].0));
        }
        i = i + 1;
    }
    assert(view.take(links@.len() as int) =~= view);
    out
}

impl LinkRegistry {
    #[verifier::type_invariant]
    closed spec fn inv(self) -> bool {
        registry_wf(self@)
    }

    /// A registry for the peer `local`, holding no link.
    pub fn new(local: PeerId) -> (r: LinkRegistry)
        ensures
            r@.local == local,
            r@.peers.len() == 0,
    {
        let r = LinkRegistry { local, peers: Vec::new() };
        assert(r@.peers =~= Seq::<(NetPeerView, PeerLinksView)>::empty());
        r
    }

    fn index_of(&self, remote: &NetPeer) -> (r: Option<usize>)
        ensures
            r matches Some(i) ==> i < self@.peers.len() && self@.peers[i as int].0 == remote@,
            r is None ==> !has_key(self@.peers, remote@),
    {
        let ghost entries = self@.peers;
        let mut i: usize = 0;
        while i < self.peers.len()
            invariant
                0 <= i <= self.peers@.len(),
                entries == self@.peers,
                forall|j: int| 0 <= j < i ==> entries[j].0 != remote@,
            decreases self.peers@.len() - i,
        {
            if self.peers[i].0.same_as(remote) {
                return Some(i);
            }
            i = i + 1;
        }
        None
    }

    /// Records a newly established connection `connection` to `remote`
    /// (`remote_identity` in the domain's terms), dialled from `direction` on
    /// `address`, and decides which link now carries the session.
    pub fn record_established(
        &mut self,
        remote_identity: PeerId,
        remote: NetPeer,
        connection: ConnectionId,
        direction: SessionDirection,
        address: Address,
    ) -> (r: Result<EstablishedOutcome, LinkRegistryError>)
        ensures
            ({
                let (next, answer) = established_step(
                    old(self)@,
                    remote_identity@,
                    remote@,
                    connection.spec_id(),
                    direction,
                    address@,
                );
                &&& final(self)@ == next
                &&& match r {
                    Ok(outcome) => answer == Ok::<EstablishedView, LinkRegistryError>(outcome@),
                    Err(e) => answer == Err::<EstablishedView, LinkRegistryError>(e),
                }
            }),
    {
        proof {
            use_type_invariant(&*self);
        }
        let ghost v = self@;
        if remote_identity.same_as(&self.local) {
            return Err(LinkRegistryError::SelfConnection);
        }
        let ghost link = LinkView { direction, address: address@ };
        let record = LinkRecord { direction, address };
        let index = self.index_of(&remote);
        proof {
            lemma_lookup_characterized(v.peers, remote@);
        }
        match index {
            None => {
                let primary_address = record.address.duplicate();
                let mut links: Vec<(ConnectionId, LinkRecord)> = Vec::new();
                links.push((connection, record));
                let ghost held = PeerLinksView { primary: connection.spec_id(), links: seq![(connection.spec_id(), link)] };
                proof {
                    assert(links_view(links@) =~= seq![(connection.spec_id(), link)]);
                    lemma_put(v.peers, remote@, held);
                }
                let mut peers: Vec<(NetPeer, PeerLinks)> = Vec::new();
                std::mem::swap(&mut peers, &mut self.peers);
                let ghost before = peers@;
                peers.push((remote, PeerLinks { primary: connection, links }));
                proof {
                    let next = peers@.map_values(|e: (NetPeer, PeerLinks)| (e.0@, e.1@));
                    assert(next =~= v.peers.push((remote@, held)));
                    assert(has_key(held.links, held.primary)) by {
                        assert(held.links[0].0 == held.primary);
                    }
                    assert forall|i: int| 0 <= i < next.len() implies {
                        let h = (#[trigger] next[i]).1;
                        &&& h.links.len() > 0
                        &&& ids_ascending(h.links)
                        &&& has_key(h.links, h.primary)
                    } by {
                        if i < v.peers.len() {
                            assert(next[i] == v.peers[i]);
                        }
                    }
                }
                self.peers = peers;
                let outcome = EstablishedOutcome {
                    primary: connection,
                    primary_address,
                    close: Vec::new(),
                    newly_connected: true,
                    collapse: None,
                };
                assert(outcome@.close =~= Seq::<usize>::empty());
                Ok(outcome)
            },
            Some(i) => {
                proof {
                    lemma_lookup_index(v.peers, i as int);
                }
                let ghost held = v.peers[i as int].1;
                let mut peers: Vec<(NetPeer, PeerLinks)> = Vec::new();
                std::mem::swap(&mut peers, &mut self.peers);
                let ghost before = peers@;
                let (peer, mut entry) = peers.remove(i);
                assert(entry@ == held);
                insert_link(&mut entry.links, connection, record);
                let ghost links = entry@.links;
                proof {
                    lemma_link_insert(held.links, connection.spec_id(), link);
                }
                let outbound = find_direction(&entry.links, SessionDirection::Outbound);
                let inbound = find_direction(&entry.links, SessionDirection::Inbound);
                let collapse = if outbound.is_some() && inbound.is_some() {
                    match SessionCollapse::resolve(self.local, remote_identity) {
                        Ok(decision) => Some(decision),
                        Err(_) => None,
                    }
                } else {
                    None
                };
                proof {
                    if outbound.is_some() && inbound.is_some() {
                        assert(collapse is Some);
                        let o = outbound.unwrap() as int;
                        let n = inbound.unwrap() as int;
                        assert(links[o].1.direction == SessionDirection::Outbound);
                        assert(links[n].1.direction == SessionDirection::Inbound);
                    }
                }
                let at: usize = match collapse {
                    Some(decision) => {
                        let keep = decision.survivor();
                        let found = if keep == SessionDirection::Outbound {
                            outbound
                        } else {
                            inbound
                        };
                        match found {
                            Some(at) => {
                                proof {
                                    lemma_first_with_unique(links, keep, at as int);
                                }
                                at
                            },
                            None => 0,
                        }
                    },
                    None => 0,
                };
                let survivor = entry.links[at].0;
                let primary_address = entry.links[at].1.address.duplicate();
                let close = ids_other_than(&entry.links, survivor);
                entry.primary = survivor;
                let ghost next_held = PeerLinksView { primary: survivor.spec_id(), links };
                assert(entry@ == next_held);
                proof {
                    lemma_put_at(v.peers, i as int, next_held);
                    lemma_put(v.peers, remote@, next_held);
                    assert(links[at as int].0 == survivor.spec_id());
                }
                peers.insert(i, (peer, entry));
                proof {
                    let next = peers@.map_values(|e: (NetPeer, PeerLinks)| (e.0@, e.1@));
                    assert(next =~= v.peers.update(i as int, (remote@, next_held)));
                    assert forall|j: int| 0 <= j < next.len() implies {
                        let h = (#[trigger] next[j]).1;
                        &&& h.links.len() > 0
                        &&& ids_ascending(h.links)
                        &&& has_key(h.links, h.primary)
                    } by {
                        if j != i {
                            assert(next[j] == v.peers[j]);
                        }
                    }
                }
                self.peers = peers;
                Ok(EstablishedOutcome {
                    primary: survivor,
                    primary_address,
                    close,
                    newly_connected: false,
                    collapse,
                })
            },
        }
    }

    fn position_of(links: &Vec<(ConnectionId, LinkRecord)>, c: ConnectionId) -> (r: Option<usize>)
        ensures
            r matches Some(k) ==> k < links@.len() && links_view(links@)[k as int].0 == c.spec_id(),
            r is None ==> !has_key(links_view(links@), c.spec_id()),
    {
        let ghost view = links_view(links@);
        let mut k: usize = 0;
        while k < links.len()
            invariant
                0 <= k <= links@.len(),
                view == links_view(links@),
                forall|j: int| 0 <= j < k ==> view[j].0 != c.spec_id(),
            decreases links@.len() - k,
        {
            if links[k].0.id() == c.id() {
                return Some(k);
            }
            k = k + 1;
        }
        None
    }

    /// Records connection `connection` to `remote` closing, whichever side
    /// closed it. `None` for a connection never recorded.
    #[verifier::spinoff_prover]
    #[verifier::rlimit(40)]
    pub fn record_closed(&mut self, remote: &NetPeer, connection: ConnectionId) -> (r: Option<ClosedOutcome>)
        ensures
            ({
                let (next, answer) = closed_step(old(self)@, remote@, connection.spec_id());
                &&& final(self)@ == next
                &&& match r {
                    Some(outcome) => answer == Some(outcome@),
                    None => answer is None,
                }
            }),
            r matches Some(outcome) ==> outcome_peer_gone_clears(final(self)@, remote@, outcome.peer_gone),
    {
        proof {
            use_type_invariant(&*self);
        }
        let ghost v = self@;
        proof {
            lemma_lookup_characterized(v.peers, remote@);
        }
        let i = match self.index_of(remote) {
            Some(i) => i,
            None => {
                return None;
            },
        };
        proof {
            lemma_lookup_index(v.peers, i as int);
        }
        let ghost held = v.peers[i as int].1;
        assert(self.peers@[i as int].1@ == held);
        let pos = match LinkRegistry::position_of(&self.peers[i].1.links, connection) {
            Some(pos) => pos,
            None => {
                return None;
            },
        };
        proof {
            lemma_lookup_characterized(v.peers, remote@);
            law_last_link_closing_ends_the_session(v, remote@, connection.spec_id(), held);
            lemma_ascending_ids_unique(held.links);
            lemma_drop_key_at(held.links, pos as int);
            lemma_lookup_characterized(held.links, held.primary);
        }
        let mut peers: Vec<(NetPeer, PeerLinks)> = Vec::new();
        std::mem::swap(&mut peers, &mut self.peers);
        let (peer, mut entry) = peers.remove(i);
        entry.links.remove(pos);
        let ghost links = held.links.remove(pos as int);
        assert(links_view(entry.links@) =~= links);
        let was_primary = entry.primary.id() == connection.id();
        if entry.links.len() == 0 {
            proof {
                lemma_drop_key_at(v.peers, i as int);
                let next = peers@.map_values(|e: (NetPeer, PeerLinks)| (e.0@, e.1@));
                assert(next =~= v.peers.remove(i as int));
                assert forall|j: int| 0 <= j < next.len() implies {
                    let h = (#[trigger] next[j]).1;
                    &&& h.links.len() > 0
                    &&& ids_ascending(h.links)
                    &&& has_key(h.links, h.primary)
                } by {
                    let k = if j < i { j } else { j + 1 };
                    assert(next[j] == v.peers[k]);
                }
            }
            self.peers = peers;
            return Some(ClosedOutcome { was_primary, new_primary: None, peer_gone: true });
        }
        let first = entry.links[0].0;
        if was_primary {
            entry.primary = first;
        }
        let ghost next_held = PeerLinksView { primary: entry.primary.spec_id(), links };
        assert(entry@ == next_held);
        proof {
            lemma_put_at(v.peers, i as int, next_held);
            lemma_put(v.peers, remote@, next_held);
            assert(ids_ascending(links)) by {
                assert forall|a: int, b: int| 0 <= a < b < links.len() implies #[trigger] links[a].0
                    < #[trigger] links[b].0 by {
                    let x = if a < pos { a } else { a + 1 };
                    let y = if b < pos { b } else { b + 1 };
                    assert(links[a] == held.links[x] && links[b] == held.links[y]);
                }
            }
            if was_primary {
                assert(links[0].0 == first.spec_id());
            } else {
                lemma_lookup_characterized(links, held.primary);
            }
        }
        peers.insert(i, (peer, entry));
        proof {
            let next = peers@.map_values(|e: (NetPeer, PeerLinks)| (e.0@, e.1@));
            assert(next =~= v.peers.update(i as int, (remote@, next_held)));
            assert forall|j: int| 0 <= j < next.len() implies {
                let h = (#[trigger] next[j]).1;
                &&& h.links.len() > 0
                &&& ids_ascending(h.links)
                &&& has_key(h.links, h.primary)
            } by {
                if j != i {
                    assert(next[j] == v.peers[j]);
                }
            }
        }
        self.peers = peers;
        Some(ClosedOutcome { was_primary, new_primary: Some(first), peer_gone: false })
    }

    /// Forgets every link to `remote`, for use after closing them all.
    pub fn forget(&mut self, remote: &NetPeer)
        ensures
            final(self)@ == (LinkRegistryView { peers: drop_key(old(self)@.peers, remote@), ..old(self)@ }),
    {
        proof {
            use_type_invariant(&*self);
        }
        let ghost v = self@;
        match self.index_of(remote) {
            Some(i) => {
                proof {
                    lemma_drop_key_at(v.peers, i as int);
                }
                let mut peers: Vec<(NetPeer, PeerLinks)> = Vec::new();
                std::mem::swap(&mut peers, &mut self.peers);
                peers.remove(i);
                proof {
                    let next = peers@.map_values(|e: (NetPeer, PeerLinks)| (e.0@, e.1@));
                    assert(next =~= v.peers.remove(i as int));
                    assert forall|j: int| 0 <= j < next.len() implies {
                        let h = (#[trigger] next[j]).1;
                        &&& h.links.len() > 0
                        &&& ids_ascending(h.links)
                        &&& has_key(h.links, h.primary)
                    } by {
                        let k = if j < i { j } else { j + 1 };
                        assert(next[j] == v.peers[k]);
                    }
                }
                self.peers = peers;
            },
            None => {},
        }
    }

    /// Every live connection to `remote`, oldest first.
    pub fn connections_of(&self, remote: &NetPeer) -> (r: Vec<ConnectionId>)
        ensures
            r@.map_values(|c: ConnectionId| c.spec_id()) == match lookup(self@.peers, remote@) {
                Some(held) => held.links.map_values(|l: (usize, LinkView)| l.0),
                None => Seq::empty(),
            },
    {
        proof {
            use_type_invariant(self);
            lemma_lookup_characterized(self@.peers, remote@);
        }
        let mut out: Vec<ConnectionId> = Vec::new();
        match self.index_of(remote) {
            Some(i) => {
                proof {
                    lemma_lookup_index(self@.peers, i as int);
                }
                let links = &self.peers[i].1.links;
                let ghost view = links_view(links@);
                assert(view == self@.peers[i as int].1.links);
                let mut k: usize = 0;
                while k < links.len()
                    invariant
                        0 <= k <= links@.len(),
                        view == links_view(links@),
                        out@.map_values(|c: ConnectionId| c.spec_id()) == view.take(k as int).map_values(
                            |l: (usize, LinkView)| l.0,
                        ),
                    decreases links@.len() - k,
                {
                    let ghost before = out@;
                    assert(view[k as int].0 == links@[k as int].0.spec_id());
                    out.push(links[k].0);
                    assert(out@.map_values(|c: ConnectionId| c.spec_id()) =~= before.map_values(
                        |c: ConnectionId| c.spec_id(),
                    ).push(view[k as int].0));
                    assert(view.take(k + 1) =~= view.take(k as int).push(view[k as int]));
                    assert(view.take(k + 1).map_values(|l: (usize, LinkView)| l.0) =~= view.take(
                        k as int,
                    ).map_values(|l: (usize, LinkView)| l.0).push(view[k as int].0));
                    k = k + 1;
                }
                assert(view.take(links@.len() as int) =~= view);
                out
            },
            None => {
                assert(out@.map_values(|c: ConnectionId| c.spec_id()) =~= Seq::<usize>::empty());
                out
            },
        }
    }

    /// The address of the session-bearing link to `remote`, when there is one.
    pub fn primary_address(&self, remote: &NetPeer) -> (r: Option<Address>)
        ensures
            r is Some <==> lookup(self@.peers, remote@) is Some,
            r matches Some(a) ==> ({
                let held = lookup(self@.peers, remote@)->Some_0;
                lookup(held.links, held.primary) == Some(LinkView { direction: lookup(held.links, held.primary)->Some_0.direction, address: a@ })
            }),
    {
        proof {
            use_type_invariant(self);
            lemma_lookup_characterized(self@.peers, remote@);
        }
        match self.index_of(remote) {
            Some(i) => {
                proof {
                    lemma_lookup_index(self@.peers, i as int);
                }
                let ghost held = self@.peers[i as int].1;
                let entry = &self.peers[i].1;
                assert(entry@ == held);
                proof {
                    lemma_ascending_ids_unique(held.links);
                    lemma_lookup_characterized(held.links, held.primary);
                }
                match LinkRegistry::position_of(&entry.links, entry.primary) {
                    Some(k) => {
                        proof {
                            lemma_lookup_index(held.links, k as int);
                        }
                        Some(entry.links[k].1.address.duplicate())
                    },
                    None => None,
                }
            },
            None => None,
        }
    }

    /// Whether a session with `remote` exists at all.
    pub fn holds_session(&self, remote: &NetPeer) -> (r: bool)
        ensures
            r == lookup(self@.peers, remote@) is Some,
    {
        proof {
            use_type_invariant(self);
            lemma_lookup_characterized(self@.peers, remote@);
        }
        self.index_of(remote).is_some()
    }

    /// How many peers hold a session.
    pub fn session_count(&self) -> (r: usize)
        ensures
            r == self@.peers.len(),
    {
        self.peers.len()
    }
}

// ------------------------------------------------------------ laws

/// A peer's first link is its session, and is the one announcement a
/// session gets.
pub proof fn law_first_link_is_the_session(
    v: LinkRegistryView,
    remote_identity: Seq<u8>,
    remote: NetPeerView,
    c: usize,
    direction: SessionDirection,
    address: AddressView,
)
    requires
        remote_identity != v.local@,
        lookup(v.peers, remote) is None,
    ensures
        ({
            let (next, answer) = established_step(v, remote_identity, remote, c, direction, address);
            &&& answer matches Ok(outcome) && outcome.primary == c && outcome.newly_connected
                && outcome.close.len() == 0 && outcome.collapse is None
            &&& lookup(next.peers, remote) matches Some(held) && held.primary == c
        }),
{
    let next = established_step(v, remote_identity, remote, c, direction, address).0;
    let held = PeerLinksView { primary: c, links: seq![(c, LinkView { direction, address })] };
    assert(!has_key(v.peers, remote)) by {
        if has_key(v.peers, remote) {
            lemma_lookup_has_key(v.peers, remote);
        }
    }
    lemma_lookup_push(v.peers, remote, held);
}

/// With a key present, `lookup` finds something.
proof fn lemma_lookup_has_key<K, V>(entries: Seq<(K, V)>, key: K)
    requires
        has_key(entries, key),
    ensures
        lookup(entries, key) is Some,
    decreases entries.len(),
{
    if entries[0].0 != key {
        let i = choose|i: int| 0 <= i < entries.len() && #[trigger] entries[i].0 == key;
        assert(entries.drop_first()[i - 1].0 == key);
        lemma_lookup_has_key(entries.drop_first(), key);
    }
}

/// An entry pushed for a key no entry has is what `lookup` finds for it.
proof fn lemma_lookup_push<K, V>(entries: Seq<(K, V)>, key: K, value: V)
    requires
        !has_key(entries, key),
    ensures
        lookup(entries.push((key, value)), key) == Some(value),
    decreases entries.len(),
{
    if entries.len() > 0 {
        let rest = entries.drop_first();
        assert(entries[0].0 != key);
        assert(!has_key(rest, key)) by {
            if has_key(rest, key) {
                let i = choose|i: int| 0 <= i < rest.len() && #[trigger] rest[i].0 == key;
                assert(entries[i + 1].0 == key);
            }
        }
        assert(entries.push((key, value)).drop_first() =~= rest.push((key, value)));
        lemma_lookup_push(rest, key, value);
    }
}

/// When links from both directions are held, the session is on the oldest
/// link dialled from the side the domain's collapse rule picks, which both
/// peers compute from the same two identities; no second session is
/// announced.
pub proof fn law_collapse_keeps_the_rule_s_link(
    v: LinkRegistryView,
    remote_identity: Seq<u8>,
    remote: NetPeerView,
    c: usize,
    direction: SessionDirection,
    address: AddressView,
    held: PeerLinksView,
)
    requires
        registry_wf(v),
        remote_identity != v.local@,
        lookup(v.peers, remote) == Some(held),
        has_direction(
            link_insert(held.links, c, LinkView { direction, address }),
            SessionDirection::Outbound,
        ),
        has_direction(
            link_insert(held.links, c, LinkView { direction, address }),
            SessionDirection::Inbound,
        ),
    ensures
        ({
            let links = link_insert(held.links, c, LinkView { direction, address });
            let (next, answer) = established_step(v, remote_identity, remote, c, direction, address);
            &&& answer is Ok
            &&& !answer->Ok_0.newly_connected
            &&& answer->Ok_0.collapse == Some(collapse_survivor(v.local@, remote_identity))
            &&& lookup(links, answer->Ok_0.primary) is Some
            &&& lookup(links, answer->Ok_0.primary)->Some_0.direction == collapse_survivor(
                v.local@,
                remote_identity,
            )
        }),
{
    let links = link_insert(held.links, c, LinkView { direction, address });
    let keep = collapse_survivor(v.local@, remote_identity);
    lemma_lookup_characterized(v.peers, remote);
    let i = choose|i: int| 0 <= i < v.peers.len() && #[trigger] v.peers[i].0 == remote && v.peers[i].1 == held;
    assert(ids_ascending(v.peers[i].1.links));
    lemma_link_insert(held.links, c, LinkView { direction, address });
    lemma_ascending_ids_unique(links);
    lemma_first_with_exists(links, keep);
    let at = first_with(links, keep);
    lemma_lookup_index(links, at);
}

/// Some link dialled from `direction` is the oldest such.
pub proof fn lemma_first_with_exists(links: Seq<(usize, LinkView)>, direction: SessionDirection)
    requires
        has_direction(links, direction),
    ensures
        is_first_with(links, direction, first_with(links, direction)),
    decreases links.len(),
{
    if links[0].1.direction == direction {
        assert(is_first_with(links, direction, 0));
    } else {
        let rest = links.drop_first();
        let i = choose|i: int| 0 <= i < links.len() && (#[trigger] links[i]).1.direction == direction;
        assert(rest[i - 1] == links[i]);
        lemma_first_with_exists(rest, direction);
        let f = first_with(rest, direction);
        assert(is_first_with(links, direction, f + 1)) by {
            assert forall|j: int| 0 <= j < f + 1 implies (#[trigger] links[j]).1.direction != direction by {
                if j > 0 {
                    assert(links[j] == rest[j - 1]);
                }
            }
        }
    }
}

/// Closing a peer's last link ends its session, and only that announces a
/// close.
pub proof fn law_last_link_closing_ends_the_session(
    v: LinkRegistryView,
    remote: NetPeerView,
    c: usize,
    held: PeerLinksView,
)
    requires
        registry_wf(v),
        lookup(v.peers, remote) == Some(held),
        has_key(held.links, c),
    ensures
        ({
            let (next, answer) = closed_step(v, remote, c);
            &&& answer matches Some(outcome) && outcome.peer_gone == (held.links.len() == 1)
            &&& outcome_peer_gone_clears(next, remote, held.links.len() == 1)
        }),
{
    lemma_lookup_characterized(v.peers, remote);
    let i = choose|i: int| 0 <= i < v.peers.len() && #[trigger] v.peers[i].0 == remote && v.peers[i].1 == held;
    assert(ids_ascending(v.peers[i].1.links));
    lemma_ascending_ids_unique(held.links);
    let k = choose|k: int| 0 <= k < held.links.len() && #[trigger] held.links[k].0 == c;
    lemma_drop_key_at(held.links, k);
    lemma_drop_key_at(v.peers, i);
    if held.links.len() != 1 {
        let links = held.links.remove(k);
        let first = links[0].0;
        lemma_put(
            v.peers,
            remote,
            PeerLinksView {
                primary: if held.primary == c {
                    first
                } else {
                    held.primary
                },
                links,
            },
        );
    }
}

/// Whether `remote` holds no session in `v` exactly when `gone`.
pub open spec fn outcome_peer_gone_clears(v: LinkRegistryView, remote: NetPeerView, gone: bool) -> bool {
    (lookup(v.peers, remote) is None) == gone
}

/// Two links, one dialled by each side, recorded in either order leave the
/// registry in the same state: the collapse answer does not depend on which
/// link arrived first.
pub proof fn law_collapse_ignores_arrival_order(
    v: LinkRegistryView,
    remote_identity: Seq<u8>,
    remote: NetPeerView,
    c1: usize,
    d1: SessionDirection,
    a1: AddressView,
    c2: usize,
    d2: SessionDirection,
    a2: AddressView,
)
    requires
        remote_identity != v.local@,
        lookup(v.peers, remote) is None,
        c1 != c2,
        d1 != d2,
    ensures
        established_step(
            established_step(v, remote_identity, remote, c1, d1, a1).0,
            remote_identity,
            remote,
            c2,
            d2,
            a2,
        ).0 == established_step(
            established_step(v, remote_identity, remote, c2, d2, a2).0,
            remote_identity,
            remote,
            c1,
            d1,
            a1,
        ).0,
{
    let l1 = LinkView { direction: d1, address: a1 };
    let l2 = LinkView { direction: d2, address: a2 };
    let pair = if c1 < c2 {
        seq![(c1, l1), (c2, l2)]
    } else {
        seq![(c2, l2), (c1, l1)]
    };
    let keep = collapse_survivor(v.local@, remote_identity);
    let at: int = if pair[0].1.direction == keep {
        0
    } else {
        1
    };
    assert(is_first_with(pair, keep, at));
    lemma_first_with_unique(pair, keep, at);
    assert(has_direction(pair, SessionDirection::Outbound) && has_direction(pair, SessionDirection::Inbound)) by {
        assert(pair[0].1.direction != pair[1].1.direction);
        if pair[0].1.direction == SessionDirection::Outbound {
            assert(pair[1].1.direction == SessionDirection::Inbound);
        } else {
            assert(pair[1].1.direction == SessionDirection::Outbound);
        }
    }
    let held = PeerLinksView { primary: pair[at].0, links: pair };
    lemma_two_links(c1, l1, c2, l2);
    lemma_two_links(c2, l2, c1, l1);
    lemma_replace_pushed(v.peers, remote, PeerLinksView { primary: c1, links: seq![(c1, l1)] }, held);
    lemma_replace_pushed(v.peers, remote, PeerLinksView { primary: c2, links: seq![(c2, l2)] }, held);
}

/// Recording a second connection beside a lone one puts the two in number
/// order.
proof fn lemma_two_links(c1: usize, l1: LinkView, c2: usize, l2: LinkView)
    requires
        c1 != c2,
    ensures
        link_insert(seq![(c1, l1)], c2, l2) == if c1 < c2 {
            seq![(c1, l1), (c2, l2)]
        } else {
            seq![(c2, l2), (c1, l1)]
        },
{
    let one = seq![(c1, l1)];
    assert(!has_key(one, c2)) by {
        if has_key(one, c2) {
            let i = choose|i: int| 0 <= i < one.len() && #[trigger] one[i].0 == c2;
            assert(i == 0);
        }
    }
    let k: int = if c1 < c2 {
        1
    } else {
        0
    };
    assert(is_link_slot(one, c2, k));
    lemma_link_slot_unique(one, c2, k);
    if c1 < c2 {
        assert(one.insert(1, (c2, l2)) =~= seq![(c1, l1), (c2, l2)]);
    } else {
        assert(one.insert(0, (c2, l2)) =~= seq![(c2, l2), (c1, l1)]);
    }
}

/// Recording a peer absent from `peers`, then replacing its entry, is
/// recording the replacement.
proof fn lemma_replace_pushed(
    peers: Seq<(NetPeerView, PeerLinksView)>,
    remote: NetPeerView,
    first: PeerLinksView,
    second: PeerLinksView,
)
    requires
        lookup(peers, remote) is None,
    ensures
        !has_key(peers, remote),
        put(peers, remote, first) == peers.push((remote, first)),
        lookup(put(peers, remote, first), remote) == Some(first),
        put(put(peers, remote, first), remote, second) == peers.push((remote, second)),
{
    assert(!has_key(peers, remote)) by {
        if has_key(peers, remote) {
            lemma_lookup_has_key(peers, remote);
        }
    }
    lemma_lookup_push(peers, remote, first);
    let pushed = peers.push((remote, first));
    assert(has_key(pushed, remote)) by {
        assert(pushed[peers.len() as int].0 == remote);
    }
    let replaced = put(pushed, remote, second);
    assert forall|j: int| 0 <= j < pushed.len() implies #[trigger] replaced[j] == peers.push((remote, second))[j] by {
        if j < peers.len() {
            assert(pushed[j] == peers[j]);
            if peers[j].0 == remote {
                assert(has_key(peers, remote));
            }
        }
    }
    assert(replaced =~= peers.push((remote, second)));
}

/// Sessions with different peers are independent: a connection to one peer
/// opening or closing leaves every other peer's links exactly as they were.
pub proof fn law_other_peers_are_independent(
    v: LinkRegistryView,
    remote_identity: Seq<u8>,
    remote: NetPeerView,
    c: usize,
    direction: SessionDirection,
    address: AddressView,
    other: NetPeerView,
)
    requires
        registry_wf(v),
        other != remote,
    ensures
        lookup(established_step(v, remote_identity, remote, c, direction, address).0.peers, other) == lookup(
            v.peers,
            other,
        ),
        lookup(closed_step(v, remote, c).0.peers, other) == lookup(v.peers, other),
{
    lemma_put(v.peers, remote, PeerLinksView { primary: c, links: seq![(c, LinkView { direction, address })] });
    match lookup(v.peers, remote) {
        None => {},
        Some(held) => {
            let links = link_insert(held.links, c, LinkView { direction, address });
            let simultaneous = has_direction(links, SessionDirection::Outbound) && has_direction(
                links,
                SessionDirection::Inbound,
            );
            let collapse = if simultaneous {
                Some(collapse_survivor(v.local@, remote_identity))
            } else {
                None
            };
            let at = match collapse {
                Some(keep) => first_with(links, keep),
                None => 0,
            };
            lemma_put(v.peers, remote, PeerLinksView { primary: links[at].0, links });
            let dropped = drop_key(held.links, c);
            if dropped.len() > 0 {
                let first = dropped[0].0;
                lemma_put(
                    v.peers,
                    remote,
                    PeerLinksView { primary: if held.primary == c { first } else { held.primary }, links: dropped },
                );
            }
            lemma_lookup_characterized(v.peers, remote);
            let i = choose|i: int| 0 <= i < v.peers.len() && #[trigger] v.peers[i].0 == remote;
            lemma_drop_key_at(v.peers, i);
        },
    }
}

} // verus!
