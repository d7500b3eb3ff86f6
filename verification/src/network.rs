//! What the network reports upward, how it is configured, and the decisions
//! made once at start-up: which addresses to listen on and advertise, and
//! which protocols every peer serves.
use vstd::prelude::*;
use core::time::Duration;
use crate::address::{Address, AddressView, multiaddr_reading};
use crate::direct_message_codec::DIRECT_MESSAGE_PROTOCOL;
use crate::domain::{DiscoveredPeer, Endpoint, Envelope, EnvelopeSignature, ProtocolVersion, spec_current_version};
use crate::identity::PeerId;
use crate::reachability_ledger::Reachability;
use crate::resource_limits::{ResourceLimits, duration_of_secs};
use crate::text::{trim_text, trimmed};

verus! {

// ------------------------------------------------------------ events

/// Why a 1:1 message that was handed to the network did not arrive.
#[derive(Debug, Clone, Copy, PartialEq, Eq, Structural)]
pub enum DirectMessageFailure {
    /// No connection could be opened to the peer.
    PeerUnreachable,
    /// The session closed before the peer answered.
    SessionClosed,
    /// The peer never acknowledged the message.
    NotAcknowledged,
    /// The peer answered, and refused it.
    Refused,
}

/// Something the network observed that the layers above need to hear.
#[derive(Debug, Clone, PartialEq, Eq)]
pub enum NetworkEvent {
    /// A listener is up at this endpoint.
    ListeningOn(Endpoint),
    /// An address was confirmed as one strangers can dial this peer at.
    ExternalAddressConfirmed(Endpoint),
    /// Whether strangers can dial this peer changed.
    ReachabilityChanged(Reachability),
    /// Discovery saw a peer.
    PeerDiscovered(DiscoveredPeer),
    /// A peer opened a session with this one.
    SessionEstablished { peer: PeerId, endpoint: Endpoint },
    /// A peer's session ended.
    SessionClosed { peer: PeerId },
    /// An envelope arrived, decoded, from a mapped peer.
    EnvelopeReceived { from: PeerId, envelope: Envelope },
    /// A 1:1 message was acknowledged.
    DirectMessageDelivered { peer: PeerId, signature: EnvelopeSignature },
    /// A 1:1 message did not arrive.
    DirectMessageFailed { peer: PeerId, signature: EnvelopeSignature, reason: DirectMessageFailure },
}

// ------------------------------------------------------------ configuration

/// The broadcast topic every peer of this network joins.
pub const DEFAULT_TOPIC: &'static str = "/distro/broadcast/1.0.0";

/// How a peer joins the network.
#[derive(Debug, Clone, PartialEq, Eq)]
pub struct NetworkConfig {
    /// Multiaddresses to listen on.
    pub listen_addresses: Vec<String>,
    /// Addresses the operator asserts strangers can dial this peer at.
    pub external_addresses: Vec<String>,
    /// Whether to find peers on the local network.
    pub enable_lan_discovery: bool,
    /// The broadcast topic.
    pub broadcast_topic: String,
    /// The protocol version spoken.
    pub protocol_version: ProtocolVersion,
    /// How long an idle connection is kept.
    pub idle_connection_timeout: Duration,
    /// The hostile-input caps.
    pub limits: ResourceLimits,
}

impl Default for NetworkConfig {
    /// Listening on every interface over QUIC and TCP with ports chosen by
    /// the system, LAN discovery on, the default topic, this build's
    /// protocol, a minute's idle timeout, and the shipped limits.
    fn default() -> (r: NetworkConfig)
        ensures
            r.listen_addresses@.len() == 2,
            r.listen_addresses@[0]@ == "/ip4/0.0.0.0/udp/0/quic-v1"@,
            r.listen_addresses@[1]@ == "/ip4/0.0.0.0/tcp/0"@,
            r.external_addresses@.len() == 0,
            r.enable_lan_discovery,
            r.broadcast_topic@ == DEFAULT_TOPIC@,
            r.protocol_version == spec_current_version(),
            r.limits.max_envelope_bytes == 32768,
            r.limits.max_ticket_bytes == 4096,
            r.limits.max_established_connections == 256,
            r.limits.max_established_per_peer == 2,
            r.limits.max_pending_incoming == 64,
            r.limits.max_pending_outgoing == 64,
            r.limits.max_session_buffered_messages == 256,
            r.limits.max_messages_per_rpc == 16,
            r.limits.inbound_envelopes_per_second == 32,
            r.limits.inbound_envelope_burst == 64,
            r.limits.max_relay_circuit_bytes == 8388608,
            r.limits.max_relay_circuit_duration == duration_of_secs(600),
            r.limits.max_relay_circuits_per_peer == 4,
            r.limits.max_relay_circuits == 32,
            r.limits.max_candidate_addresses == 16,
            r.limits.max_observers_per_address == 8,
            r.limits.max_failing_addresses == 16,
            r.limits.max_observed_peers == 64,
            r.limits.event_queue_capacity == 1024,
            r.limits.request_timeout == duration_of_secs(10),
            r.idle_connection_timeout == duration_of_secs(60),
    {
        let mut listen: Vec<String> = Vec::new();
        listen.push("/ip4/0.0.0.0/udp/0/quic-v1".to_owned());
        listen.push("/ip4/0.0.0.0/tcp/0".to_owned());
        NetworkConfig {
            listen_addresses: listen,
            external_addresses: Vec::new(),
            enable_lan_discovery: true,
            broadcast_topic: DEFAULT_TOPIC.to_owned(),
            protocol_version: ProtocolVersion::current(),
            idle_connection_timeout: Duration::from_secs(60),
            limits: ResourceLimits::shipped(),
        }
    }
}

impl NetworkConfig {
    /// The defaults, listening on loopback only and with LAN discovery off:
    /// what a test or a single-machine trial wants.
    pub fn loopback() -> (r: NetworkConfig)
        ensures
            r.listen_addresses@.len() == 2,
            r.listen_addresses@[0]@ == "/ip4/127.0.0.1/udp/0/quic-v1"@,
            r.listen_addresses@[1]@ == "/ip4/127.0.0.1/tcp/0"@,
            r.external_addresses@.len() == 0,
            !r.enable_lan_discovery,
            r.broadcast_topic@ == DEFAULT_TOPIC@,
            r.protocol_version == spec_current_version(),
            r.limits.max_envelope_bytes == 32768,
            r.limits.max_ticket_bytes == 4096,
            r.limits.max_established_connections == 256,
            r.limits.max_established_per_peer == 2,
            r.limits.max_pending_incoming == 64,
            r.limits.max_pending_outgoing == 64,
            r.limits.max_session_buffered_messages == 256,
            r.limits.max_messages_per_rpc == 16,
            r.limits.inbound_envelopes_per_second == 32,
            r.limits.inbound_envelope_burst == 64,
            r.limits.max_relay_circuit_bytes == 8388608,
            r.limits.max_relay_circuit_duration == duration_of_secs(600),
            r.limits.max_relay_circuits_per_peer == 4,
            r.limits.max_relay_circuits == 32,
            r.limits.max_candidate_addresses == 16,
            r.limits.max_observers_per_address == 8,
            r.limits.max_failing_addresses == 16,
            r.limits.max_observed_peers == 64,
            r.limits.event_queue_capacity == 1024,
            r.limits.request_timeout == duration_of_secs(10),
            r.idle_connection_timeout == duration_of_secs(60),
    {
        let mut config = NetworkConfig::default();
        let mut listen: Vec<String> = Vec::new();
        listen.push("/ip4/127.0.0.1/udp/0/quic-v1".to_owned());
        listen.push("/ip4/127.0.0.1/tcp/0".to_owned());
        config.listen_addresses = listen;
        config.enable_lan_discovery = false;
        config
    }
}

/// Why the network could not start.
#[derive(Debug, Clone, Copy, PartialEq, Eq, Structural)]
pub enum NetworkStartError {
    /// No listen address is configured.
    NoListenAddress,
    /// A listen address is not a multiaddress.
    MalformedListenAddress,
    /// An external address is not a multiaddress.
    MalformedExternalAddress,
    /// An external address is not one a stranger could dial.
    NonGlobalExternalAddress,
    /// The async runtime could not be created.
    RuntimeUnavailable,
    /// The transport stack could not be built.
    TransportUnavailable,
    /// The protocols could not be assembled.
    BehaviourUnavailable,
}

/// The sentence a [`NetworkStartError`] is reported with.
pub open spec fn network_start_error_text(e: NetworkStartError) -> Seq<char> {
    match e {
        NetworkStartError::NoListenAddress => "no listen address is configured"@,
        NetworkStartError::MalformedListenAddress => "a configured listen address is not a multiaddress"@,
        NetworkStartError::MalformedExternalAddress => "a configured external address is not a multiaddress"@,
        NetworkStartError::NonGlobalExternalAddress => "a configured external address is not reachable from outside this network — only an address a stranger on the internet could dial can be advertised. mDNS already covers the local network, so peers on the same LAN find each other without this option"@,
        NetworkStartError::RuntimeUnavailable => "the network runtime could not be created"@,
        NetworkStartError::TransportUnavailable => "the transport stack could not be built"@,
        NetworkStartError::BehaviourUnavailable => "the network protocols could not be assembled"@,
    }
}

impl NetworkStartError {
    /// The reason, as one sentence: for a refused external address, also
    /// that the local network needs no such option.
    pub fn describe(&self) -> (r: String)
        ensures
            r@ == network_start_error_text(*self),
    {
        match self {
            NetworkStartError::NoListenAddress => "no listen address is configured".to_owned(),
            NetworkStartError::MalformedListenAddress => "a configured listen address is not a multiaddress".to_owned(),
            NetworkStartError::MalformedExternalAddress => "a configured external address is not a multiaddress".to_owned(),
            NetworkStartError::NonGlobalExternalAddress => "a configured external address is not reachable from outside this network — only an address a stranger on the internet could dial can be advertised. mDNS already covers the local network, so peers on the same LAN find each other without this option".to_owned(),
            NetworkStartError::RuntimeUnavailable => "the network runtime could not be created".to_owned(),
            NetworkStartError::TransportUnavailable => "the transport stack could not be built".to_owned(),
            NetworkStartError::BehaviourUnavailable => "the network protocols could not be assembled".to_owned(),
        }
    }
}

/// Whether every text of `texts`, prepared by `prepare`, reads as a
/// multiaddress, and `addresses` are what they read as.
pub open spec fn read_all(texts: Seq<String>, addresses: Seq<Address>, trim: bool) -> bool {
    &&& addresses.len() == texts.len()
    &&& forall|i: int|
        0 <= i < texts.len() ==> multiaddr_reading(
            if trim {
                trimmed(#[trigger] texts[i]@)
            } else {
                texts[i]@
            },
        ) == Some(addresses[i]@)
}

/// Whether some text of `texts` does not read as a multiaddress.
pub open spec fn some_unreadable(texts: Seq<String>, trim: bool) -> bool {
    exists|i: int|
        0 <= i < texts.len() && multiaddr_reading(
            if trim {
                trimmed(#[trigger] texts[i]@)
            } else {
                texts[i]@
            },
        ) is None
}

/// Reads each text as a multiaddress (surrounding white space ignored when
/// `trim`); `None` when one does not read.
fn read_addresses(texts: &[String], trim: bool) -> (r: Option<Vec<Address>>)
    ensures
        r is None <==> some_unreadable(texts@, trim),
        r matches Some(addresses) ==> read_all(texts@, addresses@, trim),
{
    let mut addresses: Vec<Address> = Vec::new();
    let mut i: usize = 0;
    while i < texts.len()
        invariant
            0 <= i <= texts@.len(),
            read_all(texts@.take(i as int), addresses@, trim),
            forall|j: int|
                0 <= j < i ==> multiaddr_reading(
                    if trim {
                        trimmed(#[trigger] texts@[j]@)
                    } else {
                        texts@[j]@
                    },
                ) is Some,
        decreases texts@.len() - i,
    {
        let text: &str = if trim {
            trim_text(texts[i].as_str())
        } else {
            texts[i].as_str()
        };
        match Address::parse(text) {
            Some(address) => {
                addresses.push(address);
                assert(read_all(texts@.take(i + 1), addresses@, trim)) by {
                    assert forall|j: int| 0 <= j < i + 1 implies multiaddr_reading(
                        if trim {
                            trimmed(#[trigger] texts@.take(i + 1)[j]@)
                        } else {
                            texts@.take(i + 1)[j]@
                        },
                    ) == Some(addresses@[j]@) by {
                        if j < i {
                            assert(texts@.take(i + 1)[j] == texts@.take(i as int)[j]);
                        }
                    }
                }
            },
            None => {
                assert(some_unreadable(texts@, trim)) by {
                    assert(texts@[i as int]@ == texts[i as int]@);
                }
                return None;
            },
        }
        i = i + 1;
    }
    assert(texts@.take(texts@.len() as int) =~= texts@);
    Some(addresses)
}

/// The addresses to listen on: at least one, each a multiaddress.
pub fn parse_listen_addresses(texts: &[String]) -> (r: Result<Vec<Address>, NetworkStartError>)
    ensures
        texts@.len() == 0 ==> r == Err::<Vec<Address>, NetworkStartError>(NetworkStartError::NoListenAddress),
        texts@.len() > 0 && some_unreadable(texts@, false) ==> r == Err::<Vec<Address>, NetworkStartError>(
            NetworkStartError::MalformedListenAddress,
        ),
        texts@.len() > 0 && !some_unreadable(texts@, false) ==> (r matches Ok(addresses) && read_all(
            texts@,
            addresses@,
            false,
        )),
{
    if texts.len() == 0 {
        return Err(NetworkStartError::NoListenAddress);
    }
    match read_addresses(texts, false) {
        Some(addresses) => Ok(addresses),
        None => Err(NetworkStartError::MalformedListenAddress),
    }
}

/// The addresses the operator asserts, surrounding white space ignored,
/// each a multiaddress. None at all is fine.
pub fn parse_external_addresses(texts: &[String]) -> (r: Result<Vec<Address>, NetworkStartError>)
    ensures
        some_unreadable(texts@, true) ==> r == Err::<Vec<Address>, NetworkStartError>(
            NetworkStartError::MalformedExternalAddress,
        ),
        !some_unreadable(texts@, true) ==> (r matches Ok(addresses) && read_all(texts@, addresses@, true)),
{
    match read_addresses(texts, true) {
        Some(addresses) => Ok(addresses),
        None => Err(NetworkStartError::MalformedExternalAddress),
    }
}

// ------------------------------------------------------------ protocols

/// The identify protocol name.
pub const IDENTIFY_PROTOCOL: &'static str = "/distro/id/1.0.0";

/// The Kademlia protocol name: this network's own DHT, not the public one.
pub const KADEMLIA_PROTOCOL: &'static str = "/distro/kad/1.0.0";

/// Whether the DHT answers queries or only asks them.
#[derive(Debug, Clone, Copy, PartialEq, Eq, Structural)]
pub enum KademliaMode {
    Client,
    Server,
}

/// Which protocols a peer serves and with which limits: the same for every
/// peer, since on this network the peers are the infrastructure. The relay
/// server, the reachability server, hole punching and DHT service are on for
/// everyone from the first moment; LAN discovery is on only when the
/// configuration asks for it.
#[derive(Debug, Clone, Copy, PartialEq, Eq)]
pub struct BehaviourPlan {
    pub identify_protocol: &'static str,
    pub kademlia_protocol: &'static str,
    pub kademlia_mode: KademliaMode,
    pub lan_discovery: bool,
    pub relay_server: bool,
    pub autonat_server: bool,
    pub hole_punching: bool,
    pub direct_protocol: &'static str,
    pub limits: ResourceLimits,
}

impl BehaviourPlan {
    /// The plan for a peer under `limits`, with LAN discovery as asked.
    pub fn new(limits: ResourceLimits, enable_lan_discovery: bool) -> (r: BehaviourPlan)
        ensures
            r.identify_protocol@ == IDENTIFY_PROTOCOL@,
            r.kademlia_protocol@ == KADEMLIA_PROTOCOL@,
            r.kademlia_mode == KademliaMode::Server,
            r.lan_discovery == enable_lan_discovery,
            r.relay_server,
            r.autonat_server,
            r.hole_punching,
            r.direct_protocol@ == DIRECT_MESSAGE_PROTOCOL@,
            r.limits == limits,
    {
        BehaviourPlan {
            identify_protocol: IDENTIFY_PROTOCOL,
            kademlia_protocol: KADEMLIA_PROTOCOL,
            kademlia_mode: KademliaMode::Server,
            lan_discovery: enable_lan_discovery,
            relay_server: true,
            autonat_server: true,
            hole_punching: true,
            direct_protocol: DIRECT_MESSAGE_PROTOCOL,
            limits,
        }
    }
}

} // verus!
