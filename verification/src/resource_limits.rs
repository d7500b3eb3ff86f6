//! Every hostile-input cap this adapter enforces, in one place.
use vstd::prelude::*;
use core::time::Duration;

verus! {

/// The duration `Duration::from_secs` makes of `secs` whole seconds.
pub uninterp spec fn duration_of_secs(secs: u64) -> Duration;

/// `Duration::from_secs`, which the shipped limits are written with. The
/// contract names the duration it makes of its argument, and says no more:
/// nothing in the verified code reads a duration back.
pub assume_specification[ core::time::Duration::from_secs ](secs: u64) -> (r: Duration)
    ensures
        r == duration_of_secs(secs),
;

/// `Duration`'s `Clone`, which for this `Copy` type is a copy.
pub assume_specification[ <Duration as Clone>::clone ](d: &Duration) -> (r: Duration)
    ensures
        r == *d,
;

/// Every hostile-input cap, with the shipped values in
/// [`ResourceLimits::shipped`]. A struct of fields rather than constants so a
/// test can drive one limit down to something it can reach.
#[derive(Debug, Clone, Copy, PartialEq, Eq)]
pub struct ResourceLimits {
    /// Largest encoded envelope accepted from the wire, in bytes.
    pub max_envelope_bytes: usize,
    /// Largest join-ticket string accepted for decoding, in bytes.
    pub max_ticket_bytes: usize,
    /// Largest number of simultaneously established connections.
    pub max_established_connections: u32,
    /// Largest number of established connections to one remote peer.
    pub max_established_per_peer: u32,
    /// Largest number of inbound connections still negotiating.
    pub max_pending_incoming: u32,
    /// Largest number of outbound connections still negotiating.
    pub max_pending_outgoing: u32,
    /// Messages buffered for one session before the connection stops taking
    /// more.
    pub max_session_buffered_messages: usize,
    /// Messages this peer will process out of a single gossip RPC.
    pub max_messages_per_rpc: usize,
    /// Sustained inbound envelopes accepted from one peer, per second.
    pub inbound_envelopes_per_second: u32,
    /// Inbound envelopes one peer may send in a burst.
    pub inbound_envelope_burst: u32,
    /// Bytes this peer will carry for one relayed circuit before closing it.
    pub max_relay_circuit_bytes: u64,
    /// How long one relayed circuit may stay open.
    pub max_relay_circuit_duration: Duration,
    /// Simultaneous relayed circuits this peer will carry for one remote.
    pub max_relay_circuits_per_peer: usize,
    /// Simultaneous relayed circuits this peer will carry in total.
    pub max_relay_circuits: usize,
    /// Observed external addresses tracked at once, promoted ones included.
    pub max_candidate_addresses: usize,
    /// Distinct observers counted for one candidate external address.
    pub max_observers_per_address: usize,
    /// Addresses failed reachability probes are remembered for.
    pub max_failing_addresses: usize,
    /// Peers discovery's recent sightings are kept for at once.
    pub max_observed_peers: usize,
    /// Undelivered network events buffered for the composition root.
    pub event_queue_capacity: usize,
    /// How long a synchronous port call waits for the driver's reply.
    pub request_timeout: Duration,
}

impl ResourceLimits {
    /// The shipped values.
    ///
    /// 32 KiB envelopes (a 16 KiB body plus key, signature, and framing, with
    /// headroom for minor evolution); 4 KiB tickets; 256 connections, two per
    /// peer so a simultaneous connect can be collapsed; 64 half-open each way;
    /// 256 buffered messages per session and 16 per gossip RPC; 32 envelopes a
    /// second per peer with a burst of 64; 8 MiB and ten minutes per relayed
    /// circuit, four per peer and 32 in all; 16 candidate addresses with 8
    /// observers each; 16 failing addresses; 64 sighted peers; 1024 queued
    /// events; ten-second port calls.
    pub fn shipped() -> (r: ResourceLimits)
        ensures
            r.max_envelope_bytes == 32768,
            r.max_ticket_bytes == 4096,
            r.max_established_connections == 256,
            r.max_established_per_peer == 2,
            r.max_pending_incoming == 64,
            r.max_pending_outgoing == 64,
            r.max_session_buffered_messages == 256,
            r.max_messages_per_rpc == 16,
            r.inbound_envelopes_per_second == 32,
            r.inbound_envelope_burst == 64,
            r.max_relay_circuit_bytes == 8388608,
            r.max_relay_circuit_duration == duration_of_secs(600),
            r.max_relay_circuits_per_peer == 4,
            r.max_relay_circuits == 32,
            r.max_candidate_addresses == 16,
            r.max_observers_per_address == 8,
            r.max_failing_addresses == 16,
            r.max_observed_peers == 64,
            r.event_queue_capacity == 1024,
            r.request_timeout == duration_of_secs(10),
    {
        ResourceLimits {
            max_envelope_bytes: 32 * 1024,
            max_ticket_bytes: 4 * 1024,
            max_established_connections: 256,
            max_established_per_peer: 2,
            max_pending_incoming: 64,
            max_pending_outgoing: 64,
            max_session_buffered_messages: 256,
            max_messages_per_rpc: 16,
            inbound_envelopes_per_second: 32,
            inbound_envelope_burst: 64,
            max_relay_circuit_bytes: 8 * 1024 * 1024,
            max_relay_circuit_duration: Duration::from_secs(600),
            max_relay_circuits_per_peer: 4,
            max_relay_circuits: 32,
            max_candidate_addresses: 16,
            max_observers_per_address: 8,
            max_failing_addresses: 16,
            max_observed_peers: 64,
            event_queue_capacity: 1024,
            request_timeout: Duration::from_secs(10),
        }
    }
}

impl Default for ResourceLimits {
    /// The shipped values.
    fn default() -> (r: ResourceLimits)
        ensures
            r.max_envelope_bytes == 32768,
            r.max_ticket_bytes == 4096,
            r.max_established_connections == 256,
            r.max_established_per_peer == 2,
            r.max_pending_incoming == 64,
            r.max_pending_outgoing == 64,
            r.max_session_buffered_messages == 256,
            r.max_messages_per_rpc == 16,
            r.inbound_envelopes_per_second == 32,
            r.inbound_envelope_burst == 64,
            r.max_relay_circuit_bytes == 8388608,
            r.max_relay_circuit_duration == duration_of_secs(600),
            r.max_relay_circuits_per_peer == 4,
            r.max_relay_circuits == 32,
            r.max_candidate_addresses == 16,
            r.max_observers_per_address == 8,
            r.max_failing_addresses == 16,
            r.max_observed_peers == 64,
            r.event_queue_capacity == 1024,
            r.request_timeout == duration_of_secs(10),
    {
        ResourceLimits::shipped()
    }
}

} // verus!
