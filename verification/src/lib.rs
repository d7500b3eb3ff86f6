//! Verified core of the peer-to-peer network adapter: identities, addresses,
//! the wire codecs, the hostile-input caps, and the ledgers that decide what
//! this peer advertises and reports.

pub mod codec_diagnostics;
pub mod identity;
pub mod text;
pub mod address;
pub mod domain;
pub mod cbor;
pub mod resource_limits;
pub mod envelope_codec;
pub mod keyed;
pub mod inbound_rate_limiter;
pub mod external_address_ledger;
pub mod reachability_ledger;
pub mod sighting_ledger;
pub mod link_registry;
pub mod endpoint_mapping;
pub mod peer_id_mapping;
pub mod join_ticket_codec;
pub mod direct_message_codec;
pub mod network;
pub mod network_identity;
pub mod network_driver;
