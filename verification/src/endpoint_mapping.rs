//! Translation between the domain's endpoints and multiaddresses.
use vstd::prelude::*;
use crate::address::{Address, AddressPart, AddressView, has_circuit, multiaddr_reading};
use crate::domain::{AddressReachability, Endpoint, EndpointError, EndpointView, endpoint_error_text, endpoint_refusal};
use crate::text::{trim_text, trimmed};

verus! {

/// Why an address could not be mapped.
#[derive(Debug, Clone, Copy, PartialEq, Eq, Structural)]
pub enum EndpointMappingError {
    /// The text is not a well-formed multiaddress.
    MalformedAddress,
    /// The multiaddress is well formed but the domain refuses it as an
    /// endpoint.
    Rejected(EndpointError),
}

/// The sentence an [`EndpointMappingError`] is reported with.
pub open spec fn endpoint_mapping_error_text(e: EndpointMappingError) -> Seq<char> {
    match e {
        EndpointMappingError::MalformedAddress => "address is not a well-formed multiaddress"@,
        EndpointMappingError::Rejected(error) => endpoint_error_text(error),
    }
}

impl EndpointMappingError {
    /// The reason, as one sentence.
    pub fn describe(&self) -> (r: String)
        ensures
            r@ == endpoint_mapping_error_text(*self),
    {
        match self {
            EndpointMappingError::MalformedAddress => "address is not a well-formed multiaddress".to_owned(),
            EndpointMappingError::Rejected(error) => error.describe(),
        }
    }
}

/// How an address with these parts is reached: through a relay when it has
/// a circuit hop, directly otherwise.
pub open spec fn reachability_of_parts(parts: Seq<AddressPart>) -> AddressReachability {
    if has_circuit(parts) {
        AddressReachability::Relayed
    } else {
        AddressReachability::Direct
    }
}

/// The endpoint a multiaddress becomes: its canonical text, reached as its
/// parts say. An address with no components is malformed.
pub open spec fn endpoint_of(address: AddressView) -> Result<EndpointView, EndpointMappingError> {
    if address.parts.len() == 0 {
        Err(EndpointMappingError::MalformedAddress)
    } else {
        match endpoint_refusal(address.text) {
            Some(e) => Err(EndpointMappingError::Rejected(e)),
            None => Ok(EndpointView { address: address.text, reachability: reachability_of_parts(address.parts) }),
        }
    }
}

/// Whether `r` is `expected`, taking an endpoint by its view.
pub open spec fn endpoint_result_is(r: Result<Endpoint, EndpointMappingError>, expected: Result<EndpointView, EndpointMappingError>) -> bool {
    match r {
        Ok(e) => expected == Ok::<EndpointView, EndpointMappingError>(e@),
        Err(err) => expected == Err::<EndpointView, EndpointMappingError>(err),
    }
}

/// Translation between the domain's endpoints and the transport's
/// multiaddresses. Where the address came from (typed, pasted, read from a
/// ticket, reported by the swarm) makes no difference.
pub struct EndpointMapping;

impl EndpointMapping {
    /// The multiaddress an endpoint names.
    pub fn to_multiaddr(endpoint: &Endpoint) -> (r: Result<Address, EndpointMappingError>)
        ensures
            match multiaddr_reading(endpoint@.address) {
                Some(a) => r matches Ok(x) && x@ == a,
                None => r == Err::<Address, EndpointMappingError>(EndpointMappingError::MalformedAddress),
            },
    {
        match Address::parse(endpoint.address()) {
            Some(a) => Ok(a),
            None => Err(EndpointMappingError::MalformedAddress),
        }
    }

    /// The endpoint a multiaddress becomes.
    pub fn to_endpoint(address: &Address) -> (r: Result<Endpoint, EndpointMappingError>)
        ensures
            endpoint_result_is(r, endpoint_of(address@)),
    {
        if address.is_empty() {
            return Err(EndpointMappingError::MalformedAddress);
        }
        match Endpoint::new(address.text(), EndpointMapping::reachability_of(address)) {
            Ok(e) => Ok(e),
            Err(e) => Err(EndpointMappingError::Rejected(e)),
        }
    }

    /// Parses address text, surrounding whitespace ignored as a pasted
    /// address arrives with it.
    pub fn parse(text: &str) -> (r: Result<Endpoint, EndpointMappingError>)
        ensures
            match multiaddr_reading(trimmed(text@)) {
                Some(a) => endpoint_result_is(r, endpoint_of(a)),
                None => r == Err::<Endpoint, EndpointMappingError>(EndpointMappingError::MalformedAddress),
            },
    {
        let stripped = trim_text(text);
        match Address::parse(stripped) {
            Some(a) => EndpointMapping::to_endpoint(&a),
            None => Err(EndpointMappingError::MalformedAddress),
        }
    }

    /// How a multiaddress is reached.
    pub fn reachability_of(address: &Address) -> (r: AddressReachability)
        ensures
            r == reachability_of_parts(address@.parts),
    {
        if address.is_circuit() {
            AddressReachability::Relayed
        } else {
            AddressReachability::Direct
        }
    }
}

/// An address mapped to an endpoint maps back to the same address: the
/// endpoint's text reads as exactly the multiaddress it came from.
pub proof fn law_address_round_trips(address: AddressView)
    requires
        multiaddr_reading(address.text) == Some(address),
        endpoint_of(address) is Ok,
    ensures
        multiaddr_reading(endpoint_of(address)->Ok_0.address) == Some(address),
{
}

} // verus!
