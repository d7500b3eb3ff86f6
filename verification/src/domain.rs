//! The domain values this adapter carries across the wire: protocol
//! versions, envelopes, endpoints, join tickets, sessions.
use vstd::prelude::*;
use vstd::string::StringExecFns;
use crate::identity::PeerId;
use crate::text::{decimal, decimal_text, has_control_char, is_control};

verus! {

// ------------------------------------------------------------ versions

/// A wire protocol version. Peers of one major version can read each other;
/// a newer minor version only adds what an older reader may ignore.
#[derive(Clone, Copy, PartialEq, Eq, Debug, Hash, Structural)]
pub struct ProtocolVersion {
    pub major: u16,
    pub minor: u16,
}

impl ProtocolVersion {
    pub fn new(major: u16, minor: u16) -> (r: ProtocolVersion)
        ensures
            r.major == major,
            r.minor == minor,
    {
        ProtocolVersion { major, minor }
    }

    /// The version this build speaks.
    pub fn current() -> (r: ProtocolVersion)
        ensures
            r == spec_current_version(),
    {
        ProtocolVersion { major: 1, minor: 0 }
    }
}

/// The version this build speaks: 1.0.
pub open spec fn spec_current_version() -> ProtocolVersion {
    ProtocolVersion { major: 1, minor: 0 }
}

/// The tolerance rule's three answers about a received version.
#[derive(Clone, Copy, PartialEq, Eq, Debug, Structural)]
pub enum Compatibility {
    /// Same major, and nothing newer than this build.
    Accept,
    /// Same major, newer minor: readable, and counted.
    Tolerate,
    /// A different major version: an incompatible wire format.
    Reject,
}

/// The tolerance rule, stated once.
pub open spec fn compatibility(received: ProtocolVersion, supported: ProtocolVersion) -> Compatibility {
    if received.major != supported.major {
        Compatibility::Reject
    } else if received.minor > supported.minor {
        Compatibility::Tolerate
    } else {
        Compatibility::Accept
    }
}

impl Compatibility {
    /// How a build speaking `supported` treats something written in `received`.
    pub fn evaluate(received: ProtocolVersion, supported: ProtocolVersion) -> (r: Compatibility)
        ensures
            r == compatibility(received, supported),
    {
        if received.major != supported.major {
            Compatibility::Reject
        } else if received.minor > supported.minor {
            Compatibility::Tolerate
        } else {
            Compatibility::Accept
        }
    }
}

// ------------------------------------------------------------ envelopes

/// What an envelope carries. Codes this build has no name for are kept, so
/// forwarding such an envelope does not mangle it.
#[derive(Clone, Copy, PartialEq, Eq, Debug, Hash, Structural)]
pub enum PayloadKind {
    DirectMessage,
    BroadcastMessage,
    Heartbeat,
    Unknown(u16),
}

/// The kind a wire code denotes.
pub open spec fn kind_of_code(code: u16) -> PayloadKind {
    if code == 0 {
        PayloadKind::DirectMessage
    } else if code == 1 {
        PayloadKind::BroadcastMessage
    } else if code == 2 {
        PayloadKind::Heartbeat
    } else {
        PayloadKind::Unknown(code)
    }
}

/// The wire code of a kind.
pub open spec fn code_of_kind(kind: PayloadKind) -> u16 {
    match kind {
        PayloadKind::DirectMessage => 0,
        PayloadKind::BroadcastMessage => 1,
        PayloadKind::Heartbeat => 2,
        PayloadKind::Unknown(code) => code,
    }
}

/// A kind as it can arrive off the wire: an unknown kind never carries an
/// assigned code.
pub open spec fn is_wire_kind(kind: PayloadKind) -> bool {
    kind matches PayloadKind::Unknown(code) ==> code > 2
}

impl PayloadKind {
    pub fn from_code(code: u16) -> (r: PayloadKind)
        ensures
            r == kind_of_code(code),
    {
        if code == 0 {
            PayloadKind::DirectMessage
        } else if code == 1 {
            PayloadKind::BroadcastMessage
        } else if code == 2 {
            PayloadKind::Heartbeat
        } else {
            PayloadKind::Unknown(code)
        }
    }

    pub fn code(&self) -> (r: u16)
        ensures
            r == code_of_kind(*self),
    {
        match self {
            PayloadKind::DirectMessage => 0,
            PayloadKind::BroadcastMessage => 1,
            PayloadKind::Heartbeat => 2,
            PayloadKind::Unknown(code) => *code,
        }
    }

    pub fn is_unknown(&self) -> (r: bool)
        ensures
            r == (*self is Unknown),
    {
        match self {
            PayloadKind::Unknown(_) => true,
            _ => false,
        }
    }
}

/// Bytes in an Ed25519 signature.
pub const SIGNATURE_LENGTH: usize = 64;

/// An envelope's signature, carried opaquely.
#[derive(Clone, Copy, PartialEq, Eq, Debug, Hash)]
pub struct EnvelopeSignature {
    bytes: [u8; 64],
}

impl View for EnvelopeSignature {
    type V = Seq<u8>;

    closed spec fn view(&self) -> Seq<u8> {
        self.bytes@
    }
}

impl EnvelopeSignature {
    pub fn new(bytes: [u8; 64]) -> (r: EnvelopeSignature)
        ensures
            r@ == bytes@,
    {
        EnvelopeSignature { bytes }
    }

    pub fn as_bytes(&self) -> (r: &[u8; 64])
        ensures
            r@ == self@,
    {
        &self.bytes
    }

    /// Signatures with the same bytes are the same signature.
    pub proof fn lemma_view_injective(a: EnvelopeSignature, b: EnvelopeSignature)
        requires
            a@ == b@,
        ensures
            a == b,
    {
        assert(a.bytes@ =~= b.bytes@);
        broadcast use vstd::array::axiom_array_ext_equal;
        assert(a.bytes == b.bytes);
    }

    pub proof fn lemma_len(self)
        ensures
            self@.len() == SIGNATURE_LENGTH,
    {
    }
}

/// One signed message as it travels.
#[derive(Clone, PartialEq, Eq, Debug)]
pub struct Envelope {
    pub version: ProtocolVersion,
    pub kind: PayloadKind,
    pub author: PeerId,
    pub payload: Vec<u8>,
    pub signature: EnvelopeSignature,
}

/// The bytes a signature covers: major and minor version and kind code, each
/// big-endian, then the author key, then the payload.
pub open spec fn signing_input(envelope: Envelope) -> Seq<u8> {
    u16_be(envelope.version.major) + u16_be(envelope.version.minor) + u16_be(
        code_of_kind(envelope.kind),
    ) + envelope.author@ + envelope.payload@
}

/// The two big-endian bytes of `v`.
pub open spec fn u16_be(v: u16) -> Seq<u8> {
    seq![(v / 256) as u8, (v % 256) as u8]
}

impl Envelope {
    /// The signing input, in the fixed layout [`signing_input`] states.
    pub fn signable_bytes(&self) -> (r: Vec<u8>)
        ensures
            r@ == signing_input(*self),
    {
        let mut out: Vec<u8> = Vec::new();
        let major = self.version.major;
        let minor = self.version.minor;
        let code = self.kind.code();
        out.push((major / 256) as u8);
        out.push((major % 256) as u8);
        out.push((minor / 256) as u8);
        out.push((minor % 256) as u8);
        out.push((code / 256) as u8);
        out.push((code % 256) as u8);
        let key = self.author.as_bytes();
        let mut i: usize = 0;
        while i < 32
            invariant
                key@ == self.author@,
                key@.len() == 32,
                0 <= i <= 32,
                out@ == u16_be(major) + u16_be(minor) + u16_be(code) + key@.take(i as int),
            decreases 32 - i,
        {
            out.push(key[i]);
            i = i + 1;
            assert(out@ =~= u16_be(major) + u16_be(minor) + u16_be(code) + key@.take(i as int));
        }
        assert(key@.take(32) =~= key@);
        let mut j: usize = 0;
        while j < self.payload.len()
            invariant
                0 <= j <= self.payload@.len(),
                out@ == u16_be(major) + u16_be(minor) + u16_be(code) + self.author@
                    + self.payload@.take(j as int),
            decreases self.payload@.len() - j,
        {
            out.push(self.payload[j]);
            j = j + 1;
            assert(out@ =~= u16_be(major) + u16_be(minor) + u16_be(code) + self.author@
                + self.payload@.take(j as int));
        }
        assert(self.payload@.take(self.payload@.len() as int) =~= self.payload@);
        out
    }
}

// ------------------------------------------------------------ endpoints

/// How an address is reached: directly, or through a third peer's relay.
#[derive(Clone, Copy, PartialEq, Eq, Debug, Hash, Structural)]
pub enum AddressReachability {
    Direct,
    Relayed,
}

/// Longest address text an endpoint holds, in bytes.
pub const MAX_ADDRESS_BYTES: usize = 256;

/// Why text is not an endpoint.
#[derive(Clone, Copy, PartialEq, Eq, Debug, Structural)]
pub enum EndpointError {
    /// The address is empty.
    Empty,
    /// The address is longer than [`MAX_ADDRESS_BYTES`].
    TooLong,
    /// The address contains a control character.
    ControlCharacter,
}

/// The sentence an [`EndpointError`] is reported with.
pub open spec fn endpoint_error_text(e: EndpointError) -> Seq<char> {
    match e {
        EndpointError::Empty => "endpoint address is empty"@,
        EndpointError::TooLong => "endpoint address is longer than "@ + decimal_text(MAX_ADDRESS_BYTES as nat)
            + " bytes"@,
        EndpointError::ControlCharacter => "endpoint address contains a control character"@,
    }
}

impl EndpointError {
    /// The reason, as one sentence.
    pub fn describe(&self) -> (r: String)
        ensures
            r@ == endpoint_error_text(*self),
    {
        match self {
            EndpointError::Empty => "endpoint address is empty".to_owned(),
            EndpointError::TooLong => {
                let mut out = "endpoint address is longer than ".to_owned();
                out.append(decimal(MAX_ADDRESS_BYTES as u64).as_str());
                out.append(" bytes");
                out
            },
            EndpointError::ControlCharacter => "endpoint address contains a control character".to_owned(),
        }
    }
}

/// An address a peer can be dialled at, and how it is reached. Only the
/// textual bounds hold here; the address grammar belongs to the transport.
#[derive(Clone, PartialEq, Eq, Debug, Hash)]
pub struct Endpoint {
    address: String,
    reachability: AddressReachability,
}

/// The abstract value of an [`Endpoint`].
pub struct EndpointView {
    pub address: Seq<char>,
    pub reachability: AddressReachability,
}

impl View for Endpoint {
    type V = EndpointView;

    closed spec fn view(&self) -> EndpointView {
        EndpointView { address: self.address@, reachability: self.reachability }
    }
}

/// The length of `text` in UTF-8, as `str::len` reports it.
pub open spec fn byte_len(text: Seq<char>) -> nat {
    (vstd::utf8::encode_utf8(text).len() as usize) as nat
}

/// The refusal, if any, for endpoint text `text`: empty, longer than
/// [`MAX_ADDRESS_BYTES`] in UTF-8, or holding a control character.
pub open spec fn endpoint_refusal(text: Seq<char>) -> Option<EndpointError> {
    if text.len() == 0 {
        Some(EndpointError::Empty)
    } else if byte_len(text) > MAX_ADDRESS_BYTES {
        Some(EndpointError::TooLong)
    } else if exists|i: int| 0 <= i < text.len() && is_control(#[trigger] text[i]) {
        Some(EndpointError::ControlCharacter)
    } else {
        None
    }
}

impl Endpoint {
    /// An endpoint for `text`, refused when empty, longer than
    /// [`MAX_ADDRESS_BYTES`], or holding a control character.
    pub fn new(text: &str, reachability: AddressReachability) -> (r: Result<Endpoint, EndpointError>)
        ensures
            r matches Err(e) ==> endpoint_refusal(text@) == Some(e),
            r is Ok <==> endpoint_refusal(text@) is None,
            r matches Ok(e) ==> e@.address == text@ && e@.reachability == reachability,
    {
        if text.is_empty() {
            return Err(EndpointError::Empty);
        }
        if text.len() > MAX_ADDRESS_BYTES {
            return Err(EndpointError::TooLong);
        }
        if has_control_char(text) {
            return Err(EndpointError::ControlCharacter);
        }
        Ok(Endpoint { address: text.to_owned(), reachability })
    }

    /// A directly dialled endpoint.
    pub fn direct(text: &str) -> (r: Result<Endpoint, EndpointError>)
        ensures
            r is Ok <==> endpoint_refusal(text@) is None,
            r matches Ok(e) ==> e@.address == text@ && e@.reachability
                == AddressReachability::Direct,
    {
        Endpoint::new(text, AddressReachability::Direct)
    }

    /// An endpoint reached through a relay.
    pub fn relayed(text: &str) -> (r: Result<Endpoint, EndpointError>)
        ensures
            r is Ok <==> endpoint_refusal(text@) is None,
            r matches Ok(e) ==> e@.address == text@ && e@.reachability
                == AddressReachability::Relayed,
    {
        Endpoint::new(text, AddressReachability::Relayed)
    }

    pub fn address(&self) -> (r: &str)
        ensures
            r@ == self@.address,
    {
        self.address.as_str()
    }

    pub fn reachability(&self) -> (r: AddressReachability)
        ensures
            r == self@.reachability,
    {
        self.reachability
    }

    pub fn is_relayed(&self) -> (r: bool)
        ensures
            r == (self@.reachability == AddressReachability::Relayed),
    {
        self.reachability == AddressReachability::Relayed
    }

    /// Whether two endpoints have the same address and reachability.
    pub fn same_as(&self, other: &Endpoint) -> (r: bool)
        ensures
            r == (self@ == other@),
    {
        self.address == other.address && self.reachability == other.reachability
    }

    /// A copy of this endpoint.
    pub fn duplicate(&self) -> (r: Endpoint)
        ensures
            r@ == self@,
    {
        Endpoint { address: self.address.clone(), reachability: self.reachability }
    }
}

/// The views of a list of endpoints.
pub open spec fn endpoint_views(endpoints: Seq<Endpoint>) -> Seq<EndpointView> {
    endpoints.map_values(|e: Endpoint| e@)
}

/// Copies a list of endpoints.
pub fn duplicate_endpoints(endpoints: &[Endpoint]) -> (r: Vec<Endpoint>)
    ensures
        endpoint_views(r@) == endpoint_views(endpoints@),
{
    let mut out: Vec<Endpoint> = Vec::new();
    let mut i: usize = 0;
    while i < endpoints.len()
        invariant
            0 <= i <= endpoints@.len(),
            out@.len() == i,
            forall|k: int| 0 <= k < i ==> (#[trigger] out@[k])@ == endpoints@[k]@,
        decreases endpoints@.len() - i,
    {
        out.push(endpoints[i].duplicate());
        i = i + 1;
    }
    assert(endpoint_views(out@) =~= endpoint_views(endpoints@));
    out
}

/// Most endpoints the roster keeps for one peer; an adapter buffering more
/// would hold addresses that are discarded the moment they are used.
pub const KNOWN_PEER_MAX_ENDPOINTS: usize = 8;

// ------------------------------------------------------------ time

/// A reading on the shared millisecond timeline.
#[derive(Clone, Copy, PartialEq, Eq, PartialOrd, Ord, Debug, Hash, Structural)]
pub struct Millis {
    value: u64,
}

impl Millis {
    pub closed spec fn spec_millis(self) -> u64 {
        self.value
    }

    pub fn from_millis(value: u64) -> (r: Millis)
        ensures
            r.spec_millis() == value,
    {
        Millis { value }
    }

    pub fn as_millis(&self) -> (r: u64)
        ensures
            r == self.spec_millis(),
    {
        self.value
    }

    /// The start of the timeline.
    pub fn zero() -> (r: Millis)
        ensures
            r.spec_millis() == 0,
    {
        Millis { value: 0 }
    }

    /// The far end of the timeline.
    pub fn max() -> (r: Millis)
        ensures
            r.spec_millis() == u64::MAX,
    {
        Millis { value: u64::MAX }
    }
}

/// A span of milliseconds.
#[derive(Clone, Copy, PartialEq, Eq, Debug, Structural)]
pub struct DurationMillis {
    value: u64,
}

impl DurationMillis {
    pub closed spec fn spec_millis(self) -> u64 {
        self.value
    }

    pub fn from_millis(value: u64) -> (r: DurationMillis)
        ensures
            r.spec_millis() == value,
    {
        DurationMillis { value }
    }

    /// `secs` seconds, saturating at the largest span.
    pub fn from_secs(secs: u64) -> (r: DurationMillis)
        ensures
            r.spec_millis() == if secs * 1000 > u64::MAX { u64::MAX as int } else { secs * 1000 },
    {
        if secs > u64::MAX / 1000 {
            DurationMillis { value: u64::MAX }
        } else {
            DurationMillis { value: secs * 1000 }
        }
    }
}

// ------------------------------------------------------------ tickets

/// Why a join ticket cannot be made or redeemed.
#[derive(Clone, Copy, PartialEq, Eq, Debug, Structural)]
pub enum JoinTicketError {
    /// A ticket names at least one endpoint to dial.
    NoEndpoints,
    /// The ticket's expiry has passed.
    Expired,
    /// The ticket speaks a protocol this build cannot read.
    IncompatibleProtocol,
}

/// The sentence a [`JoinTicketError`] is reported with.
pub open spec fn join_ticket_error_text(e: JoinTicketError) -> Seq<char> {
    match e {
        JoinTicketError::NoEndpoints => "join ticket names no endpoint to dial"@,
        JoinTicketError::Expired => "join ticket has expired"@,
        JoinTicketError::IncompatibleProtocol => "join ticket speaks a protocol this build cannot read"@,
    }
}

impl JoinTicketError {
    /// The reason, as one sentence.
    pub fn describe(&self) -> (r: String)
        ensures
            r@ == join_ticket_error_text(*self),
    {
        match self {
            JoinTicketError::NoEndpoints => "join ticket names no endpoint to dial".to_owned(),
            JoinTicketError::Expired => "join ticket has expired".to_owned(),
            JoinTicketError::IncompatibleProtocol => "join ticket speaks a protocol this build cannot read".to_owned(),
        }
    }
}

/// Everything a stranger needs to make first contact: who to dial, where,
/// which protocol they speak, and until when the offer stands.
#[derive(PartialEq, Eq, Debug)]
pub struct JoinTicket {
    issuer: PeerId,
    endpoints: Vec<Endpoint>,
    protocol: ProtocolVersion,
    expires_at: Millis,
}

impl Clone for JoinTicket {
    fn clone(&self) -> (r: JoinTicket)
        ensures
            r.spec_issuer() == self.spec_issuer(),
            endpoint_views(r.spec_endpoints()) == endpoint_views(self.spec_endpoints()),
            r.spec_protocol() == self.spec_protocol(),
            r.spec_expires_at() == self.spec_expires_at(),
    {
        proof {
            use_type_invariant(self);
        }
        let endpoints = duplicate_endpoints(self.endpoints.as_slice());
        assert(endpoints@.len() == endpoint_views(endpoints@).len());
        JoinTicket {
            issuer: self.issuer,
            endpoints,
            protocol: self.protocol,
            expires_at: self.expires_at,
        }
    }
}

impl JoinTicket {
    /// Every ticket names at least one endpoint.
    #[verifier::type_invariant]
    pub closed spec fn inv(self) -> bool {
        self.endpoints@.len() > 0
    }

    /// What the invariant says, in terms of the accessors.
    pub proof fn lemma_has_endpoints(self)
        requires
            self.inv(),
        ensures
            self.spec_endpoints().len() > 0,
    {
    }

    pub closed spec fn spec_issuer(self) -> PeerId {
        self.issuer
    }

    pub closed spec fn spec_endpoints(self) -> Seq<Endpoint> {
        self.endpoints@
    }

    pub closed spec fn spec_protocol(self) -> ProtocolVersion {
        self.protocol
    }

    pub closed spec fn spec_expires_at(self) -> Millis {
        self.expires_at
    }

    /// A ticket; refused when it names no endpoint.
    pub fn new(issuer: PeerId, endpoints: Vec<Endpoint>, protocol: ProtocolVersion, expires_at: Millis) -> (r: Result<JoinTicket, JoinTicketError>)
        ensures
            r is Ok <==> endpoints@.len() > 0,
            r matches Err(e) ==> e == JoinTicketError::NoEndpoints,
            r matches Ok(t) ==> t.spec_issuer() == issuer && t.spec_endpoints() == endpoints@
                && t.spec_protocol() == protocol && t.spec_expires_at() == expires_at,
    {
        if endpoints.len() == 0 {
            Err(JoinTicketError::NoEndpoints)
        } else {
            Ok(JoinTicket { issuer, endpoints, protocol, expires_at })
        }
    }

    /// A ticket valid for `ttl` from `now`, saturating at the end of time.
    pub fn expiring_after(issuer: PeerId, endpoints: Vec<Endpoint>, protocol: ProtocolVersion, now: Millis, ttl: DurationMillis) -> (r: Result<JoinTicket, JoinTicketError>)
        ensures
            r is Ok <==> endpoints@.len() > 0,
            r matches Ok(t) ==> t.spec_issuer() == issuer && t.spec_endpoints() == endpoints@
                && t.spec_protocol() == protocol && t.spec_expires_at().spec_millis() == (if now.spec_millis() + ttl.spec_millis() > u64::MAX {
                    u64::MAX as int
                } else {
                    now.spec_millis() + ttl.spec_millis()
                }),
    {
        let expires = now.as_millis().saturating_add(ttl.value);
        JoinTicket::new(issuer, endpoints, protocol, Millis::from_millis(expires))
    }

    pub fn issuer(&self) -> (r: PeerId)
        ensures
            r == self.spec_issuer(),
    {
        self.issuer
    }

    pub fn endpoints(&self) -> (r: &[Endpoint])
        ensures
            r@ == self.spec_endpoints(),
    {
        self.endpoints.as_slice()
    }

    pub fn protocol(&self) -> (r: ProtocolVersion)
        ensures
            r == self.spec_protocol(),
    {
        self.protocol
    }

    pub fn expires_at(&self) -> (r: Millis)
        ensures
            r == self.spec_expires_at(),
    {
        self.expires_at
    }

    /// Whether the ticket may be redeemed at `now` by a build speaking
    /// `supported`: refused once its expiry is reached, or when its protocol is
    /// of another major version.
    pub fn validate(&self, now: Millis, supported: ProtocolVersion) -> (r: Result<(), JoinTicketError>)
        ensures
            now.spec_millis() >= self.spec_expires_at().spec_millis() ==> r == Err::<(), JoinTicketError>(JoinTicketError::Expired),
            now.spec_millis() < self.spec_expires_at().spec_millis() && compatibility(self.spec_protocol(), supported) == Compatibility::Reject
                ==> r == Err::<(), JoinTicketError>(JoinTicketError::IncompatibleProtocol),
            now.spec_millis() < self.spec_expires_at().spec_millis() && compatibility(self.spec_protocol(), supported) != Compatibility::Reject
                ==> r is Ok,
    {
        if now.value >= self.expires_at.value {
            return Err(JoinTicketError::Expired);
        }
        if let Compatibility::Reject = Compatibility::evaluate(self.protocol, supported) {
            return Err(JoinTicketError::IncompatibleProtocol);
        }
        Ok(())
    }
}

// ------------------------------------------------------------ sessions

/// Which side opened a link.
#[derive(Clone, Copy, PartialEq, Eq, Debug, Hash, Structural)]
pub enum SessionDirection {
    Inbound,
    Outbound,
}

/// The simultaneous-connect rule's decision: which of two links, one dialled
/// by each side, carries the session.
#[derive(Clone, Copy, PartialEq, Eq, Debug, Structural)]
pub struct SessionCollapse {
    survivor: SessionDirection,
}

/// Why a collapse cannot be decided.
#[derive(Clone, Copy, PartialEq, Eq, Debug, Structural)]
pub enum SessionCollapseError {
    /// Both sides are the same identity.
    SameIdentity,
}

/// The link the rule keeps: the one the lower identity dialled.
pub open spec fn collapse_survivor(local: Seq<u8>, remote: Seq<u8>) -> SessionDirection {
    if crate::identity::bytes_less(local, remote) {
        SessionDirection::Outbound
    } else {
        SessionDirection::Inbound
    }
}

impl SessionCollapse {
    pub closed spec fn spec_survivor(self) -> SessionDirection {
        self.survivor
    }

    /// Decides the collapse between `local` and `remote`. Both peers evaluate
    /// it over the same two keys and reach the same link.
    pub fn resolve(local: PeerId, remote: PeerId) -> (r: Result<SessionCollapse, SessionCollapseError>)
        ensures
            r is Err <==> local@ == remote@,
            r matches Ok(c) ==> c.spec_survivor() == collapse_survivor(local@, remote@),
    {
        if local.same_as(&remote) {
            return Err(SessionCollapseError::SameIdentity);
        }
        if local.precedes(&remote) {
            Ok(SessionCollapse { survivor: SessionDirection::Outbound })
        } else {
            Ok(SessionCollapse { survivor: SessionDirection::Inbound })
        }
    }

    pub fn survivor(&self) -> (r: SessionDirection)
        ensures
            r == self.spec_survivor(),
    {
        self.survivor
    }
}

// ------------------------------------------------------------ discovery

/// A peer discovery saw, and the endpoints it claimed.
#[derive(Clone, PartialEq, Eq, Debug)]
pub struct DiscoveredPeer {
    pub peer: PeerId,
    pub endpoints: Vec<Endpoint>,
}

} // verus!
