//! The text form of a join ticket: a versioned prefix, then the base64url
//! (unpadded) encoding of a CBOR map of named fields.
use vstd::prelude::*;
use vstd::string::StringExecFns;
use crate::cbor::{Cbor, cbor_reading, cbor_writing, field_of, find_field, is_flat_record, read_cbor, write_cbor};
use crate::domain::{
    Endpoint, EndpointView, JoinTicket, JoinTicketError, Millis, ProtocolVersion, byte_len,
    join_ticket_error_text,
    endpoint_views,
};
use crate::endpoint_mapping::{EndpointMapping, EndpointMappingError, endpoint_mapping_error_text, endpoint_of};
use crate::envelope_codec::to_key;
use crate::identity::{PeerId, is_valid_ed25519_key};
use crate::resource_limits::ResourceLimits;
use crate::text::{decimal, decimal_text, strip_text_prefix, trim_text, trimmed};
use crate::address::multiaddr_reading;

verus! {

/// What every join ticket starts with; the `1` versions the text format
/// itself, independently of the protocol version inside.
pub const TICKET_PREFIX: &'static str = "distro-join-1.";

pub const FIELD_ISSUER: &'static str = "issuer";
pub const FIELD_ENDPOINTS: &'static str = "endpoints";
pub const FIELD_PROTOCOL_MAJOR: &'static str = "protocol_major";
pub const FIELD_PROTOCOL_MINOR: &'static str = "protocol_minor";
pub const FIELD_EXPIRES_AT_MILLIS: &'static str = "expires_at_millis";

// ------------------------------------------------------------ base64url

/// The URL-safe base64 character for the six-bit value `sextet`.
pub open spec fn base64url_digit(sextet: int) -> char {
    if sextet < 26 {
        (65 + sextet) as char
    } else if sextet < 52 {
        (97 + sextet - 26) as char
    } else if sextet < 62 {
        (48 + sextet - 52) as char
    } else if sextet == 62 {
        '-'
    } else {
        '_'
    }
}

/// The base64url (RFC 4648 §5) encoding of `bytes`, without padding, as the
/// `base64` crate's `URL_SAFE_NO_PAD` engine writes it: every three bytes
/// become four characters, six bits each, most significant first; a last
/// one or two bytes become two or three characters, the unused low bits
/// zero.
pub open spec fn base64url_encoding(bytes: Seq<u8>) -> Seq<char>
    decreases bytes.len(),
{
    if bytes.len() == 0 {
        Seq::empty()
    } else if bytes.len() == 1 {
        seq![base64url_digit((bytes[0] as int) / 4), base64url_digit(((bytes[0] as int) % 4) * 16)]
    } else if bytes.len() == 2 {
        seq![
            base64url_digit((bytes[0] as int) / 4),
            base64url_digit(((bytes[0] as int) % 4) * 16 + (bytes[1] as int) / 16),
            base64url_digit(((bytes[1] as int) % 16) * 4),
        ]
    } else {
        seq![
            base64url_digit((bytes[0] as int) / 4),
            base64url_digit(((bytes[0] as int) % 4) * 16 + (bytes[1] as int) / 16),
            base64url_digit(((bytes[1] as int) % 16) * 4 + (bytes[2] as int) / 64),
            base64url_digit((bytes[2] as int) % 64),
        ] + base64url_encoding(bytes.skip(3))
    }
}

/// What the `URL_SAFE_NO_PAD` engine decodes `text` to; `None` when it
/// refuses the text.
pub uninterp spec fn base64url_reading(text: Seq<char>) -> Option<Seq<u8>>;

/// A character of the URL-safe base64 alphabet.
pub open spec fn is_base64url_char(c: char) -> bool {
    ('A' <= c <= 'Z') || ('a' <= c <= 'z') || ('0' <= c <= '9') || c == '-' || c == '_'
}

/// Encodes `bytes` with `base64::engine::general_purpose::URL_SAFE_NO_PAD`.
///
/// The contract states the text the engine writes, and that the same engine
/// decodes it back to `bytes`.
#[verifier::external_body]
fn base64url_encode(bytes: &[u8]) -> (r: String)
    ensures
        r@ == base64url_encoding(bytes@),
        base64url_reading(r@) == Some(bytes@),
{
    base64::Engine::encode(&base64::engine::general_purpose::URL_SAFE_NO_PAD, bytes)
}

/// Every character of an encoding is of the URL-safe alphabet.
pub proof fn lemma_encoding_alphabet(bytes: Seq<u8>)
    ensures
        forall|i: int|
            0 <= i < base64url_encoding(bytes).len() ==> is_base64url_char(#[trigger] base64url_encoding(bytes)[i]),
    decreases bytes.len(),
{
    let e = base64url_encoding(bytes);
    assert forall|s: int| 0 <= s < 64 implies is_base64url_char(#[trigger] base64url_digit(s)) by {}
    if bytes.len() >= 3 {
        lemma_encoding_alphabet(bytes.skip(3));
        let head = seq![
            base64url_digit((bytes[0] as int) / 4),
            base64url_digit(((bytes[0] as int) % 4) * 16 + (bytes[1] as int) / 16),
            base64url_digit(((bytes[1] as int) % 16) * 4 + (bytes[2] as int) / 64),
            base64url_digit((bytes[2] as int) % 64),
        ];
        let tail = base64url_encoding(bytes.skip(3));
        assert forall|i: int| 0 <= i < e.len() implies is_base64url_char(#[trigger] e[i]) by {
            if i >= 4 {
                assert(e[i] == tail[i - 4]);
            }
        }
    }
}

/// Decodes `text` with `base64::engine::general_purpose::URL_SAFE_NO_PAD`.
/// The contract names the result.
#[verifier::external_body]
fn base64url_decode(text: &str) -> (r: Option<Vec<u8>>)
    ensures
        match r {
            Some(bytes) => base64url_reading(text@) == Some(bytes@),
            None => base64url_reading(text@) is None,
        },
{
    base64::Engine::decode(&base64::engine::general_purpose::URL_SAFE_NO_PAD, text).ok()
}

// ------------------------------------------------------------ the format

/// Why text is not a join ticket. Each variant is a distinct reason a user
/// can act on.
#[derive(Debug, Clone, Copy, PartialEq, Eq)]
pub enum JoinTicketCodecError {
    /// The text exceeds the size cap; refused before any decoding.
    TooLarge { bytes: usize, limit: usize },
    /// The text does not start with a prefix this build reads.
    MissingPrefix,
    /// The body is not valid base64url.
    NotBase64,
    /// The body is not well-formed CBOR.
    MalformedCbor,
    /// The body is CBOR but not a map of named fields.
    NotAMap,
    /// A required field is absent.
    MissingField(&'static str),
    /// A field has the wrong CBOR type.
    FieldType(&'static str),
    /// A field's value is out of range.
    FieldRange(&'static str),
    /// The issuer is not a valid Ed25519 public key.
    InvalidIssuer,
    /// An endpoint is not a usable address.
    Endpoint(EndpointMappingError),
    /// The domain refuses the ticket.
    Rejected(JoinTicketError),
}

/// The sentence a [`JoinTicketCodecError`] is reported with.
pub open spec fn join_ticket_codec_error_text(e: JoinTicketCodecError) -> Seq<char> {
    match e {
        JoinTicketCodecError::TooLarge { bytes, limit } => "join ticket text is "@ + decimal_text(bytes as nat)
            + " bytes, refused before decoding at the "@ + decimal_text(limit as nat) + "-byte cap"@,
        JoinTicketCodecError::MissingPrefix => "text does not start with a join-ticket prefix this build knows how to read"@,
        JoinTicketCodecError::NotBase64 => "join ticket body is not valid base64url; it may have been truncated"@,
        JoinTicketCodecError::MalformedCbor => "join ticket body is not well-formed CBOR"@,
        JoinTicketCodecError::NotAMap => "join ticket body is CBOR but not a map of named fields"@,
        JoinTicketCodecError::MissingField(name) => "join ticket has no `"@ + name@ + "` field"@,
        JoinTicketCodecError::FieldType(name) => "join ticket field `"@ + name@ + "` has the wrong CBOR type"@,
        JoinTicketCodecError::FieldRange(name) => "join ticket field `"@ + name@ + "` is out of range"@,
        JoinTicketCodecError::InvalidIssuer => "join ticket issuer is not a valid Ed25519 public key"@,
        JoinTicketCodecError::Endpoint(error) => "join ticket endpoint is unusable: "@ + endpoint_mapping_error_text(error),
        JoinTicketCodecError::Rejected(error) => join_ticket_error_text(error),
    }
}

impl JoinTicketCodecError {
    /// The reason, as one sentence a user can act on.
    pub fn describe(&self) -> (r: String)
        ensures
            r@ == join_ticket_codec_error_text(*self),
    {
        match *self {
            JoinTicketCodecError::TooLarge { bytes, limit } => {
                let mut out = "join ticket text is ".to_owned();
                out.append(decimal(bytes as u64).as_str());
                out.append(" bytes, refused before decoding at the ");
                out.append(decimal(limit as u64).as_str());
                out.append("-byte cap");
                out
            },
            JoinTicketCodecError::MissingPrefix => "text does not start with a join-ticket prefix this build knows how to read".to_owned(),
            JoinTicketCodecError::NotBase64 => "join ticket body is not valid base64url; it may have been truncated".to_owned(),
            JoinTicketCodecError::MalformedCbor => "join ticket body is not well-formed CBOR".to_owned(),
            JoinTicketCodecError::NotAMap => "join ticket body is CBOR but not a map of named fields".to_owned(),
            JoinTicketCodecError::MissingField(name) => {
                let mut out = "join ticket has no `".to_owned();
                out.append(name);
                out.append("` field");
                out
            },
            JoinTicketCodecError::FieldType(name) => {
                let mut out = "join ticket field `".to_owned();
                out.append(name);
                out.append("` has the wrong CBOR type");
                out
            },
            JoinTicketCodecError::FieldRange(name) => {
                let mut out = "join ticket field `".to_owned();
                out.append(name);
                out.append("` is out of range");
                out
            },
            JoinTicketCodecError::InvalidIssuer => "join ticket issuer is not a valid Ed25519 public key".to_owned(),
            JoinTicketCodecError::Endpoint(error) => {
                let mut out = "join ticket endpoint is unusable: ".to_owned();
                out.append(error.describe().as_str());
                out
            },
            JoinTicketCodecError::Rejected(error) => error.describe(),
        }
    }
}

/// The abstract value of a ticket.
pub struct TicketView {
    pub issuer: Seq<u8>,
    pub endpoints: Seq<EndpointView>,
    pub protocol: ProtocolVersion,
    pub expires_at: u64,
}

/// The abstract value of `ticket`.
pub open spec fn ticket_view(ticket: JoinTicket) -> TicketView {
    TicketView {
        issuer: ticket.spec_issuer()@,
        endpoints: endpoint_views(ticket.spec_endpoints()),
        protocol: ticket.spec_protocol(),
        expires_at: ticket.spec_expires_at().spec_millis(),
    }
}

/// What reading the unsigned 64-bit field `name` gives.
pub open spec fn u64_field(entries: Seq<(Cbor, Cbor)>, name: &'static str) -> Result<u64, JoinTicketCodecError> {
    match field_of(entries, name@) {
        None => Err(JoinTicketCodecError::MissingField(name)),
        Some(Cbor::Integer(i)) => if 0 <= i <= u64::MAX {
            Ok(i as u64)
        } else {
            Err(JoinTicketCodecError::FieldRange(name))
        },
        Some(_) => Err(JoinTicketCodecError::FieldType(name)),
    }
}

/// What reading the unsigned 16-bit field `name` gives: a 64-bit field, then
/// in range.
pub open spec fn ticket_u16_field(entries: Seq<(Cbor, Cbor)>, name: &'static str) -> Result<u16, JoinTicketCodecError> {
    match u64_field(entries, name) {
        Err(e) => Err(e),
        Ok(v) => if v <= u16::MAX {
            Ok(v as u16)
        } else {
            Err(JoinTicketCodecError::FieldRange(name))
        },
    }
}

/// The issuer a record names: a 32-byte byte string that is a valid key.
pub open spec fn issuer_field(entries: Seq<(Cbor, Cbor)>) -> Result<Seq<u8>, JoinTicketCodecError> {
    match field_of(entries, FIELD_ISSUER@) {
        None => Err(JoinTicketCodecError::MissingField(FIELD_ISSUER)),
        Some(Cbor::Bytes(b)) => if b@.len() == 32 && is_valid_ed25519_key(b@) {
            Ok(b@)
        } else {
            Err(JoinTicketCodecError::InvalidIssuer)
        },
        Some(_) => Err(JoinTicketCodecError::FieldType(FIELD_ISSUER)),
    }
}

/// What parsing endpoint text gives, surrounding white space ignored.
pub open spec fn parsed_endpoint(text: Seq<char>) -> Result<EndpointView, EndpointMappingError> {
    match multiaddr_reading(trimmed(text)) {
        None => Err(EndpointMappingError::MalformedAddress),
        Some(address) => endpoint_of(address),
    }
}

/// The endpoints an array of address texts gives, or the first refusal.
pub open spec fn parsed_endpoints(items: Seq<Cbor>) -> Result<Seq<EndpointView>, JoinTicketCodecError>
    decreases items.len(),
{
    if items.len() == 0 {
        Ok(Seq::empty())
    } else {
        match parsed_endpoints(items.drop_last()) {
            Err(e) => Err(e),
            Ok(earlier) => match items.last() {
                Cbor::Text(text) => match parsed_endpoint(text@) {
                    Ok(endpoint) => Ok(earlier.push(endpoint)),
                    Err(e) => Err(JoinTicketCodecError::Endpoint(e)),
                },
                _ => Err(JoinTicketCodecError::FieldType(FIELD_ENDPOINTS)),
            },
        }
    }
}

/// The endpoints a record names.
pub open spec fn endpoints_field(entries: Seq<(Cbor, Cbor)>) -> Result<Seq<EndpointView>, JoinTicketCodecError> {
    match field_of(entries, FIELD_ENDPOINTS@) {
        None => Err(JoinTicketCodecError::MissingField(FIELD_ENDPOINTS)),
        Some(Cbor::Array(items)) => parsed_endpoints(items@),
        Some(_) => Err(JoinTicketCodecError::FieldType(FIELD_ENDPOINTS)),
    }
}

/// The ticket a map of named fields describes, or the first refusal, in the
/// order the fields are read: issuer, endpoints, protocol, expiry, then the
/// domain's own rule.
pub open spec fn ticket_from_entries(entries: Seq<(Cbor, Cbor)>) -> Result<TicketView, JoinTicketCodecError> {
    match issuer_field(entries) {
        Err(e) => Err(e),
        Ok(issuer) => match endpoints_field(entries) {
            Err(e) => Err(e),
            Ok(endpoints) => match ticket_u16_field(entries, FIELD_PROTOCOL_MAJOR) {
                Err(e) => Err(e),
                Ok(major) => match ticket_u16_field(entries, FIELD_PROTOCOL_MINOR) {
                    Err(e) => Err(e),
                    Ok(minor) => match u64_field(entries, FIELD_EXPIRES_AT_MILLIS) {
                        Err(e) => Err(e),
                        Ok(expires_at) => if endpoints.len() == 0 {
                            Err(JoinTicketCodecError::Rejected(JoinTicketError::NoEndpoints))
                        } else {
                            Ok(
                                TicketView {
                                    issuer,
                                    endpoints,
                                    protocol: ProtocolVersion { major, minor },
                                    expires_at,
                                },
                            )
                        },
                    },
                },
            },
        },
    }
}

/// What decoding ticket text gives under a cap of `max` bytes: surrounding
/// white space ignored, the cap checked on the byte count alone before
/// anything is decoded, then prefix, base64url, CBOR, fields.
pub open spec fn ticket_decoding(text: Seq<char>, max: usize) -> Result<TicketView, JoinTicketCodecError> {
    let t = trimmed(text);
    if byte_len(t) > max {
        Err(JoinTicketCodecError::TooLarge { bytes: byte_len(t) as usize, limit: max })
    } else if !TICKET_PREFIX@.is_prefix_of(t) {
        Err(JoinTicketCodecError::MissingPrefix)
    } else {
        match base64url_reading(t.skip(TICKET_PREFIX@.len() as int)) {
            None => Err(JoinTicketCodecError::NotBase64),
            Some(body) => match cbor_reading(body) {
                None => Err(JoinTicketCodecError::MalformedCbor),
                Some(Cbor::Dict(entries)) => ticket_from_entries(entries@),
                Some(_) => Err(JoinTicketCodecError::NotAMap),
            },
        }
    }
}

/// Whether `r` is `expected`, taking a ticket by its view.
pub open spec fn ticket_result_is(r: Result<JoinTicket, JoinTicketCodecError>, expected: Result<TicketView, JoinTicketCodecError>) -> bool {
    match r {
        Ok(t) => expected == Ok::<TicketView, JoinTicketCodecError>(ticket_view(t)),
        Err(e) => expected == Err::<TicketView, JoinTicketCodecError>(e),
    }
}

/// Whether `record` is how `ticket` is written: a map of its five named
/// fields, in order, the endpoints as their address texts.
pub open spec fn is_ticket_record(record: Cbor, ticket: JoinTicket) -> bool {
    record matches Cbor::Dict(entries) && {
        let e = entries@;
        let endpoints = ticket.spec_endpoints();
        &&& e.len() == 5
        &&& e[0].0 matches Cbor::Text(k) && k@ == FIELD_ISSUER@
        &&& e[0].1 matches Cbor::Bytes(b) && b@ == ticket.spec_issuer()@
        &&& e[1].0 matches Cbor::Text(k) && k@ == FIELD_ENDPOINTS@
        &&& e[1].1 matches Cbor::Array(items) && items@.len() == endpoints.len() && (forall|i: int|
            0 <= i < items@.len() ==> ((#[trigger] items@[i]) matches Cbor::Text(t) && t@
                == endpoints[i]@.address))
        &&& e[2].0 matches Cbor::Text(k) && k@ == FIELD_PROTOCOL_MAJOR@
        &&& e[2].1 == Cbor::Integer(ticket.spec_protocol().major as i128)
        &&& e[3].0 matches Cbor::Text(k) && k@ == FIELD_PROTOCOL_MINOR@
        &&& e[3].1 == Cbor::Integer(ticket.spec_protocol().minor as i128)
        &&& e[4].0 matches Cbor::Text(k) && k@ == FIELD_EXPIRES_AT_MILLIS@
        &&& e[4].1 == Cbor::Integer(ticket.spec_expires_at().spec_millis() as i128)
    }
}

/// Whether `text` is how `ticket` is written: the prefix, then the base64url
/// encoding of the CBOR of its record; the CBOR reads back as the record and
/// the base64url decodes back to the CBOR.
pub open spec fn is_ticket_text(text: Seq<char>, ticket: JoinTicket) -> bool {
    exists|record: Cbor|
        #![trigger cbor_writing(record)]
        {
            let body = cbor_writing(record);
            let encoded = base64url_encoding(body);
            &&& is_ticket_record(record, ticket)
            &&& cbor_reading(body) == Some(record)
            &&& base64url_reading(encoded) == Some(body)
            &&& forall|i: int| 0 <= i < encoded.len() ==> is_base64url_char(#[trigger] encoded[i])
            &&& text == TICKET_PREFIX@ + encoded
        }
}

fn read_u64(entries: &[(Cbor, Cbor)], name: &'static str) -> (r: Result<u64, JoinTicketCodecError>)
    ensures
        r == u64_field(entries@, name),
{
    match find_field(entries, name) {
        None => Err(JoinTicketCodecError::MissingField(name)),
        Some(Cbor::Integer(i)) => {
            if 0 <= *i && *i <= 18446744073709551615 {
                Ok(*i as u64)
            } else {
                Err(JoinTicketCodecError::FieldRange(name))
            }
        },
        Some(_) => Err(JoinTicketCodecError::FieldType(name)),
    }
}

fn read_u16(entries: &[(Cbor, Cbor)], name: &'static str) -> (r: Result<u16, JoinTicketCodecError>)
    ensures
        r == ticket_u16_field(entries@, name),
{
    let wide = read_u64(entries, name)?;
    if wide <= 65535 {
        Ok(wide as u16)
    } else {
        Err(JoinTicketCodecError::FieldRange(name))
    }
}

fn read_issuer(entries: &[(Cbor, Cbor)]) -> (r: Result<PeerId, JoinTicketCodecError>)
    ensures
        match issuer_field(entries@) {
            Ok(key) => r matches Ok(p) && p@ == key,
            Err(e) => r == Err::<PeerId, JoinTicketCodecError>(e),
        },
{
    match find_field(entries, FIELD_ISSUER) {
        None => Err(JoinTicketCodecError::MissingField(FIELD_ISSUER)),
        Some(Cbor::Bytes(bytes)) => {
            if bytes.len() != 32 {
                return Err(JoinTicketCodecError::InvalidIssuer);
            }
            match PeerId::from_public_key_bytes(to_key(bytes.as_slice())) {
                Ok(issuer) => Ok(issuer),
                Err(_) => Err(JoinTicketCodecError::InvalidIssuer),
            }
        },
        Some(_) => Err(JoinTicketCodecError::FieldType(FIELD_ISSUER)),
    }
}

/// A refusal among the first `k` addresses is the refusal for the whole list.
proof fn lemma_parsed_endpoints_error_persists(items: Seq<Cbor>, k: int)
    requires
        0 <= k <= items.len(),
    ensures
        parsed_endpoints(items.take(k)) is Err ==> parsed_endpoints(items) == parsed_endpoints(items.take(k)),
    decreases items.len() - k,
{
    if k < items.len() {
        lemma_parsed_endpoints_error_persists(items, k + 1);
        assert(items.take(k + 1).drop_last() =~= items.take(k));
    } else {
        assert(items.take(k) =~= items);
    }
}

fn read_endpoints(entries: &[(Cbor, Cbor)]) -> (r: Result<Vec<Endpoint>, JoinTicketCodecError>)
    ensures
        match endpoints_field(entries@) {
            Ok(views) => r matches Ok(endpoints) && endpoint_views(endpoints@) == views,
            Err(e) => r == Err::<Vec<Endpoint>, JoinTicketCodecError>(e),
        },
{
    let items = match find_field(entries, FIELD_ENDPOINTS) {
        None => {
            return Err(JoinTicketCodecError::MissingField(FIELD_ENDPOINTS));
        },
        Some(Cbor::Array(items)) => items,
        Some(_) => {
            return Err(JoinTicketCodecError::FieldType(FIELD_ENDPOINTS));
        },
    };
    let mut endpoints: Vec<Endpoint> = Vec::new();
    let mut i: usize = 0;
    assert(items@.take(0) =~= Seq::<Cbor>::empty());
    assert(endpoint_views(endpoints@) =~= Seq::<EndpointView>::empty());
    while i < items.len()
        invariant
            0 <= i <= items@.len(),
            endpoints_field(entries@) == parsed_endpoints(items@),
            parsed_endpoints(items@.take(i as int)) == Ok::<Seq<EndpointView>, JoinTicketCodecError>(
                endpoint_views(endpoints@),
            ),
        decreases items@.len() - i,
    {
        assert(items@.take(i + 1).drop_last() =~= items@.take(i as int));
        assert(items@.take(i + 1).last() == items@[i as int]);
        proof {
            lemma_parsed_endpoints_error_persists(items@, i + 1);
        }
        match &items[i] {
            Cbor::Text(text) => match EndpointMapping::parse(text.as_str()) {
                Ok(endpoint) => {
                    let ghost before = endpoints@;
                    endpoints.push(endpoint);
                    assert(endpoint_views(endpoints@) =~= endpoint_views(before).push(endpoint@));
                },
                Err(e) => {
                    return Err(JoinTicketCodecError::Endpoint(e));
                },
            },
            _ => {
                return Err(JoinTicketCodecError::FieldType(FIELD_ENDPOINTS));
            },
        }
        i = i + 1;
    }
    assert(items@.take(items@.len() as int) =~= items@);
    Ok(endpoints)
}

/// The text form of join tickets.
pub struct JoinTicketCodec;

impl JoinTicketCodec {
    /// What every ticket's text starts with.
    pub fn prefix() -> (r: &'static str)
        ensures
            r@ == TICKET_PREFIX@,
    {
        TICKET_PREFIX
    }

    /// Writes `ticket` as text a user can paste.
    pub fn encode(ticket: &JoinTicket) -> (r: String)
        ensures
            is_ticket_text(r@, *ticket),
    {
        proof {
            use_type_invariant(ticket);
        }
        let issuer = ticket.issuer();
        let listed = ticket.endpoints();
        let mut addresses: Vec<Cbor> = Vec::new();
        let mut i: usize = 0;
        while i < listed.len()
            invariant
                0 <= i <= listed@.len(),
                listed@ == ticket.spec_endpoints(),
                addresses@.len() == i,
                forall|j: int|
                    0 <= j < i ==> ((#[trigger] addresses@[j]) matches Cbor::Text(t) && t@
                        == listed@[j]@.address),
            decreases listed@.len() - i,
        {
            addresses.push(Cbor::Text(listed[i].address().to_owned()));
            i = i + 1;
        }
        let protocol = ticket.protocol();
        let mut entries: Vec<(Cbor, Cbor)> = Vec::new();
        entries.push((Cbor::Text(FIELD_ISSUER.to_owned()), Cbor::Bytes(vstd::slice::slice_to_vec(issuer.as_bytes()))));
        entries.push((Cbor::Text(FIELD_ENDPOINTS.to_owned()), Cbor::Array(addresses)));
        entries.push((Cbor::Text(FIELD_PROTOCOL_MAJOR.to_owned()), Cbor::Integer(protocol.major as i128)));
        entries.push((Cbor::Text(FIELD_PROTOCOL_MINOR.to_owned()), Cbor::Integer(protocol.minor as i128)));
        entries.push((Cbor::Text(FIELD_EXPIRES_AT_MILLIS.to_owned()), Cbor::Integer(ticket.expires_at().as_millis() as i128)));
        let record = Cbor::Dict(entries);
        proof {
            assert(is_ticket_record(record, *ticket));
            assert(is_flat_record(record));
        }
        let body = match write_cbor(&record) {
            Some(body) => body,
            None => Vec::new(),
        };
        let encoded = base64url_encode(body.as_slice());
        let text = TICKET_PREFIX.to_owned().concat(encoded.as_str());
        assert(is_ticket_text(text@, *ticket)) by {
            assert(body@ == cbor_writing(record));
            lemma_encoding_alphabet(body@);
        }
        text
    }

    /// Reads a ticket out of text, under the shipped size cap.
    pub fn decode(text: &str) -> (r: Result<JoinTicket, JoinTicketCodecError>)
        ensures
            ticket_result_is(r, ticket_decoding(text@, 4096)),
    {
        JoinTicketCodec::decode_within(text, ResourceLimits::shipped())
    }

    /// Reads a ticket out of text under `limits`. Surrounding white space is
    /// ignored; the size cap is checked first, on the byte count alone.
    pub fn decode_within(text: &str, limits: ResourceLimits) -> (r: Result<JoinTicket, JoinTicketCodecError>)
        ensures
            ticket_result_is(r, ticket_decoding(text@, limits.max_ticket_bytes)),
    {
        let stripped = trim_text(text);
        if stripped.len() > limits.max_ticket_bytes {
            return Err(JoinTicketCodecError::TooLarge { bytes: stripped.len(), limit: limits.max_ticket_bytes });
        }
        let encoded = match strip_text_prefix(stripped, TICKET_PREFIX) {
            Some(encoded) => encoded,
            None => {
                return Err(JoinTicketCodecError::MissingPrefix);
            },
        };
        let body = match base64url_decode(encoded) {
            Some(body) => body,
            None => {
                return Err(JoinTicketCodecError::NotBase64);
            },
        };
        let value = match read_cbor(body.as_slice()) {
            Some(value) => value,
            None => {
                return Err(JoinTicketCodecError::MalformedCbor);
            },
        };
        match value {
            Cbor::Dict(entries) => JoinTicketCodec::ticket_from_record(entries.as_slice()),
            _ => Err(JoinTicketCodecError::NotAMap),
        }
    }

    /// The ticket a map of named fields describes.
    fn ticket_from_record(entries: &[(Cbor, Cbor)]) -> (r: Result<JoinTicket, JoinTicketCodecError>)
        ensures
            ticket_result_is(r, ticket_from_entries(entries@)),
    {
        let issuer = read_issuer(entries)?;
        let endpoints = read_endpoints(entries)?;
        let major = read_u16(entries, FIELD_PROTOCOL_MAJOR)?;
        let minor = read_u16(entries, FIELD_PROTOCOL_MINOR)?;
        let expires_at = read_u64(entries, FIELD_EXPIRES_AT_MILLIS)?;
        let ghost views = endpoint_views(endpoints@);
        assert(views.len() == endpoints@.len());
        match JoinTicket::new(issuer, endpoints, ProtocolVersion::new(major, minor), Millis::from_millis(expires_at)) {
            Ok(ticket) => Ok(ticket),
            Err(e) => Err(JoinTicketCodecError::Rejected(e)),
        }
    }
}

/// Parsing the address texts of endpoints that are canonical multiaddresses
/// gives the endpoints back.
proof fn lemma_parsed_endpoints_of_ticket(items: Seq<Cbor>, endpoints: Seq<Endpoint>)
    requires
        items.len() == endpoints.len(),
        forall|i: int|
            0 <= i < items.len() ==> ((#[trigger] items[i]) matches Cbor::Text(t) && t@
                == endpoints[i]@.address),
        forall|i: int|
            0 <= i < endpoints.len() ==> parsed_endpoint((#[trigger] endpoints[i])@.address) == Ok::<
                EndpointView,
                EndpointMappingError,
            >(endpoints[i]@),
    ensures
        parsed_endpoints(items) == Ok::<Seq<EndpointView>, JoinTicketCodecError>(endpoint_views(endpoints)),
    decreases items.len(),
{
    if items.len() > 0 {
        let fewer = items.drop_last();
        let shorter = endpoints.drop_last();
        assert forall|i: int| 0 <= i < fewer.len() implies ((#[trigger] fewer[i]) matches Cbor::Text(t)
            && t@ == shorter[i]@.address) by {
            assert(fewer[i] == items[i] && shorter[i] == endpoints[i]);
        }
        assert forall|i: int| 0 <= i < shorter.len() implies parsed_endpoint(
            (#[trigger] shorter[i])@.address,
        ) == Ok::<EndpointView, EndpointMappingError>(shorter[i]@) by {
            assert(shorter[i] == endpoints[i]);
        }
        lemma_parsed_endpoints_of_ticket(fewer, shorter);
        let last = items.len() - 1;
        assert(items.last() == items[last]);
        assert(parsed_endpoint(endpoints[last]@.address) == Ok::<EndpointView, EndpointMappingError>(
            endpoints[last]@,
        ));
        assert(endpoint_views(endpoints) =~= endpoint_views(shorter).push(endpoints[last]@));
    } else {
        assert(endpoint_views(endpoints) =~= Seq::<EndpointView>::empty());
    }
}

/// Decoding what encoding wrote gives the ticket back: for a ticket whose
/// endpoints are canonical multiaddresses (as the endpoint mapping produces
/// them), text that encoding produced decodes, under any cap it fits, to the
/// same issuer, endpoints, protocol and expiry.
pub proof fn law_decode_inverts_encode(ticket: JoinTicket, text: Seq<char>, max: usize)
    requires
        is_ticket_text(text, ticket),
        byte_len(text) <= max,
        ticket.inv(),
        ticket.spec_issuer().inv(),
        forall|i: int|
            0 <= i < ticket.spec_endpoints().len() ==> parsed_endpoint(
                (#[trigger] ticket.spec_endpoints()[i])@.address,
            ) == Ok::<EndpointView, EndpointMappingError>(ticket.spec_endpoints()[i]@),
    ensures
        ticket_decoding(text, max) == Ok::<TicketView, JoinTicketCodecError>(ticket_view(ticket)),
{
    let record = choose|record: Cbor|
        #![trigger cbor_writing(record)]
        {
            let body = cbor_writing(record);
            let encoded = base64url_encoding(body);
            &&& is_ticket_record(record, ticket)
            &&& cbor_reading(body) == Some(record)
            &&& base64url_reading(encoded) == Some(body)
            &&& forall|i: int| 0 <= i < encoded.len() ==> is_base64url_char(#[trigger] encoded[i])
            &&& text == TICKET_PREFIX@ + encoded
        };
    let body = cbor_writing(record);
    let encoded = base64url_encoding(body);
    reveal_strlit("distro-join-1.");
    reveal_strlit("issuer");
    reveal_strlit("endpoints");
    reveal_strlit("protocol_major");
    reveal_strlit("protocol_minor");
    reveal_strlit("expires_at_millis");
    let prefix = TICKET_PREFIX@;
    assert(prefix.len() == 14);
    assert(text[0] == prefix[0]);
    assert(!crate::text::is_white_space(text[0]));
    assert(crate::text::trim_start(text) == text);
    if encoded.len() > 0 {
        assert(text.last() == encoded.last());
        assert(is_base64url_char(encoded[encoded.len() - 1]));
    } else {
        assert(text.last() == prefix.last());
    }
    assert(trimmed(text) == text);
    assert(text.take(14) =~= prefix);
    assert(prefix.is_prefix_of(text));
    assert(text.skip(14) =~= encoded);
    let entries = record->Dict_0@;
    reveal_with_fuel(field_of, 6);
    let e1 = entries.drop_first();
    let e2 = e1.drop_first();
    let e3 = e2.drop_first();
    let e4 = e3.drop_first();
    assert(e1[0] == entries[1] && e2[0] == entries[2] && e3[0] == entries[3] && e4[0] == entries[4]);
    let n0 = FIELD_ISSUER@;
    let n1 = FIELD_ENDPOINTS@;
    let n2 = FIELD_PROTOCOL_MAJOR@;
    let n3 = FIELD_PROTOCOL_MINOR@;
    let n4 = FIELD_EXPIRES_AT_MILLIS@;
    assert(n0.len() != n1.len() && n0.len() != n2.len() && n0.len() != n3.len() && n0.len() != n4.len());
    assert(n1.len() != n2.len() && n1.len() != n3.len() && n1.len() != n4.len());
    assert(n2[10] != n3[10] && n2.len() != n4.len() && n3.len() != n4.len());
    assert(field_of(entries, n0) == Some(entries[0].1));
    assert(field_of(entries, n1) == Some(entries[1].1));
    assert(field_of(entries, n2) == Some(entries[2].1));
    assert(field_of(entries, n3) == Some(entries[3].1));
    assert(field_of(entries, n4) == Some(entries[4].1));
    ticket.spec_issuer().lemma_valid();
    ticket.lemma_has_endpoints();
    let items = entries[1].1->Array_0@;
    lemma_parsed_endpoints_of_ticket(items, ticket.spec_endpoints());
    assert(endpoint_views(ticket.spec_endpoints()).len() == ticket.spec_endpoints().len());
}

/// Leading white space before `z` is trimmed away whatever `z` is.
proof fn lemma_trim_start_skips(pre: Seq<char>, z: Seq<char>)
    requires
        forall|i: int| 0 <= i < pre.len() ==> crate::text::is_white_space(#[trigger] pre[i]),
    ensures
        crate::text::trim_start(pre + z) == crate::text::trim_start(z),
    decreases pre.len(),
{
    if pre.len() > 0 {
        assert((pre + z)[0] == pre[0]);
        assert((pre + z).drop_first() =~= pre.drop_first() + z);
        lemma_trim_start_skips(pre.drop_first(), z);
    } else {
        assert(pre + z =~= z);
    }
}

/// Trailing white space after `y` is trimmed away whatever `y` is.
proof fn lemma_trim_end_skips(y: Seq<char>, post: Seq<char>)
    requires
        forall|i: int| 0 <= i < post.len() ==> crate::text::is_white_space(#[trigger] post[i]),
    ensures
        crate::text::trim_end(y + post) == crate::text::trim_end(y),
    decreases post.len(),
{
    if post.len() > 0 {
        assert((y + post).last() == post.last());
        assert((y + post).drop_last() =~= y + post.drop_last());
        lemma_trim_end_skips(y, post.drop_last());
    } else {
        assert(y + post =~= y);
    }
}

/// Ticket text neither starts nor ends with white space: it opens with the
/// prefix and closes on a base64url character or the prefix's final dot.
proof fn lemma_ticket_text_has_no_surrounding_white_space(ticket: JoinTicket, text: Seq<char>)
    requires
        is_ticket_text(text, ticket),
    ensures
        text.len() > 0,
        !crate::text::is_white_space(text[0]),
        !crate::text::is_white_space(text.last()),
{
    let record = choose|record: Cbor|
        #![trigger cbor_writing(record)]
        {
            let body = cbor_writing(record);
            let encoded = base64url_encoding(body);
            &&& is_ticket_record(record, ticket)
            &&& cbor_reading(body) == Some(record)
            &&& base64url_reading(encoded) == Some(body)
            &&& forall|i: int| 0 <= i < encoded.len() ==> is_base64url_char(#[trigger] encoded[i])
            &&& text == TICKET_PREFIX@ + encoded
        };
    let encoded = base64url_encoding(cbor_writing(record));
    reveal_strlit("distro-join-1.");
    let prefix = TICKET_PREFIX@;
    assert(text[0] == prefix[0]);
    if encoded.len() > 0 {
        assert(text.last() == encoded.last());
        assert(is_base64url_char(encoded[encoded.len() - 1]));
    } else {
        assert(text.last() == prefix.last());
    }
}

/// White space around ticket text changes nothing: text that encoding
/// produced, padded before and after with white space, decodes under any cap
/// the text itself fits to the same ticket.
pub proof fn law_decode_ignores_surrounding_white_space(
    ticket: JoinTicket,
    text: Seq<char>,
    pre: Seq<char>,
    post: Seq<char>,
    max: usize,
)
    requires
        is_ticket_text(text, ticket),
        byte_len(text) <= max,
        ticket.inv(),
        ticket.spec_issuer().inv(),
        forall|i: int|
            0 <= i < ticket.spec_endpoints().len() ==> parsed_endpoint(
                (#[trigger] ticket.spec_endpoints()[i])@.address,
            ) == Ok::<EndpointView, EndpointMappingError>(ticket.spec_endpoints()[i]@),
        forall|i: int| 0 <= i < pre.len() ==> crate::text::is_white_space(#[trigger] pre[i]),
        forall|i: int| 0 <= i < post.len() ==> crate::text::is_white_space(#[trigger] post[i]),
    ensures
        ticket_decoding(pre + text + post, max) == Ok::<TicketView, JoinTicketCodecError>(ticket_view(ticket)),
{
    law_decode_inverts_encode(ticket, text, max);
    lemma_ticket_text_has_no_surrounding_white_space(ticket, text);
    assert(pre + text + post =~= pre + (text + post));
    lemma_trim_start_skips(pre, text + post);
    assert((text + post)[0] == text[0]);
    assert(crate::text::trim_start(text + post) == text + post);
    lemma_trim_end_skips(text, post);
    assert(crate::text::trim_start(text) == text);
    assert(crate::text::trim_end(text) == text);
    assert(trimmed(pre + text + post) == trimmed(text));
}

} // verus!
