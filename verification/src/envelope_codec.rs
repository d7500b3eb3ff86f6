//! The wire encoding of an envelope: CBOR with named fields, tolerant of the
//! fields it does not know.
use vstd::prelude::*;
use vstd::string::StringExecFns;
use crate::text::{decimal, decimal_text};
use crate::cbor::{
    Cbor, cbor_reading, cbor_writing, count_unknown, field_of, find_field, is_flat_record, read_cbor,
    unknown_count, write_cbor,
};
use crate::codec_diagnostics::{CodecDiagnostics, DiagnosticsView, SharedCounters, bumped};
use crate::domain::{
    Compatibility, Envelope, EnvelopeSignature, PayloadKind, ProtocolVersion, code_of_kind,
    compatibility, is_wire_kind, kind_of_code, signing_input,
};
use crate::identity::{PeerId, is_valid_ed25519_key};
use crate::resource_limits::ResourceLimits;

verus! {

/// Field names on the wire. Adding a name is a minor protocol change;
/// renaming or removing one is a major change.
pub const FIELD_VERSION_MAJOR: &'static str = "version_major";
pub const FIELD_VERSION_MINOR: &'static str = "version_minor";
pub const FIELD_KIND: &'static str = "kind";
pub const FIELD_AUTHOR: &'static str = "author";
pub const FIELD_PAYLOAD: &'static str = "payload";
pub const FIELD_SIGNATURE: &'static str = "signature";

/// Every field this build has a name for.
pub open spec fn known_envelope_fields() -> Seq<Seq<char>> {
    seq![
        FIELD_VERSION_MAJOR@,
        FIELD_VERSION_MINOR@,
        FIELD_KIND@,
        FIELD_AUTHOR@,
        FIELD_PAYLOAD@,
        FIELD_SIGNATURE@,
    ]
}

/// Why a frame off the wire is not an envelope, or an envelope could not be
/// written. Each variant is a distinct, loggable reason.
#[derive(Debug, Clone, Copy, PartialEq, Eq)]
pub enum EnvelopeCodecError {
    /// The frame exceeds the size cap; detected from the byte count alone.
    TooLarge { bytes: usize, limit: usize },
    /// The bytes are not well-formed CBOR.
    MalformedCbor,
    /// The bytes decoded, but not to a map of named fields.
    NotAMap,
    /// A required field is absent.
    MissingField(&'static str),
    /// A field is present with the wrong CBOR type.
    FieldType(&'static str),
    /// A field's value is outside the range its type allows.
    FieldRange(&'static str),
    /// A different major version: an incompatible wire format.
    IncompatibleMajor { received: ProtocolVersion, supported: ProtocolVersion },
    /// The author is not a valid Ed25519 public key.
    InvalidAuthor,
    /// The signature is not 64 bytes.
    InvalidSignature,
    /// The payload alone exceeds what an envelope may carry.
    PayloadTooLarge { bytes: usize, limit: usize },
    /// The envelope could not be written out.
    EncodeFailed,
}

/// The sentence an [`EnvelopeCodecError`] is reported with.
pub open spec fn envelope_error_text(e: EnvelopeCodecError) -> Seq<char> {
    match e {
        EnvelopeCodecError::TooLarge { bytes, limit } => "envelope frame is "@ + decimal_text(
            bytes as nat,
        ) + " bytes, refused before decoding at the "@ + decimal_text(limit as nat)
            + "-byte cap"@,
        EnvelopeCodecError::MalformedCbor => "envelope frame is not well-formed CBOR"@,
        EnvelopeCodecError::NotAMap => "envelope frame is CBOR but not a map of named fields"@,
        EnvelopeCodecError::MissingField(name) => "envelope frame has no `"@ + name@ + "` field"@,
        EnvelopeCodecError::FieldType(name) => "envelope field `"@ + name@
            + "` has the wrong CBOR type"@,
        EnvelopeCodecError::FieldRange(name) => "envelope field `"@ + name@ + "` is out of range"@,
        EnvelopeCodecError::IncompatibleMajor { received, supported } => "envelope speaks protocol "@
            + decimal_text(received.major as nat) + "."@ + decimal_text(received.minor as nat)
            + " and this build speaks "@ + decimal_text(supported.major as nat) + "."@
            + decimal_text(supported.minor as nat)
            + "; a different major version is an incompatible wire format"@,
        EnvelopeCodecError::InvalidAuthor => "envelope author is not a valid Ed25519 public key"@,
        EnvelopeCodecError::InvalidSignature => "envelope signature is not 64 bytes"@,
        EnvelopeCodecError::PayloadTooLarge { bytes, limit } => "envelope payload is "@
            + decimal_text(bytes as nat) + " bytes, over the "@ + decimal_text(limit as nat)
            + "-byte cap"@,
        EnvelopeCodecError::EncodeFailed => "envelope could not be encoded"@,
    }
}

impl EnvelopeCodecError {
    /// The reason, as one sentence a log line or a user can read.
    pub fn describe(&self) -> (r: String)
        ensures
            r@ == envelope_error_text(*self),
    {
        match *self {
            EnvelopeCodecError::TooLarge { bytes, limit } => {
                let mut out = "envelope frame is ".to_owned();
                out.append(decimal(bytes as u64).as_str());
                out.append(" bytes, refused before decoding at the ");
                out.append(decimal(limit as u64).as_str());
                out.append("-byte cap");
                out
            },
            EnvelopeCodecError::MalformedCbor => "envelope frame is not well-formed CBOR".to_owned(),
            EnvelopeCodecError::NotAMap => "envelope frame is CBOR but not a map of named fields".to_owned(),
            EnvelopeCodecError::MissingField(name) => {
                let mut out = "envelope frame has no `".to_owned();
                out.append(name);
                out.append("` field");
                out
            },
            EnvelopeCodecError::FieldType(name) => {
                let mut out = "envelope field `".to_owned();
                out.append(name);
                out.append("` has the wrong CBOR type");
                out
            },
            EnvelopeCodecError::FieldRange(name) => {
                let mut out = "envelope field `".to_owned();
                out.append(name);
                out.append("` is out of range");
                out
            },
            EnvelopeCodecError::IncompatibleMajor { received, supported } => {
                let mut out = "envelope speaks protocol ".to_owned();
                out.append(decimal(received.major as u64).as_str());
                out.append(".");
                out.append(decimal(received.minor as u64).as_str());
                out.append(" and this build speaks ");
                out.append(decimal(supported.major as u64).as_str());
                out.append(".");
                out.append(decimal(supported.minor as u64).as_str());
                out.append("; a different major version is an incompatible wire format");
                out
            },
            EnvelopeCodecError::InvalidAuthor => "envelope author is not a valid Ed25519 public key".to_owned(),
            EnvelopeCodecError::InvalidSignature => "envelope signature is not 64 bytes".to_owned(),
            EnvelopeCodecError::PayloadTooLarge { bytes, limit } => {
                let mut out = "envelope payload is ".to_owned();
                out.append(decimal(bytes as u64).as_str());
                out.append(" bytes, over the ");
                out.append(decimal(limit as u64).as_str());
                out.append("-byte cap");
                out
            },
            EnvelopeCodecError::EncodeFailed => "envelope could not be encoded".to_owned(),
        }
    }
}

/// What reading the 16-bit field `name` gives.
pub open spec fn u16_field(entries: Seq<(Cbor, Cbor)>, name: &'static str) -> Result<
    u16,
    EnvelopeCodecError,
> {
    match field_of(entries, name@) {
        None => Err(EnvelopeCodecError::MissingField(name)),
        Some(Cbor::Integer(i)) => if 0 <= i <= u16::MAX {
            Ok(i as u16)
        } else {
            Err(EnvelopeCodecError::FieldRange(name))
        },
        Some(_) => Err(EnvelopeCodecError::FieldType(name)),
    }
}

/// What reading the byte-string field `name` gives.
pub open spec fn bytes_field(entries: Seq<(Cbor, Cbor)>, name: &'static str) -> Result<
    Seq<u8>,
    EnvelopeCodecError,
> {
    match field_of(entries, name@) {
        None => Err(EnvelopeCodecError::MissingField(name)),
        Some(Cbor::Bytes(b)) => Ok(b@),
        Some(_) => Err(EnvelopeCodecError::FieldType(name)),
    }
}

/// The version a record declares, when both of its fields read.
pub open spec fn record_version(entries: Seq<(Cbor, Cbor)>) -> ProtocolVersion {
    ProtocolVersion {
        major: u16_field(entries, FIELD_VERSION_MAJOR)->Ok_0,
        minor: u16_field(entries, FIELD_VERSION_MINOR)->Ok_0,
    }
}

/// Whether a record's version reads and is of the supported major version:
/// the point past which the record is judged at all.
pub open spec fn passes_version(entries: Seq<(Cbor, Cbor)>, supported: ProtocolVersion) -> bool {
    &&& u16_field(entries, FIELD_VERSION_MAJOR) is Ok
    &&& u16_field(entries, FIELD_VERSION_MINOR) is Ok
    &&& compatibility(record_version(entries), supported) != Compatibility::Reject
}

/// Why a map of named fields is not an envelope, in the order the rule
/// checks: version first (a build that cannot read the format cannot judge
/// the contents), then kind, author, signature, payload.
pub open spec fn record_refusal(entries: Seq<(Cbor, Cbor)>, supported: ProtocolVersion, max: usize) -> Option<EnvelopeCodecError> {
    let major = u16_field(entries, FIELD_VERSION_MAJOR);
    let minor = u16_field(entries, FIELD_VERSION_MINOR);
    let kind = u16_field(entries, FIELD_KIND);
    let author = bytes_field(entries, FIELD_AUTHOR);
    let signature = bytes_field(entries, FIELD_SIGNATURE);
    let payload = bytes_field(entries, FIELD_PAYLOAD);
    if major is Err {
        Some(major->Err_0)
    } else if minor is Err {
        Some(minor->Err_0)
    } else if compatibility(record_version(entries), supported) == Compatibility::Reject {
        Some(EnvelopeCodecError::IncompatibleMajor { received: record_version(entries), supported })
    } else if kind is Err {
        Some(kind->Err_0)
    } else if author is Err {
        Some(author->Err_0)
    } else if author->Ok_0.len() != 32 || !is_valid_ed25519_key(author->Ok_0) {
        Some(EnvelopeCodecError::InvalidAuthor)
    } else if signature is Err {
        Some(signature->Err_0)
    } else if signature->Ok_0.len() != 64 {
        Some(EnvelopeCodecError::InvalidSignature)
    } else if payload is Err {
        Some(payload->Err_0)
    } else if payload->Ok_0.len() > max {
        Some(EnvelopeCodecError::PayloadTooLarge { bytes: payload->Ok_0.len() as usize, limit: max })
    } else {
        None
    }
}

/// Why a frame is not an envelope, if it is not one.
pub open spec fn decode_refusal(frame: Seq<u8>, supported: ProtocolVersion, max: usize) -> Option<EnvelopeCodecError> {
    if frame.len() > max {
        Some(EnvelopeCodecError::TooLarge { bytes: frame.len() as usize, limit: max })
    } else {
        match cbor_reading(frame) {
            None => Some(EnvelopeCodecError::MalformedCbor),
            Some(Cbor::Dict(entries)) => record_refusal(entries@, supported, max),
            Some(_) => Some(EnvelopeCodecError::NotAMap),
        }
    }
}

/// The entries of a frame that reads as a map.
pub open spec fn frame_entries(frame: Seq<u8>) -> Seq<(Cbor, Cbor)> {
    cbor_reading(frame)->Some_0->Dict_0@
}

/// Whether `envelope` is what the fields of an accepted record say.
pub open spec fn envelope_from_record(entries: Seq<(Cbor, Cbor)>, envelope: Envelope) -> bool {
    &&& envelope.version == record_version(entries)
    &&& envelope.kind == kind_of_code(u16_field(entries, FIELD_KIND)->Ok_0)
    &&& envelope.author@ == bytes_field(entries, FIELD_AUTHOR)->Ok_0
    &&& envelope.signature@ == bytes_field(entries, FIELD_SIGNATURE)->Ok_0
    &&& envelope.payload@ == bytes_field(entries, FIELD_PAYLOAD)->Ok_0
}

/// Whether a record's kind field reads, as a code this build has no name for.
pub open spec fn declares_unknown_kind(entries: Seq<(Cbor, Cbor)>) -> bool {
    u16_field(entries, FIELD_KIND) matches Ok(code) && kind_of_code(code) is Unknown
}

/// The counters after decoding `frame`: an oversize frame counts as that and
/// nothing else; otherwise a refusal for the major version counts as
/// rejected and any other refusal as malformed, and a record that passed the
/// version check also counts a newer minor version, each field this build has
/// no name for, and (once its kind reads) an unknown kind.
pub open spec fn diagnostics_after_decode(d: DiagnosticsView, frame: Seq<u8>, supported: ProtocolVersion, max: usize) -> DiagnosticsView {
    if frame.len() > max {
        DiagnosticsView { oversize_frames: bumped(d.oversize_frames, 1), ..d }
    } else {
        let refusal = decode_refusal(frame, supported, max);
        let is_record = cbor_reading(frame) matches Some(Cbor::Dict(_));
        let entries = frame_entries(frame);
        let judged = is_record && passes_version(entries, supported);
        let tolerated = judged && compatibility(record_version(entries), supported)
            == Compatibility::Tolerate;
        let unknown = if judged {
            unknown_count(entries, known_envelope_fields())
        } else {
            0
        };
        let unknown_kind = judged && declares_unknown_kind(entries);
        DiagnosticsView {
            tolerated_minor: if tolerated {
                bumped(d.tolerated_minor, 1)
            } else {
                d.tolerated_minor
            },
            unknown_fields: bumped(d.unknown_fields, unknown as u64),
            unknown_payload_kinds: if unknown_kind {
                bumped(d.unknown_payload_kinds, 1)
            } else {
                d.unknown_payload_kinds
            },
            rejected_major: if refusal matches Some(EnvelopeCodecError::IncompatibleMajor { .. }) {
                bumped(d.rejected_major, 1)
            } else {
                d.rejected_major
            },
            malformed_frames: if refusal is Some && !(refusal matches Some(
                EnvelopeCodecError::IncompatibleMajor { .. },
            )) {
                bumped(d.malformed_frames, 1)
            } else {
                d.malformed_frames
            },
            ..d
        }
    }
}

/// Whether `record` is the map an envelope is written as: its six named
/// fields, in order.
pub open spec fn is_envelope_record(record: Cbor, envelope: Envelope) -> bool {
    record matches Cbor::Dict(entries) && {
        let e = entries@;
        &&& e.len() == 6
        &&& e[0].0 matches Cbor::Text(k) && k@ == FIELD_VERSION_MAJOR@
        &&& e[0].1 == Cbor::Integer(envelope.version.major as i128)
        &&& e[1].0 matches Cbor::Text(k) && k@ == FIELD_VERSION_MINOR@
        &&& e[1].1 == Cbor::Integer(envelope.version.minor as i128)
        &&& e[2].0 matches Cbor::Text(k) && k@ == FIELD_KIND@
        &&& e[2].1 == Cbor::Integer(code_of_kind(envelope.kind) as i128)
        &&& e[3].0 matches Cbor::Text(k) && k@ == FIELD_AUTHOR@
        &&& e[3].1 matches Cbor::Bytes(b) && b@ == envelope.author@
        &&& e[4].0 matches Cbor::Text(k) && k@ == FIELD_PAYLOAD@
        &&& e[4].1 matches Cbor::Bytes(b) && b@ == envelope.payload@
        &&& e[5].0 matches Cbor::Text(k) && k@ == FIELD_SIGNATURE@
        &&& e[5].1 matches Cbor::Bytes(b) && b@ == envelope.signature@
    }
}

/// Whether `frame` is how `envelope` is written: the CBOR of its record, which
/// reads back as that record.
pub open spec fn is_envelope_frame(frame: Seq<u8>, envelope: Envelope) -> bool {
    exists|record: Cbor|
        #![trigger cbor_writing(record)]
        is_envelope_record(record, envelope) && frame == cbor_writing(record) && cbor_reading(
            frame,
        ) == Some(record)
}

/// A payload kind survives the round trip through its code.
proof fn lemma_kind_code_round_trip(kind: PayloadKind)
    requires
        is_wire_kind(kind),
    ensures
        kind_of_code(code_of_kind(kind)) == kind,
{
}

/// Decoding what encoding wrote gives the envelope back: for any envelope of
/// a wire kind whose author is a valid identity, a frame that encoding
/// produced (so within the cap) decodes, under any supported version of the
/// same major, to the same version, kind, author, payload, and signature.
pub proof fn law_decode_inverts_encode(envelope: Envelope, frame: Seq<u8>, supported: ProtocolVersion, max: usize)
    requires
        is_envelope_frame(frame, envelope),
        frame.len() <= max,
        envelope.payload@.len() <= max,
        envelope.author.inv(),
        is_wire_kind(envelope.kind),
        compatibility(envelope.version, supported) != Compatibility::Reject,
    ensures
        decode_refusal(frame, supported, max) is None,
        envelope_from_record(frame_entries(frame), envelope),
{
    let record = choose|record: Cbor|
        #![trigger cbor_writing(record)]
        is_envelope_record(record, envelope) && frame == cbor_writing(record) && cbor_reading(frame)
            == Some(record);
    let entries = record->Dict_0@;
    reveal_strlit("version_major");
    reveal_strlit("version_minor");
    reveal_strlit("kind");
    reveal_strlit("author");
    reveal_strlit("payload");
    reveal_strlit("signature");
    reveal_with_fuel(field_of, 7);
    envelope.author.lemma_valid();
    envelope.signature.lemma_len();
    lemma_kind_code_round_trip(envelope.kind);
    let names = known_envelope_fields();
    assert(names[0] != names[1] && names[0] != names[2] && names[0] != names[3] && names[0]
        != names[4] && names[0] != names[5]) by {
        assert(names[0].len() != names[2].len() && names[0].len() != names[3].len()
            && names[0].len() != names[4].len() && names[0].len() != names[5].len());
        assert(names[0][9] != names[1][9]);
    }
    assert(names[1] != names[2] && names[1] != names[3] && names[1] != names[4] && names[1]
        != names[5]) by {
        assert(names[1].len() != names[2].len() && names[1].len() != names[3].len()
            && names[1].len() != names[4].len() && names[1].len() != names[5].len());
    }
    assert(names[2] != names[3] && names[2] != names[4] && names[2] != names[5]) by {
        assert(names[2].len() != names[3].len() && names[2].len() != names[4].len()
            && names[2].len() != names[5].len());
    }
    assert(names[3] != names[4] && names[3] != names[5]) by {
        assert(names[3][0] != names[4][0] && names[3].len() != names[5].len());
    }
    assert(names[4] != names[5]) by {
        assert(names[4].len() != names[5].len());
    }
    let e1 = entries.drop_first();
    let e2 = e1.drop_first();
    let e3 = e2.drop_first();
    let e4 = e3.drop_first();
    let e5 = e4.drop_first();
    assert(e1[0] == entries[1] && e2[0] == entries[2] && e3[0] == entries[3] && e4[0]
        == entries[4] && e5[0] == entries[5]);
    assert(field_of(entries, FIELD_VERSION_MAJOR@) == Some(entries[0].1));
    assert(field_of(entries, FIELD_VERSION_MINOR@) == Some(entries[1].1));
    assert(field_of(entries, FIELD_KIND@) == Some(entries[2].1));
    assert(field_of(entries, FIELD_AUTHOR@) == Some(entries[3].1));
    assert(field_of(entries, FIELD_PAYLOAD@) == Some(entries[4].1));
    assert(field_of(entries, FIELD_SIGNATURE@) == Some(entries[5].1));
    assert(record_version(entries) == envelope.version);
}

/// The codec never touches what a signature covers: an envelope decoded from
/// a frame that encoding wrote has the same signing input, and the same
/// signature, as the envelope that was encoded, so a signature made before
/// the envelope travelled still verifies after.
pub proof fn law_signing_input_survives(
    envelope: Envelope,
    frame: Seq<u8>,
    supported: ProtocolVersion,
    max: usize,
    decoded: Envelope,
)
    requires
        is_envelope_frame(frame, envelope),
        frame.len() <= max,
        envelope.payload@.len() <= max,
        envelope.author.inv(),
        is_wire_kind(envelope.kind),
        compatibility(envelope.version, supported) != Compatibility::Reject,
        envelope_from_record(frame_entries(frame), decoded),
    ensures
        signing_input(decoded) == signing_input(envelope),
        decoded.signature@ == envelope.signature@,
{
    law_decode_inverts_encode(envelope, frame, supported, max);
}

/// The wire encoding of an envelope, speaking one protocol version, bounded by
/// one set of limits, counting into one set of diagnostics.
#[derive(Clone)]
pub struct EnvelopeCodec {
    supported: ProtocolVersion,
    limits: ResourceLimits,
    diagnostics: CodecDiagnostics,
}

fn read_u16(entries: &[(Cbor, Cbor)], name: &'static str) -> (r: Result<u16, EnvelopeCodecError>)
    ensures
        r == u16_field(entries@, name),
{
    match find_field(entries, name) {
        None => Err(EnvelopeCodecError::MissingField(name)),
        Some(Cbor::Integer(i)) => {
            if 0 <= *i && *i <= 65535 {
                Ok(*i as u16)
            } else {
                Err(EnvelopeCodecError::FieldRange(name))
            }
        },
        Some(_) => Err(EnvelopeCodecError::FieldType(name)),
    }
}

fn read_bytes<'a>(entries: &'a [(Cbor, Cbor)], name: &'static str) -> (r: Result<&'a [u8], EnvelopeCodecError>)
    ensures
        r matches Ok(b) ==> bytes_field(entries@, name) == Ok::<Seq<u8>, EnvelopeCodecError>(b@),
        r matches Err(e) ==> bytes_field(entries@, name) == Err::<Seq<u8>, EnvelopeCodecError>(e),
{
    match find_field(entries, name) {
        None => Err(EnvelopeCodecError::MissingField(name)),
        Some(Cbor::Bytes(bytes)) => Ok(bytes.as_slice()),
        Some(_) => Err(EnvelopeCodecError::FieldType(name)),
    }
}

pub(crate) fn to_key(bytes: &[u8]) -> (r: [u8; 32])
    requires
        bytes@.len() == 32,
    ensures
        r@ == bytes@,
{
    let mut key = [0u8; 32];
    let mut i: usize = 0;
    while i < 32
        invariant
            bytes@.len() == 32,
            0 <= i <= 32,
            key@.len() == 32,
            forall|j: int| 0 <= j < i ==> key@[j] == bytes@[j],
        decreases 32 - i,
    {
        key[i] = bytes[i];
        i = i + 1;
    }
    assert(key@ =~= bytes@);
    key
}

fn to_signature(bytes: &[u8]) -> (r: [u8; 64])
    requires
        bytes@.len() == 64,
    ensures
        r@ == bytes@,
{
    let mut signature = [0u8; 64];
    let mut i: usize = 0;
    while i < 64
        invariant
            bytes@.len() == 64,
            0 <= i <= 64,
            signature@.len() == 64,
            forall|j: int| 0 <= j < i ==> signature@[j] == bytes@[j],
        decreases 64 - i,
    {
        signature[i] = bytes[i];
        i = i + 1;
    }
    assert(signature@ =~= bytes@);
    signature
}

fn text_value(text: &str) -> (r: Cbor)
    ensures
        r matches Cbor::Text(t) && t@ == text@,
{
    Cbor::Text(text.to_owned())
}

impl EnvelopeCodec {
    pub closed spec fn spec_supported(&self) -> ProtocolVersion {
        self.supported
    }

    pub closed spec fn spec_limits(&self) -> ResourceLimits {
        self.limits
    }

    pub closed spec fn spec_diagnostics(&self) -> DiagnosticsView {
        self.diagnostics@
    }

    /// The shared counters this codec counts into.
    pub closed spec fn spec_counters(&self) -> SharedCounters {
        self.diagnostics.shared()
    }

    /// A codec speaking `supported`, bounded by `limits`, counting into
    /// `diagnostics`.
    pub fn new(supported: ProtocolVersion, limits: ResourceLimits, diagnostics: CodecDiagnostics) -> (r: Self)
        ensures
            r.spec_supported() == supported,
            r.spec_limits() == limits,
            r.spec_diagnostics() == diagnostics@,
            r.spec_counters() == diagnostics.shared(),
    {
        EnvelopeCodec { supported, limits, diagnostics }
    }

    /// The protocol version this codec speaks.
    pub fn supported(&self) -> (r: ProtocolVersion)
        ensures
            r == self.spec_supported(),
    {
        self.supported
    }

    /// The counters this codec writes into.
    pub fn diagnostics(&self) -> (r: &CodecDiagnostics)
        ensures
            r@ == self.spec_diagnostics(),
            r.shared() == self.spec_counters(),
    {
        &self.diagnostics
    }

    /// The counters, for the caller that owns this codec to count into.
    pub fn diagnostics_mut(&mut self) -> (r: &mut CodecDiagnostics)
        ensures
            r@ == old(self).spec_diagnostics(),
            r.shared() == old(self).spec_counters(),
            final(self).spec_supported() == old(self).spec_supported(),
            final(self).spec_limits() == old(self).spec_limits(),
            final(self).spec_diagnostics() == final(r)@,
            final(self).spec_counters() == final(r).shared(),
    {
        &mut self.diagnostics
    }

    /// The largest frame this codec will look at.
    pub fn max_frame_bytes(&self) -> (r: usize)
        ensures
            r == self.spec_limits().max_envelope_bytes,
    {
        self.limits.max_envelope_bytes
    }

    /// Writes `envelope` out as a CBOR map of its six named fields. An unknown
    /// kind is written with the code it arrived with. Refused when the payload,
    /// or the whole encoding, exceeds the envelope cap.
    pub fn encode(&self, envelope: &Envelope) -> (r: Result<Vec<u8>, EnvelopeCodecError>)
        ensures
            envelope.payload@.len() > self.spec_limits().max_envelope_bytes ==> r == Err::<Vec<u8>, EnvelopeCodecError>(
                EnvelopeCodecError::PayloadTooLarge {
                    bytes: envelope.payload@.len() as usize,
                    limit: self.spec_limits().max_envelope_bytes,
                },
            ),
            r matches Ok(bytes) ==> is_envelope_frame(bytes@, *envelope) && bytes@.len()
                <= self.spec_limits().max_envelope_bytes,
            r matches Err(e) ==> (e matches EnvelopeCodecError::PayloadTooLarge { bytes, limit } && limit
                == self.spec_limits().max_envelope_bytes && bytes > limit),
            envelope.payload@.len() <= self.spec_limits().max_envelope_bytes && r is Err ==> exists|record: Cbor|
                #![trigger cbor_writing(record)]
                is_envelope_record(record, *envelope) && cbor_writing(record).len()
                    > self.spec_limits().max_envelope_bytes,
    {
        let max = self.limits.max_envelope_bytes;
        if envelope.payload.len() > max {
            return Err(EnvelopeCodecError::PayloadTooLarge { bytes: envelope.payload.len(), limit: max });
        }
        let author = vstd::slice::slice_to_vec(envelope.author.as_bytes());
        let payload = vstd::slice::slice_to_vec(envelope.payload.as_slice());
        let signature = vstd::slice::slice_to_vec(envelope.signature.as_bytes());
        let mut entries: Vec<(Cbor, Cbor)> = Vec::new();
        entries.push((text_value(FIELD_VERSION_MAJOR), Cbor::Integer(envelope.version.major as i128)));
        entries.push((text_value(FIELD_VERSION_MINOR), Cbor::Integer(envelope.version.minor as i128)));
        entries.push((text_value(FIELD_KIND), Cbor::Integer(envelope.kind.code() as i128)));
        entries.push((text_value(FIELD_AUTHOR), Cbor::Bytes(author)));
        entries.push((text_value(FIELD_PAYLOAD), Cbor::Bytes(payload)));
        entries.push((text_value(FIELD_SIGNATURE), Cbor::Bytes(signature)));
        let record = Cbor::Dict(entries);
        proof {
            assert(is_envelope_record(record, *envelope));
            assert(is_flat_record(record));
        }
        let bytes = match write_cbor(&record) {
            Some(bytes) => bytes,
            None => return Err(EnvelopeCodecError::EncodeFailed),
        };
        if bytes.len() > max {
            return Err(EnvelopeCodecError::PayloadTooLarge { bytes: bytes.len(), limit: max });
        }
        Ok(bytes)
    }

    /// Reads an envelope out of a frame. The size cap is checked first, from
    /// the byte count alone, so an oversize frame is refused without a byte
    /// being deserialized. Every refusal and every tolerated oddity is
    /// counted.
    pub fn decode(&mut self, frame: &[u8]) -> (r: Result<Envelope, EnvelopeCodecError>)
        ensures
            final(self).spec_supported() == old(self).spec_supported(),
            final(self).spec_limits() == old(self).spec_limits(),
            final(self).spec_counters() == old(self).spec_counters(),
            r is Ok <==> decode_refusal(
                frame@,
                old(self).spec_supported(),
                old(self).spec_limits().max_envelope_bytes,
            ) is None,
            r matches Err(e) ==> decode_refusal(
                frame@,
                old(self).spec_supported(),
                old(self).spec_limits().max_envelope_bytes,
            ) == Some(e),
            r matches Ok(envelope) ==> envelope_from_record(frame_entries(frame@), envelope),
            final(self).spec_diagnostics() == diagnostics_after_decode(
                old(self).spec_diagnostics(),
                frame@,
                old(self).spec_supported(),
                old(self).spec_limits().max_envelope_bytes,
            ),
    {
        let max = self.limits.max_envelope_bytes;
        if frame.len() > max {
            self.diagnostics.count_oversize_frame();
            return Err(EnvelopeCodecError::TooLarge { bytes: frame.len(), limit: max });
        }
        let result = self.decode_within_cap(frame);
        match &result {
            Err(EnvelopeCodecError::IncompatibleMajor { .. }) => self.diagnostics.count_rejected_major(),
            Err(_) => self.diagnostics.count_malformed_frame(),
            Ok(_) => {},
        }
        result
    }

    fn decode_within_cap(&mut self, frame: &[u8]) -> (r: Result<Envelope, EnvelopeCodecError>)
        requires
            frame@.len() <= old(self).spec_limits().max_envelope_bytes,
        ensures
            final(self).spec_supported() == old(self).spec_supported(),
            final(self).spec_limits() == old(self).spec_limits(),
            final(self).spec_counters() == old(self).spec_counters(),
            r is Ok <==> decode_refusal(
                frame@,
                old(self).spec_supported(),
                old(self).spec_limits().max_envelope_bytes,
            ) is None,
            r matches Err(e) ==> decode_refusal(
                frame@,
                old(self).spec_supported(),
                old(self).spec_limits().max_envelope_bytes,
            ) == Some(e),
            r matches Ok(envelope) ==> envelope_from_record(frame_entries(frame@), envelope),
            ({
                let d = old(self).spec_diagnostics();
                let entries = frame_entries(frame@);
                let judged = (cbor_reading(frame@) matches Some(Cbor::Dict(_))) && passes_version(
                    entries,
                    old(self).spec_supported(),
                );
                final(self).spec_diagnostics() == DiagnosticsView {
                    tolerated_minor: if judged && compatibility(
                        record_version(entries),
                        old(self).spec_supported(),
                    ) == Compatibility::Tolerate {
                        bumped(d.tolerated_minor, 1)
                    } else {
                        d.tolerated_minor
                    },
                    unknown_fields: bumped(
                        d.unknown_fields,
                        (if judged {
                            unknown_count(entries, known_envelope_fields())
                        } else {
                            0
                        }) as u64,
                    ),
                    unknown_payload_kinds: if judged && declares_unknown_kind(entries) {
                        bumped(d.unknown_payload_kinds, 1)
                    } else {
                        d.unknown_payload_kinds
                    },
                    ..d
                }
            }),
    {
        let supported = self.supported;
        let max = self.limits.max_envelope_bytes;
        let value = match read_cbor(frame) {
            Some(value) => value,
            None => return Err(EnvelopeCodecError::MalformedCbor),
        };
        let entries = match &value {
            Cbor::Dict(entries) => entries,
            _ => return Err(EnvelopeCodecError::NotAMap),
        };
        let major = read_u16(entries.as_slice(), FIELD_VERSION_MAJOR)?;
        let minor = read_u16(entries.as_slice(), FIELD_VERSION_MINOR)?;
        let version = ProtocolVersion::new(major, minor);
        match Compatibility::evaluate(version, supported) {
            Compatibility::Reject => {
                return Err(EnvelopeCodecError::IncompatibleMajor { received: version, supported });
            },
            Compatibility::Tolerate => self.diagnostics.count_tolerated_minor(),
            Compatibility::Accept => {},
        }
        let known: [&str; 6] = [
            FIELD_VERSION_MAJOR,
            FIELD_VERSION_MINOR,
            FIELD_KIND,
            FIELD_AUTHOR,
            FIELD_PAYLOAD,
            FIELD_SIGNATURE,
        ];
        proof {
            assert(known@.map_values(|k: &str| k@) =~= known_envelope_fields());
        }
        let unknown = count_unknown(entries.as_slice(), &known);
        if unknown > 0 {
            self.diagnostics.count_unknown_fields(unknown);
        }
        let kind = PayloadKind::from_code(read_u16(entries.as_slice(), FIELD_KIND)?);
        if kind.is_unknown() {
            self.diagnostics.count_unknown_payload_kind();
        }
        let author_bytes = read_bytes(entries.as_slice(), FIELD_AUTHOR)?;
        if author_bytes.len() != 32 {
            return Err(EnvelopeCodecError::InvalidAuthor);
        }
        let author = match PeerId::from_public_key_bytes(to_key(author_bytes)) {
            Ok(author) => author,
            Err(_) => return Err(EnvelopeCodecError::InvalidAuthor),
        };
        let signature_bytes = read_bytes(entries.as_slice(), FIELD_SIGNATURE)?;
        if signature_bytes.len() != 64 {
            return Err(EnvelopeCodecError::InvalidSignature);
        }
        let signature = EnvelopeSignature::new(to_signature(signature_bytes));
        let payload = read_bytes(entries.as_slice(), FIELD_PAYLOAD)?;
        if payload.len() > max {
            return Err(EnvelopeCodecError::PayloadTooLarge { bytes: payload.len(), limit: max });
        }
        Ok(Envelope { version, kind, author, payload: vstd::slice::slice_to_vec(payload), signature })
    }
}

} // verus!
