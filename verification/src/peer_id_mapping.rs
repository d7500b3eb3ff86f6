//! The correspondence between this network's identities (raw Ed25519 keys) and
//! libp2p's (multihashes of a protobuf-encoded public key).
use vstd::prelude::*;
use vstd::string::StringExecFns;
use crate::text::{hexadecimal, hexadecimal_text};
use crate::identity::{
    IDENTITY_HASH_CODE, NetPeer, NetPeerView, PeerId, is_peer_multihash, is_valid_ed25519_key,
};

verus! {

/// What a protobuf-encoded libp2p public key decodes to.
#[derive(Debug, Clone, Copy, PartialEq, Eq)]
pub enum KeyReading {
    /// The bytes are not a public key libp2p can decode.
    Malformed,
    /// A public key of another type.
    OtherKeyType,
    /// An Ed25519 public key, as its 32 bytes.
    Ed25519([u8; 32]),
}

/// What libp2p's `PublicKey::try_decode_protobuf`, then `try_into_ed25519`,
/// makes of `bytes`.
pub uninterp spec fn protobuf_key_reading(bytes: Seq<u8>) -> KeyReading;

/// The protobuf header libp2p writes before an Ed25519 key: field 1 (the key
/// type) as varint 1, then field 2 (the key) as 32 length-delimited bytes.
pub open spec fn ed25519_key_header() -> Seq<u8> {
    seq![0x08u8, 0x01u8, 0x12u8, 0x20u8]
}

/// The libp2p identity of the Ed25519 key `key`: its protobuf encoding,
/// short enough to be inlined under the identity multihash.
pub open spec fn libp2p_identity_of(key: Seq<u8>) -> NetPeerView {
    NetPeerView { code: IDENTITY_HASH_CODE, digest: ed25519_key_header() + key }
}

/// Builds libp2p's peer id for the Ed25519 public key `key`, as libp2p does:
/// `ed25519::PublicKey::try_from_bytes`, then `PublicKey::to_peer_id`, which
/// inlines the key's protobuf encoding under the identity multihash because it
/// is 36 bytes. Returns the multihash's code and digest.
///
/// The contract states that the key is accepted exactly when it is valid (the
/// same check [`PeerId`] is built on), the code and digest the source writes
/// for it, and that decoding that digest gives the key back.
#[verifier::external_body]
fn libp2p_peer_of_key(key: &[u8; 32]) -> (r: Option<(u64, Vec<u8>)>)
    ensures
        r is Some <==> is_valid_ed25519_key(key@),
        r matches Some(pair) ==> pair.0 == IDENTITY_HASH_CODE && pair.1@ == ed25519_key_header() + key@,
        r matches Some(pair) ==> protobuf_key_reading(pair.1@) == KeyReading::Ed25519(*key),
{
    let key = libp2p::identity::ed25519::PublicKey::try_from_bytes(key).ok()?;
    let id = libp2p::identity::PublicKey::from(key).to_peer_id();
    Some((id.as_ref().code(), id.as_ref().digest().to_vec()))
}

/// Decodes a protobuf-encoded libp2p public key with
/// `PublicKey::try_decode_protobuf` and, when that succeeds,
/// `try_into_ed25519`, returning the key's bytes.
///
/// The contract names the result, and adds what the source shows of it: an
/// Ed25519 key comes out of `ed25519::PublicKey::try_from_bytes`, so it is a
/// valid key.
#[verifier::external_body]
fn decode_protobuf_key(bytes: &[u8]) -> (r: KeyReading)
    ensures
        r == protobuf_key_reading(bytes@),
        r matches KeyReading::Ed25519(key) ==> is_valid_ed25519_key(key@),
{
    match libp2p::identity::PublicKey::try_decode_protobuf(bytes) {
        Err(_) => KeyReading::Malformed,
        Ok(public) => match public.try_into_ed25519() {
            Ok(key) => KeyReading::Ed25519(key.to_bytes()),
            Err(_) => KeyReading::OtherKeyType,
        },
    }
}

/// Why an identity could not be mapped.
#[derive(Debug, Clone, Copy, PartialEq, Eq, Structural)]
pub enum PeerIdMappingError {
    /// The libp2p identity is a hash of a key rather than the key inlined,
    /// so no key can be recovered from it.
    NotInlined { code: u64 },
    /// The libp2p identity carries a public key of another type.
    NotEd25519,
    /// The identity does not decode to a public key.
    MalformedKey,
}

/// The sentence a [`PeerIdMappingError`] is reported with.
pub open spec fn peer_id_mapping_error_text(e: PeerIdMappingError) -> Seq<char> {
    match e {
        PeerIdMappingError::NotInlined { code } => "peer identity uses multihash 0x"@ + hexadecimal_text(
            code as nat,
        ) + " rather than an inlined key, so no public key can be recovered from it"@,
        PeerIdMappingError::NotEd25519 => "peer identity does not carry an Ed25519 public key"@,
        PeerIdMappingError::MalformedKey => "peer identity does not decode to a public key"@,
    }
}

impl PeerIdMappingError {
    /// The reason, as one sentence.
    pub fn describe(&self) -> (r: String)
        ensures
            r@ == peer_id_mapping_error_text(*self),
    {
        match self {
            PeerIdMappingError::NotInlined { code } => {
                let mut out = "peer identity uses multihash 0x".to_owned();
                out.append(hexadecimal(*code).as_str());
                out.append(" rather than an inlined key, so no public key can be recovered from it");
                out
            },
            PeerIdMappingError::NotEd25519 => "peer identity does not carry an Ed25519 public key".to_owned(),
            PeerIdMappingError::MalformedKey => "peer identity does not decode to a public key".to_owned(),
        }
    }
}

/// What a libp2p identity becomes in this network's terms: its Ed25519 key,
/// when it inlines one.
pub open spec fn peer_from_libp2p(peer: NetPeerView) -> Result<Seq<u8>, PeerIdMappingError> {
    if peer.code != IDENTITY_HASH_CODE {
        Err(PeerIdMappingError::NotInlined { code: peer.code })
    } else {
        match protobuf_key_reading(peer.digest) {
            KeyReading::Malformed => Err(PeerIdMappingError::MalformedKey),
            KeyReading::OtherKeyType => Err(PeerIdMappingError::NotEd25519),
            KeyReading::Ed25519(key) => Ok(key@),
        }
    }
}

/// The correspondence between this network's identities and libp2p's. The identity
/// is the key, so the mapping changes no byte of it.
pub struct PeerIdMapping;

impl PeerIdMapping {
    /// libp2p's identity for `peer`. Every identity of this network is a
    /// valid Ed25519 key, so this always succeeds.
    pub fn to_libp2p(peer: PeerId) -> (r: Result<NetPeer, PeerIdMappingError>)
        ensures
            r matches Ok(mapped) && mapped@ == libp2p_identity_of(peer@),
            r matches Ok(mapped) ==> (protobuf_key_reading(mapped@.digest) matches KeyReading::Ed25519(k)
                && k@ == peer@),
    {
        proof {
            use_type_invariant(&peer);
            peer.lemma_valid();
        }
        let key = peer.to_array();
        match libp2p_peer_of_key(&key) {
            Some((code, digest)) => {
                assert(is_peer_multihash(code, digest@.len()));
                match NetPeer::from_multihash(code, digest.as_slice()) {
                    Some(mapped) => Ok(mapped),
                    None => Err(PeerIdMappingError::MalformedKey),
                }
            },
            None => Err(PeerIdMappingError::MalformedKey),
        }
    }

    /// This network's identity for the libp2p identity `peer`: refused when
    /// it hashes its key, does not decode to a key, or carries a key of
    /// another type.
    pub fn from_libp2p(peer: &NetPeer) -> (r: Result<PeerId, PeerIdMappingError>)
        ensures
            match peer_from_libp2p(peer@) {
                Ok(key) => r matches Ok(p) && p@ == key,
                Err(e) => r == Err::<PeerId, PeerIdMappingError>(e),
            },
    {
        let code = peer.code();
        if code != IDENTITY_HASH_CODE {
            return Err(PeerIdMappingError::NotInlined { code });
        }
        match decode_protobuf_key(peer.digest()) {
            KeyReading::Malformed => Err(PeerIdMappingError::MalformedKey),
            KeyReading::OtherKeyType => Err(PeerIdMappingError::NotEd25519),
            KeyReading::Ed25519(key) => match PeerId::from_public_key_bytes(key) {
                Ok(p) => Ok(p),
                Err(_) => Err(PeerIdMappingError::MalformedKey),
            },
        }
    }
}

/// Mapping an identity out to libp2p and back gives the same identity: what
/// [`PeerIdMapping::to_libp2p`] guarantees of its result is exactly what
/// [`PeerIdMapping::from_libp2p`] needs to return the key unchanged.
pub proof fn law_mapping_round_trips(peer: PeerId, mapped: NetPeerView)
    requires
        mapped == libp2p_identity_of(peer@),
        protobuf_key_reading(mapped.digest) matches KeyReading::Ed25519(k) && k@ == peer@,
    ensures
        peer_from_libp2p(mapped) == Ok::<Seq<u8>, PeerIdMappingError>(peer@),
{
}

} // verus!
