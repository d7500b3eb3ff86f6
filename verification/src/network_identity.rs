//! This peer's own identity: its Ed25519 keypair, and the identity others
//! know it by.
use vstd::prelude::*;
use crate::identity::{PeerId, is_valid_ed25519_key};
use crate::peer_id_mapping::{PeerIdMappingError, peer_id_mapping_error_text};

verus! {

#[verifier::external_type_specification]
#[verifier::external_body]
pub struct ExKeypair(libp2p::identity::Keypair);

/// The Ed25519 public key that belongs to the secret key `secret`.
pub uninterp spec fn ed25519_public_key_of(secret: Seq<u8>) -> Seq<u8>;

/// Builds a libp2p keypair from a 32-byte Ed25519 secret key with
/// `Keypair::ed25519_from_bytes`, and reads back its public key.
///
/// The contract states what the source shows: 32 bytes are always a secret
/// key (`SecretKey::try_from_bytes` only checks the length), the input is
/// zeroed once it is taken, and the public key is the one of that secret,
/// named, and a valid key.
#[verifier::external_body]
fn ed25519_keypair(secret: &mut [u8; 32]) -> (r: Option<(libp2p::identity::Keypair, [u8; 32])>)
    ensures
        r is Some,
        r matches Some(pair) ==> pair.1@ == ed25519_public_key_of(old(secret)@),
        r matches Some(pair) ==> is_valid_ed25519_key(pair.1@),
        r is Some ==> final(secret)@ == Seq::new(32, |i: int| 0u8),
{
    let keypair = libp2p::identity::Keypair::ed25519_from_bytes(&mut *secret).ok()?;
    let public = keypair.clone().try_into_ed25519().ok()?.public().to_bytes();
    Some((keypair, public))
}

/// Why a secret key does not make an identity.
#[derive(Debug, Clone, Copy, PartialEq, Eq, Structural)]
pub enum NetworkIdentityError {
    /// The bytes are not an Ed25519 secret key.
    MalformedKey,
    /// The key's identity does not map.
    Mapping(PeerIdMappingError),
}

/// The sentence a [`NetworkIdentityError`] is reported with.
pub open spec fn network_identity_error_text(e: NetworkIdentityError) -> Seq<char> {
    match e {
        NetworkIdentityError::MalformedKey => "bytes are not a valid Ed25519 secret key"@,
        NetworkIdentityError::Mapping(error) => peer_id_mapping_error_text(error),
    }
}

impl NetworkIdentityError {
    /// The reason, as one sentence.
    pub fn describe(&self) -> (r: String)
        ensures
            r@ == network_identity_error_text(*self),
    {
        match self {
            NetworkIdentityError::MalformedKey => "bytes are not a valid Ed25519 secret key".to_owned(),
            NetworkIdentityError::Mapping(error) => error.describe(),
        }
    }
}

/// This peer's keypair and the identity it is known by.
pub struct NetworkIdentity {
    keypair: libp2p::identity::Keypair,
    peer: PeerId,
}

impl NetworkIdentity {
    pub closed spec fn spec_peer(&self) -> PeerId {
        self.peer
    }

    /// The keypair this identity was built from.
    pub closed spec fn spec_keypair(&self) -> libp2p::identity::Keypair {
        self.keypair
    }

    /// The identity of the Ed25519 secret key `secret`, which is zeroed once
    /// it has been taken.
    pub fn from_ed25519_secret_key(secret: &mut [u8; 32]) -> (r: Result<NetworkIdentity, NetworkIdentityError>)
        ensures
            r matches Ok(identity) && identity.spec_peer()@ == ed25519_public_key_of(old(secret)@),
            final(secret)@ == Seq::new(32, |i: int| 0u8),
    {
        let (keypair, public) = match ed25519_keypair(secret) {
            Some(pair) => pair,
            None => {
                return Err(NetworkIdentityError::MalformedKey);
            },
        };
        match PeerId::from_public_key_bytes(public) {
            Ok(peer) => Ok(NetworkIdentity { keypair, peer }),
            Err(_) => Err(NetworkIdentityError::Mapping(PeerIdMappingError::MalformedKey)),
        }
    }

    /// The identity other peers know this one by.
    pub fn peer_id(&self) -> (r: PeerId)
        ensures
            r == self.spec_peer(),
    {
        self.peer
    }

    /// The keypair, for the transport's handshakes and signatures.
    pub fn keypair(&self) -> (r: &libp2p::identity::Keypair)
        ensures
            *r == self.spec_keypair(),
    {
        &self.keypair
    }
}

} // verus!
