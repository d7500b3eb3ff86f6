//! Identities: this network's own (a raw Ed25519 public key) and libp2p's
//! (a multihash), each with the order the other parts of the crate rely on.
use vstd::prelude::*;

verus! {

/// Bytes in an Ed25519 public key, and so in a [`PeerId`].
pub const PEER_ID_LENGTH: usize = 32;

/// Whether `key` is a valid Ed25519 public key: 32 bytes that decompress to a
/// curve point, as libp2p's `ed25519::PublicKey::try_from_bytes` decides.
pub uninterp spec fn is_valid_ed25519_key(key: Seq<u8>) -> bool;

/// Asks libp2p (`libp2p::identity::ed25519::PublicKey::try_from_bytes`)
/// whether the 32 bytes are a valid Ed25519 public key. The contract names
/// the answer and states nothing else about which byte strings qualify.
#[verifier::external_body]
fn ed25519_key_is_valid(key: &[u8; 32]) -> (r: bool)
    ensures
        r == is_valid_ed25519_key(key@),
{
    libp2p::identity::ed25519::PublicKey::try_from_bytes(key).is_ok()
}

/// Lexicographic order on byte strings: the order of Rust's derived `Ord` on
/// byte arrays and slices.
pub open spec fn bytes_less(a: Seq<u8>, b: Seq<u8>) -> bool
    decreases a.len(),
{
    if a.len() == 0 {
        b.len() > 0
    } else if b.len() == 0 {
        false
    } else if a[0] != b[0] {
        a[0] < b[0]
    } else {
        bytes_less(a.drop_first(), b.drop_first())
    }
}

/// No byte string sorts before itself.
pub proof fn lemma_bytes_less_irreflexive(a: Seq<u8>)
    ensures
        !bytes_less(a, a),
    decreases a.len(),
{
    if a.len() > 0 {
        lemma_bytes_less_irreflexive(a.drop_first());
    }
}

/// Of two distinct byte strings, exactly one sorts first.
pub proof fn lemma_bytes_less_total(a: Seq<u8>, b: Seq<u8>)
    ensures
        a != b ==> (bytes_less(a, b) || bytes_less(b, a)),
        !(bytes_less(a, b) && bytes_less(b, a)),
    decreases a.len(),
{
    if a.len() > 0 && b.len() > 0 {
        lemma_bytes_less_total(a.drop_first(), b.drop_first());
        if a[0] == b[0] && a != b {
            assert(a.drop_first() != b.drop_first()) by {
                if a.drop_first() == b.drop_first() {
                    assert(a =~= seq![a[0]] + a.drop_first());
                    assert(b =~= seq![b[0]] + b.drop_first());
                }
            }
        }
    } else if a.len() == 0 && b.len() == 0 {
        assert(a =~= b);
    }
}

/// The byte order is transitive.
pub proof fn lemma_bytes_less_transitive(a: Seq<u8>, b: Seq<u8>, c: Seq<u8>)
    requires
        bytes_less(a, b),
        bytes_less(b, c),
    ensures
        bytes_less(a, c),
    decreases a.len(),
{
    if a.len() > 0 && b.len() > 0 && c.len() > 0 && a[0] == b[0] && b[0] == c[0] {
        lemma_bytes_less_transitive(a.drop_first(), b.drop_first(), c.drop_first());
    }
}

/// Whether two byte slices hold the same bytes.
pub fn bytes_equal(a: &[u8], b: &[u8]) -> (r: bool)
    ensures
        r == (a@ == b@),
{
    if a.len() != b.len() {
        return false;
    }
    let mut i: usize = 0;
    while i < a.len()
        invariant
            a.len() == b.len(),
            0 <= i <= a.len(),
            forall|j: int| 0 <= j < i ==> a@[j] == b@[j],
        decreases a.len() - i,
    {
        if a[i] != b[i] {
            return false;
        }
        i = i + 1;
    }
    assert(a@ =~= b@);
    true
}

proof fn lemma_bytes_less_common_prefix(a: Seq<u8>, b: Seq<u8>, i: int)
    requires
        0 <= i <= a.len(),
        0 <= i <= b.len(),
        forall|j: int| 0 <= j < i ==> a[j] == b[j],
    ensures
        bytes_less(a, b) == bytes_less(a.skip(i), b.skip(i)),
    decreases i,
{
    if i > 0 {
        assert(a.drop_first().skip(i - 1) =~= a.skip(i));
        assert(b.drop_first().skip(i - 1) =~= b.skip(i));
        lemma_bytes_less_common_prefix(a.drop_first(), b.drop_first(), i - 1);
    } else {
        assert(a.skip(0) =~= a);
        assert(b.skip(0) =~= b);
    }
}

/// Whether `a` sorts strictly before `b`, lexicographically.
pub fn bytes_before(a: &[u8], b: &[u8]) -> (r: bool)
    ensures
        r == bytes_less(a@, b@),
{
    let mut i: usize = 0;
    while i < a.len() && i < b.len()
        invariant
            0 <= i <= a.len(),
            i <= b.len(),
            forall|j: int| 0 <= j < i ==> a@[j] == b@[j],
        decreases a.len() - i,
    {
        if a[i] != b[i] {
            proof {
                lemma_bytes_less_common_prefix(a@, b@, i as int);
            }
            return a[i] < b[i];
        }
        i = i + 1;
    }
    proof {
        lemma_bytes_less_common_prefix(a@, b@, i as int);
    }
    i == a.len() && i < b.len()
}

/// A participant's identity: a raw Ed25519 public key, which only exists for
/// bytes that are a valid key.
#[derive(Clone, Copy, PartialEq, Eq, PartialOrd, Ord, Hash, Debug)]
pub struct PeerId {
    key: [u8; 32],
}

/// Why bytes are not a [`PeerId`].
#[derive(Clone, Copy, PartialEq, Eq, Debug)]
pub enum PeerIdError {
    /// The bytes do not decode to an Ed25519 public key.
    InvalidKey,
}

impl View for PeerId {
    type V = Seq<u8>;

    closed spec fn view(&self) -> Seq<u8> {
        self.key@
    }
}

impl PeerId {
    /// What every identity satisfies: its bytes are a valid Ed25519 key.
    #[verifier::type_invariant]
    pub closed spec fn inv(self) -> bool {
        is_valid_ed25519_key(self.key@)
    }

    /// What the invariant says, in terms of the view.
    pub proof fn lemma_valid(self)
        requires
            self.inv(),
        ensures
            is_valid_ed25519_key(self@),
            self@.len() == PEER_ID_LENGTH,
    {
    }

    /// Two identities with the same key bytes are the same identity.
    pub proof fn lemma_view_injective(a: PeerId, b: PeerId)
        requires
            a@ == b@,
        ensures
            a == b,
    {
        assert(a.key@ =~= b.key@);
        broadcast use vstd::array::axiom_array_ext_equal;
        assert(a.key == b.key);
    }

    /// The identity whose key is `key`, when `key` is a valid Ed25519 key.
    pub fn from_public_key_bytes(key: [u8; 32]) -> (r: Result<PeerId, PeerIdError>)
        ensures
            r is Ok <==> is_valid_ed25519_key(key@),
            r matches Ok(p) ==> p@ == key@,
            r matches Err(e) ==> e == PeerIdError::InvalidKey,
    {
        if ed25519_key_is_valid(&key) {
            Ok(PeerId { key })
        } else {
            Err(PeerIdError::InvalidKey)
        }
    }

    /// The key bytes.
    pub fn as_bytes(&self) -> (r: &[u8; 32])
        ensures
            r@ == self@,
    {
        &self.key
    }

    /// A copy of the key bytes.
    pub fn to_array(&self) -> (r: [u8; 32])
        ensures
            r@ == self@,
    {
        self.key
    }

    /// Whether `self` and `other` are the same identity.
    pub fn same_as(&self, other: &PeerId) -> (r: bool)
        ensures
            r == (self@ == other@),
            r == (*self == *other),
    {
        let r = bytes_equal(&self.key, &other.key);
        proof {
            if r {
                PeerId::lemma_view_injective(*self, *other);
            }
        }
        r
    }

    /// Whether `self` sorts before `other` in key-byte order.
    pub fn precedes(&self, other: &PeerId) -> (r: bool)
        ensures
            r == bytes_less(self@, other@),
    {
        bytes_before(&self.key, &other.key)
    }
}

/// The multihash code libp2p uses for an inlined ("identity") key.
pub const IDENTITY_HASH_CODE: u64 = 0;

/// The multihash code of SHA2-256, which libp2p uses for keys too long to
/// inline.
pub const SHA256_HASH_CODE: u64 = 0x12;

/// Largest digest a libp2p identity multihash carries inline.
pub const MAX_INLINE_KEY_LENGTH: usize = 42;

/// Largest digest a libp2p peer id can hold.
pub const MAX_MULTIHASH_DIGEST: usize = 64;

/// A libp2p peer identity, held as the two parts of its multihash: the hash
/// code and the digest.
#[derive(PartialEq, Eq, Hash, Debug)]
pub struct NetPeer {
    code: u64,
    digest: Vec<u8>,
}

/// The abstract value of a [`NetPeer`]: its code and digest bytes.
pub struct NetPeerView {
    pub code: u64,
    pub digest: Seq<u8>,
}

impl View for NetPeer {
    type V = NetPeerView;

    closed spec fn view(&self) -> NetPeerView {
        NetPeerView { code: self.code, digest: self.digest@ }
    }
}

/// Whether `code` and a digest of `len` bytes make a libp2p peer id:
/// SHA2-256, or an inlined key of at most [`MAX_INLINE_KEY_LENGTH`] bytes.
pub open spec fn is_peer_multihash(code: u64, len: nat) -> bool {
    len <= MAX_MULTIHASH_DIGEST && (code == SHA256_HASH_CODE || (code == IDENTITY_HASH_CODE
        && len <= MAX_INLINE_KEY_LENGTH))
}

/// libp2p's order on peer ids (its derived `Ord` on the multihash): by code,
/// then by digest length, then by digest bytes.
pub open spec fn net_peer_less(a: NetPeerView, b: NetPeerView) -> bool {
    ||| a.code < b.code
    ||| a.code == b.code && a.digest.len() < b.digest.len()
    ||| a.code == b.code && a.digest.len() == b.digest.len() && bytes_less(a.digest, b.digest)
}

/// Of two distinct libp2p identities, exactly one sorts first, and the
/// order is transitive.
pub proof fn lemma_net_peer_order(a: NetPeerView, b: NetPeerView, c: NetPeerView)
    ensures
        !(net_peer_less(a, b) && net_peer_less(b, a)),
        (a.code != b.code || a.digest != b.digest) ==> (net_peer_less(a, b) || net_peer_less(b, a)),
        net_peer_less(a, b) && net_peer_less(b, c) ==> net_peer_less(a, c),
        !net_peer_less(a, a),
{
    lemma_bytes_less_total(a.digest, b.digest);
    lemma_bytes_less_irreflexive(a.digest);
    if net_peer_less(a, b) && net_peer_less(b, c) && a.code == b.code && b.code == c.code
        && a.digest.len() == b.digest.len() && b.digest.len() == c.digest.len() {
        lemma_bytes_less_transitive(a.digest, b.digest, c.digest);
    }
}

impl NetPeer {
    /// What every libp2p identity satisfies: libp2p accepts its multihash.
    #[verifier::type_invariant]
    pub closed spec fn inv(self) -> bool {
        is_peer_multihash(self.code, self.digest@.len())
    }

    /// What the invariant says, in terms of the view.
    pub proof fn lemma_valid(self)
        requires
            self.inv(),
        ensures
            is_peer_multihash(self@.code, self@.digest.len()),
    {
    }

    /// The peer id with multihash `code` and `digest`, when libp2p would accept
    /// that multihash as one.
    pub fn from_multihash(code: u64, digest: &[u8]) -> (r: Option<NetPeer>)
        ensures
            r is Some <==> is_peer_multihash(code, digest@.len()),
            r matches Some(p) ==> p@.code == code && p@.digest == digest@,
    {
        let ok = digest.len() <= MAX_MULTIHASH_DIGEST && (code == SHA256_HASH_CODE || (code
            == IDENTITY_HASH_CODE && digest.len() <= MAX_INLINE_KEY_LENGTH));
        if ok {
            Some(NetPeer { code, digest: vstd::slice::slice_to_vec(digest) })
        } else {
            None
        }
    }

    /// The multihash code.
    pub fn code(&self) -> (r: u64)
        ensures
            r == self@.code,
    {
        self.code
    }

    /// The digest bytes.
    pub fn digest(&self) -> (r: &[u8])
        ensures
            r@ == self@.digest,
    {
        self.digest.as_slice()
    }

    /// A copy of this identity.
    pub fn duplicate(&self) -> (r: NetPeer)
        ensures
            r@ == self@,
    {
        proof {
            use_type_invariant(self);
        }
        let digest = vstd::slice::slice_to_vec(self.digest.as_slice());
        NetPeer { code: self.code, digest }
    }

    /// Whether two libp2p identities are the same.
    pub fn same_as(&self, other: &NetPeer) -> (r: bool)
        ensures
            r == (self@ == other@),
    {
        self.code == other.code && bytes_equal(self.digest.as_slice(), other.digest.as_slice())
    }

    /// Whether `self` sorts before `other` in libp2p's peer-id order.
    pub fn precedes(&self, other: &NetPeer) -> (r: bool)
        ensures
            r == net_peer_less(self@, other@),
    {
        if self.code != other.code {
            return self.code < other.code;
        }
        if self.digest.len() != other.digest.len() {
            return self.digest.len() < other.digest.len();
        }
        bytes_before(self.digest.as_slice(), other.digest.as_slice())
    }
}

} // verus!
