//! Multiaddresses, held as their canonical text and the parts of them the
//! crate's rules read.
use vstd::prelude::*;

verus! {

/// One component of a multiaddress, as far as this crate's rules look at it.
#[derive(Clone, Copy, PartialEq, Eq, Debug)]
pub enum AddressPart {
    /// `/ip4/a.b.c.d`.
    Ip4 { octets: [u8; 4] },
    /// `/ip6/…`, as its eight 16-bit segments.
    Ip6 { segments: [u16; 8] },
    /// `/p2p-circuit`: reached through a relay.
    P2pCircuit,
    /// Any other protocol (`/tcp/…`, `/udp/…`, `/quic-v1`, `/p2p/…`, `/dns4/…`).
    Other,
}

/// The abstract value of an [`Address`]: its canonical text and its parts.
pub struct AddressView {
    pub text: Seq<char>,
    pub parts: Seq<AddressPart>,
}

/// What libp2p's multiaddress parser makes of `text`: `None` when `text` is not
/// a well-formed multiaddress, otherwise the canonical text it prints back as
/// and its components.
pub uninterp spec fn multiaddr_reading(text: Seq<char>) -> Option<AddressView>;

/// A well-formed multiaddress.
#[derive(PartialEq, Eq, Debug)]
pub struct Address {
    text: String,
    parts: Vec<AddressPart>,
}

impl View for Address {
    type V = AddressView;

    closed spec fn view(&self) -> AddressView {
        AddressView { text: self.text@, parts: self.parts@ }
    }
}

/// Parses `text` with libp2p's `Multiaddr::from_str`, then keeps its
/// `Display` form and the `iter()` components this crate reads.
///
/// The contract names the result and adds one fact from the multiaddr crate:
/// parsing an address's own printed form gives the same address back (the
/// crate's `to_from_str_identity` property). Which texts parse, and to what,
/// is left to the name.
#[verifier::external_body]
fn parse_multiaddr(text: &str) -> (r: Option<Address>)
    ensures
        r is Some <==> multiaddr_reading(text@) is Some,
        r matches Some(a) ==> multiaddr_reading(text@) == Some(a@),
        r matches Some(a) ==> multiaddr_reading(a@.text) == Some(a@),
{
    let parsed: libp2p::Multiaddr = text.parse().ok()?;
    let parts = parsed.iter().map(|part| match part {
        libp2p::multiaddr::Protocol::Ip4(v4) => AddressPart::Ip4 { octets: v4.octets() },
        libp2p::multiaddr::Protocol::Ip6(v6) => AddressPart::Ip6 { segments: v6.segments() },
        libp2p::multiaddr::Protocol::P2pCircuit => AddressPart::P2pCircuit,
        _ => AddressPart::Other,
    }).collect();
    Some(Address { text: parsed.to_string(), parts })
}

/// Whether an address contains a relay hop.
pub open spec fn has_circuit(parts: Seq<AddressPart>) -> bool {
    exists|i: int| 0 <= i < parts.len() && parts[i] is P2pCircuit
}

impl Address {
    /// What every address satisfies: it is what the parser made of its own
    /// text. Any holder of an address learns it with `use_type_invariant`.
    #[verifier::type_invariant]
    pub open spec fn inv(self) -> bool {
        multiaddr_reading(self@.text) == Some(self@)
    }

    /// Parses a multiaddress from its text form.
    pub fn parse(text: &str) -> (r: Option<Address>)
        ensures
            r is Some <==> multiaddr_reading(text@) is Some,
            r matches Some(a) ==> multiaddr_reading(text@) == Some(a@),
    {
        parse_multiaddr(text)
    }

    /// The canonical text of this address.
    pub fn text(&self) -> (r: &str)
        ensures
            r@ == self@.text,
            multiaddr_reading(r@) == Some(self@),
    {
        proof {
            use_type_invariant(self);
        }
        self.text.as_str()
    }

    /// Whether the address has no components at all.
    pub fn is_empty(&self) -> (r: bool)
        ensures
            r == (self@.parts.len() == 0),
    {
        self.parts.len() == 0
    }

    /// The components of this address.
    pub fn parts(&self) -> (r: &[AddressPart])
        ensures
            r@ == self@.parts,
    {
        self.parts.as_slice()
    }

    /// Whether the address is reached through a relay circuit.
    pub fn is_circuit(&self) -> (r: bool)
        ensures
            r == has_circuit(self@.parts),
    {
        let mut i: usize = 0;
        while i < self.parts.len()
            invariant
                0 <= i <= self.parts@.len(),
                forall|j: int| 0 <= j < i ==> !(self.parts@[j] is P2pCircuit),
            decreases self.parts@.len() - i,
        {
            if let AddressPart::P2pCircuit = self.parts[i] {
                return true;
            }
            i = i + 1;
        }
        false
    }

    /// Whether two addresses are the same multiaddress.
    pub fn same_as(&self, other: &Address) -> (r: bool)
        ensures
            r == (self@ == other@),
    {
        proof {
            use_type_invariant(self);
            use_type_invariant(other);
        }
        self.text == other.text
    }

    /// A copy of this address.
    pub fn duplicate(&self) -> (r: Address)
        ensures
            r@ == self@,
    {
        proof {
            use_type_invariant(self);
        }
        let text = self.text.clone();
        let mut parts: Vec<AddressPart> = Vec::new();
        let mut i: usize = 0;
        while i < self.parts.len()
            invariant
                0 <= i <= self.parts@.len(),
                parts@ == self.parts@.take(i as int),
            decreases self.parts@.len() - i,
        {
            parts.push(self.parts[i]);
            i = i + 1;
            assert(parts@ =~= self.parts@.take(i as int));
        }
        assert(parts@ =~= self.parts@);
        Address { text, parts }
    }
}

} // verus!
