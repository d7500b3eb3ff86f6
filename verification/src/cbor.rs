//! CBOR values as the codecs read and write them, and the named-field lookups
//! both wire formats are built from. The CBOR encoding itself is ciborium's.
use vstd::prelude::*;
use ciborium::value::Value;
use crate::text::text_equals;

verus! {

/// The CBOR value tree of ciborium's `Value`, with the variants the codecs
/// never read (floats, tags) folded into [`Cbor::Other`].
#[derive(PartialEq, Eq, Debug)]
pub enum Cbor {
    Integer(i128),
    Bytes(Vec<u8>),
    Text(String),
    Array(Vec<Cbor>),
    Dict(Vec<(Cbor, Cbor)>),
    Bool(bool),
    Null,
    Other,
}

#[verifier::external_type_specification]
#[verifier::external_body]
pub struct ExCiboriumValue(ciborium::value::Value);

/// Smallest integer a CBOR major type 1 item holds.
pub const CBOR_MIN_INT: i128 = -18446744073709551616;

/// Largest integer a CBOR major type 0 item holds.
pub const CBOR_MAX_INT: i128 = 18446744073709551615;

/// A leaf value of a flat record: an integer CBOR holds without a tag, a byte
/// string, or a text string.
pub open spec fn is_plain_leaf(value: Cbor) -> bool {
    match value {
        Cbor::Integer(i) => CBOR_MIN_INT <= i <= CBOR_MAX_INT,
        Cbor::Bytes(_) => true,
        Cbor::Text(_) => true,
        _ => false,
    }
}

/// A field value of a flat record: a leaf, or an array of text strings.
pub open spec fn is_plain_field(value: Cbor) -> bool {
    match value {
        Cbor::Array(items) => forall|i: int| 0 <= i < items.len() ==> #[trigger] items@[i] is Text,
        _ => is_plain_leaf(value),
    }
}

/// A map of named fields: what both wire formats write.
pub open spec fn is_flat_record(value: Cbor) -> bool {
    match value {
        Cbor::Dict(entries) => forall|i: int|
            0 <= i < entries.len() ==> (#[trigger] entries@[i]).0 is Text && is_plain_field(
                entries@[i].1,
            ),
        _ => false,
    }
}

/// What ciborium's `from_reader` makes of `bytes` as a `Value`: `None` when the
/// bytes are not one well-formed CBOR item.
pub uninterp spec fn cbor_reading(bytes: Seq<u8>) -> Option<Cbor>;

/// The bytes ciborium's `into_writer` produces for `value`.
pub uninterp spec fn cbor_writing(value: Cbor) -> Seq<u8>;

impl Cbor {
    /// Converts ciborium's value tree into this crate's, variant for variant.
    /// Used by [`read_cbor`] only.
    #[verifier::external_body]
    fn from_wire(value: Value) -> Cbor {
        match value {
            Value::Integer(integer) => Cbor::Integer(i128::from(integer)),
            Value::Bytes(bytes) => Cbor::Bytes(bytes),
            Value::Text(text) => Cbor::Text(text),
            Value::Array(items) => Cbor::Array(
                items.into_iter().map(Cbor::from_wire).collect(),
            ),
            Value::Map(entries) => Cbor::Dict(
                entries.into_iter().map(|(k, v)| (Cbor::from_wire(k), Cbor::from_wire(v))).collect(),
            ),
            Value::Bool(flag) => Cbor::Bool(flag),
            Value::Null => Cbor::Null,
            _ => Cbor::Other,
        }
    }

    /// Converts this crate's value tree into ciborium's, variant for variant.
    /// Used by [`write_cbor`] only, on flat records.
    #[verifier::external_body]
    fn to_wire(&self) -> Value {
        match self {
            Cbor::Integer(i) => (*i).try_into().map(Value::Integer).unwrap_or(
                Value::Null,
            ),
            Cbor::Bytes(bytes) => Value::Bytes(bytes.clone()),
            Cbor::Text(text) => Value::Text(text.clone()),
            Cbor::Array(items) => Value::Array(items.iter().map(Cbor::to_wire).collect()),
            Cbor::Dict(entries) => Value::Map(
                entries.iter().map(|(k, v)| (k.to_wire(), v.to_wire())).collect(),
            ),
            Cbor::Bool(flag) => Value::Bool(*flag),
            Cbor::Null | Cbor::Other => Value::Null,
        }
    }
}

/// Reads one CBOR item with `ciborium::from_reader` into a `Value`.
///
/// The contract names the result; which byte strings are well-formed CBOR,
/// and what they decode to, is ciborium's.
#[verifier::external_body]
pub(crate) fn read_cbor(bytes: &[u8]) -> (r: Option<Cbor>)
    ensures
        r == cbor_reading(bytes@),
{
    ciborium::from_reader::<Value, _>(bytes).ok().map(Cbor::from_wire)
}

/// Writes `value` with `ciborium::into_writer` into a fresh `Vec`.
///
/// For a flat record the contract states that writing succeeds (the writer is
/// a `Vec`, and every value is one CBOR encodes without a failure path) and
/// that reading the bytes back yields the same record, which is the purpose of
/// the encoding. The bytes themselves are named, not stated.
#[verifier::external_body]
pub(crate) fn write_cbor(value: &Cbor) -> (r: Option<Vec<u8>>)
    ensures
        r matches Some(bytes) ==> bytes@ == cbor_writing(*value),
        is_flat_record(*value) ==> r is Some,
        r matches Some(bytes) ==> is_flat_record(*value) ==> cbor_reading(bytes@) == Some(*value),
{
    let mut bytes = Vec::new();
    ciborium::into_writer(&value.to_wire(), &mut bytes).ok().map(|_| bytes)
}

/// The value of the first entry keyed by the text `name`.
pub open spec fn field_of(entries: Seq<(Cbor, Cbor)>, name: Seq<char>) -> Option<Cbor>
    decreases entries.len(),
{
    if entries.len() == 0 {
        None
    } else if entries[0].0 matches Cbor::Text(key) && key@ == name {
        Some(entries[0].1)
    } else {
        field_of(entries.drop_first(), name)
    }
}

/// Looks up the first entry keyed by the text `name`; entries with a key of
/// another type never match.
pub fn find_field<'a>(entries: &'a [(Cbor, Cbor)], name: &str) -> (r: Option<&'a Cbor>)
    ensures
        r is None <==> field_of(entries@, name@) is None,
        r matches Some(v) ==> field_of(entries@, name@) == Some(*v),
{
    let mut i: usize = 0;
    assert(entries@.skip(0) =~= entries@);
    while i < entries.len()
        invariant
            0 <= i <= entries@.len(),
            field_of(entries@, name@) == field_of(entries@.skip(i as int), name@),
        decreases entries@.len() - i,
    {
        proof {
            assert(entries@.skip(i as int).drop_first() =~= entries@.skip(i + 1));
        }
        if let Cbor::Text(key) = &entries[i].0 {
            if text_equals(key.as_str(), name) {
                return Some(&entries[i].1);
            }
        }
        i = i + 1;
    }
    None
}

/// Whether the entry's key is one of `known`.
pub open spec fn is_known_key(key: Cbor, known: Seq<Seq<char>>) -> bool {
    key matches Cbor::Text(text) && known.contains(text@)
}

/// How many entries have a key that is not one of `known`.
pub open spec fn unknown_count(entries: Seq<(Cbor, Cbor)>, known: Seq<Seq<char>>) -> nat
    decreases entries.len(),
{
    if entries.len() == 0 {
        0
    } else {
        (if is_known_key(entries.last().0, known) { 0nat } else { 1nat }) + unknown_count(
            entries.drop_last(),
            known,
        )
    }
}

/// Whether `name` is one of `known`.
pub fn is_one_of(name: &str, known: &[&str]) -> (r: bool)
    ensures
        r == known@.map_values(|k: &str| k@).contains(name@),
{
    let ghost views = known@.map_values(|k: &str| k@);
    let mut i: usize = 0;
    while i < known.len()
        invariant
            views == known@.map_values(|k: &str| k@),
            0 <= i <= known@.len(),
            forall|j: int| 0 <= j < i ==> views[j] != name@,
        decreases known@.len() - i,
    {
        if text_equals(known[i], name) {
            assert(views[i as int] == name@);
            return true;
        }
        i = i + 1;
    }
    false
}

/// Counts the entries whose key is not one of `known`.
pub fn count_unknown(entries: &[(Cbor, Cbor)], known: &[&str]) -> (r: u64)
    ensures
        r == unknown_count(entries@, known@.map_values(|k: &str| k@)),
{
    let ghost views = known@.map_values(|k: &str| k@);
    let mut count: u64 = 0;
    let mut i: usize = 0;
    let n = entries.len();
    assert(n <= u64::MAX) by {
        assert(usize::MAX <= u64::MAX);
    }
    while i < n
        invariant
            views == known@.map_values(|k: &str| k@),
            n == entries@.len(),
            n <= u64::MAX,
            0 <= i <= entries@.len(),
            count == unknown_count(entries@.take(i as int), views),
            count <= i,
        decreases entries@.len() - i,
    {
        let known_key = match &entries[i].0 {
            Cbor::Text(key) => is_one_of(key.as_str(), known),
            _ => false,
        };
        proof {
            assert(entries@.take(i + 1).drop_last() =~= entries@.take(i as int));
            assert(entries@.take(i + 1).last() == entries@[i as int]);
        }
        if !known_key {
            count = count + 1;
        }
        i = i + 1;
    }
    assert(entries@.take(entries@.len() as int) =~= entries@);
    count
}

} // verus!
