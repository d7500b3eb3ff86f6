//! Association lists: the spec-level map the ledgers are stated over, kept
//! as a sequence of key/value pairs with no key repeated.
//!
//! The ledgers hold their entries in `Vec`s of pairs rather than in std's
//! hash or B-tree maps. Their keys are identities of this crate (`PeerId`,
//! `NetPeer`, addresses) whose `Eq`, `Hash` and `Ord` are derived, and Verus
//! does not read a derived impl: a `HashMap` or `BTreeMap` keyed by them
//! gets no usable specification, not even of its length after an insert. A
//! sequence with no key repeated carries the same contents with every
//! operation proved, and an explicit order where the ledgers need one
//! (identity order, the order links arrived in).
use vstd::prelude::*;

verus! {

/// The value held for `key`: that of its first entry.
pub open spec fn lookup<K, V>(entries: Seq<(K, V)>, key: K) -> Option<V>
    decreases entries.len(),
{
    if entries.len() == 0 {
        None
    } else if entries[0].0 == key {
        Some(entries[0].1)
    } else {
        lookup(entries.drop_first(), key)
    }
}

/// No key appears in two entries.
pub open spec fn keys_unique<K, V>(entries: Seq<(K, V)>) -> bool {
    forall|i: int, j: int|
        0 <= i < entries.len() && 0 <= j < entries.len() && i != j ==> #[trigger] entries[i].0
            != #[trigger] entries[j].0
}

/// Whether some entry has key `key`.
pub open spec fn has_key<K, V>(entries: Seq<(K, V)>, key: K) -> bool {
    exists|i: int| 0 <= i < entries.len() && #[trigger] entries[i].0 == key
}

pub proof fn lemma_lookup_index<K, V>(entries: Seq<(K, V)>, i: int)
    requires
        keys_unique(entries),
        0 <= i < entries.len(),
    ensures
        lookup(entries, entries[i].0) == Some(entries[i].1),
    decreases i,
{
    if i > 0 {
        let rest = entries.drop_first();
        assert(rest[i - 1] == entries[i]);
        assert(entries[0].0 != entries[i].0);
        assert(keys_unique(rest)) by {
            assert forall|a: int, b: int|
                0 <= a < rest.len() && 0 <= b < rest.len() && a != b implies #[trigger] rest[a].0
                != #[trigger] rest[b].0 by {
                assert(rest[a] == entries[a + 1] && rest[b] == entries[b + 1]);
            }
        }
        lemma_lookup_index(rest, i - 1);
    }
}

pub proof fn lemma_lookup_absent<K, V>(entries: Seq<(K, V)>, key: K)
    requires
        !has_key(entries, key),
    ensures
        lookup(entries, key) is None,
    decreases entries.len(),
{
    if entries.len() > 0 {
        let rest = entries.drop_first();
        assert(entries[0].0 != key);
        assert(!has_key(rest, key)) by {
            if has_key(rest, key) {
                let j = choose|j: int| 0 <= j < rest.len() && #[trigger] rest[j].0 == key;
                assert(entries[j + 1].0 == key);
            }
        }
        lemma_lookup_absent(rest, key);
    }
}

/// `lookup` is determined by the entries when keys are unique: present keys
/// give their entry's value, absent keys give nothing.
pub proof fn lemma_lookup_characterized<K, V>(entries: Seq<(K, V)>, key: K)
    requires
        keys_unique(entries),
    ensures
        lookup(entries, key) is Some <==> has_key(entries, key),
        lookup(entries, key) matches Some(v) ==> exists|i: int|
            0 <= i < entries.len() && #[trigger] entries[i].0 == key && entries[i].1 == v,
{
    if has_key(entries, key) {
        let i = choose|i: int| 0 <= i < entries.len() && #[trigger] entries[i].0 == key;
        lemma_lookup_index(entries, i);
    } else {
        lemma_lookup_absent(entries, key);
    }
}

pub proof fn lemma_unique_update<K, V>(entries: Seq<(K, V)>, i: int, v: V)
    requires
        keys_unique(entries),
        0 <= i < entries.len(),
    ensures
        keys_unique(entries.update(i, (entries[i].0, v))),
        forall|k: K|
            #[trigger] lookup(entries.update(i, (entries[i].0, v)), k) == if k == entries[i].0 {
                Some(v)
            } else {
                lookup(entries, k)
            },
{
    let updated = entries.update(i, (entries[i].0, v));
    assert(keys_unique(updated)) by {
        assert forall|a: int, b: int|
            0 <= a < updated.len() && 0 <= b < updated.len() && a != b implies #[trigger] updated[a].0
            != #[trigger] updated[b].0 by {
            assert(updated[a].0 == entries[a].0 && updated[b].0 == entries[b].0);
        }
    }
    assert forall|k: K|
        #[trigger] lookup(updated, k) == if k == entries[i].0 {
            Some(v)
        } else {
            lookup(entries, k)
        } by {
        if k == entries[i].0 {
            lemma_lookup_index(updated, i);
        } else {
            lemma_lookup_characterized(updated, k);
            lemma_lookup_characterized(entries, k);
            if has_key(entries, k) {
                let j = choose|j: int| 0 <= j < entries.len() && #[trigger] entries[j].0 == k;
                assert(updated[j].0 == k);
                lemma_lookup_index(entries, j);
                lemma_lookup_index(updated, j);
            } else {
                assert(!has_key(updated, k)) by {
                    if has_key(updated, k) {
                        let j = choose|j: int| 0 <= j < updated.len() && #[trigger] updated[j].0 == k;
                        assert(entries[j].0 == k);
                    }
                }
            }
        }
    }
}

pub proof fn lemma_unique_push<K, V>(entries: Seq<(K, V)>, key: K, v: V)
    requires
        keys_unique(entries),
        !has_key(entries, key),
    ensures
        keys_unique(entries.push((key, v))),
        forall|k: K|
            #[trigger] lookup(entries.push((key, v)), k) == if k == key {
                Some(v)
            } else {
                lookup(entries, k)
            },
{
    let pushed = entries.push((key, v));
    assert(keys_unique(pushed)) by {
        assert forall|a: int, b: int|
            0 <= a < pushed.len() && 0 <= b < pushed.len() && a != b implies #[trigger] pushed[a].0
            != #[trigger] pushed[b].0 by {
            if a < entries.len() && b < entries.len() {
                assert(pushed[a] == entries[a] && pushed[b] == entries[b]);
            } else if a < entries.len() {
                assert(pushed[a] == entries[a]);
            } else {
                assert(pushed[b] == entries[b]);
            }
        }
    }
    assert forall|k: K|
        #[trigger] lookup(pushed, k) == if k == key {
            Some(v)
        } else {
            lookup(entries, k)
        } by {
        if k == key {
            lemma_lookup_index(pushed, entries.len() as int);
        } else {
            lemma_lookup_characterized(pushed, k);
            lemma_lookup_characterized(entries, k);
            if has_key(entries, k) {
                let j = choose|j: int| 0 <= j < entries.len() && #[trigger] entries[j].0 == k;
                assert(pushed[j] == entries[j]);
                lemma_lookup_index(entries, j);
                lemma_lookup_index(pushed, j);
            } else {
                assert(!has_key(pushed, k)) by {
                    if has_key(pushed, k) {
                        let j = choose|j: int| 0 <= j < pushed.len() && #[trigger] pushed[j].0 == k;
                        assert(j < entries.len());
                        assert(entries[j].0 == k);
                    }
                }
            }
        }
    }
}

pub proof fn lemma_unique_remove<K, V>(entries: Seq<(K, V)>, i: int)
    requires
        keys_unique(entries),
        0 <= i < entries.len(),
    ensures
        keys_unique(entries.remove(i)),
        forall|k: K|
            #[trigger] lookup(entries.remove(i), k) == if k == entries[i].0 {
                None
            } else {
                lookup(entries, k)
            },
{
    let removed = entries.remove(i);
    assert forall|a: int| 0 <= a < removed.len() implies #[trigger] removed[a] == entries[if a < i {
        a
    } else {
        a + 1
    }] by {}
    assert(keys_unique(removed)) by {
        assert forall|a: int, b: int|
            0 <= a < removed.len() && 0 <= b < removed.len() && a != b implies #[trigger] removed[a].0
            != #[trigger] removed[b].0 by {
            let ea = if a < i { a } else { a + 1 };
            let eb = if b < i { b } else { b + 1 };
            assert(removed[a] == entries[ea] && removed[b] == entries[eb]);
        }
    }
    assert forall|k: K|
        #[trigger] lookup(removed, k) == if k == entries[i].0 {
            None
        } else {
            lookup(entries, k)
        } by {
        lemma_lookup_characterized(removed, k);
        lemma_lookup_characterized(entries, k);
        if k == entries[i].0 {
            assert(!has_key(removed, k)) by {
                if has_key(removed, k) {
                    let j = choose|j: int| 0 <= j < removed.len() && #[trigger] removed[j].0 == k;
                    let ej = if j < i { j } else { j + 1 };
                    assert(removed[j] == entries[ej]);
                }
            }
        } else if has_key(entries, k) {
            let j = choose|j: int| 0 <= j < entries.len() && #[trigger] entries[j].0 == k;
            assert(j != i);
            let rj = if j < i { j } else { j - 1 };
            assert(removed[rj] == entries[j]);
            lemma_lookup_index(entries, j);
            lemma_lookup_index(removed, rj);
        } else {
            assert(!has_key(removed, k)) by {
                if has_key(removed, k) {
                    let j = choose|j: int| 0 <= j < removed.len() && #[trigger] removed[j].0 == k;
                    let ej = if j < i { j } else { j + 1 };
                    assert(removed[j] == entries[ej]);
                }
            }
        }
    }
}


/// `entries` with `key` mapped to `v`: its entry replaced in place when
/// present, a new entry at the end otherwise.
pub open spec fn put<K, V>(entries: Seq<(K, V)>, key: K, v: V) -> Seq<(K, V)> {
    if has_key(entries, key) {
        entries.map_values(|e: (K, V)| if e.0 == key { (key, v) } else { e })
    } else {
        entries.push((key, v))
    }
}

/// Replacing the value at an index is `put` of that entry's key.
pub proof fn lemma_put_at<K, V>(entries: Seq<(K, V)>, i: int, v: V)
    requires
        keys_unique(entries),
        0 <= i < entries.len(),
    ensures
        put(entries, entries[i].0, v) == entries.update(i, (entries[i].0, v)),
{
    let key = entries[i].0;
    assert(has_key(entries, key));
    let replaced = entries.map_values(|e: (K, V)| if e.0 == key { (key, v) } else { e });
    assert forall|j: int| 0 <= j < entries.len() implies #[trigger] replaced[j] == entries.update(
        i,
        (key, v),
    )[j] by {
        if j != i {
            assert(entries[j].0 != entries[i].0);
        }
    }
    assert(replaced =~= entries.update(i, (key, v)));
}

/// `put` keeps keys unique and changes the value of `key` alone.
pub proof fn lemma_put<K, V>(entries: Seq<(K, V)>, key: K, v: V)
    requires
        keys_unique(entries),
    ensures
        keys_unique(put(entries, key, v)),
        put(entries, key, v).len() == entries.len() + if has_key(entries, key) { 0int } else { 1int },
        forall|k: K|
            #[trigger] lookup(put(entries, key, v), k) == if k == key {
                Some(v)
            } else {
                lookup(entries, k)
            },
{
    if has_key(entries, key) {
        let i = choose|i: int| 0 <= i < entries.len() && #[trigger] entries[i].0 == key;
        lemma_put_at(entries, i, v);
        lemma_unique_update(entries, i, v);
    } else {
        lemma_unique_push(entries, key, v);
    }
}


/// `entries` without the entry for `key`, if it has one.
pub open spec fn drop_key<K, V>(entries: Seq<(K, V)>, key: K) -> Seq<(K, V)> {
    if has_key(entries, key) {
        entries.remove(choose|i: int| 0 <= i < entries.len() && #[trigger] entries[i].0 == key)
    } else {
        entries
    }
}

/// Dropping the key of an entry removes that entry.
pub proof fn lemma_drop_key_at<K, V>(entries: Seq<(K, V)>, i: int)
    requires
        keys_unique(entries),
        0 <= i < entries.len(),
    ensures
        drop_key(entries, entries[i].0) == entries.remove(i),
        keys_unique(entries.remove(i)),
        forall|k: K|
            #[trigger] lookup(entries.remove(i), k) == if k == entries[i].0 {
                None
            } else {
                lookup(entries, k)
            },
{
    let key = entries[i].0;
    assert(has_key(entries, key));
    let j = choose|j: int| 0 <= j < entries.len() && #[trigger] entries[j].0 == key;
    assert(j == i);
    lemma_unique_remove(entries, i);
}


/// Whether `i` is the first entry with key `key`.
pub open spec fn is_first_index<K, V>(entries: Seq<(K, V)>, key: K, i: int) -> bool {
    &&& 0 <= i < entries.len()
    &&& entries[i].0 == key
    &&& forall|j: int| 0 <= j < i ==> (#[trigger] entries[j]).0 != key
}

/// The first entry with key `key`.
pub open spec fn first_index<K, V>(entries: Seq<(K, V)>, key: K) -> int {
    choose|i: int| is_first_index(entries, key, i)
}

/// `entries` with the value of the first entry for `key` replaced, or a new
/// entry at the end when there is none.
pub open spec fn set_first<K, V>(entries: Seq<(K, V)>, key: K, v: V) -> Seq<(K, V)> {
    if has_key(entries, key) {
        entries.update(first_index(entries, key), (key, v))
    } else {
        entries.push((key, v))
    }
}

/// `entries` without the first entry for `key`, if it has one.
pub open spec fn remove_first<K, V>(entries: Seq<(K, V)>, key: K) -> Seq<(K, V)> {
    if has_key(entries, key) {
        entries.remove(first_index(entries, key))
    } else {
        entries
    }
}

/// The first entry for a key is the one `lookup` reads, and the one
/// `first_index` names.
pub proof fn lemma_first_index<K, V>(entries: Seq<(K, V)>, key: K, i: int)
    requires
        is_first_index(entries, key, i),
    ensures
        first_index(entries, key) == i,
        has_key(entries, key),
        lookup(entries, key) == Some(entries[i].1),
    decreases i,
{
    let f = first_index(entries, key);
    assert(is_first_index(entries, key, f));
    if f < i {
        assert(entries[f].0 != key);
    } else if i < f {
        assert(entries[i].0 != key);
    }
    if i > 0 {
        let rest = entries.drop_first();
        assert(entries[0].0 != key);
        assert(is_first_index(rest, key, i - 1)) by {
            assert forall|j: int| 0 <= j < i - 1 implies (#[trigger] rest[j]).0 != key by {
                assert(rest[j] == entries[j + 1]);
            }
        }
        lemma_first_index(rest, key, i - 1);
    }
}

/// Where no entry has the key, `lookup` finds nothing.
pub proof fn lemma_no_first_index<K, V>(entries: Seq<(K, V)>, key: K)
    requires
        forall|j: int| 0 <= j < entries.len() ==> (#[trigger] entries[j]).0 != key,
    ensures
        !has_key(entries, key),
        lookup(entries, key) is None,
{
    lemma_lookup_absent(entries, key);
}

} // verus!
