//! Finding a key in a list in which no key occurs twice.

use vstd::prelude::*;

verus! {

/// Where `key` stands in `keys`, if it stands there at all.
pub open spec fn position<K>(keys: Seq<K>, key: K) -> Option<int> {
    if keys.contains(key) {
        Some(keys.index_of(key))
    } else {
        None
    }
}

/// A position that is found holds the key, and a key that is not found
/// stands nowhere in the list.
pub proof fn lemma_position<K>(keys: Seq<K>, key: K)
    ensures
        match position(keys, key) {
            Some(i) => 0 <= i < keys.len() && keys[i] == key,
            None => forall|j: int| 0 <= j < keys.len() ==> keys[j] != key,
        },
{
}

/// Without repeated keys, the place where a key stands is its position.
pub proof fn lemma_position_unique<K>(keys: Seq<K>, i: int, key: K)
    requires
        keys.no_duplicates(),
        0 <= i < keys.len(),
        keys[i] == key,
    ensures
        position(keys, key) == Some(i),
{
    assert(keys.contains(key));
}

/// Appending a key that is new keeps the keys unrepeated, puts the new key
/// at the end and leaves every other position as it was.
pub proof fn lemma_position_push<K>(keys: Seq<K>, new_key: K, key: K)
    requires
        keys.no_duplicates(),
        !keys.contains(new_key),
    ensures
        keys.push(new_key).no_duplicates(),
        position(keys.push(new_key), key) == if key == new_key {
            Some(keys.len() as int)
        } else {
            position(keys, key)
        },
{
    let longer = keys.push(new_key);
    assert(longer.no_duplicates()) by {
        assert forall|i: int, j: int|
            0 <= i < longer.len() && 0 <= j < longer.len() && i != j implies longer[i]
            != longer[j] by {
            if i < keys.len() && j < keys.len() {
                assert(longer[i] == keys[i] && longer[j] == keys[j]);
            } else if i < keys.len() {
                assert(keys.contains(keys[i]));
            } else {
                assert(keys.contains(keys[j]));
            }
        }
    }
    if key == new_key {
        assert(longer[keys.len() as int] == key);
        lemma_position_unique(longer, keys.len() as int, key);
    } else if keys.contains(key) {
        let i = keys.index_of(key);
        assert(longer[i] == key);
        lemma_position_unique(longer, i, key);
    } else {
        if longer.contains(key) {
            let j = longer.index_of(key);
            assert(j < keys.len());
            assert(keys[j] == key);
            assert(keys.contains(key));
        }
    }
}

/// The keys of a list of entries, in the order of the list.
pub open spec fn keys_of<E, K>(entries: Seq<E>, key_of: spec_fn(E) -> K) -> Seq<K> {
    Seq::new(entries.len(), |i: int| key_of(entries[i]))
}

/// The entry that stands under `key`, if there is one.
pub open spec fn get<E, K>(entries: Seq<E>, key_of: spec_fn(E) -> K, key: K) -> Option<E> {
    match position(keys_of(entries, key_of), key) {
        Some(i) => Some(entries[i]),
        None => None,
    }
}

/// The list with `entry` under its key: in the place of the entry that
/// stood there, or at the end where none did.
pub open spec fn put<E, K>(entries: Seq<E>, key_of: spec_fn(E) -> K, entry: E) -> Seq<E> {
    match position(keys_of(entries, key_of), key_of(entry)) {
        Some(i) => entries.update(i, entry),
        None => entries.push(entry),
    }
}

/// Putting an entry keeps the keys unrepeated, makes it the entry under its
/// key and leaves every other key as it was.
pub proof fn lemma_put<E, K>(entries: Seq<E>, key_of: spec_fn(E) -> K, entry: E)
    requires
        keys_of(entries, key_of).no_duplicates(),
    ensures
        keys_of(put(entries, key_of, entry), key_of).no_duplicates(),
        keys_of(put(entries, key_of, entry), key_of) == if keys_of(entries, key_of).contains(
            key_of(entry),
        ) {
            keys_of(entries, key_of)
        } else {
            keys_of(entries, key_of).push(key_of(entry))
        },
        forall|key: K| #[trigger]
            get(put(entries, key_of, entry), key_of, key) == if key == key_of(entry) {
                Some(entry)
            } else {
                get(entries, key_of, key)
            },
{
    let keys = keys_of(entries, key_of);
    let after = put(entries, key_of, entry);
    let new_key = key_of(entry);
    lemma_position(keys, new_key);
    match position(keys, new_key) {
        Some(i) => {
            assert(keys_of(after, key_of) =~= keys);
            assert forall|key: K| #[trigger]
                get(after, key_of, key) == if key == new_key {
                    Some(entry)
                } else {
                    get(entries, key_of, key)
                } by {
                lemma_position(keys, key);
            }
        },
        None => {
            assert(keys_of(after, key_of) =~= keys.push(new_key));
            lemma_position_push(keys, new_key, new_key);
            assert forall|key: K| #[trigger]
                get(after, key_of, key) == if key == new_key {
                    Some(entry)
                } else {
                    get(entries, key_of, key)
                } by {
                lemma_position_push(keys, new_key, key);
                lemma_position(keys, key);
            }
        },
    }
}

} // verus!
