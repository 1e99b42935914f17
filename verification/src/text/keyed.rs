//! Lists of entries that are found by a text, their key.

use vstd::prelude::*;
use vstd::string::*;

use crate::text::str_eq;

verus! {

/// The index of the first of `keys` that equals `k`.
pub open spec fn position(keys: Seq<Seq<char>>, k: Seq<char>) -> Option<int>
    decreases keys.len(),
{
    if keys.len() == 0 {
        None
    } else if position(keys.drop_last(), k) is None && keys.last() == k {
        Some(keys.len() - 1)
    } else {
        position(keys.drop_last(), k)
    }
}

/// `position` finds the first index at which `k` stands.
pub proof fn lemma_position_some(keys: Seq<Seq<char>>, k: Seq<char>, i: int)
    requires
        0 <= i < keys.len(),
        keys[i] == k,
        forall|j: int| 0 <= j < i ==> keys[j] != k,
    ensures
        position(keys, k) == Some(i),
    decreases keys.len(),
{
    if i < keys.len() - 1 {
        lemma_position_some(keys.drop_last(), k, i);
    } else {
        lemma_position_none(keys.drop_last(), k);
    }
}

/// `position` finds nothing where `k` stands nowhere.
pub proof fn lemma_position_none(keys: Seq<Seq<char>>, k: Seq<char>)
    requires
        forall|j: int| 0 <= j < keys.len() ==> keys[j] != k,
    ensures
        position(keys, k) is None,
    decreases keys.len(),
{
    if keys.len() > 0 {
        lemma_position_none(keys.drop_last(), k);
    }
}

/// What `position` finds is an index at which `k` stands, with `k` nowhere
/// before it; it finds nothing only where `k` stands nowhere.
pub proof fn lemma_position_is_first(keys: Seq<Seq<char>>, k: Seq<char>)
    ensures
        match position(keys, k) {
            Some(i) => 0 <= i < keys.len() && keys[i] == k && forall|j: int|
                0 <= j < i ==> keys[j] != k,
            None => forall|j: int| 0 <= j < keys.len() ==> keys[j] != k,
        },
    decreases keys.len(),
{
    if keys.len() > 0 {
        let front = keys.drop_last();
        lemma_position_is_first(front, k);
        assert forall|j: int| 0 <= j < front.len() implies front[j] == keys[j] by {}
        match position(keys, k) {
            Some(i) => {
                assert forall|j: int| 0 <= j < i implies keys[j] != k by {
                    assert(front[j] == keys[j]);
                }
            },
            None => {
                assert forall|j: int| 0 <= j < keys.len() implies keys[j] != k by {
                    if j < front.len() {
                        assert(front[j] == keys[j]);
                    }
                }
            },
        }
    }
}

/// No key occurs twice among `keys`.
pub open spec fn distinct(keys: Seq<Seq<char>>) -> bool {
    forall|i: int, j: int| 0 <= i < j < keys.len() ==> keys[i] != keys[j]
}

/// The keys of a list of entries, each a key and what is filed under it.
pub open spec fn keys_of<X>(entries: Seq<(String, X)>) -> Seq<Seq<char>> {
    entries.map_values(|e: (String, X)| e.0@)
}

/// Finds the first entry of a list that is filed under the key `k`.
pub fn find_key<X>(entries: &[(String, X)], k: &str) -> (r: Option<usize>)
    ensures
        match r {
            Some(i) => i < entries@.len() && position(keys_of(entries@), k@) == Some(i as int),
            None => position(keys_of(entries@), k@) is None,
        },
{
    let ghost keys = keys_of(entries@);
    let mut i: usize = 0;
    while i < entries.len()
        invariant
            i <= entries@.len(),
            keys == keys_of(entries@),
            forall|j: int| 0 <= j < i ==> keys[j] != k@,
        decreases entries@.len() - i,
    {
        if str_eq(entries[i].0.as_str(), k) {
            proof {
                lemma_position_some(keys, k@, i as int);
            }
            return Some(i);
        }
        i += 1;
    }
    proof {
        lemma_position_none(keys, k@);
    }
    None
}


/// Keys stay distinct where a key that is not among them yet is added.
pub proof fn lemma_distinct_push(keys: Seq<Seq<char>>, k: Seq<char>)
    requires
        distinct(keys),
        position(keys, k) is None,
    ensures
        distinct(keys.push(k)),
{
    lemma_position_is_first(keys, k);
}

} // verus!
