//! Sequences of entries that are found by a key: the mathematical side of the
//! small tables the ledger keeps.

use vstd::prelude::*;

verus! {

/// An entry that is found by its key.
pub trait Keyed {
    type Key;

    spec fn key(&self) -> Self::Key;
}

/// Whether some entry of `s` has the key `k`.
pub open spec fn contains_key<T: Keyed>(s: Seq<T>, k: T::Key) -> bool {
    exists|i: int| 0 <= i < s.len() && (#[trigger] s[i]).key() == k
}

/// The place of an entry with key `k`, where there is one.
pub open spec fn index_of_key<T: Keyed>(s: Seq<T>, k: T::Key) -> int {
    choose|i: int| 0 <= i < s.len() && (#[trigger] s[i]).key() == k
}

/// No two entries of `s` share a key.
pub open spec fn distinct_keys<T: Keyed>(s: Seq<T>) -> bool {
    forall|i: int, j: int|
        0 <= i < j < s.len() ==> (#[trigger] s[i]).key() != (#[trigger] s[j]).key()
}

/// The entry with key `k`, or `default` where there is none.
pub open spec fn get_or<T: Keyed>(s: Seq<T>, k: T::Key, default: T) -> T {
    if contains_key(s, k) {
        s[index_of_key(s, k)]
    } else {
        default
    }
}

/// `s` with `v` in the place of the entry that has its key, or at the end
/// where there is none.
pub open spec fn put<T: Keyed>(s: Seq<T>, v: T) -> Seq<T> {
    if contains_key(s, v.key()) {
        s.update(index_of_key(s, v.key()), v)
    } else {
        s.push(v)
    }
}

/// With distinct keys, the entry at `i` is the one found by its key.
pub proof fn lemma_found_at<T: Keyed>(s: Seq<T>, i: int)
    requires
        distinct_keys(s),
        0 <= i < s.len(),
    ensures
        contains_key(s, s[i].key()),
        index_of_key(s, s[i].key()) == i,
{
    let k = s[i].key();
    let j = index_of_key(s, k);
    assert(0 <= j < s.len() && s[j].key() == k);
    if j < i {
        assert(s[j].key() != s[i].key());
    } else if i < j {
        assert(s[i].key() != s[j].key());
    }
}

/// Where a key is contained, its index is in range and holds that key.
pub proof fn lemma_index_of_key<T: Keyed>(s: Seq<T>, k: T::Key)
    requires
        contains_key(s, k),
    ensures
        0 <= index_of_key(s, k) < s.len(),
        s[index_of_key(s, k)].key() == k,
{
}

/// What `put` does to a table with distinct keys: the keys stay distinct, the
/// entry put is found by its key, and every other key finds what it found.
pub proof fn lemma_put<T: Keyed>(s: Seq<T>, v: T)
    requires
        distinct_keys(s),
    ensures
        distinct_keys(put(s, v)),
        contains_key(put(s, v), v.key()),
        put(s, v)[index_of_key(put(s, v), v.key())] == v,
        forall|k: T::Key| k != v.key() ==> contains_key(put(s, v), k) == contains_key(s, k),
        forall|k: T::Key, d: T| k != v.key() ==> get_or(put(s, v), k, d) == get_or(s, k, d),
        forall|d: T| get_or(put(s, v), v.key(), d) == v,
{
    let t = put(s, v);
    let p = if contains_key(s, v.key()) {
        index_of_key(s, v.key())
    } else {
        s.len() as int
    };
    assert(0 <= p < t.len() && t[p] == v);
    assert forall|i: int| 0 <= i < t.len() && i != p implies #[trigger] t[i] == s[i] && s[i].key()
        != v.key() by {
        if contains_key(s, v.key()) {
            if i < p {
                assert(s[i].key() != s[p].key());
            } else {
                assert(s[p].key() != s[i].key());
            }
        }
    }
    assert forall|i: int, j: int| 0 <= i < j < t.len() implies (#[trigger] t[i]).key() != (
    #[trigger] t[j]).key() by {
        if i != p && j != p {
            assert(s[i].key() != s[j].key());
        }
    }
    lemma_found_at(t, p);
    assert forall|k: T::Key| k != v.key() implies contains_key(t, k) == contains_key(s, k) by {
        if contains_key(s, k) {
            let i = index_of_key(s, k);
            assert(t[i].key() == k);
        }
        if contains_key(t, k) {
            let i = index_of_key(t, k);
            assert(s[i].key() == k);
        }
    }
    assert forall|k: T::Key, d: T| k != v.key() implies get_or(t, k, d) == get_or(s, k, d) by {
        if contains_key(s, k) {
            let i = index_of_key(s, k);
            assert(t[i].key() == k);
            lemma_found_at(t, i);
        }
    }
}

/// Every entry of `put(s, v)` is `v` or an entry of `s` in its old place.
pub proof fn lemma_put_entries<T: Keyed>(s: Seq<T>, v: T)
    ensures
        s.len() <= put(s, v).len() <= s.len() + 1,
        forall|k: int|
            0 <= k < put(s, v).len() ==> #[trigger] put(s, v)[k] == v || (k < s.len() && put(
                s,
                v,
            )[k] == s[k]),
{
}

/// Putting an entry where it already is changes nothing.
pub proof fn lemma_put_same<T: Keyed>(s: Seq<T>, v: T)
    requires
        contains_key(s, v.key()),
        s[index_of_key(s, v.key())] == v,
    ensures
        put(s, v) == s,
{
    lemma_index_of_key(s, v.key());
    assert(put(s, v) =~= s);
}

} // verus!
