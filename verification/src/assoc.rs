//! Association lists keyed by byte strings: the model behind the header
//! mapping and the route table. Insertion keeps the first occurrence's
//! position and the last written value ("last write wins"); lookups find
//! the unique entry for a key.

use vstd::prelude::*;

verus! {

/// Index of the first entry whose key is `k`, scanning from `i`.
pub open spec fn key_at<V>(s: Seq<(Seq<u8>, V)>, k: Seq<u8>, i: int) -> Option<int>
    decreases s.len() - i
    when 0 <= i <= s.len()
{
    if i >= s.len() {
        None
    } else if s[i].0 == k {
        Some(i)
    } else {
        key_at(s, k, i + 1)
    }
}

pub open spec fn key_idx<V>(s: Seq<(Seq<u8>, V)>, k: Seq<u8>) -> Option<int> {
    key_at(s, k, 0)
}

pub open spec fn has_key<V>(s: Seq<(Seq<u8>, V)>, k: Seq<u8>) -> bool {
    key_idx(s, k) is Some
}

pub open spec fn value_of<V>(s: Seq<(Seq<u8>, V)>, k: Seq<u8>) -> V
    recommends
        has_key(s, k),
{
    s[key_idx(s, k)->0].1
}

/// No two entries share a key.
pub open spec fn uniq_keys<V>(s: Seq<(Seq<u8>, V)>) -> bool {
    forall|i: int, j: int| 0 <= i < j < s.len() ==> s[i].0 != s[j].0
}

/// Replaces the value at an existing key in place, or appends a new entry.
pub open spec fn insert_assoc<V>(s: Seq<(Seq<u8>, V)>, k: Seq<u8>, v: V) -> Seq<(Seq<u8>, V)> {
    match key_idx(s, k) {
        Some(i) => s.update(i, (k, v)),
        None => s.push((k, v)),
    }
}

pub proof fn lemma_key_at<V>(s: Seq<(Seq<u8>, V)>, k: Seq<u8>, i: int)
    requires
        0 <= i <= s.len(),
    ensures
        match key_at(s, k, i) {
            Some(j) => i <= j < s.len() && s[j].0 == k && (forall|m: int|
                i <= m < j ==> s[m].0 != k),
            None => forall|m: int| i <= m < s.len() ==> s[m].0 != k,
        },
    decreases s.len() - i,
{
    if i < s.len() && s[i].0 != k {
        lemma_key_at(s, k, i + 1);
    }
}

/// Sequences with pointwise-equal keys are scanned alike.
pub proof fn lemma_key_at_same_keys<V, W>(
    s: Seq<(Seq<u8>, V)>,
    t: Seq<(Seq<u8>, W)>,
    k: Seq<u8>,
    i: int,
)
    requires
        0 <= i <= s.len(),
        s.len() == t.len(),
        forall|m: int| 0 <= m < s.len() ==> s[m].0 == t[m].0,
    ensures
        key_at(s, k, i) == key_at(t, k, i),
    decreases s.len() - i,
{
    if i < s.len() && s[i].0 != k {
        lemma_key_at_same_keys(s, t, k, i + 1);
    }
}

pub proof fn lemma_key_at_push<V>(s: Seq<(Seq<u8>, V)>, e: (Seq<u8>, V), k: Seq<u8>, i: int)
    requires
        0 <= i <= s.len(),
    ensures
        key_at(s.push(e), k, i) == match key_at(s, k, i) {
            Some(j) => Some(j),
            None => if e.0 == k {
                Some(s.len() as int)
            } else {
                None
            },
        },
    decreases s.len() - i,
{
    if i < s.len() {
        if s.push(e)[i].0 == k {
            assert(s[i].0 == k);
        } else {
            lemma_key_at_push(s, e, k, i + 1);
        }
    } else {
        assert(s.push(e)[s.len() as int] == e);
        if e.0 != k {
            assert(key_at(s.push(e), k, s.len() as int + 1) is None);
        }
    }
}

/// What insertion does to lookups: the inserted key maps to the new value,
/// every other key is untouched, and key uniqueness is preserved.
pub proof fn lemma_insert_assoc<V>(s: Seq<(Seq<u8>, V)>, k: Seq<u8>, v: V)
    requires
        uniq_keys(s),
    ensures
        uniq_keys(insert_assoc(s, k, v)),
        has_key(insert_assoc(s, k, v), k),
        value_of(insert_assoc(s, k, v), k) == v,
        forall|k2: Seq<u8>|
            k2 != k ==> has_key(#[trigger] insert_assoc(s, k, v), k2) == has_key(s, k2),
        forall|k2: Seq<u8>|
            k2 != k && has_key(s, k2) ==> value_of(#[trigger] insert_assoc(s, k, v), k2)
                == value_of(s, k2),
{
    lemma_key_at(s, k, 0);
    let r = insert_assoc(s, k, v);
    match key_idx(s, k) {
        Some(i) => {
            assert(s[i].0 == k);
            assert forall|m: int| 0 <= m < s.len() implies r[m].0 == s[m].0 by {}
            lemma_key_at_same_keys(r, s, k, 0);
            assert(key_idx(r, k) == Some(i));
            assert(value_of(r, k) == v);
            assert forall|k2: Seq<u8>| k2 != k implies has_key(#[trigger] insert_assoc(s, k, v), k2)
                == has_key(s, k2) by {
                lemma_key_at_same_keys(r, s, k2, 0);
            }
            assert forall|k2: Seq<u8>| k2 != k && has_key(s, k2) implies value_of(
                #[trigger] insert_assoc(s, k, v),
                k2,
            ) == value_of(s, k2) by {
                lemma_key_at_same_keys(r, s, k2, 0);
                lemma_key_at(s, k2, 0);
                let j = key_idx(s, k2)->0;
                assert(s[j].0 == k2);
                assert(j != i);
                assert(r[j] == s[j]);
            }
        },
        None => {
            assert(forall|m: int| 0 <= m < s.len() ==> s[m].0 != k);
            assert(r == s.push((k, v)));
            assert forall|i: int, j: int| 0 <= i < j < r.len() implies r[i].0 != r[j].0 by {
                if j == s.len() as int {
                    assert(r[j] == (k, v));
                    assert(r[i] == s[i]);
                } else {
                    assert(r[i] == s[i]);
                    assert(r[j] == s[j]);
                }
            }
            lemma_key_at_push(s, (k, v), k, 0);
            assert(key_idx(r, k) == Some(s.len() as int));
            assert(r[s.len() as int] == (k, v));
            assert forall|k2: Seq<u8>| k2 != k implies has_key(#[trigger] insert_assoc(s, k, v), k2)
                == has_key(s, k2) by {
                lemma_key_at_push(s, (k, v), k2, 0);
            }
            assert forall|k2: Seq<u8>| k2 != k && has_key(s, k2) implies value_of(
                #[trigger] insert_assoc(s, k, v),
                k2,
            ) == value_of(s, k2) by {
                lemma_key_at_push(s, (k, v), k2, 0);
                lemma_key_at(s, k2, 0);
                let j = key_idx(s, k2)->0;
                assert(r[j] == s[j]);
            }
        },
    }
}

} // verus!
