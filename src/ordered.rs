//! Sequences of `(path, value)` pairs kept strictly sorted by path, read as
//! finite maps. The change log, the manifest and the working-tree scan all
//! have this shape.

use vstd::prelude::*;
use crate::path::{path_lt, lemma_path_lt_irreflexive, lemma_path_lt_transitive};

verus! {

/// Keys strictly increase in the path order (so each key occurs once).
pub open spec fn keys_sorted<T>(s: Seq<(Seq<u8>, T)>) -> bool {
    forall|i: int, j: int| 0 <= i < j < s.len() ==> path_lt(#[trigger] s[i].0, #[trigger] s[j].0)
}

pub open spec fn has_key<T>(s: Seq<(Seq<u8>, T)>, p: Seq<u8>) -> bool {
    exists|i: int| 0 <= i < s.len() && #[trigger] s[i].0 == p
}

/// The value stored under `p`, read as a map.
pub open spec fn lookup<T>(s: Seq<(Seq<u8>, T)>, p: Seq<u8>) -> Option<T> {
    if has_key(s, p) {
        Some(s[choose|i: int| 0 <= i < s.len() && #[trigger] s[i].0 == p].1)
    } else {
        None
    }
}

pub proof fn lemma_sorted_index_unique<T>(s: Seq<(Seq<u8>, T)>, i: int, j: int)
    requires
        keys_sorted(s),
        0 <= i < s.len(),
        0 <= j < s.len(),
        s[i].0 == s[j].0,
    ensures
        i == j,
{
    if i < j {
        assert(path_lt(s[i].0, s[j].0));
        lemma_path_lt_irreflexive(s[i].0);
    } else if j < i {
        assert(path_lt(s[j].0, s[i].0));
        lemma_path_lt_irreflexive(s[i].0);
    }
}

pub proof fn lemma_lookup_at<T>(s: Seq<(Seq<u8>, T)>, i: int)
    requires
        keys_sorted(s),
        0 <= i < s.len(),
    ensures
        lookup(s, s[i].0) == Some(s[i].1),
{
    assert(has_key(s, s[i].0));
    let j = choose|j: int| 0 <= j < s.len() && #[trigger] s[j].0 == s[i].0;
    lemma_sorted_index_unique(s, i, j);
}

pub proof fn lemma_lookup_absent<T>(s: Seq<(Seq<u8>, T)>, p: Seq<u8>)
    requires
        forall|i: int| 0 <= i < s.len() ==> #[trigger] s[i].0 != p,
    ensures
        lookup(s, p) is None,
{
}

/// A prefix one longer holds one more key.
pub proof fn lemma_has_key_extend<T>(s: Seq<(Seq<u8>, T)>, i: int, q: Seq<u8>)
    requires
        0 <= i < s.len(),
    ensures
        has_key(s.subrange(0, i + 1), q) == (has_key(s.subrange(0, i), q) || s[i].0 == q),
{
    if has_key(s.subrange(0, i + 1), q) {
        let k = choose|k: int| 0 <= k < i + 1 && #[trigger] s.subrange(0, i + 1)[k].0 == q;
        if k < i {
            assert(s.subrange(0, i)[k] == s[k]);
        }
    }
    if has_key(s.subrange(0, i), q) {
        let k = choose|k: int| 0 <= k < i && #[trigger] s.subrange(0, i)[k].0 == q;
        assert(s.subrange(0, i + 1)[k] == s[k]);
    }
    if s[i].0 == q {
        assert(s.subrange(0, i + 1)[i] == s[i]);
    }
}

/// A present key is found at some index.
pub proof fn lemma_lookup_some<T>(s: Seq<(Seq<u8>, T)>, p: Seq<u8>) -> (i: int)
    requires
        keys_sorted(s),
        lookup(s, p) is Some,
    ensures
        0 <= i < s.len(),
        s[i].0 == p,
        lookup(s, p) == Some(s[i].1),
{
    let i = choose|i: int| 0 <= i < s.len() && #[trigger] s[i].0 == p;
    lemma_lookup_at(s, i);
    i
}

/// Appending a key greater than all others keeps the order and adds one key.
pub proof fn lemma_push<T>(s: Seq<(Seq<u8>, T)>, e: (Seq<u8>, T))
    requires
        keys_sorted(s),
        forall|i: int| 0 <= i < s.len() ==> path_lt(#[trigger] s[i].0, e.0),
    ensures
        keys_sorted(s.push(e)),
        forall|q: Seq<u8>|
            #[trigger] lookup(s.push(e), q) == if q == e.0 {
                Some(e.1)
            } else {
                lookup(s, q)
            },
{
    let t = s.push(e);
    assert forall|i: int, j: int| 0 <= i < j < t.len() implies path_lt(#[trigger] t[i].0, #[trigger] t[j].0) by {
        if j == s.len() {
            assert(t[i] == s[i]);
        } else {
            assert(t[i] == s[i] && t[j] == s[j]);
        }
    }
    assert forall|q: Seq<u8>| #[trigger] lookup(t, q) == if q == e.0 {
        Some(e.1)
    } else {
        lookup(s, q)
    } by {
        if q == e.0 {
            lemma_lookup_at(t, s.len() as int);
        } else if lookup(s, q) is Some {
            let i = lemma_lookup_some(s, q);
            assert(t[i] == s[i]);
            lemma_lookup_at(t, i);
        } else {
            assert forall|i: int| 0 <= i < t.len() implies #[trigger] t[i].0 != q by {
                if i < s.len() {
                    assert(t[i] == s[i]);
                    if s[i].0 == q {
                        lemma_lookup_at(s, i);
                    }
                }
            }
        }
    }
}

/// Inserting a new key at its place in the order.
pub proof fn lemma_insert<T>(s: Seq<(Seq<u8>, T)>, k: int, e: (Seq<u8>, T))
    requires
        keys_sorted(s),
        0 <= k <= s.len(),
        forall|i: int| 0 <= i < k ==> path_lt(#[trigger] s[i].0, e.0),
        forall|i: int| k <= i < s.len() ==> path_lt(e.0, #[trigger] s[i].0),
    ensures
        keys_sorted(s.insert(k, e)),
        forall|q: Seq<u8>|
            #[trigger] lookup(s.insert(k, e), q) == if q == e.0 {
                Some(e.1)
            } else {
                lookup(s, q)
            },
{
    let t = s.insert(k, e);
    assert forall|i: int, j: int| 0 <= i < j < t.len() implies path_lt(#[trigger] t[i].0, #[trigger] t[j].0) by {
        if j < k {
        } else if j == k {
        } else if i < k {
            assert(t[j] == s[j - 1]);
            lemma_path_lt_transitive(s[i].0, e.0, s[j - 1].0);
        } else if i == k {
        } else {
            assert(t[i] == s[i - 1] && t[j] == s[j - 1]);
        }
    }
    assert forall|q: Seq<u8>| #[trigger] lookup(t, q) == if q == e.0 {
        Some(e.1)
    } else {
        lookup(s, q)
    } by {
        if q == e.0 {
            lemma_lookup_at(t, k);
        } else if lookup(s, q) is Some {
            let i = lemma_lookup_some(s, q);
            if i < k {
                assert(t[i] == s[i]);
                lemma_lookup_at(t, i);
            } else {
                assert(t[i + 1] == s[i]);
                lemma_lookup_at(t, i + 1);
            }
        } else {
            assert forall|i: int| 0 <= i < t.len() implies #[trigger] t[i].0 != q by {
                if i < k {
                    assert(t[i] == s[i]);
                    if s[i].0 == q {
                        lemma_lookup_at(s, i);
                    }
                } else if i > k {
                    assert(t[i] == s[i - 1]);
                    if s[i - 1].0 == q {
                        lemma_lookup_at(s, i - 1);
                    }
                }
            }
        }
    }
}

/// Replacing the value under an existing key.
pub proof fn lemma_update<T>(s: Seq<(Seq<u8>, T)>, k: int, e: (Seq<u8>, T))
    requires
        keys_sorted(s),
        0 <= k < s.len(),
        s[k].0 == e.0,
    ensures
        keys_sorted(s.update(k, e)),
        forall|q: Seq<u8>|
            #[trigger] lookup(s.update(k, e), q) == if q == e.0 {
                Some(e.1)
            } else {
                lookup(s, q)
            },
{
    let t = s.update(k, e);
    assert forall|i: int, j: int| 0 <= i < j < t.len() implies path_lt(#[trigger] t[i].0, #[trigger] t[j].0) by {
        assert(t[i].0 == s[i].0 && t[j].0 == s[j].0);
    }
    assert forall|q: Seq<u8>| #[trigger] lookup(t, q) == if q == e.0 {
        Some(e.1)
    } else {
        lookup(s, q)
    } by {
        if q == e.0 {
            lemma_lookup_at(t, k);
        } else if lookup(s, q) is Some {
            let i = lemma_lookup_some(s, q);
            assert(t[i] == s[i]);
            lemma_lookup_at(t, i);
        } else {
            assert forall|i: int| 0 <= i < t.len() implies #[trigger] t[i].0 != q by {
                if i != k && s[i].0 == q {
                    lemma_lookup_at(s, i);
                }
            }
        }
    }
}

/// Removing the entry at index `k`.
pub proof fn lemma_remove<T>(s: Seq<(Seq<u8>, T)>, k: int)
    requires
        keys_sorted(s),
        0 <= k < s.len(),
    ensures
        keys_sorted(s.remove(k)),
        forall|q: Seq<u8>|
            #[trigger] lookup(s.remove(k), q) == if q == s[k].0 {
                None
            } else {
                lookup(s, q)
            },
{
    let t = s.remove(k);
    assert forall|i: int, j: int| 0 <= i < j < t.len() implies path_lt(#[trigger] t[i].0, #[trigger] t[j].0) by {
        if j < k {
        } else if i < k {
            assert(t[j] == s[j + 1]);
        } else {
            assert(t[i] == s[i + 1] && t[j] == s[j + 1]);
        }
    }
    assert forall|q: Seq<u8>| #[trigger] lookup(t, q) == if q == s[k].0 {
        None
    } else {
        lookup(s, q)
    } by {
        if q == s[k].0 {
            assert forall|i: int| 0 <= i < t.len() implies #[trigger] t[i].0 != q by {
                if i < k {
                    assert(t[i] == s[i]);
                    if s[i].0 == q {
                        lemma_sorted_index_unique(s, i, k);
                    }
                } else {
                    assert(t[i] == s[i + 1]);
                    if s[i + 1].0 == q {
                        lemma_sorted_index_unique(s, i + 1, k);
                    }
                }
            }
        } else if lookup(s, q) is Some {
            let i = lemma_lookup_some(s, q);
            if i < k {
                assert(t[i] == s[i]);
                lemma_lookup_at(t, i);
            } else {
                assert(t[i - 1] == s[i]);
                lemma_lookup_at(t, i - 1);
            }
        } else {
            assert forall|i: int| 0 <= i < t.len() implies #[trigger] t[i].0 != q by {
                if i < k {
                    assert(t[i] == s[i]);
                    if s[i].0 == q {
                        lemma_lookup_at(s, i);
                    }
                } else {
                    assert(t[i] == s[i + 1]);
                    if s[i + 1].0 == q {
                        lemma_lookup_at(s, i + 1);
                    }
                }
            }
        }
    }
}


/// Two sorted sequences that hold the same value under every key are the
/// same sequence.
pub proof fn lemma_same_lookup_equal<T>(a: Seq<(Seq<u8>, T)>, b: Seq<(Seq<u8>, T)>)
    requires
        keys_sorted(a),
        keys_sorted(b),
        forall|q: Seq<u8>| #[trigger] lookup(a, q) == lookup(b, q),
    ensures
        a == b,
    decreases a.len(),
{
    if a.len() == 0 {
        if b.len() > 0 {
            lemma_lookup_at(b, 0);
            assert(lookup(a, b[0].0) == lookup(b, b[0].0));
        }
        assert(a =~= b);
    } else if b.len() == 0 {
        lemma_lookup_at(a, 0);
        assert(lookup(a, a[0].0) == lookup(b, a[0].0));
    } else {
        let la = a.len() - 1;
        let lb = b.len() - 1;
        lemma_lookup_at(a, la);
        lemma_lookup_at(b, lb);
        assert(lookup(a, a[la].0) == lookup(b, a[la].0));
        assert(lookup(a, b[lb].0) == lookup(b, b[lb].0));
        let ka = lemma_lookup_some(b, a[la].0);
        let kb = lemma_lookup_some(a, b[lb].0);
        if a[la].0 != b[lb].0 {
            assert(kb < la);
            assert(ka < lb);
            assert(path_lt(a[kb].0, a[la].0));
            assert(path_lt(b[ka].0, b[lb].0));
            crate::path::lemma_path_lt_asymmetric(a[la].0, b[lb].0);
        }
        assert(a[la] == b[lb]);
        lemma_remove(a, la);
        lemma_remove(b, lb);
        assert(a.remove(la) =~= a.drop_last());
        assert(b.remove(lb) =~= b.drop_last());
        assert forall|q: Seq<u8>| #[trigger] lookup(a.drop_last(), q) == lookup(b.drop_last(), q) by {
            assert(lookup(a, q) == lookup(b, q));
        }
        lemma_same_lookup_equal(a.drop_last(), b.drop_last());
        assert(a =~= a.drop_last().push(a[la]));
        assert(b =~= b.drop_last().push(b[lb]));
    }
}

} // verus!
