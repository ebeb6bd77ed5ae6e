//! Relative paths as byte strings, and the order in which the working tree is
//! walked: lexicographic by component, which on bytes is lexicographic with
//! the separator `/` ranked below every other byte.

use vstd::prelude::*;
use core::cmp::Ordering;

verus! {

/// The separator between path components.
pub const SEPARATOR: u8 = 47;

/// Rank of a byte in the path order: the separator first, then every other
/// byte by value.
pub open spec fn byte_rank(b: u8) -> int {
    if b == SEPARATOR {
        0
    } else {
        b as int + 1
    }
}

/// Strict path order: a proper prefix comes first; otherwise the first
/// differing byte decides by rank.
pub open spec fn path_lt(a: Seq<u8>, b: Seq<u8>) -> bool
    decreases a.len(),
{
    if b.len() == 0 {
        false
    } else if a.len() == 0 {
        true
    } else if a[0] == b[0] {
        path_lt(a.drop_first(), b.drop_first())
    } else {
        byte_rank(a[0]) < byte_rank(b[0])
    }
}

pub proof fn lemma_path_lt_irreflexive(a: Seq<u8>)
    ensures
        !path_lt(a, a),
    decreases a.len(),
{
    if a.len() > 0 {
        lemma_path_lt_irreflexive(a.drop_first());
    }
}

pub proof fn lemma_path_lt_asymmetric(a: Seq<u8>, b: Seq<u8>)
    ensures
        path_lt(a, b) ==> !path_lt(b, a),
    decreases a.len(),
{
    if a.len() > 0 && b.len() > 0 && a[0] == b[0] {
        lemma_path_lt_asymmetric(a.drop_first(), b.drop_first());
    }
}

pub proof fn lemma_path_lt_transitive(a: Seq<u8>, b: Seq<u8>, c: Seq<u8>)
    requires
        path_lt(a, b),
        path_lt(b, c),
    ensures
        path_lt(a, c),
    decreases a.len(),
{
    if a.len() > 0 && b.len() > 0 && c.len() > 0 && a[0] == b[0] && b[0] == c[0] {
        lemma_path_lt_transitive(a.drop_first(), b.drop_first(), c.drop_first());
    }
}

pub proof fn lemma_path_lt_total(a: Seq<u8>, b: Seq<u8>)
    ensures
        a != b ==> (path_lt(a, b) || path_lt(b, a)),
    decreases a.len(),
{
    if a.len() > 0 && b.len() > 0 {
        if a[0] == b[0] {
            lemma_path_lt_total(a.drop_first(), b.drop_first());
            if a != b {
                assert(a.drop_first() != b.drop_first()) by {
                    if a.drop_first() == b.drop_first() {
                        assert(a =~= seq![a[0]] + a.drop_first());
                        assert(b =~= seq![b[0]] + b.drop_first());
                    }
                }
            }
        }
    } else if a.len() == 0 && b.len() == 0 {
        assert(a =~= b);
    }
}

/// Compares two paths in the path order.
pub fn compare_paths(a: &Vec<u8>, b: &Vec<u8>) -> (r: Ordering)
    ensures
        (r == Ordering::Less) <==> path_lt(a@, b@),
        (r == Ordering::Equal) <==> a@ == b@,
        (r == Ordering::Greater) <==> path_lt(b@, a@),
{
    proof {
        lemma_path_lt_irreflexive(a@);
        lemma_path_lt_asymmetric(a@, b@);
        lemma_path_lt_total(a@, b@);
        assert(a@.skip(0) =~= a@);
        assert(b@.skip(0) =~= b@);
    }
    let mut i: usize = 0;
    while i < a.len() && i < b.len() && a[i] == b[i]
        invariant
            i <= a.len(),
            i <= b.len(),
            a@.subrange(0, i as int) == b@.subrange(0, i as int),
            path_lt(a@, b@) == path_lt(a@.skip(i as int), b@.skip(i as int)),
            path_lt(b@, a@) == path_lt(b@.skip(i as int), a@.skip(i as int)),
        decreases a.len() - i,
    {
        proof {
            assert(a@.skip(i as int).drop_first() =~= a@.skip(i + 1));
            assert(b@.skip(i as int).drop_first() =~= b@.skip(i + 1));
            assert(a@.subrange(0, i + 1) =~= a@.subrange(0, i as int).push(a[i as int]));
            assert(b@.subrange(0, i + 1) =~= b@.subrange(0, i as int).push(b[i as int]));
        }
        i = i + 1;
    }
    if i == a.len() && i == b.len() {
        assert(a@ =~= a@.subrange(0, i as int));
        assert(b@ =~= b@.subrange(0, i as int));
        Ordering::Equal
    } else if i == a.len() {
        assert(a@.skip(i as int).len() == 0);
        Ordering::Less
    } else if i == b.len() {
        assert(b@.skip(i as int).len() == 0);
        Ordering::Greater
    } else {
        assert(a@.skip(i as int)[0] == a[i as int]);
        assert(b@.skip(i as int)[0] == b[i as int]);
        if a[i] == SEPARATOR || (b[i] != SEPARATOR && a[i] < b[i]) {
            Ordering::Less
        } else {
            Ordering::Greater
        }
    }
}

} // verus!
