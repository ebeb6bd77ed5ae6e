//! The diff engine: a sorted merge-join of the change log against a scan of
//! the working tree, classifying every path again from scratch.

use vstd::prelude::*;
use core::cmp::Ordering;
use crate::content_id::{ContentId, empty_cid, copy_bytes};
use crate::log::{ChangeType, Log};
use crate::changes::base_records_confirmed;
use crate::manifest::ManifestView;
use crate::ordered::{keys_sorted, has_key, lookup, lemma_lookup_at, lemma_lookup_absent, lemma_has_key_extend};
use crate::path::{path_lt, compare_paths, lemma_path_lt_irreflexive, lemma_path_lt_transitive};

verus! {

pub enum ScanKind {
    Directory,
    File(Seq<u8>),
}

/// What the scan found at a path: a directory, or a file with the
/// identifier that hashing its bytes (without storing them) gave.
#[derive(Debug)]
pub enum EntryKind {
    Directory,
    File(ContentId),
}

impl View for EntryKind {
    type V = ScanKind;

    open spec fn view(&self) -> ScanKind {
        match self {
            EntryKind::Directory => ScanKind::Directory,
            EntryKind::File(c) => ScanKind::File(c@),
        }
    }
}

/// One path of the working tree, relative to its root (the root itself is
/// the empty path).
#[derive(Debug)]
pub struct ScanEntry {
    pub path: Vec<u8>,
    pub kind: EntryKind,
}

impl View for ScanEntry {
    type V = (Seq<u8>, ScanKind);

    open spec fn view(&self) -> (Seq<u8>, ScanKind) {
        (self.path@, self.kind@)
    }
}

pub open spec fn scan_view(s: Seq<ScanEntry>) -> Seq<(Seq<u8>, ScanKind)> {
    s.map_values(|e: ScanEntry| e@)
}

pub type LogView = Seq<(Seq<u8>, (Seq<u8>, ChangeType))>;

/// The log that the merge walks: the log with the working-tree root seeded
/// as an unchanged entry.
pub open spec fn seeded(base: LogView, p: Seq<u8>) -> Option<(Seq<u8>, ChangeType)> {
    if p.len() == 0 {
        Some((empty_cid(), ChangeType::Base))
    } else {
        lookup(base, p)
    }
}

/// The record of `p` after a diff of log `base` against `scan`.
/// - In the log only: dropped if it was `Added`, else `Removed` with the
///   sentinel identifier (the root is a directory and is left as it was).
/// - In the scan only: a file becomes `Added` with its identifier; a
///   directory is not recorded.
/// - In both: a file whose identifier differs becomes `Modified` (or stays
///   `Added`) with the new identifier; anything else is left as it was.
pub open spec fn diff_at(base: LogView, scan: Seq<(Seq<u8>, ScanKind)>, p: Seq<u8>) -> Option<(Seq<u8>, ChangeType)> {
    let orig = lookup(base, p);
    match seeded(base, p) {
        Some(b) => match lookup(scan, p) {
            None => if p.len() == 0 {
                orig
            } else if b.1 == ChangeType::Added {
                None
            } else {
                Some((empty_cid(), ChangeType::Removed))
            },
            Some(ScanKind::File(h)) => if h != b.0 {
                Some((h, if b.1 == ChangeType::Added { ChangeType::Added } else { ChangeType::Modified }))
            } else {
                orig
            },
            Some(ScanKind::Directory) => orig,
        },
        None => match lookup(scan, p) {
            Some(ScanKind::File(h)) => Some((h, ChangeType::Added)),
            _ => orig,
        },
    }
}

/// Whether a scan is in strictly increasing path order.
pub fn scan_is_sorted(scan: &Vec<ScanEntry>) -> (r: bool)
    ensures
        r == keys_sorted(scan_view(scan@)),
{
    let ghost s = scan_view(scan@);
    if scan.len() == 0 {
        return true;
    }
    let mut i: usize = 1;
    while i < scan.len()
        invariant
            s == scan_view(scan@),
            s.len() == scan@.len(),
            1 <= i <= s.len(),
            forall|a: int, b: int| 0 <= a < b < i ==> path_lt(#[trigger] s[a].0, #[trigger] s[b].0),
        decreases scan.len() - i,
    {
        assert(s[i - 1] == scan@[i - 1]@ && s[i as int] == scan@[i as int]@);
        match compare_paths(&scan[i - 1].path, &scan[i].path) {
            Ordering::Less => {},
            _ => {
                proof {
                    if keys_sorted(s) {
                        assert(path_lt(s[i - 1].0, s[i as int].0));
                    }
                }
                return false;
            },
        }
        assert forall|a: int, b: int| 0 <= a < b < i + 1 implies path_lt(#[trigger] s[a].0, #[trigger] s[b].0) by {
            if b == i && a < i - 1 {
                lemma_path_lt_transitive(s[a].0, s[i - 1].0, s[b].0);
            }
        }
        i = i + 1;
    }
    true
}

/// The diff: a full replacement for the log, every path classified again by
/// merging the log (seeded with the root) against the scan in path order.
pub fn diff(base: &Log, scan: &Vec<ScanEntry>) -> (r: Log)
    requires
        keys_sorted(scan_view(scan@)),
    ensures
        forall|q: Seq<u8>| #[trigger] r.spec_get(q) == diff_at(base@, scan_view(scan@), q),
{
    let ghost n = scan_view(scan@);
    let ghost b = base@;
    let mut update = base.clone();
    let mut seeded_log = base.clone();
    seeded_log.insert(Vec::new(), ContentId::empty(), ChangeType::Base);
    proof {
        use_type_invariant(&seeded_log);
        assert forall|q: Seq<u8>| #[trigger] lookup(seeded_log@, q) == seeded(b, q) by {
            assert(seeded_log.spec_get(q) == lookup(seeded_log@, q));
            if q.len() == 0 {
                assert(q =~= Seq::<u8>::empty());
            }
        }
    }
    let ghost s = seeded_log@;
    let mut i: usize = 0;
    let mut j: usize = 0;
    assert(s.subrange(0, 0) =~= Seq::<(Seq<u8>, (Seq<u8>, ChangeType))>::empty());
    assert(n.subrange(0, 0) =~= Seq::<(Seq<u8>, ScanKind)>::empty());
    while i < seeded_log.len() || j < scan.len()
        invariant
            s == seeded_log@,
            n == scan_view(scan@),
            b == base@,
            n.len() == scan@.len(),
            keys_sorted(s),
            keys_sorted(n),
            forall|q: Seq<u8>| #[trigger] lookup(s, q) == seeded(b, q),
            i <= s.len(),
            j <= n.len(),
            forall|k: int, l: int| 0 <= k < i && j <= l < n.len() ==> path_lt(#[trigger] s[k].0, #[trigger] n[l].0),
            forall|k: int, l: int| i <= k < s.len() && 0 <= l < j ==> path_lt(#[trigger] n[l].0, #[trigger] s[k].0),
            forall|q: Seq<u8>| #[trigger] update.spec_get(q) == if has_key(s.subrange(0, i as int), q) || has_key(n.subrange(0, j as int), q) {
                diff_at(b, n, q)
            } else {
                lookup(b, q)
            },
        decreases s.len() - i + n.len() - j,
    {
        let order = if i < seeded_log.len() && j < scan.len() {
            compare_paths(&seeded_log.entry(i).path, &scan[j].path)
        } else if i < seeded_log.len() {
            Ordering::Less
        } else {
            Ordering::Greater
        };
        let ghost prev = update;
        match order {
            Ordering::Less => {
                // In the log only: removed.
                let e = seeded_log.entry(i);
                let ghost p = s[i as int].0;
                proof {
                    assert forall|l: int| 0 <= l < n.len() implies #[trigger] n[l].0 != p by {
                        lemma_path_lt_irreflexive(p);
                        if l >= j {
                            if l > j {
                                lemma_path_lt_transitive(p, n[j as int].0, n[l].0);
                            }
                        }
                    }
                    lemma_lookup_absent(n, p);
                    lemma_lookup_at(s, i as int);
                }
                if e.path.len() == 0 {
                } else if e.change == ChangeType::Added {
                    update.remove(&e.path);
                } else {
                    update.insert(copy_bytes(&e.path), ContentId::empty(), ChangeType::Removed);
                }
                proof {
                    assert forall|q: Seq<u8>| #[trigger] update.spec_get(q) == if has_key(s.subrange(0, i + 1), q) || has_key(n.subrange(0, j as int), q) {
                        diff_at(b, n, q)
                    } else {
                        lookup(b, q)
                    } by {
                        lemma_has_key_extend(s, i as int, q);
                        if q == p {
                            assert(!has_key(s.subrange(0, i as int), q)) by {
                                if has_key(s.subrange(0, i as int), q) {
                                    let k = choose|k: int| 0 <= k < i && #[trigger] s.subrange(0, i as int)[k].0 == q;
                                    assert(s.subrange(0, i as int)[k] == s[k]);
                                    assert(path_lt(s[k].0, s[i as int].0));
                                    lemma_path_lt_irreflexive(p);
                                }
                            }
                            assert(!has_key(n.subrange(0, j as int), q)) by {
                                if has_key(n.subrange(0, j as int), q) {
                                    let l = choose|l: int| 0 <= l < j && #[trigger] n.subrange(0, j as int)[l].0 == q;
                                    assert(n.subrange(0, j as int)[l] == n[l]);
                                }
                            }
                            if p.len() == 0 {
                                assert(p =~= e.path@);
                            }
                        }
                    }
                    assert forall|k: int, l: int| 0 <= k < i + 1 && j <= l < n.len() implies path_lt(#[trigger] s[k].0, #[trigger] n[l].0) by {
                        if k == i && l > j {
                            lemma_path_lt_transitive(s[k].0, n[j as int].0, n[l].0);
                        }
                    }
                }
                i = i + 1;
            },
            Ordering::Greater => {
                // In the scan only: added.
                let ghost p = n[j as int].0;
                proof {
                    assert(n[j as int] == scan@[j as int]@);
                    assert forall|k: int| 0 <= k < s.len() implies #[trigger] s[k].0 != p by {
                        lemma_path_lt_irreflexive(p);
                        if k >= i {
                            if k > i {
                                lemma_path_lt_transitive(p, s[i as int].0, s[k].0);
                            }
                        }
                    }
                    lemma_lookup_absent(s, p);
                    lemma_lookup_at(n, j as int);
                }
                match &scan[j].kind {
                    EntryKind::File(h) => {
                        update.insert(copy_bytes(&scan[j].path), h.clone(), ChangeType::Added);
                    },
                    EntryKind::Directory => {},
                }
                proof {
                    assert forall|q: Seq<u8>| #[trigger] update.spec_get(q) == if has_key(s.subrange(0, i as int), q) || has_key(n.subrange(0, j + 1), q) {
                        diff_at(b, n, q)
                    } else {
                        lookup(b, q)
                    } by {
                        lemma_has_key_extend(n, j as int, q);
                        if q == p {
                            assert(!has_key(n.subrange(0, j as int), q)) by {
                                if has_key(n.subrange(0, j as int), q) {
                                    let l = choose|l: int| 0 <= l < j && #[trigger] n.subrange(0, j as int)[l].0 == q;
                                    assert(n.subrange(0, j as int)[l] == n[l]);
                                    assert(path_lt(n[l].0, n[j as int].0));
                                    lemma_path_lt_irreflexive(p);
                                }
                            }
                            assert(!has_key(s.subrange(0, i as int), q)) by {
                                if has_key(s.subrange(0, i as int), q) {
                                    let k = choose|k: int| 0 <= k < i && #[trigger] s.subrange(0, i as int)[k].0 == q;
                                    assert(s.subrange(0, i as int)[k] == s[k]);
                                }
                            }
                        }
                    }
                    assert forall|k: int, l: int| i <= k < s.len() && 0 <= l < j + 1 implies path_lt(#[trigger] n[l].0, #[trigger] s[k].0) by {
                        if l == j && k > i {
                            lemma_path_lt_transitive(n[l].0, s[i as int].0, s[k].0);
                        }
                    }
                }
                j = j + 1;
            },
            Ordering::Equal => {
                // In both: modified when the content differs.
                let e = seeded_log.entry(i);
                let ghost p = s[i as int].0;
                proof {
                    assert(n[j as int] == scan@[j as int]@);
                    lemma_lookup_at(s, i as int);
                    lemma_lookup_at(n, j as int);
                }
                match &scan[j].kind {
                    EntryKind::File(h) => {
                        if !h.same(&e.cid) {
                            let change = if e.change == ChangeType::Added {
                                ChangeType::Added
                            } else {
                                ChangeType::Modified
                            };
                            update.insert(copy_bytes(&e.path), h.clone(), change);
                        }
                    },
                    EntryKind::Directory => {},
                }
                proof {
                    assert forall|q: Seq<u8>| #[trigger] update.spec_get(q) == if has_key(s.subrange(0, i + 1), q) || has_key(n.subrange(0, j + 1), q) {
                        diff_at(b, n, q)
                    } else {
                        lookup(b, q)
                    } by {
                        lemma_has_key_extend(s, i as int, q);
                        lemma_has_key_extend(n, j as int, q);
                        if q == p {
                            assert(!has_key(s.subrange(0, i as int), q)) by {
                                if has_key(s.subrange(0, i as int), q) {
                                    let k = choose|k: int| 0 <= k < i && #[trigger] s.subrange(0, i as int)[k].0 == q;
                                    assert(s.subrange(0, i as int)[k] == s[k]);
                                    assert(path_lt(s[k].0, s[i as int].0));
                                    lemma_path_lt_irreflexive(p);
                                }
                            }
                            assert(!has_key(n.subrange(0, j as int), q)) by {
                                if has_key(n.subrange(0, j as int), q) {
                                    let l = choose|l: int| 0 <= l < j && #[trigger] n.subrange(0, j as int)[l].0 == q;
                                    assert(n.subrange(0, j as int)[l] == n[l]);
                                    assert(path_lt(n[l].0, s[i as int].0));
                                    lemma_path_lt_irreflexive(p);
                                }
                            }
                        }
                    }
                    assert forall|k: int, l: int| 0 <= k < i + 1 && j + 1 <= l < n.len() implies path_lt(#[trigger] s[k].0, #[trigger] n[l].0) by {
                        if k == i {
                            assert(path_lt(n[j as int].0, n[l].0));
                        }
                    }
                    assert forall|k: int, l: int| i + 1 <= k < s.len() && 0 <= l < j + 1 implies path_lt(#[trigger] n[l].0, #[trigger] s[k].0) by {
                        if l == j {
                            assert(path_lt(s[i as int].0, s[k].0));
                        }
                    }
                }
                i = i + 1;
                j = j + 1;
            },
        }
    }
    proof {
        assert(s.subrange(0, i as int) =~= s);
        assert(n.subrange(0, j as int) =~= n);
        assert forall|q: Seq<u8>| #[trigger] update.spec_get(q) == diff_at(b, n, q) by {
            if !has_key(s, q) && !has_key(n, q) {
                lemma_lookup_absent(s, q);
                lemma_lookup_absent(n, q);
            }
        }
    }
    update
}


/// Diffing is deterministic: any two logs that a diff of the same log
/// against the same scan may return are identical.
pub proof fn lemma_diff_deterministic(base: Log, scan: Seq<(Seq<u8>, ScanKind)>, r1: Log, r2: Log)
    requires
        r1.inv(),
        r2.inv(),
        forall|q: Seq<u8>| #[trigger] r1.spec_get(q) == diff_at(base@, scan, q),
        forall|q: Seq<u8>| #[trigger] r2.spec_get(q) == diff_at(base@, scan, q),
    ensures
        r1@ == r2@,
{
    assert forall|q: Seq<u8>| #[trigger] lookup(r1@, q) == lookup(r2@, q) by {
        assert(r1.spec_get(q) == diff_at(base@, scan, q));
        assert(r2.spec_get(q) == diff_at(base@, scan, q));
    }
    crate::ordered::lemma_same_lookup_equal(r1@, r2@);
}

/// Merge-join completeness, for a log `r` returned by a diff of `base`
/// against `scan`. A path (other than the working-tree root) in the log but
/// not the scan comes out `Removed` with the sentinel identifier, or is
/// dropped when it was only `Added`; a file in the scan but not the log
/// comes out `Added` with its identifier; a file in both comes out
/// `Modified` (or still `Added`) with the new identifier exactly when the
/// identifiers differ, and unchanged otherwise; directories are never
/// recorded. The root, a directory, keeps whatever the log held.
/// So the paths of `r` are those of the log and the scanned files, less the
/// vanished `Added` ones.
pub proof fn lemma_merge_join_complete(base: Log, scan: Seq<(Seq<u8>, ScanKind)>, r: Log, p: Seq<u8>)
    requires
        forall|q: Seq<u8>| #[trigger] r.spec_get(q) == diff_at(base@, scan, q),
    ensures
        p.len() == 0 && !(lookup(scan, p) matches Some(ScanKind::File(_))) ==> r.spec_get(p) == base.spec_get(p),
        p.len() > 0 && base.spec_get(p) is Some && lookup(scan, p) is None ==> r.spec_get(p) == if base.spec_get(p)->Some_0.1 == ChangeType::Added {
            None
        } else {
            Some((empty_cid(), ChangeType::Removed))
        },
        p.len() > 0 && base.spec_get(p) is None ==> match lookup(scan, p) {
            Some(ScanKind::File(h)) => r.spec_get(p) == Some((h, ChangeType::Added)),
            _ => r.spec_get(p) is None,
        },
        p.len() > 0 && base.spec_get(p) is Some ==> match lookup(scan, p) {
            Some(ScanKind::File(h)) => {
                let (c, t) = base.spec_get(p)->Some_0;
                &&& h != c ==> r.spec_get(p) == Some((h, if t == ChangeType::Added { ChangeType::Added } else { ChangeType::Modified }))
                &&& h == c ==> r.spec_get(p) == base.spec_get(p)
            },
            Some(ScanKind::Directory) => r.spec_get(p) == base.spec_get(p),
            None => true,
        },
        p.len() > 0 ==> (r.spec_get(p) is Some <==> (
            (base.spec_get(p) is Some && !(lookup(scan, p) is None && base.spec_get(p)->Some_0.1 == ChangeType::Added))
            || lookup(scan, p) matches Some(ScanKind::File(_)))),
{
    assert(r.spec_get(p) == diff_at(base@, scan, p));
}

/// A diff never invents a `Base` record: every path it reports as `Base`
/// had that same record in the log, so the records that agree with the
/// confirmed state stay those the log already held.
pub proof fn lemma_diff_keeps_base_records(base: LogView, scan: Seq<(Seq<u8>, ScanKind)>, p: Seq<u8>, c: Seq<u8>)
    requires
        diff_at(base, scan, p) == Some((c, ChangeType::Base)),
    ensures
        lookup(base, p) == Some((c, ChangeType::Base)),
{
}

/// Diffing keeps the change log's agreement with the confirmed manifest:
/// when every `Base` record of the log names the confirmed content, so does
/// every `Base` record of the diff.
pub proof fn lemma_diff_keeps_confirmed(base: Log, scan: Seq<(Seq<u8>, ScanKind)>, r: Log, confirmed: ManifestView)
    requires
        base_records_confirmed(base@, confirmed),
        forall|q: Seq<u8>| #[trigger] r.spec_get(q) == diff_at(base@, scan, q),
    ensures
        base_records_confirmed(r@, confirmed),
{
    assert forall|p: Seq<u8>|
        #![trigger lookup(r@, p)]
        lookup(r@, p) is Some && lookup(r@, p)->Some_0.1 == ChangeType::Base implies confirmed.object(p) is Some
            && confirmed.object(p)->Some_0.cid == lookup(r@, p)->Some_0.0 by {
        assert(r.spec_get(p) == diff_at(base@, scan, p));
        lemma_diff_keeps_base_records(base@, scan, p, lookup(r@, p)->Some_0.0);
        assert(lookup(base@, p) == lookup(r@, p));
    }
}

} // verus!
