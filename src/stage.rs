//! The stage engine: replays a diff against the most recently staged
//! manifest, producing the next candidate manifest.

use vstd::prelude::*;
use crate::changes::ChangeLog;
use crate::content_id::{ContentId, copy_bytes};
use crate::diff::LogView;
use crate::log::{ChangeType, Log};
use crate::manifest::{Manifest, ManifestView};
use crate::object::{Object, ObjectView, null_metadata, later};
use crate::ordered::{keys_sorted, has_key, lookup, lemma_lookup_at, lemma_same_lookup_equal, lemma_has_key_extend};

verus! {

/// Whether a classification asks for the file's bytes to be written.
pub open spec fn is_written(c: ChangeType) -> bool {
    c == ChangeType::Added || c == ChangeType::Modified
}

/// The `(path, identifier)` pairs of the log whose content staging writes,
/// in path order.
pub open spec fn targets_of(s: LogView) -> Seq<(Seq<u8>, Seq<u8>)>
    decreases s.len(),
{
    if s.len() == 0 {
        Seq::empty()
    } else {
        let rest = targets_of(s.drop_last());
        if is_written(s.last().1.1) {
            rest.push((s.last().0, s.last().1.0))
        } else {
            rest
        }
    }
}

/// Every identifier that the content store returned is the one the diff
/// computed for that file.
pub open spec fn writes_match(targets: Seq<(Seq<u8>, Seq<u8>)>, written: Seq<Seq<u8>>) -> bool {
    forall|k: int| 0 <= k < targets.len() ==> #[trigger] written[k] == targets[k].1
}

/// The object under `p` after replaying `updates` on `last` at time `now`:
/// `Added` makes a new object; `Modified` points the existing object at the
/// new content, its update time never decreasing (a new object if there was
/// none); `Removed` drops it; other records leave it as it was.
pub open spec fn staged_object(last: ManifestView, updates: LogView, p: Seq<u8>, now: i64) -> Option<ObjectView> {
    match lookup(updates, p) {
        Some((c, ChangeType::Added)) => Some(ObjectView { cid: c, created_at: now, updated_at: now, metadata: null_metadata() }),
        Some((c, ChangeType::Modified)) => match last.object(p) {
            Some(o) => Some(ObjectView { cid: c, updated_at: later(o.updated_at, now), ..o }),
            None => Some(ObjectView { cid: c, created_at: now, updated_at: now, metadata: null_metadata() }),
        },
        Some((_, ChangeType::Removed)) => None,
        _ => last.object(p),
    }
}

/// Replaying the updates leaves every object as it was.
pub open spec fn stage_changes_nothing(last: ManifestView, updates: LogView, now: i64) -> bool {
    forall|q: Seq<u8>| #[trigger] staged_object(last, updates, q, now) == last.object(q)
}

/// The encodings of a sequence of identifiers.
pub open spec fn ids_view(s: Seq<ContentId>) -> Seq<Seq<u8>> {
    s.map_values(|c: ContentId| c@)
}

/// Why staging stopped.
#[derive(Debug)]
pub enum StageError {
    /// The content store returned `written` for a file whose diff recorded
    /// `expected`: the file changed between the diff and the write.
    CidMismatch { written: ContentId, expected: ContentId },
}

/// The paths whose bytes staging writes to the local content store, in path
/// order: those the diff marked `Added` or `Modified`.
pub fn stage_targets(updates: &Log) -> (r: Vec<Vec<u8>>)
    ensures
        r@.len() == targets_of(updates@).len(),
        forall|k: int| 0 <= k < r@.len() ==> #[trigger] r@[k]@ == targets_of(updates@)[k].0,
{
    let ghost s = updates@;
    let mut r: Vec<Vec<u8>> = Vec::new();
    let mut i: usize = 0;
    while i < updates.len()
        invariant
            s == updates@,
            i <= s.len(),
            r@.len() == targets_of(s.subrange(0, i as int)).len(),
            forall|k: int| 0 <= k < r@.len() ==> #[trigger] r@[k]@ == targets_of(s.subrange(0, i as int))[k].0,
        decreases s.len() - i,
    {
        let e = updates.entry(i);
        proof {
            assert(s.subrange(0, i + 1).drop_last() =~= s.subrange(0, i as int));
        }
        if e.change == ChangeType::Added || e.change == ChangeType::Modified {
            r.push(copy_bytes(&e.path));
        }
        i = i + 1;
    }
    assert(s.subrange(0, i as int) =~= s);
    r
}

/// Replays `updates` on the most recently staged manifest of `change_log`.
/// `written` holds, in the order of `stage_targets`, the identifiers that
/// the local content store returned when each file was written. Fails at
/// the first identifier that differs from the diff's. Otherwise returns
/// `None` when the result equals the staged manifest (nothing to stage), or
/// the new manifest, chained to the staged root.
pub fn stage(change_log: &ChangeLog, updates: &Log, written: &Vec<ContentId>, now: i64) -> (r: Result<Option<Manifest>, StageError>)
    requires
        written@.len() == targets_of(updates@).len(),
    ensures
        ({
            let targets = targets_of(updates@);
            let w = ids_view(written@);
            let last = change_log@.versions.last();
            match r {
                Err(StageError::CidMismatch { written: got, expected }) => exists|k: int|
                    0 <= k < targets.len() && got@ == w[k] && expected@ == targets[k].1 && w[k] != targets[k].1
                        && forall|k2: int| 0 <= k2 < k ==> #[trigger] w[k2] == targets[k2].1,
                Ok(None) => writes_match(targets, w) && stage_changes_nothing(last.1, updates@, now),
                Ok(Some(m)) => writes_match(targets, w) && !stage_changes_nothing(last.1, updates@, now)
                    && m@.previous_root == last.0
                    && m@.version == last.1.version
                    && forall|q: Seq<u8>| #[trigger] m@.object(q) == staged_object(last.1, updates@, q, now),
            }
        }),
        r is Err <==> !writes_match(targets_of(updates@), ids_view(written@)),
{
    let ghost s = updates@;
    let ghost targets = targets_of(s);
    let ghost w = ids_view(written@);
    let last = change_log.last_version().unwrap();
    let ghost lastv = last.1@;
    let mut manifest = last.1.clone();
    proof {
        use_type_invariant(updates);
    }
    let wl = written.len();
    let mut t: usize = 0;
    let mut i: usize = 0;
    assert(s.subrange(0, 0) =~= Seq::<(Seq<u8>, (Seq<u8>, ChangeType))>::empty());
    while i < updates.len()
        invariant
            s == updates@,
            keys_sorted(s),
            targets == targets_of(s),
            w == ids_view(written@),
            w.len() == targets.len(),
            wl == written@.len(),
            lastv == last.1@,
            i <= s.len(),
            t == targets_of(s.subrange(0, i as int)).len(),
            forall|k: int| 0 <= k < t ==> #[trigger] targets_of(s.subrange(0, i as int))[k] == targets[k],
            t <= targets.len(),
            forall|k: int| 0 <= k < t ==> #[trigger] w[k] == targets[k].1,
            manifest@.previous_root == lastv.previous_root,
            manifest@.version == lastv.version,
            forall|q: Seq<u8>| #[trigger] manifest@.object(q) == if has_key(s.subrange(0, i as int), q) {
                staged_object(lastv, s, q, now)
            } else {
                lastv.object(q)
            },
        decreases s.len() - i,
    {
        let e = updates.entry(i);
        let ghost p = s[i as int].0;
        proof {
            lemma_lookup_at(s, i as int);
            assert(s.subrange(0, i + 1).drop_last() =~= s.subrange(0, i as int));
            lemma_targets_prefix(s, i as int + 1);
        }
        let ghost prev = manifest@;
        match e.change {
            ChangeType::Added | ChangeType::Modified => {
                proof {
                    assert(targets_of(s.subrange(0, i + 1))[t as int] == (p, s[i as int].1.0));
                    assert(t < targets.len());
                    assert(w[t as int] == written@[t as int]@);
                    assert(w.len() == written@.len());
                    assert(t < wl);
                }
                let got = &written[t];
                if !got.same(&e.cid) {
                    proof {
                        assert(w[t as int] != targets[t as int].1);
                        assert(!writes_match(targets, w));
                    }
                    return Err(StageError::CidMismatch { written: got.clone(), expected: e.cid.clone() });
                }
                if e.change == ChangeType::Added {
                    manifest.insert_object(&e.path, &Object::new(got.clone(), now));
                } else {
                    if !manifest.update_object(&e.path, got.clone(), now) {
                        manifest.insert_object(&e.path, &Object::new(got.clone(), now));
                    }
                }
                t = t + 1;
            },
            ChangeType::Removed => {
                manifest.remove_object(&e.path);
            },
            _ => {},
        }
        proof {
            assert forall|q: Seq<u8>| #[trigger] manifest@.object(q) == if has_key(s.subrange(0, i + 1), q) {
                staged_object(lastv, s, q, now)
            } else {
                lastv.object(q)
            } by {
                lemma_has_key_extend(s, i as int, q);
                if q == p {
                    assert(e.path@ == p);
                }
            }
        }
        i = i + 1;
    }
    proof {
        assert(s.subrange(0, i as int) =~= s);
        assert(writes_match(targets, w));
        assert forall|q: Seq<u8>| #[trigger] manifest@.object(q) == staged_object(lastv, s, q, now) by {
            if !has_key(s, q) {
                crate::ordered::lemma_lookup_absent(s, q);
            }
        }
    }
    if manifest.same_content(&last.1) {
        proof {
            assert forall|q: Seq<u8>| #[trigger] staged_object(lastv, s, q, now) == lastv.object(q) by {
                assert(manifest@.object(q) == staged_object(lastv, s, q, now));
            }
        }
        Ok(None)
    } else {
        proof {
            use_type_invariant(&manifest);
            use_type_invariant(&last.1);
            if stage_changes_nothing(lastv, s, now) {
                assert forall|q: Seq<u8>| #[trigger] lookup(manifest@.objects, q) == lookup(lastv.objects, q) by {
                    assert(manifest@.object(q) == staged_object(lastv, s, q, now));
                }
                lemma_same_lookup_equal(manifest@.objects, lastv.objects);
            }
        }
        let ghost before = manifest@;
        manifest.set_previous_root(last.0.clone());
        assert(manifest@.objects == before.objects);
        assert forall|q: Seq<u8>| #[trigger] manifest@.object(q) == staged_object(lastv, s, q, now) by {
            assert(before.object(q) == staged_object(lastv, s, q, now));
        }
        Ok(Some(manifest))
    }
}

proof fn lemma_targets_prefix(s: LogView, i: int)
    requires
        0 <= i <= s.len(),
    ensures
        targets_of(s.subrange(0, i)).len() <= targets_of(s).len(),
        forall|k: int| 0 <= k < targets_of(s.subrange(0, i)).len() ==> #[trigger] targets_of(s.subrange(0, i))[k] == targets_of(s)[k],
    decreases s.len() - i,
{
    if i < s.len() {
        assert(s.subrange(0, i + 1).drop_last() =~= s.subrange(0, i));
        assert(s.subrange(0, i + 1).last() == s[i]);
        lemma_targets_prefix(s, i + 1);
        let a = targets_of(s.subrange(0, i));
        let b = targets_of(s.subrange(0, i + 1));
        assert forall|k: int| 0 <= k < a.len() implies #[trigger] a[k] == targets_of(s)[k] by {
            assert(a[k] == b[k]);
        }
    } else {
        assert(s.subrange(0, i) =~= s);
    }
}

/// Staging keeps an object's history: a `Modified` record changes the
/// content of an existing object, keeps its creation time and metadata, and
/// never moves its update time backwards.
pub proof fn lemma_stage_keeps_history(last: ManifestView, updates: LogView, p: Seq<u8>, now: i64)
    requires
        lookup(updates, p) is Some,
        lookup(updates, p)->Some_0.1 == ChangeType::Modified,
        last.object(p) is Some,
    ensures
        ({
            let o = last.object(p)->Some_0;
            let n = staged_object(last, updates, p, now)->Some_0;
            &&& staged_object(last, updates, p, now) is Some
            &&& n.cid == lookup(updates, p)->Some_0.0
            &&& n.created_at == o.created_at
            &&& n.metadata == o.metadata
            &&& n.updated_at >= o.updated_at
            &&& n.updated_at >= now
        }),
{
}

} // verus!
