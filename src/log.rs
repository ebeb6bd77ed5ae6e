//! The change classification of each tracked path, and the log that maps
//! every path to its last known identifier and classification.

use vstd::prelude::*;
use core::cmp::Ordering;
use crate::content_id::{ContentId, copy_bytes};
use crate::ordered::{keys_sorted, lookup, lemma_insert, lemma_update, lemma_remove, lemma_lookup_at, lemma_lookup_absent};
use crate::path::{path_lt, compare_paths, lemma_path_lt_total, lemma_path_lt_transitive};

verus! {

/// How a path stands relative to the last confirmed remote state.
#[derive(Debug, Clone, Copy, PartialEq, Eq, Structural)]
pub enum ChangeType {
    /// Unchanged since the last confirmed remote state.
    Base,
    /// New locally; absent from the confirmed state.
    Added,
    /// Present in the confirmed state with other content.
    Modified,
    /// Present in the confirmed state, gone locally.
    Removed,
    /// Folded into a staged manifest.
    Staged,
}

impl ChangeType {
    /// The classification's name.
    pub fn name(&self) -> (r: &'static str)
        ensures
            r@ == match *self {
                ChangeType::Base => "Base"@,
                ChangeType::Added => "Added"@,
                ChangeType::Modified => "Modified"@,
                ChangeType::Removed => "Removed"@,
                ChangeType::Staged => "Staged"@,
            },
    {
        match self {
            ChangeType::Base => "Base",
            ChangeType::Added => "Added",
            ChangeType::Modified => "Modified",
            ChangeType::Removed => "Removed",
            ChangeType::Staged => "Staged",
        }
    }
}

/// The record of a path in a log.
#[derive(Debug)]
pub struct LogEntry {
    pub path: Vec<u8>,
    pub cid: ContentId,
    pub change: ChangeType,
}

impl View for LogEntry {
    type V = (Seq<u8>, (Seq<u8>, ChangeType));

    open spec fn view(&self) -> (Seq<u8>, (Seq<u8>, ChangeType)) {
        (self.path@, (self.cid@, self.change))
    }
}

impl Clone for LogEntry {
    fn clone(&self) -> (r: LogEntry)
        ensures
            r@ == self@,
    {
        LogEntry { path: copy_bytes(&self.path), cid: self.cid.clone(), change: self.change }
    }
}

pub open spec fn entries_view(s: Seq<LogEntry>) -> Seq<(Seq<u8>, (Seq<u8>, ChangeType))> {
    s.map_values(|e: LogEntry| e@)
}

/// Every tracked path with its identifier and classification, in path order.
#[derive(Debug)]
pub struct Log {
    entries: Vec<LogEntry>,
}

impl View for Log {
    type V = Seq<(Seq<u8>, (Seq<u8>, ChangeType))>;

    closed spec fn view(&self) -> Seq<(Seq<u8>, (Seq<u8>, ChangeType))> {
        entries_view(self.entries@)
    }
}

impl Log {
    #[verifier::type_invariant]
    pub open spec fn inv(&self) -> bool {
        keys_sorted(self@)
    }

    /// The record of `p`, if it is tracked.
    pub open spec fn spec_get(&self, p: Seq<u8>) -> Option<(Seq<u8>, ChangeType)> {
        lookup(self@, p)
    }

    pub fn new() -> (r: Log)
        ensures
            r@ == Seq::<(Seq<u8>, (Seq<u8>, ChangeType))>::empty(),
    {
        let r = Log { entries: Vec::new() };
        assert(r@ =~= Seq::<(Seq<u8>, (Seq<u8>, ChangeType))>::empty());
        r
    }

    pub fn len(&self) -> (r: usize)
        ensures
            r == self@.len(),
    {
        self.entries.len()
    }

    /// The `i`-th record in path order.
    pub fn entry(&self, i: usize) -> (r: &LogEntry)
        requires
            i < self@.len(),
        ensures
            r@ == self@[i as int],
    {
        &self.entries[i]
    }

    /// The index of the first record whose path is not below `p`.
    fn position(&self, p: &Vec<u8>) -> (k: usize)
        ensures
            k <= self@.len(),
            forall|i: int| 0 <= i < k ==> path_lt(#[trigger] self@[i].0, p@),
            k < self@.len() ==> (self@[k as int].0 == p@ || path_lt(p@, self@[k as int].0)),
            forall|i: int| k < i < self@.len() ==> path_lt(p@, #[trigger] self@[i].0),
    {
        proof {
            use_type_invariant(self);
        }
        let mut k: usize = 0;
        let mut done = false;
        while k < self.entries.len() && !done
            invariant
                k <= self@.len(),
                self@.len() == self.entries@.len(),
                keys_sorted(self@),
                forall|i: int| 0 <= i < k ==> path_lt(#[trigger] self@[i].0, p@),
                done ==> k < self@.len() && !path_lt(self@[k as int].0, p@),
            decreases self.entries.len() - k + (if done { 0int } else { 1int }),
        {
            assert(self@[k as int] == self.entries@[k as int]@);
            match compare_paths(&self.entries[k].path, p) {
                Ordering::Less => {
                    k = k + 1;
                },
                _ => {
                    done = true;
                },
            }
        }
        proof {
            if k < self@.len() {
                lemma_path_lt_total(self@[k as int].0, p@);
                assert forall|i: int| k < i < self@.len() implies path_lt(p@, #[trigger] self@[i].0) by {
                    assert(path_lt(self@[k as int].0, self@[i].0));
                    if self@[k as int].0 != p@ {
                        lemma_path_lt_transitive(p@, self@[k as int].0, self@[i].0);
                    }
                }
            }
        }
        k
    }

    /// The record of `p`, if it is tracked.
    pub fn get(&self, p: &Vec<u8>) -> (r: Option<&LogEntry>)
        ensures
            match r {
                Some(e) => self.spec_get(p@) == Some(e@.1) && e@.0 == p@,
                None => self.spec_get(p@) is None,
            },
    {
        proof {
            use_type_invariant(self);
        }
        let k = self.position(p);
        if k < self.entries.len() && crate::content_id::bytes_equal(&self.entries[k].path, p) {
            proof {
                lemma_lookup_at(self@, k as int);
            }
            Some(&self.entries[k])
        } else {
            proof {
                assert forall|i: int| 0 <= i < self@.len() implies #[trigger] self@[i].0 != p@ by {
                    crate::path::lemma_path_lt_irreflexive(p@);
                }
                lemma_lookup_absent(self@, p@);
            }
            None
        }
    }

    /// Records `p` with `cid` and `change`, replacing any earlier record.
    pub fn insert(&mut self, p: Vec<u8>, cid: ContentId, change: ChangeType)
        ensures
            forall|q: Seq<u8>|
                #[trigger] final(self).spec_get(q) == if q == p@ {
                    Some((cid@, change))
                } else {
                    old(self).spec_get(q)
                },
    {
        proof {
            use_type_invariant(&*self);
        }
        let k = self.position(&p);
        let found = k < self.entries.len() && crate::content_id::bytes_equal(&self.entries[k].path, &p);
        let ghost old_view = self@;
        let mut entries: Vec<LogEntry> = Vec::new();
        core::mem::swap(&mut entries, &mut self.entries);
        let e = LogEntry { path: p, cid, change };
        let ghost ev = e@;
        if found {
            entries.set(k, e);
            proof {
                lemma_update(old_view, k as int, ev);
                assert(entries_view(entries@) =~= old_view.update(k as int, ev));
            }
        } else {
            proof {
                assert forall|i: int| k <= i < old_view.len() implies path_lt(ev.0, #[trigger] old_view[i].0) by {
                }
            }
            entries.insert(k, e);
            proof {
                lemma_insert(old_view, k as int, ev);
                assert(entries_view(entries@) =~= old_view.insert(k as int, ev));
            }
        }
        self.entries = entries;
    }

    /// Stops tracking `p`.
    pub fn remove(&mut self, p: &Vec<u8>)
        ensures
            forall|q: Seq<u8>|
                #[trigger] final(self).spec_get(q) == if q == p@ {
                    None
                } else {
                    old(self).spec_get(q)
                },
    {
        proof {
            use_type_invariant(&*self);
        }
        let k = self.position(p);
        if k < self.entries.len() && crate::content_id::bytes_equal(&self.entries[k].path, p) {
            let ghost old_view = self@;
            let mut entries: Vec<LogEntry> = Vec::new();
            core::mem::swap(&mut entries, &mut self.entries);
            entries.remove(k);
            proof {
                lemma_remove(old_view, k as int);
                assert(entries_view(entries@) =~= old_view.remove(k as int));
            }
            self.entries = entries;
        } else {
            proof {
                assert forall|i: int| 0 <= i < self@.len() implies #[trigger] self@[i].0 != p@ by {
                    crate::path::lemma_path_lt_irreflexive(p@);
                }
                lemma_lookup_absent(self@, p@);
            }
        }
    }
}

/// The records of `s` that are not `Base`, in path order.
pub open spec fn changed_of(s: Seq<(Seq<u8>, (Seq<u8>, ChangeType))>) -> Seq<(Seq<u8>, (Seq<u8>, ChangeType))>
    decreases s.len(),
{
    if s.len() == 0 {
        s
    } else if s.last().1.1 == ChangeType::Base {
        changed_of(s.drop_last())
    } else {
        changed_of(s.drop_last()).push(s.last())
    }
}

impl Log {
    /// The records that differ from the confirmed state, in path order: what
    /// a status listing shows.
    pub fn changed_entries(&self) -> (r: Vec<LogEntry>)
        ensures
            entries_view(r@) == changed_of(self@),
    {
        let ghost s = self@;
        let mut r: Vec<LogEntry> = Vec::new();
        let mut i: usize = 0;
        while i < self.entries.len()
            invariant
                s == self@,
                s.len() == self.entries@.len(),
                i <= s.len(),
                entries_view(r@) == changed_of(s.subrange(0, i as int)),
            decreases self.entries.len() - i,
        {
            assert(s.subrange(0, i + 1).drop_last() =~= s.subrange(0, i as int));
            assert(s[i as int] == self.entries@[i as int]@);
            if self.entries[i].change != ChangeType::Base {
                let c = self.entries[i].clone();
                let ghost before = r@;
                r.push(c);
                assert(entries_view(r@) =~= entries_view(before).push(c@)) by {
                    assert(r@ == before.push(c));
                }
            }
            i = i + 1;
        }
        assert(s.subrange(0, i as int) =~= s);
        r
    }
}

impl Clone for Log {
    fn clone(&self) -> (r: Log)
        ensures
            r@ == self@,
    {
        proof {
            use_type_invariant(self);
        }
        let mut entries: Vec<LogEntry> = Vec::new();
        let mut i: usize = 0;
        while i < self.entries.len()
            invariant
                i <= self.entries@.len(),
                self@.len() == self.entries@.len(),
                entries@.len() == i,
                entries_view(entries@) == self@.subrange(0, i as int),
            decreases self.entries.len() - i,
        {
            assert(self@[i as int] == self.entries@[i as int]@);
            let c = self.entries[i].clone();
            let ghost before = entries@;
            entries.push(c);
            assert(c@ == self@[i as int]);
            assert(entries@ == before.push(c));
            assert forall|j: int| 0 <= j < i + 1 implies #[trigger] entries_view(entries@)[j] == self@[j] by {
                if j < i {
                    assert(entries@[j] == before[j]);
                    assert(entries_view(before)[j] == self@.subrange(0, i as int)[j]);
                }
            }
            assert(entries_view(entries@) =~= self@.subrange(0, i + 1));
            i = i + 1;
        }
        assert(self@.subrange(0, i as int) =~= self@);
        Log { entries }
    }
}

} // verus!
