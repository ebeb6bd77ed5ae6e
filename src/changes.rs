//! The change log: the working copy's overlay of per-path changes, and the
//! chain of manifests from the last confirmed remote state to the most
//! recently staged one.

use vstd::prelude::*;
use crate::content_id::ContentId;
use crate::log::{ChangeType, Log};
use crate::manifest::{Manifest, ManifestView, Version};
use crate::object::ObjectView;
use crate::ordered::{keys_sorted, lookup, lemma_push};

verus! {

/// The log record of a path that the confirmed state holds as `o`.
pub open spec fn base_record(o: Option<ObjectView>) -> Option<(Seq<u8>, ChangeType)> {
    match o {
        Some(o) => Some((o.cid, ChangeType::Base)),
        None => None,
    }
}

/// A log that marks every object of `m` as `Base` with its identifier, and
/// tracks nothing else.
pub open spec fn is_base_log_of(log: Log, m: ManifestView) -> bool {
    forall|q: Seq<u8>| #[trigger] log.spec_get(q) == base_record(m.object(q))
}

/// Every `Base` record of `log` names the content that the confirmed
/// manifest holds under its path.
pub open spec fn base_records_confirmed(log: Seq<(Seq<u8>, (Seq<u8>, ChangeType))>, confirmed: ManifestView) -> bool {
    forall|p: Seq<u8>|
        #![trigger lookup(log, p)]
        lookup(log, p) is Some && lookup(log, p)->Some_0.1 == ChangeType::Base ==> confirmed.object(p) is Some
            && confirmed.object(p)->Some_0.cid == lookup(log, p)->Some_0.0
}

/// An all-`Base` log of a manifest agrees with it.
pub proof fn lemma_base_log_confirmed(log: Log, m: ManifestView)
    requires
        is_base_log_of(log, m),
    ensures
        base_records_confirmed(log@, m),
{
    assert forall|p: Seq<u8>|
        #![trigger lookup(log@, p)]
        lookup(log@, p) is Some && lookup(log@, p)->Some_0.1 == ChangeType::Base implies m.object(p) is Some
            && m.object(p)->Some_0.cid == lookup(log@, p)->Some_0.0 by {
        assert(log.spec_get(p) == base_record(m.object(p)));
    }
}

/// Builds the all-`Base` log of a manifest.
pub fn base_log(manifest: &Manifest) -> (r: Log)
    ensures
        is_base_log_of(r, manifest@),
{
    proof {
        use_type_invariant(manifest);
    }
    let ghost s = manifest@.objects;
    let mut log = Log::new();
    let mut i: usize = 0;
    while i < manifest.len()
        invariant
            s == manifest@.objects,
            keys_sorted(s),
            i <= s.len(),
            forall|q: Seq<u8>| #[trigger] log.spec_get(q) == base_record(lookup(s.subrange(0, i as int), q)),
        decreases s.len() - i,
    {
        let e = manifest.entry(i);
        proof {
            assert(s.subrange(0, i + 1) =~= s.subrange(0, i as int).push(s[i as int]));
            assert(keys_sorted(s.subrange(0, i as int)));
            lemma_push(s.subrange(0, i as int), s[i as int]);
        }
        log.insert(crate::content_id::copy_bytes(&e.path), e.object.cid.clone(), ChangeType::Base);
        i = i + 1;
    }
    assert(s.subrange(0, i as int) =~= s);
    log
}

pub struct ChangeLogView {
    pub manager_alias: Seq<char>,
    pub log: Seq<(Seq<u8>, (Seq<u8>, ChangeType))>,
    pub versions: Seq<(Seq<u8>, ManifestView)>,
}

/// The working copy's overlay: the per-path log, and the chain of
/// `(root identifier, manifest)` pairs whose first entry is the last
/// confirmed remote state and whose last is the most recently staged one.
/// The chain is never empty.
#[derive(Debug)]
pub struct ChangeLog {
    manager_alias: String,
    log: Log,
    versions: Vec<(ContentId, Manifest)>,
}

pub open spec fn versions_view(v: Seq<(ContentId, Manifest)>) -> Seq<(Seq<u8>, ManifestView)> {
    v.map_values(|e: (ContentId, Manifest)| (e.0@, e.1@))
}

impl View for ChangeLog {
    type V = ChangeLogView;

    closed spec fn view(&self) -> ChangeLogView {
        ChangeLogView {
            manager_alias: self.manager_alias@,
            log: self.log@,
            versions: versions_view(self.versions@),
        }
    }
}

impl ChangeLog {
    #[verifier::type_invariant]
    pub open spec fn inv(&self) -> bool {
        self@.versions.len() >= 1
    }

    /// The log as a value.
    pub closed spec fn spec_log(&self) -> Log {
        self.log
    }

    /// A change log for a device whose confirmed state is `manifest` under
    /// `root_cid`: every object `Base`, a chain of one.
    pub fn new(manager_alias: String, manifest: &Manifest, root_cid: &ContentId) -> (r: ChangeLog)
        ensures
            r@.manager_alias == manager_alias@,
            is_base_log_of(r.spec_log(), manifest@),
            r.spec_log()@ == r@.log,
            r@.versions == seq![(root_cid@, manifest@)],
            base_records_confirmed(r@.log, r@.versions[0].1),
    {
        let log = base_log(manifest);
        let mut versions: Vec<(ContentId, Manifest)> = Vec::new();
        versions.push((root_cid.clone(), manifest.clone()));
        let r = ChangeLog { manager_alias, log, versions };
        assert(r@.versions =~= seq![(root_cid@, manifest@)]);
        proof {
            lemma_base_log_confirmed(r.log, manifest@);
        }
        r
    }

    /// Reassembles a change log from its parts (as read back from storage);
    /// `None` when the chain is empty.
    pub fn from_parts(manager_alias: String, log: Log, versions: Vec<(ContentId, Manifest)>) -> (r: Option<ChangeLog>)
        ensures
            match r {
                Some(c) => versions@.len() > 0 && c@ == (ChangeLogView {
                    manager_alias: manager_alias@,
                    log: log@,
                    versions: versions_view(versions@),
                }),
                None => versions@.len() == 0,
            },
    {
        if versions.len() == 0 {
            return None;
        }
        Some(ChangeLog { manager_alias, log, versions })
    }

    /// Resets to a confirmed state: every object of `manifest` `Base`, a
    /// chain of one.
    pub fn wipe(&mut self, manifest: &Manifest, root_cid: &ContentId)
        ensures
            final(self)@.manager_alias == old(self)@.manager_alias,
            is_base_log_of(final(self).spec_log(), manifest@),
            final(self).spec_log()@ == final(self)@.log,
            final(self)@.versions == seq![(root_cid@, manifest@)],
            base_records_confirmed(final(self)@.log, final(self)@.versions[0].1),
    {
        proof {
            use_type_invariant(&*self);
        }
        let log = base_log(manifest);
        let mut versions: Vec<(ContentId, Manifest)> = Vec::new();
        versions.push((root_cid.clone(), manifest.clone()));
        assert(versions_view(versions@) =~= seq![(root_cid@, manifest@)]);
        proof {
            lemma_base_log_confirmed(log, manifest@);
        }
        self.log = log;
        self.versions = versions;
    }

    /// Records a staging pass: `log` replaces the log and
    /// `(root_cid, manifest)` is appended to the chain.
    pub fn update(&mut self, log: &Log, manifest: &Manifest, root_cid: &ContentId)
        ensures
            final(self)@ == (ChangeLogView {
                log: log@,
                versions: old(self)@.versions.push((root_cid@, manifest@)),
                ..old(self)@
            }),
    {
        proof {
            use_type_invariant(&*self);
        }
        let entry = (root_cid.clone(), manifest.clone());
        // The chain may not be empty even for a moment: an empty manifest
        // holds its place while the entry is appended.
        let placeholder = Manifest::new(Version::new(String::new(), String::new(), String::new(), String::new()));
        let mut versions: Vec<(ContentId, Manifest)> = vec![(ContentId::empty(), placeholder)];
        core::mem::swap(&mut versions, &mut self.versions);
        let ghost before = versions@;
        versions.push(entry);
        assert(versions_view(versions@) =~= versions_view(before).push((root_cid@, manifest@))) by {
            assert(versions@ == before.push(entry));
        }
        self.versions = versions;
        self.log = log.clone();
    }

    pub fn manager_alias(&self) -> (r: &String)
        ensures
            r@ == self@.manager_alias,
    {
        &self.manager_alias
    }

    pub fn log(&self) -> (r: &Log)
        ensures
            r@ == self@.log,
            *r == self.spec_log(),
    {
        &self.log
    }

    /// Number of entries in the chain.
    pub fn versions_len(&self) -> (r: usize)
        ensures
            r == self@.versions.len(),
    {
        self.versions.len()
    }

    /// The `i`-th entry of the chain.
    pub fn version(&self, i: usize) -> (r: &(ContentId, Manifest))
        requires
            i < self@.versions.len(),
        ensures
            (r.0@, r.1@) == self@.versions[i as int],
    {
        &self.versions[i]
    }

    /// The last confirmed remote state.
    pub fn first_version(&self) -> (r: Option<&(ContentId, Manifest)>)
        ensures
            r is Some,
            (r->Some_0.0@, r->Some_0.1@) == self@.versions[0],
    {
        proof {
            use_type_invariant(self);
        }
        Some(&self.versions[0])
    }

    /// The most recently staged state.
    pub fn last_version(&self) -> (r: Option<&(ContentId, Manifest)>)
        ensures
            r is Some,
            (r->Some_0.0@, r->Some_0.1@) == self@.versions.last(),
    {
        proof {
            use_type_invariant(self);
        }
        Some(&self.versions[self.versions.len() - 1])
    }
}

impl Clone for ChangeLog {
    fn clone(&self) -> (r: ChangeLog)
        ensures
            r@ == self@,
    {
        proof {
            use_type_invariant(self);
        }
        let mut versions: Vec<(ContentId, Manifest)> = Vec::new();
        let mut i: usize = 0;
        while i < self.versions.len()
            invariant
                i <= self.versions@.len(),
                versions@.len() == i,
                versions_view(versions@) == versions_view(self.versions@).subrange(0, i as int),
            decreases self.versions.len() - i,
        {
            let e = (self.versions[i].0.clone(), self.versions[i].1.clone());
            let ghost before = versions@;
            versions.push(e);
            assert(versions@ == before.push(e));
            assert forall|j: int| 0 <= j < i + 1 implies #[trigger] versions_view(versions@)[j] == versions_view(self.versions@)[j] by {
                if j < i {
                    assert(versions@[j] == before[j]);
                    assert(versions_view(before)[j] == versions_view(self.versions@).subrange(0, i as int)[j]);
                }
            }
            assert(versions_view(versions@) =~= versions_view(self.versions@).subrange(0, i + 1));
            i = i + 1;
        }
        assert(versions_view(self.versions@).subrange(0, i as int) =~= versions_view(self.versions@));
        ChangeLog { manager_alias: self.manager_alias.clone(), log: self.log.clone(), versions }
    }
}

} // verus!
