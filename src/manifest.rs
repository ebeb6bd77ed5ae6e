//! Manifests: snapshots mapping each tracked path to its object, chained to
//! the manifest they supersede.

use vstd::prelude::*;
use core::cmp::Ordering;
use crate::content_id::{ContentId, copy_bytes, bytes_equal, empty_cid};
use crate::object::{Object, ObjectView, later};
use crate::ordered::{keys_sorted, lookup, lemma_insert, lemma_update, lemma_remove, lemma_lookup_at, lemma_lookup_absent};
use crate::path::{path_lt, compare_paths, lemma_path_lt_total, lemma_path_lt_transitive, lemma_path_lt_irreflexive};

verus! {

pub struct VersionView {
    pub build_profile: Seq<char>,
    pub build_features: Seq<char>,
    pub repo_version: Seq<char>,
    pub version: Seq<char>,
}

/// The build of the tool that wrote a manifest. Informational only: it takes
/// no part in manifest equality.
#[derive(Debug)]
pub struct Version {
    pub build_profile: String,
    pub build_features: String,
    pub repo_version: String,
    pub version: String,
}

impl View for Version {
    type V = VersionView;

    open spec fn view(&self) -> VersionView {
        VersionView {
            build_profile: self.build_profile@,
            build_features: self.build_features@,
            repo_version: self.repo_version@,
            version: self.version@,
        }
    }
}

impl Version {
    pub fn new(build_profile: String, build_features: String, repo_version: String, version: String) -> (r: Version)
        ensures
            r@ == (VersionView {
                build_profile: build_profile@,
                build_features: build_features@,
                repo_version: repo_version@,
                version: version@,
            }),
    {
        Version { build_profile, build_features, repo_version, version }
    }
}

impl Clone for Version {
    fn clone(&self) -> (r: Version)
        ensures
            r@ == self@,
    {
        Version {
            build_profile: self.build_profile.clone(),
            build_features: self.build_features.clone(),
            repo_version: self.repo_version.clone(),
            version: self.version.clone(),
        }
    }
}

/// A path of the manifest with its object.
#[derive(Debug)]
pub struct ObjectEntry {
    pub path: Vec<u8>,
    pub object: Object,
}

impl View for ObjectEntry {
    type V = (Seq<u8>, ObjectView);

    open spec fn view(&self) -> (Seq<u8>, ObjectView) {
        (self.path@, self.object@)
    }
}

impl Clone for ObjectEntry {
    fn clone(&self) -> (r: ObjectEntry)
        ensures
            r@ == self@,
    {
        ObjectEntry { path: copy_bytes(&self.path), object: self.object.clone() }
    }
}

spec fn entries_view(s: Seq<ObjectEntry>) -> Seq<(Seq<u8>, ObjectView)> {
    s.map_values(|e: ObjectEntry| e@)
}

pub struct ManifestView {
    pub objects: Seq<(Seq<u8>, ObjectView)>,
    pub previous_root: Seq<u8>,
    pub version: VersionView,
}

impl ManifestView {
    /// The object under `p`, read as a map.
    pub open spec fn object(self, p: Seq<u8>) -> Option<ObjectView> {
        lookup(self.objects, p)
    }

    /// Manifest equality: same objects and same previous root; the version
    /// does not count.
    pub open spec fn same_content(self, other: ManifestView) -> bool {
        self.objects == other.objects && self.previous_root == other.previous_root
    }
}

/// A snapshot of the tracked tree: objects in path order, the identifier of
/// the manifest it supersedes, and the build that wrote it.
#[derive(Debug)]
pub struct Manifest {
    objects: Vec<ObjectEntry>,
    previous_root: ContentId,
    version: Version,
}

impl View for Manifest {
    type V = ManifestView;

    closed spec fn view(&self) -> ManifestView {
        ManifestView {
            objects: entries_view(self.objects@),
            previous_root: self.previous_root@,
            version: self.version@,
        }
    }
}

impl Manifest {
    #[verifier::type_invariant]
    pub open spec fn inv(&self) -> bool {
        keys_sorted(self@.objects)
    }

    /// An empty manifest that supersedes nothing.
    pub fn new(version: Version) -> (r: Manifest)
        ensures
            r@.objects.len() == 0,
            r@.previous_root == empty_cid(),
            r@.version == version@,
    {
        let r = Manifest { objects: Vec::new(), previous_root: ContentId::empty(), version };
        assert(r@.objects =~= Seq::<(Seq<u8>, ObjectView)>::empty());
        r
    }

    pub fn set_previous_root(&mut self, cid: ContentId)
        ensures
            final(self)@ == (ManifestView { previous_root: cid@, ..old(self)@ }),
    {
        proof {
            use_type_invariant(&*self);
        }
        self.previous_root = cid;
    }

    pub fn previous_root(&self) -> (r: &ContentId)
        ensures
            r@ == self@.previous_root,
    {
        &self.previous_root
    }

    pub fn version(&self) -> (r: &Version)
        ensures
            r@ == self@.version,
    {
        &self.version
    }

    /// Number of objects.
    pub fn len(&self) -> (r: usize)
        ensures
            r == self@.objects.len(),
    {
        self.objects.len()
    }

    /// The `i`-th object in path order.
    pub fn entry(&self, i: usize) -> (r: &ObjectEntry)
        requires
            i < self@.objects.len(),
        ensures
            r@ == self@.objects[i as int],
    {
        &self.objects[i]
    }

    /// The index of the first object whose path is not below `p`.
    fn position(&self, p: &Vec<u8>) -> (k: usize)
        ensures
            k <= self@.objects.len(),
            forall|i: int| 0 <= i < k ==> path_lt(#[trigger] self@.objects[i].0, p@),
            k < self@.objects.len() ==> (self@.objects[k as int].0 == p@ || path_lt(p@, self@.objects[k as int].0)),
            forall|i: int| k < i < self@.objects.len() ==> path_lt(p@, #[trigger] self@.objects[i].0),
    {
        proof {
            use_type_invariant(self);
        }
        let ghost s = self@.objects;
        let mut k: usize = 0;
        let mut done = false;
        while k < self.objects.len() && !done
            invariant
                s == self@.objects,
                k <= s.len(),
                s.len() == self.objects@.len(),
                keys_sorted(s),
                forall|i: int| 0 <= i < k ==> path_lt(#[trigger] s[i].0, p@),
                done ==> k < s.len() && !path_lt(s[k as int].0, p@),
            decreases self.objects.len() - k + (if done { 0int } else { 1int }),
        {
            assert(s[k as int] == self.objects@[k as int]@);
            match compare_paths(&self.objects[k].path, p) {
                Ordering::Less => {
                    k = k + 1;
                },
                _ => {
                    done = true;
                },
            }
        }
        proof {
            if k < s.len() {
                lemma_path_lt_total(s[k as int].0, p@);
                assert forall|i: int| k < i < s.len() implies path_lt(p@, #[trigger] s[i].0) by {
                    assert(path_lt(s[k as int].0, s[i].0));
                    if s[k as int].0 != p@ {
                        lemma_path_lt_transitive(p@, s[k as int].0, s[i].0);
                    }
                }
            }
        }
        k
    }

    /// Index of the object under `p`, if any.
    fn find(&self, p: &Vec<u8>) -> (r: Option<usize>)
        ensures
            match r {
                Some(k) => k < self@.objects.len() && self@.objects[k as int].0 == p@
                    && self@.object(p@) == Some(self@.objects[k as int].1),
                None => self@.object(p@) is None,
            },
    {
        proof {
            use_type_invariant(self);
        }
        let k = self.position(p);
        if k < self.objects.len() && bytes_equal(&self.objects[k].path, p) {
            proof {
                lemma_lookup_at(self@.objects, k as int);
            }
            Some(k)
        } else {
            proof {
                assert forall|i: int| 0 <= i < self@.objects.len() implies #[trigger] self@.objects[i].0 != p@ by {
                    lemma_path_lt_irreflexive(p@);
                }
                lemma_lookup_absent(self@.objects, p@);
            }
            None
        }
    }

    /// The object under `p`, if any.
    pub fn get_object(&self, p: &Vec<u8>) -> (r: Option<&Object>)
        ensures
            match r {
                Some(o) => self@.object(p@) == Some(o@),
                None => self@.object(p@) is None,
            },
    {
        match self.find(p) {
            Some(k) => Some(&self.objects[k].object),
            None => None,
        }
    }

    /// Puts `object` under `p`, replacing any object there.
    pub fn insert_object(&mut self, p: &Vec<u8>, object: &Object)
        ensures
            final(self)@.previous_root == old(self)@.previous_root,
            final(self)@.version == old(self)@.version,
            forall|q: Seq<u8>|
                #[trigger] final(self)@.object(q) == if q == p@ {
                    Some(object@)
                } else {
                    old(self)@.object(q)
                },
    {
        proof {
            use_type_invariant(&*self);
        }
        let k = self.position(p);
        let found = k < self.objects.len() && bytes_equal(&self.objects[k].path, p);
        let ghost old_view = self@.objects;
        let mut objects: Vec<ObjectEntry> = Vec::new();
        core::mem::swap(&mut objects, &mut self.objects);
        let e = ObjectEntry { path: copy_bytes(p), object: object.clone() };
        let ghost ev = e@;
        if found {
            objects.set(k, e);
            proof {
                lemma_update(old_view, k as int, ev);
                assert(entries_view(objects@) =~= old_view.update(k as int, ev));
            }
        } else {
            proof {
                assert forall|i: int| k <= i < old_view.len() implies path_lt(ev.0, #[trigger] old_view[i].0) by {
                }
            }
            objects.insert(k, e);
            proof {
                lemma_insert(old_view, k as int, ev);
                assert(entries_view(objects@) =~= old_view.insert(k as int, ev));
            }
        }
        self.objects = objects;
    }

    /// Points the object under `p` at content `cid`, changed at `now` (its
    /// update time does not decrease).
    /// Returns whether there was one; without one nothing changes.
    pub fn update_object(&mut self, p: &Vec<u8>, cid: ContentId, now: i64) -> (found: bool)
        ensures
            found == old(self)@.object(p@) is Some,
            final(self)@.previous_root == old(self)@.previous_root,
            final(self)@.version == old(self)@.version,
            forall|q: Seq<u8>|
                #[trigger] final(self)@.object(q) == if q == p@ && found {
                    Some(ObjectView { cid: cid@, updated_at: later(old(self)@.object(q)->Some_0.updated_at, now), ..old(self)@.object(q)->Some_0 })
                } else {
                    old(self)@.object(q)
                },
    {
        match self.find(p) {
            Some(k) => {
                let mut object = self.objects[k].object.clone();
                object.update(cid, now);
                self.insert_object(p, &object);
                true
            },
            None => false,
        }
    }

    /// Drops the object under `p`, if any.
    pub fn remove_object(&mut self, p: &Vec<u8>)
        ensures
            final(self)@.previous_root == old(self)@.previous_root,
            final(self)@.version == old(self)@.version,
            forall|q: Seq<u8>|
                #[trigger] final(self)@.object(q) == if q == p@ {
                    None
                } else {
                    old(self)@.object(q)
                },
    {
        proof {
            use_type_invariant(&*self);
        }
        match self.find(p) {
            Some(k) => {
                let ghost old_view = self@.objects;
                let mut objects: Vec<ObjectEntry> = Vec::new();
                core::mem::swap(&mut objects, &mut self.objects);
                objects.remove(k);
                proof {
                    lemma_remove(old_view, k as int);
                    assert(entries_view(objects@) =~= old_view.remove(k as int));
                }
                self.objects = objects;
            },
            None => {},
        }
    }

    /// The first object, in path order, whose content is `cid`.
    pub fn object_by_cid(&self, cid: &ContentId) -> (r: Option<&ObjectEntry>)
        ensures
            match r {
                Some(e) => exists|i: int|
                    0 <= i < self@.objects.len() && self@.objects[i] == e@ && e@.1.cid == cid@
                        && forall|j: int| 0 <= j < i ==> (#[trigger] self@.objects[j]).1.cid != cid@,
                None => forall|j: int| 0 <= j < self@.objects.len() ==> (#[trigger] self@.objects[j]).1.cid != cid@,
            },
    {
        let mut i: usize = 0;
        while i < self.objects.len()
            invariant
                i <= self.objects@.len(),
                self@.objects.len() == self.objects@.len(),
                forall|j: int| 0 <= j < i ==> (#[trigger] self@.objects[j]).1.cid != cid@,
            decreases self.objects.len() - i,
        {
            assert(self@.objects[i as int] == self.objects@[i as int]@);
            if self.objects[i].object.cid.same(cid) {
                return Some(&self.objects[i]);
            }
            i = i + 1;
        }
        None
    }

    /// Manifest equality: same objects and same previous root.
    pub fn same_content(&self, other: &Manifest) -> (r: bool)
        ensures
            r == self@.same_content(other@),
    {
        if !self.previous_root.same(&other.previous_root) {
            return false;
        }
        if self.objects.len() != other.objects.len() {
            assert(self@.objects.len() == self.objects@.len());
            assert(other@.objects.len() == other.objects@.len());
            return false;
        }
        let ghost a = self@.objects;
        let ghost b = other@.objects;
        let mut i: usize = 0;
        while i < self.objects.len()
            invariant
                a == self@.objects,
                b == other@.objects,
                a.len() == b.len(),
                a.len() == self.objects@.len(),
                b.len() == other.objects@.len(),
                i <= a.len(),
                forall|j: int| 0 <= j < i ==> a[j] == b[j],
            decreases self.objects.len() - i,
        {
            assert(a[i as int] == self.objects@[i as int]@);
            assert(b[i as int] == other.objects@[i as int]@);
            if !bytes_equal(&self.objects[i].path, &other.objects[i].path)
                || !self.objects[i].object.same(&other.objects[i].object) {
                return false;
            }
            i = i + 1;
        }
        assert(a =~= b);
        true
    }
}

impl Clone for Manifest {
    fn clone(&self) -> (r: Manifest)
        ensures
            r@ == self@,
    {
        proof {
            use_type_invariant(self);
        }
        let ghost s = self@.objects;
        let mut objects: Vec<ObjectEntry> = Vec::new();
        let mut i: usize = 0;
        while i < self.objects.len()
            invariant
                s == self@.objects,
                i <= self.objects@.len(),
                s.len() == self.objects@.len(),
                objects@.len() == i,
                entries_view(objects@) == s.subrange(0, i as int),
            decreases self.objects.len() - i,
        {
            assert(s[i as int] == self.objects@[i as int]@);
            let c = self.objects[i].clone();
            let ghost before = objects@;
            objects.push(c);
            assert(objects@ == before.push(c));
            assert forall|j: int| 0 <= j < i + 1 implies #[trigger] entries_view(objects@)[j] == s[j] by {
                if j < i {
                    assert(objects@[j] == before[j]);
                    assert(entries_view(before)[j] == s.subrange(0, i as int)[j]);
                }
            }
            assert(entries_view(objects@) =~= s.subrange(0, i + 1));
            i = i + 1;
        }
        assert(s.subrange(0, i as int) =~= s);
        Manifest { objects, previous_root: self.previous_root.clone(), version: self.version.clone() }
    }
}

impl PartialEq for Manifest {
    fn eq(&self, other: &Manifest) -> (r: bool) {
        self.same_content(other)
    }
}

impl vstd::std_specs::cmp::PartialEqSpecImpl for Manifest {
    open spec fn obeys_eq_spec() -> bool {
        true
    }

    open spec fn eq_spec(&self, other: &Manifest) -> bool {
        self@.same_content(other@)
    }
}

} // verus!
