//! The publish engine, pull side: whether to fetch the published manifest,
//! and which tracked files must be downloaded to match it.

use vstd::prelude::*;
use crate::content_id::{ContentId, copy_bytes, empty_cid};
use crate::manifest::Manifest;

verus! {

pub enum LocalView {
    Missing,
    Directory,
    File(Seq<u8>),
}

/// What the working tree holds at a tracked path: nothing, a directory, or
/// a file whose bytes hash to the given identifier.
#[derive(Debug)]
pub enum LocalFile {
    Missing,
    Directory,
    File(ContentId),
}

impl View for LocalFile {
    type V = LocalView;

    open spec fn view(&self) -> LocalView {
        match self {
            LocalFile::Missing => LocalView::Missing,
            LocalFile::Directory => LocalView::Directory,
            LocalFile::File(c) => LocalView::File(c@),
        }
    }
}

/// Why a pull stopped.
#[derive(Debug)]
pub enum PullError {
    /// A tracked path is a directory in the working tree.
    PathIsDirectory(Vec<u8>),
}

/// Whether the manifest published under `remote` must be fetched: the
/// ledger names a published root other than the one recorded locally.
pub open spec fn fetch_needed(remote: Seq<u8>, local: Seq<u8>) -> bool {
    remote != local && remote != empty_cid()
}

pub fn needs_fetch(remote: &ContentId, local: &ContentId) -> (r: bool)
    ensures
        r == fetch_needed(remote@, local@),
{
    !remote.same(local) && !remote.is_empty_cid()
}

/// A file must be downloaded when it is missing or its content differs.
pub open spec fn pull_needed(l: LocalView, cid: Seq<u8>) -> bool {
    match l {
        LocalView::Missing => true,
        LocalView::File(h) => h != cid,
        LocalView::Directory => false,
    }
}

/// Decides whether the file at `path`, which the working tree holds as
/// `local`, must be downloaded to hold content `cid`.
pub fn file_needs_pull(path: &Vec<u8>, local: &LocalFile, cid: &ContentId) -> (r: Result<bool, PullError>)
    ensures
        match r {
            Ok(b) => local@ != LocalView::Directory && b == pull_needed(local@, cid@),
            Err(PullError::PathIsDirectory(p)) => local@ == LocalView::Directory && p@ == path@,
        },
{
    match local {
        LocalFile::Missing => Ok(true),
        LocalFile::Directory => Err(PullError::PathIsDirectory(copy_bytes(path))),
        LocalFile::File(h) => Ok(!h.same(cid)),
    }
}

/// The paths of `objects` to download, in path order, given what the
/// working tree holds at each.
pub open spec fn plan_of(objects: Seq<(Seq<u8>, crate::object::ObjectView)>, local: Seq<LocalView>) -> Seq<Seq<u8>>
    decreases objects.len(),
{
    if objects.len() == 0 || local.len() == 0 {
        Seq::empty()
    } else {
        let rest = plan_of(objects.drop_last(), local.drop_last());
        if pull_needed(local.last(), objects.last().1.cid) {
            rest.push(objects.last().0)
        } else {
            rest
        }
    }
}

pub open spec fn locals_view(s: Seq<LocalFile>) -> Seq<LocalView> {
    s.map_values(|l: LocalFile| l@)
}

/// The files to download so that the working tree matches `manifest`;
/// `local[k]` is what the working tree holds at the `k`-th object's path.
/// Fails on the first tracked path that is a directory.
pub fn pull_plan(manifest: &Manifest, local: &Vec<LocalFile>) -> (r: Result<Vec<Vec<u8>>, PullError>)
    requires
        local@.len() == manifest@.objects.len(),
    ensures
        match r {
            Ok(plan) => (forall|k: int| 0 <= k < local@.len() ==> #[trigger] local@[k]@ != LocalView::Directory)
                && plan@.len() == plan_of(manifest@.objects, locals_view(local@)).len()
                && forall|k: int| 0 <= k < plan@.len() ==> #[trigger] plan@[k]@ == plan_of(manifest@.objects, locals_view(local@))[k],
            Err(PullError::PathIsDirectory(p)) => exists|k: int|
                0 <= k < local@.len() && local@[k]@ == LocalView::Directory && p@ == manifest@.objects[k].0
                    && forall|k2: int| 0 <= k2 < k ==> #[trigger] local@[k2]@ != LocalView::Directory,
        },
{
    let ghost o = manifest@.objects;
    let ghost l = locals_view(local@);
    let mut plan: Vec<Vec<u8>> = Vec::new();
    let mut i: usize = 0;
    while i < local.len()
        invariant
            o == manifest@.objects,
            l == locals_view(local@),
            l.len() == local@.len(),
            o.len() == local@.len(),
            i <= o.len(),
            forall|k: int| 0 <= k < i ==> #[trigger] local@[k]@ != LocalView::Directory,
            plan@.len() == plan_of(o.subrange(0, i as int), l.subrange(0, i as int)).len(),
            forall|k: int| 0 <= k < plan@.len() ==> #[trigger] plan@[k]@ == plan_of(o.subrange(0, i as int), l.subrange(0, i as int))[k],
        decreases o.len() - i,
    {
        let e = manifest.entry(i);
        proof {
            assert(o.subrange(0, i + 1).drop_last() =~= o.subrange(0, i as int));
            assert(l.subrange(0, i + 1).drop_last() =~= l.subrange(0, i as int));
            assert(l[i as int] == local@[i as int]@);
        }
        match file_needs_pull(&e.path, &local[i], &e.object.cid) {
            Err(err) => {
                return Err(err);
            },
            Ok(true) => {
                plan.push(copy_bytes(&e.path));
            },
            Ok(false) => {},
        }
        i = i + 1;
    }
    proof {
        assert(o.subrange(0, i as int) =~= o);
        assert(l.subrange(0, i as int) =~= l);
    }
    Ok(plan)
}

/// What the working tree holds at a tracked path after a pull: the
/// downloaded object where the path was planned (content addressing: bytes
/// fetched under an identifier hash to that identifier), else what it held.
pub open spec fn after_pull(l: LocalView, planned: bool, cid: Seq<u8>) -> LocalView {
    if planned {
        LocalView::File(cid)
    } else {
        l
    }
}

/// A pull reconciles the working tree: when no tracked path is a directory,
/// every object of the manifest is either planned for download or already
/// held with its identifier, so afterwards each tracked file hashes to its
/// object's identifier.
pub proof fn lemma_pull_reconciles(objects: Seq<(Seq<u8>, crate::object::ObjectView)>, local: Seq<LocalView>, k: int)
    requires
        objects.len() == local.len(),
        0 <= k < objects.len(),
        forall|j: int| 0 <= j < local.len() ==> #[trigger] local[j] != LocalView::Directory,
    ensures
        after_pull(local[k], plan_of(objects, local).contains(objects[k].0), objects[k].1.cid) == LocalView::File(objects[k].1.cid),
    decreases objects.len(),
{
    let n = objects.len() - 1;
    let rest = plan_of(objects.drop_last(), local.drop_last());
    if k == n {
        if pull_needed(local[k], objects[k].1.cid) {
            assert(plan_of(objects, local) == rest.push(objects[k].0));
            assert(plan_of(objects, local)[rest.len() as int] == objects[k].0);
        }
    } else {
        assert(objects.drop_last()[k] == objects[k]);
        assert(local.drop_last()[k] == local[k]);
        lemma_pull_reconciles(objects.drop_last(), local.drop_last(), k);
        if rest.contains(objects[k].0) {
            let j = choose|j: int| 0 <= j < rest.len() && rest[j] == objects[k].0;
            if pull_needed(local[n], objects[n].1.cid) {
                assert(plan_of(objects, local)[j] == rest[j]);
            }
        }
    }
}

} // verus!
