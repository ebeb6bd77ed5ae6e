//! The publish engine, push side: the checks before a push, and the
//! decisions of a push session (probe, upload with bounded retries, write
//! the manifest, swap the ledger pointer, commit locally).

use vstd::prelude::*;
use crate::changes::ChangeLog;
use crate::content_id::{ContentId, copy_bytes};
use crate::manifest::{Manifest, ManifestView};

verus! {

/// Attempts per object before a push gives up.
pub const MAX_ATTEMPTS: u32 = 5;

pub enum PushErrorView {
    MismatchedRootCid(Seq<u8>, Seq<u8>),
    MismatchedBase(ManifestView, ManifestView),
    NoChanges,
    CidMismatch(Seq<u8>, Seq<u8>),
    PushFailed,
    PublishFailed,
    UnexpectedEvent,
}

/// Why a push stopped.
#[derive(Debug)]
pub enum PushError {
    /// The chain's confirmed root (first) is not the root recorded on disk
    /// (second).
    MismatchedRootCid(ContentId, ContentId),
    /// The chain's confirmed manifest (first) is not the baseline recorded
    /// on disk (second).
    MismatchedBase(Manifest, Manifest),
    /// The staged state does not differ from the confirmed one.
    NoChanges,
    /// The remote store returned the first identifier for an object
    /// recorded under the second.
    CidMismatch(ContentId, ContentId),
    /// An object could not be uploaded within the attempt budget.
    PushFailed,
    /// The ledger refused to swap the root pointer: resync required.
    PublishFailed,
    /// The session was handed an event it did not ask for.
    UnexpectedEvent,
}

impl View for PushError {
    type V = PushErrorView;

    open spec fn view(&self) -> PushErrorView {
        match self {
            PushError::MismatchedRootCid(a, b) => PushErrorView::MismatchedRootCid(a@, b@),
            PushError::MismatchedBase(a, b) => PushErrorView::MismatchedBase(a@, b@),
            PushError::NoChanges => PushErrorView::NoChanges,
            PushError::CidMismatch(a, b) => PushErrorView::CidMismatch(a@, b@),
            PushError::PushFailed => PushErrorView::PushFailed,
            PushError::PublishFailed => PushErrorView::PublishFailed,
            PushError::UnexpectedEvent => PushErrorView::UnexpectedEvent,
        }
    }
}

/// The checks before a push, in order: the chain's confirmed root must be
/// the root recorded on disk, its confirmed manifest the baseline recorded
/// on disk, and its staged entry must differ from the confirmed one in both
/// root and manifest.
pub open spec fn push_check(
    first: (Seq<u8>, ManifestView),
    last: (Seq<u8>, ManifestView),
    disk_root: Seq<u8>,
    disk_base: ManifestView,
) -> Option<PushErrorView> {
    if first.0 != disk_root {
        Some(PushErrorView::MismatchedRootCid(first.0, disk_root))
    } else if !first.1.same_content(disk_base) {
        Some(PushErrorView::MismatchedBase(first.1, disk_base))
    } else if first.0 == last.0 || first.1.same_content(last.1) {
        Some(PushErrorView::NoChanges)
    } else {
        None
    }
}

/// Runs the checks before a push; makes no call to any remote.
pub fn check_push(change_log: &ChangeLog, disk_root: &ContentId, disk_base: &Manifest) -> (r: Result<(), PushError>)
    ensures
        match push_check(change_log@.versions[0], change_log@.versions.last(), disk_root@, disk_base@) {
            Some(e) => r is Err && r->Err_0@ == e,
            None => r is Ok,
        },
{
    let first = change_log.first_version().unwrap();
    let last = change_log.last_version().unwrap();
    if !first.0.same(disk_root) {
        return Err(PushError::MismatchedRootCid(first.0.clone(), disk_root.clone()));
    }
    if !first.1.same_content(disk_base) {
        return Err(PushError::MismatchedBase(first.1.clone(), disk_base.clone()));
    }
    if first.0.same(&last.0) || first.1.same_content(&last.1) {
        return Err(PushError::NoChanges);
    }
    Ok(())
}

/// Seconds to wait before attempt `a` of an object: 1 + 2^a.
pub open spec fn backoff(a: nat) -> int {
    1 + vstd::arithmetic::power2::pow2(a) as int
}

fn backoff_secs(a: u32) -> (r: u64)
    requires
        a < MAX_ATTEMPTS,
    ensures
        r == backoff(a as nat),
{
    proof {
        vstd::arithmetic::power2::lemma2_to64();
    }
    if a == 0 {
        2
    } else if a == 1 {
        3
    } else if a == 2 {
        5
    } else if a == 3 {
        9
    } else {
        17
    }
}

#[derive(Debug, Clone, Copy, PartialEq, Eq, Structural)]
pub enum PushPhase {
    /// Checking whether object `index` is on the remote.
    Probing,
    /// Uploading object `index`.
    Uploading,
    WritingManifest,
    Publishing,
    Done,
    Failed,
}

pub enum PushEventView {
    Present,
    Missing,
    Uploaded(Seq<u8>),
    Failed,
    ManifestWritten(Seq<u8>),
    Published,
    PublishFailed,
}

/// What the outside world reports back to a push session.
#[derive(Debug)]
pub enum PushEvent {
    /// The probed object is on the remote.
    Present,
    /// The probed object is not on the remote.
    Missing,
    /// The remote stored the uploaded object under this identifier.
    Uploaded(ContentId),
    /// The probe or the upload failed in transit.
    Failed,
    /// The remote stored the manifest under this identifier.
    ManifestWritten(ContentId),
    /// The ledger swapped the root pointer.
    Published,
    /// The ledger refused the swap.
    PublishFailed,
}

impl View for PushEvent {
    type V = PushEventView;

    open spec fn view(&self) -> PushEventView {
        match self {
            PushEvent::Present => PushEventView::Present,
            PushEvent::Missing => PushEventView::Missing,
            PushEvent::Uploaded(c) => PushEventView::Uploaded(c@),
            PushEvent::Failed => PushEventView::Failed,
            PushEvent::ManifestWritten(c) => PushEventView::ManifestWritten(c@),
            PushEvent::Published => PushEventView::Published,
            PushEvent::PublishFailed => PushEventView::PublishFailed,
        }
    }
}

pub enum PushActionView {
    Probe(Seq<u8>, Seq<u8>, int),
    Upload(Seq<u8>),
    WriteManifest,
    Publish(Seq<u8>, Seq<u8>),
    Commit(Seq<u8>),
    Fail(PushErrorView),
}

/// What a push session asks the outside world to do next.
#[derive(Debug)]
pub enum PushAction {
    /// Wait `delay_secs`, then ask the remote store whether it holds `cid`.
    Probe { path: Vec<u8>, cid: ContentId, delay_secs: u64 },
    /// Upload the working-tree file at `path` to the remote store.
    Upload { path: Vec<u8> },
    /// Serialise the staged manifest and write it to the remote store.
    WriteManifest,
    /// Ask the ledger to swap the root pointer from `previous` to `next`.
    Publish { previous: ContentId, next: ContentId },
    /// The pointer is swapped: reset the change log to the staged manifest
    /// under `root`, and record both as the local baseline.
    Commit { root: ContentId },
    /// Stop; local state stays as it was.
    Fail(PushError),
}

impl View for PushAction {
    type V = PushActionView;

    open spec fn view(&self) -> PushActionView {
        match self {
            PushAction::Probe { path, cid, delay_secs } => PushActionView::Probe(path@, cid@, *delay_secs as int),
            PushAction::Upload { path } => PushActionView::Upload(path@),
            PushAction::WriteManifest => PushActionView::WriteManifest,
            PushAction::Publish { previous, next } => PushActionView::Publish(previous@, next@),
            PushAction::Commit { root } => PushActionView::Commit(root@),
            PushAction::Fail(e) => PushActionView::Fail(e@),
        }
    }
}

pub struct PushSessionView {
    pub objects: Seq<(Seq<u8>, Seq<u8>)>,
    pub previous_root: Seq<u8>,
    pub phase: PushPhase,
    pub index: int,
    pub attempt: int,
    pub next_root: Seq<u8>,
}

/// Where the session goes once object `i` is on the remote: the next object,
/// or the manifest when none is left.
pub open spec fn after_object(s: PushSessionView, i: int) -> (PushSessionView, PushActionView) {
    if i + 1 < s.objects.len() {
        (
            PushSessionView { phase: PushPhase::Probing, index: i + 1, attempt: 0, ..s },
            PushActionView::Probe(s.objects[i + 1].0, s.objects[i + 1].1, backoff(0)),
        )
    } else {
        (PushSessionView { phase: PushPhase::WritingManifest, index: i + 1, attempt: 0, ..s }, PushActionView::WriteManifest)
    }
}

/// A failed attempt: retry object `index` after a longer wait, or give up
/// once the budget is spent.
pub open spec fn after_failure(s: PushSessionView) -> (PushSessionView, PushActionView) {
    if s.attempt + 1 < MAX_ATTEMPTS {
        (
            PushSessionView { phase: PushPhase::Probing, attempt: s.attempt + 1, ..s },
            PushActionView::Probe(s.objects[s.index].0, s.objects[s.index].1, backoff((s.attempt + 1) as nat)),
        )
    } else {
        (PushSessionView { phase: PushPhase::Failed, ..s }, PushActionView::Fail(PushErrorView::PushFailed))
    }
}

/// One decision of a push session.
pub open spec fn push_next(s: PushSessionView, e: PushEventView) -> (PushSessionView, PushActionView) {
    let failed = (PushSessionView { phase: PushPhase::Failed, ..s }, PushActionView::Fail(PushErrorView::UnexpectedEvent));
    match s.phase {
        PushPhase::Probing => match e {
            PushEventView::Present => after_object(s, s.index),
            PushEventView::Missing => (PushSessionView { phase: PushPhase::Uploading, ..s }, PushActionView::Upload(s.objects[s.index].0)),
            PushEventView::Failed => after_failure(s),
            _ => failed,
        },
        PushPhase::Uploading => match e {
            PushEventView::Uploaded(c) => if c == s.objects[s.index].1 {
                after_object(s, s.index)
            } else {
                (
                    PushSessionView { phase: PushPhase::Failed, ..s },
                    PushActionView::Fail(PushErrorView::CidMismatch(c, s.objects[s.index].1)),
                )
            },
            PushEventView::Failed => after_failure(s),
            _ => failed,
        },
        PushPhase::WritingManifest => match e {
            PushEventView::ManifestWritten(c) => (
                PushSessionView { phase: PushPhase::Publishing, next_root: c, ..s },
                PushActionView::Publish(s.previous_root, c),
            ),
            _ => failed,
        },
        PushPhase::Publishing => match e {
            PushEventView::Published => (PushSessionView { phase: PushPhase::Done, ..s }, PushActionView::Commit(s.next_root)),
            PushEventView::PublishFailed => (
                PushSessionView { phase: PushPhase::Failed, ..s },
                PushActionView::Fail(PushErrorView::PublishFailed),
            ),
            _ => failed,
        },
        _ => failed,
    }
}

/// A push in progress: the objects of the staged manifest, in path order,
/// with the root it supersedes.
#[derive(Debug)]
pub struct PushSession {
    objects: Vec<(Vec<u8>, ContentId)>,
    previous_root: ContentId,
    phase: PushPhase,
    index: usize,
    attempt: u32,
    next_root: ContentId,
}

spec fn pairs_view(v: Seq<(Vec<u8>, ContentId)>) -> Seq<(Seq<u8>, Seq<u8>)> {
    v.map_values(|e: (Vec<u8>, ContentId)| (e.0@, e.1@))
}

impl View for PushSession {
    type V = PushSessionView;

    closed spec fn view(&self) -> PushSessionView {
        PushSessionView {
            objects: pairs_view(self.objects@),
            previous_root: self.previous_root@,
            phase: self.phase,
            index: self.index as int,
            attempt: self.attempt as int,
            next_root: self.next_root@,
        }
    }
}

impl PushSession {
    #[verifier::type_invariant]
    pub open spec fn inv(&self) -> bool {
        &&& self@.attempt < MAX_ATTEMPTS
        &&& (self@.phase == PushPhase::Probing || self@.phase == PushPhase::Uploading) ==> self@.index < self@.objects.len()
        &&& self@.index <= self@.objects.len()
    }

    /// Starts a push of the staged manifest of `change_log`, after the
    /// checks of `check_push`. The first action probes the first object (or
    /// writes the manifest when there is none).
    pub fn begin(change_log: &ChangeLog, disk_root: &ContentId, disk_base: &Manifest) -> (r: Result<(PushSession, PushAction), PushError>)
        ensures
            match push_check(change_log@.versions[0], change_log@.versions.last(), disk_root@, disk_base@) {
                Some(e) => r is Err && r->Err_0@ == e,
                None => r is Ok && ({
                    let (s, a) = r->Ok_0;
                    let last = change_log@.versions.last().1;
                    &&& s@.previous_root == change_log@.versions[0].0
                    &&& s@.objects.len() == last.objects.len()
                    &&& forall|k: int| 0 <= k < s@.objects.len() ==> #[trigger] s@.objects[k] == (last.objects[k].0, last.objects[k].1.cid)
                    &&& s@.index == 0 && s@.attempt == 0
                    &&& if s@.objects.len() > 0 {
                        s@.phase == PushPhase::Probing && a@ == PushActionView::Probe(s@.objects[0].0, s@.objects[0].1, backoff(0))
                    } else {
                        s@.phase == PushPhase::WritingManifest && a@ == PushActionView::WriteManifest
                    }
                }),
            },
    {
        match check_push(change_log, disk_root, disk_base) {
            Err(e) => {
                return Err(e);
            },
            Ok(()) => {},
        }
        let first = change_log.first_version().unwrap();
        let last = change_log.last_version().unwrap();
        let ghost lastv = last.1@;
        let mut objects: Vec<(Vec<u8>, ContentId)> = Vec::new();
        let mut i: usize = 0;
        while i < last.1.len()
            invariant
                lastv == last.1@,
                i <= lastv.objects.len(),
                objects@.len() == i,
                forall|k: int| 0 <= k < i ==> #[trigger] pairs_view(objects@)[k] == (lastv.objects[k].0, lastv.objects[k].1.cid),
            decreases lastv.objects.len() - i,
        {
            let e = last.1.entry(i);
            let pair = (copy_bytes(&e.path), e.object.cid.clone());
            let ghost before = objects@;
            objects.push(pair);
            assert(objects@ == before.push(pair));
            assert forall|k: int| 0 <= k < i + 1 implies #[trigger] pairs_view(objects@)[k] == (lastv.objects[k].0, lastv.objects[k].1.cid) by {
                if k < i {
                    assert(objects@[k] == before[k]);
                    assert(pairs_view(before)[k] == (lastv.objects[k].0, lastv.objects[k].1.cid));
                }
            }
            i = i + 1;
        }
        let action = if objects.len() > 0 {
            assert(pairs_view(objects@)[0] == (objects@[0].0@, objects@[0].1@));
            PushAction::Probe { path: copy_bytes(&objects[0].0), cid: objects[0].1.clone(), delay_secs: backoff_secs(0) }
        } else {
            PushAction::WriteManifest
        };
        let phase = if objects.len() > 0 {
            PushPhase::Probing
        } else {
            PushPhase::WritingManifest
        };
        let s = PushSession { objects, previous_root: first.0.clone(), phase, index: 0, attempt: 0, next_root: ContentId::empty() };
        Ok((s, action))
    }

    pub fn phase(&self) -> (r: PushPhase)
        ensures
            r == self@.phase,
    {
        self.phase
    }

    fn advance(&mut self) -> (r: PushAction)
        requires
            old(self)@.index < old(self)@.objects.len(),
            old(self)@.phase == PushPhase::Probing || old(self)@.phase == PushPhase::Uploading,
        ensures
            (final(self)@, r@) == after_object(old(self)@, old(self)@.index),
    {
        proof {
            use_type_invariant(&*self);
        }
        assert(pairs_view(self.objects@).len() == self.objects@.len());
        let n = self.objects.len();
        assert(self.index < n);
        let i = self.index + 1;
        if i < self.objects.len() {
            assert(pairs_view(self.objects@)[i as int] == (self.objects@[i as int].0@, self.objects@[i as int].1@));
            let a = PushAction::Probe { path: copy_bytes(&self.objects[i].0), cid: self.objects[i].1.clone(), delay_secs: backoff_secs(0) };
            self.phase = PushPhase::Probing;
            self.index = i;
            self.attempt = 0;
            a
        } else {
            self.phase = PushPhase::WritingManifest;
            self.index = i;
            self.attempt = 0;
            PushAction::WriteManifest
        }
    }

    fn retry(&mut self) -> (r: PushAction)
        requires
            old(self)@.index < old(self)@.objects.len(),
            old(self)@.phase == PushPhase::Probing || old(self)@.phase == PushPhase::Uploading,
        ensures
            (final(self)@, r@) == after_failure(old(self)@),
    {
        proof {
            use_type_invariant(&*self);
        }
        if self.attempt + 1 < MAX_ATTEMPTS {
            let i = self.index;
            assert(pairs_view(self.objects@)[i as int] == (self.objects@[i as int].0@, self.objects@[i as int].1@));
            let a = PushAction::Probe {
                path: copy_bytes(&self.objects[i].0),
                cid: self.objects[i].1.clone(),
                delay_secs: backoff_secs(self.attempt + 1),
            };
            self.phase = PushPhase::Probing;
            self.attempt = self.attempt + 1;
            a
        } else {
            self.phase = PushPhase::Failed;
            PushAction::Fail(PushError::PushFailed)
        }
    }

    /// Takes the outcome of the last action and decides the next one.
    pub fn step(&mut self, event: PushEvent) -> (r: PushAction)
        ensures
            (final(self)@, r@) == push_next(old(self)@, event@),
    {
        proof {
            use_type_invariant(&*self);
        }
        match self.phase {
            PushPhase::Probing => match event {
                PushEvent::Present => self.advance(),
                PushEvent::Missing => {
                    let i = self.index;
                    assert(pairs_view(self.objects@)[i as int] == (self.objects@[i as int].0@, self.objects@[i as int].1@));
                    self.phase = PushPhase::Uploading;
                    PushAction::Upload { path: copy_bytes(&self.objects[i].0) }
                },
                PushEvent::Failed => self.retry(),
                _ => {
                    self.phase = PushPhase::Failed;
                    PushAction::Fail(PushError::UnexpectedEvent)
                },
            },
            PushPhase::Uploading => match event {
                PushEvent::Uploaded(c) => {
                    let i = self.index;
                    assert(pairs_view(self.objects@)[i as int] == (self.objects@[i as int].0@, self.objects@[i as int].1@));
                    if c.same(&self.objects[i].1) {
                        self.advance()
                    } else {
                        let expected = self.objects[i].1.clone();
                        self.phase = PushPhase::Failed;
                        PushAction::Fail(PushError::CidMismatch(c, expected))
                    }
                },
                PushEvent::Failed => self.retry(),
                _ => {
                    self.phase = PushPhase::Failed;
                    PushAction::Fail(PushError::UnexpectedEvent)
                },
            },
            PushPhase::WritingManifest => match event {
                PushEvent::ManifestWritten(c) => {
                    let a = PushAction::Publish { previous: self.previous_root.clone(), next: c.clone() };
                    self.phase = PushPhase::Publishing;
                    self.next_root = c;
                    a
                },
                _ => {
                    self.phase = PushPhase::Failed;
                    PushAction::Fail(PushError::UnexpectedEvent)
                },
            },
            PushPhase::Publishing => match event {
                PushEvent::Published => {
                    self.phase = PushPhase::Done;
                    PushAction::Commit { root: self.next_root.clone() }
                },
                PushEvent::PublishFailed => {
                    self.phase = PushPhase::Failed;
                    PushAction::Fail(PushError::PublishFailed)
                },
                _ => {
                    self.phase = PushPhase::Failed;
                    PushAction::Fail(PushError::UnexpectedEvent)
                },
            },
            _ => {
                self.phase = PushPhase::Failed;
                PushAction::Fail(PushError::UnexpectedEvent)
            },
        }
    }
}

/// A push changes local state only once the ledger has swapped the pointer:
/// the session asks for a commit in answer to `Published` alone, and a
/// refused swap ends it with an error.
pub proof fn lemma_commit_only_after_publish(s: PushSessionView, e: PushEventView)
    ensures
        push_next(s, e).1 is Commit ==> e == PushEventView::Published && s.phase == PushPhase::Publishing,
        s.phase == PushPhase::Publishing && e == PushEventView::PublishFailed ==> push_next(s, e).1 == PushActionView::Fail(PushErrorView::PublishFailed)
            && push_next(s, e).0.phase == PushPhase::Failed,
{
}

/// The session state and the actions asked for after `k` answers in a row
/// that the probed object is already on the remote.
pub open spec fn present_run(s: PushSessionView, k: nat) -> (PushSessionView, Seq<PushActionView>)
    decreases k,
{
    if k == 0 {
        (s, Seq::empty())
    } else {
        let (s1, a) = push_next(s, PushEventView::Present);
        let (s2, acts) = present_run(s1, (k - 1) as nat);
        (s2, seq![a] + acts)
    }
}

/// When the remote already holds every object, a push uploads nothing: from
/// the first probe, answering `Present` to each leads through one probe per
/// object to the manifest write, then to the pointer swap from the
/// superseded root to the written manifest, then to the commit.
pub proof fn lemma_all_present_uploads_nothing(s: PushSessionView, root: Seq<u8>)
    requires
        s.phase == PushPhase::Probing,
        0 <= s.index < s.objects.len(),
    ensures
        ({
            let (f, acts) = present_run(s, (s.objects.len() - s.index) as nat);
            let (g, publish) = push_next(f, PushEventView::ManifestWritten(root));
            &&& acts.len() == s.objects.len() - s.index
            &&& forall|i: int| 0 <= i < acts.len() - 1 ==> #[trigger] acts[i] is Probe
            &&& forall|i: int| 0 <= i < acts.len() ==> !(#[trigger] acts[i] is Upload)
            &&& acts.last() == PushActionView::WriteManifest
            &&& f.phase == PushPhase::WritingManifest
            &&& publish == PushActionView::Publish(s.previous_root, root)
            &&& push_next(g, PushEventView::Published).1 == PushActionView::Commit(root)
        }),
    decreases s.objects.len() - s.index,
{
    let k = (s.objects.len() - s.index) as nat;
    let (s1, a) = push_next(s, PushEventView::Present);
    if s.index + 1 < s.objects.len() {
        lemma_all_present_uploads_nothing(s1, root);
        let (f, rest) = present_run(s1, (k - 1) as nat);
        let acts = seq![a] + rest;
        assert(present_run(s, k) == (f, acts));
        assert forall|i: int| 0 <= i < acts.len() - 1 implies #[trigger] acts[i] is Probe by {
            if i > 0 {
                assert(acts[i] == rest[i - 1]);
            }
        }
        assert forall|i: int| 0 <= i < acts.len() implies !(#[trigger] acts[i] is Upload) by {
            if i > 0 {
                assert(acts[i] == rest[i - 1]);
            }
        }
        assert(acts.last() == rest.last());
    } else {
        assert(present_run(s1, 0) == (s1, Seq::<PushActionView>::empty()));
        assert(present_run(s, k) == (s1, seq![a]));
    }
}

} // verus!
