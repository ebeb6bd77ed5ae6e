use dorfs::changes::ChangeLog;
use dorfs::content_id::{cid_from_token, cid_into_token, ContentId, TokenError};
use dorfs::diff::{diff, scan_is_sorted, EntryKind, ScanEntry};
use dorfs::log::{ChangeType, Log};
use dorfs::manifest::{Manifest, Version};
use dorfs::object::Object;
use dorfs::pull::{file_needs_pull, needs_fetch, pull_plan, LocalFile, PullError};
use dorfs::push::{check_push, PushAction, PushError, PushEvent, PushPhase, PushSession};
use dorfs::stage::{stage, stage_targets, StageError};

fn cid(tag: u8) -> ContentId {
    ContentId::from_bytes(vec![1, 0x55, 0x12, 0x20, tag, tag, tag])
}

fn p(s: &str) -> Vec<u8> {
    s.as_bytes().to_vec()
}

fn file(path: &str, c: ContentId) -> ScanEntry {
    ScanEntry { path: p(path), kind: EntryKind::File(c) }
}

fn dir(path: &str) -> ScanEntry {
    ScanEntry { path: p(path), kind: EntryKind::Directory }
}

fn version() -> Version {
    Version::new("debug".to_string(), "".to_string(), "abc".to_string(), "0.1.0".to_string())
}

fn manifest_of(entries: &[(&str, ContentId)], at: i64) -> Manifest {
    let mut m = Manifest::new(version());
    for (path, c) in entries {
        m.insert_object(&p(path), &Object::new(c.clone(), at));
    }
    m
}

fn record(log: &Log, path: &str) -> Option<(ContentId, ChangeType)> {
    log.get(&p(path)).map(|e| (e.cid.clone(), e.change))
}

#[test]
fn cid_wrapper_rt() {
    let cid = ContentId::empty();
    let (first, second) = cid_into_token(&cid);
    let from_cid = cid_from_token(&vec![first, second]).unwrap();
    assert_eq!(cid, from_cid);
}

#[test]
fn token_words_are_padded_to_two_words() {
    let (first, second) = cid_into_token(&ContentId::empty());
    assert_eq!(first.len(), 32);
    assert_eq!(second.len(), 32);
    assert_eq!(&first[..4], &[1, 0, 0, 0]);
    assert!(first[4..].iter().all(|b| *b == 0));
    assert!(second.iter().all(|b| *b == 0));
}

#[test]
fn token_round_trip_of_a_real_cid() {
    let text = "bafkreigh2akiscaildcqabsyg3dfr6chu3fgpregiymsck7e7aqa4s52zy";
    let real = cid::Cid::try_from(text).unwrap();
    let c = ContentId::from_bytes(real.to_bytes());
    let (first, second) = cid_into_token(&c);
    let back = cid_from_token(&vec![first, second]).unwrap();
    assert_eq!(back.as_bytes(), &real.to_bytes());
}

#[test]
fn token_with_wrong_word_count_is_rejected() {
    assert_eq!(cid_from_token(&vec![vec![0u8; 32]]).unwrap_err(), TokenError::InvalidArray);
    assert_eq!(cid_from_token(&vec![vec![0xffu8; 32], vec![0xffu8; 32]]).unwrap_err(), TokenError::InvalidCid);
}

#[test]
fn empty_cid_is_the_cid_default() {
    assert_eq!(ContentId::empty().as_bytes(), &cid::Cid::default().to_bytes());
    assert!(ContentId::empty().is_empty_cid());
    assert!(!cid(1).is_empty_cid());
}

#[test]
fn diff_reports_modified_and_added() {
    let mut base = Log::new();
    base.insert(p("a.txt"), cid(0xA), ChangeType::Base);
    let scan = vec![dir(""), file("a.txt", cid(0xB)), file("b.txt", cid(0xC))];
    assert!(scan_is_sorted(&scan));
    let out = diff(&base, &scan);
    assert_eq!(out.len(), 2);
    assert_eq!(record(&out, "a.txt"), Some((cid(0xB), ChangeType::Modified)));
    assert_eq!(record(&out, "b.txt"), Some((cid(0xC), ChangeType::Added)));
}

#[test]
fn diff_reports_removed() {
    let mut base = Log::new();
    base.insert(p("a.txt"), cid(0xA), ChangeType::Base);
    base.insert(p("b.txt"), cid(0xB), ChangeType::Base);
    let scan = vec![dir(""), file("a.txt", cid(0xA))];
    let out = diff(&base, &scan);
    assert_eq!(out.len(), 2);
    assert_eq!(record(&out, "a.txt"), Some((cid(0xA), ChangeType::Base)));
    assert_eq!(record(&out, "b.txt"), Some((ContentId::empty(), ChangeType::Removed)));
}

#[test]
fn diff_drops_removed_unpublished_file() {
    let mut base = Log::new();
    base.insert(p("new.txt"), cid(1), ChangeType::Added);
    let out = diff(&base, &vec![dir("")]);
    assert_eq!(out.len(), 0);
}

#[test]
fn diff_keeps_added_for_edited_unpublished_file() {
    let mut base = Log::new();
    base.insert(p("new.txt"), cid(1), ChangeType::Added);
    let out = diff(&base, &vec![dir(""), file("new.txt", cid(2))]);
    assert_eq!(record(&out, "new.txt"), Some((cid(2), ChangeType::Added)));
}

#[test]
fn diff_of_empty_tree_and_empty_log_is_empty() {
    assert_eq!(diff(&Log::new(), &vec![]).len(), 0);
    assert_eq!(diff(&Log::new(), &vec![dir("")]).len(), 0);
}

#[test]
fn diff_skips_directories_and_walks_nested_paths() {
    let mut base = Log::new();
    base.insert(p("docs/a.md"), cid(1), ChangeType::Base);
    base.insert(p("docs.txt"), cid(2), ChangeType::Base);
    let scan = vec![dir(""), dir("docs"), file("docs/a.md", cid(1)), file("docs/b.md", cid(3)), file("docs.txt", cid(2))];
    assert!(scan_is_sorted(&scan));
    let out = diff(&base, &scan);
    assert_eq!(out.len(), 3);
    assert_eq!(record(&out, "docs"), None);
    assert_eq!(record(&out, "docs/a.md"), Some((cid(1), ChangeType::Base)));
    assert_eq!(record(&out, "docs/b.md"), Some((cid(3), ChangeType::Added)));
    assert_eq!(record(&out, "docs.txt"), Some((cid(2), ChangeType::Base)));
}

#[test]
fn scan_out_of_order_is_detected() {
    assert!(!scan_is_sorted(&vec![file("b", cid(1)), file("a", cid(2))]));
    assert!(!scan_is_sorted(&vec![file("a", cid(1)), file("a", cid(2))]));
    assert!(!scan_is_sorted(&vec![file("a.txt", cid(1)), file("a/b", cid(2))]));
}

#[test]
fn diff_twice_gives_the_same_log() {
    let mut base = Log::new();
    base.insert(p("a.txt"), cid(0xA), ChangeType::Base);
    base.insert(p("c.txt"), cid(0xD), ChangeType::Added);
    let scan = vec![dir(""), file("a.txt", cid(0xB)), file("b.txt", cid(0xC))];
    let one = diff(&base, &scan);
    let two = diff(&base, &scan);
    assert_eq!(one.len(), two.len());
    for i in 0..one.len() {
        assert_eq!(one.entry(i).path, two.entry(i).path);
        assert_eq!(one.entry(i).cid, two.entry(i).cid);
        assert_eq!(one.entry(i).change, two.entry(i).change);
    }
}

#[test]
fn change_log_starts_all_base() {
    let m = manifest_of(&[("a.txt", cid(1)), ("b.txt", cid(2))], 10);
    let cl = ChangeLog::new("laptop".to_string(), &m, &cid(9));
    assert_eq!(cl.manager_alias(), "laptop");
    assert_eq!(record(cl.log(), "a.txt"), Some((cid(1), ChangeType::Base)));
    assert_eq!(record(cl.log(), "b.txt"), Some((cid(2), ChangeType::Base)));
    assert_eq!(cl.versions_len(), 1);
    assert_eq!(cl.first_version().unwrap().0, cid(9));
    assert!(cl.last_version().unwrap().1 == m);
}

#[test]
fn stage_builds_next_manifest() {
    let m = manifest_of(&[("a.txt", cid(1)), ("b.txt", cid(2))], 10);
    let cl = ChangeLog::new("laptop".to_string(), &m, &cid(9));
    let scan = vec![dir(""), file("a.txt", cid(3)), file("c.txt", cid(4))];
    let updates = diff(cl.log(), &scan);
    let targets = stage_targets(&updates);
    assert_eq!(targets, vec![p("a.txt"), p("c.txt")]);
    let staged = stage(&cl, &updates, &vec![cid(3), cid(4)], 20).unwrap().unwrap();
    assert_eq!(staged.previous_root(), &cid(9));
    assert_eq!(staged.len(), 2);
    let a = staged.get_object(&p("a.txt")).unwrap();
    assert_eq!(a.cid, cid(3));
    assert_eq!(a.created_at, 10);
    assert_eq!(a.updated_at, 20);
    let c = staged.get_object(&p("c.txt")).unwrap();
    assert_eq!(c.cid, cid(4));
    assert_eq!(c.created_at, 20);
    assert_eq!(c.metadata, "null");
    assert!(staged.get_object(&p("b.txt")).is_none());

    let mut cl = cl;
    cl.update(&updates, &staged, &cid(10));
    assert_eq!(cl.versions_len(), 2);
    assert_eq!(cl.first_version().unwrap().0, cid(9));
    assert_eq!(cl.last_version().unwrap().0, cid(10));
}

#[test]
fn stage_with_nothing_changed_reports_no_changes() {
    let m = manifest_of(&[("a.txt", cid(1))], 10);
    let cl = ChangeLog::new("laptop".to_string(), &m, &cid(9));
    let updates = diff(cl.log(), &vec![dir(""), file("a.txt", cid(1))]);
    assert!(stage_targets(&updates).is_empty());
    assert!(stage(&cl, &updates, &vec![], 20).unwrap().is_none());
    assert_eq!(cl.versions_len(), 1);
}

#[test]
fn stage_rejects_content_that_changed_since_the_diff() {
    let m = manifest_of(&[], 10);
    let cl = ChangeLog::new("laptop".to_string(), &m, &cid(9));
    let updates = diff(cl.log(), &vec![dir(""), file("a.txt", cid(1)), file("b.txt", cid(2))]);
    match stage(&cl, &updates, &vec![cid(1), cid(7)], 20) {
        Err(StageError::CidMismatch { written, expected }) => {
            assert_eq!(written, cid(7));
            assert_eq!(expected, cid(2));
        }
        other => panic!("unexpected {:?}", other),
    }
}

fn staged_change_log() -> (ChangeLog, Manifest) {
    let base = manifest_of(&[("a.txt", cid(1))], 10);
    let mut cl = ChangeLog::new("laptop".to_string(), &base, &cid(9));
    let updates = diff(cl.log(), &vec![dir(""), file("a.txt", cid(1)), file("b.txt", cid(2))]);
    let staged = stage(&cl, &updates, &vec![cid(2)], 20).unwrap().unwrap();
    cl.update(&updates, &staged, &cid(10));
    (cl, base)
}

#[test]
fn push_with_mismatched_root_fails_before_any_call() {
    let (cl, base) = staged_change_log();
    match PushSession::begin(&cl, &cid(8), &base) {
        Err(PushError::MismatchedRootCid(local, disk)) => {
            assert_eq!(local, cid(9));
            assert_eq!(disk, cid(8));
        }
        other => panic!("unexpected {:?}", other.map(|(_, a)| a)),
    }
    assert!(matches!(check_push(&cl, &cid(8), &base), Err(PushError::MismatchedRootCid(_, _))));
}

#[test]
fn push_checks_base_and_changes() {
    let (cl, base) = staged_change_log();
    let other = manifest_of(&[("z.txt", cid(5))], 10);
    match check_push(&cl, &cid(9), &other) {
        Err(PushError::MismatchedBase(local, disk)) => {
            assert!(local == base);
            assert!(disk == other);
        }
        r => panic!("unexpected {:?}", r),
    }
    assert!(check_push(&cl, &cid(9), &base).is_ok());
    let fresh = ChangeLog::new("laptop".to_string(), &base, &cid(9));
    assert!(matches!(check_push(&fresh, &cid(9), &base), Err(PushError::NoChanges)));
}

#[test]
fn push_with_everything_present_uploads_nothing() {
    let (cl, base) = staged_change_log();
    let (mut session, mut action) = PushSession::begin(&cl, &cid(9), &base).unwrap();
    let mut uploads = 0;
    let mut probes = 0;
    let mut writes = 0;
    loop {
        let event = match &action {
            PushAction::Probe { .. } => {
                probes += 1;
                PushEvent::Present
            }
            PushAction::Upload { .. } => {
                uploads += 1;
                PushEvent::Uploaded(cid(0))
            }
            PushAction::WriteManifest => {
                writes += 1;
                PushEvent::ManifestWritten(cid(11))
            }
            PushAction::Publish { previous, next } => {
                assert_eq!(previous, &cid(9));
                assert_eq!(next, &cid(11));
                PushEvent::Published
            }
            PushAction::Commit { root } => {
                assert_eq!(root, &cid(11));
                break;
            }
            PushAction::Fail(e) => panic!("unexpected {:?}", e),
        };
        action = session.step(event);
    }
    assert_eq!(uploads, 0);
    assert_eq!(probes, 2);
    assert_eq!(writes, 1);
    assert_eq!(session.phase(), PushPhase::Done);
}

#[test]
fn push_uploads_missing_and_retries_with_backoff() {
    let (cl, base) = staged_change_log();
    let (mut session, action) = PushSession::begin(&cl, &cid(9), &base).unwrap();
    match &action {
        PushAction::Probe { path, cid: c, delay_secs } => {
            assert_eq!(path, &p("a.txt"));
            assert_eq!(c, &cid(1));
            assert_eq!(*delay_secs, 2);
        }
        other => panic!("unexpected {:?}", other),
    }
    let a = session.step(PushEvent::Missing);
    assert!(matches!(a, PushAction::Upload { ref path } if path == &p("a.txt")));
    let a = session.step(PushEvent::Failed);
    assert!(matches!(a, PushAction::Probe { delay_secs: 3, .. }));
    let a = session.step(PushEvent::Missing);
    assert!(matches!(a, PushAction::Upload { .. }));
    let a = session.step(PushEvent::Uploaded(cid(1)));
    assert!(matches!(a, PushAction::Probe { ref path, .. } if path == &p("b.txt")));
}

#[test]
fn push_gives_up_after_the_attempt_budget() {
    let (cl, base) = staged_change_log();
    let (mut session, _) = PushSession::begin(&cl, &cid(9), &base).unwrap();
    let mut delays = vec![];
    let last = loop {
        match session.step(PushEvent::Failed) {
            PushAction::Probe { delay_secs, .. } => delays.push(delay_secs),
            other => break other,
        }
    };
    assert_eq!(delays, vec![3, 5, 9, 17]);
    assert!(matches!(last, PushAction::Fail(PushError::PushFailed)));
    assert_eq!(session.phase(), PushPhase::Failed);
}

#[test]
fn push_rejects_uploaded_content_under_another_cid() {
    let (cl, base) = staged_change_log();
    let (mut session, _) = PushSession::begin(&cl, &cid(9), &base).unwrap();
    session.step(PushEvent::Missing);
    match session.step(PushEvent::Uploaded(cid(6))) {
        PushAction::Fail(PushError::CidMismatch(got, expected)) => {
            assert_eq!(got, cid(6));
            assert_eq!(expected, cid(1));
        }
        other => panic!("unexpected {:?}", other),
    }
}

#[test]
fn refused_publish_leaves_local_state_alone() {
    let (cl, base) = staged_change_log();
    let before = cl.clone();
    let (mut session, _) = PushSession::begin(&cl, &cid(9), &base).unwrap();
    session.step(PushEvent::Present);
    assert!(matches!(session.step(PushEvent::Present), PushAction::WriteManifest));
    assert!(matches!(session.step(PushEvent::ManifestWritten(cid(11))), PushAction::Publish { .. }));
    assert!(matches!(session.step(PushEvent::PublishFailed), PushAction::Fail(PushError::PublishFailed)));
    assert!(matches!(session.step(PushEvent::Published), PushAction::Fail(PushError::UnexpectedEvent)));
    assert_eq!(cl.versions_len(), before.versions_len());
    assert_eq!(cl.first_version().unwrap().0, before.first_version().unwrap().0);
    assert_eq!(cl.last_version().unwrap().0, before.last_version().unwrap().0);
}

#[test]
fn commit_resets_the_change_log() {
    let (mut cl, _) = staged_change_log();
    let staged = cl.last_version().unwrap().1.clone();
    cl.wipe(&staged, &cid(11));
    assert_eq!(cl.versions_len(), 1);
    assert_eq!(cl.first_version().unwrap().0, cid(11));
    assert_eq!(record(cl.log(), "b.txt"), Some((cid(2), ChangeType::Base)));
}

#[test]
fn pull_plans_missing_and_changed_files() {
    let m = manifest_of(&[("a.txt", cid(1)), ("b.txt", cid(2)), ("c.txt", cid(3))], 10);
    let local = vec![LocalFile::File(cid(1)), LocalFile::Missing, LocalFile::File(cid(7))];
    let plan = pull_plan(&m, &local).unwrap();
    assert_eq!(plan, vec![p("b.txt"), p("c.txt")]);
}

#[test]
fn pull_stops_at_a_directory() {
    let m = manifest_of(&[("a.txt", cid(1))], 10);
    match pull_plan(&m, &vec![LocalFile::Directory]) {
        Err(PullError::PathIsDirectory(path)) => assert_eq!(path, p("a.txt")),
        other => panic!("unexpected {:?}", other),
    }
    assert!(file_needs_pull(&p("x"), &LocalFile::Missing, &cid(1)).unwrap());
    assert!(!file_needs_pull(&p("x"), &LocalFile::File(cid(1)), &cid(1)).unwrap());
}

#[test]
fn pull_fetches_only_a_new_published_root() {
    assert!(needs_fetch(&cid(2), &cid(1)));
    assert!(!needs_fetch(&cid(1), &cid(1)));
    assert!(!needs_fetch(&ContentId::empty(), &cid(1)));
}

#[test]
fn status_lists_only_changed_paths() {
    let mut base = Log::new();
    base.insert(p("a.txt"), cid(1), ChangeType::Base);
    base.insert(p("b.txt"), cid(2), ChangeType::Base);
    let out = diff(&base, &vec![dir(""), file("a.txt", cid(1)), file("c.txt", cid(3))]);
    let changed: Vec<(Vec<u8>, &str)> = out.changed_entries().iter().map(|e| (e.path.clone(), e.change.name())).collect();
    assert_eq!(changed, vec![(p("b.txt"), "Removed"), (p("c.txt"), "Added")]);
    assert_eq!(ChangeType::Base.name(), "Base");
    assert_eq!(ChangeType::Modified.name(), "Modified");
    assert_eq!(ChangeType::Staged.name(), "Staged");
}

#[test]
fn change_log_from_parts_needs_a_version() {
    let m = manifest_of(&[("a.txt", cid(1))], 10);
    assert!(ChangeLog::from_parts("d".to_string(), Log::new(), vec![]).is_none());
    let cl = ChangeLog::from_parts("d".to_string(), Log::new(), vec![(cid(9), m)]).unwrap();
    assert_eq!(cl.versions_len(), 1);
    assert_eq!(cl.log().len(), 0);
}

#[test]
fn stage_never_moves_update_time_back() {
    let m = manifest_of(&[("a.txt", cid(1))], 50);
    let cl = ChangeLog::new("laptop".to_string(), &m, &cid(9));
    let updates = diff(cl.log(), &vec![dir(""), file("a.txt", cid(2))]);
    let staged = stage(&cl, &updates, &vec![cid(2)], 40).unwrap().unwrap();
    let a = staged.get_object(&p("a.txt")).unwrap();
    assert_eq!(a.cid, cid(2));
    assert_eq!(a.created_at, 50);
    assert_eq!(a.updated_at, 50);
}
