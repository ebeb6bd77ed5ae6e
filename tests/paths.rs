use dorfs::config::{dot_dir, local_dot_dir_with_base, local_dot_dorfs_path, working_dot_dir, ConfigError, OnDiskDefault};
use dorfs::manifest::{Manifest, Version};
use dorfs::object::Object;
use dorfs::content_id::ContentId;
use dorfs::path::compare_paths;
use std::cmp::Ordering;

#[test]
fn dot_paths() {
    assert_eq!(dot_dir(), b".fs".to_vec());
    assert_eq!(local_dot_dorfs_path(), b".fs/dorfs.json".to_vec());
    assert_eq!(local_dot_dir_with_base(&b"/home/me/site".to_vec()), b"/home/me/site/.fs".to_vec());
    assert_eq!(local_dot_dir_with_base(&b"/home/me/site/".to_vec()), b"/home/me/site/.fs".to_vec());
    assert_eq!(local_dot_dir_with_base(&vec![]), b".fs".to_vec());
}

#[test]
fn working_dot_dir_requires_the_directory() {
    assert_eq!(working_dot_dir(&b"w".to_vec(), true).unwrap(), b"w/.fs".to_vec());
    match working_dot_dir(&b"w".to_vec(), false) {
        Err(ConfigError::MissingDotPath(p)) => assert_eq!(p, b"w/.fs".to_vec()),
        other => panic!("unexpected {:?}", other),
    }
}

#[test]
fn on_disk_default_alias() {
    let mut d = OnDiskDefault::new();
    assert_eq!(d.device_alias(), None);
    d.set_device_alias("laptop".to_string());
    assert_eq!(d.device_alias(), Some("laptop".to_string()));
}

#[test]
fn path_order_puts_separator_first() {
    assert_eq!(compare_paths(&b"a/b".to_vec(), &b"a.txt".to_vec()), Ordering::Less);
    assert_eq!(compare_paths(&b"a".to_vec(), &b"a/b".to_vec()), Ordering::Less);
    assert_eq!(compare_paths(&b"b".to_vec(), &b"a/z".to_vec()), Ordering::Greater);
    assert_eq!(compare_paths(&b"".to_vec(), &b"a".to_vec()), Ordering::Less);
    assert_eq!(compare_paths(&b"x".to_vec(), &b"x".to_vec()), Ordering::Equal);
}

#[test]
fn manifest_equality_ignores_version() {
    let c = ContentId::from_bytes(vec![1, 2, 3]);
    let mut a = Manifest::new(Version::new("debug".into(), "".into(), "r1".into(), "0.1.0".into()));
    let mut b = Manifest::new(Version::new("release".into(), "x".into(), "r2".into(), "0.2.0".into()));
    a.insert_object(&b"f".to_vec(), &Object::new(c.clone(), 5));
    b.insert_object(&b"f".to_vec(), &Object::new(c.clone(), 5));
    assert!(a == b);
    b.set_previous_root(c.clone());
    assert!(a != b);
}

#[test]
fn manifest_object_maintenance() {
    let c1 = ContentId::from_bytes(vec![1]);
    let c2 = ContentId::from_bytes(vec![2]);
    let mut m = Manifest::new(Version::new("debug".into(), "".into(), "r".into(), "0.1.0".into()));
    m.insert_object(&b"b".to_vec(), &Object::new(c1.clone(), 1));
    m.insert_object(&b"a".to_vec(), &Object::new(c2.clone(), 1));
    assert_eq!(m.entry(0).path, b"a".to_vec());
    assert_eq!(m.object_by_cid(&c1).unwrap().path, b"b".to_vec());
    assert!(m.update_object(&b"a".to_vec(), c1.clone(), 7));
    assert_eq!(m.get_object(&b"a".to_vec()).unwrap().updated_at, 7);
    assert!(!m.update_object(&b"zz".to_vec(), c1.clone(), 7));
    m.remove_object(&b"a".to_vec());
    assert_eq!(m.len(), 1);
    assert!(m.previous_root().is_empty_cid());
    let mut o = Object::new(c1.clone(), 100);
    assert_eq!(o.created_at, o.updated_at);
    o.update(c2.clone(), 150);
    assert_eq!(o.cid(), &c2);
    assert_eq!(o.updated_at, 150);
    o.update(c1.clone(), 120);
    assert_eq!(o.updated_at, 150);
    assert_eq!(o.created_at, 100);
    o.set_metdata("{\"tag\":1}".to_string(), 90);
    assert_eq!(o.updated_at, 150);
    assert_eq!(o.metadata, "{\"tag\":1}");
    o.set_metdata("null".to_string(), 200);
    assert_eq!(o.updated_at, 200);
}
