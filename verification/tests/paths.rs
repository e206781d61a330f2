use cadir::dir_path::{path_eq, DirPath};
use cadir::model::{CreateError, FsModel};

fn path(absolute: bool, parts: &[&str]) -> DirPath {
    let raw: Vec<Vec<u8>> = parts.iter().map(|s| s.as_bytes().to_vec()).collect();
    DirPath::from_parts(absolute, raw).expect("well-formed components")
}

#[test]
fn from_parts_rejects_a_component_with_a_separator() {
    let raw = vec![b"a/b".to_vec()];
    assert!(DirPath::from_parts(false, raw).is_none());
}

#[test]
fn from_parts_rejects_an_empty_component() {
    let raw = vec![b"a".to_vec(), Vec::new()];
    assert!(DirPath::from_parts(false, raw).is_none());
}

#[test]
fn parent_drops_the_final_component() {
    let p = path(true, &["a", "b"]);
    assert!(path_eq(&p.parent(), &path(true, &["a"])));
    let q = path(false, &["a"]);
    assert!(path_eq(&q.parent(), &path(false, &[])));
}

#[test]
fn path_eq_distinguishes_absolute_from_relative() {
    assert!(!path_eq(&path(true, &["a"]), &path(false, &["a"])));
    assert!(path_eq(&path(true, &["a"]), &path(true, &["a"])));
    assert!(!path_eq(&path(false, &["a"]), &path(false, &["b"])));
}

#[test]
fn multi_component_counts_the_root() {
    assert!(path(true, &["a"]).is_multi_component());
    assert!(!path(false, &["a"]).is_multi_component());
    assert!(path(false, &["a", "b"]).is_multi_component());
    assert!(!path(true, &[]).is_multi_component());
}

#[test]
fn working_directory_and_root_always_exist() {
    let fs = FsModel::new();
    assert!(fs.has_entry(&path(false, &[])));
    assert!(fs.has_entry(&path(true, &[])));
    assert!(!fs.has_entry(&path(false, &["a"])));
}

#[test]
fn create_dir_refuses_an_existing_target() {
    let mut fs = FsModel::new();
    assert_eq!(fs.create_dir(&path(false, &["a"])), Ok(()));
    assert_eq!(fs.create_dir(&path(false, &["a"])), Err(CreateError::AlreadyExists));
}

#[test]
fn create_dir_refuses_a_missing_parent() {
    let mut fs = FsModel::new();
    assert_eq!(fs.create_dir(&path(false, &["a", "b"])), Err(CreateError::ParentMissing));
    assert!(!fs.has_entry(&path(false, &["a", "b"])));
}

#[test]
fn create_dir_all_lays_down_every_ancestor() {
    let mut fs = FsModel::new();
    fs.create_dir_all(&path(true, &["a", "b"]));
    assert!(fs.has_entry(&path(true, &["a"])));
    assert!(fs.has_entry(&path(true, &["a", "b"])));
    assert!(!fs.has_entry(&path(false, &["a"])));
}

#[test]
fn duplicate_returns_an_equal_path() {
    let p = path(true, &["a", "b"]);
    assert!(path_eq(&p, &p.duplicate()));
}
