use cadir::dir_path::DirPath;
use cadir::model::{CreateError, FsModel};
use cadir::runner::{run, sync_create, RunOutcome};
use cadir::validate::{validate, Validation};

fn path(absolute: bool, parts: &[&str]) -> DirPath {
    let raw: Vec<Vec<u8>> = parts.iter().map(|s| s.as_bytes().to_vec()).collect();
    DirPath::from_parts(absolute, raw).expect("well-formed components")
}

fn has(fs: &FsModel, absolute: bool, parts: &[&str]) -> bool {
    fs.has_entry(&path(absolute, parts))
}

#[test]
fn single_dir_plain_mode_creates_it() {
    let mut fs = FsModel::new();
    let dirs = vec![path(false, &["newdir"])];
    let r = run(&mut fs, &dirs, false, false);
    assert_eq!(r, RunOutcome::Completed);
    assert!(has(&fs, false, &["newdir"]));
}

#[test]
fn nested_target_without_recursive_is_rejected() {
    let mut fs = FsModel::new();
    let dirs = vec![path(false, &["a", "b", "c"])];
    let r = run(&mut fs, &dirs, false, false);
    assert_eq!(r, RunOutcome::NeedsRecursive);
    assert!(!has(&fs, false, &["a"]));
    assert!(!has(&fs, false, &["a", "b"]));
    assert!(!has(&fs, false, &["a", "b", "c"]));
    assert_eq!(fs.dirs.len(), 0);
}

#[test]
fn nested_target_with_recursive_creates_whole_chain() {
    let mut fs = FsModel::new();
    let dirs = vec![path(false, &["a", "b", "c"])];
    let r = run(&mut fs, &dirs, true, false);
    assert_eq!(r, RunOutcome::Completed);
    assert!(has(&fs, false, &["a"]));
    assert!(has(&fs, false, &["a", "b"]));
    assert!(has(&fs, false, &["a", "b", "c"]));
}

#[test]
fn three_absent_targets_concurrent_mode_creates_all() {
    let mut fs = FsModel::new();
    let dirs = vec![path(false, &["x"]), path(false, &["y"]), path(false, &["z"])];
    let r = run(&mut fs, &dirs, false, true);
    assert_eq!(r, RunOutcome::Completed);
    assert!(has(&fs, false, &["x"]));
    assert!(has(&fs, false, &["y"]));
    assert!(has(&fs, false, &["z"]));
}

#[test]
fn empty_batch_is_a_no_op() {
    let mut fs = FsModel::new();
    let dirs: Vec<DirPath> = Vec::new();
    let r = run(&mut fs, &dirs, false, false);
    assert_eq!(r, RunOutcome::Completed);
    assert_eq!(fs.dirs.len(), 0);
}

#[test]
fn existing_target_blocks_the_whole_batch() {
    let mut fs = FsModel::new();
    fs.note_existing(&path(false, &["existing"]));
    let dirs = vec![path(false, &["existing"]), path(false, &["new"])];
    let r = run(&mut fs, &dirs, false, false);
    assert_eq!(r, RunOutcome::AlreadyExists);
    assert!(!has(&fs, false, &["new"]));
    assert_eq!(fs.dirs.len(), 1);
}

#[test]
fn existing_target_late_in_batch_still_blocks_everything() {
    let mut fs = FsModel::new();
    fs.note_existing(&path(false, &["existing"]));
    let dirs = vec![path(false, &["ok"]), path(false, &["existing"])];
    let r = run(&mut fs, &dirs, false, false);
    assert_eq!(r, RunOutcome::AlreadyExists);
    assert!(!has(&fs, false, &["ok"]));
    assert_eq!(fs.dirs.len(), 1);
}

#[test]
fn validation_lets_single_component_parent_through_and_creation_fails() {
    let mut fs = FsModel::new();
    let dirs = vec![path(false, &["a", "b"])];
    assert_eq!(validate(&fs, &dirs, false), Validation::Accepted);
    let r = sync_create(&mut fs, &dirs, false);
    assert_eq!(r, RunOutcome::CreateFailed(CreateError::ParentMissing));
    assert!(!has(&fs, false, &["a", "b"]));
}

#[test]
fn duplicate_target_fails_at_the_second_creation() {
    let mut fs = FsModel::new();
    let dirs = vec![path(false, &["d"]), path(false, &["d"])];
    assert_eq!(validate(&fs, &dirs, false), Validation::Accepted);
    let r = sync_create(&mut fs, &dirs, false);
    assert_eq!(r, RunOutcome::CreateFailed(CreateError::AlreadyExists));
    assert!(has(&fs, false, &["d"]));
}

#[test]
fn recursive_mode_tolerates_existing_ancestors() {
    let mut fs = FsModel::new();
    fs.note_existing(&path(false, &["a"]));
    let dirs = vec![path(false, &["a", "b", "c"])];
    let r = run(&mut fs, &dirs, true, false);
    assert_eq!(r, RunOutcome::Completed);
    assert!(has(&fs, false, &["a"]));
    assert!(has(&fs, false, &["a", "b"]));
    assert!(has(&fs, false, &["a", "b", "c"]));
}

#[test]
fn absolute_single_component_has_the_root_as_parent() {
    let mut fs = FsModel::new();
    let dirs = vec![path(true, &["top"])];
    let r = run(&mut fs, &dirs, false, false);
    assert_eq!(r, RunOutcome::Completed);
    assert!(has(&fs, true, &["top"]));
}

#[test]
fn both_modes_reach_the_same_final_state() {
    let mut seq_fs = FsModel::new();
    let mut thr_fs = FsModel::new();
    let dirs = vec![path(false, &["p", "q"]), path(false, &["r"])];
    let a = run(&mut seq_fs, &dirs, true, false);
    let b = run(&mut thr_fs, &dirs, true, true);
    assert_eq!(a, RunOutcome::Completed);
    assert_eq!(b, RunOutcome::Completed);
    for probe in [&["p"][..], &["p", "q"][..], &["r"][..], &["s"][..]] {
        assert_eq!(has(&seq_fs, false, probe), has(&thr_fs, false, probe));
    }
}

#[test]
fn already_existing_target_wins_over_missing_parent() {
    let mut fs = FsModel::new();
    fs.note_existing(&path(false, &["gone", "deep"]));
    let dirs = vec![path(false, &["gone", "deep"]), path(false, &["far", "away", "dir"])];
    let r = run(&mut fs, &dirs, false, false);
    assert_eq!(r, RunOutcome::AlreadyExists);
}
