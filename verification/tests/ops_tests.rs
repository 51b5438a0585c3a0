//! The four trash operations over the filesystem model.

use wrm::fsmodel::{FileKind, Fs};
use wrm::ops::{clean, delete, remove_to_trash, restore, Outcome};
use wrm::registry::{FileInfo, FileList};
use wrm::Error;

const TRASH: &str = "/home/u/.config/wrm/trash";

fn s(x: &str) -> String {
    String::from(x)
}

#[test]
fn remove_to_trash_registers_exactly_one_entry() {
    let mut fs = Fs::new();
    fs.insert(s("/home/u/notes.txt"), FileKind::File);
    let mut reg = FileList::new();
    let r = remove_to_trash(&mut fs, &mut reg, &s("/home/u/notes.txt"), &s(TRASH), true);
    assert_eq!(r.unwrap(), Outcome::Trashed);
    assert_eq!(reg.files().len(), 1);
    assert_eq!(reg.files()[0].path().as_str(), "/home/u/notes.txt");
    assert_eq!(reg.files()[0].path_trash().as_str(), "/home/u/.config/wrm/trash/notes.txt");
    assert!(fs.contains_path(&s("/home/u/.config/wrm/trash/notes.txt")));
    assert!(!fs.contains_path(&s("/home/u/notes.txt")));
}

#[test]
fn remove_to_trash_deletes_symlinks_in_place() {
    let mut fs = Fs::new();
    fs.insert(s("/home/u/link"), FileKind::Symlink);
    let mut reg = FileList::new();
    let r = remove_to_trash(&mut fs, &mut reg, &s("/home/u/link"), &s(TRASH), true);
    assert_eq!(r.unwrap(), Outcome::RemovedSymlink);
    assert_eq!(reg.files().len(), 0);
    assert!(!fs.contains_path(&s("/home/u/link")));
    assert!(!fs.contains_path(&s("/home/u/.config/wrm/trash/link")));
}

#[test]
fn remove_to_trash_reports_missing_paths() {
    let mut fs = Fs::new();
    let mut reg = FileList::new();
    let r = remove_to_trash(&mut fs, &mut reg, &s("/gone"), &s(TRASH), true);
    assert!(matches!(r, Err(Error::NotFound { .. })));
    assert_eq!(reg.files().len(), 0);
}

#[test]
fn remove_to_trash_reports_name_collisions() {
    let mut fs = Fs::new();
    fs.insert(s("/home/u/notes.txt"), FileKind::File);
    fs.insert(s("/home/u/.config/wrm/trash/notes.txt"), FileKind::File);
    let mut reg = FileList::new();
    let r = remove_to_trash(&mut fs, &mut reg, &s("/home/u/notes.txt"), &s(TRASH), true);
    assert!(matches!(r, Err(Error::IoError { .. })));
    assert_eq!(reg.files().len(), 0);
    assert!(fs.contains_path(&s("/home/u/notes.txt")));
}

#[test]
fn remove_to_trash_declined_changes_nothing() {
    let mut fs = Fs::new();
    fs.insert(s("/home/u/notes.txt"), FileKind::File);
    let mut reg = FileList::new();
    let r = remove_to_trash(&mut fs, &mut reg, &s("/home/u/notes.txt"), &s(TRASH), false);
    assert_eq!(r.unwrap(), Outcome::Canceled);
    assert_eq!(reg.files().len(), 0);
    assert!(fs.contains_path(&s("/home/u/notes.txt")));
}

#[test]
fn delete_removes_permanently() {
    let mut fs = Fs::new();
    fs.insert(s("/tmp/x"), FileKind::Directory);
    let r = delete(&mut fs, &s("/tmp/x"), true);
    assert_eq!(r.unwrap(), Outcome::Deleted);
    assert!(!fs.contains_path(&s("/tmp/x")));
}

#[test]
fn delete_reports_missing_paths() {
    let mut fs = Fs::new();
    let r = delete(&mut fs, &s("/tmp/x"), true);
    assert!(matches!(r, Err(Error::NotFound { .. })));
}

#[test]
fn restore_brings_the_object_back() {
    let mut fs = Fs::new();
    fs.insert(s("/home/u/.config/wrm/trash/notes.txt"), FileKind::File);
    let mut reg = FileList::new();
    reg.add(&FileInfo::from_paths(
        s("/home/u/notes.txt"),
        s("/home/u/.config/wrm/trash/notes.txt"),
    ));
    let r = restore(&mut fs, &mut reg, &s("/home/u/notes.txt"), true);
    assert_eq!(r.unwrap(), Outcome::Restored);
    assert!(fs.contains_path(&s("/home/u/notes.txt")));
    assert!(!fs.contains_path(&s("/home/u/.config/wrm/trash/notes.txt")));
    assert_eq!(reg.files().len(), 0);
}

#[test]
fn restore_without_matching_entry_changes_nothing() {
    let mut fs = Fs::new();
    fs.insert(s("/t/a"), FileKind::File);
    let mut reg = FileList::new();
    reg.add(&FileInfo::from_paths(s("/a"), s("/t/a")));
    let r = restore(&mut fs, &mut reg, &s("/not/registered"), true);
    assert_eq!(r.unwrap(), Outcome::NoEntry);
    assert_eq!(reg.files().len(), 1);
    assert!(fs.contains_path(&s("/t/a")));
}

#[test]
fn restore_reports_a_vanished_trash_copy() {
    let mut fs = Fs::new();
    let mut reg = FileList::new();
    reg.add(&FileInfo::from_paths(s("/a"), s("/t/a")));
    let r = restore(&mut fs, &mut reg, &s("/a"), true);
    assert!(matches!(r, Err(Error::NotFound { .. })));
    assert_eq!(reg.files().len(), 1);
}

#[test]
fn restore_first_match_wins() {
    let mut fs = Fs::new();
    fs.insert(s("/t/a"), FileKind::File);
    fs.insert(s("/u/a"), FileKind::File);
    let mut reg = FileList::new();
    reg.add(&FileInfo::from_paths(s("/a"), s("/t/a")));
    reg.add(&FileInfo::from_paths(s("/a"), s("/u/a")));
    let r = restore(&mut fs, &mut reg, &s("/a"), true);
    assert_eq!(r.unwrap(), Outcome::Restored);
    assert!(fs.contains_path(&s("/a")));
    assert!(!fs.contains_path(&s("/t/a")));
    assert!(fs.contains_path(&s("/u/a")));
    assert_eq!(reg.files().len(), 1);
    assert_eq!(reg.files()[0].path_trash().as_str(), "/u/a");
}

#[test]
fn clean_empties_trash_and_registry() {
    let trash = s(TRASH);
    let mut fs = Fs::new();
    fs.insert(s("/home/u/.config/wrm/trash/a"), FileKind::File);
    fs.insert(s("/home/u/.config/wrm/trash/b"), FileKind::Directory);
    fs.insert(s("/home/u/elsewhere"), FileKind::File);
    let mut reg = FileList::new();
    reg.add(&FileInfo::from_paths(s("/a"), s("/home/u/.config/wrm/trash/a")));
    reg.add(&FileInfo::from_paths(s("/b"), s("/home/u/.config/wrm/trash/b")));
    let r = clean(&mut fs, &mut reg, &trash, true);
    assert_eq!(r.unwrap(), Outcome::Cleaned);
    assert_eq!(reg.files().len(), 0);
    assert!(!fs.contains_path(&s("/home/u/.config/wrm/trash/a")));
    assert!(!fs.contains_path(&s("/home/u/.config/wrm/trash/b")));
    assert!(fs.contains_path(&s("/home/u/elsewhere")));
}

#[test]
fn clean_on_empty_registry_reports_empty_trash() {
    let mut fs = Fs::new();
    let mut reg = FileList::new();
    let r = clean(&mut fs, &mut reg, &s(TRASH), true);
    assert_eq!(r.unwrap(), Outcome::TrashEmpty);
}

#[test]
fn clean_declined_changes_nothing() {
    let mut fs = Fs::new();
    fs.insert(s("/home/u/.config/wrm/trash/a"), FileKind::File);
    let mut reg = FileList::new();
    reg.add(&FileInfo::from_paths(s("/a"), s("/home/u/.config/wrm/trash/a")));
    let r = clean(&mut fs, &mut reg, &s(TRASH), false);
    assert_eq!(r.unwrap(), Outcome::Canceled);
    assert_eq!(reg.files().len(), 1);
    assert!(fs.contains_path(&s("/home/u/.config/wrm/trash/a")));
}
