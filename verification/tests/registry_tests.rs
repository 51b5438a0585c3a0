//! The registry types and their persisted JSON form.

use wrm::fsmodel::{FileKind, Fs};
use wrm::registry::{File, FileInfo, FileList, FilesInTrash};
use wrm::Error;

fn entry(path: &str, trash: &str) -> FileInfo {
    FileInfo::from_paths(String::from(path), String::from(trash))
}

#[test]
fn round_trip_empty_registry() {
    let reg = FileList::new();
    let doc = reg.to_json();
    match FileList::from_json(doc.as_str()) {
        Ok(back) => assert_eq!(back.files().len(), 0),
        Err(_) => panic!("a persisted registry must load"),
    }
}

#[test]
fn round_trip_two_entries() {
    let mut reg = FileList::new();
    reg.add(&entry("/home/u/notes.txt", "/home/u/.config/wrm/trash/notes.txt"));
    reg.add(&entry("/home/u/song.ogg", "/home/u/.config/wrm/trash/song.ogg"));
    let doc = reg.to_json();
    match FileList::from_json(doc.as_str()) {
        Ok(back) => {
            assert_eq!(back.files().len(), 2);
            assert_eq!(back.files(), reg.files());
            assert_eq!(back.files()[0].path().as_str(), "/home/u/notes.txt");
            assert_eq!(back.files()[1].path_trash().as_str(), "/home/u/.config/wrm/trash/song.ogg");
        }
        Err(_) => panic!("a persisted registry must load"),
    }
}

#[test]
fn round_trip_awkward_characters() {
    let mut reg = FileList::new();
    reg.add(&entry("/tmp/a\"quote", "/t/a\"quote"));
    reg.add(&entry("/tmp/back\\slash", "/t/back\\slash"));
    reg.add(&entry("/tmp/uni-\u{00e9}\u{4e16}", "/t/uni-\u{00e9}\u{4e16}"));
    let doc = reg.to_json();
    match FileList::from_json(doc.as_str()) {
        Ok(back) => {
            assert_eq!(back.files(), reg.files());
        }
        Err(_) => panic!("a persisted registry must load"),
    }
}

#[test]
fn persisted_form_is_exact() {
    let mut reg = FileList::new();
    reg.add(&entry("/a/b", "/t/b"));
    let doc = reg.to_json();
    let expected = "{\n  \"files\": [\n    {\n      \"path\": \"/a/b\",\n      \"path_trash\": \"/t/b\"\n    }\n  ]\n}";
    assert_eq!(doc, expected);
}

#[test]
fn persisted_form_is_valid_json() {
    let mut reg = FileList::new();
    reg.add(&entry("/tmp/a\"quote", "/t/back\\slash"));
    reg.add(&entry("/tmp/plain", "/t/plain"));
    let doc = reg.to_json();
    let value: serde_json::Value = serde_json::from_str(doc.as_str()).expect("well-formed JSON");
    let files = value["files"].as_array().expect("an array of entries");
    assert_eq!(files.len(), 2);
    assert_eq!(files[0]["path"].as_str(), Some("/tmp/a\"quote"));
    assert_eq!(files[0]["path_trash"].as_str(), Some("/t/back\\slash"));
    assert_eq!(files[1]["path"].as_str(), Some("/tmp/plain"));
}

#[test]
fn malformed_documents_are_corrupt() {
    for bad in [
        "",
        "{}",
        "not json at all",
        "{\n  \"files\": [",
        "{\n  \"files\": [\n  ]\n} trailing",
        "{\n  \"files\": [\n    {\n      \"path\": \"/a\"\n    }\n  ]\n}",
    ] {
        match FileList::from_json(bad) {
            Ok(_) => panic!("a damaged document must be rejected"),
            Err(e) => assert!(matches!(e, Error::RegistryCorrupt)),
        }
    }
}

#[test]
fn file_info_new_builds_trash_path() {
    match FileInfo::new("/home/u/docs/report.pdf", "/home/u/.config/wrm") {
        Ok(e) => {
            assert_eq!(e.path().as_str(), "/home/u/docs/report.pdf");
            assert_eq!(e.path_trash().as_str(), "/home/u/.config/wrm/trash/report.pdf");
        }
        Err(_) => panic!("a named path must make an entry"),
    }
}

#[test]
fn file_info_new_rejects_nameless_path() {
    match FileInfo::new("/", "/cfg") {
        Ok(_) => panic!("a path without a base name has no trash name"),
        Err(e) => assert!(matches!(e, Error::IoError { .. })),
    }
}

#[test]
fn remove_drops_every_equal_entry() {
    let mut reg = FileList::new();
    reg.add(&entry("/a", "/t/a"));
    reg.add(&entry("/b", "/t/b"));
    reg.add(&entry("/a", "/t/a"));
    reg.remove(&entry("/a", "/t/a"));
    assert_eq!(reg.files().len(), 1);
    assert_eq!(reg.files()[0].path().as_str(), "/b");
}

#[test]
fn reconcile_prunes_only_missing_trash_objects() {
    let mut fs = Fs::new();
    fs.insert(String::from("/t/a"), FileKind::File);
    let mut reg = FileList::new();
    reg.add(&entry("/a", "/t/a"));
    reg.add(&entry("/b", "/t/b"));
    reg.reconcile(&fs);
    assert_eq!(reg.files().len(), 1);
    assert_eq!(reg.files()[0].path().as_str(), "/a");
}

#[test]
fn reconcile_is_idempotent() {
    let mut fs = Fs::new();
    fs.insert(String::from("/t/a"), FileKind::File);
    fs.insert(String::from("/t/b"), FileKind::Directory);
    let mut reg = FileList::new();
    reg.add(&entry("/a", "/t/a"));
    reg.add(&entry("/b", "/t/b"));
    reg.add(&entry("/c", "/t/c"));
    reg.reconcile(&fs);
    let after_once: Vec<String> = reg.files().iter().map(|e| e.path().clone()).collect();
    reg.reconcile(&fs);
    let after_twice: Vec<String> = reg.files().iter().map(|e| e.path().clone()).collect();
    assert_eq!(after_once, after_twice);
    assert_eq!(after_once, vec![String::from("/a"), String::from("/b")]);
}

#[test]
fn reconcile_on_agreeing_registry_is_a_no_op() {
    let mut fs = Fs::new();
    fs.insert(String::from("/t/a"), FileKind::File);
    fs.insert(String::from("/t/b"), FileKind::Symlink);
    let mut reg = FileList::new();
    reg.add(&entry("/a", "/t/a"));
    reg.add(&entry("/b", "/t/b"));
    let before: Vec<String> = reg.files().iter().map(|e| e.path().clone()).collect();
    reg.reconcile(&fs);
    let after: Vec<String> = reg.files().iter().map(|e| e.path().clone()).collect();
    assert_eq!(before, after);
    assert_eq!(reg.files().len(), 2);
}

#[test]
fn alternate_layout_registry() {
    let a = match File::new("/home/u/a.txt", "/home/u/.wrm/trash") {
        Ok(f) => f,
        Err(_) => panic!("a named path must make an entry"),
    };
    assert_eq!(a.path().as_str(), "/home/u/a.txt");
    assert_eq!(a.trash().as_str(), "/home/u/.wrm/trash/a.txt");
    let b = match File::new("/home/u/b.txt", "/home/u/.wrm/trash") {
        Ok(f) => f,
        Err(_) => panic!("a named path must make an entry"),
    };
    let mut reg = FilesInTrash::new(vec![a.duplicate()]);
    reg.add(b);
    assert_eq!(reg.files_in_trash().len(), 2);
    reg.remove(&a);
    assert_eq!(reg.files_in_trash().len(), 1);
    assert_eq!(reg.files_in_trash()[0].path().as_str(), "/home/u/b.txt");
}

#[test]
fn file_new_rejects_nameless_path() {
    match File::new("/x/", "/t") {
        Ok(_) => panic!("a path without a base name has no trash name"),
        Err(e) => assert!(matches!(e, Error::IoError { .. })),
    }
}
