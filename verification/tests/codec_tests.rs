//! The persisted documents load in any JSON shape: whitespace-free,
//! key-order-free, with unknown members ignored — and the alternate
//! layout gets the same treatment.

use wrm::registry::{File, FileList, FilesInTrash};
use wrm::Error;

#[test]
fn loads_compact_form() {
    let doc = "{\"files\":[{\"path\":\"/a\",\"path_trash\":\"/t/a\"},{\"path\":\"/b\",\"path_trash\":\"/t/b\"}]}";
    match FileList::from_json(doc) {
        Ok(reg) => {
            assert_eq!(reg.files().len(), 2);
            assert_eq!(reg.files()[0].path().as_str(), "/a");
            assert_eq!(reg.files()[0].path_trash().as_str(), "/t/a");
            assert_eq!(reg.files()[1].path().as_str(), "/b");
        }
        Err(_) => panic!("a compact document must load"),
    }
}

#[test]
fn loads_compact_empty_registry() {
    match FileList::from_json("{\"files\": []}") {
        Ok(reg) => assert_eq!(reg.files().len(), 0),
        Err(_) => panic!("an empty registry object must load"),
    }
}

#[test]
fn loads_reordered_keys() {
    let doc = "{ \"files\" : [ { \"path_trash\" : \"/t/a\" , \"path\" : \"/a\" } ] }";
    match FileList::from_json(doc) {
        Ok(reg) => {
            assert_eq!(reg.files().len(), 1);
            assert_eq!(reg.files()[0].path().as_str(), "/a");
            assert_eq!(reg.files()[0].path_trash().as_str(), "/t/a");
        }
        Err(_) => panic!("reordered keys must load"),
    }
}

#[test]
fn ignores_unknown_members() {
    let doc = "{\"version\": 3, \"files\": [{\"path\": \"/a\", \"extra\": {\"deep\": [1, 2, {\"x\": \"y\"}]}, \"path_trash\": \"/t/a\", \"note\": \"kept aside\", \"flag\": true}], \"meta\": null}";
    match FileList::from_json(doc) {
        Ok(reg) => {
            assert_eq!(reg.files().len(), 1);
            assert_eq!(reg.files()[0].path().as_str(), "/a");
            assert_eq!(reg.files()[0].path_trash().as_str(), "/t/a");
        }
        Err(_) => panic!("unknown members must be ignored"),
    }
}

#[test]
fn loads_with_free_whitespace() {
    let doc = "  {\n\t\"files\"\n:\n[\n{\n\"path\"\t:\t\"/a\",\n\"path_trash\" : \"/t/a\"\n}\n]\n}\n\t ";
    match FileList::from_json(doc) {
        Ok(reg) => {
            assert_eq!(reg.files().len(), 1);
            assert_eq!(reg.files()[0].path().as_str(), "/a");
        }
        Err(_) => panic!("whitespace is free"),
    }
}

#[test]
fn rejects_wrong_value_type_for_path() {
    let doc = "{\"files\":[{\"path\": 7, \"path_trash\": \"/t/a\"}]}";
    match FileList::from_json(doc) {
        Ok(_) => panic!("a non-string path must be rejected"),
        Err(e) => assert!(matches!(e, Error::RegistryCorrupt)),
    }
}

#[test]
fn alternate_layout_round_trip() {
    let a = File::from_paths(String::from("/home/u/a.txt"), String::from("/t/a.txt"));
    let b = File::from_paths(String::from("/home/u/b\"q"), String::from("/t/b\\s"));
    let reg = FilesInTrash::new(vec![a, b]);
    let doc = reg.to_json();
    match FilesInTrash::from_json(doc.as_str()) {
        Ok(back) => {
            assert_eq!(back.files_in_trash().len(), 2);
            assert_eq!(back.files_in_trash()[0].path().as_str(), "/home/u/a.txt");
            assert_eq!(back.files_in_trash()[0].trash().as_str(), "/t/a.txt");
            assert_eq!(back.files_in_trash()[1].path().as_str(), "/home/u/b\"q");
            assert_eq!(back.files_in_trash()[1].trash().as_str(), "/t/b\\s");
        }
        Err(_) => panic!("a persisted registry must load"),
    }
}

#[test]
fn alternate_layout_persisted_form_is_exact() {
    let a = File::from_paths(String::from("/a/b"), String::from("/t/b"));
    let reg = FilesInTrash::new(vec![a]);
    let doc = reg.to_json();
    let expected = "{\n  \"files_in_trash\": [\n    {\n      \"path\": \"/a/b\",\n      \"trash\": \"/t/b\"\n    }\n  ]\n}";
    assert_eq!(doc, expected);
}

#[test]
fn alternate_layout_loads_compact_form() {
    let doc = "{\"files_in_trash\":[{\"trash\":\"/t/a\",\"path\":\"/a\"}]}";
    match FilesInTrash::from_json(doc) {
        Ok(reg) => {
            assert_eq!(reg.files_in_trash().len(), 1);
            assert_eq!(reg.files_in_trash()[0].path().as_str(), "/a");
            assert_eq!(reg.files_in_trash()[0].trash().as_str(), "/t/a");
        }
        Err(_) => panic!("a compact document must load"),
    }
}

#[test]
fn alternate_layout_rejects_the_wrong_list_key() {
    match FilesInTrash::from_json("{\"files\":[]}") {
        Ok(_) => panic!("the alternate layout reads its own list key"),
        Err(e) => assert!(matches!(e, Error::RegistryCorrupt)),
    }
}

#[test]
fn duplicate_members_last_one_wins() {
    let doc = "{\"files\":[{\"path\":\"/old\",\"path\":\"/new\",\"path_trash\":\"/t\"}]}";
    match FileList::from_json(doc) {
        Ok(reg) => {
            assert_eq!(reg.files().len(), 1);
            assert_eq!(reg.files()[0].path().as_str(), "/new");
        }
        Err(_) => panic!("duplicate members keep the later value"),
    }
}
