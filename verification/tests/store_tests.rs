use findex::glob::Matcher;
use findex::store::{classify, Entry, EntryKind, IndexStore};

fn file_entry(name: &str, path: &str, size: u64) -> Entry {
    Entry {
        name: name.to_string(),
        path: path.to_string(),
        kind: classify(name, false),
        size,
    }
}

fn dir_entry(name: &str, path: &str, size: u64) -> Entry {
    Entry {
        name: name.to_string(),
        path: path.to_string(),
        kind: classify(name, true),
        size,
    }
}

#[test]
fn classify_directory() {
    assert!(matches!(classify("docs", true), EntryKind::Directory));
}

#[test]
fn classify_file_with_extension() {
    match classify("report.txt", false) {
        EntryKind::File { extension: Some(e) } => assert_eq!(e, "txt"),
        _ => panic!("expected a file with an extension"),
    }
}

#[test]
fn classify_file_last_extension_wins() {
    match classify("archive.tar.gz", false) {
        EntryKind::File { extension: Some(e) } => assert_eq!(e, "gz"),
        _ => panic!("expected an extension"),
    }
}

#[test]
fn classify_file_without_extension() {
    assert!(matches!(classify("README", false), EntryKind::File { extension: None }));
}

#[test]
fn classify_hidden_file_has_no_extension() {
    assert!(matches!(classify(".bashrc", false), EntryKind::File { extension: None }));
}

#[test]
fn insert_if_absent_deduplicates_by_path() {
    let mut store = IndexStore::new();
    assert!(store.insert_if_absent(file_entry("a.txt", "/tmp/a.txt", 1)));
    assert!(!store.insert_if_absent(file_entry("a.txt", "/tmp/a.txt", 1)));
    assert_eq!(store.len(), 1);
}

#[test]
fn same_name_different_path_is_kept() {
    let mut store = IndexStore::new();
    store.insert_if_absent(file_entry("a.txt", "/x/a.txt", 1));
    store.insert_if_absent(file_entry("a.txt", "/y/a.txt", 2));
    assert_eq!(store.len(), 2);
}

#[test]
fn indexing_twice_keeps_the_count() {
    let batch = vec![
        dir_entry("root", "/r", 30),
        file_entry("a.txt", "/r/a.txt", 10),
        file_entry("b.png", "/r/b.png", 20),
    ];
    let mut store = IndexStore::new();
    let first = store.index_batch(batch.clone());
    assert_eq!(first, 3);
    let after_once = store.len();
    let second = store.index_batch(batch);
    assert_eq!(second, 3);
    assert_eq!(store.len(), after_once);
    assert_eq!(store.len(), 3);
}

#[test]
fn non_directory_entries_excludes_directories() {
    let mut store = IndexStore::new();
    store.insert_if_absent(dir_entry("r", "/r", 30));
    store.insert_if_absent(file_entry("a.txt", "/r/a.txt", 10));
    store.insert_if_absent(file_entry("b.png", "/r/b.png", 20));
    let files = store.non_directory_entries();
    assert_eq!(files.len(), 2);
    assert_eq!(files[0].name, "a.txt");
    assert_eq!(files[1].name, "b.png");
}

#[test]
fn wildcard_search_filters_by_name() {
    let mut store = IndexStore::new();
    store.insert_if_absent(file_entry("report.txt", "/d/report.txt", 5));
    store.insert_if_absent(file_entry("photo.png", "/d/photo.png", 6));
    store.insert_if_absent(file_entry("notes.txt", "/d/notes.txt", 7));
    let m = Matcher::compile("*.txt").expect("pattern should compile");
    let hits = store.wildcard_search(&m);
    assert_eq!(hits.len(), 2);
    assert_eq!(hits[0].name, "report.txt");
    assert_eq!(hits[0].path, "/d/report.txt");
    assert_eq!(hits[0].size, 5);
    assert_eq!(hits[1].name, "notes.txt");
}

#[test]
fn entries_reports_all_rows() {
    let mut store = IndexStore::new();
    store.insert_if_absent(dir_entry("r", "/r", 30));
    store.insert_if_absent(file_entry("a.txt", "/r/a.txt", 10));
    assert_eq!(store.entries().len(), 2);
    assert_eq!(store.entries()[0].path, "/r");
}
