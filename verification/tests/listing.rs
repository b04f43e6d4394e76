use file_browser::listing::{list_files, list_folders, EntryKind, RawEntry};

fn entry(name: &str, kind: EntryKind) -> RawEntry {
    RawEntry { name: name.to_string(), kind }
}

#[test]
fn sorts_names_from_os_order() {
    let entries = vec![
        entry("b", EntryKind::Folder),
        entry("a", EntryKind::Folder),
        entry("z.txt", EntryKind::File),
    ];
    let folders = list_folders("start", &entries);
    let files = list_files("start", &entries);
    assert_eq!(folders, vec!["start/a".to_string(), "start/b".to_string()]);
    assert_eq!(files, vec!["start/z.txt".to_string()]);
}

#[test]
fn keeps_only_the_asked_kind() {
    let entries = vec![
        entry("dir", EntryKind::Folder),
        entry("file", EntryKind::File),
        entry("socket", EntryKind::Other),
    ];
    let folders = list_folders("d", &entries);
    let files = list_files("d", &entries);
    assert_eq!(folders, vec!["d/dir".to_string()]);
    assert_eq!(files, vec!["d/file".to_string()]);
}

#[test]
fn empty_listing_gives_empty_panes() {
    let entries: Vec<RawEntry> = Vec::new();
    assert!(list_folders("d", &entries).is_empty());
    assert!(list_files("d", &entries).is_empty());
}

#[test]
fn drops_unusable_names() {
    let entries = vec![
        entry("", EntryKind::Folder),
        entry("a/b", EntryKind::Folder),
        entry("ok", EntryKind::Folder),
    ];
    let folders = list_folders("d", &entries);
    assert_eq!(folders, vec!["d/ok".to_string()]);
}

#[test]
fn keeps_duplicate_names() {
    let entries = vec![entry("a", EntryKind::File), entry("a", EntryKind::File)];
    let files = list_files("d", &entries);
    assert_eq!(files, vec!["d/a".to_string(), "d/a".to_string()]);
}

#[test]
fn orders_by_code_point_with_prefix_first() {
    let entries = vec![
        entry("aa", EntryKind::File),
        entry("B", EntryKind::File),
        entry("a", EntryKind::File),
    ];
    let files = list_files("d", &entries);
    // 'B' (66) sorts before 'a' (97); "a" is a proper prefix of "aa".
    assert_eq!(
        files,
        vec!["d/B".to_string(), "d/a".to_string(), "d/aa".to_string()]
    );
}
