use rust_fuse::directory::DirectoryEntries;
use rust_fuse::mode::FileKind;
use rust_fuse::requests::readdir;

fn names(entries: &DirectoryEntries) -> Vec<String> {
    (0..entries.len()).map(|i| entries.entry(i).name.clone()).collect()
}

#[test]
fn entries_are_sorted_by_their_bytes() {
    let mut entries = DirectoryEntries::new();
    let given = ["b", "a", "..", ".", "B", "ab", "", "é", "a\u{10ffff}", "a\u{ffff}", "aa"];
    for (i, name) in given.iter().enumerate() {
        entries.insert(name.to_string(), i as u64, FileKind::File);
    }
    let mut expected: Vec<String> = given.iter().map(|s| s.to_string()).collect();
    expected.sort();
    assert_eq!(names(&entries), expected);
    for (i, name) in given.iter().enumerate() {
        assert_eq!(entries.get(name), Some((i as u64, FileKind::File)));
    }
}

#[test]
fn an_entry_is_replaced() {
    let mut entries = DirectoryEntries::new();
    entries.insert("x".to_string(), 1, FileKind::File);
    entries.insert("x".to_string(), 2, FileKind::Directory);
    assert_eq!(entries.len(), 1);
    assert_eq!(entries.get("x"), Some((2, FileKind::Directory)));
    assert_eq!(entries.get("y"), None);
    assert_eq!(entries.get(""), None);
    assert_eq!(DirectoryEntries::new().get("x"), None);
}

#[test]
fn a_listing_goes_on_where_it_stopped() {
    let mut entries = DirectoryEntries::new();
    for (i, name) in ["c", "a", "b"].iter().enumerate() {
        entries.insert(name.to_string(), i as u64 + 10, FileKind::Symlink);
    }
    let all = readdir(&entries, 0);
    assert_eq!(all.len(), 3);
    assert_eq!((all[0].name.as_str(), all[0].inode, all[0].offset), ("a", 11, 1));
    assert_eq!((all[2].name.as_str(), all[2].inode, all[2].offset), ("c", 10, 3));
    assert_eq!(all[1].kind, FileKind::Symlink);
    for (k, entry) in all.iter().enumerate() {
        assert_eq!(readdir(&entries, entry.offset), all[k + 1..]);
    }
    assert_eq!(readdir(&entries, 3), vec![]);
    assert_eq!(readdir(&entries, u64::MAX), vec![]);
}
