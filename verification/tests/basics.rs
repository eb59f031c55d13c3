use rust_fuse::inode::blocks_allocated;
use rust_fuse::inode::inode_attr_to_file_attr;
use rust_fuse::inode::FileAttr;
use rust_fuse::inode::InodeAttributes;
use rust_fuse::mode::as_file_kind;
use rust_fuse::mode::creation_gid;
use rust_fuse::mode::creation_mode;
use rust_fuse::mode::is_supported;
use rust_fuse::mode::FileKind;
use rust_fuse::mode::DIRECTORY_TYPE;
use rust_fuse::mode::REGULAR_TYPE;
use rust_fuse::mode::SET_GID_BIT;
use rust_fuse::mode::SET_UID_BIT;
use rust_fuse::mode::SYMLINK_TYPE;
use rust_fuse::mode::TYPE_BITS;
use rust_fuse::time::system_time_from_time;
use rust_fuse::time::time_from_system_time;
use rust_fuse::time::time_now;
use std::time::Duration;
use std::time::SystemTime;
use std::time::UNIX_EPOCH;

#[test]
fn file_kinds() {
    assert_eq!(as_file_kind(0o100644), FileKind::File);
    assert_eq!(as_file_kind(0o120777), FileKind::Symlink);
    assert_eq!(as_file_kind(0o040755), FileKind::Directory);
    assert!(is_supported(0o100000));
    assert!(is_supported(0o120000));
    assert!(is_supported(0o047777));
    assert!(!is_supported(0));
    assert!(!is_supported(0o644));
    assert!(!is_supported(0o010000));
    assert!(!is_supported(0o140000));
    assert_eq!(FileKind::default(), FileKind::File);
}

#[test]
fn mode_bits_are_those_of_the_system() {
    assert_eq!(TYPE_BITS, libc::S_IFMT as u32);
    assert_eq!(REGULAR_TYPE, libc::S_IFREG as u32);
    assert_eq!(SYMLINK_TYPE, libc::S_IFLNK as u32);
    assert_eq!(DIRECTORY_TYPE, libc::S_IFDIR as u32);
    assert_eq!(SET_UID_BIT, libc::S_ISUID as u32);
    assert_eq!(SET_GID_BIT, libc::S_ISGID as u32);
}

#[test]
fn new_files_lose_the_set_id_bits() {
    assert_eq!(creation_mode(0o100644), 0o100644);
    assert_eq!(creation_mode(0o106755), 0o100755);
    assert_eq!(creation_mode(0o041777), 0o041777);
    assert_eq!(creation_mode(0o1000000), 0);
}

#[test]
fn new_files_inherit_the_group() {
    assert_eq!(creation_gid(0o2755, 7, 100), 7);
    assert_eq!(creation_gid(0o0755, 7, 100), 100);
    assert_eq!(creation_gid(0o4755, 7, 100), 100);
}

#[test]
fn timestamps_of_points_in_time() {
    assert_eq!(time_from_system_time(&UNIX_EPOCH), (0, 0));
    let later = UNIX_EPOCH + Duration::new(5, 7);
    assert_eq!(time_from_system_time(&later), (5, 7));
    let earlier = UNIX_EPOCH - Duration::new(5, 7);
    assert_eq!(time_from_system_time(&earlier), (-5, 7));
    let just_before = UNIX_EPOCH - Duration::from_millis(500);
    assert_eq!(time_from_system_time(&just_before), (0, 500_000_000));
}

#[test]
fn points_in_time_of_timestamps() {
    assert_eq!(system_time_from_time(0, 0), Some(UNIX_EPOCH));
    assert_eq!(system_time_from_time(5, 7), Some(UNIX_EPOCH + Duration::new(5, 7)));
    assert_eq!(system_time_from_time(-5, 7), Some(UNIX_EPOCH - Duration::new(5, 7)));
    assert_eq!(
        system_time_from_time(1, 1_500_000_000),
        Some(UNIX_EPOCH + Duration::from_millis(2500))
    );
    assert_eq!(system_time_from_time(i64::MAX, u32::MAX), None);
}

#[test]
fn timestamps_survive() {
    for (secs, nsecs) in [(0, 0), (0, 1), (1, 999_999_999), (-1, 0), (-7, 3), (1_700_000_000, 5)] {
        let point = system_time_from_time(secs, nsecs).unwrap();
        assert_eq!(time_from_system_time(&point), (secs, nsecs));
    }
}

#[test]
fn points_in_time_survive() {
    let spans = [(0, 0), (0, 1), (1, 0), (1, 999_999_999), (1_700_000_000, 5)];
    for (secs, nsecs) in spans {
        let point = UNIX_EPOCH + Duration::new(secs, nsecs);
        let (s, n) = time_from_system_time(&point);
        assert_eq!(system_time_from_time(s, n), Some(point));
        if secs > 0 {
            let point = UNIX_EPOCH - Duration::new(secs, nsecs);
            let (s, n) = time_from_system_time(&point);
            assert_eq!(system_time_from_time(s, n), Some(point));
        }
    }
    // Zero seconds have no sign.
    let point = UNIX_EPOCH - Duration::from_millis(500);
    let (s, n) = time_from_system_time(&point);
    assert_eq!(system_time_from_time(s, n), Some(UNIX_EPOCH + Duration::from_millis(500)));
}

#[test]
fn the_farthest_points_in_time_survive() {
    let last = UNIX_EPOCH.checked_add(Duration::new(i64::MAX as u64, 999_999_999)).unwrap();
    assert_eq!(time_from_system_time(&last), (i64::MAX, 999_999_999));
    assert_eq!(system_time_from_time(i64::MAX, 999_999_999), Some(last));
    let first = UNIX_EPOCH.checked_sub(Duration::new(i64::MAX as u64, 999_999_999)).unwrap();
    assert_eq!(time_from_system_time(&first), (-i64::MAX, 999_999_999));
    assert_eq!(system_time_from_time(-i64::MAX, 999_999_999), Some(first));
}

#[test]
fn the_time_is_now() {
    let before = SystemTime::now();
    let (secs, nsecs) = time_now();
    let after = SystemTime::now();
    let point = system_time_from_time(secs, nsecs).unwrap();
    assert!(before <= point && point <= after);
    assert!(nsecs < 1_000_000_000);
}

#[test]
fn blocks_of_a_file() {
    assert_eq!(blocks_allocated(0, 4096), 0);
    assert_eq!(blocks_allocated(1, 4096), 1);
    assert_eq!(blocks_allocated(4096, 4096), 1);
    assert_eq!(blocks_allocated(4097, 4096), 2);
    assert_eq!(blocks_allocated(u64::MAX, 1), u64::MAX);
    assert_eq!(blocks_allocated(u64::MAX, 4096), 1 << 52);
}

#[test]
fn what_is_told_of_a_file() {
    let attr = InodeAttributes {
        inode: 9,
        open_file_handles: 3,
        size: 2049,
        last_accessed: (1, 2),
        last_modified: (3, 4),
        last_metadata_changed: (5, 6),
        kind: FileKind::Symlink,
        mode: 0o644,
        hardlinks: 4,
        uid: 10,
        gid: 11,
        extent_index: vec![(0, 3)],
    };
    assert_eq!(
        inode_attr_to_file_attr(&attr, 1024),
        FileAttr {
            ino: 9,
            size: 2049,
            blocks: 3,
            atime: (1, 2),
            mtime: (3, 4),
            ctime: (5, 6),
            crtime: (0, 0),
            kind: FileKind::Symlink,
            perm: 0o644,
            nlink: 4,
            uid: 10,
            gid: 11,
            rdev: 0,
            blksize: 1024,
            flags: 0,
        }
    );
    let copy = attr.clone();
    assert_eq!(copy.extent_index, vec![(0, 3)]);
    assert_eq!(copy.inode, 9);
    let unused = InodeAttributes::default();
    assert_eq!((unused.inode, unused.size, unused.hardlinks), (0, 0, 0));
    assert_eq!(unused.kind, FileKind::File);
    assert!(unused.extent_index.is_empty());
}
