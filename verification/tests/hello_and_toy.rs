use rust_fuse::errno::Errno;
use rust_fuse::hello;
use rust_fuse::mode::FileKind;
use rust_fuse::toy;

#[test]
fn hello_attributes() {
    let root = hello::getattr(1).unwrap();
    assert_eq!((root.ino, root.size, root.kind, root.perm), (1, 0, FileKind::Directory, 0o755));
    let file = hello::getattr(2).unwrap();
    assert_eq!((file.ino, file.size, file.kind, file.perm), (2, 13, FileKind::File, 0o644));
    assert_eq!((file.blocks, file.nlink, file.uid, file.gid), (1, 1, 1000, 1000));
    assert_eq!((file.rdev, file.blksize, file.flags), (0, 512, 0));
    assert_eq!((file.atime, file.mtime, file.ctime, file.crtime), ((0, 0), (0, 0), (0, 0), (0, 0)));
    assert_eq!(hello::getattr(3), Err(Errno::ENOENT));
    assert_eq!(hello::getattr(0), Err(Errno::ENOENT));
}

#[test]
fn hello_lookup() {
    assert_eq!(hello::lookup(&Some("hello.txt".to_string())), Ok(hello::attr(2, 13)));
    assert_eq!(hello::lookup(&Some("hello".to_string())), Err(Errno::ENOENT));
    assert_eq!(hello::lookup(&None), Err(Errno::ENOENT));
}

#[test]
fn hello_listing() {
    let all = hello::readdir(0);
    assert_eq!(all.len(), 2);
    assert_eq!((all[0].inode, all[0].offset, all[0].kind), (1, 1, FileKind::Directory));
    assert_eq!(all[0].name, ".");
    assert_eq!((all[1].inode, all[1].offset, all[1].kind), (2, 2, FileKind::File));
    assert_eq!(all[1].name, "hello.txt");
    assert_eq!(hello::readdir(1), all[1..]);
    assert_eq!(hello::readdir(2), vec![]);
    assert_eq!(hello::readdir(u64::MAX), vec![]);
}

#[test]
fn hello_contents() {
    assert_eq!(hello::read(2, 0), Ok(b"Hello World!\n".to_vec()));
    assert_eq!(hello::read(2, 6), Ok(b"World!\n".to_vec()));
    assert_eq!(hello::read(2, 12), Ok(b"\n".to_vec()));
    assert_eq!(hello::read(2, 13), Ok(vec![]));
    assert_eq!(hello::read(2, u64::MAX), Ok(vec![]));
    assert_eq!(hello::read(1, 0), Err(Errno::ENOENT));
    assert_eq!(hello::read(2, 0).unwrap().len() as u64, hello::getattr(2).unwrap().size);
}

#[test]
fn toy_file_system() {
    let fs = toy::FuseFS::new();
    assert_eq!(
        fs.superblock,
        toy::Superblock {
            block_size: 4096,
            num_inodes: 256,
            num_free_inodes: 256,
            num_blocks: 1024,
            num_free_blocks: 1024,
        }
    );
    assert_eq!(fs.inode_bitmap.bits.len(), 256);
    assert!(fs.inode_bitmap.bits.iter().all(|b| !b));
    assert_eq!(fs.data_bitmap.bits.len(), 1024);
    assert!(fs.data_bitmap.bits.iter().all(|b| !b));
    assert_eq!(fs.inode_table.inodes, vec![None; 256]);
    assert_eq!(fs.data_region.data_blocks.len(), 1024);
    assert!(fs.data_region.data_blocks.iter().all(|b| b.iter().all(|x| *x == 0)));
    assert_eq!(toy::Inode::new(77), toy::Inode { size: 77, uid: 0 });
}
