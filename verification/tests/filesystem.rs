use rust_fuse::directory::DirectoryEntries;
use rust_fuse::directory_io::DirectoryStep;
use rust_fuse::errno::Errno;
use rust_fuse::extent::ReadSlice;
use rust_fuse::extent::WriteSlice;
use rust_fuse::fs::FuseFS;
use rust_fuse::fs::ROOT_INODE;
use rust_fuse::inode::FileAttr;
use rust_fuse::inode::InodeAttributes;
use rust_fuse::meta::Meta;
use rust_fuse::meta::MetaSerializable;
use rust_fuse::meta::Superblock;
use rust_fuse::meta::FSID;
use rust_fuse::mode::FileKind;
use rust_fuse::requests::create_own_written;
use rust_fuse::requests::create_parent_read;
use rust_fuse::requests::create_parent_written;
use rust_fuse::requests::CreateRequest;
use rust_fuse::requests::CreateStep;

const BLOCK: usize = 1024;

/// A file system with a store in memory.
struct Mounted {
    fs: FuseFS,
    store: Vec<u8>,
}

impl Mounted {
    fn new(num_blocks: u64) -> Mounted {
        let fs = FuseFS::new(None, BLOCK as u32, 1024, num_blocks).unwrap();
        let mut mounted = Mounted { fs, store: vec![0; num_blocks as usize * BLOCK] };
        let entries = mounted.fs.init().unwrap();
        mounted.write_entries(ROOT_INODE, &entries).unwrap();
        mounted
    }

    fn apply(&mut self, slices: &[WriteSlice]) {
        for s in slices {
            let start = s.start as usize;
            self.store[start..start + s.data.len()].copy_from_slice(&s.data);
        }
    }

    fn fetch(&self, slices: &[ReadSlice]) -> Vec<u8> {
        let mut bytes = Vec::new();
        for s in slices {
            bytes.extend_from_slice(&self.store[s.start as usize..(s.start + s.len) as usize]);
        }
        bytes
    }

    fn write(&mut self, inode: u64, data: &[u8], offset: u64) -> Result<u64, Errno> {
        let w = self.fs.write_file(inode, &data.to_vec(), offset);
        self.apply(&w.slices);
        w.result
    }

    fn read(&mut self, inode: u64, offset: u64, size: u32) -> Result<Vec<u8>, Errno> {
        let slices = self.fs.read_file(inode, offset, size)?;
        Ok(self.fetch(&slices))
    }

    fn write_bytes(&mut self, inode: u64, bytes: &[u8]) -> Result<(), Errno> {
        let mut step = self.fs.write_directory(inode, &bytes.to_vec());
        loop {
            match step {
                DirectoryStep::Done(r) => return r,
                DirectoryStep::Write(slices, w) => {
                    self.apply(&slices);
                    step = self.fs.resume_write_directory(w, Ok(()));
                }
            }
        }
    }

    fn read_bytes(&mut self, inode: u64) -> Result<Vec<u8>, Errno> {
        let slices = self.fs.read_directory(inode)?;
        let bytes = self.fetch(&slices);
        Ok(self.fs.directory_contents(inode, bytes))
    }

    fn write_entries(&mut self, inode: u64, entries: &DirectoryEntries) -> Result<(), Errno> {
        let mut text = String::new();
        for i in 0..entries.len() {
            let e = entries.entry(i);
            let kind = if e.kind == FileKind::Directory { 'd' } else { 'f' };
            text.push_str(&format!("{}\t{}\t{}\n", e.name, e.inode, kind));
        }
        self.write_bytes(inode, text.as_bytes())
    }

    fn entries(&mut self, inode: u64) -> Result<DirectoryEntries, Errno> {
        let bytes = self.read_bytes(inode)?;
        let mut entries = DirectoryEntries::new();
        for line in String::from_utf8(bytes).unwrap().lines() {
            let parts: Vec<&str> = line.split('\t').collect();
            let kind = if parts[2] == "d" { FileKind::Directory } else { FileKind::File };
            entries.insert(parts[0].to_string(), parts[1].parse().unwrap(), kind);
        }
        self.fs.finish_read_directory(inode, Some(entries))
    }

    fn lookup(&mut self, parent: u64, name: &str) -> Result<FileAttr, Errno> {
        let entries = self.entries(parent);
        self.fs.lookup(&entries, &Some(name.to_string()))
    }

    fn create(&mut self, parent: u64, name: Option<&str>, mode: u32) -> Result<FileAttr, Errno> {
        let name = name.map(|n| n.to_string());
        let request = CreateRequest { parent, name, mode, uid: 501, gid: 20 };
        let looked_up = self.entries(parent);
        let mut step = self.fs.create(&request, &looked_up);
        loop {
            step = match step {
                CreateStep::Reply(r) => return r,
                CreateStep::WriteOwn(created, own) => {
                    let outcome = self.write_entries(created.inode, &own);
                    create_own_written(&request, created, outcome)
                }
                CreateStep::ReadParent(created) => {
                    let found = self.entries(parent);
                    create_parent_read(&request, created, found)
                }
                CreateStep::WriteParent(created, more) => {
                    let outcome = self.write_entries(parent, &more);
                    create_parent_written(created, outcome)
                }
            }
        }
    }

    fn attr(&self, inode: u64) -> InodeAttributes {
        self.fs.get_inode_attr(inode).unwrap()
    }

    fn blocks_used(&self) -> usize {
        self.fs.saved_meta().data_bitmap.iter().filter(|b| **b).count()
    }
}

fn pattern(len: usize, seed: usize) -> Vec<u8> {
    (0..len).map(|i| ((i * 7 + seed) % 251) as u8).collect()
}

#[test]
fn a_new_file_system() {
    let fs = FuseFS::new(None, 4096, 2048, 1024).unwrap();
    let superblock = fs.superblock();
    assert_eq!(
        superblock,
        Superblock { fsid: 0x55555, block_size: 4096, num_inodes: 2048, num_blocks: 1024 }
    );
    assert_eq!(superblock, Superblock::new(4096, 2048, 1024));
    assert_eq!(FSID, 0x55555);
    let saved = fs.saved_meta();
    assert_eq!(saved.inode_bitmap, vec![false; 2048]);
    assert_eq!(saved.data_bitmap, vec![false; 1024]);
    assert_eq!(saved.inode_table.len(), 2048);
    assert_eq!(fs.getattr(1), Err(Errno::ENOENT));
    assert_eq!(fs.getattr(u64::MAX), Err(Errno::ENOENT));
}

#[test]
fn blocks_need_a_size_and_addresses() {
    let fs = FuseFS::new(None, 0, 1024, 1024).unwrap();
    assert!(!fs.is_valid());
    assert_eq!(fs.superblock(), Superblock::new(0, 1024, 1024));
    assert!(FuseFS::new(None, u32::MAX, 0, 1024).unwrap().is_valid());
    assert_eq!(FuseFS::store_size(4096, 32768), Some(134217728));
    assert_eq!(FuseFS::store_size(4096, u64::MAX), None);
    assert_eq!(FuseFS::store_size(0, u64::MAX), Some(0));
}

#[test]
fn the_root_directory() {
    let mut fs = FuseFS::new(None, 1024, 1024, 1024).unwrap();
    assert!(fs.is_valid());
    let entries = fs.init().unwrap();
    assert_eq!(entries.len(), 1);
    assert_eq!(entries.get("."), Some((1, FileKind::Directory)));
    let root = fs.getattr(1).unwrap();
    assert_eq!((root.ino, root.size, root.kind), (1, 0, FileKind::Directory));
    assert_eq!((root.perm, root.nlink, root.uid, root.gid), (0o777, 2, 0, 0));
    assert_eq!(fs.setattr(1), Ok(root));
    assert_eq!(fs.setattr(2), Err(Errno::ENOENT));
    assert_eq!(fs.get_inode_attr(1).unwrap().open_file_handles, 0);
    // Once it is there, it stays as it is.
    assert_eq!(fs.init(), None);
    assert_eq!(fs.getattr(1), Ok(root));
}

#[test]
fn what_is_written_is_read() {
    let mut m = Mounted::new(1024);
    let file = m.create(1, Some("file"), 0o100644).unwrap().ino;
    let data = pattern(3000, 1);
    assert_eq!(m.write(file, &data, 0), Ok(3000));
    assert_eq!(m.attr(file).size, 3000);
    assert_eq!(m.read(file, 0, 3000), Ok(data.clone()));
    assert_eq!(m.read(file, 1023, 2), Ok(data[1023..1025].to_vec()));
    assert_eq!(m.read(file, 2999, 1), Ok(data[2999..].to_vec()));
    assert_eq!(m.read(file, 3000, 0), Ok(vec![]));
    assert_eq!(m.read(file, 2999, 2), Err(Errno::EINVAL));
    assert_eq!(m.read(file, u64::MAX, u32::MAX), Err(Errno::EINVAL));
    assert_eq!(m.read(77, 0, 0), Err(Errno::ENOENT));
}

#[test]
fn a_write_changes_only_its_part() {
    let mut m = Mounted::new(1024);
    let file = m.create(1, Some("file"), 0o100644).unwrap().ino;
    let mut data = pattern(3000, 1);
    m.write(file, &data, 0).unwrap();
    let other = pattern(1500, 90);
    assert_eq!(m.write(file, &other, 700), Ok(1500));
    data[700..2200].copy_from_slice(&other);
    assert_eq!(m.attr(file).size, 3000);
    assert_eq!(m.read(file, 0, 3000), Ok(data));
}

#[test]
fn a_write_beyond_the_end() {
    let mut m = Mounted::new(1024);
    let file = m.create(1, Some("file"), 0o100644).unwrap().ino;
    assert_eq!(m.write(file, &[1], 1), Err(Errno::EINVAL));
    assert_eq!(m.write(99, &[1], 0), Err(Errno::ENOENT));
    assert_eq!(m.write(file, &[], 0), Ok(0));
    assert_eq!(m.attr(file).size, 0);
}

#[test]
fn a_file_grows_to_cover_what_is_written() {
    let mut m = Mounted::new(1024);
    let file = m.create(1, Some("file"), 0o100644).unwrap().ino;
    m.write(file, &pattern(1024, 0), 0).unwrap();
    // A block of bytes takes a block, and not one more.
    assert_eq!(m.attr(file).extent_index.iter().map(|e| e.1).sum::<u64>(), 1);
    assert_eq!(m.attr(file).size, 1024);
    // Beyond its blocks it gets more of them.
    assert_eq!(m.write(file, &pattern(10, 5), 1024), Ok(10));
    assert_eq!(m.attr(file).size, 1034);
    assert_eq!(m.attr(file).extent_index.iter().map(|e| e.1).sum::<u64>(), 2);
    // Where the last block has room, only the size grows.
    let used = m.blocks_used();
    assert_eq!(m.write(file, &pattern(100, 9), 1034), Ok(100));
    assert_eq!(m.attr(file).size, 1134);
    assert_eq!(m.blocks_used(), used);
    assert_eq!(m.read(file, 1034, 100), Ok(pattern(100, 9)));
    // A write that starts inside and goes beyond the end.
    assert_eq!(m.write(file, &pattern(1100, 3), 1100), Ok(1100));
    assert_eq!(m.attr(file).size, 2200);
    assert_eq!(m.read(file, 1100, 1100), Ok(pattern(1100, 3)));
    assert_eq!(m.read(file, 1024, 10), Ok(pattern(10, 5)));
    assert_eq!(m.read(file, 1034, 66), Ok(pattern(100, 9)[..66].to_vec()));
}

#[test]
fn two_bytes_behind_three() {
    let mut m = Mounted::new(1024);
    let file = m.create(1, Some("file"), 0o100644).unwrap().ino;
    assert_eq!(m.write(file, b"abc", 0), Ok(3));
    assert_eq!(m.write(file, b"de", 3), Ok(2));
    assert_eq!(m.attr(file).size, 5);
    assert_eq!(m.read(file, 3, 2), Ok(b"de".to_vec()));
    assert_eq!(m.read(file, 0, 5), Ok(b"abcde".to_vec()));
}

#[test]
fn files_do_not_disturb_each_other() {
    let mut m = Mounted::new(1024);
    let a = m.create(1, Some("a"), 0o100644).unwrap().ino;
    let b = m.create(1, Some("b"), 0o100644).unwrap().ino;
    let first = pattern(2000, 1);
    let second = pattern(5000, 2);
    m.write(a, &first, 0).unwrap();
    m.write(b, &second, 0).unwrap();
    let more = pattern(3000, 3);
    m.write(a, &more, 2000).unwrap();
    assert!(m.attr(a).extent_index.len() > 1);
    assert_eq!(m.read(b, 0, 5000), Ok(second));
    assert_eq!(m.read(a, 0, 2000), Ok(first));
    assert_eq!(m.attr(a).size, 5000);
    assert_eq!(m.read(a, 2000, 3000), Ok(more));
    assert_eq!(m.entries(1).unwrap().len(), 3);
}

#[test]
fn a_full_store() {
    let mut m = Mounted::new(1024);
    let file = m.create(1, Some("file"), 0o100644).unwrap().ino;
    let used = m.blocks_used();
    let free = 1024 - used;
    let too_much = pattern(free * BLOCK + 1, 4);
    let before = m.fs.saved_meta();
    assert_eq!(m.write(file, &too_much, 0), Err(Errno::ENOSPC));
    let after = m.fs.saved_meta();
    assert_eq!(after.data_bitmap, before.data_bitmap);
    assert_eq!(m.attr(file).size, 0);
    let just_enough = pattern(free * BLOCK, 4);
    assert_eq!(m.write(file, &just_enough, 0), Ok(just_enough.len() as u64));
    assert_eq!(m.blocks_used(), 1024);
    assert_eq!(m.read(file, 0, just_enough.len() as u32), Ok(just_enough));
    assert_eq!(m.create(1, Some(&"x".repeat(3000)), 0o100644), Err(Errno::ENOSPC));
}

#[test]
fn a_refused_write_still_fills_the_room_that_there_is() {
    let mut m = Mounted::new(1024);
    let file = m.create(1, Some("file"), 0o100644).unwrap().ino;
    m.write(file, &pattern(1023, 0), 0).unwrap();
    let free = 1024 - m.blocks_used();
    assert_eq!(m.write(file, &vec![9; (free + 1) * BLOCK + 1], 0), Err(Errno::ENOSPC));
    assert_eq!(m.attr(file).size, 1023);
    assert_eq!(m.read(file, 0, 1023), Ok(vec![9; 1023]));
}

#[test]
fn a_file_takes_times() {
    let mut m = Mounted::new(1024);
    let file = m.create(1, Some("file"), 0o100644).unwrap().ino;
    let created = m.attr(file);
    m.write(file, &pattern(10, 0), 0).unwrap();
    let written = m.attr(file);
    assert!(written.last_modified >= created.last_modified);
    assert!(written.last_metadata_changed >= created.last_metadata_changed);
    assert_eq!(written.last_accessed, created.last_accessed);
    m.read(file, 0, 10).unwrap();
    let read = m.attr(file);
    assert!(read.last_accessed >= written.last_accessed);
    assert_eq!(read.last_modified, written.last_modified);
}

#[test]
fn directories_are_read_back() {
    let mut m = Mounted::new(1024);
    for len in [2, 1023, 1024, 1025, 5000, 40, 12000] {
        let bytes = pattern(len, len);
        assert_eq!(m.write_bytes(1, &bytes), Ok(()));
        assert_eq!(m.attr(1).size, len as u64);
        assert_eq!(m.read_bytes(1), Ok(bytes));
    }
}

#[test]
fn directories_need_room_too() {
    let mut m = Mounted::new(1024);
    let bytes = pattern(1024 * BLOCK + 1, 0);
    let used = m.blocks_used();
    let size = m.attr(1).size;
    assert_eq!(m.write_bytes(1, &bytes), Err(Errno::ENOSPC));
    assert_eq!(m.attr(1).size, size);
    assert_eq!(m.blocks_used(), used);
    assert_eq!(m.write_bytes(1, &bytes[1..]), Ok(()));
    assert_eq!(m.blocks_used(), 1024);
    assert_eq!(m.read_bytes(1), Ok(bytes[1..].to_vec()));
}

#[test]
fn a_store_that_fails() {
    let mut m = Mounted::new(1024);
    let before = m.attr(1);
    let used = m.blocks_used();
    match m.fs.write_directory(1, &pattern(5000, 0)) {
        DirectoryStep::Write(_, w) => match m.fs.resume_write_directory(w, Err(Errno::Os(5))) {
            DirectoryStep::Done(r) => assert_eq!(r, Err(Errno::Os(5))),
            DirectoryStep::Write(_, _) => panic!("the write goes on"),
        },
        DirectoryStep::Done(_) => panic!("nothing to write"),
    }
    assert_eq!(m.attr(1).size, before.size);
    assert_eq!(m.attr(1).extent_index, before.extent_index);
    assert_eq!(m.blocks_used(), used);
}

#[test]
fn only_directories_are_read_as_directories() {
    let mut m = Mounted::new(1024);
    let file = m.create(1, Some("file"), 0o100644).unwrap().ino;
    assert_eq!(m.read_bytes(file), Err(Errno::ENOTDIR));
    assert_eq!(m.write_bytes(file, b"{}"), Err(Errno::ENOTDIR));
    assert_eq!(m.read_bytes(500), Err(Errno::ENOENT));
    assert_eq!(m.write_bytes(500, b"{}"), Err(Errno::ENOENT));
    assert_eq!(m.fs.finish_read_directory(1, None), Err(Errno::EINVAL));
}

#[test]
fn a_created_file_is_found() {
    let mut m = Mounted::new(1024);
    let told = m.create(1, Some("file"), 0o106644).unwrap();
    assert_eq!((told.ino, told.size, told.kind), (2, 0, FileKind::File));
    assert_eq!((told.perm, told.nlink, told.uid, told.gid), (0o100644, 1, 501, 20));
    assert_eq!((told.blocks, told.blksize, told.rdev, told.flags), (0, 1024, 0, 0));
    assert_eq!(m.attr(2).open_file_handles, 1);
    assert_eq!(m.lookup(1, "file"), Ok(told));
    assert_eq!(m.lookup(1, "other"), Err(Errno::ENOENT));
    assert_eq!(m.lookup(2, "file"), Err(Errno::ENOTDIR));
    assert_eq!(m.create(1, Some("file"), 0o100644), Err(Errno::EEXIST));
    assert_eq!(m.create(1, Some("next"), 0o120777).unwrap().ino, 3);
    assert_eq!(m.lookup(1, "next").unwrap().kind, FileKind::Symlink);
    assert_eq!(m.lookup(1, "file"), Ok(told));
}

#[test]
fn a_created_directory_has_entries() {
    let mut m = Mounted::new(1024);
    let dir = m.create(1, Some("dir"), 0o042755).unwrap();
    assert_eq!((dir.kind, dir.perm, dir.size), (FileKind::Directory, 0o040755, 0));
    let entries = m.entries(dir.ino).unwrap();
    assert_eq!(entries.len(), 2);
    assert_eq!(entries.get("."), Some((dir.ino, FileKind::Directory)));
    assert_eq!(entries.get(".."), Some((1, FileKind::Directory)));
    let inner = m.create(dir.ino, Some("inner"), 0o100600).unwrap();
    assert_eq!(m.lookup(dir.ino, "inner"), Ok(inner));
    assert_eq!(m.lookup(dir.ino, "..").unwrap().ino, 1);
}

#[test]
fn a_name_that_is_no_text() {
    let mut m = Mounted::new(1024);
    let entries = m.entries(1);
    assert_eq!(m.fs.lookup(&entries, &None), Err(Errno::EINVAL));
    assert_eq!(m.create(1, None, 0o100644), Err(Errno::EINVAL));
    // The inode stays taken.
    assert_eq!(m.create(1, Some("file"), 0o100644).unwrap().ino, 3);
}

#[test]
fn a_directory_that_is_not_there() {
    let mut m = Mounted::new(1024);
    assert_eq!(m.create(500, Some("file"), 0o100644), Err(Errno::ENOENT));
    assert_eq!(m.create(1, Some("file"), 0o100644).unwrap().ino, 3);
}

#[test]
fn a_parent_that_is_no_directory() {
    let mut m = Mounted::new(1024);
    let file = m.create(1, Some("file"), 0o100644).unwrap().ino;
    assert_eq!(m.create(file, Some("inner"), 0o100644), Err(Errno::ENOTDIR));
}

#[test]
fn no_inode_is_left() {
    let mut m = Mounted::new(1024);
    for _ in 2..1024 {
        assert!(m.fs.allocate_inode().is_some());
    }
    let before = m.fs.saved_meta();
    assert_eq!(m.create(1, Some("file"), 0o100644), Err(Errno::ENOSPC));
    assert_eq!(m.fs.saved_meta().inode_bitmap, before.inode_bitmap);
    m.fs.free_inode(700);
    assert_eq!(m.create(1, Some("file"), 0o100644).unwrap().ino, 700);
}

#[test]
fn an_inode_in_use() {
    let mut fs = FuseFS::new(None, 1024, 1024, 1024).unwrap();
    assert_eq!(fs.allocate_inode(), Some(2));
    fs.use_inode(3);
    assert_eq!(fs.allocate_inode(), Some(4));
    assert!(fs.getattr(3).is_ok());
    fs.free_inode(3);
    assert_eq!(fs.getattr(3), Err(Errno::ENOENT));
    let mut attr = InodeAttributes::default();
    attr.uid = 9;
    fs.set_inode_attr(2, attr);
    assert_eq!(fs.getattr(2).unwrap().uid, 9);
}

#[test]
fn blocks_for_a_size() {
    let mut fs = FuseFS::new(None, 1024, 1024, 1024).unwrap();
    assert_eq!(fs.allocate_blocks(0), Some(vec![]));
    assert_eq!(fs.allocate_blocks(1), Some(vec![(0, 1)]));
    assert_eq!(fs.allocate_blocks(1023), Some(vec![(1, 1)]));
    assert_eq!(fs.allocate_blocks(1024), Some(vec![(2, 1)]));
    assert_eq!(fs.allocate_blocks(1025), Some(vec![(3, 2)]));
    assert_eq!(fs.allocate_blocks(1019 * 1024 + 1), None);
    assert_eq!(fs.allocate_blocks(1018 * 1024), Some(vec![(5, 1018)]));
    // One block is left, and one block of bytes fits it.
    assert_eq!(fs.allocate_blocks(1024), Some(vec![(1023, 1)]));
    assert_eq!(fs.allocate_blocks(1), None);
    assert_eq!(fs.allocate_blocks(usize::MAX), None);
}

fn copy_of(saved: &MetaSerializable) -> MetaSerializable {
    MetaSerializable {
        superblock: saved.superblock,
        inode_bitmap: saved.inode_bitmap.clone(),
        data_bitmap: saved.data_bitmap.clone(),
        inode_table: saved.inode_table.clone(),
    }
}

#[test]
fn what_was_saved_is_loaded() {
    let mut m = Mounted::new(1024);
    let file = m.create(1, Some("file"), 0o100644).unwrap();
    let data = pattern(2500, 3);
    m.write(file.ino, &data, 0).unwrap();
    let saved = m.fs.saved_meta();
    // The sizes that are given are those of a new file system.
    let loaded = FuseFS::new(Some(&saved), 4096, 5, 5).unwrap();
    let again = loaded.saved_meta();
    assert_eq!(again.superblock, saved.superblock);
    assert_eq!(again.inode_bitmap, saved.inode_bitmap);
    assert_eq!(again.data_bitmap, saved.data_bitmap);
    assert_eq!(again.inode_table.len(), saved.inode_table.len());
    let mut m = Mounted { fs: loaded, store: m.store };
    // The root directory that was loaded stays.
    assert!(m.fs.is_valid());
    assert_eq!(m.fs.init(), None);
    assert_eq!(m.read(file.ino, 0, 2500), Ok(data));
    assert_eq!(m.lookup(1, "file").unwrap().size, 2500);
    assert_eq!(m.entries(1).unwrap().len(), 2);
}

#[test]
fn metadata_that_does_not_hold_together() {
    let good = Mounted::new(1024).fs.saved_meta();
    assert!(good.is_loadable());
    assert!(FuseFS::new(Some(&good), 0, 0, 0).unwrap().is_valid());

    // A bit beyond the end of the bitmap.
    let mut bad = copy_of(&good);
    bad.inode_bitmap.push(true);
    assert!(!bad.is_loadable());
    assert!(FuseFS::new(Some(&bad), 0, 0, 0).is_none());

    // A table that is shorter than the bitmap.
    let mut bad = copy_of(&good);
    bad.inode_table.clear();
    let loaded = FuseFS::new(Some(&bad), 0, 0, 0).unwrap();
    assert!(!loaded.is_valid());
    assert!(loaded.saved_meta().inode_table.is_empty());
    assert_eq!(loaded.saved_meta().inode_bitmap, good.inode_bitmap);

    // A file that is larger than its blocks.
    let mut bad = copy_of(&good);
    bad.inode_table[5].size = 1;
    assert!(!FuseFS::new(Some(&bad), 0, 0, 0).unwrap().is_valid());

    // Blocks without a size.
    let mut bad = copy_of(&good);
    bad.superblock.block_size = 0;
    assert!(!FuseFS::new(Some(&bad), 0, 0, 0).unwrap().is_valid());

    // Bits that are not there are free.
    let mut short = copy_of(&good);
    short.data_bitmap.truncate(10);
    let loaded = FuseFS::new(Some(&short), 0, 0, 0).unwrap();
    assert_eq!(loaded.saved_meta().data_bitmap, good.data_bitmap);
}

#[test]
fn metadata_in_both_forms() {
    let mut meta = Meta::new(1024, 2048, 1024);
    meta.inode_bitmap.set(1500, true);
    meta.data_bitmap.set(7, true);
    assert!(meta.is_valid());
    let saved = meta.to_meta_serializable();
    assert_eq!(saved.inode_bitmap.len(), 2048);
    assert!(saved.inode_bitmap[1500]);
    assert_eq!(saved.data_bitmap.iter().filter(|b| **b).count(), 1);
    let again = saved.to_meta();
    assert_eq!(again.inode_bitmap.get(1500), Some(true));
    assert_eq!(again.data_bitmap.get(7), Some(true));
    assert_eq!(again.data_bitmap.get(8), Some(false));
    assert_eq!(again.inode_table.len(), 2048);
    assert_eq!(Meta::new(1024, 1500, 1023).to_meta_serializable().inode_bitmap.len(), 1024);
    assert!(!Meta::new(0, 1024, 1024).is_valid());
}

#[test]
fn blocks_belong_to_one_file_and_entries_to_their_place() {
    let mut m = Mounted::new(1024);
    let mut files = Vec::new();
    for i in 0..6 {
        let mode = if i % 3 == 2 { 0o040755 } else { 0o100644 };
        files.push(m.create(1, Some(&format!("f{i}")), mode).unwrap());
    }
    for round in 0..40usize {
        let file = files[(round * 5) % files.len()];
        if file.kind == FileKind::File {
            let size = m.attr(file.ino).size;
            let at = size / (1 + round as u64 % 3);
            m.write(file.ino, &pattern(300 + round * 90, round), at).unwrap();
        } else {
            m.create(file.ino, Some(&format!("inner{round}")), 0o100600).unwrap();
        }
    }
    let saved = m.fs.saved_meta();
    let mut owned = vec![false; 1024];
    for (i, attr) in saved.inode_table.iter().enumerate() {
        assert!(attr.inode == i as u64 || attr.inode == 0);
        for ex in &attr.extent_index {
            for b in ex.0..ex.0 + ex.1 {
                assert!(saved.data_bitmap[b as usize]);
                assert!(!owned[b as usize], "block {b} belongs to two files");
                owned[b as usize] = true;
            }
        }
    }
    assert_eq!(owned, saved.data_bitmap);
}

#[test]
fn times_are_recorded_as_given() {
    let mut fs = FuseFS::new(None, 1024, 1024, 1024).unwrap();
    let entries = fs.init_as_of((1, 1), (2, 2), (3, 3)).unwrap();
    assert_eq!(fs.init_as_of((0, 0), (0, 0), (0, 0)), None);
    let root = fs.getattr(1).unwrap();
    assert_eq!((root.atime, root.mtime, root.ctime), ((1, 1), (2, 2), (3, 3)));
    let request = CreateRequest {
        parent: 1,
        name: Some("file".to_string()),
        mode: 0o100644,
        uid: 0,
        gid: 0,
    };
    let step = fs.create_as_of(
        &request,
        &Ok(entries),
        ((4, 0), (5, 0)),
        ((6, 0), (7, 0), (8, 0)),
    );
    assert!(matches!(step, CreateStep::ReadParent(_)));
    let root = fs.getattr(1).unwrap();
    assert_eq!((root.atime, root.mtime, root.ctime), ((1, 1), (4, 0), (5, 0)));
    let file = fs.getattr(2).unwrap();
    assert_eq!((file.atime, file.mtime, file.ctime), ((6, 0), (7, 0), (8, 0)));
    let w = fs.write_file_as_of(2, &Vec::new(), 0, (7, 1), (8, 1));
    assert_eq!((w.result, w.slices), (Ok(0), vec![]));
    assert_eq!(fs.getattr(2), Ok(file));
    let w = fs.write_file_as_of(2, &Vec::new(), 1, (7, 1), (8, 1));
    assert_eq!(w.result, Err(Errno::EINVAL));
    let w = fs.write_file_as_of(99, &Vec::new(), 0, (7, 1), (8, 1));
    assert_eq!(w.result, Err(Errno::ENOENT));
    let w = fs.write_file_as_of(2, &vec![1, 2, 3], 0, (9, 0), (10, 0));
    assert_eq!(w.result, Ok(3));
    assert_eq!(w.slices, vec![WriteSlice { start: 0, data: vec![1, 2, 3] }]);
    let file = fs.getattr(2).unwrap();
    assert_eq!((file.atime, file.mtime, file.ctime), ((6, 0), (9, 0), (10, 0)));
    // Where there is room, the times change all the same.
    fs.write_file_as_of(2, &vec![4], 1, (11, 0), (12, 0));
    let file = fs.getattr(2).unwrap();
    assert_eq!((file.size, file.atime, file.mtime, file.ctime), (3, (6, 0), (11, 0), (12, 0)));
    // A write of nothing leaves them.
    let w = fs.write_file_as_of(2, &Vec::new(), 3, (0, 0), (0, 0));
    assert_eq!((w.result, w.slices), (Ok(0), vec![]));
    assert_eq!(fs.getattr(2), Ok(file));
    // A write that is refused leaves them.
    fs.write_file_as_of(2, &vec![4], 9, (0, 0), (0, 0));
    assert_eq!(fs.getattr(2), Ok(file));
    assert_eq!(
        fs.read_file_as_of(2, 1, 2, (13, 0)),
        Ok(vec![ReadSlice { start: 1, len: 2 }])
    );
    assert_eq!(fs.getattr(2).unwrap().atime, (13, 0));
    assert_eq!(fs.read_file_as_of(2, 1, 3, (14, 0)), Err(Errno::EINVAL));
    assert_eq!(fs.getattr(2).unwrap().atime, (13, 0));
    match fs.write_directory(1, &Vec::new()) {
        DirectoryStep::Write(slices, w) => {
            assert_eq!(slices, vec![]);
            let step = fs.resume_write_directory_as_of(w, Ok(()), (15, 0), (16, 0));
            assert!(matches!(step, DirectoryStep::Done(Ok(()))));
        }
        DirectoryStep::Done(_) => panic!("nothing to resume"),
    }
    let found = fs.finish_read_directory_as_of(1, Some(DirectoryEntries::new()), (17, 0));
    assert_eq!(found, Ok(DirectoryEntries::new()));
    let root = fs.getattr(1).unwrap();
    assert_eq!((root.atime, root.mtime, root.ctime), ((17, 0), (15, 0), (16, 0)));
}

#[test]
fn a_mode_of_another_file_type() {
    let socket = 0o140644;
    let mut m = Mounted::new(1024);
    m.create(1, Some("file"), 0o100644).unwrap();
    let request = |parent: u64, name: &str| CreateRequest {
        parent,
        name: Some(name.to_string()),
        mode: socket,
        uid: 0,
        gid: 0,
    };
    let entries = m.entries(1);
    // A name that is taken is refused, whatever the mode is.
    assert!(m.fs.can_create(&request(1, "file"), &entries));
    assert_eq!(m.create(1, Some("file"), socket), Err(Errno::EEXIST));
    // So is a directory that is not there.
    assert!(m.fs.can_create(&request(500, "new"), &Err(Errno::ENOENT)));
    assert_eq!(m.create(500, Some("new"), socket), Err(Errno::ENOENT));
    // Else there is no answer.
    assert!(!m.fs.can_create(&request(1, "new"), &entries));
    let next = m.fs.first_free_inode().unwrap();
    assert!(!m.fs.can_create(&request(next, "new"), &Err(Errno::ENOENT)));
    // Without an inode there is one again.
    while m.fs.allocate_inode().is_some() {}
    assert!(m.fs.can_create(&request(1, "new"), &entries));
    assert_eq!(m.create(1, Some("new"), socket), Err(Errno::ENOSPC));
}

#[test]
fn inodes_of_later_chunks() {
    let mut fs = FuseFS::new(None, 1024, 2048, 1024).unwrap();
    let mut last = 0;
    while let Some(i) = fs.allocate_inode() {
        last = i;
    }
    assert_eq!(last, 2047);
    fs.free_inode(1024);
    fs.free_inode(1025);
    assert_eq!(fs.allocate_inode(), Some(1024));
    assert_eq!(fs.allocate_inode(), Some(1025));
    assert_eq!(fs.allocate_inode(), None);
}
