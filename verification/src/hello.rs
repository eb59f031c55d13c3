//! A file system that holds one file, and can only be read.

use crate::directory::Entry;
use crate::errno::Errno;
use crate::inode::FileAttr;
use crate::mode::FileKind;
use crate::requests;
use crate::requests::ListedEntry;
use vstd::prelude::*;

verus! {

/// The inode of the root directory.
pub const ROOT: u64 = 1;

/// The inode of the file.
pub const HELLO: u64 = 2;

/// The number of bytes in the file.
pub const HELLO_SIZE: u64 = 13;

/// What is in the file.
pub open spec fn hello_bytes() -> Seq<u8> {
    Seq::new("Hello World!\n"@.len(), |i: int| "Hello World!\n"@[i] as u8)
}

/// What is told of an inode.
pub open spec fn attributes(ino: u64, size: u64) -> FileAttr {
    FileAttr {
        ino,
        size,
        blocks: 1,
        atime: (0, 0),
        mtime: (0, 0),
        ctime: (0, 0),
        crtime: (0, 0),
        kind: if ino == ROOT {
            FileKind::Directory
        } else {
            FileKind::File
        },
        perm: if ino == ROOT {
            0o755
        } else {
            0o644
        },
        nlink: 1,
        uid: 1000,
        gid: 1000,
        rdev: 0,
        blksize: 512,
        flags: 0,
    }
}

/// The entries of the root directory.
pub open spec fn root_entries() -> Seq<Entry> {
    seq![
        Entry { name: "."@, inode: ROOT, kind: FileKind::Directory },
        Entry { name: "hello.txt"@, inode: HELLO, kind: FileKind::File },
    ]
}

/// What is told of an inode.
pub fn attr(ino: u64, size: u64) -> (told: FileAttr)
    ensures
        told == attributes(ino, size),
{
    FileAttr {
        ino,
        size,
        blocks: 1,
        atime: (0, 0),
        mtime: (0, 0),
        ctime: (0, 0),
        crtime: (0, 0),
        kind: if ino == ROOT {
            FileKind::Directory
        } else {
            FileKind::File
        },
        perm: if ino == ROOT {
            0o755
        } else {
            0o644
        },
        nlink: 1,
        uid: 1000,
        gid: 1000,
        rdev: 0,
        blksize: 512,
        flags: 0,
    }
}

/// What is known of what a name stands for: `None` is a name that is not text.
pub fn lookup(name: &Option<String>) -> (told: Result<FileAttr, Errno>)
    ensures
        told == (if requests::name_view(*name) == Some("hello.txt"@) {
            Ok(attributes(HELLO, HELLO_SIZE))
        } else {
            Err(Errno::ENOENT)
        }),
{
    match name {
        Some(n) if *n == "hello.txt".to_owned() => Ok(attr(HELLO, HELLO_SIZE)),
        _ => Err(Errno::ENOENT),
    }
}

/// What is known of an inode.
pub fn getattr(ino: u64) -> (told: Result<FileAttr, Errno>)
    ensures
        told == (if ino == ROOT {
            Ok(attributes(ROOT, 0))
        } else if ino == HELLO {
            Ok(attributes(HELLO, HELLO_SIZE))
        } else {
            Err(Errno::ENOENT)
        }),
{
    if ino == ROOT {
        Ok(attr(ROOT, 0))
    } else if ino == HELLO {
        Ok(attr(HELLO, HELLO_SIZE))
    } else {
        Err(Errno::ENOENT)
    }
}

/// What is listed of the root directory from an offset on.
pub fn readdir(offset: u64) -> (listed: Vec<ListedEntry>)
    ensures
        requests::is_listing(root_entries(), offset, listed@),
{
    let mut listed: Vec<ListedEntry> = Vec::new();
    if offset == 0 {
        listed.push(
            ListedEntry {
                inode: ROOT,
                offset: 1,
                kind: FileKind::Directory,
                name: ".".to_owned(),
            },
        );
    }
    if offset <= 1 {
        listed.push(
            ListedEntry {
                inode: HELLO,
                offset: 2,
                kind: FileKind::File,
                name: "hello.txt".to_owned(),
            },
        );
    }
    listed
}

/// What an inode holds from an offset on.
pub fn read(ino: u64, offset: u64) -> (data: Result<Vec<u8>, Errno>)
    ensures
        match data {
            Ok(bytes) => ino == HELLO && bytes@ == (if offset < hello_bytes().len() {
                hello_bytes().skip(offset as int)
            } else {
                Seq::empty()
            }),
            Err(e) => ino != HELLO && e == Errno::ENOENT,
        },
{
    if ino == HELLO {
        let bytes: &[u8] = "Hello World!\n".as_bytes();
        let len: usize = bytes.len();
        proof {
            reveal_strlit("Hello World!\n");
            vstd::string::is_ascii_spec_bytes("Hello World!\n");
            assert(bytes@ =~= hello_bytes());
        }
        if offset < len as u64 {
            let rest = vstd::slice::slice_subrange(bytes, offset as usize, len);
            assert(rest@ =~= hello_bytes().skip(offset as int));
            Ok(vstd::slice::slice_to_vec(rest))
        } else {
            Ok(Vec::new())
        }
    } else {
        Err(Errno::ENOENT)
    }
}

/// The size that is told of the file is the number of bytes that are read of it.
pub proof fn lemma_hello_size()
    ensures
        hello_bytes().len() == HELLO_SIZE,
{
    reveal_strlit("Hello World!\n");
}

/// What is told of the root and of the file, item by item.
pub proof fn lemma_attributes_told(ino: u64, told: Result<FileAttr, Errno>)
    requires
        call_ensures(getattr, (ino,), told),
    ensures
        told is Ok <==> ino == 1 || ino == 2,
        told is Err ==> told->Err_0 == Errno::ENOENT,
        told matches Ok(t) ==> {
            &&& t.ino == ino
            &&& ino == 1 ==> t.size == 0 && t.kind == FileKind::Directory && t.perm == 0o755
            &&& ino == 2 ==> t.size == hello_bytes().len() && t.kind == FileKind::File && t.perm
                == 0o644
            &&& t.blocks == 1
            &&& t.nlink == 1
            &&& t.uid == 1000
            &&& t.gid == 1000
            &&& t.blksize == 512
            &&& t.rdev == 0
            &&& t.flags == 0
            &&& t.atime == (0i64, 0u32)
            &&& t.mtime == (0i64, 0u32)
            &&& t.ctime == (0i64, 0u32)
            &&& t.crtime == (0i64, 0u32)
        },
{
    lemma_hello_size();
}

/// The name of the file leads to it, and no other name to anything.
pub proof fn lemma_name_told(
    name: Option<String>,
    told: Result<FileAttr, Errno>,
    file: Result<FileAttr, Errno>,
)
    requires
        call_ensures(lookup, (&name,), told),
        call_ensures(getattr, (2,), file),
    ensures
        name is Some && name->0@ == "hello.txt"@ ==> told == file,
        !(name is Some && name->0@ == "hello.txt"@) ==> told is Err && told->Err_0
            == Errno::ENOENT,
{
}

/// The directory lists itself and the file, each once, with the offset to go on from.
pub proof fn lemma_listed(offset: u64, listed: Vec<ListedEntry>)
    requires
        call_ensures(readdir, (offset,), listed),
    ensures
        offset == 0 ==> listed@.len() == 2 && listed@[0].inode == 1 && listed@[0].offset == 1
            && listed@[0].kind == FileKind::Directory && listed@[0].name@ == "."@,
        offset <= 1 ==> listed@.len() > 0 && listed@.last().inode == 2 && listed@.last().offset
            == 2 && listed@.last().kind == FileKind::File && listed@.last().name@
            == "hello.txt"@,
        offset == 1 ==> listed@.len() == 1,
        offset >= 2 ==> listed@.len() == 0,
{
    if offset <= 1 {
        let last = listed@[listed@.len() - 1];
        assert(last.inode == root_entries()[offset + (listed@.len() - 1)].inode);
    }
}

/// What is read of the file is what is left of it behind the offset.
pub proof fn lemma_read(
    offset: u64,
    whole: Result<Vec<u8>, Errno>,
    part: Result<Vec<u8>, Errno>,
)
    requires
        call_ensures(read, (2, 0), whole),
        call_ensures(read, (2, offset), part),
    ensures
        whole is Ok,
        part is Ok,
        whole->Ok_0@.len() == 13,
        whole->Ok_0@ == seq![72u8, 101, 108, 108, 111, 32, 87, 111, 114, 108, 100, 33, 10],
        offset < 13 ==> part->Ok_0@ == whole->Ok_0@.skip(offset as int),
        offset >= 13 ==> part->Ok_0@.len() == 0,
{
    reveal_strlit("Hello World!\n");
    assert(whole->Ok_0@ =~= seq![72u8, 101, 108, 108, 111, 32, 87, 111, 114, 108, 100, 33, 10]);
    if offset < 13 {
        assert(part->Ok_0@ =~= whole->Ok_0@.skip(offset as int));
    }
}

} // verus!
