//! The requests that the file system answers.

use crate::allocator;
use crate::consistency;
use crate::directory;
use crate::directory::DirectoryEntries;
use crate::directory::Entry;
use crate::errno::Errno;
use crate::fs::FuseFS;
use crate::fs::ROOT_INODE;
use crate::inode;
use crate::inode::inode_attr_to_file_attr;
use crate::inode::Attributes;
use crate::inode::FileAttr;
use crate::inode::InodeAttributes;
use crate::inode::Time;
use crate::meta::Metadata;
use crate::mode;
use crate::mode::FileKind;
use crate::time;
use crate::time::time_now;
use vstd::prelude::*;

verus! {

/// What to create.
#[derive(Debug)]
pub struct CreateRequest {
    /// The directory to create it in.
    pub parent: u64,
    /// Its name: `None` where that is not text.
    pub name: Option<String>,
    pub mode: u32,
    /// Who asks.
    pub uid: u32,
    pub gid: u32,
}

/// An inode that was created, but has no name yet.
#[derive(Clone, Copy, Debug, PartialEq, Eq)]
pub struct Created {
    pub inode: u64,
    pub kind: FileKind,
    pub attr: FileAttr,
}

/// What a creation comes to next.
#[derive(Debug)]
pub enum CreateStep {
    /// Write the entries to the directory that was created, and go on with the outcome.
    WriteOwn(Created, DirectoryEntries),
    /// Read the parent directory, and go on with its entries.
    ReadParent(Created),
    /// Write the entries to the parent directory, and go on with the outcome.
    WriteParent(Created, DirectoryEntries),
    /// Answer the request.
    Reply(Result<FileAttr, Errno>),
}

/// An entry of a directory as it is listed.
#[derive(Debug, PartialEq, Eq)]
pub struct ListedEntry {
    pub inode: u64,
    /// The offset at which the listing goes on behind this entry.
    pub offset: u64,
    pub kind: FileKind,
    pub name: String,
}

/// The root directory when it is made.
pub open spec fn root_attributes(accessed: Time, modified: Time, changed: Time) -> Attributes {
    Attributes {
        inode: ROOT_INODE,
        open_file_handles: 0,
        size: 0,
        last_accessed: accessed,
        last_modified: modified,
        last_metadata_changed: changed,
        kind: FileKind::Directory,
        mode: 0o777,
        hardlinks: 2,
        uid: 0,
        gid: 0,
        extents: Seq::empty(),
    }
}

/// How the root directory is made: where there is one already, nothing is done. Else its
/// entries are still to be written to it.
pub open spec fn root_made(
    before: Metadata,
    after: Metadata,
    entries: Option<DirectoryEntries>,
    accessed: Time,
    modified: Time,
    changed: Time,
) -> bool {
    if consistency::inode_exists(before, ROOT_INODE as int) {
        entries is None && after == before
    } else {
        &&& after == consistency::with_entry(
            Metadata { inodes: before.inodes.update(ROOT_INODE as int, true), ..before },
            ROOT_INODE as int,
            root_attributes(accessed, modified, changed),
        )
        &&& entries is Some
        &&& entries->0.wf()
        &&& entries->0@ == seq![
            Entry { name: "."@, inode: ROOT_INODE, kind: FileKind::Directory },
        ]
    }
}

/// A file when it is created.
pub open spec fn created_attributes(
    inode: u64,
    request: CreateRequest,
    parent: Attributes,
    accessed: Time,
    modified: Time,
    changed: Time,
) -> Attributes {
    Attributes {
        inode,
        open_file_handles: 1,
        size: 0,
        last_accessed: accessed,
        last_modified: modified,
        last_metadata_changed: changed,
        kind: mode::kind_of_mode(request.mode)->0,
        mode: mode::mode_on_creation(request.mode),
        hardlinks: 1,
        uid: request.uid,
        gid: mode::gid_on_creation(parent.mode, parent.gid, request.gid),
        extents: Seq::empty(),
    }
}

/// The view of a name, if there is one.
pub open spec fn name_view(name: Option<String>) -> Option<Seq<char>> {
    match name {
        Some(n) => Some(n@),
        None => None,
    }
}

/// What a name in a directory leads to: the inode, or why there is none.
pub open spec fn lookup_result(
    m: Metadata,
    entries: Result<DirectoryEntries, Errno>,
    name: Option<Seq<char>>,
) -> Result<u64, Errno> {
    match entries {
        Err(e) => Err(e),
        Ok(found) => match name {
            None => Err(Errno::EINVAL),
            Some(n) => match directory::entry_for(found@, n) {
                Some((inode, _)) => if consistency::inode_exists(m, inode as int) {
                    Ok(inode)
                } else {
                    Err(Errno::ENOENT)
                },
                None => Err(Errno::ENOENT),
            },
        },
    }
}

/// The entries are sorted, if there are any.
pub open spec fn entries_wf(entries: Result<DirectoryEntries, Errno>) -> bool {
    entries matches Ok(found) ==> found.wf()
}

/// The answer to a question about an inode.
pub open spec fn attr_reply(m: Metadata, inode: u64) -> Result<FileAttr, Errno> {
    if consistency::inode_exists(m, inode as int) {
        Ok(inode::file_attr_of(m.table[inode as int], m.superblock.block_size))
    } else {
        Err(Errno::ENOENT)
    }
}

/// The first inode that is available.
pub open spec fn first_available(bits: Seq<bool>, inode: u64) -> bool {
    &&& allocator::inode_available(bits, inode as int)
    &&& forall|j: int| 0 <= j < inode ==> !#[trigger] allocator::inode_available(bits, j)
}

/// The entries of a new directory: itself, and the one that it is in.
pub open spec fn own_entries(entries: Seq<Entry>, inode: u64, parent: u64) -> bool {
    &&& directory::is_sorted(entries)
    &&& forall|n: Seq<char>|
        #[trigger] directory::entry_for(entries, n) == (if n == "."@ {
            Some((inode, FileKind::Directory))
        } else if n == ".."@ {
            Some((parent, FileKind::Directory))
        } else {
            None
        })
}

/// What follows when an inode was created and, if it is a directory, has its entries: the
/// parent is read, or, without a name to enter there, the creation fails.
pub open spec fn naming_step(request: CreateRequest, created: Created) -> CreateStep {
    match request.name {
        Some(_) => CreateStep::ReadParent(created),
        None => CreateStep::Reply(Err(Errno::EINVAL)),
    }
}

/// The entries with the name for what was created among them.
pub open spec fn name_entered(
    found: Seq<Entry>,
    more: Seq<Entry>,
    name: Seq<char>,
    created: Created,
) -> bool {
    &&& directory::is_sorted(more)
    &&& forall|n: Seq<char>|
        #[trigger] directory::entry_for(more, n) == (if n == name {
            Some((created.inode, created.kind))
        } else {
            directory::entry_for(found, n)
        })
}

/// How a creation starts with an inode that was free.
///
/// - Without the parent the creation fails; the inode stays in use.
/// - Else the times of the parent change, and the inode gets its attributes. A directory is
///   given its entries next; other files are entered in the parent.
pub open spec fn inode_created(
    before: Metadata,
    after: Metadata,
    request: CreateRequest,
    inode: u64,
    step: CreateStep,
) -> bool {
    let parent = request.parent as int;
    let mid = Metadata { inodes: before.inodes.update(inode as int, true), ..before };
    let touched = Attributes {
        last_modified: after.table[parent].last_modified,
        last_metadata_changed: after.table[parent].last_metadata_changed,
        ..mid.table[parent]
    };
    let attr = created_attributes(
        inode,
        request,
        mid.table[parent],
        after.table[inode as int].last_accessed,
        after.table[inode as int].last_modified,
        after.table[inode as int].last_metadata_changed,
    );
    let created = Created {
        inode,
        kind: attr.kind,
        attr: inode::file_attr_of(attr, before.superblock.block_size),
    };
    if !consistency::inode_exists(mid, parent) {
        step == CreateStep::Reply(Err(Errno::ENOENT)) && after == mid
    } else {
        &&& after == consistency::with_entry(
            consistency::with_entry(mid, parent, touched),
            inode as int,
            attr,
        )
        &&& if attr.kind == FileKind::Directory {
            step matches CreateStep::WriteOwn(c, entries) && c == created && own_entries(
                entries@,
                inode,
                request.parent,
            )
        } else {
            step == naming_step(request, created)
        }
    }
}

/// How a creation starts, once the parent directory was read.
///
/// - Where the name leads to an inode already, the creation fails.
/// - Where no inode is available, the creation fails.
/// - Else the first inode that is available is taken.
pub open spec fn create_started(
    before: Metadata,
    after: Metadata,
    request: CreateRequest,
    looked_up: Result<DirectoryEntries, Errno>,
    step: CreateStep,
) -> bool {
    if lookup_result(before, looked_up, name_view(request.name)) is Ok {
        step == CreateStep::Reply(Err(Errno::EEXIST)) && after == before
    } else if forall|j: int| !#[trigger] allocator::inode_available(before.inodes, j) {
        step == CreateStep::Reply(Err(Errno::ENOSPC)) && after == before
    } else {
        exists|inode: u64| #[trigger]
            first_available(before.inodes, inode) && inode_created(
                before,
                after,
                request,
                inode,
                step,
            )
    }
}

/// A creation has an answer: its mode stands for a kind of file that is supported, or it is
/// refused before that is asked, for the name is taken, no inode is available, or the parent
/// is not there.
pub open spec fn creation_defined(
    m: Metadata,
    request: CreateRequest,
    looked_up: Result<DirectoryEntries, Errno>,
) -> bool {
    ||| mode::kind_of_mode(request.mode) is Some
    ||| lookup_result(m, looked_up, name_view(request.name)) is Ok
    ||| forall|j: int| !#[trigger] allocator::inode_available(m.inodes, j)
    ||| !consistency::inode_exists(m, request.parent as int) && !first_available(
        m.inodes,
        request.parent,
    )
}

/// A creation took the inode, and the parent was there to create it in.
pub open spec fn created_under(
    before: Metadata,
    after: Metadata,
    request: CreateRequest,
    looked_up: Result<DirectoryEntries, Errno>,
    inode: u64,
) -> bool {
    &&& lookup_result(before, looked_up, name_view(request.name)) is Err
    &&& first_available(before.inodes, inode)
    &&& consistency::inode_exists(after, request.parent as int)
}

/// The listing of a directory from an offset on: every entry, in order, with the offset
/// behind it.
pub open spec fn is_listing(entries: Seq<Entry>, offset: u64, listed: Seq<ListedEntry>) -> bool {
    &&& listed.len() == (if offset <= entries.len() {
        entries.len() - offset
    } else {
        0
    })
    &&& forall|i: int|
        0 <= i < listed.len() ==> {
            let e = entries[offset + i];
            &&& (#[trigger] listed[i]).inode == e.inode
            &&& listed[i].kind == e.kind
            &&& listed[i].name@ == e.name
            &&& listed[i].offset == offset + i + 1
        }
}

/// The attributes of the root directory when it is made.
pub fn new_root_attributes(accessed: Time, modified: Time, changed: Time) -> (
    attr: InodeAttributes)
    ensures
        attr@ == root_attributes(accessed, modified, changed),
{
    let attr = InodeAttributes {
        inode: ROOT_INODE,
        open_file_handles: 0,
        size: 0,
        last_accessed: accessed,
        last_modified: modified,
        last_metadata_changed: changed,
        kind: FileKind::Directory,
        mode: 0o777,
        hardlinks: 2,
        uid: 0,
        gid: 0,
        extent_index: Vec::new(),
    };
    assert(attr@ =~= root_attributes(accessed, modified, changed));
    attr
}

/// The attributes of a file when it is created.
pub fn new_file_attributes(
    inode: u64,
    request: &CreateRequest,
    parent: &InodeAttributes,
    accessed: Time,
    modified: Time,
    changed: Time,
) -> (attr: InodeAttributes)
    requires
        mode::kind_of_mode(request.mode) is Some,
    ensures
        attr@ == created_attributes(inode, *request, parent@, accessed, modified, changed),
{
    let attr = InodeAttributes {
        inode,
        open_file_handles: 1,
        size: 0,
        last_accessed: accessed,
        last_modified: modified,
        last_metadata_changed: changed,
        kind: mode::as_file_kind(request.mode),
        mode: mode::creation_mode(request.mode),
        hardlinks: 1,
        uid: request.uid,
        gid: mode::creation_gid(parent.mode, parent.gid, request.gid),
        extent_index: Vec::new(),
    };
    assert(attr@ =~= created_attributes(inode, *request, parent@, accessed, modified, changed));
    attr
}

/// What is listed of a directory from an offset on.
pub fn readdir(entries: &DirectoryEntries, offset: u64) -> (listed: Vec<ListedEntry>)
    ensures
        is_listing(entries@, offset, listed@),
{
    let mut listed: Vec<ListedEntry> = Vec::new();
    let len: usize = entries.len();
    if offset >= len as u64 {
        return listed;
    }
    let start: usize = offset as usize;
    let mut i: usize = start;
    while i < len
        invariant
            start == offset,
            len == entries@.len(),
            start <= i <= len,
            listed@.len() == i - start,
            forall|k: int|
                0 <= k < listed@.len() ==> {
                    let e = entries@[offset + k];
                    &&& (#[trigger] listed@[k]).inode == e.inode
                    &&& listed@[k].kind == e.kind
                    &&& listed@[k].name@ == e.name
                    &&& listed@[k].offset == offset + k + 1
                },
        decreases len - i,
    {
        let e = entries.entry(i);
        listed.push(
            ListedEntry {
                inode: e.inode,
                offset: i as u64 + 1,
                kind: e.kind,
                name: e.name.clone(),
            },
        );
        i += 1;
    }
    listed
}

impl FuseFS {
    /// Makes the root directory where there is none yet, and returns the entries to be written
    /// to it: itself.
    pub fn init(&mut self) -> (entries: Option<DirectoryEntries>)
        requires
            old(self).wf(),
            old(self)@.inodes.len() > ROOT_INODE,
        ensures
            ({
                let root = final(self)@.table[ROOT_INODE as int];
                &&& root_made(
                    old(self)@,
                    final(self)@,
                    entries,
                    root.last_accessed,
                    root.last_modified,
                    root.last_metadata_changed,
                )
                &&& entries is Some ==> time::is_clock_time(root.last_accessed)
                    && time::is_clock_time(root.last_modified) && time::is_clock_time(
                    root.last_metadata_changed,
                )
            }),
            final(self).wf(),
            consistency::sound(old(self)@) ==> consistency::sound(final(self)@),
    {
        self.init_as_of(time_now(), time_now(), time_now())
    }

    /// Makes the root directory where there is none yet, with the times given.
    pub fn init_as_of(&mut self, accessed: Time, modified: Time, changed: Time) -> (
        entries: Option<DirectoryEntries>)
        requires
            old(self).wf(),
            old(self)@.inodes.len() > ROOT_INODE,
        ensures
            root_made(old(self)@, final(self)@, entries, accessed, modified, changed),
            final(self).wf(),
            consistency::sound(old(self)@) ==> consistency::sound(final(self)@),
    {
        if self.get_inode_attr(ROOT_INODE).is_ok() {
            return None;
        }
        self.use_inode(ROOT_INODE);
        let attr = new_root_attributes(accessed, modified, changed);
        proof {
            let bs = self@.superblock.block_size as int;
            assert(0 * bs == 0) by (nonlinear_arith);
            if consistency::sound(self@) {
                consistency::lemma_entry_keeps_sound(self@, ROOT_INODE as int, attr@);
            }
        }
        self.set_inode_attr(ROOT_INODE, attr);
        let mut entries = DirectoryEntries::new();
        let ghost empty = entries@;
        entries.insert(".".to_owned(), ROOT_INODE, FileKind::Directory);
        proof {
            let expected = seq![
                Entry { name: "."@, inode: ROOT_INODE, kind: FileKind::Directory },
            ];
            directory::lemma_single_entry(expected[0]);
            assert forall|n: Seq<char>| #[trigger] directory::entry_for(entries@, n)
                == directory::entry_for(expected, n) by {
                assert(directory::entry_for(empty, n) is None);
            }
            directory::lemma_sorted_entries_determined(entries@, expected);
        }
        Some(entries)
    }

    /// What is known of an inode.
    pub fn getattr(&self, inode: u64) -> (attr: Result<FileAttr, Errno>)
        requires
            self.wf(),
        ensures
            attr == attr_reply(self@, inode),
            attr is Ok <==> inode < self@.inodes.len() && self@.inodes[inode as int],
            attr matches Ok(told) ==> ({
                let recorded = self@.table[inode as int];
                &&& told.ino == recorded.inode
                &&& told.size == recorded.size
                &&& told.atime == recorded.last_accessed
                &&& told.mtime == recorded.last_modified
                &&& told.ctime == recorded.last_metadata_changed
                &&& told.crtime == (0i64, 0u32)
                &&& told.kind == recorded.kind
                &&& told.perm == recorded.mode
                &&& told.nlink == recorded.hardlinks
                &&& told.uid == recorded.uid
                &&& told.gid == recorded.gid
                &&& told.rdev == 0
                &&& told.blksize == self@.superblock.block_size
                &&& told.flags == 0
            }),
    {
        match self.get_inode_attr(inode) {
            Ok(a) => Ok(inode_attr_to_file_attr(&a, self.superblock().block_size)),
            Err(e) => Err(e),
        }
    }

    /// Changes nothing about an inode, and tells what is known of it.
    pub fn setattr(&self, inode: u64) -> (attr: Result<FileAttr, Errno>)
        requires
            self.wf(),
        ensures
            attr == attr_reply(self@, inode),
            attr is Ok <==> inode < self@.inodes.len() && self@.inodes[inode as int],
            attr matches Ok(told) ==> ({
                let recorded = self@.table[inode as int];
                &&& told.ino == recorded.inode
                &&& told.size == recorded.size
                &&& told.atime == recorded.last_accessed
                &&& told.mtime == recorded.last_modified
                &&& told.ctime == recorded.last_metadata_changed
                &&& told.crtime == (0i64, 0u32)
                &&& told.kind == recorded.kind
                &&& told.perm == recorded.mode
                &&& told.nlink == recorded.hardlinks
                &&& told.uid == recorded.uid
                &&& told.gid == recorded.gid
                &&& told.rdev == 0
                &&& told.blksize == self@.superblock.block_size
                &&& told.flags == 0
            }),
    {
        self.getattr(inode)
    }

    /// The attributes of what a name stands for in a directory whose entries were read.
    pub fn lookup_name(
        &self,
        entries: &Result<DirectoryEntries, Errno>,
        name: &Option<String>,
    ) -> (attr: Result<InodeAttributes, Errno>)
        requires
            self.wf(),
            entries_wf(*entries),
        ensures
            match lookup_result(self@, *entries, name_view(*name)) {
                Ok(inode) => attr matches Ok(a) && a@ == self@.table[inode as int],
                Err(e) => attr == Result::<InodeAttributes, Errno>::Err(e),
            },
    {
        match entries {
            Err(e) => Err(*e),
            Ok(found) => match name {
                None => Err(Errno::EINVAL),
                Some(n) => match found.get(n.as_str()) {
                    Some((inode, _)) => self.get_inode_attr(inode),
                    None => Err(Errno::ENOENT),
                },
            },
        }
    }

    /// What is known of what a name stands for in a directory whose entries were read.
    pub fn lookup(
        &self,
        entries: &Result<DirectoryEntries, Errno>,
        name: &Option<String>,
    ) -> (attr: Result<FileAttr, Errno>)
        requires
            self.wf(),
            entries_wf(*entries),
        ensures
            attr == (match lookup_result(self@, *entries, name_view(*name)) {
                Ok(inode) => attr_reply(self@, inode),
                Err(e) => Err(e),
            }),
    {
        match self.lookup_name(entries, name) {
            Ok(a) => Ok(inode_attr_to_file_attr(&a, self.superblock().block_size)),
            Err(e) => Err(e),
        }
    }
}

/// The entries of a new directory.
pub fn new_directory_entries(inode: u64, parent: u64) -> (entries: DirectoryEntries)
    ensures
        own_entries(entries@, inode, parent),
{
    let mut entries = DirectoryEntries::new();
    let ghost empty = entries@;
    entries.insert(".".to_owned(), inode, FileKind::Directory);
    let ghost one = entries@;
    entries.insert("..".to_owned(), parent, FileKind::Directory);
    proof {
        reveal_strlit(".");
        reveal_strlit("..");
        assert("."@.len() != ".."@.len());
        assert forall|n: Seq<char>| #[trigger] directory::entry_for(entries@, n) == (if n
            == "."@ {
            Some((inode, FileKind::Directory))
        } else if n == ".."@ {
            Some((parent, FileKind::Directory))
        } else {
            None
        }) by {
            assert(directory::entry_for(one, n) == (if n == "."@ {
                Some((inode, FileKind::Directory))
            } else {
                directory::entry_for(empty, n)
            }));
            assert(directory::entry_for(empty, n) is None);
        }
    }
    entries
}

/// The attributes of a directory after its entries changed.
pub fn attributes_touched(attr: InodeAttributes, modified: Time, changed: Time) -> (
    touched: InodeAttributes)
    ensures
        touched@ == (Attributes {
            last_modified: modified,
            last_metadata_changed: changed,
            ..attr@
        }),
{
    InodeAttributes { last_modified: modified, last_metadata_changed: changed, ..attr }
}

/// What follows when an inode was created and, if it is a directory, has its entries.
fn next_naming_step(request: &CreateRequest, created: Created) -> (step: CreateStep)
    ensures
        step == naming_step(*request, created),
{
    match request.name {
        Some(_) => CreateStep::ReadParent(created),
        None => CreateStep::Reply(Err(Errno::EINVAL)),
    }
}

/// Goes on with a creation, after the entries of the new directory were written.
pub fn create_own_written(
    request: &CreateRequest,
    created: Created,
    outcome: Result<(), Errno>,
) -> (step: CreateStep)
    ensures
        step == (match outcome {
            Ok(_) => naming_step(*request, created),
            Err(e) => CreateStep::Reply(Err(e)),
        }),
{
    match outcome {
        Ok(_) => next_naming_step(request, created),
        Err(e) => CreateStep::Reply(Err(e)),
    }
}

/// Goes on with a creation, after the parent directory was read: the name is entered there.
pub fn create_parent_read(
    request: &CreateRequest,
    created: Created,
    entries: Result<DirectoryEntries, Errno>,
) -> (step: CreateStep)
    requires
        entries_wf(entries),
    ensures
        match entries {
            Err(e) => step == CreateStep::Reply(Err(e)),
            Ok(found) => match name_view(request.name) {
                None => step == CreateStep::Reply(Err(Errno::EINVAL)),
                Some(name) => {
                    &&& step matches CreateStep::WriteParent(c, more)
                    &&& c == created
                    &&& more.wf()
                    &&& name_entered(found@, more@, name, created)
                },
            },
        },
{
    match entries {
        Err(e) => CreateStep::Reply(Err(e)),
        Ok(found) => match &request.name {
            None => CreateStep::Reply(Err(Errno::EINVAL)),
            Some(name) => {
                let mut more = found;
                more.insert(name.clone(), created.inode, created.kind);
                CreateStep::WriteParent(created, more)
            },
        },
    }
}

/// Ends a creation, after the parent directory was written.
pub fn create_parent_written(created: Created, outcome: Result<(), Errno>) -> (step: CreateStep)
    ensures
        step == (match outcome {
            Ok(_) => CreateStep::Reply(Ok(created.attr)),
            Err(e) => CreateStep::Reply(Err(e)),
        }),
{
    match outcome {
        Ok(_) => CreateStep::Reply(Ok(created.attr)),
        Err(e) => CreateStep::Reply(Err(e)),
    }
}

impl FuseFS {
    /// Whether a creation has an answer, once the parent directory was read.
    pub fn can_create(
        &self,
        request: &CreateRequest,
        looked_up: &Result<DirectoryEntries, Errno>,
    ) -> (defined: bool)
        requires
            self.wf(),
            entries_wf(*looked_up),
        ensures
            defined == creation_defined(self@, *request, *looked_up),
    {
        if mode::is_supported(request.mode) || self.lookup_name(
            looked_up,
            &request.name,
        ).is_ok() {
            return true;
        }
        match self.first_free_inode() {
            None => true,
            Some(inode) => {
                assert(allocator::inode_available(self@.inodes, inode as int));
                assert(first_available(self@.inodes, request.parent) <==> request.parent
                    == inode);
                request.parent != inode && self.get_inode_attr(request.parent).is_err()
            },
        }
    }

    /// Starts to create a file or a directory, once the parent directory was read.
    pub fn create(
        &mut self,
        request: &CreateRequest,
        looked_up: &Result<DirectoryEntries, Errno>,
    ) -> (step: CreateStep)
        requires
            old(self).wf(),
            entries_wf(*looked_up),
            creation_defined(old(self)@, *request, *looked_up),
        ensures
            create_started(old(self)@, final(self)@, *request, *looked_up, step),
            forall|inode: u64| #[trigger]
                created_under(old(self)@, final(self)@, *request, *looked_up, inode) ==> ({
                    let new = final(self)@.table[inode as int];
                    let parent = final(self)@.table[request.parent as int];
                    &&& time::is_clock_time(new.last_accessed)
                    &&& time::is_clock_time(new.last_modified)
                    &&& time::is_clock_time(new.last_metadata_changed)
                    &&& time::is_clock_time(parent.last_modified)
                    &&& time::is_clock_time(parent.last_metadata_changed)
                }),
            final(self).wf(),
            consistency::sound(old(self)@) ==> consistency::sound(final(self)@),
    {
        self.create_as_of(
            request,
            looked_up,
            (time_now(), time_now()),
            (time_now(), time_now(), time_now()),
        )
    }

    /// Starts to create a file or a directory, once the parent directory was read. The parent
    /// was modified, and its metadata changed, at the times `touched`; `made` are the times of
    /// the last access to what is created, of its modification and of its metadata's change.
    pub fn create_as_of(
        &mut self,
        request: &CreateRequest,
        looked_up: &Result<DirectoryEntries, Errno>,
        touched: (Time, Time),
        made: (Time, Time, Time),
    ) -> (step: CreateStep)
        requires
            old(self).wf(),
            entries_wf(*looked_up),
            creation_defined(old(self)@, *request, *looked_up),
        ensures
            create_started(old(self)@, final(self)@, *request, *looked_up, step),
            forall|inode: u64| #[trigger]
                created_under(old(self)@, final(self)@, *request, *looked_up, inode) ==> ({
                    let new = final(self)@.table[inode as int];
                    let parent = final(self)@.table[request.parent as int];
                    &&& (new.last_accessed, new.last_modified, new.last_metadata_changed) == made
                    &&& request.parent != inode ==> (
                        parent.last_modified,
                        parent.last_metadata_changed,
                    ) == touched
                }),
            final(self).wf(),
            consistency::sound(old(self)@) ==> consistency::sound(final(self)@),
    {
        let ghost before = self@;
        let ghost bs = before.superblock.block_size as int;
        if self.lookup_name(looked_up, &request.name).is_ok() {
            return CreateStep::Reply(Err(Errno::EEXIST));
        }
        // Allocate next free inode.
        let inode: u64 = match self.allocate_inode() {
            Some(idx) => idx,
            None => return CreateStep::Reply(Err(Errno::ENOSPC)),
        };
        let ghost mid = self@;
        assert(first_available(before.inodes, inode));
        // Update parent inode attributes.
        let parent_attr = match self.get_inode_attr(request.parent) {
            Ok(attr) => attr,
            Err(e) => {
                assert(inode_created(before, self@, *request, inode, CreateStep::Reply(Err(e))));
                return CreateStep::Reply(Err(e));
            },
        };
        assert(mode::kind_of_mode(request.mode) is Some) by {
            if request.parent != inode {
                assert(consistency::inode_exists(before, request.parent as int));
            }
        }
        // Create new inode attributes.
        let attr = new_file_attributes(
            inode,
            request,
            &parent_attr,
            made.0,
            made.1,
            made.2,
        );
        let parent_touched = attributes_touched(parent_attr, touched.0, touched.1);
        let ghost touched_view = parent_touched@;
        let ghost attr_view = attr@;
        proof {
            assert(consistency::entry_valid(mid.table[request.parent as int], bs));
            assert(0 * bs == 0) by (nonlinear_arith);
            if consistency::sound(mid) {
                consistency::lemma_entry_keeps_sound(mid, request.parent as int, touched_view);
                consistency::lemma_entry_keeps_sound(
                    consistency::with_entry(mid, request.parent as int, touched_view),
                    inode as int,
                    attr@,
                );
            }
        }
        self.set_inode_attr(request.parent, parent_touched);
        let told = inode_attr_to_file_attr(&attr, self.superblock().block_size);
        let created = Created { inode, kind: attr.kind, attr: told };
        // Add new inode to inode table.
        self.set_inode_attr(inode, attr);
        let step = if created.kind == FileKind::Directory {
            CreateStep::WriteOwn(created, new_directory_entries(inode, request.parent))
        } else {
            next_naming_step(request, created)
        };
        proof {
            let parent = request.parent as int;
            let seen = Attributes {
                last_modified: self@.table[parent].last_modified,
                last_metadata_changed: self@.table[parent].last_metadata_changed,
                ..mid.table[parent]
            };
            if request.parent != inode {
                assert(self@.table[parent] == touched_view);
            }
            assert(self@.table =~= consistency::with_entry(
                consistency::with_entry(mid, parent, seen),
                inode as int,
                attr_view,
            ).table);
            assert(inode_created(before, self@, *request, inode, step));
        }
        step
    }
}

} // verus!
