//! What whoever looks up names, creates files and keeps directories can count on, call by call.

use crate::allocator;
use crate::consistency;
use crate::directory;
use crate::directory::DirectoryEntries;
use crate::directory::Entry;
use crate::directory_io;
use crate::directory_io::DirectoryStep;
use crate::directory_io::DirectoryWrite;
use crate::errno::Errno;
use crate::extent;
use crate::extent::ReadSlice;
use crate::fs::FileWrite;
use crate::fs::FuseFS;
use crate::inode;
use crate::inode::FileAttr;
use crate::inode::InodeAttributes;
use crate::meta::Metadata;
use crate::mode;
use crate::mode::FileKind;
use crate::promises;
use crate::requests;
use crate::requests::create_own_written;
use crate::requests::create_parent_read;
use crate::requests::create_parent_written;
use crate::requests::new_directory_entries;
use crate::requests::new_file_attributes;
use crate::requests::new_root_attributes;
use crate::requests::readdir;
use crate::requests::CreateRequest;
use crate::requests::CreateStep;
use crate::requests::Created;
use crate::requests::ListedEntry;
use crate::time;
use vstd::prelude::*;

verus! {

/// The name stands for an inode in use: it is looked up as that inode, whatever is recorded of
/// it. A name that no entry has, or whose inode is not in use, is not found.
pub proof fn lemma_name_leads(
    m: Metadata,
    found: DirectoryEntries,
    name: Seq<char>,
    i: int,
)
    requires
        found.wf(),
    ensures
        0 <= i < found@.len() && found@[i].name == name && found@[i].inode < m.inodes.len()
            && m.inodes[found@[i].inode as int] ==> requests::lookup_result(
            m,
            Ok(found),
            Some(name),
        ) == Ok::<u64, Errno>(found@[i].inode),
        0 <= i < found@.len() && found@[i].name == name && !(found@[i].inode < m.inodes.len()
            && m.inodes[found@[i].inode as int]) ==> requests::lookup_result(
            m,
            Ok(found),
            Some(name),
        ) == Err::<u64, Errno>(Errno::ENOENT),
        (forall|j: int| 0 <= j < found@.len() ==> (#[trigger] found@[j]).name != name)
            ==> requests::lookup_result(m, Ok(found), Some(name)) == Err::<u64, Errno>(
            Errno::ENOENT,
        ),
        requests::lookup_result(m, Ok(found), None) == Err::<u64, Errno>(Errno::EINVAL),
        forall|e: Errno, n: Option<Seq<char>>| #[trigger]
            requests::lookup_result(m, Err(e), n) == Err::<u64, Errno>(e),
{
    directory::lemma_entry_for(found@, name, i);
}

/// A lookup tells of the inode that the name stands for, in full, where that is in use.
pub proof fn lemma_lookup(
    fs: FuseFS,
    found: DirectoryEntries,
    name: String,
    i: int,
    told: Result<FileAttr, Errno>,
    attr: Result<InodeAttributes, Errno>,
)
    requires
        fs.wf(),
        found.wf(),
        0 <= i < found@.len(),
        found@[i].name == name@,
        call_ensures(FuseFS::lookup, (&fs, &Ok(found), &Some(name)), told),
        call_ensures(FuseFS::lookup_name, (&fs, &Ok(found), &Some(name)), attr),
    ensures
        promises::in_use(fs, found@[i].inode) <==> told is Ok,
        promises::in_use(fs, found@[i].inode) <==> attr is Ok,
        told is Err ==> told->Err_0 == Errno::ENOENT && attr->Err_0 == Errno::ENOENT,
        told is Ok ==> {
            let recorded = fs@.table[found@[i].inode as int];
            &&& told->Ok_0.ino == recorded.inode
            &&& told->Ok_0.size == recorded.size
            &&& told->Ok_0.kind == recorded.kind
            &&& told->Ok_0.perm == recorded.mode
            &&& told->Ok_0.uid == recorded.uid
            &&& told->Ok_0.gid == recorded.gid
            &&& told->Ok_0.nlink == recorded.hardlinks
            &&& told->Ok_0.atime == recorded.last_accessed
            &&& told->Ok_0.mtime == recorded.last_modified
            &&& told->Ok_0.ctime == recorded.last_metadata_changed
            &&& attr->Ok_0@ == recorded
            &&& attr->Ok_0.size == recorded.size
            &&& attr->Ok_0.extent_index@ == recorded.extents
        },
{
    lemma_name_leads(fs@, found, name@, i);
}

/// A lookup of a name that no entry has finds nothing; one of what is no text is refused; and
/// where the directory could not be read, that is the answer.
pub proof fn lemma_lookup_fails(
    fs: FuseFS,
    entries: Result<DirectoryEntries, Errno>,
    name: Option<String>,
    told: Result<FileAttr, Errno>,
)
    requires
        fs.wf(),
        entries is Ok ==> entries->Ok_0.wf(),
        call_ensures(FuseFS::lookup, (&fs, &entries, &name), told),
    ensures
        entries is Err ==> told == Err::<FileAttr, Errno>(entries->Err_0),
        entries is Ok && name is None ==> told == Err::<FileAttr, Errno>(Errno::EINVAL),
        entries is Ok && name is Some && (forall|j: int|
            0 <= j < entries->Ok_0@.len() ==> (#[trigger] entries->Ok_0@[j]).name
                != name->0@) ==> told == Err::<FileAttr, Errno>(Errno::ENOENT),
{
    if entries is Ok && name is Some {
        lemma_name_leads(fs@, entries->Ok_0, name->0@, 0);
    }
}

/// A write to a file leaves what every name leads to as it was.
pub proof fn lemma_write_keeps_names(
    before: FuseFS,
    after: FuseFS,
    inode: u64,
    data: &Vec<u8>,
    offset: u64,
    w: FileWrite,
    entries: Result<DirectoryEntries, Errno>,
    name: Option<Seq<char>>,
)
    requires
        before.wf(),
        offset + data@.len() <= u64::MAX,
        exists|fs: &mut FuseFS| #[trigger]
            call_ensures(FuseFS::write_file, (fs, inode, data, offset), w) && *fs == before
                && *final(fs) == after,
    ensures
        requests::lookup_result(after@, entries, name) == requests::lookup_result(
            before@,
            entries,
            name,
        ),
{
    promises::lemma_write(before, after, inode, data, offset, w);
}

/// The attributes of a new file: it is empty, of whoever asks, of the kind and with the
/// permissions asked for, and in the group of whoever asks unless the directory hands down its
/// own.
pub proof fn lemma_new_file(
    inode: u64,
    request: &CreateRequest,
    parent: &InodeAttributes,
    accessed: (i64, u32),
    modified: (i64, u32),
    changed: (i64, u32),
    attr: InodeAttributes,
)
    requires
        call_ensures(
            new_file_attributes,
            (inode, request, parent, accessed, modified, changed),
            attr,
        ),
        mode::kind_of_mode(request.mode) is Some,
    ensures
        attr.inode == inode,
        attr.open_file_handles == 1,
        attr.size == 0,
        attr.last_accessed == accessed,
        attr.last_modified == modified,
        attr.last_metadata_changed == changed,
        attr.kind == FileKind::File <==> request.mode & 0o170000 == 0o100000,
        attr.kind == FileKind::Symlink <==> request.mode & 0o170000 == 0o120000,
        attr.kind == FileKind::Directory <==> request.mode & 0o170000 == 0o040000,
        attr.mode == (request.mode & 0o171777) as u16,
        attr.hardlinks == 1,
        attr.uid == request.uid,
        parent.mode & 0o2000 == 0 ==> attr.gid == request.gid,
        parent.mode & 0o2000 != 0 ==> attr.gid == parent.gid,
        attr.extent_index@.len() == 0,
{
    let mode = request.mode;
    mode::lemma_kinds(mode);
    assert((mode & !(0o4000u32 | 0o2000u32)) as u16 == (mode & 0o171777u32) as u16)
        by (bit_vector);
}

/// The attributes of the root directory when it is made.
pub proof fn lemma_new_root(
    accessed: (i64, u32),
    modified: (i64, u32),
    changed: (i64, u32),
    attr: InodeAttributes,
)
    requires
        call_ensures(new_root_attributes, (accessed, modified, changed), attr),
    ensures
        attr.inode == 1,
        attr.open_file_handles == 0,
        attr.size == 0,
        attr.last_accessed == accessed,
        attr.last_modified == modified,
        attr.last_metadata_changed == changed,
        attr.kind == FileKind::Directory,
        attr.mode == 0o777,
        attr.hardlinks == 2,
        attr.uid == 0,
        attr.gid == 0,
        attr.extent_index@.len() == 0,
{
}

/// The root directory is made where there is none, with itself for its only entry, and left
/// alone where there is one.
pub proof fn lemma_init(before: FuseFS, after: FuseFS, entries: Option<DirectoryEntries>)
    requires
        before.wf(),
        before@.inodes.len() > 1,
        exists|fs: &mut FuseFS| #[trigger]
            call_ensures(FuseFS::init, (fs,), entries) && *fs == before && *final(fs) == after,
    ensures
        before@.inodes[1] <==> entries is None,
        before@.inodes[1] ==> after@ == before@,
        after@.superblock == before@.superblock,
        after@.blocks == before@.blocks,
        after@.table.len() == before@.table.len(),
        forall|j: int|
            0 <= j < before@.table.len() && j != 1 ==> #[trigger] after@.table[j]
                == before@.table[j],
        !before@.inodes[1] ==> {
            let root = after@.table[1];
            &&& after@.inodes == before@.inodes.update(1, true)
            &&& root.inode == 1
            &&& root.size == 0
            &&& root.extents.len() == 0
            &&& root.kind == FileKind::Directory
            &&& root.mode == 0o777
            &&& root.hardlinks == 2
            &&& root.open_file_handles == 0
            &&& root.uid == 0
            &&& root.gid == 0
            &&& time::is_clock_time(root.last_accessed)
            &&& time::is_clock_time(root.last_modified)
            &&& time::is_clock_time(root.last_metadata_changed)
            &&& entries->0@.len() == 1
            &&& entries->0@[0].name == "."@
            &&& entries->0@[0].inode == 1
            &&& entries->0@[0].kind == FileKind::Directory
        },
{
}

/// A creation is refused where the name leads to an inode in use, and then for want of a free
/// inode; neither changes anything.
pub proof fn lemma_create_refused(
    before: FuseFS,
    after: FuseFS,
    request: &CreateRequest,
    looked_up: &Result<DirectoryEntries, Errno>,
    step: CreateStep,
)
    requires
        before.wf(),
        *looked_up is Ok ==> (*looked_up)->Ok_0.wf(),
        exists|fs: &mut FuseFS| #[trigger]
            call_ensures(FuseFS::create, (fs, request, looked_up), step) && *fs == before
                && *final(fs) == after,
    ensures
        step == CreateStep::Reply(Err(Errno::EEXIST)) <==> (*looked_up is Ok && request.name is Some
            && exists|i: int|
            0 <= i < (*looked_up)->Ok_0@.len() && (#[trigger] (*looked_up)->Ok_0@[i]).name
                == request.name->0@ && promises::in_use(before, (*looked_up)->Ok_0@[i].inode)),
        step == CreateStep::Reply(Err(Errno::EEXIST)) ==> after@ == before@,
        step == CreateStep::Reply(Err(Errno::ENOSPC)) ==> after@ == before@,
        step == CreateStep::Reply(Err(Errno::ENOSPC)) <==> step != CreateStep::Reply(
            Err(Errno::EEXIST),
        ) && forall|j: int| 2 <= j < before@.inodes.len() ==> #[trigger] before@.inodes[j],
{
    let bits = before@.inodes;
    assert(requests::create_started(before@, after@, *request, *looked_up, step));
    if *looked_up is Ok && request.name is Some {
        let found = (*looked_up)->Ok_0;
        let name = request.name->0@;
        if exists|i: int|
            0 <= i < found@.len() && (#[trigger] found@[i]).name == name && promises::in_use(
                before,
                found@[i].inode,
            ) {
            let i = choose|i: int|
                0 <= i < found@.len() && (#[trigger] found@[i]).name == name
                    && promises::in_use(before, found@[i].inode);
            lemma_name_leads(before@, found, name, i);
        } else if requests::lookup_result(before@, Ok(found), Some(name)) is Ok {
            let i = choose|i: int| 0 <= i < found@.len() && (#[trigger] found@[i]).name == name;
            lemma_name_leads(before@, found, name, i);
        }
    }
    if forall|j: int| !#[trigger] allocator::inode_available(bits, j) {
        assert forall|j: int| 2 <= j < bits.len() implies #[trigger] bits[j] by {
            assert(!allocator::inode_available(bits, j));
        }
    } else {
        let j = choose|j: int| #[trigger] allocator::inode_available(bits, j);
        assert(!bits[j]);
    }
}

/// A creation takes the first free inode. Where the parent is there, the inode becomes an empty
/// file of whoever asks, with the mode asked for, the parent has new times, and no other file
/// changes; what is told of the new file is what is recorded.
pub proof fn lemma_create(
    before: FuseFS,
    after: FuseFS,
    request: &CreateRequest,
    looked_up: &Result<DirectoryEntries, Errno>,
    step: CreateStep,
    inode: u64,
)
    requires
        before.wf(),
        *looked_up is Ok ==> (*looked_up)->Ok_0.wf(),
        exists|fs: &mut FuseFS| #[trigger]
            call_ensures(FuseFS::create, (fs, request, looked_up), step) && *fs == before
                && *final(fs) == after,
        step != CreateStep::Reply(Err(Errno::EEXIST)),
        2 <= inode < before@.inodes.len(),
        !before@.inodes[inode as int],
        forall|j: int| 2 <= j < inode ==> #[trigger] before@.inodes[j],
    ensures
        after@.superblock == before@.superblock,
        after@.blocks == before@.blocks,
        after@.inodes == before@.inodes.update(inode as int, true),
        after@.table.len() == before@.table.len(),
        forall|j: int|
            0 <= j < before@.table.len() && j != inode && j != request.parent
                ==> #[trigger] after@.table[j] == before@.table[j],
        !promises::in_use(before, request.parent) && request.parent != inode <==> step
            == CreateStep::Reply(Err(Errno::ENOENT)),
        step == CreateStep::Reply(Err(Errno::ENOENT)) ==> after@.table == before@.table,
        step != CreateStep::Reply(Err(Errno::ENOENT)) ==> ({
            let parent = before@.table[request.parent as int];
            let touched = after@.table[request.parent as int];
            let new = after@.table[inode as int];
            &&& new.inode == inode
            &&& new.open_file_handles == 1
            &&& new.size == 0
            &&& new.hardlinks == 1
            &&& new.uid == request.uid
            &&& parent.mode & 0o2000 == 0 ==> new.gid == request.gid
            &&& parent.mode & 0o2000 != 0 ==> new.gid == parent.gid
            &&& new.mode == (request.mode & 0o171777) as u16
            &&& new.extents.len() == 0
            &&& time::is_clock_time(new.last_accessed)
            &&& time::is_clock_time(new.last_modified)
            &&& time::is_clock_time(new.last_metadata_changed)
            &&& request.parent != inode ==> touched == (inode::Attributes {
                last_modified: touched.last_modified,
                last_metadata_changed: touched.last_metadata_changed,
                ..parent
            }) && time::is_clock_time(touched.last_modified) && time::is_clock_time(
                touched.last_metadata_changed,
            )
        }),
        step != CreateStep::Reply(Err(Errno::ENOENT)) ==> ({
            let new = after@.table[inode as int];
            &&& request.mode & 0o170000 == 0o100000 ==> new.kind == FileKind::File
            &&& request.mode & 0o170000 == 0o120000 ==> new.kind == FileKind::Symlink
            &&& request.mode & 0o170000 == 0o040000 ==> new.kind == FileKind::Directory
            &&& new.kind == FileKind::Directory ==> step is WriteOwn && told_of(
                step->WriteOwn_0,
                after@,
                inode,
            ) && holds_itself(step->WriteOwn_1, inode, request.parent)
            &&& new.kind != FileKind::Directory && request.name is Some ==> step is ReadParent
                && told_of(step->ReadParent_0, after@, inode)
            &&& new.kind != FileKind::Directory && request.name is None ==> step
                == CreateStep::Reply(Err(Errno::EINVAL))
        }),
{
    let bits = before@.inodes;
    let mode = request.mode;
    let parent = request.parent as int;
    assert(requests::create_started(before@, after@, *request, *looked_up, step));
    lemma_create_refused(before, after, request, looked_up, step);
    assert(allocator::inode_available(bits, inode as int));
    let taken = choose|i: u64| #[trigger]
        requests::first_available(bits, i) && requests::inode_created(
            before@,
            after@,
            *request,
            i,
            step,
        );
    assert(allocator::inode_available(bits, taken as int));
    assert(!bits[taken as int]);
    assert(taken == inode);
    assert((mode & !(0o4000u32 | 0o2000u32)) as u16 == (mode & 0o171777u32) as u16)
        by (bit_vector);
    mode::lemma_kinds(mode);
    if step != CreateStep::Reply(Err(Errno::ENOENT)) {
        assert(requests::created_under(before@, after@, *request, *looked_up, inode));
        inode::lemma_blocks_for(0, before@.superblock.block_size as int);
        if step is WriteOwn {
            lemma_own_entries(inode, request.parent, step->WriteOwn_1);
        }
    }
}

/// What a creation says of its inode is what is recorded of it.
pub open spec fn told_of(created: Created, m: Metadata, inode: u64) -> bool {
    let new = m.table[inode as int];
    &&& created.inode == inode
    &&& created.kind == new.kind
    &&& created.attr.ino == inode
    &&& created.attr.size == 0
    &&& created.attr.blocks == 0
    &&& created.attr.kind == new.kind
    &&& created.attr.perm == new.mode
    &&& created.attr.nlink == 1
    &&& created.attr.uid == new.uid
    &&& created.attr.gid == new.gid
    &&& created.attr.atime == new.last_accessed
    &&& created.attr.mtime == new.last_modified
    &&& created.attr.ctime == new.last_metadata_changed
    &&& created.attr.blksize == m.superblock.block_size
}

/// The entries are those of a new directory: itself as "." and its parent as "..", and no
/// others.
pub open spec fn holds_itself(entries: DirectoryEntries, inode: u64, parent: u64) -> bool {
    &&& entries.wf()
    &&& exists|i: int|
        0 <= i < entries@.len() && (#[trigger] entries@[i]) == (Entry {
            name: "."@,
            inode,
            kind: FileKind::Directory,
        })
    &&& exists|i: int|
        0 <= i < entries@.len() && (#[trigger] entries@[i]) == (Entry {
            name: ".."@,
            inode: parent,
            kind: FileKind::Directory,
        })
    &&& forall|i: int|
        0 <= i < entries@.len() ==> (#[trigger] entries@[i]).name == "."@ || entries@[i].name
            == ".."@
}

/// The entries that are written to a new directory are those of a new directory.
pub proof fn lemma_own_entries(inode: u64, parent: u64, entries: DirectoryEntries)
    requires
        call_ensures(new_directory_entries, (inode, parent), entries) || requests::own_entries(
            entries@,
            inode,
            parent,
        ),
    ensures
        holds_itself(entries, inode, parent),
{
    reveal_strlit(".");
    reveal_strlit("..");
    assert("."@.len() != ".."@.len());
    let list = entries@;
    assert(directory::entry_for(list, "."@) == Some((inode, FileKind::Directory)));
    assert(directory::entry_for(list, ".."@) == Some((parent, FileKind::Directory)));
    let i = choose|i: int| 0 <= i < list.len() && (#[trigger] list[i]).name == "."@;
    let j = choose|j: int| 0 <= j < list.len() && (#[trigger] list[j]).name == ".."@;
    directory::lemma_entry_at(list, i);
    directory::lemma_entry_at(list, j);
    assert(list[i] == Entry { name: "."@, inode, kind: FileKind::Directory });
    assert(list[j] == Entry { name: ".."@, inode: parent, kind: FileKind::Directory });
    assert forall|k: int| 0 <= k < list.len() implies (#[trigger] list[k]).name == "."@
        || list[k].name == ".."@ by {
        directory::lemma_entry_at(list, k);
        assert(directory::entry_for(list, list[k].name) is Some);
    }
}

/// A creation whose own entries were written goes on with the parent, where there is a name to
/// enter there; where they were not, it ends with what went wrong.
pub proof fn lemma_own_written(
    request: &CreateRequest,
    created: Created,
    outcome: Result<(), Errno>,
    step: CreateStep,
)
    requires
        call_ensures(create_own_written, (request, created, outcome), step),
    ensures
        outcome is Err ==> step == CreateStep::Reply(Err(outcome->Err_0)),
        outcome is Ok && request.name is Some ==> step == CreateStep::ReadParent(created),
        outcome is Ok && request.name is None ==> step == CreateStep::Reply(Err(Errno::EINVAL)),
{
}

/// A creation whose parent was read enters the name there, for what was created, and leaves
/// every other name; where the parent was not read, it ends with what went wrong.
pub proof fn lemma_parent_read(
    request: &CreateRequest,
    created: Created,
    entries: Result<DirectoryEntries, Errno>,
    step: CreateStep,
    name: Seq<char>,
)
    requires
        entries is Ok ==> entries->Ok_0.wf(),
        call_ensures(create_parent_read, (request, created, entries), step),
    ensures
        entries is Err ==> step == CreateStep::Reply(Err(entries->Err_0)),
        entries is Ok && request.name is None ==> step == CreateStep::Reply(Err(Errno::EINVAL)),
        entries is Ok && request.name is Some ==> {
            &&& step is WriteParent
            &&& step->WriteParent_0 == created
            &&& step->WriteParent_1.wf()
            &&& directory::entry_for(step->WriteParent_1@, request.name->0@) == Some(
                (created.inode, created.kind),
            )
            &&& name != request.name->0@ ==> directory::entry_for(step->WriteParent_1@, name)
                == directory::entry_for(entries->Ok_0@, name)
        },
{
    if entries is Ok && request.name is Some {
        let more = step->WriteParent_1@;
        assert(directory::entry_for(more, request.name->0@) == Some(
            (created.inode, created.kind),
        ));
        if name != request.name->0@ {
            assert(directory::entry_for(more, name) == directory::entry_for(
                entries->Ok_0@,
                name,
            ));
        }
    }
}

/// A creation whose parent was written ends with what it made, or with what went wrong.
pub proof fn lemma_parent_written(
    created: Created,
    outcome: Result<(), Errno>,
    step: CreateStep,
)
    requires
        call_ensures(create_parent_written, (created, outcome), step),
    ensures
        outcome is Ok ==> step == CreateStep::Reply(Ok(created.attr)),
        outcome is Err ==> step == CreateStep::Reply(Err(outcome->Err_0)),
{
}

/// What was created is found under its name, and its owner is whoever asked.
pub proof fn lemma_created_is_looked_up(
    before: FuseFS,
    after: FuseFS,
    request: &CreateRequest,
    looked_up: &Result<DirectoryEntries, Errno>,
    step: CreateStep,
    inode: u64,
    created: Created,
    found: DirectoryEntries,
    next: CreateStep,
    name: String,
    told: Result<FileAttr, Errno>,
)
    requires
        before.wf(),
        after.wf(),
        *looked_up is Ok ==> (*looked_up)->Ok_0.wf(),
        found.wf(),
        exists|fs: &mut FuseFS| #[trigger]
            call_ensures(FuseFS::create, (fs, request, looked_up), step) && *fs == before
                && *final(fs) == after,
        2 <= inode < before@.inodes.len(),
        !before@.inodes[inode as int],
        forall|j: int| 2 <= j < inode ==> #[trigger] before@.inodes[j],
        step == CreateStep::ReadParent(created) || (step is WriteOwn && step->WriteOwn_0
            == created),
        request.name is Some,
        name@ == request.name->0@,
        call_ensures(create_parent_read, (request, created, Ok(found)), next),
        call_ensures(FuseFS::lookup, (&after, &Ok(next->WriteParent_1), &Some(name)), told),
    ensures
        told is Ok,
        told->Ok_0.ino == inode,
        told->Ok_0.uid == request.uid,
        told->Ok_0.size == 0,
        told->Ok_0.nlink == 1,
        told->Ok_0.perm == (request.mode & 0o171777) as u16,
        created.attr.uid == request.uid,
        told->Ok_0 == created.attr,
{
    lemma_create(before, after, request, looked_up, step, inode);
    lemma_parent_read(request, created, Ok(found), next, name@);
    let more = next->WriteParent_1;
    let i = choose|i: int| 0 <= i < more@.len() && (#[trigger] more@[i]).name == name@;
    directory::lemma_entry_at(more@, i);
    lemma_name_leads(after@, more, name@, i);
    inode::lemma_blocks_for(0, after@.superblock.block_size as int);
}

/// A listing brings every entry from the offset on, in order, each with its name, its inode and
/// its kind, and with the offset to go on from.
pub proof fn lemma_listing(entries: DirectoryEntries, offset: u64, listed: Vec<ListedEntry>)
    requires
        call_ensures(readdir, (&entries, offset), listed),
    ensures
        offset <= entries@.len() ==> offset + listed@.len() == entries@.len(),
        offset > entries@.len() ==> listed@.len() == 0,
        forall|i: int|
            #![trigger listed@[i]]
            0 <= i < listed@.len() ==> listed@[i].inode == entries@[offset + i].inode
                && listed@[i].kind == entries@[offset + i].kind && listed@[i].name@
                == entries@[offset + i].name && listed@[i].offset == offset + i + 1,
{
}

/// The slices of a directory are all its blocks, in order; without such a directory there are
/// none.
pub proof fn lemma_directory_slices(
    fs: FuseFS,
    inode: u64,
    slices: Result<Vec<ReadSlice>, Errno>,
    store: Seq<u8>,
)
    requires
        fs.wf(),
        call_ensures(FuseFS::read_directory, (&fs, inode), slices),
    ensures
        !promises::in_use(fs, inode) <==> slices == Err::<Vec<ReadSlice>, Errno>(Errno::ENOENT),
        promises::in_use(fs, inode) && fs@.table[inode as int].kind != FileKind::Directory
            <==> slices == Err::<Vec<ReadSlice>, Errno>(Errno::ENOTDIR),
        promises::in_use(fs, inode) && fs@.table[inode as int].kind == FileKind::Directory
            <==> slices is Ok,
        slices is Ok ==> {
            let bytes = extent::file_bytes(
                fs@.table[inode as int].extents,
                fs@.superblock.block_size as int,
            );
            &&& extent::read_back(store, slices->Ok_0@).len() == bytes.len()
            &&& fs@.table[inode as int].size <= bytes.len()
            &&& forall|i: int|
                0 <= i < bytes.len() ==> #[trigger] extent::read_back(store, slices->Ok_0@)[i]
                    == store[bytes[i]]
        },
{
    if slices is Ok {
        let bs = fs@.superblock.block_size as int;
        assert(consistency::entry_valid(fs@.table[inode as int], bs));
        extent::lemma_file_bytes_len(fs@.table[inode as int].extents, bs);
    }
}

/// The contents of a directory are as many of its bytes as its size says.
pub proof fn lemma_directory_contents(
    fs: FuseFS,
    inode: u64,
    bytes: Vec<u8>,
    contents: Vec<u8>,
)
    requires
        call_ensures(FuseFS::directory_contents, (&fs, inode, bytes), contents),
        fs@.table[inode as int].size <= bytes@.len(),
    ensures
        contents@.len() == fs@.table[inode as int].size,
        forall|i: int| 0 <= i < contents@.len() ==> #[trigger] contents@[i] == bytes@[i],
{
}

/// A directory that was read is handed over as it is, and only its time of the last access
/// changes; contents that stand for no entries are refused, and change nothing.
pub proof fn lemma_directory_read(
    before: FuseFS,
    after: FuseFS,
    inode: u64,
    entries: Option<DirectoryEntries>,
    r: Result<DirectoryEntries, Errno>,
)
    requires
        before.wf(),
        promises::in_use(before, inode),
        exists|fs: &mut FuseFS| #[trigger]
            call_ensures(FuseFS::finish_read_directory, (fs, inode, entries), r) && *fs == before
                && *final(fs) == after,
    ensures
        entries is Some ==> r is Ok && r->Ok_0 == entries->0,
        entries is None ==> r is Err && r->Err_0 == Errno::EINVAL && after@ == before@,
        promises::only_file_changed(before, after, inode),
        after@.blocks == before@.blocks,
        after@.table[inode as int] == (inode::Attributes {
            last_accessed: after@.table[inode as int].last_accessed,
            ..before@.table[inode as int]
        }),
        entries is Some ==> time::is_clock_time(after@.table[inode as int].last_accessed),
{
}

/// A write of a directory puts as much as there is room for into the blocks that the directory
/// has, from the front, and keeps the rest.
pub proof fn lemma_directory_write(
    fs: FuseFS,
    inode: u64,
    bytes: &Vec<u8>,
    step: DirectoryStep,
)
    requires
        fs.wf(),
        call_ensures(FuseFS::write_directory, (&fs, inode, bytes), step),
    ensures
        !promises::in_use(fs, inode) <==> step == DirectoryStep::Done(Err(Errno::ENOENT)),
        promises::in_use(fs, inode) && fs@.table[inode as int].kind != FileKind::Directory
            <==> step == DirectoryStep::Done(Err(Errno::ENOTDIR)),
        promises::in_use(fs, inode) && fs@.table[inode as int].kind == FileKind::Directory
            <==> step is Write,
        step matches DirectoryStep::Write(slices, w) ==> {
            let all = extent::file_bytes(
                fs@.table[inode as int].extents,
                fs@.superblock.block_size as int,
            );
            let payload = extent::write_payload(slices@);
            &&& payload + w.rest@ == bytes@
            &&& payload.len() <= all.len()
            &&& w.rest@.len() == 0 || payload.len() == all.len()
            &&& extent::write_positions(slices@) == all.take(payload.len() as int)
            &&& w.inode == inode
            &&& w.full_size == bytes@.len()
            &&& w.new_extents@.len() == 0
        },
{
    if step is Write {
        let bs = fs@.superblock.block_size as int;
        let a = fs@.table[inode as int];
        let room = extent::capacity(a.extents, bs);
        let len = bytes@.len() as int;
        let placed = extent::placed_bytes(room, 0, len);
        assert(consistency::entry_valid(a, bs));
        extent::lemma_file_bytes_len(a.extents, bs);
        assert(bytes@.take(placed) + bytes@.skip(placed) =~= bytes@);
        assert(extent::file_bytes(a.extents, bs).subrange(0, placed) =~= extent::file_bytes(
            a.extents,
            bs,
        ).take(placed));
    }
}

/// How a write of a directory goes on: where the store failed it ends with that; with nothing
/// left the size and the new blocks are recorded, and nothing else changes; else the rest goes
/// into as many new blocks as it needs, or fails where there are not enough.
pub proof fn lemma_directory_write_goes_on(
    before: FuseFS,
    after: FuseFS,
    w: DirectoryWrite,
    outcome: Result<(), Errno>,
    step: DirectoryStep,
)
    requires
        before.wf(),
        promises::in_use(before, w.inode),
        exists|fs: &mut FuseFS| #[trigger]
            call_ensures(FuseFS::resume_write_directory, (fs, w, outcome), step) && *fs == before
                && *final(fs) == after,
    ensures
        outcome is Err ==> step == DirectoryStep::Done(Err(outcome->Err_0)) && after@ == before@,
        outcome is Ok && w.rest@.len() == 0 <==> step == DirectoryStep::Done(Ok(())),
        outcome is Ok && w.rest@.len() > allocator::free_count(before@.blocks)
            * before@.superblock.block_size ==> step == DirectoryStep::Done(Err(Errno::ENOSPC))
            && after@ == before@,
        outcome is Ok && 0 < w.rest@.len() <= allocator::free_count(before@.blocks)
            * before@.superblock.block_size <==> step is Write,
        after@.inodes == before@.inodes,
        after@.superblock == before@.superblock,
        after@.table.len() == before@.table.len(),
        forall|j: int|
            0 <= j < before@.table.len() && j != w.inode ==> #[trigger] after@.table[j]
                == before@.table[j],
        step == DirectoryStep::Done(Ok(())) ==> {
            let a = before@.table[w.inode as int];
            let b = after@.table[w.inode as int];
            &&& after@.blocks == before@.blocks
            &&& b.size == w.full_size
            &&& b.extents == a.extents + w.new_extents@
            &&& b.inode == a.inode
            &&& b.open_file_handles == a.open_file_handles
            &&& b.last_accessed == a.last_accessed
            &&& b.kind == a.kind
            &&& b.mode == a.mode
            &&& b.hardlinks == a.hardlinks
            &&& b.uid == a.uid
            &&& b.gid == a.gid
            &&& time::is_clock_time(b.last_modified)
            &&& time::is_clock_time(b.last_metadata_changed)
        },
        step matches DirectoryStep::Write(slices, next) ==> {
            let bs = before@.superblock.block_size;
            let blocks = extent::block_total(next.new_extents@);
            &&& after@.table == before@.table
            &&& extent::write_payload(slices@) == w.rest@
            &&& extent::write_positions(slices@) == extent::file_bytes(
                next.new_extents@,
                bs as int,
            ).take(w.rest@.len() as int)
            &&& next.inode == w.inode
            &&& next.full_size == w.full_size
            &&& next.rest@.len() == 0
            &&& w.rest@.len() <= blocks * bs
            &&& (blocks - 1) * bs < w.rest@.len()
            &&& allocator::free_count(after@.blocks) == allocator::free_count(before@.blocks)
                - blocks
        },
{
    let bs = before@.superblock.block_size as int;
    let rest = w.rest@.len() as int;
    let free = allocator::free_count(before@.blocks) as int;
    assert(directory_io::directory_write_resumed(before@, after@, w, outcome, step));
    inode::lemma_blocks_for(rest, bs);
    assert(free * bs >= rest <==> free >= inode::blocks_for(rest, bs));
    if step is Write {
        let next = step->Write_1;
        allocator::lemma_allocation_accounted(
            before@.blocks,
            inode::blocks_for(rest, bs),
            next.new_extents@,
        );
        extent::lemma_file_bytes_len(next.new_extents@, bs);
        assert(extent::file_bytes(next.new_extents@, bs).subrange(0, rest)
            =~= extent::file_bytes(next.new_extents@, bs).take(rest));
    }
}

/// A creation has an answer exactly where the mode stands for a kind of file that is supported,
/// or it is refused before: for the name leads to an inode in use, every inode is in use, or the
/// parent is not there, and not the inode that would be taken.
pub proof fn lemma_can_create(
    fs: FuseFS,
    request: &CreateRequest,
    looked_up: &Result<DirectoryEntries, Errno>,
    defined: bool,
    led: Result<InodeAttributes, Errno>,
    inode: Option<u64>,
)
    requires
        fs.wf(),
        *looked_up is Ok ==> (*looked_up)->Ok_0.wf(),
        call_ensures(FuseFS::can_create, (&fs, request, looked_up), defined),
        call_ensures(FuseFS::lookup_name, (&fs, looked_up, &request.name), led),
        inode matches Some(i) ==> 2 <= i < fs@.inodes.len() && !fs@.inodes[i as int] && forall|
            j: int,
        |
            2 <= j < i ==> #[trigger] fs@.inodes[j],
        inode is None ==> forall|j: int| 2 <= j < fs@.inodes.len() ==> #[trigger] fs@.inodes[j],
    ensures
        defined <==> {
            ||| request.mode & 0o170000 == 0o100000
            ||| request.mode & 0o170000 == 0o120000
            ||| request.mode & 0o170000 == 0o040000
            ||| led is Ok
            ||| inode is None
            ||| !promises::in_use(fs, request.parent) && Some(request.parent) != inode
        },
{
    let bits = fs@.inodes;
    mode::lemma_kinds(request.mode);
    if inode is Some {
        assert(allocator::inode_available(bits, inode->0 as int));
        assert(requests::first_available(bits, inode->0));
        if requests::first_available(bits, request.parent) {
            assert(allocator::inode_available(bits, request.parent as int));
            assert(!bits[request.parent as int]);
            assert(request.parent == inode->0);
        }
    } else {
        assert forall|j: int| !#[trigger] allocator::inode_available(bits, j) by {}
    }
}

} // verus!
