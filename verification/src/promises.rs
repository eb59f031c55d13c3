//! What whoever calls the file system can count on, call by call.
//!
//! Each promise speaks of calls, of what went into them and what came out, and of the metadata
//! before and after.

use crate::allocator;
use crate::consistency;
use crate::errno::Errno;
use crate::extent;
use crate::extent::Extent;
use crate::extent::ReadSlice;
use crate::fs;
use crate::fs::FileWrite;
use crate::fs::FuseFS;
use crate::inode;
use crate::inode::FileAttr;
use crate::inode::InodeAttributes;
use crate::laws;
use crate::meta;
use crate::meta::MetaSerializable;
use crate::time;
use vstd::prelude::*;

verus! {

/// The inode is in use: its bit is set.
pub open spec fn in_use(fs: FuseFS, inode: u64) -> bool {
    inode < fs@.inodes.len() && fs@.inodes[inode as int]
}

/// Everything about the files but this one is the same.
pub open spec fn only_file_changed(before: FuseFS, after: FuseFS, inode: u64) -> bool {
    &&& after@.superblock == before@.superblock
    &&& after@.inodes == before@.inodes
    &&& after@.table.len() == before@.table.len()
    &&& forall|j: int|
        0 <= j < before@.table.len() && j != inode ==> #[trigger] after@.table[j]
            == before@.table[j]
}

/// What an inode in use means.
proof fn lemma_in_use(fs: FuseFS, inode: u64)
    requires
        fs.wf(),
    ensures
        in_use(fs, inode) <==> consistency::inode_exists(fs@, inode as int),
        in_use(fs, inode) ==> inode < fs@.table.len(),
{
}

/// A write fails without such a file, beyond its end, and where blocks are lacking for what the
/// file has no room for; else it writes all the data. A file that is written to grows to cover
/// the data, never shrinks, and stays what it is otherwise; no other file changes. A write that
/// fails changes nothing.
pub proof fn lemma_write(
    before: FuseFS,
    after: FuseFS,
    inode: u64,
    data: &Vec<u8>,
    offset: u64,
    w: FileWrite,
)
    requires
        before.wf(),
        offset + data@.len() <= u64::MAX,
        exists|fs: &mut FuseFS| #[trigger]
            call_ensures(FuseFS::write_file, (fs, inode, data, offset), w) && *fs
                == before && *final(fs) == after,
    ensures
        !in_use(before, inode) <==> w.result == Err::<u64, Errno>(Errno::ENOENT),
        in_use(before, inode) && offset > before@.table[inode as int].size <==> w.result == Err::<
            u64,
            Errno,
        >(Errno::EINVAL),
        in_use(before, inode) && offset <= before@.table[inode as int].size ==> (w.result is Ok
            <==> data@.len() == 0 || offset + data@.len() <= (extent::block_total(
            before@.table[inode as int].extents,
        ) + allocator::free_count(before@.blocks)) * before@.superblock.block_size),
        w.result is Err ==> after@ == before@ && (w.result == Err::<u64, Errno>(Errno::ENOENT)
            || w.result == Err::<u64, Errno>(Errno::EINVAL) || w.result == Err::<u64, Errno>(
            Errno::ENOSPC,
        )),
        data@.len() == 0 ==> after@ == before@,
        w.result is Ok ==> w.result == Ok::<u64, Errno>(data@.len() as u64),
        only_file_changed(before, after, inode),
        w.result is Ok ==> {
            let a = before@.table[inode as int];
            let b = after@.table[inode as int];
            &&& b.size >= a.size
            &&& b.size >= offset + data@.len()
            &&& b.size == a.size || b.size == offset + data@.len()
            &&& b.size <= extent::block_total(b.extents) * before@.superblock.block_size
            &&& b.inode == a.inode
            &&& b.open_file_handles == a.open_file_handles
            &&& b.last_accessed == a.last_accessed
            &&& b.kind == a.kind
            &&& b.mode == a.mode
            &&& b.hardlinks == a.hardlinks
            &&& b.uid == a.uid
            &&& b.gid == a.gid
            &&& b.extents.len() >= a.extents.len()
            &&& b.extents.take(a.extents.len() as int) == a.extents
            &&& allocator::free_count(before@.blocks) - allocator::free_count(after@.blocks)
                == extent::block_total(b.extents) - extent::block_total(a.extents)
            &&& b.extents.len() > a.extents.len() ==> (extent::block_total(b.extents) - 1)
                * before@.superblock.block_size < offset + data@.len()
            &&& data@.len() > 0 ==> time::is_clock_time(b.last_modified) && time::is_clock_time(
                b.last_metadata_changed,
            )
        },
{
    let bs = before@.superblock.block_size as int;
    let a = before@.table[inode as int];
    let b = after@.table[inode as int];
    let room = extent::capacity(a.extents, bs);
    let had = extent::block_total(a.extents);
    let free = allocator::free_count(before@.blocks) as int;
    let len = data@.len() as int;
    assert(fs::file_written(before@, after@, inode, data@, offset, w));
    if in_use(before, inode) && offset <= a.size {
        assert(consistency::entry_valid(a, bs));
        let placed = extent::placed_bytes(room, offset as int, len);
        let rest = len - placed;
        extent::lemma_placed_bytes(room, offset as int, len);
        inode::lemma_blocks_for(rest, bs);
        vstd::arithmetic::mul::lemma_mul_is_distributive_add_other_way(bs, had, free);
        assert(free * bs >= rest <==> free >= inode::blocks_for(rest, bs));
        assert(free * bs >= 0) by (nonlinear_arith)
            requires
                free >= 0,
                bs > 0,
        ;
        if w.result is Ok && len > 0 {
            let new = b.extents.skip(a.extents.len() as int);
            let count = inode::blocks_for(rest, bs);
            assert(b.extents == a.extents + new);
            assert(b.extents.take(a.extents.len() as int) =~= a.extents);
            extent::lemma_more_extents(a.extents, new, bs);
            allocator::lemma_allocation_accounted(before@.blocks, count, new);
            vstd::arithmetic::mul::lemma_mul_is_distributive_add_other_way(bs, had, count);
            vstd::arithmetic::mul::lemma_mul_is_distributive_sub_other_way(bs, had + count, 1);
            vstd::arithmetic::mul::lemma_mul_is_distributive_sub_other_way(bs, count, 1);
            if new.len() > 0 {
                allocator::lemma_first_fit_takes(before@.blocks, count, new);
                extent::lemma_total_positive(new);
                assert(rest > 0);
            }
        }
        if len == 0 {
            assert(b.extents.take(a.extents.len() as int) =~= a.extents);
        }
    }
}

/// A read fails without such a file and beyond its end, and else brings as many bytes as it was
/// asked for; only the time of the last access changes.
pub proof fn lemma_read(
    before: FuseFS,
    after: FuseFS,
    inode: u64,
    offset: u64,
    size: u32,
    r: Result<Vec<ReadSlice>, Errno>,
    store: Seq<u8>,
)
    requires
        before.wf(),
        exists|fs: &mut FuseFS| #[trigger]
            call_ensures(FuseFS::read_file, (fs, inode, offset, size), r) && *fs
                == before && *final(fs) == after,
    ensures
        !in_use(before, inode) <==> r == Err::<Vec<ReadSlice>, Errno>(Errno::ENOENT),
        in_use(before, inode) && offset + size > before@.table[inode as int].size <==> r == Err::<
            Vec<ReadSlice>,
            Errno,
        >(Errno::EINVAL),
        r is Ok <==> in_use(before, inode) && offset + size <= before@.table[inode as int].size,
        r is Err ==> after@ == before@,
        only_file_changed(before, after, inode),
        after@.blocks == before@.blocks,
        r is Ok ==> {
            let a = before@.table[inode as int];
            let b = after@.table[inode as int];
            &&& extent::read_back(store, r->Ok_0@).len() == size
            &&& forall|i: int|
                0 <= i < size ==> #[trigger] extent::read_back(store, r->Ok_0@)[i]
                    == store[extent::file_bytes(
                    a.extents,
                    before@.superblock.block_size as int,
                )[offset + i]]
            &&& b == (inode::Attributes { last_accessed: b.last_accessed, ..a })
            &&& time::is_clock_time(b.last_accessed)
        },
{
    let bs = before@.superblock.block_size as int;
    assert(fs::file_read(before@, after@, inode, offset, size, r));
    if r is Ok {
        assert(consistency::entry_valid(before@.table[inode as int], bs));
        extent::lemma_file_bytes_len(before@.table[inode as int].extents, bs);
    }
}

/// What was written is what is read: for every write that succeeds, a read of as many bytes from
/// the same offset succeeds and brings the data.
pub proof fn lemma_write_then_read(
    before: FuseFS,
    after: FuseFS,
    later: FuseFS,
    inode: u64,
    data: &Vec<u8>,
    offset: u64,
    w: FileWrite,
    r: Result<Vec<ReadSlice>, Errno>,
    store: Seq<u8>,
)
    requires
        before.wf(),
        offset + data@.len() <= u64::MAX,
        exists|fs: &mut FuseFS| #[trigger]
            call_ensures(FuseFS::write_file, (fs, inode, data, offset), w) && *fs
                == before && *final(fs) == after,
        w.result is Ok,
        data@.len() <= u32::MAX,
        laws::placeable(store, w.slices@),
        after.wf(),
        exists|fs: &mut FuseFS| #[trigger]
            call_ensures(FuseFS::read_file, (fs, inode, offset, data@.len() as u32), r) && *fs
                == after && *final(fs) == later,
    ensures
        r is Ok,
        extent::read_back(extent::apply_writes(store, w.slices@), r->Ok_0@) == data@,
{
    laws::lemma_read_after_write(
        before@,
        after@,
        later@,
        inode,
        data@,
        offset,
        w,
        r,
        store,
    );
}

/// What was not written to is read as before: a read within the size that the file had, and
/// outside of what was written, succeeds after the write and brings what it brought before.
pub proof fn lemma_write_keeps_what_is_read(
    before: FuseFS,
    after: FuseFS,
    inode: u64,
    data: &Vec<u8>,
    offset: u64,
    w: FileWrite,
    store: Seq<u8>,
    from: u64,
    size: u32,
    read_before: FuseFS,
    read_after: FuseFS,
    r: Result<Vec<ReadSlice>, Errno>,
    s: Result<Vec<ReadSlice>, Errno>,
)
    requires
        consistency::sound(before@),
        laws::store_fits(store, before@),
        before.wf(),
        offset + data@.len() <= u64::MAX,
        exists|fs: &mut FuseFS| #[trigger]
            call_ensures(FuseFS::write_file, (fs, inode, data, offset), w) && *fs
                == before && *final(fs) == after,
        w.result is Ok,
        from + size <= before@.table[inode as int].size,
        from + size <= offset || offset + data@.len() <= from,
        before.wf(),
        exists|fs: &mut FuseFS| #[trigger]
            call_ensures(FuseFS::read_file, (fs, inode, from, size), r) && *fs
                == before && *final(fs) == read_before,
        after.wf(),
        exists|fs: &mut FuseFS| #[trigger]
            call_ensures(FuseFS::read_file, (fs, inode, from, size), s) && *fs
                == after && *final(fs) == read_after,
    ensures
        r is Ok,
        s is Ok,
        extent::read_back(extent::apply_writes(store, w.slices@), s->Ok_0@) == extent::read_back(
            store,
            r->Ok_0@,
        ),
{
    let bs = before@.superblock.block_size as int;
    let stored = extent::apply_writes(store, w.slices@);
    lemma_write(before, after, inode, data, offset, w);
    lemma_read(before, read_before, inode, from, size, r, store);
    lemma_read(after, read_after, inode, from, size, s, stored);
    let a = before@.table[inode as int];
    let b = after@.table[inode as int];
    assert(consistency::entry_valid(a, bs));
    assert(consistency::entry_valid(b, bs));
    extent::lemma_file_bytes_len(a.extents, bs);
    extent::lemma_file_bytes_len(b.extents, bs);
    assert forall|i: int| 0 <= i < size implies #[trigger] extent::read_back(
        stored,
        s->Ok_0@,
    )[i] == extent::read_back(store, r->Ok_0@)[i] by {
        laws::lemma_write_keeps_rest_of_file(
            before@,
            after@,
            inode,
            data@,
            offset,
            w,
            store,
            from + i,
        );
        assert(laws::image(stored, after@, inode as int)[from + i] == laws::image(
            store,
            before@,
            inode as int,
        )[from + i]);
    }
    assert(extent::read_back(stored, s->Ok_0@) =~= extent::read_back(store, r->Ok_0@));
}

/// Other files are read as before, whether the write succeeds or not.
pub proof fn lemma_write_keeps_other_reads(
    before: FuseFS,
    after: FuseFS,
    inode: u64,
    data: &Vec<u8>,
    offset: u64,
    w: FileWrite,
    store: Seq<u8>,
    other: u64,
    from: u64,
    size: u32,
    read_before: FuseFS,
    read_after: FuseFS,
    r: Result<Vec<ReadSlice>, Errno>,
    s: Result<Vec<ReadSlice>, Errno>,
)
    requires
        consistency::sound(before@),
        laws::store_fits(store, before@),
        before.wf(),
        offset + data@.len() <= u64::MAX,
        exists|fs: &mut FuseFS| #[trigger]
            call_ensures(FuseFS::write_file, (fs, inode, data, offset), w) && *fs
                == before && *final(fs) == after,
        other != inode,
        before.wf(),
        exists|fs: &mut FuseFS| #[trigger]
            call_ensures(FuseFS::read_file, (fs, other, from, size), r) && *fs
                == before && *final(fs) == read_before,
        after.wf(),
        exists|fs: &mut FuseFS| #[trigger]
            call_ensures(FuseFS::read_file, (fs, other, from, size), s) && *fs
                == after && *final(fs) == read_after,
    ensures
        r is Ok <==> s is Ok,
        r is Err ==> r->Err_0 == s->Err_0,
        r is Ok ==> extent::read_back(extent::apply_writes(store, w.slices@), s->Ok_0@)
            == extent::read_back(store, r->Ok_0@),
{
    let bs = before@.superblock.block_size as int;
    let stored = extent::apply_writes(store, w.slices@);
    lemma_write(before, after, inode, data, offset, w);
    lemma_read(before, read_before, other, from, size, r, store);
    lemma_read(after, read_after, other, from, size, s, stored);
    if r is Ok {
        let o = other as int;
        laws::lemma_write_keeps_other_files(
            before@,
            after@,
            inode,
            data@,
            offset,
            w,
            store,
            o,
        );
        assert(consistency::entry_valid(before@.table[o], bs));
        extent::lemma_file_bytes_len(before@.table[o].extents, bs);
        assert forall|i: int| 0 <= i < size implies #[trigger] extent::read_back(
            stored,
            s->Ok_0@,
        )[i] == extent::read_back(store, r->Ok_0@)[i] by {
            assert(laws::image(stored, after@, o)[from + i] == laws::image(store, before@, o)[from
                + i]);
        }
        assert(extent::read_back(stored, s->Ok_0@) =~= extent::read_back(store, r->Ok_0@));
    }
}

/// A file is told of exactly where its inode is in use, and what is told of it is what is
/// recorded.
pub proof fn lemma_getattr(fs: FuseFS, inode: u64, told: Result<FileAttr, Errno>)
    requires
        fs.wf(),
        call_ensures(FuseFS::getattr, (&fs, inode), told) || call_ensures(
            FuseFS::setattr,
            (&fs, inode),
            told,
        ),
    ensures
        told is Ok <==> in_use(fs, inode),
        told is Err ==> told->Err_0 == Errno::ENOENT,
        told matches Ok(t) ==> {
            let a = fs@.table[inode as int];
            &&& t.ino == a.inode
            &&& t.size == a.size
            &&& t.size <= t.blocks * fs@.superblock.block_size
            &&& t.size > 0 ==> (t.blocks - 1) * fs@.superblock.block_size < t.size
            &&& t.atime == a.last_accessed
            &&& t.mtime == a.last_modified
            &&& t.ctime == a.last_metadata_changed
            &&& t.crtime == (0i64, 0u32)
            &&& t.kind == a.kind
            &&& t.perm == a.mode
            &&& t.nlink == a.hardlinks
            &&& t.uid == a.uid
            &&& t.gid == a.gid
            &&& t.rdev == 0
            &&& t.blksize == fs@.superblock.block_size
            &&& t.flags == 0
        },
{
    if told is Ok {
        let size = fs@.table[inode as int].size as int;
        inode::lemma_blocks_for(size, fs@.superblock.block_size as int);
        consistency::lemma_room_for(size, fs@.superblock.block_size as int);
    }
}

/// The size that is told after a write covers the data, and is no less than before; of a file
/// that was empty it is the number of bytes written.
pub proof fn lemma_size_told_after_write(
    before: FuseFS,
    after: FuseFS,
    inode: u64,
    data: &Vec<u8>,
    offset: u64,
    w: FileWrite,
    was: Result<FileAttr, Errno>,
    now: Result<FileAttr, Errno>,
)
    requires
        before.wf(),
        offset + data@.len() <= u64::MAX,
        exists|fs: &mut FuseFS| #[trigger]
            call_ensures(FuseFS::write_file, (fs, inode, data, offset), w) && *fs
                == before && *final(fs) == after,
        w.result is Ok,
        after.wf(),
        call_ensures(FuseFS::getattr, (&before, inode), was),
        call_ensures(FuseFS::getattr, (&after, inode), now),
    ensures
        was is Ok,
        now is Ok,
        now->Ok_0.size >= was->Ok_0.size,
        now->Ok_0.size >= offset + data@.len(),
        now->Ok_0.size == was->Ok_0.size || now->Ok_0.size == offset + data@.len(),
        was->Ok_0.size == 0 ==> now->Ok_0.size == data@.len(),
        now->Ok_0.uid == was->Ok_0.uid,
        now->Ok_0.gid == was->Ok_0.gid,
        now->Ok_0.perm == was->Ok_0.perm,
        now->Ok_0.kind == was->Ok_0.kind,
        now->Ok_0.nlink == was->Ok_0.nlink,
        now->Ok_0.ino == was->Ok_0.ino,
{
    lemma_write(before, after, inode, data, offset, w);
    lemma_getattr(before, inode, was);
    lemma_getattr(after, inode, now);
}

/// A new file system is of the sizes that were asked for, and nothing of it is in use: there
/// are as many inodes and blocks as asked for, in multiples of 1024, and all of them are free.
pub proof fn lemma_new(block_size: u32, num_inodes: u64, num_blocks: u64, fs: Option<FuseFS>)
    requires
        call_ensures(
            FuseFS::new,
            (None::<&MetaSerializable>, block_size, num_inodes, num_blocks),
            fs,
        ),
    ensures
        fs is Some,
        fs->0@.superblock == (meta::Superblock {
            fsid: 0x55555,
            block_size,
            num_inodes,
            num_blocks,
        }),
        num_inodes % 1024 == 0 ==> fs->0@.inodes.len() == num_inodes,
        num_blocks % 1024 == 0 ==> fs->0@.blocks.len() == num_blocks,
        fs->0@.inodes.len() <= num_inodes < fs->0@.inodes.len() + 1024,
        fs->0@.blocks.len() <= num_blocks < fs->0@.blocks.len() + 1024,
        forall|i: int| 0 <= i < fs->0@.inodes.len() ==> !#[trigger] fs->0@.inodes[i],
        forall|b: int| 0 <= b < fs->0@.blocks.len() ==> !#[trigger] fs->0@.blocks[b],
        allocator::free_count(fs->0@.blocks) == fs->0@.blocks.len(),
        fs->0@.table.len() == num_inodes,
        forall|i: int|
            #![trigger fs->0@.table[i]]
            0 <= i < num_inodes ==> fs->0@.table[i].size == 0 && fs->0@.table[i].extents.len()
                == 0 && fs->0@.table[i].inode == 0 && fs->0@.table[i].hardlinks == 0,
{
    let m = fs->0@;
    meta::lemma_bitmap_len(num_inodes);
    meta::lemma_bitmap_len(num_blocks);
    meta::lemma_all_free(m.blocks);
    assert(m.table.len() == num_inodes);
}

/// A file system is loaded where no bit was saved that the superblock has no item for and
/// memory has room for the bitmaps, and is what was saved, whatever sizes are given.
pub proof fn lemma_load(
    saved: MetaSerializable,
    block_size: u32,
    num_inodes: u64,
    num_blocks: u64,
    fs: Option<FuseFS>,
)
    requires
        call_ensures(FuseFS::new, (Some(&saved), block_size, num_inodes, num_blocks), fs),
    ensures
        fs is Some <==> {
            &&& saved.superblock.num_inodes / 1024 <= usize::MAX
            &&& saved.superblock.num_blocks / 1024 <= usize::MAX
            &&& forall|i: int|
                (saved.superblock.num_inodes / 1024) * 1024 <= i < saved.inode_bitmap@.len()
                    ==> !#[trigger] saved.inode_bitmap@[i]
            &&& forall|b: int|
                (saved.superblock.num_blocks / 1024) * 1024 <= b < saved.data_bitmap@.len()
                    ==> !#[trigger] saved.data_bitmap@[b]
        },
        fs is Some ==> {
            let m = fs->0@;
            &&& m.superblock == saved.superblock
            &&& m.inodes.len() == (saved.superblock.num_inodes / 1024) * 1024
            &&& m.blocks.len() == (saved.superblock.num_blocks / 1024) * 1024
            &&& forall|i: int|
                0 <= i < m.inodes.len() ==> #[trigger] m.inodes[i] == (i
                    < saved.inode_bitmap@.len() && saved.inode_bitmap@[i])
            &&& forall|b: int|
                0 <= b < m.blocks.len() ==> #[trigger] m.blocks[b] == (b
                    < saved.data_bitmap@.len() && saved.data_bitmap@[b])
            &&& m.table.len() == saved.inode_table@.len()
            &&& forall|i: int|
                0 <= i < m.table.len() ==> #[trigger] m.table[i] == saved.inode_table@[i]@
        },
{
    meta::lemma_saved_view(saved);
}

/// What was saved is the whole of it, and loading it brings the same file system back.
pub proof fn lemma_save_and_load(
    fs: FuseFS,
    saved: MetaSerializable,
    block_size: u32,
    num_inodes: u64,
    num_blocks: u64,
    loaded: Option<FuseFS>,
)
    requires
        call_ensures(FuseFS::saved_meta, (&fs,), saved),
        call_ensures(FuseFS::new, (Some(&saved), block_size, num_inodes, num_blocks), loaded),
    ensures
        saved.superblock == fs@.superblock,
        saved.inode_bitmap@ == fs@.inodes,
        saved.data_bitmap@ == fs@.blocks,
        saved.inode_table@.len() == fs@.table.len(),
        forall|i: int|
            0 <= i < fs@.table.len() ==> (#[trigger] saved.inode_table@[i])@ == fs@.table[i],
        fs.wf() ==> loaded is Some && loaded->0@ == fs@ && loaded->0.wf(),
{
    meta::lemma_saved_view(saved);
    assert(saved@.table == fs@.table);
    assert forall|i: int| 0 <= i < fs@.table.len() implies (#[trigger] saved.inode_table@[i])@
        == fs@.table[i] by {
        assert(saved@.table[i] == saved.inode_table@[i]@);
    }
}

/// When requests can be carried out: blocks have a size and can all be addressed, the bitmaps
/// are as long as the superblock says, there is an entry for every inode, and every file lies
/// where it can be addressed and fits in its blocks.
pub proof fn lemma_valid(fs: FuseFS, valid: bool)
    requires
        call_ensures(FuseFS::is_valid, (&fs,), valid),
    ensures
        valid == fs.wf(),
        valid <==> {
            let m = fs@;
            let bs = m.superblock.block_size;
            &&& bs > 0
            &&& m.inodes.len() == (m.superblock.num_inodes / 1024) * 1024
            &&& m.blocks.len() == (m.superblock.num_blocks / 1024) * 1024
            &&& m.inodes.len() <= m.table.len()
            &&& m.blocks.len() * bs <= u64::MAX
            &&& forall|i: int|
                0 <= i < m.table.len() ==> (#[trigger] m.table[i]).size <= extent::block_total(
                    m.table[i].extents,
                ) * bs
            &&& forall|i: int, k: int|
                #![trigger m.table[i].extents[k]]
                0 <= i < m.table.len() && 0 <= k < m.table[i].extents.len() ==> (
                m.table[i].extents[k].0 + m.table[i].extents[k].1) * bs <= u64::MAX
        },
{
    let m = fs@;
    let bs = m.superblock.block_size as int;
    if forall|i: int, k: int|
        #![trigger m.table[i].extents[k]]
        0 <= i < m.table.len() && 0 <= k < m.table[i].extents.len() ==> (m.table[i].extents[k].0
            + m.table[i].extents[k].1) * bs <= u64::MAX {
        assert forall|i: int| 0 <= i < m.table.len() implies extent::extents_fit(
            (#[trigger] m.table[i]).extents,
            bs,
        ) by {}
    }
    if fs.wf() {
        assert forall|i: int, k: int|
            #![trigger m.table[i].extents[k]]
            0 <= i < m.table.len() && 0 <= k < m.table[i].extents.len() implies (
        m.table[i].extents[k].0 + m.table[i].extents[k].1) * bs <= u64::MAX by {
            assert(consistency::entry_valid(m.table[i], bs));
        }
        assert forall|i: int| 0 <= i < m.table.len() implies (#[trigger] m.table[i]).size
            <= extent::block_total(m.table[i].extents) * bs by {
            assert(consistency::entry_valid(m.table[i], bs));
        }
    }
}

/// The attributes of an inode are those in its place of the table, where it is in use.
pub proof fn lemma_attributes(fs: FuseFS, inode: u64, attr: Result<InodeAttributes, Errno>)
    requires
        fs.wf(),
        call_ensures(FuseFS::get_inode_attr, (&fs, inode), attr),
    ensures
        attr is Ok <==> in_use(fs, inode),
        attr is Err ==> attr->Err_0 == Errno::ENOENT,
        attr matches Ok(a) ==> {
            let recorded = fs@.table[inode as int];
            &&& a.inode == recorded.inode
            &&& a.open_file_handles == recorded.open_file_handles
            &&& a.size == recorded.size
            &&& a.last_accessed == recorded.last_accessed
            &&& a.last_modified == recorded.last_modified
            &&& a.last_metadata_changed == recorded.last_metadata_changed
            &&& a.kind == recorded.kind
            &&& a.mode == recorded.mode
            &&& a.hardlinks == recorded.hardlinks
            &&& a.uid == recorded.uid
            &&& a.gid == recorded.gid
            &&& a.extent_index@ == recorded.extents
        },
{
}

/// Attributes that are set are those that are got, of that inode, and no other changes.
pub proof fn lemma_set_and_get(
    before: FuseFS,
    after: FuseFS,
    inode: u64,
    attr: InodeAttributes,
    other: u64,
    was: Result<InodeAttributes, Errno>,
    now: Result<InodeAttributes, Errno>,
)
    requires
        before.wf(),
        after.wf(),
        inode < before@.table.len(),
        exists|fs: &mut FuseFS| #[trigger]
            call_ensures(FuseFS::set_inode_attr, (fs, inode, attr), ()) && *fs == before
                && *final(fs) == after,
        call_ensures(FuseFS::get_inode_attr, (&before, other), was),
        call_ensures(FuseFS::get_inode_attr, (&after, other), now),
    ensures
        only_file_changed(before, after, inode),
        after@.blocks == before@.blocks,
        now is Ok <==> was is Ok,
        now is Ok && other == inode ==> now->Ok_0.size == attr.size && now->Ok_0.uid == attr.uid
            && now->Ok_0.extent_index@ == attr.extent_index@ && now->Ok_0@ == attr@,
        now is Ok && other != inode ==> now->Ok_0@ == was->Ok_0@,
{
}

/// The inode that is taken is the first free one from 2 on, and nothing else changes; there is
/// none exactly where all of them are in use.
pub proof fn lemma_take_inode(before: FuseFS, after: FuseFS, inode: Option<u64>)
    requires
        exists|fs: &mut FuseFS| #[trigger]
            call_ensures(FuseFS::allocate_inode, (fs,), inode) && *fs == before && *final(fs)
                == after,
    ensures
        inode is None <==> forall|j: int| 2 <= j < before@.inodes.len() ==> #[trigger]
            before@.inodes[j],
        inode is None ==> after@ == before@,
        inode matches Some(i) ==> {
            &&& 2 <= i < before@.inodes.len()
            &&& !before@.inodes[i as int]
            &&& forall|j: int| 2 <= j < i ==> #[trigger] before@.inodes[j]
            &&& after@.inodes == before@.inodes.update(i as int, true)
        },
        after@.blocks == before@.blocks,
        after@.table == before@.table,
        after@.superblock == before@.superblock,
{
    let fs = choose|fs: &mut FuseFS| #[trigger]
        call_ensures(FuseFS::allocate_inode, (fs,), inode) && *fs == before && *final(fs)
            == after;
    let bits = before@.inodes;
    assert forall|j: int| 2 <= j < bits.len() && (inode is None || j < inode->0) implies
        #[trigger] bits[j] by {
        assert(!allocator::inode_available(bits, j));
    }
    if inode is Some {
        assert(allocator::inode_available(bits, inode->0 as int));
        assert(!bits[inode->0 as int]);
    }
}

/// An inode that was taken and is given back leaves the file system as it was.
pub proof fn lemma_give_inode_back(
    before: FuseFS,
    taken: FuseFS,
    after: FuseFS,
    inode: u64,
)
    requires
        exists|fs: &mut FuseFS| #[trigger]
            call_ensures(FuseFS::allocate_inode, (fs,), Some(inode)) && *fs == before && *final(
                fs) == taken,
        exists|fs: &mut FuseFS| #[trigger]
            call_ensures(FuseFS::free_inode, (fs, inode), ()) && *fs == taken && *final(fs)
                == after,
    ensures
        in_use(taken, inode),
        !in_use(before, inode),
        after@ == before@,
{
    lemma_take_inode(before, taken, Some(inode));
    assert(after@.inodes =~= before@.inodes);
}

/// An inode that is marked as in use is in use, and nothing else changes.
pub proof fn lemma_use_inode(before: FuseFS, after: FuseFS, inode: u64, other: u64)
    requires
        inode < before@.inodes.len(),
        exists|fs: &mut FuseFS| #[trigger]
            call_ensures(FuseFS::use_inode, (fs, inode), ()) && *fs == before && *final(fs)
                == after,
    ensures
        in_use(after, inode),
        other != inode ==> (in_use(after, other) <==> in_use(before, other)),
        after@.table == before@.table,
        after@.blocks == before@.blocks,
        after@.superblock == before@.superblock,
{
}

/// Blocks are found for a size exactly where enough are free for it; as many are taken as it
/// needs, and not one more. They were free, they are the first that were, and only they change.
pub proof fn lemma_take_blocks(
    before: FuseFS,
    after: FuseFS,
    size: usize,
    extents: Option<Vec<Extent>>,
)
    requires
        before.wf(),
        exists|fs: &mut FuseFS| #[trigger]
            call_ensures(FuseFS::allocate_blocks, (fs, size), extents) && *fs == before
                && *final(fs) == after,
    ensures
        extents is Some <==> size <= allocator::free_count(before@.blocks)
            * before@.superblock.block_size,
        extents is None ==> after@ == before@,
        after@.inodes == before@.inodes,
        after@.table == before@.table,
        after@.superblock == before@.superblock,
        after@.blocks.len() == before@.blocks.len(),
        extents matches Some(exs) ==> {
            let bs = before@.superblock.block_size;
            &&& size <= extent::block_total(exs@) * bs
            &&& size > 0 ==> (extent::block_total(exs@) - 1) * bs < size
            &&& size == 0 ==> exs@.len() == 0
            &&& allocator::free_count(after@.blocks) == allocator::free_count(before@.blocks)
                - extent::block_total(exs@)
            &&& forall|b: int|
                0 <= b < before@.blocks.len() && #[trigger] extent::in_extents(exs@, b)
                    ==> !before@.blocks[b] && after@.blocks[b]
            &&& forall|b: int|
                0 <= b < before@.blocks.len() && !#[trigger] extent::in_extents(exs@, b)
                    ==> after@.blocks[b] == before@.blocks[b]
            &&& forall|b: int, t: int|
                #![trigger extent::in_extents(exs@, b), extent::in_extents(exs@, t)]
                0 <= b < t && !before@.blocks[b] && extent::in_extents(exs@, t)
                    ==> extent::in_extents(exs@, b)
        },
{
    let bs = before@.superblock.block_size as int;
    let bits = before@.blocks;
    let free = allocator::free_count(bits) as int;
    inode::lemma_blocks_for(size as int, bs);
    assert(free * bs >= size <==> free >= inode::blocks_for(size as int, bs));
    if extents is Some {
        let exs = extents->0@;
        let count = inode::blocks_for(size as int, bs);
        allocator::lemma_allocation_accounted(bits, count, exs);
        allocator::lemma_first_fit_takes(bits, count, exs);
        extent::lemma_total_positive(exs);
        assert forall|b: int|
            0 <= b < bits.len() && #[trigger] extent::in_extents(exs, b) implies !bits[b]
            && after@.blocks[b] by {
            let k = choose|k: int|
                0 <= k < exs.len() && extent::in_extent(#[trigger] exs[k], b);
            assert(extent::in_extent(exs[k], b));
        }
        assert forall|b: int, t: int|
            #![trigger extent::in_extents(exs, b), extent::in_extents(exs, t)]
            0 <= b < t && !bits[b] && extent::in_extents(exs, t) implies extent::in_extents(
            exs,
            b,
        ) by {
            let k = choose|k: int|
                0 <= k < exs.len() && extent::in_extent(#[trigger] exs[k], t);
            assert(extent::in_extent(exs[k], t));
            assert(0 <= b < bits.len() && !bits[b] && b < exs[k].0 + exs[k].1);
            let l = choose|l: int|
                0 <= l < exs.len() && (#[trigger] exs[l]).0 <= b < exs[l].0 + exs[l].1;
            assert(extent::in_extent(exs[l], b));
        }
    }
}

/// The store has room for every block: as many bytes as the blocks have.
pub proof fn lemma_store_size(block_size: u32, num_blocks: u64, size: Option<u64>)
    requires
        call_ensures(FuseFS::store_size, (block_size, num_blocks), size),
    ensures
        size is Some <==> num_blocks * block_size <= u64::MAX,
        size is Some ==> size->0 == num_blocks * block_size,
{
}

} // verus!
