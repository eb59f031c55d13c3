//! The file system: what each request does to the metadata, and which parts of the backing
//! store it reads and writes.
//!
//! The backing store itself is out of sight here. A request that needs it says which slices
//! to read or to write, in order; whoever carries that out comes back with the outcome.

use crate::allocator;
use crate::consistency;
use crate::errno::Errno;
use crate::extent;
use crate::extent::Extent;
use crate::extent::ReadSlice;
use crate::extent::WriteSlice;
use crate::inode;
use crate::inode::blocks_allocated;
use crate::inode::Attributes;
use crate::inode::InodeAttributes;
use crate::inode::Time;
use crate::meta;
use crate::meta::Meta;
use crate::meta::MetaSerializable;
use crate::meta::Metadata;
use crate::meta::Superblock;
use crate::time;
use crate::time::time_now;
use vstd::prelude::*;

verus! {

/// The inode of the root directory.
pub const ROOT_INODE: u64 = 1;

/// A file system.
pub struct FuseFS {
    meta: Meta,
}

/// What a write to a file comes to.
#[derive(Debug)]
pub struct FileWrite {
    /// The writes to the store, to be carried out whatever the result.
    pub slices: Vec<WriteSlice>,
    /// The number of bytes written.
    pub result: Result<u64, Errno>,
}

/// The metadata after a file was read.
pub open spec fn accessed(m: Metadata, inode: int, now: Time) -> Metadata {
    consistency::with_entry(m, inode, Attributes { last_accessed: now, ..m.table[inode] })
}

/// The metadata after a file got another size and more blocks.
pub open spec fn resized(
    m: Metadata,
    inode: int,
    size: u64,
    extents: Seq<Extent>,
    modified: Time,
    changed: Time,
) -> Metadata {
    consistency::with_entry(
        m,
        inode,
        Attributes {
            size,
            last_modified: modified,
            last_metadata_changed: changed,
            extents: m.table[inode].extents + extents,
            ..m.table[inode]
        },
    )
}

/// The size of a file after a write of `len` bytes at `offset`: it grows where the write goes
/// beyond its end.
pub open spec fn size_after(size: int, offset: int, len: int) -> int {
    if offset + len > size {
        offset + len
    } else {
        size
    }
}

/// What a write of `data` to a file at `offset` does.
///
/// - Without such an inode, or beyond the end of the file, it fails and does nothing.
/// - Without any data it succeeds and does nothing.
/// - Without enough free blocks for what the file has no room for the write fails, but what
///   the file has room for is written.
/// - Else the data goes into the extents of the file from the offset on, and what they have no
///   room for into as many new blocks as that takes; the size grows to cover the data.
pub open spec fn file_written(
    before: Metadata,
    after: Metadata,
    inode: u64,
    data: Seq<u8>,
    offset: u64,
    w: FileWrite,
) -> bool {
    let attr = before.table[inode as int];
    let bs = before.superblock.block_size as int;
    let placed = extent::placed_bytes(
        extent::capacity(attr.extents, bs),
        offset as int,
        data.len() as int,
    );
    let count = inode::blocks_for(data.len() - placed, bs);
    let new = after.table[inode as int].extents.skip(attr.extents.len() as int);
    let at = extent::write_positions(w.slices@);
    if !consistency::inode_exists(before, inode as int) {
        w.result == Result::<u64, Errno>::Err(Errno::ENOENT) && w.slices@.len() == 0 && after
            == before
    } else if offset > attr.size {
        w.result == Result::<u64, Errno>::Err(Errno::EINVAL) && w.slices@.len() == 0 && after
            == before
    } else if data.len() == 0 {
        w.result == Result::<u64, Errno>::Ok(0) && w.slices@.len() == 0 && after == before
    } else if count > allocator::free_count(before.blocks) {
        &&& w.result == Result::<u64, Errno>::Err(Errno::ENOSPC)
        &&& after == before
        &&& extent::write_payload(w.slices@) == data.take(placed)
        &&& at == extent::file_bytes(attr.extents, bs).subrange(offset as int, offset + placed)
    } else {
        &&& w.result == Result::<u64, Errno>::Ok(data.len() as u64)
        &&& allocator::is_first_fit(before.blocks, count, new)
        &&& after == resized(
            consistency::with_blocks(before, new),
            inode as int,
            size_after(attr.size as int, offset as int, data.len() as int) as u64,
            new,
            after.table[inode as int].last_modified,
            after.table[inode as int].last_metadata_changed,
        )
        &&& extent::write_payload(w.slices@) == data
        &&& at == extent::file_bytes(attr.extents + new, bs).subrange(
            offset as int,
            offset + data.len(),
        )
    }
}

/// What a read of `size` bytes of a file at `offset` does.
pub open spec fn file_read(
    before: Metadata,
    after: Metadata,
    inode: u64,
    offset: u64,
    size: u32,
    r: Result<Vec<ReadSlice>, Errno>,
) -> bool {
    let attr = before.table[inode as int];
    let bs = before.superblock.block_size as int;
    if !consistency::inode_exists(before, inode as int) {
        r == Result::<Vec<ReadSlice>, Errno>::Err(Errno::ENOENT) && after == before
    } else if offset + size > attr.size {
        r == Result::<Vec<ReadSlice>, Errno>::Err(Errno::EINVAL) && after == before
    } else {
        &&& r matches Ok(slices) && extent::read_positions(slices@) == extent::file_bytes(
            attr.extents,
            bs,
        ).subrange(offset as int, offset + size)
        &&& after == accessed(before, inode as int, after.table[inode as int].last_accessed)
    }
}

/// The attributes of a file after it was read.
pub fn attributes_accessed(attr: InodeAttributes, now: Time) -> (read: InodeAttributes)
    ensures
        read@ == (Attributes { last_accessed: now, ..attr@ }),
{
    InodeAttributes { last_accessed: now, ..attr }
}

/// The attributes of a file after it got another size and more blocks.
pub fn attributes_resized(
    attr: InodeAttributes,
    size: u64,
    new_extents: Vec<Extent>,
    modified: Time,
    changed: Time,
) -> (resized: InodeAttributes)
    ensures
        resized@ == (Attributes {
            size,
            last_modified: modified,
            last_metadata_changed: changed,
            extents: attr@.extents + new_extents@,
            ..attr@
        }),
{
    let mut all_extents = inode::copy_extents(&attr.extent_index);
    let mut more = new_extents;
    all_extents.append(&mut more);
    InodeAttributes {
        size,
        last_modified: modified,
        last_metadata_changed: changed,
        extent_index: all_extents,
        ..attr
    }
}

impl View for FuseFS {
    type V = Metadata;

    closed spec fn view(&self) -> Metadata {
        self.meta@
    }
}

impl FuseFS {
    /// Every request can be carried out.
    pub open spec fn wf(&self) -> bool {
        consistency::valid(self@)
    }

    /// A file system: the one whose metadata was saved, or else a new one. `None` where saved
    /// metadata cannot be loaded.
    pub fn new(
        existing: Option<&MetaSerializable>,
        block_size: u32,
        num_inodes: u64,
        num_blocks: u64,
    ) -> (fs: Option<FuseFS>)
        requires
            existing is None ==> num_inodes <= usize::MAX && num_blocks <= usize::MAX,
        ensures
            match existing {
                Some(saved) => {
                    &&& fs is Some <==> meta::loadable(saved@)
                    &&& fs is Some ==> fs->0@ == meta::loaded(saved@)
                },
                None => {
                    &&& fs is Some
                    &&& fs->0@ == meta::blank(block_size, num_inodes, num_blocks)
                    &&& consistency::sound(fs->0@)
                    &&& fs->0.wf() <==> (block_size > 0 && meta::bitmap_len(num_blocks)
                        * block_size <= u64::MAX)
                },
            },
    {
        match existing {
            Some(saved) => {
                if saved.is_loadable() {
                    Some(FuseFS { meta: saved.to_meta() })
                } else {
                    None
                }
            },
            None => {
                proof {
                    consistency::lemma_blank(block_size, num_inodes, num_blocks);
                }
                Some(FuseFS { meta: Meta::new(block_size, num_inodes, num_blocks) })
            },
        }
    }

    /// Whether every request can be carried out: a file system that is loaded may have files
    /// that do not fit their blocks, and a new one may have blocks without a size.
    pub fn is_valid(&self) -> (valid: bool)
        ensures
            valid == self.wf(),
    {
        self.meta.is_valid()
    }

    /// The size of the backing store: that of all the blocks. `None` where it is too large.
    pub fn store_size(block_size: u32, num_blocks: u64) -> (size: Option<u64>)
        ensures
            size == (if num_blocks * block_size <= u64::MAX {
                Some((num_blocks * block_size) as u64)
            } else {
                None
            }),
    {
        num_blocks.checked_mul(block_size as u64)
    }

    /// What was fixed when the file system was created.
    pub fn superblock(&self) -> (superblock: Superblock)
        ensures
            superblock == self@.superblock,
    {
        self.meta.superblock
    }

    /// The metadata in the form in which it is saved.
    pub fn saved_meta(&self) -> (saved: MetaSerializable)
        ensures
            saved@ == self@,
            self.wf() ==> meta::loadable(saved@) && meta::loaded(saved@) == self@,
    {
        proof {
            if self.wf() {
                meta::lemma_save_load(self@);
                let chunks: usize = self.meta.inode_bitmap.chunks.len();
                assert(self@.inodes.len() == chunks * 1024);
                let chunks: usize = self.meta.data_bitmap.chunks.len();
                assert(self@.blocks.len() == chunks * 1024);
            }
        }
        self.meta.to_meta_serializable()
    }

    /// The attributes of an inode that is in use.
    pub fn get_inode_attr(&self, inode: u64) -> (attr: Result<InodeAttributes, Errno>)
        requires
            self.wf(),
        ensures
            match attr {
                Ok(a) => consistency::inode_exists(self@, inode as int) && a@
                    == self@.table[inode as int],
                Err(e) => !consistency::inode_exists(self@, inode as int) && e == Errno::ENOENT,
            },
    {
        let len: usize = self.meta.inode_table.len();
        match self.meta.inode_bitmap.get(inode) {
            Some(true) => Ok(self.meta.inode_table[inode as usize].clone()),
            _ => Err(Errno::ENOENT),
        }
    }

    /// Replaces the attributes of an inode.
    pub fn set_inode_attr(&mut self, inode: u64, attr: InodeAttributes)
        requires
            old(self).wf(),
            inode < old(self)@.table.len(),
            consistency::entry_valid(attr@, old(self)@.superblock.block_size as int),
        ensures
            final(self)@ == consistency::with_entry(old(self)@, inode as int, attr@),
            final(self).wf(),
    {
        let len: usize = self.meta.inode_table.len();
        assert(inode < len);
        proof {
            consistency::lemma_entry_keeps_valid(self@, inode as int, attr@);
        }
        self.meta.inode_table.set(inode as usize, attr);
        assert(self@ =~= consistency::with_entry(old(self)@, inode as int, attr@));
    }

    /// The first inode that is available, if there is one.
    pub fn first_free_inode(&self) -> (inode: Option<u64>)
        requires
            self.wf(),
        ensures
            match inode {
                Some(i) => {
                    &&& allocator::inode_available(self@.inodes, i as int)
                    &&& forall|j: int|
                        0 <= j < i ==> !#[trigger] allocator::inode_available(self@.inodes, j)
                },
                None => forall|j: int| !#[trigger] allocator::inode_available(self@.inodes, j),
            },
    {
        assert(self@.inodes.len() <= u64::MAX);
        self.meta.inode_bitmap.first_free_inode()
    }

    /// Takes the first inode that is available.
    pub fn allocate_inode(&mut self) -> (inode: Option<u64>)
        requires
            old(self).wf(),
        ensures
            match inode {
                Some(i) => {
                    &&& allocator::inode_available(old(self)@.inodes, i as int)
                    &&& forall|j: int|
                        0 <= j < i ==> !#[trigger] allocator::inode_available(
                            old(self)@.inodes,
                            j,
                        )
                    &&& final(self)@ == (Metadata {
                        inodes: old(self)@.inodes.update(i as int, true),
                        ..old(self)@
                    })
                },
                None => {
                    &&& forall|j: int|
                        !#[trigger] allocator::inode_available(old(self)@.inodes, j)
                    &&& final(self)@ == old(self)@
                },
            },
            final(self).wf(),
            consistency::sound(old(self)@) ==> consistency::sound(final(self)@),
    {
        self.meta.inode_bitmap.allocate_inode()
    }

    /// Marks an inode as in use.
    pub fn use_inode(&mut self, inode: u64)
        requires
            old(self).wf(),
            inode < old(self)@.inodes.len(),
        ensures
            final(self)@ == (Metadata {
                inodes: old(self)@.inodes.update(inode as int, true),
                ..old(self)@
            }),
            final(self).wf(),
            consistency::sound(old(self)@) ==> consistency::sound(final(self)@),
    {
        self.meta.inode_bitmap.set(inode, true);
    }

    /// Gives an inode back.
    pub fn free_inode(&mut self, inode: u64)
        requires
            old(self).wf(),
            inode < old(self)@.inodes.len(),
        ensures
            final(self)@ == (Metadata {
                inodes: old(self)@.inodes.update(inode as int, false),
                ..old(self)@
            }),
            final(self).wf(),
            consistency::sound(old(self)@) ==> consistency::sound(final(self)@),
    {
        self.meta.inode_bitmap.set(inode, false);
    }

    /// If space is available of the desired size, allocates that space and returns the
    /// associated extents, which no file has then. Otherwise, returns `None`.
    pub fn allocate_blocks(&mut self, size: usize) -> (extents: Option<Vec<Extent>>)
        requires
            old(self).wf(),
        ensures
            match extents {
                Some(exs) => {
                    &&& inode::blocks_for(size as int, old(self)@.superblock.block_size as int)
                        <= allocator::free_count(old(self)@.blocks)
                    &&& allocator::is_first_fit(
                        old(self)@.blocks,
                        inode::blocks_for(size as int, old(self)@.superblock.block_size as int),
                        exs@,
                    )
                    &&& final(self)@ == consistency::with_blocks(old(self)@, exs@)
                    &&& extent::extents_fit(exs@, old(self)@.superblock.block_size as int)
                    &&& consistency::sound(old(self)@) ==> consistency::sound(final(self)@)
                        && consistency::reserved(final(self)@, exs@)
                },
                None => {
                    &&& inode::blocks_for(size as int, old(self)@.superblock.block_size as int)
                        > allocator::free_count(old(self)@.blocks)
                    &&& final(self)@ == old(self)@
                },
            },
            final(self).wf(),
    {
        proof {
            consistency::lemma_room_for(size as int, self@.superblock.block_size as int);
        }
        let count: usize = blocks_allocated(size as u64, self.meta.superblock.block_size) as usize;
        let found = self.meta.data_bitmap.allocate_blocks(count);
        proof {
            if found is Some {
                let exs = found->0@;
                assert(self@ =~= consistency::with_blocks(old(self)@, exs));
                consistency::lemma_allocated_valid(old(self)@, count as int, exs);
                if consistency::sound(old(self)@) {
                    consistency::lemma_allocated_reserved(old(self)@, count as int, exs);
                }
            } else {
                assert(self@ =~= old(self)@);
            }
        }
        found
    }

    /// Reads `size` bytes of a file from `offset` on: the slices of the store to read, in
    /// order.
    pub fn read_file(&mut self, inode: u64, offset: u64, size: u32) -> (slices: Result<
        Vec<ReadSlice>,
        Errno,
    >)
        requires
            old(self).wf(),
        ensures
            file_read(old(self)@, final(self)@, inode, offset, size, slices),
            slices is Ok ==> time::is_clock_time(final(self)@.table[inode as int].last_accessed),
            final(self).wf(),
            consistency::sound(old(self)@) ==> consistency::sound(final(self)@),
    {
        self.read_file_as_of(inode, offset, size, time_now())
    }

    /// Reads `size` bytes of a file from `offset` on, when the clock shows `now`.
    pub fn read_file_as_of(&mut self, inode: u64, offset: u64, size: u32, now: Time) -> (
        slices: Result<Vec<ReadSlice>, Errno>)
        requires
            old(self).wf(),
        ensures
            file_read(old(self)@, final(self)@, inode, offset, size, slices),
            slices is Ok ==> final(self)@.table[inode as int].last_accessed == now,
            final(self).wf(),
            consistency::sound(old(self)@) ==> consistency::sound(final(self)@),
    {
        let attr = match self.get_inode_attr(inode) {
            Ok(i) => i,
            Err(e) => return Err(e),
        };
        // Check if the read will go beyond the size of the file.
        if offset > attr.size || size as u64 > attr.size - offset {
            return Err(Errno::EINVAL);
        }
        let slices = extent::plan_read(
            &attr.extent_index,
            self.meta.superblock.block_size,
            offset,
            size as u64,
        );
        let new_attr = attributes_accessed(attr, now);
        proof {
            if consistency::sound(self@) {
                consistency::lemma_entry_keeps_sound(self@, inode as int, new_attr@);
            }
        }
        self.set_inode_attr(inode, new_attr);
        Ok(slices)
    }

    /// Writes `data` to a file from `offset` on.
    pub fn write_file(&mut self, inode: u64, data: &Vec<u8>, offset: u64) -> (w: FileWrite)
        requires
            old(self).wf(),
            consistency::inode_exists(old(self)@, inode as int) && offset
                <= old(self)@.table[inode as int].size ==> offset + data@.len() <= u64::MAX,
        ensures
            file_written(old(self)@, final(self)@, inode, data@, offset, w),
            w.result is Ok && data@.len() > 0 ==> time::is_clock_time(
                final(self)@.table[inode as int].last_modified,
            ) && time::is_clock_time(final(self)@.table[inode as int].last_metadata_changed),
            final(self).wf(),
            consistency::sound(old(self)@) ==> consistency::sound(final(self)@),
    {
        self.write_file_as_of(inode, data, offset, time_now(), time_now())
    }

    /// Writes `data` to a file from `offset` on. If that succeeds with any data, the file was
    /// modified, and its metadata changed, at the times given.
    pub fn write_file_as_of(
        &mut self,
        inode: u64,
        data: &Vec<u8>,
        offset: u64,
        modified: Time,
        changed: Time,
    ) -> (w: FileWrite)
        requires
            old(self).wf(),
            consistency::inode_exists(old(self)@, inode as int) && offset
                <= old(self)@.table[inode as int].size ==> offset + data@.len() <= u64::MAX,
        ensures
            file_written(old(self)@, final(self)@, inode, data@, offset, w),
            w.result is Ok && data@.len() > 0
                ==> final(self)@.table[inode as int].last_modified == modified
                && final(self)@.table[inode as int].last_metadata_changed == changed,
            final(self).wf(),
            consistency::sound(old(self)@) ==> consistency::sound(final(self)@),
    {
        let ghost before = self@;
        let ghost bs = before.superblock.block_size as int;
        let block_size: u32 = self.meta.superblock.block_size;
        let attr = match self.get_inode_attr(inode) {
            Ok(i) => i,
            Err(e) => return FileWrite { slices: Vec::new(), result: Err(e) },
        };
        // Disallow the write if the offset is beyond the size of the file.
        if offset > attr.size {
            return FileWrite { slices: Vec::new(), result: Err(Errno::EINVAL) };
        }
        let len: usize = data.len();
        if len == 0 {
            return FileWrite { slices: Vec::new(), result: Ok(0) };
        }
        let (mut slices, placed) = extent::plan_write(
            &attr.extent_index,
            block_size,
            offset,
            data.as_slice(),
        );
        let ghost old_extents = attr@.extents;
        let ghost first = slices@;
        assert(consistency::entry_valid(before.table[inode as int], bs));
        // If there are still bytes to write, more extents are needed.
        let rest = vstd::slice::slice_subrange(data.as_slice(), placed, len);
        let new_extents = match self.allocate_blocks(rest.len()) {
            Some(exs) => exs,
            None => return FileWrite { slices, result: Err(Errno::ENOSPC) },
        };
        let ghost new = new_extents@;
        let (mut more, rest_placed) = extent::plan_write(&new_extents, block_size, 0, rest);
        let ghost second = more@;
        proof {
            consistency::lemma_room_for(rest@.len() as int, bs);
            assert(rest_placed == rest@.len());
            assert(rest@.take(rest_placed as int) =~= rest@);
            extent::lemma_writes_concat(Seq::empty(), first, second);
            assert(data@.take(placed as int) + rest@ =~= data@);
            extent::lemma_file_bytes_concat(old_extents, new, bs);
            extent::lemma_file_bytes_len(old_extents, bs);
            extent::lemma_file_bytes_len(new, bs);
            assert(extent::file_bytes(old_extents, bs).subrange(offset as int, offset + placed)
                + extent::file_bytes(new, bs).subrange(0, rest@.len() as int)
                =~= extent::file_bytes(old_extents + new, bs).subrange(
                offset as int,
                offset + data@.len(),
            ));
            consistency::lemma_concat_valid(old_extents, new, bs);
        }
        slices.append(&mut more);
        assert(slices@ =~= first + second);
        // Merge old extents with new extents and update the metadata.
        let end: u64 = offset + len as u64;
        let size: u64 = if end > attr.size {
            end
        } else {
            attr.size
        };
        let new_attr = attributes_resized(attr, size, new_extents, modified, changed);
        proof {
            if consistency::sound(before) {
                consistency::lemma_record_keeps_sound(self@, inode as int, new_attr@, new);
            }
        }
        self.set_inode_attr(inode, new_attr);
        assert((old_extents + new).skip(old_extents.len() as int) =~= new);
        FileWrite { slices, result: Ok(len as u64) }
    }
}

} // verus!
