//! Reading and writing the contents of directories.
//!
//! A directory is a file that holds its entries as bytes. What the bytes mean is left to
//! whoever asks.

use crate::allocator;
use crate::consistency;
use crate::directory::DirectoryEntries;
use crate::errno::Errno;
use crate::extent;
use crate::extent::Extent;
use crate::extent::ReadSlice;
use crate::extent::WriteSlice;
use crate::fs;
use crate::fs::attributes_accessed;
use crate::fs::attributes_resized;
use crate::fs::FuseFS;
use crate::inode;
use crate::inode::Time;
use crate::meta::Metadata;
use crate::mode::FileKind;
use crate::time;
use crate::time::time_now;
use vstd::prelude::*;

verus! {

/// A write of a directory that is under way.
#[derive(Debug)]
pub struct DirectoryWrite {
    pub inode: u64,
    /// The number of bytes that the directory will have.
    pub full_size: u64,
    /// What the extents of the directory have no room for, and no extents were found for yet.
    pub rest: Vec<u8>,
    /// Extents that the directory will have besides those it has.
    pub new_extents: Vec<Extent>,
}

/// What a write of a directory comes to next.
#[derive(Debug)]
pub enum DirectoryStep {
    /// Carry out the writes, up to the first that fails, and resume with the outcome.
    Write(Vec<WriteSlice>, DirectoryWrite),
    /// The write is over.
    Done(Result<(), Errno>),
}

/// The write fits the metadata: with the extents that it found, the directory has room for
/// all but the rest.
pub open spec fn write_pending(m: Metadata, w: DirectoryWrite) -> bool {
    let bs = m.superblock.block_size as int;
    let room = extent::capacity(m.table[w.inode as int].extents, bs) + extent::capacity(
        w.new_extents@,
        bs,
    );
    &&& consistency::inode_exists(m, w.inode as int)
    &&& extent::extents_fit(w.new_extents@, bs)
    &&& w.rest@.len() == 0 ==> w.full_size <= room
    &&& w.rest@.len() > 0 ==> w.new_extents@.len() == 0 && w.full_size == room + w.rest@.len()
}

/// How a write of `bytes` to a directory starts: with what the directory has room for.
pub open spec fn directory_write_started(
    m: Metadata,
    inode: u64,
    bytes: Seq<u8>,
    step: DirectoryStep,
) -> bool {
    let attr = m.table[inode as int];
    let bs = m.superblock.block_size as int;
    let placed = extent::placed_bytes(
        extent::capacity(attr.extents, bs),
        0,
        bytes.len() as int,
    );
    if !consistency::inode_exists(m, inode as int) {
        step == DirectoryStep::Done(Err(Errno::ENOENT))
    } else if attr.kind != FileKind::Directory {
        step == DirectoryStep::Done(Err(Errno::ENOTDIR))
    } else {
        &&& step matches DirectoryStep::Write(slices, w)
        &&& extent::write_payload(slices@) == bytes.take(placed)
        &&& extent::write_positions(slices@) == extent::file_bytes(attr.extents, bs).subrange(
            0,
            placed,
        )
        &&& w.inode == inode
        &&& w.full_size == bytes.len()
        &&& w.rest@ == bytes.skip(placed)
        &&& w.new_extents@.len() == 0
    }
}

/// How a write of a directory goes on.
///
/// - Where the store failed, the write fails.
/// - Where bytes are left, they go into new blocks; without enough of those the write fails.
/// - Else the size and the new extents are recorded, and the write is done.
pub open spec fn directory_write_resumed(
    before: Metadata,
    after: Metadata,
    w: DirectoryWrite,
    outcome: Result<(), Errno>,
    step: DirectoryStep,
) -> bool {
    let bs = before.superblock.block_size as int;
    let count = inode::blocks_for(w.rest@.len() as int, bs);
    match outcome {
        Err(e) => step == DirectoryStep::Done(Err(e)) && after == before,
        Ok(_) => if w.rest@.len() == 0 {
            &&& step == DirectoryStep::Done(Ok(()))
            &&& after == fs::resized(
                before,
                w.inode as int,
                w.full_size,
                w.new_extents@,
                after.table[w.inode as int].last_modified,
                after.table[w.inode as int].last_metadata_changed,
            )
        } else if count > allocator::free_count(before.blocks) {
            step == DirectoryStep::Done(Err(Errno::ENOSPC)) && after == before
        } else {
            &&& step matches DirectoryStep::Write(slices, next)
            &&& allocator::is_first_fit(before.blocks, count, next.new_extents@)
            &&& after == consistency::with_blocks(before, next.new_extents@)
            &&& extent::write_payload(slices@) == w.rest@
            &&& extent::write_positions(slices@) == extent::file_bytes(
                next.new_extents@,
                bs,
            ).subrange(0, w.rest@.len() as int)
            &&& next.inode == w.inode
            &&& next.full_size == w.full_size
            &&& next.rest@.len() == 0
        },
    }
}

impl FuseFS {
    /// The slices of the store that hold a directory: all its extents, in order.
    pub fn read_directory(&self, inode: u64) -> (slices: Result<Vec<ReadSlice>, Errno>)
        requires
            self.wf(),
        ensures
            match slices {
                Ok(slices) => {
                    &&& consistency::inode_exists(self@, inode as int)
                    &&& self@.table[inode as int].kind == FileKind::Directory
                    &&& extent::read_positions(slices@) == extent::file_bytes(
                        self@.table[inode as int].extents,
                        self@.superblock.block_size as int,
                    )
                },
                Err(e) => if consistency::inode_exists(self@, inode as int) {
                    e == Errno::ENOTDIR && self@.table[inode as int].kind
                        != FileKind::Directory
                } else {
                    e == Errno::ENOENT
                },
            },
    {
        let attr = match self.get_inode_attr(inode) {
            Ok(i) => i,
            Err(e) => return Err(e),
        };
        // Check that inode is actually a directory.
        if attr.kind != FileKind::Directory {
            return Err(Errno::ENOTDIR);
        }
        Ok(extent::all_slices(&attr.extent_index, self.superblock().block_size))
    }

    /// The contents of a directory, out of all the bytes of its extents: as many as its size
    /// says.
    pub fn directory_contents(&self, inode: u64, bytes: Vec<u8>) -> (contents: Vec<u8>)
        requires
            self.wf(),
            consistency::inode_exists(self@, inode as int),
            self@.table[inode as int].size <= bytes@.len(),
        ensures
            contents@ == bytes@.take(self@.table[inode as int].size as int),
    {
        let mut contents = bytes;
        let len: usize = contents.len();
        match self.get_inode_attr(inode) {
            Ok(attr) => {
                contents.truncate(attr.size as usize);
            },
            Err(_) => {},
        }
        contents
    }

    /// The entries that the contents of a directory stand for, once they were read: `None`
    /// where they stand for none.
    pub fn finish_read_directory(
        &mut self,
        inode: u64,
        entries: Option<DirectoryEntries>,
    ) -> (r: Result<DirectoryEntries, Errno>)
        requires
            old(self).wf(),
            consistency::inode_exists(old(self)@, inode as int),
        ensures
            match entries {
                Some(found) => {
                    &&& r == Result::<DirectoryEntries, Errno>::Ok(found)
                    &&& final(self)@ == fs::accessed(
                        old(self)@,
                        inode as int,
                        final(self)@.table[inode as int].last_accessed,
                    )
                },
                None => {
                    &&& r == Result::<DirectoryEntries, Errno>::Err(Errno::EINVAL)
                    &&& final(self)@ == old(self)@
                },
            },
            entries is Some ==> time::is_clock_time(
                final(self)@.table[inode as int].last_accessed,
            ),
            final(self).wf(),
            consistency::sound(old(self)@) ==> consistency::sound(final(self)@),
    {
        self.finish_read_directory_as_of(inode, entries, time_now())
    }

    /// The entries that the contents of a directory stand for, once they were read, when the
    /// clock shows `now`.
    pub fn finish_read_directory_as_of(
        &mut self,
        inode: u64,
        entries: Option<DirectoryEntries>,
        now: Time,
    ) -> (r: Result<DirectoryEntries, Errno>)
        requires
            old(self).wf(),
            consistency::inode_exists(old(self)@, inode as int),
        ensures
            match entries {
                Some(found) => {
                    &&& r == Result::<DirectoryEntries, Errno>::Ok(found)
                    &&& final(self)@ == fs::accessed(old(self)@, inode as int, now)
                },
                None => {
                    &&& r == Result::<DirectoryEntries, Errno>::Err(Errno::EINVAL)
                    &&& final(self)@ == old(self)@
                },
            },
            final(self).wf(),
            consistency::sound(old(self)@) ==> consistency::sound(final(self)@),
    {
        let found = match entries {
            Some(found) => found,
            None => return Err(Errno::EINVAL),
        };
        let attr = match self.get_inode_attr(inode) {
            Ok(i) => i,
            Err(e) => return Err(e),
        };
        let new_attr = attributes_accessed(attr, now);
        proof {
            if consistency::sound(self@) {
                consistency::lemma_entry_keeps_sound(self@, inode as int, new_attr@);
            }
        }
        self.set_inode_attr(inode, new_attr);
        Ok(found)
    }

    /// Starts to replace the contents of a directory with `bytes`.
    pub fn write_directory(&self, inode: u64, bytes: &Vec<u8>) -> (step: DirectoryStep)
        requires
            self.wf(),
        ensures
            directory_write_started(self@, inode, bytes@, step),
            step matches DirectoryStep::Write(_, w) ==> write_pending(self@, w)
                && consistency::reserved(self@, w.new_extents@),
    {
        let ghost bs = self@.superblock.block_size as int;
        let attr = match self.get_inode_attr(inode) {
            Ok(i) => i,
            Err(e) => return DirectoryStep::Done(Err(e)),
        };
        // Check that inode is actually a directory.
        if attr.kind != FileKind::Directory {
            return DirectoryStep::Done(Err(Errno::ENOTDIR));
        }
        let len: usize = bytes.len();
        let (slices, placed) = extent::plan_write(
            &attr.extent_index,
            self.superblock().block_size,
            0,
            bytes.as_slice(),
        );
        let rest = vstd::slice::slice_to_vec(
            vstd::slice::slice_subrange(bytes.as_slice(), placed, len),
        );
        proof {
            extent::lemma_file_bytes_len(attr@.extents, bs);
            assert(rest@ =~= bytes@.skip(placed as int));
            assert(0 * bs == 0) by (nonlinear_arith);
            assert(extent::block_total(Seq::<Extent>::empty()) == 0);
        }
        DirectoryStep::Write(
            slices,
            DirectoryWrite { inode, full_size: len as u64, rest, new_extents: Vec::new() },
        )
    }

    /// Goes on with a write of a directory, after the writes to the store.
    pub fn resume_write_directory(
        &mut self,
        w: DirectoryWrite,
        outcome: Result<(), Errno>,
    ) -> (step: DirectoryStep)
        requires
            old(self).wf(),
            write_pending(old(self)@, w),
        ensures
            directory_write_resumed(old(self)@, final(self)@, w, outcome, step),
            step == DirectoryStep::Done(Ok(())) ==> time::is_clock_time(
                final(self)@.table[w.inode as int].last_modified,
            ) && time::is_clock_time(final(self)@.table[w.inode as int].last_metadata_changed),
            step matches DirectoryStep::Write(_, next) ==> write_pending(final(self)@, next),
            final(self).wf(),
            consistency::sound(old(self)@) && consistency::reserved(old(self)@, w.new_extents@)
                ==> consistency::sound(final(self)@),
            consistency::sound(old(self)@) && consistency::reserved(old(self)@, w.new_extents@)
                ==> (step matches DirectoryStep::Write(_, next) ==> consistency::reserved(
                final(self)@,
                next.new_extents@,
            )),
    {
        self.resume_write_directory_as_of(w, outcome, time_now(), time_now())
    }

    /// Goes on with a write of a directory, after the writes to the store. If the write is
    /// done, the directory was modified, and its metadata changed, at the times given.
    pub fn resume_write_directory_as_of(
        &mut self,
        w: DirectoryWrite,
        outcome: Result<(), Errno>,
        modified: Time,
        changed: Time,
    ) -> (step: DirectoryStep)
        requires
            old(self).wf(),
            write_pending(old(self)@, w),
        ensures
            directory_write_resumed(old(self)@, final(self)@, w, outcome, step),
            step == DirectoryStep::Done(Ok(()))
                ==> final(self)@.table[w.inode as int].last_modified == modified
                && final(self)@.table[w.inode as int].last_metadata_changed == changed,
            step matches DirectoryStep::Write(_, next) ==> write_pending(final(self)@, next),
            final(self).wf(),
            consistency::sound(old(self)@) && consistency::reserved(old(self)@, w.new_extents@)
                ==> consistency::sound(final(self)@),
            consistency::sound(old(self)@) && consistency::reserved(old(self)@, w.new_extents@)
                ==> (step matches DirectoryStep::Write(_, next) ==> consistency::reserved(
                final(self)@,
                next.new_extents@,
            )),
    {
        let ghost before = self@;
        let ghost bs = before.superblock.block_size as int;
        let ghost i = w.inode as int;
        if let Err(e) = outcome {
            return DirectoryStep::Done(Err(e));
        }
        if w.rest.len() == 0 {
            let attr = match self.get_inode_attr(w.inode) {
                Ok(a) => a,
                Err(e) => return DirectoryStep::Done(Err(e)),
            };
            let ghost new = w.new_extents@;
            proof {
                consistency::lemma_concat_valid(attr@.extents, new, bs);
            }
            let new_attr = attributes_resized(
                attr,
                w.full_size,
                w.new_extents,
                modified,
                changed,
            );
            proof {
                if consistency::sound(before) && consistency::reserved(before, new) {
                    consistency::lemma_record_keeps_sound(before, i, new_attr@, new);
                }
            }
            self.set_inode_attr(w.inode, new_attr);
            return DirectoryStep::Done(Ok(()));
        }
        // There are more bytes to write, and some more extents are needed.
        let new_extents = match self.allocate_blocks(w.rest.len()) {
            Some(exs) => exs,
            None => return DirectoryStep::Done(Err(Errno::ENOSPC)),
        };
        let (slices, placed) = extent::plan_write(
            &new_extents,
            self.superblock().block_size,
            0,
            w.rest.as_slice(),
        );
        proof {
            consistency::lemma_room_for(w.rest@.len() as int, bs);
            assert(placed == w.rest@.len());
            assert(w.rest@.take(placed as int) =~= w.rest@);
            assert(0 * bs == 0) by (nonlinear_arith);
            assert(extent::block_total(w.new_extents@) == 0);
        }
        DirectoryStep::Write(
            slices,
            DirectoryWrite {
                inode: w.inode,
                full_size: w.full_size,
                rest: Vec::new(),
                new_extents,
            },
        )
    }
}

} // verus!
