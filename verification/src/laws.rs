//! What the file system as a whole promises.

use crate::allocator;
use crate::consistency;
use crate::directory;
use crate::directory::DirectoryEntries;
use crate::directory::Entry;
use crate::directory_io;
use crate::directory_io::DirectoryStep;
use crate::directory_io::DirectoryWrite;
use crate::errno::Errno;
use crate::extent;
use crate::extent::Extent;
use crate::extent::ReadSlice;
use crate::extent::WriteSlice;
use crate::fs;
use crate::fs::FileWrite;
use crate::inode;
use crate::meta;
use crate::meta::Metadata;
use crate::requests;
use crate::requests::CreateRequest;
use crate::requests::CreateStep;
use crate::requests::Created;
use crate::requests::ListedEntry;
use vstd::prelude::*;

verus! {

/// The store is as long as the blocks of the file system need it.
pub open spec fn store_fits(store: Seq<u8>, m: Metadata) -> bool {
    m.blocks.len() * m.superblock.block_size <= store.len()
}

/// All the bytes that the extents of a file hold in the store.
pub open spec fn image(store: Seq<u8>, m: Metadata, inode: int) -> Seq<u8> {
    extent::file_image(store, m.table[inode].extents, m.superblock.block_size as int)
}

/// Blocks that an allocation takes and a file is given leave the file's extents disjoint, and
/// share nothing with those of other files.
proof fn lemma_grown(before: Metadata, inode: int, count: int, new: Seq<Extent>)
    requires
        consistency::sound(before),
        0 <= inode < before.table.len(),
        allocator::is_first_fit(before.blocks, count, new),
    ensures
        extent::extents_disjoint(before.table[inode].extents + new),
        consistency::blocks_in_use(
            consistency::with_blocks(before, new),
            before.table[inode].extents + new,
        ),
        forall|j: int|
            0 <= j < before.table.len() && j != inode ==> extent::no_shared_block(
                before.table[inode].extents + new,
                (#[trigger] before.table[j]).extents,
            ),
{
    let mid = consistency::with_blocks(before, new);
    let attr = crate::inode::Attributes {
        extents: before.table[inode].extents + new,
        ..before.table[inode]
    };
    consistency::lemma_allocated_reserved(before, count, new);
    consistency::lemma_record_keeps_sound(mid, inode, attr, new);
    let after = consistency::with_entry(mid, inode, attr);
    assert(after.table[inode] == attr);
    assert(consistency::blocks_in_use(after, after.table[inode].extents));
    assert forall|j: int|
        0 <= j < before.table.len() && j != inode implies extent::no_shared_block(
        before.table[inode].extents + new,
        (#[trigger] before.table[j]).extents,
    ) by {
        assert(after.table[j] == before.table[j]);
        assert(extent::no_shared_block(after.table[inode].extents, after.table[j].extents));
    }
}

/// How the data of a write that succeeds lies in the extents that the file has afterwards: in
/// those that it had, and in new ones for the rest.
proof fn lemma_written(
    before: Metadata,
    after: Metadata,
    inode: u64,
    data: Seq<u8>,
    offset: u64,
    w: FileWrite,
)
    requires
        consistency::valid(before),
        fs::file_written(before, after, inode, data, offset, w),
        w.result is Ok,
    ensures
        ({
            let bs = before.superblock.block_size as int;
            let had = before.table[inode as int].extents;
            let all = after.table[inode as int].extents;
            let new = all.skip(had.len() as int);
            let placed = extent::placed_bytes(
                extent::capacity(had, bs),
                offset as int,
                data.len() as int,
            );
            &&& all == had + new
            &&& allocator::is_first_fit(
                before.blocks,
                inode::blocks_for(data.len() - placed, bs),
                new,
            )
            &&& after.blocks == allocator::marked(before.blocks, new)
            &&& after.superblock == before.superblock
            &&& extent::write_payload(w.slices@) == data
            &&& offset + data.len() <= extent::file_bytes(all, bs).len()
            &&& extent::write_positions(w.slices@) == extent::file_bytes(all, bs).subrange(
                offset as int,
                offset + data.len(),
            )
        }),
{
    let bs = before.superblock.block_size as int;
    let had = before.table[inode as int].extents;
    let all = after.table[inode as int].extents;
    let new = all.skip(had.len() as int);
    let placed = extent::placed_bytes(
        extent::capacity(had, bs),
        offset as int,
        data.len() as int,
    );
    let rest = data.len() - placed;
    assert(consistency::entry_valid(before.table[inode as int], bs));
    assert(all == had + new);
    extent::lemma_file_bytes_concat(had, new, bs);
    extent::lemma_file_bytes_len(had, bs);
    extent::lemma_file_bytes_len(new, bs);
    consistency::lemma_room_for(rest, bs);
    if data.len() == 0 {
        assert(new =~= Seq::<Extent>::empty());
        assert(allocator::marked(before.blocks, new) =~= before.blocks);
        assert(extent::write_payload(w.slices@) =~= data);
        assert(extent::write_positions(w.slices@) =~= extent::file_bytes(all, bs).subrange(
            offset as int,
            offset as int,
        ));
    }
}

/// The extents that a write goes to: those that the file has afterwards.
spec fn written_to(before: Metadata, after: Metadata, inode: u64, w: FileWrite) -> Seq<Extent> {
    if w.result is Ok {
        after.table[inode as int].extents
    } else {
        before.table[inode as int].extents
    }
}

/// Where a write goes, whether it succeeds or not: to blocks in use that no other file has.
proof fn lemma_written_to(
    before: Metadata,
    after: Metadata,
    inode: u64,
    data: Seq<u8>,
    offset: u64,
    w: FileWrite,
)
    requires
        consistency::valid(before),
        consistency::sound(before),
        fs::file_written(before, after, inode, data, offset, w),
        consistency::inode_exists(before, inode as int),
        offset <= before.table[inode as int].size,
    ensures
        ({
            let bs = before.superblock.block_size as int;
            let all = written_to(before, after, inode, w);
            let bytes = extent::file_bytes(all, bs);
            let count = extent::write_payload(w.slices@).len();
            &&& after.superblock == before.superblock
            &&& after.blocks.len() == before.blocks.len()
            &&& consistency::blocks_in_use(after, all)
            &&& forall|j: int|
                0 <= j < before.table.len() && j != inode ==> extent::no_shared_block(
                    all,
                    (#[trigger] before.table[j]).extents,
                )
            &&& offset + count <= bytes.len()
            &&& extent::write_positions(w.slices@) == bytes.subrange(
                offset as int,
                offset + count,
            )
        }),
{
    let bs = before.superblock.block_size as int;
    let had = before.table[inode as int].extents;
    let placed = extent::placed_bytes(
        extent::capacity(had, bs),
        offset as int,
        data.len() as int,
    );
    assert(consistency::entry_valid(before.table[inode as int], bs));
    assert(consistency::blocks_in_use(before, had));
    extent::lemma_file_bytes_len(had, bs);
    if w.result is Ok {
        lemma_written(before, after, inode, data, offset, w);
        let new = after.table[inode as int].extents.skip(had.len() as int);
        lemma_grown(before, inode as int, inode::blocks_for(data.len() - placed, bs), new);
    }
}

/// After a write, the file is what it was with the data at the offset.
pub proof fn lemma_write_changes_file(
    before: Metadata,
    after: Metadata,
    inode: u64,
    data: Seq<u8>,
    offset: u64,
    w: FileWrite,
    store: Seq<u8>,
)
    requires
        consistency::valid(before),
        consistency::sound(before),
        store_fits(store, before),
        fs::file_written(before, after, inode, data, offset, w),
        w.result is Ok,
    ensures
        image(extent::apply_writes(store, w.slices@), after, inode as int) == extent::overwrite(
            image(store, after, inode as int),
            offset as int,
            data,
        ),
        offset + data.len() <= image(store, after, inode as int).len(),
{
    let bs = before.superblock.block_size as int;
    let all = after.table[inode as int].extents;
    lemma_written(before, after, inode, data, offset, w);
    lemma_written_to(before, after, inode, data, offset, w);
    consistency::lemma_store_holds(after, all, store);
    extent::lemma_write_changes_file(store, all, bs, w.slices@, offset as int);
}

/// A write leaves the bytes that the file had elsewhere as they were.
pub proof fn lemma_write_keeps_rest_of_file(
    before: Metadata,
    after: Metadata,
    inode: u64,
    data: Seq<u8>,
    offset: u64,
    w: FileWrite,
    store: Seq<u8>,
    i: int,
)
    requires
        consistency::valid(before),
        consistency::sound(before),
        store_fits(store, before),
        fs::file_written(before, after, inode, data, offset, w),
        w.result is Ok,
        0 <= i < before.table[inode as int].size,
        !(offset <= i < offset + data.len()),
    ensures
        image(extent::apply_writes(store, w.slices@), after, inode as int)[i] == image(
            store,
            before,
            inode as int,
        )[i],
{
    let bs = before.superblock.block_size as int;
    let attr = before.table[inode as int];
    let all = after.table[inode as int].extents;
    lemma_write_changes_file(before, after, inode, data, offset, w, store);
    assert(consistency::entry_valid(attr, bs));
    extent::lemma_file_bytes_len(attr.extents, bs);
    lemma_written(before, after, inode, data, offset, w);
    extent::lemma_file_bytes_concat(attr.extents, all.skip(attr.extents.len() as int), bs);
    assert(extent::file_bytes(all, bs)[i] == extent::file_bytes(attr.extents, bs)[i]);
}

/// The writes all lie in the store, and put no two different bytes at one place of it.
pub open spec fn placeable(store: Seq<u8>, slices: Seq<WriteSlice>) -> bool {
    &&& extent::bytes_agree(extent::write_positions(slices), extent::write_payload(slices))
    &&& forall|i: int|
        0 <= i < extent::write_positions(slices).len() ==> 0 <= #[trigger] extent::write_positions(
            slices,
        )[i] < store.len()
}

/// What is at the places of writes that were carried out is what was written.
proof fn lemma_placed(store: Seq<u8>, slices: Seq<WriteSlice>)
    requires
        placeable(store, slices),
    ensures
        extent::bytes_at(
            extent::apply_writes(store, slices),
            extent::write_positions(slices),
        ) == extent::write_payload(slices),
{
    extent::lemma_apply_writes(store, slices);
    assert(extent::bytes_at(
        extent::apply_writes(store, slices),
        extent::write_positions(slices),
    ) =~= extent::write_payload(slices));
}

/// Writes to distinct blocks of the file system can be placed in its store.
proof fn lemma_blocks_placeable(
    m: Metadata,
    extents: Seq<Extent>,
    slices: Seq<WriteSlice>,
    start: int,
    store: Seq<u8>,
)
    requires
        m.superblock.block_size > 0,
        consistency::blocks_in_use(m, extents),
        store_fits(store, m),
        0 <= start,
        start + extent::write_positions(slices).len() <= extent::file_bytes(
            extents,
            m.superblock.block_size as int,
        ).len(),
        extent::write_positions(slices) == extent::file_bytes(
            extents,
            m.superblock.block_size as int,
        ).subrange(start, start + extent::write_positions(slices).len()),
    ensures
        placeable(store, slices),
{
    let bs = m.superblock.block_size as int;
    let bytes = extent::file_bytes(extents, bs);
    let at = extent::write_positions(slices);
    extent::lemma_file_bytes_distinct(extents, bs);
    consistency::lemma_store_holds(m, extents, store);
    assert forall|i: int, j: int|
        #![trigger at[i], at[j]]
        0 <= i < at.len() && 0 <= j < at.len() && at[i] == at[j] implies i == j by {
        assert(at[i] == bytes[start + i] && at[j] == bytes[start + j]);
    }
    assert forall|i: int| 0 <= i < at.len() implies 0 <= #[trigger] at[i] < store.len() by {
        assert(at[i] == bytes[start + i]);
    }
}

/// What is read back is what was written.
pub proof fn lemma_read_after_write(
    before: Metadata,
    after: Metadata,
    later: Metadata,
    inode: u64,
    data: Seq<u8>,
    offset: u64,
    w: FileWrite,
    r: Result<Vec<ReadSlice>, Errno>,
    store: Seq<u8>,
)
    requires
        consistency::valid(before),
        data.len() <= u32::MAX,
        offset + data.len() <= u64::MAX,
        fs::file_written(before, after, inode, data, offset, w),
        w.result is Ok,
        placeable(store, w.slices@),
        fs::file_read(after, later, inode, offset, data.len() as u32, r),
    ensures
        r matches Ok(slices) && extent::read_back(
            extent::apply_writes(store, w.slices@),
            slices@,
        ) == data,
{
    lemma_written(before, after, inode, data, offset, w);
    lemma_placed(store, w.slices@);
}

/// The writes of a sound file system can be placed in its store, whether the write to the file
/// succeeds or not.
pub proof fn lemma_write_is_placeable(
    before: Metadata,
    after: Metadata,
    inode: u64,
    data: Seq<u8>,
    offset: u64,
    w: FileWrite,
    store: Seq<u8>,
)
    requires
        consistency::valid(before),
        consistency::sound(before),
        store_fits(store, before),
        fs::file_written(before, after, inode, data, offset, w),
    ensures
        placeable(store, w.slices@),
{
    if consistency::inode_exists(before, inode as int) && offset
        <= before.table[inode as int].size {
        lemma_written_to(before, after, inode, data, offset, w);
        extent::lemma_write_lengths(w.slices@);
        lemma_blocks_placeable(
            after,
            written_to(before, after, inode, w),
            w.slices@,
            offset as int,
            store,
        );
    }
}

/// A write to one file, whether it succeeds or not, leaves every other file as it was.
pub proof fn lemma_write_keeps_other_files(
    before: Metadata,
    after: Metadata,
    inode: u64,
    data: Seq<u8>,
    offset: u64,
    w: FileWrite,
    store: Seq<u8>,
    other: int,
)
    requires
        consistency::valid(before),
        consistency::sound(before),
        store_fits(store, before),
        fs::file_written(before, after, inode, data, offset, w),
        0 <= other < before.table.len(),
        other != inode,
    ensures
        after.table[other] == before.table[other],
        image(extent::apply_writes(store, w.slices@), after, other) == image(store, before, other),
{
    let bs = before.superblock.block_size as int;
    let others = before.table[other].extents;
    assert(consistency::blocks_in_use(before, others));
    consistency::lemma_store_holds(before, others, store);
    if consistency::inode_exists(before, inode as int) && offset
        <= before.table[inode as int].size {
        lemma_written_to(before, after, inode, data, offset, w);
        extent::lemma_write_keeps_other_file(
            store,
            written_to(before, after, inode, w),
            others,
            bs,
            w.slices@,
            offset as int,
        );
    }
}

/// What was placed at the first bytes of a directory is what is read of it.
proof fn lemma_directory_read_back(
    store: Seq<u8>,
    slices: Seq<WriteSlice>,
    read: Seq<ReadSlice>,
)
    requires
        placeable(store, slices),
        extent::write_positions(slices).len() <= extent::read_positions(read).len(),
        extent::write_positions(slices) == extent::read_positions(read).take(
            extent::write_positions(slices).len() as int,
        ),
    ensures
        extent::read_back(extent::apply_writes(store, slices), read).take(
            extent::write_positions(slices).len() as int,
        ) == extent::write_payload(slices),
{
    let at = extent::write_positions(slices);
    let stored = extent::apply_writes(store, slices);
    lemma_placed(store, slices);
    assert(extent::read_back(stored, read).take(at.len() as int) =~= extent::bytes_at(
        stored,
        at,
    )) by {
        assert forall|i: int| 0 <= i < at.len() implies #[trigger] at[i]
            == extent::read_positions(read)[i] by {
            assert(at[i] == extent::read_positions(read).take(at.len() as int)[i]);
        }
    }
}

/// Contents that a directory has room for are read back once they were written, and nothing
/// of what it held before.
pub proof fn lemma_directory_rewritten(
    before: Metadata,
    after: Metadata,
    inode: u64,
    bytes: Seq<u8>,
    slices: Vec<WriteSlice>,
    w: DirectoryWrite,
    read: Seq<ReadSlice>,
    store: Seq<u8>,
)
    requires
        consistency::valid(before),
        directory_io::directory_write_started(
            before,
            inode,
            bytes,
            DirectoryStep::Write(slices, w),
        ),
        w.rest@.len() == 0,
        directory_io::directory_write_resumed(
            before,
            after,
            w,
            Ok(()),
            DirectoryStep::Done(Ok(())),
        ),
        placeable(store, slices@),
        extent::read_positions(read) == extent::file_bytes(
            after.table[inode as int].extents,
            after.superblock.block_size as int,
        ),
    ensures
        after.table[inode as int].size == bytes.len(),
        extent::read_back(extent::apply_writes(store, slices@), read).take(bytes.len() as int)
            == bytes,
{
    let bs = before.superblock.block_size as int;
    let attr = before.table[inode as int];
    assert(after.table[inode as int].extents =~= attr.extents);
    extent::lemma_file_bytes_len(attr.extents, bs);
    let room = extent::capacity(attr.extents, bs);
    let placed = extent::placed_bytes(room, 0, bytes.len() as int);
    assert(placed == bytes.len());
    assert(bytes.take(placed) =~= bytes);
    lemma_directory_read_back(store, slices@, read);
}

/// Contents that a directory grew for are read back once they were written, and nothing of
/// what it held before.
pub proof fn lemma_directory_grown(
    before: Metadata,
    mid: Metadata,
    after: Metadata,
    inode: u64,
    bytes: Seq<u8>,
    first: Vec<WriteSlice>,
    w: DirectoryWrite,
    second: Vec<WriteSlice>,
    next: DirectoryWrite,
    read: Seq<ReadSlice>,
    store: Seq<u8>,
)
    requires
        consistency::valid(before),
        directory_io::directory_write_started(
            before,
            inode,
            bytes,
            DirectoryStep::Write(first, w),
        ),
        w.rest@.len() > 0,
        directory_io::directory_write_resumed(
            before,
            mid,
            w,
            Ok(()),
            DirectoryStep::Write(second, next),
        ),
        directory_io::directory_write_resumed(
            mid,
            after,
            next,
            Ok(()),
            DirectoryStep::Done(Ok(())),
        ),
        placeable(store, first@ + second@),
        extent::read_positions(read) == extent::file_bytes(
            after.table[inode as int].extents,
            after.superblock.block_size as int,
        ),
    ensures
        after.table[inode as int].size == bytes.len(),
        extent::read_back(
            extent::apply_writes(extent::apply_writes(store, first@), second@),
            read,
        ).take(bytes.len() as int) == bytes,
{
    lemma_grown_positions(before, mid, after, inode, bytes, first, w, second, next);
    extent::lemma_writes_concat(store, first@, second@);
    lemma_directory_read_back(store, first@ + second@, read);
}

/// Both writes of a directory that grows go to the first bytes of the extents that it has in
/// the end, in order.
proof fn lemma_grown_positions(
    before: Metadata,
    mid: Metadata,
    after: Metadata,
    inode: u64,
    bytes: Seq<u8>,
    first: Vec<WriteSlice>,
    w: DirectoryWrite,
    second: Vec<WriteSlice>,
    next: DirectoryWrite,
)
    requires
        consistency::valid(before),
        directory_io::directory_write_started(
            before,
            inode,
            bytes,
            DirectoryStep::Write(first, w),
        ),
        w.rest@.len() > 0,
        directory_io::directory_write_resumed(
            before,
            mid,
            w,
            Ok(()),
            DirectoryStep::Write(second, next),
        ),
        directory_io::directory_write_resumed(
            mid,
            after,
            next,
            Ok(()),
            DirectoryStep::Done(Ok(())),
        ),
    ensures
        after.table[inode as int].extents == before.table[inode as int].extents
            + next.new_extents@,
        bytes.len() <= extent::file_bytes(
            after.table[inode as int].extents,
            before.superblock.block_size as int,
        ).len(),
        extent::write_payload(first@ + second@) == bytes,
        extent::write_positions(first@ + second@) == extent::file_bytes(
            after.table[inode as int].extents,
            before.superblock.block_size as int,
        ).subrange(0, bytes.len() as int),
{
    let bs = before.superblock.block_size as int;
    let attr = before.table[inode as int];
    let new = next.new_extents@;
    let all = after.table[inode as int].extents;
    let room = extent::capacity(attr.extents, bs);
    let placed = extent::placed_bytes(room, 0, bytes.len() as int);
    let rest = bytes.len() - placed;
    assert(consistency::entry_valid(attr, bs));
    assert(all == attr.extents + new);
    extent::lemma_file_bytes_concat(attr.extents, new, bs);
    extent::lemma_file_bytes_len(attr.extents, bs);
    extent::lemma_file_bytes_len(new, bs);
    consistency::lemma_room_for(rest, bs);
    extent::lemma_writes_concat(Seq::empty(), first@, second@);
    assert(bytes.take(placed) + bytes.skip(placed) =~= bytes);
    assert(extent::file_bytes(attr.extents, bs).subrange(0, placed) + extent::file_bytes(
        new,
        bs,
    ).subrange(0, rest) =~= extent::file_bytes(all, bs).subrange(0, bytes.len() as int));
}

/// The writes to a directory of a sound file system can be placed in its store.
pub proof fn lemma_directory_write_is_placeable(
    m: Metadata,
    inode: u64,
    bytes: Seq<u8>,
    slices: Vec<WriteSlice>,
    w: DirectoryWrite,
    store: Seq<u8>,
)
    requires
        consistency::valid(m),
        consistency::sound(m),
        store_fits(store, m),
        directory_io::directory_write_started(m, inode, bytes, DirectoryStep::Write(slices, w)),
    ensures
        placeable(store, slices@),
{
    let attr = m.table[inode as int];
    assert(consistency::blocks_in_use(m, attr.extents));
    extent::lemma_file_bytes_len(attr.extents, m.superblock.block_size as int);
    lemma_blocks_placeable(m, attr.extents, slices@, 0, store);
}

/// All the writes to a directory of a sound file system that grows can be placed in its store.
pub proof fn lemma_directory_growth_is_placeable(
    before: Metadata,
    mid: Metadata,
    after: Metadata,
    inode: u64,
    bytes: Seq<u8>,
    first: Vec<WriteSlice>,
    w: DirectoryWrite,
    second: Vec<WriteSlice>,
    next: DirectoryWrite,
    store: Seq<u8>,
)
    requires
        consistency::valid(before),
        consistency::sound(before),
        store_fits(store, before),
        directory_io::directory_write_started(
            before,
            inode,
            bytes,
            DirectoryStep::Write(first, w),
        ),
        w.rest@.len() > 0,
        directory_io::directory_write_resumed(
            before,
            mid,
            w,
            Ok(()),
            DirectoryStep::Write(second, next),
        ),
        directory_io::directory_write_resumed(
            mid,
            after,
            next,
            Ok(()),
            DirectoryStep::Done(Ok(())),
        ),
    ensures
        placeable(store, first@ + second@),
{
    let bs = before.superblock.block_size as int;
    lemma_grown_positions(before, mid, after, inode, bytes, first, w, second, next);
    lemma_grown(
        before,
        inode as int,
        inode::blocks_for(w.rest@.len() as int, bs),
        next.new_extents@,
    );
    lemma_blocks_placeable(
        consistency::with_blocks(before, next.new_extents@),
        after.table[inode as int].extents,
        first@ + second@,
        0,
        store,
    );
}

/// The start of a write to a directory leaves every other file as it was.
pub proof fn lemma_directory_start_keeps_other_files(
    m: Metadata,
    inode: u64,
    bytes: Seq<u8>,
    slices: Vec<WriteSlice>,
    w: DirectoryWrite,
    store: Seq<u8>,
    other: int,
)
    requires
        consistency::valid(m),
        consistency::sound(m),
        store_fits(store, m),
        directory_io::directory_write_started(m, inode, bytes, DirectoryStep::Write(slices, w)),
        0 <= other < m.table.len(),
        other != inode,
    ensures
        image(extent::apply_writes(store, slices@), m, other) == image(store, m, other),
{
    let bs = m.superblock.block_size as int;
    let attr = m.table[inode as int];
    let others = m.table[other].extents;
    assert(consistency::blocks_in_use(m, others));
    assert(consistency::blocks_in_use(m, attr.extents));
    assert(extent::no_shared_block(attr.extents, others));
    extent::lemma_file_bytes_len(attr.extents, bs);
    consistency::lemma_store_holds(m, others, store);
    extent::lemma_write_keeps_other_file(store, attr.extents, others, bs, slices@, 0);
}

/// The writes to the new blocks of a directory leave every other file as it was.
pub proof fn lemma_directory_growth_keeps_other_files(
    before: Metadata,
    after: Metadata,
    w: DirectoryWrite,
    slices: Vec<WriteSlice>,
    next: DirectoryWrite,
    store: Seq<u8>,
    other: int,
)
    requires
        consistency::valid(before),
        consistency::sound(before),
        store_fits(store, before),
        consistency::inode_exists(before, w.inode as int),
        directory_io::directory_write_resumed(
            before,
            after,
            w,
            Ok(()),
            DirectoryStep::Write(slices, next),
        ),
        0 <= other < before.table.len(),
    ensures
        after.table[other] == before.table[other],
        image(extent::apply_writes(store, slices@), after, other) == image(store, before, other),
{
    let bs = before.superblock.block_size as int;
    let new = next.new_extents@;
    let others = before.table[other].extents;
    let rest = w.rest@.len() as int;
    consistency::lemma_allocated_reserved(before, inode::blocks_for(rest, bs), new);
    assert(consistency::blocks_in_use(before, others));
    assert(extent::no_shared_block(after.table[other].extents, new));
    assert(extent::no_shared_block(new, others));
    extent::lemma_file_bytes_len(new, bs);
    consistency::lemma_room_for(rest, bs);
    consistency::lemma_store_holds(before, others, store);
    extent::lemma_write_keeps_other_file(store, new, others, bs, slices@, 0);
}

/// What a creation made is found under its name, with the attributes that were told; what
/// other names stand for stays, and the name cannot be given again.
pub proof fn lemma_created_is_found(
    before: Metadata,
    after: Metadata,
    request: CreateRequest,
    inode: u64,
    step: CreateStep,
    created: Created,
    found: DirectoryEntries,
    more: DirectoryEntries,
)
    requires
        consistency::valid(before),
        requests::first_available(before.inodes, inode),
        requests::inode_created(before, after, request, inode, step),
        step == CreateStep::ReadParent(created) || (step matches CreateStep::WriteOwn(c, _) && c
            == created),
        request.name is Some,
        requests::name_entered(found@, more@, request.name->0@, created),
    ensures
        requests::lookup_result(after, Ok(more), requests::name_view(request.name)) == Ok::<
            u64,
            Errno,
        >(inode),
        requests::attr_reply(after, inode) == Ok::<crate::inode::FileAttr, Errno>(created.attr),
        forall|n: Seq<char>|
            n != request.name->0@ ==> #[trigger] requests::lookup_result(
                after,
                Ok(more),
                Some(n),
            ) == requests::lookup_result(after, Ok(found), Some(n)),
        forall|later: Metadata, again: CreateRequest, answer: CreateStep|
            #[trigger] requests::create_started(after, later, again, Ok(more), answer)
                && requests::name_view(again.name) == requests::name_view(request.name)
                ==> answer == CreateStep::Reply(Err(Errno::EEXIST)) && later == after,
{
    assert(directory::entry_for(more@, request.name->0@) == Some((inode, created.kind)));
    assert(after.inodes =~= before.inodes.update(inode as int, true));
    assert(after.table.len() == before.table.len());
    assert forall|n: Seq<char>|
        n != request.name->0@ implies #[trigger] requests::lookup_result(
        after,
        Ok(more),
        Some(n),
    ) == requests::lookup_result(after, Ok(found), Some(n)) by {
        assert(directory::entry_for(more@, n) == directory::entry_for(found@, n));
    }
}

/// A creation takes an inode that was free, and leaves alone every file but the new one and
/// the directory that it is in, of which only the times change.
pub proof fn lemma_create_keeps_other_files(
    before: Metadata,
    after: Metadata,
    request: CreateRequest,
    inode: u64,
    step: CreateStep,
    other: int,
)
    requires
        consistency::valid(before),
        requests::first_available(before.inodes, inode),
        requests::inode_created(before, after, request, inode, step),
        0 <= other < before.table.len(),
        other != inode,
    ensures
        !consistency::inode_exists(before, inode as int),
        consistency::inode_exists(after, inode as int),
        consistency::inode_exists(after, other) == consistency::inode_exists(before, other),
        after.superblock == before.superblock,
        after.blocks == before.blocks,
        other != request.parent ==> after.table[other] == before.table[other],
        after.table[other].size == before.table[other].size,
        after.table[other].extents == before.table[other].extents,
        after.table[other].kind == before.table[other].kind,
        after.table[other].mode == before.table[other].mode,
        after.table[other].uid == before.table[other].uid,
        after.table[other].gid == before.table[other].gid,
{
}

/// A listing that goes on behind an entry brings the entries that follow it.
pub proof fn lemma_listing_continues(
    entries: Seq<Entry>,
    offset: u64,
    listed: Seq<ListedEntry>,
    k: int,
    rest: Seq<ListedEntry>,
)
    requires
        requests::is_listing(entries, offset, listed),
        0 <= k < listed.len(),
        requests::is_listing(entries, listed[k].offset, rest),
    ensures
        rest.len() == listed.len() - k - 1,
        forall|i: int|
            0 <= i < rest.len() ==> {
                let later = listed[k + 1 + i];
                &&& (#[trigger] rest[i]).inode == later.inode
                &&& rest[i].offset == later.offset
                &&& rest[i].kind == later.kind
                &&& rest[i].name@ == later.name@
            },
{
    assert forall|i: int| 0 <= i < rest.len() implies {
        let later = listed[k + 1 + i];
        &&& (#[trigger] rest[i]).inode == later.inode
        &&& rest[i].offset == later.offset
        &&& rest[i].kind == later.kind
        &&& rest[i].name@ == later.name@
    } by {
        assert(listed[k].offset == offset + k + 1);
        assert(entries[listed[k].offset + i] == entries[offset + (k + 1 + i)]);
        assert(listed[k + 1 + i].offset == offset + (k + 1 + i) + 1);
    }
}

/// The metadata of a file system that was saved can be loaded where memory has room for its
/// bitmaps, and is what it was.
pub proof fn lemma_saved_comes_back(m: Metadata)
    requires
        consistency::valid(m),
        m.superblock.num_inodes / 1024 <= usize::MAX,
        m.superblock.num_blocks / 1024 <= usize::MAX,
    ensures
        meta::loadable(m),
        meta::loaded(m) == m,
{
    meta::lemma_save_load(m);
}

/// All the positions lie in the blocks of the file system.
pub open spec fn within_blocks(positions: Seq<int>, m: Metadata) -> bool {
    forall|i: int|
        0 <= i < positions.len() ==> 0 <= #[trigger] positions[i] < m.blocks.len()
            * m.superblock.block_size
}

/// The bytes of extents whose blocks are in use lie in the blocks of the file system.
proof fn lemma_bytes_within_blocks(m: Metadata, extents: Seq<Extent>)
    requires
        m.superblock.block_size > 0,
        consistency::blocks_in_use(m, extents),
    ensures
        within_blocks(extent::file_bytes(extents, m.superblock.block_size as int), m),
{
    let len = m.blocks.len() * m.superblock.block_size;
    assert(len >= 0) by (nonlinear_arith)
        requires
            len == m.blocks.len() * m.superblock.block_size,
    ;
    let store = Seq::new(len as nat, |i: int| 0u8);
    consistency::lemma_store_holds(m, extents, store);
}

/// The size of the store is fixed: a write to a file stays in the blocks of the file system.
pub proof fn lemma_write_stays_in_store(
    before: Metadata,
    after: Metadata,
    inode: u64,
    data: Seq<u8>,
    offset: u64,
    w: FileWrite,
)
    requires
        consistency::valid(before),
        consistency::sound(before),
        fs::file_written(before, after, inode, data, offset, w),
    ensures
        after.superblock == before.superblock,
        after.blocks.len() == before.blocks.len(),
        within_blocks(extent::write_positions(w.slices@), before),
{
    if consistency::inode_exists(before, inode as int) && offset
        <= before.table[inode as int].size {
        lemma_written_to(before, after, inode, data, offset, w);
        lemma_bytes_within_blocks(after, written_to(before, after, inode, w));
    }
}

/// A read of a file stays in the blocks of the file system.
pub proof fn lemma_read_stays_in_store(
    before: Metadata,
    after: Metadata,
    inode: u64,
    offset: u64,
    size: u32,
    r: Result<Vec<ReadSlice>, Errno>,
)
    requires
        consistency::valid(before),
        consistency::sound(before),
        fs::file_read(before, after, inode, offset, size, r),
        r is Ok,
    ensures
        within_blocks(extent::read_positions(r->Ok_0@), before),
{
    let bs = before.superblock.block_size as int;
    let attr = before.table[inode as int];
    assert(consistency::entry_valid(attr, bs));
    assert(consistency::blocks_in_use(before, attr.extents));
    extent::lemma_file_bytes_len(attr.extents, bs);
    lemma_bytes_within_blocks(before, attr.extents);
}

/// A write to a directory stays in the blocks of the file system: so does its start, and so
/// do the writes to its new blocks.
pub proof fn lemma_directory_write_stays_in_store(
    before: Metadata,
    after: Metadata,
    inode: u64,
    bytes: Seq<u8>,
    w: DirectoryWrite,
    next: DirectoryWrite,
    slices: Vec<WriteSlice>,
)
    requires
        consistency::valid(before),
        consistency::sound(before),
        directory_io::directory_write_started(
            before,
            inode,
            bytes,
            DirectoryStep::Write(slices, w),
        ) || (consistency::inode_exists(before, w.inode as int)
            && directory_io::directory_write_resumed(
            before,
            after,
            w,
            Ok(()),
            DirectoryStep::Write(slices, next),
        )),
    ensures
        within_blocks(extent::write_positions(slices@), before),
{
    let bs = before.superblock.block_size as int;
    if directory_io::directory_write_started(
        before,
        inode,
        bytes,
        DirectoryStep::Write(slices, w),
    ) {
        let attr = before.table[inode as int];
        assert(consistency::blocks_in_use(before, attr.extents));
        extent::lemma_file_bytes_len(attr.extents, bs);
        lemma_bytes_within_blocks(before, attr.extents);
    } else {
        let new = next.new_extents@;
        let rest = w.rest@.len() as int;
        consistency::lemma_allocated_reserved(before, inode::blocks_for(rest, bs), new);
        lemma_bytes_within_blocks(after, new);
        extent::lemma_file_bytes_len(new, bs);
        consistency::lemma_room_for(rest, bs);
    }
}

/// The inode table is a flat list in which the indices are the inode numbers: an entry has
/// the number of its place, or was never used.
pub open spec fn numbered(m: Metadata) -> bool {
    forall|i: int|
        0 <= i < m.table.len() ==> (#[trigger] m.table[i]).inode == i || m.table[i].inode == 0
}

/// A new file system is numbered.
pub proof fn lemma_new_is_numbered(block_size: u32, num_inodes: u64, num_blocks: u64)
    ensures
        numbered(meta::blank(block_size, num_inodes, num_blocks)),
{
}

/// Writes to files and reads of them keep the file system numbered.
pub proof fn lemma_files_stay_numbered(
    before: Metadata,
    after: Metadata,
    inode: u64,
    data: Seq<u8>,
    offset: u64,
    size: u32,
    w: FileWrite,
    r: Result<Vec<ReadSlice>, Errno>,
)
    requires
        consistency::valid(before),
        numbered(before),
        fs::file_written(before, after, inode, data, offset, w) || fs::file_read(
            before,
            after,
            inode,
            offset,
            size,
            r,
        ),
    ensures
        numbered(after),
{
}

/// Writes to directories and reads of them keep the file system numbered.
pub proof fn lemma_directories_stay_numbered(
    before: Metadata,
    after: Metadata,
    inode: u64,
    w: DirectoryWrite,
    outcome: Result<(), Errno>,
    step: DirectoryStep,
)
    requires
        consistency::valid(before),
        numbered(before),
        consistency::inode_exists(before, inode as int),
        (w.inode == inode && directory_io::directory_write_resumed(
            before,
            after,
            w,
            outcome,
            step,
        )) || after == fs::accessed(
            before,
            inode as int,
            after.table[inode as int].last_accessed,
        ),
    ensures
        numbered(after),
{
}

/// A creation keeps the file system numbered, and its inode has the number of its place
/// unless it failed for want of the directory to create it in.
pub proof fn lemma_creation_stays_numbered(
    before: Metadata,
    after: Metadata,
    request: CreateRequest,
    inode: u64,
    step: CreateStep,
)
    requires
        consistency::valid(before),
        numbered(before),
        requests::first_available(before.inodes, inode),
        requests::inode_created(before, after, request, inode, step),
    ensures
        numbered(after),
        after.table[inode as int].inode == inode || step == CreateStep::Reply(
            Err(Errno::ENOENT),
        ),
{
}

} // verus!
