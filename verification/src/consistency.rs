//! What holds of the metadata at all times.
//!
//! Metadata is *valid* where every request can be carried out on it, and *sound* where,
//! besides, every block belongs to one file at most.

use crate::allocator;
use crate::bitmap::BITMAP_CHUNK_BITS;
use crate::extent;
use crate::extent::Extent;
use crate::inode;
use crate::inode::Attributes;
use crate::inode::InodeAttributes;
use crate::meta;
use crate::meta::Meta;
use crate::meta::Metadata;
use vstd::prelude::*;

verus! {

/// The extents of a file lie where 64 bits can address them, and have room for its size.
pub open spec fn entry_valid(attr: Attributes, block_size: int) -> bool {
    &&& extent::extents_fit(attr.extents, block_size)
    &&& attr.size <= extent::capacity(attr.extents, block_size)
}

/// Every request can be carried out on the metadata.
pub open spec fn valid(m: Metadata) -> bool {
    &&& m.superblock.block_size > 0
    &&& meta::bitmaps_match(m)
    &&& m.inodes.len() <= m.table.len()
    &&& m.blocks.len() * m.superblock.block_size <= u64::MAX
    &&& forall|i: int|
        0 <= i < m.table.len() ==> entry_valid(
            #[trigger] m.table[i],
            m.superblock.block_size as int,
        )
}

/// The inode is in use.
pub open spec fn inode_exists(m: Metadata, inode: int) -> bool {
    0 <= inode < m.inodes.len() && m.inodes[inode]
}

/// The extents overlap nowhere, and all their blocks are marked as in use.
pub open spec fn blocks_in_use(m: Metadata, extents: Seq<Extent>) -> bool {
    &&& extent::extents_disjoint(extents)
    &&& forall|b: int|
        #[trigger] extent::in_extents(extents, b) ==> 0 <= b < m.blocks.len() && m.blocks[b]
}

/// Every block that a file has is in use, and belongs to that file alone.
pub open spec fn sound(m: Metadata) -> bool {
    &&& forall|i: int| 0 <= i < m.table.len() ==> blocks_in_use(m, (#[trigger] m.table[i]).extents)
    &&& forall|i: int, j: int|
        0 <= i < m.table.len() && 0 <= j < m.table.len() && i != j ==> extent::no_shared_block(
            (#[trigger] m.table[i]).extents,
            (#[trigger] m.table[j]).extents,
        )
}

/// The blocks of the extents are in use, but belong to no file yet.
pub open spec fn reserved(m: Metadata, extents: Seq<Extent>) -> bool {
    &&& blocks_in_use(m, extents)
    &&& forall|i: int|
        0 <= i < m.table.len() ==> extent::no_shared_block((#[trigger] m.table[i]).extents, extents)
}

/// The metadata with another entry in the inode table.
pub open spec fn with_entry(m: Metadata, inode: int, attr: Attributes) -> Metadata {
    Metadata { table: m.table.update(inode, attr), ..m }
}

/// The metadata with the blocks of the extents marked as in use.
pub open spec fn with_blocks(m: Metadata, extents: Seq<Extent>) -> Metadata {
    Metadata { blocks: allocator::marked(m.blocks, extents), ..m }
}

/// A new file system is sound, and valid unless its blocks have no size or are too many to be
/// addressed.
pub proof fn lemma_blank(block_size: u32, num_inodes: u64, num_blocks: u64)
    ensures
        sound(meta::blank(block_size, num_inodes, num_blocks)),
        valid(meta::blank(block_size, num_inodes, num_blocks)) <==> (block_size > 0
            && meta::bitmap_len(num_blocks) * block_size <= u64::MAX),
{
    let m = meta::blank(block_size, num_inodes, num_blocks);
    assert forall|i: int| 0 <= i < m.table.len() implies entry_valid(
        #[trigger] m.table[i],
        block_size as int,
    ) by {
        assert(extent::block_total(m.table[i].extents) == 0);
        assert(0 * block_size == 0) by (nonlinear_arith);
    }
    assert(m.superblock.block_size == block_size);
    assert(m.blocks.len() == meta::bitmap_len(num_blocks));
    assert(m.inodes.len() == meta::bitmap_len(num_inodes));
    assert(m.table.len() == num_inodes);
    assert((num_inodes / 1024) * 1024 <= num_inodes);
    assert(m.inodes.len() <= m.table.len());
}

/// A file of a sound file system lies in a store of the size that the file system has blocks
/// for.
pub proof fn lemma_store_holds(m: Metadata, extents: Seq<Extent>, store: Seq<u8>)
    requires
        m.superblock.block_size > 0,
        blocks_in_use(m, extents),
        m.blocks.len() * m.superblock.block_size <= store.len(),
    ensures
        extent::store_holds(store, extents, m.superblock.block_size as int),
{
    let bs = m.superblock.block_size as int;
    let bytes = extent::file_bytes(extents, bs);
    assert forall|i: int| 0 <= i < bytes.len() implies 0 <= #[trigger] bytes[i]
        < store.len() by {
        let k = extent::lemma_file_byte_in_extent(extents, bs, i);
        let b = bytes[i] / bs;
        vstd::arithmetic::mul::lemma_mul_nonnegative(extents[k].0 as int, bs);
        extent::lemma_block_of_byte(extents[k], bs, bytes[i]);
        assert(extent::in_extents(extents, b));
        vstd::arithmetic::div_mod::lemma_fundamental_div_mod(bytes[i], bs);
        vstd::arithmetic::mul::lemma_mul_inequality(b + 1, m.blocks.len() as int, bs);
        vstd::arithmetic::mul::lemma_mul_is_distributive_add_other_way(bs, b, 1);
        vstd::arithmetic::mul::lemma_mul_is_commutative(bs, b);
    }
}

/// Another valid entry keeps the metadata valid.
pub proof fn lemma_entry_keeps_valid(m: Metadata, inode: int, attr: Attributes)
    requires
        valid(m),
        0 <= inode < m.table.len(),
        entry_valid(attr, m.superblock.block_size as int),
    ensures
        valid(with_entry(m, inode, attr)),
{
    let after = with_entry(m, inode, attr);
    assert forall|i: int| 0 <= i < after.table.len() implies entry_valid(
        #[trigger] after.table[i],
        m.superblock.block_size as int,
    ) by {
        if i != inode {
            assert(after.table[i] == m.table[i]);
        }
    }
}

/// An entry whose extents are those of the one before, or none, keeps the metadata sound, and
/// what was reserved stays reserved.
pub proof fn lemma_entry_keeps_sound(m: Metadata, inode: int, attr: Attributes)
    requires
        sound(m),
        0 <= inode < m.table.len(),
        attr.extents == m.table[inode].extents || attr.extents.len() == 0,
    ensures
        sound(with_entry(m, inode, attr)),
        forall|extents: Seq<Extent>| #[trigger]
            reserved(m, extents) ==> reserved(with_entry(m, inode, attr), extents),
{
    let after = with_entry(m, inode, attr);
    assert forall|i: int| 0 <= i < after.table.len() implies blocks_in_use(
        after,
        (#[trigger] after.table[i]).extents,
    ) by {
        assert(blocks_in_use(m, m.table[i].extents));
    }
    assert forall|i: int, j: int|
        0 <= i < after.table.len() && 0 <= j < after.table.len() && i
            != j implies extent::no_shared_block(
        (#[trigger] after.table[i]).extents,
        (#[trigger] after.table[j]).extents,
    ) by {
        assert(extent::no_shared_block(m.table[i].extents, m.table[j].extents));
    }
    assert forall|extents: Seq<Extent>| #[trigger] reserved(m, extents) implies reserved(
        after,
        extents,
    ) by {
        assert forall|i: int| 0 <= i < after.table.len() implies extent::no_shared_block(
            (#[trigger] after.table[i]).extents,
            extents,
        ) by {
            assert(extent::no_shared_block(m.table[i].extents, extents));
        }
    }
}

/// The blocks that an allocation takes can be addressed.
pub proof fn lemma_allocated_valid(m: Metadata, count: int, extents: Seq<Extent>)
    requires
        valid(m),
        allocator::is_first_fit(m.blocks, count, extents),
    ensures
        valid(with_blocks(m, extents)),
        extent::extents_fit(extents, m.superblock.block_size as int),
{
    let bs = m.superblock.block_size as int;
    assert forall|k: int| 0 <= k < extents.len() implies ((#[trigger] extents[k]).0
        + extents[k].1) * bs <= u64::MAX by {
        assert(allocator::is_free_run(m.blocks, extents[k]));
        vstd::arithmetic::mul::lemma_mul_inequality(
            extents[k].0 + extents[k].1,
            m.blocks.len() as int,
            bs,
        );
    }
}

/// The blocks that an allocation takes belonged to no file, and are reserved afterwards.
pub proof fn lemma_allocated_reserved(m: Metadata, count: int, extents: Seq<Extent>)
    requires
        sound(m),
        allocator::is_first_fit(m.blocks, count, extents),
    ensures
        sound(with_blocks(m, extents)),
        reserved(with_blocks(m, extents), extents),
{
    let after = with_blocks(m, extents);
    assert forall|b: int| #[trigger] extent::in_extents(extents, b) implies 0 <= b
        < m.blocks.len() && !m.blocks[b] by {
        let k = choose|k: int|
            0 <= k < extents.len() && extent::in_extent(#[trigger] extents[k], b);
        assert(allocator::is_free_run(m.blocks, extents[k]));
    }
    assert forall|i: int| 0 <= i < after.table.len() implies blocks_in_use(
        after,
        (#[trigger] after.table[i]).extents,
    ) by {
        assert(blocks_in_use(m, m.table[i].extents));
    }
    assert(blocks_in_use(after, extents));
    assert forall|i: int| 0 <= i < after.table.len() implies extent::no_shared_block(
        (#[trigger] after.table[i]).extents,
        extents,
    ) by {
        assert(blocks_in_use(m, m.table[i].extents));
    }
}

/// A block of a list of extents that was extended belongs to the old or to the new ones.
proof fn lemma_in_extents_concat(left: Seq<Extent>, right: Seq<Extent>, b: int)
    ensures
        extent::in_extents(left + right, b) <==> (extent::in_extents(left, b)
            || extent::in_extents(right, b)),
{
    let all = left + right;
    if extent::in_extents(all, b) {
        let k = choose|k: int| 0 <= k < all.len() && extent::in_extent(#[trigger] all[k], b);
        if k < left.len() {
            assert(all[k] == left[k]);
        } else {
            assert(all[k] == right[k - left.len()]);
        }
    }
    if extent::in_extents(left, b) {
        let k = choose|k: int| 0 <= k < left.len() && extent::in_extent(#[trigger] left[k], b);
        assert(all[k] == left[k]);
    }
    if extent::in_extents(right, b) {
        let k = choose|k: int| 0 <= k < right.len() && extent::in_extent(#[trigger] right[k], b);
        assert(all[left.len() + k] == right[k]);
    }
}

/// Extents that share no block can be put into one list.
pub proof fn lemma_concat_disjoint(left: Seq<Extent>, right: Seq<Extent>)
    requires
        extent::extents_disjoint(left),
        extent::extents_disjoint(right),
        extent::no_shared_block(left, right),
    ensures
        extent::extents_disjoint(left + right),
{
    let all = left + right;
    let n = left.len() as int;
    assert forall|k: int, l: int, b: int| 0 <= k < l < all.len() implies !(
    #[trigger] extent::in_extent(all[k], b) && #[trigger] extent::in_extent(all[l], b)) by {
        if l < n {
            assert(all[k] == left[k] && all[l] == left[l]);
        } else if k >= n {
            assert(all[k] == right[k - n] && all[l] == right[l - n]);
        } else {
            assert(all[k] == left[k] && all[l] == right[l - n]);
            if extent::in_extent(all[k], b) && extent::in_extent(all[l], b) {
                assert(extent::in_extents(left, b));
                assert(extent::in_extents(right, b));
            }
        }
    }
}

/// A file can be given blocks that are reserved.
pub proof fn lemma_record_keeps_sound(
    m: Metadata,
    inode: int,
    attr: Attributes,
    extents: Seq<Extent>,
)
    requires
        sound(m),
        reserved(m, extents),
        0 <= inode < m.table.len(),
        attr.extents == m.table[inode].extents + extents,
    ensures
        sound(with_entry(m, inode, attr)),
{
    let after = with_entry(m, inode, attr);
    let before = m.table[inode].extents;
    assert(blocks_in_use(m, before));
    assert(extent::no_shared_block(before, extents));
    lemma_concat_disjoint(before, extents);
    assert forall|b: int| #[trigger] extent::in_extents(attr.extents, b) <==> (
    extent::in_extents(before, b) || extent::in_extents(extents, b)) by {
        lemma_in_extents_concat(before, extents, b);
    }
    assert forall|i: int| 0 <= i < after.table.len() implies blocks_in_use(
        after,
        (#[trigger] after.table[i]).extents,
    ) by {
        assert(blocks_in_use(m, m.table[i].extents));
    }
    assert forall|i: int, j: int|
        0 <= i < after.table.len() && 0 <= j < after.table.len() && i
            != j implies extent::no_shared_block(
        (#[trigger] after.table[i]).extents,
        (#[trigger] after.table[j]).extents,
    ) by {
        assert(extent::no_shared_block(m.table[i].extents, m.table[j].extents));
        assert(extent::no_shared_block(m.table[i].extents, extents));
        assert(extent::no_shared_block(m.table[j].extents, extents));
    }
}

/// Extents that can be addressed can be put into one list, and their room adds up.
pub proof fn lemma_concat_valid(left: Seq<Extent>, right: Seq<Extent>, block_size: int)
    requires
        extent::extents_fit(left, block_size),
        extent::extents_fit(right, block_size),
    ensures
        extent::extents_fit(left + right, block_size),
        extent::capacity(left + right, block_size) == extent::capacity(left, block_size)
            + extent::capacity(right, block_size),
{
    extent::lemma_file_bytes_concat(left, right, block_size);
    vstd::arithmetic::mul::lemma_mul_is_distributive_add_other_way(
        block_size,
        extent::block_total(left),
        extent::block_total(right),
    );
    let all = left + right;
    assert forall|k: int| 0 <= k < all.len() implies ((#[trigger] all[k]).0 + all[k].1)
        * block_size <= u64::MAX by {
        if k < left.len() {
            assert(all[k] == left[k]);
        } else {
            assert(all[k] == right[k - left.len()]);
        }
    }
}

/// An allocation of blocks for `size` bytes has room for them.
pub proof fn lemma_room_for(size: int, block_size: int)
    requires
        size >= 0,
        block_size > 0,
    ensures
        size <= inode::blocks_for(size, block_size) * block_size,
        0 <= inode::blocks_for(size, block_size) <= size,
{
    let blocks = inode::blocks_for(size, block_size);
    vstd::arithmetic::div_mod::lemma_fundamental_div_mod(size + block_size - 1, block_size);
    vstd::arithmetic::mul::lemma_mul_is_commutative(block_size, blocks);
    vstd::arithmetic::div_mod::lemma_div_pos_is_pos(size + block_size - 1, block_size);
    assert(blocks <= size) by (nonlinear_arith)
        requires
            blocks * block_size <= size + block_size - 1,
            block_size > 0,
            size >= 0,
    ;
}

/// Whether the extents of a file lie where 64 bits can address them, and have room for its
/// size.
fn check_entry(attr: &InodeAttributes, block_size: u32) -> (ok: bool)
    requires
        block_size > 0,
    ensures
        ok == entry_valid(attr@, block_size as int),
{
    let ghost bs = block_size as int;
    let extents = &attr.extent_index;
    let mut room: u128 = 0;
    let mut i: usize = 0;
    assert(extents@.take(0) =~= Seq::<Extent>::empty());
    assert(0 * bs == 0) by (nonlinear_arith);
    while i < extents.len()
        invariant
            i <= extents.len(),
            extents@ == attr@.extents,
            bs == block_size,
            bs > 0,
            extent::extents_fit(extents@.take(i as int), bs),
            room == (if extent::capacity(extents@.take(i as int), bs) < attr.size {
                extent::capacity(extents@.take(i as int), bs)
            } else {
                attr.size as int
            }),
        decreases extents.len() - i,
    {
        let ex = extents[i];
        let ghost front = extents@.take(i as int);
        let ghost more = extents@.take(i + 1);
        assert((ex.0 + ex.1) * bs <= 0x1_ffff_ffff_ffff_fffe * 0xffff_ffff) by (nonlinear_arith)
            requires
                0 <= ex.0 + ex.1 <= 0x1_ffff_ffff_ffff_fffe,
                0 <= bs <= 0xffff_ffff,
        ;
        assert(ex.1 * bs <= 0xffff_ffff_ffff_ffff * 0xffff_ffff) by (nonlinear_arith)
            requires
                0 <= ex.1 <= 0xffff_ffff_ffff_ffff,
                0 <= bs <= 0xffff_ffff,
        ;
        if (ex.0 as u128 + ex.1 as u128) * block_size as u128 > u64::MAX as u128 {
            assert(extents@[i as int] == ex);
            return false;
        }
        proof {
            assert(more.drop_last() =~= front);
            assert(more.last() == ex);
            vstd::arithmetic::mul::lemma_mul_is_distributive_add_other_way(
                bs,
                extent::block_total(front),
                ex.1 as int,
            );
            vstd::arithmetic::mul::lemma_mul_nonnegative(ex.1 as int, bs);
            assert forall|k: int| 0 <= k < more.len() implies ((#[trigger] more[k]).0 + more[k].1)
                * bs <= u64::MAX by {
                if k < i {
                    assert(more[k] == front[k]);
                }
            }
        }
        let size: u128 = ex.1 as u128 * block_size as u128;
        room = if room + size < attr.size as u128 {
            room + size
        } else {
            attr.size as u128
        };
        i += 1;
    }
    assert(extents@.take(i as int) =~= extents@);
    room >= attr.size as u128
}

impl Meta {
    /// Whether every request can be carried out on the metadata.
    pub fn is_valid(&self) -> (ok: bool)
        ensures
            ok == valid(self@),
    {
        let block_size: u32 = self.superblock.block_size;
        let inode_chunks: usize = self.inode_bitmap.chunk_count();
        let block_chunks: usize = self.data_bitmap.chunk_count();
        if block_size == 0 {
            return false;
        }
        let chunk_bits: u64 = BITMAP_CHUNK_BITS as u64;
        if inode_chunks as u64 != self.superblock.num_inodes / chunk_bits || block_chunks as u64
            != self.superblock.num_blocks / chunk_bits {
            return false;
        }
        let inode_bits: u64 = inode_chunks as u64 * chunk_bits;
        let block_bits: u64 = block_chunks as u64 * chunk_bits;
        if inode_bits > self.inode_table.len() as u64 {
            return false;
        }
        if block_bits.checked_mul(block_size as u64).is_none() {
            return false;
        }
        let mut i: usize = 0;
        while i < self.inode_table.len()
            invariant
                i <= self.inode_table.len(),
                block_size == self@.superblock.block_size,
                block_size > 0,
                forall|j: int|
                    0 <= j < i ==> entry_valid(#[trigger] self@.table[j], block_size as int),
            decreases self.inode_table.len() - i,
        {
            if !check_entry(&self.inode_table[i], block_size) {
                assert(!entry_valid(self@.table[i as int], block_size as int));
                return false;
            }
            i += 1;
        }
        true
    }
}

} // verus!
