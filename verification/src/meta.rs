//! The metadata of the file system: the superblock, the bitmaps and the inode table, as they
//! are kept in memory and as they are saved.

use crate::allocator;
use crate::bitmap;
use crate::bitmap::ChunkedBitmap;
use crate::bitmap::BITMAP_CHUNK_BITS;
use crate::inode;
use crate::inode::Attributes;
use crate::inode::InodeAttributes;
use vstd::prelude::*;

verus! {

/// The magic number that identifies the file system.
pub const FSID: u32 = 0x55555;

/// What is fixed when a file system is created.
#[derive(Clone, Copy, Debug, PartialEq, Eq, Structural)]
pub struct Superblock {
    /// Magic number identifying the file system.
    pub fsid: u32,
    /// Block size in bytes.
    pub block_size: u32,
    pub num_inodes: u64,
    pub num_blocks: u64,
}

impl Superblock {
    /// The superblock of a new file system.
    pub fn new(block_size: u32, num_inodes: u64, num_blocks: u64) -> (superblock: Superblock)
        ensures
            superblock.fsid == FSID,
            superblock.block_size == block_size,
            superblock.num_inodes == num_inodes,
            superblock.num_blocks == num_blocks,
    {
        Superblock { fsid: FSID, block_size, num_inodes, num_blocks }
    }
}

/// Table (flat data structure: a vector) with inodes.
pub type InodeTable = Vec<InodeAttributes>;

/// Metadata as mathematical values.
#[verifier::ext_equal]
pub struct Metadata {
    pub superblock: Superblock,
    /// Which inodes are in use.
    pub inodes: Seq<bool>,
    /// Which blocks are in use.
    pub blocks: Seq<bool>,
    pub table: Seq<Attributes>,
}

/// Metadata in the form in which it is saved: a bit is a `bool`.
#[derive(Debug)]
pub struct MetaSerializable {
    pub superblock: Superblock,
    pub inode_bitmap: Vec<bool>,
    pub data_bitmap: Vec<bool>,
    pub inode_table: InodeTable,
}

/// Metadata in the form in which it is used.
pub struct Meta {
    pub superblock: Superblock,
    pub inode_bitmap: ChunkedBitmap,
    pub data_bitmap: ChunkedBitmap,
    pub inode_table: InodeTable,
}

impl View for MetaSerializable {
    type V = Metadata;

    open spec fn view(&self) -> Metadata {
        Metadata {
            superblock: self.superblock,
            inodes: self.inode_bitmap@,
            blocks: self.data_bitmap@,
            table: inode::attributes_of(self.inode_table@),
        }
    }
}

impl View for Meta {
    type V = Metadata;

    open spec fn view(&self) -> Metadata {
        Metadata {
            superblock: self.superblock,
            inodes: self.inode_bitmap@,
            blocks: self.data_bitmap@,
            table: inode::attributes_of(self.inode_table@),
        }
    }
}

/// The number of bits of a bitmap for `count` items: whole chunks only.
pub open spec fn bitmap_len(count: u64) -> int {
    (count / BITMAP_CHUNK_BITS as u64) * BITMAP_CHUNK_BITS
}

/// Saved metadata that can be loaded: its bitmaps have no bit set beyond what the superblock
/// says, and fit in memory.
pub open spec fn loadable(saved: Metadata) -> bool {
    &&& saved.superblock.num_inodes / BITMAP_CHUNK_BITS as u64 <= usize::MAX
    &&& saved.superblock.num_blocks / BITMAP_CHUNK_BITS as u64 <= usize::MAX
    &&& bitmap::bits_within(saved.inodes, bitmap_len(saved.superblock.num_inodes))
    &&& bitmap::bits_within(saved.blocks, bitmap_len(saved.superblock.num_blocks))
}

/// What loading saved metadata gives: the bitmaps have the lengths that the superblock says.
pub open spec fn loaded(saved: Metadata) -> Metadata {
    Metadata {
        inodes: bitmap::padded(saved.inodes, bitmap_len(saved.superblock.num_inodes)),
        blocks: bitmap::padded(saved.blocks, bitmap_len(saved.superblock.num_blocks)),
        ..saved
    }
}

/// The bitmaps are as long as the superblock says.
pub open spec fn bitmaps_match(meta: Metadata) -> bool {
    &&& meta.inodes.len() == bitmap_len(meta.superblock.num_inodes)
    &&& meta.blocks.len() == bitmap_len(meta.superblock.num_blocks)
}

/// The metadata of a new file system: nothing is in use.
pub open spec fn blank(block_size: u32, num_inodes: u64, num_blocks: u64) -> Metadata {
    Metadata {
        superblock: Superblock { fsid: FSID, block_size, num_inodes, num_blocks },
        inodes: Seq::new(bitmap_len(num_inodes) as nat, |i: int| false),
        blocks: Seq::new(bitmap_len(num_blocks) as nat, |i: int| false),
        table: Seq::new(num_inodes as nat, |i: int| inode::unused_attributes()),
    }
}

/// Metadata that is saved and loaded again is what it was.
pub proof fn lemma_save_load(meta: Metadata)
    requires
        bitmaps_match(meta),
    ensures
        loaded(meta) == meta,
        bitmap::bits_within(meta.inodes, bitmap_len(meta.superblock.num_inodes)),
        bitmap::bits_within(meta.blocks, bitmap_len(meta.superblock.num_blocks)),
{
    assert(loaded(meta).inodes =~= meta.inodes);
    assert(loaded(meta).blocks =~= meta.blocks);
}

/// What is loaded has bitmaps as long as the superblock says.
pub proof fn lemma_loaded_bitmaps_match(saved: Metadata)
    ensures
        bitmaps_match(loaded(saved)),
{
}

/// Whether none of the bits from `len` on is `true`.
fn check_bits_within(bools: &Vec<bool>, len: u64) -> (within: bool)
    ensures
        within == bitmap::bits_within(bools@, len as int),
{
    let mut i: usize = 0;
    while i < bools.len()
        invariant
            i <= bools.len(),
            forall|j: int| len <= j < i ==> !#[trigger] bools@[j],
        decreases bools.len() - i,
    {
        if i as u64 >= len && bools[i] {
            return false;
        }
        i += 1;
    }
    true
}

/// A copy of an inode table.
fn copy_table(table: &InodeTable) -> (copy: InodeTable)
    ensures
        inode::attributes_of(copy@) == inode::attributes_of(table@),
{
    let mut copy: InodeTable = Vec::new();
    let mut i: usize = 0;
    while i < table.len()
        invariant
            i <= table.len(),
            copy.len() == i,
            forall|j: int| 0 <= j < i ==> (#[trigger] copy@[j])@ == table@[j]@,
        decreases table.len() - i,
    {
        copy.push(table[i].clone());
        i += 1;
    }
    assert(inode::attributes_of(copy@) =~= inode::attributes_of(table@));
    copy
}

impl MetaSerializable {
    /// Whether the metadata can be loaded.
    pub fn is_loadable(&self) -> (ok: bool)
        ensures
            ok == loadable(self@),
    {
        let inode_chunks: u64 = self.superblock.num_inodes / BITMAP_CHUNK_BITS as u64;
        let block_chunks: u64 = self.superblock.num_blocks / BITMAP_CHUNK_BITS as u64;
        inode_chunks <= usize::MAX as u64 && block_chunks <= usize::MAX as u64
            && check_bits_within(&self.inode_bitmap, inode_chunks * BITMAP_CHUNK_BITS as u64)
            && check_bits_within(&self.data_bitmap, block_chunks * BITMAP_CHUNK_BITS as u64)
    }

    /// Loads saved metadata.
    pub fn to_meta(&self) -> (meta: Meta)
        requires
            loadable(self@),
        ensures
            meta@ == loaded(self@),
    {
        let inode_chunks: usize = (self.superblock.num_inodes / BITMAP_CHUNK_BITS as u64) as usize;
        let block_chunks: usize = (self.superblock.num_blocks / BITMAP_CHUNK_BITS as u64) as usize;
        let meta = Meta {
            superblock: self.superblock,
            inode_bitmap: ChunkedBitmap::from_bools(&self.inode_bitmap, inode_chunks),
            data_bitmap: ChunkedBitmap::from_bools(&self.data_bitmap, block_chunks),
            inode_table: copy_table(&self.inode_table),
        };
        assert(meta@ =~= loaded(self@));
        meta
    }
}

impl Meta {
    /// The metadata of a new file system.
    pub fn new(block_size: u32, num_inodes: u64, num_blocks: u64) -> (meta: Meta)
        requires
            num_inodes <= usize::MAX,
            num_blocks <= usize::MAX,
        ensures
            meta@ == blank(block_size, num_inodes, num_blocks),
    {
        let mut inode_table: InodeTable = Vec::new();
        let mut i: u64 = 0;
        while i < num_inodes
            invariant
                i <= num_inodes,
                inode_table.len() == i,
                forall|j: int|
                    0 <= j < i ==> (#[trigger] inode_table@[j])@ == inode::unused_attributes(),
            decreases num_inodes - i,
        {
            inode_table.push(InodeAttributes::default());
            i += 1;
        }
        let meta = Meta {
            superblock: Superblock::new(block_size, num_inodes, num_blocks),
            inode_bitmap: ChunkedBitmap::new(num_inodes as usize / BITMAP_CHUNK_BITS),
            data_bitmap: ChunkedBitmap::new(num_blocks as usize / BITMAP_CHUNK_BITS),
            inode_table,
        };
        assert(meta@ =~= blank(block_size, num_inodes, num_blocks));
        meta
    }

    /// The metadata in the form in which it is saved.
    pub fn to_meta_serializable(&self) -> (saved: MetaSerializable)
        ensures
            saved@ == self@,
    {
        MetaSerializable {
            superblock: self.superblock,
            inode_bitmap: self.inode_bitmap.to_bools(),
            data_bitmap: self.data_bitmap.to_bools(),
            inode_table: copy_table(&self.inode_table),
        }
    }
}

/// The mathematical values of saved metadata are those of the fields.
pub proof fn lemma_saved_view(saved: MetaSerializable)
    ensures
        saved@.superblock == saved.superblock,
        saved@.inodes == saved.inode_bitmap@,
        saved@.blocks == saved.data_bitmap@,
        saved@.table.len() == saved.inode_table@.len(),
        forall|i: int|
            0 <= i < saved@.table.len() ==> #[trigger] saved@.table[i] == saved.inode_table@[i]@,
{
}

/// The mathematical values of metadata in use are those of the fields.
pub proof fn lemma_meta_view(meta: Meta)
    ensures
        meta@.superblock == meta.superblock,
        meta@.inodes == meta.inode_bitmap@,
        meta@.blocks == meta.data_bitmap@,
        meta@.table.len() == meta.inode_table@.len(),
        forall|i: int|
            0 <= i < meta@.table.len() ==> #[trigger] meta@.table[i] == meta.inode_table@[i]@,
{
}

/// A bitmap has whole chunks only: as many bits as there are items, but for those that do not
/// make up a chunk.
pub proof fn lemma_bitmap_len(count: u64)
    ensures
        bitmap_len(count) % 1024 == 0,
        0 <= bitmap_len(count) <= count < bitmap_len(count) + 1024,
        count % 1024 == 0 ==> bitmap_len(count) == count,
{
    assert(count == (count / 1024) * 1024 + count % 1024);
}

/// The superblock of a new file system says what was asked for.
pub proof fn lemma_new_superblock(
    block_size: u32,
    num_inodes: u64,
    num_blocks: u64,
    superblock: Superblock,
)
    requires
        call_ensures(Superblock::new, (block_size, num_inodes, num_blocks), superblock),
    ensures
        superblock.fsid == 0x55555,
        superblock.block_size == block_size,
        superblock.num_inodes == num_inodes,
        superblock.num_blocks == num_blocks,
{
}

/// No bit of none is in use, so all of them are free.
pub proof fn lemma_all_free(bits: Seq<bool>)
    requires
        forall|i: int| 0 <= i < bits.len() ==> !#[trigger] bits[i],
    ensures
        allocator::free_count(bits) == bits.len(),
    decreases bits.len(),
{
    if bits.len() > 0 {
        let front = bits.drop_last();
        assert forall|i: int| 0 <= i < front.len() implies !#[trigger] front[i] by {
            assert(!bits[i]);
        }
        lemma_all_free(front);
    }
}

/// A new file system is of the sizes that were asked for, and all of it is free: there is a
/// bit for every inode and every block, none of them set, and every file is unused.
pub proof fn lemma_new_meta(block_size: u32, num_inodes: u64, num_blocks: u64, meta: Meta)
    requires
        call_ensures(Meta::new, (block_size, num_inodes, num_blocks), meta),
        num_inodes % 1024 == 0,
        num_blocks % 1024 == 0,
    ensures
        meta.superblock == (Superblock { fsid: 0x55555, block_size, num_inodes, num_blocks }),
        meta.inode_bitmap@.len() == num_inodes,
        meta.data_bitmap@.len() == num_blocks,
        forall|i: int| 0 <= i < num_inodes ==> !#[trigger] meta.inode_bitmap@[i],
        forall|b: int| 0 <= b < num_blocks ==> !#[trigger] meta.data_bitmap@[b],
        allocator::free_count(meta.data_bitmap@) == num_blocks,
        meta.inode_table@.len() == num_inodes,
        forall|i: int|
            #![trigger meta.inode_table@[i]]
            0 <= i < num_inodes ==> meta.inode_table@[i].size == 0 && meta.inode_table@[i].inode
                == 0 && meta.inode_table@[i].extent_index@.len() == 0,
{
    assert(meta@.blocks == meta.data_bitmap@ && meta@.inodes == meta.inode_bitmap@);
    lemma_bitmap_len(num_inodes);
    lemma_bitmap_len(num_blocks);
    lemma_meta_view(meta);
    assert(meta@.table.len() == num_inodes);
    lemma_all_free(meta.data_bitmap@);
    assert forall|i: int|
        #![trigger meta.inode_table@[i]]
        0 <= i < num_inodes implies meta.inode_table@[i].size == 0 && meta.inode_table@[i].inode
        == 0 && meta.inode_table@[i].extent_index@.len() == 0 by {
        assert(meta@.table[i] == inode::unused_attributes());
        assert(meta@.table[i] == meta.inode_table@[i]@);
    }
}

/// The same of sizes that are no multiples: what does not make up a chunk has no bits.
pub proof fn lemma_new_meta_in_part(block_size: u32, num_inodes: u64, num_blocks: u64, meta: Meta)
    requires
        call_ensures(Meta::new, (block_size, num_inodes, num_blocks), meta),
    ensures
        meta.inode_bitmap@.len() % 1024 == 0,
        meta.inode_bitmap@.len() <= num_inodes < meta.inode_bitmap@.len() + 1024,
        meta.data_bitmap@.len() % 1024 == 0,
        meta.data_bitmap@.len() <= num_blocks < meta.data_bitmap@.len() + 1024,
        meta.inode_table@.len() == num_inodes,
{
    assert(meta@.blocks == meta.data_bitmap@ && meta@.inodes == meta.inode_bitmap@);
    lemma_bitmap_len(num_inodes);
    lemma_bitmap_len(num_blocks);
    lemma_meta_view(meta);
    assert(meta@.table.len() == num_inodes);
}

/// Saved metadata can be loaded exactly where its bitmaps fit in memory, and no bit is set that
/// the superblock has no item for.
pub proof fn lemma_loadable(saved: MetaSerializable, ok: bool)
    requires
        call_ensures(MetaSerializable::is_loadable, (&saved,), ok),
    ensures
        ok <==> {
            &&& saved.superblock.num_inodes / 1024 <= usize::MAX
            &&& saved.superblock.num_blocks / 1024 <= usize::MAX
            &&& forall|i: int|
                0 <= i < saved.inode_bitmap@.len() && #[trigger] saved.inode_bitmap@[i] ==> i
                    / 1024 < saved.superblock.num_inodes / 1024
            &&& forall|b: int|
                0 <= b < saved.data_bitmap@.len() && #[trigger] saved.data_bitmap@[b] ==> b
                    / 1024 < saved.superblock.num_blocks / 1024
        },
{
    let n = bitmap_len(saved.superblock.num_inodes);
    let m = bitmap_len(saved.superblock.num_blocks);
    assert forall|i: int| 0 <= i implies (#[trigger] (i / 1024) < saved.superblock.num_inodes
        / 1024 <==> i < n) by {}
    assert forall|i: int| 0 <= i implies (#[trigger] (i / 1024) < saved.superblock.num_blocks
        / 1024 <==> i < m) by {}
}

/// What is loaded is what was saved: every bit that was saved and that the superblock has an
/// item for, no other bit, and the whole table.
pub proof fn lemma_loaded(saved: MetaSerializable, meta: Meta)
    requires
        call_ensures(MetaSerializable::to_meta, (&saved,), meta),
    ensures
        meta.superblock == saved.superblock,
        meta.inode_bitmap@.len() == (saved.superblock.num_inodes / 1024) * 1024,
        meta.data_bitmap@.len() == (saved.superblock.num_blocks / 1024) * 1024,
        forall|i: int|
            0 <= i < meta.inode_bitmap@.len() ==> #[trigger] meta.inode_bitmap@[i] == (i
                < saved.inode_bitmap@.len() && saved.inode_bitmap@[i]),
        forall|b: int|
            0 <= b < meta.data_bitmap@.len() ==> #[trigger] meta.data_bitmap@[b] == (b
                < saved.data_bitmap@.len() && saved.data_bitmap@[b]),
        meta.inode_table@.len() == saved.inode_table@.len(),
        forall|i: int|
            0 <= i < meta.inode_table@.len() ==> (#[trigger] meta.inode_table@[i])@
                == saved.inode_table@[i]@,
{
    assert(meta@.inodes == meta.inode_bitmap@ && meta@.blocks == meta.data_bitmap@);
    lemma_meta_view(meta);
    lemma_saved_view(saved);
    assert forall|i: int| 0 <= i < meta.inode_table@.len() implies (
    #[trigger] meta.inode_table@[i])@ == saved.inode_table@[i]@ by {
        assert(meta@.table[i] == saved@.table[i]);
    }
}

/// What is saved is all that there is.
pub proof fn lemma_saved(meta: Meta, saved: MetaSerializable)
    requires
        call_ensures(Meta::to_meta_serializable, (&meta,), saved),
    ensures
        saved.superblock == meta.superblock,
        saved.inode_bitmap@ == meta.inode_bitmap@,
        saved.data_bitmap@ == meta.data_bitmap@,
        saved.inode_table@.len() == meta.inode_table@.len(),
        forall|i: int|
            0 <= i < saved.inode_table@.len() ==> (#[trigger] saved.inode_table@[i])@
                == meta.inode_table@[i]@,
{
    lemma_meta_view(meta);
    lemma_saved_view(saved);
    assert(saved@.inodes == meta@.inodes && saved@.blocks == meta@.blocks);
    assert forall|i: int| 0 <= i < saved.inode_table@.len() implies (
    #[trigger] saved.inode_table@[i])@ == meta.inode_table@[i]@ by {
        assert(meta@.table[i] == saved@.table[i]);
    }
}

} // verus!
