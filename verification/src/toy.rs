//! A file system that is held in memory as a whole: a sketch of the layout, with every part
//! at its fixed size.

use vstd::prelude::*;

verus! {

/// Blocks of 4 KiB.
pub const BLOCK_SIZE: usize = 4096;

/// 4 MiB in all.
pub const NUM_BLOCKS: usize = 1024;

/// The number of files that there can be.
pub const NUM_INODES: usize = 256;

/// Information about the file system as a whole.
#[derive(Clone, Copy, Debug, PartialEq, Eq, Structural)]
pub struct Superblock {
    pub block_size: u32,
    pub num_inodes: u32,
    pub num_free_inodes: u32,
    pub num_blocks: u32,
    pub num_free_blocks: u32,
}

/// Which places in the inode table are taken.
pub struct InodeBitmap {
    pub bits: [bool; NUM_INODES],
}

/// Which blocks of the data region are taken.
pub struct DataBitmap {
    pub bits: [bool; NUM_BLOCKS],
}

/// A file.
#[derive(Clone, Copy, Debug, PartialEq, Eq, Structural)]
pub struct Inode {
    /// The size of the file in bytes.
    pub size: u32,
    pub uid: u32,
}

/// The inodes, and the places for more.
pub struct InodeTable {
    pub inodes: Vec<Option<Inode>>,
}

/// The blocks.
pub struct DataRegion {
    pub data_blocks: Vec<[u8; BLOCK_SIZE]>,
}

/// The file system as a whole.
pub struct FuseFS {
    pub superblock: Superblock,
    pub inode_bitmap: InodeBitmap,
    pub data_bitmap: DataBitmap,
    pub inode_table: InodeTable,
    pub data_region: DataRegion,
}

/// All the bits are `false`.
pub open spec fn all_free(bits: Seq<bool>) -> bool {
    forall|i: int| 0 <= i < bits.len() ==> !#[trigger] bits[i]
}

impl Superblock {
    /// A superblock that counts everything as free.
    pub fn new() -> (superblock: Superblock)
        ensures
            superblock == (Superblock {
                block_size: 4096,
                num_inodes: 256,
                num_free_inodes: 256,
                num_blocks: 1024,
                num_free_blocks: 1024,
            }),
    {
        Superblock {
            block_size: BLOCK_SIZE as u32,
            num_blocks: NUM_BLOCKS as u32,
            num_inodes: NUM_INODES as u32,
            num_free_inodes: NUM_INODES as u32,
            num_free_blocks: NUM_BLOCKS as u32,
        }
    }
}

impl InodeBitmap {
    /// A bitmap in which every place is free.
    pub fn new() -> (bitmap: InodeBitmap)
        ensures
            bitmap.bits@.len() == NUM_INODES,
            all_free(bitmap.bits@),
    {
        let bits = [false; NUM_INODES];
        InodeBitmap { bits }
    }
}

impl DataBitmap {
    /// A bitmap in which every block is free.
    pub fn new() -> (bitmap: DataBitmap)
        ensures
            bitmap.bits@.len() == NUM_BLOCKS,
            all_free(bitmap.bits@),
    {
        let bits = [false; NUM_BLOCKS];
        DataBitmap { bits }
    }
}

impl Inode {
    /// A file of the given size, which belongs to root.
    pub fn new(size: u32) -> (inode: Inode)
        ensures
            inode.size == size,
            inode.uid == 0,
    {
        Inode { size, uid: 0 }
    }
}

impl InodeTable {
    /// A table without inodes.
    pub fn new() -> (table: InodeTable)
        ensures
            table.inodes@ == Seq::new(NUM_INODES as nat, |i: int| None::<Inode>),
    {
        let mut inodes: Vec<Option<Inode>> = Vec::new();
        let mut i: usize = 0;
        while i < NUM_INODES
            invariant
                i <= NUM_INODES,
                inodes@ == Seq::new(i as nat, |k: int| None::<Inode>),
            decreases NUM_INODES - i,
        {
            inodes.push(None);
            i += 1;
            assert(inodes@ =~= Seq::new(i as nat, |k: int| None::<Inode>));
        }
        InodeTable { inodes }
    }
}

impl DataRegion {
    /// A region of empty blocks.
    pub fn new() -> (region: DataRegion)
        ensures
            region.data_blocks@.len() == NUM_BLOCKS,
            forall|b: int, i: int|
                0 <= b < NUM_BLOCKS && 0 <= i < BLOCK_SIZE
                    ==> #[trigger] region.data_blocks@[b]@[i] == 0,
    {
        let mut data_blocks: Vec<[u8; BLOCK_SIZE]> = Vec::new();
        let mut n: usize = 0;
        while n < NUM_BLOCKS
            invariant
                n <= NUM_BLOCKS,
                data_blocks@.len() == n,
                forall|b: int, i: int|
                    0 <= b < n && 0 <= i < BLOCK_SIZE ==> #[trigger] data_blocks@[b]@[i] == 0,
            decreases NUM_BLOCKS - n,
        {
            data_blocks.push([0u8; BLOCK_SIZE]);
            n += 1;
        }
        DataRegion { data_blocks }
    }
}

impl FuseFS {
    /// A file system without files.
    pub fn new() -> (fs: FuseFS)
        ensures
            fs.superblock == (Superblock {
                block_size: 4096,
                num_inodes: 256,
                num_free_inodes: 256,
                num_blocks: 1024,
                num_free_blocks: 1024,
            }),
            all_free(fs.inode_bitmap.bits@),
            all_free(fs.data_bitmap.bits@),
            fs.inode_table.inodes@ == Seq::new(NUM_INODES as nat, |i: int| None::<Inode>),
            fs.data_region.data_blocks@.len() == NUM_BLOCKS,
            forall|b: int, i: int|
                0 <= b < NUM_BLOCKS && 0 <= i < BLOCK_SIZE
                    ==> #[trigger] fs.data_region.data_blocks@[b]@[i] == 0,
    {
        let superblock = Superblock::new();
        let inode_bitmap = InodeBitmap::new();
        let data_bitmap = DataBitmap::new();
        let inode_table = InodeTable::new();
        let data_region = DataRegion::new();
        FuseFS { superblock, inode_bitmap, data_bitmap, inode_table, data_region }
    }
}

/// Everything of a new file system is there and free: no bit is set, no inode is there, and
/// every byte of every block is zero.
pub proof fn lemma_new(fs: FuseFS)
    requires
        call_ensures(FuseFS::new, (), fs),
    ensures
        fs.superblock.block_size == 4096,
        fs.superblock.num_inodes == 256,
        fs.superblock.num_free_inodes == 256,
        fs.superblock.num_blocks == 1024,
        fs.superblock.num_free_blocks == 1024,
        fs.inode_bitmap.bits@.len() == 256,
        forall|i: int| 0 <= i < 256 ==> !#[trigger] fs.inode_bitmap.bits@[i],
        fs.data_bitmap.bits@.len() == 1024,
        forall|b: int| 0 <= b < 1024 ==> !#[trigger] fs.data_bitmap.bits@[b],
        fs.inode_table.inodes@.len() == 256,
        forall|i: int| 0 <= i < 256 ==> #[trigger] fs.inode_table.inodes@[i] is None,
        fs.data_region.data_blocks@.len() == 1024,
        forall|b: int, i: int|
            0 <= b < 1024 && 0 <= i < 4096 ==> #[trigger] fs.data_region.data_blocks@[b]@[i] == 0,
{
}

} // verus!
