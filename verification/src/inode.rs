//! Inodes: what the file system records about a file.

use crate::extent::Extent;
use crate::mode::FileKind;
use vstd::prelude::*;

verus! {

/// A timestamp: seconds relative to the Unix epoch, and nanoseconds.
pub type Time = (i64, u32);

/// What the file system records about a file.
#[derive(Debug)]
pub struct InodeAttributes {
    pub inode: u64,
    /// Ref count of open file handles to this inode.
    pub open_file_handles: u64,
    pub size: u64,
    pub last_accessed: Time,
    pub last_modified: Time,
    pub last_metadata_changed: Time,
    pub kind: FileKind,
    /// Permissions and special mode bits.
    pub mode: u16,
    pub hardlinks: u32,
    pub uid: u32,
    pub gid: u32,
    pub extent_index: Vec<Extent>,
}

/// The attributes of a file as mathematical values.
#[verifier::ext_equal]
pub struct Attributes {
    pub inode: u64,
    pub open_file_handles: u64,
    pub size: u64,
    pub last_accessed: Time,
    pub last_modified: Time,
    pub last_metadata_changed: Time,
    pub kind: FileKind,
    pub mode: u16,
    pub hardlinks: u32,
    pub uid: u32,
    pub gid: u32,
    pub extents: Seq<Extent>,
}

impl View for InodeAttributes {
    type V = Attributes;

    open spec fn view(&self) -> Attributes {
        Attributes {
            inode: self.inode,
            open_file_handles: self.open_file_handles,
            size: self.size,
            last_accessed: self.last_accessed,
            last_modified: self.last_modified,
            last_metadata_changed: self.last_metadata_changed,
            kind: self.kind,
            mode: self.mode,
            hardlinks: self.hardlinks,
            uid: self.uid,
            gid: self.gid,
            extents: self.extent_index@,
        }
    }
}

/// The attributes of an inode that was never used.
pub open spec fn unused_attributes() -> Attributes {
    Attributes {
        inode: 0,
        open_file_handles: 0,
        size: 0,
        last_accessed: (0, 0),
        last_modified: (0, 0),
        last_metadata_changed: (0, 0),
        kind: FileKind::File,
        mode: 0,
        hardlinks: 0,
        uid: 0,
        gid: 0,
        extents: Seq::empty(),
    }
}

/// The views of a list of attributes.
pub open spec fn attributes_of(table: Seq<InodeAttributes>) -> Seq<Attributes> {
    Seq::new(table.len(), |i: int| table[i]@)
}

impl Default for InodeAttributes {
    fn default() -> (attr: InodeAttributes)
        ensures
            attr@ == unused_attributes(),
    {
        let attr = InodeAttributes {
            inode: 0,
            open_file_handles: 0,
            size: 0,
            last_accessed: (0, 0),
            last_modified: (0, 0),
            last_metadata_changed: (0, 0),
            kind: FileKind::File,
            mode: 0,
            hardlinks: 0,
            uid: 0,
            gid: 0,
            extent_index: Vec::new(),
        };
        assert(attr@ =~= unused_attributes());
        attr
    }
}

/// A copy of a list of extents.
pub fn copy_extents(extents: &Vec<Extent>) -> (copy: Vec<Extent>)
    ensures
        copy@ == extents@,
{
    vstd::slice::slice_to_vec(extents.as_slice())
}

impl Clone for InodeAttributes {
    fn clone(&self) -> (copy: InodeAttributes)
        ensures
            copy@ == self@,
    {
        InodeAttributes {
            inode: self.inode,
            open_file_handles: self.open_file_handles,
            size: self.size,
            last_accessed: self.last_accessed,
            last_modified: self.last_modified,
            last_metadata_changed: self.last_metadata_changed,
            kind: self.kind,
            mode: self.mode,
            hardlinks: self.hardlinks,
            uid: self.uid,
            gid: self.gid,
            extent_index: copy_extents(&self.extent_index),
        }
    }
}

/// What is told of a file when it is asked about.
#[derive(Clone, Copy, Debug, PartialEq, Eq)]
pub struct FileAttr {
    pub ino: u64,
    pub size: u64,
    /// The number of blocks that the size takes up.
    pub blocks: u64,
    pub atime: Time,
    pub mtime: Time,
    pub ctime: Time,
    pub crtime: Time,
    pub kind: FileKind,
    pub perm: u16,
    pub nlink: u32,
    pub uid: u32,
    pub gid: u32,
    pub rdev: u32,
    pub blksize: u32,
    pub flags: u32,
}

/// The number of blocks that `size` bytes take up, the last one perhaps in part.
pub open spec fn blocks_for(size: int, block_size: int) -> int {
    (size + block_size - 1) / block_size
}

/// What is told of a file with the given attributes.
pub open spec fn file_attr_of(attr: Attributes, block_size: u32) -> FileAttr {
    FileAttr {
        ino: attr.inode,
        size: attr.size,
        blocks: blocks_for(attr.size as int, block_size as int) as u64,
        atime: attr.last_accessed,
        mtime: attr.last_modified,
        ctime: attr.last_metadata_changed,
        crtime: (0, 0),
        kind: attr.kind,
        perm: attr.mode,
        nlink: attr.hardlinks,
        uid: attr.uid,
        gid: attr.gid,
        rdev: 0,
        blksize: block_size,
        flags: 0,
    }
}

/// The number of blocks allocated for a file.
pub fn blocks_allocated(size: u64, block_size: u32) -> (blocks: u64)
    requires
        block_size > 0,
    ensures
        blocks == blocks_for(size as int, block_size as int),
{
    let bs: u64 = block_size as u64;
    let whole: u64 = size / bs;
    let rest: u64 = size % bs;
    proof {
        let d = bs as int;
        vstd::arithmetic::div_mod::lemma_fundamental_div_mod(size as int, d);
        vstd::arithmetic::mul::lemma_mul_is_commutative(d, whole as int);
        if rest == 0 {
            vstd::arithmetic::div_mod::lemma_fundamental_div_mod_converse(
                size + d - 1,
                d,
                whole as int,
                d - 1,
            );
        } else {
            vstd::arithmetic::mul::lemma_mul_is_distributive_add_other_way(d, whole as int, 1);
            vstd::arithmetic::div_mod::lemma_fundamental_div_mod_converse(
                size + d - 1,
                d,
                whole + 1,
                rest - 1,
            );
            assert(whole < size || d == 1) by (nonlinear_arith)
                requires
                    size == whole * d + rest,
                    rest > 0,
                    d >= 1,
                    whole >= 0,
            ;
        }
    }
    if rest == 0 {
        whole
    } else {
        whole + 1
    }
}

/// What is told of a file.
pub fn inode_attr_to_file_attr(attr: &InodeAttributes, block_size: u32) -> (told: FileAttr)
    requires
        block_size > 0,
    ensures
        told == file_attr_of(attr@, block_size),
        told.blocks == blocks_for(attr.size as int, block_size as int),
        told.ino == attr.inode,
        told.size == attr.size,
        told.atime == attr.last_accessed,
        told.mtime == attr.last_modified,
        told.ctime == attr.last_metadata_changed,
        told.crtime == (0i64, 0u32),
        told.kind == attr.kind,
        told.perm == attr.mode,
        told.nlink == attr.hardlinks,
        told.uid == attr.uid,
        told.gid == attr.gid,
        told.rdev == 0,
        told.blksize == block_size,
        told.flags == 0,
{
    FileAttr {
        ino: attr.inode,
        size: attr.size,
        blocks: blocks_allocated(attr.size, block_size),
        atime: attr.last_accessed,
        mtime: attr.last_modified,
        ctime: attr.last_metadata_changed,
        crtime: (0, 0),
        kind: attr.kind,
        perm: attr.mode,
        nlink: attr.hardlinks,
        uid: attr.uid,
        gid: attr.gid,
        rdev: 0,
        blksize: block_size,
        flags: 0,
    }
}

/// The mathematical values of attributes are those of the fields.
pub proof fn lemma_attributes_view(attr: InodeAttributes)
    ensures
        attr@.inode == attr.inode,
        attr@.open_file_handles == attr.open_file_handles,
        attr@.size == attr.size,
        attr@.last_accessed == attr.last_accessed,
        attr@.last_modified == attr.last_modified,
        attr@.last_metadata_changed == attr.last_metadata_changed,
        attr@.kind == attr.kind,
        attr@.mode == attr.mode,
        attr@.hardlinks == attr.hardlinks,
        attr@.uid == attr.uid,
        attr@.gid == attr.gid,
        attr@.extents == attr.extent_index@,
{
}

/// The mathematical values of a table are those of its entries, in order.
pub proof fn lemma_table_view(table: Seq<InodeAttributes>)
    ensures
        attributes_of(table).len() == table.len(),
        forall|i: int| 0 <= i < table.len() ==> #[trigger] attributes_of(table)[i] == table[i]@,
{
}

/// Attributes that were never set are all zero: an empty file of nobody's, without blocks.
pub proof fn lemma_unused(attr: InodeAttributes)
    requires
        call_ensures(InodeAttributes::default, (), attr),
    ensures
        attr.inode == 0,
        attr.open_file_handles == 0,
        attr.size == 0,
        attr.last_accessed == (0i64, 0u32),
        attr.last_modified == (0i64, 0u32),
        attr.last_metadata_changed == (0i64, 0u32),
        attr.kind == FileKind::File,
        attr.mode == 0,
        attr.hardlinks == 0,
        attr.uid == 0,
        attr.gid == 0,
        attr.extent_index@.len() == 0,
        unused_attributes() == attr@,
{
}

/// A copy has the fields of what it was made from.
pub proof fn lemma_copy(attr: InodeAttributes, copy: InodeAttributes)
    requires
        call_ensures(InodeAttributes::clone, (&attr,), copy),
    ensures
        copy.inode == attr.inode,
        copy.open_file_handles == attr.open_file_handles,
        copy.size == attr.size,
        copy.last_accessed == attr.last_accessed,
        copy.last_modified == attr.last_modified,
        copy.last_metadata_changed == attr.last_metadata_changed,
        copy.kind == attr.kind,
        copy.mode == attr.mode,
        copy.hardlinks == attr.hardlinks,
        copy.uid == attr.uid,
        copy.gid == attr.gid,
        copy.extent_index@ == attr.extent_index@,
{
}

/// As many blocks are counted for a size as it needs: they have room for it, and one less
/// would not have.
pub proof fn lemma_blocks_needed(size: u64, block_size: u32, blocks: u64)
    requires
        block_size > 0,
        call_ensures(blocks_allocated, (size, block_size), blocks),
    ensures
        size <= blocks * block_size,
        size > 0 ==> (blocks - 1) * block_size < size,
        size == 0 ==> blocks == 0,
{
    lemma_blocks_for(size as int, block_size as int);
}

/// A number of blocks has room for a size exactly where it is no less than what is counted for
/// the size.
pub proof fn lemma_blocks_for(size: int, block_size: int)
    requires
        size >= 0,
        block_size > 0,
    ensures
        size <= blocks_for(size, block_size) * block_size,
        size > 0 ==> (blocks_for(size, block_size) - 1) * block_size < size,
        size == 0 ==> blocks_for(size, block_size) == 0,
        forall|n: int| n >= blocks_for(size, block_size) <==> #[trigger] (n * block_size) >= size,
{
    let blocks = blocks_for(size, block_size);
    vstd::arithmetic::div_mod::lemma_fundamental_div_mod(size + block_size - 1, block_size);
    vstd::arithmetic::mul::lemma_mul_is_commutative(block_size, blocks);
    vstd::arithmetic::mul::lemma_mul_is_distributive_sub_other_way(block_size, blocks, 1);
    if size == 0 {
        vstd::arithmetic::div_mod::lemma_small_div_converse(block_size - 1, block_size);
        assert((block_size - 1) / block_size == 0) by (nonlinear_arith)
            requires
                block_size > 0,
        ;
    }
    assert forall|n: int| n >= blocks <==> #[trigger] (n * block_size) >= size by {
        if n >= blocks {
            vstd::arithmetic::mul::lemma_mul_inequality(blocks, n, block_size);
        } else {
            vstd::arithmetic::mul::lemma_mul_inequality(n, blocks - 1, block_size);
        }
    }
}

/// What is told of a file is what is recorded of it.
pub proof fn lemma_told(attr: InodeAttributes, block_size: u32, told: FileAttr)
    requires
        block_size > 0,
        call_ensures(inode_attr_to_file_attr, (&attr, block_size), told),
    ensures
        told.ino == attr.inode,
        told.size == attr.size,
        told.size <= told.blocks * block_size,
        told.size > 0 ==> (told.blocks - 1) * block_size < told.size,
        told.atime == attr.last_accessed,
        told.mtime == attr.last_modified,
        told.ctime == attr.last_metadata_changed,
        told.crtime == (0i64, 0u32),
        told.kind == attr.kind,
        told.perm == attr.mode,
        told.nlink == attr.hardlinks,
        told.uid == attr.uid,
        told.gid == attr.gid,
        told.rdev == 0,
        told.blksize == block_size,
        told.flags == 0,
{
    lemma_blocks_for(attr.size as int, block_size as int);
}

} // verus!
