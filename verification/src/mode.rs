//! File kinds, and what the bits of a Unix file mode say about a file.

use vstd::prelude::*;

verus! {

/// The kinds of files that are supported.
#[derive(Clone, Copy, Debug, PartialEq, Eq, Structural)]
pub enum FileKind {
    File,
    Directory,
    Symlink,
}

impl Default for FileKind {
    fn default() -> (kind: FileKind)
        ensures
            kind == FileKind::File,
    {
        FileKind::File
    }
}

/// The bits of a mode that hold the file type.
pub const TYPE_BITS: u32 = 0o170000;

/// The file type of a regular file.
pub const REGULAR_TYPE: u32 = 0o100000;

/// The file type of a symbolic link.
pub const SYMLINK_TYPE: u32 = 0o120000;

/// The file type of a directory.
pub const DIRECTORY_TYPE: u32 = 0o040000;

/// The mode bit of a program that runs as the owner of its file.
pub const SET_UID_BIT: u32 = 0o4000;

/// The mode bit of a program that runs as the group of its file, and of a directory whose
/// new files inherit its group.
pub const SET_GID_BIT: u32 = 0o2000;

/// `libc::S_IFMT` masks the file type of a mode.
#[verifier::external_body]
fn s_ifmt() -> (bits: u32)
    ensures
        bits == TYPE_BITS,
{
    libc::S_IFMT as u32
}

/// `libc::S_IFREG` is the type of a regular file.
#[verifier::external_body]
fn s_ifreg() -> (bits: u32)
    ensures
        bits == REGULAR_TYPE,
{
    libc::S_IFREG as u32
}

/// `libc::S_IFLNK` is the type of a symbolic link.
#[verifier::external_body]
fn s_iflnk() -> (bits: u32)
    ensures
        bits == SYMLINK_TYPE,
{
    libc::S_IFLNK as u32
}

/// `libc::S_IFDIR` is the type of a directory.
#[verifier::external_body]
fn s_ifdir() -> (bits: u32)
    ensures
        bits == DIRECTORY_TYPE,
{
    libc::S_IFDIR as u32
}

/// `libc::S_ISUID` is the set-user-ID bit.
#[verifier::external_body]
fn s_isuid() -> (bits: u32)
    ensures
        bits == SET_UID_BIT,
{
    libc::S_ISUID as u32
}

/// `libc::S_ISGID` is the set-group-ID bit.
#[verifier::external_body]
fn s_isgid() -> (bits: u32)
    ensures
        bits == SET_GID_BIT,
{
    libc::S_ISGID as u32
}

/// The kind of file that a mode stands for: `None` for the types that are not supported.
pub open spec fn kind_of_mode(mode: u32) -> Option<FileKind> {
    let file_type = mode & TYPE_BITS;
    if file_type == REGULAR_TYPE {
        Some(FileKind::File)
    } else if file_type == SYMLINK_TYPE {
        Some(FileKind::Symlink)
    } else if file_type == DIRECTORY_TYPE {
        Some(FileKind::Directory)
    } else {
        None
    }
}

/// The mode that a new file gets when it is asked for with `mode`: its low sixteen bits, but
/// for the two bits that run a program as somebody else.
pub open spec fn mode_on_creation(mode: u32) -> u16 {
    (mode & !(SET_UID_BIT | SET_GID_BIT)) as u16
}

/// The group of a new file in a directory: the directory's, where that has the set-group-ID
/// bit, else the one of whoever asks.
pub open spec fn gid_on_creation(parent_mode: u16, parent_gid: u32, gid: u32) -> u32 {
    if parent_mode & SET_GID_BIT as u16 != 0 {
        parent_gid
    } else {
        gid
    }
}

/// Whether a mode stands for a kind of file that is supported.
pub fn is_supported(mode: u32) -> (supported: bool)
    ensures
        supported == (kind_of_mode(mode) is Some),
{
    let file_type: u32 = mode & s_ifmt();
    file_type == s_ifreg() || file_type == s_iflnk() || file_type == s_ifdir()
}

/// The kind of file that a mode stands for.
pub fn as_file_kind(mode: u32) -> (kind: FileKind)
    requires
        kind_of_mode(mode) is Some,
    ensures
        Some(kind) == kind_of_mode(mode),
{
    let file_type: u32 = mode & s_ifmt();
    if file_type == s_ifreg() {
        FileKind::File
    } else if file_type == s_iflnk() {
        FileKind::Symlink
    } else {
        FileKind::Directory
    }
}

/// The mode that a new file gets.
pub fn creation_mode(mode: u32) -> (perm: u16)
    ensures
        perm == mode_on_creation(mode),
{
    (mode & !(s_isuid() | s_isgid())) as u16
}

/// The group that a new file gets, from the mode and the group of its directory.
pub fn creation_gid(parent_mode: u16, parent_gid: u32, gid: u32) -> (new_gid: u32)
    ensures
        new_gid == gid_on_creation(parent_mode, parent_gid, gid),
{
    if parent_mode & s_isgid() as u16 != 0 {
        return parent_gid;
    }
    gid
}

/// A new file keeps the permission bits and the sticky bit that it is asked for with, and has
/// neither the set-user-ID nor the set-group-ID bit.
pub proof fn lemma_mode_on_creation(mode: u32)
    ensures
        mode_on_creation(mode) & 0o1777 == (mode & 0o1777) as u16,
        mode_on_creation(mode) & 0o6000 == 0,
{
    assert(((mode & !(0o4000u32 | 0o2000u32)) as u16) & 0o1777u16 == (mode & 0o1777u32) as u16)
        by (bit_vector);
    assert(((mode & !(0o4000u32 | 0o2000u32)) as u16) & 0o6000u16 == 0) by (bit_vector);
}

/// The kinds of files, by the type bits of a mode as Unix has them.
pub proof fn lemma_kinds(mode: u32)
    ensures
        mode & 0o170000 == 0o100000 <==> kind_of_mode(mode) == Some(FileKind::File),
        mode & 0o170000 == 0o120000 <==> kind_of_mode(mode) == Some(FileKind::Symlink),
        mode & 0o170000 == 0o040000 <==> kind_of_mode(mode) == Some(FileKind::Directory),
{
}

/// A mode is supported where its type bits stand for one of the three kinds.
pub proof fn lemma_supported(mode: u32, supported: bool)
    requires
        call_ensures(is_supported, (mode,), supported),
    ensures
        supported <==> mode & 0o170000 == 0o100000 || mode & 0o170000 == 0o120000 || mode
            & 0o170000 == 0o040000,
{
}

/// The kind of file that is made for a mode is the one that its type bits stand for.
pub proof fn lemma_file_kind(mode: u32, kind: FileKind)
    requires
        call_ensures(as_file_kind, (mode,), kind),
        kind_of_mode(mode) is Some,
    ensures
        kind == FileKind::File <==> mode & 0o170000 == 0o100000,
        kind == FileKind::Symlink <==> mode & 0o170000 == 0o120000,
        kind == FileKind::Directory <==> mode & 0o170000 == 0o040000,
{
}

/// A new file has the low sixteen bits of the mode that it is asked for with, but for the two
/// that set an ID.
pub proof fn lemma_new_mode(mode: u32, perm: u16)
    requires
        call_ensures(creation_mode, (mode,), perm),
    ensures
        perm == (mode & 0o171777) as u16,
{
    assert((mode & !(0o4000u32 | 0o2000u32)) as u16 == (mode & 0o171777u32) as u16)
        by (bit_vector);
}

/// A new file has the group of whoever asks, unless its directory hands down its own.
pub proof fn lemma_new_group(parent_mode: u16, parent_gid: u32, gid: u32, new_gid: u32)
    requires
        call_ensures(creation_gid, (parent_mode, parent_gid, gid), new_gid),
    ensures
        parent_mode & 0o2000 == 0 ==> new_gid == gid,
        parent_mode & 0o2000 != 0 ==> new_gid == parent_gid,
{
}

} // verus!
