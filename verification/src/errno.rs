//! The errors that requests are answered with.

use vstd::prelude::*;

verus! {

/// Why a request failed.
#[derive(Clone, Copy, Debug, PartialEq, Eq, Structural)]
pub enum Errno {
    /// No such file or directory.
    ENOENT,
    /// File exists.
    EEXIST,
    /// Not a directory.
    ENOTDIR,
    /// Invalid argument.
    EINVAL,
    /// No space left on device.
    ENOSPC,
    /// What the system reported when the backing store was read or written.
    Os(i32),
}

} // verus!
