//! File type bits of an inode mode.

use vstd::prelude::*;

verus! {

/// The file type bits of a directory.
pub const MODE_DIRECTORY: u32 = 0o040000;

/// The file type bits of a regular file.
pub const MODE_REGULAR: u32 = 0o100000;

/// The access bits that the nodes of a chunk dictionary carry: read and
/// write for owner and group.
pub const MODE_ACCESS: u32 = 0o660;

/// Reads `libc::S_IFDIR`, the file type bits of a directory.
#[verifier::external_body]
pub(crate) fn directory_bits() -> (bits: u32)
    ensures
        bits == MODE_DIRECTORY,
{
    libc::S_IFDIR as u32
}

/// Reads `libc::S_IFREG`, the file type bits of a regular file.
#[verifier::external_body]
pub(crate) fn regular_bits() -> (bits: u32)
    ensures
        bits == MODE_REGULAR,
{
    libc::S_IFREG as u32
}

} // verus!
