//! The platform filesystem backend's decision logic. The real system calls
//! (open, read, write, mkdir, stat, readdir, rename, symlink, fsync) are
//! made by the embedding program, which feeds their plain results through
//! these functions: the read-window arithmetic and the classification of
//! directory entries are what the protocol's answers depend on.

use vstd::prelude::*;
use crate::protocol::FileType;

verus! {

/// The platform filesystem backend. The embedding program pairs one of
/// these with the export root it serves.
pub struct PlatformFileSystem {}

impl PlatformFileSystem {
    pub fn new() -> (r: PlatformFileSystem) {
        PlatformFileSystem {  }
    }

    /// The window a read request actually covers in a file of `file_size`
    /// bytes: nothing when the offset is at or past the end, otherwise the
    /// requested length clipped to the bytes that remain. A read never
    /// fails for reaching past the end; it returns the bytes that exist.
    pub fn read_span(&self, offset: u64, length: u64, file_size: u64) -> (r: (u64, u64))
        ensures
            r.0 == offset,
            offset >= file_size ==> r.1 == 0,
            offset < file_size ==> r.1 == if length <= file_size - offset {
                length
            } else {
                (file_size - offset) as u64
            },
            r.1 <= length,
            offset < file_size ==> offset + r.1 <= file_size,
    {
        if offset >= file_size {
            (offset, 0)
        } else {
            let remaining = file_size - offset;
            if length <= remaining {
                (offset, length)
            } else {
                (offset, remaining)
            }
        }
    }

    /// The protocol kind of a directory entry, from the flags the platform
    /// reports: a directory before a regular file, a regular file before a
    /// symlink, anything else is other.
    pub fn classify_file_type(&self, is_dir: bool, is_file: bool, is_symlink: bool) -> (r:
        FileType)
        ensures
            is_dir ==> r == FileType::Directory,
            !is_dir && is_file ==> r == FileType::File,
            !is_dir && !is_file && is_symlink ==> r == FileType::Symlink,
            !is_dir && !is_file && !is_symlink ==> r == FileType::Other,
    {
        if is_dir {
            FileType::Directory
        } else if is_file {
            FileType::File
        } else if is_symlink {
            FileType::Symlink
        } else {
            FileType::Other
        }
    }
}

} // verus!
