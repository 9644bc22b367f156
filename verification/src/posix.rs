//! The POSIX numbers that the filesystem rules are written in: access masks,
//! open flags, mode bits, and the errors that an operation can answer with.

use vstd::prelude::*;

verus! {

/// Inode number of the root directory, as the kernel transport fixes it.
pub const ROOT_INODE: u64 = 1;

/// Access mask: the file exists.
pub const F_OK: i32 = 0;

/// Access mask: execute (or search, for a directory).
pub const X_OK: i32 = 1;

/// Access mask: write.
pub const W_OK: i32 = 2;

/// Access mask: read.
pub const R_OK: i32 = 4;

/// Mask of the access mode inside the open flags.
pub const O_ACCMODE: i32 = 3;

pub const O_RDONLY: i32 = 0;

pub const O_WRONLY: i32 = 1;

pub const O_RDWR: i32 = 2;

pub const O_TRUNC: i32 = 0o1000;

/// Set by the kernel on an open that comes from `exec`.
pub const FMODE_EXEC: i32 = 0x20;

pub const S_ISUID: u32 = 0o4000;

pub const S_ISGID: u32 = 0o2000;

pub const S_ISVTX: u32 = 0o1000;

pub const S_IXGRP: u32 = 0o010;

/// Mask of the file type inside a mode.
pub const S_IFMT: u32 = 0o170000;

pub const S_IFREG: u32 = 0o100000;

pub const S_IFDIR: u32 = 0o040000;

/// Longest entry name that `lookup` accepts, in bytes.
pub const MAX_NAME_LENGTH: usize = 255;

/// Size of the unit in which `blocks` counts a file.
pub const BLOCK_SIZE: u64 = 512;

/// Reply flag that asks the kernel to bypass its page cache for the file.
pub const FOPEN_DIRECT_IO: u32 = 1;

/// What an operation can fail with. `errno` gives the number for the kernel.
#[derive(Clone, Copy, Debug, PartialEq, Eq, Structural)]
pub enum FsError {
    /// An inode or a directory entry is missing.
    NotFound,
    /// An entry name is longer than `MAX_NAME_LENGTH`.
    NameTooLong,
    /// The caller lacks a permission, or a handle lacks a capability bit.
    AccessDenied,
    /// The open flags name no single access mode.
    InvalidArgument,
    /// The name is already taken.
    AlreadyExists,
    /// The content to write to is missing.
    BadDescriptor,
    /// A stored record is not what its inode says it is.
    Io,
}

impl FsError {
    pub open spec fn spec_errno(self) -> i32 {
        match self {
            FsError::NotFound => 2,
            FsError::NameTooLong => 36,
            FsError::AccessDenied => 13,
            FsError::InvalidArgument => 22,
            FsError::AlreadyExists => 17,
            FsError::BadDescriptor => 9,
            FsError::Io => 5,
        }
    }

    /// The Linux `errno` of this error.
    pub fn errno(&self) -> (code: i32)
        ensures
            code == self.spec_errno(),
    {
        match self {
            FsError::NotFound => 2,
            FsError::NameTooLong => 36,
            FsError::AccessDenied => 13,
            FsError::InvalidArgument => 22,
            FsError::AlreadyExists => 17,
            FsError::BadDescriptor => 9,
            FsError::Io => 5,
        }
    }
}

} // verus!
