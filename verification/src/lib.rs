//! The core of a filesystem that presents a remote object-storage bucket as a
//! local POSIX tree: the inode and directory store, the permission rules, the
//! on-disk record format, the cache freshness protocol and the block plan of
//! the range downloader.
//!
//! Everything here works on plain values. Whoever embeds the library owns the
//! kernel transport, the object-store client, the clock and the disk; it hands
//! requests in and carries the recorded changes out.

pub mod access;
pub mod posix;
pub mod names;
pub mod directory;
pub mod attrs;
pub mod codec;
pub mod store;
pub mod content;
pub mod ops;
pub mod download;
pub mod seed;
pub mod freshness;
pub mod invariants;
pub mod mount;
pub mod layout;
