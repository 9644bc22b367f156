//! Inode attributes: what the store keeps about every file and directory, and
//! the small rules that derive one attribute from another.

use vstd::prelude::*;
use vstd::slice::slice_to_vec;
use crate::directory::FileKind;
use crate::posix::{BLOCK_SIZE, S_IFDIR, S_IFMT, S_IFREG, S_ISGID, S_ISUID, S_IXGRP};

verus! {

/// A point in time: whole seconds since the epoch and the nanoseconds within
/// the second. A time before the epoch has negative seconds, and its
/// nanoseconds count away from the epoch as well.
#[derive(Clone, Copy, Debug, PartialEq, Eq, Structural)]
pub struct Timestamp {
    pub secs: i64,
    pub nanos: u32,
}

impl Timestamp {
    /// The distance from the epoch in nanoseconds, negative before it.
    pub open spec fn offset_nanos(self) -> int {
        if self.secs >= 0 {
            self.secs * 1_000_000_000 + self.nanos
        } else {
            self.secs * 1_000_000_000 - self.nanos
        }
    }

    pub fn new(secs: i64, nanos: u32) -> (t: Timestamp)
        ensures
            t == (Timestamp { secs, nanos }),
    {
        Timestamp { secs, nanos }
    }
}

/// The larger of the two distances from the epoch that a time can have: that
/// of the earliest time.
pub const MAX_SECONDS_BEFORE_EPOCH: u64 = 0x8000_0000_0000_0000;

/// The side of the epoch and the distance from it that a time has: whether it
/// lies before the epoch, then whole seconds and nanoseconds of distance.
pub open spec fn spec_time_parts(t: Timestamp) -> (bool, u64, u32) {
    (t.secs < 0, (if t.secs >= 0 {
        t.secs as int
    } else {
        -(t.secs as int)
    }) as u64, t.nanos)
}

/// A distance in whole seconds that a time on that side of the epoch can
/// have.
pub open spec fn distance_fits(before_epoch: bool, secs: u64) -> bool {
    if before_epoch {
        secs <= MAX_SECONDS_BEFORE_EPOCH
    } else {
        secs <= i64::MAX
    }
}

/// The time that lies at that distance on that side of the epoch.
pub open spec fn spec_time_from_parts(before_epoch: bool, secs: u64, nanos: u32) -> Timestamp {
    Timestamp {
        secs: (if before_epoch {
            -(secs as int)
        } else {
            secs as int
        }) as i64,
        nanos,
    }
}

/// Splitting a time and putting it together again gives the time back, and
/// the parts say how far from the epoch it lies.
pub proof fn lemma_time_parts_roundtrip(t: Timestamp)
    ensures
        ({
            let (before_epoch, secs, nanos) = spec_time_parts(t);
            &&& distance_fits(before_epoch, secs)
            &&& spec_time_from_parts(before_epoch, secs, nanos) == t
            &&& t.offset_nanos() == if before_epoch {
                -(secs * 1_000_000_000 + nanos)
            } else {
                secs * 1_000_000_000 + nanos
            }
        }),
{
}

/// Splits a time into its side of the epoch and its distance from it.
pub fn system_time_parts(secs: i64, nsecs: u32) -> (parts: (bool, u64, u32))
    ensures
        parts == spec_time_parts(Timestamp { secs, nanos: nsecs }),
        distance_fits(parts.0, parts.1),
{
    if secs >= 0 {
        (false, secs as u64, nsecs)
    } else if secs == i64::MIN {
        (true, MAX_SECONDS_BEFORE_EPOCH, nsecs)
    } else {
        (true, (-secs) as u64, nsecs)
    }
}

/// The time that lies `secs` seconds and `nanos` nanoseconds from the epoch,
/// before it if `before_epoch`.
pub fn time_from_parts(before_epoch: bool, secs: u64, nanos: u32) -> (t: Timestamp)
    requires
        distance_fits(before_epoch, secs),
    ensures
        t == spec_time_from_parts(before_epoch, secs, nanos),
{
    if !before_epoch {
        Timestamp { secs: secs as i64, nanos }
    } else if secs == MAX_SECONDS_BEFORE_EPOCH {
        Timestamp { secs: i64::MIN, nanos }
    } else {
        Timestamp { secs: -(secs as i64), nanos }
    }
}

/// The attributes of one inode.
#[derive(Debug)]
pub struct InodeAttributes {
    pub inode: u64,
    /// Open handles that refer to the inode.
    pub open_file_handles: u64,
    pub size: u64,
    pub last_accessed: Timestamp,
    pub last_modified: Timestamp,
    pub last_metadata_changed: Timestamp,
    pub kind: FileKind,
    /// Permission bits and the three special bits.
    pub mode: u16,
    pub hardlinks: u32,
    pub uid: u32,
    pub gid: u32,
    /// The remote version that the cached content was filled from; empty
    /// while it never was.
    pub version_tag: String,
    /// The key under which the remote store holds the object; empty for the
    /// root.
    pub remote_key: Vec<u8>,
}

/// Inode attributes as a mathematical value.
pub struct AttrsView {
    pub inode: u64,
    pub open_file_handles: u64,
    pub size: u64,
    pub last_accessed: Timestamp,
    pub last_modified: Timestamp,
    pub last_metadata_changed: Timestamp,
    pub kind: FileKind,
    pub mode: u16,
    pub hardlinks: u32,
    pub uid: u32,
    pub gid: u32,
    pub version_tag: Seq<char>,
    pub remote_key: Seq<u8>,
}

impl View for InodeAttributes {
    type V = AttrsView;

    open spec fn view(&self) -> AttrsView {
        AttrsView {
            inode: self.inode,
            open_file_handles: self.open_file_handles,
            size: self.size,
            last_accessed: self.last_accessed,
            last_modified: self.last_modified,
            last_metadata_changed: self.last_metadata_changed,
            kind: self.kind,
            mode: self.mode,
            hardlinks: self.hardlinks,
            uid: self.uid,
            gid: self.gid,
            version_tag: self.version_tag@,
            remote_key: self.remote_key@,
        }
    }
}

/// The number of `BLOCK_SIZE` units that `size` bytes take.
pub open spec fn blocks_of(size: u64) -> int {
    (size + BLOCK_SIZE - 1) / (BLOCK_SIZE as int)
}

/// A mode with the set-user-id bit cleared, and the set-group-id bit cleared
/// too when the group may execute.
pub open spec fn mode_without_suid_sgid(mode: u16) -> u16 {
    let m = mode & !(S_ISUID as u16);
    if m & (S_IXGRP as u16) != 0 {
        m & !(S_ISGID as u16)
    } else {
        m
    }
}

/// A requested mode as it counts for the caller `uid`: anybody but root
/// loses the set-user-id and the set-group-id bit.
pub open spec fn spec_requested_mode(mode: u32, uid: u32) -> u32 {
    if uid != 0 {
        mode & !(S_ISUID | S_ISGID)
    } else {
        mode
    }
}

/// The bits of a mode that an inode keeps: the nine `rwx` bits and the three
/// special bits.
pub open spec fn spec_creation_mode(mode: u32) -> u16 {
    (mode & 0o7777) as u16
}

/// The kind that the file-type bits of a mode ask for, where it is one that
/// the filesystem has.
pub open spec fn spec_file_kind(mode: u32) -> Option<FileKind> {
    if mode & S_IFMT == S_IFREG {
        Some(FileKind::File)
    } else if mode & S_IFMT == S_IFDIR {
        Some(FileKind::Directory)
    } else {
        None
    }
}

/// The group of a new inode: the parent's where the parent has the
/// set-group-id bit, else the caller's.
pub open spec fn spec_creation_gid(parent_mode: u16, parent_gid: u32, gid: u32) -> u32 {
    if parent_mode & (S_ISGID as u16) != 0 {
        parent_gid
    } else {
        gid
    }
}

impl InodeAttributes {
    /// An owned copy.
    pub fn duplicate(&self) -> (copy: InodeAttributes)
        ensures
            copy@ == self@,
    {
        InodeAttributes {
            inode: self.inode,
            open_file_handles: self.open_file_handles,
            size: self.size,
            last_accessed: self.last_accessed,
            last_modified: self.last_modified,
            last_metadata_changed: self.last_metadata_changed,
            kind: self.kind,
            mode: self.mode,
            hardlinks: self.hardlinks,
            uid: self.uid,
            gid: self.gid,
            version_tag: self.version_tag.clone(),
            remote_key: slice_to_vec(self.remote_key.as_slice()),
        }
    }

    /// The number of `BLOCK_SIZE` units that the content takes, rounded up.
    pub fn blocks(&self) -> (n: u64)
        ensures
            n == blocks_of(self.size),
    {
        let whole = self.size / BLOCK_SIZE;
        if self.size % BLOCK_SIZE == 0 {
            whole
        } else {
            whole + 1
        }
    }
}

/// Clears the set-user-id bit of `attr`, and its set-group-id bit where the
/// group may execute. Nothing else changes.
pub fn clear_suid_sgid(attr: &mut InodeAttributes)
    ensures
        final(attr)@ == (AttrsView { mode: mode_without_suid_sgid(old(attr).mode), ..old(attr)@ }),
{
    attr.mode = attr.mode & !(S_ISUID as u16);
    if attr.mode & (S_IXGRP as u16) != 0 {
        attr.mode = attr.mode & !(S_ISGID as u16);
    }
}

/// A requested mode as it counts for the caller `uid`. The file type that
/// the mode names stays as it is.
pub fn requested_mode(mode: u32, uid: u32) -> (counted: u32)
    ensures
        counted == spec_requested_mode(mode, uid),
        spec_file_kind(counted) == spec_file_kind(mode),
{
    assert((mode & !(0o4000u32 | 0o2000u32)) & 0o170000u32 == mode & 0o170000u32) by (bit_vector);
    if uid != 0 {
        mode & !(S_ISUID | S_ISGID)
    } else {
        mode
    }
}

/// The bits of a mode that an inode keeps.
pub fn creation_mode(mode: u32) -> (bits: u16)
    ensures
        bits == spec_creation_mode(mode),
{
    let low = mode & 0o7777;
    assert(low <= 0o7777) by (bit_vector)
        requires
            low == mode & 0o7777,
    ;
    low as u16
}

/// The kind that a mode asks for, or `None` for a file type that the
/// filesystem does not have.
pub fn file_kind_of_mode(mode: u32) -> (kind: Option<FileKind>)
    ensures
        kind == spec_file_kind(mode),
{
    let file_type = mode & S_IFMT;
    if file_type == S_IFREG {
        Some(FileKind::File)
    } else if file_type == S_IFDIR {
        Some(FileKind::Directory)
    } else {
        None
    }
}

/// The kind that a mode asks for. Only regular files and directories exist
/// here, so the mode must name one of the two.
pub fn as_file_kind(mode: u32) -> (kind: FileKind)
    requires
        spec_file_kind(mode) is Some,
    ensures
        Some(kind) == spec_file_kind(mode),
{
    let file_type = mode & S_IFMT;
    if file_type == S_IFREG {
        FileKind::File
    } else {
        FileKind::Directory
    }
}

/// The group of an inode that `gid` creates under `parent`.
pub fn creation_gid(parent: &InodeAttributes, gid: u32) -> (group: u32)
    ensures
        group == spec_creation_gid(parent.mode, parent.gid, gid),
{
    if parent.mode & (S_ISGID as u16) != 0 {
        return parent.gid;
    }
    gid
}

} // verus!
