//! The filesystem operations, each a step of the store: what it answers and
//! what it leaves behind, for every state of the store and every request.

use vstd::prelude::*;
use vstd::slice::slice_to_vec;
use crate::access::{access_allowed, check_access};
use crate::attrs::{
    as_file_kind, clear_suid_sgid, creation_gid, creation_mode, file_kind_of_mode,
    mode_without_suid_sgid,
    requested_mode, spec_creation_gid, spec_creation_mode, spec_file_kind, spec_requested_mode,
    AttrsView, InodeAttributes, Timestamp,
};
use crate::content::{read_at, read_bytes, write_at, write_bytes};
use crate::directory::{
    dir_insert, dir_remove, DirEntryView, DirectoryDescriptor, FileKind,
};
use crate::layout::{join, joined};
use crate::names::name_to_vec;
use crate::posix::{
    FsError, FMODE_EXEC, FOPEN_DIRECT_IO, MAX_NAME_LENGTH, O_ACCMODE, O_RDONLY, O_RDWR, O_TRUNC,
    O_WRONLY, ROOT_INODE, R_OK, S_ISVTX, W_OK, X_OK,
};
use crate::invariants::{
    keys_kept, lemma_create_keeps_consistent, lemma_create_keys, lemma_init_keeps_consistent,
    lemma_unlink_keeps_consistent,
};
use crate::store::{handle_reads, handle_value, handle_writes, FsView, S3FS};

verus! {

/// What a set of open flags asks for: the access to check and the two
/// capabilities of the handle.
#[derive(Clone, Copy, Debug, PartialEq, Eq, Structural)]
pub struct OpenMode {
    pub access_mask: i32,
    pub read: bool,
    pub write: bool,
}

/// The name of a directory's entry for itself.
pub open spec fn dot() -> Seq<u8> {
    seq![46u8]
}

/// The name of a directory's entry for its parent.
pub open spec fn dot_dot() -> Seq<u8> {
    seq![46u8, 46u8]
}

/// The table that a new directory `inode` under `parent` starts with.
pub open spec fn fresh_directory(inode: u64, parent: u64) -> Seq<DirEntryView> {
    dir_insert(
        dir_insert(
            Seq::empty(),
            DirEntryView { name: dot(), inode, kind: FileKind::Directory },
        ),
        DirEntryView { name: dot_dot(), inode: parent, kind: FileKind::Directory },
    )
}

/// The table that the root directory starts with: its entry for itself.
pub open spec fn root_directory() -> Seq<DirEntryView> {
    dir_insert(
        Seq::empty(),
        DirEntryView { name: dot(), inode: ROOT_INODE, kind: FileKind::Directory },
    )
}

/// The attributes that the root directory starts with.
pub open spec fn root_attrs(now: Timestamp) -> AttrsView {
    AttrsView {
        inode: ROOT_INODE,
        open_file_handles: 0,
        size: 0,
        last_accessed: now,
        last_modified: now,
        last_metadata_changed: now,
        kind: FileKind::Directory,
        mode: 0o777,
        hardlinks: 2,
        uid: 0,
        gid: 0,
        version_tag: Seq::empty(),
        remote_key: Seq::empty(),
    }
}

/// How open flags are read. Exactly one access mode must be named. Reading
/// together with truncation is refused. An open for reading that comes from
/// `exec` asks for execute permission where `honor_exec` says to look.
pub open spec fn spec_open_mode(flags: i32, honor_exec: bool) -> Result<OpenMode, FsError> {
    let mode = flags & O_ACCMODE;
    if mode == O_RDONLY {
        if flags & O_TRUNC != 0 {
            Err(FsError::AccessDenied)
        } else if honor_exec && flags & FMODE_EXEC != 0 {
            Ok(OpenMode { access_mask: X_OK, read: true, write: false })
        } else {
            Ok(OpenMode { access_mask: R_OK, read: true, write: false })
        }
    } else if mode == O_WRONLY {
        Ok(OpenMode { access_mask: W_OK, read: false, write: true })
    } else if mode == O_RDWR {
        Ok(OpenMode { access_mask: 6, read: true, write: true })
    } else {
        Err(FsError::InvalidArgument)
    }
}

/// How the flags of a creation are read: the capabilities of the new handle.
pub open spec fn spec_create_mode(flags: i32) -> Result<(bool, bool), FsError> {
    let mode = flags & O_ACCMODE;
    if mode == O_RDONLY {
        Ok((true, false))
    } else if mode == O_WRONLY {
        Ok((false, true))
    } else if mode == O_RDWR {
        Ok((true, true))
    } else {
        Err(FsError::InvalidArgument)
    }
}

/// Reads open flags.
pub fn open_mode(flags: i32, honor_exec: bool) -> (mode: Result<OpenMode, FsError>)
    ensures
        mode == spec_open_mode(flags, honor_exec),
{
    let mode = flags & O_ACCMODE;
    if mode == O_RDONLY {
        if flags & O_TRUNC != 0 {
            Err(FsError::AccessDenied)
        } else if honor_exec && flags & FMODE_EXEC != 0 {
            Ok(OpenMode { access_mask: X_OK, read: true, write: false })
        } else {
            Ok(OpenMode { access_mask: R_OK, read: true, write: false })
        }
    } else if mode == O_WRONLY {
        Ok(OpenMode { access_mask: W_OK, read: false, write: true })
    } else if mode == O_RDWR {
        Ok(OpenMode { access_mask: 6, read: true, write: true })
    } else {
        Err(FsError::InvalidArgument)
    }
}

/// Reads the flags of a creation.
pub fn create_mode(flags: i32) -> (mode: Result<(bool, bool), FsError>)
    ensures
        mode == spec_create_mode(flags),
{
    let mode = flags & O_ACCMODE;
    if mode == O_RDONLY {
        Ok((true, false))
    } else if mode == O_WRONLY {
        Ok((false, true))
    } else if mode == O_RDWR {
        Ok((true, true))
    } else {
        Err(FsError::InvalidArgument)
    }
}

/// One line of a directory listing.
#[derive(Debug)]
pub struct DirListing {
    pub inode: u64,
    /// The offset at which a listing goes on behind this line: its place in
    /// the directory, counted from 1.
    pub offset: u64,
    pub kind: FileKind,
    pub name: Vec<u8>,
}

/// A line of a directory listing as a mathematical value.
pub struct DirListingView {
    pub inode: u64,
    pub offset: u64,
    pub kind: FileKind,
    pub name: Seq<u8>,
}

impl View for DirListing {
    type V = DirListingView;

    open spec fn view(&self) -> DirListingView {
        DirListingView { inode: self.inode, offset: self.offset, kind: self.kind, name: self.name@ }
    }
}

/// The lines of a listing of `table` that starts behind `offset` entries:
/// every later entry in the table's order, with its place counted from 1.
pub open spec fn listing(table: Seq<DirEntryView>, offset: int) -> Seq<DirListingView> {
    Seq::new(
        if offset < table.len() {
            (table.len() - offset) as nat
        } else {
            0
        },
        |i: int|
            DirListingView {
                inode: table[offset + i].inode,
                offset: (offset + i + 1) as u64,
                kind: table[offset + i].kind,
                name: table[offset + i].name,
            },
    )
}

impl FsView {
    /// What `init` leaves: a store without a root gets one.
    pub open spec fn spec_init(self, now: Timestamp) -> FsView {
        if self.attrs(ROOT_INODE) is Err {
            self.with_inode(root_attrs(now)).with_directory(ROOT_INODE, root_directory())
        } else {
            self
        }
    }

    /// What `lookup` answers.
    pub open spec fn spec_lookup(self, uid: u32, gid: u32, parent: u64, name: Seq<u8>) -> Result<
        AttrsView,
        FsError,
    > {
        if name.len() > MAX_NAME_LENGTH {
            Err(FsError::NameTooLong)
        } else {
            match self.attrs(parent) {
                Err(e) => Err(e),
                Ok(p) => if !access_allowed(p.uid, p.gid, p.mode, uid, gid, X_OK) {
                    Err(FsError::AccessDenied)
                } else {
                    self.named(parent, name)
                },
            }
        }
    }

    /// The count of open handles of `inode` can grow by one.
    pub open spec fn can_open(self, inode: u64) -> bool {
        self.attrs(inode) matches Ok(a) ==> a.open_file_handles < u64::MAX
    }

    /// Why an open fails, if it does.
    pub open spec fn spec_open_error(
        self,
        uid: u32,
        gid: u32,
        inode: u64,
        flags: i32,
        honor_exec: bool,
    ) -> Option<FsError> {
        match spec_open_mode(flags, honor_exec) {
            Err(e) => Some(e),
            Ok(mode) => match self.attrs(inode) {
                Err(e) => Some(e),
                Ok(a) => if !access_allowed(a.uid, a.gid, a.mode, uid, gid, mode.access_mask) {
                    Some(FsError::AccessDenied)
                } else {
                    None
                },
            },
        }
    }

    /// The store after a successful open: one more open handle on the inode,
    /// one handle given out.
    pub open spec fn spec_open_state(self, inode: u64) -> FsView {
        let a = self.inodes[inode];
        self.with_inode(
            AttrsView { open_file_handles: (a.open_file_handles + 1) as u64, ..a },
        ).with_next_handle()
    }

    /// The flags of the reply to an open.
    pub open spec fn open_reply_flags(self) -> u32 {
        if self.direct_io {
            FOPEN_DIRECT_IO
        } else {
            0
        }
    }

    /// What `read` answers.
    pub open spec fn spec_read(self, inode: u64, fh: u64, offset: i64, size: u32) -> Result<
        Seq<u8>,
        FsError,
    > {
        if !handle_reads(fh) {
            Err(FsError::AccessDenied)
        } else if !self.contents.contains_key(inode) {
            Err(FsError::NotFound)
        } else {
            Ok(read_bytes(self.contents[inode], offset as int, size as int))
        }
    }

    /// Why a write fails, if it does.
    pub open spec fn spec_write_error(self, inode: u64, fh: u64) -> Option<FsError> {
        if !handle_writes(fh) {
            Some(FsError::AccessDenied)
        } else if !self.contents.contains_key(inode) {
            Some(FsError::BadDescriptor)
        } else if self.attrs(inode) is Err {
            Some(FsError::NotFound)
        } else {
            None
        }
    }

    /// The attributes of a file after `length` bytes were written at
    /// `offset`.
    pub open spec fn written_attrs(a: AttrsView, offset: i64, length: int, now: Timestamp)
        -> AttrsView {
        AttrsView {
            last_metadata_changed: now,
            last_modified: now,
            size: if offset + length > a.size {
                (offset + length) as u64
            } else {
                a.size
            },
            mode: mode_without_suid_sgid(a.mode),
            ..a
        }
    }

    /// The store after a successful write.
    pub open spec fn spec_write_state(self, inode: u64, offset: i64, data: Seq<u8>, now: Timestamp)
        -> FsView {
        self.with_content(
            inode,
            write_bytes(self.contents[inode], offset as int, data),
        ).with_inode(Self::written_attrs(self.inodes[inode], offset, data.len() as int, now))
    }

    /// Why a creation fails, if it does.
    pub open spec fn spec_create_error(
        self,
        uid: u32,
        gid: u32,
        parent: u64,
        name: Seq<u8>,
        flags: i32,
    ) -> Option<FsError> {
        if self.named(parent, name) is Ok {
            Some(FsError::AlreadyExists)
        } else if spec_create_mode(flags) is Err {
            Some(FsError::InvalidArgument)
        } else {
            match self.attrs(parent) {
                Err(e) => Some(e),
                Ok(p) => if !access_allowed(p.uid, p.gid, p.mode, uid, gid, W_OK) {
                    Some(FsError::AccessDenied)
                } else {
                    match self.directory(parent) {
                        Err(e) => Some(e),
                        Ok(_) => None,
                    }
                },
            }
        }
    }

    /// The attributes of the inode that a creation makes. Nothing holds it
    /// open yet: the handle that the creation gives out is not counted, since
    /// no operation gives a handle back. Anybody but root loses set-user-id
    /// and set-group-id from the mode. The remote key is the name below the
    /// parent's key.
    pub open spec fn created_attrs(
        self,
        uid: u32,
        gid: u32,
        parent: u64,
        name: Seq<u8>,
        mode: u32,
        now: Timestamp,
    ) -> AttrsView {
        let p = self.inodes[parent];
        let kind = spec_file_kind(mode)->0;
        AttrsView {
            inode: (self.counter() + 1) as u64,
            open_file_handles: 0,
            size: 0,
            last_accessed: now,
            last_modified: now,
            last_metadata_changed: now,
            kind,
            mode: spec_creation_mode(spec_requested_mode(mode, uid)),
            hardlinks: if kind == FileKind::Directory {
                2
            } else {
                1
            },
            uid,
            gid: spec_creation_gid(p.mode, p.gid, gid),
            version_tag: Seq::empty(),
            remote_key: joined(p.remote_key, name),
        }
    }

    /// What a creation needs beyond its request: a file type that the
    /// filesystem has, and room for one more inode number and one more handle.
    pub open spec fn can_create(self, mode: u32) -> bool {
        &&& spec_file_kind(mode) is Some
        &&& self.inode_available()
        &&& self.handle_available()
    }

    /// The store after a successful creation: the parent touched, the counter
    /// advanced, the new inode with its record and its content, the name in
    /// the parent's table, one handle given out.
    pub open spec fn spec_create_state(
        self,
        uid: u32,
        gid: u32,
        parent: u64,
        name: Seq<u8>,
        mode: u32,
        now: Timestamp,
    ) -> FsView {
        let p = self.inodes[parent];
        let table = self.directory(parent)->Ok_0;
        let attrs = self.created_attrs(uid, gid, parent, name, mode, now);
        let s1 = self.with_inode(
            AttrsView { last_modified: now, last_metadata_changed: now, ..p },
        ).with_next_inode().with_inode(attrs);
        let s2 = if attrs.kind == FileKind::Directory {
            s1.with_directory(attrs.inode, fresh_directory(attrs.inode, parent))
        } else {
            s1.with_content(attrs.inode, Seq::empty())
        };
        s2.with_directory(
            parent,
            dir_insert(table, DirEntryView { name, inode: attrs.inode, kind: attrs.kind }),
        ).with_next_handle()
    }

    /// What `readdir` answers.
    pub open spec fn spec_readdir(self, inode: u64, offset: i64) -> Result<
        Seq<DirListingView>,
        FsError,
    > {
        match self.directory(inode) {
            Err(e) => Err(e),
            Ok(table) => Ok(listing(table, offset as int)),
        }
    }

    /// Why an unlink fails, if it does.
    pub open spec fn spec_unlink_error(self, uid: u32, gid: u32, parent: u64, name: Seq<u8>)
        -> Option<FsError> {
        match self.named(parent, name) {
            Err(e) => Some(e),
            Ok(c) => match self.attrs(parent) {
                Err(e) => Some(e),
                Ok(p) => if !access_allowed(p.uid, p.gid, p.mode, uid, gid, W_OK) {
                    Some(FsError::AccessDenied)
                } else if p.mode & (S_ISVTX as u16) != 0 && uid != 0 && uid != p.uid && uid
                    != c.uid {
                    Some(FsError::AccessDenied)
                } else {
                    None
                },
            },
        }
    }

    /// The attributes of an inode after one of its names was removed.
    pub open spec fn unlinked_attrs(c: AttrsView, now: Timestamp) -> AttrsView {
        AttrsView {
            hardlinks: if c.hardlinks > 0 {
                (c.hardlinks - 1) as u32
            } else {
                0
            },
            last_metadata_changed: now,
            ..c
        }
    }

    /// The store after a successful unlink: the parent touched, the inode
    /// with one link less and collected if that was its last hold, the name
    /// out of the parent's table where the parent still has one.
    pub open spec fn spec_unlink_state(self, parent: u64, name: Seq<u8>, now: Timestamp) -> FsView {
        let p = self.inodes[parent];
        let c = Self::unlinked_attrs(self.named(parent, name)->Ok_0, now);
        let s = self.with_inode(
            AttrsView { last_metadata_changed: now, last_modified: now, ..p },
        ).with_inode(c).collected(c);
        match s.directory(parent) {
            Ok(table) => s.with_directory(parent, dir_remove(table, name)),
            Err(_) => s,
        }
    }
}

pub(crate) fn dot_name() -> (name: Vec<u8>)
    ensures
        name@ == dot(),
{
    let mut name: Vec<u8> = Vec::new();
    name.push(46u8);
    assert(name@ =~= dot());
    name
}

pub(crate) fn dot_dot_name() -> (name: Vec<u8>)
    ensures
        name@ == dot_dot(),
{
    let mut name: Vec<u8> = Vec::new();
    name.push(46u8);
    name.push(46u8);
    assert(name@ =~= dot_dot());
    name
}

/// The table that a new directory starts with.
pub(crate) fn new_directory(inode: u64, parent: u64) -> (own: DirectoryDescriptor)
    ensures
        own@ == fresh_directory(inode, parent),
{
    let mut own = DirectoryDescriptor::new();
    own.insert(dot_name(), inode, FileKind::Directory);
    own.insert(dot_dot_name(), parent, FileKind::Directory);
    own
}

impl S3FS {
    /// Prepares the store for use: a store without a root directory gets one,
    /// owned by root, open to all, listing itself. Tells whether it made the
    /// root, that is whether the tree still has to be filled from the remote
    /// listing.
    pub fn init(&mut self, now: Timestamp) -> (fresh: bool)
        ensures
            fresh == (old(self)@.attrs(ROOT_INODE) is Err),
            final(self)@ == old(self)@.spec_init(now),
            old(self)@.consistent() ==> final(self)@.consistent(),
    {
        proof {
            if self@.consistent() {
                lemma_init_keeps_consistent(self@, now);
            }
        }
        if self.get_inode(ROOT_INODE).is_err() {
            let root = InodeAttributes {
                inode: ROOT_INODE,
                open_file_handles: 0,
                size: 0,
                last_accessed: now,
                last_modified: now,
                last_metadata_changed: now,
                kind: FileKind::Directory,
                mode: 0o777,
                hardlinks: 2,
                uid: 0,
                gid: 0,
                version_tag: String::new(),
                remote_key: Vec::new(),
            };
            self.write_inode(&root);
            let mut entries = DirectoryDescriptor::new();
            entries.insert(dot_name(), ROOT_INODE, FileKind::Directory);
            self.write_directory_content(ROOT_INODE, entries);
            true
        } else {
            false
        }
    }

    /// Looks `name` up in the directory `parent` for the caller `uid`/`gid`
    /// and answers with the attributes of what it names. No remote store is
    /// asked.
    pub fn lookup(&self, uid: u32, gid: u32, parent: u64, name: &[u8]) -> (found: Result<
        InodeAttributes,
        FsError,
    >)
        ensures
            match found {
                Ok(a) => self@.spec_lookup(uid, gid, parent, name@) == Ok::<AttrsView, FsError>(a@),
                Err(e) => self@.spec_lookup(uid, gid, parent, name@) == Err::<AttrsView, FsError>(
                    e,
                ),
            },
    {
        if name.len() > MAX_NAME_LENGTH {
            return Err(FsError::NameTooLong);
        }
        let parent_attrs = match self.get_inode(parent) {
            Ok(attrs) => attrs,
            Err(e) => {
                return Err(e);
            },
        };
        if !check_access(parent_attrs.uid, parent_attrs.gid, parent_attrs.mode, uid, gid, X_OK) {
            return Err(FsError::AccessDenied);
        }
        self.lookup_name(parent, name)
    }

    /// The attributes of `inode`.
    pub fn getattr(&self, inode: u64) -> (attrs: Result<InodeAttributes, FsError>)
        ensures
            match attrs {
                Ok(a) => self@.attrs(inode) == Ok::<AttrsView, FsError>(a@),
                Err(e) => self@.attrs(inode) == Err::<AttrsView, FsError>(e),
            },
    {
        self.get_inode(inode)
    }

    /// Tells whether the count of open handles of `inode` can grow by one.
    pub fn can_open(&self, inode: u64) -> (yes: bool)
        ensures
            yes == self@.can_open(inode),
    {
        match self.get_inode(inode) {
            Ok(a) => a.open_file_handles < u64::MAX,
            Err(_) => true,
        }
    }

    /// Why an open of `inode` with `flags` by `uid`/`gid` would fail, if it
    /// would: a file is opened with `honor_exec`, a directory without.
    pub fn open_error(&self, uid: u32, gid: u32, inode: u64, flags: i32, honor_exec: bool) -> (error:
        Option<FsError>)
        ensures
            error == self@.spec_open_error(uid, gid, inode, flags, honor_exec),
    {
        let mode = match open_mode(flags, honor_exec) {
            Ok(mode) => mode,
            Err(e) => {
                return Some(e);
            },
        };
        let attr = match self.get_inode(inode) {
            Ok(attr) => attr,
            Err(e) => {
                return Some(e);
            },
        };
        if !check_access(attr.uid, attr.gid, attr.mode, uid, gid, mode.access_mask) {
            return Some(FsError::AccessDenied);
        }
        None
    }

    /// Why a creation of `name` in `parent` with `flags` by `uid`/`gid` would
    /// fail, if it would.
    pub fn create_error(&self, uid: u32, gid: u32, parent: u64, name: &[u8], flags: i32) -> (error:
        Option<FsError>)
        ensures
            error == self@.spec_create_error(uid, gid, parent, name@, flags),
    {
        if self.lookup_name(parent, name).is_ok() {
            return Some(FsError::AlreadyExists);
        }
        match create_mode(flags) {
            Ok(_) => {},
            Err(e) => {
                return Some(e);
            },
        }
        let parent_attrs = match self.get_inode(parent) {
            Ok(attrs) => attrs,
            Err(e) => {
                return Some(e);
            },
        };
        if !check_access(parent_attrs.uid, parent_attrs.gid, parent_attrs.mode, uid, gid, W_OK) {
            return Some(FsError::AccessDenied);
        }
        match self.get_directory_content(parent) {
            Ok(_) => None,
            Err(e) => Some(e),
        }
    }

    /// Tells whether a creation with `mode` has what it needs beyond its
    /// request.
    pub fn can_create(&self, mode: u32) -> (yes: bool)
        ensures
            yes == self@.can_create(mode),
    {
        file_kind_of_mode(mode).is_some() && self.inode_available() && self.handle_available()
    }

    fn open_with(&mut self, uid: u32, gid: u32, inode: u64, flags: i32, honor_exec: bool) -> (opened:
        Result<(u64, u32), FsError>)
        requires
            old(self)@.spec_open_error(uid, gid, inode, flags, honor_exec) is None ==> old(
                self,
            )@.handle_available() && old(self)@.can_open(inode),
        ensures
            match opened {
                Ok((fh, reply_flags)) => {
                    &&& old(self)@.spec_open_error(uid, gid, inode, flags, honor_exec) is None
                    &&& fh == handle_value(
                        old(self)@.next_file_handle,
                        spec_open_mode(flags, honor_exec)->Ok_0.read,
                        spec_open_mode(flags, honor_exec)->Ok_0.write,
                    )
                    &&& handle_reads(fh) == spec_open_mode(flags, honor_exec)->Ok_0.read
                    &&& handle_writes(fh) == spec_open_mode(flags, honor_exec)->Ok_0.write
                    &&& reply_flags == old(self)@.open_reply_flags()
                    &&& final(self)@ == old(self)@.spec_open_state(inode)
                },
                Err(e) => {
                    &&& old(self)@.spec_open_error(uid, gid, inode, flags, honor_exec) == Some(e)
                    &&& final(self)@ == old(self)@
                },
            },
    {
        let mode = match open_mode(flags, honor_exec) {
            Ok(mode) => mode,
            Err(e) => {
                return Err(e);
            },
        };
        let mut attr = match self.get_inode(inode) {
            Ok(attr) => attr,
            Err(e) => {
                return Err(e);
            },
        };
        if !check_access(attr.uid, attr.gid, attr.mode, uid, gid, mode.access_mask) {
            return Err(FsError::AccessDenied);
        }
        attr.open_file_handles = attr.open_file_handles + 1;
        self.write_inode(&attr);
        let open_flags = if self.direct_io() {
            FOPEN_DIRECT_IO
        } else {
            0
        };
        let fh = self.allocate_next_file_handle(mode.read, mode.write);
        Ok((fh, open_flags))
    }

    /// Opens the file `inode` for the caller `uid`/`gid`: reads the flags,
    /// checks the permission that they ask for, counts the new handle on the
    /// inode and gives the handle out with its capability bits. The content
    /// is brought up to date before this by `refresh`.
    pub fn open(&mut self, uid: u32, gid: u32, inode: u64, flags: i32) -> (opened: Result<
        (u64, u32),
        FsError,
    >)
        requires
            old(self)@.spec_open_error(uid, gid, inode, flags, true) is None ==> old(
                self,
            )@.handle_available() && old(self)@.can_open(inode),
        ensures
            match opened {
                Ok((fh, reply_flags)) => {
                    &&& old(self)@.spec_open_error(uid, gid, inode, flags, true) is None
                    &&& fh == handle_value(
                        old(self)@.next_file_handle,
                        spec_open_mode(flags, true)->Ok_0.read,
                        spec_open_mode(flags, true)->Ok_0.write,
                    )
                    &&& handle_reads(fh) == spec_open_mode(flags, true)->Ok_0.read
                    &&& handle_writes(fh) == spec_open_mode(flags, true)->Ok_0.write
                    &&& reply_flags == old(self)@.open_reply_flags()
                    &&& final(self)@ == old(self)@.spec_open_state(inode)
                },
                Err(e) => {
                    &&& old(self)@.spec_open_error(uid, gid, inode, flags, true) == Some(e)
                    &&& final(self)@ == old(self)@
                },
            },
    {
        self.open_with(uid, gid, inode, flags, true)
    }

    /// Opens the directory `inode`: as `open`, but an open that comes from
    /// `exec` is read like any other.
    pub fn opendir(&mut self, uid: u32, gid: u32, inode: u64, flags: i32) -> (opened: Result<
        (u64, u32),
        FsError,
    >)
        requires
            old(self)@.spec_open_error(uid, gid, inode, flags, false) is None ==> old(
                self,
            )@.handle_available() && old(self)@.can_open(inode),
        ensures
            match opened {
                Ok((fh, reply_flags)) => {
                    &&& old(self)@.spec_open_error(uid, gid, inode, flags, false) is None
                    &&& fh == handle_value(
                        old(self)@.next_file_handle,
                        spec_open_mode(flags, false)->Ok_0.read,
                        spec_open_mode(flags, false)->Ok_0.write,
                    )
                    &&& handle_reads(fh) == spec_open_mode(flags, false)->Ok_0.read
                    &&& handle_writes(fh) == spec_open_mode(flags, false)->Ok_0.write
                    &&& reply_flags == old(self)@.open_reply_flags()
                    &&& final(self)@ == old(self)@.spec_open_state(inode)
                },
                Err(e) => {
                    &&& old(self)@.spec_open_error(uid, gid, inode, flags, false) == Some(e)
                    &&& final(self)@ == old(self)@
                },
            },
    {
        self.open_with(uid, gid, inode, flags, false)
    }

    /// Reads up to `size` bytes of the content of `inode` at `offset`. The
    /// handle must carry the read bit. At the end of the content the answer is
    /// shorter than asked, and behind it empty.
    pub fn read(&self, inode: u64, fh: u64, offset: i64, size: u32) -> (bytes: Result<
        Vec<u8>,
        FsError,
    >)
        requires
            offset >= 0,
        ensures
            match bytes {
                Ok(b) => self@.spec_read(inode, fh, offset, size) == Ok::<Seq<u8>, FsError>(b@),
                Err(e) => self@.spec_read(inode, fh, offset, size) == Err::<Seq<u8>, FsError>(e),
            },
    {
        if !self.check_file_handle_read(fh) {
            return Err(FsError::AccessDenied);
        }
        match self.content(inode) {
            Some(content) => Ok(read_at(content.as_slice(), offset as u64, size)),
            None => Err(FsError::NotFound),
        }
    }

    /// Writes `data` into the content of `inode` at `offset` and answers with
    /// the number of bytes written. The handle must carry the write bit. The
    /// inode's modification and change times become `now`, its size grows to
    /// the end of the written range if that lies behind it, and its
    /// set-user-id and set-group-id bits are cleared as after any write.
    pub fn write(&mut self, inode: u64, fh: u64, offset: i64, data: &[u8], now: Timestamp) -> (written:
        Result<u32, FsError>)
        requires
            offset >= 0,
            offset + data@.len() <= usize::MAX,
            data@.len() <= u32::MAX,
        ensures
            match written {
                Ok(n) => {
                    &&& old(self)@.spec_write_error(inode, fh) is None
                    &&& n == data@.len()
                    &&& final(self)@ == old(self)@.spec_write_state(inode, offset, data@, now)
                },
                Err(e) => {
                    &&& old(self)@.spec_write_error(inode, fh) == Some(e)
                    &&& final(self)@ == old(self)@
                },
            },
    {
        if !self.check_file_handle_write(fh) {
            return Err(FsError::AccessDenied);
        }
        let mut content = match self.content(inode) {
            Some(content) => slice_to_vec(content.as_slice()),
            None => {
                return Err(FsError::BadDescriptor);
            },
        };
        let mut attrs = match self.get_inode(inode) {
            Ok(attrs) => attrs,
            Err(e) => {
                return Err(e);
            },
        };
        write_at(&mut content, offset as usize, data);
        self.write_content(inode, content);
        attrs.last_metadata_changed = now;
        attrs.last_modified = now;
        let end = offset as u64 + data.len() as u64;
        if end > attrs.size {
            attrs.size = end;
        }
        clear_suid_sgid(&mut attrs);
        self.write_inode(&attrs);
        Ok(data.len() as u32)
    }

    /// Creates `name` in the directory `parent` for the caller `uid`/`gid`:
    /// a regular file or a directory, as the file type in `mode` says. The
    /// answer is the new inode's attributes and a handle with the
    /// capabilities that `flags` ask for.
    pub fn create(
        &mut self,
        uid: u32,
        gid: u32,
        parent: u64,
        name: &[u8],
        mode: u32,
        flags: i32,
        now: Timestamp,
    ) -> (created: Result<(InodeAttributes, u64), FsError>)
        requires
            old(self)@.spec_create_error(uid, gid, parent, name@, flags) is None ==> old(
                self,
            )@.can_create(mode),
        ensures
            match created {
                Ok((attrs, fh)) => {
                    &&& old(self)@.spec_create_error(uid, gid, parent, name@, flags) is None
                    &&& attrs@ == old(self)@.created_attrs(uid, gid, parent, name@, mode, now)
                    &&& fh == handle_value(
                        old(self)@.next_file_handle,
                        spec_create_mode(flags)->Ok_0.0,
                        spec_create_mode(flags)->Ok_0.1,
                    )
                    &&& handle_reads(fh) == spec_create_mode(flags)->Ok_0.0
                    &&& handle_writes(fh) == spec_create_mode(flags)->Ok_0.1
                    &&& final(self)@ == old(self)@.spec_create_state(
                        uid,
                        gid,
                        parent,
                        name@,
                        mode,
                        now,
                    )
                },
                Err(e) => {
                    &&& old(self)@.spec_create_error(uid, gid, parent, name@, flags) == Some(e)
                    &&& final(self)@ == old(self)@
                },
            },
            old(self)@.consistent() ==> final(self)@.consistent(),
            old(self)@.consistent() ==> keys_kept(old(self)@, final(self)@),
            old(self)@.consistent() ==> (created matches Ok((attrs, _)) ==> final(self)@.attrs(
                attrs.inode,
            ) == Ok::<AttrsView, FsError>(attrs@) && attrs@.remote_key == joined(
                old(self)@.inodes[parent].remote_key,
                name@,
            )),
    {
        if self.lookup_name(parent, name).is_ok() {
            return Err(FsError::AlreadyExists);
        }
        let (read, write) = match create_mode(flags) {
            Ok(mode) => mode,
            Err(e) => {
                return Err(e);
            },
        };
        let mut parent_attrs = match self.get_inode(parent) {
            Ok(attrs) => attrs,
            Err(e) => {
                return Err(e);
            },
        };
        if !check_access(parent_attrs.uid, parent_attrs.gid, parent_attrs.mode, uid, gid, W_OK) {
            return Err(FsError::AccessDenied);
        }
        let mut entries = match self.get_directory_content(parent) {
            Ok(entries) => entries,
            Err(e) => {
                return Err(e);
            },
        };
        parent_attrs.last_modified = now;
        parent_attrs.last_metadata_changed = now;
        self.write_inode(&parent_attrs);

        let counted = requested_mode(mode, uid);
        let kind = as_file_kind(counted);
        let inode = self.allocate_next_inode();
        let attrs = InodeAttributes {
            inode,
            open_file_handles: 0,
            size: 0,
            last_accessed: now,
            last_modified: now,
            last_metadata_changed: now,
            kind,
            mode: creation_mode(counted),
            hardlinks: match kind {
                FileKind::Directory => 2,
                FileKind::File => 1,
            },
            uid,
            gid: creation_gid(&parent_attrs, gid),
            version_tag: String::new(),
            remote_key: join(parent_attrs.remote_key.as_slice(), name),
        };
        self.write_inode(&attrs);
        match kind {
            FileKind::Directory => {
                self.write_directory_content(inode, new_directory(inode, parent));
            },
            FileKind::File => {
                self.write_content(inode, Vec::new());
            },
        }
        entries.insert(name_to_vec(name), inode, kind);
        self.write_directory_content(parent, entries);
        let fh = self.allocate_next_file_handle(read, write);
        proof {
            if old(self)@.consistent() {
                lemma_create_keeps_consistent(old(self)@, uid, gid, parent, name@, mode, flags, now);
                lemma_create_keys(old(self)@, uid, gid, parent, name@, mode, flags, now);
            }
        }
        Ok((attrs, fh))
    }

    /// Lists the directory `inode` from `offset` on: every entry behind the
    /// first `offset`, in the order of the names, each with the offset at
    /// which a later listing goes on.
    pub fn readdir(&self, inode: u64, offset: i64) -> (lines: Result<Vec<DirListing>, FsError>)
        requires
            offset >= 0,
        ensures
            match lines {
                Ok(l) => self@.spec_readdir(inode, offset) == Ok::<Seq<DirListingView>, FsError>(
                    l@.map_values(|line: DirListing| line@),
                ),
                Err(e) => self@.spec_readdir(inode, offset) == Err::<Seq<DirListingView>, FsError>(
                    e,
                ),
            },
    {
        let entries = match self.get_directory_content(inode) {
            Ok(entries) => entries,
            Err(e) => {
                return Err(e);
            },
        };
        let n = entries.len();
        let mut lines: Vec<DirListing> = Vec::new();
        if offset as u64 >= n as u64 {
            assert(lines@.map_values(|line: DirListing| line@) =~= listing(
                entries@,
                offset as int,
            ));
            return Ok(lines);
        }
        let start = offset as usize;
        let mut i: usize = start;
        while i < n
            invariant
                start <= i <= n,
                n == entries@.len(),
                start == offset,
                lines@.len() == i - start,
                forall|j: int|
                    0 <= j < i - start ==> (#[trigger] lines@[j])@ == listing(
                        entries@,
                        offset as int,
                    )[j],
            decreases n - i,
        {
            let e = entries.entry(i);
            lines.push(
                DirListing {
                    inode: e.inode,
                    offset: i as u64 + 1,
                    kind: e.kind,
                    name: name_to_vec(e.name.as_slice()),
                },
            );
            i += 1;
        }
        assert(lines@.map_values(|line: DirListing| line@) =~= listing(entries@, offset as int));
        Ok(lines)
    }

    /// Removes `name` from the directory `parent` for the caller `uid`/`gid`.
    /// In a sticky directory only root, the directory's owner and the entry's
    /// owner may do so. The inode loses a link and is collected when that was
    /// its last hold.
    pub fn unlink(&mut self, uid: u32, gid: u32, parent: u64, name: &[u8], now: Timestamp) -> (done:
        Result<(), FsError>)
        ensures
            match done {
                Ok(_) => {
                    &&& old(self)@.spec_unlink_error(uid, gid, parent, name@) is None
                    &&& final(self)@ == old(self)@.spec_unlink_state(parent, name@, now)
                },
                Err(e) => {
                    &&& old(self)@.spec_unlink_error(uid, gid, parent, name@) == Some(e)
                    &&& final(self)@ == old(self)@
                },
            },
            old(self)@.consistent() && !old(self)@.unlink_orphans(parent, name@, now)
                ==> final(self)@.consistent(),
    {
        let mut attrs = match self.lookup_name(parent, name) {
            Ok(attrs) => attrs,
            Err(e) => {
                return Err(e);
            },
        };
        let mut parent_attrs = match self.get_inode(parent) {
            Ok(attrs) => attrs,
            Err(e) => {
                return Err(e);
            },
        };
        if !check_access(parent_attrs.uid, parent_attrs.gid, parent_attrs.mode, uid, gid, W_OK) {
            return Err(FsError::AccessDenied);
        }
        if parent_attrs.mode & (S_ISVTX as u16) != 0 && uid != 0 && uid != parent_attrs.uid && uid
            != attrs.uid {
            return Err(FsError::AccessDenied);
        }
        parent_attrs.last_metadata_changed = now;
        parent_attrs.last_modified = now;
        self.write_inode(&parent_attrs);

        if attrs.hardlinks > 0 {
            attrs.hardlinks = attrs.hardlinks - 1;
        }
        attrs.last_metadata_changed = now;
        self.write_inode(&attrs);
        let _ = self.gc_inode(&attrs);

        match self.get_directory_content(parent) {
            Ok(mut entries) => {
                let _ = entries.remove(name);
                self.write_directory_content(parent, entries);
            },
            Err(_) => {},
        }
        proof {
            if old(self)@.consistent() && !old(self)@.unlink_orphans(parent, name@, now) {
                lemma_unlink_keeps_consistent(old(self)@, uid, gid, parent, name@, now);
            }
        }
        Ok(())
    }
}

} // verus!
