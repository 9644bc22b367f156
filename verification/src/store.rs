//! The metadata store: the image of the data directory that the filesystem
//! works on. It holds the allocator's counter, the attribute record of every
//! inode and the content of every inode, and it keeps a list of what changed
//! so that the embedding program can bring the disk up to date.

use std::collections::HashMap;
use vstd::prelude::*;
use crate::attrs::{AttrsView, InodeAttributes};
use crate::codec::{
    decode_dir, dir_fits, encode_dir, lemma_dir_roundtrip, spec_decode_dir, spec_encode_dir,
};
use crate::directory::{
    dir_get, sorted, DirEntryView, DirectoryDescriptor,
};
use crate::posix::{FsError, ROOT_INODE};

verus! {

broadcast use vstd::std_specs::hash::group_hash_axioms;

/// Bit of a file handle that says its holder may read.
pub const FILE_HANDLE_READ_BIT: u64 = 0x8000_0000_0000_0000;

/// Bit of a file handle that says its holder may write.
pub const FILE_HANDLE_WRITE_BIT: u64 = 0x4000_0000_0000_0000;

/// One step of bringing the disk up to date with the store.
#[derive(Clone, Copy, Debug, PartialEq, Eq, Structural)]
pub enum Change {
    /// The counter was set: write it out.
    Superblock,
    /// The attribute record of the inode was set: write it out.
    Inode(u64),
    /// The content of the inode was set: write it out.
    Content(u64),
    /// The attribute record of the inode is gone: remove its file.
    InodeRemoved(u64),
    /// The content of the inode is gone: remove its file.
    ContentRemoved(u64),
}

/// The store as a mathematical value.
pub struct FsView {
    pub data_dir: Seq<char>,
    pub direct_io: bool,
    /// The number of the next file handle.
    pub next_file_handle: u64,
    /// The highest inode number ever given out, once one was.
    pub superblock: Option<u64>,
    pub inodes: Map<u64, AttrsView>,
    pub contents: Map<u64, Seq<u8>>,
    /// What changed since the list was last taken, oldest first.
    pub changes: Seq<Change>,
}

impl FsView {
    /// The highest inode number given out so far; the root's while there is no
    /// counter yet.
    pub open spec fn counter(self) -> u64 {
        match self.superblock {
            Some(c) => c,
            None => ROOT_INODE,
        }
    }

    /// Another inode number can be given out without reaching the two bits
    /// that mark a file handle.
    pub open spec fn inode_available(self) -> bool {
        self.counter() + 1 < FILE_HANDLE_WRITE_BIT
    }

    /// Another file handle can be given out.
    pub open spec fn handle_available(self) -> bool {
        self.next_file_handle < FILE_HANDLE_WRITE_BIT
    }

    /// The store after the next inode number was reserved.
    pub open spec fn with_next_inode(self) -> FsView {
        FsView {
            superblock: Some((self.counter() + 1) as u64),
            changes: self.changes.push(Change::Superblock),
            ..self
        }
    }

    /// The store after a file handle was given out.
    pub open spec fn with_next_handle(self) -> FsView {
        FsView { next_file_handle: (self.next_file_handle + 1) as u64, ..self }
    }

    /// The store after `attrs` was written under its own inode number.
    pub open spec fn with_inode(self, attrs: AttrsView) -> FsView {
        FsView {
            inodes: self.inodes.insert(attrs.inode, attrs),
            changes: self.changes.push(Change::Inode(attrs.inode)),
            ..self
        }
    }

    /// The store after `bytes` became the content of `inode`.
    pub open spec fn with_content(self, inode: u64, bytes: Seq<u8>) -> FsView {
        FsView {
            contents: self.contents.insert(inode, bytes),
            changes: self.changes.push(Change::Content(inode)),
            ..self
        }
    }

    /// The store after `table` became the content of the directory `inode`.
    pub open spec fn with_directory(self, inode: u64, table: Seq<DirEntryView>) -> FsView {
        self.with_content(inode, spec_encode_dir(table))
    }

    /// The store after the record and the content of `inode` were removed.
    pub open spec fn without(self, inode: u64) -> FsView {
        FsView {
            inodes: self.inodes.remove(inode),
            contents: self.contents.remove(inode),
            changes: self.changes.push(Change::InodeRemoved(inode)).push(
                Change::ContentRemoved(inode),
            ),
            ..self
        }
    }

    /// The attribute record of `inode`.
    pub open spec fn attrs(self, inode: u64) -> Result<AttrsView, FsError> {
        if self.inodes.contains_key(inode) {
            Ok(self.inodes[inode])
        } else {
            Err(FsError::NotFound)
        }
    }

    /// The table of the directory `inode`: missing content is `NotFound`,
    /// content that is no table is `Io`.
    pub open spec fn directory(self, inode: u64) -> Result<Seq<DirEntryView>, FsError> {
        if !self.contents.contains_key(inode) {
            Err(FsError::NotFound)
        } else {
            match spec_decode_dir(self.contents[inode]) {
                Some(table) => Ok(table),
                None => Err(FsError::Io),
            }
        }
    }

    /// The attribute record that `name` in the directory `parent` leads to.
    pub open spec fn named(self, parent: u64, name: Seq<u8>) -> Result<AttrsView, FsError> {
        match self.directory(parent) {
            Err(e) => Err(e),
            Ok(table) => match dir_get(table, name) {
                Some((inode, _)) => self.attrs(inode),
                None => Err(FsError::NotFound),
            },
        }
    }

    /// The store after collecting `attrs`: the inode goes when nothing links
    /// to it and nothing holds it open.
    pub open spec fn collected(self, attrs: AttrsView) -> FsView {
        if attrs.hardlinks == 0 && attrs.open_file_handles == 0 {
            self.without(attrs.inode)
        } else {
            self
        }
    }
}

/// The handle that carries the number `counter` and the two capability bits.
pub open spec fn handle_value(counter: u64, read: bool, write: bool) -> u64 {
    (counter + if read {
        FILE_HANDLE_READ_BIT as int
    } else {
        0
    } + if write {
        FILE_HANDLE_WRITE_BIT as int
    } else {
        0
    }) as u64
}

/// The handle may read.
pub open spec fn handle_reads(file_handle: u64) -> bool {
    file_handle & FILE_HANDLE_READ_BIT != 0
}

/// The handle may write.
pub open spec fn handle_writes(file_handle: u64) -> bool {
    file_handle & FILE_HANDLE_WRITE_BIT != 0
}

/// A handle carries exactly the capabilities it was made with, and its
/// number can be read back from under them.
pub proof fn lemma_handle_bits(counter: u64, read: bool, write: bool)
    requires
        counter < FILE_HANDLE_WRITE_BIT,
    ensures
        handle_reads(handle_value(counter, read, write)) == read,
        handle_writes(handle_value(counter, read, write)) == write,
        handle_value(counter, read, write) & 0x3fff_ffff_ffff_ffff == counter,
{
    let r: u64 = if read {
        0x8000_0000_0000_0000
    } else {
        0
    };
    let w: u64 = if write {
        0x4000_0000_0000_0000
    } else {
        0
    };
    let h = handle_value(counter, read, write);
    assert(h == counter + r + w);
    assert(h & 0x8000_0000_0000_0000 != 0 <==> r != 0) by (bit_vector)
        requires
            counter < 0x4000_0000_0000_0000,
            r == 0 || r == 0x8000_0000_0000_0000,
            w == 0 || w == 0x4000_0000_0000_0000,
            h == counter + r + w,
    ;
    assert(h & 0x4000_0000_0000_0000 != 0 <==> w != 0) by (bit_vector)
        requires
            counter < 0x4000_0000_0000_0000,
            r == 0 || r == 0x8000_0000_0000_0000,
            w == 0 || w == 0x4000_0000_0000_0000,
            h == counter + r + w,
    ;
    assert(h & 0x3fff_ffff_ffff_ffff == counter) by (bit_vector)
        requires
            counter < 0x4000_0000_0000_0000,
            r == 0 || r == 0x8000_0000_0000_0000,
            w == 0 || w == 0x4000_0000_0000_0000,
            h == counter + r + w,
    ;
}

/// The filesystem's store.
pub struct S3FS {
    data_dir: String,
    direct_io: bool,
    next_file_handle: u64,
    superblock: Option<u64>,
    inodes: HashMap<u64, InodeAttributes>,
    contents: HashMap<u64, Vec<u8>>,
    changes: Vec<Change>,
}

impl View for S3FS {
    type V = FsView;

    closed spec fn view(&self) -> FsView {
        FsView {
            data_dir: self.data_dir@,
            direct_io: self.direct_io,
            next_file_handle: self.next_file_handle,
            superblock: self.superblock,
            inodes: self.inodes@.map_values(|a: InodeAttributes| a@),
            contents: self.contents@.map_values(|c: Vec<u8>| c@),
            changes: self.changes@,
        }
    }
}

impl S3FS {
    /// An empty store for the data directory `data_dir`: no counter, no inode,
    /// no content, nothing changed; the first file handle will be number 1.
    /// An empty store is in order.
    pub fn new(data_dir: String, direct_io: bool) -> (fs: S3FS)
        ensures
            fs@ == (FsView {
                data_dir: data_dir@,
                direct_io,
                next_file_handle: 1,
                superblock: None,
                inodes: Map::empty(),
                contents: Map::empty(),
                changes: Seq::empty(),
            }),
            fs@.consistent(),
    {
        let fs = S3FS {
            data_dir,
            direct_io,
            next_file_handle: 1,
            superblock: None,
            inodes: HashMap::new(),
            contents: HashMap::new(),
            changes: Vec::new(),
        };
        assert(fs@.inodes =~= Map::<u64, AttrsView>::empty());
        assert(fs@.contents =~= Map::<u64, Seq<u8>>::empty());
        fs
    }

    /// The data directory that the store is the image of.
    pub fn data_dir(&self) -> (dir: &String)
        ensures
            dir@ == self@.data_dir,
    {
        &self.data_dir
    }

    /// Whether opened files are to bypass the kernel's page cache.
    pub fn direct_io(&self) -> (on: bool)
        ensures
            on == self@.direct_io,
    {
        self.direct_io
    }

    /// The persisted counter of the allocator, if there is one.
    pub fn superblock(&self) -> (counter: Option<u64>)
        ensures
            counter == self@.superblock,
    {
        self.superblock
    }

    /// Puts a counter read from disk into the store. Nothing is recorded as
    /// changed.
    pub fn restore_superblock(&mut self, counter: u64)
        ensures
            final(self)@ == (FsView { superblock: Some(counter), ..old(self)@ }),
    {
        self.superblock = Some(counter);
    }

    /// Puts an attribute record read from disk into the store, under its own
    /// inode number. Nothing is recorded as changed.
    pub fn restore_inode(&mut self, attrs: InodeAttributes)
        ensures
            final(self)@ == (FsView {
                inodes: old(self)@.inodes.insert(attrs.inode, attrs@),
                ..old(self)@
            }),
    {
        let ghost before = self@;
        let _ = self.inodes.insert(attrs.inode, attrs);
        assert(self@.inodes =~= before.inodes.insert(attrs.inode, attrs@));
    }

    /// Puts a content read from disk into the store. Nothing is recorded as
    /// changed.
    pub fn restore_content(&mut self, inode: u64, bytes: Vec<u8>)
        ensures
            final(self)@ == (FsView {
                contents: old(self)@.contents.insert(inode, bytes@),
                ..old(self)@
            }),
    {
        let ghost before = self@;
        let _ = self.contents.insert(inode, bytes);
        assert(self@.contents =~= before.contents.insert(inode, bytes@));
    }

    /// Hands out the list of changes and empties it.
    pub fn take_changes(&mut self) -> (changes: Vec<Change>)
        ensures
            changes@ == old(self)@.changes,
            final(self)@ == (FsView { changes: Seq::empty(), ..old(self)@ }),
    {
        let mut changes: Vec<Change> = Vec::new();
        std::mem::swap(&mut changes, &mut self.changes);
        changes
    }

    /// The content of `inode`, if it has one.
    pub fn content(&self, inode: u64) -> (bytes: Option<&Vec<u8>>)
        ensures
            match bytes {
                Some(b) => self@.contents.contains_key(inode) && b@ == self@.contents[inode],
                None => !self@.contents.contains_key(inode),
            },
    {
        self.contents.get(&inode)
    }

    /// Another inode number can be given out.
    pub fn inode_available(&self) -> (yes: bool)
        ensures
            yes == self@.inode_available(),
    {
        let counter = match self.superblock {
            Some(c) => c,
            None => ROOT_INODE,
        };
        counter < FILE_HANDLE_WRITE_BIT - 1
    }

    /// Another file handle can be given out.
    pub fn handle_available(&self) -> (yes: bool)
        ensures
            yes == self@.handle_available(),
    {
        self.next_file_handle < FILE_HANDLE_WRITE_BIT
    }

    /// Gives out the next file handle: the running number, with the read bit
    /// and the write bit set as asked.
    pub fn allocate_next_file_handle(&mut self, read: bool, write: bool) -> (fh: u64)
        requires
            old(self)@.handle_available(),
        ensures
            fh == handle_value(old(self)@.next_file_handle, read, write),
            handle_reads(fh) == read,
            handle_writes(fh) == write,
            final(self)@ == old(self)@.with_next_handle(),
    {
        proof {
            lemma_handle_bits(self.next_file_handle, read, write);
        }
        let mut fh = self.next_file_handle;
        self.next_file_handle = self.next_file_handle + 1;
        if read {
            fh = fh + FILE_HANDLE_READ_BIT;
        }
        if write {
            fh = fh + FILE_HANDLE_WRITE_BIT;
        }
        fh
    }

    /// Reserves the next inode number: one more than the counter, which it
    /// then becomes. The number is recorded before it is handed out, so no
    /// number is ever given twice.
    pub fn allocate_next_inode(&mut self) -> (inode: u64)
        requires
            old(self)@.inode_available(),
        ensures
            inode == old(self)@.counter() + 1,
            inode > old(self)@.counter(),
            final(self)@.counter() == inode,
            final(self)@ == old(self)@.with_next_inode(),
    {
        let current = match self.superblock {
            Some(c) => c,
            None => ROOT_INODE,
        };
        self.superblock = Some(current + 1);
        self.changes.push(Change::Superblock);
        current + 1
    }

    /// The attribute record of `inode`.
    pub fn get_inode(&self, inode: u64) -> (attrs: Result<InodeAttributes, FsError>)
        ensures
            match attrs {
                Ok(a) => self@.attrs(inode) == Ok::<AttrsView, FsError>(a@),
                Err(e) => self@.attrs(inode) == Err::<AttrsView, FsError>(e),
            },
    {
        match self.inodes.get(&inode) {
            Some(attrs) => Ok(attrs.duplicate()),
            None => Err(FsError::NotFound),
        }
    }

    /// Writes `inode` under its own inode number.
    pub fn write_inode(&mut self, inode: &InodeAttributes)
        ensures
            final(self)@ == old(self)@.with_inode(inode@),
    {
        let ghost before = self@;
        let _ = self.inodes.insert(inode.inode, inode.duplicate());
        self.changes.push(Change::Inode(inode.inode));
        assert(self@.inodes =~= before.inodes.insert(inode.inode, inode@));
    }

    /// Makes `bytes` the content of `inode`.
    pub fn write_content(&mut self, inode: u64, bytes: Vec<u8>)
        ensures
            final(self)@ == old(self)@.with_content(inode, bytes@),
    {
        let ghost before = self@;
        let _ = self.contents.insert(inode, bytes);
        self.changes.push(Change::Content(inode));
        assert(self@.contents =~= before.contents.insert(inode, bytes@));
    }

    /// The table of the directory `inode`.
    pub fn get_directory_content(&self, inode: u64) -> (table: Result<DirectoryDescriptor, FsError>)
        ensures
            match table {
                Ok(t) => self@.directory(inode) == Ok::<Seq<DirEntryView>, FsError>(t@),
                Err(e) => self@.directory(inode) == Err::<Seq<DirEntryView>, FsError>(e),
            },
    {
        match self.contents.get(&inode) {
            None => Err(FsError::NotFound),
            Some(bytes) => match decode_dir(bytes.as_slice()) {
                Some(table) => Ok(table),
                None => Err(FsError::Io),
            },
        }
    }

    /// Makes `entries` the table of the directory `inode`.
    pub fn write_directory_content(&mut self, inode: u64, entries: DirectoryDescriptor)
        ensures
            final(self)@ == old(self)@.with_directory(inode, entries@),
            final(self)@.directory(inode) == Ok::<Seq<DirEntryView>, FsError>(entries@),
            sorted(entries@),
            dir_fits(entries@),
    {
        let bytes = encode_dir(&entries);
        proof {
            lemma_dir_roundtrip(entries@);
        }
        self.write_content(inode, bytes);
    }

    /// The attribute record that `name` in the directory `parent` leads to.
    pub fn lookup_name(&self, parent: u64, name: &[u8]) -> (attrs: Result<InodeAttributes, FsError>)
        ensures
            match attrs {
                Ok(a) => self@.named(parent, name@) == Ok::<AttrsView, FsError>(a@),
                Err(e) => self@.named(parent, name@) == Err::<AttrsView, FsError>(e),
            },
    {
        let entries = match self.get_directory_content(parent) {
            Ok(entries) => entries,
            Err(e) => {
                return Err(e);
            },
        };
        match entries.get(name) {
            Some((inode, _)) => self.get_inode(inode),
            None => Err(FsError::NotFound),
        }
    }

    /// Tells whether the handle carries the read bit.
    pub fn check_file_handle_read(&self, file_handle: u64) -> (may: bool)
        ensures
            may == handle_reads(file_handle),
    {
        (file_handle & FILE_HANDLE_READ_BIT) != 0
    }

    /// Tells whether the handle carries the write bit.
    pub fn check_file_handle_write(&self, file_handle: u64) -> (may: bool)
        ensures
            may == handle_writes(file_handle),
    {
        (file_handle & FILE_HANDLE_WRITE_BIT) != 0
    }

    /// The key under which the remote store holds the object of `inode`, as
    /// the inode's record has it; `None` for an inode that does not exist.
    pub fn get_filename_from_inode(&self, inode: u64) -> (key: Option<Vec<u8>>)
        ensures
            match self@.attrs(inode) {
                Ok(a) => key matches Some(k) && k@ == a.remote_key,
                Err(_) => key is None,
            },
    {
        match self.get_inode(inode) {
            Ok(attrs) => Some(attrs.remote_key),
            Err(_) => None,
        }
    }

    /// Removes the inode of `inode` from the store when nothing links to it
    /// and nothing holds it open, and tells whether it did. Removing what is
    /// already gone changes nothing but the list of changes.
    pub fn gc_inode(&mut self, inode: &InodeAttributes) -> (collected: bool)
        ensures
            collected == (inode.hardlinks == 0 && inode.open_file_handles == 0),
            final(self)@ == old(self)@.collected(inode@),
    {
        if inode.hardlinks == 0 && inode.open_file_handles == 0 {
            let ghost before = self@;
            let _ = self.inodes.remove(&inode.inode);
            let _ = self.contents.remove(&inode.inode);
            self.changes.push(Change::InodeRemoved(inode.inode));
            self.changes.push(Change::ContentRemoved(inode.inode));
            assert(self@.inodes =~= before.inodes.remove(inode.inode));
            assert(self@.contents =~= before.contents.remove(inode.inode));
            return true;
        }
        return false;
    }
}

} // verus!
