//! What holds of a store between operations, and the proofs that the
//! operations which build and prune the tree keep it.

use vstd::prelude::*;
use crate::attrs::{spec_file_kind, AttrsView, Timestamp};
use crate::codec::{
    dir_fits, lemma_dir_canonical, lemma_dir_roundtrip, spec_decode_dir, spec_encode_dir,
};
use crate::directory::{
    dir_holds, dir_insert, dir_remove, lemma_dir_insert_entries, lemma_dir_insert_sorted,
    lemma_dir_insert_then_remove, lemma_dir_remove_entries, lemma_dir_remove_keeps,
    lemma_dir_remove_names, lemma_dir_remove_sorted, lemma_lower_bound, lower_bound, sorted,
    DirEntryView, FileKind,
};
use crate::freshness::RemoteStatView;
use crate::layout::joined;
use crate::ops::{dot, dot_dot, fresh_directory, root_directory};
use crate::content::{lemma_read_after_write, lemma_read_is_short, lemma_write_length};
use crate::posix::{FsError, ROOT_INODE};
use crate::store::{handle_reads, FsView, FILE_HANDLE_WRITE_BIT};

verus! {

impl FsView {
    /// Every attribute record is kept under the inode number that it names.
    pub open spec fn records_keyed(self) -> bool {
        forall|n: u64| self.inodes.contains_key(n) ==> (#[trigger] self.inodes[n]).inode == n
    }

    /// Every inode that has an attribute record has a content, and every
    /// content belongs to an inode with a record.
    pub open spec fn records_complete(self) -> bool {
        forall|n: u64|
            #![trigger self.inodes.contains_key(n)]
            #![trigger self.contents.contains_key(n)]
            self.inodes.contains_key(n) <==> self.contents.contains_key(n)
    }

    /// `inode` is a directory whose content holds a table.
    pub open spec fn is_directory(self, inode: u64) -> bool {
        &&& self.inodes.contains_key(inode)
        &&& self.inodes[inode].kind == FileKind::Directory
        &&& self.contents.contains_key(inode)
        &&& spec_decode_dir(self.contents[inode]) is Some
    }

    /// The table that the content of `inode` holds.
    pub open spec fn table(self, inode: u64) -> Seq<DirEntryView> {
        spec_decode_dir(self.contents[inode])->0
    }

    /// Every entry of every directory leads to an inode that has a record.
    pub open spec fn entries_resolve(self) -> bool {
        forall|d: u64, i: int|
            self.is_directory(d) && 0 <= i < self.table(d).len() ==> self.inodes.contains_key(
                (#[trigger] self.table(d)[i]).inode,
            )
    }

    /// No inode has a number above the allocator's counter, the root's
    /// reserved number included.
    pub open spec fn counter_covers(self) -> bool {
        &&& ROOT_INODE <= self.counter()
        &&& forall|n: u64| #[trigger] self.inodes.contains_key(n) ==> n <= self.counter()
    }

    /// The store is in order: records under their own numbers, a content for
    /// every record, no entry that leads nowhere, no inode above the counter.
    pub open spec fn consistent(self) -> bool {
        &&& self.records_keyed()
        &&& self.records_complete()
        &&& self.entries_resolve()
        &&& self.counter_covers()
    }

    /// Some entry other than `name` in `parent` leads to `inode`, from a
    /// directory other than `inode` itself.
    pub open spec fn linked_elsewhere(self, inode: u64, parent: u64, name: Seq<u8>) -> bool {
        exists|d: u64, i: int|
            d != inode && self.is_directory(d) && 0 <= i < self.table(d).len() && (
            #[trigger] self.table(d)[i]).inode == inode && !(d == parent && self.table(d)[i].name
                == name)
    }

    /// Unlinking `name` from `parent` collects an inode that other entries
    /// still lead to.
    pub open spec fn unlink_orphans(self, parent: u64, name: Seq<u8>, now: Timestamp) -> bool {
        let c = Self::unlinked_attrs(self.named(parent, name)->Ok_0, now);
        c.hardlinks == 0 && c.open_file_handles == 0 && self.linked_elsewhere(
            c.inode,
            parent,
            name,
        )
    }
}

proof fn lemma_fresh_directory(inode: u64, parent: u64)
    ensures
        sorted(fresh_directory(inode, parent)),
        dir_fits(fresh_directory(inode, parent)),
        spec_decode_dir(spec_encode_dir(fresh_directory(inode, parent))) == Some(
            fresh_directory(inode, parent),
        ),
        forall|i: int|
            0 <= i < fresh_directory(inode, parent).len() ==> (#[trigger] fresh_directory(
                inode,
                parent,
            )[i]).inode == inode || fresh_directory(inode, parent)[i].inode == parent,
{
    let e1 = DirEntryView { name: dot(), inode, kind: FileKind::Directory };
    let e2 = DirEntryView { name: dot_dot(), inode: parent, kind: FileKind::Directory };
    let t0 = Seq::<DirEntryView>::empty();
    let t1 = dir_insert(t0, e1);
    let t2 = dir_insert(t1, e2);
    lemma_dir_insert_sorted(t0, e1);
    lemma_dir_insert_sorted(t1, e2);
    lemma_lower_bound(t0, e1.name);
    lemma_lower_bound(t1, e2.name);
    assert forall|i: int| 0 <= i < t2.len() implies (#[trigger] t2[i]).inode == inode || t2[i].inode
        == parent by {
        lemma_dir_insert_entries(t1, e2, i);
        if t2[i] != e2 {
            let j = choose|j: int| 0 <= j < t1.len() && t1[j] == t2[i];
            lemma_dir_insert_entries(t0, e1, j);
        }
    }
    assert forall|i: int| 0 <= i < t2.len() implies (#[trigger] t2[i]).name.len() <= u64::MAX by {
        lemma_dir_insert_entries(t1, e2, i);
        if t2[i] != e2 {
            let j = choose|j: int| 0 <= j < t1.len() && t1[j] == t2[i];
            lemma_dir_insert_entries(t0, e1, j);
        }
    }
    lemma_dir_roundtrip(t2);
}

/// A store that is in order stays in order when `init` gives it a root.
pub proof fn lemma_init_keeps_consistent(s: FsView, now: Timestamp)
    requires
        s.consistent(),
    ensures
        s.spec_init(now).consistent(),
{
    let f = s.spec_init(now);
    if s.attrs(ROOT_INODE) is Err {
        let e = DirEntryView { name: dot(), inode: ROOT_INODE, kind: FileKind::Directory };
        let t = root_directory();
        lemma_dir_insert_sorted(Seq::<DirEntryView>::empty(), e);
        lemma_lower_bound(Seq::<DirEntryView>::empty(), e.name);
        assert forall|i: int| 0 <= i < t.len() implies t[i] == e by {
            lemma_dir_insert_entries(Seq::<DirEntryView>::empty(), e, i);
        }
        lemma_dir_roundtrip(t);
        assert forall|d: u64, i: int| f.is_directory(d) && 0 <= i < f.table(d).len() implies f.inodes.contains_key(
            (#[trigger] f.table(d)[i]).inode,
        ) by {
            if d != ROOT_INODE {
                assert(s.table(d) == f.table(d));
            }
        }
    }
}

/// A store that is in order stays in order through a creation: the new inode
/// has its record and its content, its entry leads to it, and the counter
/// covers it.
pub proof fn lemma_create_keeps_consistent(
    s: FsView,
    uid: u32,
    gid: u32,
    parent: u64,
    name: Seq<u8>,
    mode: u32,
    flags: i32,
    now: Timestamp,
)
    requires
        s.consistent(),
        s.inode_available(),
        spec_file_kind(mode) is Some,
        s.spec_create_error(uid, gid, parent, name, flags) is None,
        dir_fits(
            dir_insert(
                s.directory(parent)->Ok_0,
                DirEntryView {
                    name,
                    inode: (s.counter() + 1) as u64,
                    kind: spec_file_kind(mode)->0,
                },
            ),
        ),
    ensures
        s.spec_create_state(uid, gid, parent, name, mode, now).consistent(),
{
    let f = s.spec_create_state(uid, gid, parent, name, mode, now);
    let attrs = s.created_attrs(uid, gid, parent, name, mode, now);
    let n = attrs.inode;
    let table = s.directory(parent)->Ok_0;
    let e = DirEntryView { name, inode: n, kind: attrs.kind };
    let t = dir_insert(table, e);
    lemma_dir_insert_sorted(table, e);
    lemma_dir_roundtrip(t);
    lemma_fresh_directory(n, parent);
    assert forall|d: u64, i: int| f.is_directory(d) && 0 <= i < f.table(d).len() implies f.inodes.contains_key(
        (#[trigger] f.table(d)[i]).inode,
    ) by {
        if d == parent {
            lemma_dir_insert_entries(table, e, i);
            if t[i] != e {
                let j = choose|j: int| 0 <= j < table.len() && table[j] == t[i];
                assert(s.table(parent)[j] == t[i]);
            }
        } else if d != n {
            assert(s.table(d) == f.table(d));
        }
    }
}

/// A store that is in order stays in order when a child of the remote listing
/// is taken in.
pub proof fn lemma_seed_keeps_consistent(
    s: FsView,
    parent: u64,
    prefix: Seq<u8>,
    child: Seq<u8>,
    is_file: bool,
    now: Timestamp,
)
    requires
        s.consistent(),
        s.inode_available(),
        s.spec_seed_error(parent, prefix, child, is_file) is None,
        dir_fits(
            dir_insert(
                s.directory(parent)->Ok_0,
                DirEntryView {
                    name: FsView::seed_name(prefix, child, is_file)->0,
                    inode: (s.counter() + 1) as u64,
                    kind: if is_file {
                        FileKind::File
                    } else {
                        FileKind::Directory
                    },
                },
            ),
        ),
    ensures
        s.spec_seed_state(parent, prefix, child, is_file, now).consistent(),
{
    let f = s.spec_seed_state(parent, prefix, child, is_file, now);
    let attrs = s.seeded_attrs(parent, prefix, child, is_file, now);
    let n = attrs.inode;
    let table = s.directory(parent)->Ok_0;
    let e = DirEntryView {
        name: FsView::seed_name(prefix, child, is_file)->0,
        inode: n,
        kind: attrs.kind,
    };
    let t = dir_insert(table, e);
    lemma_dir_insert_sorted(table, e);
    lemma_dir_roundtrip(t);
    lemma_fresh_directory(n, parent);
    assert forall|d: u64, i: int| f.is_directory(d) && 0 <= i < f.table(d).len() implies f.inodes.contains_key(
        (#[trigger] f.table(d)[i]).inode,
    ) by {
        if d == parent {
            lemma_dir_insert_entries(table, e, i);
            if t[i] != e {
                let j = choose|j: int| 0 <= j < table.len() && table[j] == t[i];
                assert(s.table(parent)[j] == t[i]);
            }
        } else if d != n {
            assert(s.table(d) == f.table(d));
        }
    }
}

/// A file that is created and unlinked again is gone: once `name` was
/// created in the directory `parent` as a regular file and then unlinked by
/// the same caller, the store holds neither the record nor the content of the new
/// inode, the parent's table is what it was before the creation, and the
/// store is in order.
pub proof fn lemma_create_then_unlink(
    s: FsView,
    uid: u32,
    gid: u32,
    parent: u64,
    name: Seq<u8>,
    mode: u32,
    flags: i32,
    created: Timestamp,
    unlinked: Timestamp,
)
    requires
        s.consistent(),
        s.can_create(mode),
        spec_file_kind(mode) == Some(FileKind::File),
        s.spec_create_error(uid, gid, parent, name, flags) is None,
        s.inodes[parent].kind == FileKind::Directory,
        name.len() <= u64::MAX,
        s.directory(parent)->Ok_0.len() < u64::MAX,
    ensures
        ({
            let made = s.spec_create_state(uid, gid, parent, name, mode, created);
            let inode = (s.counter() + 1) as u64;
            let left = made.spec_unlink_state(parent, name, unlinked);
            &&& made.inodes.contains_key(inode)
            &&& made.contents.contains_key(inode)
            &&& made.spec_unlink_error(uid, gid, parent, name) is None
            &&& !left.inodes.contains_key(inode)
            &&& !left.contents.contains_key(inode)
            &&& left.directory(parent) == s.directory(parent)
            &&& left.consistent()
        }),
{
    let made = s.spec_create_state(uid, gid, parent, name, mode, created);
    let attrs = s.created_attrs(uid, gid, parent, name, mode, created);
    let n = attrs.inode;
    let table = s.directory(parent)->Ok_0;
    let e = DirEntryView { name, inode: n, kind: attrs.kind };
    let t = dir_insert(table, e);
    let left = made.spec_unlink_state(parent, name, unlinked);
    lemma_dir_canonical(s.contents[parent]);
    assert(!dir_holds(table, name)) by {
        if dir_holds(table, name) {
            lemma_lower_bound(table, name);
            let i = lower_bound(table, name);
            assert(s.is_directory(parent));
            assert(s.inodes.contains_key(s.table(parent)[i].inode));
        }
    }
    lemma_dir_insert_then_remove(table, e);
    lemma_dir_insert_sorted(table, e);
    lemma_lower_bound(table, name);
    assert(dir_fits(t)) by {
        assert forall|i: int| 0 <= i < t.len() implies (#[trigger] t[i]).name.len() <= u64::MAX by {
            lemma_dir_insert_entries(table, e, i);
        }
    }
    lemma_dir_roundtrip(t);
    lemma_dir_roundtrip(table);
    lemma_create_keeps_consistent(s, uid, gid, parent, name, mode, flags, created);
    assert(n != parent);
    assert(made.directory(parent) == Ok::<Seq<DirEntryView>, FsError>(t));
    assert(made.inodes[n] == attrs);
    assert(made.named(parent, name) == Ok::<AttrsView, FsError>(attrs));
    assert(!made.linked_elsewhere(n, parent, name)) by {
        if made.linked_elsewhere(n, parent, name) {
            let (d, i) = choose|d: u64, i: int|
                d != n && made.is_directory(d) && 0 <= i < made.table(d).len() && (
                #[trigger] made.table(d)[i]).inode == n && !(d == parent && made.table(d)[i].name
                    == name);
            if d == parent {
                lemma_dir_insert_entries(table, e, i);
                if t[i] != e {
                    let j = choose|j: int| 0 <= j < table.len() && table[j] == t[i];
                    assert(s.is_directory(parent));
                    assert(s.inodes.contains_key(s.table(parent)[j].inode));
                }
            } else {
                assert(s.is_directory(d));
                assert(s.table(d) == made.table(d));
                assert(s.inodes.contains_key(s.table(d)[i].inode));
            }
        }
    }
    lemma_unlink_keeps_consistent(made, uid, gid, parent, name, unlinked);
}

/// A store that is in order stays in order through an unlink, unless the
/// unlink collects an inode that another entry still leads to.
pub proof fn lemma_unlink_keeps_consistent(
    s: FsView,
    uid: u32,
    gid: u32,
    parent: u64,
    name: Seq<u8>,
    now: Timestamp,
)
    requires
        s.consistent(),
        s.spec_unlink_error(uid, gid, parent, name) is None,
        !s.unlink_orphans(parent, name, now),
        s.spec_unlink_state(parent, name, now).contents.contains_key(parent) ==> dir_fits(
            dir_remove(s.directory(parent)->Ok_0, name),
        ),
    ensures
        s.spec_unlink_state(parent, name, now).consistent(),
{
    let f = s.spec_unlink_state(parent, name, now);
    let p = s.inodes[parent];
    let c0 = s.named(parent, name)->Ok_0;
    let c = FsView::unlinked_attrs(c0, now);
    let table = s.directory(parent)->Ok_0;
    let t = dir_remove(table, name);
    let gone = c.hardlinks == 0 && c.open_file_handles == 0;
    assert(s.inodes.contains_key(parent));
    assert(s.inodes.contains_key(c.inode));
    assert(s.contents.contains_key(parent));
    assert(s.contents.contains_key(c.inode));
    assert(sorted(table));
    lemma_dir_remove_sorted(table, name);
    let mid = s.with_inode(
        AttrsView { last_metadata_changed: now, last_modified: now, ..p },
    ).with_inode(c).collected(c);
    assert(mid.contents.contains_key(parent) <==> !(gone && c.inode == parent));
    if mid.contents.contains_key(parent) {
        assert(mid.contents[parent] == s.contents[parent]);
        assert(mid.directory(parent) == Ok::<Seq<DirEntryView>, FsError>(table));
        lemma_dir_roundtrip(t);
    }
    assert(f.records_keyed());
    assert(f.records_complete());
    assert(f.counter_covers());
    assert forall|d: u64, i: int| f.is_directory(d) && 0 <= i < f.table(d).len() implies f.inodes.contains_key(
        (#[trigger] f.table(d)[i]).inode,
    ) by {
        assert(s.inodes.contains_key(d));
        assert(s.inodes[d].kind == FileKind::Directory);
        if d == parent {
            assert(f.table(d) == t);
            lemma_dir_remove_entries(table, name, i);
            lemma_dir_remove_names(table, name, i);
            let j = choose|j: int| 0 <= j < table.len() && table[j] == t[i];
            assert(s.is_directory(parent));
            assert(s.table(parent)[j] == t[i]);
            assert(s.inodes.contains_key(s.table(parent)[j].inode));
            if gone {
                assert(d != c.inode);
                if t[i].inode == c.inode {
                    assert(s.linked_elsewhere(c.inode, parent, name));
                }
            }
        } else {
            assert(s.is_directory(d));
            assert(s.table(d) == f.table(d));
            assert(s.inodes.contains_key(s.table(d)[i].inode));
            if gone {
                assert(d != c.inode);
                if s.table(d)[i].inode == c.inode {
                    assert(s.linked_elsewhere(c.inode, parent, name));
                }
            }
        }
    }
}

/// The exception is exact: an unlink that collects an inode which another
/// entry still leads to leaves that entry leading nowhere.
pub proof fn lemma_unlink_orphans_dangle(
    s: FsView,
    uid: u32,
    gid: u32,
    parent: u64,
    name: Seq<u8>,
    now: Timestamp,
)
    requires
        s.consistent(),
        s.spec_unlink_error(uid, gid, parent, name) is None,
        s.unlink_orphans(parent, name, now),
        dir_fits(dir_remove(s.directory(parent)->Ok_0, name)),
    ensures
        !s.spec_unlink_state(parent, name, now).entries_resolve(),
{
    let f = s.spec_unlink_state(parent, name, now);
    let p = s.inodes[parent];
    let c = FsView::unlinked_attrs(s.named(parent, name)->Ok_0, now);
    let table = s.directory(parent)->Ok_0;
    let t = dir_remove(table, name);
    let (d, i) = choose|d: u64, i: int|
        d != c.inode && s.is_directory(d) && 0 <= i < s.table(d).len() && (#[trigger] s.table(
            d,
        )[i]).inode == c.inode && !(d == parent && s.table(d)[i].name == name);
    lemma_dir_remove_sorted(table, name);
    lemma_dir_roundtrip(t);
    let mid = s.with_inode(
        AttrsView { last_metadata_changed: now, last_modified: now, ..p },
    ).with_inode(c).collected(c);
    if d == parent {
        lemma_dir_remove_keeps(table, name, i);
        let k = choose|k: int| 0 <= k < t.len() && t[k] == table[i];
        assert(f.table(d)[k].inode == c.inode);
    }
}

/// Every inode that is in both stores has the same remote key in both.
pub open spec fn keys_kept(before: FsView, after: FsView) -> bool {
    forall|m: u64|
        before.inodes.contains_key(m) && #[trigger] after.inodes.contains_key(m)
            ==> after.inodes[m].remote_key == before.inodes[m].remote_key
}

/// A child that is taken in from the remote listing is kept under the key
/// that the remote store has it under, its name behind the prefix it was
/// listed with, and no other inode's key changes.
pub proof fn lemma_seed_keys(
    s: FsView,
    parent: u64,
    prefix: Seq<u8>,
    child: Seq<u8>,
    is_file: bool,
    now: Timestamp,
)
    requires
        s.consistent(),
        s.inode_available(),
        s.spec_seed_error(parent, prefix, child, is_file) is None,
    ensures
        ({
            let after = s.spec_seed_state(parent, prefix, child, is_file, now);
            let inode = (s.counter() + 1) as u64;
            &&& after.attrs(inode) == Ok::<AttrsView, FsError>(
                s.seeded_attrs(parent, prefix, child, is_file, now),
            )
            &&& after.inodes[inode].remote_key == prefix + child
            &&& keys_kept(s, after)
        }),
{
}

/// A created inode is kept under its name below the key of its parent, and
/// no other inode's key changes.
pub proof fn lemma_create_keys(
    s: FsView,
    uid: u32,
    gid: u32,
    parent: u64,
    name: Seq<u8>,
    mode: u32,
    flags: i32,
    now: Timestamp,
)
    requires
        s.consistent(),
        s.can_create(mode),
        s.spec_create_error(uid, gid, parent, name, flags) is None,
    ensures
        ({
            let after = s.spec_create_state(uid, gid, parent, name, mode, now);
            let inode = (s.counter() + 1) as u64;
            &&& after.attrs(inode) == Ok::<AttrsView, FsError>(
                s.created_attrs(uid, gid, parent, name, mode, now),
            )
            &&& after.inodes[inode].remote_key == joined(s.inodes[parent].remote_key, name)
            &&& keys_kept(s, after)
        }),
{
}

/// No open, write, refresh or unlink changes the remote key of an inode.
pub proof fn lemma_keys_stay(
    s: FsView,
    uid: u32,
    gid: u32,
    inode: u64,
    name: Seq<u8>,
    offset: i64,
    data: Seq<u8>,
    remote: RemoteStatView,
    now: Timestamp,
)
    requires
        s.records_keyed(),
    ensures
        s.attrs(inode) is Ok ==> keys_kept(s, s.spec_open_state(inode)),
        s.attrs(inode) is Ok ==> keys_kept(s, s.spec_write_state(inode, offset, data, now)),
        s.attrs(inode) is Ok ==> keys_kept(s, s.spec_refresh_state(inode, remote, data, now)),
        s.spec_unlink_error(uid, gid, inode, name) is None ==> keys_kept(
            s,
            s.spec_unlink_state(inode, name, now),
        ),
{
    if s.spec_unlink_error(uid, gid, inode, name) is None {
        let c = s.named(inode, name)->Ok_0;
        assert(s.inodes.contains_key(c.inode));
    }
}

impl FsView {
    /// The store after `count` further inode numbers were reserved.
    pub open spec fn after_allocations(self, count: nat) -> FsView
        decreases count,
    {
        if count == 0 {
            self
        } else {
            self.with_next_inode().after_allocations((count - 1) as nat)
        }
    }
}

/// Inode numbers never repeat: each allocation gives the number behind the
/// counter and makes it the counter, so the number that a later allocation
/// gives, however many lie between and whether in this mount or in one that
/// starts from the persisted counter, is higher than any given before.
pub proof fn lemma_inode_numbers_increase(s: FsView, later: nat)
    requires
        s.counter() + later + 1 < FILE_HANDLE_WRITE_BIT,
    ensures
        s.after_allocations(later).counter() == s.counter() + later,
        s.after_allocations(later).inode_available(),
        s.after_allocations(later).with_next_inode().counter() > s.counter(),
        later > 0 ==> s.after_allocations(later).with_next_inode().counter()
            > s.with_next_inode().counter(),
    decreases later,
{
    if later > 0 {
        lemma_inode_numbers_increase(s.with_next_inode(), (later - 1) as nat);
    }
}

/// Inode numbers do not repeat across mounts: a mount that starts from the
/// counter which an earlier mount persisted gives only numbers above every
/// number that the earlier mount gave.
pub proof fn lemma_inode_numbers_across_mounts(
    earlier: FsView,
    given: nat,
    remounted: FsView,
    later: nat,
)
    requires
        remounted.superblock == earlier.after_allocations(given).superblock,
        earlier.counter() + given + later + 1 < FILE_HANDLE_WRITE_BIT,
    ensures
        forall|j: nat|
            j < given ==> remounted.after_allocations(later).with_next_inode().counter()
                > #[trigger] earlier.after_allocations(j).with_next_inode().counter(),
{
    lemma_inode_numbers_increase(earlier, given);
    lemma_inode_numbers_increase(remounted, later);
    assert forall|j: nat| j < given implies remounted.after_allocations(
        later,
    ).with_next_inode().counter() > #[trigger] earlier.after_allocations(
        j,
    ).with_next_inode().counter() by {
        lemma_inode_numbers_increase(earlier, j);
    }
}

/// What a write puts into a file, a read gets out of it: after a successful
/// write of `data` at `offset`, a read of as many bytes at the same offset
/// through a handle that may read answers with `data`.
pub proof fn lemma_write_then_read(
    s: FsView,
    inode: u64,
    write_handle: u64,
    read_handle: u64,
    offset: i64,
    data: Seq<u8>,
    now: Timestamp,
)
    requires
        offset >= 0,
        data.len() <= u32::MAX,
        s.spec_write_error(inode, write_handle) is None,
        handle_reads(read_handle),
    ensures
        s.spec_write_state(inode, offset, data, now).spec_read(
            inode,
            read_handle,
            offset,
            data.len() as u32,
        ) == Ok::<Seq<u8>, FsError>(data),
{
    lemma_read_after_write(s.contents[inode], offset as int, data);
}

/// A read at the end of a file is short and never made up: it answers with no
/// more bytes than were asked for and no more than the content has behind the
/// offset, each of them the content's own byte at its place, and with none at
/// all at or behind the end.
pub proof fn lemma_read_past_end(s: FsView, inode: u64, fh: u64, offset: i64, size: u32)
    requires
        offset >= 0,
        s.spec_read(inode, fh, offset, size) is Ok,
    ensures
        ({
            let content = s.contents[inode];
            let bytes = s.spec_read(inode, fh, offset, size)->Ok_0;
            &&& bytes.len() <= size
            &&& offset + bytes.len() <= content.len() || bytes.len() == 0
            &&& offset >= content.len() ==> bytes.len() == 0
            &&& offset + size > content.len() && offset < content.len() ==> bytes.len()
                == content.len() - offset
            &&& forall|i: int| 0 <= i < bytes.len() ==> bytes[i] == content[offset + i]
        }),
{
    lemma_read_is_short(s.contents[inode], offset as int, size as int);
}

/// After a successful write the recorded size of a file is the length of its
/// content, provided it was so before.
pub proof fn lemma_write_keeps_size(
    s: FsView,
    inode: u64,
    fh: u64,
    offset: i64,
    data: Seq<u8>,
    now: Timestamp,
)
    requires
        offset >= 0,
        offset + data.len() <= u64::MAX,
        s.records_keyed(),
        s.spec_write_error(inode, fh) is None,
        s.inodes[inode].size == s.contents[inode].len(),
    ensures
        ({
            let after = s.spec_write_state(inode, offset, data, now);
            after.inodes[inode].size == after.contents[inode].len()
        }),
{
    lemma_write_length(s.contents[inode], offset as int, data);
}

} // verus!
