//! Filling a fresh store from the remote listing. The embedding program walks
//! the bucket; for every child that the walk meets, the store takes it in and
//! says whether and where the walk has to descend.

use vstd::prelude::*;
use vstd::slice::slice_subrange;
use crate::attrs::{AttrsView, InodeAttributes, Timestamp};
use crate::codec::append_bytes;
use crate::directory::{dir_insert, DirEntryView, FileKind};
use crate::ops::{fresh_directory, new_directory};
use crate::invariants::{keys_kept, lemma_seed_keeps_consistent, lemma_seed_keys};
use crate::names::name_to_vec;
use crate::posix::{FsError, ROOT_INODE};
use crate::store::{FsView, S3FS};

verus! {

/// The byte that separates the segments of a remote path.
pub const SEPARATOR: u8 = 47;

/// The length of `path` without the separators at its end.
pub open spec fn trimmed_len(path: Seq<u8>) -> int
    decreases path.len(),
{
    if path.len() == 0 || path.last() != SEPARATOR {
        path.len() as int
    } else {
        trimmed_len(path.drop_last())
    }
}

/// Where the segment that ends at `end` starts: behind the nearest separator
/// before `end`, or at the start of `path`.
pub open spec fn segment_start(path: Seq<u8>, end: int) -> int
    decreases end,
{
    if end <= 0 || path[end - 1] == SEPARATOR {
        end
    } else {
        segment_start(path, end - 1)
    }
}

/// The last segment of `path` that is not empty, if it has one.
pub open spec fn last_segment(path: Seq<u8>) -> Option<Seq<u8>> {
    let end = trimmed_len(path);
    if end == 0 {
        None
    } else {
        Some(path.subrange(segment_start(path, end), end))
    }
}

/// `child` appended to `prefix`, with a separator behind it when it is a
/// directory.
pub open spec fn child_path(prefix: Seq<u8>, child: Seq<u8>, is_file: bool) -> Seq<u8> {
    if is_file {
        prefix + child
    } else {
        prefix + child + seq![SEPARATOR]
    }
}

/// What the last segment is: it has no separator in it and is not empty, a
/// separator or the start of the path stands before it, and only separators
/// stand behind it. A path has none exactly when it is made of separators
/// alone.
pub proof fn lemma_last_segment(path: Seq<u8>)
    ensures
        0 <= trimmed_len(path) <= path.len(),
        forall|i: int| trimmed_len(path) <= i < path.len() ==> path[i] == SEPARATOR,
        trimmed_len(path) > 0 ==> path[trimmed_len(path) - 1] != SEPARATOR,
        trimmed_len(path) > 0 ==> 0 <= segment_start(path, trimmed_len(path)) < trimmed_len(path),
        forall|i: int|
            segment_start(path, trimmed_len(path)) <= i < trimmed_len(path) ==> path[i]
                != SEPARATOR,
        segment_start(path, trimmed_len(path)) > 0 ==> path[segment_start(
            path,
            trimmed_len(path),
        ) - 1] == SEPARATOR,
{
    lemma_trimmed(path);
    lemma_segment(path, trimmed_len(path));
}

proof fn lemma_trimmed(path: Seq<u8>)
    ensures
        0 <= trimmed_len(path) <= path.len(),
        forall|i: int| trimmed_len(path) <= i < path.len() ==> path[i] == SEPARATOR,
        trimmed_len(path) > 0 ==> path[trimmed_len(path) - 1] != SEPARATOR,
    decreases path.len(),
{
    if path.len() == 0 || path.last() != SEPARATOR {
    } else {
        let shorter = path.drop_last();
        lemma_trimmed(shorter);
        assert forall|i: int| trimmed_len(path) <= i < path.len() implies path[i]
            == SEPARATOR by {
            if i < shorter.len() {
                assert(shorter[i] == path[i]);
            }
        }
        if trimmed_len(path) > 0 {
            assert(shorter[trimmed_len(path) - 1] == path[trimmed_len(path) - 1]);
        }
    }
}

proof fn lemma_segment(path: Seq<u8>, end: int)
    requires
        0 <= end <= path.len(),
    ensures
        0 <= segment_start(path, end) <= end,
        end > 0 && path[end - 1] != SEPARATOR ==> segment_start(path, end) < end,
        forall|i: int| segment_start(path, end) <= i < end ==> path[i] != SEPARATOR,
        segment_start(path, end) > 0 ==> path[segment_start(path, end) - 1] == SEPARATOR,
    decreases end,
{
    if end <= 0 || path[end - 1] == SEPARATOR {
    } else {
        lemma_segment(path, end - 1);
    }
}

/// The last segment of `path` that is not empty: the name under which a
/// remote directory is listed in its parent.
pub fn list_directory(path: &[u8]) -> (name: Option<Vec<u8>>)
    ensures
        match name {
            Some(n) => last_segment(path@) == Some(n@),
            None => last_segment(path@) is None,
        },
{
    let mut end: usize = path.len();
    assert(path@.take(end as int) =~= path@);
    while end > 0 && path[end - 1] == SEPARATOR
        invariant
            end <= path.len(),
            trimmed_len(path@) == trimmed_len(path@.take(end as int)),
        decreases end,
    {
        let ghost head = path@.take(end as int);
        assert(head.last() == path@[end - 1]);
        assert(head.drop_last() =~= path@.take(end - 1));
        end -= 1;
    }
    assert(trimmed_len(path@) == end) by {
        let head = path@.take(end as int);
        if end > 0 {
            assert(head.last() == path@[end - 1]);
        }
    }
    if end == 0 {
        return None;
    }
    let mut start: usize = end;
    while start > 0 && path[start - 1] != SEPARATOR
        invariant
            start <= end <= path.len(),
            segment_start(path@, end as int) == segment_start(path@, start as int),
        decreases start,
    {
        start -= 1;
    }
    Some(name_to_vec(slice_subrange(path, start, end)))
}

/// What the store learned from one child of the remote listing.
#[derive(Debug)]
pub struct SeedOutcome {
    /// The inode that the child got.
    pub inode: u64,
    /// For a directory, the prefix under which its own children are listed;
    /// the walk goes on there, with `inode` as the parent.
    pub descend: Option<Vec<u8>>,
}

impl FsView {
    /// The name under which a child of the remote listing enters its
    /// parent's table: a file's own name, a directory's last segment.
    pub open spec fn seed_name(prefix: Seq<u8>, child: Seq<u8>, is_file: bool) -> Option<Seq<u8>> {
        if is_file {
            Some(child)
        } else {
            last_segment(child_path(prefix, child, false))
        }
    }

    /// Why a child cannot be taken in, if it cannot.
    pub open spec fn spec_seed_error(self, parent: u64, prefix: Seq<u8>, child: Seq<u8>, is_file: bool)
        -> Option<FsError> {
        match self.attrs(parent) {
            Err(e) => Some(e),
            Ok(_) => match self.directory(parent) {
                Err(e) => Some(e),
                Ok(_) => if Self::seed_name(prefix, child, is_file) is None {
                    Some(FsError::InvalidArgument)
                } else {
                    None
                },
            },
        }
    }

    /// The attributes that a child of the remote listing starts with: empty,
    /// open to all, owned as its parent, held open by nothing, never filled
    /// from the remote. Its remote key is its name behind the prefix that it
    /// was listed under.
    pub open spec fn seeded_attrs(
        self,
        parent: u64,
        prefix: Seq<u8>,
        child: Seq<u8>,
        is_file: bool,
        now: Timestamp,
    ) -> AttrsView {
        let p = self.inodes[parent];
        AttrsView {
            inode: (self.counter() + 1) as u64,
            open_file_handles: 0,
            size: 0,
            last_accessed: now,
            last_modified: now,
            last_metadata_changed: now,
            kind: if is_file {
                FileKind::File
            } else {
                FileKind::Directory
            },
            mode: 0o777,
            hardlinks: if is_file {
                1
            } else {
                2
            },
            uid: p.uid,
            gid: p.gid,
            version_tag: Seq::empty(),
            remote_key: prefix + child,
        }
    }

    /// The store after a child was taken in: the counter advanced, the new
    /// inode with its record and its content, its name in the parent's table,
    /// the parent touched.
    pub open spec fn spec_seed_state(
        self,
        parent: u64,
        prefix: Seq<u8>,
        child: Seq<u8>,
        is_file: bool,
        now: Timestamp,
    ) -> FsView {
        let p = self.inodes[parent];
        let table = self.directory(parent)->Ok_0;
        let attrs = self.seeded_attrs(parent, prefix, child, is_file, now);
        let s1 = self.with_next_inode().with_inode(attrs);
        let s2 = if is_file {
            s1.with_content(attrs.inode, Seq::empty())
        } else {
            s1.with_directory(attrs.inode, fresh_directory(attrs.inode, parent))
        };
        s2.with_directory(
            parent,
            dir_insert(
                table,
                DirEntryView {
                    name: Self::seed_name(prefix, child, is_file)->0,
                    inode: attrs.inode,
                    kind: attrs.kind,
                },
            ),
        ).with_inode(AttrsView { last_modified: now, last_metadata_changed: now, ..p })
    }
}

impl S3FS {
    /// Takes one child of the remote listing into the directory `parent`:
    /// `child` is its name as listed under `prefix`, `is_file` what the
    /// remote store says it is. A file gets an inode with empty content. A
    /// directory gets an inode with a table of its own, and the answer names
    /// the prefix that the walk descends into.
    pub fn seed_entry(
        &mut self,
        parent: u64,
        prefix: &[u8],
        child: &[u8],
        is_file: bool,
        now: Timestamp,
    ) -> (seeded: Result<SeedOutcome, FsError>)
        requires
            old(self)@.spec_seed_error(parent, prefix@, child@, is_file) is None ==> old(
                self,
            )@.inode_available(),
        ensures
            match seeded {
                Ok(outcome) => {
                    &&& old(self)@.spec_seed_error(parent, prefix@, child@, is_file) is None
                    &&& outcome.inode == old(self)@.counter() + 1
                    &&& match outcome.descend {
                        Some(path) => !is_file && path@ == child_path(prefix@, child@, false),
                        None => is_file,
                    }
                    &&& final(self)@ == old(self)@.spec_seed_state(
                        parent,
                        prefix@,
                        child@,
                        is_file,
                        now,
                    )
                },
                Err(e) => {
                    &&& old(self)@.spec_seed_error(parent, prefix@, child@, is_file) == Some(e)
                    &&& final(self)@ == old(self)@
                },
            },
            old(self)@.consistent() ==> final(self)@.consistent(),
            old(self)@.consistent() ==> keys_kept(old(self)@, final(self)@),
            old(self)@.consistent() ==> (seeded matches Ok(outcome) ==> final(self)@.attrs(
                outcome.inode,
            ) is Ok && final(self)@.inodes[outcome.inode].remote_key == prefix@ + child@),
    {
        let mut parent_attrs = match self.get_inode(parent) {
            Ok(attrs) => attrs,
            Err(e) => {
                return Err(e);
            },
        };
        let mut entries = match self.get_directory_content(parent) {
            Ok(entries) => entries,
            Err(e) => {
                return Err(e);
            },
        };
        let mut path = name_to_vec(prefix);
        append_bytes(&mut path, child);
        let key = name_to_vec(path.as_slice());
        let entry_name = if is_file {
            name_to_vec(child)
        } else {
            path.push(SEPARATOR);
            assert(path@ =~= child_path(prefix@, child@, false));
            match list_directory(path.as_slice()) {
                Some(name) => name,
                None => {
                    return Err(FsError::InvalidArgument);
                },
            }
        };
        let inode = self.allocate_next_inode();
        let kind = if is_file {
            FileKind::File
        } else {
            FileKind::Directory
        };
        let attrs = InodeAttributes {
            inode,
            open_file_handles: 0,
            size: 0,
            last_accessed: now,
            last_modified: now,
            last_metadata_changed: now,
            kind,
            mode: 0o777,
            hardlinks: if is_file {
                1
            } else {
                2
            },
            uid: parent_attrs.uid,
            gid: parent_attrs.gid,
            version_tag: String::new(),
            remote_key: key,
        };
        self.write_inode(&attrs);
        if is_file {
            self.write_content(inode, Vec::new());
        } else {
            self.write_directory_content(inode, new_directory(inode, parent));
        }
        entries.insert(entry_name, inode, kind);
        self.write_directory_content(parent, entries);
        parent_attrs.last_modified = now;
        parent_attrs.last_metadata_changed = now;
        self.write_inode(&parent_attrs);
        proof {
            if old(self)@.consistent() {
                lemma_seed_keeps_consistent(
                    old(self)@,
                    parent,
                    prefix@,
                    child@,
                    is_file,
                    now,
                );
                lemma_seed_keys(old(self)@, parent, prefix@, child@, is_file, now);
            }
        }
        Ok(SeedOutcome {
            inode,
            descend: if is_file {
                None
            } else {
                Some(path)
            },
        })
    }
}

/// One directory of the walk: the names that the remote store listed under
/// `prefix`, and how many of them were taken into the directory `parent`.
#[derive(Debug)]
pub struct SeedFrame {
    pub prefix: Vec<u8>,
    pub parent: u64,
    pub names: Vec<Vec<u8>>,
    pub next: usize,
}

/// A directory of the walk as a mathematical value.
pub struct SeedFrameView {
    pub prefix: Seq<u8>,
    pub parent: u64,
    pub names: Seq<Seq<u8>>,
    pub next: int,
}

impl View for SeedFrame {
    type V = SeedFrameView;

    open spec fn view(&self) -> SeedFrameView {
        SeedFrameView {
            prefix: self.prefix@,
            parent: self.parent,
            names: self.names@.map_values(|n: Vec<u8>| n@),
            next: self.next as int,
        }
    }
}

/// What the walk asks of the embedding program next.
#[derive(Debug)]
pub enum SeedAction {
    /// List the children under this prefix and hand them to `listed`.
    List(Vec<u8>),
    /// Ask whether the object at this path is a file and hand the answer to
    /// `probed`.
    Probe(Vec<u8>),
    /// The tree is filled.
    Done,
}

/// What the walk asks next, as a mathematical value.
pub enum SeedActionView {
    List(Seq<u8>),
    Probe(Seq<u8>),
    Done,
}

impl View for SeedAction {
    type V = SeedActionView;

    open spec fn view(&self) -> SeedActionView {
        match self {
            SeedAction::List(prefix) => SeedActionView::List(prefix@),
            SeedAction::Probe(path) => SeedActionView::Probe(path@),
            SeedAction::Done => SeedActionView::Done,
        }
    }
}

/// The walk through the remote listing, as a mathematical value: the
/// directories that are being filled, outermost first, and the listing that
/// was asked for and is not in yet, with the inode that it belongs to.
pub struct WalkView {
    pub frames: Seq<SeedFrameView>,
    pub pending: Option<(Seq<u8>, u64)>,
}

impl WalkView {
    /// The walk at its start: nothing walked, the listing of the bucket's top
    /// asked for.
    pub open spec fn start() -> WalkView {
        WalkView { frames: Seq::empty(), pending: Some((Seq::empty(), ROOT_INODE)) }
    }

    /// The walk waits for the answer about a child: no listing is out and the
    /// innermost directory has a child left.
    pub open spec fn awaits_probe(self) -> bool {
        &&& self.pending is None
        &&& self.frames.len() > 0
        &&& 0 <= self.frames.last().next < self.frames.last().names.len()
    }

    /// The child that the walk is at.
    pub open spec fn child(self) -> Seq<u8> {
        self.frames.last().names[self.frames.last().next]
    }

    /// The walk without the directories at its inner end that have no child
    /// left.
    pub open spec fn settled(self) -> WalkView
        decreases self.frames.len(),
    {
        if self.pending is Some || self.frames.len() == 0 || self.frames.last().next
            < self.frames.last().names.len() {
            self
        } else {
            (WalkView { frames: self.frames.drop_last(), ..self }).settled()
        }
    }

    /// What the walk asks next.
    pub open spec fn action(self) -> SeedActionView {
        match self.pending {
            Some((prefix, _)) => SeedActionView::List(prefix),
            None => if self.awaits_probe() {
                SeedActionView::Probe(child_path(self.frames.last().prefix, self.child(), true))
            } else {
                SeedActionView::Done
            },
        }
    }

    /// The walk after the listing that it asked for came in: the listed
    /// directory becomes the innermost one, and the walk goes to its first
    /// child, or on behind it if it has none.
    pub open spec fn after_listing(self, names: Seq<Seq<u8>>) -> WalkView {
        match self.pending {
            Some((prefix, parent)) => (WalkView {
                frames: self.frames.push(SeedFrameView { prefix, parent, names, next: 0 }),
                pending: None,
            }).settled(),
            None => self,
        }
    }

    /// The walk after the child it was at was taken in as `inode`: behind a
    /// file it goes to the next child, for a directory it asks for the listing
    /// under the directory's path first.
    pub open spec fn after_probe(self, inode: u64, is_file: bool) -> WalkView {
        let top = self.frames.last();
        let frames = self.frames.update(
            self.frames.len() - 1,
            SeedFrameView { next: top.next + 1, ..top },
        );
        if is_file {
            (WalkView { frames, pending: None }).settled()
        } else {
            WalkView { frames, pending: Some((child_path(top.prefix, self.child(), false), inode)) }
        }
    }
}

/// A settled walk is never stuck: it waits for a listing, or for the answer
/// about a child, or it is at its end with no directory left.
pub proof fn lemma_settled_walk(w: WalkView)
    requires
        forall|i: int| 0 <= i < w.frames.len() ==> 0 <= (#[trigger] w.frames[i]).next,
    ensures
        w.settled().pending == w.pending,
        w.settled().pending is Some || w.settled().awaits_probe() || w.settled().frames.len() == 0,
        w.settled().action() is Done <==> w.pending is None && w.settled().frames.len() == 0,
    decreases w.frames.len(),
{
    if w.pending is Some || w.frames.len() == 0 || w.frames.last().next
        < w.frames.last().names.len() {
    } else {
        let inner = WalkView { frames: w.frames.drop_last(), ..w };
        assert forall|i: int| 0 <= i < inner.frames.len() implies 0 <= (
        #[trigger] inner.frames[i]).next by {
            assert(inner.frames[i] == w.frames[i]);
        }
        lemma_settled_walk(inner);
    }
}

/// The walk through the remote listing that fills a fresh store: depth first,
/// every directory's children in the order in which they were listed.
#[derive(Debug)]
pub struct SeedWalk {
    frames: Vec<SeedFrame>,
    pending: Option<(Vec<u8>, u64)>,
}

impl View for SeedWalk {
    type V = WalkView;

    closed spec fn view(&self) -> WalkView {
        WalkView {
            frames: self.frames@.map_values(|f: SeedFrame| f@),
            pending: match self.pending {
                Some((prefix, parent)) => Some((prefix@, parent)),
                None => None,
            },
        }
    }
}

impl SeedWalk {
    /// A walk at its start.
    pub fn begin() -> (walk: SeedWalk)
        ensures
            walk@ == WalkView::start(),
    {
        let walk = SeedWalk { frames: Vec::new(), pending: Some((Vec::new(), ROOT_INODE)) };
        assert(walk@.frames =~= Seq::<SeedFrameView>::empty());
        walk
    }

    /// What the walk asks next.
    pub fn next_action(&self) -> (action: SeedAction)
        ensures
            action@ == self@.action(),
    {
        match &self.pending {
            Some((prefix, _)) => {
                return SeedAction::List(name_to_vec(prefix.as_slice()));
            },
            None => {},
        }
        let n = self.frames.len();
        if n == 0 {
            return SeedAction::Done;
        }
        let top = &self.frames[n - 1];
        assert(self@.frames.last() == top@);
        if top.next >= top.names.len() {
            return SeedAction::Done;
        }
        let mut path = name_to_vec(top.prefix.as_slice());
        append_bytes(&mut path, top.names[top.next].as_slice());
        SeedAction::Probe(path)
    }

    fn settle(&mut self)
        ensures
            final(self)@ == old(self)@.settled(),
    {
        if self.pending.is_some() {
            return ;
        }
        loop
            invariant
                self.pending is None,
                self@.settled() == old(self)@.settled(),
            decreases self.frames.len(),
        {
            let n = self.frames.len();
            if n == 0 {
                return ;
            }
            assert(self@.frames.last() == self.frames@[n - 1]@);
            if self.frames[n - 1].next < self.frames[n - 1].names.len() {
                return ;
            }
            let ghost before = self@;
            let _ = self.frames.pop();
            assert(self@.frames =~= before.frames.drop_last());
        }
    }

    /// Takes in the listing that the walk asked for: the names of the
    /// children under the prefix, in the order of the listing. Tells whether
    /// the walk had asked for one; if not, nothing changes.
    pub fn listed(&mut self, names: Vec<Vec<u8>>) -> (expected: bool)
        ensures
            expected == (old(self)@.pending is Some),
            final(self)@ == old(self)@.after_listing(names@.map_values(|n: Vec<u8>| n@)),
    {
        let mut pending: Option<(Vec<u8>, u64)> = None;
        std::mem::swap(&mut pending, &mut self.pending);
        match pending {
            None => false,
            Some((prefix, parent)) => {
                let ghost before = old(self)@;
                let ghost frame = SeedFrameView {
                    prefix: prefix@,
                    parent,
                    names: names@.map_values(|n: Vec<u8>| n@),
                    next: 0,
                };
                self.frames.push(SeedFrame { prefix, parent, names, next: 0 });
                assert(self@.frames =~= before.frames.push(frame));
                self.settle();
                true
            },
        }
    }

    /// Takes the child that the walk is at into the store, given what the
    /// remote store says it is, and moves the walk on. The answer is the
    /// child's inode. When the walk is not at a child, or the store cannot
    /// take the child in, neither the walk nor the store changes.
    pub fn probed(&mut self, fs: &mut S3FS, is_file: bool, now: Timestamp) -> (seeded: Result<
        u64,
        FsError,
    >)
        requires
            old(self)@.awaits_probe() && old(fs)@.spec_seed_error(
                old(self)@.frames.last().parent,
                old(self)@.frames.last().prefix,
                old(self)@.child(),
                is_file,
            ) is None ==> old(fs)@.inode_available(),
        ensures
            match seeded {
                Ok(inode) => {
                    let top = old(self)@.frames.last();
                    &&& old(self)@.awaits_probe()
                    &&& old(fs)@.spec_seed_error(top.parent, top.prefix, old(self)@.child(), is_file)
                        is None
                    &&& inode == old(fs)@.counter() + 1
                    &&& final(fs)@ == old(fs)@.spec_seed_state(
                        top.parent,
                        top.prefix,
                        old(self)@.child(),
                        is_file,
                        now,
                    )
                    &&& final(self)@ == old(self)@.after_probe(inode, is_file)
                },
                Err(e) => {
                    let top = old(self)@.frames.last();
                    &&& final(self)@ == old(self)@
                    &&& final(fs)@ == old(fs)@
                    &&& if old(self)@.awaits_probe() {
                        old(fs)@.spec_seed_error(top.parent, top.prefix, old(self)@.child(), is_file)
                            == Some(e)
                    } else {
                        e == FsError::InvalidArgument
                    }
                },
            },
            old(fs)@.consistent() ==> final(fs)@.consistent(),
    {
        let n = self.frames.len();
        if self.pending.is_some() || n == 0 {
            return Err(FsError::InvalidArgument);
        }
        assert(self@.frames.last() == self.frames@[n - 1]@);
        if self.frames[n - 1].next >= self.frames[n - 1].names.len() {
            return Err(FsError::InvalidArgument);
        }
        let top = &self.frames[n - 1];
        let outcome = match fs.seed_entry(
            top.parent,
            top.prefix.as_slice(),
            top.names[top.next].as_slice(),
            is_file,
            now,
        ) {
            Ok(outcome) => outcome,
            Err(e) => {
                return Err(e);
            },
        };
        let ghost before = self@;
        match self.frames.pop() {
            Some(mut frame) => {
                frame.next = frame.next + 1;
                self.frames.push(frame);
            },
            None => {},
        }
        assert(self@.frames =~= before.frames.update(
            n - 1,
            SeedFrameView { next: before.frames.last().next + 1, ..before.frames.last() },
        ));
        match outcome.descend {
            Some(path) => {
                self.pending = Some((path, outcome.inode));
            },
            None => {
                self.settle();
            },
        }
        Ok(outcome.inode)
    }
}

} // verus!
